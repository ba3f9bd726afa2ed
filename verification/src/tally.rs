//! The mathematics of distributions: maps from a name to the number of
//! colours counted under it, how they grow and combine, and the laws that
//! make the order of counting irrelevant.

use vstd::prelude::*;

verus! {

/// The model of a distribution: each name that was counted at all, with the
/// number of times it was counted.
pub type Counts = Map<Seq<char>, nat>;

/// How often `name` was counted; zero for a name that never was.
pub open spec fn count_of(counts: Counts, name: Seq<char>) -> nat {
    if counts.contains_key(name) {
        counts[name]
    } else {
        0
    }
}

/// The distribution that holds one observation of `name` and nothing else.
pub open spec fn single(name: Seq<char>) -> Counts {
    Map::<Seq<char>, nat>::empty().insert(name, 1)
}

/// The distribution after one more observation of `name`: an unseen name
/// enters with count 1, a known one has its count raised by 1.
pub open spec fn recorded(counts: Counts, name: Seq<char>) -> Counts {
    counts.insert(name, count_of(counts, name) + 1)
}

/// Two distributions combined: every name of either, with its two counts
/// added up.
pub open spec fn merged(a: Counts, b: Counts) -> Counts {
    Map::new(
        |name: Seq<char>| a.contains_key(name) || b.contains_key(name),
        |name: Seq<char>| count_of(a, name) + count_of(b, name),
    )
}

/// The distribution of a sequence of observations: the names that occur in
/// it, each with the number of its occurrences.
pub open spec fn tally(names: Seq<Seq<char>>) -> Counts {
    Map::new(
        |name: Seq<char>| names.contains(name),
        |name: Seq<char>| names.to_multiset().count(name),
    )
}

/// The sum of all counts of a distribution with finitely many names.
pub open spec fn total(counts: Counts) -> nat
    decreases counts.dom().len(),
    when counts.dom().finite()
{
    if counts.dom().len() == 0 {
        0
    } else {
        let name = counts.dom().choose();
        counts[name] + total(counts.remove(name))
    }
}

/// The sum of all counts may be taken starting from any name.
pub proof fn lemma_total_remove(counts: Counts, name: Seq<char>)
    requires
        counts.dom().finite(),
        counts.contains_key(name),
    ensures
        total(counts) == counts[name] + total(counts.remove(name)),
    decreases counts.dom().len(),
{
    let first = counts.dom().choose();
    if first != name {
        lemma_total_remove(counts.remove(first), name);
        lemma_total_remove(counts.remove(name), first);
        assert(counts.remove(first).remove(name) =~= counts.remove(name).remove(first));
    }
}

/// Setting one count changes the sum by the difference.
pub proof fn lemma_total_insert(counts: Counts, name: Seq<char>, count: nat)
    requires
        counts.dom().finite(),
    ensures
        total(counts.insert(name, count)) + count_of(counts, name) == total(counts) + count,
{
    let after = counts.insert(name, count);
    lemma_total_remove(after, name);
    if counts.contains_key(name) {
        lemma_total_remove(counts, name);
        assert(after.remove(name) =~= counts.remove(name));
    } else {
        assert(after.remove(name) =~= counts);
    }
}

/// No single count exceeds the sum of all counts.
pub proof fn lemma_count_le_total(counts: Counts, name: Seq<char>)
    requires
        counts.dom().finite(),
    ensures
        count_of(counts, name) <= total(counts),
{
    if counts.contains_key(name) {
        lemma_total_remove(counts, name);
    }
}

/// One observation adds one to the sum of all counts.
pub proof fn lemma_total_recorded(counts: Counts, name: Seq<char>)
    requires
        counts.dom().finite(),
    ensures
        total(recorded(counts, name)) == total(counts) + 1,
        recorded(counts, name).dom().finite(),
{
    lemma_total_insert(counts, name, count_of(counts, name) + 1);
}

/// Recording an observation is merging with the distribution of that one
/// observation.
pub proof fn lemma_recorded_is_merged(counts: Counts, name: Seq<char>)
    ensures
        recorded(counts, name) == merged(counts, single(name)),
{
    assert(recorded(counts, name) =~= merged(counts, single(name)));
}

/// Merging does not depend on the order of its two arguments.
pub proof fn lemma_merge_commutative(a: Counts, b: Counts)
    ensures
        merged(a, b) == merged(b, a),
{
    assert(merged(a, b) =~= merged(b, a));
}

/// Merging three distributions gives the same whichever two are merged
/// first.
pub proof fn lemma_merge_associative(a: Counts, b: Counts, c: Counts)
    ensures
        merged(merged(a, b), c) == merged(a, merged(b, c)),
{
    assert(merged(merged(a, b), c) =~= merged(a, merged(b, c)));
}

/// The empty distribution is the identity of merging, on either side.
pub proof fn lemma_merge_identity(a: Counts)
    ensures
        merged(a, Map::empty()) == a,
        merged(Map::empty(), a) == a,
{
    assert(merged(a, Map::empty()) =~= a);
    assert(merged(Map::empty(), a) =~= a);
}

/// The distribution of no observations is empty, and that of one
/// observation holds that name once.
pub proof fn lemma_tally_small(name: Seq<char>)
    ensures
        tally(Seq::empty()) == Map::<Seq<char>, nat>::empty(),
        tally(seq![name]) == single(name),
{
    let none = Seq::<Seq<char>>::empty();
    none.to_multiset_ensures();
    assert(tally(none) =~= Map::<Seq<char>, nat>::empty());
    lemma_tally_push(none, name);
    assert(none.push(name) =~= seq![name]);
    assert(recorded(Map::<Seq<char>, nat>::empty(), name) =~= single(name));
}

/// The distribution names finitely many names, and counts a name exactly
/// when the name occurs among the observations.
pub proof fn lemma_tally_finite(names: Seq<Seq<char>>)
    ensures
        tally(names).dom().finite(),
        forall|name: Seq<char>| #[trigger]
            count_of(tally(names), name) == names.to_multiset().count(name),
{
    names.to_multiset_ensures();
    vstd::seq_lib::seq_to_set_is_finite(names);
    assert(tally(names).dom() =~= names.to_set());
}

/// Counting one more observation records it.
pub proof fn lemma_tally_push(names: Seq<Seq<char>>, name: Seq<char>)
    ensures
        tally(names.push(name)) == recorded(tally(names), name),
{
    let longer = names.push(name);
    names.to_multiset_ensures();
    longer.to_multiset_ensures();
    assert(longer.to_multiset() =~= names.to_multiset().insert(name));
    assert forall|k: Seq<char>| longer.contains(k) <==> (names.contains(k) || k == name) by {
        if names.contains(k) {
            let i = choose|i: int| 0 <= i < names.len() && names[i] == k;
            assert(longer[i] == k);
        }
        if k == name {
            assert(longer[names.len() as int] == k);
        }
    }
    assert(tally(longer) =~= recorded(tally(names), name));
}

/// Counting two runs of observations one after the other gives the merge of
/// their two distributions.
pub proof fn lemma_tally_concat(first: Seq<Seq<char>>, second: Seq<Seq<char>>)
    ensures
        tally(first + second) == merged(tally(first), tally(second)),
{
    let both = first + second;
    first.to_multiset_ensures();
    second.to_multiset_ensures();
    both.to_multiset_ensures();
    vstd::seq_lib::lemma_multiset_commutative(first, second);
    assert forall|k: Seq<char>|
        both.contains(k) <==> (first.contains(k) || second.contains(k)) by {
        assert(both.to_multiset().count(k) == first.to_multiset().count(k)
            + second.to_multiset().count(k));
    }
    assert(tally(both) =~= merged(tally(first), tally(second)));
}

/// The order of the observations does not matter: two sequences that hold
/// the same names equally often have the same distribution.
pub proof fn lemma_tally_permutation(first: Seq<Seq<char>>, second: Seq<Seq<char>>)
    requires
        first.to_multiset() == second.to_multiset(),
    ensures
        tally(first) == tally(second),
{
    first.to_multiset_ensures();
    second.to_multiset_ensures();
    assert forall|k: Seq<char>| first.contains(k) <==> second.contains(k) by {
        vstd::seq_lib::to_multiset_contains(first, k);
        vstd::seq_lib::to_multiset_contains(second, k);
    }
    assert(tally(first) =~= tally(second));
}

/// The counts of a distribution add up to the number of observations.
pub proof fn lemma_tally_total(names: Seq<Seq<char>>)
    ensures
        tally(names).dom().finite(),
        total(tally(names)) == names.len(),
    decreases names.len(),
{
    lemma_tally_finite(names);
    if names.len() == 0 {
        assert(tally(names).dom() =~= Set::<Seq<char>>::empty());
    } else {
        let front = names.drop_last();
        lemma_tally_total(front);
        lemma_tally_push(front, names.last());
        assert(front.push(names.last()) =~= names);
        lemma_total_recorded(tally(front), names.last());
    }
}

} // verus!
