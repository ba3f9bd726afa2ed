//! The distribution as it is held in memory: a hash map from name to count,
//! and beside it the list of the names that the map holds.

use vstd::prelude::*;
use vstd::hash_map::StringHashMap;
use crate::tally::{count_of, merged, recorded, single, total, Counts};

verus! {

/// The two parts of a distribution. They agree when `names` lists the keys
/// of `counts`, each once.
struct Ledger {
    counts: StringHashMap<u32>,
    names: Vec<String>,
}

impl Ledger {
    spec fn agrees(&self) -> bool {
        &&& forall|i: int|
            0 <= i < self.names.len() ==> self.counts@.contains_key(#[trigger] self.names[i]@)
        &&& forall|name: Seq<char>|
            self.counts@.contains_key(name) ==> exists|i: int|
                0 <= i < self.names.len() && #[trigger] self.names[i]@ == name
        &&& forall|i: int, j: int|
            0 <= i < j < self.names.len() ==> #[trigger] self.names[i]@ != #[trigger] self.names[j]@
    }

    spec fn model(&self) -> Counts {
        Map::new(
            |name: Seq<char>| self.counts@.contains_key(name),
            |name: Seq<char>| self.counts@[name] as nat,
        )
    }

    /// The part of the model that the names from position `from` on make up.
    spec fn tail(&self, from: int) -> Counts {
        Map::new(
            |name: Seq<char>|
                exists|i: int| from <= i < self.names.len() && #[trigger] self.names[i]@ == name,
            |name: Seq<char>| self.counts@[name] as nat,
        )
    }

    /// The part of the model that the names before position `upto` make up.
    spec fn head(&self, upto: int) -> Counts {
        Map::new(
            |name: Seq<char>| exists|i: int| 0 <= i < upto && #[trigger] self.names[i]@ == name,
            |name: Seq<char>| self.counts@[name] as nat,
        )
    }

    proof fn lemma_head_finite(&self, upto: int)
        requires
            0 <= upto <= self.names.len(),
        ensures
            self.head(upto).dom().finite(),
        decreases upto,
    {
        if upto == 0 {
            assert(self.head(0).dom() =~= Set::<Seq<char>>::empty());
        } else {
            self.lemma_head_finite(upto - 1);
            assert(self.head(upto).dom() =~= self.head(upto - 1).dom().insert(
                self.names[upto - 1]@,
            ));
        }
    }

    proof fn lemma_parts(&self, at: int)
        requires
            self.agrees(),
            0 <= at <= self.names.len(),
        ensures
            self.model().dom().finite(),
            self.tail(at).dom().finite(),
            self.head(self.names.len() as int) == self.model(),
            self.tail(0) == self.model(),
            self.tail(self.names.len() as int) == Map::<Seq<char>, nat>::empty(),
            self.head(0) == Map::<Seq<char>, nat>::empty(),
            self.model().len() == self.names.len(),
    {
        let n = self.names.len() as int;
        self.lemma_head_finite(n);
        assert(self.head(n) =~= self.model());
        assert(self.tail(0) =~= self.model());
        assert(self.tail(n) =~= Map::<Seq<char>, nat>::empty());
        assert(self.head(0) =~= Map::<Seq<char>, nat>::empty());
        assert(self.tail(at).dom().subset_of(self.model().dom()));
        vstd::set_lib::lemma_len_subset(self.tail(at).dom(), self.model().dom());
        self.lemma_head_len(n);
    }

    proof fn lemma_head_len(&self, upto: int)
        requires
            self.agrees(),
            0 <= upto <= self.names.len(),
        ensures
            self.head(upto).dom().finite(),
            self.head(upto).dom().len() == upto,
        decreases upto,
    {
        self.lemma_head_finite(upto);
        if upto == 0 {
            assert(self.head(0).dom() =~= Set::<Seq<char>>::empty());
        } else {
            self.lemma_head_len(upto - 1);
            assert(self.head(upto).dom() =~= self.head(upto - 1).dom().insert(
                self.names[upto - 1]@,
            ));
            assert(!self.head(upto - 1).dom().contains(self.names[upto - 1]@));
        }
    }

    fn empty() -> (ledger: Ledger)
        ensures
            ledger.agrees(),
            ledger.model() == Map::<Seq<char>, nat>::empty(),
    {
        let ledger = Ledger { counts: StringHashMap::new(), names: Vec::new() };
        assert(ledger.model() =~= Map::<Seq<char>, nat>::empty());
        ledger
    }

    fn with_capacity(capacity: usize) -> (ledger: Ledger)
        ensures
            ledger.agrees(),
            ledger.model() == Map::<Seq<char>, nat>::empty(),
    {
        let ledger = Ledger {
            counts: StringHashMap::with_capacity(capacity),
            names: Vec::with_capacity(capacity),
        };
        assert(ledger.model() =~= Map::<Seq<char>, nat>::empty());
        ledger
    }

    fn count(&self, name: &str) -> (count: u32)
        ensures
            count == count_of(self.model(), name@),
    {
        match self.counts.get(name) {
            Some(count) => *count,
            None => 0,
        }
    }

    fn set(&mut self, name: String, count: u32)
        requires
            old(self).agrees(),
        ensures
            final(self).agrees(),
            final(self).model() == old(self).model().insert(name@, count as nat),
            old(self).counts@.contains_key(name@) ==> final(self).names@ == old(self).names@,
            !old(self).counts@.contains_key(name@) ==> final(self).names@ == old(self).names@.push(
                name,
            ),
    {
        if !self.counts.contains_key(name.as_str()) {
            self.names.push(name.clone());
        }
        self.counts.insert(name, count);
        proof {
            let before = old(self).names@;
            let after = self.names@;
            assert forall|i: int| 0 <= i < after.len() implies self.counts@.contains_key(
                #[trigger] after[i]@,
            ) by {
                if i < before.len() {
                    assert(after[i] == before[i]);
                }
            }
            assert forall|key: Seq<char>| self.counts@.contains_key(key) implies exists|i: int|
                0 <= i < after.len() && #[trigger] after[i]@ == key by {
                if key == name@ && !old(self).counts@.contains_key(name@) {
                    assert(after[before.len() as int]@ == key);
                } else {
                    let i = choose|i: int| 0 <= i < before.len() && #[trigger] before[i]@ == key;
                    assert(after[i]@ == key);
                }
            }
            assert forall|i: int, j: int| 0 <= i < j < after.len() implies #[trigger] after[i]@
                != #[trigger] after[j]@ by {
                assert(after[i] == before[i]);
                if j < before.len() {
                    assert(after[j] == before[j]);
                }
            }
            assert(self.model() =~= old(self).model().insert(name@, count as nat));
        }
    }
}

/// A frequency distribution: for each name that was counted at all, how many
/// colours were counted under it. Its view is the map from name to count.
pub struct Distribution {
    ledger: Ledger,
}

impl View for Distribution {
    type V = Counts;

    closed spec fn view(&self) -> Counts {
        self.ledger.model()
    }
}

/// The counts of a distribution do not add up to the number of colours that
/// were to be counted.
#[derive(Clone, Copy, Debug, PartialEq, Eq, Structural)]
pub struct CountMismatch {
    /// How many colours were to be counted.
    pub expected: u32,
    /// What the counts add up to.
    pub counted: u128,
}

/// Two distributions can be merged when no sum of two counts of one name
/// exceeds what a count can hold.
pub open spec fn mergeable(a: Counts, b: Counts) -> bool {
    forall|name: Seq<char>| #[trigger] count_of(a, name) + count_of(b, name) <= u32::MAX
}

/// `entries` lists `counts`: it holds each name of the distribution once,
/// with its count, and nothing else.
pub open spec fn lists(entries: Seq<(String, u32)>, counts: Counts) -> bool {
    &&& forall|i: int|
        0 <= i < entries.len() ==> counts.contains_key((#[trigger] entries[i]).0@) && counts[entries[i].0@]
            == entries[i].1
    &&& forall|name: Seq<char>|
        counts.contains_key(name) ==> exists|i: int|
            0 <= i < entries.len() && (#[trigger] entries[i]).0@ == name
    &&& forall|i: int, j: int|
        0 <= i < j < entries.len() ==> (#[trigger] entries[i]).0@ != (#[trigger] entries[j]).0@
}

/// A listing stays a listing of the same distribution however its entries
/// are rearranged.
pub proof fn lemma_lists_rearranged(
    before: Seq<(String, u32)>,
    after: Seq<(String, u32)>,
    counts: Counts,
)
    requires
        lists(before, counts),
        before.to_multiset() == after.to_multiset(),
    ensures
        lists(after, counts),
        after.len() == before.len(),
{
    before.to_multiset_ensures();
    after.to_multiset_ensures();
    assert forall|i: int| 0 <= i < after.len() implies counts.contains_key(
        (#[trigger] after[i]).0@,
    ) && counts[after[i].0@] == after[i].1 by {
        assert(after.contains(after[i]));
        vstd::seq_lib::to_multiset_contains(after, after[i]);
        vstd::seq_lib::to_multiset_contains(before, after[i]);
        let j = choose|j: int| 0 <= j < before.len() && before[j] == after[i];
        assert(counts.contains_key(before[j].0@));
    }
    assert forall|name: Seq<char>| counts.contains_key(name) implies exists|i: int|
        0 <= i < after.len() && (#[trigger] after[i]).0@ == name by {
        let j = choose|j: int| 0 <= j < before.len() && (#[trigger] before[j]).0@ == name;
        assert(before.contains(before[j]));
        vstd::seq_lib::to_multiset_contains(before, before[j]);
        vstd::seq_lib::to_multiset_contains(after, before[j]);
        let i = choose|i: int| 0 <= i < after.len() && after[i] == before[j];
        assert(after[i].0@ == name);
    }
    assert(before.no_duplicates()) by {
        assert forall|i: int, j: int|
            0 <= i < before.len() && 0 <= j < before.len() && i != j implies before[i]
            != before[j] by {
            if i < j {
                assert(before[i].0@ != before[j].0@);
            } else {
                assert(before[j].0@ != before[i].0@);
            }
        }
    }
    before.lemma_multiset_has_no_duplicates();
    after.lemma_multiset_has_no_duplicates_conv();
    assert forall|i: int, j: int| 0 <= i < j < after.len() implies (#[trigger] after[i]).0@ != (
    #[trigger] after[j]).0@ by {
        if after[i].0@ == after[j].0@ {
            assert(after.contains(after[i]));
            assert(after.contains(after[j]));
            vstd::seq_lib::to_multiset_contains(after, after[i]);
            vstd::seq_lib::to_multiset_contains(before, after[i]);
            vstd::seq_lib::to_multiset_contains(after, after[j]);
            vstd::seq_lib::to_multiset_contains(before, after[j]);
            let a = choose|a: int| 0 <= a < before.len() && before[a] == after[i];
            let b = choose|b: int| 0 <= b < before.len() && before[b] == after[j];
            if a < b {
                assert(before[a].0@ != before[b].0@);
            } else if b < a {
                assert(before[b].0@ != before[a].0@);
            }
            assert(after[i] == after[j]);
        }
    }
}

impl Distribution {
    #[verifier::type_invariant]
    spec fn well_formed(self) -> bool {
        self.ledger.agrees()
    }

    /// The distribution of no observations.
    pub fn new() -> (empty: Distribution)
        ensures
            empty@ == Map::<Seq<char>, nat>::empty(),
    {
        Distribution { ledger: Ledger::empty() }
    }

    /// The distribution of no observations, with room for `capacity` names.
    pub fn with_capacity(capacity: usize) -> (empty: Distribution)
        ensures
            empty@ == Map::<Seq<char>, nat>::empty(),
    {
        Distribution { ledger: Ledger::with_capacity(capacity) }
    }

    /// The distribution of a single observation of `name`.
    pub fn single(name: String) -> (one: Distribution)
        ensures
            one@ == single(name@),
    {
        let mut ledger = Ledger::empty();
        ledger.set(name, 1);
        Distribution { ledger }
    }

    /// How often `name` was counted; zero for a name that never was.
    pub fn count(&self, name: &str) -> (count: u32)
        ensures
            count == count_of(self@, name@),
    {
        self.ledger.count(name)
    }

    /// How many different names were counted.
    pub fn len(&self) -> (len: usize)
        ensures
            self@.dom().finite(),
            len == self@.dom().len(),
    {
        proof {
            use_type_invariant(self);
            self.ledger.lemma_parts(0);
        }
        self.ledger.names.len()
    }

    /// Records one observation of `name`: an unseen name enters with count
    /// 1, a known name has its count raised by 1.
    pub fn record(&mut self, name: String)
        requires
            count_of(old(self)@, name@) < u32::MAX,
        ensures
            final(self)@ == recorded(old(self)@, name@),
    {
        proof {
            use_type_invariant(&*self);
        }
        let mut ledger = Ledger::empty();
        std::mem::swap(&mut ledger, &mut self.ledger);
        let seen = ledger.count(name.as_str());
        ledger.set(name, seen + 1);
        self.ledger = ledger;
    }

    /// The sum of all counts.
    pub fn total(&self) -> (sum: u128)
        ensures
            self@.dom().finite(),
            sum == total(self@),
    {
        proof {
            use_type_invariant(self);
            self.ledger.lemma_parts(0);
        }
        let mut sum: u128 = 0;
        let mut i: usize = 0;
        while i < self.ledger.names.len()
            invariant
                self.ledger.agrees(),
                0 <= i <= self.ledger.names.len(),
                sum <= i * 0xffff_ffff,
                sum + total(self.ledger.tail(i as int)) == total(self.ledger.model()),
            decreases self.ledger.names.len() - i,
        {
            let count = self.ledger.count(self.ledger.names[i].as_str());
            proof {
                let name = self.ledger.names[i as int]@;
                let rest = self.ledger.tail(i as int);
                self.ledger.lemma_parts(i as int);
                assert(rest.contains_key(name));
                vstd::set_lib::lemma_len_subset(Set::<Seq<char>>::empty(), rest.dom());
                crate::tally::lemma_total_remove(rest, name);
                assert(rest.remove(name) =~= self.ledger.tail(i + 1));
            }
            sum = sum + count as u128;
            i = i + 1;
        }
        proof {
            self.ledger.lemma_parts(i as int);
        }
        sum
    }

    /// Checks that the counts add up to `expected`, the number of colours
    /// that were to be counted.
    pub fn check_total(&self, expected: u32) -> (result: Result<(), CountMismatch>)
        ensures
            self@.dom().finite(),
            result is Ok <==> total(self@) == expected,
            result matches Err(mismatch) ==> mismatch.expected == expected && mismatch.counted
                == total(self@),
    {
        let counted = self.total();
        if counted == expected as u128 {
            Ok(())
        } else {
            Err(CountMismatch { expected, counted })
        }
    }

    /// The names with their counts, each name once.
    pub fn entries(&self) -> (entries: Vec<(String, u32)>)
        ensures
            lists(entries@, self@),
            self@.dom().finite(),
            entries.len() == self@.dom().len(),
    {
        proof {
            use_type_invariant(self);
            self.ledger.lemma_parts(0);
        }
        let mut entries: Vec<(String, u32)> = Vec::with_capacity(self.ledger.names.len());
        let mut i: usize = 0;
        while i < self.ledger.names.len()
            invariant
                self.ledger.agrees(),
                0 <= i <= self.ledger.names.len(),
                entries.len() == i,
                forall|j: int|
                    0 <= j < i ==> (#[trigger] entries[j]).0@ == self.ledger.names[j]@
                        && entries[j].1 == self.ledger.counts@[self.ledger.names[j]@],
            decreases self.ledger.names.len() - i,
        {
            let name = self.ledger.names[i].clone();
            let count = self.ledger.count(name.as_str());
            entries.push((name, count));
            i = i + 1;
        }
        proof {
            assert forall|name: Seq<char>| self@.contains_key(name) implies exists|j: int|
                0 <= j < entries.len() && (#[trigger] entries[j]).0@ == name by {
                let j = choose|j: int|
                    0 <= j < self.ledger.names.len() && #[trigger] self.ledger.names[j]@ == name;
                assert(entries[j].0@ == name);
            }
        }
        entries
    }

    /// Tells whether `self` and `other` can be merged without a count
    /// running over.
    pub fn can_merge(&self, other: &Distribution) -> (fits: bool)
        ensures
            fits == mergeable(self@, other@),
    {
        proof {
            use_type_invariant(self);
            use_type_invariant(other);
        }
        let mut i: usize = 0;
        while i < other.ledger.names.len()
            invariant
                other.ledger.agrees(),
                0 <= i <= other.ledger.names.len(),
                forall|j: int|
                    0 <= j < i ==> count_of(self@, #[trigger] other.ledger.names[j]@) + count_of(
                        other@,
                        other.ledger.names[j]@,
                    ) <= u32::MAX,
            decreases other.ledger.names.len() - i,
        {
            let name = other.ledger.names[i].as_str();
            let theirs = other.ledger.count(name);
            let ours = self.ledger.count(name);
            if ours > u32::MAX - theirs {
                assert(count_of(self@, name@) + count_of(other@, name@) > u32::MAX);
                return false;
            }
            i = i + 1;
        }
        proof {
            assert forall|name: Seq<char>| #[trigger]
                count_of(self@, name) + count_of(other@, name) <= u32::MAX by {
                if other@.contains_key(name) {
                    let j = choose|j: int|
                        0 <= j < other.ledger.names.len() && #[trigger] other.ledger.names[j]@
                            == name;
                    assert(count_of(self@, other.ledger.names[j]@) + count_of(
                        other@,
                        other.ledger.names[j]@,
                    ) <= u32::MAX);
                }
            }
        }
        true
    }
}

impl Clone for Distribution {
    /// A distribution with the same names and counts.
    fn clone(&self) -> (copy: Distribution)
        ensures
            copy@ == self@,
    {
        proof {
            use_type_invariant(self);
            self.ledger.lemma_parts(0);
        }
        let mut ledger = Ledger::with_capacity(self.ledger.names.len());
        let mut i: usize = 0;
        while i < self.ledger.names.len()
            invariant
                self.ledger.agrees(),
                ledger.agrees(),
                0 <= i <= self.ledger.names.len(),
                ledger.model() == self.ledger.head(i as int),
            decreases self.ledger.names.len() - i,
        {
            let name = self.ledger.names[i].clone();
            let count = self.ledger.count(name.as_str());
            proof {
                assert(self.ledger.head(i as int).insert(name@, count as nat)
                    =~= self.ledger.head(i + 1));
            }
            ledger.set(name, count);
            i = i + 1;
        }
        proof {
            self.ledger.lemma_parts(0);
        }
        Distribution { ledger }
    }
}

/// Combines two distributions into one that holds every name of either,
/// with its two counts added up.
pub fn merge_maps(map1: Distribution, map2: Distribution) -> (sum: Distribution)
    requires
        mergeable(map1@, map2@),
    ensures
        sum@ == merged(map1@, map2@),
{
    proof {
        use_type_invariant(&map1);
        use_type_invariant(&map2);
        map2.ledger.lemma_parts(0);
        assert(merged(map1@, map2.ledger.head(0)) =~= map1@);
    }
    let ghost start = map1@;
    let Distribution { ledger: mut res } = map1;
    let mut i: usize = 0;
    while i < map2.ledger.names.len()
        invariant
            res.agrees(),
            map2.ledger.agrees(),
            mergeable(start, map2.ledger.model()),
            0 <= i <= map2.ledger.names.len(),
            res.model() == merged(start, map2.ledger.head(i as int)),
        decreases map2.ledger.names.len() - i,
    {
        let name = map2.ledger.names[i].clone();
        let theirs = map2.ledger.count(name.as_str());
        let ours = res.count(name.as_str());
        proof {
            let before = map2.ledger.head(i as int);
            let after = map2.ledger.head(i + 1);
            assert(!before.contains_key(name@));
            assert(after.contains_key(name@)) by {
                assert(map2.ledger.names[i as int]@ == name@);
            }
            assert(count_of(start, name@) + count_of(map2.ledger.model(), name@) <= u32::MAX);
            assert(res.model().insert(name@, (ours + theirs) as nat) =~= merged(start, after));
        }
        res.set(name, ours + theirs);
        i = i + 1;
    }
    proof {
        map2.ledger.lemma_parts(0);
    }
    Distribution { ledger: res }
}

/// Merges two distributions where that is possible, and says so where a
/// count would run over.
pub fn checked_merge(map1: Distribution, map2: Distribution) -> (sum: Option<Distribution>)
    ensures
        sum is Some <==> mergeable(map1@, map2@),
        sum matches Some(d) ==> d@ == merged(map1@, map2@),
{
    if map1.can_merge(&map2) {
        Some(merge_maps(map1, map2))
    } else {
        None
    }
}

} // verus!
