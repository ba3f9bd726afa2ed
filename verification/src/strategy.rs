//! The three ways of classifying the colour space.

use vstd::prelude::*;
use crate::catalog::StandardColor;
use crate::color::{color_generator, lemma_stepping_matches_indexing, stepped, COLOR_SPACE_SIZE};
use crate::distribution::{checked_merge, mergeable, Distribution};
use crate::parallel::{items, par_map_range, par_reduce_range, range, yields, Reduction};
use crate::resolver::{
    classify, nearest_color_single, nearest_index, nearest_name, ClassifyError,
};
use crate::tally::{
    count_of, lemma_count_le_total, lemma_tally_concat, lemma_tally_permutation, lemma_tally_push,
    lemma_tally_small, lemma_tally_total, merged, recorded, single, tally, total, Counts,
};

verus! {

/// The names under which the first `color_num` colours of the space are
/// counted, in canonical order.
pub open spec fn names_upto(catalog: Seq<StandardColor>, color_num: nat) -> Seq<Seq<char>> {
    Seq::new(color_num, |i: int| nearest_name(catalog, i))
}

/// The distribution of the first `color_num` colours of the space over the
/// names of the catalog: each colour is counted under the name of its
/// nearest match.
pub open spec fn census(catalog: Seq<StandardColor>, color_num: nat) -> Counts {
    tally(names_upto(catalog, color_num))
}

/// Counting one colour more records the name of its nearest match.
pub proof fn lemma_census_step(catalog: Seq<StandardColor>, color_num: nat)
    ensures
        census(catalog, color_num + 1) == recorded(
            census(catalog, color_num),
            nearest_name(catalog, color_num as int),
        ),
        census(catalog, color_num).dom().finite(),
        total(census(catalog, color_num)) == color_num,
        census(catalog, 0) == Map::<Seq<char>, nat>::empty(),
{
    let names = names_upto(catalog, color_num);
    let name = nearest_name(catalog, color_num as int);
    assert(names_upto(catalog, color_num + 1) =~= names.push(name));
    lemma_tally_push(names, name);
    lemma_tally_total(names);
    lemma_tally_small(name);
    assert(names_upto(catalog, 0) =~= Seq::<Seq<char>>::empty());
}

/// Sequential strategy: walks the first `color_num` colours in stepping
/// order and records the name of each one's nearest match.
pub fn run_single_threaded(standard_colors: &Vec<StandardColor>, color_num: u32) -> (result: Result<
    Distribution,
    ClassifyError,
>)
    requires
        color_num <= COLOR_SPACE_SIZE,
    ensures
        standard_colors.len() == 0 <==> result is Err,
        result matches Ok(distribution) ==> distribution@ == census(
            standard_colors@,
            color_num as nat,
        ) && total(distribution@) == color_num,
{
    proof {
        lemma_census_total(standard_colors@, color_num as nat);
    }
    if standard_colors.len() == 0 {
        return Err(ClassifyError::EmptyCatalog);
    }
    let mut distribution = Distribution::with_capacity(standard_colors.len());
    let mut generator = color_generator();
    let mut done: u32 = 0;
    proof {
        lemma_census_step(standard_colors@, 0);
    }
    while done < color_num
        invariant
            standard_colors.len() > 0,
            done <= color_num <= COLOR_SPACE_SIZE,
            generator.position() == done,
            distribution@ == census(standard_colors@, done as nat),
        decreases color_num - done,
    {
        proof {
            lemma_stepping_matches_indexing(done as nat);
            lemma_census_step(standard_colors@, done as nat);
            lemma_count_le_total(
                census(standard_colors@, done as nat),
                nearest_name(standard_colors@, done as int),
            );
        }
        let color = generator.next().unwrap();
        let nearest = nearest_color_single(standard_colors, color)?;
        distribution.record(nearest.name);
        done = done + 1;
    }
    Ok(distribution)
}

/// Parallel map-collect strategy: the names of the nearest matches of the
/// first `color_num` colours are worked out in parallel, by direct index,
/// and then recorded one after the other.
pub fn run_multithreaded_generator(standard_colors: &Vec<StandardColor>, color_num: u32) -> (result:
    Result<Distribution, ClassifyError>)
    requires
        color_num <= COLOR_SPACE_SIZE,
    ensures
        standard_colors.len() == 0 <==> result is Err,
        result matches Ok(distribution) ==> distribution@ == census(
            standard_colors@,
            color_num as nat,
        ) && total(distribution@) == color_num,
{
    proof {
        lemma_census_total(standard_colors@, color_num as nat);
    }
    if standard_colors.len() == 0 {
        return Err(ClassifyError::EmptyCatalog);
    }
    let name_of = |x: u32| -> (name: String)
        ensures
            name@ == nearest_name(standard_colors@, x as int),
        { classify(standard_colors, x) };
    let names = par_map_range(color_num, name_of);
    let mut distribution = Distribution::with_capacity(standard_colors.len());
    let mut done: usize = 0;
    proof {
        lemma_census_step(standard_colors@, 0);
    }
    while done < names.len()
        invariant
            names.len() == color_num,
            color_num <= COLOR_SPACE_SIZE,
            done <= names.len(),
            forall|i: int|
                0 <= i < color_num ==> (#[trigger] names[i])@ == nearest_name(standard_colors@, i),
            distribution@ == census(standard_colors@, done as nat),
        decreases names.len() - done,
    {
        proof {
            lemma_census_step(standard_colors@, done as nat);
            lemma_count_le_total(
                census(standard_colors@, done as nat),
                nearest_name(standard_colors@, done as int),
            );
        }
        distribution.record(names[done].clone());
        done = done + 1;
    }
    Ok(distribution)
}

/// A partial result of the parallel reduction: a distribution, or nothing
/// where a count ran over.
pub open spec fn partial_view(partial: Option<Distribution>) -> Option<Counts> {
    match partial {
        Some(distribution) => Some(distribution@),
        None => None,
    }
}

/// What combining two partial results gives: the merge of the two
/// distributions where both are there and can be merged.
pub open spec fn merged_partial(a: Option<Counts>, b: Option<Counts>) -> Option<Counts> {
    match (a, b) {
        (Some(x), Some(y)) => if mergeable(x, y) {
            Some(merged(x, y))
        } else {
            None
        },
        _ => None,
    }
}

/// The names under which the colours at the given positions are counted.
pub open spec fn names_of(catalog: Seq<StandardColor>, positions: Seq<u32>) -> Seq<Seq<char>> {
    Seq::new(positions.len(), |i: int| nearest_name(catalog, positions[i] as int))
}

/// Whatever shape a reduction takes, it yields the distribution of its
/// items: merging is associative, the empty distribution is its identity,
/// and no count can run over while there are no more items than a count
/// can hold.
pub proof fn lemma_reduction_yields_tally<
    F: Fn(u32) -> Option<Distribution>,
    I: Fn() -> Option<Distribution>,
    C: Fn(Option<Distribution>, Option<Distribution>) -> Option<Distribution>,
>(
    catalog: Seq<StandardColor>,
    shape: Reduction,
    make: F,
    identity: I,
    combine: C,
    value: Option<Distribution>,
)
    requires
        yields(shape, make, identity, combine, value),
        items(shape).len() <= u32::MAX,
        forall|x: u32, r: Option<Distribution>| #[trigger]
            call_ensures(make, (x,), r) ==> partial_view(r) == Some(
                single(nearest_name(catalog, x as int)),
            ),
        forall|r: Option<Distribution>| #[trigger]
            call_ensures(identity, (), r) ==> partial_view(r) == Some(
                Map::<Seq<char>, nat>::empty(),
            ),
        forall|a: Option<Distribution>, b: Option<Distribution>, r: Option<Distribution>| #[trigger]
            call_ensures(combine, (a, b), r) ==> partial_view(r) == merged_partial(
                partial_view(a),
                partial_view(b),
            ),
    ensures
        partial_view(value) == Some(tally(names_of(catalog, items(shape)))),
    decreases shape,
{
    match shape {
        Reduction::Identity => {
            assert(names_of(catalog, items(shape)) =~= Seq::<Seq<char>>::empty());
            lemma_tally_small(Seq::empty());
        },
        Reduction::Item(number) => {
            let name = nearest_name(catalog, number as int);
            assert(names_of(catalog, items(shape)) =~= seq![name]);
            lemma_tally_small(name);
        },
        Reduction::Combined(left, right) => {
            let (a, b) = choose|a: Option<Distribution>, b: Option<Distribution>|
                yields(*left, make, identity, combine, a) && yields(
                    *right,
                    make,
                    identity,
                    combine,
                    b,
                ) && #[trigger] call_ensures(combine, (a, b), value);
            lemma_reduction_yields_tally(catalog, *left, make, identity, combine, a);
            lemma_reduction_yields_tally(catalog, *right, make, identity, combine, b);
            let first = names_of(catalog, items(*left));
            let second = names_of(catalog, items(*right));
            assert(names_of(catalog, items(shape)) =~= first + second);
            lemma_tally_concat(first, second);
            lemma_tally_total(first);
            lemma_tally_total(second);
            assert forall|name: Seq<char>| #[trigger]
                count_of(tally(first), name) + count_of(tally(second), name) <= u32::MAX by {
                lemma_count_le_total(tally(first), name);
                lemma_count_le_total(tally(second), name);
            }
        },
    }
}

/// Parallel map-reduce strategy: every colour among the first `color_num`
/// becomes, in parallel and by direct index, the distribution of that one
/// observation, and these are merged pairwise, in whatever grouping the
/// worker pool arrives at, starting from empty distributions.
pub fn run_multithreaded_merge(standard_colors: &Vec<StandardColor>, color_num: u32) -> (result:
    Result<Distribution, ClassifyError>)
    requires
        color_num <= COLOR_SPACE_SIZE,
    ensures
        standard_colors.len() == 0 <==> result is Err,
        result matches Ok(distribution) ==> distribution@ == census(
            standard_colors@,
            color_num as nat,
        ) && total(distribution@) == color_num,
{
    proof {
        lemma_census_total(standard_colors@, color_num as nat);
    }
    if standard_colors.len() == 0 {
        return Err(ClassifyError::EmptyCatalog);
    }
    let make = |x: u32| -> (one: Option<Distribution>)
        ensures
            partial_view(one) == Some(single(nearest_name(standard_colors@, x as int))),
        { Some(Distribution::single(classify(standard_colors, x))) };
    let identity = || -> (none: Option<Distribution>)
        ensures
            partial_view(none) == Some(Map::<Seq<char>, nat>::empty()),
        { Some(Distribution::new()) };
    let combine = |a: Option<Distribution>, b: Option<Distribution>| -> (sum: Option<Distribution>)
        ensures
            partial_view(sum) == merged_partial(partial_view(a), partial_view(b)),
        {
            match (a, b) {
                (Some(x), Some(y)) => checked_merge(x, y),
                _ => None,
            }
        };
    let ghost (make_spec, identity_spec, combine_spec) = (make, identity, combine);
    let reduced = par_reduce_range(color_num, make, identity, combine);
    proof {
        let shape = choose|shape: Reduction|
            items(shape) == range(color_num as nat) && #[trigger] yields(
                shape,
                make_spec,
                identity_spec,
                combine_spec,
                reduced,
            );
        lemma_reduction_yields_tally(
            standard_colors@,
            shape,
            make_spec,
            identity_spec,
            combine_spec,
            reduced,
        );
        assert(names_of(standard_colors@, items(shape)) =~= names_upto(
            standard_colors@,
            color_num as nat,
        ));
    }
    Ok(reduced.unwrap())
}

/// What recording the observations one after the other, in their order,
/// leaves in a distribution that started out empty.
pub open spec fn recorded_in_turn(names: Seq<Seq<char>>) -> Counts
    decreases names.len(),
{
    if names.len() == 0 {
        Map::empty()
    } else {
        recorded(recorded_in_turn(names.drop_last()), names.last())
    }
}

/// The names under which the first `color_num` colours are counted when the
/// space is walked by stepping.
pub open spec fn stepped_names(catalog: Seq<StandardColor>, color_num: nat) -> Seq<Seq<char>> {
    Seq::new(
        color_num,
        |i: int| catalog[nearest_index(catalog, stepped(i as nat).unwrap())].name@,
    )
}

/// What a reduction of the given shape arrives at: every item is the
/// distribution of the one colour at its position, every identity value the
/// empty distribution, and every combination a merge.
pub open spec fn reduced(catalog: Seq<StandardColor>, shape: Reduction) -> Counts
    decreases shape,
{
    match shape {
        Reduction::Identity => Map::empty(),
        Reduction::Item(number) => single(nearest_name(catalog, number as int)),
        Reduction::Combined(left, right) => merged(reduced(catalog, *left), reduced(catalog, *right)),
    }
}

/// Recording observations one after the other counts them.
pub proof fn lemma_recorded_in_turn(names: Seq<Seq<char>>)
    ensures
        recorded_in_turn(names) == tally(names),
    decreases names.len(),
{
    if names.len() == 0 {
        lemma_tally_small(Seq::empty());
        assert(names =~= Seq::<Seq<char>>::empty());
    } else {
        lemma_recorded_in_turn(names.drop_last());
        lemma_tally_push(names.drop_last(), names.last());
        assert(names.drop_last().push(names.last()) =~= names);
    }
}

/// A reduction arrives at the distribution of its items, whatever its
/// shape.
pub proof fn lemma_reduced(catalog: Seq<StandardColor>, shape: Reduction)
    ensures
        reduced(catalog, shape) == tally(names_of(catalog, items(shape))),
    decreases shape,
{
    match shape {
        Reduction::Identity => {
            assert(names_of(catalog, items(shape)) =~= Seq::<Seq<char>>::empty());
            lemma_tally_small(Seq::empty());
        },
        Reduction::Item(number) => {
            let name = nearest_name(catalog, number as int);
            assert(names_of(catalog, items(shape)) =~= seq![name]);
            lemma_tally_small(name);
        },
        Reduction::Combined(left, right) => {
            lemma_reduced(catalog, *left);
            lemma_reduced(catalog, *right);
            let first = names_of(catalog, items(*left));
            let second = names_of(catalog, items(*right));
            assert(names_of(catalog, items(shape)) =~= first + second);
            lemma_tally_concat(first, second);
        },
    }
}

/// Positions that are the same up to their order are counted under names
/// that are the same up to their order.
pub proof fn lemma_names_rearranged(
    catalog: Seq<StandardColor>,
    first: Seq<u32>,
    second: Seq<u32>,
)
    requires
        first.to_multiset() == second.to_multiset(),
    ensures
        names_of(catalog, first).to_multiset() == names_of(catalog, second).to_multiset(),
    decreases first.len(),
{
    first.to_multiset_ensures();
    second.to_multiset_ensures();
    if first.len() == 0 {
        assert(names_of(catalog, first) =~= names_of(catalog, second));
    } else {
        let x = first.last();
        let front = first.drop_last();
        assert(front.push(x) =~= first);
        front.to_multiset_ensures();
        assert(first.contains(x)) by {
            assert(first[first.len() - 1] == x);
        }
        vstd::seq_lib::to_multiset_contains(first, x);
        vstd::seq_lib::to_multiset_contains(second, x);
        let j = choose|j: int| 0 <= j < second.len() && second[j] == x;
        let rest = second.remove(j);
        assert(front.to_multiset() =~= first.to_multiset().remove(x));
        assert(rest.to_multiset() =~= second.to_multiset().remove(x));
        lemma_names_rearranged(catalog, front, rest);
        let name = nearest_name(catalog, x as int);
        let front_names = names_of(catalog, front);
        let rest_names = names_of(catalog, rest);
        assert(names_of(catalog, first) =~= front_names.push(name));
        assert(names_of(catalog, second) =~= rest_names.insert(j, name));
        front_names.to_multiset_ensures();
        vstd::seq_lib::to_multiset_insert(rest_names, j, name);
    }
}

/// The three strategies arrive at the same distribution, the census of the
/// first `color_num` colours: recording in stepping order, recording the
/// names worked out by direct index in whatever order `arrival` they come
/// in, and reducing the single observations in whatever shape.
pub proof fn lemma_strategies_agree(
    catalog: Seq<StandardColor>,
    color_num: nat,
    arrival: Seq<u32>,
    shape: Reduction,
)
    requires
        color_num <= COLOR_SPACE_SIZE,
        arrival.to_multiset() == range(color_num).to_multiset(),
        items(shape) == range(color_num),
    ensures
        recorded_in_turn(stepped_names(catalog, color_num)) == census(catalog, color_num),
        recorded_in_turn(names_of(catalog, arrival)) == census(catalog, color_num),
        reduced(catalog, shape) == census(catalog, color_num),
{
    let direct = names_upto(catalog, color_num);
    assert(stepped_names(catalog, color_num) =~= direct) by {
        assert forall|i: int| 0 <= i < color_num implies stepped_names(catalog, color_num)[i]
            == direct[i] by {
            lemma_stepping_matches_indexing(i as nat);
        }
    }
    assert(names_of(catalog, range(color_num)) =~= direct);
    lemma_recorded_in_turn(direct);
    lemma_recorded_in_turn(names_of(catalog, arrival));
    lemma_names_rearranged(catalog, arrival, range(color_num));
    lemma_tally_permutation(names_of(catalog, arrival), direct);
    lemma_reduced(catalog, shape);
}

/// The sum of all counts of a census is the number of colours counted.
pub proof fn lemma_census_total(catalog: Seq<StandardColor>, color_num: nat)
    ensures
        census(catalog, color_num).dom().finite(),
        total(census(catalog, color_num)) == color_num,
{
    lemma_tally_total(names_upto(catalog, color_num));
}

/// The ways of classifying the colour space that can be asked for by name.
#[derive(Clone, Copy, Debug, PartialEq, Eq, Structural)]
pub enum Strategy {
    /// One colour after the other, in stepping order.
    SingleThreaded,
    /// Not implemented: classifies nothing and yields an empty distribution.
    PerColor,
    /// In parallel, the names collected first and counted afterwards.
    MultiThreadedGenerator,
    /// In parallel, one small distribution for each colour, merged pairwise.
    MultiThreadedMerge,
}

/// What `String::to_lowercase` makes of `name`.
pub uninterp spec fn lowercased(name: Seq<char>) -> Seq<char>;

/// Trusted: `str::to_lowercase` gives the same text for the same text.
#[verifier::external_body]
fn to_lowercase(name: &str) -> (lower: String)
    ensures
        lower@ == lowercased(name@),
{
    name.to_lowercase()
}

/// The strategy that a name in lower case stands for. A name that stands
/// for none selects the map-reduce strategy.
pub open spec fn strategy_named(lower: Seq<char>) -> Strategy {
    if lower == "singlethreaded"@ {
        Strategy::SingleThreaded
    } else if lower == "percolor"@ {
        Strategy::PerColor
    } else if lower == "multithreadedgenerator"@ {
        Strategy::MultiThreadedGenerator
    } else {
        Strategy::MultiThreadedMerge
    }
}

/// Picks the strategy that a name in lower case stands for.
pub fn strategy_of_lowercase(lower: &String) -> (strategy: Strategy)
    ensures
        strategy == strategy_named(lower@),
{
    if *lower == "singlethreaded".to_owned() {
        Strategy::SingleThreaded
    } else if *lower == "percolor".to_owned() {
        Strategy::PerColor
    } else if *lower == "multithreadedgenerator".to_owned() {
        Strategy::MultiThreadedGenerator
    } else {
        Strategy::MultiThreadedMerge
    }
}

/// Picks the strategy that `command` names, whatever the case of its
/// letters.
pub fn select_strategy(command: &str) -> (strategy: Strategy)
    ensures
        strategy == strategy_named(lowercased(command@)),
{
    let lower = to_lowercase(command);
    strategy_of_lowercase(&lower)
}

/// Classifies the first `color_num` colours of the space with the given
/// strategy. All strategies but `PerColor` arrive at the census and reject
/// an empty catalog before doing any work.
pub fn run_strategy(strategy: Strategy, standard_colors: &Vec<StandardColor>, color_num: u32) -> (result:
    Result<Distribution, ClassifyError>)
    requires
        color_num <= COLOR_SPACE_SIZE,
    ensures
        strategy is PerColor ==> result is Ok,
        !(strategy is PerColor) ==> (standard_colors.len() == 0 <==> result is Err),
        result matches Ok(distribution) ==> distribution@ == (if strategy is PerColor {
            Map::<Seq<char>, nat>::empty()
        } else {
            census(standard_colors@, color_num as nat)
        }),
        result matches Ok(distribution) ==> !(strategy is PerColor) ==> total(distribution@)
            == color_num,
{
    match strategy {
        Strategy::SingleThreaded => run_single_threaded(standard_colors, color_num),
        Strategy::PerColor => Ok(Distribution::new()),
        Strategy::MultiThreadedGenerator => run_multithreaded_generator(standard_colors, color_num),
        Strategy::MultiThreadedMerge => run_multithreaded_merge(standard_colors, color_num),
    }
}

} // verus!
