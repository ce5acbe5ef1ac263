//! Ranking by population: largest first, and among equals the one that came
//! first stays first.

use vstd::prelude::*;
use crate::geo::location::{Location, LocationView};
use crate::search::{first_index, lemma_first_index, lemma_first_index_is, lemma_first_index_none};

verus! {

/// No place of `s` stands before a place with more inhabitants.
pub open spec fn is_ranked(s: Seq<LocationView>) -> bool {
    forall|i: int, j: int| 0 <= i < j < s.len() ==> s[i].population >= s[j].population
}

/// The test, for a position, that the place there has fewer inhabitants
/// than `population`.
pub open spec fn smaller_at(s: Seq<LocationView>, population: u64) -> spec_fn(int) -> bool {
    |i: int| s[i].population < population
}

/// Where a place with `population` inhabitants goes into the ranked list
/// `s`: before the first place with fewer inhabitants, or at the end.
pub open spec fn insertion_point(s: Seq<LocationView>, population: u64) -> int {
    match first_index(s.len() as int, smaller_at(s, population)) {
        Some(i) => i,
        None => s.len() as int,
    }
}

/// The places of `s` by falling population. Places with the same population
/// keep the order that they have in `s`.
pub open spec fn rank(s: Seq<LocationView>) -> Seq<LocationView>
    decreases s.len(),
{
    if s.len() == 0 {
        s
    } else {
        let head = rank(s.drop_last());
        head.insert(insertion_point(head, s.last().population), s.last())
    }
}

/// The insertion point lies within the list; no place before it has fewer
/// inhabitants, and the place at it has.
pub proof fn lemma_insertion_point(s: Seq<LocationView>, population: u64)
    ensures
        0 <= insertion_point(s, population) <= s.len(),
        forall|i: int|
            0 <= i < insertion_point(s, population) ==> (#[trigger] s[i]).population >= population,
        insertion_point(s, population) < s.len() ==> s[insertion_point(
            s,
            population,
        )].population < population,
{
    let holds = smaller_at(s, population);
    lemma_first_index(s.len() as int, holds);
    assert forall|i: int| 0 <= i < insertion_point(s, population) implies (#[trigger] s[i]).population
        >= population by {
        assert(!holds(i));
    }
}

/// A ranked list holds the places of the list it was made from: as many,
/// and each as often.
pub proof fn lemma_rank_same_places(s: Seq<LocationView>)
    ensures
        rank(s).len() == s.len(),
        rank(s).to_multiset() == s.to_multiset(),
    decreases s.len(),
{
    broadcast use vstd::seq_lib::group_to_multiset_ensures;

    if s.len() > 0 {
        let head = rank(s.drop_last());
        lemma_rank_same_places(s.drop_last());
        lemma_insertion_point(head, s.last().population);
        let p = insertion_point(head, s.last().population);
        vstd::seq_lib::to_multiset_insert(head, p, s.last());
        assert(s.drop_last().push(s.last()) =~= s);
        assert(s.to_multiset() =~= s.drop_last().to_multiset().insert(s.last()));
    }
}

/// A ranked list is ranked: it is non-increasing in population.
pub proof fn lemma_rank_is_ranked(s: Seq<LocationView>)
    ensures
        is_ranked(rank(s)),
    decreases s.len(),
{
    if s.len() > 0 {
        let head = rank(s.drop_last());
        let x = s.last();
        lemma_rank_is_ranked(s.drop_last());
        lemma_insertion_point(head, x.population);
        let p = insertion_point(head, x.population);
        let out = head.insert(p, x);
        assert forall|i: int, j: int| 0 <= i < j < out.len() implies out[i].population
            >= out[j].population by {
            if j < p {
                assert(out[i] == head[i] && out[j] == head[j]);
            } else if j == p {
                assert(out[i] == head[i]);
            } else if i < p {
                assert(out[i] == head[i] && out[j] == head[j - 1]);
                if p < j - 1 {
                    assert(head[p].population >= head[j - 1].population);
                }
            } else if i == p {
                assert(out[j] == head[j - 1]);
                if p < j - 1 {
                    assert(head[p].population >= head[j - 1].population);
                }
            } else {
                assert(out[i] == head[i - 1] && out[j] == head[j - 1]);
            }
        }
    }
}

/// Ranking a list that is ranked changes nothing.
pub proof fn lemma_rank_fixed(s: Seq<LocationView>)
    requires
        is_ranked(s),
    ensures
        rank(s) == s,
    decreases s.len(),
{
    if s.len() > 0 {
        let head = s.drop_last();
        assert(is_ranked(head)) by {
            assert forall|i: int, j: int| 0 <= i < j < head.len() implies head[i].population
                >= head[j].population by {
                assert(head[i] == s[i] && head[j] == s[j]);
            }
        }
        lemma_rank_fixed(head);
        let holds = smaller_at(head, s.last().population);
        assert forall|i: int| 0 <= i < head.len() implies !(#[trigger] holds(i)) by {
            assert(head[i] == s[i]);
            assert(s[i].population >= s[s.len() - 1].population);
        }
        lemma_first_index_none(head.len() as int, holds);
        assert(head.insert(head.len() as int, s.last()) =~= s);
    }
}

/// The test for a place with `population` inhabitants.
pub open spec fn with_population(population: u64) -> spec_fn(LocationView) -> bool {
    |place: LocationView| place.population == population
}

/// Ranking is stable: the places with a given population stand in a
/// ranked list in the order that they had before.
pub proof fn lemma_rank_stable(s: Seq<LocationView>, population: u64)
    ensures
        rank(s).filter(with_population(population)) == s.filter(with_population(population)),
    decreases s.len(),
{
    if s.len() > 0 {
        let equal = with_population(population);
        let head = rank(s.drop_last());
        let x = s.last();
        let p = insertion_point(head, x.population);
        lemma_rank_stable(s.drop_last(), population);
        lemma_rank_is_ranked(s.drop_last());
        lemma_insertion_point(head, x.population);
        let before = head.take(p);
        let after = head.skip(p);
        assert(head.insert(p, x) =~= before.push(x) + after);
        assert(head =~= before + after);
        Seq::filter_distributes_over_add(before.push(x), after, equal);
        Seq::filter_distributes_over_add(before, after, equal);
        before.lemma_filter_push(x, equal);
        s.drop_last().lemma_filter_push(x, equal);
        assert(s.drop_last().push(x) =~= s);
        if equal(x) {
            assert forall|i: int| 0 <= i < after.len() implies !equal(#[trigger] after[i]) by {
                assert(after[i] == head[p + i]);
                if i > 0 {
                    assert(head[p].population >= head[p + i].population);
                }
            }
            lemma_filter_none(after, equal);
            assert(before.filter(equal).push(x) + after.filter(equal) =~= (before.filter(equal)
                + after.filter(equal)).push(x));
        }
    }
}

/// Where no place passes a test, none is left by it.
proof fn lemma_filter_none(s: Seq<LocationView>, test: spec_fn(LocationView) -> bool)
    requires
        forall|i: int| 0 <= i < s.len() ==> !test(#[trigger] s[i]),
    ensures
        s.filter(test).len() == 0,
    decreases s.len(),
{
    reveal(Seq::filter);
    if s.len() > 0 {
        assert(!test(s[s.len() - 1]));
        assert forall|i: int| 0 <= i < s.drop_last().len() implies !test(
            #[trigger] s.drop_last()[i],
        ) by {
            assert(s.drop_last()[i] == s[i]);
        }
        lemma_filter_none(s.drop_last(), test);
    }
}

/// Ranks a list of places: see [`rank`].
pub fn rank_locations(list: Vec<Location>) -> (r: Vec<Location>)
    ensures
        r.deep_view() == rank(list.deep_view()),
{
    let ghost given = list.deep_view();
    let mut out: Vec<Location> = Vec::new();
    proof {
        assert(given.take(0) =~= Seq::<LocationView>::empty());
        assert(out.deep_view() =~= Seq::<LocationView>::empty());
    }
    for location in it: list
        invariant
            it.seq().len() == given.len(),
            forall|j: int| 0 <= j < given.len() ==> (#[trigger] it.seq()[j])@ == given[j],
            out.deep_view() == rank(given.take(it.index())),
    {
        let ghost head = out.deep_view();
        let ghost holds = smaller_at(head, location.population);
        assert(location@ == given[it.index()]);
        let mut p: usize = 0;
        while p < out.len() && out[p].population >= location.population
            invariant
                p <= out.len(),
                head == out.deep_view(),
                holds == smaller_at(head, location.population),
                forall|j: int| 0 <= j < p ==> !(#[trigger] holds(j)),
            decreases out.len() - p,
        {
            assert(!holds(p as int));
            p += 1;
        }
        proof {
            if p < out.len() {
                assert(holds(p as int));
                lemma_first_index_is(head.len() as int, holds, p as int);
            } else {
                lemma_first_index_none(head.len() as int, holds);
            }
            assert(given.take(it.index() + 1).drop_last() =~= given.take(it.index()));
        }
        out.insert(p, location);
        assert(out.deep_view() =~= head.insert(p as int, location@));
    }
    assert(given.take(given.len() as int) =~= given);
    out
}

} // verus!
