//! The arithmetic of tallies: what a run of observations adds up to, whatever
//! the order in which they arrive and however they are shared out.
//!
//! An observation is a language and a number of lines. A tally maps each
//! language that was observed to the lines observed for it.

use vstd::prelude::*;

verus! {

/// A language and the lines counted for it.
pub type Observation = (Seq<char>, nat);

/// The lines recorded per language.
pub type LanguageTally = Map<Seq<char>, nat>;

/// The lines that `tally` holds for `lang`: none where the language is
/// absent.
pub open spec fn recorded(tally: LanguageTally, lang: Seq<char>) -> nat {
    if tally.dom().contains(lang) {
        tally[lang]
    } else {
        0
    }
}

/// `tally` after `lines` more lines of `lang`: a new language enters with
/// `lines`, a known one grows by them.
pub open spec fn accumulate(tally: LanguageTally, lang: Seq<char>, lines: nat) -> LanguageTally {
    tally.insert(lang, recorded(tally, lang) + lines)
}

/// Two tallies as one: every language of either, with the lines of both.
pub open spec fn merge(a: LanguageTally, b: LanguageTally) -> LanguageTally {
    Map::new(
        |lang: Seq<char>| a.dom().contains(lang) || b.dom().contains(lang),
        |lang: Seq<char>| recorded(a, lang) + recorded(b, lang),
    )
}

/// The step from a tally and one observation to the next tally.
pub open spec fn accumulate_one() -> spec_fn(LanguageTally, Observation) -> LanguageTally {
    |tally: LanguageTally, seen: Observation| accumulate(tally, seen.0, seen.1)
}

/// The tally of the observations `seen`, accumulated one by one in their
/// order from the empty tally.
pub open spec fn tally_of(seen: Seq<Observation>) -> LanguageTally {
    seen.fold_left(Map::empty(), accumulate_one())
}

/// The tally of each group of observations.
pub open spec fn tallies_of(groups: Seq<Seq<Observation>>) -> Seq<LanguageTally> {
    Seq::new(groups.len(), |i: int| tally_of(groups[i]))
}

/// The tallies merged into one, from the first to the last.
pub open spec fn merge_all(tallies: Seq<LanguageTally>) -> LanguageTally
    decreases tallies.len(),
{
    if tallies.len() == 0 {
        Map::empty()
    } else {
        merge(merge_all(tallies.drop_last()), tallies.last())
    }
}

/// The lines of all the observations together.
pub open spec fn sum_lines(seen: Seq<Observation>) -> nat
    decreases seen.len(),
{
    if seen.len() == 0 {
        0
    } else {
        sum_lines(seen.drop_last()) + seen.last().1
    }
}

/// The lines observed for `lang`.
pub open spec fn lines_for(seen: Seq<Observation>, lang: Seq<char>) -> nat
    decreases seen.len(),
{
    if seen.len() == 0 {
        0
    } else if seen.last().0 == lang {
        lines_for(seen.drop_last(), lang) + seen.last().1
    } else {
        lines_for(seen.drop_last(), lang)
    }
}

/// Whether `lang` was observed.
pub open spec fn has_language(seen: Seq<Observation>, lang: Seq<char>) -> bool {
    exists|i: int| 0 <= i < seen.len() && (#[trigger] seen[i]).0 == lang
}

/// One more observation accumulates onto the tally of those before it.
pub proof fn lemma_tally_of_push(seen: Seq<Observation>, lang: Seq<char>, lines: nat)
    ensures
        tally_of(seen.push((lang, lines))) == accumulate(tally_of(seen), lang, lines),
{
    let longer = seen.push((lang, lines));
    assert(longer.drop_last() == seen);
}

/// A tally holds, for each language, exactly the lines observed for it, and
/// holds exactly the languages observed.
pub proof fn lemma_tally_of_pointwise(seen: Seq<Observation>, lang: Seq<char>)
    ensures
        recorded(tally_of(seen), lang) == lines_for(seen, lang),
        tally_of(seen).dom().contains(lang) <==> has_language(seen, lang),
    decreases seen.len(),
{
    if seen.len() > 0 {
        let before = seen.drop_last();
        lemma_tally_of_pointwise(before, lang);
        if has_language(before, lang) {
            let i = choose|i: int| 0 <= i < before.len() && (#[trigger] before[i]).0 == lang;
            assert(seen[i].0 == lang);
        }
        if has_language(seen, lang) && seen.last().0 != lang {
            let i = choose|i: int| 0 <= i < seen.len() && (#[trigger] seen[i]).0 == lang;
            assert(before[i].0 == lang);
        }
    }
}

/// Two runs of observations with the same lines for every language, and the
/// same languages, have the same tally.
pub proof fn lemma_tally_of_equal(a: Seq<Observation>, b: Seq<Observation>)
    requires
        forall|lang: Seq<char>| lines_for(a, lang) == lines_for(b, lang),
        forall|lang: Seq<char>| has_language(a, lang) == has_language(b, lang),
    ensures
        tally_of(a) == tally_of(b),
{
    let ta = tally_of(a);
    let tb = tally_of(b);
    assert forall|lang: Seq<char>| #[trigger] ta.dom().contains(lang) == tb.dom().contains(lang) by {
        lemma_tally_of_pointwise(a, lang);
        lemma_tally_of_pointwise(b, lang);
    }
    assert forall|lang: Seq<char>| ta.dom().contains(lang) implies #[trigger] ta[lang]
        == tb[lang] by {
        lemma_tally_of_pointwise(a, lang);
        lemma_tally_of_pointwise(b, lang);
    }
}

/// Two observations accumulate to the same tally in either order.
pub proof fn lemma_accumulate_commutes(
    tally: LanguageTally,
    first: Observation,
    second: Observation,
)
    ensures
        accumulate(accumulate(tally, first.0, first.1), second.0, second.1) == accumulate(
            accumulate(tally, second.0, second.1),
            first.0,
            first.1,
        ),
{
}

/// The tally does not depend on the order of the observations: two runs that
/// hold the same observations, each as often as the other, have the same
/// tally.
pub proof fn lemma_tally_of_reordered(a: Seq<Observation>, b: Seq<Observation>)
    requires
        a.to_multiset() == b.to_multiset(),
    ensures
        tally_of(a) == tally_of(b),
{
    let step = accumulate_one();
    assert forall|x: Observation, y: Observation, v: LanguageTally| #[trigger]
        step(step(v, x), y) == step(step(v, y), x) by {
        lemma_accumulate_commutes(v, x, y);
    }
    vstd::seq_lib::lemma_fold_left_permutation(a, b, step, Map::empty());
}

/// Merging does not depend on which tally comes first.
pub proof fn lemma_merge_commutes(a: LanguageTally, b: LanguageTally)
    ensures
        merge(a, b) == merge(b, a),
{
}

/// Merging three tallies does not depend on which two are merged first.
pub proof fn lemma_merge_associates(a: LanguageTally, b: LanguageTally, c: LanguageTally)
    ensures
        merge(merge(a, b), c) == merge(a, merge(b, c)),
{
}

/// The tally of two runs of observations, one after the other, is the merge
/// of their tallies.
pub proof fn lemma_tally_of_concat(a: Seq<Observation>, b: Seq<Observation>)
    ensures
        tally_of(a + b) == merge(tally_of(a), tally_of(b)),
    decreases b.len(),
{
    if b.len() > 0 {
        let last = b.last();
        assert(b == b.drop_last().push(last));
        lemma_tally_of_concat(a, b.drop_last());
        lemma_tally_of_push(a + b.drop_last(), last.0, last.1);
    }
}

/// Merging the tallies of groups of observations gives the tally of all the
/// groups' observations in one run.
pub proof fn lemma_merge_all_of_groups(groups: Seq<Seq<Observation>>)
    ensures
        merge_all(tallies_of(groups)) == tally_of(groups.flatten()),
    decreases groups.len(),
{
    if groups.len() > 0 {
        let before = groups.drop_last();
        lemma_merge_all_of_groups(before);
        assert(tallies_of(groups).drop_last() == tallies_of(before));
        assert(groups == before.push(groups.last()));
        before.lemma_flatten_push(groups.last());
        lemma_tally_of_concat(before.flatten(), groups.last());
    }
}

/// However a set of observations is shared out into groups, and in whatever
/// order each group is accumulated, merging the groups' tallies gives the
/// tally of all the observations accumulated in any one order.
pub proof fn lemma_partition_tally(groups: Seq<Seq<Observation>>, order: Seq<Observation>)
    requires
        groups.flatten().to_multiset() == order.to_multiset(),
    ensures
        merge_all(tallies_of(groups)) == tally_of(order),
{
    lemma_merge_all_of_groups(groups);
    lemma_tally_of_reordered(groups.flatten(), order);
}

/// The lines of two runs of observations, one after the other, add up.
pub proof fn lemma_sum_lines_concat(a: Seq<Observation>, b: Seq<Observation>)
    ensures
        sum_lines(a + b) == sum_lines(a) + sum_lines(b),
    decreases b.len(),
{
    if b.len() > 0 {
        assert((a + b).drop_last() == a + b.drop_last());
        lemma_sum_lines_concat(a, b.drop_last());
    }
}

/// No observation holds more lines than all of them together.
pub proof fn lemma_sum_lines_bounds(seen: Seq<Observation>, i: int)
    requires
        0 <= i < seen.len(),
    ensures
        seen[i].1 <= sum_lines(seen),
    decreases seen.len(),
{
    if i < seen.len() - 1 {
        lemma_sum_lines_bounds(seen.drop_last(), i);
    }
}

} // verus!
