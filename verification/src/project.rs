//! The aggregator: the lines of a project, language by language, and the
//! report drawn from them.
//!
//! A `ProjectData` is filled by `push` (or by `merge`, from another one),
//! then closed by `collapse`, which draws the total and each language's
//! share. Once collapsed it takes no more lines. A share is kept exact, as a
//! part of a whole, so that the shares of all languages add up to the whole;
//! whoever prints them divides.

use crate::tally::{
    accumulate, has_language, lemma_sum_lines_bounds, lemma_sum_lines_concat,
    lemma_tally_of_equal, lines_for, merge, sum_lines, tally_of, LanguageTally, Observation,
};
use vstd::prelude::*;

verus! {

/// A share of a whole, kept exact: `part` lines out of `whole`. In percent it
/// is `part / whole * 100`; where the whole is nothing, the share is nothing.
#[derive(Clone, Copy, Debug, PartialEq, Eq, Structural)]
pub struct Share {
    pub part: usize,
    pub whole: usize,
}

/// A language and its share.
pub type LanguageShare = (Seq<char>, Share);

/// Each language of `entries` with its lines as a part of `whole`.
pub open spec fn percentages_with(entries: Seq<Observation>, whole: nat) -> Seq<LanguageShare> {
    Seq::new(
        entries.len(),
        |i: int| (entries[i].0, Share { part: entries[i].1 as usize, whole: whole as usize }),
    )
}

/// Each language of `entries` with its share of the lines of them all.
pub open spec fn percentages_of(entries: Seq<Observation>) -> Seq<LanguageShare> {
    percentages_with(entries, sum_lines(entries))
}

/// The parts of all the shares together.
pub open spec fn sum_parts(shares: Seq<LanguageShare>) -> nat
    decreases shares.len(),
{
    if shares.len() == 0 {
        0
    } else {
        sum_parts(shares.drop_last()) + shares.last().1.part as nat
    }
}

/// The place of the first entry for `lang`, or the number of entries where
/// there is none.
pub open spec fn position_of(entries: Seq<Observation>, lang: Seq<char>) -> int
    decreases entries.len(),
{
    if entries.len() == 0 {
        0
    } else if entries.first().0 == lang {
        0
    } else {
        1 + position_of(entries.drop_first(), lang)
    }
}

/// `entries` after `lines` more lines of `lang`: the entry of that language
/// grows by them, or a new entry is put at the end.
pub open spec fn pushed(entries: Seq<Observation>, lang: Seq<char>, lines: nat) -> Seq<
    Observation,
> {
    let at = position_of(entries, lang);
    if at < entries.len() {
        entries.update(at, (lang, entries[at].1 + lines))
    } else {
        entries.push((lang, lines))
    }
}

/// `entries` after each of `more` was pushed onto them, from the first to the
/// last.
pub open spec fn merged(entries: Seq<Observation>, more: Seq<Observation>) -> Seq<Observation>
    decreases more.len(),
{
    if more.len() == 0 {
        entries
    } else {
        pushed(merged(entries, more.drop_last()), more.last().0, more.last().1)
    }
}

/// Whether no language has two entries.
pub open spec fn distinct_languages(entries: Seq<Observation>) -> bool {
    forall|i: int, j: int| 0 <= i < j < entries.len() ==> entries[i].0 != entries[j].0
}

/// What a `ProjectData` holds.
pub struct ProjectView {
    /// The project's name.
    pub name: Seq<char>,
    /// One entry for each language pushed, in the order in which the
    /// languages first came.
    pub entries: Seq<Observation>,
    /// Whether the report has been drawn.
    pub collapsed: bool,
    /// The lines of all languages, once collapsed; nothing before.
    pub total_lines: nat,
    /// Each language with its share of the total, in the order of the
    /// entries, once collapsed; empty before.
    pub percentages: Seq<LanguageShare>,
}

impl ProjectView {
    /// What holds of every `ProjectData`.
    pub open spec fn wf(self) -> bool {
        &&& distinct_languages(self.entries)
        &&& sum_lines(self.entries) <= usize::MAX
        &&& self.collapsed ==> self.total_lines == sum_lines(self.entries)
        &&& self.collapsed ==> self.percentages == percentages_of(self.entries)
        &&& !self.collapsed ==> self.total_lines == 0
        &&& !self.collapsed ==> self.percentages == Seq::<LanguageShare>::empty()
    }

    /// The lines recorded per language.
    pub open spec fn tally(self) -> LanguageTally {
        tally_of(self.entries)
    }

    /// The same project with its report drawn.
    pub open spec fn collapse(self) -> ProjectView {
        ProjectView {
            collapsed: true,
            total_lines: sum_lines(self.entries),
            percentages: percentages_of(self.entries),
            ..self
        }
    }
}

/// The entries that a vector of names and counts stands for.
pub open spec fn entries_of(raw: Seq<(String, usize)>) -> Seq<Observation> {
    Seq::new(raw.len(), |i: int| (raw[i].0@, raw[i].1 as nat))
}

/// The shares that a vector of names and shares stands for.
pub open spec fn shares_of(raw: Seq<(String, Share)>) -> Seq<LanguageShare> {
    Seq::new(raw.len(), |i: int| (raw[i].0@, raw[i].1))
}

/// The first entry for `lang` stands at `position_of`; no entry before it is
/// for `lang`.
pub proof fn lemma_position_of(entries: Seq<Observation>, lang: Seq<char>)
    ensures
        0 <= position_of(entries, lang) <= entries.len(),
        position_of(entries, lang) < entries.len() ==> entries[position_of(entries, lang)].0
            == lang,
        forall|k: int| 0 <= k < position_of(entries, lang) ==> (#[trigger] entries[k]).0 != lang,
    decreases entries.len(),
{
    if entries.len() > 0 && entries.first().0 != lang {
        let rest = entries.drop_first();
        lemma_position_of(rest, lang);
        assert forall|k: int| 0 <= k < position_of(entries, lang) implies (#[trigger] entries[k]).0
            != lang by {
            if k > 0 {
                assert(rest[k - 1] == entries[k]);
            }
        }
    }
}

/// A place before which no entry is for `lang`, and which holds such an entry
/// or is the end, is `position_of`.
pub proof fn lemma_position_is(entries: Seq<Observation>, lang: Seq<char>, at: int)
    requires
        0 <= at <= entries.len(),
        forall|k: int| 0 <= k < at ==> (#[trigger] entries[k]).0 != lang,
        at < entries.len() ==> entries[at].0 == lang,
    ensures
        position_of(entries, lang) == at,
{
    lemma_position_of(entries, lang);
}

/// Adding lines to one entry adds them to the sum.
proof fn lemma_sum_lines_update(seen: Seq<Observation>, at: int, lines: nat)
    requires
        0 <= at < seen.len(),
    ensures
        sum_lines(seen.update(at, (seen[at].0, seen[at].1 + lines))) == sum_lines(seen) + lines,
    decreases seen.len(),
{
    let after = seen.update(at, (seen[at].0, seen[at].1 + lines));
    if at == seen.len() - 1 {
        assert(after.drop_last() == seen.drop_last());
    } else {
        assert(after.drop_last() == seen.drop_last().update(
            at,
            (seen[at].0, seen[at].1 + lines),
        ));
        lemma_sum_lines_update(seen.drop_last(), at, lines);
    }
}

/// Adding lines to one entry adds them to the lines of its language, and to
/// no other.
proof fn lemma_lines_for_update(seen: Seq<Observation>, at: int, lines: nat, lang: Seq<char>)
    requires
        0 <= at < seen.len(),
    ensures
        seen[at].0 == lang ==> lines_for(seen.update(at, (seen[at].0, seen[at].1 + lines)), lang)
            == lines_for(seen, lang) + lines,
        seen[at].0 != lang ==> lines_for(seen.update(at, (seen[at].0, seen[at].1 + lines)), lang)
            == lines_for(seen, lang),
    decreases seen.len(),
{
    let after = seen.update(at, (seen[at].0, seen[at].1 + lines));
    if at == seen.len() - 1 {
        assert(after.drop_last() == seen.drop_last());
    } else {
        assert(after.drop_last() == seen.drop_last().update(
            at,
            (seen[at].0, seen[at].1 + lines),
        ));
        lemma_lines_for_update(seen.drop_last(), at, lines, lang);
    }
}

/// Pushing lines of a language keeps one entry per language, adds the lines
/// to the sum, and accumulates them onto the tally.
pub proof fn lemma_pushed(entries: Seq<Observation>, lang: Seq<char>, lines: nat)
    ensures
        distinct_languages(entries) ==> distinct_languages(pushed(entries, lang, lines)),
        sum_lines(pushed(entries, lang, lines)) == sum_lines(entries) + lines,
        tally_of(pushed(entries, lang, lines)) == accumulate(tally_of(entries), lang, lines),
{
    lemma_position_of(entries, lang);
    let at = position_of(entries, lang);
    let after = pushed(entries, lang, lines);
    let appended = entries.push((lang, lines));
    assert(appended.drop_last() == entries);
    if at < entries.len() {
        lemma_sum_lines_update(entries, at, lines);
        assert forall|x: Seq<char>| lines_for(after, x) == lines_for(appended, x) by {
            lemma_lines_for_update(entries, at, lines, x);
        }
        assert forall|x: Seq<char>| has_language(after, x) == has_language(appended, x) by {
            if has_language(after, x) {
                let i = choose|i: int| 0 <= i < after.len() && (#[trigger] after[i]).0 == x;
                assert(appended[i].0 == x);
            }
            if has_language(appended, x) {
                let i = choose|i: int| 0 <= i < appended.len() && (#[trigger] appended[i]).0 == x;
                if i < entries.len() {
                    assert(after[i].0 == x);
                } else {
                    assert(after[at].0 == x);
                }
            }
        }
        lemma_tally_of_equal(after, appended);
    } else {
        assert forall|i: int, j: int| 0 <= i < j < after.len() && distinct_languages(
            entries,
        ) implies after[i].0 != after[j].0 by {
            if j == entries.len() {
                assert(entries[i].0 != lang);
            }
        }
    }
}

/// Merging entries into others keeps one entry per language, adds up the
/// sums, and merges the tallies.
pub proof fn lemma_merged(entries: Seq<Observation>, more: Seq<Observation>)
    ensures
        distinct_languages(entries) ==> distinct_languages(merged(entries, more)),
        sum_lines(merged(entries, more)) == sum_lines(entries) + sum_lines(more),
        tally_of(merged(entries, more)) == merge(tally_of(entries), tally_of(more)),
    decreases more.len(),
{
    if more.len() > 0 {
        let before = more.drop_last();
        let last = more.last();
        lemma_merged(entries, before);
        lemma_pushed(merged(entries, before), last.0, last.1);
    }
}

/// The parts of the shares of `entries` are together the lines of the
/// entries, where each entry fits a `usize`.
proof fn lemma_sum_parts(entries: Seq<Observation>, whole: nat)
    requires
        forall|i: int| 0 <= i < entries.len() ==> entries[i].1 <= usize::MAX,
    ensures
        sum_parts(percentages_with(entries, whole)) == sum_lines(entries),
    decreases entries.len(),
{
    if entries.len() > 0 {
        let before = entries.drop_last();
        assert(percentages_with(entries, whole).drop_last() == percentages_with(before, whole));
        lemma_sum_parts(before, whole);
    }
}

/// In a collapsed project the shares of all languages add up to the whole:
/// every share is a part of the total, the part of each language is its
/// lines, and the parts are together the total. In percent, where there are
/// lines at all, the shares add up to 100.
pub proof fn lemma_percentages_sum(project: ProjectView)
    requires
        project.wf(),
        project.collapsed,
    ensures
        project.percentages.len() == project.entries.len(),
        forall|i: int|
            0 <= i < project.entries.len() ==> (#[trigger] project.percentages[i]).0
                == project.entries[i].0 && project.percentages[i].1.part == project.entries[i].1
                && project.percentages[i].1.whole == project.total_lines,
        sum_parts(project.percentages) == project.total_lines,
{
    assert forall|i: int| 0 <= i < project.entries.len() implies project.entries[i].1
        <= usize::MAX by {
        lemma_sum_lines_bounds(project.entries, i);
    }
    lemma_sum_parts(project.entries, project.total_lines);
}

/// Drawing the report a second time changes nothing.
pub proof fn lemma_collapse_once(project: ProjectView)
    requires
        project.wf(),
    ensures
        project.collapse().wf(),
        project.collapse().collapse() == project.collapse(),
        project.collapsed ==> project.collapse() == project,
{
}

/// The lines of a project, language by language, and, once collapsed, the
/// report drawn from them.
pub struct ProjectData {
    /// One entry per language: its name and its lines.
    lines_per_language: Vec<(String, usize)>,
    /// The lines of all languages; 0 until `collapse` is called.
    total_lines: usize,
    /// The name of the project.
    name: String,
    /// One entry per language: its name and its share of the total; empty
    /// until `collapse` is called.
    percentage_per_language: Vec<(String, Share)>,
    /// Whether `collapse` was called.
    collapsed: bool,
}

impl View for ProjectData {
    type V = ProjectView;

    closed spec fn view(&self) -> ProjectView {
        ProjectView {
            name: self.name@,
            entries: entries_of(self.lines_per_language@),
            collapsed: self.collapsed,
            total_lines: self.total_lines as nat,
            percentages: shares_of(self.percentage_per_language@),
        }
    }
}

/// The lines of all entries together.
fn total_of(lines: &Vec<(String, usize)>) -> (total: usize)
    requires
        sum_lines(entries_of(lines@)) <= usize::MAX,
    ensures
        total == sum_lines(entries_of(lines@)),
{
    let ghost entries = entries_of(lines@);
    let mut total: usize = 0;
    let mut i: usize = 0;
    while i < lines.len()
        invariant
            i <= lines.len(),
            entries == entries_of(lines@),
            sum_lines(entries) <= usize::MAX,
            total == sum_lines(entries.take(i as int)),
        decreases lines.len() - i,
    {
        proof {
            let upto = entries.take(i + 1);
            assert(upto.drop_last() == entries.take(i as int));
            assert(entries == upto + entries.skip(i + 1));
            lemma_sum_lines_concat(upto, entries.skip(i + 1));
        }
        total += lines[i].1;
        i += 1;
    }
    proof {
        assert(entries.take(i as int) == entries);
    }
    total
}

/// Each language with its lines as a part of `total`.
fn shares(lines: &Vec<(String, usize)>, total: usize) -> (out: Vec<(String, Share)>)
    requires
        total == sum_lines(entries_of(lines@)),
    ensures
        shares_of(out@) == percentages_of(entries_of(lines@)),
{
    let ghost entries = entries_of(lines@);
    let mut out: Vec<(String, Share)> = Vec::new();
    let mut i: usize = 0;
    while i < lines.len()
        invariant
            i <= lines.len(),
            entries == entries_of(lines@),
            total == sum_lines(entries),
            out.len() == i,
            forall|k: int|
                0 <= k < i ==> (#[trigger] out@[k]).0@ == entries[k].0 && out@[k].1 == (Share {
                    part: lines@[k].1,
                    whole: total,
                }),
        decreases lines.len() - i,
    {
        out.push((lines[i].0.clone(), Share { part: lines[i].1, whole: total }));
        i += 1;
    }
    proof {
        assert(shares_of(out@) =~= percentages_of(entries));
    }
    out
}

impl ProjectData {
    /// What holds of every `ProjectData`: see `ProjectView::wf`.
    #[verifier::type_invariant]
    pub open spec fn valid(&self) -> bool {
        self@.wf()
    }

    /// An empty project with the given name.
    pub fn new(name: &str) -> (project: ProjectData)
        ensures
            project@ == (ProjectView {
                name: name@,
                entries: Seq::empty(),
                collapsed: false,
                total_lines: 0,
                percentages: Seq::empty(),
            }),
    {
        let lines_per_language: Vec<(String, usize)> = Vec::with_capacity(8);
        let percentage_per_language: Vec<(String, Share)> = Vec::with_capacity(8);
        proof {
            assert(entries_of(lines_per_language@) =~= Seq::<Observation>::empty());
            assert(shares_of(percentage_per_language@) =~= Seq::<LanguageShare>::empty());
        }
        ProjectData {
            lines_per_language,
            total_lines: 0,
            name: name.to_owned(),
            percentage_per_language,
            collapsed: false,
        }
    }

    /// Adds `lines` lines of the language `lang_name`: its entry grows by
    /// them, or a new entry is put at the end. Nothing is added, and `None`
    /// returned, once the project is collapsed, or where the lines of the
    /// project would no longer fit a `usize`.
    pub fn push(&mut self, lang_name: &str, lines: usize) -> (done: Option<()>)
        ensures
            done is Some <==> !old(self)@.collapsed && sum_lines(old(self)@.entries) + lines
                <= usize::MAX,
            done is Some ==> final(self)@ == (ProjectView {
                entries: pushed(old(self)@.entries, lang_name@, lines as nat),
                ..old(self)@
            }),
            done is Some ==> final(self)@.tally() == accumulate(
                old(self)@.tally(),
                lang_name@,
                lines as nat,
            ),
            done is Some ==> sum_lines(final(self)@.entries) == sum_lines(old(self)@.entries)
                + lines,
            done is None ==> final(self)@ == old(self)@,
    {
        proof {
            use_type_invariant(&*self);
        }
        if self.collapsed {
            return None;
        }
        let total = total_of(&self.lines_per_language);
        if lines > usize::MAX - total {
            return None;
        }
        let ghost before = old(self)@.entries;
        let name = lang_name.to_owned();
        let mut entries: Vec<(String, usize)> = Vec::new();
        core::mem::swap(&mut self.lines_per_language, &mut entries);
        let mut at: usize = 0;
        while at < entries.len() && !(entries[at].0 == name)
            invariant
                at <= entries.len(),
                name@ == lang_name@,
                entries_of(entries@) == before,
                forall|k: int| 0 <= k < at ==> (#[trigger] before[k]).0 != lang_name@,
            decreases entries.len() - at,
        {
            at += 1;
        }
        proof {
            if at < entries.len() {
                lemma_sum_lines_bounds(before, at as int);
            }
            lemma_position_is(before, lang_name@, at as int);
            lemma_pushed(before, lang_name@, lines as nat);
        }
        if at < entries.len() {
            let grown = entries[at].1 + lines;
            entries.set(at, (name, grown));
        } else {
            entries.push((name, lines));
        }
        proof {
            assert(entries_of(entries@) =~= pushed(before, lang_name@, lines as nat));
        }
        self.lines_per_language = entries;
        Some(())
    }

    /// Adds every entry of `other`, as `push` would, from the first to the
    /// last. Nothing is added, and `None` returned, once the project is
    /// collapsed, or where the lines of both together would no longer fit a
    /// `usize`.
    pub fn merge(&mut self, other: &ProjectData) -> (done: Option<()>)
        ensures
            done is Some <==> !old(self)@.collapsed && sum_lines(old(self)@.entries) + sum_lines(
                other@.entries,
            ) <= usize::MAX,
            done is Some ==> final(self)@ == (ProjectView {
                entries: merged(old(self)@.entries, other@.entries),
                ..old(self)@
            }),
            done is Some ==> final(self)@.tally() == merge(old(self)@.tally(), other@.tally()),
            done is Some ==> sum_lines(final(self)@.entries) == sum_lines(old(self)@.entries)
                + sum_lines(other@.entries),
            done is None ==> final(self)@ == old(self)@,
    {
        proof {
            use_type_invariant(&*self);
            use_type_invariant(other);
        }
        if self.collapsed {
            return None;
        }
        let ours = total_of(&self.lines_per_language);
        let theirs = total_of(&other.lines_per_language);
        if theirs > usize::MAX - ours {
            return None;
        }
        let ghost before = old(self)@;
        let ghost more = other@.entries;
        let mut i: usize = 0;
        while i < other.lines_per_language.len()
            invariant
                i <= other.lines_per_language.len(),
                more == entries_of(other.lines_per_language@),
                sum_lines(before.entries) + sum_lines(more) <= usize::MAX,
                self@ == (ProjectView { entries: merged(before.entries, more.take(i as int)), ..before }),
                !before.collapsed,
            decreases other.lines_per_language.len() - i,
        {
            proof {
                let upto = more.take(i + 1);
                assert(upto.drop_last() == more.take(i as int));
                assert(more == upto + more.skip(i + 1));
                lemma_sum_lines_concat(upto, more.skip(i + 1));
                lemma_merged(before.entries, more.take(i as int));
            }
            let pushed = self.push(other.lines_per_language[i].0.as_str(), other.lines_per_language[i].1);
            i += 1;
        }
        proof {
            assert(more.take(i as int) == more);
            lemma_merged(before.entries, more);
        }
        Some(())
    }

    /// Draws the report: the total, and each language's share of it. The
    /// shares add up to the whole. A second call changes nothing.
    pub fn collapse(&mut self)
        ensures
            final(self)@ == old(self)@.collapse(),
            sum_parts(final(self)@.percentages) == final(self)@.total_lines,
    {
        proof {
            use_type_invariant(&*self);
            lemma_collapse_once(self@);
            lemma_percentages_sum(self@.collapse());
        }
        if self.collapsed {
            return;
        }
        let total = total_of(&self.lines_per_language);
        let percentages = shares(&self.lines_per_language, total);
        let mut entries: Vec<(String, usize)> = Vec::new();
        core::mem::swap(&mut self.lines_per_language, &mut entries);
        let mut name = String::new();
        core::mem::swap(&mut self.name, &mut name);
        *self = ProjectData {
            lines_per_language: entries,
            total_lines: total,
            name,
            percentage_per_language: percentages,
            collapsed: true,
        };
    }

    /// The name of the project.
    pub fn name(&self) -> (name: &str)
        ensures
            name@ == self@.name,
    {
        self.name.as_str()
    }

    /// Whether `collapse` was called.
    pub fn is_collapsed(&self) -> (collapsed: bool)
        ensures
            collapsed == self@.collapsed,
    {
        self.collapsed
    }

    /// The lines of all languages, once collapsed; 0 before.
    pub fn total_lines(&self) -> (total: usize)
        ensures
            total == self@.total_lines,
    {
        self.total_lines
    }

    /// Each language with its lines.
    pub fn lines_per_language(&self) -> (lines: &Vec<(String, usize)>)
        ensures
            entries_of(lines@) == self@.entries,
    {
        &self.lines_per_language
    }

    /// Each language with its share of the total, once collapsed; empty
    /// before.
    pub fn percentage_per_language(&self) -> (percentages: &Vec<(String, Share)>)
        ensures
            shares_of(percentages@) == self@.percentages,
    {
        &self.percentage_per_language
    }
}

} // verus!
