//! Answering query terms: the exact-match selection among folded candidates,
//! the records or miss each term produces, and the outcome of a batch.
use vstd::prelude::*;
use crate::output::{
    record_output, spec_write_miss, spec_write_record, title_of, write_miss, write_record, Options,
};
use crate::readable::spec_contains_html_tag;
use crate::record::QueryTerm;
use crate::storage::StoredEntry;
use crate::text::str_eq;

verus! {

/// Whether an entry's stored headword is exactly the query text.
pub open spec fn is_exact(e: StoredEntry, text: Seq<char>) -> bool {
    e.headword_view() == text
}

pub open spec fn has_exact(s: Seq<StoredEntry>, text: Seq<char>) -> bool {
    exists|i: int| 0 <= i < s.len() && is_exact(#[trigger] s[i], text)
}

/// The candidates whose stored headword is exactly the text, in order.
pub open spec fn exact_only(s: Seq<StoredEntry>, text: Seq<char>) -> Seq<StoredEntry> {
    s.filter(|e: StoredEntry| is_exact(e, text))
}

/// The exact-match rule over all selected dictionaries at once: when any candidate
/// is spelled exactly as the query, only those; otherwise every candidate.
pub open spec fn selected(s: Seq<StoredEntry>, text: Seq<char>) -> Seq<StoredEntry> {
    if has_exact(s, text) {
        exact_only(s, text)
    } else {
        s
    }
}

proof fn lemma_exact_only_step(s: Seq<StoredEntry>, text: Seq<char>, i: int)
    requires
        0 <= i < s.len(),
    ensures
        exact_only(s.take(i + 1), text) == if is_exact(s[i], text) {
            exact_only(s.take(i), text).push(s[i])
        } else {
            exact_only(s.take(i), text)
        },
{
    reveal(Seq::filter);
    assert(s.take(i + 1).drop_last() =~= s.take(i));
}

/// Applies the exact-match rule to the folded candidates of one term.
pub fn select_matches(term: &QueryTerm, candidates: Vec<StoredEntry>) -> (r: Vec<StoredEntry>)
    ensures
        r@ == selected(candidates@, term.text_view()),
{
    let ghost cs = candidates@;
    let text = term.text();
    let mut any_exact = false;
    let mut i: usize = 0;
    while i < candidates.len()
        invariant
            i <= candidates.len(),
            cs == candidates@,
            text@ == term.text_view(),
            any_exact <==> exists|j: int| 0 <= j < i && is_exact(#[trigger] cs[j], text@),
        decreases candidates.len() - i,
    {
        if str_eq(candidates[i].headword(), text) {
            any_exact = true;
        }
        i += 1;
    }
    if !any_exact {
        return candidates;
    }
    let mut kept: Vec<StoredEntry> = Vec::new();
    let mut rest = candidates;
    let mut k: usize = 0;
    assert(exact_only(cs.take(0), text@) =~= Seq::<StoredEntry>::empty()) by {
        reveal(Seq::filter);
    }
    while rest.len() > 0
        invariant
            k <= cs.len(),
            cs.len() <= usize::MAX,
            rest@ == cs.skip(k as int),
            kept@ == exact_only(cs.take(k as int), text@),
            text@ == term.text_view(),
        decreases rest.len(),
    {
        let e = rest.remove(0);
        proof {
            assert(e == cs[k as int]);
            lemma_exact_only_step(cs, text@, k as int);
        }
        if str_eq(e.headword(), text) {
            kept.push(e);
        }
        k += 1;
        assert(rest@ =~= cs.skip(k as int));
    }
    assert(cs.take(k as int) =~= cs);
    kept
}

proof fn lemma_filter_all(s: Seq<StoredEntry>, text: Seq<char>)
    requires
        forall|i: int| 0 <= i < s.len() ==> is_exact(#[trigger] s[i], text),
    ensures
        exact_only(s, text) == s,
    decreases s.len(),
{
    reveal(Seq::filter);
    if s.len() > 0 {
        lemma_filter_all(s.drop_last(), text);
        assert(s.drop_last().push(s.last()) =~= s);
    }
}

/// When some candidate is spelled exactly as the query, the selection holds only
/// such candidates and keeps every one of them; the selection never holds
/// anything that was not a candidate.
pub proof fn law_selection_prefers_exact_spelling(s: Seq<StoredEntry>, text: Seq<char>)
    ensures
        has_exact(s, text) ==> forall|i: int|
            0 <= i < selected(s, text).len() ==> is_exact(#[trigger] selected(s, text)[i], text),
        has_exact(s, text) ==> forall|i: int|
            0 <= i < s.len() && is_exact(s[i], text) ==> #[trigger] selected(s, text).contains(s[i]),
        forall|x: StoredEntry| #[trigger] selected(s, text).contains(x) ==> s.contains(x),
{
    broadcast use vstd::seq_lib::group_filter_ensures;

    assert forall|x: StoredEntry| #[trigger] selected(s, text).contains(x) implies s.contains(x) by {
        if has_exact(s, text) {
            s.lemma_filter_contains_rev(|e: StoredEntry| is_exact(e, text), x);
        }
    }
}

/// Without an exactly spelled candidate, every folded candidate is selected, in
/// order and without deduplication.
pub proof fn law_selection_falls_back_to_all_candidates(s: Seq<StoredEntry>, text: Seq<char>)
    requires
        !has_exact(s, text),
    ensures
        selected(s, text) == s,
{
}

/// Selecting again changes nothing.
pub proof fn law_selection_is_idempotent(s: Seq<StoredEntry>, text: Seq<char>)
    ensures
        selected(selected(s, text), text) == selected(s, text),
{
    broadcast use vstd::seq_lib::group_filter_ensures;

    if has_exact(s, text) {
        let f = exact_only(s, text);
        let i = choose|i: int| 0 <= i < s.len() && is_exact(#[trigger] s[i], text);
        assert(f.contains(s[i]));
        let j = choose|j: int| 0 <= j < f.len() && f[j] == s[i];
        assert(is_exact(f[j], text));
        assert(has_exact(f, text));
        assert forall|k: int| 0 <= k < f.len() implies is_exact(#[trigger] f[k], text) by {}
        lemma_filter_all(f, text);
    }
}

/// A term has a selection exactly when it has candidates.
pub proof fn law_selection_empty_only_without_candidates(s: Seq<StoredEntry>, text: Seq<char>)
    ensures
        selected(s, text).len() == 0 <==> s.len() == 0,
{
    broadcast use vstd::seq_lib::group_filter_ensures;

    if has_exact(s, text) {
        let i = choose|i: int| 0 <= i < s.len() && is_exact(#[trigger] s[i], text);
        assert(selected(s, text).contains(s[i]));
    }
}

/// Whether the selected records come from more than one dictionary.
pub open spec fn spans_dictionaries(s: Seq<StoredEntry>) -> bool {
    exists|i: int|
        0 < i < s.len() && (#[trigger] s[i]).dictionary_name_view() != s[0].dictionary_name_view()
}

pub fn spans_several_dictionaries(matches: &Vec<StoredEntry>) -> (r: bool)
    ensures
        r == spans_dictionaries(matches@),
{
    if matches.len() == 0 {
        return false;
    }
    let first = matches[0].dictionary_name();
    let mut i: usize = 1;
    while i < matches.len()
        invariant
            1 <= i <= matches.len(),
            first@ == matches@[0].dictionary_name_view(),
            forall|j: int| 0 < j < i ==> (#[trigger] matches@[j]).dictionary_name_view() == first@,
        decreases matches.len() - i,
    {
        if !str_eq(matches[i].dictionary_name(), first) {
            return true;
        }
        i += 1;
    }
    false
}

/// The options for one term's records: the dictionary is named in the title when
/// asked for, or, outside raw output, when the records span several dictionaries.
pub open spec fn term_options(o: Options, s: Seq<StoredEntry>) -> Options {
    Options { show_dictionary: o.show_dictionary || (!o.raw && spans_dictionaries(s)), ..o }
}

/// Outside raw output, every record of a term whose records come from more than
/// one dictionary is titled `[dictionary] headword`, `--full` or not; raw output
/// names the dictionary only when asked.
pub proof fn law_titles_name_dictionaries_across_dictionaries(o: Options, s: Seq<StoredEntry>, k: int)
    requires
        0 <= k < s.len(),
    ensures
        !o.raw && spans_dictionaries(s) ==> title_of(
            s[k].dictionary_name_view(),
            s[k].headword_view(),
            term_options(o, s),
        ) == "["@ + s[k].dictionary_name_view() + "] "@ + s[k].headword_view(),
        o.raw && !o.show_dictionary ==> title_of(
            s[k].dictionary_name_view(),
            s[k].headword_view(),
            term_options(o, s),
        ) == s[k].headword_view(),
{
}

/// Successive outputs `cuts[0], ..., cuts[n]` of writing the records of `s` one
/// after another: each step may be laid out as `write_record` allows, and only
/// the first record of the output has no separating blank line.
pub open spec fn record_steps(s: Seq<StoredEntry>, o: Options, first: bool, cuts: Seq<Seq<char>>) -> bool {
    &&& cuts.len() == s.len() + 1
    &&& forall|i: int|
        0 <= i < s.len() ==> record_output(
            (#[trigger] s[i]).dictionary_name_view(),
            s[i].headword_view(),
            s[i].definition_view(),
            o,
            first && i == 0,
            cuts[i],
            cuts[i + 1],
        )
}

/// What writing the records of `s` from `before` may give.
pub open spec fn records_output(
    s: Seq<StoredEntry>,
    o: Options,
    first: bool,
    before: Seq<char>,
    after: Seq<char>,
) -> bool {
    exists|cuts: Seq<Seq<char>>|
        #[trigger] record_steps(s, o, first, cuts) && cuts[0] == before && cuts[s.len() as int] == after
}

/// The records as written when no layout choice is left: raw output, or
/// definitions without HTML.
pub open spec fn plain_records(s: Seq<StoredEntry>, k: nat, o: Options, first: bool) -> Seq<char>
    decreases k,
{
    if k == 0 || k > s.len() {
        Seq::empty()
    } else {
        plain_records(s, (k - 1) as nat, o, first) + spec_write_record(
            s[k - 1].dictionary_name_view(),
            s[k - 1].headword_view(),
            s[k - 1].definition_view(),
            o,
            first && k - 1 == 0,
            None,
            Seq::empty(),
        )
    }
}

pub open spec fn no_layout_choice(s: Seq<StoredEntry>, o: Options) -> bool {
    forall|i: int|
        0 <= i < s.len() ==> o.raw || !spec_contains_html_tag((#[trigger] s[i]).definition_view())
}

/// Query output across terms: the options and whether a record was written yet.
#[derive(Debug)]
pub struct QueryOutput {
    pub options: Options,
    pub wrote_record: bool,
}

impl QueryOutput {
    pub fn new(options: Options) -> (r: QueryOutput)
        ensures
            r.options == options,
            !r.wrote_record,
    {
        QueryOutput { options, wrote_record: false }
    }

    /// Reports a term without records.
    pub fn miss(&mut self, err: &mut String, term: &str)
        ensures
            final(err)@ == old(err)@ + spec_write_miss(term@),
            *final(self) == *old(self),
    {
        write_miss(err, term);
    }

    /// Writes the selected records of one term.
    pub fn records(&mut self, out: &mut String, matches: &Vec<StoredEntry>)
        ensures
            records_output(
                matches@,
                term_options(old(self).options, matches@),
                !old(self).wrote_record,
                old(out)@,
                final(out)@,
            ),
            no_layout_choice(matches@, old(self).options) ==> final(out)@ == old(out)@ + plain_records(
                matches@,
                matches@.len(),
                term_options(old(self).options, matches@),
                !old(self).wrote_record,
            ),
            final(self).options == old(self).options,
            final(self).wrote_record == (old(self).wrote_record || matches@.len() > 0),
    {
        let spans = spans_several_dictionaries(matches);
        let options = Options {
            show_dictionary: self.options.show_dictionary || (!self.options.raw && spans),
            ..self.options
        };
        let first = !self.wrote_record;
        let ghost before = out@;
        let ghost mut cuts: Seq<Seq<char>> = seq![out@];
        let mut k: usize = 0;
        while k < matches.len()
            invariant
                k <= matches.len(),
                options == term_options(old(self).options, matches@),
                first == !old(self).wrote_record,
                *self == *old(self),
                cuts.len() == k + 1,
                cuts[0] == before,
                cuts[k as int] == out@,
                forall|i: int|
                    0 <= i < k ==> record_output(
                        (#[trigger] matches@[i]).dictionary_name_view(),
                        matches@[i].headword_view(),
                        matches@[i].definition_view(),
                        options,
                        first && i == 0,
                        cuts[i],
                        cuts[i + 1],
                    ),
                no_layout_choice(matches@, old(self).options) ==> out@ == before + plain_records(
                    matches@,
                    k as nat,
                    options,
                    first,
                ),
            decreases matches.len() - k,
        {
            let e = &matches[k];
            write_record(out, e.dictionary_name(), e.headword(), e.definition(), options, first && k == 0);
            proof {
                let old_cuts = cuts;
                cuts = cuts.push(out@);
                assert forall|i: int| 0 <= i < k + 1 implies record_output(
                    (#[trigger] matches@[i]).dictionary_name_view(),
                    matches@[i].headword_view(),
                    matches@[i].definition_view(),
                    options,
                    first && i == 0,
                    cuts[i],
                    cuts[i + 1],
                ) by {
                    if i < k {
                        assert(cuts[i] == old_cuts[i] && cuts[i + 1] == old_cuts[i + 1]);
                    }
                }
                if no_layout_choice(matches@, old(self).options) {
                    assert(options.raw || !spec_contains_html_tag(matches@[k as int].definition_view()));
                    assert(out@ =~= before + plain_records(matches@, (k + 1) as nat, options, first));
                }
            }
            k += 1;
        }
        assert(record_steps(matches@, options, first, cuts));
        if matches.len() > 0 {
            self.wrote_record = true;
        }
    }

    /// Answers one term from its folded candidates: the selected records, or a
    /// miss when there are none. Returns whether the term was found.
    pub fn answer(
        &mut self,
        out: &mut String,
        err: &mut String,
        term: &QueryTerm,
        candidates: Vec<StoredEntry>,
    ) -> (found: bool)
        ensures
            found == (selected(candidates@, term.text_view()).len() > 0),
            !found ==> final(out)@ == old(out)@ && final(err)@ == old(err)@ + spec_write_miss(
                term.text_view(),
            ) && *final(self) == *old(self),
            found ==> final(err)@ == old(err)@ && final(self).options == old(self).options
                && final(self).wrote_record && records_output(
                selected(candidates@, term.text_view()),
                term_options(old(self).options, selected(candidates@, term.text_view())),
                !old(self).wrote_record,
                old(out)@,
                final(out)@,
            ),
            found && no_layout_choice(selected(candidates@, term.text_view()), old(self).options)
                ==> final(out)@ == old(out)@ + plain_records(
                selected(candidates@, term.text_view()),
                selected(candidates@, term.text_view()).len(),
                term_options(old(self).options, selected(candidates@, term.text_view())),
                !old(self).wrote_record,
            ),
    {
        let matches = select_matches(term, candidates);
        if matches.len() == 0 {
            self.miss(err, term.text());
            return false;
        }
        self.records(out, &matches);
        true
    }
}

/// Whether every term of a batch was found.
#[derive(Debug, Clone, Copy, PartialEq, Eq, Structural)]
pub enum Outcome {
    AllFound,
    SomeMissing,
}

/// The outcome of a batch in which some term was missing or none was.
pub fn outcome(missing: bool) -> (r: Outcome)
    ensures
        missing <==> r == Outcome::SomeMissing,
{
    if missing {
        Outcome::SomeMissing
    } else {
        Outcome::AllFound
    }
}

pub const EXIT_SUCCESS: u8 = 0;

pub const EXIT_NOT_FOUND: u8 = 1;

pub const EXIT_ARGUMENT_ERROR: u8 = 2;

pub const EXIT_RUNTIME_ERROR: u8 = 3;

/// The exit status of a finished batch: 0 when all terms were found, 1 otherwise.
pub fn exit_code(outcome: Outcome) -> (r: u8)
    ensures
        outcome == Outcome::AllFound ==> r == EXIT_SUCCESS,
        outcome == Outcome::SomeMissing ==> r == EXIT_NOT_FOUND,
{
    match outcome {
        Outcome::AllFound => EXIT_SUCCESS,
        Outcome::SomeMissing => EXIT_NOT_FOUND,
    }
}

} // verus!
