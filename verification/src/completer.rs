//! Prefix autocompletion over previously seen entry names.
//!
//! The completer keeps the last queried prefix and its matches, so a
//! repeated query with an unchanged prefix is answered from the memo
//! without rescanning.  Matching is a literal, case-sensitive prefix
//! test on the characters typed so far.

use vstd::prelude::*;

use crate::text::is_prefix_of;
use crate::text::strings_view;
use crate::text::strs_view;
use crate::text::opt_text;
use crate::text::starts_with;
use crate::text::str_eq;

verus! {

/// The abstract state of a completer: the memoized prefix, the known
/// names, and the memoized matches.
pub ghost struct CompleterView {
    pub input: Seq<char>,
    pub prev_titles: Seq<Seq<char>>,
    pub output: Seq<Seq<char>>,
}

/// The names whose text starts with the queried prefix, in order.
pub open spec fn suggestions_for(titles: Seq<Seq<char>>, input: Seq<char>) -> Seq<Seq<char>> {
    titles.filter(|t: Seq<char>| is_prefix_of(input, t))
}

/// One query against the memo: an unchanged prefix leaves the state
/// untouched, a new prefix recomputes the matches.
pub open spec fn spec_update(c: CompleterView, input: Seq<char>) -> CompleterView {
    if c.input == input {
        c
    } else {
        CompleterView {
            input: input,
            prev_titles: c.prev_titles,
            output: suggestions_for(c.prev_titles, input),
        }
    }
}

/// The memo is honest: it always holds exactly the matches of the
/// memoized prefix, so no query can observe whether the answer was
/// recomputed or served from the memo.
pub open spec fn completer_wf(c: CompleterView) -> bool {
    c.output == suggestions_for(c.prev_titles, c.input)
}

/// The empty prefix matches every name.
proof fn lemma_empty_prefix_matches_all(titles: Seq<Seq<char>>, input: Seq<char>)
    requires
        input.len() == 0,
    ensures
        suggestions_for(titles, input) == titles,
    decreases titles.len(),
{
    reveal(Seq::filter);
    if titles.len() > 0 {
        lemma_empty_prefix_matches_all(titles.drop_last(), input);
        assert(is_prefix_of(input, titles.last())) by {
            assert(titles.last().subrange(0, 0) =~= input);
        };
        assert(titles.drop_last().push(titles.last()) =~= titles);
    }
}

/// What completing a partial name yields: the highlighted suggestion
/// if there is one, else the sole match, else nothing.
pub open spec fn spec_completion(output: Seq<Seq<char>>, highlighted: Option<Seq<char>>) -> Option<
    Seq<char>,
> {
    match highlighted {
        Some(s) => Some(s),
        None => if output.len() == 1 {
            Some(output[0])
        } else {
            None
        },
    }
}

/// Autocompletion over a fixed list of names, with a one-entry memo
/// of the last query.
#[derive(Clone)]
pub struct TitleCompleter {
    input: String,
    prev_titles: Vec<String>,
    output: Vec<String>,
}

impl View for TitleCompleter {
    type V = CompleterView;

    closed spec fn view(&self) -> CompleterView {
        CompleterView {
            input: self.input@,
            prev_titles: strings_view(self.prev_titles@),
            output: strings_view(self.output@),
        }
    }
}

impl Default for TitleCompleter {
    /// A completer that knows no names.
    fn default() -> (r: TitleCompleter)
        ensures
            r@ == (CompleterView {
                input: Seq::<char>::empty(),
                prev_titles: Seq::<Seq<char>>::empty(),
                output: Seq::<Seq<char>>::empty(),
            }),
            completer_wf(r@),
    {
        let r = TitleCompleter { input: String::new(), prev_titles: Vec::new(), output: Vec::new() };
        proof {
            assert(strings_view(r.prev_titles@) =~= Seq::<Seq<char>>::empty());
            assert(strings_view(r.output@) =~= Seq::<Seq<char>>::empty());
            lemma_empty_prefix_matches_all(Seq::<Seq<char>>::empty(), Seq::<char>::empty());
        }
        r
    }
}

impl TitleCompleter {
    /// A completer over the given names.  Its memo starts out on the
    /// empty prefix, which every name matches.
    pub fn new(titles: Vec<&str>) -> (r: TitleCompleter)
        ensures
            r@ == (CompleterView {
                input: Seq::<char>::empty(),
                prev_titles: strs_view(titles@),
                output: strs_view(titles@),
            }),
            completer_wf(r@),
    {
        let mut owned: Vec<String> = Vec::new();
        let mut out: Vec<String> = Vec::new();
        let mut i: usize = 0;
        while i < titles.len()
            invariant
                i <= titles@.len(),
                strings_view(owned@) =~= strs_view(titles@).take(i as int),
                strings_view(out@) =~= strs_view(titles@).take(i as int),
            decreases titles@.len() - i,
        {
            let ghost before = owned@;
            let ghost out_before = out@;
            owned.push(titles[i].to_owned());
            out.push(titles[i].to_owned());
            proof {
                assert(strings_view(before).len() == i);
                assert(before.len() == i);
                assert(owned@.len() == i + 1);
                assert(owned@[i as int]@ == titles@[i as int]@);
                assert(strings_view(owned@) =~= strs_view(titles@).take(i as int + 1));
                assert(strings_view(out_before).len() == i);
                assert(out_before.len() == i);
                assert(out@.len() == i + 1);
                assert(out@[i as int]@ == titles@[i as int]@);
                assert(strings_view(out@) =~= strs_view(titles@).take(i as int + 1));
            }
            i = i + 1;
        }
        let r = TitleCompleter { input: String::new(), prev_titles: owned, output: out };
        proof {
            assert(strs_view(titles@).take(titles@.len() as int) =~= strs_view(titles@));
            lemma_empty_prefix_matches_all(strs_view(titles@), Seq::<char>::empty());
        }
        r
    }

    /// Answer a query: recompute the matches only if the prefix
    /// changed since the previous query.
    pub fn update_input(&mut self, input: &str)
        requires
            completer_wf(old(self)@),
        ensures
            final(self)@ == spec_update(old(self)@, input@),
            completer_wf(final(self)@),
    {
        if str_eq(self.input.as_str(), input) {
            return;
        }
        self.input = input.to_owned();
        self.output.clear();
        let ghost titles = strings_view(self.prev_titles@);
        let mut i: usize = 0;
        while i < self.prev_titles.len()
            invariant
                i <= self.prev_titles@.len(),
                titles == strings_view(self.prev_titles@),
                self.input@ == input@,
                strings_view(self.output@) =~= suggestions_for(titles.take(i as int), input@),
            decreases self.prev_titles@.len() - i,
        {
            let keep = starts_with(self.prev_titles[i].as_str(), input);
            let ghost out_vec_before = self.output@;
            if keep {
                let title = self.prev_titles[i].clone();
                self.output.push(title);
            }
            proof {
                reveal(Seq::filter);
                let prefix = titles.take(i as int);
                let t1 = titles.take(i as int + 1);
                assert(t1.drop_last() =~= prefix);
                assert(t1.last() == titles[i as int]);
                assert(titles[i as int] == self.prev_titles@[i as int]@);
                if keep {
                    assert(suggestions_for(t1, input@) == suggestions_for(prefix, input@).push(
                        titles[i as int],
                    ));
                    assert(strings_view(out_vec_before).len() == suggestions_for(
                        prefix,
                        input@,
                    ).len());
                    assert(out_vec_before.len() == strings_view(out_vec_before).len());
                    assert(self.output@.len() == out_vec_before.len() + 1);
                    assert(self.output@[out_vec_before.len() as int]@ == titles[i as int]);
                    assert(strings_view(self.output@) =~= strings_view(out_vec_before).push(
                        titles[i as int],
                    ));
                } else {
                    assert(suggestions_for(t1, input@) == suggestions_for(prefix, input@));
                }
                assert(strings_view(self.output@) =~= suggestions_for(t1, input@));
            }
            i = i + 1;
        }
        proof {
            assert(titles.take(titles.len() as int) =~= titles);
        }
    }

    /// The names matching the given prefix, served from the memo when
    /// the prefix is unchanged.
    pub fn get_suggestions(&mut self, input: &str) -> (r: Vec<String>)
        requires
            completer_wf(old(self)@),
        ensures
            final(self)@ == spec_update(old(self)@, input@),
            completer_wf(final(self)@),
            strings_view(r@) == spec_update(old(self)@, input@).output,
    {
        self.update_input(input);
        let mut r: Vec<String> = Vec::new();
        let mut i: usize = 0;
        while i < self.output.len()
            invariant
                i <= self.output@.len(),
                strings_view(r@) =~= strings_view(self.output@).take(i as int),
            decreases self.output@.len() - i,
        {
            let ghost before = r@;
            r.push(self.output[i].clone());
            proof {
                assert(strings_view(before).len() == i);
                assert(before.len() == i);
                assert(r@.len() == i + 1);
                assert(r@[i as int]@ == self.output@[i as int]@);
                assert(strings_view(r@) =~= strings_view(self.output@).take(i as int + 1));
            }
            i = i + 1;
        }
        proof {
            assert(strings_view(self.output@).take(self.output@.len() as int) =~= strings_view(
                self.output@,
            ));
        }
        r
    }

    /// The replacement to offer for the typed text: the highlighted
    /// suggestion, or the sole match for the prefix, or nothing.
    pub fn get_completion(&mut self, input: &str, highlighted: Option<String>) -> (r: Option<
        String,
    >)
        requires
            completer_wf(old(self)@),
        ensures
            final(self)@ == spec_update(old(self)@, input@),
            completer_wf(final(self)@),
            opt_text(r) == spec_completion(
                spec_update(old(self)@, input@).output,
                opt_text(highlighted),
            ),
    {
        self.update_input(input);
        match highlighted {
            Some(s) => Some(s),
            None => {
                if self.output.len() == 1 {
                    Some(self.output[0].clone())
                } else {
                    None
                }
            },
        }
    }
}

/// Querying twice with the same prefix is idempotent: the second
/// query finds the memo and leaves the completer exactly as the first
/// left it.
pub proof fn lemma_suggestions_idempotent(c: CompleterView, input: Seq<char>)
    ensures
        spec_update(spec_update(c, input), input) == spec_update(c, input),
{
}

/// Every suggestion a query yields carries the queried prefix
/// literally.
pub proof fn lemma_suggestions_are_prefixed(c: CompleterView, input: Seq<char>, j: int)
    requires
        completer_wf(c),
        0 <= j < spec_update(c, input).output.len(),
    ensures
        is_prefix_of(input, spec_update(c, input).output[j]),
{
    c.prev_titles.lemma_filter_pred(|t: Seq<char>| is_prefix_of(input, t), j);
}

} // verus!
