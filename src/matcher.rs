//! Finding the lines of a text that contain a query.

use vstd::prelude::*;
use vstd::string::StringSliceAdditionalSpecFns;

use crate::bytes::{contains, find_bytes};
use crate::fold::{folded, lowercase_bytes};
use crate::lines::{lines_of, split_first_line};

verus! {

broadcast use vstd::utf8::group_utf8_lib;

/// A line that matched a query: the line's text, the query it matched, and
/// the line's 1-based number in the searched text.
pub struct MatchingLine<'a> {
    pub text: &'a str,
    pub searched_text: &'a str,
    pub line_number: usize,
}

impl<'a> MatchingLine<'a> {
    /// The line number and the bytes of the line.
    pub open spec fn entry(&self) -> (int, Seq<u8>) {
        (self.line_number as int, self.text.spec_bytes())
    }

    pub fn new(text: &'a str, searched_text: &'a str, line_number: usize) -> (r: Self)
        ensures
            r.text == text,
            r.searched_text == searched_text,
            r.line_number == line_number,
    {
        MatchingLine { text, searched_text, line_number }
    }
}

/// Whether `line` contains `query`: byte for byte when `case_sensitive`,
/// else after lowercasing both.
pub open spec fn line_matches(query: Seq<u8>, line: Seq<u8>, case_sensitive: bool) -> bool {
    if case_sensitive {
        contains(line, query)
    } else {
        contains(folded(line), folded(query))
    }
}

/// The numbered lines among `lines` that match `query`, in order; a line's
/// number is its 1-based position in `lines`.
pub open spec fn selected(query: Seq<u8>, lines: Seq<Seq<u8>>, case_sensitive: bool) -> Seq<
    (int, Seq<u8>),
>
    decreases lines.len(),
{
    if lines.len() == 0 {
        Seq::empty()
    } else {
        let before = selected(query, lines.drop_last(), case_sensitive);
        if line_matches(query, lines.last(), case_sensitive) {
            before.push((lines.len() as int, lines.last()))
        } else {
            before
        }
    }
}

/// The matches of `query` in the text whose bytes are `text`.
pub open spec fn matches_in(query: Seq<u8>, text: Seq<u8>, case_sensitive: bool) -> Seq<
    (int, Seq<u8>),
> {
    selected(query, lines_of(text), case_sensitive)
}

/// The line number and bytes of each match.
pub open spec fn entries(r: Seq<MatchingLine>) -> Seq<(int, Seq<u8>)> {
    r.map_values(|m: MatchingLine| m.entry())
}

/// A text has no more lines than bytes.
pub proof fn lemma_lines_count(b: Seq<u8>)
    ensures
        lines_of(b).len() <= b.len(),
    decreases b.len(),
{
    if b.len() > 0 {
        let e = crate::lines::line_end(b);
        crate::lines::lemma_newline_from_bounds(b, 0);
        if e < b.len() {
            lemma_lines_count(b.subrange(e + 1, b.len() as int));
        }
    }
}

/// Whether `line` contains the query, given the query and its lowercase bytes.
fn contains_query(query: &str, folded_query: &Vec<u8>, line: &str, case_sensitive: bool) -> (r:
    bool)
    requires
        folded_query@ == folded(query.spec_bytes()),
    ensures
        r == line_matches(query.spec_bytes(), line.spec_bytes(), case_sensitive),
{
    if case_sensitive {
        find_bytes(line.as_bytes(), query.as_bytes()).is_some()
    } else {
        let folded_line = lowercase_bytes(line);
        find_bytes(folded_line.as_slice(), folded_query.as_slice()).is_some()
    }
}

/// The lines of `contents` that contain `query` (exactly when
/// `case_sensitive`, else after lowercasing both), each with its 1-based
/// line number, in order.
pub fn search<'a>(query: &'a str, contents: &'a str, case_sensitive: bool) -> (r: Vec<
    MatchingLine<'a>,
>)
    ensures
        entries(r@) == matches_in(query.spec_bytes(), contents.spec_bytes(), case_sensitive),
        forall|k: int| 0 <= k < r@.len() ==> r@[k].searched_text == query,
{
    let ghost q = query.spec_bytes();
    let ghost all = lines_of(contents.spec_bytes());
    let folded_query = lowercase_bytes(query);
    let mut results: Vec<MatchingLine<'a>> = Vec::new();
    let mut line_num: usize = 0;
    let mut rest: &'a str = contents;
    let ghost mut seen: Seq<Seq<u8>> = Seq::empty();
    let total: usize = contents.as_bytes().len();
    proof {
        lemma_lines_count(contents.spec_bytes());
    }
    while rest.as_bytes().len() > 0
        invariant
            folded_query@ == folded(q),
            q == query.spec_bytes(),
            all == lines_of(contents.spec_bytes()),
            all.len() <= total,
            all == seen + lines_of(rest.spec_bytes()),
            line_num == seen.len(),
            entries(results@) == selected(q, seen, case_sensitive),
            forall|k: int| 0 <= k < results@.len() ==> results@[k].searched_text == query,
        decreases rest.spec_bytes().len(),
    {
        let (line, next) = split_first_line(rest);
        proof {
            lemma_lines_count(rest.spec_bytes());
        }
        line_num = line_num + 1;
        let ghost before = seen;
        proof {
            seen = seen.push(line.spec_bytes());
            assert(seen.drop_last() =~= before);
        }
        if contains_query(query, &folded_query, line, case_sensitive) {
            let m = MatchingLine::new(line, query, line_num);
            let ghost old_results = results@;
            results.push(m);
            assert(entries(results@) =~= entries(old_results).push(m.entry()));
        }
        match next {
            Some(t) => {
                assert(all =~= seen + lines_of(t.spec_bytes()));
                rest = t;
            },
            None => {
                proof {
                    reveal_strlit("");
                }
                rest = "";
                assert(rest.spec_bytes().len() == 0);
                assert(all =~= seen + lines_of(rest.spec_bytes()));
            },
        }
    }
    assert(lines_of(rest.spec_bytes()) =~= Seq::<Seq<u8>>::empty());
    assert(all =~= seen);
    results
}

} // verus!
