//! Properties of the search, stated over its specification.

use vstd::prelude::*;
use vstd::string::StringSliceAdditionalSpecFns;

use crate::fold::folded;
use crate::lines::lines_of;
use crate::matcher::{entries, line_matches, matches_in, selected, MatchingLine};

verus! {

/// What `selected` holds: each entry is a line of `lines` under its 1-based
/// position, the positions strictly increase, and a line has an entry
/// exactly when it matches.
proof fn lemma_selected(query: Seq<u8>, lines: Seq<Seq<u8>>, case_sensitive: bool)
    ensures
        ({
            let s = selected(query, lines, case_sensitive);
            &&& forall|k: int|
                0 <= k < s.len() ==> 1 <= #[trigger] s[k].0 <= lines.len() && lines[s[k].0 - 1]
                    == s[k].1
            &&& forall|i: int, j: int| 0 <= i < j < s.len() ==> s[i].0 < s[j].0
            &&& forall|i: int|
                0 <= i < lines.len() ==> (line_matches(query, #[trigger] lines[i], case_sensitive)
                    <==> exists|k: int| 0 <= k < s.len() && s[k].0 == i + 1)
        }),
    decreases lines.len(),
{
    if lines.len() > 0 {
        let prev = lines.drop_last();
        lemma_selected(query, prev, case_sensitive);
        let s0 = selected(query, prev, case_sensitive);
        let s = selected(query, lines, case_sensitive);
        let n = lines.len() as int;
        assert forall|i: int| 0 <= i < lines.len() implies (line_matches(
            query,
            #[trigger] lines[i],
            case_sensitive,
        ) <==> exists|k: int| 0 <= k < s.len() && s[k].0 == i + 1) by {
            if i < n - 1 {
                assert(lines[i] == prev[i]);
                if line_matches(query, lines[i], case_sensitive) {
                    let k = choose|k: int| 0 <= k < s0.len() && s0[k].0 == i + 1;
                    assert(s[k] == s0[k]);
                }
                if exists|k: int| 0 <= k < s.len() && s[k].0 == i + 1 {
                    let k = choose|k: int| 0 <= k < s.len() && s[k].0 == i + 1;
                    if k < s0.len() {
                        assert(s[k] == s0[k]);
                    }
                }
            } else {
                if line_matches(query, lines[i], case_sensitive) {
                    assert(s[s0.len() as int].0 == i + 1);
                } else {
                    assert(s == s0);
                    if exists|k: int| 0 <= k < s.len() && s[k].0 == i + 1 {
                        let k = choose|k: int| 0 <= k < s.len() && s[k].0 == i + 1;
                        assert(s0[k].0 <= prev.len());
                    }
                }
            }
        }
        assert forall|k: int| 0 <= k < s.len() implies 1 <= #[trigger] s[k].0 <= lines.len()
            && lines[s[k].0 - 1] == s[k].1 by {
            if k < s0.len() {
                assert(s[k] == s0[k]);
                assert(lines[s0[k].0 - 1] == prev[s0[k].0 - 1]);
            }
        }
        assert forall|i: int, j: int| 0 <= i < j < s.len() implies s[i].0 < s[j].0 by {
            if j < s0.len() {
                assert(s[i] == s0[i] && s[j] == s0[j]);
            } else {
                assert(s[i] == s0[i]);
                assert(s0[i].0 <= prev.len());
            }
        }
    }
}

/// The matches of a search come in strictly increasing line order, and each
/// one is the line of the text under its 1-based line number.
pub proof fn lemma_matches_ordered(query: Seq<u8>, text: Seq<u8>, case_sensitive: bool)
    ensures
        ({
            let m = matches_in(query, text, case_sensitive);
            let lines = lines_of(text);
            &&& forall|i: int, j: int| 0 <= i < j < m.len() ==> m[i].0 < m[j].0
            &&& forall|k: int|
                0 <= k < m.len() ==> 1 <= #[trigger] m[k].0 <= lines.len() && lines[m[k].0 - 1]
                    == m[k].1
        }),
{
    lemma_selected(query, lines_of(text), case_sensitive);
}

/// A line of the text is among the matches exactly when it contains the
/// query under the active case rule.
pub proof fn lemma_matches_exact(query: Seq<u8>, text: Seq<u8>, case_sensitive: bool)
    ensures
        ({
            let m = matches_in(query, text, case_sensitive);
            let lines = lines_of(text);
            forall|i: int|
                0 <= i < lines.len() ==> (line_matches(query, #[trigger] lines[i], case_sensitive)
                    <==> exists|k: int| 0 <= k < m.len() && m[k].0 == i + 1)
        }),
{
    let lines = lines_of(text);
    let m = matches_in(query, text, case_sensitive);
    lemma_selected(query, lines, case_sensitive);
    assert(m == selected(query, lines, case_sensitive));
    assert forall|i: int| 0 <= i < lines.len() implies (line_matches(
        query,
        #[trigger] lines[i],
        case_sensitive,
    ) <==> exists|k: int| 0 <= k < m.len() && m[k].0 == i + 1) by {}
}

/// Two searches with the same query, text and case rule give the same
/// matches: the same lines under the same numbers, with the same query.
pub proof fn lemma_search_repeatable(
    query: &str,
    text: &str,
    case_sensitive: bool,
    first: Seq<MatchingLine>,
    second: Seq<MatchingLine>,
)
    requires
        entries(first) == matches_in(query.spec_bytes(), text.spec_bytes(), case_sensitive),
        entries(second) == matches_in(query.spec_bytes(), text.spec_bytes(), case_sensitive),
        forall|k: int| 0 <= k < first.len() ==> first[k].searched_text == query,
        forall|k: int| 0 <= k < second.len() ==> second[k].searched_text == query,
    ensures
        first.len() == second.len(),
        forall|k: int|
            0 <= k < first.len() ==> first[k].line_number == second[k].line_number
                && first[k].text.spec_bytes() == second[k].text.spec_bytes()
                && first[k].searched_text == second[k].searched_text,
{
    assert(entries(first).len() == first.len());
    assert(entries(second).len() == second.len());
    assert forall|k: int| 0 <= k < first.len() implies first[k].line_number
        == second[k].line_number && first[k].text.spec_bytes() == second[k].text.spec_bytes()
        && first[k].searched_text == second[k].searched_text by {
        assert(entries(first)[k] == first[k].entry());
        assert(entries(second)[k] == second[k].entry());
    }
}

/// Without regard to case, only the lowercase forms count: queries with the
/// same lowercase form find the same lines, and a line matches as its
/// lowercase form does.
pub proof fn lemma_case_blind(
    query: Seq<u8>,
    other_query: Seq<u8>,
    line: Seq<u8>,
    other_line: Seq<u8>,
    text: Seq<u8>,
)
    requires
        folded(query) == folded(other_query),
        folded(line) == folded(other_line),
    ensures
        line_matches(query, line, false) == line_matches(other_query, other_line, false),
        matches_in(query, text, false) == matches_in(other_query, text, false),
{
    lemma_case_blind_lines(query, other_query, lines_of(text));
}

proof fn lemma_case_blind_lines(query: Seq<u8>, other_query: Seq<u8>, lines: Seq<Seq<u8>>)
    requires
        folded(query) == folded(other_query),
    ensures
        selected(query, lines, false) == selected(other_query, lines, false),
    decreases lines.len(),
{
    if lines.len() > 0 {
        lemma_case_blind_lines(query, other_query, lines.drop_last());
    }
}

} // verus!
