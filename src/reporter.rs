//! Locating the matched span of a line and rendering the line with that span
//! marked.

use vstd::prelude::*;
use vstd::string::{StringExecFns, StringSliceAdditionalSpecFns};
use vstd::utf8::{decode_utf8, is_char_boundary, is_continuation_byte, valid_utf8};

use colored::Colorize;

use crate::bytes::{contains, find_bytes, first_index};
use crate::fold::{folded, lowercase_bytes};
use crate::matcher::MatchingLine;

verus! {

broadcast use vstd::utf8::group_utf8_lib;

/// The bytes that the search compares: `b` itself when `case_sensitive`,
/// else its lowercase form.
pub open spec fn compared(b: Seq<u8>, case_sensitive: bool) -> Seq<u8> {
    if case_sensitive {
        b
    } else {
        folded(b)
    }
}

/// Where `query` is found in `text`: the first offset of the compared query
/// in the compared text, and that offset plus the length of the query as
/// given. `None` when it is not found.
pub open spec fn span_of(text: Seq<u8>, query: Seq<u8>, case_sensitive: bool) -> Option<
    (int, int),
> {
    let hay = compared(text, case_sensitive);
    let needle = compared(query, case_sensitive);
    if contains(hay, needle) {
        let start = first_index(hay, needle);
        Some((start, start + query.len()))
    } else {
        None
    }
}

/// The span `[start, end)` can be cut out of `text`: it lies inside it and
/// both of its ends are character boundaries.
pub open spec fn can_cut(text: Seq<u8>, start: int, end: int) -> bool {
    &&& 0 <= start <= end <= text.len()
    &&& is_char_boundary(text, start)
    &&& is_char_boundary(text, end)
}

/// Locates `search` in `s`: the first offset of the query in the line (both
/// lowercased unless `case_sensitive`) and that offset plus the byte length
/// of the query as given. Fails with "Not found" when the query does not
/// occur, and with "Span out of range" when the end does not fit in `usize`.
pub fn parse_string(s: &str, search: &str, case_sensitive: bool) -> (r: Result<
    (usize, usize),
    String,
>)
    ensures
        match r {
            Ok((start, end)) => span_of(s.spec_bytes(), search.spec_bytes(), case_sensitive)
                == Some((start as int, end as int)),
            Err(msg) => match span_of(s.spec_bytes(), search.spec_bytes(), case_sensitive) {
                None => msg@ == "Not found"@,
                Some((_, end)) => end > usize::MAX && msg@ == "Span out of range"@,
            },
        },
{
    let found = if case_sensitive {
        find_bytes(s.as_bytes(), search.as_bytes())
    } else {
        let folded_line = lowercase_bytes(s);
        let folded_query = lowercase_bytes(search);
        find_bytes(folded_line.as_slice(), folded_query.as_slice())
    };
    match found {
        None => Err("Not found".to_owned()),
        Some(start) => match start.checked_add(search.as_bytes().len()) {
            Some(end) => Ok((start, end)),
            None => Err("Span out of range".to_owned()),
        },
    }
}

/// Cuts `text` into the part before `start`, the span `[start, end)` and the
/// part from `end` on; `None` when the span cannot be cut out of it.
pub fn split_span<'a>(text: &'a str, start: usize, end: usize) -> (r: Option<
    (&'a str, &'a str, &'a str),
>)
    ensures
        r is Some <==> can_cut(text.spec_bytes(), start as int, end as int),
        match r {
            Some((before, span, after)) => {
                &&& before.spec_bytes() == text.spec_bytes().subrange(0, start as int)
                &&& span.spec_bytes() == text.spec_bytes().subrange(start as int, end as int)
                &&& after.spec_bytes() == text.spec_bytes().subrange(
                    end as int,
                    text.spec_bytes().len() as int,
                )
            },
            None => true,
        },
{
    let ghost b = text.spec_bytes();
    let len: usize = text.as_bytes().len();
    if !(start <= end && end <= len && text.is_char_boundary(start) && text.is_char_boundary(
        end,
    )) {
        return None;
    }
    let (head, after) = text.split_at(end);
    proof {
        let h = head.spec_bytes();
        assert(valid_utf8(b));
        assert(h =~= b.subrange(0, end as int));
        assert(valid_utf8(h));
        if start < end {
            assert(h[start as int] == b[start as int]);
            assert(is_continuation_byte(b[start as int]) == is_continuation_byte(
                h[start as int],
            ));
        } else {
            assert(is_char_boundary(h, h.len() as int));
        }
        assert(is_char_boundary(h, start as int));
    }
    let (before, span) = head.split_at(start);
    assert(before.spec_bytes() =~= b.subrange(0, start as int));
    assert(span.spec_bytes() =~= b.subrange(start as int, end as int));
    assert(after.spec_bytes() =~= b.subrange(end as int, b.len() as int));
    Some((before, span, after))
}

/// A rendered line: the line number, a colon and a space, the text before
/// the span, the marked span, and the text after it.
pub fn compose_line(number: &str, before: &str, marked: &str, after: &str) -> (r: String)
    ensures
        r@ == number@ + ": "@ + before@ + marked@ + after@,
{
    let mut out = number.to_owned();
    out.append(": ");
    out.append(before);
    out.append(marked);
    out.append(after);
    out
}

/// Relies on `usize`'s `ToString`, then colored's `Colorize::green` and the
/// `Display` of `ColoredString`: the decimal number, in escape codes when
/// coloring is on.
#[verifier::external_body]
fn paint_number(n: usize) -> (r: String) {
    n.to_string().green().to_string()
}

/// Relies on colored's `Colorize::red` and the `Display` of `ColoredString`:
/// the text, in escape codes when coloring is on.
#[verifier::external_body]
fn paint_span(s: &str) -> (r: String) {
    s.red().to_string()
}

/// Renders a matching line with its first match of the query marked: the
/// line number, ": ", the text before the span, the marked span, and the
/// text after it. Fails when the query cannot be located in the line, or
/// when the span cannot be cut out of it.
pub fn render_match(m: &MatchingLine, case_sensitive: bool) -> (r: Result<String, String>)
    ensures
        match span_of(m.text.spec_bytes(), m.searched_text.spec_bytes(), case_sensitive) {
            Some((start, end)) => match r {
                Ok(line) => {
                    &&& end <= usize::MAX
                    &&& can_cut(m.text.spec_bytes(), start, end)
                    &&& exists|number: Seq<char>, marked: Seq<char>|
                        line@ == number + ": "@ + decode_utf8(
                            m.text.spec_bytes().subrange(0, start),
                        ) + marked + decode_utf8(
                            m.text.spec_bytes().subrange(end, m.text.spec_bytes().len() as int),
                        )
                },
                Err(_) => end > usize::MAX || !can_cut(m.text.spec_bytes(), start, end),
            },
            None => r is Err,
        },
{
    let (start, end) = match parse_string(m.text, m.searched_text, case_sensitive) {
        Ok(span) => span,
        Err(msg) => {
            return Err(msg);
        },
    };
    match split_span(m.text, start, end) {
        None => Err("Span is not on character boundaries".to_owned()),
        Some((before, span, after)) => {
            let number = paint_number(m.line_number);
            let marked = paint_span(span);
            let line = compose_line(number.as_str(), before, marked.as_str(), after);
            assert(before@ == decode_utf8(before.spec_bytes()));
            assert(after@ == decode_utf8(after.spec_bytes()));
            assert(line@ == number@ + ": "@ + before@ + marked@ + after@);
            Ok(line)
        },
    }
}

} // verus!
