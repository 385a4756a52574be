//! Splitting a text into lines.
//!
//! A line ends at a line feed or at the end of the text; a carriage return
//! just before a line feed belongs to the line ending, not to the line. A
//! line ending at the very end of the text does not start another, empty
//! line.

use vstd::prelude::*;
use vstd::string::StringSliceAdditionalSpecFns;
use vstd::utf8::{is_char_boundary, is_continuation_byte, length_of_first_scalar, valid_utf8};

verus! {

broadcast use vstd::utf8::group_utf8_lib;

/// The line feed byte.
pub const LF: u8 = 10;

/// The carriage return byte.
pub const CR: u8 = 13;

/// The offset of the first line feed at or after `i`, or `b.len()` if none.
pub open spec fn newline_from(b: Seq<u8>, i: int) -> int
    decreases b.len() - i,
{
    if i < 0 || i >= b.len() {
        b.len() as int
    } else if b[i] == LF {
        i
    } else {
        newline_from(b, i + 1)
    }
}

/// The offset of the first line feed of `b`, or `b.len()` if none.
pub open spec fn line_end(b: Seq<u8>) -> int {
    newline_from(b, 0)
}

/// `x` without one trailing carriage return.
pub open spec fn strip_cr(x: Seq<u8>) -> Seq<u8> {
    if x.len() > 0 && x.last() == CR {
        x.drop_last()
    } else {
        x
    }
}

/// The lines of the text `b`, in order, without their line endings.
pub open spec fn lines_of(b: Seq<u8>) -> Seq<Seq<u8>>
    decreases b.len(),
    via lines_of_decreases
{
    if b.len() == 0 {
        Seq::empty()
    } else if line_end(b) >= b.len() {
        seq![b]
    } else {
        seq![strip_cr(b.subrange(0, line_end(b)))] + lines_of(
            b.subrange(line_end(b) + 1, b.len() as int),
        )
    }
}

#[via_fn]
proof fn lines_of_decreases(b: Seq<u8>) {
    lemma_newline_from_bounds(b, 0);
}

pub proof fn lemma_newline_from_bounds(b: Seq<u8>, i: int)
    requires
        0 <= i,
    ensures
        i <= newline_from(b, i) <= b.len() || (i > b.len() && newline_from(b, i) == b.len()),
        newline_from(b, i) < b.len() ==> b[newline_from(b, i)] == LF,
    decreases b.len() - i,
{
    if i < b.len() && b[i] != LF {
        lemma_newline_from_bounds(b, i + 1);
    }
}

/// When no line feed lies in `[i, j)` and `j` ends the text or holds one,
/// the first line feed at or after `i` is at `j`.
proof fn lemma_newline_from_is(b: Seq<u8>, i: int, j: int)
    requires
        0 <= i <= j <= b.len(),
        forall|m: int| i <= m < j ==> b[m] != LF,
        j == b.len() || b[j] == LF,
    ensures
        newline_from(b, i) == j,
    decreases j - i,
{
    if i < j {
        lemma_newline_from_is(b, i + 1, j);
    }
}

/// The offset of the first line feed in `b`, or its length if it has none.
fn find_line_end(b: &[u8]) -> (r: usize)
    ensures
        r == line_end(b@),
{
    let len: usize = b.len();
    let mut j: usize = 0;
    while j < len && b[j] != LF
        invariant
            len == b@.len(),
            j <= len,
            forall|m: int| 0 <= m < j ==> b@[m] != LF,
        decreases len - j,
    {
        j = j + 1;
    }
    proof {
        lemma_newline_from_is(b@, 0, j as int);
    }
    j
}

/// Splits the first line off a non-empty text: returns that line without its
/// ending, and the text after its line feed when it has one.
pub fn split_first_line(text: &str) -> (r: (&str, Option<&str>))
    requires
        text.spec_bytes().len() > 0,
    ensures
        lines_of(text.spec_bytes()) == seq![r.0.spec_bytes()] + match r.1 {
            Some(rest) => lines_of(rest.spec_bytes()),
            None => Seq::empty(),
        },
        match r.1 {
            Some(rest) => rest.spec_bytes().len() < text.spec_bytes().len(),
            None => true,
        },
{
    let ghost b = text.spec_bytes();
    let bytes = text.as_bytes();
    let end = find_line_end(bytes);
    proof {
        lemma_newline_from_bounds(b, 0);
    }
    if end == bytes.len() {
        assert(lines_of(b) == seq![b]);
        assert(seq![b] + Seq::<Seq<u8>>::empty() =~= seq![b]);
        return (text, None);
    }
    proof {
        assert(valid_utf8(b));
        assert(!is_continuation_byte(b[end as int]));
    }
    let (head, tail) = text.split_at(end);
    proof {
        let t = tail.spec_bytes();
        assert(t =~= b.subrange(end as int, b.len() as int));
        assert(valid_utf8(t));
        assert(length_of_first_scalar(t) == 1);
        assert(is_char_boundary(t, 1)) by {
            reveal_with_fuel(is_char_boundary, 2);
        }
    }
    let (_, rest) = tail.split_at(1);
    assert(rest.spec_bytes() =~= b.subrange(end + 1, b.len() as int));
    let head_bytes = head.as_bytes();
    if end > 0 && head_bytes[end - 1] == CR {
        proof {
            let h = head.spec_bytes();
            assert(h =~= b.subrange(0, end as int));
            assert(valid_utf8(h));
            assert(!is_continuation_byte(h[end - 1]));
        }
        let (line, _) = head.split_at(end - 1);
        assert(line.spec_bytes() =~= strip_cr(head.spec_bytes()));
        (line, Some(rest))
    } else {
        assert(head.spec_bytes() =~= strip_cr(head.spec_bytes()));
        (head, Some(rest))
    }
}

} // verus!
