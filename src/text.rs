//! The line model of a text: lines end at `\n`, a `\r` right before that
//! `\n` is not part of the line, and a text that ends in `\n` has no empty
//! last line. Positions are byte offsets into the UTF-8 encoding.

use vstd::prelude::*;
use vstd::string::StringSliceAdditionalSpecFns;
use vstd::utf8::*;

verus! {

broadcast use {vstd::utf8::encode_utf8_valid_utf8, vstd::utf8::encode_utf8_decode_utf8};

pub const NEWLINE: u8 = 10;

pub const CARRIAGE_RETURN: u8 = 13;

pub const TAB: u8 = 9;

pub const HASH: u8 = 35;

/// The position of the first `\n` at or after `i`, or the length of `b`
/// when there is none.
pub open spec fn line_end(b: Seq<u8>, i: int) -> int
    decreases b.len() - i,
{
    if 0 <= i < b.len() {
        if b[i] == NEWLINE {
            i
        } else {
            line_end(b, i + 1)
        }
    } else {
        b.len() as int
    }
}

/// Where the content of the line starting at `s` ends: before the `\r` of a
/// terminating `\r\n`, else at the line end.
pub open spec fn content_end(b: Seq<u8>, s: int) -> int {
    let e = line_end(b, s);
    if s < e && e < b.len() && b[e - 1] == CARRIAGE_RETURN {
        e - 1
    } else {
        e
    }
}

/// The bytes of the line that starts at `s`, without its terminator.
pub open spec fn line(b: Seq<u8>, s: int) -> Seq<u8> {
    b.subrange(s, content_end(b, s))
}

/// Where the line after the one starting at `s` begins.
pub open spec fn next_line(b: Seq<u8>, s: int) -> int {
    line_end(b, s) + 1
}

/// `s` is the first byte of a line of `b`.
pub open spec fn is_line_start(b: Seq<u8>, s: int) -> bool {
    0 <= s < b.len() && (s == 0 || b[s - 1] == NEWLINE)
}

pub open spec fn starts_with(l: Seq<u8>, p: Seq<u8>) -> bool {
    p.len() <= l.len() && l.subrange(0, p.len() as int) == p
}

/// The first line, at or after the line start `s`, that starts with `p`.
pub open spec fn find_line(b: Seq<u8>, p: Seq<u8>, s: int) -> Option<int>
    decreases b.len() + 1 - s,
    when 0 <= s
    via find_line_decreases
{
    if s >= b.len() {
        None
    } else if starts_with(line(b, s), p) {
        Some(s)
    } else {
        find_line(b, p, next_line(b, s))
    }
}

#[via_fn]
proof fn find_line_decreases(b: Seq<u8>, p: Seq<u8>, s: int) {
    if 0 <= s < b.len() {
        lemma_line_end(b, s);
    }
}

/// What `trim` gives for the characters `s`: they without leading and
/// trailing whitespace.
pub uninterp spec fn trimmed(s: Seq<char>) -> Seq<char>;

/// The text of the line starting at `s` from byte column `col` on, trimmed;
/// empty when the line is shorter than `col` or `col` falls inside a
/// character.
pub open spec fn field(b: Seq<u8>, s: int, col: int) -> Seq<char> {
    let p = s + col;
    let ce = content_end(b, s);
    if p <= ce && is_char_boundary(b, p) {
        trimmed(decode_utf8(b.subrange(p, ce)))
    } else {
        Seq::empty()
    }
}

pub proof fn lemma_line_end(b: Seq<u8>, i: int)
    requires
        0 <= i <= b.len(),
    ensures
        i <= line_end(b, i) <= b.len(),
        line_end(b, i) < b.len() ==> b[line_end(b, i)] == NEWLINE,
        forall|k: int| i <= k < line_end(b, i) ==> b[k] != NEWLINE,
    decreases b.len() - i,
{
    if i < b.len() && b[i] != NEWLINE {
        lemma_line_end(b, i + 1);
    }
}

pub proof fn lemma_content_end(b: Seq<u8>, s: int)
    requires
        0 <= s <= b.len(),
    ensures
        s <= content_end(b, s) <= line_end(b, s) <= b.len(),
        content_end(b, s) < b.len() ==> (b[content_end(b, s)] == NEWLINE || b[content_end(
            b,
            s,
        )] == CARRIAGE_RETURN),
        next_line(b, s) < b.len() ==> is_line_start(b, next_line(b, s)),
{
    lemma_line_end(b, s);
}

/// Relies on `str::trim`: the result depends on the characters alone.
#[verifier::external_body]
pub(crate) fn trim(s: &str) -> (r: &str)
    ensures
        r@ == trimmed(s@),
{
    s.trim()
}

/// Finds where the line that starts at `s` ends, and where its content ends.
pub fn line_bounds(b: &[u8], s: usize) -> (r: (usize, usize))
    requires
        s <= b@.len(),
    ensures
        r.0 == content_end(b@, s as int),
        r.1 == line_end(b@, s as int),
{
    let mut i: usize = s;
    while i < b.len() && b[i] != NEWLINE
        invariant
            s <= i <= b@.len(),
            line_end(b@, s as int) == line_end(b@, i as int),
        decreases b@.len() - i,
    {
        i = i + 1;
    }
    if s < i && i < b.len() && b[i - 1] == CARRIAGE_RETURN {
        (i - 1, i)
    } else {
        (i, i)
    }
}

/// Whether the bytes `b[s..e]` start with `p`.
pub fn has_prefix_at(b: &[u8], s: usize, e: usize, p: &[u8]) -> (r: bool)
    requires
        s <= e <= b@.len(),
    ensures
        r == starts_with(b@.subrange(s as int, e as int), p@),
{
    if p.len() > e - s {
        return false;
    }
    let mut k: usize = 0;
    while k < p.len()
        invariant
            p@.len() <= e - s,
            s <= e <= b@.len(),
            0 <= k <= p@.len(),
            forall|j: int| 0 <= j < k ==> b@[s + j] == p@[j],
        decreases p@.len() - k,
    {
        if b[s + k] != p[k] {
            assert(b@.subrange(s as int, e as int).subrange(0, p@.len() as int)[k as int] != p@[k as int]);
            return false;
        }
        k = k + 1;
    }
    assert(b@.subrange(s as int, e as int).subrange(0, p@.len() as int) =~= p@);
    true
}

/// The first line of `t`, at or after the line start `s`, that starts with
/// `p`.
pub fn find_line_from(t: &str, p: &[u8], s: usize) -> (r: Option<usize>)
    requires
        s == 0 || s == t.spec_bytes().len() || is_line_start(t.spec_bytes(), s as int),
    ensures
        r is None <==> find_line(t.spec_bytes(), p@, s as int) is None,
        r matches Some(k) ==> find_line(t.spec_bytes(), p@, s as int) == Some(k as int)
            && is_line_start(t.spec_bytes(), k as int),
{
    let b = t.as_bytes();
    let mut i: usize = s;
    while i < b.len()
        invariant
            b@ == t.spec_bytes(),
            i == 0 || i == b@.len() || is_line_start(b@, i as int),
            i <= b@.len(),
            find_line(b@, p@, s as int) == find_line(b@, p@, i as int),
        decreases b@.len() - i,
    {
        let (ce, e) = line_bounds(b, i);
        proof {
            lemma_content_end(b@, i as int);
        }
        if has_prefix_at(b, i, ce, p) {
            return Some(i);
        }
        if e >= b.len() {
            assert(find_line(b@, p@, (e + 1) as int) == None::<int>);
            return None;
        }
        i = e + 1;
    }
    None
}

/// The text of the line of `t` starting at `s` from byte column `col` on,
/// trimmed.
pub fn field_of(t: &str, s: usize, col: usize) -> (r: String)
    requires
        s <= t.spec_bytes().len(),
    ensures
        r@ == field(t.spec_bytes(), s as int, col as int),
{
    let b = t.as_bytes();
    let (ce, _e) = line_bounds(b, s);
    proof {
        lemma_content_end(b@, s as int);
    }
    if col > ce - s {
        return String::new();
    }
    let p = s + col;
    if !t.is_char_boundary(p) {
        return String::new();
    }
    let (_head, rest) = t.split_at(p);
    proof {
        let rb = rest.spec_bytes();
        assert(rb =~= b@.subrange(p as int, b@.len() as int));
        if ce < b.len() {
            assert(rb[ce - p] == b@[ce as int]);
            is_char_boundary_iff_not_is_continuation_byte(rb, ce - p);
        } else {
            is_char_boundary_start_end_of_seq(rb);
        }
    }
    let (mid, _tail) = rest.split_at(ce - p);
    proof {
        assert(mid.spec_bytes() =~= b@.subrange(p as int, ce as int));
    }
    let r = trim(mid);
    String::from_str(r)
}

/// No line of `b`, from the line start `s` on, starts with `p`: then the
/// search for such a line finds none.
pub proof fn lemma_find_line_absent(b: Seq<u8>, p: Seq<u8>, s: int)
    requires
        0 <= s,
        s == 0 || s >= b.len() || is_line_start(b, s),
        forall|t: int| is_line_start(b, t) ==> !starts_with(#[trigger] line(b, t), p),
    ensures
        find_line(b, p, s) is None,
    decreases b.len() + 1 - s,
{
    if s < b.len() {
        assert(is_line_start(b, s));
        assert(!starts_with(line(b, s), p));
        lemma_content_end(b, s);
        lemma_find_line_absent(b, p, next_line(b, s));
    }
}

/// A field cut from a line that is too short for its column is empty.
pub proof fn lemma_short_line_empty_field(b: Seq<u8>, s: int, col: int)
    requires
        0 <= s <= b.len(),
        line(b, s).len() < col,
    ensures
        field(b, s, col) == Seq::<char>::empty(),
{
    lemma_content_end(b, s);
}

} // verus!
