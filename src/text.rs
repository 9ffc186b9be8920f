//! Bytes of source text: character classes, runs of a class, decimal
//! numbers, and slicing a `&str` at ASCII positions.

use vstd::prelude::*;
use vstd::string::StringSliceAdditionalSpecFns;
use vstd::utf8::*;

verus! {

broadcast use vstd::seq::group_seq_axioms;

/// The classes of bytes that the grammar scans for.
#[derive(Clone, Copy, Debug, PartialEq, Eq, Structural)]
pub enum CharClass {
    /// `A`-`Z` and `a`-`z`.
    Alpha,
    /// `0`-`9`.
    Digit,
    /// Letters and digits.
    Alnum,
    /// Space and horizontal tab.
    Space,
    /// Line feed.
    Newline,
    /// Anything but a line feed.
    NotNewline,
}

pub open spec fn is_alpha(b: u8) -> bool {
    (65 <= b <= 90) || (97 <= b <= 122)
}

pub open spec fn is_digit(b: u8) -> bool {
    48 <= b <= 57
}

/// The ASCII whitespace bytes: space, tab, line feed, vertical tab, form
/// feed and carriage return.
pub open spec fn is_whitespace(b: u8) -> bool {
    b == 32 || (9 <= b <= 13)
}

pub open spec fn in_class(c: CharClass, b: u8) -> bool {
    match c {
        CharClass::Alpha => is_alpha(b),
        CharClass::Digit => is_digit(b),
        CharClass::Alnum => is_alpha(b) || is_digit(b),
        CharClass::Space => b == 32 || b == 9,
        CharClass::Newline => b == 10,
        CharClass::NotNewline => b != 10,
    }
}

/// The end of the longest run of bytes of class `c` that starts at `i`.
pub open spec fn run_end(s: Seq<u8>, i: int, c: CharClass) -> int
    decreases s.len() - i,
{
    if 0 <= i < s.len() && in_class(c, s[i]) {
        run_end(s, i + 1, c)
    } else {
        i
    }
}

/// A run ends within the text, and every byte of it is of its class.
pub proof fn lemma_run_end(s: Seq<u8>, i: int, c: CharClass)
    requires
        0 <= i <= s.len(),
    ensures
        i <= run_end(s, i, c) <= s.len(),
        forall|k: int| i <= k < run_end(s, i, c) ==> in_class(c, #[trigger] s[k]),
        run_end(s, i, c) < s.len() ==> !in_class(c, s[run_end(s, i, c)]),
    decreases s.len() - i,
{
    if i < s.len() && in_class(c, s[i]) {
        lemma_run_end(s, i + 1, c);
    }
}

/// A run ends next to an ASCII byte, or where it started.
pub proof fn lemma_run_keeps_edge(s: Seq<u8>, i: int, c: CharClass)
    requires
        0 <= i <= s.len(),
        ascii_edge(s, i),
    ensures
        ascii_edge(s, run_end(s, i, c)),
{
    lemma_run_end(s, i, c);
    let r = run_end(s, i, c);
    if i < r && r < s.len() {
        if c == CharClass::NotNewline {
            assert(s[r] == 10);
        } else {
            assert(in_class(c, s[r - 1]));
        }
    }
}

/// Whether byte `b` is of class `c`.
pub fn class_contains(c: CharClass, b: u8) -> (r: bool)
    ensures
        r == in_class(c, b),
{
    match c {
        CharClass::Alpha => (65 <= b && b <= 90) || (97 <= b && b <= 122),
        CharClass::Digit => 48 <= b && b <= 57,
        CharClass::Alnum => (65 <= b && b <= 90) || (97 <= b && b <= 122) || (48 <= b && b
            <= 57),
        CharClass::Space => b == 32 || b == 9,
        CharClass::Newline => b == 10,
        CharClass::NotNewline => b != 10,
    }
}

/// Scans the run of class `c` that starts at `i`.
pub fn scan(s: &[u8], i: usize, c: CharClass) -> (r: usize)
    requires
        i <= s@.len(),
    ensures
        r == run_end(s@, i as int, c),
        i <= r <= s@.len(),
{
    let mut j: usize = i;
    while j < s.len() && class_contains(c, s[j])
        invariant
            i <= j <= s@.len(),
            run_end(s@, j as int, c) == run_end(s@, i as int, c),
        decreases s@.len() - j,
    {
        j = j + 1;
    }
    j
}

/// The decimal value of the digits `s[i..j]`.
pub open spec fn digits_value(s: Seq<u8>, i: int, j: int) -> nat
    decreases j - i,
{
    if j <= i {
        0
    } else {
        digits_value(s, i, j - 1) * 10 + (s[j - 1] - 48) as nat
    }
}

/// Extending a run of digits never makes its value smaller.
pub proof fn lemma_digits_value_grows(s: Seq<u8>, i: int, j: int, k: int)
    requires
        i <= j <= k,
        forall|m: int| i <= m < k ==> is_digit(#[trigger] s[m]),
    ensures
        digits_value(s, i, j) <= digits_value(s, i, k),
    decreases k - j,
{
    if j < k {
        lemma_digits_value_grows(s, i, j, k - 1);
    }
}

/// The value of the digits `s[i..j]` if it is below 4096.
pub fn word_value(s: &[u8], i: usize, j: usize) -> (r: Option<u16>)
    requires
        i <= j <= s@.len(),
        forall|m: int| i <= m < j ==> is_digit(#[trigger] s@[m]),
    ensures
        r == (if digits_value(s@, i as int, j as int) < 4096 {
            Some(digits_value(s@, i as int, j as int) as u16)
        } else {
            None
        }),
{
    let mut v: u16 = 0;
    let mut k: usize = i;
    while k < j
        invariant
            i <= k <= j <= s@.len(),
            forall|m: int| i <= m < j ==> is_digit(#[trigger] s@[m]),
            v as nat == digits_value(s@, i as int, k as int),
            v < 4096,
        decreases j - k,
    {
        let d: u16 = (s[k] - 48) as u16;
        if v > 409 || (v == 409 && d > 5) {
            proof {
                lemma_digits_value_grows(s@, i as int, k as int + 1, j as int);
            }
            return None;
        }
        v = v * 10 + d;
        k = k + 1;
    }
    Some(v)
}

/// Position `k` of `bytes` is next to an ASCII byte, or at an end.
pub open spec fn ascii_edge(bytes: Seq<u8>, k: int) -> bool {
    ||| k == 0
    ||| k == bytes.len()
    ||| (0 <= k < bytes.len() && bytes[k] < 128)
    ||| (0 < k <= bytes.len() && bytes[k - 1] < 128)
}

/// In valid UTF-8, no continuation byte follows an ASCII byte.
proof fn lemma_after_ascii(bytes: Seq<u8>, k: int)
    requires
        valid_utf8(bytes),
        0 < k < bytes.len(),
        bytes[k - 1] < 128,
    ensures
        !is_continuation_byte(bytes[k]),
    decreases bytes.len(),
{
    let n = length_of_first_scalar(bytes);
    let rest = pop_first_scalar(bytes);
    assert(valid_first_scalar(bytes) && valid_utf8(rest));
    if k - 1 >= n {
        assert(rest[k - n - 1] == bytes[k - 1]);
        assert(rest[k - n] == bytes[k]);
        lemma_after_ascii(rest, k - n);
    } else {
        assert(k - 1 == 0);
        assert(n == 1);
        assert(rest[0] == bytes[1]);
        assert(valid_first_scalar(rest));
    }
}

/// A position next to an ASCII byte is a character boundary.
proof fn lemma_ascii_edge_is_boundary(bytes: Seq<u8>, k: int)
    requires
        valid_utf8(bytes),
        0 <= k <= bytes.len(),
        ascii_edge(bytes, k),
    ensures
        is_char_boundary(bytes, k),
{
    is_char_boundary_start_end_of_seq(bytes);
    if 0 < k < bytes.len() {
        if bytes[k - 1] < 128 && bytes[k] >= 128 {
            lemma_after_ascii(bytes, k);
        }
        is_char_boundary_iff_not_is_continuation_byte(bytes, k);
    }
}

/// The text of `s` between byte positions `from` and `to`.
pub fn substring<'a>(s: &'a str, from: usize, to: usize) -> (r: &'a str)
    requires
        from <= to <= s.spec_bytes().len(),
        ascii_edge(s.spec_bytes(), from as int),
        ascii_edge(s.spec_bytes(), to as int),
    ensures
        r.spec_bytes() == s.spec_bytes().subrange(from as int, to as int),
{
    let bytes = Ghost(s.spec_bytes());
    proof {
        encode_utf8_valid_utf8(s@);
        lemma_ascii_edge_is_boundary(bytes@, to as int);
    }
    let (head, _) = s.split_at(to);
    let hb = Ghost(head.spec_bytes());
    proof {
        encode_utf8_valid_utf8(head@);
        assert(ascii_edge(hb@, from as int)) by {
            if 0 <= from < to {
                assert(hb@[from as int] == bytes@[from as int]);
            }
            if 0 < from <= to {
                assert(hb@[from - 1] == bytes@[from - 1]);
            }
        }
        lemma_ascii_edge_is_boundary(hb@, from as int);
    }
    let (_, r) = head.split_at(from);
    assert(r.spec_bytes() =~= bytes@.subrange(from as int, to as int));
    r
}

/// The text of `s` from byte position `from` to its end.
pub fn suffix<'a>(s: &'a str, from: usize) -> (r: &'a str)
    requires
        from <= s.spec_bytes().len(),
        ascii_edge(s.spec_bytes(), from as int),
    ensures
        r.spec_bytes() == s.spec_bytes().subrange(from as int, s.spec_bytes().len() as int),
{
    let n = s.as_bytes().len();
    substring(s, from, n)
}

} // verus!
