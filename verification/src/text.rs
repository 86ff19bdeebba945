//! Verified helpers on characters and decimal strings.
//!
//! The configuration and archive-naming code works on `&str` values
//! whose views are `Seq<char>`; everything here is stated over those
//! views.

use vstd::prelude::*;
use vstd::string::StrSliceExecFns;

verus! {

/// ASCII lowercase of one character; every other character is unchanged.
pub open spec fn lower_char(c: char) -> char {
    if 'A' <= c && c <= 'Z' {
        (((c as u8) + 32) as char)
    } else {
        c
    }
}

/// ASCII lowercase of a whole character sequence.
pub open spec fn lower_chars(s: Seq<char>) -> Seq<char> {
    s.map_values(|c: char| lower_char(c))
}

/// Lowercase one character, per `lower_char`.
pub fn lower_char_exec(c: char) -> (r: char)
    ensures
        r == lower_char(c),
{
    if 'A' <= c && c <= 'Z' {
        ((c as u8) + 32) as char
    } else {
        c
    }
}

/// Case-insensitive equality: the two strings are equal after
/// ASCII-lowercasing both.
pub fn eq_ignore_case(a: &str, b: &str) -> (r: bool)
    ensures
        r == (lower_chars(a@) == lower_chars(b@)),
{
    let alen = a.unicode_len();
    let blen = b.unicode_len();
    if alen != blen {
        assert(lower_chars(a@).len() != lower_chars(b@).len());
        return false;
    }
    let mut i: usize = 0;
    while i < alen
        invariant
            i <= alen,
            alen == a@.len(),
            blen == b@.len(),
            alen == blen,
            forall|j: int| 0 <= j < i ==> lower_char(a@[j]) == lower_char(b@[j]),
        decreases alen - i,
    {
        let ca = lower_char_exec(a.get_char(i));
        let cb = lower_char_exec(b.get_char(i));
        if ca != cb {
            assert(lower_chars(a@)[i as int] != lower_chars(b@)[i as int]);
            return false;
        }
        i = i + 1;
    }
    assert(lower_chars(a@) =~= lower_chars(b@));
    true
}

/// Whether `p` is a prefix of `s`.
pub fn str_starts_with(s: &str, p: &str) -> (r: bool)
    ensures
        r == p@.is_prefix_of(s@),
{
    let slen = s.unicode_len();
    let plen = p.unicode_len();
    if plen > slen {
        return false;
    }
    let mut i: usize = 0;
    while i < plen
        invariant
            i <= plen,
            plen <= slen,
            slen == s@.len(),
            plen == p@.len(),
            forall|j: int| 0 <= j < i ==> s@[j] == p@[j],
        decreases plen - i,
    {
        if s.get_char(i) != p.get_char(i) {
            assert(!p@.is_prefix_of(s@));
            return false;
        }
        i = i + 1;
    }
    assert(p@ =~= s@.subrange(0, p@.len() as int));
    true
}

/// Whether two strings hold the same characters.
pub fn str_eq(a: &str, b: &str) -> (r: bool)
    ensures
        r == (a@ == b@),
{
    let alen = a.unicode_len();
    let blen = b.unicode_len();
    if alen != blen {
        return false;
    }
    let r = str_starts_with(a, b);
    proof {
        if r {
            assert(a@ =~= b@);
        }
    }
    r
}

/// The decimal digit character for `d` (which must be below ten).
pub open spec fn dec_digit_char(d: nat) -> char {
    (((48 + d % 10) as u8) as char)
}

/// The decimal digits of `n`, most significant first, no leading zeros
/// (a single zero for `n == 0`).
pub open spec fn dec_chars(n: nat) -> Seq<char>
    decreases n,
{
    if n < 10 {
        seq![dec_digit_char(n)]
    } else {
        dec_chars(n / 10).push(dec_digit_char(n % 10))
    }
}

/// `dec_chars(n)` padded with leading zero characters to width `w`.
pub open spec fn pad_dec_chars(n: nat, w: nat) -> Seq<char> {
    if dec_chars(n).len() >= w {
        dec_chars(n)
    } else {
        Seq::new((w - dec_chars(n).len()) as nat, |i: int| '0') + dec_chars(n)
    }
}

/// A one-character string slice for the digit `d`.
fn digit_str(d: u8) -> (r: &'static str)
    requires
        d < 10,
    ensures
        r@ == seq![dec_digit_char(d as nat)],
{
    proof {
        reveal_strlit("0");
        reveal_strlit("1");
        reveal_strlit("2");
        reveal_strlit("3");
        reveal_strlit("4");
        reveal_strlit("5");
        reveal_strlit("6");
        reveal_strlit("7");
        reveal_strlit("8");
        reveal_strlit("9");
    }
    match d {
        0 => "0",
        1 => "1",
        2 => "2",
        3 => "3",
        4 => "4",
        5 => "5",
        6 => "6",
        7 => "7",
        8 => "8",
        _ => "9",
    }
}

/// Appends the decimal digits of `n` to `s`.
pub fn push_dec(s: &mut String, n: u32)
    ensures
        final(s)@ == old(s)@ + dec_chars(n as nat),
    decreases n,
{
    if n < 10 {
        s.append(digit_str(n as u8));
    } else {
        push_dec(s, n / 10);
        s.append(digit_str((n % 10) as u8));
        assert(old(s)@ + dec_chars((n / 10) as nat) + seq![dec_digit_char((n % 10) as nat)]
            =~= old(s)@ + dec_chars(n as nat));
    }
}

proof fn lemma_dec_chars_len_le(n: nat)
    ensures
        dec_chars(n).len() <= n + 1,
    decreases n,
{
    if n >= 10 {
        lemma_dec_chars_len_le(n / 10);
    }
}

/// The number of decimal digits of `n`.
fn dec_width(n: u32) -> (r: usize)
    ensures
        r == dec_chars(n as nat).len(),
    decreases n,
{
    if n < 10 {
        1
    } else {
        let w = dec_width(n / 10);
        assert(dec_chars(n as nat).len() == dec_chars((n / 10) as nat).len() + 1);
        proof {
            lemma_dec_chars_len_le((n / 10) as nat);
        }
        w + 1
    }
}

/// Appends the decimal digits of `n`, left-padded with zeros to width `w`.
pub fn push_dec_padded(s: &mut String, n: u32, w: usize)
    requires
        w <= 16,
    ensures
        final(s)@ == old(s)@ + pad_dec_chars(n as nat, w as nat),
{
    let d = dec_width(n);
    let mut i: usize = d;
    while i < w
        invariant
            d <= i <= w || (d >= w && i == d),
            d == dec_chars(n as nat).len(),
            s@ == old(s)@ + Seq::new((i - d) as nat, |k: int| '0'),
        decreases w - i,
    {
        proof {
            reveal_strlit("0");
        }
        s.append("0");
        proof {
            assert(old(s)@ + Seq::new((i - d) as nat, |k: int| '0') + "0"@
                =~= old(s)@ + Seq::new((i + 1 - d) as nat, |k: int| '0'));
        }
        i = i + 1;
    }
    push_dec(s, n);
    proof {
        if d >= w {
            assert(Seq::new(0nat, |k: int| '0') =~= Seq::<char>::empty());
            assert(s@ =~= old(s)@ + pad_dec_chars(n as nat, w as nat));
        } else {
            assert(s@ =~= old(s)@ + pad_dec_chars(n as nat, w as nat));
        }
    }
}

/// Whether `c` is a decimal digit.
pub open spec fn is_dec_digit(c: char) -> bool {
    '0' <= c && c <= '9'
}

/// The numeric value of a digit character.
pub open spec fn dec_char_val(c: char) -> nat {
    ((c as u8) - 48) as nat
}

/// The value of a digit string, most significant digit first.
pub open spec fn digits_val(s: Seq<char>) -> nat
    decreases s.len(),
{
    if s.len() == 0 {
        0
    } else {
        digits_val(s.drop_last()) * 10 + dec_char_val(s.last())
    }
}

/// Whether every character of `s` is a decimal digit.
pub open spec fn all_dec_digits(s: Seq<char>) -> bool {
    forall|i: int| 0 <= i < s.len() ==> is_dec_digit(s[i])
}

/// What parsing `s` as a `u32` yields: an optional leading plus sign,
/// then at least one decimal digit, and the value must fit.
pub open spec fn parse_u32_chars(s: Seq<char>) -> Option<u32> {
    let t = if s.len() > 0 && s[0] == '+' {
        s.drop_first()
    } else {
        s
    };
    if t.len() > 0 && all_dec_digits(t) && digits_val(t) <= u32::MAX {
        Some(digits_val(t) as u32)
    } else {
        None
    }
}

/// Whether `c` is ASCII whitespace.
pub open spec fn is_space_char(c: char) -> bool {
    c == ' ' || c == '\t' || c == '\n' || c == '\r' || c == '\u{c}'
}

/// `s` with leading and trailing ASCII whitespace removed.
pub open spec fn trim_chars(s: Seq<char>) -> Seq<char>
    decreases s.len(),
{
    if s.len() > 0 && is_space_char(s[0]) {
        trim_chars(s.drop_first())
    } else if s.len() > 0 && is_space_char(s.last()) {
        trim_chars(s.drop_last())
    } else {
        s
    }
}

/// Whether `c` is ASCII whitespace.
fn is_space_exec(c: char) -> (r: bool)
    ensures
        r == is_space_char(c),
{
    c == ' ' || c == '\t' || c == '\n' || c == '\r' || c == '\u{c}'
}

proof fn lemma_trim_is_subrange(s: Seq<char>, lo: int, hi: int)
    requires
        0 <= lo <= hi <= s.len(),
        forall|j: int| 0 <= j < lo ==> is_space_char(s[j]),
        forall|j: int| hi <= j < s.len() ==> is_space_char(s[j]),
        lo < hi ==> !is_space_char(s[lo]),
        lo < hi ==> !is_space_char(s[hi - 1]),
        lo == hi ==> lo == s.len() || hi == 0,
    ensures
        trim_chars(s) == s.subrange(lo, hi),
    decreases s.len(),
{
    if s.len() > 0 && is_space_char(s[0]) {
        if lo == hi && hi == 0 {
            // every character is whitespace seen from the right as well
            lemma_trim_is_subrange(s.drop_first(), 0, 0);
            assert(s.drop_first().subrange(0, 0) =~= s.subrange(0, 0));
        } else {
            lemma_trim_is_subrange(s.drop_first(), lo - 1, hi - 1);
            assert(s.drop_first().subrange(lo - 1, hi - 1) =~= s.subrange(lo, hi));
        }
    } else if s.len() > 0 && is_space_char(s.last()) {
        lemma_trim_is_subrange(s.drop_last(), lo, hi);
        assert(s.drop_last().subrange(lo, hi) =~= s.subrange(lo, hi));
    } else {
        assert(lo == 0 && hi == s.len()) by {
            if s.len() > 0 {
                assert(!is_space_char(s[0]));
                assert(lo == 0);
                assert(!is_space_char(s.last()));
                assert(hi == s.len());
            }
        }
        assert(s.subrange(0, s.len() as int) =~= s);
    }
}

proof fn lemma_digits_val_prefix(s: Seq<char>, j: int)
    requires
        0 <= j <= s.len(),
    ensures
        digits_val(s) >= digits_val(s.take(j)),
    decreases s.len() - j,
{
    if j < s.len() {
        lemma_digits_val_prefix(s, j + 1);
        assert(s.take(j + 1).drop_last() =~= s.take(j));
        assert(digits_val(s.take(j + 1)) == digits_val(s.take(j)) * 10 + dec_char_val(
            s.take(j + 1).last(),
        ));
        assert(digits_val(s.take(j)) * 10 >= digits_val(s.take(j))) by (nonlinear_arith);
    } else {
        assert(s.take(j) =~= s);
    }
}

/// Parses `s`, after trimming ASCII whitespace, as a `u32`.
#[verifier::loop_isolation(false)]
pub fn parse_u32_trimmed(s: &str) -> (r: Option<u32>)
    ensures
        r == parse_u32_chars(trim_chars(s@)),
{
    let len = s.unicode_len();
    let mut lo: usize = 0;
    while lo < len && is_space_exec(s.get_char(lo))
        invariant
            lo <= len,
            len == s@.len(),
            forall|j: int| 0 <= j < lo ==> is_space_char(s@[j]),
        decreases len - lo,
    {
        lo = lo + 1;
    }
    let mut hi: usize = len;
    if lo == len {
        hi = lo;
    } else {
        while hi > lo && is_space_exec(s.get_char(hi - 1))
            invariant
                lo <= hi <= len,
                len == s@.len(),
                lo < len,
                !is_space_char(s@[lo as int]),
                forall|j: int| hi <= j < len ==> is_space_char(s@[j]),
            decreases hi,
        {
            hi = hi - 1;
        }
    }
    let ghost t = s@.subrange(lo as int, hi as int);
    proof {
        lemma_trim_is_subrange(s@, lo as int, hi as int);
    }
    // optional leading plus sign
    let mut pos: usize = lo;
    if pos < hi && s.get_char(pos) == '+' {
        pos = pos + 1;
    }
    let ghost d = if t.len() > 0 && t[0] == '+' {
        t.drop_first()
    } else {
        t
    };
    proof {
        assert(s@.subrange(pos as int, hi as int) =~= d);
    }
    if pos == hi {
        // no digits at all
        return None;
    }
    let mut value: u32 = 0;
    let mut i: usize = pos;
    while i < hi
        invariant
            pos <= i <= hi <= len,
            len == s@.len(),
            d =~= s@.subrange(pos as int, hi as int),
            forall|j: int| 0 <= j < i - pos ==> is_dec_digit(d[j]),
            value == digits_val(d.take(i - pos)),
        decreases hi - i,
    {
        let c = s.get_char(i);
        if !('0' <= c && c <= '9') {
            assert(!is_dec_digit(d[i - pos]));
            return None;
        }
        let dv: u32 = ((c as u8) - 48) as u32;
        let next: u64 = (value as u64) * 10 + (dv as u64);
        proof {
            assert(d.take(i - pos + 1).drop_last() =~= d.take(i - pos));
            assert(d.take(i - pos + 1).last() == d[i - pos]);
        }
        if next > u32::MAX as u64 {
            proof {
                lemma_digits_val_prefix(d, i - pos + 1);
            }
            return None;
        }
        value = next as u32;
        i = i + 1;
    }
    proof {
        assert(d.take(hi - pos) =~= d);
    }
    Some(value)
}

} // verus!
