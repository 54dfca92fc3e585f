//! Character-level helpers shared by the rest of the library: decimal
//! rendering and parsing, suffix tests, and case conversion.

use vstd::prelude::*;
use vstd::string::*;

verus! {

/// Relies on `String::push`: the character is appended at the end.
#[verifier::external_body]
pub(crate) fn push_char(s: &mut String, c: char)
    ensures
        final(s)@ == old(s)@.push(c),
{
    s.push(c);
}

/// The characters of `s`, in order.
pub fn chars_of(s: &str) -> (r: Vec<char>)
    ensures
        r@ == s@,
{
    let n = s.unicode_len();
    let mut out: Vec<char> = Vec::new();
    let mut i: usize = 0;
    while i < n
        invariant
            n == s@.len(),
            i <= n,
            out@ == s@.subrange(0, i as int),
        decreases n - i,
    {
        out.push(s.get_char(i));
        i = i + 1;
    }
    assert(out@ =~= s@);
    out
}

/// A string made of the characters of `v`, in order.
pub fn string_of(v: &[char]) -> (r: String)
    ensures
        r@ == v@,
{
    let mut out = String::new();
    let mut i: usize = 0;
    while i < v.len()
        invariant
            i <= v@.len(),
            out@ == v@.subrange(0, i as int),
        decreases v@.len() - i,
    {
        push_char(&mut out, v[i]);
        i = i + 1;
        assert(out@ =~= v@.subrange(0, i as int));
    }
    assert(out@ =~= v@);
    out
}

/// The decimal digit character for `d`.
pub open spec fn digit(d: int) -> char {
    if d == 0 { '0' }
    else if d == 1 { '1' }
    else if d == 2 { '2' }
    else if d == 3 { '3' }
    else if d == 4 { '4' }
    else if d == 5 { '5' }
    else if d == 6 { '6' }
    else if d == 7 { '7' }
    else if d == 8 { '8' }
    else { '9' }
}

/// The value of a decimal digit character, or -1 for any other character.
pub open spec fn digit_value(c: char) -> int {
    if '0' <= c && c <= '9' { (c as int) - ('0' as int) } else { -1 }
}

/// Shortest decimal rendering of `n`, without sign or leading zeros.
pub open spec fn decimal(n: nat) -> Seq<char>
    decreases n,
{
    if n < 10 {
        seq![digit(n as int)]
    } else {
        decimal(n / 10).push(digit((n % 10) as int))
    }
}

/// Decimal rendering of `n`, left-padded with zeros to at least `width` digits.
pub open spec fn padded_decimal(n: nat, width: nat) -> Seq<char> {
    let d = decimal(n);
    if d.len() >= width {
        d
    } else {
        Seq::new((width - d.len()) as nat, |i: int| '0') + d
    }
}

fn digit_char(d: u64) -> (c: char)
    requires
        d < 10,
    ensures
        c == digit(d as int),
{
    if d == 0 { '0' }
    else if d == 1 { '1' }
    else if d == 2 { '2' }
    else if d == 3 { '3' }
    else if d == 4 { '4' }
    else if d == 5 { '5' }
    else if d == 6 { '6' }
    else if d == 7 { '7' }
    else if d == 8 { '8' }
    else { '9' }
}

/// Appends the decimal rendering of `n` to `s`.
pub fn push_decimal(s: &mut String, n: u64)
    ensures
        final(s)@ == old(s)@ + decimal(n as nat),
    decreases n,
{
    if n >= 10 {
        push_decimal(s, n / 10);
    }
    push_char(s, digit_char(n % 10));
    assert(final(s)@ =~= old(s)@ + decimal(n as nat));
}

/// The decimal rendering of `n`.
pub fn decimal_string(n: u64) -> (r: String)
    ensures
        r@ == decimal(n as nat),
{
    let mut s = String::new();
    push_decimal(&mut s, n);
    assert(s@ =~= decimal(n as nat));
    s
}

/// True when every character of `s` is a decimal digit.
pub open spec fn all_digits(s: Seq<char>) -> bool {
    forall|i: int| 0 <= i < s.len() ==> '0' <= #[trigger] s[i] && s[i] <= '9'
}

/// The number that the decimal digits `s` denote (most significant first).
pub open spec fn digits_value(s: Seq<char>) -> nat
    decreases s.len(),
{
    if s.len() == 0 {
        0
    } else {
        digits_value(s.drop_last()) * 10 + (digit_value(s.last()) as nat)
    }
}

/// The unsigned integer that `s` spells: an optional `+` followed by at least
/// one decimal digit, and nothing else.
pub open spec fn unsigned_text(s: Seq<char>) -> Option<nat> {
    let body = if s.len() > 0 && s[0] == '+' { s.drop_first() } else { s };
    if body.len() > 0 && all_digits(body) {
        Some(digits_value(body))
    } else {
        None
    }
}

proof fn lemma_digits_value_grows(s: Seq<char>, c: char)
    requires
        '0' <= c <= '9',
    ensures
        digits_value(s.push(c)) >= digits_value(s),
        digits_value(s.push(c)) == digits_value(s) * 10 + digit_value(c),
{
    assert(s.push(c).drop_last() =~= s);
}

proof fn lemma_digits_value_prefix(p: Seq<char>, rest: Seq<char>)
    ensures
        all_digits(p + rest) ==> digits_value(p + rest) >= digits_value(p),
    decreases rest.len(),
{
    if rest.len() > 0 {
        let q = rest.drop_last();
        assert((p + rest).drop_last() =~= p + q);
        lemma_digits_value_prefix(p, q);
        if all_digits(p + rest) {
            assert forall|k: int| 0 <= k < (p + q).len() implies
                '0' <= #[trigger] (p + q)[k] && (p + q)[k] <= '9' by {
                assert((p + q)[k] == (p + rest)[k]);
            }
            assert((p + rest).last() == (p + rest)[(p + rest).len() - 1]);
        }
    } else {
        assert(p + rest =~= p);
    }
}

/// Reads an unsigned 64-bit decimal number: an optional `+`, then digits.
/// Returns `None` on any other character, on an empty digit run, and when the
/// value does not fit in 64 bits.
pub fn parse_u64(s: &str) -> (r: Option<u64>)
    ensures
        r == (match unsigned_text(s@) {
            Some(v) => if v <= u64::MAX { Some(v as u64) } else { None::<u64> },
            None => None::<u64>,
        }),
{
    let cs = chars_of(s);
    let mut start: usize = 0;
    if cs.len() > 0 && cs[0] == '+' {
        start = 1;
    }
    let ghost body = if s@.len() > 0 && s@[0] == '+' { s@.drop_first() } else { s@ };
    assert(body =~= cs@.subrange(start as int, cs@.len() as int));
    assert(unsigned_text(s@) == (if body.len() > 0 && all_digits(body) {
        Some(digits_value(body))
    } else {
        None
    }));
    if start >= cs.len() {
        assert(unsigned_text(s@).is_none());
        return None;
    }
    let mut acc: u64 = 0;
    let mut i: usize = start;
    while i < cs.len()
        invariant
            start <= i <= cs@.len(),
            body =~= cs@.subrange(start as int, cs@.len() as int),
            unsigned_text(s@) == (if body.len() > 0 && all_digits(body) {
                Some(digits_value(body))
            } else {
                None
            }),
            all_digits(cs@.subrange(start as int, i as int)),
            acc as nat == digits_value(cs@.subrange(start as int, i as int)),
        decreases cs@.len() - i,
    {
        let c = cs[i];
        if !('0' <= c && c <= '9') {
            assert(!all_digits(body)) by {
                assert(body[i - start] == c);
            }
            assert(unsigned_text(s@).is_none());
            return None;
        }
        let ghost pre = cs@.subrange(start as int, i as int);
        assert(cs@.subrange(start as int, i + 1) =~= pre.push(c));
        proof {
            lemma_digits_value_grows(pre, c);
        }
        let d = (c as u32 - '0' as u32) as u64;
        if acc > (u64::MAX - d) / 10 {
            proof {
                let pre1 = cs@.subrange(start as int, i + 1);
                let rest = cs@.subrange(i + 1, cs@.len() as int);
                assert(body =~= pre1 + rest);
                lemma_digits_value_prefix(pre1, rest);
                assert(acc * 10 + d > u64::MAX) by (nonlinear_arith)
                    requires
                        acc > (u64::MAX - d) / 10,
                        d <= 9,
                ;
                assert(unsigned_text(s@) == Some(digits_value(body)) || unsigned_text(s@).is_none());
            }
            return None;
        }
        acc = acc * 10 + d;
        i = i + 1;
        assert(all_digits(cs@.subrange(start as int, i as int))) by {
            assert forall|k: int| 0 <= k < i - start implies
                '0' <= #[trigger] cs@.subrange(start as int, i as int)[k]
                && cs@.subrange(start as int, i as int)[k] <= '9' by {
                if k < i - 1 - start {
                    assert(cs@.subrange(start as int, i as int)[k] == pre[k]);
                }
            }
        }
    }
    Some(acc)
}

/// True when `s` ends with `suffix`.
pub open spec fn has_suffix(s: Seq<char>, suffix: Seq<char>) -> bool {
    suffix.len() <= s.len() && s.subrange(s.len() - suffix.len(), s.len() as int) == suffix
}

/// Tests whether `s` ends with `suffix`.
pub fn ends_with(s: &[char], suffix: &str) -> (r: bool)
    ensures
        r == has_suffix(s@, suffix@),
{
    let suf = chars_of(suffix);
    if suf.len() > s.len() {
        return false;
    }
    let off = s.len() - suf.len();
    let total = s.len();
    let mut i: usize = 0;
    while i < suf.len()
        invariant
            off as int + suf@.len() == s@.len(),
            total == s@.len(),
            suf@.len() == suf.len(),
            i <= suf@.len(),
            suf@ == suffix@,
            forall|k: int| 0 <= k < i ==> s@[off + k] == suf@[k],
        decreases suf@.len() - i,
    {
        let j: usize = off + i;
        if s[j] != suf[i] {
            assert(s@.subrange(off as int, s@.len() as int)[i as int] != suf@[i as int]);
            return false;
        }
        i = i + 1;
    }
    assert(s@.subrange(off as int, s@.len() as int) =~= suf@);
    true
}

/// Whether Unicode classes `c` as uppercase.
pub uninterp spec fn uppercase(c: char) -> bool;

/// Relies on `char::is_uppercase`: whether `c` has the Unicode `Uppercase`
/// property, which holds of `A` to `Z` and not of `a` to `z`, digits or `_`.
#[verifier::external_body]
fn is_uppercase(c: char) -> (r: bool)
    ensures
        r == uppercase(c),
        'A' <= c <= 'Z' ==> r,
        ('a' <= c <= 'z') || ('0' <= c <= '9') || c == '_' ==> !r,
{
    c.is_uppercase()
}

/// `c` with `A` to `Z` mapped to `a` to `z`.
pub open spec fn ascii_lower(c: char) -> char {
    if 'A' <= c && c <= 'Z' { (((c as u8) + 32) as u8) as char } else { c }
}

/// snake_case of a camelCase key: each uppercase character becomes `_`
/// (except at the start) followed by its ASCII lowercase form.
pub open spec fn snake_of(s: Seq<char>) -> Seq<char>
    decreases s.len(),
{
    if s.len() == 0 {
        Seq::empty()
    } else {
        let c = s.last();
        let pre = snake_of(s.drop_last());
        if uppercase(c) {
            if s.len() > 1 { pre + seq!['_', ascii_lower(c)] } else { pre + seq![ascii_lower(c)] }
        } else {
            pre.push(c)
        }
    }
}

fn to_ascii_lower(c: char) -> (r: char)
    ensures
        r == ascii_lower(c),
{
    if 'A' <= c && c <= 'Z' {
        let v: u8 = (c as u8) + 32;
        v as char
    } else {
        c
    }
}

/// Converts a camelCase key to snake_case (`backupStorageId` becomes
/// `backup_storage_id`).
pub fn camel_to_snake(s: &str) -> (r: String)
    ensures
        r@ == snake_of(s@),
{
    let cs = chars_of(s);
    let mut out = String::new();
    let mut i: usize = 0;
    while i < cs.len()
        invariant
            i <= cs@.len(),
            cs@ == s@,
            out@ == snake_of(cs@.subrange(0, i as int)),
        decreases cs@.len() - i,
    {
        let ghost pre = cs@.subrange(0, i as int);
        let ghost nxt = cs@.subrange(0, i + 1);
        assert(nxt.drop_last() =~= pre);
        let c = cs[i];
        if is_uppercase(c) {
            if i > 0 {
                push_char(&mut out, '_');
            }
            push_char(&mut out, to_ascii_lower(c));
        } else {
            push_char(&mut out, c);
        }
        assert(out@ =~= snake_of(nxt));
        i = i + 1;
    }
    assert(cs@.subrange(0, cs@.len() as int) =~= cs@);
    out
}

} // verus!
