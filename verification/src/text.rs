//! Byte- and character-level helpers shared by the protocol codec and the
//! snapshot decoder: CRLF line framing, ASCII decimal integers, UTF-8
//! decoding, and case-insensitive comparison.

use vstd::prelude::*;
use vstd::utf8::{valid_utf8, decode_utf8, encode_utf8};
use crate::CR;
use crate::LF;

verus! {

// ---------------------------------------------------------------------------
// CRLF lines
// ---------------------------------------------------------------------------

/// A CRLF pair starts at index `j` of `s`.
pub open spec fn crlf_at(s: Seq<u8>, j: int) -> bool {
    &&& 0 <= j
    &&& j + 2 <= s.len()
    &&& s[j] == CR
    &&& s[j + 1] == LF
}

/// `e` is the first CRLF at or after `from`.
pub open spec fn is_line_end(s: Seq<u8>, from: int, e: int) -> bool {
    &&& from <= e
    &&& crlf_at(s, e)
    &&& forall|j: int| from <= j < e ==> !crlf_at(s, j)
}

/// The index of the first CRLF at or after `from`, if any.
pub open spec fn find_line_end(s: Seq<u8>, from: int) -> Option<int> {
    if exists|e: int| is_line_end(s, from, e) {
        Some(choose|e: int| is_line_end(s, from, e))
    } else {
        None
    }
}

pub proof fn lemma_line_end_unique(s: Seq<u8>, from: int, e1: int, e2: int)
    requires
        is_line_end(s, from, e1),
        is_line_end(s, from, e2),
    ensures
        e1 == e2,
{
    if e1 < e2 {
        assert(crlf_at(s, e1));
        assert(!crlf_at(s, e1));
    }
    if e2 < e1 {
        assert(crlf_at(s, e2));
        assert(!crlf_at(s, e2));
    }
}

pub proof fn lemma_line_end_found(s: Seq<u8>, from: int, e: int)
    requires
        is_line_end(s, from, e),
    ensures
        find_line_end(s, from) == Some(e),
{
    let w = choose|w: int| is_line_end(s, from, w);
    lemma_line_end_unique(s, from, e, w);
}

/// Scan for the first CRLF at or after `from`.
pub fn find_crlf(input: &[u8], from: usize) -> (r: Option<usize>)
    requires
        from <= input@.len(),
    ensures
        match r {
            Some(e) => find_line_end(input@, from as int) == Some(e as int),
            None => find_line_end(input@, from as int) is None,
        },
{
    let n = input.len();
    let mut i = from;
    loop
        invariant
            from <= i <= n,
            n == input@.len(),
            forall|j: int| from <= j < i ==> !crlf_at(input@, j),
        decreases n - i,
    {
        if n - i < 2 {
            proof {
                if exists|e: int| is_line_end(input@, from as int, e) {
                    let e = choose|e: int| is_line_end(input@, from as int, e);
                    assert(crlf_at(input@, e));
                    assert(!crlf_at(input@, e));
                }
            }
            return None;
        }
        if input[i] == CR && input[i + 1] == LF {
            proof {
                lemma_line_end_found(input@, from as int, i as int);
            }
            return Some(i);
        }
        i = i + 1;
    }
}

// ---------------------------------------------------------------------------
// ASCII decimal integers over bytes
// ---------------------------------------------------------------------------

/// The byte is an ASCII digit `0`..`9`.
pub open spec fn is_digit(b: u8) -> bool {
    48 <= b <= 57
}

/// Left-to-right decimal evaluation of `s[i..]` starting from `acc`,
/// refusing non-digits and values beyond `usize::MAX`.
pub open spec fn dec_val_from(s: Seq<u8>, i: int, acc: nat) -> Option<nat>
    decreases s.len() - i,
{
    if i < 0 || i >= s.len() {
        Some(acc)
    } else if !is_digit(s[i]) {
        None
    } else if acc * 10 + (s[i] - 48) > usize::MAX {
        None
    } else {
        dec_val_from(s, i + 1, (acc * 10 + (s[i] - 48)) as nat)
    }
}

/// The value of a non-empty all-digit byte string, if it fits a `usize`.
pub open spec fn dec_value(s: Seq<u8>) -> Option<nat> {
    if s.len() == 0 {
        None
    } else {
        dec_val_from(s, 0, 0)
    }
}

/// Parse `input[from..to]` as an ASCII decimal.
pub fn parse_dec(input: &[u8], from: usize, to: usize) -> (r: Option<usize>)
    requires
        from <= to <= input@.len(),
    ensures
        match r {
            Some(n) => dec_value(input@.subrange(from as int, to as int)) == Some(n as nat),
            None => dec_value(input@.subrange(from as int, to as int)) is None,
        },
{
    let ghost s = input@.subrange(from as int, to as int);
    if from == to {
        return None;
    }
    let mut i = from;
    let mut acc: usize = 0;
    loop
        invariant
            from <= i <= to <= input@.len(),
            s == input@.subrange(from as int, to as int),
            s.len() > 0,
            dec_val_from(s, 0, 0) == dec_val_from(s, i - from, acc as nat),
        decreases to - i,
    {
        if i == to {
            return Some(acc);
        }
        let b = input[i];
        assert(s[i - from] == b);
        if b < 48 || b > 57 {
            return None;
        }
        let d = (b - 48) as usize;
        if acc > usize::MAX / 10 || (acc == usize::MAX / 10 && d > usize::MAX % 10) {
            proof {
                assert(usize::MAX == 10 * (usize::MAX / 10) + (usize::MAX % 10));
                assert((acc as nat) * 10 + d > usize::MAX);
            }
            return None;
        }
        proof {
            assert(usize::MAX == 10 * (usize::MAX / 10) + (usize::MAX % 10));
            assert((acc as nat) * 10 + d <= usize::MAX);
        }
        acc = acc * 10 + d;
        i = i + 1;
    }
}

/// The ASCII decimal digits of `n`, most significant first.
pub open spec fn dec_digits(n: nat) -> Seq<u8>
    decreases n,
{
    if n < 10 {
        seq![(48 + n) as u8]
    } else {
        dec_digits(n / 10).push((48 + n % 10) as u8)
    }
}

/// The same digits as characters.
pub open spec fn dec_chars(n: nat) -> Seq<char> {
    dec_digits(n).map(|i: int, b: u8| b as char)
}

pub proof fn lemma_dec_digits_are_digits(n: nat)
    ensures
        dec_digits(n).len() >= 1,
        forall|i: int| 0 <= i < dec_digits(n).len() ==> is_digit(#[trigger] dec_digits(n)[i]),
    decreases n,
{
    if n >= 10 {
        lemma_dec_digits_are_digits(n / 10);
    }
}

proof fn lemma_dec_val_snoc(s: Seq<u8>, b: u8, i: int, acc: nat, v: nat)
    requires
        0 <= i <= s.len(),
        is_digit(b),
        dec_val_from(s, i, acc) == Some(v),
        v * 10 + (b - 48) <= usize::MAX,
    ensures
        dec_val_from(s.push(b), i, acc) == Some((v * 10 + (b - 48)) as nat),
    decreases s.len() - i,
{
    let t = s.push(b);
    if i >= s.len() {
        assert(acc == v);
        assert(t[i] == b);
        assert(dec_val_from(t, i + 1, (v * 10 + (b - 48)) as nat) == Some(
            (v * 10 + (b - 48)) as nat,
        ));
    } else {
        assert(t[i] == s[i]);
        lemma_dec_val_snoc(s, b, i + 1, (acc * 10 + (s[i] - 48)) as nat, v);
    }
}

/// Rendering a value and reading it back gives the value again.
pub proof fn lemma_dec_digits_value(n: nat)
    requires
        n <= usize::MAX,
    ensures
        dec_value(dec_digits(n)) == Some(n),
    decreases n,
{
    if n < 10 {
        let s = dec_digits(n);
        assert(s =~= seq![(48 + n) as u8]);
        assert(dec_val_from(s, 0, 0) == dec_val_from(s, 1, n));
    } else {
        lemma_dec_digits_value(n / 10);
        lemma_dec_val_snoc(dec_digits(n / 10), (48 + n % 10) as u8, 0, 0, n / 10);
        assert((n / 10) * 10 + ((48 + n % 10) as u8 - 48) == n);
        assert(dec_digits(n).len() > 0) by {
            lemma_dec_digits_are_digits(n);
        }
    }
}

/// Append the decimal rendering of `n` to `out`.
pub fn push_dec(out: &mut Vec<u8>, n: u64)
    ensures
        final(out)@ == old(out)@ + dec_digits(n as nat),
    decreases n,
{
    if n >= 10 {
        push_dec(out, n / 10);
    }
    out.push(48 + (n % 10) as u8);
    assert(out@ =~= old(out)@ + dec_digits(n as nat));
}

// ---------------------------------------------------------------------------
// ASCII decimal integers over characters (for command arguments)
// ---------------------------------------------------------------------------

/// The character is an ASCII digit `0`..`9`.
pub open spec fn is_digit_char(c: char) -> bool {
    48 <= c as int <= 57
}

/// Left-to-right decimal evaluation of `s[i..]`, bounded by `u64::MAX`.
pub open spec fn dec_val_chars_from(s: Seq<char>, i: int, acc: nat) -> Option<nat>
    decreases s.len() - i,
{
    if i < 0 || i >= s.len() {
        Some(acc)
    } else if !is_digit_char(s[i]) {
        None
    } else if acc * 10 + (s[i] as int - 48) > u64::MAX {
        None
    } else {
        dec_val_chars_from(s, i + 1, (acc * 10 + (s[i] as int - 48)) as nat)
    }
}

/// The value of a non-empty all-digit character string, if it fits a `u64`.
pub open spec fn dec_value_chars(s: Seq<char>) -> Option<nat> {
    if s.len() == 0 {
        None
    } else {
        dec_val_chars_from(s, 0, 0)
    }
}

proof fn lemma_dec_val_chars_snoc(s: Seq<char>, c: char, i: int, acc: nat, v: nat)
    requires
        0 <= i <= s.len(),
        is_digit_char(c),
        dec_val_chars_from(s, i, acc) == Some(v),
        v * 10 + (c as int - 48) <= u64::MAX,
    ensures
        dec_val_chars_from(s.push(c), i, acc) == Some((v * 10 + (c as int - 48)) as nat),
    decreases s.len() - i,
{
    let t = s.push(c);
    if i >= s.len() {
        assert(acc == v);
        assert(t[i] == c);
        assert(dec_val_chars_from(t, i + 1, (v * 10 + (c as int - 48)) as nat) == Some(
            (v * 10 + (c as int - 48)) as nat,
        ));
    } else {
        assert(t[i] == s[i]);
        lemma_dec_val_chars_snoc(s, c, i + 1, (acc * 10 + (s[i] as int - 48)) as nat, v);
    }
}

/// Rendering a value as characters and reading it back gives the value.
pub proof fn lemma_dec_chars_value(n: nat)
    requires
        n <= u64::MAX,
    ensures
        dec_value_chars(dec_chars(n)) == Some(n),
    decreases n,
{
    lemma_dec_digits_are_digits(n);
    if n < 10 {
        let s = dec_chars(n);
        assert(s =~= seq![(48 + n) as u8 as char]);
        assert(is_digit_char(s[0]));
        assert(dec_val_chars_from(s, 0, 0) == dec_val_chars_from(s, 1, n));
    } else {
        lemma_dec_chars_value(n / 10);
        lemma_dec_digits_are_digits(n / 10);
        let c = (48 + n % 10) as u8 as char;
        assert(dec_chars(n) =~= dec_chars(n / 10).push(c));
        lemma_dec_val_chars_snoc(dec_chars(n / 10), c, 0, 0, n / 10);
        assert((n / 10) * 10 + (c as int - 48) == n);
        assert(dec_chars(n).len() > 0);
    }
}

/// Parse a string as an ASCII decimal `u64`.
pub fn parse_u64_str(s: &str) -> (r: Option<u64>)
    ensures
        match r {
            Some(n) => dec_value_chars(s@) == Some(n as nat),
            None => dec_value_chars(s@) is None,
        },
{
    let n = s.unicode_len();
    if n == 0 {
        return None;
    }
    let mut i: usize = 0;
    let mut acc: u64 = 0;
    loop
        invariant
            0 <= i <= n,
            n == s@.len(),
            n > 0,
            dec_val_chars_from(s@, 0, 0) == dec_val_chars_from(s@, i as int, acc as nat),
        decreases n - i,
    {
        if i == n {
            return Some(acc);
        }
        let c = s.get_char(i);
        let cv = c as u32;
        if cv < 48 || cv > 57 {
            return None;
        }
        let d = (cv - 48) as u64;
        if acc > u64::MAX / 10 || (acc == u64::MAX / 10 && d > u64::MAX % 10) {
            proof {
                assert(u64::MAX == 10 * (u64::MAX / 10) + (u64::MAX % 10));
                assert((acc as nat) * 10 + d > u64::MAX);
            }
            return None;
        }
        proof {
            assert(u64::MAX == 10 * (u64::MAX / 10) + (u64::MAX % 10));
            assert((acc as nat) * 10 + d <= u64::MAX);
        }
        acc = acc * 10 + d;
        i = i + 1;
    }
}

// ---------------------------------------------------------------------------
// UTF-8
// ---------------------------------------------------------------------------

/// Relies on `core::str::from_utf8`: it succeeds exactly on valid UTF-8
/// input and yields the string of the decoded characters.
#[verifier::external_body]
fn utf8_to_str(bytes: &[u8]) -> (r: Option<&str>)
    ensures
        r is Some <==> valid_utf8(bytes@),
        r matches Some(s) ==> s@ == decode_utf8(bytes@),
{
    core::str::from_utf8(bytes).ok()
}

/// Decode a byte slice into an owned string, if it is valid UTF-8.
pub fn bytes_to_string(bytes: &[u8]) -> (r: Option<String>)
    ensures
        r is Some <==> valid_utf8(bytes@),
        r matches Some(s) ==> s@ == decode_utf8(bytes@),
{
    match utf8_to_str(bytes) {
        Some(s) => Some(s.to_owned()),
        None => None,
    }
}

/// A sequence of ASCII bytes is valid UTF-8 and decodes byte for byte.
pub proof fn lemma_ascii_decode(bytes: Seq<u8>)
    requires
        forall|i: int| 0 <= i < bytes.len() ==> bytes[i] < 128,
    ensures
        valid_utf8(bytes),
        decode_utf8(bytes) =~= bytes.map(|i: int, b: u8| b as char),
    decreases bytes.len(),
{
    if bytes.len() > 0 {
        let b0 = bytes[0];
        assert(b0 & 0x7f == b0) by (bit_vector)
            requires
                b0 < 128,
        ;
        assert(vstd::utf8::valid_first_scalar(bytes));
        assert(vstd::utf8::length_of_first_scalar(bytes) == 1);
        let rest = vstd::utf8::pop_first_scalar(bytes);
        assert(rest =~= bytes.subrange(1, bytes.len() as int));
        lemma_ascii_decode(rest);
        assert(decode_utf8(bytes) == seq![b0 as char] + decode_utf8(rest));
    }
}

/// Render a `u64` as its decimal string.
pub fn u64_to_string(n: u64) -> (r: String)
    ensures
        r@ == dec_chars(n as nat),
{
    let mut buf: Vec<u8> = Vec::new();
    push_dec(&mut buf, n);
    proof {
        lemma_dec_digits_are_digits(n as nat);
        lemma_ascii_decode(buf@);
    }
    let r = bytes_to_string(buf.as_slice());
    match r {
        Some(s) => {
            assert(s@ =~= dec_chars(n as nat));
            s
        },
        None => {
            // unreachable: decimal digits are ASCII
            assert(false);
            String::new()
        },
    }
}

// ---------------------------------------------------------------------------
// String comparison
// ---------------------------------------------------------------------------

/// Exact equality of two string slices, decided character by character.
pub fn str_eq(a: &str, b: &str) -> (r: bool)
    ensures
        r == (a@ == b@),
{
    let na = a.unicode_len();
    let nb = b.unicode_len();
    if na != nb {
        return false;
    }
    let mut i: usize = 0;
    loop
        invariant
            0 <= i <= na,
            na == a@.len(),
            na == b@.len(),
            forall|j: int| 0 <= j < i ==> a@[j] == b@[j],
        decreases na - i,
    {
        if i == na {
            assert(a@ =~= b@);
            return true;
        }
        if a.get_char(i) != b.get_char(i) {
            return false;
        }
        i = i + 1;
    }
}

/// `c` folds to the upper-case letter `u` under ASCII upper-casing: either
/// they are equal, or `u` is a capital letter and `c` its lower-case form.
pub open spec fn char_ic(c: char, u: char) -> bool {
    ||| c == u
    ||| (65 <= u as int <= 90 && c as int == u as int + 32)
}

/// `s` equals the upper-case pattern `u` up to ASCII case.
pub open spec fn matches_ic(s: Seq<char>, u: Seq<char>) -> bool {
    s.len() == u.len() && forall|i: int| 0 <= i < s.len() ==> char_ic(s[i], #[trigger] u[i])
}

fn char_ic_exec(c: char, u: char) -> (r: bool)
    ensures
        r == char_ic(c, u),
{
    let cv = c as u32;
    let uv = u as u32;
    cv == uv || (65 <= uv && uv <= 90 && cv == uv + 32)
}

/// Case-insensitive match of `s` against the upper-case pattern `upper`.
pub fn eq_ignore_case(s: &str, upper: &str) -> (r: bool)
    ensures
        r == matches_ic(s@, upper@),
{
    let ns = s.unicode_len();
    let nu = upper.unicode_len();
    if ns != nu {
        return false;
    }
    let mut i: usize = 0;
    loop
        invariant
            0 <= i <= ns,
            ns == s@.len(),
            ns == upper@.len(),
            forall|j: int| 0 <= j < i ==> char_ic(s@[j], #[trigger] upper@[j]),
        decreases ns - i,
    {
        if i == ns {
            return true;
        }
        if !char_ic_exec(s.get_char(i), upper.get_char(i)) {
            return false;
        }
        i = i + 1;
    }
}

/// Case-insensitive prefix match of `s` against the upper-case pattern.
pub fn starts_with_ic(s: &str, upper: &str) -> (r: bool)
    ensures
        r == (s@.len() >= upper@.len() && matches_ic(s@.subrange(0, upper@.len() as int), upper@)),
{
    let ns = s.unicode_len();
    let nu = upper.unicode_len();
    if ns < nu {
        return false;
    }
    let ghost pre = s@.subrange(0, upper@.len() as int);
    let mut i: usize = 0;
    loop
        invariant
            0 <= i <= nu <= ns,
            ns == s@.len(),
            nu == upper@.len(),
            pre == s@.subrange(0, upper@.len() as int),
            forall|j: int| 0 <= j < i ==> char_ic(pre[j], #[trigger] upper@[j]),
        decreases nu - i,
    {
        if i == nu {
            return true;
        }
        if !char_ic_exec(s.get_char(i), upper.get_char(i)) {
            assert(pre[i as int] == s@[i as int]);
            return false;
        }
        assert(pre[i as int] == s@[i as int]);
        i = i + 1;
    }
}

// ---------------------------------------------------------------------------
// Byte buffers
// ---------------------------------------------------------------------------

/// Append a byte slice to a buffer.
pub fn push_bytes(out: &mut Vec<u8>, bytes: &[u8])
    ensures
        final(out)@ == old(out)@ + bytes@,
{
    let n = bytes.len();
    let mut i: usize = 0;
    loop
        invariant
            0 <= i <= n,
            n == bytes@.len(),
            out@ == old(out)@ + bytes@.subrange(0, i as int),
        decreases n - i,
    {
        if i == n {
            assert(bytes@.subrange(0, i as int) =~= bytes@);
            return ;
        }
        out.push(bytes[i]);
        assert(out@ =~= old(out)@ + bytes@.subrange(0, i + 1 as int));
        i = i + 1;
    }
}

/// Append the UTF-8 bytes of a string to a buffer.
pub fn push_str_bytes(out: &mut Vec<u8>, s: &str)
    ensures
        final(out)@ == old(out)@ + encode_utf8(s@),
{
    push_bytes(out, s.as_bytes());
}

} // verus!
