//! Shared text utilities: ASCII case-insensitive comparison, string
//! equality, conversions between bytes and ASCII strings, and decimal
//! rendering/parsing used by the wire codec.

use vstd::prelude::*;

verus! {

/// Code point of a character after ASCII-lowercasing: `'A'..='Z'` map to
/// `'a'..='z'`, everything else is unchanged.
pub open spec fn lower_code(c: char) -> int {
    if 'A' <= c && c <= 'Z' {
        c as int + 32
    } else {
        c as int
    }
}

/// ASCII case-insensitive equality of two character sequences.
pub open spec fn ieq(a: Seq<char>, b: Seq<char>) -> bool {
    a.len() == b.len() && forall|i: int| 0 <= i < a.len() ==> lower_code(a[i]) == lower_code(b[i])
}

/// Relies on `str::eq_ignore_ascii_case`: true exactly when the two strings
/// are equal after ASCII-lowercasing both.
#[verifier::external_body]
pub fn str_ieq(a: &str, b: &str) -> (r: bool)
    ensures
        r == ieq(a@, b@),
{
    a.eq_ignore_ascii_case(b)
}

/// Exact equality of two string slices, by characters.
pub fn str_eq(a: &str, b: &str) -> (r: bool)
    ensures
        r == (a@ == b@),
{
    let alen = a.unicode_len();
    let blen = b.unicode_len();
    if alen != blen {
        return false;
    }
    let mut i: usize = 0;
    while i < alen
        invariant
            alen == a@.len(),
            alen == b@.len(),
            i <= alen,
            forall|j: int| 0 <= j < i ==> a@[j] == b@[j],
        decreases alen - i,
    {
        if a.get_char(i) != b.get_char(i) {
            return false;
        }
        i += 1;
    }
    proof {
        assert(a@ =~= b@);
    }
    true
}

/// The characters with the same code points as the given bytes.
pub open spec fn chars_of(b: Seq<u8>) -> Seq<char> {
    b.map_values(|x: u8| x as char)
}

/// Relies on `String::push`: appends exactly the given character, so the
/// built string holds one character per input byte, with the same code point.
#[verifier::external_body]
pub fn bytes_to_string(b: &[u8]) -> (r: String)
    ensures
        r@ == chars_of(b@),
{
    let mut s = String::new();
    for &x in b.iter() {
        s.push(x as char);
    }
    s
}

/// Appends all bytes of `src` to `out`.
pub fn append_bytes(out: &mut Vec<u8>, src: &[u8])
    ensures
        final(out)@ == old(out)@ + src@,
{
    let n = src.len();
    let mut i: usize = 0;
    proof {
        assert(out@ =~= old(out)@ + src@.take(0));
    }
    while i < n
        invariant
            n == src@.len(),
            i <= n,
            out@ == old(out)@ + src@.take(i as int),
        decreases n - i,
    {
        out.push(src[i]);
        proof {
            assert(src@.take(i + 1) =~= src@.take(i as int).push(src@[i as int]));
            assert(out@ =~= old(out)@ + src@.take(i + 1));
        }
        i += 1;
    }
    proof {
        assert(src@.take(n as int) =~= src@);
    }
}

/// Decimal rendering of a number, most significant digit first.
pub open spec fn dec_bytes(n: nat) -> Seq<u8>
    decreases n,
{
    if n < 10 {
        seq![(48 + n) as u8]
    } else {
        dec_bytes(n / 10).push((48 + n % 10) as u8)
    }
}

/// Appends the decimal rendering of `n` to `out`.
pub fn push_dec(out: &mut Vec<u8>, n: u64)
    ensures
        final(out)@ == old(out)@ + dec_bytes(n as nat),
{
    let mut tmp: Vec<u8> = Vec::new();
    let mut x = n;
    while x >= 10
        invariant
            dec_bytes(n as nat) == dec_bytes(x as nat) + tmp@.reverse(),
        decreases x,
    {
        let ghost oldx = x as nat;
        let ghost oldtmp = tmp@;
        let d: u8 = 48 + (x % 10) as u8;
        tmp.push(d);
        x = x / 10;
        proof {
            assert(dec_bytes(oldx) == dec_bytes(oldx / 10).push((48 + oldx % 10) as u8));
            assert(tmp@.reverse() =~= seq![d] + oldtmp.reverse());
            assert(dec_bytes(x as nat) + tmp@.reverse() =~= dec_bytes(oldx) + oldtmp.reverse());
        }
    }
    let ghost oldtmp = tmp@;
    let d: u8 = 48 + x as u8;
    tmp.push(d);
    proof {
        assert(dec_bytes(x as nat) == seq![d]);
        assert(tmp@.reverse() =~= seq![d] + oldtmp.reverse());
        assert(dec_bytes(n as nat) =~= tmp@.reverse());
    }
    let ghost base = out@;
    let mut i = tmp.len();
    proof {
        assert(out@ =~= base + tmp@.subrange(i as int, tmp@.len() as int).reverse());
    }
    while i > 0
        invariant
            i <= tmp@.len(),
            out@ == base + tmp@.subrange(i as int, tmp@.len() as int).reverse(),
        decreases i,
    {
        i -= 1;
        out.push(tmp[i]);
        proof {
            assert(tmp@.subrange(i as int, tmp@.len() as int).reverse() =~= tmp@.subrange(
                i + 1,
                tmp@.len() as int,
            ).reverse().push(tmp@[i as int]));
            assert(out@ =~= base + tmp@.subrange(i as int, tmp@.len() as int).reverse());
        }
    }
    proof {
        assert(tmp@.subrange(0, tmp@.len() as int) =~= tmp@);
        assert(out@ =~= base + dec_bytes(n as nat));
    }
}

/// Whether every character is a decimal digit and there is at least one.
pub open spec fn is_digit_seq(s: Seq<char>) -> bool {
    s.len() > 0 && forall|i: int| 0 <= i < s.len() ==> '0' <= #[trigger] s[i] <= '9'
}

/// Numeric value of a digit string, most significant digit first.
pub open spec fn dec_value(s: Seq<char>) -> int
    decreases s.len(),
{
    if s.len() == 0 {
        0
    } else {
        dec_value(s.take(s.len() - 1)) * 10 + (s[s.len() - 1] as int - 48)
    }
}

/// Value of a decimal string as `str::parse::<usize>` reads it: an optional
/// leading `+`, then one or more digits, with a result that fits in `usize`.
pub open spec fn parse_usize_spec(s: Seq<char>) -> Option<int> {
    let digits = if s.len() > 0 && s[0] == '+' {
        s.drop_first()
    } else {
        s
    };
    if is_digit_seq(digits) && 0 <= dec_value(digits) <= usize::MAX {
        Some(dec_value(digits))
    } else {
        None
    }
}

/// Parses a decimal string to a `usize`, rejecting malformed input and
/// overflow.
pub fn parse_usize(s: &str) -> (r: Option<usize>)
    ensures
        match r {
            Some(v) => parse_usize_spec(s@) == Some(v as int),
            None => parse_usize_spec(s@) is None,
        },
{
    let n = s.unicode_len();
    let mut i: usize = 0;
    if n > 0 && s.get_char(0) == '+' {
        i = 1;
    }
    let ghost digits = if s@.len() > 0 && s@[0] == '+' {
        s@.drop_first()
    } else {
        s@
    };
    if i >= n {
        return None;
    }
    let mut acc: usize = 0;
    let start = i;
    while i < n
        invariant
            n == s@.len(),
            start <= i <= n,
            start < n,
            start == (if s@.len() > 0 && s@[0] == '+' {
                1int
            } else {
                0int
            }),
            digits == s@.subrange(start as int, n as int),
            forall|j: int| start <= j < i ==> '0' <= #[trigger] s@[j] <= '9',
            acc == dec_value(s@.subrange(start as int, i as int)),
        decreases n - i,
    {
        let c = s.get_char(i);
        if c < '0' || c > '9' {
            proof {
                assert(digits[i - start as int] == s@[i as int]);
                assert(!is_digit_seq(digits));
            }
            return None;
        }
        let d = (c as u32 - 48) as usize;
        proof {
            assert(s@.subrange(start as int, i + 1).take(i - start as int) =~= s@.subrange(
                start as int,
                i as int,
            ));
            assert(dec_value(s@.subrange(start as int, i + 1)) == acc * 10 + (s@[i as int] as int
                - 48));
        }
        let acc10 = match acc.checked_mul(10) {
            Some(v) => v,
            None => {
                proof {
                    if is_digit_seq(digits) {
                        assert(digits.take(i + 1 - start as int) =~= s@.subrange(
                            start as int,
                            i + 1,
                        ));
                        lemma_dec_value_prefix_le(digits, (i + 1 - start) as int);
                        assert(dec_value(digits) >= dec_value(s@.subrange(start as int, i + 1)));
                        assert(s@[i as int] as int >= 48);
                        assert(dec_value(s@.subrange(start as int, i + 1)) > usize::MAX);
                    }
                    assert(digits == (if s@.len() > 0 && s@[0] == '+' {
                        s@.drop_first()
                    } else {
                        s@
                    }));
                    assert(!(is_digit_seq(digits) && 0 <= dec_value(digits) <= usize::MAX));
                    assert(parse_usize_spec(s@) is None);
                }
                return None;
            },
        };
        let acc2 = match acc10.checked_add(d) {
            Some(v) => v,
            None => {
                proof {
                    if is_digit_seq(digits) {
                        assert(digits.take(i + 1 - start as int) =~= s@.subrange(
                            start as int,
                            i + 1,
                        ));
                        lemma_dec_value_prefix_le(digits, (i + 1 - start) as int);
                        assert(dec_value(digits) >= dec_value(s@.subrange(start as int, i + 1)));
                        assert(s@[i as int] as int >= 48);
                        assert(d == s@[i as int] as int - 48);
                        assert(dec_value(s@.subrange(start as int, i + 1)) > usize::MAX);
                    }
                    assert(digits == (if s@.len() > 0 && s@[0] == '+' {
                        s@.drop_first()
                    } else {
                        s@
                    }));
                    assert(!(is_digit_seq(digits) && 0 <= dec_value(digits) <= usize::MAX));
                    assert(parse_usize_spec(s@) is None);
                }
                return None;
            },
        };
        acc = acc2;
        i += 1;
    }
    proof {
        assert(digits =~= s@.subrange(start as int, n as int));
        assert(is_digit_seq(digits));
    }
    Some(acc)
}

/// A digit string's value is at least the value of any of its prefixes.
proof fn lemma_dec_value_prefix_le(s: Seq<char>, k: int)
    requires
        0 <= k <= s.len(),
        forall|i: int| 0 <= i < s.len() ==> '0' <= #[trigger] s[i] <= '9',
    ensures
        dec_value(s.take(k)) <= dec_value(s),
    decreases s.len() - k,
{
    if k < s.len() {
        lemma_dec_value_prefix_le(s, k + 1);
        lemma_dec_value_nonneg(s.take(k));
        assert(s.take(k + 1).take(k) =~= s.take(k));
        assert(dec_value(s.take(k + 1)) == dec_value(s.take(k)) * 10 + (s[k] as int - 48));
        assert(dec_value(s.take(k)) * 10 >= dec_value(s.take(k))) by (nonlinear_arith)
            requires
                dec_value(s.take(k)) >= 0,
        ;
    } else {
        assert(s.take(k) =~= s);
    }
}

/// A digit string's value is nonnegative.
proof fn lemma_dec_value_nonneg(s: Seq<char>)
    requires
        forall|i: int| 0 <= i < s.len() ==> '0' <= #[trigger] s[i] <= '9',
    ensures
        dec_value(s) >= 0,
    decreases s.len(),
{
    if s.len() > 0 {
        lemma_dec_value_nonneg(s.take(s.len() - 1));
        assert(dec_value(s.take(s.len() - 1)) * 10 >= 0) by (nonlinear_arith)
            requires
                dec_value(s.take(s.len() - 1)) >= 0,
        ;
    }
}

} // verus!
