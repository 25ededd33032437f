//! Plain-text building blocks for the record format and storage keys:
//! decimal numerals on byte strings, with exact parsing contracts.

use vstd::prelude::*;

verus! {

/// ASCII decimal digit.
pub open spec fn is_digit(b: u8) -> bool {
    ('0' as u8) <= b <= ('9' as u8)
}

/// Numeric value of a digit byte.
pub open spec fn digit_of(b: u8) -> nat
    recommends
        is_digit(b),
{
    (b - ('0' as u8)) as nat
}

/// Digit byte for a value below ten.
pub open spec fn digit_byte(d: nat) -> u8
    recommends
        d < 10,
{
    (('0' as u8) + d) as u8
}

/// Shortest decimal numeral of `n`, most significant digit first.
pub open spec fn dec_digits(n: nat) -> Seq<u8>
    decreases n,
{
    if n < 10 {
        seq![digit_byte(n)]
    } else {
        dec_digits(n / 10) + seq![digit_byte(n % 10)]
    }
}

/// Value of a digit string, most significant digit first.
pub open spec fn dec_val(s: Seq<u8>) -> nat
    decreases s.len(),
{
    if s.len() == 0 {
        0
    } else {
        dec_val(s.drop_last()) * 10 + digit_of(s.last())
    }
}

pub proof fn lemma_dec_digits(n: nat)
    ensures
        dec_digits(n).len() >= 1,
        forall|i: int| 0 <= i < dec_digits(n).len() ==> is_digit(#[trigger] dec_digits(n)[i]),
        dec_val(dec_digits(n)) == n,
    decreases n,
{
    if n < 10 {
        let s = dec_digits(n);
        assert(s =~= seq![digit_byte(n)]);
        assert(s.drop_last() =~= Seq::<u8>::empty());
        assert(s.last() == digit_byte(n));
        assert(digit_of(digit_byte(n)) == n);
        assert(dec_val(s) == dec_val(Seq::<u8>::empty()) * 10 + digit_of(digit_byte(n)));
    } else {
        lemma_dec_digits(n / 10);
        let s = dec_digits(n);
        assert(s.drop_last() =~= dec_digits(n / 10));
        assert(s.last() == digit_byte(n % 10));
        assert(digit_of(digit_byte(n % 10)) == n % 10);
        assert(dec_val(s) == dec_val(dec_digits(n / 10)) * 10 + digit_of(digit_byte(n % 10)));
        assert(n / 10 * 10 + n % 10 == n);
    }
}

/// Length of the run of decimal digits starting at `pos`.
pub open spec fn digit_span(s: Seq<u8>, pos: int) -> nat
    recommends
        0 <= pos <= s.len(),
    decreases s.len() - pos,
{
    if pos < s.len() && is_digit(s[pos]) {
        1 + digit_span(s, pos + 1)
    } else {
        0
    }
}

pub proof fn lemma_digit_span_le(s: Seq<u8>, pos: int)
    requires
        0 <= pos <= s.len(),
    ensures
        digit_span(s, pos) <= s.len() - pos,
    decreases s.len() - pos,
{
    if pos < s.len() && is_digit(s[pos]) {
        lemma_digit_span_le(s, pos + 1);
    }
}

pub proof fn lemma_digit_span_exact(s: Seq<u8>, pos: int, ds: Seq<u8>)
    requires
        0 <= pos,
        pos + ds.len() <= s.len(),
        s.subrange(pos, pos + ds.len()) == ds,
        forall|i: int| 0 <= i < ds.len() ==> is_digit(#[trigger] ds[i]),
        pos + ds.len() == s.len() || !is_digit(s[pos + ds.len()]),
    ensures
        digit_span(s, pos) == ds.len(),
    decreases ds.len(),
{
    if ds.len() == 0 {
    } else {
        assert(s[pos] == ds[0]);
        let tail = ds.subrange(1, ds.len() as int);
        assert(s.subrange(pos + 1, pos + 1 + tail.len()) =~= tail);
        lemma_digit_span_exact(s, pos + 1, tail);
    }
}

/// The value of a digit string dominates the value of each of its prefixes.
pub proof fn lemma_dec_val_take(s: Seq<u8>, j: int)
    requires
        0 <= j <= s.len(),
    ensures
        dec_val(s.take(j)) <= dec_val(s),
    decreases s.len() - j,
{
    if j == s.len() {
        assert(s.take(j) =~= s);
    } else {
        assert(s.take(j + 1).drop_last() =~= s.take(j));
        assert(dec_val(s.take(j + 1)) == dec_val(s.take(j)) * 10 + digit_of(s.take(j + 1).last()));
        lemma_dec_val_take(s, j + 1);
    }
}

/// Reads the maximal digit run at `pos`; fails only when the run is empty.
pub open spec fn parse_dec_at(s: Seq<u8>, pos: int) -> Option<(nat, int)>
    recommends
        0 <= pos <= s.len(),
{
    let k = digit_span(s, pos);
    if k >= 1 {
        Some((dec_val(s.subrange(pos, pos + k)), pos + k))
    } else {
        None
    }
}

pub proof fn lemma_parse_dec_digits(s: Seq<u8>, pos: int, n: nat)
    requires
        0 <= pos,
        pos + dec_digits(n).len() <= s.len(),
        s.subrange(pos, pos + dec_digits(n).len()) == dec_digits(n),
        pos + dec_digits(n).len() == s.len() || !is_digit(s[pos + dec_digits(n).len()]),
    ensures
        parse_dec_at(s, pos) == Some((n, pos + dec_digits(n).len())),
{
    lemma_dec_digits(n);
    lemma_digit_span_exact(s, pos, dec_digits(n));
}

/// Appends the decimal numeral of `n`.
pub fn print_u128(n: u128, out: &mut Vec<u8>)
    ensures
        final(out)@ == old(out)@ + dec_digits(n as nat),
    decreases n,
{
    if n >= 10 {
        print_u128(n / 10, out);
    }
    out.push(('0' as u8) + (n % 10) as u8);
    proof {
        if n < 10 {
            assert(out@ =~= old(out)@ + dec_digits(n as nat));
        } else {
            assert(out@ =~= old(out)@ + dec_digits(n as nat));
        }
    }
}

/// Reads a decimal numeral as a `u128`; fails when no digit is present or
/// the run's value does not fit.
pub fn parse_u128_at(s: &Vec<u8>, pos: usize) -> (r: Option<(u128, usize)>)
    requires
        pos <= s.len(),
    ensures
        parse_dec_at(s@, pos as int) is None ==> r is None,
        parse_dec_at(s@, pos as int) matches Some((v, end)) ==> {
            if v <= u128::MAX {
                r == Some((v as u128, end as usize))
            } else {
                r is None
            }
        },
{
    let ghost k = digit_span(s@, pos as int);
    proof {
        lemma_digit_span_le(s@, pos as int);
    }
    let len = s.len();
    let mut i = pos;
    let mut acc: u128 = 0;
    while i < len && ('0' as u8) <= s[i] && s[i] <= ('9' as u8)
        invariant
            pos <= i <= len,
            len == s.len(),
            k == digit_span(s@, pos as int),
            digit_span(s@, pos as int) == (i - pos) + digit_span(s@, i as int),
            acc as nat == dec_val(s@.subrange(pos as int, i as int)),
        decreases len - i,
    {
        let d = s[i] - ('0' as u8);
        proof {
            lemma_digit_span_le(s@, i as int);
            assert(is_digit(s@[i as int]));
            assert(digit_span(s@, i as int) == 1 + digit_span(s@, i + 1));
            assert(i - pos < k);
            assert(s@.subrange(pos as int, i + 1).drop_last() =~= s@.subrange(
                pos as int,
                i as int,
            ));
            assert(s@.subrange(pos as int, i + 1).last() == s@[i as int]);
            assert(dec_val(s@.subrange(pos as int, i + 1)) == acc * 10 + digit_of(s@[i as int]));
        }
        if acc > (u128::MAX - d as u128) / 10 {
            proof {
                // The full run's value extends this prefix, so it cannot fit either.
                assert(acc * 10 + d > u128::MAX) by (nonlinear_arith)
                    requires
                        acc > (u128::MAX - d as u128) / 10,
                        d <= 9,
                ;
                let run = s@.subrange(pos as int, pos + k);
                assert(i + 1 - pos <= k);
                assert(run.take(i + 1 - pos) =~= s@.subrange(pos as int, i + 1));
                lemma_dec_val_take(run, i + 1 - pos);
                assert(dec_val(run) >= dec_val(s@.subrange(pos as int, i + 1)));
            }
            return None;
        }
        acc = acc * 10 + d as u128;
        i = i + 1;
    }
    proof {
        assert(digit_span(s@, i as int) == 0);
        assert(k == i - pos);
    }
    if i == pos {
        None
    } else {
        Some((acc, i))
    }
}

/// Decimal numeral of an `i64`, with a leading minus sign when negative.
pub open spec fn enc_i64(n: int) -> Seq<u8>
    recommends
        i64::MIN <= n <= i64::MAX,
{
    if n < 0 {
        seq![('-' as u8)] + dec_digits((-n) as nat)
    } else {
        dec_digits(n as nat)
    }
}

/// Appends the decimal numeral of `n`, sign included.
pub fn print_i64(n: i64, out: &mut Vec<u8>)
    ensures
        final(out)@ == old(out)@ + enc_i64(n as int),
{
    if n < 0 {
        out.push('-' as u8);
        let m = (-(n as i128)) as u128;
        print_u128(m, out);
        proof {
            assert(out@ =~= old(out)@ + enc_i64(n as int));
        }
    } else {
        print_u128(n as u128, out);
    }
}

/// Reads a signed decimal numeral in the range of `i64`.
pub open spec fn parse_i64_at(s: Seq<u8>, pos: int) -> Option<(int, int)>
    recommends
        0 <= pos <= s.len(),
{
    if pos < s.len() && s[pos] == ('-' as u8) {
        match parse_dec_at(s, pos + 1) {
            Some((v, end)) => if v <= 0x8000_0000_0000_0000 {
                Some((-(v as int), end))
            } else {
                None
            },
            None => None,
        }
    } else {
        match parse_dec_at(s, pos) {
            Some((v, end)) => if v <= i64::MAX {
                Some((v as int, end))
            } else {
                None
            },
            None => None,
        }
    }
}

pub fn parse_i64_exec(s: &Vec<u8>, pos: usize) -> (r: Option<(i64, usize)>)
    requires
        pos <= s.len(),
    ensures
        parse_i64_at(s@, pos as int) is None ==> r is None,
        parse_i64_at(s@, pos as int) matches Some((v, end)) ==> r matches Some((rv, rend))
            && rv as int == v && rend as int == end,
{
    proof {
        lemma_digit_span_le(s@, pos as int);
        if pos + 1 <= s.len() {
            lemma_digit_span_le(s@, pos + 1);
        }
    }
    if pos < s.len() && s[pos] == ('-' as u8) {
        match parse_u128_at(s, pos + 1) {
            Some((m, end)) => {
                if m <= 0x8000_0000_0000_0000u128 {
                    let v: i64 = if m == 0x8000_0000_0000_0000u128 {
                        i64::MIN
                    } else {
                        -(m as i64)
                    };
                    Some((v, end))
                } else {
                    None
                }
            },
            None => None,
        }
    } else {
        match parse_u128_at(s, pos) {
            Some((m, end)) => {
                if m <= i64::MAX as u128 {
                    Some((m as i64, end))
                } else {
                    None
                }
            },
            None => None,
        }
    }
}

pub proof fn lemma_parse_i64_enc(s: Seq<u8>, pos: int, n: int)
    requires
        i64::MIN <= n <= i64::MAX,
        0 <= pos,
        pos + enc_i64(n).len() <= s.len(),
        s.subrange(pos, pos + enc_i64(n).len()) == enc_i64(n),
        pos + enc_i64(n).len() == s.len() || !is_digit(s[pos + enc_i64(n).len()]),
    ensures
        parse_i64_at(s, pos) == Some((n, pos + enc_i64(n).len())),
{
    if n < 0 {
        let ds = dec_digits((-n) as nat);
        lemma_dec_digits((-n) as nat);
        let e = enc_i64(n);
        assert(e == seq![('-' as u8)] + ds);
        assert(e[0] == ('-' as u8));
        assert(s.subrange(pos, pos + e.len())[0] == s[pos]);
        assert(s[pos] == ('-' as u8));
        assert forall|j: int| 0 <= j < ds.len() implies s[pos + 1 + j] == ds[j] by {
            assert(s.subrange(pos, pos + e.len())[j + 1] == s[pos + 1 + j]);
            assert(e[j + 1] == ds[j]);
        }
        assert(s.subrange(pos + 1, pos + 1 + ds.len()) =~= ds);
        lemma_parse_dec_digits(s, pos + 1, (-n) as nat);
    } else {
        lemma_dec_digits(n as nat);
        assert(s[pos] == dec_digits(n as nat)[0]);
        assert(!(s[pos] == ('-' as u8)));
        lemma_parse_dec_digits(s, pos, n as nat);
    }
}

/// Reads an unsigned decimal numeral in the range of `u32`.
pub open spec fn parse_u32_at(s: Seq<u8>, pos: int) -> Option<(nat, int)>
    recommends
        0 <= pos <= s.len(),
{
    match parse_dec_at(s, pos) {
        Some((v, end)) => if v <= u32::MAX {
            Some((v, end))
        } else {
            None
        },
        None => None,
    }
}

pub fn parse_u32_exec(s: &Vec<u8>, pos: usize) -> (r: Option<(u32, usize)>)
    requires
        pos <= s.len(),
    ensures
        parse_u32_at(s@, pos as int) is None ==> r is None,
        parse_u32_at(s@, pos as int) matches Some((v, end)) ==> r matches Some((rv, rend))
            && rv as nat == v && rend as int == end,
{
    proof {
        lemma_digit_span_le(s@, pos as int);
    }
    match parse_u128_at(s, pos) {
        Some((m, end)) => {
            if m <= u32::MAX as u128 {
                Some((m as u32, end))
            } else {
                None
            }
        },
        None => None,
    }
}

/// Reads an unsigned decimal numeral in the range of `u128`.
pub open spec fn parse_u128_spec(s: Seq<u8>, pos: int) -> Option<(nat, int)>
    recommends
        0 <= pos <= s.len(),
{
    match parse_dec_at(s, pos) {
        Some((v, end)) => if v <= u128::MAX {
            Some((v, end))
        } else {
            None
        },
        None => None,
    }
}

/// Byte equality of two byte strings.
pub fn eq_bytes(a: &Vec<u8>, b: &Vec<u8>) -> (r: bool)
    ensures
        r == (a@ == b@),
{
    if a.len() != b.len() {
        proof {
            assert(a@ != b@);
        }
        return false;
    }
    let n = a.len();
    let mut i: usize = 0;
    while i < n
        invariant
            n == a.len() == b.len(),
            i <= n,
            forall|j: int| 0 <= j < i ==> a@[j] == b@[j],
        decreases n - i,
    {
        if a[i] != b[i] {
            proof {
                assert(a@ != b@);
            }
            return false;
        }
        i = i + 1;
    }
    proof {
        assert(a@ =~= b@);
    }
    true
}

/// Whether `v` begins with `prefix`.
pub fn starts_with(v: &Vec<u8>, prefix: &Vec<u8>) -> (r: bool)
    ensures
        r == (prefix@.is_prefix_of(v@)),
{
    if v.len() < prefix.len() {
        proof {
            assert(!prefix@.is_prefix_of(v@));
        }
        return false;
    }
    let n = prefix.len();
    let mut i: usize = 0;
    while i < n
        invariant
            n == prefix.len(),
            n <= v.len(),
            i <= n,
            forall|j: int| 0 <= j < i ==> v@[j] == prefix@[j],
        decreases n - i,
    {
        if v[i] != prefix[i] {
            proof {
                assert(v@.subrange(0, n as int)[i as int] != prefix@[i as int]);
                assert(!prefix@.is_prefix_of(v@));
            }
            return false;
        }
        i = i + 1;
    }
    proof {
        assert(v@.subrange(0, n as int) =~= prefix@);
    }
    true
}

} // verus!
