//! Parsing of user-typed number lists: comma-, semicolon- or
//! space-separated values for a mass submission, and the
//! `<iterations> <num> <num> ...` payload shape.
//!
//! Input is taken as ASCII; anything else is rejected. A token is a maximal
//! run of non-separator bytes and must be an unsigned decimal that fits in
//! `u32`.

use vstd::prelude::*;
use vstd::string::*;

use crate::codec::lit;
use crate::text::{dec_val, is_digit, lemma_dec_val_take};

verus! {

/// A separator byte: a space always, comma and semicolon only for number
/// lists.
pub open spec fn is_sep(b: u8, commas: bool) -> bool {
    b == (' ' as u8) || (commas && (b == (',' as u8) || b == (';' as u8)))
}

/// Length of the token starting at `pos`.
pub open spec fn tok_span(s: Seq<u8>, pos: int, commas: bool) -> nat
    recommends
        0 <= pos <= s.len(),
    decreases s.len() - pos,
{
    if pos < s.len() && !is_sep(s[pos], commas) {
        1 + tok_span(s, pos + 1, commas)
    } else {
        0
    }
}

pub proof fn lemma_tok_span_le(s: Seq<u8>, pos: int, commas: bool)
    requires
        0 <= pos <= s.len(),
    ensures
        tok_span(s, pos, commas) <= s.len() - pos,
    decreases s.len() - pos,
{
    if pos < s.len() && !is_sep(s[pos], commas) {
        lemma_tok_span_le(s, pos + 1, commas);
    }
}

pub open spec fn all_digits(s: Seq<u8>) -> bool {
    forall|i: int| 0 <= i < s.len() ==> is_digit(#[trigger] s[i])
}

/// The values of the tokens of `s` from `pos` on; `None` when some token is
/// not an unsigned decimal in the range of `u32`.
pub open spec fn parse_tokens(s: Seq<u8>, pos: int, commas: bool) -> Option<Seq<int>>
    decreases s.len() - pos,
    when 0 <= pos <= s.len()
    via parse_tokens_dec
{
    if pos >= s.len() {
        Some(Seq::empty())
    } else if is_sep(s[pos], commas) {
        parse_tokens(s, pos + 1, commas)
    } else {
        let k = tok_span(s, pos, commas);
        let tok = s.subrange(pos, pos + k);
        if all_digits(tok) && dec_val(tok) <= u32::MAX {
            match parse_tokens(s, pos + k, commas) {
                Some(rest) => Some(seq![dec_val(tok) as int] + rest),
                None => None,
            }
        } else {
            None
        }
    }
}

#[via_fn]
proof fn parse_tokens_dec(s: Seq<u8>, pos: int, commas: bool) {
    if pos < s.len() && !is_sep(s[pos], commas) {
        lemma_tok_span_le(s, pos, commas);
    }
}

/// Reads the tokens of `s` from `pos` on, exactly as `parse_tokens` does.
fn parse_tokens_exec(s: &Vec<u8>, pos: usize, commas: bool) -> (r: Option<Vec<u32>>)
    requires
        pos <= s.len(),
    ensures
        parse_tokens(s@, pos as int, commas) is None ==> r is None,
        parse_tokens(s@, pos as int, commas) matches Some(vals) ==> r matches Some(v)
            && v@.map_values(|x: u32| x as int) == vals,
    decreases s.len() - pos,
{
    if pos >= s.len() {
        let v: Vec<u32> = Vec::new();
        proof {
            assert(v@.map_values(|x: u32| x as int) =~= Seq::<int>::empty());
        }
        return Some(v);
    }
    let b = s[pos];
    let sep = b == (' ' as u8) || (commas && (b == (',' as u8) || b == (';' as u8)));
    if sep {
        return parse_tokens_exec(s, pos + 1, commas);
    }
    // measure the token
    let ghost k = tok_span(s@, pos as int, commas);
    proof {
        lemma_tok_span_le(s@, pos as int, commas);
    }
    let len = s.len();
    let mut i = pos;
    while i < len && !(s[i] == (' ' as u8) || (commas && (s[i] == (',' as u8) || s[i] == (
    ';' as u8))))
        invariant
            pos <= i <= len,
            len == s.len(),
            k == tok_span(s@, pos as int, commas),
            tok_span(s@, pos as int, commas) == (i - pos) + tok_span(s@, i as int, commas),
        decreases len - i,
    {
        proof {
            assert(!is_sep(s@[i as int], commas));
            assert(tok_span(s@, i as int, commas) == 1 + tok_span(s@, i + 1, commas));
        }
        i = i + 1;
    }
    proof {
        assert(tok_span(s@, i as int, commas) == 0);
        assert(k == i - pos);
    }
    let tok_end = i;
    let ghost tok = s@.subrange(pos as int, tok_end as int);
    // read the token's value
    let mut j = pos;
    let mut acc: u64 = 0;
    while j < tok_end
        invariant
            pos <= j <= tok_end <= s.len(),
            pos < s.len(),
            !is_sep(s@[pos as int], commas),
            tok_end as int == pos + tok_span(s@, pos as int, commas),
            tok == s@.subrange(pos as int, tok_end as int),
            forall|m: int| pos <= m < j ==> is_digit(#[trigger] s@[m]),
            acc as nat == dec_val(s@.subrange(pos as int, j as int)),
            acc <= u32::MAX,
        decreases tok_end - j,
    {
        let b2 = s[j];
        if !(('0' as u8) <= b2 && b2 <= ('9' as u8)) {
            proof {
                assert(tok[j - pos] == s@[j as int]);
                assert(!all_digits(tok));
            }
            return None;
        }
        proof {
            assert(s@.subrange(pos as int, j + 1).drop_last() =~= s@.subrange(
                pos as int,
                j as int,
            ));
            assert(s@.subrange(pos as int, j + 1).last() == s@[j as int]);
        }
        let d = b2 - ('0' as u8);
        acc = acc * 10 + d as u64;
        if acc > u32::MAX as u64 {
            proof {
                assert(tok.take(j + 1 - pos) =~= s@.subrange(pos as int, j + 1));
                lemma_dec_val_take(tok, j + 1 - pos);
                assert(dec_val(tok) > u32::MAX);
            }
            return None;
        }
        j = j + 1;
    }
    proof {
        assert(tok =~= s@.subrange(pos as int, tok_end as int));
        assert(all_digits(tok));
        assert(acc as nat == dec_val(tok));
    }
    let value = acc as u32;
    match parse_tokens_exec(s, tok_end, commas) {
        Some(rest) => {
            let mut rest = rest;
            let mut out: Vec<u32> = Vec::new();
            out.push(value);
            out.append(&mut rest);
            proof {
                assert(out@.map_values(|x: u32| x as int) =~= seq![dec_val(tok) as int]
                    + parse_tokens(s@, tok_end as int, commas)->0);
            }
            Some(out)
        },
        None => None,
    }
}

/// Reads a comma-, semicolon- or space-separated list of `u32` values.
/// Non-ASCII input or an out-of-range or malformed token gives `None`; the
/// empty input gives the empty list.
pub fn parse_numbers(raw: &str) -> (r: Option<Vec<u32>>)
    ensures
        !raw.is_ascii() ==> r is None,
        raw.is_ascii() ==> {
            match parse_tokens(lit(raw@), 0, true) {
                None => r is None,
                Some(vals) => r matches Some(v) && v@.map_values(|x: u32| x as int) == vals,
            }
        },
{
    broadcast use vstd::string::is_ascii_spec_bytes;

    if !raw.is_ascii() {
        return None;
    }
    let bytes = raw.as_bytes_vec();
    proof {
        assert(bytes@ =~= lit(raw@));
    }
    parse_tokens_exec(&bytes, 0, true)
}

/// Reads a `<iterations> <num> <num> ...` payload: space-separated decimal
/// values, at least one datum, and a nonzero iteration count.
pub fn parse_full_calc_payload(text: &str) -> (r: Option<(u32, Vec<u32>)>)
    ensures
        !text.is_ascii() ==> r is None,
        text.is_ascii() ==> {
            match parse_tokens(lit(text@), 0, false) {
                None => r is None,
                Some(vals) => {
                    if vals.len() >= 2 && vals[0] >= 1 {
                        r matches Some((iterations, data)) && iterations as int == vals[0]
                            && data@.map_values(|x: u32| x as int) == vals.drop_first()
                    } else {
                        r is None
                    }
                },
            }
        },
{
    broadcast use vstd::string::is_ascii_spec_bytes;

    if !text.is_ascii() {
        return None;
    }
    let bytes = text.as_bytes_vec();
    proof {
        assert(bytes@ =~= lit(text@));
    }
    let vals = match parse_tokens_exec(&bytes, 0, false) {
        Some(v) => v,
        None => {
            return None;
        },
    };
    if vals.len() < 2 {
        return None;
    }
    let iterations = vals[0];
    if iterations == 0 {
        return None;
    }
    let mut data = vals;
    data.remove(0);
    proof {
        assert(data@.map_values(|x: u32| x as int) =~= parse_tokens(
            lit(text@),
            0,
            false,
        )->0.drop_first());
    }
    Some((iterations, data))
}

} // verus!
