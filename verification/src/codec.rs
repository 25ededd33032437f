//! Text codec of the persisted records.
//!
//! A record is stored as one self-describing text object, in the shape of
//! JSON with a fixed field order. The encoder and the parser are both
//! verified, and decoding an encoded record gives the record back
//! field for field.

use vstd::prelude::*;

use crate::records::{
    encodable_info, encodable_user, is_text_byte, wf_message, wf_params, wf_result, CalcInfo,
    CalcInfoV, CalcParams, CalcParamsV, CalcResult, CalcResultV, UserCalcs, UserCalcsV,
    BaseCalcParams, MassCalcParams, in_i64, in_u32,
};
use crate::text::{
    dec_digits, digit_span, enc_i64, is_digit, lemma_dec_digits, lemma_digit_span_le,
    lemma_parse_dec_digits, lemma_parse_i64_enc, parse_dec_at, parse_i64_at, parse_i64_exec,
    parse_u128_at, print_i64, print_u128,
};

verus! {

/// Byte string of an ASCII text fragment.
pub open spec fn lit(s: Seq<char>) -> Seq<u8> {
    Seq::new(s.len(), |i: int| s[i] as u8)
}

/// Builds the byte string of an ASCII literal.
pub fn lit_vec(s: &str) -> (v: Vec<u8>)
    ensures
        s.is_ascii() ==> v@ == lit(s@),
{
    broadcast use vstd::string::is_ascii_spec_bytes;

    let v = s.as_bytes_vec();
    proof {
        if vstd::string::is_ascii(s) {
            assert(v@ =~= lit(s@));
        }
    }
    v
}

/// Appends `src` to `out`.
pub fn push_bytes(out: &mut Vec<u8>, src: &Vec<u8>)
    ensures
        final(out)@ == old(out)@ + src@,
{
    let n = src.len();
    let mut i: usize = 0;
    while i < n
        invariant
            n == src.len(),
            i <= n,
            out@ == old(out)@ + src@.take(i as int),
        decreases n - i,
    {
        out.push(src[i]);
        proof {
            assert(old(out)@ + src@.take(i + 1) =~= (old(out)@ + src@.take(i as int)).push(
                src@[i as int],
            ));
        }
        i = i + 1;
    }
    proof {
        assert(src@.take(n as int) =~= src@);
    }
}

/// Consumes the exact byte string `tag` at `pos`.
pub open spec fn expect(s: Seq<u8>, pos: int, tag: Seq<u8>) -> Option<int> {
    if 0 <= pos && pos + tag.len() <= s.len() && s.subrange(pos, pos + tag.len()) == tag {
        Some(pos + tag.len())
    } else {
        None
    }
}

pub fn expect_at(s: &Vec<u8>, pos: usize, tag: &Vec<u8>) -> (r: Option<usize>)
    requires
        pos <= s.len(),
    ensures
        expect(s@, pos as int, tag@) is None ==> r is None,
        expect(s@, pos as int, tag@) matches Some(end) ==> r matches Some(rend) && rend as int
            == end,
{
    if tag.len() > s.len() - pos {
        proof {
            assert(expect(s@, pos as int, tag@) is None);
        }
        return None;
    }
    let n = tag.len();
    let mut i: usize = 0;
    while i < n
        invariant
            n == tag.len(),
            pos + n <= s.len(),
            i <= n,
            forall|j: int| 0 <= j < i ==> s@[pos + j] == tag@[j],
        decreases n - i,
    {
        if s[pos + i] != tag[i] {
            proof {
                assert(s@.subrange(pos as int, pos + tag@.len())[i as int] != tag@[i as int]);
                assert(expect(s@, pos as int, tag@) is None);
            }
            return None;
        }
        i = i + 1;
    }
    proof {
        assert(s@.subrange(pos as int, pos + tag@.len()) =~= tag@);
    }
    Some(pos + n)
}

/// Splitting a known concatenation at a segment boundary.
pub proof fn lemma_split_subrange(s: Seq<u8>, pos: int, a: Seq<u8>, b: Seq<u8>)
    requires
        0 <= pos,
        pos + a.len() + b.len() <= s.len(),
        s.subrange(pos, pos + a.len() + b.len()) == a + b,
    ensures
        s.subrange(pos, pos + a.len()) == a,
        s.subrange(pos + a.len(), pos + a.len() + b.len()) == b,
{
    let whole = s.subrange(pos, pos + a.len() + b.len());
    assert forall|i: int| 0 <= i < a.len() implies s[pos + i] == a[i] by {
        assert(whole[i] == s[pos + i]);
        assert(whole[i] == (a + b)[i]);
        assert((a + b)[i] == a[i]);
    }
    assert forall|i: int| 0 <= i < b.len() implies s[pos + a.len() + i] == b[i] by {
        assert(whole[a.len() + i] == s[pos + a.len() + i]);
        assert(whole[a.len() + i] == (a + b)[a.len() + i]);
        assert((a + b)[a.len() + i] == b[i]);
    }
    assert(s.subrange(pos, pos + a.len()) =~= a);
    assert(s.subrange(pos + a.len(), pos + a.len() + b.len()) =~= b);
}

/// Length of the run of unescaped printable bytes starting at `pos`.
pub open spec fn text_span(s: Seq<u8>, pos: int) -> nat
    recommends
        0 <= pos <= s.len(),
    decreases s.len() - pos,
{
    if pos < s.len() && is_text_byte(s[pos]) {
        1 + text_span(s, pos + 1)
    } else {
        0
    }
}

pub proof fn lemma_text_span_le(s: Seq<u8>, pos: int)
    requires
        0 <= pos <= s.len(),
    ensures
        text_span(s, pos) <= s.len() - pos,
    decreases s.len() - pos,
{
    if pos < s.len() && is_text_byte(s[pos]) {
        lemma_text_span_le(s, pos + 1);
    }
}

pub proof fn lemma_text_span_exact(s: Seq<u8>, pos: int, m: Seq<u8>)
    requires
        0 <= pos,
        pos + m.len() <= s.len(),
        s.subrange(pos, pos + m.len()) == m,
        wf_message(m),
        pos + m.len() == s.len() || !is_text_byte(s[pos + m.len()]),
    ensures
        text_span(s, pos) == m.len(),
    decreases m.len(),
{
    if m.len() == 0 {
    } else {
        assert(s[pos] == m[0]);
        let tail = m.subrange(1, m.len() as int);
        assert(s.subrange(pos + 1, pos + 1 + tail.len()) =~= tail);
        lemma_text_span_exact(s, pos + 1, tail);
    }
}

/// Reads the maximal run of message bytes at `pos`; it always succeeds,
/// possibly with the empty message.
pub open spec fn parse_text_at(s: Seq<u8>, pos: int) -> (Seq<u8>, int)
    recommends
        0 <= pos <= s.len(),
{
    let k = text_span(s, pos);
    (s.subrange(pos, pos + k), pos + k)
}

pub fn parse_text_exec(s: &Vec<u8>, pos: usize) -> (r: (Vec<u8>, usize))
    requires
        pos <= s.len(),
    ensures
        r.0@ == parse_text_at(s@, pos as int).0,
        r.1 as int == parse_text_at(s@, pos as int).1,
{
    proof {
        lemma_text_span_le(s@, pos as int);
    }
    let len = s.len();
    let mut i = pos;
    let mut out: Vec<u8> = Vec::new();
    while i < len && 32 <= s[i] && s[i] <= 126 && s[i] != 34 && s[i] != 92
        invariant
            pos <= i <= len,
            len == s.len(),
            text_span(s@, pos as int) == (i - pos) + text_span(s@, i as int),
            out@ == s@.subrange(pos as int, i as int),
        decreases len - i,
    {
        proof {
            assert(is_text_byte(s@[i as int]));
            assert(s@.subrange(pos as int, i + 1) =~= s@.subrange(pos as int, i as int).push(
                s@[i as int],
            ));
        }
        out.push(s[i]);
        i = i + 1;
    }
    proof {
        assert(text_span(s@, i as int) == 0);
        assert((34 as u8) == ('"' as u8));
    }
    (out, i)
}

// --- encodings -------------------------------------------------------------

/// `null` or a signed decimal.
pub open spec fn enc_opt_i64(o: Option<int>) -> Seq<u8> {
    match o {
        None => lit("null"@),
        Some(t) => enc_i64(t),
    }
}

/// A list of job ids in brackets; the opening bracket is the caller's, the
/// closing one is included here.
pub open spec fn enc_id_list(s: Seq<u128>) -> Seq<u8>
    decreases s.len(),
{
    if s.len() == 0 {
        seq![(']' as u8)]
    } else {
        dec_digits(s[0] as nat) + enc_id_tail(s.drop_first())
    }
}

pub open spec fn enc_id_tail(s: Seq<u128>) -> Seq<u8>
    decreases s.len(),
{
    if s.len() == 0 {
        seq![(']' as u8)]
    } else {
        seq![(',' as u8)] + (dec_digits(s[0] as nat) + enc_id_tail(s.drop_first()))
    }
}

/// A list of signed decimals in brackets, closing bracket included.
pub open spec fn enc_i64_list(s: Seq<int>) -> Seq<u8>
    decreases s.len(),
{
    if s.len() == 0 {
        seq![(']' as u8)]
    } else {
        enc_i64(s[0]) + enc_i64_tail(s.drop_first())
    }
}

pub open spec fn enc_i64_tail(s: Seq<int>) -> Seq<u8>
    decreases s.len(),
{
    if s.len() == 0 {
        seq![(']' as u8)]
    } else {
        seq![(',' as u8)] + (enc_i64(s[0]) + enc_i64_tail(s.drop_first()))
    }
}

/// A list of bracketed rows, closing bracket included.
pub open spec fn enc_row_list(rows: Seq<Seq<int>>) -> Seq<u8>
    decreases rows.len(),
{
    if rows.len() == 0 {
        seq![(']' as u8)]
    } else {
        seq![('[' as u8)] + (enc_i64_list(rows[0]) + enc_row_tail(rows.drop_first()))
    }
}

pub open spec fn enc_row_tail(rows: Seq<Seq<int>>) -> Seq<u8>
    decreases rows.len(),
{
    if rows.len() == 0 {
        seq![(']' as u8)]
    } else {
        seq![(',' as u8), ('[' as u8)] + (enc_i64_list(rows[0]) + enc_row_tail(rows.drop_first()))
    }
}

pub open spec fn enc_params(p: CalcParamsV) -> Seq<u8> {
    match p {
        CalcParamsV::Base { user_id, iterations } => lit("{\"type\":\"base\",\"user_id\":"@) + (
        enc_i64(user_id) + (lit(",\"iterations\":"@) + (dec_digits(iterations as nat)
            + lit("}"@)))),
        CalcParamsV::Mass { user_id, data, iterations } => lit("{\"type\":\"mass\",\"user_id\":"@)
            + (enc_i64(user_id) + (lit(",\"data\":["@) + (enc_i64_list(data) + (lit(
            ",\"iterations\":"@,
        ) + (dec_digits(iterations as nat) + lit("}"@)))))),
    }
}

pub open spec fn enc_opt_params(o: Option<CalcParamsV>) -> Seq<u8> {
    match o {
        None => lit("null"@),
        Some(p) => enc_params(p),
    }
}

pub open spec fn enc_result(r: CalcResultV) -> Seq<u8> {
    match r {
        CalcResultV::Series { values } => lit("{\"series\":["@) + (enc_i64_list(values)
            + lit("}"@)),
        CalcResultV::Table { rows } => lit("{\"table\":["@) + (enc_row_list(rows) + lit("}"@)),
        CalcResultV::Failure { message } => lit("{\"error\":\""@) + (message + lit("\"}"@)),
    }
}

pub open spec fn enc_opt_result(o: Option<CalcResultV>) -> Seq<u8> {
    match o {
        None => lit("null"@),
        Some(r) => enc_result(r),
    }
}

/// The later half of a stored job record: params, progress and result.
pub open spec fn enc_info_tail(v: CalcInfoV) -> Seq<u8> {
    lit(",\"params\":"@) + (enc_opt_params(v.params) + (lit(",\"progress\":"@) + (dec_digits(
        v.progress as nat,
    ) + (lit(",\"result\":"@) + (enc_opt_result(v.result) + lit("}"@))))))
}

/// The stored byte string of a job record.
pub open spec fn enc_info(v: CalcInfoV) -> Seq<u8> {
    lit("{\"calc_id\":"@) + (dec_digits(v.calc_id as nat) + (lit(",\"user_id\":"@) + (enc_i64(
        v.user_id,
    ) + (lit(",\"run_dt\":"@) + (enc_i64(v.run_dt) + (lit(",\"end_dt\":"@) + (enc_opt_i64(v.end_dt)
        + enc_info_tail(v))))))))
}

/// The stored byte string of a user index record.
pub open spec fn enc_user(v: UserCalcsV) -> Seq<u8> {
    lit("{\"user_id\":"@) + (enc_i64(v.user_id) + (lit(",\"calcs\":["@) + (enc_id_list(v.calcs)
        + lit("}"@))))
}

// --- parsing ---------------------------------------------------------------

pub open spec fn parse_id_tail(s: Seq<u8>, pos: int) -> Option<(Seq<u128>, int)>
    decreases s.len() - pos,
    when 0 <= pos <= s.len()
    via parse_id_tail_dec
{
    if pos < s.len() && s[pos] == (']' as u8) {
        Some((Seq::empty(), pos + 1))
    } else if pos < s.len() && s[pos] == (',' as u8) {
        match parse_dec_at(s, pos + 1) {
            Some((v, end)) => if v <= u128::MAX {
                match parse_id_tail(s, end) {
                    Some((rest, end2)) => Some((seq![v as u128] + rest, end2)),
                    None => None,
                }
            } else {
                None
            },
            None => None,
        }
    } else {
        None
    }
}

#[via_fn]
proof fn parse_id_tail_dec(s: Seq<u8>, pos: int) {
    if pos < s.len() && s[pos] == (',' as u8) {
        lemma_digit_span_le(s, pos + 1);
    }
}

pub open spec fn parse_id_list(s: Seq<u8>, pos: int) -> Option<(Seq<u128>, int)>
    recommends
        0 <= pos <= s.len(),
{
    if pos < s.len() && s[pos] == (']' as u8) {
        Some((Seq::empty(), pos + 1))
    } else {
        match parse_dec_at(s, pos) {
            Some((v, end)) => if v <= u128::MAX {
                match parse_id_tail(s, end) {
                    Some((rest, end2)) => Some((seq![v as u128] + rest, end2)),
                    None => None,
                }
            } else {
                None
            },
            None => None,
        }
    }
}

pub open spec fn parse_i64_tail(s: Seq<u8>, pos: int) -> Option<(Seq<int>, int)>
    decreases s.len() - pos,
    when 0 <= pos <= s.len()
    via parse_i64_tail_dec
{
    if pos < s.len() && s[pos] == (']' as u8) {
        Some((Seq::empty(), pos + 1))
    } else if pos < s.len() && s[pos] == (',' as u8) {
        match parse_i64_at(s, pos + 1) {
            Some((v, end)) => match parse_i64_tail(s, end) {
                Some((rest, end2)) => Some((seq![v] + rest, end2)),
                None => None,
            },
            None => None,
        }
    } else {
        None
    }
}

#[via_fn]
proof fn parse_i64_tail_dec(s: Seq<u8>, pos: int) {
    if pos < s.len() && s[pos] == (',' as u8) {
        lemma_digit_span_le(s, pos + 1);
        if pos + 1 < s.len() {
            lemma_digit_span_le(s, pos + 2);
        }
    }
}

pub open spec fn parse_i64_list(s: Seq<u8>, pos: int) -> Option<(Seq<int>, int)>
    recommends
        0 <= pos <= s.len(),
{
    if pos < s.len() && s[pos] == (']' as u8) {
        Some((Seq::empty(), pos + 1))
    } else {
        match parse_i64_at(s, pos) {
            Some((v, end)) => match parse_i64_tail(s, end) {
                Some((rest, end2)) => Some((seq![v] + rest, end2)),
                None => None,
            },
            None => None,
        }
    }
}

pub open spec fn parse_row_tail(s: Seq<u8>, pos: int) -> Option<(Seq<Seq<int>>, int)>
    decreases s.len() - pos,
    when 0 <= pos <= s.len()
    via parse_row_tail_dec
{
    if pos < s.len() && s[pos] == (']' as u8) {
        Some((Seq::empty(), pos + 1))
    } else if pos + 1 < s.len() && s[pos] == (',' as u8) && s[pos + 1] == ('[' as u8) {
        match parse_i64_list(s, pos + 2) {
            Some((row, end)) => match parse_row_tail(s, end) {
                Some((rest, end2)) => Some((seq![row] + rest, end2)),
                None => None,
            },
            None => None,
        }
    } else {
        None
    }
}

#[via_fn]
proof fn parse_row_tail_dec(s: Seq<u8>, pos: int) {
    if pos + 1 < s.len() && s[pos] == (',' as u8) && s[pos + 1] == ('[' as u8) {
        lemma_parse_i64_list_bounds(s, pos + 2);
    }
}

pub open spec fn parse_row_list(s: Seq<u8>, pos: int) -> Option<(Seq<Seq<int>>, int)>
    recommends
        0 <= pos <= s.len(),
{
    if pos < s.len() && s[pos] == (']' as u8) {
        Some((Seq::empty(), pos + 1))
    } else if pos < s.len() && s[pos] == ('[' as u8) {
        match parse_i64_list(s, pos + 1) {
            Some((row, end)) => match parse_row_tail(s, end) {
                Some((rest, end2)) => Some((seq![row] + rest, end2)),
                None => None,
            },
            None => None,
        }
    } else {
        None
    }
}

pub open spec fn parse_opt_i64(s: Seq<u8>, pos: int) -> Option<(Option<int>, int)>
    recommends
        0 <= pos <= s.len(),
{
    if pos < s.len() && s[pos] == ('n' as u8) {
        match expect(s, pos, lit("null"@)) {
            Some(end) => Some((None, end)),
            None => None,
        }
    } else {
        match parse_i64_at(s, pos) {
            Some((v, end)) => Some((Some(v), end)),
            None => None,
        }
    }
}

/// Every element is in the range of `u32`.
pub open spec fn all_in_u32(s: Seq<int>) -> bool {
    forall|i: int| 0 <= i < s.len() ==> in_u32(#[trigger] s[i])
}

#[verifier::opaque]
pub open spec fn parse_params(s: Seq<u8>, pos: int) -> Option<(CalcParamsV, int)>
    recommends
        0 <= pos <= s.len(),
{
    match expect(s, pos, lit("{\"type\":\"base\",\"user_id\":"@)) {
        Some(p1) => match parse_i64_at(s, p1) {
            Some((uid, p2)) => match expect(s, p2, lit(",\"iterations\":"@)) {
                Some(p3) => match parse_dec_at(s, p3) {
                    Some((it, p4)) => if it <= u32::MAX {
                        match expect(s, p4, lit("}"@)) {
                            Some(p5) => Some(
                                (CalcParamsV::Base { user_id: uid, iterations: it as int }, p5),
                            ),
                            None => None,
                        }
                    } else {
                        None
                    },
                    None => None,
                },
                None => None,
            },
            None => None,
        },
        None => match expect(s, pos, lit("{\"type\":\"mass\",\"user_id\":"@)) {
            Some(p1) => match parse_i64_at(s, p1) {
                Some((uid, p2)) => match expect(s, p2, lit(",\"data\":["@)) {
                    Some(p3) => match parse_i64_list(s, p3) {
                        Some((data, p4)) => if all_in_u32(data) {
                            match expect(s, p4, lit(",\"iterations\":"@)) {
                                Some(p5) => match parse_dec_at(s, p5) {
                                    Some((it, p6)) => if it <= u32::MAX {
                                        match expect(s, p6, lit("}"@)) {
                                            Some(p7) => Some(
                                                (
                                                    CalcParamsV::Mass {
                                                        user_id: uid,
                                                        data,
                                                        iterations: it as int,
                                                    },
                                                    p7,
                                                ),
                                            ),
                                            None => None,
                                        }
                                    } else {
                                        None
                                    },
                                    None => None,
                                },
                                None => None,
                            }
                        } else {
                            None
                        },
                        None => None,
                    },
                    None => None,
                },
                None => None,
            },
            None => None,
        },
    }
}

#[verifier::opaque]
pub open spec fn parse_result(s: Seq<u8>, pos: int) -> Option<(CalcResultV, int)>
    recommends
        0 <= pos <= s.len(),
{
    match expect(s, pos, lit("{\"series\":["@)) {
        Some(p1) => match parse_i64_list(s, p1) {
            Some((values, p2)) => match expect(s, p2, lit("}"@)) {
                Some(p3) => Some((CalcResultV::Series { values }, p3)),
                None => None,
            },
            None => None,
        },
        None => match expect(s, pos, lit("{\"table\":["@)) {
            Some(p1) => match parse_row_list(s, p1) {
                Some((rows, p2)) => match expect(s, p2, lit("}"@)) {
                    Some(p3) => Some((CalcResultV::Table { rows }, p3)),
                    None => None,
                },
                None => None,
            },
            None => match expect(s, pos, lit("{\"error\":\""@)) {
                Some(p1) => {
                    let (message, p2) = parse_text_at(s, p1);
                    match expect(s, p2, lit("\"}"@)) {
                        Some(p3) => Some((CalcResultV::Failure { message }, p3)),
                        None => None,
                    }
                },
                None => None,
            },
        },
    }
}

pub open spec fn parse_opt_params(s: Seq<u8>, pos: int) -> Option<(Option<CalcParamsV>, int)>
    recommends
        0 <= pos <= s.len(),
{
    if pos < s.len() && s[pos] == ('n' as u8) {
        match expect(s, pos, lit("null"@)) {
            Some(end) => Some((None, end)),
            None => None,
        }
    } else {
        match parse_params(s, pos) {
            Some((p, end)) => Some((Some(p), end)),
            None => None,
        }
    }
}

pub open spec fn parse_opt_result(s: Seq<u8>, pos: int) -> Option<(Option<CalcResultV>, int)>
    recommends
        0 <= pos <= s.len(),
{
    if pos < s.len() && s[pos] == ('n' as u8) {
        match expect(s, pos, lit("null"@)) {
            Some(end) => Some((None, end)),
            None => None,
        }
    } else {
        match parse_result(s, pos) {
            Some((r, end)) => Some((Some(r), end)),
            None => None,
        }
    }
}

/// Reads the later half of a job record: params, progress and result.
#[verifier::opaque]
pub open spec fn parse_info_tail(
    s: Seq<u8>,
    pos: int,
    id: u128,
    uid: int,
    run: int,
    end_dt: Option<int>,
) -> Option<CalcInfoV>
    recommends
        0 <= pos <= s.len(),
{
    match expect(s, pos, lit(",\"params\":"@)) {
        Some(p9) => match parse_opt_params(s, p9) {
            Some((params, p10)) => match expect(s, p10, lit(",\"progress\":"@)) {
                Some(p11) => match parse_dec_at(s, p11) {
                    Some((prog, p12)) => if prog <= u32::MAX {
                        match expect(s, p12, lit(",\"result\":"@)) {
                            Some(p13) => match parse_opt_result(s, p13) {
                                Some((result, p14)) => match expect(s, p14, lit("}"@)) {
                                    Some(p15) => if p15 == s.len() {
                                        Some(
                                            (CalcInfoV {
                                                calc_id: id,
                                                user_id: uid,
                                                run_dt: run,
                                                end_dt,
                                                params,
                                                progress: prog as int,
                                                result,
                                            }),
                                        )
                                    } else {
                                        None
                                    },
                                    None => None,
                                },
                                None => None,
                            },
                            None => None,
                        }
                    } else {
                        None
                    },
                    None => None,
                },
                None => None,
            },
            None => None,
        },
        None => None,
    }
}

/// Reads a whole job record; the input must hold exactly one record.
#[verifier::opaque]
pub open spec fn parse_info(s: Seq<u8>) -> Option<CalcInfoV> {
    match expect(s, 0, lit("{\"calc_id\":"@)) {
        Some(p1) => match parse_dec_at(s, p1) {
            Some((id, p2)) => if id <= u128::MAX {
                match expect(s, p2, lit(",\"user_id\":"@)) {
                    Some(p3) => match parse_i64_at(s, p3) {
                        Some((uid, p4)) => match expect(s, p4, lit(",\"run_dt\":"@)) {
                            Some(p5) => match parse_i64_at(s, p5) {
                                Some((run, p6)) => match expect(s, p6, lit(",\"end_dt\":"@)) {
                                    Some(p7) => match parse_opt_i64(s, p7) {
                                        Some((end_dt, p8)) => parse_info_tail(
                                            s,
                                            p8,
                                            id as u128,
                                            uid,
                                            run,
                                            end_dt,
                                        ),
                                        None => None,
                                    },
                                    None => None,
                                },
                                None => None,
                            },
                            None => None,
                        },
                        None => None,
                    },
                    None => None,
                }
            } else {
                None
            },
            None => None,
        },
        None => None,
    }
}

/// Reads a whole user index record.
#[verifier::opaque]
pub open spec fn parse_user(s: Seq<u8>) -> Option<UserCalcsV> {
    match expect(s, 0, lit("{\"user_id\":"@)) {
        Some(p1) => match parse_i64_at(s, p1) {
            Some((uid, p2)) => match expect(s, p2, lit(",\"calcs\":["@)) {
                Some(p3) => match parse_id_list(s, p3) {
                    Some((ids, p4)) => match expect(s, p4, lit("}"@)) {
                        Some(p5) => if p5 == s.len() {
                            Some((UserCalcsV { user_id: uid, calcs: ids }))
                        } else {
                            None
                        },
                        None => None,
                    },
                    None => None,
                },
                None => None,
            },
            None => None,
        },
        None => None,
    }
}

/// A successful list parse lands strictly beyond `pos` and inside `s`.
pub proof fn lemma_parse_i64_tail_bounds(s: Seq<u8>, pos: int)
    requires
        0 <= pos <= s.len(),
    ensures
        parse_i64_tail(s, pos) matches Some((rest, end)) ==> pos < end <= s.len(),
    decreases s.len() - pos,
{
    if pos < s.len() && s[pos] == (']' as u8) {
    } else if pos < s.len() && s[pos] == (',' as u8) {
        lemma_digit_span_le(s, pos + 1);
        if pos + 1 < s.len() {
            lemma_digit_span_le(s, pos + 2);
        }
        match parse_i64_at(s, pos + 1) {
            Some((v, end)) => {
                lemma_parse_i64_tail_bounds(s, end);
            },
            None => {},
        }
    }
}

pub proof fn lemma_parse_i64_list_bounds(s: Seq<u8>, pos: int)
    requires
        0 <= pos <= s.len(),
    ensures
        parse_i64_list(s, pos) matches Some((row, end)) ==> pos < end <= s.len(),
{
    if pos < s.len() && s[pos] == (']' as u8) {
    } else {
        lemma_digit_span_le(s, pos);
        if pos < s.len() {
            lemma_digit_span_le(s, pos + 1);
        }
        match parse_i64_at(s, pos) {
            Some((v, end)) => {
                lemma_parse_i64_tail_bounds(s, end);
            },
            None => {},
        }
    }
}

// --- executable encoding ---------------------------------------------------

fn push_lit(out: &mut Vec<u8>, s: &str)
    requires
        s.is_ascii(),
    ensures
        final(out)@ == old(out)@ + lit(s@),
{
    let v = lit_vec(s);
    push_bytes(out, &v);
}

fn push_opt_i64(o: &Option<i64>, out: &mut Vec<u8>)
    ensures
        final(out)@ == old(out)@ + enc_opt_i64(
            match o {
                Some(t) => Some(t as int),
                None => None,
            },
        ),
{
    match o {
        None => {
            proof {
                reveal_strlit("null");
                assert(vstd::utf8::is_ascii_chars("null"@));
            }
            push_lit(out, "null");
        },
        Some(t) => {
            print_i64(*t, out);
        },
    }
}

fn push_id_list(ids: &Vec<u128>, i: usize, out: &mut Vec<u8>)
    requires
        i <= ids.len(),
    ensures
        final(out)@ == old(out)@ + enc_id_list(ids@.skip(i as int)),
    decreases ids.len() - i,
{
    if i == ids.len() {
        out.push(']' as u8);
        proof {
            assert(ids@.skip(i as int) =~= Seq::<u128>::empty());
            assert(out@ =~= old(out)@ + enc_id_list(ids@.skip(i as int)));
        }
    } else {
        proof {
            assert(ids@.skip(i as int)[0] == ids@[i as int]);
            assert(ids@.skip(i as int).drop_first() =~= ids@.skip(i + 1));
        }
        print_u128(ids[i], out);
        push_id_tail(ids, i + 1, out);
        proof {
            assert(out@ =~= old(out)@ + enc_id_list(ids@.skip(i as int)));
        }
    }
}

fn push_id_tail(ids: &Vec<u128>, i: usize, out: &mut Vec<u8>)
    requires
        i <= ids.len(),
    ensures
        final(out)@ == old(out)@ + enc_id_tail(ids@.skip(i as int)),
    decreases ids.len() - i,
{
    if i == ids.len() {
        out.push(']' as u8);
        proof {
            assert(ids@.skip(i as int) =~= Seq::<u128>::empty());
            assert(out@ =~= old(out)@ + enc_id_tail(ids@.skip(i as int)));
        }
    } else {
        proof {
            assert(ids@.skip(i as int)[0] == ids@[i as int]);
            assert(ids@.skip(i as int).drop_first() =~= ids@.skip(i + 1));
        }
        out.push(',' as u8);
        print_u128(ids[i], out);
        push_id_tail(ids, i + 1, out);
        proof {
            assert(out@ =~= old(out)@ + enc_id_tail(ids@.skip(i as int)));
        }
    }
}

fn push_i64_list(xs: &Vec<i64>, i: usize, out: &mut Vec<u8>)
    requires
        i <= xs.len(),
    ensures
        final(out)@ == old(out)@ + enc_i64_list(
            xs@.map_values(|x: i64| x as int).skip(i as int),
        ),
    decreases xs.len() - i,
{
    let ghost m = xs@.map_values(|x: i64| x as int);
    if i == xs.len() {
        out.push(']' as u8);
        proof {
            assert(m.skip(i as int) =~= Seq::<int>::empty());
            assert(out@ =~= old(out)@ + enc_i64_list(m.skip(i as int)));
        }
    } else {
        proof {
            assert(m.skip(i as int)[0] == m[i as int]);
            assert(m.skip(i as int).drop_first() =~= m.skip(i + 1));
        }
        print_i64(xs[i], out);
        push_i64_tail(xs, i + 1, out);
        proof {
            assert(out@ =~= old(out)@ + enc_i64_list(m.skip(i as int)));
        }
    }
}

fn push_i64_tail(xs: &Vec<i64>, i: usize, out: &mut Vec<u8>)
    requires
        i <= xs.len(),
    ensures
        final(out)@ == old(out)@ + enc_i64_tail(
            xs@.map_values(|x: i64| x as int).skip(i as int),
        ),
    decreases xs.len() - i,
{
    let ghost m = xs@.map_values(|x: i64| x as int);
    if i == xs.len() {
        out.push(']' as u8);
        proof {
            assert(m.skip(i as int) =~= Seq::<int>::empty());
            assert(out@ =~= old(out)@ + enc_i64_tail(m.skip(i as int)));
        }
    } else {
        proof {
            assert(m.skip(i as int)[0] == m[i as int]);
            assert(m.skip(i as int).drop_first() =~= m.skip(i + 1));
        }
        out.push(',' as u8);
        print_i64(xs[i], out);
        push_i64_tail(xs, i + 1, out);
        proof {
            assert(out@ =~= old(out)@ + enc_i64_tail(m.skip(i as int)));
        }
    }
}

fn push_u32_list(xs: &Vec<u32>, i: usize, out: &mut Vec<u8>)
    requires
        i <= xs.len(),
    ensures
        final(out)@ == old(out)@ + enc_i64_list(
            xs@.map_values(|x: u32| x as int).skip(i as int),
        ),
    decreases xs.len() - i,
{
    let ghost m = xs@.map_values(|x: u32| x as int);
    if i == xs.len() {
        out.push(']' as u8);
        proof {
            assert(m.skip(i as int) =~= Seq::<int>::empty());
            assert(out@ =~= old(out)@ + enc_i64_list(m.skip(i as int)));
        }
    } else {
        proof {
            assert(m.skip(i as int)[0] == m[i as int]);
            assert(m.skip(i as int).drop_first() =~= m.skip(i + 1));
            assert(enc_i64(m[i as int]) == dec_digits(xs@[i as int] as nat));
        }
        print_i64(xs[i] as i64, out);
        push_u32_tail(xs, i + 1, out);
        proof {
            assert(out@ =~= old(out)@ + enc_i64_list(m.skip(i as int)));
        }
    }
}

fn push_u32_tail(xs: &Vec<u32>, i: usize, out: &mut Vec<u8>)
    requires
        i <= xs.len(),
    ensures
        final(out)@ == old(out)@ + enc_i64_tail(
            xs@.map_values(|x: u32| x as int).skip(i as int),
        ),
    decreases xs.len() - i,
{
    let ghost m = xs@.map_values(|x: u32| x as int);
    if i == xs.len() {
        out.push(']' as u8);
        proof {
            assert(m.skip(i as int) =~= Seq::<int>::empty());
            assert(out@ =~= old(out)@ + enc_i64_tail(m.skip(i as int)));
        }
    } else {
        proof {
            assert(m.skip(i as int)[0] == m[i as int]);
            assert(m.skip(i as int).drop_first() =~= m.skip(i + 1));
            assert(enc_i64(m[i as int]) == dec_digits(xs@[i as int] as nat));
        }
        out.push(',' as u8);
        print_i64(xs[i] as i64, out);
        push_u32_tail(xs, i + 1, out);
        proof {
            assert(out@ =~= old(out)@ + enc_i64_tail(m.skip(i as int)));
        }
    }
}

fn push_row_list(rows: &Vec<Vec<i64>>, i: usize, out: &mut Vec<u8>)
    requires
        i <= rows.len(),
    ensures
        final(out)@ == old(out)@ + enc_row_list(
            rows@.map_values(|r: Vec<i64>| r@.map_values(|x: i64| x as int)).skip(i as int),
        ),
    decreases rows.len() - i,
{
    let ghost m = rows@.map_values(|r: Vec<i64>| r@.map_values(|x: i64| x as int));
    if i == rows.len() {
        out.push(']' as u8);
        proof {
            assert(m.skip(i as int) =~= Seq::<Seq<int>>::empty());
            assert(out@ =~= old(out)@ + enc_row_list(m.skip(i as int)));
        }
    } else {
        proof {
            assert(m.skip(i as int)[0] == m[i as int]);
            assert(m.skip(i as int).drop_first() =~= m.skip(i + 1));
        }
        out.push('[' as u8);
        proof {
            assert(rows@[i as int]@.map_values(|x: i64| x as int).skip(0) =~= m[i as int]);
        }
        push_i64_list(&rows[i], 0, out);
        push_row_tail(rows, i + 1, out);
        proof {
            assert(out@ =~= old(out)@ + enc_row_list(m.skip(i as int)));
        }
    }
}

fn push_row_tail(rows: &Vec<Vec<i64>>, i: usize, out: &mut Vec<u8>)
    requires
        i <= rows.len(),
    ensures
        final(out)@ == old(out)@ + enc_row_tail(
            rows@.map_values(|r: Vec<i64>| r@.map_values(|x: i64| x as int)).skip(i as int),
        ),
    decreases rows.len() - i,
{
    let ghost m = rows@.map_values(|r: Vec<i64>| r@.map_values(|x: i64| x as int));
    if i == rows.len() {
        out.push(']' as u8);
        proof {
            assert(m.skip(i as int) =~= Seq::<Seq<int>>::empty());
            assert(out@ =~= old(out)@ + enc_row_tail(m.skip(i as int)));
        }
    } else {
        proof {
            assert(m.skip(i as int)[0] == m[i as int]);
            assert(m.skip(i as int).drop_first() =~= m.skip(i + 1));
        }
        out.push(',' as u8);
        out.push('[' as u8);
        proof {
            assert(rows@[i as int]@.map_values(|x: i64| x as int).skip(0) =~= m[i as int]);
        }
        push_i64_list(&rows[i], 0, out);
        push_row_tail(rows, i + 1, out);
        proof {
            assert(out@ =~= old(out)@ + enc_row_tail(m.skip(i as int)));
        }
    }
}

fn push_params(p: &CalcParams, out: &mut Vec<u8>)
    ensures
        final(out)@ == old(out)@ + enc_params(p@),
{
    match p {
        CalcParams::Base(b) => {
            proof {
                reveal_strlit("{\"type\":\"base\",\"user_id\":");
                reveal_strlit(",\"iterations\":");
                reveal_strlit("}");
                assert(vstd::utf8::is_ascii_chars("{\"type\":\"base\",\"user_id\":"@));
                assert(vstd::utf8::is_ascii_chars(",\"iterations\":"@));
                assert(vstd::utf8::is_ascii_chars("}"@));
            }
            push_lit(out, "{\"type\":\"base\",\"user_id\":");
            print_i64(b.user_id, out);
            push_lit(out, ",\"iterations\":");
            print_i64(b.iterations as i64, out);
            push_lit(out, "}");
            proof {
                assert(enc_i64(b.iterations as int) == dec_digits(b.iterations as nat));
                assert(out@ =~= old(out)@ + enc_params(p@));
            }
        },
        CalcParams::Mass(m) => {
            proof {
                reveal_strlit("{\"type\":\"mass\",\"user_id\":");
                reveal_strlit(",\"data\":[");
                reveal_strlit(",\"iterations\":");
                reveal_strlit("}");
                assert(vstd::utf8::is_ascii_chars("{\"type\":\"mass\",\"user_id\":"@));
                assert(vstd::utf8::is_ascii_chars(",\"data\":["@));
                assert(vstd::utf8::is_ascii_chars(",\"iterations\":"@));
                assert(vstd::utf8::is_ascii_chars("}"@));
            }
            push_lit(out, "{\"type\":\"mass\",\"user_id\":");
            print_i64(m.user_id, out);
            push_lit(out, ",\"data\":[");
            proof {
                assert(m.data@.map_values(|x: u32| x as int).skip(0) =~= m.data@.map_values(
                    |x: u32| x as int,
                ));
            }
            push_u32_list(&m.data, 0, out);
            push_lit(out, ",\"iterations\":");
            print_i64(m.iterations as i64, out);
            push_lit(out, "}");
            proof {
                assert(enc_i64(m.iterations as int) == dec_digits(m.iterations as nat));
                assert(out@ =~= old(out)@ + enc_params(p@));
            }
        },
    }
}

fn push_result(r: &CalcResult, out: &mut Vec<u8>)
    ensures
        final(out)@ == old(out)@ + enc_result(r@),
{
    match r {
        CalcResult::Series(values) => {
            proof {
                reveal_strlit("{\"series\":[");
                reveal_strlit("}");
                assert(vstd::utf8::is_ascii_chars("{\"series\":["@));
                assert(vstd::utf8::is_ascii_chars("}"@));
            }
            push_lit(out, "{\"series\":[");
            proof {
                assert(values@.map_values(|x: i64| x as int).skip(0) =~= values@.map_values(
                    |x: i64| x as int,
                ));
            }
            push_i64_list(values, 0, out);
            push_lit(out, "}");
            proof {
                assert(out@ =~= old(out)@ + enc_result(r@));
            }
        },
        CalcResult::Table(rows) => {
            proof {
                reveal_strlit("{\"table\":[");
                reveal_strlit("}");
                assert(vstd::utf8::is_ascii_chars("{\"table\":["@));
                assert(vstd::utf8::is_ascii_chars("}"@));
            }
            push_lit(out, "{\"table\":[");
            proof {
                assert(rows@.map_values(|rr: Vec<i64>| rr@.map_values(|x: i64| x as int)).skip(0)
                    =~= rows@.map_values(|rr: Vec<i64>| rr@.map_values(|x: i64| x as int)));
            }
            push_row_list(rows, 0, out);
            push_lit(out, "}");
            proof {
                assert(out@ =~= old(out)@ + enc_result(r@));
            }
        },
        CalcResult::Failure(message) => {
            proof {
                reveal_strlit("{\"error\":\"");
                reveal_strlit("\"}");
                assert(vstd::utf8::is_ascii_chars("{\"error\":\""@));
                assert(vstd::utf8::is_ascii_chars("\"}"@));
            }
            push_lit(out, "{\"error\":\"");
            push_bytes(out, message);
            push_lit(out, "\"}");
            proof {
                assert(out@ =~= old(out)@ + enc_result(r@));
            }
        },
    }
}

fn push_opt_params(o: &Option<CalcParams>, out: &mut Vec<u8>)
    ensures
        final(out)@ == old(out)@ + enc_opt_params(
            match o {
                Some(p) => Some(p@),
                None => None,
            },
        ),
{
    match o {
        None => {
            proof {
                reveal_strlit("null");
                assert(vstd::utf8::is_ascii_chars("null"@));
            }
            push_lit(out, "null");
        },
        Some(p) => {
            push_params(p, out);
        },
    }
}

fn push_opt_result(o: &Option<CalcResult>, out: &mut Vec<u8>)
    ensures
        final(out)@ == old(out)@ + enc_opt_result(
            match o {
                Some(r) => Some(r@),
                None => None,
            },
        ),
{
    match o {
        None => {
            proof {
                reveal_strlit("null");
                assert(vstd::utf8::is_ascii_chars("null"@));
            }
            push_lit(out, "null");
        },
        Some(r) => {
            push_result(r, out);
        },
    }
}

fn push_info_tail(info: &CalcInfo, out: &mut Vec<u8>)
    ensures
        final(out)@ == old(out)@ + enc_info_tail(info@),
{
    proof {
        reveal_strlit(",\"params\":");
        reveal_strlit(",\"progress\":");
        reveal_strlit(",\"result\":");
        reveal_strlit("}");
        assert(vstd::utf8::is_ascii_chars(",\"params\":"@));
        assert(vstd::utf8::is_ascii_chars(",\"progress\":"@));
        assert(vstd::utf8::is_ascii_chars(",\"result\":"@));
        assert(vstd::utf8::is_ascii_chars("}"@));
    }
    push_lit(out, ",\"params\":");
    push_opt_params(&info.params, out);
    push_lit(out, ",\"progress\":");
    print_i64(info.progress as i64, out);
    push_lit(out, ",\"result\":");
    push_opt_result(&info.result, out);
    push_lit(out, "}");
    proof {
        assert(enc_i64(info.progress as int) == dec_digits(info.progress as nat));
        assert(out@ =~= old(out)@ + enc_info_tail(info@));
    }
}

/// Encodes a job record into its stored byte string.
#[verifier::rlimit(100)]
pub fn encode_calc_info(info: &CalcInfo) -> (r: Vec<u8>)
    ensures
        r@ == enc_info(info@),
{
    proof {
        reveal_strlit("{\"calc_id\":");
        reveal_strlit(",\"user_id\":");
        reveal_strlit(",\"run_dt\":");
        reveal_strlit(",\"end_dt\":");
        assert(vstd::utf8::is_ascii_chars("{\"calc_id\":"@));
        assert(vstd::utf8::is_ascii_chars(",\"user_id\":"@));
        assert(vstd::utf8::is_ascii_chars(",\"run_dt\":"@));
        assert(vstd::utf8::is_ascii_chars(",\"end_dt\":"@));
    }
    let mut out: Vec<u8> = Vec::new();
    push_lit(&mut out, "{\"calc_id\":");
    print_u128(info.calc_id, &mut out);
    push_lit(&mut out, ",\"user_id\":");
    print_i64(info.user_id, &mut out);
    push_lit(&mut out, ",\"run_dt\":");
    print_i64(info.run_dt, &mut out);
    push_lit(&mut out, ",\"end_dt\":");
    push_opt_i64(&info.end_dt, &mut out);
    push_info_tail(info, &mut out);
    proof {
        assert(out@ =~= enc_info(info@));
    }
    out
}

/// Encodes a user index record into its stored byte string.
pub fn encode_user_calcs(u: &UserCalcs) -> (r: Vec<u8>)
    ensures
        r@ == enc_user(u@),
{
    proof {
        reveal_strlit("{\"user_id\":");
        reveal_strlit(",\"calcs\":[");
        reveal_strlit("}");
        assert(vstd::utf8::is_ascii_chars("{\"user_id\":"@));
        assert(vstd::utf8::is_ascii_chars(",\"calcs\":["@));
        assert(vstd::utf8::is_ascii_chars("}"@));
    }
    let mut out: Vec<u8> = Vec::new();
    push_lit(&mut out, "{\"user_id\":");
    print_i64(u.user_id, &mut out);
    push_lit(&mut out, ",\"calcs\":[");
    proof {
        assert(u.calcs@.skip(0) =~= u.calcs@);
    }
    push_id_list(&u.calcs, 0, &mut out);
    push_lit(&mut out, "}");
    proof {
        assert(out@ =~= enc_user(u@));
    }
    out
}

// --- executable decoding ---------------------------------------------------

fn parse_opt_i64_exec(s: &Vec<u8>, pos: usize) -> (r: Option<(Option<i64>, usize)>)
    requires
        pos <= s.len(),
    ensures
        parse_opt_i64(s@, pos as int) is None ==> r is None,
        parse_opt_i64(s@, pos as int) matches Some((o, end)) ==> r matches Some((ro, rend))
            && rend as int == end && rend <= s.len() && (match (ro, o) {
            (None, None) => true,
            (Some(a), Some(b)) => a as int == b,
            _ => false,
        }),
{
    proof {
        reveal_strlit("null");
        assert(vstd::utf8::is_ascii_chars("null"@));
        lemma_digit_span_le(s@, pos as int);
        if pos + 1 <= s.len() {
            lemma_digit_span_le(s@, pos + 1);
        }
    }
    if pos < s.len() && s[pos] == ('n' as u8) {
        let tag = lit_vec("null");
        match expect_at(s, pos, &tag) {
            Some(end) => Some((None, end)),
            None => None,
        }
    } else {
        match parse_i64_exec(s, pos) {
            Some((v, end)) => Some((Some(v), end)),
            None => None,
        }
    }
}

fn parse_id_tail_exec(s: &Vec<u8>, pos: usize) -> (r: Option<(Vec<u128>, usize)>)
    requires
        pos <= s.len(),
    ensures
        parse_id_tail(s@, pos as int) is None ==> r is None,
        parse_id_tail(s@, pos as int) matches Some((ids, end)) ==> r matches Some((rv, rend))
            && rv@ == ids && rend as int == end && pos < rend <= s.len(),
    decreases s.len() - pos,
{
    if pos < s.len() && s[pos] == (']' as u8) {
        let out: Vec<u128> = Vec::new();
        proof {
            assert(out@ =~= Seq::<u128>::empty());
        }
        Some((out, pos + 1))
    } else if pos < s.len() && s[pos] == (',' as u8) {
        proof {
            lemma_digit_span_le(s@, pos + 1);
        }
        match parse_u128_at(s, pos + 1) {
            Some((v, end)) => {
                match parse_id_tail_exec(s, end) {
                    Some((rest, end2)) => {
                        let mut rest = rest;
                        let mut out: Vec<u128> = Vec::new();
                        out.push(v);
                        out.append(&mut rest);
                        proof {
                            assert(out@ =~= seq![v] + parse_id_tail(s@, end as int)->Some_0.0);
                        }
                        Some((out, end2))
                    },
                    None => None,
                }
            },
            None => None,
        }
    } else {
        None
    }
}

fn parse_id_list_exec(s: &Vec<u8>, pos: usize) -> (r: Option<(Vec<u128>, usize)>)
    requires
        pos <= s.len(),
    ensures
        parse_id_list(s@, pos as int) is None ==> r is None,
        parse_id_list(s@, pos as int) matches Some((ids, end)) ==> r matches Some((rv, rend))
            && rv@ == ids && rend as int == end && rend <= s.len(),
{
    if pos < s.len() && s[pos] == (']' as u8) {
        let out: Vec<u128> = Vec::new();
        proof {
            assert(out@ =~= Seq::<u128>::empty());
        }
        Some((out, pos + 1))
    } else {
        proof {
            lemma_digit_span_le(s@, pos as int);
        }
        match parse_u128_at(s, pos) {
            Some((v, end)) => {
                match parse_id_tail_exec(s, end) {
                    Some((rest, end2)) => {
                        let mut rest = rest;
                        let mut out: Vec<u128> = Vec::new();
                        out.push(v);
                        out.append(&mut rest);
                        proof {
                            assert(out@ =~= seq![v] + parse_id_tail(s@, end as int)->Some_0.0);
                        }
                        Some((out, end2))
                    },
                    None => None,
                }
            },
            None => None,
        }
    }
}

fn parse_i64_tail_exec(s: &Vec<u8>, pos: usize) -> (r: Option<(Vec<i64>, usize)>)
    requires
        pos <= s.len(),
    ensures
        parse_i64_tail(s@, pos as int) is None ==> r is None,
        parse_i64_tail(s@, pos as int) matches Some((xs, end)) ==> r matches Some((rv, rend))
            && rv@.map_values(|x: i64| x as int) == xs && rend as int == end && pos < rend
            <= s.len(),
    decreases s.len() - pos,
{
    if pos < s.len() && s[pos] == (']' as u8) {
        let out: Vec<i64> = Vec::new();
        proof {
            assert(out@.map_values(|x: i64| x as int) =~= Seq::<int>::empty());
        }
        Some((out, pos + 1))
    } else if pos < s.len() && s[pos] == (',' as u8) {
        proof {
            lemma_digit_span_le(s@, pos + 1);
            if pos + 2 <= s.len() {
                lemma_digit_span_le(s@, pos + 2);
            }
        }
        match parse_i64_exec(s, pos + 1) {
            Some((v, end)) => {
                match parse_i64_tail_exec(s, end) {
                    Some((rest, end2)) => {
                        let mut rest = rest;
                        let mut out: Vec<i64> = Vec::new();
                        out.push(v);
                        out.append(&mut rest);
                        proof {
                            assert(out@.map_values(|x: i64| x as int) =~= seq![v as int]
                                + parse_i64_tail(s@, end as int)->Some_0.0);
                        }
                        Some((out, end2))
                    },
                    None => None,
                }
            },
            None => None,
        }
    } else {
        None
    }
}

fn parse_i64_list_exec(s: &Vec<u8>, pos: usize) -> (r: Option<(Vec<i64>, usize)>)
    requires
        pos <= s.len(),
    ensures
        parse_i64_list(s@, pos as int) is None ==> r is None,
        parse_i64_list(s@, pos as int) matches Some((xs, end)) ==> r matches Some((rv, rend))
            && rv@.map_values(|x: i64| x as int) == xs && rend as int == end && rend <= s.len(),
{
    if pos < s.len() && s[pos] == (']' as u8) {
        let out: Vec<i64> = Vec::new();
        proof {
            assert(out@.map_values(|x: i64| x as int) =~= Seq::<int>::empty());
        }
        Some((out, pos + 1))
    } else {
        proof {
            lemma_digit_span_le(s@, pos as int);
            if pos + 1 <= s.len() {
                lemma_digit_span_le(s@, pos + 1);
            }
        }
        match parse_i64_exec(s, pos) {
            Some((v, end)) => {
                match parse_i64_tail_exec(s, end) {
                    Some((rest, end2)) => {
                        let mut rest = rest;
                        let mut out: Vec<i64> = Vec::new();
                        out.push(v);
                        out.append(&mut rest);
                        proof {
                            assert(out@.map_values(|x: i64| x as int) =~= seq![v as int]
                                + parse_i64_tail(s@, end as int)->Some_0.0);
                        }
                        Some((out, end2))
                    },
                    None => None,
                }
            },
            None => None,
        }
    }
}

fn parse_row_tail_exec(s: &Vec<u8>, pos: usize) -> (r: Option<(Vec<Vec<i64>>, usize)>)
    requires
        pos <= s.len(),
    ensures
        parse_row_tail(s@, pos as int) is None ==> r is None,
        parse_row_tail(s@, pos as int) matches Some((rows, end)) ==> r matches Some((rv, rend))
            && rv@.map_values(|rr: Vec<i64>| rr@.map_values(|x: i64| x as int)) == rows
            && rend as int == end && pos < rend <= s.len(),
    decreases s.len() - pos,
{
    if pos < s.len() && s[pos] == (']' as u8) {
        let out: Vec<Vec<i64>> = Vec::new();
        proof {
            assert(out@.map_values(|rr: Vec<i64>| rr@.map_values(|x: i64| x as int))
                =~= Seq::<Seq<int>>::empty());
        }
        Some((out, pos + 1))
    } else if pos < s.len() && s[pos] == (',' as u8) && pos + 1 < s.len() && s[pos + 1] == (
    '[' as u8) {
        proof {
            lemma_parse_i64_list_bounds(s@, pos + 2);
        }
        match parse_i64_list_exec(s, pos + 2) {
            Some((row, end)) => {
                match parse_row_tail_exec(s, end) {
                    Some((rest, end2)) => {
                        let mut rest = rest;
                        let mut out: Vec<Vec<i64>> = Vec::new();
                        let ghost rowv = row@.map_values(|x: i64| x as int);
                        out.push(row);
                        out.append(&mut rest);
                        proof {
                            assert(out@.map_values(|rr: Vec<i64>| rr@.map_values(|x: i64| x as int))
                                =~= seq![rowv] + parse_row_tail(s@, end as int)->Some_0.0);
                        }
                        Some((out, end2))
                    },
                    None => None,
                }
            },
            None => None,
        }
    } else {
        None
    }
}

fn parse_row_list_exec(s: &Vec<u8>, pos: usize) -> (r: Option<(Vec<Vec<i64>>, usize)>)
    requires
        pos <= s.len(),
    ensures
        parse_row_list(s@, pos as int) is None ==> r is None,
        parse_row_list(s@, pos as int) matches Some((rows, end)) ==> r matches Some((rv, rend))
            && rv@.map_values(|rr: Vec<i64>| rr@.map_values(|x: i64| x as int)) == rows
            && rend as int == end && rend <= s.len(),
{
    if pos < s.len() && s[pos] == (']' as u8) {
        let out: Vec<Vec<i64>> = Vec::new();
        proof {
            assert(out@.map_values(|rr: Vec<i64>| rr@.map_values(|x: i64| x as int))
                =~= Seq::<Seq<int>>::empty());
        }
        Some((out, pos + 1))
    } else if pos < s.len() && s[pos] == ('[' as u8) {
        proof {
            lemma_parse_i64_list_bounds(s@, pos + 1);
        }
        match parse_i64_list_exec(s, pos + 1) {
            Some((row, end)) => {
                match parse_row_tail_exec(s, end) {
                    Some((rest, end2)) => {
                        let mut rest = rest;
                        let mut out: Vec<Vec<i64>> = Vec::new();
                        let ghost rowv = row@.map_values(|x: i64| x as int);
                        out.push(row);
                        out.append(&mut rest);
                        proof {
                            assert(out@.map_values(|rr: Vec<i64>| rr@.map_values(|x: i64| x as int))
                                =~= seq![rowv] + parse_row_tail(s@, end as int)->Some_0.0);
                        }
                        Some((out, end2))
                    },
                    None => None,
                }
            },
            None => None,
        }
    } else {
        None
    }
}

fn parse_params_exec(s: &Vec<u8>, pos: usize) -> (r: Option<(CalcParams, usize)>)
    requires
        pos <= s.len(),
    ensures
        parse_params(s@, pos as int) is None ==> r is None,
        parse_params(s@, pos as int) matches Some((p, end)) ==> r matches Some((rp, rend))
            && rp@ == p && rend as int == end && rend <= s.len(),
{
    proof {
        reveal(parse_params);
        reveal_strlit("{\"type\":\"base\",\"user_id\":");
        reveal_strlit("{\"type\":\"mass\",\"user_id\":");
        reveal_strlit(",\"iterations\":");
        reveal_strlit(",\"data\":[");
        reveal_strlit("}");
        assert(vstd::utf8::is_ascii_chars("{\"type\":\"base\",\"user_id\":"@));
        assert(vstd::utf8::is_ascii_chars("{\"type\":\"mass\",\"user_id\":"@));
        assert(vstd::utf8::is_ascii_chars(",\"iterations\":"@));
        assert(vstd::utf8::is_ascii_chars(",\"data\":["@));
        assert(vstd::utf8::is_ascii_chars("}"@));
    }
    let tb = lit_vec("{\"type\":\"base\",\"user_id\":");
    let tm = lit_vec("{\"type\":\"mass\",\"user_id\":");
    let ti = lit_vec(",\"iterations\":");
    let td = lit_vec(",\"data\":[");
    let tc = lit_vec("}");
    match expect_at(s, pos, &tb) {
        Some(p1) => {
            proof {
                lemma_digit_span_le(s@, p1 as int);
                if p1 + 1 <= s.len() {
                    lemma_digit_span_le(s@, p1 + 1);
                }
            }
            match parse_i64_exec(s, p1) {
                Some((uid, p2)) => {
                    match expect_at(s, p2, &ti) {
                        Some(p3) => {
                            proof {
                                lemma_digit_span_le(s@, p3 as int);
                            }
                            match parse_u128_at(s, p3) {
                                Some((it, p4)) => {
                                    if it <= u32::MAX as u128 {
                                        match expect_at(s, p4, &tc) {
                                            Some(p5) => Some(
                                                (
                                                    CalcParams::Base(
                                                        BaseCalcParams {
                                                            user_id: uid,
                                                            iterations: it as u32,
                                                        },
                                                    ),
                                                    p5,
                                                ),
                                            ),
                                            None => None,
                                        }
                                    } else {
                                        None
                                    }
                                },
                                None => None,
                            }
                        },
                        None => None,
                    }
                },
                None => None,
            }
        },
        None => {
            match expect_at(s, pos, &tm) {
                Some(p1) => {
                    proof {
                        lemma_digit_span_le(s@, p1 as int);
                        if p1 + 1 <= s.len() {
                            lemma_digit_span_le(s@, p1 + 1);
                        }
                    }
                    match parse_i64_exec(s, p1) {
                        Some((uid, p2)) => {
                            match expect_at(s, p2, &td) {
                                Some(p3) => {
                                    match parse_i64_list_exec(s, p3) {
                                        Some((raw, p4)) => {
                                            match to_u32_vec(&raw) {
                                                Some(data) => {
                                                    match expect_at(s, p4, &ti) {
                                                        Some(p5) => {
                                                            proof {
                                                                lemma_digit_span_le(
                                                                    s@,
                                                                    p5 as int,
                                                                );
                                                            }
                                                            match parse_u128_at(s, p5) {
                                                                Some((it, p6)) => {
                                                                    if it <= u32::MAX as u128 {
                                                                        match expect_at(
                                                                            s,
                                                                            p6,
                                                                            &tc,
                                                                        ) {
                                                                            Some(p7) => Some(
                                                                                (
                                                                                    CalcParams::Mass(
                                                                                        MassCalcParams {
                                                                                            user_id: uid,
                                                                                            data,
                                                                                            iterations: it as u32,
                                                                                        },
                                                                                    ),
                                                                                    p7,
                                                                                ),
                                                                            ),
                                                                            None => None,
                                                                        }
                                                                    } else {
                                                                        None
                                                                    }
                                                                },
                                                                None => None,
                                                            }
                                                        },
                                                        None => None,
                                                    }
                                                },
                                                None => None,
                                            }
                                        },
                                        None => None,
                                    }
                                },
                                None => None,
                            }
                        },
                        None => None,
                    }
                },
                None => None,
            }
        },
    }
}

/// Converts parsed numbers to `u32` values, failing when one is out of range.
fn to_u32_vec(raw: &Vec<i64>) -> (r: Option<Vec<u32>>)
    ensures
        r matches Some(data) ==> data@.map_values(|x: u32| x as int) == raw@.map_values(
            |x: i64| x as int,
        ) && all_in_u32(raw@.map_values(|x: i64| x as int)),
        r is None ==> !all_in_u32(raw@.map_values(|x: i64| x as int)),
{
    let n = raw.len();
    let mut out: Vec<u32> = Vec::new();
    let mut i: usize = 0;
    while i < n
        invariant
            n == raw.len(),
            i <= n,
            out@.len() == i,
            forall|j: int| 0 <= j < i ==> out@[j] as int == raw@[j] as int,
            forall|j: int| 0 <= j < i ==> in_u32(raw@[j] as int),
        decreases n - i,
    {
        let x = raw[i];
        if x < 0 || x > u32::MAX as i64 {
            proof {
                assert(raw@.map_values(|x: i64| x as int)[i as int] == raw@[i as int] as int);
                assert(!in_u32(raw@.map_values(|x: i64| x as int)[i as int]));
            }
            return None;
        }
        out.push(x as u32);
        i = i + 1;
    }
    proof {
        assert(out@.map_values(|x: u32| x as int) =~= raw@.map_values(|x: i64| x as int));
    }
    Some(out)
}

fn parse_result_exec(s: &Vec<u8>, pos: usize) -> (r: Option<(CalcResult, usize)>)
    requires
        pos <= s.len(),
    ensures
        parse_result(s@, pos as int) is None ==> r is None,
        parse_result(s@, pos as int) matches Some((rr, end)) ==> r matches Some((rv, rend))
            && rv@ == rr && rend as int == end && rend <= s.len(),
{
    proof {
        reveal(parse_result);
        reveal_strlit("{\"series\":[");
        reveal_strlit("{\"table\":[");
        reveal_strlit("{\"error\":\"");
        reveal_strlit("\"}");
        reveal_strlit("}");
        assert(vstd::utf8::is_ascii_chars("{\"series\":["@));
        assert(vstd::utf8::is_ascii_chars("{\"table\":["@));
        assert(vstd::utf8::is_ascii_chars("{\"error\":\""@));
        assert(vstd::utf8::is_ascii_chars("\"}"@));
        assert(vstd::utf8::is_ascii_chars("}"@));
    }
    let ts = lit_vec("{\"series\":[");
    let tt = lit_vec("{\"table\":[");
    let te = lit_vec("{\"error\":\"");
    let tq = lit_vec("\"}");
    let tc = lit_vec("}");
    match expect_at(s, pos, &ts) {
        Some(p1) => {
            match parse_i64_list_exec(s, p1) {
                Some((values, p2)) => {
                    match expect_at(s, p2, &tc) {
                        Some(p3) => Some((CalcResult::Series(values), p3)),
                        None => None,
                    }
                },
                None => None,
            }
        },
        None => {
            match expect_at(s, pos, &tt) {
                Some(p1) => {
                    match parse_row_list_exec(s, p1) {
                        Some((rows, p2)) => {
                            match expect_at(s, p2, &tc) {
                                Some(p3) => Some((CalcResult::Table(rows), p3)),
                                None => None,
                            }
                        },
                        None => None,
                    }
                },
                None => {
                    match expect_at(s, pos, &te) {
                        Some(p1) => {
                            proof {
                                lemma_text_span_le(s@, p1 as int);
                            }
                            let (message, p2) = parse_text_exec(s, p1);
                            match expect_at(s, p2, &tq) {
                                Some(p3) => Some((CalcResult::Failure(message), p3)),
                                None => None,
                            }
                        },
                        None => None,
                    }
                },
            }
        },
    }
}

fn parse_opt_params_exec(s: &Vec<u8>, pos: usize) -> (r: Option<(Option<CalcParams>, usize)>)
    requires
        pos <= s.len(),
    ensures
        parse_opt_params(s@, pos as int) is None ==> r is None,
        parse_opt_params(s@, pos as int) matches Some((o, end)) ==> r matches Some((ro, rend))
            && rend as int == end && rend <= s.len() && (match (ro, o) {
            (None, None) => true,
            (Some(a), Some(b)) => a@ == b,
            _ => false,
        }),
{
    proof {
        reveal_strlit("null");
        assert(vstd::utf8::is_ascii_chars("null"@));
    }
    if pos < s.len() && s[pos] == ('n' as u8) {
        let tag = lit_vec("null");
        match expect_at(s, pos, &tag) {
            Some(end) => Some((None, end)),
            None => None,
        }
    } else {
        match parse_params_exec(s, pos) {
            Some((p, end)) => Some((Some(p), end)),
            None => None,
        }
    }
}

fn parse_opt_result_exec(s: &Vec<u8>, pos: usize) -> (r: Option<(Option<CalcResult>, usize)>)
    requires
        pos <= s.len(),
    ensures
        parse_opt_result(s@, pos as int) is None ==> r is None,
        parse_opt_result(s@, pos as int) matches Some((o, end)) ==> r matches Some((ro, rend))
            && rend as int == end && rend <= s.len() && (match (ro, o) {
            (None, None) => true,
            (Some(a), Some(b)) => a@ == b,
            _ => false,
        }),
{
    proof {
        reveal_strlit("null");
        assert(vstd::utf8::is_ascii_chars("null"@));
    }
    if pos < s.len() && s[pos] == ('n' as u8) {
        let tag = lit_vec("null");
        match expect_at(s, pos, &tag) {
            Some(end) => Some((None, end)),
            None => None,
        }
    } else {
        match parse_result_exec(s, pos) {
            Some((r0, end)) => Some((Some(r0), end)),
            None => None,
        }
    }
}

fn decode_info_tail(
    s: &Vec<u8>,
    pos: usize,
    calc_id: u128,
    user_id: i64,
    run_dt: i64,
    end_dt: Option<i64>,
) -> (r: Option<CalcInfo>)
    requires
        pos <= s.len(),
    ensures
        ({
            let sp = parse_info_tail(
                s@,
                pos as int,
                calc_id,
                user_id as int,
                run_dt as int,
                match end_dt {
                    Some(t) => Some(t as int),
                    None => None,
                },
            );
            &&& (sp is None ==> r is None)
            &&& (sp matches Some(v) ==> r matches Some(info) && info@ == v)
        }),
{
    proof {
        reveal(parse_info_tail);
        reveal_strlit(",\"params\":");
        reveal_strlit(",\"progress\":");
        reveal_strlit(",\"result\":");
        reveal_strlit("}");
        assert(vstd::utf8::is_ascii_chars(",\"params\":"@));
        assert(vstd::utf8::is_ascii_chars(",\"progress\":"@));
        assert(vstd::utf8::is_ascii_chars(",\"result\":"@));
        assert(vstd::utf8::is_ascii_chars("}"@));
    }
    let t5 = lit_vec(",\"params\":");
    let t6 = lit_vec(",\"progress\":");
    let t7 = lit_vec(",\"result\":");
    let t8 = lit_vec("}");
    let p9 = match expect_at(s, pos, &t5) {
        Some(p) => p,
        None => {
            return None;
        },
    };
    let (params, p10) = match parse_opt_params_exec(s, p9) {
        Some(x) => x,
        None => {
            return None;
        },
    };
    let p11 = match expect_at(s, p10, &t6) {
        Some(p) => p,
        None => {
            return None;
        },
    };
    proof {
        lemma_digit_span_le(s@, p11 as int);
    }
    let (progress, p12) = match parse_u128_at(s, p11) {
        Some(x) => x,
        None => {
            return None;
        },
    };
    if progress > u32::MAX as u128 {
        return None;
    }
    let p13 = match expect_at(s, p12, &t7) {
        Some(p) => p,
        None => {
            return None;
        },
    };
    let (result, p14) = match parse_opt_result_exec(s, p13) {
        Some(x) => x,
        None => {
            return None;
        },
    };
    let p15 = match expect_at(s, p14, &t8) {
        Some(p) => p,
        None => {
            return None;
        },
    };
    if p15 != s.len() {
        return None;
    }
    Some(
        CalcInfo {
            calc_id,
            user_id,
            run_dt,
            end_dt,
            params,
            progress: progress as u32,
            result,
        },
    )
}

/// Decodes a stored byte string into a job record.
#[verifier::rlimit(100)]
pub fn decode_calc_info(s: &Vec<u8>) -> (r: Option<CalcInfo>)
    ensures
        parse_info(s@) is None ==> r is None,
        parse_info(s@) matches Some(v) ==> r matches Some(info) && info@ == v,
{
    proof {
        reveal(parse_info);
        reveal_strlit("{\"calc_id\":");
        reveal_strlit(",\"user_id\":");
        reveal_strlit(",\"run_dt\":");
        reveal_strlit(",\"end_dt\":");
        assert(vstd::utf8::is_ascii_chars("{\"calc_id\":"@));
        assert(vstd::utf8::is_ascii_chars(",\"user_id\":"@));
        assert(vstd::utf8::is_ascii_chars(",\"run_dt\":"@));
        assert(vstd::utf8::is_ascii_chars(",\"end_dt\":"@));
    }
    let t1 = lit_vec("{\"calc_id\":");
    let t2 = lit_vec(",\"user_id\":");
    let t3 = lit_vec(",\"run_dt\":");
    let t4 = lit_vec(",\"end_dt\":");
    let p1 = match expect_at(s, 0, &t1) {
        Some(p) => p,
        None => {
            return None;
        },
    };
    proof {
        lemma_digit_span_le(s@, p1 as int);
    }
    let (calc_id, p2) = match parse_u128_at(s, p1) {
        Some(x) => x,
        None => {
            return None;
        },
    };
    let p3 = match expect_at(s, p2, &t2) {
        Some(p) => p,
        None => {
            return None;
        },
    };
    proof {
        lemma_digit_span_le(s@, p3 as int);
        if p3 + 1 <= s.len() {
            lemma_digit_span_le(s@, p3 + 1);
        }
    }
    let (user_id, p4) = match parse_i64_exec(s, p3) {
        Some(x) => x,
        None => {
            return None;
        },
    };
    let p5 = match expect_at(s, p4, &t3) {
        Some(p) => p,
        None => {
            return None;
        },
    };
    proof {
        lemma_digit_span_le(s@, p5 as int);
        if p5 + 1 <= s.len() {
            lemma_digit_span_le(s@, p5 + 1);
        }
    }
    let (run_dt, p6) = match parse_i64_exec(s, p5) {
        Some(x) => x,
        None => {
            return None;
        },
    };
    let p7 = match expect_at(s, p6, &t4) {
        Some(p) => p,
        None => {
            return None;
        },
    };
    let (end_dt, p8) = match parse_opt_i64_exec(s, p7) {
        Some(x) => x,
        None => {
            return None;
        },
    };
    decode_info_tail(s, p8, calc_id, user_id, run_dt, end_dt)
}

/// Decodes a stored byte string into a user index record.
pub fn decode_user_calcs(s: &Vec<u8>) -> (r: Option<UserCalcs>)
    ensures
        parse_user(s@) is None ==> r is None,
        parse_user(s@) matches Some(v) ==> r matches Some(u) && u@ == v,
{
    proof {
        reveal_strlit("{\"user_id\":");
        reveal_strlit(",\"calcs\":[");
        reveal_strlit("}");
        assert(vstd::utf8::is_ascii_chars("{\"user_id\":"@));
        assert(vstd::utf8::is_ascii_chars(",\"calcs\":["@));
        assert(vstd::utf8::is_ascii_chars("}"@));
    }
    proof {
        reveal(parse_user);
    }
    let t1 = lit_vec("{\"user_id\":");
    let t2 = lit_vec(",\"calcs\":[");
    let t3 = lit_vec("}");
    let p1 = match expect_at(s, 0, &t1) {
        Some(p) => p,
        None => {
            return None;
        },
    };
    proof {
        lemma_digit_span_le(s@, p1 as int);
        if p1 + 1 <= s.len() {
            lemma_digit_span_le(s@, p1 + 1);
        }
    }
    let (user_id, p2) = match parse_i64_exec(s, p1) {
        Some(x) => x,
        None => {
            return None;
        },
    };
    let p3 = match expect_at(s, p2, &t2) {
        Some(p) => p,
        None => {
            return None;
        },
    };
    let (calcs, p4) = match parse_id_list_exec(s, p3) {
        Some(x) => x,
        None => {
            return None;
        },
    };
    let p5 = match expect_at(s, p4, &t3) {
        Some(p) => p,
        None => {
            return None;
        },
    };
    if p5 != s.len() {
        return None;
    }
    Some(UserCalcs { user_id, calcs })
}

// --- the parser inverts the encoder ----------------------------------------

proof fn lemma_rt_id_tail(s: Seq<u8>, pos: int, ids: Seq<u128>)
    requires
        0 <= pos,
        pos + enc_id_tail(ids).len() <= s.len(),
        s.subrange(pos, pos + enc_id_tail(ids).len()) == enc_id_tail(ids),
    ensures
        parse_id_tail(s, pos) == Some((ids, pos + enc_id_tail(ids).len())),
    decreases ids.len(),
{
    let e = enc_id_tail(ids);
    if ids.len() == 0 {
        assert(s.subrange(pos, pos + 1)[0] == s[pos]);
        assert(s[pos] == (']' as u8));
        assert(ids =~= Seq::<u128>::empty());
    } else {
        let dd = dec_digits(ids[0] as nat);
        lemma_dec_digits(ids[0] as nat);
        let tail = enc_id_tail(ids.drop_first());
        assert(e == seq![(',' as u8)] + (dd + tail));
        lemma_split_subrange(s, pos, seq![(',' as u8)], dd + tail);
        assert(s.subrange(pos, pos + 1)[0] == s[pos]);
        assert(s[pos] == (',' as u8));
        lemma_split_subrange(s, pos + 1, dd, tail);
        // the byte after the digits opens the tail: a comma or a bracket
        assert(tail.len() >= 1);
        assert(s.subrange(pos + 1 + dd.len(), pos + 1 + dd.len() + tail.len())[0] == s[pos + 1
            + dd.len()]);
        assert(tail[0] == (',' as u8) || tail[0] == (']' as u8));
        assert(!is_digit(s[pos + 1 + dd.len()]));
        lemma_parse_dec_digits(s, pos + 1, ids[0] as nat);
        lemma_rt_id_tail(s, pos + 1 + dd.len(), ids.drop_first());
        assert(ids =~= seq![ids[0]] + ids.drop_first());
    }
}

proof fn lemma_rt_id_list(s: Seq<u8>, pos: int, ids: Seq<u128>)
    requires
        0 <= pos,
        pos + enc_id_list(ids).len() <= s.len(),
        s.subrange(pos, pos + enc_id_list(ids).len()) == enc_id_list(ids),
    ensures
        parse_id_list(s, pos) == Some((ids, pos + enc_id_list(ids).len())),
{
    let e = enc_id_list(ids);
    if ids.len() == 0 {
        assert(s.subrange(pos, pos + 1)[0] == s[pos]);
        assert(s[pos] == (']' as u8));
        assert(ids =~= Seq::<u128>::empty());
    } else {
        let dd = dec_digits(ids[0] as nat);
        lemma_dec_digits(ids[0] as nat);
        let tail = enc_id_tail(ids.drop_first());
        assert(e == dd + tail);
        lemma_split_subrange(s, pos, dd, tail);
        assert(tail.len() >= 1);
        assert(s.subrange(pos + dd.len(), pos + dd.len() + tail.len())[0] == s[pos + dd.len()]);
        assert(tail[0] == (',' as u8) || tail[0] == (']' as u8));
        assert(!is_digit(s[pos + dd.len()]));
        lemma_parse_dec_digits(s, pos, ids[0] as nat);
        assert(s.subrange(pos, pos + dd.len())[0] == s[pos]);
        assert(s[pos] != (']' as u8));
        lemma_rt_id_tail(s, pos + dd.len(), ids.drop_first());
        assert(ids =~= seq![ids[0]] + ids.drop_first());
    }
}

proof fn lemma_rt_i64_tail(s: Seq<u8>, pos: int, xs: Seq<int>)
    requires
        0 <= pos,
        pos + enc_i64_tail(xs).len() <= s.len(),
        s.subrange(pos, pos + enc_i64_tail(xs).len()) == enc_i64_tail(xs),
        forall|i: int| 0 <= i < xs.len() ==> in_i64(#[trigger] xs[i]),
    ensures
        parse_i64_tail(s, pos) == Some((xs, pos + enc_i64_tail(xs).len())),
    decreases xs.len(),
{
    let e = enc_i64_tail(xs);
    if xs.len() == 0 {
        assert(s.subrange(pos, pos + 1)[0] == s[pos]);
        assert(s[pos] == (']' as u8));
        assert(xs =~= Seq::<int>::empty());
    } else {
        let dd = enc_i64(xs[0]);
        if xs[0] >= 0 {
            lemma_dec_digits(xs[0] as nat);
        } else {
            lemma_dec_digits((-xs[0]) as nat);
        }
        let tail = enc_i64_tail(xs.drop_first());
        assert(e == seq![(',' as u8)] + (dd + tail));
        lemma_split_subrange(s, pos, seq![(',' as u8)], dd + tail);
        assert(s.subrange(pos, pos + 1)[0] == s[pos]);
        assert(s[pos] == (',' as u8));
        lemma_split_subrange(s, pos + 1, dd, tail);
        assert(tail.len() >= 1);
        assert(s.subrange(pos + 1 + dd.len(), pos + 1 + dd.len() + tail.len())[0] == s[pos + 1
            + dd.len()]);
        assert(tail[0] == (',' as u8) || tail[0] == (']' as u8));
        assert(!is_digit(s[pos + 1 + dd.len()]));
        lemma_parse_i64_enc(s, pos + 1, xs[0]);
        lemma_rt_i64_tail(s, pos + 1 + dd.len(), xs.drop_first());
        assert(xs =~= seq![xs[0]] + xs.drop_first());
    }
}

proof fn lemma_rt_i64_list(s: Seq<u8>, pos: int, xs: Seq<int>)
    requires
        0 <= pos,
        pos + enc_i64_list(xs).len() <= s.len(),
        s.subrange(pos, pos + enc_i64_list(xs).len()) == enc_i64_list(xs),
        forall|i: int| 0 <= i < xs.len() ==> in_i64(#[trigger] xs[i]),
    ensures
        parse_i64_list(s, pos) == Some((xs, pos + enc_i64_list(xs).len())),
{
    let e = enc_i64_list(xs);
    if xs.len() == 0 {
        assert(s.subrange(pos, pos + 1)[0] == s[pos]);
        assert(s[pos] == (']' as u8));
        assert(xs =~= Seq::<int>::empty());
    } else {
        let dd = enc_i64(xs[0]);
        if xs[0] >= 0 {
            lemma_dec_digits(xs[0] as nat);
        } else {
            lemma_dec_digits((-xs[0]) as nat);
        }
        let tail = enc_i64_tail(xs.drop_first());
        assert(e == dd + tail);
        lemma_split_subrange(s, pos, dd, tail);
        assert(tail.len() >= 1);
        assert(s.subrange(pos + dd.len(), pos + dd.len() + tail.len())[0] == s[pos + dd.len()]);
        assert(tail[0] == (',' as u8) || tail[0] == (']' as u8));
        assert(!is_digit(s[pos + dd.len()]));
        lemma_parse_i64_enc(s, pos, xs[0]);
        assert(s.subrange(pos, pos + dd.len())[0] == s[pos]);
        assert(s[pos] != (']' as u8));
        lemma_rt_i64_tail(s, pos + dd.len(), xs.drop_first());
        assert(xs =~= seq![xs[0]] + xs.drop_first());
    }
}

proof fn lemma_rt_row_tail(s: Seq<u8>, pos: int, rows: Seq<Seq<int>>)
    requires
        0 <= pos,
        pos + enc_row_tail(rows).len() <= s.len(),
        s.subrange(pos, pos + enc_row_tail(rows).len()) == enc_row_tail(rows),
        forall|i: int, j: int|
            0 <= i < rows.len() && 0 <= j < rows[i].len() ==> in_i64(#[trigger] rows[i][j]),
    ensures
        parse_row_tail(s, pos) == Some((rows, pos + enc_row_tail(rows).len())),
    decreases rows.len(),
{
    let e = enc_row_tail(rows);
    if rows.len() == 0 {
        assert(s.subrange(pos, pos + 1)[0] == s[pos]);
        assert(s[pos] == (']' as u8));
        assert(rows =~= Seq::<Seq<int>>::empty());
    } else {
        let row = enc_i64_list(rows[0]);
        let tail = enc_row_tail(rows.drop_first());
        assert(e == seq![(',' as u8), ('[' as u8)] + (row + tail));
        lemma_split_subrange(s, pos, seq![(',' as u8), ('[' as u8)], row + tail);
        assert(s.subrange(pos, pos + 2)[0] == s[pos]);
        assert(s.subrange(pos, pos + 2)[1] == s[pos + 1]);
        assert(s[pos] == (',' as u8));
        assert(s[pos + 1] == ('[' as u8));
        lemma_split_subrange(s, pos + 2, row, tail);
        assert(forall|j: int| 0 <= j < rows[0].len() ==> in_i64(#[trigger] rows[0][j]));
        lemma_rt_i64_list(s, pos + 2, rows[0]);
        assert(forall|i: int, j: int|
            0 <= i < rows.drop_first().len() && 0 <= j < rows.drop_first()[i].len() ==> in_i64(
                #[trigger] rows.drop_first()[i][j],
            ));
        lemma_rt_row_tail(s, pos + 2 + row.len(), rows.drop_first());
        assert(rows =~= seq![rows[0]] + rows.drop_first());
    }
}

proof fn lemma_rt_row_list(s: Seq<u8>, pos: int, rows: Seq<Seq<int>>)
    requires
        0 <= pos,
        pos + enc_row_list(rows).len() <= s.len(),
        s.subrange(pos, pos + enc_row_list(rows).len()) == enc_row_list(rows),
        forall|i: int, j: int|
            0 <= i < rows.len() && 0 <= j < rows[i].len() ==> in_i64(#[trigger] rows[i][j]),
    ensures
        parse_row_list(s, pos) == Some((rows, pos + enc_row_list(rows).len())),
{
    let e = enc_row_list(rows);
    if rows.len() == 0 {
        assert(s.subrange(pos, pos + 1)[0] == s[pos]);
        assert(s[pos] == (']' as u8));
        assert(rows =~= Seq::<Seq<int>>::empty());
    } else {
        let row = enc_i64_list(rows[0]);
        let tail = enc_row_tail(rows.drop_first());
        assert(e == seq![('[' as u8)] + (row + tail));
        lemma_split_subrange(s, pos, seq![('[' as u8)], row + tail);
        assert(s.subrange(pos, pos + 1)[0] == s[pos]);
        assert(s[pos] == ('[' as u8));
        lemma_split_subrange(s, pos + 1, row, tail);
        assert(forall|j: int| 0 <= j < rows[0].len() ==> in_i64(#[trigger] rows[0][j]));
        lemma_rt_i64_list(s, pos + 1, rows[0]);
        assert(forall|i: int, j: int|
            0 <= i < rows.drop_first().len() && 0 <= j < rows.drop_first()[i].len() ==> in_i64(
                #[trigger] rows.drop_first()[i][j],
            ));
        lemma_rt_row_tail(s, pos + 1 + row.len(), rows.drop_first());
        assert(rows =~= seq![rows[0]] + rows.drop_first());
    }
}

proof fn lemma_rt_opt_i64(s: Seq<u8>, pos: int, o: Option<int>)
    requires
        0 <= pos,
        pos + enc_opt_i64(o).len() <= s.len(),
        s.subrange(pos, pos + enc_opt_i64(o).len()) == enc_opt_i64(o),
        o matches Some(t) ==> in_i64(t),
        pos + enc_opt_i64(o).len() == s.len() || !is_digit(s[pos + enc_opt_i64(o).len()]),
    ensures
        parse_opt_i64(s, pos) == Some((o, pos + enc_opt_i64(o).len())),
{
    reveal_strlit("null");
    match o {
        None => {
            let t = lit("null"@);
            assert(s.subrange(pos, pos + t.len())[0] == s[pos]);
            assert(s[pos] == ('n' as u8));
            assert(expect(s, pos, t) == Some(pos + t.len()));
        },
        Some(v) => {
            let dd = enc_i64(v);
            if v >= 0 {
                lemma_dec_digits(v as nat);
            } else {
                lemma_dec_digits((-v) as nat);
            }
            assert(s.subrange(pos, pos + dd.len())[0] == s[pos]);
            assert(s[pos] != ('n' as u8));
            lemma_parse_i64_enc(s, pos, v);
        },
    }
}

proof fn lemma_rt_params(s: Seq<u8>, pos: int, p: CalcParamsV)
    requires
        0 <= pos,
        pos + enc_params(p).len() <= s.len(),
        s.subrange(pos, pos + enc_params(p).len()) == enc_params(p),
        wf_params(p),
    ensures
        parse_params(s, pos) == Some((p, pos + enc_params(p).len())),
{
    reveal(parse_params);
    reveal_strlit("{\"type\":\"base\",\"user_id\":");
    reveal_strlit("{\"type\":\"mass\",\"user_id\":");
    reveal_strlit(",\"iterations\":");
    reveal_strlit(",\"data\":[");
    reveal_strlit("}");
    let tb = lit("{\"type\":\"base\",\"user_id\":"@);
    let tm = lit("{\"type\":\"mass\",\"user_id\":"@);
    let ti = lit(",\"iterations\":"@);
    let tc = lit("}"@);
    assert(tb.len() == tm.len());
    assert(tb[9] == ('b' as u8));
    assert(tm[9] == ('m' as u8));
    match p {
        CalcParamsV::Base { user_id, iterations } => {
            let du = enc_i64(user_id);
            let di = dec_digits(iterations as nat);
            lemma_dec_digits(iterations as nat);
            if user_id >= 0 {
                lemma_dec_digits(user_id as nat);
            } else {
                lemma_dec_digits((-user_id) as nat);
            }
            let r1 = du + (ti + (di + tc));
            assert(enc_params(p) == tb + r1);
            lemma_split_subrange(s, pos, tb, r1);
            let p1 = pos + tb.len();
            lemma_split_subrange(s, p1, du, ti + (di + tc));
            let p2 = p1 + du.len();
            assert(s.subrange(p1 + du.len(), p1 + du.len() + (ti + (di + tc)).len())[0] == s[p2]);
            assert(ti[0] == (',' as u8));
            assert(!is_digit(s[p2]));
            lemma_parse_i64_enc(s, p1, user_id);
            lemma_split_subrange(s, p2, ti, di + tc);
            let p3 = p2 + ti.len();
            lemma_split_subrange(s, p3, di, tc);
            let p4 = p3 + di.len();
            assert(s.subrange(p3 + di.len(), p3 + di.len() + tc.len())[0] == s[p4]);
            assert(tc[0] == ('}' as u8));
            assert(!is_digit(s[p4]));
            lemma_parse_dec_digits(s, p3, iterations as nat);
            assert(expect(s, pos, tb) == Some(p1));
            assert(expect(s, p2, ti) == Some(p3));
            assert(expect(s, p4, tc) == Some(p4 + 1));
        },
        CalcParamsV::Mass { user_id, data, iterations } => {
            let td = lit(",\"data\":["@);
            let du = enc_i64(user_id);
            let dl = enc_i64_list(data);
            let di = dec_digits(iterations as nat);
            lemma_dec_digits(iterations as nat);
            if user_id >= 0 {
                lemma_dec_digits(user_id as nat);
            } else {
                lemma_dec_digits((-user_id) as nat);
            }
            let r1 = du + (td + (dl + (ti + (di + tc))));
            assert(enc_params(p) == tm + r1);
            lemma_split_subrange(s, pos, tm, r1);
            let p1 = pos + tm.len();
            // the base header cannot match: the tags differ in the type name
            assert(s.subrange(pos, pos + tm.len())[9] == s[pos + 9]);
            assert(s[pos + 9] == ('m' as u8));
            if expect(s, pos, tb) is Some {
                assert(s.subrange(pos, pos + tb.len()) == tb);
                assert(s.subrange(pos, pos + tb.len())[9] == s[pos + 9]);
                assert(false);
            }
            lemma_split_subrange(s, p1, du, td + (dl + (ti + (di + tc))));
            let p2 = p1 + du.len();
            assert(s.subrange(p2, p2 + (td + (dl + (ti + (di + tc)))).len())[0] == s[p2]);
            assert(td[0] == (',' as u8));
            assert(!is_digit(s[p2]));
            lemma_parse_i64_enc(s, p1, user_id);
            lemma_split_subrange(s, p2, td, dl + (ti + (di + tc)));
            let p3 = p2 + td.len();
            lemma_split_subrange(s, p3, dl, ti + (di + tc));
            let p4 = p3 + dl.len();
            assert(forall|i: int| 0 <= i < data.len() ==> in_i64(#[trigger] data[i]));
            lemma_rt_i64_list(s, p3, data);
            lemma_split_subrange(s, p4, ti, di + tc);
            let p5 = p4 + ti.len();
            lemma_split_subrange(s, p5, di, tc);
            let p6 = p5 + di.len();
            assert(s.subrange(p5 + di.len(), p5 + di.len() + tc.len())[0] == s[p6]);
            assert(tc[0] == ('}' as u8));
            assert(!is_digit(s[p6]));
            lemma_parse_dec_digits(s, p5, iterations as nat);
            assert(expect(s, pos, tm) == Some(p1));
            assert(expect(s, p2, td) == Some(p3));
            assert(expect(s, p4, ti) == Some(p5));
            assert(expect(s, p6, tc) == Some(p6 + 1));
        },
    }
}

proof fn lemma_rt_result(s: Seq<u8>, pos: int, r: CalcResultV)
    requires
        0 <= pos,
        pos + enc_result(r).len() <= s.len(),
        s.subrange(pos, pos + enc_result(r).len()) == enc_result(r),
        wf_result(r),
    ensures
        parse_result(s, pos) == Some((r, pos + enc_result(r).len())),
{
    reveal(parse_result);
    reveal_strlit("{\"series\":[");
    reveal_strlit("{\"table\":[");
    reveal_strlit("{\"error\":\"");
    reveal_strlit("\"}");
    reveal_strlit("}");
    let ts = lit("{\"series\":["@);
    let tt = lit("{\"table\":["@);
    let te = lit("{\"error\":\""@);
    let tq = lit("\"}"@);
    let tc = lit("}"@);
    assert(ts[2] == ('s' as u8));
    assert(tt[2] == ('t' as u8));
    assert(te[2] == ('e' as u8));
    match r {
        CalcResultV::Series { values } => {
            let dl = enc_i64_list(values);
            let r1 = dl + tc;
            assert(enc_result(r) == ts + r1);
            lemma_split_subrange(s, pos, ts, r1);
            let p1 = pos + ts.len();
            lemma_split_subrange(s, p1, dl, tc);
            assert(forall|i: int| 0 <= i < values.len() ==> in_i64(#[trigger] values[i]));
            lemma_rt_i64_list(s, p1, values);
            assert(expect(s, pos, ts) == Some(p1));
            assert(expect(s, p1 + dl.len(), tc) == Some(p1 + dl.len() + 1));
        },
        CalcResultV::Table { rows } => {
            let dl = enc_row_list(rows);
            let r1 = dl + tc;
            assert(enc_result(r) == tt + r1);
            lemma_split_subrange(s, pos, tt, r1);
            let p1 = pos + tt.len();
            assert(s.subrange(pos, pos + tt.len())[2] == s[pos + 2]);
            assert(s[pos + 2] == ('t' as u8));
            if expect(s, pos, ts) is Some {
                assert(s.subrange(pos, pos + ts.len()) == ts);
                assert(s.subrange(pos, pos + ts.len())[2] == s[pos + 2]);
                assert(false);
            }
            lemma_split_subrange(s, p1, dl, tc);
            lemma_rt_row_list(s, p1, rows);
            assert(expect(s, pos, tt) == Some(p1));
            assert(expect(s, p1 + dl.len(), tc) == Some(p1 + dl.len() + 1));
        },
        CalcResultV::Failure { message } => {
            let r1 = message + tq;
            assert(enc_result(r) == te + r1);
            lemma_split_subrange(s, pos, te, r1);
            let p1 = pos + te.len();
            assert(s.subrange(pos, pos + te.len())[2] == s[pos + 2]);
            assert(s[pos + 2] == ('e' as u8));
            if expect(s, pos, ts) is Some {
                assert(s.subrange(pos, pos + ts.len()) == ts);
                assert(s.subrange(pos, pos + ts.len())[2] == s[pos + 2]);
                assert(false);
            }
            if expect(s, pos, tt) is Some {
                assert(s.subrange(pos, pos + tt.len()) == tt);
                assert(s.subrange(pos, pos + tt.len())[2] == s[pos + 2]);
                assert(false);
            }
            lemma_split_subrange(s, p1, message, tq);
            let p2 = p1 + message.len();
            assert(s.subrange(p2, p2 + tq.len())[0] == s[p2]);
            assert(tq[0] == ('"' as u8));
            assert(!is_text_byte(s[p2]));
            lemma_text_span_exact(s, p1, message);
            assert(parse_text_at(s, p1).0 =~= message);
            assert(expect(s, pos, te) == Some(p1));
            assert(expect(s, p2, tq) == Some(p2 + tq.len()));
        },
    }
}

proof fn lemma_rt_opt_params(s: Seq<u8>, pos: int, o: Option<CalcParamsV>)
    requires
        0 <= pos,
        pos + enc_opt_params(o).len() <= s.len(),
        s.subrange(pos, pos + enc_opt_params(o).len()) == enc_opt_params(o),
        o matches Some(p) ==> wf_params(p),
    ensures
        parse_opt_params(s, pos) == Some((o, pos + enc_opt_params(o).len())),
{
    reveal_strlit("null");
    match o {
        None => {
            let t = lit("null"@);
            assert(s.subrange(pos, pos + t.len())[0] == s[pos]);
            assert(s[pos] == ('n' as u8));
            assert(expect(s, pos, t) == Some(pos + t.len()));
        },
        Some(p) => {
            reveal_strlit("{\"type\":\"base\",\"user_id\":");
            reveal_strlit("{\"type\":\"mass\",\"user_id\":");
            assert(enc_params(p)[0] == ('{' as u8));
            assert(s.subrange(pos, pos + enc_params(p).len())[0] == s[pos]);
            assert(s[pos] != ('n' as u8));
            lemma_rt_params(s, pos, p);
        },
    }
}

proof fn lemma_rt_opt_result(s: Seq<u8>, pos: int, o: Option<CalcResultV>)
    requires
        0 <= pos,
        pos + enc_opt_result(o).len() <= s.len(),
        s.subrange(pos, pos + enc_opt_result(o).len()) == enc_opt_result(o),
        o matches Some(r) ==> wf_result(r),
    ensures
        parse_opt_result(s, pos) == Some((o, pos + enc_opt_result(o).len())),
{
    reveal_strlit("null");
    match o {
        None => {
            let t = lit("null"@);
            assert(s.subrange(pos, pos + t.len())[0] == s[pos]);
            assert(s[pos] == ('n' as u8));
            assert(expect(s, pos, t) == Some(pos + t.len()));
        },
        Some(r) => {
            reveal_strlit("{\"series\":[");
            reveal_strlit("{\"table\":[");
            reveal_strlit("{\"error\":\"");
            assert(enc_result(r)[0] == ('{' as u8));
            assert(s.subrange(pos, pos + enc_result(r).len())[0] == s[pos]);
            assert(s[pos] != ('n' as u8));
            lemma_rt_result(s, pos, r);
        },
    }
}

#[verifier::rlimit(100)]
proof fn lemma_rt_info_half(s: Seq<u8>, pos: int, v: CalcInfoV)
    requires
        0 <= pos,
        encodable_info(v),
        pos + enc_info_tail(v).len() == s.len(),
        s.subrange(pos, s.len() as int) == enc_info_tail(v),
    ensures
        parse_info_tail(s, pos, v.calc_id, v.user_id, v.run_dt, v.end_dt) == Some(v),
{
    reveal(parse_info_tail);
    reveal_strlit(",\"params\":");
    reveal_strlit(",\"progress\":");
    reveal_strlit(",\"result\":");
    reveal_strlit("}");
    let t5 = lit(",\"params\":"@);
    let d5 = enc_opt_params(v.params);
    let t6 = lit(",\"progress\":"@);
    let d6 = dec_digits(v.progress as nat);
    let t7 = lit(",\"result\":"@);
    let d7 = enc_opt_result(v.result);
    let t8 = lit("}"@);
    lemma_dec_digits(v.progress as nat);
    let r10 = d5 + (t6 + (d6 + (t7 + (d7 + t8))));
    assert(s.subrange(pos, pos + (t5 + r10).len()) == t5 + r10);
    lemma_split_subrange(s, pos, t5, r10);
    let p9 = pos + t5.len();
    let r11 = t6 + (d6 + (t7 + (d7 + t8)));
    lemma_split_subrange(s, p9, d5, r11);
    let p10 = p9 + d5.len();
    lemma_rt_opt_params(s, p9, v.params);
    let r12 = d6 + (t7 + (d7 + t8));
    lemma_split_subrange(s, p10, t6, r12);
    let p11 = p10 + t6.len();
    let r13 = t7 + (d7 + t8);
    lemma_split_subrange(s, p11, d6, r13);
    let p12 = p11 + d6.len();
    assert(s.subrange(p12, p12 + r13.len())[0] == s[p12]);
    assert(t7[0] == (',' as u8));
    assert(!is_digit(s[p12]));
    lemma_parse_dec_digits(s, p11, v.progress as nat);
    let r14 = d7 + t8;
    lemma_split_subrange(s, p12, t7, r14);
    let p13 = p12 + t7.len();
    lemma_split_subrange(s, p13, d7, t8);
    let p14 = p13 + d7.len();
    lemma_rt_opt_result(s, p13, v.result);
    assert(expect(s, pos, t5) == Some(p9));
    assert(expect(s, p10, t6) == Some(p11));
    assert(expect(s, p12, t7) == Some(p13));
    assert(expect(s, p14, t8) == Some(p14 + 1));
    assert(p14 + 1 == s.len());
}

proof fn lemma_rt_info_front_a(v: CalcInfoV)
    requires
        encodable_info(v),
    ensures
        ({
            let s = enc_info(v);
            let t1 = lit("{\"calc_id\":"@);
            let d1 = dec_digits(v.calc_id as nat);
            let p1 = t1.len() as int;
            let p2 = p1 + d1.len();
            let r3 = lit(",\"user_id\":"@) + (enc_i64(v.user_id) + (lit(",\"run_dt\":"@) + (
            enc_i64(v.run_dt) + (lit(",\"end_dt\":"@) + (enc_opt_i64(v.end_dt) + enc_info_tail(
                v,
            ))))));
            &&& expect(s, 0, t1) == Some(p1)
            &&& parse_dec_at(s, p1) == Some((v.calc_id as nat, p2))
            &&& p2 + r3.len() == s.len()
            &&& s.subrange(p2, s.len() as int) == r3
        }),
{
    reveal_strlit("{\"calc_id\":");
    reveal_strlit(",\"user_id\":");
    let s = enc_info(v);
    let t1 = lit("{\"calc_id\":"@);
    let d1 = dec_digits(v.calc_id as nat);
    let t2 = lit(",\"user_id\":"@);
    lemma_dec_digits(v.calc_id as nat);
    let r3 = t2 + (enc_i64(v.user_id) + (lit(",\"run_dt\":"@) + (enc_i64(v.run_dt) + (lit(
        ",\"end_dt\":"@,
    ) + (enc_opt_i64(v.end_dt) + enc_info_tail(v))))));
    assert(s.subrange(0, s.len() as int) =~= s);
    let r2 = d1 + r3;
    assert(s == t1 + r2);
    lemma_split_subrange(s, 0, t1, r2);
    let p1 = t1.len() as int;
    lemma_split_subrange(s, p1, d1, r3);
    let p2 = p1 + d1.len();
    assert(s.subrange(p2, p2 + r3.len())[0] == s[p2]);
    assert(t2[0] == (',' as u8));
    assert(!is_digit(s[p2]));
    lemma_parse_dec_digits(s, p1, v.calc_id as nat);
    assert(s.subrange(p2, s.len() as int) == r3);
}

proof fn lemma_rt_info_front_b(s: Seq<u8>, pos: int, v: CalcInfoV)
    requires
        0 <= pos,
        encodable_info(v),
        ({
            let r3 = lit(",\"user_id\":"@) + (enc_i64(v.user_id) + (lit(",\"run_dt\":"@) + (
            enc_i64(v.run_dt) + (lit(",\"end_dt\":"@) + (enc_opt_i64(v.end_dt) + enc_info_tail(
                v,
            ))))));
            &&& pos + r3.len() == s.len()
            &&& s.subrange(pos, s.len() as int) == r3
        }),
    ensures
        ({
            let t2 = lit(",\"user_id\":"@);
            let d2 = enc_i64(v.user_id);
            let p3 = pos + t2.len();
            let p4 = p3 + d2.len();
            let r5 = lit(",\"run_dt\":"@) + (enc_i64(v.run_dt) + (lit(",\"end_dt\":"@) + (
            enc_opt_i64(v.end_dt) + enc_info_tail(v))));
            &&& expect(s, pos, t2) == Some(p3)
            &&& parse_i64_at(s, p3) == Some((v.user_id, p4))
            &&& p4 + r5.len() == s.len()
            &&& s.subrange(p4, s.len() as int) == r5
        }),
{
    reveal_strlit(",\"user_id\":");
    reveal_strlit(",\"run_dt\":");
    let t2 = lit(",\"user_id\":"@);
    let d2 = enc_i64(v.user_id);
    let t3 = lit(",\"run_dt\":"@);
    if v.user_id >= 0 {
        lemma_dec_digits(v.user_id as nat);
    } else {
        lemma_dec_digits((-v.user_id) as nat);
    }
    let r5 = t3 + (enc_i64(v.run_dt) + (lit(",\"end_dt\":"@) + (enc_opt_i64(v.end_dt)
        + enc_info_tail(v))));
    let r4 = d2 + r5;
    lemma_split_subrange(s, pos, t2, r4);
    let p3 = pos + t2.len();
    lemma_split_subrange(s, p3, d2, r5);
    let p4 = p3 + d2.len();
    assert(s.subrange(p4, p4 + r5.len())[0] == s[p4]);
    assert(t3[0] == (',' as u8));
    assert(!is_digit(s[p4]));
    lemma_parse_i64_enc(s, p3, v.user_id);
    assert(s.subrange(p4, s.len() as int) == r5);
}

proof fn lemma_rt_info_mid(s: Seq<u8>, pos: int, v: CalcInfoV)
    requires
        0 <= pos,
        encodable_info(v),
        ({
            let r5 = lit(",\"run_dt\":"@) + (enc_i64(v.run_dt) + (lit(",\"end_dt\":"@) + (
            enc_opt_i64(v.end_dt) + enc_info_tail(v))));
            &&& pos + r5.len() == s.len()
            &&& s.subrange(pos, s.len() as int) == r5
        }),
    ensures
        ({
            let t3 = lit(",\"run_dt\":"@);
            let d3 = enc_i64(v.run_dt);
            let t4 = lit(",\"end_dt\":"@);
            let d4 = enc_opt_i64(v.end_dt);
            let p5 = pos + t3.len();
            let p6 = p5 + d3.len();
            let p7 = p6 + t4.len();
            let p8 = p7 + d4.len();
            &&& expect(s, pos, t3) == Some(p5)
            &&& parse_i64_at(s, p5) == Some((v.run_dt, p6))
            &&& expect(s, p6, t4) == Some(p7)
            &&& parse_opt_i64(s, p7) == Some((v.end_dt, p8))
            &&& p8 + enc_info_tail(v).len() == s.len()
            &&& s.subrange(p8, s.len() as int) == enc_info_tail(v)
        }),
{
    reveal_strlit(",\"run_dt\":");
    reveal_strlit(",\"end_dt\":");
    reveal_strlit(",\"params\":");
    let t3 = lit(",\"run_dt\":"@);
    let d3 = enc_i64(v.run_dt);
    let t4 = lit(",\"end_dt\":"@);
    let d4 = enc_opt_i64(v.end_dt);
    let tl = enc_info_tail(v);
    if v.run_dt >= 0 {
        lemma_dec_digits(v.run_dt as nat);
    } else {
        lemma_dec_digits((-v.run_dt) as nat);
    }
    let r6 = d3 + (t4 + (d4 + tl));
    lemma_split_subrange(s, pos, t3, r6);
    let p5 = pos + t3.len();
    let r7 = t4 + (d4 + tl);
    lemma_split_subrange(s, p5, d3, r7);
    let p6 = p5 + d3.len();
    assert(s.subrange(p6, p6 + r7.len())[0] == s[p6]);
    assert(t4[0] == (',' as u8));
    assert(!is_digit(s[p6]));
    lemma_parse_i64_enc(s, p5, v.run_dt);
    let r8 = d4 + tl;
    lemma_split_subrange(s, p6, t4, r8);
    let p7 = p6 + t4.len();
    lemma_split_subrange(s, p7, d4, tl);
    let p8 = p7 + d4.len();
    assert(tl.len() >= 1);
    assert(s.subrange(p8, p8 + tl.len())[0] == s[p8]);
    assert(lit(",\"params\":"@)[0] == (',' as u8));
    assert(tl[0] == (',' as u8));
    assert(!is_digit(s[p8]));
    lemma_rt_opt_i64(s, p7, v.end_dt);
    assert(s.subrange(p8, s.len() as int) =~= tl);
}

/// Decoding an encoded job record gives the record back, field for field.
pub proof fn lemma_info_round_trip(v: CalcInfoV)
    requires
        encodable_info(v),
    ensures
        parse_info(enc_info(v)) == Some(v),
{
    reveal(parse_info);
    let s = enc_info(v);
    lemma_rt_info_front_a(v);
    let t1 = lit("{\"calc_id\":"@);
    let d1 = dec_digits(v.calc_id as nat);
    let t2 = lit(",\"user_id\":"@);
    let d2 = enc_i64(v.user_id);
    let p2 = t1.len() + d1.len();
    lemma_rt_info_front_b(s, p2 as int, v);
    let p4 = p2 + t2.len() + d2.len();
    lemma_rt_info_mid(s, p4 as int, v);
    let t3 = lit(",\"run_dt\":"@);
    let d3 = enc_i64(v.run_dt);
    let t4 = lit(",\"end_dt\":"@);
    let d4 = enc_opt_i64(v.end_dt);
    let p8 = p4 + t3.len() + d3.len() + t4.len() + d4.len();
    lemma_rt_info_half(s, p8 as int, v);
}

/// A parsed user index always carries a representable user id.
pub proof fn lemma_parse_user_ranges(s: Seq<u8>)
    ensures
        parse_user(s) matches Some(u) ==> in_i64(u.user_id),
{
    reveal(parse_user);
}

/// Decoding an encoded user index record gives the record back.
#[verifier::rlimit(100)]
pub proof fn lemma_user_round_trip(v: UserCalcsV)
    requires
        encodable_user(v),
    ensures
        parse_user(enc_user(v)) == Some(v),
{
    reveal(parse_user);
    reveal_strlit("{\"user_id\":");
    reveal_strlit(",\"calcs\":[");
    reveal_strlit("}");
    let s = enc_user(v);
    let t1 = lit("{\"user_id\":"@);
    let d1 = enc_i64(v.user_id);
    let t2 = lit(",\"calcs\":["@);
    let d2 = enc_id_list(v.calcs);
    let t3 = lit("}"@);
    if v.user_id >= 0 {
        lemma_dec_digits(v.user_id as nat);
    } else {
        lemma_dec_digits((-v.user_id) as nat);
    }
    assert(s.subrange(0, s.len() as int) =~= s);
    let r2 = d1 + (t2 + (d2 + t3));
    assert(s == t1 + r2);
    lemma_split_subrange(s, 0, t1, r2);
    let p1 = t1.len() as int;
    let r3 = t2 + (d2 + t3);
    lemma_split_subrange(s, p1, d1, r3);
    let p2 = p1 + d1.len();
    assert(s.subrange(p2, p2 + r3.len())[0] == s[p2]);
    assert(t2[0] == (',' as u8));
    assert(!is_digit(s[p2]));
    lemma_parse_i64_enc(s, p1, v.user_id);
    let r4 = d2 + t3;
    lemma_split_subrange(s, p2, t2, r4);
    let p3 = p2 + t2.len();
    lemma_split_subrange(s, p3, d2, t3);
    let p4 = p3 + d2.len();
    lemma_rt_id_list(s, p3, v.calcs);
    assert(expect(s, 0, t1) == Some(p1));
    assert(expect(s, p2, t2) == Some(p3));
    assert(expect(s, p4, t3) == Some(p4 + 1));
    assert(p4 + 1 == s.len());
}


/// Values read from a signed-number list all lie in the range of `i64`.
proof fn lemma_parse_i64_tail_ranges(s: Seq<u8>, pos: int)
    requires
        0 <= pos <= s.len(),
    ensures
        parse_i64_tail(s, pos) matches Some((xs, end)) ==> forall|i: int|
            0 <= i < xs.len() ==> in_i64(#[trigger] xs[i]),
    decreases s.len() - pos,
{
    if pos < s.len() && s[pos] == (']' as u8) {
    } else if pos < s.len() && s[pos] == (',' as u8) {
        lemma_digit_span_le(s, pos + 1);
        if pos + 1 < s.len() {
            lemma_digit_span_le(s, pos + 2);
        }
        match parse_i64_at(s, pos + 1) {
            Some((v, end)) => {
                lemma_parse_i64_tail_ranges(s, end);
            },
            None => {},
        }
    }
}

proof fn lemma_parse_i64_list_ranges(s: Seq<u8>, pos: int)
    requires
        0 <= pos <= s.len(),
    ensures
        parse_i64_list(s, pos) matches Some((xs, end)) ==> forall|i: int|
            0 <= i < xs.len() ==> in_i64(#[trigger] xs[i]),
{
    if pos < s.len() && s[pos] == (']' as u8) {
    } else {
        lemma_digit_span_le(s, pos);
        if pos < s.len() {
            lemma_digit_span_le(s, pos + 1);
        }
        match parse_i64_at(s, pos) {
            Some((v, end)) => {
                lemma_parse_i64_tail_ranges(s, end);
            },
            None => {},
        }
    }
}

proof fn lemma_parse_row_tail_wf(s: Seq<u8>, pos: int)
    requires
        0 <= pos <= s.len(),
    ensures
        parse_row_tail(s, pos) matches Some((rows, end)) ==> forall|i: int, j: int|
            0 <= i < rows.len() && 0 <= j < rows[i].len() ==> in_i64(#[trigger] rows[i][j]),
    decreases s.len() - pos,
{
    if pos < s.len() && s[pos] == (']' as u8) {
    } else if pos + 1 < s.len() && s[pos] == (',' as u8) && s[pos + 1] == ('[' as u8) {
        lemma_parse_i64_list_bounds(s, pos + 2);
        lemma_parse_i64_list_ranges(s, pos + 2);
        match parse_i64_list(s, pos + 2) {
            Some((row, end)) => {
                lemma_parse_row_tail_wf(s, end);
            },
            None => {},
        }
    }
}

proof fn lemma_parse_row_list_wf(s: Seq<u8>, pos: int)
    requires
        0 <= pos <= s.len(),
    ensures
        parse_row_list(s, pos) matches Some((rows, end)) ==> forall|i: int, j: int|
            0 <= i < rows.len() && 0 <= j < rows[i].len() ==> in_i64(#[trigger] rows[i][j]),
{
    if pos < s.len() && s[pos] == (']' as u8) {
    } else if pos < s.len() && s[pos] == ('[' as u8) {
        lemma_parse_i64_list_bounds(s, pos + 1);
        lemma_parse_i64_list_ranges(s, pos + 1);
        match parse_i64_list(s, pos + 1) {
            Some((row, end)) => {
                lemma_parse_row_tail_wf(s, end);
            },
            None => {},
        }
    }
}

proof fn lemma_text_span_bytes(s: Seq<u8>, pos: int)
    requires
        0 <= pos <= s.len(),
    ensures
        wf_message(s.subrange(pos, pos + text_span(s, pos))),
    decreases s.len() - pos,
{
    lemma_text_span_le(s, pos);
    if pos < s.len() && is_text_byte(s[pos]) {
        lemma_text_span_bytes(s, pos + 1);
        let m = s.subrange(pos, pos + text_span(s, pos));
        let tail = s.subrange(pos + 1, pos + 1 + text_span(s, pos + 1));
        assert forall|i: int| 0 <= i < m.len() implies is_text_byte(#[trigger] m[i]) by {
            if i >= 1 {
                assert(tail[i - 1] == m[i]);
            }
        }
    }
}

proof fn lemma_parse_params_wf(s: Seq<u8>, pos: int)
    requires
        0 <= pos <= s.len(),
    ensures
        parse_params(s, pos) matches Some((p, end)) ==> wf_params(p),
{
    reveal(parse_params);
    match expect(s, pos, lit("{\"type\":\"base\",\"user_id\":"@)) {
        Some(p1) => {},
        None => {
            match expect(s, pos, lit("{\"type\":\"mass\",\"user_id\":"@)) {
                Some(p1) => {
                    lemma_digit_span_le(s, p1);
                    if p1 < s.len() {
                        lemma_digit_span_le(s, p1 + 1);
                    }
                    match parse_i64_at(s, p1) {
                        Some((uid, p2)) => {
                            match expect(s, p2, lit(",\"data\":["@)) {
                                Some(p3) => {
                                    if 0 <= p3 <= s.len() {
                                        lemma_parse_i64_list_ranges(s, p3);
                                    }
                                },
                                None => {},
                            }
                        },
                        None => {},
                    }
                },
                None => {},
            }
        },
    }
}

proof fn lemma_parse_result_wf(s: Seq<u8>, pos: int)
    requires
        0 <= pos <= s.len(),
    ensures
        parse_result(s, pos) matches Some((r, end)) ==> wf_result(r),
{
    reveal(parse_result);
    match expect(s, pos, lit("{\"series\":["@)) {
        Some(p1) => {
            lemma_parse_i64_list_ranges(s, p1);
        },
        None => {
            match expect(s, pos, lit("{\"table\":["@)) {
                Some(p1) => {
                    lemma_parse_row_list_wf(s, p1);
                },
                None => {
                    match expect(s, pos, lit("{\"error\":\""@)) {
                        Some(p1) => {
                            lemma_text_span_bytes(s, p1);
                        },
                        None => {},
                    }
                },
            }
        },
    }
}

/// Whatever a stored job record parses to fits the record format again:
/// every numeric field is in range and every message byte printable.
pub proof fn lemma_parse_info_encodable(s: Seq<u8>)
    ensures
        parse_info(s) matches Some(v) ==> encodable_info(v),
{
    reveal(parse_info);
    reveal(parse_info_tail);
    match expect(s, 0, lit("{\"calc_id\":"@)) {
        Some(p1) => {
            lemma_digit_span_le(s, p1);
            match parse_dec_at(s, p1) {
                Some((id, p2)) => {
                    if id <= u128::MAX && 0 <= p2 <= s.len() {
                        match expect(s, p2, lit(",\"user_id\":"@)) {
                            Some(p3) => {
                                lemma_digit_span_le(s, p3);
                                if p3 < s.len() {
                                    lemma_digit_span_le(s, p3 + 1);
                                }
                                match parse_i64_at(s, p3) {
                                    Some((uid, p4)) => {
                                        if 0 <= p4 <= s.len() {
                                            lemma_parse_info_encodable_rest(s, p4);
                                        }
                                    },
                                    None => {},
                                }
                            },
                            None => {},
                        }
                    }
                },
                None => {},
            }
        },
        None => {},
    }
}

proof fn lemma_parse_info_encodable_rest(s: Seq<u8>, p4: int)
    requires
        0 <= p4 <= s.len(),
    ensures
        ({
            match expect(s, p4, lit(",\"run_dt\":"@)) {
                Some(p5) => match parse_i64_at(s, p5) {
                    Some((run, p6)) => match expect(s, p6, lit(",\"end_dt\":"@)) {
                        Some(p7) => match parse_opt_i64(s, p7) {
                            Some((end_dt, p8)) => match expect(s, p8, lit(",\"params\":"@)) {
                                Some(p9) => match parse_opt_params(s, p9) {
                                    Some((params, p10)) => (match params {
                                        Some(p) => wf_params(p),
                                        None => true,
                                    }) && (match expect(s, p10, lit(",\"progress\":"@)) {
                                        Some(p11) => match parse_dec_at(s, p11) {
                                            Some((prog, p12)) => match expect(
                                                s,
                                                p12,
                                                lit(",\"result\":"@),
                                            ) {
                                                Some(p13) => match parse_opt_result(s, p13) {
                                                    Some((result, p14)) => match result {
                                                        Some(r) => wf_result(r),
                                                        None => true,
                                                    },
                                                    None => true,
                                                },
                                                None => true,
                                            },
                                            None => true,
                                        },
                                        None => true,
                                    }),
                                    None => true,
                                },
                                None => true,
                            },
                            None => true,
                        },
                        None => true,
                    },
                    None => true,
                },
                None => true,
            }
        }),
{
    match expect(s, p4, lit(",\"run_dt\":"@)) {
        Some(p5) => {
            lemma_digit_span_le(s, p5);
            if p5 < s.len() {
                lemma_digit_span_le(s, p5 + 1);
            }
            match parse_i64_at(s, p5) {
                Some((run, p6)) => {
                    if 0 <= p6 <= s.len() {
                        match expect(s, p6, lit(",\"end_dt\":"@)) {
                            Some(p7) => {
                                lemma_digit_span_le(s, p7);
                                if p7 < s.len() {
                                    lemma_digit_span_le(s, p7 + 1);
                                }
                                match parse_opt_i64(s, p7) {
                                    Some((end_dt, p8)) => {
                                        if 0 <= p8 <= s.len() {
                                            match expect(s, p8, lit(",\"params\":"@)) {
                                                Some(p9) => {
                                                    if 0 <= p9 <= s.len() {
                                                        lemma_parse_params_wf(s, p9);
                                                        match parse_opt_params(s, p9) {
                                                            Some((params, p10)) => {
                                                                if 0 <= p10 <= s.len() {
                                                                    match expect(
                                                                        s,
                                                                        p10,
                                                                        lit(",\"progress\":"@),
                                                                    ) {
                                                                        Some(p11) => {
                                                                            lemma_digit_span_le(
                                                                                s,
                                                                                p11,
                                                                            );
                                                                            match parse_dec_at(
                                                                                s,
                                                                                p11,
                                                                            ) {
                                                                                Some((prog, p12)) => {
                                                                                    if 0 <= p12
                                                                                        <= s.len() {
                                                                                        match expect(
                                                                                            s,
                                                                                            p12,
                                                                                            lit(
                                                                                                ",\"result\":"@,
                                                                                            ),
                                                                                        ) {
                                                                                            Some(
                                                                                                p13,
                                                                                            ) => {
                                                                                                if 0
                                                                                                    <= p13
                                                                                                    <= s.len() {
                                                                                                    lemma_parse_result_wf(
                                                                                                        s,
                                                                                                        p13,
                                                                                                    );
                                                                                                }
                                                                                            },
                                                                                            None => {
                                                                                            },
                                                                                        }
                                                                                    }
                                                                                },
                                                                                None => {},
                                                                            }
                                                                        },
                                                                        None => {},
                                                                    }
                                                                }
                                                            },
                                                            None => {},
                                                        }
                                                    }
                                                },
                                                None => {},
                                            }
                                        }
                                    },
                                    None => {},
                                }
                            },
                            None => {},
                        }
                    }
                },
                None => {},
            }
        },
        None => {},
    }
}

} // verus!
