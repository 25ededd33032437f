//! The job record data model: one `CalcInfo` per submitted calculation and
//! one `UserCalcs` index per user with active jobs, together with their
//! mathematical views, well-formedness, and storage key naming.

use vstd::prelude::*;

use crate::text::{dec_digits, enc_i64, print_i64, print_u128};

verus! {

/// Seconds a job record stays alive after its last write.
pub const CALC_INFO_TTL_SECONDS: u64 = 3600;

/// Seconds a user index record stays alive after its last write.
pub const USER_CALC_TTL_SECONDS: u64 = 3600;

/// Submission parameters of the single-series job type.
#[derive(Debug, Clone, PartialEq, Eq)]
pub struct BaseCalcParams {
    pub user_id: i64,
    pub iterations: u32,
}

/// Submission parameters of the many-series job type.
#[derive(Debug, Clone, PartialEq, Eq)]
pub struct MassCalcParams {
    pub user_id: i64,
    pub data: Vec<u32>,
    pub iterations: u32,
}

/// The tagged union of known job parameter shapes.
#[derive(Debug, Clone, PartialEq, Eq)]
pub enum CalcParams {
    Base(BaseCalcParams),
    Mass(MassCalcParams),
}

/// What a finished job holds: a value series, a table of series, or the
/// message of the failure that ended it.
#[derive(Debug, Clone, PartialEq, Eq)]
pub enum CalcResult {
    Series(Vec<i64>),
    Table(Vec<Vec<i64>>),
    Failure(Vec<u8>),
}

/// Persisted state of one submitted job.
#[derive(Debug, Clone, PartialEq, Eq)]
pub struct CalcInfo {
    pub calc_id: u128,
    pub user_id: i64,
    pub run_dt: i64,
    pub end_dt: Option<i64>,
    pub params: Option<CalcParams>,
    pub progress: u32,
    pub result: Option<CalcResult>,
}

/// Index of the jobs currently active for one user.
#[derive(Debug, Clone, PartialEq, Eq)]
pub struct UserCalcs {
    pub user_id: i64,
    pub calcs: Vec<u128>,
}

pub ghost enum CalcParamsV {
    Base { user_id: int, iterations: int },
    Mass { user_id: int, data: Seq<int>, iterations: int },
}

pub ghost enum CalcResultV {
    Series { values: Seq<int> },
    Table { rows: Seq<Seq<int>> },
    Failure { message: Seq<u8> },
}

pub ghost struct CalcInfoV {
    pub calc_id: u128,
    pub user_id: int,
    pub run_dt: int,
    pub end_dt: Option<int>,
    pub params: Option<CalcParamsV>,
    pub progress: int,
    pub result: Option<CalcResultV>,
}

pub ghost struct UserCalcsV {
    pub user_id: int,
    pub calcs: Seq<u128>,
}

impl View for BaseCalcParams {
    type V = CalcParamsV;

    open spec fn view(&self) -> CalcParamsV {
        CalcParamsV::Base { user_id: self.user_id as int, iterations: self.iterations as int }
    }
}

impl View for MassCalcParams {
    type V = CalcParamsV;

    open spec fn view(&self) -> CalcParamsV {
        CalcParamsV::Mass {
            user_id: self.user_id as int,
            data: self.data@.map_values(|x: u32| x as int),
            iterations: self.iterations as int,
        }
    }
}

impl View for CalcParams {
    type V = CalcParamsV;

    open spec fn view(&self) -> CalcParamsV {
        match self {
            CalcParams::Base(p) => p@,
            CalcParams::Mass(p) => p@,
        }
    }
}

impl View for CalcResult {
    type V = CalcResultV;

    open spec fn view(&self) -> CalcResultV {
        match self {
            CalcResult::Series(values) => CalcResultV::Series {
                values: values@.map_values(|x: i64| x as int),
            },
            CalcResult::Table(rows) => CalcResultV::Table {
                rows: rows@.map_values(|r: Vec<i64>| r@.map_values(|x: i64| x as int)),
            },
            CalcResult::Failure(message) => CalcResultV::Failure { message: message@ },
        }
    }
}

impl View for CalcInfo {
    type V = CalcInfoV;

    open spec fn view(&self) -> CalcInfoV {
        CalcInfoV {
            calc_id: self.calc_id,
            user_id: self.user_id as int,
            run_dt: self.run_dt as int,
            end_dt: match self.end_dt {
                Some(t) => Some(t as int),
                None => None,
            },
            params: match self.params {
                Some(p) => Some(p@),
                None => None,
            },
            progress: self.progress as int,
            result: match self.result {
                Some(r) => Some(r@),
                None => None,
            },
        }
    }
}

impl View for UserCalcs {
    type V = UserCalcsV;

    open spec fn view(&self) -> UserCalcsV {
        UserCalcsV { user_id: self.user_id as int, calcs: self.calcs@ }
    }
}

/// Printable ASCII with no need for escaping: what a failure message may hold.
pub open spec fn is_text_byte(b: u8) -> bool {
    32 <= b <= 126 && b != 34 && b != 92
}

pub open spec fn wf_message(m: Seq<u8>) -> bool {
    forall|i: int| 0 <= i < m.len() ==> is_text_byte(#[trigger] m[i])
}

pub open spec fn in_i64(n: int) -> bool {
    i64::MIN <= n <= i64::MAX
}

pub open spec fn in_u32(n: int) -> bool {
    0 <= n <= u32::MAX
}

pub open spec fn wf_params(p: CalcParamsV) -> bool {
    match p {
        CalcParamsV::Base { user_id, iterations } => in_i64(user_id) && in_u32(iterations),
        CalcParamsV::Mass { user_id, data, iterations } => in_i64(user_id) && in_u32(iterations)
            && forall|i: int| 0 <= i < data.len() ==> in_u32(#[trigger] data[i]),
    }
}

pub open spec fn wf_result(r: CalcResultV) -> bool {
    match r {
        CalcResultV::Series { values } => forall|i: int|
            0 <= i < values.len() ==> in_i64(#[trigger] values[i]),
        CalcResultV::Table { rows } => forall|i: int, j: int|
            0 <= i < rows.len() && 0 <= j < rows[i].len() ==> in_i64(#[trigger] rows[i][j]),
        CalcResultV::Failure { message } => wf_message(message),
    }
}

/// The record's fields fit the persisted text format.
pub open spec fn encodable_info(v: CalcInfoV) -> bool {
    &&& in_i64(v.user_id)
    &&& in_i64(v.run_dt)
    &&& match v.end_dt {
        Some(t) => in_i64(t),
        None => true,
    }
    &&& match v.params {
        Some(p) => wf_params(p),
        None => true,
    }
    &&& in_u32(v.progress)
    &&& match v.result {
        Some(r) => wf_result(r),
        None => true,
    }
}

/// The job record invariant: progress is a percentage, and a finish time,
/// full progress and a result appear together.
pub open spec fn wf_info(v: CalcInfoV) -> bool {
    &&& encodable_info(v)
    &&& 0 <= v.progress <= 100
    &&& (v.end_dt is Some <==> v.result is Some)
    &&& (v.end_dt is Some ==> v.progress == 100)
}

pub open spec fn encodable_user(v: UserCalcsV) -> bool {
    in_i64(v.user_id)
}

/// The user index invariant: a job id appears at most once.
pub open spec fn wf_user(v: UserCalcsV) -> bool {
    &&& encodable_user(v)
    &&& forall|i: int, j: int| 0 <= i < j < v.calcs.len() ==> v.calcs[i] != v.calcs[j]
}

/// Key prefix of job records.
pub open spec fn calc_info_prefix() -> Seq<u8> {
    seq![
        ('C' as u8),
        ('A' as u8),
        ('L' as u8),
        ('C' as u8),
        ('_' as u8),
        ('I' as u8),
        ('N' as u8),
        ('F' as u8),
        ('O' as u8),
        (':' as u8),
    ]
}

/// Key prefix of user index records.
pub open spec fn user_calc_prefix() -> Seq<u8> {
    seq![
        ('U' as u8),
        ('S' as u8),
        ('E' as u8),
        ('R' as u8),
        ('_' as u8),
        ('C' as u8),
        ('A' as u8),
        ('L' as u8),
        ('C' as u8),
        ('S' as u8),
        (':' as u8),
    ]
}

/// Storage key of the job record with id `id`.
pub open spec fn calc_key(id: u128) -> Seq<u8> {
    calc_info_prefix() + dec_digits(id as nat)
}

/// Storage key of the user index record of `user_id`.
pub open spec fn user_key(user_id: int) -> Seq<u8> {
    user_calc_prefix() + enc_i64(user_id)
}

/// Builds the job record key prefix.
pub fn calc_info_prefix_vec() -> (v: Vec<u8>)
    ensures
        v@ == calc_info_prefix(),
{
    let mut v: Vec<u8> = Vec::new();
    v.push('C' as u8);
    v.push('A' as u8);
    v.push('L' as u8);
    v.push('C' as u8);
    v.push('_' as u8);
    v.push('I' as u8);
    v.push('N' as u8);
    v.push('F' as u8);
    v.push('O' as u8);
    v.push(':' as u8);
    proof {
        assert(v@ =~= calc_info_prefix());
    }
    v
}

/// Builds the user index key prefix.
pub fn user_calc_prefix_vec() -> (v: Vec<u8>)
    ensures
        v@ == user_calc_prefix(),
{
    let mut v: Vec<u8> = Vec::new();
    v.push('U' as u8);
    v.push('S' as u8);
    v.push('E' as u8);
    v.push('R' as u8);
    v.push('_' as u8);
    v.push('C' as u8);
    v.push('A' as u8);
    v.push('L' as u8);
    v.push('C' as u8);
    v.push('S' as u8);
    v.push(':' as u8);
    proof {
        assert(v@ =~= user_calc_prefix());
    }
    v
}

impl CalcInfo {
    /// The freshly created record of one submission: no finish time, no
    /// result, zero progress.
    pub fn new(calc_id: u128, user_id: i64, params: Option<CalcParams>, now: i64) -> (r: CalcInfo)
        ensures
            r@ == (CalcInfoV {
                calc_id,
                user_id: user_id as int,
                run_dt: now as int,
                end_dt: None,
                params: match params {
                    Some(p) => Some(p@),
                    None => None,
                },
                progress: 0,
                result: None,
            }),
    {
        CalcInfo {
            calc_id,
            user_id,
            run_dt: now,
            end_dt: None,
            params,
            progress: 0,
            result: None,
        }
    }

    /// Storage key of this record.
    pub fn key(&self) -> (r: Vec<u8>)
        ensures
            r@ == calc_key(self.calc_id),
    {
        CalcInfo::to_key(self.calc_id)
    }

    /// Storage key of the job record with id `calc_id`.
    pub fn to_key(calc_id: u128) -> (r: Vec<u8>)
        ensures
            r@ == calc_key(calc_id),
    {
        let mut v = calc_info_prefix_vec();
        print_u128(calc_id, &mut v);
        v
    }

    /// Overwrites the progress figure, leaving every other field as it was.
    pub fn update_progress(&mut self, progress: u32)
        ensures
            final(self)@ == (CalcInfoV { progress: progress as int, ..old(self)@ }),
    {
        self.progress = progress;
    }

    /// Marks the record finished at `now`: full progress, finish time and
    /// result are set together.
    pub fn set_result(&mut self, result: CalcResult, now: i64)
        ensures
            final(self)@ == (CalcInfoV {
                progress: 100,
                end_dt: Some(now as int),
                result: Some(result@),
                ..old(self)@
            }),
    {
        self.progress = 100;
        self.end_dt = Some(now);
        self.result = Some(result);
    }
}

/// `s` with every occurrence of `id` removed, order kept.
pub open spec fn seq_remove_id(s: Seq<u128>, id: u128) -> Seq<u128>
    decreases s.len(),
{
    if s.len() == 0 {
        Seq::empty()
    } else if s[0] == id {
        seq_remove_id(s.drop_first(), id)
    } else {
        seq![s[0]] + seq_remove_id(s.drop_first(), id)
    }
}

impl UserCalcs {
    /// An index with no active jobs.
    pub fn new(user_id: i64) -> (r: UserCalcs)
        ensures
            r@ == (UserCalcsV { user_id: user_id as int, calcs: Seq::empty() }),
    {
        UserCalcs { user_id, calcs: Vec::new() }
    }

    /// Storage key of this index record.
    pub fn key(&self) -> (r: Vec<u8>)
        ensures
            r@ == user_key(self.user_id as int),
    {
        UserCalcs::to_key(self.user_id)
    }

    /// Storage key of the index record of `user_id`.
    pub fn to_key(user_id: i64) -> (r: Vec<u8>)
        ensures
            r@ == user_key(user_id as int),
    {
        let mut v = user_calc_prefix_vec();
        print_i64(user_id, &mut v);
        v
    }

    /// Whether `id` is listed.
    pub fn contains(&self, id: u128) -> (r: bool)
        ensures
            r == self@.calcs.contains(id),
    {
        let n = self.calcs.len();
        let mut i: usize = 0;
        while i < n
            invariant
                n == self.calcs.len(),
                i <= n,
                forall|j: int| 0 <= j < i ==> self.calcs@[j] != id,
            decreases n - i,
        {
            if self.calcs[i] == id {
                return true;
            }
            i = i + 1;
        }
        proof {
            assert(!self@.calcs.contains(id));
        }
        false
    }

    /// Lists `id`, adding it only when absent.
    pub fn add_calc(&mut self, id: u128)
        ensures
            final(self).user_id == old(self).user_id,
            old(self)@.calcs.contains(id) ==> final(self)@.calcs == old(self)@.calcs,
            !old(self)@.calcs.contains(id) ==> final(self)@.calcs == old(self)@.calcs.push(id),
    {
        if !self.contains(id) {
            self.calcs.push(id);
        }
    }

    /// The listed jobs, as a fresh list.
    pub fn pending_calcs(&self) -> (r: Vec<u128>)
        ensures
            r@ == self@.calcs,
    {
        let n = self.calcs.len();
        let mut out: Vec<u128> = Vec::new();
        let mut i: usize = 0;
        while i < n
            invariant
                n == self.calcs.len(),
                i <= n,
                out@ == self.calcs@.take(i as int),
            decreases n - i,
        {
            out.push(self.calcs[i]);
            proof {
                assert(self.calcs@.take(i + 1) =~= self.calcs@.take(i as int).push(
                    self.calcs@[i as int],
                ));
            }
            i = i + 1;
        }
        proof {
            assert(self.calcs@.take(n as int) =~= self.calcs@);
        }
        out
    }

    /// Delists `id`, keeping the order of the others.
    pub fn remove_calc(&mut self, id: u128)
        ensures
            final(self).user_id == old(self).user_id,
            final(self)@.calcs == seq_remove_id(old(self)@.calcs, id),
    {
        let n = self.calcs.len();
        let mut out: Vec<u128> = Vec::new();
        proof {
            assert(self.calcs@.skip(0) =~= self.calcs@);
            assert(out@ + seq_remove_id(self.calcs@, id) =~= seq_remove_id(self.calcs@, id));
        }
        let mut i: usize = 0;
        while i < n
            invariant
                n == self.calcs.len(),
                i <= n,
                seq_remove_id(self.calcs@, id) == out@ + seq_remove_id(self.calcs@.skip(i as int), id),
            decreases n - i,
        {
            let x = self.calcs[i];
            proof {
                assert(self.calcs@.skip(i as int).drop_first() =~= self.calcs@.skip(i + 1));
                assert(self.calcs@.skip(i as int)[0] == self.calcs@[i as int]);
            }
            if x != id {
                out.push(x);
                proof {
                    assert(out@ + seq_remove_id(self.calcs@.skip(i + 1), id) =~= (out@.drop_last()
                        + (seq![x] + seq_remove_id(self.calcs@.skip(i + 1), id))));
                }
            }
            i = i + 1;
        }
        proof {
            assert(self.calcs@.skip(n as int) =~= Seq::<u128>::empty());
            assert(out@ + seq_remove_id(self.calcs@.skip(n as int), id) =~= out@);
        }
        self.calcs = out;
    }
}

/// Job record keys and user index keys never collide: their prefixes
/// differ in the first byte.
pub proof fn lemma_keys_disjoint(id: u128, user_id: int)
    ensures
        calc_key(id) != user_key(user_id),
{
    assert(calc_key(id)[0] == ('C' as u8));
    assert(user_key(user_id)[0] == ('U' as u8));
}

} // verus!
