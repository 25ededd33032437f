//! The request-level rules of the polling API: input validation for
//! submissions, status and result reads with their failure distinctions,
//! aggregate views, and the mapping of errors to HTTP status codes.

use vstd::prelude::*;
use vstd::string::*;

use crate::clock::now_millis;
use crate::codec::parse_info;
use crate::ids::fresh_calc_id;
use crate::records::{
    calc_info_prefix, calc_info_prefix_vec, calc_key, user_key, BaseCalcParams, CalcInfoV,
    CalcParams, CalcResult, MassCalcParams,
};
use crate::registry::spec_init_calc;
use crate::store::{live_values, store_get, Storage, StorageErrors};

verus! {

/// The error body every failing endpoint returns.
#[derive(Debug)]
pub struct ErrorResponse {
    pub error: String,
}

/// What an API operation can fail with.
#[derive(Debug)]
pub enum ApiError {
    StorageError(StorageErrors),
    BadParams(String),
    Json(String),
    NotFound,
    CalculationNotCompleted(u128),
}

impl ApiError {
    /// The HTTP status code of this error: bad input and a result asked for
    /// too early are the caller's fault, an unknown job is absent, and a
    /// backend failure is the server's.
    pub fn status_code(&self) -> (r: u16)
        ensures
            r == match self {
                ApiError::BadParams(_) => 400u16,
                ApiError::Json(_) => 400u16,
                ApiError::StorageError(_) => 500u16,
                ApiError::NotFound => 404u16,
                ApiError::CalculationNotCompleted(_) => 400u16,
            },
    {
        match self {
            ApiError::BadParams(_) => 400,
            ApiError::Json(_) => 400,
            ApiError::StorageError(_) => 500,
            ApiError::NotFound => 404,
            ApiError::CalculationNotCompleted(_) => 400,
        }
    }

    /// The wording of this error in a response body.
    pub open spec fn spec_message(&self) -> Seq<char> {
        match self {
            ApiError::StorageError(_) => "storage error"@,
            ApiError::BadParams(_) => "bad params"@,
            ApiError::Json(_) => "invalid stored record"@,
            ApiError::NotFound => "not found"@,
            ApiError::CalculationNotCompleted(_) => "calculation not completed"@,
        }
    }

    /// The body every failing endpoint answers with.
    pub fn to_response(&self) -> (r: ErrorResponse)
        ensures
            r.error@ == self.spec_message(),
    {
        let error = match self {
            ApiError::StorageError(_) => String::from_str("storage error"),
            ApiError::BadParams(_) => String::from_str("bad params"),
            ApiError::Json(_) => String::from_str("invalid stored record"),
            ApiError::NotFound => String::from_str("not found"),
            ApiError::CalculationNotCompleted(_) => String::from_str("calculation not completed"),
        };
        ErrorResponse { error }
    }

    /// Lifts a storage failure: an absent key surfaces as `NotFound`, a
    /// corrupt record as `Json`, everything else as a backend error.
    pub fn from_storage(e: StorageErrors) -> (r: ApiError)
        ensures
            e is NotFound <==> r is NotFound,
            e is Json <==> r is Json,
            (e is Pool || e is Client) <==> r is StorageError,
    {
        match e {
            StorageErrors::NotFound(_) => ApiError::NotFound,
            StorageErrors::Json(m) => ApiError::Json(m),
            other => ApiError::StorageError(other),
        }
    }
}

pub struct RunBaseCalcResponse {
    pub calc_id: u128,
}

pub struct RunMassCalcResponse {
    pub calc_id: u128,
}

pub struct GetCalcStatusResponse {
    pub calc_id: u128,
    pub user_id: i64,
    pub run_dt: i64,
    pub progress: u32,
    pub duration: i64,
}

pub struct GetCalcResultResponse {
    pub calc_id: u128,
    pub user_id: i64,
    pub run_dt: i64,
    pub end_dt: Option<i64>,
    pub params: Option<CalcParams>,
    pub progress: u32,
    pub result: Option<CalcResult>,
    pub duration: Option<i64>,
}

pub struct GetUserCalcsResponse {
    pub user_id: i64,
    pub calcs: Vec<u128>,
}

pub struct ShortCalcInfo {
    pub calc_id: u128,
    pub user_id: i64,
    pub run_dt: i64,
    pub end_dt: Option<i64>,
    pub progress: u32,
}

pub struct GetActiveCalcsResponse {
    pub calcs: Vec<ShortCalcInfo>,
}

pub ghost struct ShortCalcInfoV {
    pub calc_id: u128,
    pub user_id: int,
    pub run_dt: int,
    pub end_dt: Option<int>,
    pub progress: int,
}

impl View for ShortCalcInfo {
    type V = ShortCalcInfoV;

    open spec fn view(&self) -> ShortCalcInfoV {
        ShortCalcInfoV {
            calc_id: self.calc_id,
            user_id: self.user_id as int,
            run_dt: self.run_dt as int,
            end_dt: match self.end_dt {
                Some(t) => Some(t as int),
                None => None,
            },
            progress: self.progress as int,
        }
    }
}

/// The listing form of a record.
pub open spec fn short_of(v: CalcInfoV) -> ShortCalcInfoV {
    ShortCalcInfoV {
        calc_id: v.calc_id,
        user_id: v.user_id,
        run_dt: v.run_dt,
        end_dt: v.end_dt,
        progress: v.progress,
    }
}

/// Elapsed whole seconds from `run` to `end`, truncated toward zero.
pub open spec fn secs_between(run: int, end: int) -> int {
    if end >= run {
        (end - run) / 1000
    } else {
        -((run - end) / 1000)
    }
}

/// Computes `secs_between` on machine integers.
pub fn duration_secs(run: i64, end: i64) -> (r: i64)
    ensures
        r as int == secs_between(run as int, end as int),
{
    if end >= run {
        let diff: i128 = end as i128 - run as i128;
        (diff / 1000) as i64
    } else {
        let diff: i128 = run as i128 - end as i128;
        -((diff / 1000) as i64)
    }
}

/// Creates a base job at a chosen id and time: rejected before any record
/// exists when `iterations` is zero.
pub fn run_base_calc_at(
    storage: &mut Storage,
    params: BaseCalcParams,
    calc_id: u128,
    now: i64,
) -> (r: Result<RunBaseCalcResponse, ApiError>)
    requires
        old(storage).inv(),
    ensures
        final(storage).inv(),
        params.iterations == 0 ==> (r matches Err(e) && e is BadParams && final(storage)@ == old(
            storage,
        )@),
        params.iterations != 0 ==> {
            let user_id = params.user_id as int;
            let outcome = spec_init_calc(
                old(storage)@,
                calc_id,
                user_id,
                params@,
                now as int,
            );
            &&& final(storage)@ == outcome.0
            &&& (outcome.1 ==> (r matches Ok(resp) && resp.calc_id == calc_id))
            &&& (!outcome.1 ==> (r matches Err(e) && e is Json))
        },
{
    if params.iterations == 0 {
        return Err(ApiError::BadParams(String::from_str("iterations must be > 0")));
    }
    let user_id = params.user_id;
    match storage.init_calc_at(calc_id, user_id, CalcParams::Base(params), now) {
        Ok(info) => Ok(RunBaseCalcResponse { calc_id: info.calc_id }),
        Err(e) => Err(ApiError::from_storage(e)),
    }
}

/// Creates a base job with a fresh id at the current time.
pub fn run_base_calc(storage: &mut Storage, params: BaseCalcParams) -> (r: Result<
    RunBaseCalcResponse,
    ApiError,
>)
    requires
        old(storage).inv(),
    ensures
        final(storage).inv(),
        params.iterations == 0 ==> (r matches Err(e) && e is BadParams && final(storage)@ == old(
            storage,
        )@),
        params.iterations != 0 ==> match r {
            Ok(resp) => exists|t: int|
                {
                    let outcome = #[trigger] spec_init_calc(
                        old(storage)@,
                        resp.calc_id,
                        params.user_id as int,
                        params@,
                        t,
                    );
                    final(storage)@ == outcome.0 && outcome.1
                },
            Err(e) => e is Json && exists|id: u128, t: int|
                {
                    let outcome = #[trigger] spec_init_calc(
                        old(storage)@,
                        id,
                        params.user_id as int,
                        params@,
                        t,
                    );
                    final(storage)@ == outcome.0 && !outcome.1
                },
        },
{
    let ghost pv = params@;
    let ghost uid = params.user_id as int;
    let calc_id = fresh_calc_id();
    let now = now_millis();
    let r = run_base_calc_at(storage, params, calc_id, now);
    proof {
        if r is Ok {
            assert(storage@ == (#[trigger] spec_init_calc(old(storage)@, calc_id, uid, pv, now as int)).0);
        } else if !(r->Err_0 is BadParams) {
            assert(storage@ == (#[trigger] spec_init_calc(old(storage)@, calc_id, uid, pv, now as int)).0);
        }
    }
    r
}

/// Creates a mass job at a chosen id and time: rejected before any record
/// exists when `iterations` is zero or the data series is empty.
pub fn run_mass_calc_at(
    storage: &mut Storage,
    params: MassCalcParams,
    calc_id: u128,
    now: i64,
) -> (r: Result<RunMassCalcResponse, ApiError>)
    requires
        old(storage).inv(),
    ensures
        final(storage).inv(),
        params.iterations == 0 || params.data@.len() == 0 ==> (r matches Err(e) && e is BadParams
            && final(storage)@ == old(storage)@),
        params.iterations != 0 && params.data@.len() != 0 ==> {
            let outcome = spec_init_calc(
                old(storage)@,
                calc_id,
                params.user_id as int,
                params@,
                now as int,
            );
            &&& final(storage)@ == outcome.0
            &&& (outcome.1 ==> (r matches Ok(resp) && resp.calc_id == calc_id))
            &&& (!outcome.1 ==> (r matches Err(e) && e is Json))
        },
{
    if params.iterations == 0 {
        return Err(ApiError::BadParams(String::from_str("iterations must be > 0")));
    }
    if params.data.len() == 0 {
        return Err(ApiError::BadParams(String::from_str("data must not be empty")));
    }
    let user_id = params.user_id;
    match storage.init_calc_at(calc_id, user_id, CalcParams::Mass(params), now) {
        Ok(info) => Ok(RunMassCalcResponse { calc_id: info.calc_id }),
        Err(e) => Err(ApiError::from_storage(e)),
    }
}

/// Creates a mass job with a fresh id at the current time.
pub fn run_mass_calc(storage: &mut Storage, params: MassCalcParams) -> (r: Result<
    RunMassCalcResponse,
    ApiError,
>)
    requires
        old(storage).inv(),
    ensures
        final(storage).inv(),
        params.iterations == 0 || params.data@.len() == 0 ==> (r matches Err(e) && e is BadParams
            && final(storage)@ == old(storage)@),
        params.iterations != 0 && params.data@.len() != 0 ==> match r {
            Ok(resp) => exists|t: int|
                {
                    let outcome = #[trigger] spec_init_calc(
                        old(storage)@,
                        resp.calc_id,
                        params.user_id as int,
                        params@,
                        t,
                    );
                    final(storage)@ == outcome.0 && outcome.1
                },
            Err(e) => e is Json && exists|id: u128, t: int|
                {
                    let outcome = #[trigger] spec_init_calc(
                        old(storage)@,
                        id,
                        params.user_id as int,
                        params@,
                        t,
                    );
                    final(storage)@ == outcome.0 && !outcome.1
                },
        },
{
    let ghost pv = params@;
    let ghost uid = params.user_id as int;
    let calc_id = fresh_calc_id();
    let now = now_millis();
    let r = run_mass_calc_at(storage, params, calc_id, now);
    proof {
        if r is Ok {
            assert(storage@ == (#[trigger] spec_init_calc(old(storage)@, calc_id, uid, pv, now as int)).0);
        } else if !(r->Err_0 is BadParams) {
            assert(storage@ == (#[trigger] spec_init_calc(old(storage)@, calc_id, uid, pv, now as int)).0);
        }
    }
    r
}

/// Reads the status of a job as of time `now`: its progress and the time
/// elapsed until its finish time, or until `now` while it still runs.
pub fn get_calc_status_at(storage: &Storage, calc_id: u128, now: i64) -> (r: Result<
    GetCalcStatusResponse,
    ApiError,
>)
    ensures
        match store_get(storage@, calc_key(calc_id), now as int) {
            None => r matches Err(e) && e is NotFound,
            Some(bytes) => match parse_info(bytes) {
                None => r matches Err(e) && e is Json,
                Some(v) => r matches Ok(resp) && resp.calc_id == v.calc_id && resp.user_id as int
                    == v.user_id && resp.run_dt as int == v.run_dt && resp.progress as int
                    == v.progress && resp.duration as int == secs_between(
                    v.run_dt,
                    match v.end_dt {
                        Some(t) => t,
                        None => now as int,
                    },
                ),
            },
        },
{
    match storage.get_calc_info(calc_id, now) {
        Ok(info) => {
            let until = match info.end_dt {
                Some(t) => t,
                None => now,
            };
            Ok(
                GetCalcStatusResponse {
                    calc_id: info.calc_id,
                    user_id: info.user_id,
                    run_dt: info.run_dt,
                    progress: info.progress,
                    duration: duration_secs(info.run_dt, until),
                },
            )
        },
        Err(e) => Err(ApiError::from_storage(e)),
    }
}

/// Reads the status of a job at the current time.
pub fn get_calc_status(storage: &Storage, calc_id: u128) -> (r: Result<
    GetCalcStatusResponse,
    ApiError,
>)
    ensures
        exists|t: int| #![trigger store_get(storage@, calc_key(calc_id), t)]
            match store_get(storage@, calc_key(calc_id), t) {
                None => r matches Err(e) && e is NotFound,
                Some(bytes) => match parse_info(bytes) {
                    None => r matches Err(e) && e is Json,
                    Some(v) => r matches Ok(resp) && resp.calc_id == v.calc_id
                        && resp.user_id as int == v.user_id && resp.run_dt as int == v.run_dt
                        && resp.progress as int == v.progress && resp.duration as int
                        == secs_between(
                        v.run_dt,
                        match v.end_dt {
                            Some(tt) => tt,
                            None => t,
                        },
                    ),
                },
            },
{
    let now = now_millis();
    let r = get_calc_status_at(storage, calc_id, now);
    proof {
        assert(match store_get(storage@, calc_key(calc_id), now as int) {
            None => r matches Err(e) && e is NotFound,
            Some(bytes) => match parse_info(bytes) {
                None => r matches Err(e) && e is Json,
                Some(v) => r matches Ok(resp) && resp.calc_id == v.calc_id && resp.user_id as int
                    == v.user_id && resp.run_dt as int == v.run_dt && resp.progress as int
                    == v.progress && resp.duration as int == secs_between(
                    v.run_dt,
                    match v.end_dt {
                        Some(tt) => tt,
                        None => now as int,
                    },
                ),
            },
        });
    }
    r
}

/// Reads the full record of a finished job as of time `now`. A job that is
/// still running is refused as not yet completed — distinct from an unknown
/// one — and a result is present exactly when the finish time is.
pub fn get_calc_result_at(storage: &Storage, calc_id: u128, now: i64) -> (r: Result<
    GetCalcResultResponse,
    ApiError,
>)
    ensures
        match store_get(storage@, calc_key(calc_id), now as int) {
            None => r matches Err(e) && e is NotFound,
            Some(bytes) => match parse_info(bytes) {
                None => r matches Err(e) && e is Json,
                Some(v) => {
                    if v.end_dt is None {
                        r matches Err(e) && e matches ApiError::CalculationNotCompleted(id) && id
                            == calc_id
                    } else {
                        r matches Ok(resp) && resp.calc_id == v.calc_id && resp.user_id as int
                            == v.user_id && resp.run_dt as int == v.run_dt && (match (
                            resp.end_dt,
                            v.end_dt,
                        ) {
                            (Some(a), Some(b)) => a as int == b,
                            _ => false,
                        }) && (match (resp.params, v.params) {
                            (Some(p), Some(pv)) => p@ == pv,
                            (None, None) => true,
                            _ => false,
                        }) && resp.progress as int == v.progress && (match (resp.result, v.result) {
                            (Some(rr), Some(rv)) => rr@ == rv,
                            (None, None) => true,
                            _ => false,
                        }) && (match resp.duration {
                            Some(d) => d as int == secs_between(v.run_dt, v.end_dt->0),
                            None => false,
                        })
                    }
                },
            },
        },
{
    match storage.get_calc_info(calc_id, now) {
        Ok(info) => {
            match info.end_dt {
                None => Err(ApiError::CalculationNotCompleted(calc_id)),
                Some(end) => {
                    let duration = duration_secs(info.run_dt, end);
                    Ok(
                        GetCalcResultResponse {
                            calc_id: info.calc_id,
                            user_id: info.user_id,
                            run_dt: info.run_dt,
                            end_dt: info.end_dt,
                            params: info.params,
                            progress: info.progress,
                            result: info.result,
                            duration: Some(duration),
                        },
                    )
                },
            }
        },
        Err(e) => Err(ApiError::from_storage(e)),
    }
}

/// Reads the full record of a finished job at the current time.
pub fn get_calc_result(storage: &Storage, calc_id: u128) -> (r: Result<
    GetCalcResultResponse,
    ApiError,
>)
    ensures
        r matches Err(e) && e is CalculationNotCompleted ==> exists|t: int| #![trigger
        store_get(storage@, calc_key(calc_id), t)]
            match store_get(storage@, calc_key(calc_id), t) {
                Some(bytes) => match parse_info(bytes) {
                    Some(v) => v.end_dt is None,
                    None => false,
                },
                None => false,
            },
        r matches Ok(resp) ==> resp.end_dt is Some,
{
    let now = now_millis();
    let r = get_calc_result_at(storage, calc_id, now);
    proof {
        if r is Err && r->Err_0 is CalculationNotCompleted {
            assert(match store_get(storage@, calc_key(calc_id), now as int) {
                Some(bytes) => match parse_info(bytes) {
                    Some(v) => v.end_dt is None,
                    None => false,
                },
                None => false,
            });
        }
    }
    r
}

/// Lists the jobs currently active for one user: the empty list when the
/// user has no live index record.
pub fn get_user_calcs_at(storage: &Storage, user_id: i64, now: i64) -> (r: Result<
    GetUserCalcsResponse,
    ApiError,
>)
    ensures
        match store_get(storage@, user_key(user_id as int), now as int) {
            None => r matches Ok(resp) && resp.user_id == user_id && resp.calcs@ == Seq::<
                u128,
            >::empty(),
            Some(bytes) => match crate::codec::parse_user(bytes) {
                None => r matches Err(e) && e is Json,
                Some(u) => r matches Ok(resp) && resp.user_id == user_id && resp.calcs@ == u.calcs,
            },
        },
{
    match storage.get_user_record(user_id, now) {
        Ok(u) => Ok(GetUserCalcsResponse { user_id, calcs: u.calcs }),
        Err(StorageErrors::NotFound(_)) => {
            let calcs: Vec<u128> = Vec::new();
            proof {
                assert(calcs@ =~= Seq::<u128>::empty());
            }
            Ok(GetUserCalcsResponse { user_id, calcs })
        },
        Err(e) => Err(ApiError::from_storage(e)),
    }
}

/// The active listing of a batch of stored records: every record must
/// decode, and those with no finish time are kept, in order.
pub open spec fn spec_active(vals: Seq<Seq<u8>>) -> Option<Seq<CalcInfoV>>
    decreases vals.len(),
{
    if vals.len() == 0 {
        Some(Seq::empty())
    } else {
        match parse_info(vals[0]) {
            None => None,
            Some(v) => match spec_active(vals.drop_first()) {
                None => None,
                Some(rest) => Some(
                    if v.end_dt is None {
                        seq![v] + rest
                    } else {
                        rest
                    },
                ),
            },
        }
    }
}

/// Lists every live job that has not finished, across all users, as of
/// time `now`.
pub fn get_active_calcs_at(storage: &Storage, now: i64) -> (r: Result<
    GetActiveCalcsResponse,
    ApiError,
>)
    ensures
        match spec_active(live_values(storage@, calc_info_prefix(), now as int)) {
            None => r matches Err(e) && e is Json,
            Some(infos) => r matches Ok(resp) && resp.calcs@.map_values(|c: ShortCalcInfo| c@)
                == infos.map_values(|v: CalcInfoV| short_of(v)),
        },
{
    let prefix = calc_info_prefix_vec();
    let raw = storage.get_all(&prefix, now);
    let ghost vals = live_values(storage@, calc_info_prefix(), now as int);
    let n = raw.len();
    let mut out: Vec<ShortCalcInfo> = Vec::new();
    let ghost mut acc: Seq<CalcInfoV> = Seq::empty();
    proof {
        assert(vals.skip(0) =~= vals);
        match spec_active(vals) {
            Some(all) => {
                assert(acc + all =~= all);
            },
            None => {},
        }
    }
    let mut i: usize = 0;
    while i < n
        invariant
            n == raw.len(),
            i <= n,
            vals == live_values(storage@, calc_info_prefix(), now as int),
            raw@.map_values(|v: Vec<u8>| v@) == vals,
            out@.len() == acc.len(),
            forall|j: int| 0 <= j < acc.len() ==> #[trigger] out@[j]@ == short_of(acc[j]),
            match spec_active(vals.skip(i as int)) {
                None => spec_active(vals) is None,
                Some(rest) => spec_active(vals) == Some(acc + rest),
            },
        decreases n - i,
    {
        proof {
            assert(vals[i as int] == raw@[i as int]@);
            assert(vals.skip(i as int)[0] == vals[i as int]);
            assert(vals.skip(i as int).drop_first() =~= vals.skip(i + 1));
        }
        let info = match crate::codec::decode_calc_info(&raw[i]) {
            Some(info) => info,
            None => {
                proof {
                    assert(parse_info(vals[i as int]) is None);
                    assert(spec_active(vals.skip(i as int)) is None);
                    assert(spec_active(vals) is None);
                }
                return Err(ApiError::Json(String::from_str("job record is corrupt")));
            },
        };
        let keep = match info.end_dt {
            None => true,
            Some(_) => false,
        };
        if keep {
            let short = ShortCalcInfo {
                calc_id: info.calc_id,
                user_id: info.user_id,
                run_dt: info.run_dt,
                end_dt: info.end_dt,
                progress: info.progress,
            };
            out.push(short);
            proof {
                acc = acc.push(info@);
                match spec_active(vals.skip(i + 1)) {
                    Some(rest2) => {
                        assert(acc + rest2 =~= acc.drop_last() + (seq![info@] + rest2));
                    },
                    None => {},
                }
            }
        }
        i = i + 1;
    }
    proof {
        assert(vals.skip(n as int) =~= Seq::<Seq<u8>>::empty());
        match spec_active(vals) {
            Some(all) => {
                assert(all =~= acc);
                assert(out@.map_values(|c: ShortCalcInfo| c@) =~= all.map_values(
                    |v: CalcInfoV| short_of(v),
                ));
            },
            None => {},
        }
    }
    Ok(GetActiveCalcsResponse { calcs: out })
}

/// Lists every running job at the current time.
pub fn get_active_calcs(storage: &Storage) -> (r: Result<GetActiveCalcsResponse, ApiError>)
    ensures
        exists|t: int| #![trigger live_values(storage@, calc_info_prefix(), t)]
            match spec_active(live_values(storage@, calc_info_prefix(), t)) {
                None => r matches Err(e) && e is Json,
                Some(infos) => r matches Ok(resp) && resp.calcs@.map_values(|c: ShortCalcInfo| c@)
                    == infos.map_values(|v: CalcInfoV| short_of(v)),
            },
{
    let now = now_millis();
    let r = get_active_calcs_at(storage, now);
    proof {
        assert(match spec_active(live_values(storage@, calc_info_prefix(), now as int)) {
            None => r matches Err(e) && e is Json,
            Some(infos) => r matches Ok(resp) && resp.calcs@.map_values(|c: ShortCalcInfo| c@)
                == infos.map_values(|v: CalcInfoV| short_of(v)),
        });
    }
    r
}

/// Lists the active jobs of `user_id` at the current time.
pub fn get_user_calcs(storage: &Storage, user_id: i64) -> (r: Result<
    GetUserCalcsResponse,
    ApiError,
>)
    ensures
        exists|t: int| #![trigger store_get(storage@, user_key(user_id as int), t)]
            match store_get(storage@, user_key(user_id as int), t) {
                None => r matches Ok(resp) && resp.user_id == user_id && resp.calcs@ == Seq::<
                    u128,
                >::empty(),
                Some(bytes) => match crate::codec::parse_user(bytes) {
                    None => r matches Err(e) && e is Json,
                    Some(u) => r matches Ok(resp) && resp.user_id == user_id && resp.calcs@
                        == u.calcs,
                },
            },
{
    let now = now_millis();
    let r = get_user_calcs_at(storage, user_id, now);
    proof {
        assert(match store_get(storage@, user_key(user_id as int), now as int) {
            None => r matches Ok(resp) && resp.user_id == user_id && resp.calcs@ == Seq::<
                u128,
            >::empty(),
            Some(bytes) => match crate::codec::parse_user(bytes) {
                None => r matches Err(e) && e is Json,
                Some(u) => r matches Ok(resp) && resp.user_id == user_id && resp.calcs@ == u.calcs,
            },
        });
    }
    r
}

} // verus!
