//! The job registry: creating a job record and its user index entry,
//! reading records back, and the two mutations a runner task performs —
//! progress updates and final results.

use vstd::prelude::*;
use vstd::string::*;

use crate::clock::now_millis;
use crate::codec::{
    decode_calc_info, decode_user_calcs, enc_info, enc_user, encode_calc_info, encode_user_calcs,
    parse_info, parse_user,
};
use crate::ids::fresh_calc_id;
use crate::records::{
    calc_key, seq_remove_id, user_key, CalcInfo, CalcInfoV, CalcParams, CalcParamsV, CalcResult,
    UserCalcs, UserCalcsV, CALC_INFO_TTL_SECONDS, USER_CALC_TTL_SECONDS,
};
use crate::store::{expiry_of, store_del, store_get, store_set, EntryV, Storage, StorageErrors};

verus! {

/// The record a fresh submission persists: zero progress, no finish time,
/// no result.
pub open spec fn spec_new_info(calc_id: u128, user_id: int, params: CalcParamsV, now: int) -> CalcInfoV {
    CalcInfoV {
        calc_id,
        user_id,
        run_dt: now,
        end_dt: None,
        params: Some(params),
        progress: 0,
        result: None,
    }
}

/// The user index after listing `calc_id` for `user_id`: a fresh index when
/// none is live, the stored one with `calc_id` added otherwise; `None` when
/// the stored one cannot be decoded.
pub open spec fn spec_user_after_add(
    s: Seq<EntryV>,
    user_id: int,
    calc_id: u128,
    now: int,
) -> Option<UserCalcsV> {
    match store_get(s, user_key(user_id), now) {
        None => Some(UserCalcsV { user_id, calcs: seq![calc_id] }),
        Some(bytes) => match parse_user(bytes) {
            None => None,
            Some(u) => Some(
                UserCalcsV {
                    user_id: u.user_id,
                    calcs: if u.calcs.contains(calc_id) {
                        u.calcs
                    } else {
                        u.calcs.push(calc_id)
                    },
                },
            ),
        },
    }
}

/// The store after creating a job: the job record is written first, then
/// the user index; a corrupt index (second component false) leaves the job
/// record written but the index untouched.
pub open spec fn spec_init_calc(
    s: Seq<EntryV>,
    calc_id: u128,
    user_id: int,
    params: CalcParamsV,
    now: int,
) -> (Seq<EntryV>, bool) {
    let info = spec_new_info(calc_id, user_id, params, now);
    let mid = store_set(
        s,
        calc_key(calc_id),
        enc_info(info),
        expiry_of(now, CALC_INFO_TTL_SECONDS as int),
    );
    match spec_user_after_add(mid, user_id, calc_id, now) {
        None => (mid, false),
        Some(u) => (
            store_set(
                mid,
                user_key(user_id),
                enc_user(u),
                expiry_of(now, USER_CALC_TTL_SECONDS as int),
            ),
            true,
        ),
    }
}

/// What a registry mutation did to the store.
pub ghost enum RegOutcome {
    Done,
    Missing,
    Corrupt,
}

/// The store after a progress update: the record is re-read, rewritten with
/// the new figure, and its time to live refreshed.
pub open spec fn spec_update_progress(
    s: Seq<EntryV>,
    calc_id: u128,
    progress: int,
    now: int,
) -> (Seq<EntryV>, RegOutcome) {
    match store_get(s, calc_key(calc_id), now) {
        None => (s, RegOutcome::Missing),
        Some(bytes) => match parse_info(bytes) {
            None => (s, RegOutcome::Corrupt),
            Some(v) => (
                store_set(
                    s,
                    calc_key(calc_id),
                    enc_info(CalcInfoV { progress, ..v }),
                    expiry_of(now, CALC_INFO_TTL_SECONDS as int),
                ),
                RegOutcome::Done,
            ),
        },
    }
}

/// The completed form of a record: full progress, finish time `now`, and
/// the given result.
pub open spec fn spec_completed(v: CalcInfoV, result: crate::records::CalcResultV, now: int) -> CalcInfoV {
    CalcInfoV { progress: 100, end_dt: Some(now), result: Some(result), ..v }
}

/// The store after a result is recorded: the job record is completed, then
/// the job is delisted from its owner's index, which is deleted when it
/// becomes empty.
pub open spec fn spec_set_result(
    s: Seq<EntryV>,
    calc_id: u128,
    result: crate::records::CalcResultV,
    now: int,
) -> (Seq<EntryV>, RegOutcome) {
    match store_get(s, calc_key(calc_id), now) {
        None => (s, RegOutcome::Missing),
        Some(bytes) => match parse_info(bytes) {
            None => (s, RegOutcome::Corrupt),
            Some(v) => {
                let mid = store_set(
                    s,
                    calc_key(calc_id),
                    enc_info(spec_completed(v, result, now)),
                    expiry_of(now, CALC_INFO_TTL_SECONDS as int),
                );
                match store_get(mid, user_key(v.user_id), now) {
                    None => (mid, RegOutcome::Missing),
                    Some(ubytes) => match parse_user(ubytes) {
                        None => (mid, RegOutcome::Corrupt),
                        Some(u) => {
                            let left = seq_remove_id(u.calcs, calc_id);
                            if left.len() == 0 {
                                (store_del(mid, user_key(v.user_id)), RegOutcome::Done)
                            } else {
                                (
                                    store_set(
                                        mid,
                                        user_key(v.user_id),
                                        enc_user(UserCalcsV { user_id: u.user_id, calcs: left }),
                                        expiry_of(now, USER_CALC_TTL_SECONDS as int),
                                    ),
                                    RegOutcome::Done,
                                )
                            }
                        },
                    },
                }
            },
        },
    }
}

impl Storage {
    /// Reads and decodes the job record of `calc_id` as of time `now`.
    pub fn get_calc_info(&self, calc_id: u128, now: i64) -> (r: Result<CalcInfo, StorageErrors>)
        ensures
            match store_get(self@, calc_key(calc_id), now as int) {
                None => r matches Err(e) && e is NotFound,
                Some(bytes) => match parse_info(bytes) {
                    Some(v) => r matches Ok(info) && info@ == v,
                    None => r matches Err(e) && e is Json,
                },
            },
    {
        let key = CalcInfo::to_key(calc_id);
        match self.get(&key, now) {
            Ok(bytes) => match decode_calc_info(&bytes) {
                Some(info) => Ok(info),
                None => Err(StorageErrors::Json(String::from_str("job record is corrupt"))),
            },
            Err(e) => Err(e),
        }
    }

    /// Reads and decodes the user index record of `user_id` as of time `now`.
    pub fn get_user_record(&self, user_id: i64, now: i64) -> (r: Result<UserCalcs, StorageErrors>)
        ensures
            match store_get(self@, user_key(user_id as int), now as int) {
                None => r matches Err(e) && e is NotFound,
                Some(bytes) => match parse_user(bytes) {
                    Some(v) => r matches Ok(u) && u@ == v,
                    None => r matches Err(e) && e is Json,
                },
            },
    {
        let key = UserCalcs::to_key(user_id);
        match self.get(&key, now) {
            Ok(bytes) => match decode_user_calcs(&bytes) {
                Some(u) => Ok(u),
                None => Err(StorageErrors::Json(String::from_str("user index is corrupt"))),
            },
            Err(e) => Err(e),
        }
    }

    /// Creates the initial record of a new job at time `now` and lists it in
    /// its owner's index.
    pub fn init_calc_at(
        &mut self,
        calc_id: u128,
        user_id: i64,
        params: CalcParams,
        now: i64,
    ) -> (r: Result<CalcInfo, StorageErrors>)
        requires
            old(self).inv(),
        ensures
            final(self).inv(),
            final(self)@ == spec_init_calc(old(self)@, calc_id, user_id as int, params@, now as int).0,
            spec_init_calc(old(self)@, calc_id, user_id as int, params@, now as int).1 ==> (
            r matches Ok(info) && info@ == spec_new_info(calc_id, user_id as int, params@, now as int)),
            !spec_init_calc(old(self)@, calc_id, user_id as int, params@, now as int).1 ==> (
            r matches Err(e) && e is Json),
    {
        let ghost pv = params@;
        let info = CalcInfo::new(calc_id, user_id, Some(params), now);
        let bytes = encode_calc_info(&info);
        let key = info.key();
        self.set(key, bytes, CALC_INFO_TTL_SECONDS, now);
        let ukey = UserCalcs::to_key(user_id);
        let mut index = match self.get(&ukey, now) {
            Ok(stored) => match decode_user_calcs(&stored) {
                Some(u) => u,
                None => {
                    return Err(
                        StorageErrors::Json(String::from_str("user index is corrupt")),
                    );
                },
            },
            Err(_) => UserCalcs::new(user_id),
        };
        index.add_calc(calc_id);
        let ubytes = encode_user_calcs(&index);
        self.set(ukey, ubytes, USER_CALC_TTL_SECONDS, now);
        Ok(info)
    }

    /// Creates a new job for `user_id` with a fresh id at the current time.
    pub fn init_calc(&mut self, user_id: i64, params: CalcParams) -> (r: Result<
        CalcInfo,
        StorageErrors,
    >)
        requires
            old(self).inv(),
        ensures
            final(self).inv(),
            r matches Ok(info) ==> {
                &&& info@ == spec_new_info(info.calc_id, user_id as int, params@, info.run_dt as int)
                &&& final(self)@ == spec_init_calc(
                    old(self)@,
                    info.calc_id,
                    user_id as int,
                    params@,
                    info.run_dt as int,
                ).0
                &&& spec_init_calc(
                    old(self)@,
                    info.calc_id,
                    user_id as int,
                    params@,
                    info.run_dt as int,
                ).1
            },
            r matches Err(e) ==> e is Json && exists|id: u128, t: int|
                final(self)@ == (#[trigger] spec_init_calc(old(self)@, id, user_id as int, params@, t)).0
                    && !spec_init_calc(old(self)@, id, user_id as int, params@, t).1,
    {
        let ghost pv = params@;
        let calc_id = fresh_calc_id();
        let now = now_millis();
        let r = self.init_calc_at(calc_id, user_id, params, now);
        proof {
            if r is Err {
                assert(self@ == (#[trigger] spec_init_calc(
                    old(self)@,
                    calc_id,
                    user_id as int,
                    pv,
                    now as int,
                )).0 && !spec_init_calc(old(self)@, calc_id, user_id as int, pv, now as int).1);
            }
        }
        r
    }

    /// Rewrites the record of `calc_id` with a new progress figure.
    pub fn update_progress_at(&mut self, calc_id: u128, progress: u32, now: i64) -> (r: Result<
        (),
        StorageErrors,
    >)
        requires
            old(self).inv(),
            progress <= 100,
        ensures
            final(self).inv(),
            final(self)@ == spec_update_progress(old(self)@, calc_id, progress as int, now as int).0,
            match spec_update_progress(old(self)@, calc_id, progress as int, now as int).1 {
                RegOutcome::Done => r is Ok,
                RegOutcome::Missing => r matches Err(e) && e is NotFound,
                RegOutcome::Corrupt => r matches Err(e) && e is Json,
            },
    {
        let mut info = match self.get_calc_info(calc_id, now) {
            Ok(info) => info,
            Err(e) => {
                return Err(e);
            },
        };
        info.update_progress(progress);
        let bytes = encode_calc_info(&info);
        let key = CalcInfo::to_key(calc_id);
        self.set(key, bytes, CALC_INFO_TTL_SECONDS, now);
        Ok(())
    }

    /// Updates the progress of `calc_id` at the current time.
    pub fn update_progress(&mut self, calc_id: u128, progress: u32) -> (r: Result<
        (),
        StorageErrors,
    >)
        requires
            old(self).inv(),
            progress <= 100,
        ensures
            final(self).inv(),
            exists|t: int|
                {
                    &&& final(self)@ == (#[trigger] spec_update_progress(
                        old(self)@,
                        calc_id,
                        progress as int,
                        t,
                    )).0
                    &&& match spec_update_progress(old(self)@, calc_id, progress as int, t).1 {
                        RegOutcome::Done => r is Ok,
                        RegOutcome::Missing => r matches Err(e) && e is NotFound,
                        RegOutcome::Corrupt => r matches Err(e) && e is Json,
                    }
                },
    {
        let now = now_millis();
        let r = self.update_progress_at(calc_id, progress, now);
        proof {
            assert(self@ == (#[trigger] spec_update_progress(
                old(self)@,
                calc_id,
                progress as int,
                now as int,
            )).0);
        }
        r
    }

    /// Completes the record of `calc_id` with `result` at time `now`, then
    /// delists the job from its owner's index, deleting the index when it
    /// holds nothing else.
    pub fn set_result_at(&mut self, calc_id: u128, result: CalcResult, now: i64) -> (r: Result<
        (),
        StorageErrors,
    >)
        requires
            old(self).inv(),
        ensures
            final(self).inv(),
            final(self)@ == spec_set_result(old(self)@, calc_id, result@, now as int).0,
            match spec_set_result(old(self)@, calc_id, result@, now as int).1 {
                RegOutcome::Done => r is Ok,
                RegOutcome::Missing => r matches Err(e) && e is NotFound,
                RegOutcome::Corrupt => r matches Err(e) && e is Json,
            },
    {
        let ghost rv = result@;
        let mut info = match self.get_calc_info(calc_id, now) {
            Ok(info) => info,
            Err(e) => {
                return Err(e);
            },
        };
        let owner = info.user_id;
        info.set_result(result, now);
        let bytes = encode_calc_info(&info);
        let key = CalcInfo::to_key(calc_id);
        self.set(key, bytes, CALC_INFO_TTL_SECONDS, now);
        let mut index = match self.get_user_record(owner, now) {
            Ok(u) => u,
            Err(e) => {
                return Err(e);
            },
        };
        index.remove_calc(calc_id);
        let ukey = UserCalcs::to_key(owner);
        if index.calcs.len() == 0 {
            self.delete(&ukey);
        } else {
            let ubytes = encode_user_calcs(&index);
            self.set(ukey, ubytes, USER_CALC_TTL_SECONDS, now);
        }
        Ok(())
    }

    /// Records the result of `calc_id` at the current time.
    pub fn set_result(&mut self, calc_id: u128, result: CalcResult) -> (r: Result<
        (),
        StorageErrors,
    >)
        requires
            old(self).inv(),
        ensures
            final(self).inv(),
            exists|t: int|
                {
                    &&& final(self)@ == (#[trigger] spec_set_result(old(self)@, calc_id, result@, t)).0
                    &&& match spec_set_result(old(self)@, calc_id, result@, t).1 {
                        RegOutcome::Done => r is Ok,
                        RegOutcome::Missing => r matches Err(e) && e is NotFound,
                        RegOutcome::Corrupt => r matches Err(e) && e is Json,
                    }
                },
    {
        let ghost rv = result@;
        let now = now_millis();
        let r = self.set_result_at(calc_id, result, now);
        proof {
            assert(self@ == (#[trigger] spec_set_result(old(self)@, calc_id, rv, now as int)).0);
        }
        r
    }
}


// --- what the registry guarantees across operations ------------------------

/// A record created by a submission starts with zero progress and neither a
/// finish time nor a result.
pub proof fn lemma_fresh_record_shape(calc_id: u128, user_id: int, params: CalcParamsV, now: int)
    ensures
        spec_new_info(calc_id, user_id, params, now).progress == 0,
        spec_new_info(calc_id, user_id, params, now).end_dt is None,
        spec_new_info(calc_id, user_id, params, now).result is None,
{
}

/// A record completed by `set_result` carries its finish time, its result
/// and full progress together.
pub proof fn lemma_completed_record_shape(v: CalcInfoV, result: crate::records::CalcResultV, now: int)
    ensures
        spec_completed(v, result, now).end_dt is Some,
        spec_completed(v, result, now).result is Some,
        spec_completed(v, result, now).progress == 100,
{
}

/// In a well-formed record the result is present exactly when the finish
/// time is.
pub proof fn lemma_result_presence(v: CalcInfoV)
    requires
        crate::records::wf_info(v),
    ensures
        v.end_dt is Some <==> v.result is Some,
{
}

/// Immediately after a successful submission, a status read of the new job
/// sees the freshly created record: zero progress and no finish time.
pub proof fn lemma_submission_then_status(
    s: Seq<EntryV>,
    calc_id: u128,
    user_id: int,
    params: CalcParamsV,
    now: int,
    later: int,
)
    requires
        crate::store::wf_store(s),
        crate::records::wf_params(params),
        crate::records::in_i64(user_id),
        crate::records::in_i64(now),
        spec_init_calc(s, calc_id, user_id, params, now).1,
        later < expiry_of(now, CALC_INFO_TTL_SECONDS as int),
    ensures
        ({
            let after = spec_init_calc(s, calc_id, user_id, params, now).0;
            match store_get(after, calc_key(calc_id), later) {
                Some(bytes) => parse_info(bytes) == Some(
                    spec_new_info(calc_id, user_id, params, now),
                ) && spec_new_info(calc_id, user_id, params, now).progress == 0 && spec_new_info(
                    calc_id,
                    user_id,
                    params,
                    now,
                ).end_dt is None,
                None => false,
            }
        }),
{
    let info = spec_new_info(calc_id, user_id, params, now);
    let e1 = expiry_of(now, CALC_INFO_TTL_SECONDS as int);
    let e2 = expiry_of(now, USER_CALC_TTL_SECONDS as int);
    let mid = store_set(s, calc_key(calc_id), enc_info(info), e1);
    crate::store::lemma_set_get(s, calc_key(calc_id), enc_info(info), e1, calc_key(calc_id), later);
    let u = spec_user_after_add(mid, user_id, calc_id, now)->0;
    crate::records::lemma_keys_disjoint(calc_id, user_id);
    crate::store::lemma_set_get(
        mid,
        user_key(user_id),
        enc_user(u),
        e2,
        calc_key(calc_id),
        later,
    );
    crate::codec::lemma_info_round_trip(info);
}

/// Two submissions with distinct fresh ids both stand in the owner's index
/// afterwards, as long as neither write has expired in between.
pub proof fn lemma_two_submissions_listed(
    s: Seq<EntryV>,
    id1: u128,
    id2: u128,
    user_id: int,
    p1: CalcParamsV,
    p2: CalcParamsV,
    t1: int,
    t2: int,
    later: int,
)
    requires
        crate::store::wf_store(s),
        crate::records::in_i64(user_id),
        id1 != id2,
        spec_init_calc(s, id1, user_id, p1, t1).1,
        spec_init_calc(spec_init_calc(s, id1, user_id, p1, t1).0, id2, user_id, p2, t2).1,
        t1 <= t2,
        t2 < expiry_of(t1, USER_CALC_TTL_SECONDS as int),
        later < expiry_of(t2, USER_CALC_TTL_SECONDS as int),
    ensures
        ({
            let after = spec_init_calc(
                spec_init_calc(s, id1, user_id, p1, t1).0,
                id2,
                user_id,
                p2,
                t2,
            ).0;
            match store_get(after, user_key(user_id), later) {
                Some(bytes) => match parse_user(bytes) {
                    Some(u) => u.calcs.contains(id1) && u.calcs.contains(id2),
                    None => false,
                },
                None => false,
            }
        }),
{
    let uk = user_key(user_id);
    let info1 = spec_new_info(id1, user_id, p1, t1);
    let e1c = expiry_of(t1, CALC_INFO_TTL_SECONDS as int);
    let e1u = expiry_of(t1, USER_CALC_TTL_SECONDS as int);
    let mid1 = store_set(s, calc_key(id1), enc_info(info1), e1c);
    crate::records::lemma_keys_disjoint(id1, user_id);
    crate::store::lemma_set_get(s, calc_key(id1), enc_info(info1), e1c, uk, t1);
    let u1 = spec_user_after_add(mid1, user_id, id1, t1)->0;
    let s1 = store_set(mid1, uk, enc_user(u1), e1u);
    crate::store::lemma_set_get(mid1, uk, enc_user(u1), e1u, uk, t2);
    assert(u1.calcs.contains(id1)) by {
        match store_get(mid1, uk, t1) {
            None => {
                assert(u1.calcs == seq![id1]);
                assert(u1.calcs[0] == id1);
            },
            Some(bytes) => {
                match parse_user(bytes) {
                    Some(u0) => {
                        if !u0.calcs.contains(id1) {
                            assert(u1.calcs == u0.calcs.push(id1));
                            assert(u1.calcs[u1.calcs.len() - 1] == id1);
                        }
                    },
                    None => {},
                }
            },
        }
    }
    // the second submission reads the first index back intact
    let info2 = spec_new_info(id2, user_id, p2, t2);
    let e2c = expiry_of(t2, CALC_INFO_TTL_SECONDS as int);
    let e2u = expiry_of(t2, USER_CALC_TTL_SECONDS as int);
    let mid2 = store_set(s1, calc_key(id2), enc_info(info2), e2c);
    crate::records::lemma_keys_disjoint(id2, user_id);
    crate::store::lemma_set_get(s1, calc_key(id2), enc_info(info2), e2c, uk, t2);
    assert(store_get(mid2, uk, t2) == Some(enc_user(u1)));
    crate::codec::lemma_parse_user_ranges(store_get(mid1, uk, t1)->0);
    crate::codec::lemma_user_round_trip(u1);
    let u2 = spec_user_after_add(mid2, user_id, id2, t2)->0;
    assert(u2.calcs.contains(id1) && u2.calcs.contains(id2)) by {
        if !u1.calcs.contains(id2) {
            assert(u2.calcs == u1.calcs.push(id2));
            assert(u2.calcs[u2.calcs.len() - 1] == id2);
            let i = choose|i: int| 0 <= i < u1.calcs.len() && u1.calcs[i] == id1;
            assert(u2.calcs[i] == id1);
        }
    }
    let after = store_set(mid2, uk, enc_user(u2), e2u);
    crate::store::lemma_set_get(mid2, uk, enc_user(u2), e2u, uk, later);
    crate::codec::lemma_parse_user_ranges(enc_user(u1));
    crate::codec::lemma_user_round_trip(u2);
}


/// A progress write is what a later status poll reads back, as long as the
/// record has not expired: polling observes the single writer's last value.
pub proof fn lemma_update_then_status(
    s: Seq<EntryV>,
    calc_id: u128,
    progress: int,
    now: int,
    later: int,
)
    requires
        crate::store::wf_store(s),
        0 <= progress <= 100,
        spec_update_progress(s, calc_id, progress, now).1 is Done,
        later < expiry_of(now, CALC_INFO_TTL_SECONDS as int),
    ensures
        ({
            let after = spec_update_progress(s, calc_id, progress, now).0;
            match store_get(after, calc_key(calc_id), later) {
                Some(bytes) => match parse_info(bytes) {
                    Some(v2) => v2.progress == progress,
                    None => false,
                },
                None => false,
            }
        }),
{
    let ck = calc_key(calc_id);
    let bytes = store_get(s, ck, now)->0;
    let v = parse_info(bytes)->0;
    let v2 = CalcInfoV { progress, ..v };
    let e = expiry_of(now, CALC_INFO_TTL_SECONDS as int);
    crate::store::lemma_set_get(s, ck, enc_info(v2), e, ck, later);
    crate::codec::lemma_parse_info_encodable(bytes);
    crate::codec::lemma_info_round_trip(v2);
}

/// A recorded result is what a later read sees: the record parses back
/// completed, with the given result, the finish time, and full progress.
pub proof fn lemma_set_result_then_read(
    s: Seq<EntryV>,
    calc_id: u128,
    result: crate::records::CalcResultV,
    now: int,
    later: int,
)
    requires
        crate::store::wf_store(s),
        crate::records::wf_result(result),
        crate::records::in_i64(now),
        spec_set_result(s, calc_id, result, now).1 is Done,
        later < expiry_of(now, CALC_INFO_TTL_SECONDS as int),
    ensures
        ({
            let after = spec_set_result(s, calc_id, result, now).0;
            match store_get(after, calc_key(calc_id), later) {
                Some(bytes) => match parse_info(bytes) {
                    Some(v2) => v2.progress == 100 && v2.end_dt == Some(now) && v2.result == Some(
                        result,
                    ),
                    None => false,
                },
                None => false,
            }
        }),
{
    let ck = calc_key(calc_id);
    let bytes = store_get(s, ck, now)->0;
    let v = parse_info(bytes)->0;
    let v2 = spec_completed(v, result, now);
    let e = expiry_of(now, CALC_INFO_TTL_SECONDS as int);
    let mid = store_set(s, ck, enc_info(v2), e);
    crate::store::lemma_set_get(s, ck, enc_info(v2), e, ck, later);
    crate::codec::lemma_parse_info_encodable(bytes);
    crate::codec::lemma_info_round_trip(v2);
    // the index update touches a different key
    let uk = user_key(v.user_id);
    crate::records::lemma_keys_disjoint(calc_id, v.user_id);
    let ubytes = store_get(mid, uk, now)->0;
    let u = parse_user(ubytes)->0;
    let left = seq_remove_id(u.calcs, calc_id);
    if left.len() == 0 {
        crate::store::lemma_del_get(mid, uk, ck, later);
    } else {
        crate::store::lemma_set_get(
            mid,
            uk,
            enc_user(UserCalcsV { user_id: u.user_id, calcs: left }),
            expiry_of(now, USER_CALC_TTL_SECONDS as int),
            ck,
            later,
        );
    }
}

} // verus!
