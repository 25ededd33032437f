//! Lifecycle scenarios against the in-memory engine, with explicit ids and
//! clocks so every expected value is exact.

use calc_runner::api::{
    get_active_calcs_at, get_calc_result_at, get_calc_status_at, get_user_calcs_at,
    run_base_calc_at, run_mass_calc_at, ApiError,
};
use calc_runner::records::{BaseCalcParams, CalcParams, CalcResult, MassCalcParams};
use calc_runner::runner::{base_calc, compute_progress, mass_calc, simulate_value};
use calc_runner::store::Storage;

const T0: i64 = 1_700_000_000_000;

#[test]
fn submit_then_status_shows_zero_progress() {
    let mut storage = Storage::new();
    let params = BaseCalcParams { user_id: 1, iterations: 3 };
    let resp = run_base_calc_at(&mut storage, params, 7, T0).unwrap();
    assert_eq!(resp.calc_id, 7);
    let status = get_calc_status_at(&storage, 7, T0 + 1000).unwrap();
    assert_eq!(status.progress, 0);
    assert_eq!(status.run_dt, T0);
    assert_eq!(status.user_id, 1);
    let result = get_calc_result_at(&storage, 7, T0 + 1000);
    assert!(matches!(result, Err(ApiError::CalculationNotCompleted(7))));
}

#[test]
fn zero_iterations_rejected_and_no_record_created() {
    let mut storage = Storage::new();
    let params = BaseCalcParams { user_id: 1, iterations: 0 };
    let r = run_base_calc_at(&mut storage, params, 9, T0);
    assert!(matches!(r, Err(ApiError::BadParams(_))));
    // no job record and no index entry appeared
    assert!(matches!(
        get_calc_status_at(&storage, 9, T0),
        Err(ApiError::NotFound)
    ));
    let active = get_active_calcs_at(&storage, T0).unwrap();
    assert!(active.calcs.is_empty());
    let user = get_user_calcs_at(&storage, 1, T0).unwrap();
    assert!(user.calcs.is_empty());
}

#[test]
fn mass_submission_validation() {
    let mut storage = Storage::new();
    let r = run_mass_calc_at(
        &mut storage,
        MassCalcParams { user_id: 2, data: vec![1, 2], iterations: 0 },
        11,
        T0,
    );
    assert!(matches!(r, Err(ApiError::BadParams(_))));
    let r = run_mass_calc_at(
        &mut storage,
        MassCalcParams { user_id: 2, data: vec![], iterations: 2 },
        11,
        T0,
    );
    assert!(matches!(r, Err(ApiError::BadParams(_))));
    let active = get_active_calcs_at(&storage, T0).unwrap();
    assert!(active.calcs.is_empty());
}

#[test]
fn two_submissions_both_listed_until_completion() {
    let mut storage = Storage::new();
    let p1 = BaseCalcParams { user_id: 5, iterations: 1 };
    let p2 = BaseCalcParams { user_id: 5, iterations: 1 };
    let a = run_base_calc_at(&mut storage, p1, 21, T0).unwrap().calc_id;
    let b = run_base_calc_at(&mut storage, p2, 22, T0 + 10).unwrap().calc_id;
    assert_ne!(a, b);
    let listed = get_user_calcs_at(&storage, 5, T0 + 20).unwrap();
    assert!(listed.calcs.contains(&a));
    assert!(listed.calcs.contains(&b));
    // completing one delists only that job
    let info_a = storage.get_calc_info(a, T0 + 20).unwrap();
    base_calc(&mut storage, &info_a, &vec![T0 + 30]).unwrap();
    let listed = get_user_calcs_at(&storage, 5, T0 + 40).unwrap();
    assert!(!listed.calcs.contains(&a));
    assert!(listed.calcs.contains(&b));
}

#[test]
fn base_scenario_progress_and_result() {
    // submit {owner 1, iterations 3}, poll between steps, read the result
    let mut storage = Storage::new();
    let params = BaseCalcParams { user_id: 1, iterations: 3 };
    let id = run_base_calc_at(&mut storage, params, 31, T0).unwrap().calc_id;

    let mut seen = Vec::new();
    seen.push(get_calc_status_at(&storage, id, T0).unwrap().progress);
    storage
        .update_progress_at(id, compute_progress(1, 3), T0 + 1_000)
        .unwrap();
    seen.push(get_calc_status_at(&storage, id, T0 + 1_000).unwrap().progress);
    storage
        .update_progress_at(id, compute_progress(2, 3), T0 + 2_000)
        .unwrap();
    seen.push(get_calc_status_at(&storage, id, T0 + 2_000).unwrap().progress);
    assert_eq!(seen, vec![0, 33, 66]);

    storage
        .update_progress_at(id, compute_progress(3, 3), T0 + 3_000)
        .unwrap();
    storage
        .set_result_at(id, CalcResult::Series(vec![1, 2, 3]), T0 + 3_000)
        .unwrap();
    let result = get_calc_result_at(&storage, id, T0 + 4_000).unwrap();
    assert_eq!(result.progress, 100);
    assert_eq!(result.end_dt, Some(T0 + 3_000));
    match result.result {
        Some(CalcResult::Series(values)) => assert_eq!(values.len(), 3),
        other => panic!("expected a series, got {:?}", other),
    }
}

#[test]
fn base_runner_records_all_samples() {
    let mut storage = Storage::new();
    let params = BaseCalcParams { user_id: 1, iterations: 3 };
    let id = run_base_calc_at(&mut storage, params, 41, T0).unwrap().calc_id;
    let info = storage.get_calc_info(id, T0).unwrap();
    let samples = vec![T0 + 1_000, T0 + 2_000, T0 + 3_000];
    base_calc(&mut storage, &info, &samples).unwrap();
    let result = get_calc_result_at(&storage, id, T0 + 4_000).unwrap();
    assert_eq!(result.progress, 100);
    assert_eq!(result.end_dt, Some(T0 + 3_000));
    assert_eq!(result.result, Some(CalcResult::Series(samples)));
}

#[test]
fn mass_scenario_rows_and_delisting() {
    // submit {owner 2, data [1,2], iterations 2}; after completion the
    // result holds two series of length two and the owner's set is empty
    let mut storage = Storage::new();
    let params = MassCalcParams { user_id: 2, data: vec![1, 2], iterations: 2 };
    let id = run_mass_calc_at(&mut storage, params, 51, T0).unwrap().calc_id;
    let info = storage.get_calc_info(id, T0).unwrap();
    let samples = vec![T0 + 10, T0 + 20, T0 + 30, T0 + 40];
    mass_calc(&mut storage, &info, &samples).unwrap();
    let result = get_calc_result_at(&storage, id, T0 + 100).unwrap();
    match result.result {
        Some(CalcResult::Table(rows)) => {
            assert_eq!(rows.len(), 2);
            assert_eq!(rows[0], vec![T0 + 10, T0 + 20]);
            assert_eq!(rows[1], vec![2 * (T0 + 30), 2 * (T0 + 40)]);
        },
        other => panic!("expected a table, got {:?}", other),
    }
    let listed = get_user_calcs_at(&storage, 2, T0 + 100).unwrap();
    assert!(listed.calcs.is_empty());
    let active = get_active_calcs_at(&storage, T0 + 100).unwrap();
    assert!(active.calcs.is_empty());
}

#[test]
fn progress_sequence_is_monotonic_and_bounded() {
    let total = 7;
    let mut last = 0;
    for done in 0..=total {
        let p = compute_progress(done, total);
        assert!(p >= last);
        assert!(p <= 100);
        last = p;
    }
    assert_eq!(last, 100);
}

#[test]
fn result_before_and_after_completion() {
    let mut storage = Storage::new();
    let params = BaseCalcParams { user_id: 3, iterations: 1 };
    let id = run_base_calc_at(&mut storage, params, 61, T0).unwrap().calc_id;
    assert!(matches!(
        get_calc_result_at(&storage, id, T0),
        Err(ApiError::CalculationNotCompleted(_))
    ));
    storage
        .set_result_at(id, CalcResult::Series(vec![5]), T0 + 500)
        .unwrap();
    let r = get_calc_result_at(&storage, id, T0 + 600).unwrap();
    assert!(r.end_dt.is_some());
    assert!(r.result.is_some());
}

#[test]
fn expired_records_are_gone() {
    let mut storage = Storage::new();
    let params = BaseCalcParams { user_id: 4, iterations: 1 };
    let id = run_base_calc_at(&mut storage, params, 71, T0).unwrap().calc_id;
    // within the hour it is there; one hour later it is not
    assert!(get_calc_status_at(&storage, id, T0 + 3_599_000).is_ok());
    assert!(matches!(
        get_calc_status_at(&storage, id, T0 + 3_600_000),
        Err(ApiError::NotFound)
    ));
}

#[test]
fn active_listing_filters_finished_jobs() {
    let mut storage = Storage::new();
    let a = run_base_calc_at(
        &mut storage,
        BaseCalcParams { user_id: 1, iterations: 1 },
        81,
        T0,
    )
    .unwrap()
    .calc_id;
    let b = run_base_calc_at(
        &mut storage,
        BaseCalcParams { user_id: 2, iterations: 1 },
        82,
        T0,
    )
    .unwrap()
    .calc_id;
    storage
        .set_result_at(a, CalcResult::Series(vec![1]), T0 + 100)
        .unwrap();
    let active = get_active_calcs_at(&storage, T0 + 200).unwrap();
    assert_eq!(active.calcs.len(), 1);
    assert_eq!(active.calcs[0].calc_id, b);
    assert_eq!(active.calcs[0].progress, 0);
}

#[test]
fn duration_uses_finish_time_once_set() {
    let mut storage = Storage::new();
    let id = run_base_calc_at(
        &mut storage,
        BaseCalcParams { user_id: 1, iterations: 1 },
        91,
        T0,
    )
    .unwrap()
    .calc_id;
    let running = get_calc_status_at(&storage, id, T0 + 5_000).unwrap();
    assert_eq!(running.duration, 5);
    storage
        .set_result_at(id, CalcResult::Series(vec![1]), T0 + 7_000)
        .unwrap();
    let done = get_calc_status_at(&storage, id, T0 + 60_000).unwrap();
    assert_eq!(done.duration, 7);
    let result = get_calc_result_at(&storage, id, T0 + 60_000).unwrap();
    assert_eq!(result.duration, Some(7));
}

#[test]
fn wall_clock_entry_points_work_end_to_end() {
    // the id- and clock-drawing paths: a fresh id from the generator, times
    // from the machine clock
    let mut storage = Storage::new();
    let r1 = storage
        .init_calc(7, CalcParams::Base(BaseCalcParams { user_id: 7, iterations: 2 }))
        .unwrap();
    let r2 = storage
        .init_calc(7, CalcParams::Base(BaseCalcParams { user_id: 7, iterations: 2 }))
        .unwrap();
    assert_ne!(r1.calc_id, r2.calc_id);
    storage.update_progress(r1.calc_id, 50).unwrap();
    storage
        .set_result(r1.calc_id, CalcResult::Series(vec![1, 2]))
        .unwrap();
    let now = chrono::Utc::now().timestamp_millis();
    let done = storage.get_calc_info(r1.calc_id, now).unwrap();
    assert_eq!(done.progress, 100);
    assert!(done.end_dt.is_some());
    let listed = calc_runner::api::get_user_calcs_at(&storage, 7, now).unwrap();
    assert!(!listed.calcs.contains(&r1.calc_id));
    assert!(listed.calcs.contains(&r2.calc_id));
}

#[test]
fn every_write_refreshes_the_time_to_live() {
    let mut storage = Storage::new();
    let id = run_base_calc_at(
        &mut storage,
        BaseCalcParams { user_id: 1, iterations: 2 },
        101,
        T0,
    )
    .unwrap()
    .calc_id;
    // touched shortly before it would expire, the record lives on
    let touch = T0 + 3_500_000;
    storage
        .update_progress_at(id, compute_progress(1, 2), touch)
        .unwrap();
    assert!(get_calc_status_at(&storage, id, T0 + 4_000_000).is_ok());
    assert!(matches!(
        get_calc_status_at(&storage, id, touch + 3_600_000),
        Err(ApiError::NotFound)
    ));
}

#[test]
fn simulated_values_wrap_instead_of_panicking() {
    assert_eq!(simulate_value(3, 4), 12);
    assert_eq!(simulate_value(i64::MAX, 2), -2);
    assert_eq!(simulate_value(-1, 3), -3);
}
