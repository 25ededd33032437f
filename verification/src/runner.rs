//! The work a spawned job task performs: stepwise simulated computation
//! that reports progress through the registry and finishes with a result.
//! The task's suspensions happen outside this crate; what each resumption
//! decides and writes is here, driven by the sampled clock values.

use vstd::prelude::*;
use vstd::string::*;
use vstd::arithmetic::div_mod::{lemma_div_is_ordered, lemma_div_multiples_vanish};

use crate::api::ApiError;
use crate::records::{CalcInfo, CalcParams, CalcParamsV, CalcResult, CalcResultV};
use crate::registry::{spec_set_result, spec_update_progress, RegOutcome};
use crate::store::{EntryV, Storage, StorageErrors};

verus! {

/// Percentage of the work done after `done` of `total` steps.
pub open spec fn progress_of(done: int, total: int) -> int
    recommends
        0 < total,
{
    done * 100 / total
}

/// The progress figure stays a percentage.
pub proof fn lemma_progress_bounds(done: int, total: int)
    requires
        0 <= done <= total,
        0 < total,
    ensures
        0 <= progress_of(done, total) <= 100,
        done == total ==> progress_of(done, total) == 100,
{
    lemma_div_is_ordered(0, done * 100, total);
    assert(done * 100 <= total * 100) by (nonlinear_arith)
        requires
            0 <= done <= total,
    ;
    lemma_div_is_ordered(done * 100, total * 100, total);
    lemma_div_multiples_vanish(100, total);
    assert(total * 100 == 100 * total) by (nonlinear_arith);
}

/// The sequence of progress figures a run reports is non-decreasing and
/// bounded by the full percentage.
pub proof fn lemma_progress_monotonic(i: int, j: int, total: int)
    requires
        0 <= i <= j <= total,
        0 < total,
    ensures
        0 <= progress_of(i, total) <= progress_of(j, total) <= 100,
{
    assert(i * 100 <= j * 100) by (nonlinear_arith)
        requires
            i <= j,
    ;
    lemma_div_is_ordered(i * 100, j * 100, total);
    lemma_progress_bounds(i, total);
    lemma_progress_bounds(j, total);
}

/// Computes `progress_of` on machine integers.
pub fn compute_progress(done: u32, total: u32) -> (r: u32)
    requires
        0 < total,
        done <= total,
    ensures
        r as int == progress_of(done as int, total as int),
        r <= 100,
{
    proof {
        lemma_progress_bounds(done as int, total as int);
    }
    ((done as u64 * 100) / total as u64) as u32
}

/// The store evolution of a base run from step `i` on: one progress write
/// per sample, then the sampled series recorded as the result. The sampled
/// clock value of each step also serves as the write's time.
pub open spec fn spec_base_run(
    s: Seq<EntryV>,
    calc_id: u128,
    samples: Seq<int>,
    i: int,
) -> (Seq<EntryV>, RegOutcome)
    recommends
        0 <= i <= samples.len(),
        samples.len() >= 1,
    decreases samples.len() - i,
{
    if i < 0 || i >= samples.len() {
        spec_set_result(
            s,
            calc_id,
            CalcResultV::Series { values: samples },
            if samples.len() >= 1 {
                samples.last()
            } else {
                0
            },
        )
    } else {
        let step = spec_update_progress(
            s,
            calc_id,
            progress_of(i + 1, samples.len() as int),
            samples[i],
        );
        match step.1 {
            RegOutcome::Done => spec_base_run(step.0, calc_id, samples, i + 1),
            _ => step,
        }
    }
}

/// Makes an element-for-element copy.
fn copy_i64s(v: &Vec<i64>) -> (r: Vec<i64>)
    ensures
        r@ == v@,
{
    let n = v.len();
    let mut out: Vec<i64> = Vec::new();
    let mut i: usize = 0;
    while i < n
        invariant
            n == v.len(),
            i <= n,
            out@ == v@.take(i as int),
        decreases n - i,
    {
        out.push(v[i]);
        proof {
            assert(v@.take(i + 1) =~= v@.take(i as int).push(v@[i as int]));
        }
        i = i + 1;
    }
    proof {
        assert(v@.take(n as int) =~= v@);
    }
    out
}

/// Runs a base job to completion against the store, one sample per
/// iteration: progress after step `i` is `(i+1)*100/iterations`, and the
/// final result is the series of samples itself. Storage failures are
/// surfaced and end the run with the store as the failing step left it.
pub fn base_calc(storage: &mut Storage, info: &CalcInfo, samples: &Vec<i64>) -> (r: Result<
    (),
    ApiError,
>)
    requires
        old(storage).inv(),
        info@.params matches Some(CalcParamsV::Base { user_id, iterations }) ==> (samples@.len()
            == iterations && iterations >= 1),
    ensures
        final(storage).inv(),
        !(info@.params matches Some(CalcParamsV::Base { .. })) ==> (r matches Err(e)
            && e is BadParams && final(storage)@ == old(storage)@),
        info@.params matches Some(CalcParamsV::Base { .. }) ==> {
            let run = spec_base_run(
                old(storage)@,
                info.calc_id,
                samples@.map_values(|x: i64| x as int),
                0,
            );
            &&& final(storage)@ == run.0
            &&& match run.1 {
                RegOutcome::Done => r is Ok,
                RegOutcome::Missing => r matches Err(e) && e is NotFound,
                RegOutcome::Corrupt => r matches Err(e) && e is Json,
            }
        },
{
    let iterations = match &info.params {
        Some(CalcParams::Base(p)) => p.iterations,
        _ => {
            return Err(ApiError::BadParams(String::from_str("not a base job")));
        },
    };
    let ghost sv = samples@.map_values(|x: i64| x as int);
    let calc_id = info.calc_id;
    let mut i: u32 = 0;
    while i < iterations
        invariant
            storage.inv(),
            info@.params matches Some(CalcParamsV::Base { .. }),
            i <= iterations,
            iterations >= 1,
            samples@.len() == iterations,
            sv == samples@.map_values(|x: i64| x as int),
            calc_id == info.calc_id,
            spec_base_run(old(storage)@, calc_id, sv, 0) == spec_base_run(
                storage@,
                calc_id,
                sv,
                i as int,
            ),
        decreases iterations - i,
    {
        let sample = samples[i as usize];
        let progress = compute_progress(i + 1, iterations);
        proof {
            assert(sv[i as int] == samples@[i as int] as int);
        }
        match storage.update_progress_at(calc_id, progress, sample) {
            Ok(()) => {},
            Err(e) => {
                return Err(ApiError::from_storage(e));
            },
        }
        i = i + 1;
    }
    let last = samples[(iterations - 1) as usize];
    let values = copy_i64s(samples);
    proof {
        assert(CalcResultV::Series {
            values: values@.map_values(|x: i64| x as int),
        } == CalcResultV::Series { values: sv });
    }
    match storage.set_result_at(calc_id, CalcResult::Series(values), last) {
        Ok(()) => Ok(()),
        Err(e) => Err(ApiError::from_storage(e)),
    }
}

/// Row `d` of a mass run: each sampled value scaled by the row's datum,
/// with wrapping multiplication.
pub open spec fn spec_row(samples: Seq<int>, dval: int, d: int, iters: int) -> Seq<int> {
    Seq::new(
        iters as nat,
        |j: int| vstd::wrapping::i64_specs::wrapping_mul(
            samples[d * iters + j] as i64,
            dval as i64,
        ) as int,
    )
}

/// Every row of a mass run.
pub open spec fn spec_all_rows(samples: Seq<int>, data: Seq<int>, iters: int) -> Seq<Seq<int>> {
    Seq::new(data.len(), |d: int| spec_row(samples, data[d], d, iters))
}

/// The store evolution of a mass run from row `d` on: one progress write
/// per datum, timed by the row's last sample, then the table of rows
/// recorded as the result.
pub open spec fn spec_mass_run(
    s: Seq<EntryV>,
    calc_id: u128,
    data: Seq<int>,
    iters: int,
    samples: Seq<int>,
    d: int,
) -> (Seq<EntryV>, RegOutcome)
    recommends
        0 <= d <= data.len(),
        data.len() >= 1,
        iters >= 1,
        samples.len() == data.len() * iters,
    decreases data.len() - d,
{
    if d < 0 || d >= data.len() {
        spec_set_result(
            s,
            calc_id,
            CalcResultV::Table { rows: spec_all_rows(samples, data, iters) },
            if samples.len() >= 1 {
                samples.last()
            } else {
                0
            },
        )
    } else {
        let step = spec_update_progress(
            s,
            calc_id,
            progress_of(d + 1, data.len() as int),
            samples[(d + 1) * iters - 1],
        );
        match step.1 {
            RegOutcome::Done => spec_mass_run(step.0, calc_id, data, iters, samples, d + 1),
            _ => step,
        }
    }
}

/// Computes `progress_of` on a machine-sized total.
pub fn compute_progress_usize(done: usize, total: usize) -> (r: u32)
    requires
        0 < total,
        done <= total,
    ensures
        r as int == progress_of(done as int, total as int),
        r <= 100,
{
    proof {
        lemma_progress_bounds(done as int, total as int);
    }
    ((done as u128 * 100) / total as u128) as u32
}

/// One simulated value of a mass run: the sampled clock scaled by the
/// datum, wrapping on overflow.
pub fn simulate_value(sample: i64, n: u32) -> (r: i64)
    ensures
        r as int == vstd::wrapping::i64_specs::wrapping_mul(sample, n as i64) as int,
{
    sample.wrapping_mul(n as i64)
}

/// Runs a mass job to completion against the store: one simulated series
/// per datum, a progress write after each, and the whole table as the
/// result.
pub fn mass_calc(storage: &mut Storage, info: &CalcInfo, samples: &Vec<i64>) -> (r: Result<
    (),
    ApiError,
>)
    requires
        old(storage).inv(),
        info@.params matches Some(CalcParamsV::Mass { user_id, data, iterations }) ==> {
            &&& samples@.len() == data.len() * iterations
            &&& data.len() >= 1
            &&& iterations >= 1
        },
    ensures
        final(storage).inv(),
        !(info@.params matches Some(CalcParamsV::Mass { .. })) ==> (r matches Err(e)
            && e is BadParams && final(storage)@ == old(storage)@),
        info@.params matches Some(CalcParamsV::Mass { user_id, data, iterations }) ==> {
            let run = spec_mass_run(
                old(storage)@,
                info.calc_id,
                data,
                iterations,
                samples@.map_values(|x: i64| x as int),
                0,
            );
            &&& final(storage)@ == run.0
            &&& match run.1 {
                RegOutcome::Done => r is Ok,
                RegOutcome::Missing => r matches Err(e) && e is NotFound,
                RegOutcome::Corrupt => r matches Err(e) && e is Json,
            }
        },
{
    let (data, iterations) = match &info.params {
        Some(CalcParams::Mass(p)) => (&p.data, p.iterations),
        _ => {
            return Err(ApiError::BadParams(String::from_str("not a mass job")));
        },
    };
    let ghost sv = samples@.map_values(|x: i64| x as int);
    let ghost dv = data@.map_values(|x: u32| x as int);
    let ghost itv = iterations as int;
    let calc_id = info.calc_id;
    let dlen = data.len();
    let iters = iterations as usize;
    let slen = samples.len();
    proof {
        assert(sv.len() == dv.len() * itv);
    }
    let mut rows: Vec<Vec<i64>> = Vec::new();
    let mut d: usize = 0;
    while d < dlen
        invariant
            storage.inv(),
            info@.params matches Some(CalcParamsV::Mass { .. }),
            info@.params->Some_0->Mass_data == dv,
            info@.params->Some_0->Mass_iterations == itv,
            d <= dlen,
            dlen == data.len(),
            dlen >= 1,
            iters == iterations,
            itv == iterations as int,
            iterations >= 1,
            dv == data@.map_values(|x: u32| x as int),
            sv == samples@.map_values(|x: i64| x as int),
            samples@.len() == dv.len() * itv,
            slen == samples@.len(),
            slen == samples.len(),
            calc_id == info.calc_id,
            rows@.len() == d,
            forall|k: int|
                0 <= k < d ==> (#[trigger] rows@[k])@.map_values(|x: i64| x as int) == spec_row(
                    sv,
                    dv[k],
                    k,
                    itv,
                ),
            spec_mass_run(old(storage)@, calc_id, dv, itv, sv, 0) == spec_mass_run(
                storage@,
                calc_id,
                dv,
                itv,
                sv,
                d as int,
            ),
        decreases dlen - d,
    {
        proof {
            assert((d + 1) * itv <= dv.len() * itv) by (nonlinear_arith)
                requires
                    0 <= d,
                    d < dv.len(),
                    itv >= 1,
            ;
            assert(d * itv >= 0) by (nonlinear_arith)
                requires
                    0 <= d,
                    itv >= 1,
            ;
            assert(d * itv + (itv - 1) < dv.len() * itv) by (nonlinear_arith)
                requires
                    0 <= d,
                    d < dv.len(),
                    itv >= 1,
            ;
        }
        let dval = data[d];
        let mut row: Vec<i64> = Vec::new();
        let mut j: usize = 0;
        while j < iters
            invariant
                j <= iters,
                d < dlen,
                dlen == data.len(),
                iters == iterations,
                itv == iterations as int,
                dval == data@[d as int],
                dv == data@.map_values(|x: u32| x as int),
                sv == samples@.map_values(|x: i64| x as int),
                samples@.len() == dv.len() * itv,
                slen == samples@.len(),
                slen == samples.len(),
                dv.len() == dlen,
                d * itv >= 0,
                d * itv + (itv - 1) < dv.len() * itv,
                row@.len() == j,
                forall|k: int|
                    0 <= k < j ==> (#[trigger] row@[k]) as int == spec_row(sv, dv[d as int], d as int, itv)[k],
            decreases iters - j,
        {
            proof {
                assert(d * itv + j < dv.len() * itv) by (nonlinear_arith)
                    requires
                        0 <= j < itv,
                        0 <= d,
                        d < dv.len(),
                ;
            }
            let idx = d * iters + j;
            let value = samples[idx].wrapping_mul(dval as i64);
            proof {
                assert(sv[d * itv + j] == samples@[d * itv + j] as int);
            }
            row.push(value);
            j = j + 1;
        }
        let progress = compute_progress_usize(d + 1, dlen);
        proof {
            assert(d * itv + (itv - 1) < dv.len() * itv) by (nonlinear_arith)
                requires
                    0 <= d,
                    d < dv.len(),
                    itv >= 1,
            ;
            assert((d + 1) * itv - 1 == d * itv + (itv - 1)) by (nonlinear_arith);
        }
        let last_idx = d * iters + (iters - 1);
        proof {
            assert(sv[(d as int + 1) * itv - 1] == samples@[(d as int + 1) * itv - 1] as int);
        }
        let last = samples[last_idx];
        match storage.update_progress_at(calc_id, progress, last) {
            Ok(()) => {},
            Err(e) => {
                return Err(ApiError::from_storage(e));
            },
        }
        proof {
            assert(row@.map_values(|x: i64| x as int) =~= spec_row(sv, dv[d as int], d as int, itv));
        }
        rows.push(row);
        d = d + 1;
    }
    proof {
        assert(dv.len() * itv >= 1) by (nonlinear_arith)
            requires
                dv.len() >= 1,
                itv >= 1,
        ;
    }
    let total = dlen * iters;
    let last = samples[total - 1];
    proof {
        assert(rows@.map_values(|rr: Vec<i64>| rr@.map_values(|x: i64| x as int)) =~= spec_all_rows(
            sv,
            dv,
            itv,
        ));
        assert(sv.last() == samples@[sv.len() - 1] as int);
    }
    match storage.set_result_at(calc_id, CalcResult::Table(rows), last) {
        Ok(()) => Ok(()),
        Err(e) => Err(ApiError::from_storage(e)),
    }
}

} // verus!
