//! The stored text format: encoding shapes and decode-of-encode equality.

use calc_runner::codec::{
    decode_calc_info, decode_user_calcs, encode_calc_info, encode_user_calcs,
};
use calc_runner::records::{
    BaseCalcParams, CalcInfo, CalcParams, CalcResult, MassCalcParams, UserCalcs,
};

fn round_trips(info: &CalcInfo) {
    let bytes = encode_calc_info(info);
    let back = decode_calc_info(&bytes).expect("an encoded record must decode");
    assert_eq!(&back, info);
}

#[test]
fn fresh_record_round_trips() {
    round_trips(&CalcInfo {
        calc_id: 7,
        user_id: 1,
        run_dt: 1_700_000_000_000,
        end_dt: None,
        params: Some(CalcParams::Base(BaseCalcParams { user_id: 1, iterations: 3 })),
        progress: 0,
        result: None,
    });
}

#[test]
fn finished_mass_record_round_trips() {
    round_trips(&CalcInfo {
        calc_id: 340_282_366_920_938_463_463_374_607_431_768_211_455,
        user_id: -42,
        run_dt: -5,
        end_dt: Some(9_000_000_000_000),
        params: Some(CalcParams::Mass(MassCalcParams {
            user_id: -42,
            data: vec![1, 2, 4_294_967_295],
            iterations: 2,
        })),
        progress: 100,
        result: Some(CalcResult::Table(vec![vec![1, -2], vec![i64::MIN, i64::MAX]])),
    });
}

#[test]
fn failed_record_round_trips() {
    round_trips(&CalcInfo {
        calc_id: 0,
        user_id: 0,
        run_dt: 0,
        end_dt: Some(1),
        params: None,
        progress: 100,
        result: Some(CalcResult::Failure(b"job parameters were missing".to_vec())),
    });
}

#[test]
fn empty_series_round_trips() {
    round_trips(&CalcInfo {
        calc_id: 1,
        user_id: 2,
        run_dt: 3,
        end_dt: Some(4),
        params: None,
        progress: 100,
        result: Some(CalcResult::Series(vec![])),
    });
}

#[test]
fn encoding_is_readable_text() {
    let info = CalcInfo {
        calc_id: 7,
        user_id: 1,
        run_dt: 5,
        end_dt: None,
        params: None,
        progress: 0,
        result: None,
    };
    let bytes = encode_calc_info(&info);
    let text = String::from_utf8(bytes).unwrap();
    assert_eq!(
        text,
        "{\"calc_id\":7,\"user_id\":1,\"run_dt\":5,\"end_dt\":null,\"params\":null,\"progress\":0,\"result\":null}"
    );
}

#[test]
fn user_record_round_trips() {
    let u = UserCalcs { user_id: -3, calcs: vec![1, 2, 99] };
    let bytes = encode_user_calcs(&u);
    assert_eq!(
        String::from_utf8(bytes.clone()).unwrap(),
        "{\"user_id\":-3,\"calcs\":[1,2,99]}"
    );
    let back = decode_user_calcs(&bytes).unwrap();
    assert_eq!(back, u);
}

#[test]
fn empty_user_record_round_trips() {
    let u = UserCalcs { user_id: 0, calcs: vec![] };
    let bytes = encode_user_calcs(&u);
    let back = decode_user_calcs(&bytes).unwrap();
    assert_eq!(back, u);
}

#[test]
fn corrupt_bytes_do_not_decode() {
    assert!(decode_calc_info(&b"".to_vec()).is_none());
    assert!(decode_calc_info(&b"{\"calc_id\":oops}".to_vec()).is_none());
    assert!(decode_calc_info(&b"{\"user_id\":1,\"calcs\":[]}".to_vec()).is_none());
    assert!(decode_user_calcs(&b"{\"user_id\":1,\"calcs\":[1,]}".to_vec()).is_none());
    // trailing bytes are refused
    let info = CalcInfo {
        calc_id: 7,
        user_id: 1,
        run_dt: 5,
        end_dt: None,
        params: None,
        progress: 0,
        result: None,
    };
    let mut bytes = encode_calc_info(&info);
    bytes.push(b' ');
    assert!(decode_calc_info(&bytes).is_none());
}

#[test]
fn record_keys_have_the_documented_shape() {
    let key = CalcInfo::to_key(12_345);
    assert_eq!(String::from_utf8(key).unwrap(), "CALC_INFO:12345");
    let ukey = UserCalcs::to_key(-7);
    assert_eq!(String::from_utf8(ukey).unwrap(), "USER_CALCS:-7");
}
