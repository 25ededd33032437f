//! Error taxonomy, status codes and duration arithmetic.

use calc_runner::api::{duration_secs, ApiError};
use calc_runner::store::StorageErrors;

#[test]
fn status_codes_match_the_taxonomy() {
    assert_eq!(ApiError::BadParams("x".to_string()).status_code(), 400);
    assert_eq!(ApiError::Json("x".to_string()).status_code(), 400);
    assert_eq!(
        ApiError::StorageError(StorageErrors::Pool("x".to_string())).status_code(),
        500
    );
    assert_eq!(ApiError::NotFound.status_code(), 404);
    assert_eq!(ApiError::CalculationNotCompleted(7).status_code(), 400);
}

#[test]
fn storage_errors_lift_as_documented() {
    assert!(matches!(
        ApiError::from_storage(StorageErrors::NotFound("k".to_string())),
        ApiError::NotFound
    ));
    assert!(matches!(
        ApiError::from_storage(StorageErrors::Json("bad".to_string())),
        ApiError::Json(_)
    ));
    assert!(matches!(
        ApiError::from_storage(StorageErrors::Pool("down".to_string())),
        ApiError::StorageError(_)
    ));
    assert!(matches!(
        ApiError::from_storage(StorageErrors::Client("lost".to_string())),
        ApiError::StorageError(_)
    ));
}

#[test]
fn durations_truncate_toward_zero() {
    assert_eq!(duration_secs(0, 5_000), 5);
    assert_eq!(duration_secs(0, 5_999), 5);
    assert_eq!(duration_secs(1_000, 1_000), 0);
    assert_eq!(duration_secs(5_000, 0), -5);
    assert_eq!(duration_secs(i64::MIN, i64::MAX), (u64::MAX / 1000) as i64);
}

#[test]
fn response_bodies_carry_the_documented_wording() {
    assert_eq!(ApiError::NotFound.to_response().error, "not found");
    assert_eq!(
        ApiError::BadParams("ignored".to_string()).to_response().error,
        "bad params"
    );
    assert_eq!(
        ApiError::CalculationNotCompleted(3).to_response().error,
        "calculation not completed"
    );
}
