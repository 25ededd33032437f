//! The client-side helpers: roles, endpoint addresses, and command text.

use calc_runner::parsing::{parse_full_calc_payload, parse_numbers};
use calc_runner::roles::{get_user_role, Role};
use calc_runner::settings::BotConfig;

#[test]
fn role_priorities_grant_downward() {
    assert!(Role::Admin.is_granted(Role::Admin));
    assert!(Role::Admin.is_granted(Role::Business));
    assert!(Role::Admin.is_granted(Role::Guest));
    assert!(!Role::Business.is_granted(Role::Admin));
    assert!(Role::Business.is_granted(Role::Business));
    assert!(Role::Business.is_granted(Role::Guest));
    assert!(!Role::Guest.is_granted(Role::Admin));
    assert!(!Role::Guest.is_granted(Role::Business));
    assert!(Role::Guest.is_granted(Role::Guest));
}

#[test]
fn admin_list_decides_the_role() {
    let admins = vec![10, 20];
    assert_eq!(get_user_role(10, &admins), Role::Admin);
    assert_eq!(get_user_role(30, &admins), Role::Guest);
    assert_eq!(get_user_role(10, &vec![]), Role::Guest);
}

#[test]
fn api_url_joins_with_exactly_one_slash() {
    let config = BotConfig {
        calc_runner_url: "http://127.0.0.1:3000/api".to_string(),
        admin_user_ids: vec![],
    };
    assert_eq!(config.api_url("/calc/base_calc"), "http://127.0.0.1:3000/api/calc/base_calc");
    let config = BotConfig {
        calc_runner_url: "http://host/api///".to_string(),
        admin_user_ids: vec![],
    };
    assert_eq!(config.api_url("///stats/active_calcs"), "http://host/api/stats/active_calcs");
    let config = BotConfig { calc_runner_url: "".to_string(), admin_user_ids: vec![] };
    assert_eq!(config.api_url(""), "/");
}

#[test]
fn number_lists_parse_with_any_separator() {
    assert_eq!(parse_numbers("1,2,3"), Some(vec![1, 2, 3]));
    assert_eq!(parse_numbers("1; 2 3"), Some(vec![1, 2, 3]));
    assert_eq!(parse_numbers(" 7 "), Some(vec![7]));
    assert_eq!(parse_numbers(""), Some(vec![]));
    assert_eq!(parse_numbers(",,,"), Some(vec![]));
    assert_eq!(parse_numbers("4294967295"), Some(vec![4_294_967_295]));
}

#[test]
fn bad_number_lists_are_rejected() {
    assert_eq!(parse_numbers("1,two,3"), None);
    assert_eq!(parse_numbers("4294967296"), None);
    assert_eq!(parse_numbers("-1"), None);
    assert_eq!(parse_numbers("1,\u{661}"), None);
}

#[test]
fn payloads_need_iterations_and_data() {
    assert_eq!(parse_full_calc_payload("10 5 7 9"), Some((10, vec![5, 7, 9])));
    assert_eq!(parse_full_calc_payload("1 0"), Some((1, vec![0])));
    assert_eq!(parse_full_calc_payload("0 5"), None);
    assert_eq!(parse_full_calc_payload("10"), None);
    assert_eq!(parse_full_calc_payload(""), None);
    assert_eq!(parse_full_calc_payload("10 5,7"), None);
}
