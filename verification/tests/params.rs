use std::path::PathBuf;
use weighing::params::{update_config_decisions, SharedParams};

fn params() -> SharedParams {
    SharedParams { chain: None, dev: false, base_path: None, log: None }
}

#[test]
fn explicit_chain_wins() {
    let mut p = params();
    p.chain = Some("local".to_owned());
    p.dev = true;
    assert_eq!(p.chain_key(), "local");
}

#[test]
fn dev_selects_the_dev_chain() {
    let mut p = params();
    p.dev = true;
    assert_eq!(p.chain_key(), "dev");
}

#[test]
fn no_chain_and_no_dev_gives_the_empty_key() {
    assert_eq!(params().chain_key(), "");
}

#[test]
fn custom_base_path_wins() {
    let mut p = params();
    p.base_path = Some(PathBuf::from("/custom"));
    assert_eq!(p.base_path_or(PathBuf::from("/default")), PathBuf::from("/custom"));
}

#[test]
fn missing_base_path_takes_the_default() {
    assert_eq!(params().base_path_or(PathBuf::from("/default")), PathBuf::from("/default"));
}

#[test]
fn only_a_missing_base_path_needs_the_platform_default() {
    assert!(params().needs_default_base_path());
    let mut p = params();
    p.base_path = Some(PathBuf::from("/custom"));
    assert!(!p.needs_default_base_path());
}

#[test]
fn config_fields_are_defaulted_exactly_when_unset() {
    assert_eq!(update_config_decisions(false, false, false), (true, true, true));
    assert_eq!(update_config_decisions(true, true, true), (false, false, false));
    assert_eq!(update_config_decisions(true, false, true), (false, true, false));
    assert_eq!(update_config_decisions(false, true, false), (true, false, true));
}
