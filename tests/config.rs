use liquidity_pool::config::{ConfigError, ConfigModule, StablecoinConfig, State};

const OWNER: &[u8] = b"owner-address";
const OTHER: &[u8] = b"someone-else";

#[test]
fn starts_paused() {
    let c = StablecoinConfig::new(OWNER);
    assert_eq!(c.get_state(), State::Inactive);
    assert!(!c.is_state_active());
    assert!(!c.can_swap());
}

#[test]
fn resume_needs_stablecoin() {
    let mut c = StablecoinConfig::new(OWNER);
    assert_eq!(c.resume(OWNER), Err(ConfigError::StablecoinNotIssued));
    assert_eq!(c.set_state_active_no_swaps(OWNER), Err(ConfigError::StablecoinNotIssued));
    assert_eq!(c.get_state(), State::Inactive);
    c.set_stablecoin(OWNER, b"STCOIN-123456".to_vec()).unwrap();
    c.resume(OWNER).unwrap();
    assert_eq!(c.get_state(), State::Active);
    assert!(c.is_state_active());
    assert!(c.can_swap());
    c.set_state_active_no_swaps(OWNER).unwrap();
    assert!(c.is_state_active());
    assert!(!c.can_swap());
    c.pause(OWNER).unwrap();
    assert_eq!(c.get_state(), State::Inactive);
}

#[test]
fn only_owner_configures() {
    let mut c = StablecoinConfig::new(OWNER);
    assert_eq!(c.set_stablecoin(OTHER, b"X".to_vec()), Err(ConfigError::NotOwner));
    assert_eq!(c.resume(OTHER), Err(ConfigError::NotOwner));
    assert_eq!(c.pause(OTHER), Err(ConfigError::NotOwner));
    assert_eq!(c.set_spread_fee_min_percent(OTHER, 5), Err(ConfigError::NotOwner));
    assert_eq!(c.set_pool_recovery_period(OTHER, 5), Err(ConfigError::NotOwner));
    assert_eq!(
        c.set_token_ticker(OTHER, b"T".to_vec(), b"TT".to_vec()),
        Err(ConfigError::NotOwner)
    );
    c.set_spread_fee_min_percent(OWNER, 5).unwrap();
    c.set_pool_recovery_period(OWNER, 600).unwrap();
    c.set_token_ticker(OWNER, b"T".to_vec(), b"TT".to_vec()).unwrap();
    assert_eq!(c.token_ticker(b"T"), Some(&b"TT".to_vec()));
    c.set_token_ticker(OWNER, b"T".to_vec(), b"TU".to_vec()).unwrap();
    assert_eq!(c.token_ticker(b"T"), Some(&b"TU".to_vec()));
    assert_eq!(c.token_ticker(b"U"), None);
    assert_eq!(c.get_spread_fee_min_percent(), 5);
    assert_eq!(c.get_pool_recovery_period(), 600);
}
