use innernet_rp::options::PqOptions;

fn options(enable: bool, permissive: bool, interval: u64) -> PqOptions {
    PqOptions {
        enable_pq_psk: enable,
        pq_psk_permissive: permissive,
        pq_psk_rotation_interval: interval,
    }
}

#[test]
fn enablement_is_opt_in_and_production_fails_closed_before_side_effects() {
    let off = PqOptions::default();
    off.production_ready(true).unwrap();
    // `--pq-psk-permissive` alone is refused.
    assert!(options(false, true, 300).validate(true).is_err());
    assert!(options(false, true, 300).production_ready(true).is_err());
    let enabled = options(true, true, 300);
    assert!(enabled.production_ready(true).is_err());
}

#[test]
fn rotation_interval_defaults_and_rejects_zero_or_overflow() {
    let default = PqOptions::default();
    assert_eq!(default.pq_psk_rotation_interval, 300);
    default.validate(true).unwrap();
    assert!(options(false, false, 0).validate(true).is_err());
    assert!(options(false, false, u64::MAX).validate(true).is_err());
    assert!(options(false, false, 1).validate(true).is_ok());
}

#[test]
fn validation_messages_follow_the_check_order() {
    assert_eq!(
        options(false, true, 0).validate(true),
        Err("--pq-psk-permissive requires --enable-pq-psk")
    );
    assert_eq!(
        options(true, false, 300).validate(false),
        Err("PQ PSKs are supported only on Linux")
    );
    assert_eq!(
        options(true, false, 0).validate(true),
        Err("--pq-psk-rotation-interval must be positive and non-overflowing")
    );
    assert!(options(false, false, u64::MAX / 4).validate(true).is_ok());
    assert!(options(false, false, u64::MAX / 4 + 1).validate(true).is_err());
    // Off Linux, a disabled feature is still valid.
    assert!(options(false, false, 300).production_ready(false).is_ok());
}

#[test]
fn production_refuses_enabled_options_with_the_activation_message() {
    assert_eq!(
        options(true, false, 300).production_ready(true),
        Err("production PQ activation is unavailable until management recovery and the persistent traffic gate are installed and verified")
    );
    assert!(options(true, false, 300).validate(true).is_ok());
}
