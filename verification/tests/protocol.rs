use cordiale::protocol::{ServerCompatibility, MIN_SUPPORTED_PROTOCOL_VERSION};

#[test]
fn current_protocol_version_is_supported() {
    let compat = ServerCompatibility {
        protocol_version: MIN_SUPPORTED_PROTOCOL_VERSION,
        min_protocol_version: 1,
    };
    assert!(compat.supported_by_cordiale());
}

#[test]
fn newer_protocol_version_is_still_supported() {
    let compat = ServerCompatibility {
        protocol_version: MIN_SUPPORTED_PROTOCOL_VERSION + 25,
        min_protocol_version: 1,
    };
    assert!(compat.supported_by_cordiale());
}

#[test]
fn older_protocol_version_is_not_supported() {
    let compat = ServerCompatibility {
        protocol_version: 0,
        min_protocol_version: 0,
    };
    assert!(!compat.supported_by_cordiale());
}
