use cordiale::credentials::{
    credential_key, deobfuscate, obfuscate, CredentialError, CredentialMap,
};

#[test]
fn obfuscate_round_trips_a_secret() {
    let secret = "correct horse battery staple";
    let obfuscated = obfuscate(secret);
    assert_ne!(obfuscated, secret.as_bytes());
    assert_eq!(deobfuscate(&obfuscated).expect("deobfuscate"), secret);
}

#[test]
fn every_secret_reads_back() {
    for secret in ["", "x", "h\u{e9}\u{1f3b5}", "0123456789012345678901234567890123456789!"] {
        assert_eq!(deobfuscate(&obfuscate(secret)), Ok(secret.to_string()));
    }
}

#[test]
fn secrets_are_mixed_with_the_pattern() {
    assert_eq!(obfuscate("cordiale-"), vec![0u8; 9]);
    assert_eq!(obfuscate("d"), vec![7u8]);
}

#[test]
fn corrupted_secrets_are_errors() {
    assert_eq!(
        deobfuscate(&[0xff ^ 99]),
        Err(CredentialError::Backend(
            "corrupted fallback credential".to_string()
        ))
    );
}

#[test]
fn the_map_keeps_sets_and_forgets_secrets() {
    let mut map = CredentialMap::new();
    assert_eq!(map.get_secret("https://irc.sindro.me", "vjt"), Ok(None));
    map.set_secret("https://irc.sindro.me", "vjt", "s3cr3t");
    assert_eq!(
        map.get_secret("https://irc.sindro.me", "vjt"),
        Ok(Some("s3cr3t".to_string()))
    );
    map.set_secret("https://irc.sindro.me", "vjt", "other");
    assert_eq!(
        map.get_secret("https://irc.sindro.me", "vjt"),
        Ok(Some("other".to_string()))
    );
    map.delete_secret("https://irc.sindro.me", "vjt");
    assert_eq!(map.get_secret("https://irc.sindro.me", "vjt"), Ok(None));
    map.delete_secret("https://irc.sindro.me", "vjt");
}

#[test]
fn the_map_keeps_service_and_username_distinct() {
    let mut map = CredentialMap::new();
    map.set_secret("server-a", "alice", "one");
    map.set_secret("server-b", "alice", "two");
    assert_eq!(
        map.get_secret("server-a", "alice"),
        Ok(Some("one".to_string()))
    );
    assert_eq!(
        map.get_secret("server-b", "alice"),
        Ok(Some("two".to_string()))
    );
    assert_ne!(credential_key("a", "bc"), credential_key("ab", "c"));
}

#[test]
fn the_last_change_of_each_profile_counts() {
    let mut map = CredentialMap::new();
    map.set_secret("a", "x", "1");
    map.set_secret("b", "x", "2");
    map.delete_secret("a", "x");
    map.set_secret("a", "y", "3");
    map.set_secret("b", "x", "4");
    map.set_secret("a", "x", "5");
    map.delete_secret("a", "y");
    assert_eq!(map.get_secret("a", "x"), Ok(Some("5".to_string())));
    assert_eq!(map.get_secret("b", "x"), Ok(Some("4".to_string())));
    assert_eq!(map.get_secret("a", "y"), Ok(None));
    assert_eq!(map.get_secret("b", "y"), Ok(None));
}
