use gapura::{
    check_username, config_path, decimal_string, default_disk_fallback_ttl_secs,
    default_users_path, doctor_probe_wallet, doctor_report, now_unix, parse_address,
    select_served_keys, sentinel_command, wallet_cache_entry, wallet_cache_file_name,
    wallet_cache_if_fresh, wallet_cache_tmp_file_name, wallet_for_user, zero_address, Address,
    DiskWalletCache, KeySource, SentinelCommand, SentinelConfig, UsernameCheck, UsersFile,
    WalletLookupError,
};

fn counting_address() -> Address {
    let mut bytes = [0u8; 20];
    for (i, b) in bytes.iter_mut().enumerate() {
        *b = i as u8;
    }
    Address { bytes }
}

fn strings(v: &[&str]) -> Vec<String> {
    v.iter().map(|s| s.to_string()).collect()
}

#[test]
fn parses_prefixed_and_bare_addresses() {
    let text = "0x000102030405060708090a0b0c0d0e0f10111213";
    assert_eq!(parse_address(text), Some(counting_address()));
    assert_eq!(parse_address(&text[2..]), Some(counting_address()));
    assert_eq!(
        parse_address("0X000102030405060708090A0B0C0D0E0F10111213"),
        Some(counting_address())
    );
}

#[test]
fn refuses_malformed_addresses() {
    assert_eq!(parse_address("0x000102030405060708090a0b0c0d0e0f101112"), None);
    assert_eq!(parse_address("0x000102030405060708090a0b0c0d0e0f1011121314"), None);
    assert_eq!(parse_address("0x000102030405060708090a0b0c0d0e0f1011121g"), None);
    assert_eq!(parse_address("0y000102030405060708090a0b0c0d0e0f10111213"), None);
    assert_eq!(parse_address(""), None);
}

#[test]
fn cache_file_names_are_lower_hex() {
    let mut a = counting_address();
    a.bytes[19] = 0xAB;
    assert_eq!(
        wallet_cache_file_name(&a),
        "0x000102030405060708090a0b0c0d0e0f101112ab.json"
    );
    assert_eq!(
        wallet_cache_tmp_file_name(&a),
        "0x000102030405060708090a0b0c0d0e0f101112ab.json.tmp"
    );
}

#[test]
fn defaults_of_sentinel_config() {
    assert_eq!(default_users_path(), "/etc/gapura/users.toml");
    assert_eq!(default_disk_fallback_ttl_secs(), 300);
    assert_eq!(config_path(None), "/etc/gapura/sentinel.toml");
    assert_eq!(config_path(Some("/tmp/s.toml".to_string())), "/tmp/s.toml");
}

fn users() -> UsersFile {
    UsersFile {
        users: vec![
            ("alice".to_string(), "0x000102030405060708090a0b0c0d0e0f10111213".to_string()),
            ("bob".to_string(), "not-an-address".to_string()),
        ],
    }
}

#[test]
fn wallet_lookup_outcomes() {
    let u = users();
    assert_eq!(wallet_for_user(&u, "alice"), Ok(counting_address()));
    assert_eq!(wallet_for_user(&u, "bob"), Err(WalletLookupError::InvalidAddress));
    assert_eq!(wallet_for_user(&u, "carol"), Err(WalletLookupError::NoMapping));
    assert_eq!(wallet_for_user(&u, "Alice"), Err(WalletLookupError::NoMapping));
}

#[test]
fn command_line_forms() {
    assert_eq!(sentinel_command(&strings(&[])), SentinelCommand::Usage);
    assert_eq!(sentinel_command(&strings(&["doctor"])), SentinelCommand::Doctor);
    assert_eq!(sentinel_command(&strings(&["doctor", "x"])), SentinelCommand::Usage);
    assert_eq!(
        sentinel_command(&strings(&["alice"])),
        SentinelCommand::LookUp("alice".to_string())
    );
    assert_eq!(sentinel_command(&strings(&["alice", "bob"])), SentinelCommand::Usage);
}

#[test]
fn username_verdicts() {
    assert_eq!(check_username(""), UsernameCheck::Empty);
    assert_eq!(check_username("../etc"), UsernameCheck::Invalid);
    assert_eq!(check_username("a\0b"), UsernameCheck::Invalid);
    assert_eq!(check_username("alice"), UsernameCheck::Accepted);
    assert_eq!(check_username("al ice"), UsernameCheck::Accepted);
}

#[test]
fn snapshot_freshness() {
    let entry = DiskWalletCache { keys: strings(&["ssh-rsa A", "bad"]), updated_at_unix: 1000 };
    assert_eq!(
        wallet_cache_if_fresh(&entry, 1300, 300).map(|k| k.as_ref().clone()),
        Some(strings(&["ssh-rsa A"]))
    );
    assert!(wallet_cache_if_fresh(&entry, 1301, 300).is_none());
    assert_eq!(
        wallet_cache_if_fresh(&entry, 10, 0).map(|k| k.as_ref().clone()),
        Some(strings(&["ssh-rsa A"]))
    );
    let empty = DiskWalletCache { keys: Vec::new(), updated_at_unix: 5 };
    assert_eq!(
        wallet_cache_if_fresh(&empty, 5, 0).map(|k| k.as_ref().clone()),
        Some(Vec::new())
    );
}

#[test]
fn snapshot_entry_holds_keys_and_time() {
    let keys = strings(&["ssh-rsa A", "ssh-ed25519 B"]);
    let e = wallet_cache_entry(&keys, 42);
    assert_eq!(e.keys, keys);
    assert_eq!(e.updated_at_unix, 42);
}

#[test]
fn chain_answer_wins_over_snapshot() {
    let snap = DiskWalletCache { keys: strings(&["ssh-rsa OLD"]), updated_at_unix: 100 };
    let s = select_served_keys(Some(strings(&[" ssh-rsa NEW ", "junk"])), Some(snap), true, 100, 300);
    assert_eq!(s.source, KeySource::Chain);
    assert!(s.persist);
    assert_eq!(s.keys.as_ref(), &strings(&["ssh-rsa NEW"]));
}

#[test]
fn revoked_wallet_gets_no_key_when_chain_answers() {
    let snap = DiskWalletCache { keys: strings(&["ssh-rsa OLD"]), updated_at_unix: 100 };
    let s = select_served_keys(Some(Vec::new()), Some(snap), false, 100, 300);
    assert_eq!(s.source, KeySource::Chain);
    assert!(!s.persist);
    assert!(s.keys.is_empty());
}

#[test]
fn fresh_snapshot_stands_in_for_failed_chain() {
    let served = select_served_keys(Some(strings(&["ssh-ed25519 K"])), None, true, 0, 0);
    let snap = wallet_cache_entry(served.keys.as_ref(), 1000);
    let s = select_served_keys(None, Some(snap), true, 1300, 300);
    assert_eq!(s.source, KeySource::DiskFallback);
    assert!(!s.persist);
    assert_eq!(s.keys.as_ref(), served.keys.as_ref());
}

#[test]
fn stale_or_missing_snapshot_denies() {
    let snap = DiskWalletCache { keys: strings(&["ssh-rsa OLD"]), updated_at_unix: 100 };
    let s = select_served_keys(None, Some(snap), true, 401, 300);
    assert_eq!(s.source, KeySource::Denied);
    assert!(s.keys.is_empty());
    let s = select_served_keys(None, None, true, 401, 300);
    assert_eq!(s.source, KeySource::Denied);
    assert!(s.keys.is_empty());
}

#[test]
fn snapshot_unused_without_cache_dir() {
    let snap = DiskWalletCache { keys: strings(&["ssh-rsa OLD"]), updated_at_unix: 100 };
    let s = select_served_keys(None, Some(snap), false, 100, 300);
    assert_eq!(s.source, KeySource::Denied);
    assert!(s.keys.is_empty());
}

#[test]
fn doctor_probe_wallet_choice() {
    let t = "0x000102030405060708090a0b0c0d0e0f10111213".to_string();
    assert_eq!(doctor_probe_wallet(Some(&t)), counting_address());
    assert_eq!(doctor_probe_wallet(Some(&"nope".to_string())), zero_address());
    assert_eq!(doctor_probe_wallet(None), Address { bytes: [0u8; 20] });
}

#[test]
fn doctor_report_lines() {
    let mut cfg = SentinelConfig {
        rpc_url: "http://127.0.0.1:8545".to_string(),
        contract: "0xabc".to_string(),
        users_path: "/etc/gapura/users.toml".to_string(),
        cache_dir: None,
        disk_fallback_ttl_secs: 300,
    };
    assert_eq!(
        doctor_report(&cfg, 3),
        strings(&[
            "ok=true",
            "rpc_url=http://127.0.0.1:8545",
            "contract=0xabc",
            "users_path=/etc/gapura/users.toml",
            "users_count=3",
            "disk_fallback=disabled",
            "disk_fallback_ttl_secs=300",
        ])
    );
    cfg.cache_dir = Some("/var/lib/gapura/cache".to_string());
    cfg.disk_fallback_ttl_secs = 0;
    let lines = doctor_report(&cfg, 0);
    assert_eq!(lines[4], "users_count=0");
    assert_eq!(lines[5], "disk_fallback=enabled");
    assert_eq!(lines[6], "disk_fallback_ttl_secs=0");
    assert_eq!(lines[7], "cache_dir=/var/lib/gapura/cache");
    assert_eq!(lines.len(), 8);
}

#[test]
fn decimal_text_matches_to_string() {
    for n in [0u64, 7, 10, 99, 100, 65535, 1234567890, u64::MAX] {
        assert_eq!(decimal_string(n), n.to_string());
    }
}

#[test]
fn clock_is_past_2020() {
    assert!(now_unix() > 1_577_836_800);
}

#[test]
fn cache_file_hex_parses_back() {
    let mut a = counting_address();
    a.bytes[0] = 0xFF;
    a.bytes[7] = 0x9C;
    let name = wallet_cache_file_name(&a);
    let hex = name.strip_suffix(".json").unwrap();
    assert_eq!(parse_address(hex), Some(a));
}

#[test]
fn served_keys_pass_the_filter_unchanged() {
    let s = select_served_keys(
        Some(strings(&["\tssh-rsa A\t", "x", "sk-ecdsa-sha2-nistp256@openssh.com B"])),
        None,
        false,
        0,
        0,
    );
    assert_eq!(s.keys.len(), 2);
    for k in s.keys.iter() {
        assert_eq!(gapura::is_safe_authorized_key_line(k).as_deref(), Some(k.as_str()));
    }
}

#[test]
fn lookup_finds_entry_wherever_it_stands() {
    let u = UsersFile {
        users: vec![
            ("bob".to_string(), "nope".to_string()),
            ("carol".to_string(), "0x0000000000000000000000000000000000000000".to_string()),
            ("alice".to_string(), "000102030405060708090a0b0c0d0e0f10111213".to_string()),
        ],
    };
    assert_eq!(wallet_for_user(&u, "alice"), Ok(counting_address()));
    assert_eq!(wallet_for_user(&u, "carol"), Ok(zero_address()));
}

#[test]
fn rpc_endpoint_must_read_as_url() {
    assert_eq!(
        gapura::rpc_endpoint("https://sepolia.base.org"),
        Ok("https://sepolia.base.org".to_string())
    );
    assert_eq!(
        gapura::rpc_endpoint("http://127.0.0.1:8545"),
        Ok("http://127.0.0.1:8545".to_string())
    );
    assert_eq!(gapura::rpc_endpoint("not a url"), Err(gapura::RpcUrlError::NotUrl));
    assert_eq!(gapura::rpc_endpoint(""), Err(gapura::RpcUrlError::NotUrl));
    assert_eq!(gapura::rpc_endpoint_for("x", true), Ok("x".to_string()));
    assert_eq!(gapura::rpc_endpoint_for("x", false), Err(gapura::RpcUrlError::NotUrl));
}

#[test]
fn seconds_fall_back_to_zero() {
    assert_eq!(gapura::seconds_or_zero(Some(1_700_000_000)), 1_700_000_000);
    assert_eq!(gapura::seconds_or_zero(None), 0);
}
