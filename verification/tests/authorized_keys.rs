use gapura::{is_safe_authorized_key_line, sanitize_keys_arc, MAX_KEY_LINE_BYTES};

#[test]
fn rejects_command_injection() {
    assert!(is_safe_authorized_key_line("ssh-ed25519 AAA foo\ncommand=\"/bin/sh\" ").is_none());
}

#[test]
fn accepts_ed25519() {
    let s = "ssh-ed25519 AAAAC3NzaC1lZDI1NTE5AAAAI test";
    assert_eq!(is_safe_authorized_key_line(s).as_deref(), Some(s));
}

#[test]
fn trims_surrounding_whitespace() {
    assert_eq!(
        is_safe_authorized_key_line("  \tssh-rsa AAAAB3 user@host \r\n").as_deref(),
        Some("ssh-rsa AAAAB3 user@host")
    );
}

#[test]
fn trims_unicode_whitespace_like_std() {
    let line = "\u{3000}\u{a0}ssh-ed25519 AAAA k\u{2029}\u{85}";
    assert_eq!(is_safe_authorized_key_line(line).as_deref(), Some(line.trim()));
    assert_eq!(line.trim(), "ssh-ed25519 AAAA k");
}

#[test]
fn white_space_set_matches_std() {
    for v in 0u32..=0x10FFFF {
        if let Some(c) = char::from_u32(v) {
            let line = format!("{c}ssh-rsa A");
            assert_eq!(
                is_safe_authorized_key_line(&line).is_some(),
                c.is_whitespace(),
                "code point {v:#x}"
            );
        }
    }
}

#[test]
fn rejects_empty_and_blank_lines() {
    assert!(is_safe_authorized_key_line("").is_none());
    assert!(is_safe_authorized_key_line(" \t\r\n ").is_none());
}

#[test]
fn rejects_interior_carriage_return_and_nul() {
    assert!(is_safe_authorized_key_line("ssh-rsa AAA\rcommand=x").is_none());
    assert!(is_safe_authorized_key_line("ssh-rsa AAA\0x").is_none());
    assert!(is_safe_authorized_key_line("ssh-rsa AAA\nssh-rsa BBB").is_none());
}

#[test]
fn accepts_every_listed_key_type() {
    for p in [
        "ssh-rsa ",
        "ssh-ed25519 ",
        "ssh-dss ",
        "ecdsa-sha2-nistp256 ",
        "ecdsa-sha2-nistp384 ",
        "ecdsa-sha2-nistp521 ",
        "sk-ssh-ed25519@openssh.com ",
        "sk-ecdsa-sha2-nistp256@openssh.com ",
    ] {
        let line = format!("{p}AAAA comment");
        assert_eq!(is_safe_authorized_key_line(&line), Some(line.clone()));
    }
}

#[test]
fn rejects_unknown_key_types_and_options() {
    assert!(is_safe_authorized_key_line("ssh-rsaAAAA").is_none());
    assert!(is_safe_authorized_key_line("SSH-RSA AAAA").is_none());
    assert!(is_safe_authorized_key_line("command=\"/bin/sh\" ssh-rsa AAAA").is_none());
    assert!(is_safe_authorized_key_line("ssh-ed25519").is_none());
    assert!(is_safe_authorized_key_line("ecdsa-sha2-nistp255 AAAA").is_none());
}

#[test]
fn byte_limit_is_inclusive() {
    assert_eq!(MAX_KEY_LINE_BYTES, 8192);
    let at_limit = format!("ssh-rsa {}", "A".repeat(8192 - 8));
    assert_eq!(at_limit.len(), 8192);
    assert_eq!(is_safe_authorized_key_line(&at_limit), Some(at_limit.clone()));
    let over = format!("ssh-rsa {}", "A".repeat(8192 - 7));
    assert!(is_safe_authorized_key_line(&over).is_none());
}

#[test]
fn byte_limit_counts_utf8_bytes() {
    let at_limit = format!("ssh-rsa {}", "\u{e9}".repeat((8192 - 8) / 2));
    assert_eq!(at_limit.len(), 8192);
    assert_eq!(is_safe_authorized_key_line(&at_limit), Some(at_limit.clone()));
    let over = format!("{at_limit}x");
    assert!(is_safe_authorized_key_line(&over).is_none());
    let padded = format!("   {at_limit}   ");
    assert_eq!(is_safe_authorized_key_line(&padded), Some(at_limit));
}

#[test]
fn sanitize_keeps_order_and_drops_refused() {
    let keys = vec![
        " ssh-ed25519 AAA one ".to_string(),
        "garbage".to_string(),
        "ssh-rsa BBB two".to_string(),
        "ssh-rsa CCC\ncommand=x".to_string(),
        "ecdsa-sha2-nistp256 DDD three".to_string(),
    ];
    let out = sanitize_keys_arc(&keys);
    assert_eq!(
        out.as_ref(),
        &vec![
            "ssh-ed25519 AAA one".to_string(),
            "ssh-rsa BBB two".to_string(),
            "ecdsa-sha2-nistp256 DDD three".to_string(),
        ]
    );
}

#[test]
fn sanitize_is_idempotent_on_example() {
    let keys = vec![
        "\tssh-dss X\t".to_string(),
        "".to_string(),
        "sk-ssh-ed25519@openssh.com Y".to_string(),
    ];
    let once = sanitize_keys_arc(&keys);
    let twice = sanitize_keys_arc(once.as_ref());
    assert_eq!(once.as_ref(), twice.as_ref());
    assert_eq!(once.len(), 2);
}

#[test]
fn sanitize_of_nothing_is_nothing() {
    let keys: Vec<String> = Vec::new();
    assert!(sanitize_keys_arc(&keys).is_empty());
}

#[test]
fn accepted_line_is_accepted_again_unchanged() {
    for line in ["  ssh-rsa AAA x  ", "\u{2003}ecdsa-sha2-nistp521 Q\t", "ssh-dss D"] {
        let once = is_safe_authorized_key_line(line).unwrap();
        assert_eq!(is_safe_authorized_key_line(&once), Some(once.clone()));
    }
}
