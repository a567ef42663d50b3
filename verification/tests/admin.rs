use gapura::{
    cluster_probes, default_config_path, default_hosts_path, doctor_reported_ok, host_label,
    host_status_line, join_path, remote_doctor_command, resolve_config_path, shell_escape,
    signer_key_from_hex, ssh_doctor_args, ssh_target, ClusterError, HostEntry, HostsConfig,
    SignerKeyError,
};

#[test]
fn quotes_single_quotes_for_the_shell() {
    assert_eq!(shell_escape("it's"), "'it'\\''s'");
    assert_eq!(shell_escape(""), "''");
    assert_eq!(shell_escape("/etc/gapura/sentinel.toml"), "'/etc/gapura/sentinel.toml'");
    assert_eq!(shell_escape("''"), "''\\'''\\'''");
    assert_eq!(shell_escape("a b;$(x)"), "'a b;$(x)'");
}

#[test]
fn config_paths_under_config_dir() {
    assert_eq!(
        default_config_path(Some("/home/a/.config".to_string())),
        "/home/a/.config/gapura/config.toml"
    );
    assert_eq!(
        default_config_path(Some("/home/a/.config/".to_string())),
        "/home/a/.config/gapura/config.toml"
    );
    assert_eq!(default_config_path(None), "./gapura/config.toml");
    assert_eq!(default_hosts_path(None), "./gapura/hosts.toml");
    assert_eq!(
        default_hosts_path(Some("/cfg".to_string())),
        "/cfg/gapura/hosts.toml"
    );
    assert_eq!(
        resolve_config_path(Some("/x/c.toml".to_string()), Some("/cfg".to_string())),
        "/x/c.toml"
    );
    assert_eq!(
        resolve_config_path(None, Some("/cfg".to_string())),
        "/cfg/gapura/config.toml"
    );
}

#[test]
fn join_path_matches_pathbuf() {
    for (base, part) in [("", "a"), ("/", "a"), ("x", "a"), ("x/", "a"), ("/x/y", "b.toml")] {
        let expected = std::path::Path::new(base).join(part);
        assert_eq!(join_path(base, part), expected.to_str().unwrap());
    }
}

const KEY_HEX: &str = "4c0883a69102937d6231471b5dbb6204fe5129617082792ae468d01a3f362318";

#[test]
fn reads_hex_private_key() {
    let expected: Vec<u8> = (0..32)
        .map(|i| u8::from_str_radix(&KEY_HEX[2 * i..2 * i + 2], 16).unwrap())
        .collect();
    assert_eq!(signer_key_from_hex(KEY_HEX), Ok(expected.clone()));
    assert_eq!(signer_key_from_hex(&format!("  0x{KEY_HEX}\n")), Ok(expected.clone()));
    assert_eq!(
        signer_key_from_hex(&KEY_HEX.to_uppercase()),
        Ok(expected)
    );
}

#[test]
fn refuses_non_hex_private_key() {
    assert_eq!(signer_key_from_hex(&KEY_HEX[1..]), Err(SignerKeyError::NotHex));
    assert_eq!(signer_key_from_hex(&format!("0X{KEY_HEX}")), Err(SignerKeyError::NotHex));
    assert_eq!(signer_key_from_hex("zz"), Err(SignerKeyError::NotHex));
}

#[test]
fn refuses_out_of_range_private_key() {
    let zero = "00".repeat(32);
    assert_eq!(signer_key_from_hex(&zero), Err(SignerKeyError::InvalidKey));
    let order = "FFFFFFFFFFFFFFFFFFFFFFFFFFFFFFFEBAAEDCE6AF48A03BBFD25E8CD0364141";
    assert_eq!(signer_key_from_hex(order), Err(SignerKeyError::InvalidKey));
    let below = "FFFFFFFFFFFFFFFFFFFFFFFFFFFFFFFEBAAEDCE6AF48A03BBFD25E8CD0364140";
    assert!(signer_key_from_hex(below).is_ok());
    assert_eq!(signer_key_from_hex(""), Err(SignerKeyError::InvalidKey));
    assert_eq!(signer_key_from_hex(&"11".repeat(33)), Err(SignerKeyError::InvalidKey));
}

#[test]
fn short_private_keys_within_limits() {
    assert_eq!(signer_key_from_hex(&"01".repeat(24)), Ok(vec![1u8; 24]));
    assert_eq!(signer_key_from_hex(&"01".repeat(23)), Err(SignerKeyError::InvalidKey));
}

fn host(name: Option<&str>, port: Option<u16>, sudo: bool, cfg: Option<&str>) -> HostEntry {
    HostEntry {
        name: name.map(|s| s.to_string()),
        host: "10.0.0.5".to_string(),
        port,
        user: "ops".to_string(),
        sudo,
        gapura_config: cfg.map(|s| s.to_string()),
    }
}

#[test]
fn host_labels_and_targets() {
    assert_eq!(host_label(&host(Some("r630-a"), None, false, None)), "r630-a");
    assert_eq!(host_label(&host(None, None, false, None)), "ops@10.0.0.5");
    assert_eq!(ssh_target(&host(Some("r630-a"), None, false, None)), "ops@10.0.0.5");
}

#[test]
fn remote_commands() {
    assert_eq!(remote_doctor_command(&host(None, None, false, None)), "gapura-sentinel doctor");
    assert_eq!(
        remote_doctor_command(&host(None, None, true, Some("/etc/g's.toml"))),
        "env GAPURA_CONFIG='/etc/g'\\''s.toml' sudo -u gapura-sentinel gapura-sentinel doctor"
    );
}

#[test]
fn ssh_arguments() {
    let args = ssh_doctor_args(&host(None, Some(2222), false, None));
    assert_eq!(
        args,
        vec![
            "-p", "2222", "-o", "BatchMode=yes", "-o", "ConnectTimeout=5", "ops@10.0.0.5",
            "gapura-sentinel doctor",
        ]
    );
    assert_eq!(ssh_doctor_args(&host(None, None, false, None))[1], "22");
}

#[test]
fn cluster_probe_plan() {
    let empty = HostsConfig { hosts: Vec::new() };
    assert!(matches!(cluster_probes(&empty), Err(ClusterError::NoHosts)));
    let hosts = HostsConfig {
        hosts: vec![host(Some("a"), None, false, None), host(None, Some(2200), true, None)],
    };
    let ps = cluster_probes(&hosts).ok().unwrap();
    assert_eq!(ps.len(), 2);
    assert_eq!(ps[0].label, "a");
    assert_eq!(ps[1].label, "ops@10.0.0.5");
    assert_eq!(ps[1].ssh_args[1], "2200");
    assert_eq!(ps[1].ssh_args[7], "sudo -u gapura-sentinel gapura-sentinel doctor");
}

#[test]
fn doctor_output_recognition() {
    assert!(doctor_reported_ok("ok=true\nrpc_url=x\n"));
    assert!(doctor_reported_ok("x\r\n  ok=true \r\n"));
    assert!(!doctor_reported_ok("ok=false\n"));
    assert!(!doctor_reported_ok(""));
    assert!(!doctor_reported_ok("ok=truex"));
}

#[test]
fn host_status_lines() {
    assert_eq!(host_status_line("a", true, "ok=true\n", ""), "- a: ok");
    assert_eq!(host_status_line("a", true, "hello\n", ""), "- a: warn (no ok=true)");
    assert_eq!(
        host_status_line("a", false, "", "Warning: x\nPermission denied (publickey).\n"),
        "- a: fail (Permission denied (publickey).)"
    );
    assert_eq!(host_status_line("a", false, "", ""), "- a: fail (ssh failed)");
    assert_eq!(host_status_line("a", false, "", "x\n\n"), "- a: fail ()");
    assert_eq!(host_status_line("a", false, "", "x\r"), "- a: fail (x\r)");
}

#[test]
fn lines_agree_with_std() {
    for s in ["", "a", "a\n", "a\r\nb", "a\r", "\n", "\n\n", "a\nb\r\n", "\r\n"] {
        let ours = host_status_line("h", false, "", s);
        let last = s.lines().last().unwrap_or("ssh failed");
        assert_eq!(ours, format!("- h: fail ({last})"), "input {s:?}");
    }
}

/// Reads a word the way a POSIX shell does, for words made only of single-quoted
/// parts and backslash escapes.
fn read_shell_word(w: &str) -> Option<String> {
    let mut out = String::new();
    let mut chars = w.chars();
    let mut quoted = false;
    while let Some(c) = chars.next() {
        if quoted {
            if c == '\'' {
                quoted = false;
            } else {
                out.push(c);
            }
        } else if c == '\'' {
            quoted = true;
        } else if c == '\\' {
            out.push(chars.next()?);
        } else {
            return None;
        }
    }
    if quoted {
        None
    } else {
        Some(out)
    }
}

#[test]
fn quoted_words_read_back() {
    for s in ["", "plain", "it's", "'", "''x''", "a b\n$HOME `id` \\ \"q\""] {
        assert_eq!(read_shell_word(&shell_escape(s)).as_deref(), Some(s));
    }
}

#[test]
fn key_file_prefix_and_whitespace_give_same_key() {
    let plain = signer_key_from_hex(KEY_HEX);
    for wrapped in [format!("0x{KEY_HEX}"), format!(" \t0x{KEY_HEX}\n"), format!("\u{a0}0x{KEY_HEX}\r\n")] {
        assert_eq!(signer_key_from_hex(&wrapped), plain);
    }
    let zero = "00".repeat(32);
    assert_eq!(signer_key_from_hex(&format!("\n0x{zero} ")), signer_key_from_hex(&zero));
}
