//! Access decisions for SSH hosts whose authorized keys come from an on-chain registry:
//! which key lines `sshd` may be handed, which wallet a Unix user maps to, when a disk
//! snapshot may stand in for the chain, and the admin tool's own decisions (its files,
//! its private key file, remote shell quoting, cluster checks).

mod address;
mod admin;
mod authorized_keys;
mod clock;
mod cluster;
mod sentinel;
mod shell;
mod text;

pub use address::{
    parse_address, wallet_cache_file_name, wallet_cache_tmp_file_name, zero_address, Address,
};
pub use admin::{
    default_config_path, default_hosts_path, join_path, resolve_config_path,
    signer_key_from_hex, SignerKeyError,
};
pub use authorized_keys::{is_safe_authorized_key_line, sanitize_keys_arc, MAX_KEY_LINE_BYTES};
pub use clock::{now_unix, seconds_or_zero};
pub use cluster::{
    cluster_probes, doctor_reported_ok, host_label, host_status_line, remote_doctor_command,
    ssh_doctor_args, ssh_target, ClusterError, HostEntry, HostProbe, HostsConfig,
};
pub use sentinel::{
    check_username, config_path, default_disk_fallback_ttl_secs, default_users_path,
    doctor_probe_wallet, doctor_report, rpc_endpoint, rpc_endpoint_for, select_served_keys,
    sentinel_command, wallet_cache_entry, wallet_cache_if_fresh, wallet_for_user,
    DiskWalletCache, KeySource, RpcUrlError, SentinelCommand, SentinelConfig, ServedKeys,
    UsernameCheck, UsersFile, WalletLookupError,
};
pub use shell::shell_escape;
pub use text::{decimal_string, str_chars};
