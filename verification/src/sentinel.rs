//! The decisions of the `AuthorizedKeysCommand` helper: which wallet a Unix user maps
//! to, which keys are handed to `sshd`, when the disk snapshot may stand in for the
//! chain, and what `doctor` reports.

use std::sync::Arc;
use vstd::prelude::*;

use crate::address::{address_from_text, parse_address, zero_address, Address};
use crate::authorized_keys::{
    accepted_key_line, lemma_sanitize_idempotent, lemma_sanitized_key_lines_safe, sanitize_keys_arc,
    sanitized_key_lines, string_texts,
};
use crate::text::{concat, decimal, decimal_string};

verus! {

broadcast use vstd::string::group_string_axioms;

/// The sentinel's configuration (`sentinel.toml`).
pub struct SentinelConfig {
    pub rpc_url: String,
    pub contract: String,
    pub users_path: String,
    /// Directory of per-wallet JSON snapshots, used when the chain cannot be read.
    pub cache_dir: Option<String>,
    /// The oldest snapshot, in seconds, that may still be served when the chain fails.
    pub disk_fallback_ttl_secs: u64,
}

/// The user map (`users.toml`): Unix user name and wallet address text, one entry per
/// user name (see `distinct_user_names`), in no particular order.
pub struct UsersFile {
    pub users: Vec<(String, String)>,
}

/// A per-wallet snapshot of the keys last read from the chain.
pub struct DiskWalletCache {
    pub keys: Vec<String>,
    pub updated_at_unix: u64,
}

/// Why no wallet could be found for a user.
#[derive(Debug, Clone, Copy, PartialEq, Eq)]
pub enum WalletLookupError {
    /// The user is not in the user map.
    NoMapping,
    /// The user's entry is not a valid address.
    InvalidAddress,
}

/// What the command line asks of the sentinel.
#[derive(Debug, PartialEq, Eq)]
pub enum SentinelCommand {
    /// Wrong arguments: print the usage and exit with status 1.
    Usage,
    /// `doctor`: check the configuration and the chain.
    Doctor,
    /// Print the keys of this Unix user.
    LookUp(String),
}

/// The verdict on a user name handed over by `sshd`.
#[derive(Debug, Clone, Copy, PartialEq, Eq)]
pub enum UsernameCheck {
    /// Empty: print the usage and exit with status 1.
    Empty,
    /// Holds `/` or NUL: refuse, printing no key.
    Invalid,
    /// May be looked up.
    Accepted,
}

/// Where the keys handed to `sshd` came from.
#[derive(Debug, Clone, Copy, PartialEq, Eq)]
pub enum KeySource {
    /// The chain answered.
    Chain,
    /// The chain failed and a fresh disk snapshot stood in.
    DiskFallback,
    /// The chain failed and no fresh snapshot was there: no key at all.
    Denied,
}

/// The keys handed to `sshd`, where they came from, and whether to keep a snapshot.
pub struct ServedKeys {
    pub keys: Arc<Vec<String>>,
    pub source: KeySource,
    /// Whether the keys are to be written to the snapshot directory.
    pub persist: bool,
}

/// Why the configured RPC endpoint cannot be used.
#[derive(Debug, Clone, Copy, PartialEq, Eq)]
pub enum RpcUrlError {
    /// The text does not read as a URL.
    NotUrl,
}

/// Whether `s` reads as a URL by the WHATWG URL rules that `url::Url::from_str`
/// implements.
pub uninterp spec fn url_parses(s: Seq<char>) -> bool;

/// `url::Url::from_str` (the parse behind `reqwest::Url`) succeeds. Whether it does is
/// a function of the text alone; the rules it applies are not restated here.
#[verifier::external_body]
fn url_from_str_ok(s: &str) -> (ok: bool)
    ensures
        ok == url_parses(s@),
{
    s.parse::<url::Url>().is_ok()
}

/// The RPC endpoint to connect to, given the configured text `rpc_url` and whether it
/// reads as a URL (`parses`): the text itself when it does, else `NotUrl`.
pub fn rpc_endpoint_for(rpc_url: &str, parses: bool) -> (r: Result<String, RpcUrlError>)
    ensures
        match r {
            Ok(u) => parses && u@ == rpc_url@,
            Err(RpcUrlError::NotUrl) => !parses,
        },
{
    if parses {
        Ok(rpc_url.to_owned())
    } else {
        Err(RpcUrlError::NotUrl)
    }
}

/// The RPC endpoint to connect to for the configured text `rpc_url`: the text itself
/// when it reads as a URL, else `NotUrl`.
pub fn rpc_endpoint(rpc_url: &str) -> (r: Result<String, RpcUrlError>)
    ensures
        match r {
            Ok(u) => url_parses(rpc_url@) && u@ == rpc_url@,
            Err(RpcUrlError::NotUrl) => !url_parses(rpc_url@),
        },
{
    rpc_endpoint_for(rpc_url, url_from_str_ok(rpc_url))
}

/// The user map used when the configuration names none.
pub fn default_users_path() -> (p: String)
    ensures
        p@ == "/etc/gapura/users.toml"@,
{
    "/etc/gapura/users.toml".to_owned()
}

/// The snapshot age limit used when the configuration names none.
pub fn default_disk_fallback_ttl_secs() -> (t: u64)
    ensures
        t == 300,
{
    300
}

/// The configuration file: the value of `GAPURA_CONFIG` when it is set (`env_value`),
/// else `/etc/gapura/sentinel.toml`.
pub fn config_path(env_value: Option<String>) -> (p: String)
    ensures
        p@ == match env_value {
            Some(v) => v@,
            None => "/etc/gapura/sentinel.toml"@,
        },
{
    match env_value {
        Some(v) => v,
        None => "/etc/gapura/sentinel.toml".to_owned(),
    }
}

/// The wallet text of the first entry of `users` named `name`.
pub open spec fn user_wallet_text(users: Seq<(String, String)>, name: Seq<char>) -> Option<
    Seq<char>,
>
    decreases users.len(),
{
    if users.len() == 0 {
        None
    } else if users[0].0@ == name {
        Some(users[0].1@)
    } else {
        user_wallet_text(users.drop_first(), name)
    }
}

/// Whether no user name occurs twice in `users`, as in the map that `users.toml` holds.
pub open spec fn distinct_user_names(users: Seq<(String, String)>) -> bool {
    forall|i: int, j: int|
        0 <= i < users.len() && 0 <= j < users.len() && i != j ==> #[trigger] users[i].0@
            != #[trigger] users[j].0@
}

/// With distinct user names, the lookup is that of a map: a user's entry gives its
/// wallet text wherever it stands, and a name with no entry gives none.
pub proof fn lemma_user_lookup_is_map_lookup(users: Seq<(String, String)>, name: Seq<char>)
    requires
        distinct_user_names(users),
    ensures
        forall|i: int|
            0 <= i < users.len() && #[trigger] users[i].0@ == name ==> user_wallet_text(users, name)
                == Some(users[i].1@),
        (forall|i: int| 0 <= i < users.len() ==> #[trigger] users[i].0@ != name) ==> user_wallet_text(
            users,
            name,
        ) is None,
    decreases users.len(),
{
    if users.len() > 0 {
        let rest = users.drop_first();
        assert forall|i: int, j: int|
            0 <= i < rest.len() && 0 <= j < rest.len() && i != j implies #[trigger] rest[i].0@
            != #[trigger] rest[j].0@ by {
            assert(rest[i] == users[i + 1] && rest[j] == users[j + 1]);
        }
        lemma_user_lookup_is_map_lookup(rest, name);
        assert forall|i: int|
            0 <= i < users.len() && #[trigger] users[i].0@ == name implies user_wallet_text(
                users,
                name,
            ) == Some(users[i].1@) by {
            if i > 0 {
                assert(users[0].0@ != users[i].0@);
                assert(rest[i - 1] == users[i]);
            }
        }
        if forall|i: int| 0 <= i < users.len() ==> #[trigger] users[i].0@ != name {
            assert forall|i: int| 0 <= i < rest.len() implies #[trigger] rest[i].0@ != name by {
                assert(rest[i] == users[i + 1]);
            }
        }
    }
}

/// The wallet of the Unix user `username`.
pub fn wallet_for_user(users: &UsersFile, username: &str) -> (r: Result<Address, WalletLookupError>)
    ensures
        match r {
            Ok(a) => user_wallet_text(users.users@, username@) matches Some(t) && address_from_text(
                t,
            ) == Some(a.bytes@),
            Err(WalletLookupError::NoMapping) => user_wallet_text(users.users@, username@) is None,
            Err(WalletLookupError::InvalidAddress) => user_wallet_text(
                users.users@,
                username@,
            ) matches Some(t) && address_from_text(t) is None,
        },
{
    let name = username.to_owned();
    let n = users.users.len();
    let mut i: usize = 0;
    assert(users.users@.skip(0) =~= users.users@);
    while i < n
        invariant
            i <= n == users.users@.len(),
            name@ == username@,
            user_wallet_text(users.users@, username@) == user_wallet_text(
                users.users@.skip(i as int),
                username@,
            ),
        decreases n - i,
    {
        let ghost rest = users.users@.skip(i as int);
        assert(rest[0] == users.users@[i as int]);
        if users.users[i].0 == name {
            return match parse_address(users.users[i].1.as_str()) {
                Some(a) => Ok(a),
                None => Err(WalletLookupError::InvalidAddress),
            };
        }
        assert(rest.drop_first() =~= users.users@.skip(i + 1));
        i = i + 1;
    }
    Err(WalletLookupError::NoMapping)
}

/// The command that the arguments (after the program name) ask for: exactly one
/// argument is expected, either `doctor` or a user name.
pub fn sentinel_command(args: &Vec<String>) -> (c: SentinelCommand)
    ensures
        match c {
            SentinelCommand::Usage => args@.len() != 1,
            SentinelCommand::Doctor => args@.len() == 1 && args@[0]@ == "doctor"@,
            SentinelCommand::LookUp(u) => args@.len() == 1 && args@[0]@ != "doctor"@ && u@
                == args@[0]@,
        },
{
    if args.len() != 1 {
        return SentinelCommand::Usage;
    }
    let doctor = "doctor".to_owned();
    if args[0] == doctor {
        SentinelCommand::Doctor
    } else {
        SentinelCommand::LookUp(args[0].clone())
    }
}

/// Whether `s` holds a `/` or a NUL character.
pub open spec fn has_slash_or_nul(s: Seq<char>) -> bool {
    exists|i: int| 0 <= i < s.len() && (s[i] == '/' || s[i] == '\0')
}

/// A user name is refused for what it holds only when it holds a `/` or a NUL: every
/// other character, `.` and `-` and spaces among them, is allowed.
pub proof fn lemma_username_refused_only_for_slash_or_nul(s: Seq<char>)
    ensures
        has_slash_or_nul(s) <==> exists|i: int| 0 <= i < s.len() && (s[i] == '/' || s[i] == '\0'),
        (forall|i: int| 0 <= i < s.len() ==> s[i] != '/' && s[i] != '\0') ==> !has_slash_or_nul(s),
{
}

/// The verdict on the user name that `sshd` passes.
pub fn check_username(username: &str) -> (r: UsernameCheck)
    ensures
        r == (if username@.len() == 0 {
            UsernameCheck::Empty
        } else if has_slash_or_nul(username@) {
            UsernameCheck::Invalid
        } else {
            UsernameCheck::Accepted
        }),
        r == UsernameCheck::Accepted <==> username@.len() > 0 && (forall|i: int|
            0 <= i < username@.len() ==> username@[i] != '/' && username@[i] != '\0'),
        r == UsernameCheck::Invalid <==> (exists|i: int|
            0 <= i < username@.len() && (username@[i] == '/' || username@[i] == '\0')),
{
    proof {
        lemma_username_refused_only_for_slash_or_nul(username@);
    }
    let cs = crate::text::str_chars(username);
    if cs.len() == 0 {
        return UsernameCheck::Empty;
    }
    let mut i: usize = 0;
    while i < cs.len()
        invariant
            i <= cs.len(),
            cs@ == username@,
            forall|j: int| 0 <= j < i ==> !(cs@[j] == '/' || cs@[j] == '\0'),
        decreases cs.len() - i,
    {
        if cs[i] == '/' || cs[i] == '\0' {
            return UsernameCheck::Invalid;
        }
        i = i + 1;
    }
    UsernameCheck::Accepted
}

/// A copy of the strings `v`.
fn clone_strings(v: &[String]) -> (out: Vec<String>)
    ensures
        string_texts(out@) == string_texts(v@),
{
    let mut out: Vec<String> = Vec::new();
    let mut i: usize = 0;
    while i < v.len()
        invariant
            i <= v@.len(),
            out@.len() == i,
            forall|j: int| 0 <= j < i ==> #[trigger] out@[j]@ == v@[j]@,
        decreases v@.len() - i,
    {
        out.push(v[i].clone());
        i = i + 1;
    }
    assert(string_texts(out@) =~= string_texts(v@));
    out
}

/// The snapshot written after the chain returned `keys` at time `now`.
pub fn wallet_cache_entry(keys: &[String], now: u64) -> (e: DiskWalletCache)
    ensures
        string_texts(e.keys@) == string_texts(keys@),
        e.updated_at_unix == now,
{
    DiskWalletCache { keys: clone_strings(keys), updated_at_unix: now }
}

/// How old a snapshot taken at `updated` is at `now`, in seconds (0 when it lies in
/// the future).
pub open spec fn snapshot_age(now: u64, updated: u64) -> int {
    if now >= updated {
        now - updated
    } else {
        0
    }
}

/// The keys that a snapshot of `keys` taken at `updated` gives at `now` under the age
/// limit `max_age`: `None` when it is too old, else its accepted lines.
pub open spec fn fresh_snapshot_keys(
    keys: Seq<Seq<char>>,
    updated: u64,
    now: u64,
    max_age: u64,
) -> Option<Seq<Seq<char>>> {
    if snapshot_age(now, updated) > max_age {
        None
    } else if keys.len() == 0 {
        Some(seq![])
    } else {
        Some(sanitized_key_lines(keys))
    }
}

/// The keys of the snapshot `entry` at time `now`, if it is at most `max_age_secs` old.
pub fn wallet_cache_if_fresh(entry: &DiskWalletCache, now: u64, max_age_secs: u64) -> (r: Option<
    Arc<Vec<String>>,
>)
    ensures
        match r {
            Some(k) => fresh_snapshot_keys(
                string_texts(entry.keys@),
                entry.updated_at_unix,
                now,
                max_age_secs,
            ) == Some(string_texts(k@)),
            None => fresh_snapshot_keys(
                string_texts(entry.keys@),
                entry.updated_at_unix,
                now,
                max_age_secs,
            ) is None,
        },
{
    let age = now.saturating_sub(entry.updated_at_unix);
    if age > max_age_secs {
        return None;
    }
    if entry.keys.len() == 0 {
        let empty: Vec<String> = Vec::new();
        assert(string_texts(empty@) =~= seq![]);
        return Some(Arc::new(empty));
    }
    Some(sanitize_keys_arc(entry.keys.as_slice()))
}

/// The keys handed to `sshd` and their source, given what the chain returned (`None`
/// when the call failed) and the wallet's snapshot (`None` when there is none).
pub open spec fn served_key_lines(
    chain: Option<Seq<Seq<char>>>,
    snapshot: Option<(Seq<Seq<char>>, u64)>,
    now: u64,
    max_age: u64,
) -> (Seq<Seq<char>>, KeySource) {
    match chain {
        Some(raw) => (sanitized_key_lines(raw), KeySource::Chain),
        None => match snapshot {
            Some((keys, updated)) => match fresh_snapshot_keys(keys, updated, now, max_age) {
                Some(k) => (k, KeySource::DiskFallback),
                None => (seq![], KeySource::Denied),
            },
            None => (seq![], KeySource::Denied),
        },
    }
}

/// The snapshot `entry` as texts and time.
pub open spec fn snapshot_view(entry: Option<DiskWalletCache>) -> Option<(Seq<Seq<char>>, u64)> {
    match entry {
        Some(e) => Some((string_texts(e.keys@), e.updated_at_unix)),
        None => None,
    }
}

/// The keys to hand to `sshd`: the accepted lines of the chain's answer when there is
/// one; when the chain failed, those of a snapshot at most `max_age_secs` old, provided
/// that a snapshot directory is configured (`cache_dir_set`); else none. A chain answer is
/// to be written to the snapshot directory (`persist`) when one is configured.
pub fn select_served_keys(
    chain: Option<Vec<String>>,
    snapshot: Option<DiskWalletCache>,
    cache_dir_set: bool,
    now: u64,
    max_age_secs: u64,
) -> (s: ServedKeys)
    ensures
        (string_texts(s.keys@), s.source) == served_key_lines(
            match chain {
                Some(v) => Some(string_texts(v@)),
                None => None,
            },
            if cache_dir_set {
                snapshot_view(snapshot)
            } else {
                None
            },
            now,
            max_age_secs,
        ),
        s.persist == (cache_dir_set && chain is Some),
{
    match chain {
        Some(raw) => ServedKeys {
            keys: sanitize_keys_arc(raw.as_slice()),
            source: KeySource::Chain,
            persist: cache_dir_set,
        },
        None => {
            let usable = if cache_dir_set {
                snapshot
            } else {
                None
            };
            match usable {
                Some(entry) => match wallet_cache_if_fresh(&entry, now, max_age_secs) {
                    Some(k) => ServedKeys { keys: k, source: KeySource::DiskFallback, persist: false },
                    None => {
                        let empty: Vec<String> = Vec::new();
                        assert(string_texts(empty@) =~= seq![]);
                        ServedKeys { keys: Arc::new(empty), source: KeySource::Denied, persist: false }
                    },
                },
                None => {
                    let empty: Vec<String> = Vec::new();
                    assert(string_texts(empty@) =~= seq![]);
                    ServedKeys { keys: Arc::new(empty), source: KeySource::Denied, persist: false }
                },
            }
        },
    }
}

/// The wallet that `doctor` probes the chain with: the first wallet of the user map when
/// it is a valid address, else the zero address.
pub fn doctor_probe_wallet(first_wallet: Option<&String>) -> (a: Address)
    ensures
        match first_wallet {
            Some(t) if address_from_text(t@) is Some => address_from_text(t@) == Some(a.bytes@),
            _ => a.bytes@ == Seq::new(20, |i: int| 0u8),
        },
{
    match first_wallet {
        Some(t) => match parse_address(t.as_str()) {
            Some(a) => a,
            None => zero_address(),
        },
        None => zero_address(),
    }
}

/// The lines that `doctor` prints after the chain answered.
pub open spec fn doctor_report_lines(
    rpc_url: Seq<char>,
    contract: Seq<char>,
    users_path: Seq<char>,
    users_count: nat,
    cache_dir: Option<Seq<char>>,
    ttl: nat,
) -> Seq<Seq<char>> {
    seq![
        "ok=true"@,
        "rpc_url="@ + rpc_url,
        "contract="@ + contract,
        "users_path="@ + users_path,
        "users_count="@ + decimal(users_count),
        "disk_fallback="@ + (if cache_dir is Some {
            "enabled"@
        } else {
            "disabled"@
        }),
        "disk_fallback_ttl_secs="@ + decimal(ttl),
    ] + match cache_dir {
        Some(d) => seq!["cache_dir="@ + d],
        None => seq![],
    }
}

/// The report that `doctor` prints for `cfg` and a user map of `users_count` entries.
pub fn doctor_report(cfg: &SentinelConfig, users_count: usize) -> (lines: Vec<String>)
    ensures
        string_texts(lines@) == doctor_report_lines(
            cfg.rpc_url@,
            cfg.contract@,
            cfg.users_path@,
            users_count as nat,
            match cfg.cache_dir {
                Some(d) => Some(d@),
                None => None,
            },
            cfg.disk_fallback_ttl_secs as nat,
        ),
{
    let mut lines: Vec<String> = Vec::new();
    lines.push("ok=true".to_owned());
    lines.push(concat("rpc_url=", cfg.rpc_url.as_str()));
    lines.push(concat("contract=", cfg.contract.as_str()));
    lines.push(concat("users_path=", cfg.users_path.as_str()));
    let count = decimal_string(users_count as u64);
    lines.push(concat("users_count=", count.as_str()));
    let fallback = match cfg.cache_dir {
        Some(_) => "enabled",
        None => "disabled",
    };
    lines.push(concat("disk_fallback=", fallback));
    let ttl = decimal_string(cfg.disk_fallback_ttl_secs);
    lines.push(concat("disk_fallback_ttl_secs=", ttl.as_str()));
    match &cfg.cache_dir {
        Some(d) => {
            lines.push(concat("cache_dir=", d.as_str()));
        },
        None => {},
    }
    assert(string_texts(lines@) =~= doctor_report_lines(
        cfg.rpc_url@,
        cfg.contract@,
        cfg.users_path@,
        users_count as nat,
        match cfg.cache_dir {
            Some(d) => Some(d@),
            None => None,
        },
        cfg.disk_fallback_ttl_secs as nat,
    ));
    lines
}


/// While the chain answers, its answer alone decides: the snapshot plays no part, and a
/// wallet the chain returns no key for (a revoked one) gets no key.
pub proof fn lemma_chain_answer_decides(
    raw: Seq<Seq<char>>,
    snapshot: Option<(Seq<Seq<char>>, u64)>,
    now: u64,
    max_age: u64,
)
    ensures
        served_key_lines(Some(raw), snapshot, now, max_age) == (
            sanitized_key_lines(raw),
            KeySource::Chain,
        ),
        raw.len() == 0 ==> served_key_lines(Some(raw), snapshot, now, max_age).0.len() == 0,
{
}

/// A snapshot written after a chain read gives back, while it is fresh, exactly the
/// keys that the chain read served.
pub proof fn lemma_snapshot_serves_saved_keys(raw: Seq<Seq<char>>, saved_at: u64, now: u64, max_age: u64)
    requires
        snapshot_age(now, saved_at) <= max_age,
    ensures
        served_key_lines(None, Some((sanitized_key_lines(raw), saved_at)), now, max_age) == (
            sanitized_key_lines(raw),
            KeySource::DiskFallback,
        ),
{
    lemma_sanitize_idempotent(raw);
    if sanitized_key_lines(raw).len() == 0 {
        assert(sanitized_key_lines(raw) =~= Seq::<Seq<char>>::empty());
    }
}

/// When the chain fails, a snapshot older than the limit, or no snapshot at all, gives
/// no key.
pub proof fn lemma_stale_or_missing_snapshot_denies(
    keys: Seq<Seq<char>>,
    updated: u64,
    now: u64,
    max_age: u64,
)
    ensures
        snapshot_age(now, updated) > max_age ==> served_key_lines(
            None,
            Some((keys, updated)),
            now,
            max_age,
        ) == (Seq::<Seq<char>>::empty(), KeySource::Denied),
        served_key_lines(None, None, now, max_age) == (
            Seq::<Seq<char>>::empty(),
            KeySource::Denied,
        ),
{
}

/// Whatever the source, every key handed to `sshd` is an accepted key line.
pub proof fn lemma_served_keys_accepted(
    chain: Option<Seq<Seq<char>>>,
    snapshot: Option<(Seq<Seq<char>>, u64)>,
    now: u64,
    max_age: u64,
)
    ensures
        forall|i: int|
            0 <= i < served_key_lines(chain, snapshot, now, max_age).0.len() ==> {
                let t = #[trigger] served_key_lines(chain, snapshot, now, max_age).0[i];
                accepted_key_line(t) == Some(t)
            },
{
    match chain {
        Some(raw) => lemma_sanitized_key_lines_safe(raw),
        None => match snapshot {
            Some((keys, updated)) => lemma_sanitized_key_lines_safe(keys),
            None => {},
        },
    }
}

} // verus!
