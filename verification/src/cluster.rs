//! `gapura status --cluster`: which `ssh` command checks each host, and how its answer
//! is reported.

use vstd::prelude::*;

use crate::authorized_keys::string_texts;
use crate::shell::{shell_escape, shell_quoted};
use crate::text::{
    char_vec_texts, chars_equal, concat, decimal, decimal_string, split_lines, str_chars,
    string_from_chars, text_lines, trim, trim_chars,
};

verus! {

broadcast use vstd::string::group_string_axioms;

/// One host of the inventory (`hosts.toml`).
pub struct HostEntry {
    pub name: Option<String>,
    pub host: String,
    pub port: Option<u16>,
    pub user: String,
    /// Run `doctor` through `sudo` as the `gapura-sentinel` user.
    pub sudo: bool,
    /// The sentinel configuration path to use on the host.
    pub gapura_config: Option<String>,
}

/// The host inventory.
pub struct HostsConfig {
    pub hosts: Vec<HostEntry>,
}

/// The check of one host: how it is named in the report and the `ssh` arguments.
pub struct HostProbe {
    pub label: String,
    pub ssh_args: Vec<String>,
}

/// Why the cluster cannot be checked.
#[derive(Debug, Clone, Copy, PartialEq, Eq)]
pub enum ClusterError {
    /// The inventory lists no host.
    NoHosts,
}

/// `user@host`.
pub open spec fn target_text(h: HostEntry) -> Seq<char> {
    h.user@ + "@"@ + h.host@
}

/// The name of a host in the report: its `name`, else `user@host`.
pub open spec fn label_text(h: HostEntry) -> Seq<char> {
    match h.name {
        Some(n) => n@,
        None => target_text(h),
    }
}

/// The SSH port of a host: its `port`, else 22.
pub open spec fn port_of(h: HostEntry) -> u16 {
    match h.port {
        Some(p) => p,
        None => 22,
    }
}

/// The command run on the host.
pub open spec fn remote_command_text(h: HostEntry) -> Seq<char> {
    (match h.gapura_config {
        Some(c) => "env GAPURA_CONFIG="@ + shell_quoted(c@) + " "@,
        None => seq![],
    }) + (if h.sudo {
        "sudo -u gapura-sentinel "@
    } else {
        seq![]
    }) + "gapura-sentinel doctor"@
}

/// The arguments of `ssh` for a host.
pub open spec fn ssh_args_text(h: HostEntry) -> Seq<Seq<char>> {
    seq![
        "-p"@,
        decimal(port_of(h) as nat),
        "-o"@,
        "BatchMode=yes"@,
        "-o"@,
        "ConnectTimeout=5"@,
        target_text(h),
        remote_command_text(h),
    ]
}

/// `user@host` of a host.
pub fn ssh_target(h: &HostEntry) -> (t: String)
    ensures
        t@ == target_text(*h),
{
    let a = concat(h.user.as_str(), "@");
    let t = concat(a.as_str(), h.host.as_str());
    assert(t@ =~= target_text(*h));
    t
}

/// The name of a host in the report.
pub fn host_label(h: &HostEntry) -> (l: String)
    ensures
        l@ == label_text(*h),
{
    match &h.name {
        Some(n) => n.clone(),
        None => ssh_target(h),
    }
}

/// The command that checks the sentinel on a host: `gapura-sentinel doctor`, after
/// `sudo -u gapura-sentinel` when the host asks for it, and after
/// `env GAPURA_CONFIG=<quoted path>` when it names a configuration.
pub fn remote_doctor_command(h: &HostEntry) -> (c: String)
    ensures
        c@ == remote_command_text(*h),
        h.gapura_config matches Some(cfg) ==> ("env GAPURA_CONFIG="@ + shell_quoted(cfg@)
            + " "@).is_prefix_of(c@),
        h.sudo ==> ("sudo -u gapura-sentinel gapura-sentinel doctor"@).is_suffix_of(c@),
        "gapura-sentinel doctor"@.is_suffix_of(c@),
        (h.gapura_config is None && !h.sudo) ==> c@ == "gapura-sentinel doctor"@,
{
    proof {
        lemma_remote_command_shape(*h);
    }
    let mut c = "".to_owned();
    proof {
        reveal_strlit("");
    }
    match &h.gapura_config {
        Some(cfg) => {
            let q = shell_escape(cfg.as_str());
            let a = concat("env GAPURA_CONFIG=", q.as_str());
            c = concat(a.as_str(), " ");
        },
        None => {},
    }
    if h.sudo {
        c = concat(c.as_str(), "sudo -u gapura-sentinel ");
    }
    let r = concat(c.as_str(), "gapura-sentinel doctor");
    assert(r@ =~= remote_command_text(*h));
    r
}

/// The `ssh` arguments that run the check on a host without prompting.
pub fn ssh_doctor_args(h: &HostEntry) -> (args: Vec<String>)
    ensures
        string_texts(args@) == ssh_args_text(*h),
        args@.len() == 8,
        args@[6]@ == h.user@ + "@"@ + h.host@,
        args@[7]@ == remote_command_text(*h),
        args@[1]@ == decimal(
            match h.port {
                Some(p) => p as nat,
                None => 22,
            },
        ),
{
    proof {
        lemma_ssh_destination_is_user_at_host(*h);
    }
    let port = match h.port {
        Some(p) => p,
        None => 22,
    };
    let mut args: Vec<String> = Vec::new();
    args.push("-p".to_owned());
    args.push(decimal_string(port as u64));
    args.push("-o".to_owned());
    args.push("BatchMode=yes".to_owned());
    args.push("-o".to_owned());
    args.push("ConnectTimeout=5".to_owned());
    args.push(ssh_target(h));
    args.push(remote_doctor_command(h));
    assert(string_texts(args@) =~= ssh_args_text(*h));
    args
}

/// The checks of all hosts, in inventory order, or `NoHosts` for an empty inventory.
pub fn cluster_probes(hosts: &HostsConfig) -> (r: Result<Vec<HostProbe>, ClusterError>)
    ensures
        match r {
            Ok(ps) => hosts.hosts@.len() > 0 && ps@.len() == hosts.hosts@.len() && forall|i: int|
                0 <= i < ps@.len() ==> (#[trigger] ps@[i]).label@ == label_text(hosts.hosts@[i])
                    && string_texts(ps@[i].ssh_args@) == ssh_args_text(hosts.hosts@[i]),
            Err(ClusterError::NoHosts) => hosts.hosts@.len() == 0,
        },
{
    let n = hosts.hosts.len();
    if n == 0 {
        return Err(ClusterError::NoHosts);
    }
    let mut ps: Vec<HostProbe> = Vec::new();
    let mut i: usize = 0;
    while i < n
        invariant
            i <= n == hosts.hosts@.len(),
            ps@.len() == i,
            forall|j: int|
                0 <= j < i ==> (#[trigger] ps@[j]).label@ == label_text(hosts.hosts@[j])
                    && string_texts(ps@[j].ssh_args@) == ssh_args_text(hosts.hosts@[j]),
        decreases n - i,
    {
        let h = &hosts.hosts[i];
        ps.push(HostProbe { label: host_label(h), ssh_args: ssh_doctor_args(h) });
        i = i + 1;
    }
    Ok(ps)
}

/// Whether some line of `out`, trimmed, reads `ok=true`.
pub open spec fn reports_ok(out: Seq<char>) -> bool {
    exists|i: int| 0 <= i < text_lines(out).len() && trim(#[trigger] text_lines(out)[i]) == "ok=true"@
}

/// The report line of a host named `label` whose `ssh` run succeeded or not, with the
/// text it wrote to standard output and standard error.
pub open spec fn host_status_text(
    label: Seq<char>,
    success: bool,
    stdout: Seq<char>,
    stderr: Seq<char>,
) -> Seq<char> {
    if success {
        if reports_ok(stdout) {
            "- "@ + label + ": ok"@
        } else {
            "- "@ + label + ": warn (no ok=true)"@
        }
    } else {
        let msg = if text_lines(stderr).len() > 0 {
            text_lines(stderr).last()
        } else {
            "ssh failed"@
        };
        "- "@ + label + ": fail ("@ + msg + ")"@
    }
}

/// Whether some line of `out`, trimmed, reads `ok=true`.
pub fn doctor_reported_ok(out: &str) -> (b: bool)
    ensures
        b == reports_ok(out@),
{
    let lines = split_lines(out);
    let ok = str_chars("ok=true");
    let mut i: usize = 0;
    while i < lines.len()
        invariant
            i <= lines@.len(),
            char_vec_texts(lines@) == text_lines(out@),
            ok@ == "ok=true"@,
            forall|j: int| 0 <= j < i ==> trim(#[trigger] text_lines(out@)[j]) != "ok=true"@,
        decreases lines@.len() - i,
    {
        let t = trim_chars(&lines[i]);
        assert(lines@[i as int]@ == text_lines(out@)[i as int]);
        if chars_equal(&t, &ok) {
            return true;
        }
        i = i + 1;
    }
    false
}

/// The report line of one host (see `host_status_text`).
pub fn host_status_line(label: &str, success: bool, stdout: &str, stderr: &str) -> (l: String)
    ensures
        l@ == host_status_text(label@, success, stdout@, stderr@),
{
    let head = concat("- ", label);
    if success {
        if doctor_reported_ok(stdout) {
            let r = concat(head.as_str(), ": ok");
            assert(r@ =~= host_status_text(label@, success, stdout@, stderr@));
            r
        } else {
            let r = concat(head.as_str(), ": warn (no ok=true)");
            assert(r@ =~= host_status_text(label@, success, stdout@, stderr@));
            r
        }
    } else {
        let lines = split_lines(stderr);
        let msg = if lines.len() > 0 {
            string_from_chars(&lines[lines.len() - 1])
        } else {
            "ssh failed".to_owned()
        };
        assert(lines.len() > 0 ==> msg@ == text_lines(stderr@).last());
        let a = concat(head.as_str(), ": fail (");
        let b = concat(a.as_str(), msg.as_str());
        let r = concat(b.as_str(), ")");
        assert(r@ =~= host_status_text(label@, success, stdout@, stderr@));
        r
    }
}


/// The `ssh` command for a host goes to `user@host` on the host's port (22 when none is
/// given) and runs the remote check as its last argument; the host's display name plays
/// no part in it.
pub proof fn lemma_ssh_destination_is_user_at_host(h: HostEntry)
    ensures
        ssh_args_text(h).len() == 8,
        ssh_args_text(h)[1] == decimal(
            match h.port {
                Some(p) => p as nat,
                None => 22,
            },
        ),
        ssh_args_text(h)[6] == h.user@ + "@"@ + h.host@,
        ssh_args_text(h)[7] == remote_command_text(h),
{
}

/// Two hosts that differ only in their display name get the same `ssh` command.
pub proof fn lemma_ssh_args_ignore_name(a: HostEntry, b: HostEntry)
    requires
        a.host@ == b.host@,
        a.user@ == b.user@,
        a.port == b.port,
        a.sudo == b.sudo,
        match (a.gapura_config, b.gapura_config) {
            (Some(x), Some(y)) => x@ == y@,
            (None, None) => true,
            _ => false,
        },
    ensures
        ssh_args_text(a) == ssh_args_text(b),
{
    assert(ssh_args_text(a) =~= ssh_args_text(b));
}

/// The remote command: when the host names a configuration `c`, it starts with
/// `env GAPURA_CONFIG=` and `c` quoted for the shell, whether or not `sudo` is asked for;
/// with `sudo` it runs `gapura-sentinel doctor` through `sudo -u gapura-sentinel`; it
/// always ends with `gapura-sentinel doctor`; and with neither it is just that.
pub proof fn lemma_remote_command_shape(h: HostEntry)
    ensures
        h.gapura_config matches Some(c) ==> ("env GAPURA_CONFIG="@ + shell_quoted(c@)
            + " "@).is_prefix_of(remote_command_text(h)),
        h.sudo ==> ("sudo -u gapura-sentinel gapura-sentinel doctor"@).is_suffix_of(
            remote_command_text(h),
        ),
        "gapura-sentinel doctor"@.is_suffix_of(remote_command_text(h)),
        (h.gapura_config is None && !h.sudo) ==> remote_command_text(h) == "gapura-sentinel doctor"@,
{
    let e: Seq<char> = match h.gapura_config {
        Some(c) => "env GAPURA_CONFIG="@ + shell_quoted(c@) + " "@,
        None => seq![],
    };
    let su: Seq<char> = if h.sudo {
        "sudo -u gapura-sentinel "@
    } else {
        seq![]
    };
    let d = "gapura-sentinel doctor"@;
    let r = remote_command_text(h);
    assert(r == e + su + d);
    assert(r.subrange(0, e.len() as int) =~= e);
    assert(r.subrange(r.len() - d.len(), r.len() as int) =~= d);
    if h.sudo {
        reveal_strlit("sudo -u gapura-sentinel ");
        reveal_strlit("gapura-sentinel doctor");
        reveal_strlit("sudo -u gapura-sentinel gapura-sentinel doctor");
        let sd = "sudo -u gapura-sentinel gapura-sentinel doctor"@;
        assert(sd =~= su + d);
        assert(r.subrange(r.len() - sd.len(), r.len() as int) =~= sd);
    }
    if h.gapura_config is None && !h.sudo {
        assert(r =~= d);
    }
}

} // verus!
