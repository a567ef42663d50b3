//! The admin command line's own decisions: where its files live and how the owner's
//! private key file is read.

use vstd::prelude::*;

use crate::address::{all_hex_digits, hex_pairs_value, is_hex_digit};
use crate::text::{
    concat, is_white_space, lemma_trim_end_take, lemma_trim_start_skip, str_chars, trim, trim_bounds,
    trim_end, trim_start,
};

verus! {

broadcast use vstd::string::group_string_axioms;

/// `part` (a relative path) appended to `base` the way `PathBuf::push` does it: with
/// a `/` between them unless `base` is empty or already ends with one.
pub open spec fn path_join(base: Seq<char>, part: Seq<char>) -> Seq<char> {
    if base.len() == 0 {
        part
    } else if base.last() == '/' {
        base + part
    } else {
        base + seq!['/'] + part
    }
}

/// The file `file` in the `gapura` directory under the configuration directory
/// `config_dir` (`.` when there is none).
pub open spec fn gapura_file(config_dir: Option<Seq<char>>, file: Seq<char>) -> Seq<char> {
    let base = match config_dir {
        Some(d) => d,
        None => "."@,
    };
    path_join(path_join(base, "gapura"@), file)
}

/// The text of an optional string.
pub open spec fn opt_text(o: Option<String>) -> Option<Seq<char>> {
    match o {
        Some(s) => Some(s@),
        None => None,
    }
}

/// `part` appended to `base` (see `path_join`).
pub fn join_path(base: &str, part: &str) -> (p: String)
    ensures
        p@ == path_join(base@, part@),
{
    let cs = str_chars(base);
    if cs.len() == 0 {
        part.to_owned()
    } else if cs[cs.len() - 1] == '/' {
        concat(base, part)
    } else {
        let with_sep = concat(base, "/");
        proof {
            reveal_strlit("/");
        }
        let p = concat(with_sep.as_str(), part);
        assert(p@ =~= path_join(base@, part@));
        p
    }
}

fn gapura_file_path(config_dir: Option<String>, file: &str) -> (p: String)
    ensures
        p@ == gapura_file(opt_text(config_dir), file@),
{
    let base = match config_dir {
        Some(d) => d,
        None => ".".to_owned(),
    };
    let dir = join_path(base.as_str(), "gapura");
    join_path(dir.as_str(), file)
}

/// The default configuration file: `gapura/config.toml` under the user's configuration
/// directory `config_dir` (`.` when it is unknown).
pub fn default_config_path(config_dir: Option<String>) -> (p: String)
    ensures
        p@ == gapura_file(opt_text(config_dir), "config.toml"@),
{
    gapura_file_path(config_dir, "config.toml")
}

/// The default hosts inventory: `gapura/hosts.toml` under the user's configuration
/// directory `config_dir` (`.` when it is unknown).
pub fn default_hosts_path(config_dir: Option<String>) -> (p: String)
    ensures
        p@ == gapura_file(opt_text(config_dir), "hosts.toml"@),
{
    gapura_file_path(config_dir, "hosts.toml")
}

/// The configuration file: `custom` when given, else the default one.
pub fn resolve_config_path(custom: Option<String>, config_dir: Option<String>) -> (p: String)
    ensures
        p@ == match custom {
            Some(c) => c@,
            None => gapura_file(opt_text(config_dir), "config.toml"@),
        },
{
    match custom {
        Some(c) => c,
        None => default_config_path(config_dir),
    }
}

/// Why a private key file was refused.
#[derive(Debug, Clone, Copy, PartialEq, Eq)]
pub enum SignerKeyError {
    /// The text is not an even number of hex digits.
    NotHex,
    /// The bytes are not a secp256k1 secret key.
    InvalidKey,
}

/// The bytes that the text `s` spells as hex digit pairs (either case, no prefix).
pub open spec fn hex_text_bytes(s: Seq<char>) -> Option<Seq<u8>> {
    if s.len() % 2 == 0 && all_hex_digits(s) {
        Some(hex_pairs_value(s))
    } else {
        None
    }
}

/// The unsigned big-endian value of `b`.
pub open spec fn big_endian_value(b: Seq<u8>) -> nat
    decreases b.len(),
{
    if b.len() == 0 {
        0
    } else {
        big_endian_value(b.drop_last()) * 256 + b.last() as nat
    }
}

/// The order of the secp256k1 group.
pub open spec fn secp256k1_order() -> nat {
    0xFFFFFFFFFFFFFFFFFFFFFFFFFFFFFFFEBAAEDCE6AF48A03BBFD25E8CD0364141nat
}

/// Whether `b` is accepted as a secp256k1 secret key: 24 to 32 big-endian bytes whose
/// value lies strictly between 0 and the group order.
pub open spec fn secp256k1_secret_accepted(b: Seq<u8>) -> bool {
    24 <= b.len() <= 32 && 0 < big_endian_value(b) < secp256k1_order()
}

/// `s` without a leading `0x`.
pub open spec fn strip_lower_0x(s: Seq<char>) -> Seq<char> {
    if s.len() >= 2 && s[0] == '0' && s[1] == 'x' {
        s.skip(2)
    } else {
        s
    }
}

/// The key text of a private key file: its contents trimmed, without a leading `0x`.
pub open spec fn key_file_hex(contents: Seq<char>) -> Seq<char> {
    strip_lower_0x(trim(contents))
}

/// What a private key file holding `contents` gives: the key bytes, or why it is refused.
pub open spec fn signer_key_outcome(contents: Seq<char>) -> Result<Seq<u8>, SignerKeyError> {
    match hex_text_bytes(key_file_hex(contents)) {
        None => Err(SignerKeyError::NotHex),
        Some(b) => if secp256k1_secret_accepted(b) {
            Ok(b)
        } else {
            Err(SignerKeyError::InvalidKey)
        },
    }
}

/// Whether every character of `s` is white space.
pub open spec fn all_white_space(s: Seq<char>) -> bool {
    forall|i: int| 0 <= i < s.len() ==> is_white_space(#[trigger] s[i])
}

/// A key file may hold its hex digits with a `0x` in front and white space around them:
/// the file holding `h` and the file holding `0x` + `h` amid white space give the same
/// key, or are refused for the same reason.
pub proof fn lemma_key_file_prefix_and_whitespace(h: Seq<char>, pre: Seq<char>, post: Seq<char>)
    requires
        all_hex_digits(h),
        all_white_space(pre),
        all_white_space(post),
    ensures
        key_file_hex(pre + seq!['0', 'x'] + h + post) == h,
        key_file_hex(h) == h,
        signer_key_outcome(pre + seq!['0', 'x'] + h + post) == signer_key_outcome(h),
{
    let p = seq!['0', 'x'] + h;
    let w = pre + seq!['0', 'x'] + h + post;
    assert(w =~= pre + p + post);
    let x = w.skip(pre.len() as int);
    assert forall|i: int| 0 <= i < pre.len() implies is_white_space(#[trigger] w[i]) by {
        assert(w[i] == pre[i]);
    }
    lemma_trim_start_skip(w, pre.len() as int);
    assert(x =~= p + post);
    assert(x[0] == '0');
    assert(trim_start(x) == x);
    assert forall|i: int| p.len() <= i < x.len() implies is_white_space(#[trigger] x[i]) by {
        assert(x[i] == post[i - p.len()]);
    }
    lemma_trim_end_take(x, p.len() as int);
    assert(x.take(p.len() as int) =~= p);
    if h.len() > 0 {
        assert(is_hex_digit(h[h.len() - 1]));
        assert(p.last() == h[h.len() - 1]);
    }
    assert(!is_white_space(p.last()));
    assert(trim_end(p) == p);
    assert(trim(w) == p);
    assert(p.skip(2) =~= h);
    assert(p[0] == '0' && p[1] == 'x');
    assert(strip_lower_0x(p) == h);
    assert(key_file_hex(w) == h);
    if h.len() > 0 {
        assert(is_hex_digit(h[0]));
        assert(trim_start(h) == h);
        assert(is_hex_digit(h[h.len() - 1]));
        assert(trim_end(h) == h);
    }
    if h.len() >= 2 {
        assert(is_hex_digit(h[1]));
    }
}

/// `hex::decode`: an even number of hex digits of either case decode to one byte per
/// pair, high digit first; any other text is refused.
#[verifier::external_body]
fn hex_decode(s: &str) -> (r: Option<Vec<u8>>)
    ensures
        match r {
            Some(b) => hex_text_bytes(s@) == Some(b@),
            None => hex_text_bytes(s@) is None,
        },
{
    hex::decode(s).ok()
}

/// `alloy::signers::local::PrivateKeySigner::from_slice` succeeds: it passes the bytes to
/// `elliptic_curve::SecretKey::from_slice`, which takes 24 to 32 bytes (zero-padded at
/// the front to 32), read big-endian, and accepts a value strictly between 0 and the
/// secp256k1 order.
#[verifier::external_body]
fn secp256k1_secret_key_accepted(bytes: &[u8]) -> (ok: bool)
    ensures
        ok == secp256k1_secret_accepted(bytes@),
{
    alloy::signers::local::PrivateKeySigner::from_slice(bytes).is_ok()
}

/// The owner's secret key bytes from the contents of the private key file: the
/// contents trimmed, a leading `0x` dropped, decoded as hex, and accepted as a
/// secp256k1 secret key.
pub fn signer_key_from_hex(contents: &str) -> (r: Result<Vec<u8>, SignerKeyError>)
    ensures
        match r {
            Ok(b) => hex_text_bytes(key_file_hex(contents@)) == Some(b@)
                && secp256k1_secret_accepted(b@),
            Err(SignerKeyError::NotHex) => hex_text_bytes(key_file_hex(contents@)) is None,
            Err(SignerKeyError::InvalidKey) => hex_text_bytes(key_file_hex(contents@)) matches Some(
                b,
            ) && !secp256k1_secret_accepted(b),
        },
        match r {
            Ok(b) => signer_key_outcome(contents@) == Ok::<Seq<u8>, SignerKeyError>(b@),
            Err(e) => signer_key_outcome(contents@) == Err::<Seq<u8>, SignerKeyError>(e),
        },
{
    let cs = str_chars(contents);
    let (lo0, hi) = trim_bounds(&cs);
    let ghost t = trim(contents@);
    let mut lo = lo0;
    if hi - lo >= 2 && cs[lo] == '0' && cs[lo + 1] == 'x' {
        lo = lo + 2;
        assert(t.skip(2) =~= cs@.subrange(lo as int, hi as int));
    } else {
        assert(t =~= cs@.subrange(lo as int, hi as int));
    }
    let text = contents.substring_char(lo, hi);
    assert(text@ == key_file_hex(contents@));
    match hex_decode(text) {
        None => Err(SignerKeyError::NotHex),
        Some(bytes) => {
            if secp256k1_secret_key_accepted(bytes.as_slice()) {
                Ok(bytes)
            } else {
                Err(SignerKeyError::InvalidKey)
            }
        },
    }
}

} // verus!
