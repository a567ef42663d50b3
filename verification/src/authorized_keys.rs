//! Filtering of `authorized_keys` lines that come from the on-chain registry.

use std::sync::Arc;
use vstd::prelude::*;
use vstd::utf8::encode_utf8;

use crate::text::{lemma_trim_idempotent, str_chars, trim, trim_bounds, utf8_len_exceeds};

verus! {

broadcast use vstd::string::group_string_axioms;

/// The longest accepted key line, in UTF-8 bytes.
pub const MAX_KEY_LINE_BYTES: usize = 8192;

/// The key-type prefixes (each with its trailing space) that a line must start with.
pub open spec fn key_type_prefixes() -> Seq<Seq<char>> {
    seq![
        "ssh-rsa "@,
        "ssh-ed25519 "@,
        "ssh-dss "@,
        "ecdsa-sha2-nistp256 "@,
        "ecdsa-sha2-nistp384 "@,
        "ecdsa-sha2-nistp521 "@,
        "sk-ssh-ed25519@openssh.com "@,
        "sk-ecdsa-sha2-nistp256@openssh.com "@,
    ]
}

/// Whether `t` starts with one of the accepted key-type prefixes.
pub open spec fn has_key_type_prefix(t: Seq<char>) -> bool {
    exists|i: int| 0 <= i < key_type_prefixes().len() && #[trigger] key_type_prefixes()[i].is_prefix_of(t)
}

/// A character that would end the line or the C string that `sshd` reads.
pub open spec fn is_line_break_or_nul(c: char) -> bool {
    c == '\n' || c == '\r' || c == '\0'
}

/// Whether `t` holds a newline, a carriage return or a NUL character.
pub open spec fn has_line_break_or_nul(t: Seq<char>) -> bool {
    exists|i: int| 0 <= i < t.len() && is_line_break_or_nul(#[trigger] t[i])
}

/// The line that `sshd` is given for `line`: `line` trimmed, provided that it is not
/// empty, fits in `MAX_KEY_LINE_BYTES` bytes, holds no line break or NUL and starts
/// with an accepted key type; `None` otherwise.
pub open spec fn accepted_key_line(line: Seq<char>) -> Option<Seq<char>> {
    let t = trim(line);
    if t.len() == 0 || encode_utf8(t).len() > MAX_KEY_LINE_BYTES || has_line_break_or_nul(t)
        || !has_key_type_prefix(t) {
        None
    } else {
        Some(t)
    }
}

/// The accepted lines of `lines`, in order, each trimmed.
pub open spec fn sanitized_key_lines(lines: Seq<Seq<char>>) -> Seq<Seq<char>>
    decreases lines.len(),
{
    if lines.len() == 0 {
        seq![]
    } else {
        let before = sanitized_key_lines(lines.drop_last());
        match accepted_key_line(lines.last()) {
            Some(t) => before.push(t),
            None => before,
        }
    }
}

/// The texts of a sequence of strings.
pub open spec fn string_texts(v: Seq<String>) -> Seq<Seq<char>> {
    v.map_values(|s: String| s@)
}

/// The `i`-th accepted key-type prefix.
pub fn key_type_prefix(i: usize) -> (p: &'static str)
    requires
        i < 8,
    ensures
        p@ == key_type_prefixes()[i as int],
{
    match i {
        0 => "ssh-rsa ",
        1 => "ssh-ed25519 ",
        2 => "ssh-dss ",
        3 => "ecdsa-sha2-nistp256 ",
        4 => "ecdsa-sha2-nistp384 ",
        5 => "ecdsa-sha2-nistp521 ",
        6 => "sk-ssh-ed25519@openssh.com ",
        _ => "sk-ecdsa-sha2-nistp256@openssh.com ",
    }
}

/// Whether `s[lo..hi]` starts with `p`.
fn starts_with_at(s: &Vec<char>, lo: usize, hi: usize, p: &Vec<char>) -> (b: bool)
    requires
        lo <= hi <= s.len(),
    ensures
        b == p@.is_prefix_of(s@.subrange(lo as int, hi as int)),
{
    if p.len() > hi - lo {
        return false;
    }
    let mut j: usize = 0;
    while j < p.len()
        invariant
            lo <= hi <= s.len(),
            p.len() <= hi - lo,
            j <= p.len(),
            forall|k: int| 0 <= k < j ==> p@[k] == s@[lo + k],
        decreases p.len() - j,
    {
        if p[j] != s[lo + j] {
            assert(s@.subrange(lo as int, hi as int)[j as int] == s@[lo + j]);
            return false;
        }
        j = j + 1;
    }
    assert(p@ =~= s@.subrange(lo as int, hi as int).subrange(0, p.len() as int));
    true
}

/// The line to hand to `sshd` for `line` (see `accepted_key_line`), or `None` when the
/// line is refused.
pub fn is_safe_authorized_key_line(line: &str) -> (r: Option<String>)
    ensures
        match r {
            Some(s) => accepted_key_line(line@) == Some(s@),
            None => accepted_key_line(line@) is None,
        },
        ({
            let t = trim(line@);
            r is Some <==> t.len() > 0 && encode_utf8(t).len() <= 8192 && (forall|i: int|
                0 <= i < t.len() ==> t[i] != '\n' && t[i] != '\r' && t[i] != '\0')
                && starts_with_listed_key_type(t)
        }),
        r matches Some(s) ==> s@ == trim(line@),
{
    proof {
        lemma_key_line_accepted_iff(line@);
    }
    let cs = str_chars(line);
    let (lo, hi) = trim_bounds(&cs);
    let ghost t = trim(line@);
    if lo == hi {
        return None;
    }
    if utf8_len_exceeds(&cs, lo, hi, MAX_KEY_LINE_BYTES) {
        return None;
    }
    let trimmed = line.substring_char(lo, hi);
    assert(trimmed@ == t);
    let mut k: usize = lo;
    while k < hi
        invariant
            lo <= k <= hi <= cs.len(),
            cs@ == line@,
            t == cs@.subrange(lo as int, hi as int),
            t == trim(line@),
            trimmed@ == t,
            lo < hi,
            encode_utf8(t).len() <= MAX_KEY_LINE_BYTES,
            forall|m: int| lo <= m < k ==> !is_line_break_or_nul(#[trigger] cs@[m]),
        decreases hi - k,
    {
        let c = cs[k];
        if c == '\n' || c == '\r' || c == '\0' {
            assert(t[k - lo] == c);
            assert(is_line_break_or_nul(t[k - lo]));
            return None;
        }
        k = k + 1;
    }
    assert(!has_line_break_or_nul(t)) by {
        assert forall|m: int| 0 <= m < t.len() implies !is_line_break_or_nul(#[trigger] t[m]) by {
            assert(t[m] == cs@[m + lo]);
        }
    }
    let mut i: usize = 0;
    while i < 8
        invariant
            i <= 8,
            lo <= hi <= cs.len(),
            t == cs@.subrange(lo as int, hi as int),
            t == trim(line@),
            trimmed@ == t,
            t.len() > 0,
            encode_utf8(t).len() <= MAX_KEY_LINE_BYTES,
            !has_line_break_or_nul(t),
            forall|m: int| 0 <= m < i ==> !(#[trigger] key_type_prefixes()[m]).is_prefix_of(t),
        decreases 8 - i,
    {
        let p = str_chars(key_type_prefix(i));
        if starts_with_at(&cs, lo, hi, &p) {
            assert(key_type_prefixes()[i as int].is_prefix_of(t));
            return Some(trimmed.to_owned());
        }
        i = i + 1;
    }
    assert(!has_key_type_prefix(t));
    None
}

/// The accepted lines of `keys`, each trimmed, in the order they came in.
pub fn sanitize_keys_arc(keys: &[String]) -> (out: Arc<Vec<String>>)
    ensures
        string_texts(out@) == sanitized_key_lines(string_texts(keys@)),
        (forall|i: int|
            0 <= i < keys@.len() ==> accepted_key_line(#[trigger] keys@[i]@) == Some(keys@[i]@))
            ==> string_texts(out@) == string_texts(keys@),
{
    let mut out: Vec<String> = Vec::new();
    let n = keys.len();
    let mut i: usize = 0;
    while i < n
        invariant
            i <= n == keys@.len(),
            string_texts(out@) == sanitized_key_lines(string_texts(keys@).take(i as int)),
        decreases n - i,
    {
        let ghost before = string_texts(keys@).take(i as int);
        assert(string_texts(keys@).take(i + 1).drop_last() =~= before);
        assert(string_texts(keys@).take(i + 1).last() == keys@[i as int]@);
        match is_safe_authorized_key_line(keys[i].as_str()) {
            Some(safe) => {
                out.push(safe);
                assert(string_texts(out@) =~= sanitized_key_lines(before).push(safe@));
            },
            None => {},
        }
        i = i + 1;
    }
    assert(string_texts(keys@).take(n as int) =~= string_texts(keys@));
    proof {
        let ks = string_texts(keys@);
        if forall|i: int|
            0 <= i < keys@.len() ==> accepted_key_line(#[trigger] keys@[i]@) == Some(keys@[i]@) {
            assert forall|i: int| 0 <= i < ks.len() implies accepted_key_line(#[trigger] ks[i]) == Some(ks[i]) by {
                assert(ks[i] == keys@[i]@);
            }
            lemma_sanitize_keeps_accepted_lines(ks);
        }
    }
    Arc::new(out)
}


/// A line that is accepted is accepted again unchanged: `accepted_key_line` is a
/// projection onto the lines that `sshd` may read.
pub proof fn lemma_accepted_key_line_stable(line: Seq<char>)
    ensures
        accepted_key_line(line) matches Some(t) ==> accepted_key_line(t) == Some(t),
{
    lemma_trim_idempotent(line);
}

/// Every line that comes out of the filter is non-empty, trimmed, at most
/// `MAX_KEY_LINE_BYTES` bytes long, free of line breaks and NUL, and starts with an
/// accepted key type; and no more lines come out than went in.
pub proof fn lemma_sanitized_key_lines_safe(lines: Seq<Seq<char>>)
    ensures
        sanitized_key_lines(lines).len() <= lines.len(),
        forall|i: int|
            0 <= i < sanitized_key_lines(lines).len() ==> {
                let t = #[trigger] sanitized_key_lines(lines)[i];
                &&& t.len() > 0
                &&& trim(t) == t
                &&& encode_utf8(t).len() <= MAX_KEY_LINE_BYTES
                &&& !has_line_break_or_nul(t)
                &&& has_key_type_prefix(t)
                &&& accepted_key_line(t) == Some(t)
            },
    decreases lines.len(),
{
    if lines.len() > 0 {
        lemma_sanitized_key_lines_safe(lines.drop_last());
        lemma_accepted_key_line_stable(lines.last());
        lemma_trim_idempotent(lines.last());
    }
}

/// Filtering twice gives what filtering once gives.
pub proof fn lemma_sanitize_idempotent(lines: Seq<Seq<char>>)
    ensures
        sanitized_key_lines(sanitized_key_lines(lines)) == sanitized_key_lines(lines),
    decreases lines.len(),
{
    if lines.len() > 0 {
        let before = sanitized_key_lines(lines.drop_last());
        lemma_sanitize_idempotent(lines.drop_last());
        match accepted_key_line(lines.last()) {
            Some(t) => {
                lemma_accepted_key_line_stable(lines.last());
                assert(before.push(t).drop_last() =~= before);
            },
            None => {},
        }
    }
}


/// Whether `t` starts with one of the eight key types that `sshd` is handed, each with
/// its trailing space.
pub open spec fn starts_with_listed_key_type(t: Seq<char>) -> bool {
    ||| "ssh-rsa "@.is_prefix_of(t)
    ||| "ssh-ed25519 "@.is_prefix_of(t)
    ||| "ssh-dss "@.is_prefix_of(t)
    ||| "ecdsa-sha2-nistp256 "@.is_prefix_of(t)
    ||| "ecdsa-sha2-nistp384 "@.is_prefix_of(t)
    ||| "ecdsa-sha2-nistp521 "@.is_prefix_of(t)
    ||| "sk-ssh-ed25519@openssh.com "@.is_prefix_of(t)
    ||| "sk-ecdsa-sha2-nistp256@openssh.com "@.is_prefix_of(t)
}

/// A line is accepted exactly when its trimmed text is non-empty, fits in 8192 UTF-8
/// bytes, holds no newline, carriage return or NUL, and starts with a listed key type;
/// what is accepted is the trimmed text itself. Every other character may occur.
pub proof fn lemma_key_line_accepted_iff(line: Seq<char>)
    ensures
        ({
            let t = trim(line);
            accepted_key_line(line) == if t.len() > 0 && encode_utf8(t).len() <= 8192 && (forall|
                i: int,
            |
                0 <= i < t.len() ==> t[i] != '\n' && t[i] != '\r' && t[i] != '\0')
                && starts_with_listed_key_type(t) {
                Some(t)
            } else {
                None
            }
        }),
{
    let t = trim(line);
    if starts_with_listed_key_type(t) {
        if "ssh-rsa "@.is_prefix_of(t) {
            assert(key_type_prefixes()[0].is_prefix_of(t));
        } else if "ssh-ed25519 "@.is_prefix_of(t) {
            assert(key_type_prefixes()[1].is_prefix_of(t));
        } else if "ssh-dss "@.is_prefix_of(t) {
            assert(key_type_prefixes()[2].is_prefix_of(t));
        } else if "ecdsa-sha2-nistp256 "@.is_prefix_of(t) {
            assert(key_type_prefixes()[3].is_prefix_of(t));
        } else if "ecdsa-sha2-nistp384 "@.is_prefix_of(t) {
            assert(key_type_prefixes()[4].is_prefix_of(t));
        } else if "ecdsa-sha2-nistp521 "@.is_prefix_of(t) {
            assert(key_type_prefixes()[5].is_prefix_of(t));
        } else if "sk-ssh-ed25519@openssh.com "@.is_prefix_of(t) {
            assert(key_type_prefixes()[6].is_prefix_of(t));
        } else {
            assert(key_type_prefixes()[7].is_prefix_of(t));
        }
    }
    if has_key_type_prefix(t) {
        let k = choose|k: int| 0 <= k < key_type_prefixes().len() && #[trigger] key_type_prefixes()[k].is_prefix_of(t);
        assert(0 <= k < 8);
        assert(starts_with_listed_key_type(t));
    }
    if has_line_break_or_nul(t) {
        let k = choose|k: int| 0 <= k < t.len() && is_line_break_or_nul(#[trigger] t[k]);
        assert(t[k] == '\n' || t[k] == '\r' || t[k] == '\0');
    }
}

/// Filtering a list of lines that are all accepted as they stand gives the list back:
/// no accepted key is dropped, reordered or changed, however many there are.
pub proof fn lemma_sanitize_keeps_accepted_lines(lines: Seq<Seq<char>>)
    requires
        forall|i: int| 0 <= i < lines.len() ==> accepted_key_line(#[trigger] lines[i]) == Some(lines[i]),
    ensures
        sanitized_key_lines(lines) == lines,
    decreases lines.len(),
{
    if lines.len() > 0 {
        let init = lines.drop_last();
        assert forall|i: int| 0 <= i < init.len() implies accepted_key_line(#[trigger] init[i]) == Some(init[i]) by {
            assert(init[i] == lines[i]);
        }
        lemma_sanitize_keeps_accepted_lines(init);
        assert(accepted_key_line(lines[lines.len() - 1]) == Some(lines.last()));
        assert(init.push(lines.last()) =~= lines);
    }
}

/// Filtering a list with one more line appended gives the earlier answer with that
/// line's accepted text appended, or the earlier answer when the line is refused.
pub proof fn lemma_sanitize_push(lines: Seq<Seq<char>>, line: Seq<char>)
    ensures
        sanitized_key_lines(lines.push(line)) == match accepted_key_line(line) {
            Some(t) => sanitized_key_lines(lines).push(t),
            None => sanitized_key_lines(lines),
        },
{
    assert(lines.push(line).drop_last() =~= lines);
}

/// The lines are filtered one by one: filtering two lists one after the other gives
/// the two filtered lists one after the other.
pub proof fn lemma_sanitize_concat(a: Seq<Seq<char>>, b: Seq<Seq<char>>)
    ensures
        sanitized_key_lines(a + b) == sanitized_key_lines(a) + sanitized_key_lines(b),
    decreases b.len(),
{
    if b.len() == 0 {
        assert(a + b =~= a);
        assert(sanitized_key_lines(a) + sanitized_key_lines(b) =~= sanitized_key_lines(a));
    } else {
        lemma_sanitize_concat(a, b.drop_last());
        assert((a + b).drop_last() =~= a + b.drop_last());
        assert((a + b).last() == b.last());
        match accepted_key_line(b.last()) {
            Some(t) => {
                assert(sanitized_key_lines(a + b) =~= sanitized_key_lines(a) + sanitized_key_lines(b));
            },
            None => {},
        }
    }
}

/// As many lines come out of the filter as there are accepted lines going in.
pub proof fn lemma_sanitize_len(lines: Seq<Seq<char>>)
    ensures
        sanitized_key_lines(lines).len() == lines.filter(
            |l: Seq<char>| accepted_key_line(l) is Some,
        ).len(),
    decreases lines.len(),
{
    reveal_with_fuel(Seq::filter, 1);
    if lines.len() > 0 {
        lemma_sanitize_len(lines.drop_last());
    }
}

} // verus!
