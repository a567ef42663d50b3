//! Wallet and contract addresses: parsing their hex text and naming their cache files.

use vstd::prelude::*;

use crate::text::string_from_chars;

verus! {

broadcast use vstd::string::group_string_axioms;

/// A 20-byte EVM account address.
#[derive(Clone, Copy, Debug, PartialEq, Eq)]
pub struct Address {
    pub bytes: [u8; 20],
}

/// Whether `c` is an ASCII hex digit, in either case.
pub open spec fn is_hex_digit(c: char) -> bool {
    ('0' <= c <= '9') || ('a' <= c <= 'f') || ('A' <= c <= 'F')
}

/// The value of the hex digit `c`.
pub open spec fn hex_digit_value(c: char) -> int {
    if '0' <= c <= '9' {
        c as int - '0' as int
    } else if 'a' <= c <= 'f' {
        c as int - 'a' as int + 10
    } else {
        c as int - 'A' as int + 10
    }
}

/// Whether every character of `s` is a hex digit.
pub open spec fn all_hex_digits(s: Seq<char>) -> bool {
    forall|i: int| 0 <= i < s.len() ==> is_hex_digit(#[trigger] s[i])
}

/// The bytes that the hex digit pairs of `s` stand for, high digit first.
pub open spec fn hex_pairs_value(s: Seq<char>) -> Seq<u8> {
    Seq::new(
        s.len() / 2,
        |i: int| (16 * hex_digit_value(s[2 * i]) + hex_digit_value(s[2 * i + 1])) as u8,
    )
}

/// `s` without a leading `0x` or `0X`.
pub open spec fn without_hex_prefix(s: Seq<char>) -> Seq<char> {
    if s.len() >= 2 && s[0] == '0' && (s[1] == 'x' || s[1] == 'X') {
        s.skip(2)
    } else {
        s
    }
}

/// The address that the text `s` spells: 40 hex digits, optionally after `0x` or `0X`.
pub open spec fn address_from_text(s: Seq<char>) -> Option<Seq<u8>> {
    let body = without_hex_prefix(s);
    if body.len() == 40 && all_hex_digits(body) {
        Some(hex_pairs_value(body))
    } else {
        None
    }
}

/// The lower-case hex digit for `v < 16`.
pub open spec fn lower_hex_digit(v: int) -> char {
    if v < 10 {
        ('0' as int + v) as char
    } else {
        ('a' as int + v - 10) as char
    }
}

/// The lower-case hex digits of `b`, two per byte, high digit first.
pub open spec fn lower_hex(b: Seq<u8>) -> Seq<char> {
    Seq::new(
        2 * b.len(),
        |i: int|
            if i % 2 == 0 {
                lower_hex_digit(b[i / 2] as int / 16)
            } else {
                lower_hex_digit(b[i / 2] as int % 16)
            },
    )
}

/// `0x` followed by the lower-case hex digits of `b`.
pub open spec fn prefixed_lower_hex(b: Seq<u8>) -> Seq<char> {
    seq!['0', 'x'] + lower_hex(b)
}

/// `alloy::primitives::Address::from_str`: it takes an optional `0x`/`0X` and then
/// exactly 40 hex digits of either case, and gives the 20 bytes that they spell.
#[verifier::external_body]
fn alloy_address_from_str(s: &str) -> (r: Option<[u8; 20]>)
    ensures
        match r {
            Some(b) => address_from_text(s@) == Some(b@),
            None => address_from_text(s@) is None,
        },
{
    match s.parse::<alloy::primitives::Address>() {
        Ok(a) => Some(a.0.0),
        Err(_) => None,
    }
}

/// The alternate `LowerHex` formatting of `alloy::primitives::Address` (`{:#x}`): `0x`
/// and then two lower-case hex digits per byte.
#[verifier::external_body]
fn alloy_address_lower_hex(bytes: &[u8; 20]) -> (s: String)
    ensures
        s@ == prefixed_lower_hex(bytes@),
{
    format!("{:#x}", alloy::primitives::Address::from(*bytes))
}

/// The address that `s` spells (see `address_from_text`), or `None`.
pub fn parse_address(s: &str) -> (r: Option<Address>)
    ensures
        match r {
            Some(a) => address_from_text(s@) == Some(a.bytes@),
            None => address_from_text(s@) is None,
        },
{
    match alloy_address_from_str(s) {
        Some(bytes) => Some(Address { bytes }),
        None => None,
    }
}

/// The all-zero address.
pub fn zero_address() -> (a: Address)
    ensures
        a.bytes@ == Seq::new(20, |i: int| 0u8),
{
    let a = Address { bytes: [0u8; 20] };
    assert(a.bytes@ =~= Seq::new(20, |i: int| 0u8));
    a
}

/// The name of the disk cache file of `wallet`: `0x`, its lower-case hex digits, `.json`.
pub fn wallet_cache_file_name(wallet: &Address) -> (name: String)
    ensures
        name@ == prefixed_lower_hex(wallet.bytes@) + seq!['.', 'j', 's', 'o', 'n'],
{
    let hex = alloy_address_lower_hex(&wallet.bytes);
    let mut cs = crate::text::str_chars(hex.as_str());
    cs.push('.');
    cs.push('j');
    cs.push('s');
    cs.push('o');
    cs.push('n');
    assert(cs@ =~= prefixed_lower_hex(wallet.bytes@) + seq!['.', 'j', 's', 'o', 'n']);
    string_from_chars(&cs)
}

/// The name of the temporary file that a cache entry of `wallet` is written to before
/// it is renamed into place: the cache file name followed by `.tmp`.
pub fn wallet_cache_tmp_file_name(wallet: &Address) -> (name: String)
    ensures
        name@ == prefixed_lower_hex(wallet.bytes@) + seq!['.', 'j', 's', 'o', 'n', '.', 't', 'm', 'p'],
{
    let base = wallet_cache_file_name(wallet);
    let mut cs = crate::text::str_chars(base.as_str());
    cs.push('.');
    cs.push('t');
    cs.push('m');
    cs.push('p');
    assert(cs@ =~= prefixed_lower_hex(wallet.bytes@) + seq!['.', 'j', 's', 'o', 'n', '.', 't', 'm', 'p']);
    string_from_chars(&cs)
}


/// The value of the lower-case hex digit for `v < 16` is `v`.
proof fn lemma_lower_hex_digit_value(v: int)
    requires
        0 <= v < 16,
    ensures
        is_hex_digit(lower_hex_digit(v)),
        hex_digit_value(lower_hex_digit(v)) == v,
{
}

/// The hex text that names a wallet (as in its cache file name) parses back to the same
/// address.
pub proof fn lemma_lower_hex_parses_back(b: Seq<u8>)
    requires
        b.len() == 20,
    ensures
        address_from_text(prefixed_lower_hex(b)) == Some(b),
{
    let t = prefixed_lower_hex(b);
    let h = lower_hex(b);
    assert(t.skip(2) =~= h);
    assert(without_hex_prefix(t) == h);
    assert forall|i: int| 0 <= i < h.len() implies is_hex_digit(#[trigger] h[i]) by {
        if i % 2 == 0 {
            lemma_lower_hex_digit_value(b[i / 2] as int / 16);
        } else {
            lemma_lower_hex_digit_value(b[i / 2] as int % 16);
        }
    }
    assert forall|k: int| 0 <= k < 20 implies #[trigger] hex_pairs_value(h)[k] == b[k] by {
        assert((2 * k) % 2 == 0 && (2 * k) / 2 == k);
        assert((2 * k + 1) % 2 == 1 && (2 * k + 1) / 2 == k);
        lemma_lower_hex_digit_value(b[k] as int / 16);
        lemma_lower_hex_digit_value(b[k] as int % 16);
    }
    assert(hex_pairs_value(h) =~= b);
}

} // verus!
