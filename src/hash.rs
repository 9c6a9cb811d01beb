//! Content hashes: the 128-bit XXH3 digest of a file's bytes, written as 32
//! lowercase hexadecimal digits.

use vstd::prelude::*;
use vstd::arithmetic::power::*;
use vstd::arithmetic::div_mod::*;
use crate::text::push_char;

verus! {

/// What `xxh3_128` yields on the given bytes.
pub uninterp spec fn xxh3_digest(bytes: Seq<u8>) -> u128;

/// Relies on `xxhash_rust::xxh3::xxh3_128`: the XXH3 128-bit digest with the
/// default secret, a function of the input bytes alone.
#[verifier::external_body]
fn xxh3_128(bytes: &[u8]) -> (r: u128)
    ensures
        r == xxh3_digest(bytes@),
{
    xxhash_rust::xxh3::xxh3_128(bytes)
}

/// Number of hexadecimal digits in a rendered hash.
pub const HEX_LEN: usize = 32;

/// Number of leading digits that name an object's shard directory.
pub const SHARD_LEN: usize = 2;

/// Identity of a blob: the digest of its uncompressed bytes.
#[derive(Clone, Copy, Debug, PartialEq, Eq, Structural, Hash)]
pub struct ContentHash {
    pub value: u128,
}

/// The hash of a byte sequence.
pub open spec fn hash_of(bytes: Seq<u8>) -> ContentHash {
    ContentHash { value: xxh3_digest(bytes) }
}

/// The lowercase digit for a value below 16.
pub open spec fn hex_char(d: nat) -> char {
    seq!['0', '1', '2', '3', '4', '5', '6', '7', '8', '9', 'a', 'b', 'c', 'd', 'e', 'f'][d as int]
}

/// The value of a lowercase hexadecimal digit, if it is one.
pub open spec fn hex_value_of(c: char) -> Option<nat> {
    if '0' <= c && c <= '9' {
        Some((c as nat - '0' as nat) as nat)
    } else if 'a' <= c && c <= 'f' {
        Some((c as nat - 'a' as nat + 10) as nat)
    } else {
        None
    }
}

/// The last `n` hexadecimal digits of `v`, most significant first.
pub open spec fn hex_digits(v: nat, n: nat) -> Seq<char>
    decreases n,
{
    if n == 0 {
        seq![]
    } else {
        hex_digits(v / 16, (n - 1) as nat).push(hex_char(v % 16))
    }
}

/// The rendering of a hash: 32 digits.
pub open spec fn hex_of(h: ContentHash) -> Seq<char> {
    hex_digits(h.value as nat, HEX_LEN as nat)
}

/// Whether every character is a lowercase hexadecimal digit.
pub open spec fn all_hex(s: Seq<char>) -> bool {
    forall|i: int| 0 <= i < s.len() ==> (#[trigger] hex_value_of(s[i])) is Some
}

/// The number written by a sequence of hexadecimal digits.
pub open spec fn hex_number(s: Seq<char>) -> nat
    decreases s.len(),
{
    if s.len() == 0 {
        0
    } else {
        hex_number(s.drop_last()) * 16 + match hex_value_of(s.last()) {
            Some(d) => d,
            None => 0,
        }
    }
}

/// What `ContentHash::from_hex` accepts: exactly 32 lowercase digits.
pub open spec fn parse_hex(s: Seq<char>) -> Option<ContentHash> {
    if s.len() == HEX_LEN && all_hex(s) {
        Some(ContentHash { value: hex_number(s) as u128 })
    } else {
        None
    }
}

/// Digits are what `hex_value_of` reads back.
proof fn lemma_hex_char_value(d: nat)
    requires
        d < 16,
    ensures
        hex_value_of(hex_char(d)) == Some(d),
{
}

proof fn lemma_hex_number_bound(s: Seq<char>)
    requires
        all_hex(s),
    ensures
        hex_number(s) < pow(16, s.len()),
    decreases s.len(),
{
    reveal(pow);
    if s.len() > 0 {
        let t = s.drop_last();
        assert(all_hex(t)) by {
            assert forall|i: int| 0 <= i < t.len() implies (#[trigger] hex_value_of(t[i])) is Some by {
                assert(t[i] == s[i]);
            }
        }
        lemma_hex_number_bound(t);
        assert(hex_value_of(s[s.len() - 1]) is Some);
        let d = hex_value_of(s.last())->0;
        assert(d < 16);
        reveal(pow);
        assert(pow(16, s.len()) == 16 * pow(16, t.len()));
        assert(hex_number(s) == hex_number(t) * 16 + d);
        assert(hex_number(t) * 16 + d < 16 * pow(16, t.len())) by (nonlinear_arith)
            requires
                hex_number(t) < pow(16, t.len()),
                d < 16,
        ;
    }
}

proof fn lemma_hex_digits_facts(v: nat, n: nat)
    ensures
        hex_digits(v, n).len() == n,
        all_hex(hex_digits(v, n)),
        hex_number(hex_digits(v, n)) == v % pow(16, n) as nat,
    decreases n,
{
    reveal(pow);
    if n == 0 {
        assert(v % 1 == 0);
    } else {
        let m = (n - 1) as nat;
        lemma_hex_digits_facts(v / 16, m);
        let s = hex_digits(v, n);
        let t = hex_digits(v / 16, m);
        lemma_hex_char_value(v % 16);
        assert(s.drop_last() =~= t);
        assert forall|i: int| 0 <= i < s.len() implies (#[trigger] hex_value_of(s[i])) is Some by {
            if i < t.len() {
                assert(s[i] == t[i]);
            }
        }
        lemma_pow_positive(16, m);
        lemma_mod_breakdown(v as int, 16, pow(16, m));
        assert(pow(16, n) == 16 * pow(16, m));
        assert(hex_number(s) == hex_number(t) * 16 + v % 16);
        assert(16 * ((v as int / 16) % pow(16, m)) == ((v as int / 16) % pow(16, m)) * 16);
    }
}

proof fn lemma_pow16_hex_len()
    ensures
        pow(16, HEX_LEN as nat) == 0x1_0000_0000_0000_0000_0000_0000_0000_0000,
{
    reveal_with_fuel(pow, 33);
}

/// Rendering a hash and parsing the text back gives the same hash.
pub proof fn lemma_hex_round_trip(h: ContentHash)
    ensures
        hex_of(h).len() == HEX_LEN,
        parse_hex(hex_of(h)) == Some(h),
{
    lemma_hex_digits_facts(h.value as nat, HEX_LEN as nat);
    lemma_pow16_hex_len();
    lemma_small_mod(h.value as nat, pow(16, 32) as nat);
}

/// Equal contents always have equal hashes: the digest takes no salt and no state.
pub proof fn lemma_hash_deterministic(b1: Seq<u8>, b2: Seq<u8>)
    requires
        b1 == b2,
    ensures
        hash_of(b1) == hash_of(b2),
        hex_of(hash_of(b1)) == hex_of(hash_of(b2)),
{
}

/// The hash of a byte sequence.
pub fn content_hash(bytes: &[u8]) -> (r: ContentHash)
    ensures
        r == hash_of(bytes@),
{
    ContentHash { value: xxh3_128(bytes) }
}

fn digit_char(d: u128) -> (c: char)
    requires
        d < 16,
    ensures
        c == hex_char(d as nat),
{
    match d {
        0 => '0',
        1 => '1',
        2 => '2',
        3 => '3',
        4 => '4',
        5 => '5',
        6 => '6',
        7 => '7',
        8 => '8',
        9 => '9',
        10 => 'a',
        11 => 'b',
        12 => 'c',
        13 => 'd',
        14 => 'e',
        _ => 'f',
    }
}

fn push_hex_digits(v: u128, n: usize, out: &mut String)
    ensures
        final(out)@ == old(out)@ + hex_digits(v as nat, n as nat),
    decreases n,
{
    if n == 0 {
        assert(old(out)@ + hex_digits(v as nat, 0) =~= old(out)@);
    } else {
        push_hex_digits(v / 16, n - 1, out);
        push_char(out, digit_char(v % 16));
        assert(old(out)@ + hex_digits(v as nat, n as nat) =~= old(out)@ + hex_digits(
            (v / 16) as nat,
            (n - 1) as nat,
        ) + seq![hex_char((v % 16) as nat)]);
    }
}

fn digit_value(c: char) -> (r: Option<u128>)
    ensures
        r matches Some(d) ==> hex_value_of(c) == Some(d as nat),
        r is None ==> hex_value_of(c) is None,
{
    if '0' <= c && c <= '9' {
        Some((c as u32 - '0' as u32) as u128)
    } else if 'a' <= c && c <= 'f' {
        Some((c as u32 - 'a' as u32 + 10) as u128)
    } else {
        None
    }
}

impl ContentHash {
    /// The 32 lowercase hexadecimal digits of the hash.
    pub fn to_hex(&self) -> (r: String)
        ensures
            r@ == hex_of(*self),
            r@.len() == HEX_LEN,
    {
        let mut out = String::new();
        push_hex_digits(self.value, HEX_LEN, &mut out);
        assert(out@ =~= hex_of(*self));
        proof {
            lemma_hex_round_trip(*self);
        }
        out
    }

    /// Reads a hash back from its rendering; anything but 32 lowercase
    /// hexadecimal digits is refused.
    pub fn from_hex(s: &str) -> (r: Option<ContentHash>)
        ensures
            r == parse_hex(s@),
    {
        let n = s.unicode_len();
        if n != HEX_LEN {
            return None;
        }
        let mut value: u128 = 0;
        let mut i: usize = 0;
        while i < n
            invariant
                n == s@.len(),
                n == HEX_LEN,
                i <= n,
                all_hex(s@.subrange(0, i as int)),
                value as nat == hex_number(s@.subrange(0, i as int)),
            decreases n - i,
        {
            let c = s.get_char(i);
            match digit_value(c) {
                None => {
                    assert(!all_hex(s@));
                    return None;
                },
                Some(d) => {
                    let ghost pre = s@.subrange(0, i as int);
                    let ghost next = s@.subrange(0, i as int + 1);
                    assert(next.drop_last() =~= pre);
                    assert forall|j: int| 0 <= j < next.len() implies (#[trigger] hex_value_of(
                        next[j],
                    )) is Some by {
                        if j < pre.len() {
                            assert(next[j] == pre[j]);
                        }
                    }
                    proof {
                        lemma_hex_number_bound(next);
                        lemma_pow_increases(16, (i + 1) as nat, 32);
                        lemma_pow16_hex_len();
                    }
                    assert(hex_number(next) == value * 16 + d);
                    value = value * 16 + d;
                    i = i + 1;
                },
            }
        }
        assert(s@.subrange(0, n as int) =~= s@);
        Some(ContentHash { value })
    }

    /// The name of the shard directory that holds the object: the first two digits.
    pub fn shard_name(&self) -> (r: String)
        ensures
            r@ == hex_of(*self).subrange(0, SHARD_LEN as int),
    {
        let full = self.to_hex();
        let prefix = full.as_str().substring_char(0, SHARD_LEN);
        prefix.to_string()
    }
}

} // verus!
