use vstd::prelude::*;
use sha1::Digest;
use crate::text::{hex_bytes, hex_lower, chars_of, replace_char, string_push};

verus! {

/// The SHA-1 digest of `data`.
pub uninterp spec fn sha1_of(data: Seq<u8>) -> Seq<u8>;

/// SHA-1 (`sha1::Sha1`, through `Digest::digest`): the result is the digest of
/// `data`, 20 bytes long. Feeding a hasher several slices in turn gives the
/// digest of their concatenation, so callers concatenate first.
#[verifier::external_body]
pub(crate) fn sha1_digest(data: &[u8]) -> (r: Vec<u8>)
    ensures
        r@ == sha1_of(data@),
        r@.len() == 20,
{
    sha1::Sha1::digest(data).to_vec()
}

/// `256^n`.
pub open spec fn pow256(n: nat) -> nat
    decreases n,
{
    if n == 0 {
        1
    } else {
        256 * pow256((n - 1) as nat)
    }
}

/// The last `n` bytes of `v`, most significant first (`to_be_bytes`).
pub open spec fn be_bytes(v: nat, n: nat) -> Seq<u8>
    decreases n,
{
    if n == 0 {
        Seq::empty()
    } else {
        be_bytes(v / 256, (n - 1) as nat).push((v % 256) as u8)
    }
}

/// The last `n` bytes of `v`, least significant first (`to_le_bytes`).
pub open spec fn le_bytes(v: nat, n: nat) -> Seq<u8>
    decreases n,
{
    if n == 0 {
        Seq::empty()
    } else {
        seq![(v % 256) as u8] + le_bytes(v / 256, (n - 1) as nat)
    }
}

/// The number that `s` spells with its most significant byte first.
pub open spec fn be_value(s: Seq<u8>) -> nat
    decreases s.len(),
{
    if s.len() == 0 {
        0
    } else {
        be_value(s.drop_last()) * 256 + s.last() as nat
    }
}

/// The number that `s` spells with its least significant byte first.
pub open spec fn le_value(s: Seq<u8>) -> nat
    decreases s.len(),
{
    if s.len() == 0 {
        0
    } else {
        s[0] as nat + 256 * le_value(s.drop_first())
    }
}

pub proof fn lemma_be_value_bound(s: Seq<u8>)
    ensures
        be_value(s) < pow256(s.len()),
    decreases s.len(),
{
    if s.len() > 0 {
        lemma_be_value_bound(s.drop_last());
        let a = be_value(s.drop_last());
        let p = pow256((s.len() - 1) as nat);
        let b = s.last() as nat;
        assert(a * 256 + b < p * 256) by (nonlinear_arith)
            requires
                a < p,
                b < 256,
        ;
    }
}

pub proof fn lemma_le_value_bound(s: Seq<u8>)
    ensures
        le_value(s) < pow256(s.len()),
    decreases s.len(),
{
    if s.len() > 0 {
        lemma_le_value_bound(s.drop_first());
        let a = le_value(s.drop_first());
        let p = pow256((s.len() - 1) as nat);
        let b = s[0] as nat;
        assert(b + 256 * a < 256 * p) by (nonlinear_arith)
            requires
                a < p,
                b < 256,
        ;
    }
}

pub proof fn lemma_pow256_16()
    ensures
        pow256(16) == 0x1_0000_0000_0000_0000_0000_0000_0000_0000,
        pow256(8) == 0x1_0000_0000_0000_0000,
{
    reveal_with_fuel(pow256, 17);
}

/// Appends the last `n` bytes of `x`, most significant first.
pub fn push_be_bytes(out: &mut Vec<u8>, x: u128, n: u32)
    ensures
        final(out)@ == old(out)@ + be_bytes(x as nat, n as nat),
    decreases n,
{
    if n == 0 {
        proof {
            assert(old(out)@ + be_bytes(x as nat, 0) =~= old(out)@);
        }
        return;
    }
    push_be_bytes(out, x / 256, n - 1);
    out.push((x % 256) as u8);
    proof {
        assert(final(out)@ =~= old(out)@ + be_bytes(x as nat, n as nat));
    }
}

/// Appends the last `n` bytes of `x`, least significant first.
pub fn push_le_bytes(out: &mut Vec<u8>, x: u64, n: u32)
    ensures
        final(out)@ == old(out)@ + le_bytes(x as nat, n as nat),
    decreases n,
{
    if n == 0 {
        proof {
            assert(old(out)@ + le_bytes(x as nat, 0) =~= old(out)@);
        }
        return;
    }
    out.push((x % 256) as u8);
    push_le_bytes(out, x / 256, n - 1);
    proof {
        assert(final(out)@ =~= old(out)@ + le_bytes(x as nat, n as nat));
    }
}

/// The number spelled by the first 16 bytes of `s`, most significant first.
pub fn be_u128_prefix(s: &[u8]) -> (r: u128)
    requires
        s@.len() >= 16,
    ensures
        r as nat == be_value(s@.take(16)),
{
    let mut acc: u128 = 0;
    let mut i: usize = 0;
    while i < 16
        invariant
            i <= 16,
            s@.len() >= 16,
            acc as nat == be_value(s@.take(i as int)),
        decreases 16 - i,
    {
        proof {
            lemma_be_value_bound(s@.take(i as int + 1));
            lemma_pow256_16();
            lemma_pow256_mono((i + 1) as nat, 16);
            assert(s@.take(i as int + 1).drop_last() =~= s@.take(i as int));
        }
        acc = acc * 256 + s[i] as u128;
        i = i + 1;
    }
    acc
}

/// The number spelled by the first 8 bytes of `s`, least significant first.
pub fn le_u64_prefix(s: &[u8]) -> (r: u64)
    requires
        s@.len() >= 8,
    ensures
        r as nat == le_value(s@.take(8)),
{
    let mut acc: u64 = 0;
    let mut i: usize = 8;
    while i > 0
        invariant
            i <= 8,
            s@.len() >= 8,
            acc as nat == le_value(s@.subrange(i as int, 8)),
        decreases i,
    {
        proof {
            let t = s@.subrange(i as int - 1, 8);
            assert(t.drop_first() =~= s@.subrange(i as int, 8));
            lemma_le_value_bound(t);
            lemma_pow256_16();
            lemma_pow256_mono((8 - i + 1) as nat, 8);
        }
        acc = (s[i - 1] as u64) + 256 * acc;
        i = i - 1;
    }
    proof {
        assert(s@.subrange(0, 8) =~= s@.take(8));
    }
    acc
}

pub proof fn lemma_pow256_mono(a: nat, b: nat)
    requires
        a <= b,
    ensures
        pow256(a) <= pow256(b),
    decreases b,
{
    if a < b {
        lemma_pow256_mono(a, (b - 1) as nat);
    }
}

/// The UUID that a reference wrapper gives a wrapped type: the first 16
/// bytes of the SHA-1 digest of the wrapper's UUID bytes followed by the
/// wrapped type's UUID bytes.
pub open spec fn wrapper_type_uuid_of(wrapper: Seq<u8>, inner: u128) -> u128 {
    be_value(sha1_of(wrapper + be_bytes(inner as nat, 16)).take(16)) as u128
}

/// The UUID of a wrapper type (`wrapper`, 16 bytes) around the type with UUID
/// `inner`.
pub fn wrapper_type_uuid(wrapper: &[u8; 16], inner: u128) -> (r: u128)
    ensures
        r == wrapper_type_uuid_of(wrapper@, inner),
{
    let mut data: Vec<u8> = Vec::new();
    let mut i: usize = 0;
    while i < 16
        invariant
            i <= 16,
            data@ == wrapper@.take(i as int),
        decreases 16 - i,
    {
        data.push(wrapper[i]);
        proof {
            assert(wrapper@.take(i as int + 1) =~= wrapper@.take(i as int).push(wrapper@[i as int]));
        }
        i = i + 1;
    }
    proof {
        assert(wrapper@.take(16) =~= wrapper@);
    }
    push_be_bytes(&mut data, inner, 16);
    let digest = sha1_digest(data.as_slice());
    be_u128_prefix(digest.as_slice())
}

/// The UUID bytes of the shared-reference wrapper.
pub open spec fn ref_wrapper_bytes() -> Seq<u8> {
    seq![0x0Cu8, 0xFC, 0xB5, 0xED, 0xA9, 0xF5, 0x41, 0xEC, 0x87, 0x4B, 0x24, 0xCD, 0x3F, 0x01, 0xB1, 0x2A]
}

/// The UUID bytes of the read-only reference wrapper.
pub open spec fn read_only_ref_wrapper_bytes() -> Seq<u8> {
    seq![0x17u8, 0xEF, 0x5A, 0xE1, 0x2C, 0xD0, 0x42, 0x9F, 0x84, 0x52, 0xA0, 0x21, 0x65, 0x55, 0xB0, 0x6A]
}

/// The type UUID of a shared reference to the type with UUID `inner`.
pub fn ref_type_uuid(inner: u128) -> (r: u128)
    ensures
        r == wrapper_type_uuid_of(ref_wrapper_bytes(), inner),
{
    let wrapper: [u8; 16] = [
        0x0C, 0xFC, 0xB5, 0xED, 0xA9, 0xF5, 0x41, 0xEC, 0x87, 0x4B, 0x24, 0xCD, 0x3F, 0x01, 0xB1,
        0x2A,
    ];
    proof {
        assert(wrapper@ =~= ref_wrapper_bytes());
    }
    wrapper_type_uuid(&wrapper, inner)
}

/// The type UUID of a read-only reference to the type with UUID `inner`.
pub fn read_only_ref_type_uuid(inner: u128) -> (r: u128)
    ensures
        r == wrapper_type_uuid_of(read_only_ref_wrapper_bytes(), inner),
{
    let wrapper: [u8; 16] = [
        0x17, 0xEF, 0x5A, 0xE1, 0x2C, 0xD0, 0x42, 0x9F, 0x84, 0x52, 0xA0, 0x21, 0x65, 0x55, 0xB0,
        0x6A,
    ];
    proof {
        assert(wrapper@ =~= read_only_ref_wrapper_bytes());
    }
    wrapper_type_uuid(&wrapper, inner)
}

/// The name under which the thumbnails of a project are cached: the SHA-1 of
/// the project root's text with `\` turned into `/`, in lower-case hex.
pub open spec fn project_cache_hash_of(root: Seq<char>) -> Seq<char> {
    hex_bytes(sha1_of(vstd::utf8::encode_utf8(replace_char(root, '\\', '/'))))
}

/// The cache directory name of a project whose asset root path reads `root`.
pub fn project_cache_hash(root: &str) -> (r: String)
    ensures
        r@ == project_cache_hash_of(root@),
{
    let chars = chars_of(root);
    let mut normalized = String::new();
    let mut i: usize = 0;
    while i < chars.len()
        invariant
            i <= chars@.len(),
            chars@ == root@,
            normalized@ == replace_char(root@.take(i as int), '\\', '/'),
        decreases chars@.len() - i,
    {
        let c = chars[i];
        string_push(&mut normalized, if c == '\\' { '/' } else { c });
        proof {
            assert(replace_char(root@.take(i as int + 1), '\\', '/') =~= replace_char(
                root@.take(i as int),
                '\\',
                '/',
            ).push(if c == '\\' { '/' } else { c }));
        }
        i = i + 1;
    }
    proof {
        assert(root@.take(root@.len() as int) =~= root@);
    }
    let bytes = normalized.as_str().as_bytes();
    let digest = sha1_digest(bytes);
    hex_lower(digest.as_slice())
}

/// Reading back the `n` big-endian bytes of a number below `256^n` gives
/// the number.
pub proof fn law_be_bytes_round_trip(v: nat, n: nat)
    requires
        v < pow256(n),
    ensures
        be_bytes(v, n).len() == n,
        be_value(be_bytes(v, n)) == v,
    decreases n,
{
    if n > 0 {
        assert(v / 256 < pow256((n - 1) as nat)) by {
            assert(pow256(n) == 256 * pow256((n - 1) as nat));
            vstd::arithmetic::div_mod::lemma_div_by_multiple_is_strongly_ordered(
                v as int,
                pow256(n) as int,
                pow256((n - 1) as nat) as int,
                256,
            );
        }
        law_be_bytes_round_trip(v / 256, (n - 1) as nat);
        let s = be_bytes(v, n);
        assert(s.drop_last() =~= be_bytes(v / 256, (n - 1) as nat));
        assert(v == (v / 256) * 256 + v % 256) by {
            vstd::arithmetic::div_mod::lemma_fundamental_div_mod(v as int, 256);
        }
    }
}

} // verus!
