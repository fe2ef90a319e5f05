//! Decoding of raw chain logs into typed reserve-update events, and the
//! inverse encoding.
//!
//! A `Sync` log payload is two ABI-encoded big-endian unsigned integers of
//! width at most 112 bits: two 32-byte words, each with its 18 high bytes
//! zero and its value in the 14 low bytes.

use vstd::prelude::*;
use vstd::arithmetic::div_mod::lemma_breakdown;
use vstd::arithmetic::div_mod::lemma_small_mod;
use crate::address::Address;

verus! {

/// Exclusive upper bound of a reserve value: `2^112`.
pub const RESERVE_LIMIT: u128 = 0x1_0000_0000_0000_0000_0000_0000_0000;

/// Length in bytes of a valid `Sync` payload: two 32-byte words.
pub const PAYLOAD_LEN: usize = 64;

/// `256^n`.
pub open spec fn pow256(n: nat) -> nat
    decreases n,
{
    if n == 0 {
        1
    } else {
        256 * pow256((n - 1) as nat)
    }
}

pub proof fn lemma_pow256_pos(n: nat)
    ensures
        pow256(n) >= 1,
    decreases n,
{
    if n > 0 {
        lemma_pow256_pos((n - 1) as nat);
    }
}

pub proof fn lemma_pow256_le(a: nat, b: nat)
    requires
        a <= b,
    ensures
        pow256(a) <= pow256(b),
    decreases b,
{
    if a < b {
        lemma_pow256_le(a, (b - 1) as nat);
        lemma_pow256_pos((b - 1) as nat);
    }
}

pub proof fn lemma_pow256_14()
    ensures
        pow256(14) == RESERVE_LIMIT,
{
    reveal_with_fuel(pow256, 15);
    assert(pow256(14) == RESERVE_LIMIT as nat);
}

/// The value of a byte sequence read as a big-endian unsigned integer.
pub open spec fn be_word(s: Seq<u8>) -> nat
    decreases s.len(),
{
    if s.len() == 0 {
        0
    } else {
        (be_word(s.drop_last()) * 256 + s.last()) as nat
    }
}

pub proof fn lemma_be_word_bound(s: Seq<u8>)
    ensures
        be_word(s) < pow256(s.len()),
    decreases s.len(),
{
    if s.len() > 0 {
        lemma_be_word_bound(s.drop_last());
        let a = be_word(s.drop_last()) as int;
        let b = pow256((s.len() - 1) as nat) as int;
        assert(a * 256 + 255 < b * 256) by (nonlinear_arith)
            requires
                a < b,
        ;
    }
}

/// The `n` low-order base-256 digits of `r`, most significant first.
pub open spec fn be_digits_of(r: nat, n: nat) -> Seq<u8>
    decreases n,
{
    if n == 0 {
        Seq::empty()
    } else {
        be_digits_of(r / 256, (n - 1) as nat).push((r % 256) as u8)
    }
}

pub proof fn lemma_be_digits_of(r: nat, n: nat)
    ensures
        be_digits_of(r, n).len() == n,
        be_word(be_digits_of(r, n)) == r % pow256(n),
    decreases n,
{
    if n == 0 {
        assert(r % 1 == 0);
    } else {
        lemma_be_digits_of(r / 256, (n - 1) as nat);
        let s = be_digits_of(r, n);
        let prev = be_digits_of(r / 256, (n - 1) as nat);
        assert(s.drop_last() =~= prev);
        assert(be_word(s) == be_word(prev) * 256 + (r % 256));
        let z = pow256((n - 1) as nat) as int;
        lemma_pow256_pos((n - 1) as nat);
        lemma_breakdown(r as int, 256, z);
        assert(256 * z == pow256(n) as int);
        assert((r as int) % (256 * z) == 256 * (((r as int) / 256) % z) + (r as int) % 256);
        assert(be_word(prev) == ((r / 256) % pow256((n - 1) as nat)));
        assert(be_word(s) == r % pow256(n));
    }
}

/// Whether the 18 bytes of `p` starting at `start` are all zero: the
/// padding a 112-bit value leaves in a 32-byte word.
pub open spec fn padding_zero(p: Seq<u8>, start: int) -> bool {
    forall|i: int| start <= i < start + 18 ==> p[i] == 0
}

/// Whether `p` is a well-formed `Sync` payload: exactly two 32-byte words,
/// each carrying a 112-bit big-endian value.
pub open spec fn valid_sync_payload(p: Seq<u8>) -> bool {
    &&& p.len() == PAYLOAD_LEN
    &&& padding_zero(p, 0)
    &&& padding_zero(p, 32)
}

/// The first reserve value carried by a valid payload.
pub open spec fn payload_reserve0(p: Seq<u8>) -> nat {
    be_word(p.subrange(18, 32))
}

/// The second reserve value carried by a valid payload.
pub open spec fn payload_reserve1(p: Seq<u8>) -> nat {
    be_word(p.subrange(50, 64))
}

/// A typed reserve-update event: one decoded `Sync` log.
#[derive(Debug)]
pub struct SyncEvent {
    /// Address of the pool that emitted the log.
    pub address: Address,
    /// New reserve of the pool's first token.
    pub reserve0: u128,
    /// New reserve of the pool's second token.
    pub reserve1: u128,
}

impl SyncEvent {
    pub open spec fn wf(self) -> bool {
        &&& self.address.wf()
        &&& self.reserve0 < RESERVE_LIMIT
        &&& self.reserve1 < RESERVE_LIMIT
    }
}

/// Why a raw log failed to decode.
#[derive(Clone, Copy, PartialEq, Eq, Structural, Debug)]
pub enum DecodeError {
    /// The payload is not exactly two 32-byte words.
    WrongLength,
    /// A word's value does not fit in 112 bits.
    NonZeroPadding,
}

/// Reads `len` bytes of `p` starting at `from` as a big-endian integer.
fn read_be_word(p: &Vec<u8>, from: usize, len: usize) -> (r: u128)
    requires
        from + len <= p@.len(),
        len <= 14,
    ensures
        r as nat == be_word(p@.subrange(from as int, (from + len) as int)),
    decreases len,
{
    if len == 0 {
        proof {
            assert(p@.subrange(from as int, from as int).len() == 0);
        }
        0
    } else {
        let n = p.len();
        let hi = read_be_word(p, from, len - 1);
        proof {
            assert(from + len <= n);
            let whole = p@.subrange(from as int, (from + len) as int);
            let head = p@.subrange(from as int, (from + len - 1) as int);
            assert(whole.drop_last() =~= head);
            lemma_be_word_bound(head);
            lemma_pow256_le(head.len(), 13);
            lemma_pow256_14();
            let a = hi as int;
            let b = pow256(13) as int;
            assert(a * 256 + 255 < b * 256) by (nonlinear_arith)
                requires
                    a < b,
            ;
            assert(b * 256 == pow256(14) as int) by {
                reveal_with_fuel(pow256, 15);
            }
        }
        hi * 256 + (p[from + len - 1] as u128)
    }
}

/// Decodes the payload of a `Sync` log emitted by `address` into a typed
/// event. Fails, without side effects, on any payload that is not exactly
/// two 112-bit big-endian integers.
pub fn decode_sync_event(address: Address, payload: &Vec<u8>) -> (r: Result<SyncEvent, DecodeError>)
    requires
        address.wf(),
    ensures
        r is Ok <==> valid_sync_payload(payload@),
        r matches Ok(e) ==> {
            &&& e.wf()
            &&& e.address@ == address@
            &&& e.reserve0 as nat == payload_reserve0(payload@)
            &&& e.reserve1 as nat == payload_reserve1(payload@)
        },
        r == Err::<SyncEvent, DecodeError>(DecodeError::WrongLength) <==> payload@.len()
            != PAYLOAD_LEN,
        r == Err::<SyncEvent, DecodeError>(DecodeError::NonZeroPadding) <==> (payload@.len()
            == PAYLOAD_LEN && !(padding_zero(payload@, 0) && padding_zero(payload@, 32))),
{
    if payload.len() != PAYLOAD_LEN {
        return Err(DecodeError::WrongLength);
    }
    let mut i: usize = 0;
    while i < 18
        invariant
            i <= 18,
            payload@.len() == 64,
            forall|j: int| 0 <= j < i ==> payload@[j] == 0,
            forall|j: int| 32 <= j < 32 + i ==> payload@[j] == 0,
        decreases 18 - i,
    {
        if payload[i] != 0 || payload[32 + i] != 0 {
            return Err(DecodeError::NonZeroPadding);
        }
        i = i + 1;
    }
    let reserve0 = read_be_word(payload, 18, 14);
    let reserve1 = read_be_word(payload, 50, 14);
    proof {
        lemma_be_word_bound(payload@.subrange(18, 32));
        lemma_be_word_bound(payload@.subrange(50, 64));
        lemma_pow256_14();
    }
    Ok(SyncEvent { address, reserve0, reserve1 })
}

/// The payload that carries the reserve pair `(r0, r1)`.
pub open spec fn encode_payload(r0: nat, r1: nat) -> Seq<u8> {
    Seq::new(18, |i: int| 0u8) + be_digits_of(r0, 14) + Seq::new(18, |i: int| 0u8)
        + be_digits_of(r1, 14)
}

/// Decode round-trip: the encoding of any reserve pair representable in
/// 112 bits is a valid payload, and decoding it yields the pair unchanged.
pub proof fn lemma_decode_round_trip(r0: u128, r1: u128)
    requires
        r0 < RESERVE_LIMIT,
        r1 < RESERVE_LIMIT,
    ensures
        valid_sync_payload(encode_payload(r0 as nat, r1 as nat)),
        payload_reserve0(encode_payload(r0 as nat, r1 as nat)) == r0,
        payload_reserve1(encode_payload(r0 as nat, r1 as nat)) == r1,
{
    let p = encode_payload(r0 as nat, r1 as nat);
    lemma_be_digits_of(r0 as nat, 14);
    lemma_be_digits_of(r1 as nat, 14);
    lemma_pow256_14();
    lemma_small_mod(r0 as nat, pow256(14));
    lemma_small_mod(r1 as nat, pow256(14));
    assert(p.len() == 64);
    assert(padding_zero(p, 0));
    assert(padding_zero(p, 32));
    assert(p.subrange(18, 32) =~= be_digits_of(r0 as nat, 14));
    assert(p.subrange(50, 64) =~= be_digits_of(r1 as nat, 14));
}

/// Appends the `n` low-order base-256 digits of `r`, most significant
/// first.
fn push_be_digits(out: &mut Vec<u8>, r: u128, n: usize)
    ensures
        final(out)@ == old(out)@ + be_digits_of(r as nat, n as nat),
    decreases n,
{
    if n == 0 {
        proof {
            assert(final(out)@ =~= old(out)@ + be_digits_of(r as nat, 0));
        }
    } else {
        push_be_digits(out, r / 256, n - 1);
        out.push((r % 256) as u8);
        proof {
            assert(final(out)@ =~= old(out)@ + be_digits_of(r as nat, n as nat));
        }
    }
}

/// Appends `n` zero bytes.
fn push_zero_bytes(out: &mut Vec<u8>, n: usize)
    ensures
        final(out)@ == old(out)@ + Seq::new(n as nat, |i: int| 0u8),
    decreases n,
{
    if n == 0 {
        proof {
            assert(final(out)@ =~= old(out)@ + Seq::new(0, |i: int| 0u8));
        }
    } else {
        push_zero_bytes(out, n - 1);
        out.push(0);
        proof {
            assert(final(out)@ =~= old(out)@ + Seq::new(n as nat, |i: int| 0u8));
        }
    }
}

/// ABI-encodes a reserve pair as a `Sync` payload.
pub fn encode_reserves(r0: u128, r1: u128) -> (r: Vec<u8>)
    requires
        r0 < RESERVE_LIMIT,
        r1 < RESERVE_LIMIT,
    ensures
        r@ == encode_payload(r0 as nat, r1 as nat),
        valid_sync_payload(r@),
        payload_reserve0(r@) == r0,
        payload_reserve1(r@) == r1,
{
    let mut out: Vec<u8> = Vec::new();
    push_zero_bytes(&mut out, 18);
    push_be_digits(&mut out, r0, 14);
    push_zero_bytes(&mut out, 18);
    push_be_digits(&mut out, r1, 14);
    proof {
        assert(out@ =~= encode_payload(r0 as nat, r1 as nat));
        lemma_decode_round_trip(r0, r1);
    }
    out
}

} // verus!
