use vstd::prelude::*;

verus! {

/// The account identifier used throughout the registry.
pub type AccountId = u64;

/// A kitty's genome: sixteen opaque bytes, fixed once the kitty is minted.
#[derive(Clone, Copy, Debug)]
pub struct Kitty(pub [u8; 16]);

/// The per-block randomness handed out by the host: a 32-byte hash and the
/// block number it belongs to.
#[derive(Clone, Copy, Debug)]
pub struct RandomSeed {
    pub hash: [u8; 32],
    pub block_number: u64,
}

/// Little-endian encoding of `x` in `n` bytes.
pub open spec fn le_bytes(x: nat, n: nat) -> Seq<u8>
    decreases n,
{
    if n == 0 {
        seq![]
    } else {
        seq![(x % 256) as u8] + le_bytes(x / 256, (n - 1) as nat)
    }
}

/// Encoding of an optional 32-bit index: a tag byte, then the value if present.
pub open spec fn option_u32_bytes(v: Option<u32>) -> Seq<u8> {
    match v {
        None => seq![0u8],
        Some(x) => seq![1u8] + le_bytes(x as nat, 4),
    }
}

/// The bytes that are hashed to draw a random value: the seed hash, the seed's
/// block number, the caller, and the index of the current call in its block.
pub open spec fn random_payload(seed: RandomSeed, sender: AccountId, index: Option<u32>) -> Seq<u8> {
    seed.hash@ + le_bytes(seed.block_number as nat, 8) + le_bytes(sender as nat, 8)
        + option_u32_bytes(index)
}

/// The 128-bit BLAKE2b digest of a byte string.
pub uninterp spec fn blake2_128_of(data: Seq<u8>) -> Seq<u8>;

/// Relies on `sp_io::hashing::blake2_128`: the 16-byte BLAKE2b digest of the
/// given bytes, which depends on those bytes alone.
#[verifier::external_body]
fn blake2_128(data: &Vec<u8>) -> (r: [u8; 16])
    ensures
        r@ == blake2_128_of(data@),
{
    sp_io::hashing::blake2_128(data.as_slice())
}

/// Appends the `n`-byte little-endian encoding of `x`.
fn push_le(out: &mut Vec<u8>, x: u64, n: usize)
    ensures
        final(out)@ == old(out)@ + le_bytes(x as nat, n as nat),
{
    let mut v: u64 = x;
    let mut i: usize = 0;
    while i < n
        invariant
            0 <= i <= n,
            out@ + le_bytes(v as nat, (n - i) as nat) == old(out)@ + le_bytes(x as nat, n as nat),
        decreases n - i,
    {
        let ghost pre = out@;
        let ghost rest = le_bytes((v / 256) as nat, (n - i - 1) as nat);
        out.push((v % 256) as u8);
        assert(le_bytes(v as nat, (n - i) as nat) == seq![(v % 256) as u8] + rest);
        assert(pre + (seq![(v % 256) as u8] + rest) == out@ + rest);
        v = v / 256;
        i = i + 1;
    }
    assert(le_bytes(v as nat, 0) == Seq::<u8>::empty());
    assert(out@ + Seq::<u8>::empty() == out@);
}

/// The bytes hashed for a random value, as `random_payload` describes them.
pub fn encode_random_payload(seed: &RandomSeed, sender: AccountId, index: Option<u32>) -> (r: Vec<u8>)
    ensures
        r@ == random_payload(*seed, sender, index),
{
    let mut out: Vec<u8> = Vec::new();
    let mut i: usize = 0;
    while i < 32
        invariant
            0 <= i <= 32,
            out@ == seed.hash@.subrange(0, i as int),
        decreases 32 - i,
    {
        out.push(seed.hash[i]);
        assert(seed.hash@.subrange(0, i + 1) == seed.hash@.subrange(0, i as int).push(seed.hash@[i as int]));
        i = i + 1;
    }
    assert(seed.hash@.subrange(0, 32) == seed.hash@);
    push_le(&mut out, seed.block_number, 8);
    push_le(&mut out, sender, 8);
    match index {
        None => {
            out.push(0u8);
        },
        Some(x) => {
            out.push(1u8);
            push_le(&mut out, x as u64, 4);
            let ghost base = seed.hash@ + le_bytes(seed.block_number as nat, 8) + le_bytes(sender as nat, 8);
            assert(base.push(1u8) + le_bytes(x as nat, 4) == base + (seq![1u8] + le_bytes(x as nat, 4)));
        },
    }
    out
}

/// Draws sixteen random bytes for `sender`: the digest of the seed, the sender
/// and the call's index within its block.
pub fn random_value(seed: &RandomSeed, sender: AccountId, index: Option<u32>) -> (r: [u8; 16])
    ensures
        r@ == blake2_128_of(random_payload(*seed, sender, index)),
{
    let payload = encode_random_payload(seed, sender, index);
    blake2_128(&payload)
}

/// One byte of a crossover: each bit from `a` where the selector's bit is set,
/// from `b` where it is clear.
pub open spec fn mix_byte(s: u8, a: u8, b: u8) -> u8 {
    (s & a) | (!s & b)
}

/// Bit `j` of a byte.
pub open spec fn bit(x: u8, j: u8) -> bool {
    (x >> j) & 1u8 == 1u8
}

/// The genome bred from `a` and `b` under `selector`, byte by byte.
pub open spec fn crossover_spec(selector: Seq<u8>, a: Seq<u8>, b: Seq<u8>) -> Seq<u8> {
    Seq::new(16, |i: int| mix_byte(selector[i], a[i], b[i]))
}

/// Combines two parent genomes: every bit of the result comes from `a` where
/// the selector's bit is 1 and from `b` where it is 0.
pub fn crossover(selector: &[u8; 16], a: &[u8; 16], b: &[u8; 16]) -> (r: [u8; 16])
    ensures
        r@ == crossover_spec(selector@, a@, b@),
{
    let mut out: [u8; 16] = [0u8; 16];
    let mut i: usize = 0;
    while i < 16
        invariant
            0 <= i <= 16,
            out@.len() == 16,
            forall|k: int| 0 <= k < i ==> out@[k] == mix_byte(selector@[k], a@[k], b@[k]),
        decreases 16 - i,
    {
        out[i] = (selector[i] & a[i]) | (!selector[i] & b[i]);
        i = i + 1;
    }
    assert(out@ =~= crossover_spec(selector@, a@, b@));
    out
}

proof fn lemma_mix_byte_bit(s: u8, a: u8, b: u8, j: u8)
    requires
        j < 8,
    ensures
        ((((s & a) | (!s & b)) >> j) & 1u8 == 1u8) == (if (s >> j) & 1u8 == 1u8 {
            (a >> j) & 1u8 == 1u8
        } else {
            (b >> j) & 1u8 == 1u8
        }),
{
    assert(((((s & a) | (!s & b)) >> j) & 1u8 == 1u8) == (if (s >> j) & 1u8 == 1u8 {
        (a >> j) & 1u8 == 1u8
    } else {
        (b >> j) & 1u8 == 1u8
    })) by (bit_vector)
        requires
            j < 8,
    ;
}

/// Crossover is bitwise selection: for every byte and every bit position, the
/// result's bit is the first parent's where the selector's bit is 1 and the
/// second parent's where it is 0.
pub proof fn lemma_crossover_bits(selector: Seq<u8>, a: Seq<u8>, b: Seq<u8>)
    requires
        selector.len() == 16,
        a.len() == 16,
        b.len() == 16,
    ensures
        crossover_spec(selector, a, b).len() == 16,
        forall|i: int, j: u8|
            0 <= i < 16 && j < 8 ==> #[trigger] bit(crossover_spec(selector, a, b)[i], j) == if bit(
                selector[i],
                j,
            ) {
                bit(a[i], j)
            } else {
                bit(b[i], j)
            },
{
    assert forall|i: int, j: u8| 0 <= i < 16 && j < 8 implies #[trigger] bit(
        crossover_spec(selector, a, b)[i],
        j,
    ) == if bit(selector[i], j) {
        bit(a[i], j)
    } else {
        bit(b[i], j)
    } by {
        lemma_mix_byte_bit(selector[i], a[i], b[i], j);
    }
}

/// Crossover is deterministic: the same selector and parents always give the
/// same genome, byte for byte.
pub proof fn lemma_crossover_deterministic(
    selector: Seq<u8>,
    a: Seq<u8>,
    b: Seq<u8>,
    r1: Seq<u8>,
    r2: Seq<u8>,
)
    requires
        r1 == crossover_spec(selector, a, b),
        r2 == crossover_spec(selector, a, b),
    ensures
        r1 == r2,
        forall|i: int| 0 <= i < 16 ==> r1[i] == r2[i],
{
}

} // verus!
