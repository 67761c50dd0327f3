//! Content fingerprints and the seeded tie-breaker.
use vstd::prelude::*;
use vstd::utf8::encode_utf8;

verus! {

/// The SHA-256 digest of a byte string.
pub uninterp spec fn sha256_of(data: Seq<u8>) -> Seq<u8>;

/// The index that a generator seeded with `seed` draws first from `0..n`, drawn as a `u64`.
pub uninterp spec fn seeded_index(seed: u64, n: nat) -> nat;

/// Relies on sha2's `Sha256::digest`: the SHA-256 digest of the input, 32 bytes long.
#[verifier::external_body]
fn sha256(data: &[u8]) -> (r: Vec<u8>)
    ensures
        r@ == sha256_of(data@),
        r@.len() == 32,
{
    <sha2::Sha256 as sha2::Digest>::digest(data).to_vec()
}

/// Relies on hex's `encode`: two lowercase hex digits per byte, high half first.
#[verifier::external_body]
fn hex_encode(data: &[u8]) -> (r: String)
    ensures
        r@ == hex_text(data@),
{
    hex::encode(data)
}

/// Relies on rand's `StdRng::seed_from_u64` and `Rng::gen_range`: a generator built
/// from a seed produces a stream fixed by that seed, and a draw from `0..n` lies in
/// it. The draw is made over `u64`, whose sampling reads the same words of the
/// stream whatever the target's word size.
#[verifier::external_body]
fn seeded_draw(seed: u64, n: usize) -> (r: usize)
    requires
        n > 0,
    ensures
        r < n,
        r == seeded_index(seed, n as nat),
{
    let mut rng = <rand::rngs::StdRng as rand::SeedableRng>::seed_from_u64(seed);
    rand::Rng::gen_range(&mut rng, 0..(n as u64)) as usize
}

/// Lowercase hex digit of a value below 16.
pub open spec fn hex_digit(d: int) -> char {
    "0123456789abcdef"@[d]
}

/// Lowercase hex text of a byte string.
pub open spec fn hex_text(b: Seq<u8>) -> Seq<char>
    decreases b.len(),
{
    if b.len() == 0 {
        Seq::empty()
    } else {
        seq![hex_digit(b[0] as int / 16), hex_digit(b[0] as int % 16)] + hex_text(b.drop_first())
    }
}

proof fn lemma_hex_text_len(b: Seq<u8>)
    ensures
        hex_text(b).len() == 2 * b.len(),
    decreases b.len(),
{
    if b.len() > 0 {
        lemma_hex_text_len(b.drop_first());
    }
}

/// A fingerprint: the algorithm's tag, then the hex digest of the content.
pub open spec fn fingerprint_of(content: Seq<u8>) -> Seq<char> {
    "sha256:"@ + hex_text(sha256_of(content))
}

/// The value of a little-endian byte string.
pub open spec fn le_value(b: Seq<u8>) -> nat
    decreases b.len(),
{
    if b.len() == 0 {
        0
    } else {
        b[0] as nat + 256 * le_value(b.drop_first())
    }
}

/// The `k` low bytes of `x`, least significant first.
pub open spec fn le_bytes(x: nat, k: nat) -> Seq<u8>
    decreases k,
{
    if k == 0 {
        Seq::empty()
    } else {
        seq![(x % 256) as u8] + le_bytes(x / 256, (k - 1) as nat)
    }
}

/// The seed of one topic: the first eight bytes, little-endian, of the digest of
/// the topic's bytes followed by the run seed's eight little-endian bytes.
pub open spec fn topic_seed(topic: Seq<char>, seed: u64) -> nat {
    le_value(sha256_of(encode_utf8(topic) + le_bytes(seed as nat, 8)).take(8))
}

/// The position that the tie-breaker takes among `n` tied names.
pub open spec fn tie_pick(topic: Seq<char>, seed: u64, n: nat) -> nat {
    let k = seeded_index(topic_seed(topic, seed) as u64, n);
    if n <= 1 || k >= n {
        0
    } else {
        k
    }
}

pub open spec fn pow256(k: nat) -> nat
    decreases k,
{
    if k == 0 {
        1
    } else {
        256 * pow256((k - 1) as nat)
    }
}

proof fn lemma_le_value_bound(b: Seq<u8>)
    ensures
        le_value(b) < pow256(b.len()),
    decreases b.len(),
{
    if b.len() > 0 {
        let rest = b.drop_first();
        lemma_le_value_bound(rest);
        let v = le_value(rest);
        let p = pow256(rest.len());
        assert(b[0] as nat + 256 * v < 256 * p) by (nonlinear_arith)
            requires
                b[0] < 256,
                v < p,
        ;
    }
}

/// The value of the first eight bytes of `b`, read little-endian.
fn le_u64_prefix(b: &Vec<u8>) -> (r: u64)
    requires
        b@.len() >= 8,
    ensures
        r == le_value(b@.take(8)),
{
    let mut r: u64 = 0;
    let mut i: usize = 8;
    proof {
        reveal_with_fuel(pow256, 8);
    }
    assert(pow256(7) == 72057594037927936nat);
    while i > 0
        invariant
            i <= 8,
            b@.len() >= 8,
            pow256(7) == 72057594037927936nat,
            r as nat == le_value(b@.subrange(i as int, 8)),
        decreases i,
    {
        let ghost tail = b@.subrange(i as int, 8);
        let ghost next = b@.subrange(i - 1, 8);
        assert(next.drop_first() =~= tail);
        proof {
            lemma_le_value_bound(tail);
            if i >= 1 {
                lemma_pow256_mono(tail.len(), 7);
            }
        }
        r = b[i - 1] as u64 + 256 * r;
        i -= 1;
    }
    assert(b@.subrange(0, 8) =~= b@.take(8));
    r
}

proof fn lemma_pow256_mono(a: nat, b: nat)
    requires
        a <= b,
    ensures
        pow256(a) <= pow256(b),
    decreases b,
{
    if a < b {
        lemma_pow256_mono(a, (b - 1) as nat);
    }
}

proof fn lemma_le_bytes_len(x: nat, k: nat)
    ensures
        le_bytes(x, k).len() == k,
    decreases k,
{
    if k > 0 {
        lemma_le_bytes_len(x / 256, (k - 1) as nat);
    }
}

/// The eight bytes of `x`, least significant first.
fn le_bytes_u64(x: u64) -> (r: Vec<u8>)
    ensures
        r@ == le_bytes(x as nat, 8),
        r@.len() == 8,
{
    proof {
        lemma_le_bytes_len(x as nat, 8);
    }
    let mut r: Vec<u8> = Vec::new();
    let mut cur: u64 = x;
    let mut k: usize = 0;
    while k < 8
        invariant
            k <= 8,
            r@ + le_bytes(cur as nat, (8 - k) as nat) == le_bytes(x as nat, 8),
        decreases 8 - k,
    {
        let ghost before = r@;
        let ghost rest = le_bytes(cur as nat, (8 - k) as nat);
        assert(rest == seq![(cur as nat % 256) as u8] + le_bytes(cur as nat / 256, (8 - k - 1) as nat));
        r.push((cur % 256) as u8);
        cur = cur / 256;
        assert(r@ + le_bytes(cur as nat, (8 - (k + 1)) as nat) =~= before + rest);
        k += 1;
    }
    assert(r@ =~= r@ + le_bytes(cur as nat, 0));
    r
}

/// The fingerprint of a byte string.
pub fn fingerprint(content: &[u8]) -> (r: String)
    ensures
        r@ == fingerprint_of(content@),
        r@.len() == 71,
{
    let digest = sha256(content);
    let hex = hex_encode(digest.as_slice());
    proof {
        lemma_hex_text_len(digest@);
        reveal_strlit("sha256:");
    }
    String::from_str("sha256:").concat(hex.as_str())
}

/// The fingerprint of a blueprint's serialized text.
pub fn calculate_blueprint_hash(blueprint_content: &str) -> (r: String)
    ensures
        r@ == fingerprint_of(encode_utf8(blueprint_content@)),
        r@.len() == 71,
{
    fingerprint(blueprint_content.as_bytes())
}

/// The fingerprint of a plan's serialized text.
pub fn calculate_plan_hash(plan_json: &str) -> (r: String)
    ensures
        r@ == fingerprint_of(encode_utf8(plan_json@)),
        r@.len() == 71,
{
    fingerprint(plan_json.as_bytes())
}

/// The position among `n` tied names that the tie-breaker takes for `topic`.
pub fn tie_index(topic: &str, seed: u64, n: usize) -> (r: usize)
    requires
        n > 0,
    ensures
        r < n,
        r == tie_pick(topic@, seed, n as nat),
        n > 1 ==> seeded_index(topic_seed(topic@, seed) as u64, n as nat) < n,
        n > 1 ==> r == seeded_index(topic_seed(topic@, seed) as u64, n as nat),
{
    if n == 1 {
        return 0;
    }
    let bytes = topic.as_bytes();
    let mut data: Vec<u8> = Vec::new();
    let mut i: usize = 0;
    while i < bytes.len()
        invariant
            i <= bytes@.len(),
            bytes@ == encode_utf8(topic@),
            data@ == bytes@.take(i as int),
        decreases bytes@.len() - i,
    {
        data.push(bytes[i]);
        i += 1;
        assert(data@ =~= bytes@.take(i as int));
    }
    assert(bytes@.take(i as int) =~= bytes@);
    let seed_bytes = le_bytes_u64(seed);
    let mut k: usize = 0;
    let ghost head = data@;
    while k < 8
        invariant
            k <= 8,
            seed_bytes@.len() == 8,
            data@ == head + seed_bytes@.take(k as int),
        decreases 8 - k,
    {
        data.push(seed_bytes[k]);
        k += 1;
        assert(data@ =~= head + seed_bytes@.take(k as int));
    }
    assert(seed_bytes@.take(8) =~= seed_bytes@);
    let digest = sha256(data.as_slice());
    let topic_seed = le_u64_prefix(&digest);
    seeded_draw(topic_seed, n)
}

/// Chooses one of several tied names, the same one for the same topic, seed and
/// list; different topics draw from different seeds.
pub fn tie_breaker(topic: &str, seed: u64, candidates: Vec<String>) -> (r: String)
    requires
        candidates.len() > 0,
    ensures
        r@ == candidates@[tie_pick(topic@, seed, candidates.len() as nat) as int]@,
{
    let k = tie_index(topic, seed, candidates.len());
    candidates[k].clone()
}

} // verus!
