//! Commit–reveal agreement on a seed, and the pseudo-random sequence both
//! sides derive from it.
//!
//! The server draws a seed and publishes only its SHA-256 commitment. Later it
//! reveals the seed; the client recomputes the commitment, and on a match both
//! sides seed the same ChaCha20 generator and obtain the same sequence.

use rand::Rng;
use rand::RngCore;
use rand::SeedableRng;
use rand_chacha::ChaCha20Rng;
use sha2::Digest;
use sha2::Sha256;
use vstd::bytes::spec_u64_to_le_bytes;
use vstd::bytes::u64_to_le_bytes;
use vstd::prelude::*;

verus! {

/// The ChaCha20 generator of `rand_chacha`, carried through as an opaque value.
#[verifier::external_type_specification]
#[verifier::external_body]
pub struct ExChaCha20Rng(ChaCha20Rng);

/// What is returned when the revealed seed does not hash to the commitment.
pub const COMMIT_MISMATCH: &'static str = "Commit hash does not match the revealed seed!";

/// The SHA-256 digest of `data`.
pub uninterp spec fn sha256(data: Seq<u8>) -> Seq<u8>;

/// What the generator `rng` holds: the value that its call number `index` of
/// `next_u64` will return, counting from zero at its present position.
pub uninterp spec fn rng_output(rng: ChaCha20Rng, index: nat) -> u64;

/// The value that call number `index` of `next_u64`, counting from zero,
/// returns on the generator that `ChaCha20Rng::seed_from_u64` makes of `seed`.
pub uninterp spec fn chacha20_output(seed: u64, index: nat) -> u64;

/// The commitment that stands for `seed`: the SHA-256 digest of its eight
/// little-endian bytes.
pub open spec fn commitment(seed: u64) -> Seq<u8> {
    sha256(spec_u64_to_le_bytes(seed))
}

/// Calls `sha2::Sha256::digest`. Trusted: the 32 bytes returned are the
/// SHA-256 digest of `data`, a function of `data` alone.
#[verifier::external_body]
fn sha256_digest(data: &[u8]) -> (digest: [u8; 32])
    ensures
        digest@ == sha256(data@),
{
    let output = Sha256::digest(data);
    let mut digest = [0u8; 32];
    digest.copy_from_slice(&output);
    digest
}

/// Server side: the commitment to `seed`, safe to publish before the reveal.
pub fn commit_seed(seed: u64) -> (commit: [u8; 32])
    ensures
        commit@ == commitment(seed),
{
    let bytes = u64_to_le_bytes(seed);
    sha256_digest(bytes.as_slice())
}

/// Client side: takes delivery of the published commitment, unchanged.
pub fn client_receive_commit(commit: [u8; 32]) -> (received: [u8; 32])
    ensures
        received == commit,
{
    commit
}

/// Server side: reveals the seed that was committed to, unchanged.
pub fn server_reveal_seed(seed: u64) -> (revealed: u64)
    ensures
        revealed == seed,
{
    seed
}

/// The next `count` values that `rng` will yield.
pub open spec fn upcoming(rng: ChaCha20Rng, count: nat) -> Seq<u64> {
    Seq::new(count, |i: int| rng_output(rng, i as nat))
}

/// The first `count` values of the sequence that belongs to `seed`.
pub open spec fn seeded_sequence(seed: u64, count: nat) -> Seq<u64> {
    Seq::new(count, |i: int| chacha20_output(seed, i as nat))
}

/// Whether `rng` stands at the start of the sequence that belongs to `seed`.
pub open spec fn seeded_with(rng: ChaCha20Rng, seed: u64) -> bool {
    forall|i: nat| #[trigger] rng_output(rng, i) == chacha20_output(seed, i)
}

/// Whether `after` is `before` moved forward by `count` draws.
pub open spec fn advanced_by(before: ChaCha20Rng, after: ChaCha20Rng, count: nat) -> bool {
    forall|i: nat| #[trigger] rng_output(after, i) == rng_output(before, i + count)
}

/// Agreement: a generator that stands at the start of the sequence of `seed`,
/// as the one a client gets when its check of the revealed seed passes, yields
/// the very values that the server derives from that seed.
pub proof fn lemma_seeded_generator_agrees(rng: ChaCha20Rng, seed: u64, count: nat)
    requires
        seeded_with(rng, seed),
    ensures
        upcoming(rng, count) == seeded_sequence(seed, count),
{
    assert(upcoming(rng, count) =~= seeded_sequence(seed, count));
}

/// Drawing in two goes yields what drawing in one go yields: the values drawn
/// first, followed by those drawn from where the generator then stands.
pub proof fn lemma_draws_join(before: ChaCha20Rng, after: ChaCha20Rng, first: nat, second: nat)
    requires
        advanced_by(before, after, first),
    ensures
        upcoming(before, first) + upcoming(after, second) == upcoming(before, first + second),
{
    assert forall|i: int| 0 <= i < first + second implies (upcoming(before, first) + upcoming(
        after,
        second,
    ))[i] == upcoming(before, first + second)[i] by {
        if i >= first {
            let k = (i - first) as nat;
            assert(rng_output(after, k) == rng_output(before, k + first));
        }
    }
    assert(upcoming(before, first) + upcoming(after, second) =~= upcoming(before, first + second));
}

/// Calls `rand::thread_rng().gen::<u64>()`. The value comes from the thread's
/// generator, which the operating system seeds, so nothing is claimed of it.
/// The call fails only where the system cannot supply that first seed.
#[verifier::external_body]
fn thread_random_u64() -> u64 {
    rand::thread_rng().gen()
}

/// Calls `ChaCha20Rng::seed_from_u64`. Trusted: the generator returned stands
/// at the start of a sequence that is a function of `seed` alone, the same in
/// every run and on every machine.
#[verifier::external_body]
fn chacha20_from_seed(seed: u64) -> (rng: ChaCha20Rng)
    ensures
        forall|i: nat| #[trigger] rng_output(rng, i) == chacha20_output(seed, i),
{
    ChaCha20Rng::seed_from_u64(seed)
}

/// Calls `ChaCha20Rng::next_u64`. Trusted: it returns the generator's next
/// value and moves the generator forward by exactly that one draw.
#[verifier::external_body]
fn chacha20_next_u64(rng: &mut ChaCha20Rng) -> (value: u64)
    ensures
        value == rng_output(*old(rng), 0),
        forall|i: nat| #[trigger] rng_output(*final(rng), i) == rng_output(*old(rng), i + 1),
{
    rng.next_u64()
}

/// Server side: draws a fresh seed.
pub fn server_generate_seed() -> u64 {
    thread_random_u64()
}

/// Whether two digests hold the same bytes.
fn digests_match(left: &[u8; 32], right: &[u8; 32]) -> (same: bool)
    ensures
        same == (left@ == right@),
{
    let mut i: usize = 0;
    while i < 32
        invariant
            i <= 32,
            forall|j: int| 0 <= j < i ==> left@[j] == right@[j],
        decreases 32 - i,
    {
        if left[i] != right[i] {
            return false;
        }
        i += 1;
    }
    assert(left@ =~= right@);
    true
}

/// Client side: checks the revealed seed against the commitment received
/// earlier. On a match the client gets the generator that belongs to the seed;
/// otherwise it gets [`COMMIT_MISMATCH`].
pub fn client_verify_and_set_seed(commit: [u8; 32], revealed_seed: u64) -> (outcome: Result<
    ChaCha20Rng,
    &'static str,
>)
    ensures
        outcome is Ok <==> commit@ == commitment(revealed_seed),
        outcome matches Ok(rng) ==> seeded_with(rng, revealed_seed),
        outcome matches Err(message) ==> message@ == COMMIT_MISMATCH@,
{
    let verify_commit = commit_seed(revealed_seed);
    if digests_match(&verify_commit, &commit) {
        Ok(chacha20_from_seed(revealed_seed))
    } else {
        Err(COMMIT_MISMATCH)
    }
}

/// Draws `count` values from `rng`, in order.
pub fn generate_random_sequence(rng: &mut ChaCha20Rng, count: usize) -> (sequence: Vec<u64>)
    ensures
        sequence@ == upcoming(*old(rng), count as nat),
        advanced_by(*old(rng), *final(rng), count as nat),
{
    let mut result: Vec<u64> = Vec::new();
    let mut drawn: usize = 0;
    while drawn < count
        invariant
            drawn <= count,
            result@ == upcoming(*old(rng), drawn as nat),
            advanced_by(*old(rng), *rng, drawn as nat),
        decreases count - drawn,
    {
        let ghost before = *rng;
        let value = chacha20_next_u64(rng);
        result.push(value);
        proof {
            let done = drawn as nat;
            assert(rng_output(before, 0) == rng_output(*old(rng), 0 + done));
            assert forall|i: nat| #[trigger]
                rng_output(*rng, i) == rng_output(*old(rng), i + (done + 1)) by {
                assert(rng_output(*rng, i) == rng_output(before, i + 1));
                assert(rng_output(before, i + 1) == rng_output(*old(rng), (i + 1) + done));
            }
            assert(result@ =~= upcoming(*old(rng), done + 1));
        }
        drawn += 1;
    }
    result
}

/// Server side: the first `count` values of the sequence that belongs to
/// `seed`.
pub fn server_generate_sequence_with_seed(seed: u64, count: usize) -> (sequence: Vec<u64>)
    ensures
        sequence@ == seeded_sequence(seed, count as nat),
{
    let mut rng = chacha20_from_seed(seed);
    let sequence = generate_random_sequence(&mut rng, count);
    assert(sequence@ =~= seeded_sequence(seed, count as nat));
    sequence
}

/// Client side: draws `count` values from the generator obtained on a
/// successful verification.
pub fn client_generate_sequence_with_seed(rng: &mut ChaCha20Rng, count: usize) -> (sequence: Vec<
    u64,
>)
    ensures
        sequence@ == upcoming(*old(rng), count as nat),
        advanced_by(*old(rng), *final(rng), count as nat),
{
    generate_random_sequence(rng, count)
}

} // verus!
