//! The proof aggregator: accumulates per-validator signatures on batch
//! digests until the local validator has signed and the contributor set
//! crosses the voting-power quorum, then emits the finalized proof and
//! drops the per-digest state; stale digests expire on a timeout.
//!
//! Identities, digests and signatures are carried as opaque 64-bit
//! identifiers; aggregating the collected signatures into one proof object
//! keeps the contributions themselves, the cryptographic pairing being the
//! business of the signature scheme, not of this state machine.

use vstd::prelude::*;

verus! {

/// The canonical description of the work product a digest names.
#[derive(Clone, Copy, PartialEq, Eq, Structural, Debug)]
pub struct SignedDigestInfo {
    pub digest: u64,
    pub batch_author: u64,
}

/// One validator's signature on a digest.
#[derive(Clone, Copy, PartialEq, Eq, Structural, Debug)]
pub struct SignedDigest {
    pub signer: u64,
    pub info: SignedDigestInfo,
    pub signature: u64,
}

impl SignedDigest {
    /// The digest signed.
    pub fn digest(&self) -> (r: u64)
        ensures
            r == self.info.digest,
    {
        self.info.digest
    }
}

/// Why a contribution was rejected.
#[derive(Clone, Copy, PartialEq, Eq, Structural, Debug)]
pub enum SignedDigestError {
    /// The digest is unknown and not authored here, or the info disagrees
    /// with the state being accumulated.
    WrongInfo,
    /// This validator already contributed to this digest.
    DuplicatedSignature,
}

/// The finalized artifact: the info and the contributions that formed the
/// quorum.
pub struct ProofOfStore {
    pub info: SignedDigestInfo,
    pub signatures: Vec<(u64, u64)>,
}

/// The validator set: each peer's voting power, and the quorum threshold.
pub struct ValidatorVerifier {
    pub validators: Vec<(u64, u64)>,
    pub quorum_threshold: u128,
}

/// The voting power of `peer` in the list, 0 when absent.
pub open spec fn power_of(validators: Seq<(u64, u64)>, peer: u64) -> u64
    decreases validators.len(),
{
    if validators.len() == 0 {
        0u64
    } else if validators[0].0 == peer {
        validators[0].1
    } else {
        power_of(validators.drop_first(), peer)
    }
}

/// The summed voting power of the signers.
pub open spec fn power_sum(validators: Seq<(u64, u64)>, signers: Seq<u64>) -> int
    decreases signers.len(),
{
    if signers.len() == 0 {
        0
    } else {
        power_of(validators, signers[0]) + power_sum(validators, signers.drop_first())
    }
}

/// A summed power of `n` signers is at most `n` times the largest power.
pub proof fn lemma_power_sum_bound(validators: Seq<(u64, u64)>, signers: Seq<u64>)
    ensures
        0 <= power_sum(validators, signers) <= signers.len() * u64::MAX,
    decreases signers.len(),
{
    if signers.len() > 0 {
        lemma_power_sum_bound(validators, signers.drop_first());
        assert(signers.len() * u64::MAX == (signers.len() - 1) * u64::MAX + u64::MAX)
            by (nonlinear_arith);
    }
}

impl ValidatorVerifier {
    /// Each peer is listed once.
    pub open spec fn wf(self) -> bool {
        forall|i: int, j: int|
            0 <= i < j < self.validators@.len() ==> (#[trigger] self.validators@[i]).0 != (
            #[trigger] self.validators@[j]).0
    }

    /// The voting power of one peer.
    pub fn get_voting_power(&self, peer: u64) -> (r: u64)
        ensures
            r == power_of(self.validators@, peer),
    {
        let n = self.validators.len();
        proof {
            assert(self.validators@.skip(0) =~= self.validators@);
        }
        let mut i: usize = 0;
        while i < n
            invariant
                n == self.validators@.len(),
                i <= n,
                power_of(self.validators@, peer) == power_of(
                    self.validators@.skip(i as int),
                    peer,
                ),
            decreases n - i,
        {
            proof {
                assert(self.validators@.skip(i as int).drop_first() =~= self.validators@.skip(
                    i as int + 1,
                ));
                assert(self.validators@.skip(i as int)[0] == self.validators@[i as int]);
            }
            if self.validators[i].0 == peer {
                return self.validators[i].1;
            }
            i = i + 1;
        }
        proof {
            assert(self.validators@.skip(n as int).len() == 0);
        }
        0
    }

    /// Whether the summed power of the signers reaches the quorum
    /// threshold.
    pub fn check_voting_power(&self, signers: &Vec<u64>) -> (r: bool)
        ensures
            r == (power_sum(self.validators@, signers@) >= self.quorum_threshold),
    {
        let n = signers.len();
        proof {
            lemma_power_sum_bound(self.validators@, signers@);
            assert(signers@.len() <= u64::MAX);
            assert(signers@.len() * u64::MAX < u128::MAX) by (nonlinear_arith)
                requires
                    signers@.len() <= u64::MAX,
            ;
            assert(signers@.skip(0) =~= signers@);
        }
        let mut i: usize = 0;
        let mut total: u128 = 0;
        while i < n
            invariant
                n == signers@.len(),
                i <= n,
                total + power_sum(self.validators@, signers@.skip(i as int)) == power_sum(
                    self.validators@,
                    signers@,
                ),
                power_sum(self.validators@, signers@) < u128::MAX,
                0 <= total,
            decreases n - i,
        {
            proof {
                assert(signers@.skip(i as int).drop_first() =~= signers@.skip(i as int + 1));
                assert(signers@.skip(i as int)[0] == signers@[i as int]);
                lemma_power_sum_bound(self.validators@, signers@.skip(i as int + 1));
            }
            let p = self.get_voting_power(signers[i]);
            total = total + p as u128;
            i = i + 1;
        }
        proof {
            assert(signers@.skip(n as int).len() == 0);
        }
        total >= self.quorum_threshold
    }
}

/// The signer identities of a contribution list.
pub open spec fn signers_of(sigs: Seq<(u64, u64)>) -> Seq<u64> {
    Seq::new(sigs.len(), |i: int| sigs[i].0)
}

/// Per-digest accumulation state: the canonical info and the contributions
/// collected so far.
pub struct IncrementalProofState {
    pub info: SignedDigestInfo,
    pub aggregated_signature: Vec<(u64, u64)>,
}

impl IncrementalProofState {
    /// Each signer occurs at most once.
    pub open spec fn wf(self) -> bool {
        forall|i: int, j: int|
            0 <= i < j < self.aggregated_signature@.len() ==> (
            #[trigger] self.aggregated_signature@[i]).0 != (
            #[trigger] self.aggregated_signature@[j]).0
    }

    /// Whether `peer` already contributed.
    pub open spec fn has_signer(self, peer: u64) -> bool {
        exists|i: int|
            0 <= i < self.aggregated_signature@.len() && (
            #[trigger] self.aggregated_signature@[i]).0 == peer
    }

    /// How one contribution is judged: a mismatched info is rejected as
    /// wrong, a repeated signer as duplicated; otherwise it is accepted and
    /// appended.
    pub open spec fn add_signature_result(self, signed_digest: SignedDigest) -> Result<
        (),
        SignedDigestError,
    > {
        if signed_digest.info != self.info {
            Err(SignedDigestError::WrongInfo)
        } else if self.has_signer(signed_digest.signer) {
            Err(SignedDigestError::DuplicatedSignature)
        } else {
            Ok(())
        }
    }

    /// A fresh state for `info`, with no contribution yet.
    pub fn new(info: SignedDigestInfo) -> (r: IncrementalProofState)
        ensures
            r.wf(),
            r.info == info,
            r.aggregated_signature@ == Seq::<(u64, u64)>::empty(),
    {
        IncrementalProofState { info, aggregated_signature: Vec::new() }
    }

    /// Whether `peer` already contributed, decided by a scan.
    pub fn contains_signer(&self, peer: u64) -> (r: bool)
        ensures
            r == self.has_signer(peer),
    {
        let n = self.aggregated_signature.len();
        let mut i: usize = 0;
        while i < n
            invariant
                n == self.aggregated_signature@.len(),
                i <= n,
                forall|j: int| 0 <= j < i ==> (#[trigger] self.aggregated_signature@[j]).0 != peer,
            decreases n - i,
        {
            if self.aggregated_signature[i].0 == peer {
                return true;
            }
            i = i + 1;
        }
        false
    }

    /// Accepts or rejects one contribution, as
    /// [`Self::add_signature_spec`] denotes; on acceptance the contribution
    /// is appended.
    pub fn add_signature(&mut self, signed_digest: SignedDigest) -> (r: Result<
        (),
        SignedDigestError,
    >)
        requires
            old(self).wf(),
        ensures
            final(self).wf(),
            final(self).info == old(self).info,
            r == old(self).add_signature_result(signed_digest),
            r is Err ==> final(self).aggregated_signature@ == old(self).aggregated_signature@,
            r is Ok ==> final(self).aggregated_signature@ == old(self).aggregated_signature@.push(
                (signed_digest.signer, signed_digest.signature),
            ),
    {
        if !(signed_digest.info.digest == self.info.digest && signed_digest.info.batch_author
            == self.info.batch_author) {
            return Err(SignedDigestError::WrongInfo);
        }
        if self.contains_signer(signed_digest.signer) {
            return Err(SignedDigestError::DuplicatedSignature);
        }
        self.aggregated_signature.push((signed_digest.signer, signed_digest.signature));
        Ok(())
    }

    /// Appending the same contribution twice: once the first append has
    /// been accepted, any state holding the appended contributions rejects
    /// the second append as a duplicated signature — and a rejected append
    /// leaves the state unchanged.
    pub proof fn lemma_duplicate_append_rejected(
        self,
        signed_digest: SignedDigest,
        after: IncrementalProofState,
    )
        requires
            self.add_signature_result(signed_digest) is Ok,
            after.info == self.info,
            after.aggregated_signature@ == self.aggregated_signature@.push(
                (signed_digest.signer, signed_digest.signature),
            ),
        ensures
            after.add_signature_result(signed_digest) == Result::<(), SignedDigestError>::Err(
                SignedDigestError::DuplicatedSignature,
            ),
    {
        let k = after.aggregated_signature@.len() - 1;
        assert(after.aggregated_signature@[k].0 == signed_digest.signer);
        assert(after.has_signer(signed_digest.signer));
    }

    /// Whether the state is ready to finalize: the local validator has
    /// contributed and the contributors cross the quorum threshold.
    pub fn ready(&self, validator_verifier: &ValidatorVerifier, my_peer_id: u64) -> (r: bool)
        ensures
            r == (self.has_signer(my_peer_id) && power_sum(
                validator_verifier.validators@,
                signers_of(self.aggregated_signature@),
            ) >= validator_verifier.quorum_threshold),
    {
        let n = self.aggregated_signature.len();
        let mut signers: Vec<u64> = Vec::new();
        let mut mine = false;
        let mut i: usize = 0;
        while i < n
            invariant
                n == self.aggregated_signature@.len(),
                i <= n,
                signers@ == signers_of(self.aggregated_signature@).take(i as int),
                mine == exists|j: int|
                    0 <= j < i && (#[trigger] self.aggregated_signature@[j]).0 == my_peer_id,
            decreases n - i,
        {
            let p = self.aggregated_signature[i].0;
            signers.push(p);
            proof {
                assert(signers@ =~= signers_of(self.aggregated_signature@).take(i as int + 1));
            }
            if p == my_peer_id {
                mine = true;
            }
            i = i + 1;
        }
        proof {
            assert(signers@ =~= signers_of(self.aggregated_signature@));
        }
        let quorum = validator_verifier.check_voting_power(&signers);
        mine && quorum
    }

    /// Finalizes the state into the emitted proof: the info with the
    /// contributions that formed the quorum.
    pub fn take(self) -> (r: ProofOfStore)
        ensures
            r.info == self.info,
            r.signatures@ == self.aggregated_signature@,
    {
        ProofOfStore { info: self.info, signatures: self.aggregated_signature }
    }
}

/// The length of the expired prefix of a timeout queue at time `now_us`.
pub open spec fn expired_prefix_len(items: Seq<(u64, u64)>, now_us: u64) -> int
    decreases items.len(),
{
    if items.len() > 0 && items[0].0 <= now_us {
        1 + expired_prefix_len(items.drop_first(), now_us)
    } else {
        0
    }
}

/// A queue of per-digest expiry times, in insertion order.
pub struct Timeouts {
    pub items: Vec<(u64, u64)>,
}

impl Timeouts {
    /// An empty queue.
    pub fn new() -> (r: Timeouts)
        ensures
            r.items@ == Seq::<(u64, u64)>::empty(),
    {
        Timeouts { items: Vec::new() }
    }

    /// Enqueues a digest to expire at `expire_at_us`.
    pub fn add(&mut self, digest: u64, expire_at_us: u64)
        ensures
            final(self).items@ == old(self).items@.push((expire_at_us, digest)),
    {
        self.items.push((expire_at_us, digest));
    }

    /// Dequeues the expired prefix: every digest at the front whose expiry
    /// is at or before `now_us`, in order.
    pub fn expire(&mut self, now_us: u64) -> (r: Vec<u64>)
        ensures
            ({
                let k = expired_prefix_len(old(self).items@, now_us);
                &&& r@ == Seq::new(k as nat, |i: int| old(self).items@[i].1)
                &&& final(self).items@ == old(self).items@.skip(k)
            }),
    {
        let ghost pre = *self;
        let mut out: Vec<u64> = Vec::new();
        loop
            invariant
                out@.len() <= pre.items@.len(),
                self.items@ == pre.items@.skip(out@.len() as int),
                out@ == Seq::new(out@.len(), |i: int| pre.items@[i].1),
                forall|i: int| 0 <= i < out@.len() ==> pre.items@[i].0 <= now_us,
                expired_prefix_len(pre.items@, now_us) == out@.len() + expired_prefix_len(
                    self.items@,
                    now_us,
                ),
            ensures
                expired_prefix_len(self.items@, now_us) == 0,
            decreases self.items@.len(),
        {
            if self.items.len() == 0 {
                break;
            }
            if self.items[0].0 > now_us {
                break;
            }
            let ghost mid = self.items@;
            let head = self.items.remove(0);
            proof {
                assert(self.items@ =~= mid.drop_first());
                assert(self.items@ =~= pre.items@.skip(out@.len() as int + 1));
            }
            out.push(head.1);
            proof {
                assert(out@ =~= Seq::new(out@.len(), |i: int| pre.items@[i].1));
            }
        }
        proof {
            let k = expired_prefix_len(pre.items@, now_us);
            assert(k == out@.len());
            assert(out@ =~= Seq::new(k as nat, |i: int| pre.items@[i].1));
        }
        out
    }
}

/// Whether `peer` occurs among the signers of a contribution list.
pub open spec fn has_signer_in(sigs: Seq<(u64, u64)>, peer: u64) -> bool {
    exists|i: int| 0 <= i < sigs.len() && (#[trigger] sigs[i]).0 == peer
}

/// When a digest first seen at `now_us` expires, given the timeout in
/// milliseconds; saturating at the largest representable time.
pub open spec fn expiry_spec(now_us: u64, timeout_ms: usize) -> u64 {
    let add_us = if timeout_ms * 1000 > u64::MAX {
        u64::MAX as int
    } else {
        timeout_ms * 1000
    };
    if now_us + add_us > u64::MAX {
        u64::MAX
    } else {
        (now_us + add_us) as u64
    }
}

/// Relies on chrono's `TimeZone::timestamp_opt` and
/// `DateTime::timestamp_micros` to read the wall clock as microseconds
/// since the epoch.  Every branch of the clock is handled, so no path
/// panics: a clock before the epoch reads as zero, one beyond the
/// representable range as the largest count.  Nothing is promised of the
/// value: every caller states what holds of every outcome.
#[verifier::external_body]
fn now_micros() -> (r: u64) {
    let since_epoch = match std::time::SystemTime::now().duration_since(std::time::UNIX_EPOCH) {
        Ok(dur) => dur,
        Err(_) => return 0,
    };
    let sec = since_epoch.as_secs() as i64;
    match chrono::TimeZone::timestamp_opt(&chrono::Utc, sec, since_epoch.subsec_nanos()) {
        chrono::LocalResult::Single(now) => now.timestamp_micros() as u64,
        _ => u64::MAX,
    }
}

/// Whether a pair list binds `d`.
pub open spec fn pairs_has(s: Seq<(u64, IncrementalProofState)>, d: u64) -> bool {
    exists|i: int| 0 <= i < s.len() && (#[trigger] s[i]).0 == d
}

/// The position where a pair list binds `d`.
pub open spec fn pairs_slot(s: Seq<(u64, IncrementalProofState)>, d: u64) -> int {
    choose|i: int| 0 <= i < s.len() && (#[trigger] s[i]).0 == d
}

/// Whether a pair list binds each key at most once.
pub open spec fn pairs_unique(s: Seq<(u64, IncrementalProofState)>) -> bool {
    forall|i: int, j: int| 0 <= i < j < s.len() ==> (#[trigger] s[i]).0 != (#[trigger] s[j]).0
}

/// In a duplicate-free pair list, a key's slot is the position where it
/// occurs.
pub proof fn lemma_pairs_slot_at(s: Seq<(u64, IncrementalProofState)>, k: int)
    requires
        pairs_unique(s),
        0 <= k < s.len(),
    ensures
        pairs_has(s, s[k].0),
        pairs_slot(s, s[k].0) == k,
{
    assert(pairs_has(s, s[k].0));
    let c = pairs_slot(s, s[k].0);
    if c != k {
        assert(s[c].0 != s[k].0);
    }
}

/// Removing the pair at `i` unbinds exactly its key and leaves every other
/// binding in place.
pub proof fn lemma_pairs_remove(s: Seq<(u64, IncrementalProofState)>, i: int)
    requires
        pairs_unique(s),
        0 <= i < s.len(),
    ensures
        pairs_unique(s.remove(i)),
        forall|d: u64| #[trigger] pairs_has(s.remove(i), d) == (pairs_has(s, d) && d != s[i].0),
        forall|d: u64|
            pairs_has(s.remove(i), d) ==> s.remove(i)[pairs_slot(s.remove(i), d)] == s[pairs_slot(
                s,
                d,
            )],
{
    let t = s.remove(i);
    assert forall|a: int, b: int| 0 <= a < b < t.len() implies (#[trigger] t[a]).0 != (
    #[trigger] t[b]).0 by {
        let a2 = if a < i { a } else { a + 1 };
        let b2 = if b < i { b } else { b + 1 };
        assert(t[a] == s[a2] && t[b] == s[b2]);
    }
    assert forall|d: u64| #[trigger] pairs_has(t, d) == (pairs_has(s, d) && d != s[i].0) by {
        if pairs_has(t, d) {
            let c = pairs_slot(t, d);
            let c2 = if c < i { c } else { c + 1 };
            assert(t[c] == s[c2]);
            assert(pairs_has(s, d));
            if d == s[i].0 {
                assert(s[c2].0 == s[i].0 && c2 != i);
                if c2 < i {
                    assert(s[c2].0 != s[i].0);
                } else {
                    assert(s[i].0 != s[c2].0);
                }
            }
        }
        if pairs_has(s, d) && d != s[i].0 {
            let c = pairs_slot(s, d);
            assert(s[c].0 == d && c != i);
            let c2 = if c < i { c } else { c - 1 };
            assert(t[c2] == s[c]);
            assert(pairs_has(t, d));
        }
    }
    assert forall|d: u64| pairs_has(t, d) implies t[pairs_slot(t, d)] == s[pairs_slot(s, d)] by {
        let c = pairs_slot(t, d);
        assert(0 <= c < t.len() && t[c].0 == d);
        let c2 = if c < i { c } else { c + 1 };
        assert(t[c] == s[c2]);
        lemma_pairs_slot_at(s, c2);
    }
}

/// Appending a fresh binding leaves every other binding in place and binds
/// the new key to the appended state.
pub proof fn lemma_pairs_push(s: Seq<(u64, IncrementalProofState)>, p: (u64, IncrementalProofState))
    requires
        pairs_unique(s),
        !pairs_has(s, p.0),
    ensures
        pairs_unique(s.push(p)),
        forall|d: u64| #[trigger] pairs_has(s.push(p), d) == (pairs_has(s, d) || d == p.0),
        forall|d: u64|
            pairs_has(s, d) && d != p.0 ==> s.push(p)[pairs_slot(s.push(p), d)] == s[pairs_slot(
                s,
                d,
            )],
        s.push(p)[pairs_slot(s.push(p), p.0)] == p,
{
    let t = s.push(p);
    assert forall|a: int, b: int| 0 <= a < b < t.len() implies (#[trigger] t[a]).0 != (
    #[trigger] t[b]).0 by {
        if b < s.len() {
            assert(t[a] == s[a] && t[b] == s[b]);
        } else {
            assert(t[b] == p);
            assert(t[a] == s[a]);
            assert(pairs_has(s, s[a].0));
        }
    }
    assert forall|d: u64| #[trigger] pairs_has(t, d) == (pairs_has(s, d) || d == p.0) by {
        if pairs_has(t, d) {
            let c = pairs_slot(t, d);
            if c < s.len() {
                assert(t[c] == s[c]);
                assert(pairs_has(s, d));
            } else {
                assert(t[c] == p);
            }
        }
        if pairs_has(s, d) {
            let c = pairs_slot(s, d);
            assert(t[c] == s[c]);
            assert(pairs_has(t, d));
        }
        if d == p.0 {
            assert(t[s.len() as int] == p);
            assert(pairs_has(t, d));
        }
    }
    assert forall|d: u64| pairs_has(s, d) && d != p.0 implies t[pairs_slot(t, d)] == s[pairs_slot(
        s,
        d,
    )] by {
        assert(pairs_has(t, d));
        let c = pairs_slot(t, d);
        assert(0 <= c < t.len() && t[c].0 == d);
        assert(c < s.len());
        assert(t[c] == s[c]);
        lemma_pairs_slot_at(s, c);
    }
    assert(pairs_has(t, p.0)) by {
        assert(t[s.len() as int] == p);
    }
    let c = pairs_slot(t, p.0);
    assert(0 <= c < t.len() && t[c].0 == p.0);
    if c < s.len() {
        assert(t[c] == s[c]);
        assert(pairs_has(s, p.0));
    }
}

/// Whether `d` occurs among the first `n` entries of a list.
pub open spec fn hit_in(s: Seq<u64>, n: int, d: u64) -> bool {
    exists|i: int| 0 <= i < n && i < s.len() && s[i] == d
}

/// The proof aggregator: per-digest accumulation states, each digest's
/// creation time, and the expiry queue.
pub struct ProofCoordinator {
    pub peer_id: u64,
    pub proof_timeout_ms: usize,
    pub digest_to_proof: Vec<(u64, IncrementalProofState)>,
    pub digest_to_time: Vec<(u64, u64)>,
    pub timeouts: Timeouts,
}

impl ProofCoordinator {
    /// Each digest occurs at most once, every accumulation state is
    /// well-formed and stored under its own digest, every known digest has
    /// a recorded creation time, and recorded times are unique per digest.
    pub open spec fn wf(self) -> bool {
        &&& pairs_unique(self.digest_to_proof@)
        &&& forall|i: int|
            0 <= i < self.digest_to_proof@.len() ==> (#[trigger] self.digest_to_proof@[i]).1.wf()
                && self.digest_to_proof@[i].1.info.digest == self.digest_to_proof@[i].0
        &&& forall|i: int, j: int|
            0 <= i < j < self.digest_to_time@.len() ==> (#[trigger] self.digest_to_time@[i]).0
                != (#[trigger] self.digest_to_time@[j]).0
        &&& forall|d: u64| self.has_digest(d) ==> self.has_time(d)
    }

    /// Whether an accumulation state exists for `d`.
    pub open spec fn has_digest(self, d: u64) -> bool {
        pairs_has(self.digest_to_proof@, d)
    }

    /// The position of `d`'s accumulation state.
    pub open spec fn proof_slot(self, d: u64) -> int {
        pairs_slot(self.digest_to_proof@, d)
    }

    /// The contributions accumulated for `d`, empty when unknown.
    pub open spec fn sigs_of(self, d: u64) -> Seq<(u64, u64)> {
        if self.has_digest(d) {
            self.digest_to_proof@[self.proof_slot(d)].1.aggregated_signature@
        } else {
            Seq::empty()
        }
    }

    /// The info accumulated for `d`, when known.
    pub open spec fn info_of(self, d: u64) -> SignedDigestInfo {
        self.digest_to_proof@[self.proof_slot(d)].1.info
    }

    /// Whether a creation time is recorded for `d`.
    pub open spec fn has_time(self, d: u64) -> bool {
        exists|i: int|
            0 <= i < self.digest_to_time@.len() && (#[trigger] self.digest_to_time@[i]).0 == d
    }

    /// A fresh coordinator for this validator with the given per-digest
    /// timeout.
    pub fn new(proof_timeout_ms: usize, peer_id: u64) -> (r: ProofCoordinator)
        ensures
            r.wf(),
            r.peer_id == peer_id,
            r.proof_timeout_ms == proof_timeout_ms,
            r.digest_to_proof@ == Seq::<(u64, IncrementalProofState)>::empty(),
            r.digest_to_time@ == Seq::<(u64, u64)>::empty(),
            r.timeouts.items@ == Seq::<(u64, u64)>::empty(),
    {
        ProofCoordinator {
            peer_id,
            proof_timeout_ms,
            digest_to_proof: Vec::new(),
            digest_to_time: Vec::new(),
            timeouts: Timeouts::new(),
        }
    }

    /// Finds the slot of `d`'s accumulation state, if any.
    fn find_proof_slot(&self, d: u64) -> (r: Option<usize>)
        requires
            self.wf(),
        ensures
            match r {
                Some(i) => i < self.digest_to_proof@.len() && self.digest_to_proof@[i as int].0
                    == d && self.has_digest(d) && self.proof_slot(d) == i,
                None => !self.has_digest(d),
            },
    {
        let n = self.digest_to_proof.len();
        let mut i: usize = 0;
        while i < n
            invariant
                n == self.digest_to_proof@.len(),
                i <= n,
                self.wf(),
                forall|j: int| 0 <= j < i ==> (#[trigger] self.digest_to_proof@[j]).0 != d,
            decreases n - i,
        {
            if self.digest_to_proof[i].0 == d {
                proof {
                    let c = self.proof_slot(d);
                    assert(0 <= c < self.digest_to_proof@.len() && self.digest_to_proof@[c].0
                        == d);
                    if c != i {
                        assert(self.digest_to_proof@[c].0 != self.digest_to_proof@[i as int].0);
                    }
                }
                return Some(i);
            }
            i = i + 1;
        }
        None
    }

    /// Creates the accumulation state for a digest authored here: a fresh
    /// state is stored under the digest, the digest is queued to expire one
    /// timeout after `now_us`, and the creation time is recorded unless one
    /// is already on record.
    fn init_proof(&mut self, signed_digest: &SignedDigest, now_us: u64)
        requires
            old(self).wf(),
            !old(self).has_digest(signed_digest.info.digest),
        ensures
            final(self).wf(),
            final(self).peer_id == old(self).peer_id,
            final(self).proof_timeout_ms == old(self).proof_timeout_ms,
            final(self).digest_to_proof@.len() == old(self).digest_to_proof@.len() + 1,
            final(self).digest_to_proof@ == old(self).digest_to_proof@.push(
                final(self).digest_to_proof@.last(),
            ),
            final(self).digest_to_proof@.last().0 == signed_digest.info.digest,
            final(self).digest_to_proof@.last().1.info == signed_digest.info,
            final(self).digest_to_proof@.last().1.aggregated_signature@ == Seq::<(
                u64,
                u64,
            )>::empty(),
            final(self).timeouts.items@ == old(self).timeouts.items@.push(
                (
                    expiry_spec(now_us, old(self).proof_timeout_ms),
                    signed_digest.info.digest,
                ),
            ),
            old(self).has_time(signed_digest.info.digest) ==> final(self).digest_to_time@ == old(
                self,
            ).digest_to_time@,
            !old(self).has_time(signed_digest.info.digest) ==> final(self).digest_to_time@ == old(
                self,
            ).digest_to_time@.push((signed_digest.info.digest, now_us)),
    {
        let ghost pre = *self;
        let d = signed_digest.digest();
        let t_ms = self.proof_timeout_ms as u64;
        let add_us: u64 = if t_ms > u64::MAX / 1000 {
            u64::MAX
        } else {
            t_ms * 1000
        };
        let expire_at: u64 = if now_us > u64::MAX - add_us {
            u64::MAX
        } else {
            now_us + add_us
        };
        proof {
            assert(expire_at == expiry_spec(now_us, self.proof_timeout_ms));
        }
        self.timeouts.add(d, expire_at);
        self.digest_to_proof.push((d, IncrementalProofState::new(signed_digest.info)));
        match self.find_time_slot(d) {
            Some(_) => {
            },
            None => {
                self.digest_to_time.push((d, now_us));
            },
        }
        proof {
            let n = self.digest_to_proof@.len() - 1;
            assert forall|d2: u64| #[trigger] self.has_digest(d2) implies (d2 == d || pre.has_digest(
                d2,
            )) by {
                let c = self.proof_slot(d2);
                if c < n {
                    assert(pre.digest_to_proof@[c].0 == d2);
                }
            }
            assert forall|d2: u64| #[trigger] pre.has_digest(d2) implies self.has_digest(d2) by {
                let c = pre.proof_slot(d2);
                assert(self.digest_to_proof@[c].0 == d2);
            }
            assert(self.digest_to_proof@[n].0 == d);
            assert(self.has_digest(d));
            assert forall|d2: u64| #[trigger] self.has_time(d2) == (pre.has_time(d2) || (
            !pre.has_time(d) && d2 == d)) by {
                if pre.has_time(d2) {
                    let c = choose|i: int|
                        0 <= i < pre.digest_to_time@.len() && (#[trigger] pre.digest_to_time@[i]).0
                            == d2;
                    assert(self.digest_to_time@[c].0 == d2);
                }
                if self.has_time(d2) {
                    let c = choose|i: int|
                        0 <= i < self.digest_to_time@.len() && (
                        #[trigger] self.digest_to_time@[i]).0 == d2;
                    if c < pre.digest_to_time@.len() {
                        assert(pre.digest_to_time@[c].0 == d2);
                    } else {
                        assert(self.digest_to_time@[c] == (d, now_us));
                    }
                }
                if d2 == d && self.digest_to_time@.len() > pre.digest_to_time@.len() {
                    assert(self.digest_to_time@[self.digest_to_time@.len() - 1].0 == d);
                }
            }
        }
    }

    /// Feeds one contribution to the aggregator at time `now_us`.  An
    /// unknown digest is rejected unless authored here, in which case its
    /// state is created and queued to expire; the contribution is then
    /// judged against the state; when the state becomes ready the proof is
    /// emitted and the state and creation time are dropped.
    #[verifier::rlimit(60)]
    pub fn add_signature_at(
        &mut self,
        signed_digest: SignedDigest,
        validator_verifier: &ValidatorVerifier,
        now_us: u64,
    ) -> (r: Result<Option<ProofOfStore>, SignedDigestError>)
        requires
            old(self).wf(),
        ensures
            final(self).wf(),
            final(self).peer_id == old(self).peer_id,
            final(self).proof_timeout_ms == old(self).proof_timeout_ms,
            forall|d2: u64|
                d2 != signed_digest.info.digest ==> final(self).has_digest(d2) == old(
                    self,
                ).has_digest(d2),
            forall|d2: u64|
                d2 != signed_digest.info.digest && old(self).has_digest(d2) ==> final(self).info_of(
                    d2,
                ) == old(self).info_of(d2) && final(self).sigs_of(d2) == old(self).sigs_of(d2),
            forall|d2: u64|
                d2 != signed_digest.info.digest ==> final(self).has_time(d2) == old(self).has_time(
                    d2,
                ),
            ({
                let d = signed_digest.info.digest;
                let known = old(self).has_digest(d);
                let s_info = if known {
                    old(self).info_of(d)
                } else {
                    signed_digest.info
                };
                let s_sigs = old(self).sigs_of(d);
                let new_sigs = s_sigs.push((signed_digest.signer, signed_digest.signature));
                let is_ready = has_signer_in(new_sigs, old(self).peer_id) && power_sum(
                    validator_verifier.validators@,
                    signers_of(new_sigs),
                ) >= validator_verifier.quorum_threshold;
                let initialized = !known && signed_digest.info.batch_author == old(self).peer_id;
                if !known && signed_digest.info.batch_author != old(self).peer_id {
                    &&& r == Err::<Option<ProofOfStore>, SignedDigestError>(
                        SignedDigestError::WrongInfo,
                    )
                    &&& *final(self) == *old(self)
                } else {
                    &&& final(self).timeouts.items@ == (if initialized {
                        old(self).timeouts.items@.push(
                            (expiry_spec(now_us, old(self).proof_timeout_ms), d),
                        )
                    } else {
                        old(self).timeouts.items@
                    })
                    &&& if signed_digest.info != s_info {
                        &&& r == Err::<Option<ProofOfStore>, SignedDigestError>(
                            SignedDigestError::WrongInfo,
                        )
                        &&& final(self).has_digest(d) == known
                        &&& final(self).sigs_of(d) == s_sigs
                        &&& (known ==> final(self).info_of(d) == s_info)
                        &&& final(self).has_time(d) == old(self).has_time(d)
                    } else if has_signer_in(s_sigs, signed_digest.signer) {
                        &&& r == Err::<Option<ProofOfStore>, SignedDigestError>(
                            SignedDigestError::DuplicatedSignature,
                        )
                        &&& final(self).has_digest(d) == known
                        &&& final(self).sigs_of(d) == s_sigs
                        &&& (known ==> final(self).info_of(d) == s_info)
                        &&& final(self).has_time(d) == old(self).has_time(d)
                    } else if is_ready {
                        &&& (r matches Ok(op) && op matches Some(p) && p.info
                            == signed_digest.info && p.signatures@ == new_sigs)
                        &&& !final(self).has_digest(d)
                        &&& !final(self).has_time(d)
                    } else {
                        &&& r == Ok::<Option<ProofOfStore>, SignedDigestError>(None)
                        &&& final(self).has_digest(d)
                        &&& final(self).info_of(d) == signed_digest.info
                        &&& final(self).sigs_of(d) == new_sigs
                        &&& (initialized || final(self).has_time(d) == old(self).has_time(d))
                        &&& (initialized ==> final(self).has_time(d))
                    }
                }
            }),
    {
        let ghost pre = *self;
        let d = signed_digest.digest();
        let i: usize;
        match self.find_proof_slot(d) {
            Some(j) => {
                i = j;
            },
            None => {
                if signed_digest.info.batch_author != self.peer_id {
                    return Err(SignedDigestError::WrongInfo);
                }
                self.init_proof(&signed_digest, now_us);
                i = self.digest_to_proof.len() - 1;
                proof {
                    lemma_pairs_slot_at(self.digest_to_proof@, i as int);
                }
            },
        }
        let ghost setup = *self;
        proof {
            assert(setup.digest_to_proof@[i as int].0 == d);
            lemma_pairs_slot_at(setup.digest_to_proof@, i as int);
            if !pre.has_digest(d) {
                assert(setup.sigs_of(d) =~= pre.sigs_of(d));
            }
            assert(setup.sigs_of(d) == pre.sigs_of(d));
            assert(setup.has_time(d));
            assert forall|d2: u64|
                d2 != d implies #[trigger] setup.has_time(d2) == pre.has_time(d2) by {
                if pre.has_time(d2) {
                    let c = choose|k: int|
                        0 <= k < pre.digest_to_time@.len() && (#[trigger] pre.digest_to_time@[k]).0
                            == d2;
                    assert(setup.digest_to_time@[c].0 == d2);
                }
                if setup.has_time(d2) {
                    let c = choose|k: int|
                        0 <= k < setup.digest_to_time@.len() && (
                        #[trigger] setup.digest_to_time@[k]).0 == d2;
                    if c < pre.digest_to_time@.len() {
                        assert(pre.digest_to_time@[c].0 == d2);
                    } else {
                        assert(setup.digest_to_time@[c].0 == d);
                    }
                }
            }
            assert forall|d2: u64|
                d2 != d implies #[trigger] setup.has_digest(d2) == pre.has_digest(d2) && (
                pre.has_digest(d2) ==> setup.info_of(d2) == pre.info_of(d2) && setup.sigs_of(d2)
                    == pre.sigs_of(d2)) by {
                if pre.has_digest(d2) {
                    let c = pre.proof_slot(d2);
                    assert(setup.digest_to_proof@[c].0 == d2);
                    lemma_pairs_slot_at(setup.digest_to_proof@, c);
                }
                if setup.has_digest(d2) {
                    let c = setup.proof_slot(d2);
                    if c < pre.digest_to_proof@.len() {
                        assert(pre.digest_to_proof@[c].0 == d2);
                        lemma_pairs_slot_at(pre.digest_to_proof@, c);
                    } else {
                        assert(setup.digest_to_proof@[c].0 == d);
                    }
                }
            }
            lemma_pairs_remove(setup.digest_to_proof@, i as int);
        }
        let pair = self.digest_to_proof.remove(i);
        let ghost gap = self.digest_to_proof@;
        let mut st = pair.1;
        let verdict = st.add_signature(signed_digest);
        proof {
            if !pre.has_digest(d) {
                assert(verdict is Ok);
            }
        }
        match verdict {
            Err(e) => {
                proof {
                    assert(!pairs_has(gap, d));
                    lemma_pairs_push(gap, (pair.0, st));
                }
                self.digest_to_proof.push((pair.0, st));
                proof {
                    assert forall|k: int|
                        0 <= k < self.digest_to_proof@.len() implies (
                        #[trigger] self.digest_to_proof@[k]).1.wf()
                            && self.digest_to_proof@[k].1.info.digest
                            == self.digest_to_proof@[k].0 by {
                        if k < gap.len() {
                            let k2 = if k < i { k } else { k + 1 };
                            assert(self.digest_to_proof@[k] == setup.digest_to_proof@[k2]);
                        } else {
                            assert(self.digest_to_proof@[k] == (pair.0, st));
                        }
                    }
                    assert forall|d2: u64|
                        #[trigger] self.has_digest(d2) == setup.has_digest(d2) && (
                        setup.has_digest(d2) ==> self.info_of(d2) == setup.info_of(d2)
                            && self.sigs_of(d2) == setup.sigs_of(d2)) by {
                        if d2 == d {
                            assert(self.has_digest(d));
                            assert(self.digest_to_proof@[pairs_slot(self.digest_to_proof@, d)]
                                == (pair.0, st));
                        } else {
                            assert(pairs_has(gap, d2) == (setup.has_digest(d2) && d2 != d));
                            assert(self.has_digest(d2) == (pairs_has(gap, d2) || d2 == d));
                            if setup.has_digest(d2) {
                                assert(gap[pairs_slot(gap, d2)]
                                    == setup.digest_to_proof@[setup.proof_slot(d2)]);
                                assert(self.digest_to_proof@[pairs_slot(
                                    self.digest_to_proof@,
                                    d2,
                                )] == gap[pairs_slot(gap, d2)]);
                            }
                        }
                    }
                    assert forall|x: u64| #[trigger] self.has_digest(x) implies self.has_time(
                        x,
                    ) by {
                        assert(pairs_has(gap, x) == (setup.has_digest(x) && x != d));
                        assert(self.has_digest(x) == (pairs_has(gap, x) || x == d));
                        assert(setup.has_time(x));
                        let c = choose|k: int|
                            0 <= k < setup.digest_to_time@.len() && (
                            #[trigger] setup.digest_to_time@[k]).0 == x;
                        assert(self.digest_to_time@[c].0 == x);
                    }
                    assert(self.wf());
                    assert forall|d2: u64|
                        d2 != d && pre.has_digest(d2) implies self.has_digest(d2) == pre.has_digest(
                            d2,
                        ) && self.info_of(d2) == pre.info_of(d2) && self.sigs_of(d2)
                            == pre.sigs_of(d2) by {
                        assert(setup.has_digest(d2) == pre.has_digest(d2));
                        assert(self.has_digest(d2) == setup.has_digest(d2));
                        assert(setup.info_of(d2) == pre.info_of(d2));
                        assert(setup.sigs_of(d2) == pre.sigs_of(d2));
                        assert(self.info_of(d2) == setup.info_of(d2));
                        assert(self.sigs_of(d2) == setup.sigs_of(d2));
                    }
                    assert forall|d2: u64|
                        d2 != d implies #[trigger] self.has_time(d2) == pre.has_time(d2) by {
                        if setup.has_time(d2) {
                            let c = choose|k: int|
                                0 <= k < setup.digest_to_time@.len() && (
                                #[trigger] setup.digest_to_time@[k]).0 == d2;
                            assert(self.digest_to_time@[c].0 == d2);
                        }
                        if self.has_time(d2) {
                            let c = choose|k: int|
                                0 <= k < self.digest_to_time@.len() && (
                                #[trigger] self.digest_to_time@[k]).0 == d2;
                            assert(setup.digest_to_time@[c].0 == d2);
                        }
                        assert(setup.has_time(d2) == pre.has_time(d2));
                    }
                }
                return Err(e);
            },
            Ok(()) => {
            },
        }
        let is_ready = st.ready(validator_verifier, self.peer_id);
        if is_ready {
            let proof_of_store = st.take();
            let ghost tpre = self.digest_to_time@;
            match self.find_time_slot(d) {
                Some(j) => {
                    proof {
                        let c = choose|k: int|
                            0 <= k < tpre.len() && (#[trigger] tpre[k]).0 == d;
                        if c != j {
                            if c < j {
                                assert(tpre[c].0 != tpre[j as int].0);
                            } else {
                                assert(tpre[j as int].0 != tpre[c].0);
                            }
                        }
                    }
                    self.digest_to_time.remove(j);
                    proof {
                        assert forall|d2: u64| #[trigger] self.has_time(d2) == (setup.has_time(d2)
                            && d2 != d) by {
                            if self.has_time(d2) {
                                let c = choose|k: int|
                                    0 <= k < self.digest_to_time@.len() && (
                                    #[trigger] self.digest_to_time@[k]).0 == d2;
                                let c2 = if c < j { c } else { c + 1 };
                                assert(self.digest_to_time@[c] == tpre[c2]);
                                assert(setup.has_time(d2));
                                if d2 == d {
                                    if c2 < j {
                                        assert(tpre[c2].0 != tpre[j as int].0);
                                    } else {
                                        assert(tpre[j as int].0 != tpre[c2].0);
                                    }
                                }
                            }
                            if setup.has_time(d2) && d2 != d {
                                let c = choose|k: int|
                                    0 <= k < tpre.len() && (#[trigger] tpre[k]).0 == d2;
                                assert(c != j);
                                let c2 = if c < j { c } else { c - 1 };
                                assert(self.digest_to_time@[c2] == tpre[c]);
                                assert(self.has_time(d2));
                            }
                        }
                    }
                },
                None => {
                    proof {
                        assert(false);
                    }
                },
            }
            proof {
                assert forall|d2: u64|
                    #[trigger] self.has_digest(d2) == (setup.has_digest(d2) && d2 != d) && (
                    self.has_digest(d2) ==> self.info_of(d2) == setup.info_of(d2)
                        && self.sigs_of(d2) == setup.sigs_of(d2)) by {
                    assert(pairs_has(gap, d2) == (setup.has_digest(d2) && d2 != d));
                    if self.has_digest(d2) {
                        assert(gap[pairs_slot(gap, d2)]
                            == setup.digest_to_proof@[setup.proof_slot(d2)]);
                    }
                }
                assert forall|x: u64| #[trigger] self.has_digest(x) implies self.has_time(
                    x,
                ) by {
                    assert(self.has_digest(x) == (setup.has_digest(x) && x != d));
                    assert(setup.has_time(x));
                    assert(self.has_time(x) == (setup.has_time(x) && x != d));
                }
                assert(self.wf());
                assert forall|d2: u64|
                    d2 != d && pre.has_digest(d2) implies self.has_digest(d2) == pre.has_digest(
                        d2,
                    ) && self.info_of(d2) == pre.info_of(d2) && self.sigs_of(d2) == pre.sigs_of(
                        d2,
                    ) by {
                    assert(setup.has_digest(d2) == pre.has_digest(d2));
                    assert(self.has_digest(d2) == (setup.has_digest(d2) && d2 != d));
                    assert(setup.info_of(d2) == pre.info_of(d2));
                    assert(setup.sigs_of(d2) == pre.sigs_of(d2));
                    assert(self.info_of(d2) == setup.info_of(d2));
                    assert(self.sigs_of(d2) == setup.sigs_of(d2));
                }
                assert forall|d2: u64|
                    d2 != d implies #[trigger] self.has_time(d2) == pre.has_time(d2) by {
                    assert(self.has_time(d2) == (setup.has_time(d2) && d2 != d));
                    assert(setup.has_time(d2) == pre.has_time(d2));
                }
            }
            return Ok(Some(proof_of_store));
        }
        proof {
            assert(!pairs_has(gap, d));
            lemma_pairs_push(gap, (pair.0, st));
        }
        self.digest_to_proof.push((pair.0, st));
        proof {
            assert forall|k: int|
                0 <= k < self.digest_to_proof@.len() implies (
                #[trigger] self.digest_to_proof@[k]).1.wf()
                    && self.digest_to_proof@[k].1.info.digest == self.digest_to_proof@[k].0 by {
                if k < gap.len() {
                    let k2 = if k < i { k } else { k + 1 };
                    assert(self.digest_to_proof@[k] == setup.digest_to_proof@[k2]);
                } else {
                    assert(self.digest_to_proof@[k] == (pair.0, st));
                }
            }
            assert(self.has_digest(d));
            assert(self.digest_to_proof@[pairs_slot(self.digest_to_proof@, d)] == (pair.0, st));
            assert forall|d2: u64|
                d2 != d implies #[trigger] self.has_digest(d2) == setup.has_digest(d2) && (
                setup.has_digest(d2) ==> self.info_of(d2) == setup.info_of(d2) && self.sigs_of(d2)
                    == setup.sigs_of(d2)) by {
                assert(pairs_has(gap, d2) == (setup.has_digest(d2) && d2 != d));
                assert(self.has_digest(d2) == (pairs_has(gap, d2) || d2 == d));
                if setup.has_digest(d2) {
                    assert(gap[pairs_slot(gap, d2)]
                        == setup.digest_to_proof@[setup.proof_slot(d2)]);
                    assert(self.digest_to_proof@[pairs_slot(self.digest_to_proof@, d2)]
                        == gap[pairs_slot(gap, d2)]);
                }
            }
            assert forall|x: u64| #[trigger] self.has_digest(x) implies self.has_time(x) by {
                assert(pairs_has(gap, x) == (setup.has_digest(x) && x != d));
                assert(self.has_digest(x) == (pairs_has(gap, x) || x == d));
                if x != d {
                    assert(setup.has_time(x));
                } else {
                    assert(setup.has_time(d));
                }
                let c = choose|k: int|
                    0 <= k < setup.digest_to_time@.len() && (
                    #[trigger] setup.digest_to_time@[k]).0 == x;
                assert(self.digest_to_time@[c].0 == x);
            }
            assert(self.wf());
            assert forall|d2: u64|
                d2 != d && pre.has_digest(d2) implies self.has_digest(d2) == pre.has_digest(d2)
                    && self.info_of(d2) == pre.info_of(d2) && self.sigs_of(d2) == pre.sigs_of(
                    d2,
                ) by {
                assert(setup.has_digest(d2) == pre.has_digest(d2));
                assert(self.has_digest(d2) == setup.has_digest(d2));
                assert(setup.info_of(d2) == pre.info_of(d2));
                assert(setup.sigs_of(d2) == pre.sigs_of(d2));
                assert(self.info_of(d2) == setup.info_of(d2));
                assert(self.sigs_of(d2) == setup.sigs_of(d2));
            }
            assert forall|d2: u64|
                d2 != d implies #[trigger] self.has_time(d2) == pre.has_time(d2) by {
                if setup.has_time(d2) {
                    let c = choose|k: int|
                        0 <= k < setup.digest_to_time@.len() && (
                        #[trigger] setup.digest_to_time@[k]).0 == d2;
                    assert(self.digest_to_time@[c].0 == d2);
                }
                if self.has_time(d2) {
                    let c = choose|k: int|
                        0 <= k < self.digest_to_time@.len() && (
                        #[trigger] self.digest_to_time@[k]).0 == d2;
                    assert(setup.digest_to_time@[c].0 == d2);
                }
                assert(setup.has_time(d2) == pre.has_time(d2));
            }
        }
        Ok(None)
    }

    /// Drops every digest whose queued expiry has passed by `now_us`: the
    /// expired prefix of the timeout queue is dequeued and each listed
    /// digest's accumulation state, if still present, is removed.  The
    /// expired digests are handed back, counted by the caller.
    #[verifier::rlimit(60)]
    pub fn expire_at(&mut self, now_us: u64) -> (r: Vec<u64>)
        requires
            old(self).wf(),
        ensures
            final(self).wf(),
            final(self).peer_id == old(self).peer_id,
            final(self).proof_timeout_ms == old(self).proof_timeout_ms,
            final(self).digest_to_time@ == old(self).digest_to_time@,
            ({
                let k = expired_prefix_len(old(self).timeouts.items@, now_us);
                &&& r@ == Seq::new(k as nat, |i: int| old(self).timeouts.items@[i].1)
                &&& final(self).timeouts.items@ == old(self).timeouts.items@.skip(k)
            }),
            forall|d2: u64|
                #[trigger] final(self).has_digest(d2) == (old(self).has_digest(d2) && !hit_in(
                    r@,
                    r@.len() as int,
                    d2,
                )),
            forall|d2: u64|
                final(self).has_digest(d2) ==> final(self).info_of(d2) == old(self).info_of(d2)
                    && final(self).sigs_of(d2) == old(self).sigs_of(d2),
    {
        let ghost pre = *self;
        let expired = self.timeouts.expire(now_us);
        proof {
            assert forall|d2: u64| #[trigger] self.has_digest(d2) == (pre.has_digest(d2)
                && !hit_in(expired@, 0, d2)) by {
                assert(!hit_in(expired@, 0, d2));
                assert(self.digest_to_proof@ == pre.digest_to_proof@);
            }
        }
        let n = expired.len();
        let mut idx: usize = 0;
        while idx < n
            invariant
                n == expired@.len(),
                idx <= n,
                self.peer_id == pre.peer_id,
                self.proof_timeout_ms == pre.proof_timeout_ms,
                self.digest_to_time@ == pre.digest_to_time@,
                self.timeouts.items@ == pre.timeouts.items@.skip(
                    expired_prefix_len(pre.timeouts.items@, now_us),
                ),
                expired@ == Seq::new(
                    expired_prefix_len(pre.timeouts.items@, now_us) as nat,
                    |i: int| pre.timeouts.items@[i].1,
                ),
                self.wf(),
                forall|d2: u64|
                    #[trigger] self.has_digest(d2) == (pre.has_digest(d2) && !hit_in(
                        expired@,
                        idx as int,
                        d2,
                    )),
                forall|d2: u64|
                    self.has_digest(d2) ==> self.info_of(d2) == pre.info_of(d2) && self.sigs_of(
                        d2,
                    ) == pre.sigs_of(d2),
            decreases n - idx,
        {
            let d = expired[idx];
            let ghost mid = *self;
            match self.find_proof_slot(d) {
                Some(j) => {
                    proof {
                        lemma_pairs_remove(mid.digest_to_proof@, j as int);
                    }
                    self.digest_to_proof.remove(j);
                    proof {
                        assert forall|k: int|
                            0 <= k < self.digest_to_proof@.len() implies (
                            #[trigger] self.digest_to_proof@[k]).1.wf()
                                && self.digest_to_proof@[k].1.info.digest
                                == self.digest_to_proof@[k].0 by {
                            let k2 = if k < j { k } else { k + 1 };
                            assert(self.digest_to_proof@[k] == mid.digest_to_proof@[k2]);
                        }
                        assert forall|x: u64| #[trigger] self.has_digest(x) implies self.has_time(
                            x,
                        ) by {
                            assert(self.has_digest(x) == (mid.has_digest(x) && x != d));
                            assert(mid.has_time(x));
                            let c = choose|k: int|
                                0 <= k < mid.digest_to_time@.len() && (
                                #[trigger] mid.digest_to_time@[k]).0 == x;
                            assert(self.digest_to_time@[c].0 == x);
                        }
                        assert forall|d2: u64|
                            #[trigger] self.has_digest(d2) == (pre.has_digest(d2) && !hit_in(
                                expired@,
                                idx as int + 1,
                                d2,
                            )) by {
                            assert(self.has_digest(d2) == (mid.has_digest(d2) && d2 != d));
                            if hit_in(expired@, idx as int, d2) {
                                assert(hit_in(expired@, idx as int + 1, d2));
                            }
                            if hit_in(expired@, idx as int + 1, d2) && d2 != d {
                                let w = choose|i: int|
                                    0 <= i < idx as int + 1 && expired@[i] == d2;
                                assert(w < idx as int);
                                assert(hit_in(expired@, idx as int, d2));
                            }
                        }
                        assert forall|d2: u64|
                            self.has_digest(d2) implies self.info_of(d2) == pre.info_of(d2)
                                && self.sigs_of(d2) == pre.sigs_of(d2) by {
                            assert(self.has_digest(d2) == (mid.has_digest(d2) && d2 != d));
                            assert(self.digest_to_proof@[pairs_slot(self.digest_to_proof@, d2)]
                                == mid.digest_to_proof@[pairs_slot(mid.digest_to_proof@, d2)]);
                            assert(mid.info_of(d2) == pre.info_of(d2));
                            assert(mid.sigs_of(d2) == pre.sigs_of(d2));
                        }
                    }
                },
                None => {
                    proof {
                        assert forall|d2: u64|
                            #[trigger] self.has_digest(d2) == (pre.has_digest(d2) && !hit_in(
                                expired@,
                                idx as int + 1,
                                d2,
                            )) by {
                            if hit_in(expired@, idx as int, d2) {
                                assert(hit_in(expired@, idx as int + 1, d2));
                            }
                            if hit_in(expired@, idx as int + 1, d2) && d2 != d {
                                let w = choose|i: int|
                                    0 <= i < idx as int + 1 && expired@[i] == d2;
                                assert(w < idx as int);
                                assert(hit_in(expired@, idx as int, d2));
                            }
                        }
                    }
                },
            }
            idx = idx + 1;
        }
        expired
    }

    /// Feeds one contribution at the present wall-clock time.  The clock
    /// decides only when the digest expires and which creation time is on
    /// record; the judgment of the contribution and every state change it
    /// causes do not depend on it, so they are promised here in full,
    /// whatever time the clock returned: the same cases as
    /// [`Self::add_signature_at`], with the queued expiry existentially
    /// quantified.
    pub fn add_signature(
        &mut self,
        signed_digest: SignedDigest,
        validator_verifier: &ValidatorVerifier,
    ) -> (r: Result<Option<ProofOfStore>, SignedDigestError>)
        requires
            old(self).wf(),
        ensures
            final(self).wf(),
            final(self).peer_id == old(self).peer_id,
            final(self).proof_timeout_ms == old(self).proof_timeout_ms,
            forall|d2: u64|
                d2 != signed_digest.info.digest ==> final(self).has_digest(d2) == old(
                    self,
                ).has_digest(d2),
            forall|d2: u64|
                d2 != signed_digest.info.digest && old(self).has_digest(d2) ==> final(self).info_of(
                    d2,
                ) == old(self).info_of(d2) && final(self).sigs_of(d2) == old(self).sigs_of(d2),
            forall|d2: u64|
                d2 != signed_digest.info.digest ==> final(self).has_time(d2) == old(self).has_time(
                    d2,
                ),
            ({
                let d = signed_digest.info.digest;
                let known = old(self).has_digest(d);
                let s_info = if known {
                    old(self).info_of(d)
                } else {
                    signed_digest.info
                };
                let s_sigs = old(self).sigs_of(d);
                let new_sigs = s_sigs.push((signed_digest.signer, signed_digest.signature));
                let is_ready = has_signer_in(new_sigs, old(self).peer_id) && power_sum(
                    validator_verifier.validators@,
                    signers_of(new_sigs),
                ) >= validator_verifier.quorum_threshold;
                let initialized = !known && signed_digest.info.batch_author == old(self).peer_id;
                if !known && signed_digest.info.batch_author != old(self).peer_id {
                    &&& r == Err::<Option<ProofOfStore>, SignedDigestError>(
                        SignedDigestError::WrongInfo,
                    )
                    &&& *final(self) == *old(self)
                } else {
                    &&& (!initialized ==> final(self).timeouts.items@ == old(
                        self,
                    ).timeouts.items@)
                    &&& (initialized ==> exists|e: u64|
                        final(self).timeouts.items@ == old(self).timeouts.items@.push(
                            (e, d),
                        ))
                    &&& if signed_digest.info != s_info {
                        &&& r == Err::<Option<ProofOfStore>, SignedDigestError>(
                            SignedDigestError::WrongInfo,
                        )
                        &&& final(self).has_digest(d) == known
                        &&& final(self).sigs_of(d) == s_sigs
                        &&& (known ==> final(self).info_of(d) == s_info)
                        &&& final(self).has_time(d) == old(self).has_time(d)
                    } else if has_signer_in(s_sigs, signed_digest.signer) {
                        &&& r == Err::<Option<ProofOfStore>, SignedDigestError>(
                            SignedDigestError::DuplicatedSignature,
                        )
                        &&& final(self).has_digest(d) == known
                        &&& final(self).sigs_of(d) == s_sigs
                        &&& (known ==> final(self).info_of(d) == s_info)
                        &&& final(self).has_time(d) == old(self).has_time(d)
                    } else if is_ready {
                        &&& (r matches Ok(op) && op matches Some(p) && p.info
                            == signed_digest.info && p.signatures@ == new_sigs)
                        &&& !final(self).has_digest(d)
                        &&& !final(self).has_time(d)
                    } else {
                        &&& r == Ok::<Option<ProofOfStore>, SignedDigestError>(None)
                        &&& final(self).has_digest(d)
                        &&& final(self).info_of(d) == signed_digest.info
                        &&& final(self).sigs_of(d) == new_sigs
                        &&& (initialized || final(self).has_time(d) == old(self).has_time(d))
                        &&& (initialized ==> final(self).has_time(d))
                    }
                }
            }),
    {
        let ghost pre = *self;
        let now_us = now_micros();
        let r = self.add_signature_at(signed_digest, validator_verifier, now_us);
        proof {
            let d = signed_digest.info.digest;
            if !pre.has_digest(d) && signed_digest.info.batch_author == pre.peer_id {
                assert(self.timeouts.items@ == pre.timeouts.items@.push(
                    (expiry_spec(now_us, pre.proof_timeout_ms), d),
                ));
            }
        }
        r
    }

    /// Expires stale digests at the present wall-clock time.  The clock
    /// decides only where the expired prefix of the timeout queue ends;
    /// everything else is promised whatever time came back: for some time,
    /// the result is exactly the prefix of the queue expired by then, the
    /// queue becomes the corresponding suffix, and exactly the listed
    /// digests lose their accumulation state, every survivor untouched.
    pub fn expire(&mut self) -> (r: Vec<u64>)
        requires
            old(self).wf(),
        ensures
            final(self).wf(),
            final(self).peer_id == old(self).peer_id,
            final(self).proof_timeout_ms == old(self).proof_timeout_ms,
            final(self).digest_to_time@ == old(self).digest_to_time@,
            exists|now_us: u64|
                r@ == Seq::new(
                    (#[trigger] expired_prefix_len(old(self).timeouts.items@, now_us)) as nat,
                    |i: int| old(self).timeouts.items@[i].1,
                ) && final(self).timeouts.items@ == old(self).timeouts.items@.skip(
                    expired_prefix_len(old(self).timeouts.items@, now_us),
                ),
            forall|d2: u64|
                #[trigger] final(self).has_digest(d2) == (old(self).has_digest(d2) && !hit_in(
                    r@,
                    r@.len() as int,
                    d2,
                )),
            forall|d2: u64|
                final(self).has_digest(d2) ==> final(self).info_of(d2) == old(self).info_of(d2)
                    && final(self).sigs_of(d2) == old(self).sigs_of(d2),
    {
        let ghost pre = *self;
        let now_us = now_micros();
        let r = self.expire_at(now_us);
        proof {
            let k = expired_prefix_len(pre.timeouts.items@, now_us);
            assert(r@ == Seq::new(k as nat, |i: int| pre.timeouts.items@[i].1));
            assert(self.timeouts.items@ == pre.timeouts.items@.skip(k));
        }
        r
    }

    /// Finds the slot of `d`'s recorded creation time, if any.
    fn find_time_slot(&self, d: u64) -> (r: Option<usize>)
        ensures
            match r {
                Some(i) => i < self.digest_to_time@.len() && self.digest_to_time@[i as int].0 == d
                    && self.has_time(d),
                None => !self.has_time(d),
            },
    {
        let n = self.digest_to_time.len();
        let mut i: usize = 0;
        while i < n
            invariant
                n == self.digest_to_time@.len(),
                i <= n,
                forall|j: int| 0 <= j < i ==> (#[trigger] self.digest_to_time@[j]).0 != d,
            decreases n - i,
        {
            if self.digest_to_time[i].0 == d {
                return Some(i);
            }
            i = i + 1;
        }
        None
    }
}

} // verus!
