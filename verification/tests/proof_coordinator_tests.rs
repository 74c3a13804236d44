use block_stm_core::proof_coordinator::{
    IncrementalProofState, ProofCoordinator, SignedDigest, SignedDigestError, SignedDigestInfo,
    ValidatorVerifier,
};

fn quorum_verifier() -> ValidatorVerifier {
    ValidatorVerifier {
        validators: vec![(1, 1), (2, 1), (3, 1), (4, 1)],
        quorum_threshold: 3,
    }
}

fn signed(signer: u64, digest: u64, author: u64) -> SignedDigest {
    SignedDigest {
        signer,
        info: SignedDigestInfo { digest, batch_author: author },
        signature: 100 + signer,
    }
}

#[test]
fn quorum_emits_the_proof_and_drops_the_state() {
    let v = quorum_verifier();
    let mut pc = ProofCoordinator::new(1000, 1);
    assert!(matches!(pc.add_signature_at(signed(1, 7, 1), &v, 0), Ok(None)));
    assert!(matches!(pc.add_signature_at(signed(2, 7, 1), &v, 10), Ok(None)));
    match pc.add_signature_at(signed(3, 7, 1), &v, 20) {
        Ok(Some(proof)) => {
            assert_eq!(proof.info, SignedDigestInfo { digest: 7, batch_author: 1 });
            assert_eq!(proof.signatures, vec![(1, 101), (2, 102), (3, 103)]);
        },
        _ => panic!("expected the third signature to complete the quorum"),
    }
    // The state was removed: the same signer starts a fresh accumulation
    // instead of being rejected as a duplicate.
    assert!(matches!(pc.add_signature_at(signed(2, 7, 1), &v, 30), Ok(None)));
}

#[test]
fn quorum_without_the_local_signature_does_not_fire() {
    let v = quorum_verifier();
    let mut pc = ProofCoordinator::new(1000, 1);
    assert!(matches!(pc.add_signature_at(signed(1, 7, 1), &v, 0), Ok(None)));
    assert!(matches!(pc.add_signature_at(signed(2, 7, 1), &v, 0), Ok(None)));
    // Local identity is 1 and has signed; but take a coordinator whose
    // identity has not signed: power alone is not enough.
    let mut pc9 = ProofCoordinator::new(1000, 4);
    assert!(matches!(pc9.add_signature_at(signed(1, 8, 4), &v, 0), Ok(None)));
    assert!(matches!(pc9.add_signature_at(signed(2, 8, 4), &v, 0), Ok(None)));
    assert!(matches!(pc9.add_signature_at(signed(3, 8, 4), &v, 0), Ok(None)));
}

#[test]
fn non_author_digest_first_seen_is_rejected_with_wrong_info() {
    let v = quorum_verifier();
    let mut pc = ProofCoordinator::new(1000, 9);
    match pc.add_signature_at(signed(2, 7, 1), &v, 0) {
        Err(SignedDigestError::WrongInfo) => {},
        _ => panic!("expected rejection of a digest authored elsewhere"),
    }
    // And no state was created for it.
    match pc.add_signature_at(signed(3, 7, 1), &v, 1) {
        Err(SignedDigestError::WrongInfo) => {},
        _ => panic!("expected the digest to stay unknown"),
    }
}

#[test]
fn mismatched_info_on_a_known_digest_is_wrong_info() {
    let v = quorum_verifier();
    let mut pc = ProofCoordinator::new(1000, 1);
    assert!(matches!(pc.add_signature_at(signed(1, 7, 1), &v, 0), Ok(None)));
    // Same digest, different declared author: the info disagrees.
    let bad = SignedDigest {
        signer: 2,
        info: SignedDigestInfo { digest: 7, batch_author: 2 },
        signature: 102,
    };
    match pc.add_signature_at(bad, &v, 1) {
        Err(SignedDigestError::WrongInfo) => {},
        _ => panic!("expected an info mismatch"),
    }
}

#[test]
fn duplicate_signature_is_rejected_and_state_unchanged() {
    let v = quorum_verifier();
    let mut pc = ProofCoordinator::new(1000, 1);
    assert!(matches!(pc.add_signature_at(signed(2, 7, 1), &v, 0), Ok(None)));
    match pc.add_signature_at(signed(2, 7, 1), &v, 1) {
        Err(SignedDigestError::DuplicatedSignature) => {},
        _ => panic!("expected a duplicate rejection"),
    }
    // The accumulation is unchanged: local + one more still completes.
    assert!(matches!(pc.add_signature_at(signed(1, 7, 1), &v, 2), Ok(None)));
    assert!(matches!(pc.add_signature_at(signed(3, 7, 1), &v, 3), Ok(Some(_))));
}

#[test]
fn duplicate_append_on_the_state_machine_itself() {
    let info = SignedDigestInfo { digest: 7, batch_author: 1 };
    let mut st = IncrementalProofState::new(info);
    assert!(st.add_signature(signed(2, 7, 1)).is_ok());
    assert_eq!(
        st.add_signature(signed(2, 7, 1)),
        Err(SignedDigestError::DuplicatedSignature)
    );
    assert_eq!(st.aggregated_signature, vec![(2, 102)]);
    // A contribution under a different info is wrong, and changes nothing.
    assert_eq!(st.add_signature(signed(3, 8, 1)), Err(SignedDigestError::WrongInfo));
    assert_eq!(st.aggregated_signature, vec![(2, 102)]);
}

#[test]
fn timeout_expires_the_digest_without_a_proof() {
    let v = quorum_verifier();
    // 100 ms timeout; created at 0 so it expires at 100_000 us.
    let mut pc = ProofCoordinator::new(100, 1);
    assert!(matches!(pc.add_signature_at(signed(1, 7, 1), &v, 0), Ok(None)));
    assert!(matches!(pc.add_signature_at(signed(2, 7, 1), &v, 10), Ok(None)));
    assert_eq!(pc.expire_at(99_999), Vec::<u64>::new());
    assert_eq!(pc.expire_at(100_000), vec![7]);
    // The state is gone: the signer that had contributed starts afresh.
    assert!(matches!(pc.add_signature_at(signed(2, 7, 1), &v, 200_000), Ok(None)));
}

#[test]
fn ready_needs_both_the_local_signature_and_the_power() {
    let v = quorum_verifier();
    let info = SignedDigestInfo { digest: 7, batch_author: 1 };
    let mut st = IncrementalProofState::new(info);
    st.add_signature(signed(2, 7, 1)).unwrap();
    st.add_signature(signed(3, 7, 1)).unwrap();
    st.add_signature(signed(4, 7, 1)).unwrap();
    // Three voters reach the power threshold, but the local one is absent.
    assert!(!st.ready(&v, 1));
    st.add_signature(signed(1, 7, 1)).unwrap();
    assert!(st.ready(&v, 1));
    let proof = st.take();
    assert_eq!(proof.signatures.len(), 4);
}

#[test]
fn wall_clock_entry_points_accumulate_and_do_not_expire_fresh_digests() {
    let v = quorum_verifier();
    let mut pc = ProofCoordinator::new(60_000, 1);
    assert!(matches!(pc.add_signature(signed(1, 7, 1), &v), Ok(None)));
    assert!(matches!(
        pc.add_signature(signed(1, 7, 1), &v),
        Err(SignedDigestError::DuplicatedSignature)
    ));
    // A minute-long timeout cannot have elapsed between the two calls.
    assert_eq!(pc.expire(), Vec::<u64>::new());
    assert!(matches!(pc.add_signature(signed(2, 7, 1), &v), Ok(None)));
    assert!(matches!(pc.add_signature(signed(3, 7, 1), &v), Ok(Some(_))));
}
