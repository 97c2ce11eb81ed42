use rand::{thread_rng, Rng};

use ringct::address::cryptonote::CryptoNotePrivate;
use ringct::address::ECDHPrivateKey;
use ringct::curve::{encode_point, batch_encode_points, GroupPoint, GroupScalar};
use ringct::errors::{RangeProofError, SignatureError};
use ringct::rangeproof::{BorromeanRangeProof, BulletPlusRangeProof};
use ringct::signature::{CLSAGSignature, MLSAGSignature};
use ringct::types::{Commitment, Enote, EnoteKeys, Ring};

fn random_ring(n: usize) -> (Vec<EnoteKeys>, Ring) {
    let mut keys: Vec<EnoteKeys> = Vec::new();
    let mut ring = Ring::new();
    for _ in 0..n {
        let k = EnoteKeys {
            owner: GroupScalar::generate(),
            value: thread_rng().gen::<u64>(),
            blinding: GroupScalar::generate(),
        };
        keys.push(k.clone());
        ring.push(k.to_enote());
    }
    (keys, ring)
}

#[test]
fn commitment_balance_scenario() {
    let r1 = GroupScalar::generate();
    let r2 = GroupScalar::generate();
    let r3 = GroupScalar::generate();
    let r4 = GroupScalar::generate();
    // r4 + r5 = r1 + r2 + r3
    let r5 = r1.add(r2).add(r3).sub(r4);

    let ins = vec![
        Commitment::commit(1000, r1),
        Commitment::commit(50000, r2),
        Commitment::commit(200000, r3),
    ];
    let outs = vec![Commitment::commit(175000, r4), Commitment::commit(51000, r5)];
    assert!(Commitment::is_balanced(ins, outs, 25000));
}

#[test]
fn unbalanced_sums_rejected() {
    let r1 = GroupScalar::generate();
    let r2 = GroupScalar::generate();
    // Values unbalanced.
    let ins = vec![Commitment::commit(1000, r1)];
    let outs = vec![Commitment::commit(999, r1)];
    assert!(!Commitment::is_balanced(ins, outs, 0));
    // Blindings unbalanced.
    let ins = vec![Commitment::commit(1000, r1)];
    let outs = vec![Commitment::commit(1000, r2)];
    assert!(!Commitment::is_balanced(ins, outs, 0));
}

#[test]
fn bulletplus_bitflip_rejected() {
    let values = vec![123456789u64, 2222222, 8, 69420];
    let blindings = vec![
        GroupScalar::generate(),
        GroupScalar::generate(),
        GroupScalar::generate(),
        GroupScalar::generate(),
    ];
    let (commitments, proof) = BulletPlusRangeProof::prove(values, blindings).unwrap();
    BulletPlusRangeProof::verify(commitments.clone(), proof.clone()).unwrap();

    let mut bytes = proof.to_bytes().unwrap();
    bytes[40] ^= 1;
    match BulletPlusRangeProof::from_bytes(&bytes) {
        Ok(tampered) => {
            assert!(BulletPlusRangeProof::verify(commitments, tampered).is_err());
        },
        Err(_) => {
            // The flipped byte no longer parses; rejection at decoding is
            // also a failure of the tampered proof.
        },
    }
}

#[test]
fn bulletplus_aggregation_cap() {
    let mut values: Vec<u64> = Vec::new();
    let mut blindings: Vec<GroupScalar> = Vec::new();
    for _ in 0..257 {
        values.push(1);
        blindings.push(GroupScalar::generate());
    }
    assert!(matches!(
        BulletPlusRangeProof::prove(values, blindings),
        Err(RangeProofError::TooLargeAggregationSize)
    ));

    let r = GroupScalar::generate();
    assert!(matches!(
        BulletPlusRangeProof::prove(vec![1, 2], vec![r]),
        Err(RangeProofError::Malformed)
    ));
}

#[test]
fn bulletplus_batch_mixed_sizes() {
    let sizes = [1usize, 2];
    let mut groups: Vec<Vec<Commitment>> = Vec::new();
    let mut proofs: Vec<BulletPlusRangeProof> = Vec::new();
    for i in 0..3 {
        let n = sizes[thread_rng().gen::<usize>() % sizes.len()];
        let mut values: Vec<u64> = Vec::new();
        let mut blindings: Vec<GroupScalar> = Vec::new();
        for j in 0..n {
            values.push(1000 + (i * 31 + j) as u64);
            blindings.push(GroupScalar::generate());
        }
        let (coms, proof) = BulletPlusRangeProof::prove(values, blindings).unwrap();
        groups.push(coms);
        proofs.push(proof);
    }
    BulletPlusRangeProof::batch_verify(groups.clone(), proofs.clone()).unwrap();

    // Replace one proof with a proof over a different commitment set.
    let (_, foreign) =
        BulletPlusRangeProof::prove(vec![77u64], vec![GroupScalar::generate()]).unwrap();
    proofs[1] = foreign;
    assert!(BulletPlusRangeProof::batch_verify(groups, proofs).is_err());
}

#[test]
fn clsag_message_binding() {
    let (_, mut ring) = random_ring(8);
    let signer = EnoteKeys {
        owner: GroupScalar::generate(),
        value: 5_000_000,
        blinding: GroupScalar::generate(),
    };
    ring.push(signer.to_enote());
    ring.sort();

    let pseudo_blinding = GroupScalar::generate();
    let (pseudo_out, sig) =
        CLSAGSignature::sign(&ring, signer, pseudo_blinding, b"this is a test").unwrap();
    CLSAGSignature::verify(sig.clone(), &ring, pseudo_out, b"this is a test").unwrap();
    assert!(matches!(
        CLSAGSignature::verify(sig, &ring, pseudo_out, b"wrong"),
        Err(SignatureError::Invalid)
    ));
}

#[test]
fn clsag_key_image_linkage() {
    let signer = EnoteKeys {
        owner: GroupScalar::generate(),
        value: 123,
        blinding: GroupScalar::generate(),
    };

    let (_, mut ring1) = random_ring(7);
    ring1.push(signer.to_enote());
    ring1.sort();
    let (_, mut ring2) = random_ring(11);
    ring2.push(signer.to_enote());
    ring2.sort();

    let (_, sig1) = CLSAGSignature::sign(
        &ring1,
        signer.clone(),
        GroupScalar::generate(),
        b"first message",
    )
    .unwrap();
    let (_, sig2) = CLSAGSignature::sign(
        &ring2,
        signer.clone(),
        GroupScalar::generate(),
        b"second message",
    )
    .unwrap();
    assert!(sig1.key_image == sig2.key_image);
    assert!(sig1.key_image == signer.get_key_image());
}

#[test]
fn clsag_ring_guards() {
    let (_, mut ring) = random_ring(8);
    let signer = EnoteKeys {
        owner: GroupScalar::generate(),
        value: 42,
        blinding: GroupScalar::generate(),
    };
    ring.push(signer.to_enote());
    ring.sort();
    ring.0.reverse();
    assert!(matches!(
        CLSAGSignature::sign(&ring, signer.clone(), GroupScalar::generate(), b"m"),
        Err(SignatureError::UnsortedRing)
    ));
    ring.0.reverse();

    let outsider = EnoteKeys {
        owner: GroupScalar::generate(),
        value: 43,
        blinding: GroupScalar::generate(),
    };
    assert!(matches!(
        CLSAGSignature::sign(&ring, outsider, GroupScalar::generate(), b"m"),
        Err(SignatureError::EnoteNotInRing)
    ));

    // A signature whose response count does not match the ring is malformed.
    let (pseudo_out, sig) =
        CLSAGSignature::sign(&ring, signer, GroupScalar::generate(), b"m").unwrap();
    let (_, mut small_ring) = random_ring(3);
    small_ring.sort();
    assert!(matches!(
        CLSAGSignature::verify(sig, &small_ring, pseudo_out, b"m"),
        Err(SignatureError::Malformed)
    ));
}

#[test]
fn codec_round_trips() {
    let s = GroupScalar::generate();
    let back = GroupScalar::from_bytes(&s.to_bytes()).unwrap();
    assert!(s == back);
    assert!(GroupScalar::from_bytes(&s.to_bytes()[..31]).is_err());

    let p = ringct::curve::random_point();
    let back = GroupPoint::from_bytes(&p.encode()).unwrap();
    assert!(p == back);

    let c = Commitment::commit(987654, GroupScalar::generate());
    let back = Commitment::from_bytes(&c.to_bytes().unwrap()).unwrap();
    assert!(c == back);

    let e = Enote::new(ringct::curve::random_point(), c);
    let back = Enote::from_bytes(&e.to_bytes().unwrap()).unwrap();
    assert!(e == back);
    assert!(Enote::from_bytes(&e.to_bytes().unwrap()[..63]).is_err());

    let k = EnoteKeys {
        owner: GroupScalar::generate(),
        value: 31337,
        blinding: GroupScalar::generate(),
    };
    let back = EnoteKeys::from_bytes(&k.to_bytes().unwrap()).unwrap();
    assert!(back.owner == k.owner && back.value == k.value && back.blinding == k.blinding);
}

#[test]
fn encoding_paths_differ() {
    // The batched encoding path encodes the double of each point, so its
    // output must differ from the single-point encoding.
    let p = ringct::curve::random_point();
    let single = encode_point(&p);
    let batched = batch_encode_points(&vec![p]);
    assert_ne!(single, batched[0]);

    // Scalar arithmetic sanity against the wrappers.
    let two = GroupScalar::from_u64(2);
    let three = GroupScalar::from_u64(3);
    assert!(two.add(three) == GroupScalar::from_u64(5));
    assert!(three.mul(three) == GroupScalar::from_u64(9));
    assert!(three.sub(two) == GroupScalar::from_u64(1));
    assert!(two.sub(three).add(GroupScalar::one()) == GroupScalar::zero());
}

#[test]
fn borromean_tamper_rejected() {
    let (commitment, proof) =
        BorromeanRangeProof::prove(424242u64, GroupScalar::generate()).unwrap();
    let mut bytes = proof.to_bytes().unwrap();
    bytes[100] ^= 1;
    match BorromeanRangeProof::from_bytes(&bytes) {
        Ok(tampered) => {
            assert!(matches!(
                BorromeanRangeProof::verify(commitment, tampered),
                Err(RangeProofError::Invalid)
            ));
        },
        Err(_) => {
            // The flipped byte no longer decodes; rejection at decoding is
            // also a failure of the tampered proof.
        },
    }
}

#[test]
fn mlsag_sign_and_sort() {
    let (_, mut ring) = random_ring(6);
    let signer = EnoteKeys {
        owner: GroupScalar::generate(),
        value: 777,
        blinding: GroupScalar::generate(),
    };
    ring.push(signer.to_enote());
    ring.0.reverse();

    let (pseudo_out, sig) =
        MLSAGSignature::sign_and_sort(&mut ring, signer, GroupScalar::generate(), b"sorted")
            .unwrap();
    MLSAGSignature::verify(sig, &ring, pseudo_out, b"sorted").unwrap();
}

#[test]
fn clsag_unsorted_flow() {
    let (_, mut ring) = random_ring(4);
    let signer = EnoteKeys {
        owner: GroupScalar::generate(),
        value: 9999,
        blinding: GroupScalar::generate(),
    };
    ring.push(signer.to_enote());
    ring.sort();
    ring.0.reverse();

    // An unsorted ring is accepted by the unsorted variant, and the
    // signature verifies only against the exact same order.
    let (pseudo_out, sig) =
        CLSAGSignature::sign_unsorted(&ring, signer, GroupScalar::generate(), b"interop")
            .unwrap();
    CLSAGSignature::verify_unsorted(sig.clone(), &ring, pseudo_out, b"interop").unwrap();
    assert!(matches!(
        CLSAGSignature::verify(sig.clone(), &ring, pseudo_out, b"interop"),
        Err(SignatureError::UnsortedRing)
    ));
    ring.0.reverse();
    assert!(CLSAGSignature::verify_unsorted(sig, &ring, pseudo_out, b"interop").is_err());
}

#[test]
fn cryptonote_payment_flow() {
    let wallet = CryptoNotePrivate::generate();
    let address = wallet.to_public();

    let (blinding, recipient) = address.send(123_456_789);
    let commitment = Commitment::commit(123_456_789, blinding);

    let received = wallet.receive(&recipient, &commitment).unwrap();
    assert_eq!(received.value, 123_456_789);
    assert!(received.blinding == blinding);
    assert!(received.to_enote().owner == recipient.public_key);

    // A wrong view tag is rejected without further work.
    let tampered = ringct::address::Recipient {
        public_key: recipient.public_key,
        transaction_key: recipient.transaction_key,
        view_tag: recipient.view_tag.wrapping_add(1),
        encrypted_amount: recipient.encrypted_amount,
    };
    assert!(wallet.receive(&tampered, &commitment).is_none());

    // The wrong commitment is rejected too.
    let wrong = Commitment::commit(1, GroupScalar::generate());
    assert!(wallet.receive(&recipient, &wrong).is_none());

    // The view-only key recovers the same opening.
    let view_only = wallet.to_view_only();
    let (value, vb) = view_only.receive(&recipient, &commitment).unwrap();
    assert_eq!(value, 123_456_789);
    assert!(vb == blinding);
}
