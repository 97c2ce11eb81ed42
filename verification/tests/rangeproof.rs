use ringct::address::ECDHPrivateKey;
use ringct::curve::GroupScalar;
use ringct::rangeproof::{BorromeanRangeProof, BulletPlusRangeProof, BIT_RANGE};
use ringct::types::Commitment;

const AGGREGATION_SIZES: [usize; 3] = [1, 2, 3];

#[test]
fn bulletproofsplus_test() {
    for x in AGGREGATION_SIZES {
        let mut batched_commitments: Vec<Vec<Commitment>> = Vec::new();
        let mut batched_proofs: Vec<BulletPlusRangeProof> = Vec::new();

        let mut values: Vec<u64> = Vec::new();
        let mut blindings: Vec<GroupScalar> = Vec::new();
        for n in 0..x {
            values.push(1234567890 + n as u64);
            blindings.push(GroupScalar::generate());
        }
        // prove
        let (commitments, proof) = BulletPlusRangeProof::prove(values, blindings).unwrap();

        batched_commitments.push(commitments);

        // serialize
        let serialized = proof.to_bytes().unwrap();
        let deserialized = BulletPlusRangeProof::from_bytes(&serialized).unwrap();
        batched_proofs.push(deserialized);

        // verify
        BulletPlusRangeProof::batch_verify(batched_commitments, batched_proofs).unwrap();
    }
}

#[test]
fn bulletplus_extreme_values() {
    // test max/min values
    let (commitments, proof) =
        BulletPlusRangeProof::prove(vec![0u64], vec![GroupScalar::generate()]).unwrap();
    BulletPlusRangeProof::verify(commitments, proof).unwrap();

    let (commitments, proof) = BulletPlusRangeProof::prove(
        vec![((1u128 << BIT_RANGE) - 1) as u64],
        vec![GroupScalar::generate()],
    )
    .unwrap();
    BulletPlusRangeProof::verify(commitments, proof).unwrap();
}

#[test]
fn borromean_test() {
    // prove
    let (commitment, proof) =
        BorromeanRangeProof::prove(1234567890u64, GroupScalar::generate()).unwrap();

    // serialize
    let serialized = proof.to_bytes().unwrap();
    let deserialized = BorromeanRangeProof::from_bytes(&serialized).unwrap();

    // verify
    BorromeanRangeProof::verify(commitment, deserialized).unwrap();
}

#[test]
fn borromean_minimum_value() {
    let (commitment, proof) = BorromeanRangeProof::prove(0u64, GroupScalar::generate()).unwrap();
    BorromeanRangeProof::verify(commitment, proof).unwrap();
}

#[test]
fn borromean_maximum_value() {
    let (commitment, proof) = BorromeanRangeProof::prove(
        ((1u128 << BIT_RANGE) - 1) as u64,
        GroupScalar::generate(),
    )
    .unwrap();
    BorromeanRangeProof::verify(commitment, proof).unwrap();
}

#[test]
fn bulletplus_large_aggregation() {
    let mut values: Vec<u64> = Vec::new();
    let mut blindings: Vec<GroupScalar> = Vec::new();
    for n in 0..8usize {
        values.push(1234567890 + n as u64);
        blindings.push(GroupScalar::generate());
    }
    let (commitments, proof) = BulletPlusRangeProof::prove(values, blindings).unwrap();
    let serialized = proof.to_bytes().unwrap();
    let deserialized = BulletPlusRangeProof::from_bytes(&serialized).unwrap();
    BulletPlusRangeProof::verify(commitments, deserialized).unwrap();
}

#[test]
fn borromean_h_table_first_row() {
    let table = ringct::rangeproof::borromean::BorromeanHTable::new();
    assert_eq!(table.positive.len(), 32);
    assert_eq!(table.negative.len(), 32);
    // the first row holds 0*H, 1*H, 2*H, 3*H and their negations
    let h = ringct::pedersen::pedersen_h_point();
    assert!(table.positive[0][1] == h);
    assert!(table.positive[0][2] == h.add(h));
    assert!(table.negative[0][1] == h.neg());
}
