use ringct::address::cryptonote::{CryptoNotePrivate, CryptoNotePublic};
use ringct::address::{ECDHPrivateKey, ECDHPublicKey, SharedSecret};
use ringct::curve::{GroupPoint, GroupScalar};

#[test]
fn ecdh_test() {
    let sk1: GroupScalar = ECDHPrivateKey::generate();
    let pk1 = sk1.to_public();
    let sk2: GroupScalar = ECDHPrivateKey::generate();
    let pk2 = sk2.to_public();

    let ss1 = ECDHPrivateKey::shared_secret(&sk1, &pk2);
    let ss2 = ECDHPrivateKey::shared_secret(&sk2, &pk1);

    // Serialization
    let sk1 = GroupScalar::from_bytes(&sk1.to_bytes()).unwrap();
    let pk1 = GroupPoint::from_bytes(&pk1.encode()).unwrap();
    let ss1 = SharedSecret::from_bytes(&ss1.to_bytes().unwrap()).unwrap();

    // Shared secrets should be equal
    assert!(ss1 == ss2);

    // View tags should be equal
    assert!(ss1.get_view_tag() == ss2.get_view_tag());

    // Amount encryption
    let encrypted = ss1.encrypt_amount(123456);
    assert!(123456u64 != encrypted);
    assert!(123456u64 == ss2.decrypt_amount(encrypted));

    // Derived (public) keys should be equal
    assert!(sk1.derive_key(ss1.clone()).to_public() == ECDHPublicKey::derive_key(&pk1, ss2));
}

#[test]
fn cryptonote_test() {
    let sk1 = CryptoNotePrivate::generate();
    let pk1 = sk1.to_public();

    let sk2: GroupScalar = ECDHPrivateKey::generate();
    let pk2 = sk2.to_public();

    // Serialization
    let sk1 = CryptoNotePrivate::from_bytes(&sk1.to_bytes().unwrap()).unwrap();
    let pk1 = CryptoNotePublic::from_bytes(&pk1.to_bytes().unwrap()).unwrap();

    // Shared secrets should be equal
    let ss1 = sk1.shared_secret(&pk2);
    let ss2 = pk1.shared_secret(sk2);
    assert!(ss1 == ss2);

    // Derived (public) keys should be equal
    let derived = sk1.derive_key(ss1.clone());
    assert!(derived.to_public() == pk1.derive_key(ss2.clone()));

    // View-only
    let view_1 = sk1.to_view_only();
    let ss1 = view_1.shared_secret(&pk2);
    assert!(ss1 == ss2);
    assert!(view_1.derive_key(ss1) == pk1.derive_key(ss2));
}
