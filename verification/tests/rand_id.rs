use goat::rand_id::{decode, encode};
use goat::{GameId, RandId, UserId};

#[test]
fn encode_decode() {
    for b in 0..64 {
        assert_eq!(b, decode(encode(b)));
    }
}

#[test]
fn serde() {
    for _ in 0..1000 {
        let id: RandId = RandId::random();
        assert_eq!(id, RandId::from_str(&id.to_string()).unwrap());
    }
}

#[test]
fn rand_id_text() {
    let zero = RandId::from_hash(&[0u8; 16]);
    assert_eq!(zero.to_string(), "................");
    let mut hash = [0u8; 32];
    hash[0] = 1;
    assert_eq!(RandId::from_hash(&hash).to_string(), ".............../");
    hash[0] = 64;
    assert_eq!(RandId::from_hash(&hash).to_string(), "............../.");
    let top = RandId::from_hash(&[255u8; 16]);
    assert_eq!(top.to_string(), "zzzzzzzzzzzzzzzz");
    assert_eq!(RandId::from_str("zzzzzzzzzzzzzzzz"), Some(top));
    hash = [0u8; 32];
    hash[12] = 7;
    assert_eq!(RandId::from_hash(&hash), zero);
    assert_eq!(RandId::from_str(""), None);
    assert_eq!(RandId::from_str("zzzzzzzzzzzzzzz"), None);
    assert_eq!(RandId::from_str("zzzzzzzzzzzzzzz_"), None);
    assert_eq!(RandId::from_str("zzzzzzzzzzzzzzz "), None);
    assert_eq!(GameId(top).to_string(), "zzzzzzzzzzzzzzzz");
    assert_eq!(UserId::from(top), UserId(top));
    assert_eq!(encode(0), b'.');
    assert_eq!(encode(11), b'9');
    assert_eq!(encode(12), b'A');
    assert_eq!(encode(37), b'Z');
    assert_eq!(encode(38), b'a');
    assert_eq!(encode(63), b'z');
}
