use storage::prelude::{sha1_signature, sign_bytes, to_hex_lower};
use storage::sync::{
    ActionPayload, Commit, Decode, Encode, ObjectExt, Timestamp, UniversalActionObject,
};

#[derive(Clone, Debug, PartialEq)]
struct User {
    name: String,
    age: i32,
}

impl Encode for User {
    fn to_canonical(&self) -> Vec<u8> {
        format!("{{\"name\":\"{}\",\"age\":{}}}", self.name, self.age).into_bytes()
    }
}

impl Decode for User {
    fn from_canonical(_bytes: &[u8]) -> Option<Self> {
        None
    }
}

impl ObjectExt for User {}

#[test]
fn test_signature() {
    let signature = sha1_signature(&User {
        name: "Peti".into(),
        age: 34,
    });
    println!("{:?}", &signature);
    assert_eq!(signature.is_ok(), true);
}

#[test]
fn sha1_of_known_inputs() {
    assert_eq!(sign_bytes(b""), "da39a3ee5e6b4b0d3255bfef95601890afd80709");
    assert_eq!(sign_bytes(b"abc"), "a9993e364706816aba3e25717850c26c9cd0d89d");
}

#[test]
fn hex_is_lower_case_two_digits_per_byte() {
    assert_eq!(to_hex_lower(&[0x00, 0x0f, 0xa5, 0xff]), "000fa5ff");
    assert_eq!(to_hex_lower(&[]), "");
}

#[test]
fn a_signature_is_taken_over_canonical_bytes() {
    let user = User { name: "Peti".into(), age: 34 };
    assert_eq!(sha1_signature(&user).unwrap(), sign_bytes(&user.to_canonical()));
    assert_eq!(sha1_signature(&user).unwrap().len(), 40);
    let other = User { name: "Peti".into(), age: 35 };
    assert_ne!(sha1_signature(&user).unwrap(), sha1_signature(&other).unwrap());
    let commit = Commit::new_with(1, Timestamp { secs: -5, nanos: 7 }, "peti".into(), "c".into());
    assert_eq!(sha1_signature(&commit).unwrap(), sign_bytes(&commit.to_canonical_bytes()));
    let mut expected = Vec::new();
    expected.extend_from_slice(&1u128.to_le_bytes());
    expected.extend_from_slice(&4u64.to_le_bytes());
    expected.extend_from_slice(b"peti");
    expected.push(1);
    expected.extend_from_slice(&4u64.to_le_bytes());
    expected.extend_from_slice(&7u64.to_le_bytes());
    expected.extend_from_slice(&1u64.to_le_bytes());
    expected.extend_from_slice(b"c");
    expected.extend_from_slice(&0u128.to_le_bytes());
    expected.extend_from_slice(&0u64.to_le_bytes());
    expected.push(0);
    assert_eq!(commit.to_canonical_bytes(), expected);
}

#[test]
fn an_envelope_is_written_field_by_field() {
    let action = UniversalActionObject {
        id: 2,
        storage_id: "demo".into(),
        object_id: 3,
        uid: "peti".into(),
        dtime: Timestamp { secs: 9, nanos: 1 },
        commit_id: Some(4),
        parent_action_id: None,
        action: ActionPayload { is_create: true, bytes: b"xyz".to_vec() },
        object_signature: "ab".into(),
        remote_signature: Some("cd".into()),
    };
    let mut expected = Vec::new();
    expected.extend_from_slice(&2u128.to_le_bytes());
    expected.extend_from_slice(&4u64.to_le_bytes());
    expected.extend_from_slice(b"demo");
    expected.extend_from_slice(&3u128.to_le_bytes());
    expected.extend_from_slice(&4u64.to_le_bytes());
    expected.extend_from_slice(b"peti");
    expected.push(0);
    expected.extend_from_slice(&9u64.to_le_bytes());
    expected.extend_from_slice(&1u64.to_le_bytes());
    expected.push(1);
    expected.extend_from_slice(&4u128.to_le_bytes());
    expected.push(0);
    expected.push(1);
    expected.extend_from_slice(&3u64.to_le_bytes());
    expected.extend_from_slice(b"xyz");
    expected.extend_from_slice(&2u64.to_le_bytes());
    expected.extend_from_slice(b"ab");
    let mut unsigned = expected.clone();
    expected.push(1);
    expected.extend_from_slice(&2u64.to_le_bytes());
    expected.extend_from_slice(b"cd");
    unsigned.push(0);
    assert_eq!(action.to_canonical_bytes(), expected);
    assert_eq!(action.to_canonical(), expected);
    assert_eq!(action.signing_bytes(), unsigned);
    assert!(!action.has_valid_remote_signature());
    let mut signed = action.copy();
    signed.remote_signature = Some(sign_bytes(&unsigned));
    assert!(signed.has_valid_remote_signature());
}
