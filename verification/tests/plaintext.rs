use atomic_store::codec::Codec;
use atomic_store::error::StoreError;
use atomic_store::plaintext::{Member, Plaintext};

const ITERATIONS: u32 = 1000;

/// A small deterministic generator of bytes.
struct Bytes(u64);

impl Bytes {
    fn next(&mut self) -> u8 {
        self.0 = self.0.wrapping_mul(6364136223846793005).wrapping_add(1442695040888963407);
        (self.0 >> 33) as u8
    }

    fn take(&mut self, n: usize) -> Vec<u8> {
        (0..n).map(|_| self.next()).collect()
    }
}

/// The bytes of a literal: the number of its kind, then its payload.
fn literal(kind: u16, payload: Vec<u8>) -> Plaintext {
    let mut bytes = kind.to_le_bytes().to_vec();
    bytes.extend(payload);
    Plaintext::Literal(bytes)
}

fn check_bytes(expected: Plaintext) {
    // Check the byte representation.
    let expected_bytes = expected.to_bytes_le().unwrap();
    assert_eq!(expected, Plaintext::read_le(&expected_bytes[..]).unwrap());
}

fn sample_struct() -> Plaintext {
    let owner = literal(0, (1..=32).collect());
    let token_amount = literal(12, 100u64.to_le_bytes().to_vec());
    Plaintext::Struct(vec![
        Member { name: b"owner".to_vec(), value: owner },
        Member { name: b"token_amount".to_vec(), value: token_amount },
    ])
}

#[test]
fn test_bytes() {
    let rng = &mut Bytes(7);

    for _ in 0..ITERATIONS {
        // Address
        check_bytes(literal(0, rng.take(32)));
        // Boolean
        check_bytes(literal(1, vec![rng.next() & 1]));
        // Field
        check_bytes(literal(2, rng.take(32)));
        // Group
        check_bytes(literal(3, rng.take(32)));
        // I8
        check_bytes(literal(4, rng.take(1)));
        // I16
        check_bytes(literal(5, rng.take(2)));
        // I32
        check_bytes(literal(6, rng.take(4)));
        // I64
        check_bytes(literal(7, rng.take(8)));
        // I128
        check_bytes(literal(8, rng.take(16)));
        // U8
        check_bytes(literal(9, rng.take(1)));
        // U16
        check_bytes(literal(10, rng.take(2)));
        // U32
        check_bytes(literal(11, rng.take(4)));
        // U64
        check_bytes(literal(12, rng.take(8)));
        // U128
        check_bytes(literal(13, rng.take(16)));
        // Scalar
        check_bytes(literal(14, rng.take(32)));
        // String
        let text = "hello, world".as_bytes().to_vec();
        let mut payload = (text.len() as u16).to_le_bytes().to_vec();
        payload.extend(text);
        check_bytes(literal(15, payload));
    }

    // Lastly check the struct manually.
    let expected = sample_struct();

    // Check the byte representation.
    let expected_bytes = expected.to_bytes_le().unwrap();
    assert_eq!(expected, Plaintext::read_le(&expected_bytes[..]).unwrap());
    assert!(Plaintext::read_le(&expected_bytes[1..]).is_err());
}

#[test]
fn test_literal_bytes_are_tag_and_payload() {
    let value = Plaintext::Literal(vec![9, 0, 200]);
    assert_eq!(value.to_bytes_le().unwrap(), vec![0, 9, 0, 200]);
    assert_eq!(Plaintext::read_le(&[0, 9, 0, 200]).unwrap(), value);
    // An empty literal is a lone tag.
    assert_eq!(Plaintext::Literal(vec![]).to_bytes_le().unwrap(), vec![0]);
    assert_eq!(Plaintext::read_le(&[0]).unwrap(), Plaintext::Literal(vec![]));
}

#[test]
fn test_struct_bytes_are_exact() {
    let value = Plaintext::Struct(vec![
        Member { name: b"a".to_vec(), value: Plaintext::Literal(vec![7]) },
        Member {
            name: b"bc".to_vec(),
            value: Plaintext::Struct(vec![Member {
                name: b"d".to_vec(),
                value: Plaintext::Literal(vec![]),
            }]),
        },
    ]);
    let expected: Vec<u8> = vec![
        1, 2, // a struct of two members
        1, b'a', 2, 0, 0, 7, // "a": a body of two bytes, the literal 7
        2, b'b', b'c', 7, 0, // "bc": a body of seven bytes
        1, 1, 1, b'd', 1, 0, 0, // the inner struct with its member "d"
    ];
    assert_eq!(value.to_bytes_le().unwrap(), expected);
    assert_eq!(Plaintext::read_le(&expected).unwrap(), value);
}

#[test]
fn test_write_le_appends_to_the_sink() {
    let mut sink = vec![42u8];
    Plaintext::Literal(vec![1, 2]).write_le(&mut sink).unwrap();
    assert_eq!(sink, vec![42, 0, 1, 2]);
}

#[test]
fn test_write_le_leaves_the_sink_on_failure() {
    let twice = Plaintext::Struct(vec![
        Member { name: b"x".to_vec(), value: Plaintext::Literal(vec![]) },
        Member { name: b"x".to_vec(), value: Plaintext::Literal(vec![]) },
    ]);
    let mut sink = vec![42u8];
    assert_eq!(twice.write_le(&mut sink), Err(StoreError::Serialize));
    assert_eq!(sink, vec![42]);
}

#[test]
fn test_every_truncation_of_struct_fails() {
    let expected_bytes = sample_struct().to_bytes_le().unwrap();
    // Dropping leading bytes never yields the struct again.
    for start in 1..expected_bytes.len() {
        let read = Plaintext::read_le(&expected_bytes[start..]);
        assert!(read.is_err() || read.unwrap() != sample_struct());
    }
    // Dropping trailing bytes of the last member is a short read, down to
    // the point where the last body would be empty.
    for end in 0..expected_bytes.len() {
        assert!(Plaintext::read_le(&expected_bytes[..end]).is_err());
    }
}

#[test]
fn test_empty_input_is_a_short_read() {
    assert_eq!(Plaintext::read_le(&[]), Err(StoreError::Deserialize));
    assert_eq!(Plaintext::read_le(&[1]), Err(StoreError::Deserialize));
    assert_eq!(Plaintext::read_le(&[1, 1]), Err(StoreError::Deserialize));
    assert_eq!(Plaintext::read_le(&[1, 1, 3, b'a']), Err(StoreError::Deserialize));
    assert_eq!(Plaintext::read_le(&[1, 1, 1, b'a', 5, 0, 0]), Err(StoreError::Deserialize));
}

#[test]
fn test_unknown_variant_names_the_tag() {
    assert_eq!(Plaintext::read_le(&[2]), Err(StoreError::UnknownVariant(2)));
    assert_eq!(Plaintext::read_le(&[255, 0, 0]), Err(StoreError::UnknownVariant(255)));
    // Also inside the body of a member.
    assert_eq!(
        Plaintext::read_le(&[1, 1, 1, b'a', 1, 0, 9]),
        Err(StoreError::UnknownVariant(9))
    );
}

#[test]
fn test_struct_with_too_many_members_is_oversized() {
    let members = |n: usize| -> Vec<Member> {
        (0..n)
            .map(|i| Member {
                name: (i as u16).to_le_bytes().to_vec(),
                value: Plaintext::Literal(vec![]),
            })
            .collect()
    };
    assert!(Plaintext::Struct(members(255)).to_bytes_le().is_ok());
    assert_eq!(
        Plaintext::Struct(members(256)).to_bytes_le(),
        Err(StoreError::OversizedContainer)
    );
    // The largest struct reads back.
    check_bytes(Plaintext::Struct(members(255)));
}

#[test]
fn test_body_that_is_too_long_is_oversized() {
    let member = |n: usize| Plaintext::Struct(vec![Member {
        name: b"m".to_vec(),
        value: Plaintext::Literal(vec![0; n]),
    }]);
    // The body is the tag and the literal.
    assert!(member(65534).to_bytes_le().is_ok());
    assert_eq!(member(65535).to_bytes_le(), Err(StoreError::OversizedContainer));
    check_bytes(member(65534));
}

#[test]
fn test_name_that_is_too_long_is_oversized() {
    let member = |n: usize| Plaintext::Struct(vec![Member {
        name: vec![b'n'; n],
        value: Plaintext::Literal(vec![]),
    }]);
    assert!(member(255).to_bytes_le().is_ok());
    assert_eq!(member(256).to_bytes_le(), Err(StoreError::OversizedContainer));
    check_bytes(member(255));
}

#[test]
fn test_shared_name_cannot_be_serialized() {
    let twice = Plaintext::Struct(vec![
        Member { name: b"x".to_vec(), value: Plaintext::Literal(vec![1]) },
        Member { name: b"y".to_vec(), value: Plaintext::Literal(vec![2]) },
        Member { name: b"x".to_vec(), value: Plaintext::Literal(vec![3]) },
    ]);
    assert_eq!(twice.to_bytes_le(), Err(StoreError::Serialize));
    assert_eq!(twice.encode(), None);
}

#[test]
fn test_repeated_name_keeps_its_place_and_takes_the_later_value() {
    let bytes: Vec<u8> = vec![
        1, 3, // three members
        1, b'x', 2, 0, 0, 1, // x = 1
        1, b'y', 2, 0, 0, 2, // y = 2
        1, b'x', 2, 0, 0, 3, // x = 3
    ];
    let expected = Plaintext::Struct(vec![
        Member { name: b"x".to_vec(), value: Plaintext::Literal(vec![3]) },
        Member { name: b"y".to_vec(), value: Plaintext::Literal(vec![2]) },
    ]);
    assert_eq!(Plaintext::read_le(&bytes).unwrap(), expected);
}

#[test]
fn test_bytes_after_a_struct_are_left_unread() {
    let bytes: Vec<u8> = vec![1, 1, 1, b'x', 1, 0, 0, 99, 99];
    let expected = Plaintext::Struct(vec![Member {
        name: b"x".to_vec(),
        value: Plaintext::Literal(vec![]),
    }]);
    assert_eq!(Plaintext::read_le(&bytes).unwrap(), expected);
}

#[test]
fn test_plaintext_codec_agrees_with_read_and_write() {
    let bytes = sample_struct().encode().unwrap();
    assert_eq!(bytes, sample_struct().to_bytes_le().unwrap());
    assert_eq!(Plaintext::decode(&bytes), Some(sample_struct()));
    assert_eq!(Plaintext::decode(&[7]), None);
}
