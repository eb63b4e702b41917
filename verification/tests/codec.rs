use mailbox::decode::decode_params;
use mailbox::encode::encode_params;
use mailbox::errors::{DecodingError, EncodingError, SchemaError};
use mailbox::keccak::selector_x;
use mailbox::schema::{Mutability, Param, SchemaRegistry};
use mailbox::signature::canon_ty_x;
use mailbox::types::AbiType;
use mailbox::value::AbiValue;

fn word(n: u64) -> Vec<u8> {
    let mut w = vec![0u8; 32];
    w[24..].copy_from_slice(&n.to_be_bytes());
    w
}

fn b32(last: u8) -> Vec<u8> {
    let mut w = vec![0u8; 32];
    w[31] = last;
    w
}

fn addr(last: u8) -> Vec<u8> {
    let mut a = vec![0u8; 20];
    a[19] = last;
    a
}

#[test]
fn roundtrip_static_values() {
    let ts = vec![
        AbiType::Uint(32),
        AbiType::Bool,
        AbiType::Address,
        AbiType::FixedBytes(4),
    ];
    let vs = vec![
        AbiValue::Uint(vec![0, 0, 4, 210]),
        AbiValue::Bool(true),
        AbiValue::Address(addr(9)),
        AbiValue::FixedBytes(vec![0xde, 0xad, 0xbe, 0xef]),
    ];
    let data = encode_params(&ts, &vs).unwrap();
    assert_eq!(data.len(), 4 * 32);
    let back = decode_params(&ts, &data).unwrap();
    assert_eq!(back, vs);
}

#[test]
fn roundtrip_dynamic_values() {
    let ts = vec![
        AbiType::Bytes,
        AbiType::Str,
        AbiType::Array(Box::new(AbiType::Uint(16))),
    ];
    let vs = vec![
        AbiValue::Bytes(vec![1, 2, 3, 4, 5]),
        AbiValue::Str(b"hello world".to_vec()),
        AbiValue::Array(vec![
            AbiValue::Uint(vec![0, 7]),
            AbiValue::Uint(vec![1, 0]),
            AbiValue::Uint(vec![255, 255]),
        ]),
    ];
    let data = encode_params(&ts, &vs).unwrap();
    let back = decode_params(&ts, &data).unwrap();
    assert_eq!(back, vs);
}

#[test]
fn roundtrip_nested_values() {
    let ts = vec![
        AbiType::Tuple(vec![AbiType::Uint(8), AbiType::Bytes]),
        AbiType::FixedArray(Box::new(AbiType::Uint(8)), 3),
        AbiType::Array(Box::new(AbiType::Str)),
    ];
    let vs = vec![
        AbiValue::Tuple(vec![
            AbiValue::Uint(vec![42]),
            AbiValue::Bytes(vec![9, 8, 7]),
        ]),
        AbiValue::FixedArray(vec![
            AbiValue::Uint(vec![1]),
            AbiValue::Uint(vec![2]),
            AbiValue::Uint(vec![3]),
        ]),
        AbiValue::Array(vec![
            AbiValue::Str(b"ab".to_vec()),
            AbiValue::Str(b"".to_vec()),
            AbiValue::Str(b"xyz".to_vec()),
        ]),
    ];
    let data = encode_params(&ts, &vs).unwrap();
    let back = decode_params(&ts, &data).unwrap();
    assert_eq!(back, vs);
}

#[test]
fn encoding_matches_reference_library() {
    let ts = vec![AbiType::Uint(32), AbiType::FixedBytes(32), AbiType::Bytes];
    let vs = vec![
        AbiValue::Uint(vec![0, 0, 0, 7]),
        AbiValue::FixedBytes(b32(1)),
        AbiValue::Bytes(b"hi".to_vec()),
    ];
    let ours = encode_params(&ts, &vs).unwrap();
    let theirs = ethers_core::abi::encode(&[
        ethers_core::abi::Token::Uint(ethers_core::types::U256::from(7u64)),
        ethers_core::abi::Token::FixedBytes(b32(1)),
        ethers_core::abi::Token::Bytes(b"hi".to_vec()),
    ]);
    assert_eq!(ours, theirs);
}

#[test]
fn dynamic_encoding_matches_reference_library() {
    let ts = vec![
        AbiType::Array(Box::new(AbiType::Uint(256))),
        AbiType::Str,
        AbiType::Bool,
    ];
    let vs = vec![
        AbiValue::Array(vec![AbiValue::Uint(word(5)), AbiValue::Uint(word(6))]),
        AbiValue::Str(b"verified".to_vec()),
        AbiValue::Bool(false),
    ];
    let ours = encode_params(&ts, &vs).unwrap();
    let theirs = ethers_core::abi::encode(&[
        ethers_core::abi::Token::Array(vec![
            ethers_core::abi::Token::Uint(ethers_core::types::U256::from(5u64)),
            ethers_core::abi::Token::Uint(ethers_core::types::U256::from(6u64)),
        ]),
        ethers_core::abi::Token::String("verified".to_string()),
        ethers_core::abi::Token::Bool(false),
    ]);
    assert_eq!(ours, theirs);
}

#[test]
fn truncated_content_fails_to_decode() {
    let ts = vec![AbiType::Bytes];
    let vs = vec![AbiValue::Bytes(vec![7; 40])];
    let data = encode_params(&ts, &vs).unwrap();
    // Cut into the declared 40 content bytes: 32 (head) + 32 (length) + 39.
    let cut = &data[..32 + 32 + 39];
    assert!(decode_params(&ts, cut).is_err());
    // Cutting into the length word itself fails too.
    assert!(decode_params(&ts, &data[..40]).is_err());
    // The untouched buffer still decodes.
    assert_eq!(decode_params(&ts, &data).unwrap(), vs);
}

#[test]
fn offset_out_of_range_is_rejected() {
    let ts = vec![AbiType::Bytes];
    let data = word(4096);
    assert_eq!(
        decode_params(&ts, &data),
        Err(DecodingError::OffsetOutOfRange)
    );
}

#[test]
fn short_data_is_rejected() {
    let ts = vec![AbiType::Uint(32)];
    let data = vec![0u8; 31];
    assert_eq!(decode_params(&ts, &data), Err(DecodingError::TooShort));
}

#[test]
fn length_overrun_is_rejected() {
    let ts = vec![AbiType::Bytes];
    let mut data = word(32);
    data.extend_from_slice(&word(33));
    data.extend_from_slice(&[0u8; 32]);
    assert_eq!(
        decode_params(&ts, &data),
        Err(DecodingError::LengthOutOfRange)
    );
}

#[test]
fn illegal_descriptors_are_rejected_at_construction() {
    assert_eq!(AbiType::uint(0), Err(SchemaError::IllegalBitWidth));
    assert_eq!(AbiType::uint(7), Err(SchemaError::IllegalBitWidth));
    assert_eq!(AbiType::uint(264), Err(SchemaError::IllegalBitWidth));
    assert!(AbiType::uint(256).is_ok());
    assert_eq!(AbiType::sint(12), Err(SchemaError::IllegalBitWidth));
    assert_eq!(AbiType::fixed_bytes(0), Err(SchemaError::IllegalByteLength));
    assert_eq!(AbiType::fixed_bytes(33), Err(SchemaError::IllegalByteLength));
    assert!(AbiType::fixed_bytes(32).is_ok());
    assert_eq!(
        AbiType::fixed_array(AbiType::Bool, 0),
        Err(SchemaError::IllegalArrayLength)
    );
}

#[test]
fn shape_mismatch_is_rejected_by_the_encoder() {
    let ts = vec![AbiType::Bool];
    let vs = vec![AbiValue::Uint(vec![1])];
    assert_eq!(
        encode_params(&ts, &vs),
        Err(EncodingError::ShapeMismatch)
    );
    let ts2 = vec![AbiType::Address];
    let vs2 = vec![AbiValue::Address(vec![1, 2, 3])];
    assert_eq!(
        encode_params(&ts2, &vs2),
        Err(EncodingError::ShapeMismatch)
    );
}

#[test]
fn canonical_rendering() {
    assert_eq!(canon_ty_x(&AbiType::Uint(256)), b"uint256".to_vec());
    assert_eq!(canon_ty_x(&AbiType::Address), b"address".to_vec());
    assert_eq!(canon_ty_x(&AbiType::FixedBytes(32)), b"bytes32".to_vec());
    assert_eq!(
        canon_ty_x(&AbiType::FixedArray(Box::new(AbiType::Uint(256)), 3)),
        b"uint256[3]".to_vec()
    );
    assert_eq!(
        canon_ty_x(&AbiType::Array(Box::new(AbiType::Str))),
        b"string[]".to_vec()
    );
    assert_eq!(
        canon_ty_x(&AbiType::Tuple(vec![AbiType::Uint(32), AbiType::Bytes])),
        b"(uint32,bytes)".to_vec()
    );
}

#[test]
fn selector_matches_reference_library() {
    let ts = vec![AbiType::Uint(32), AbiType::FixedBytes(32), AbiType::Bytes];
    let sel = selector_x(&b"dispatch".to_vec(), &ts);
    let reference = ethers_core::utils::id("dispatch(uint32,bytes32,bytes)");
    assert_eq!(sel, reference.to_vec());
    assert_eq!(sel, vec![250, 49, 222, 1]);
}

#[test]
fn registry_keeps_collisions_in_registration_order() {
    let mut reg = SchemaRegistry::new();
    let s1 = reg
        .register(
            b"dispatch".to_vec(),
            vec![Param {
                name: b"a".to_vec(),
                ty: AbiType::Uint(32),
            }],
            Vec::new(),
            Mutability::Payable,
        )
        .unwrap();
    let s2 = reg
        .register(
            b"dispatch".to_vec(),
            vec![Param {
                name: b"b".to_vec(),
                ty: AbiType::Uint(32),
            }],
            Vec::new(),
            Mutability::Payable,
        )
        .unwrap();
    // Same canonical signature: the selectors collide by construction,
    // and both entries stay reachable, in order.
    assert_eq!(s1, s2);
    assert_eq!(reg.lookup(&s1), Some(0));
    assert_eq!(reg.lookup_all(&s1), vec![0, 1]);
}

#[test]
fn multiplexer_takes_first_structurally_valid_candidate() {
    let mut reg = SchemaRegistry::new();
    let sel_one = reg
        .register(
            b"dispatch".to_vec(),
            vec![Param {
                name: b"a".to_vec(),
                ty: AbiType::Uint(32),
            }],
            Vec::new(),
            Mutability::Payable,
        )
        .unwrap();
    let sel_two = reg
        .register(
            b"dispatch".to_vec(),
            vec![
                Param {
                    name: b"a".to_vec(),
                    ty: AbiType::Uint(32),
                },
                Param {
                    name: b"b".to_vec(),
                    ty: AbiType::FixedBytes(32),
                },
            ],
            Vec::new(),
            Mutability::Payable,
        )
        .unwrap();
    // One padded word after the one-argument selector: the one-argument
    // schema decodes; the two-argument schema would need two words.
    let mut data = sel_one.clone();
    data.extend_from_slice(&word(5));
    let hit = reg.decode_call(&data).unwrap();
    assert_eq!(hit.schema, 0);
    assert_eq!(hit.values, vec![AbiValue::Uint(vec![0, 0, 0, 5])]);
    // The same single word behind the two-argument selector satisfies no
    // candidate: a spurious partial decode is not accepted.
    let mut short = sel_two.clone();
    short.extend_from_slice(&word(5));
    assert!(reg.decode_call(&short).is_err());
}
