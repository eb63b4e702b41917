use mailbox::decode::decode_params;
use mailbox::encode::encode_params;
use mailbox::errors::DispatchError;
use mailbox::mailbox::{
    DeliveredReturn, Dispatch1Call, Mailbox, MailboxCalls, MailboxEvents, ProcessedAtReturn,
    QuoteDispatchReturn, VersionReturn,
};
use mailbox::types::AbiType;
use mailbox::value::AbiValue;

fn word(n: u64) -> Vec<u8> {
    let mut w = vec![0u8; 32];
    w[24..].copy_from_slice(&n.to_be_bytes());
    w
}

fn b32(last: u8) -> Vec<u8> {
    let mut w = vec![0u8; 32];
    w[31] = last;
    w
}

fn addr(last: u8) -> Vec<u8> {
    let mut a = vec![0u8; 20];
    a[19] = last;
    a
}

fn topic_of_addr(a: &[u8]) -> Vec<u8> {
    let mut t = vec![0u8; 12];
    t.extend_from_slice(a);
    t
}

#[test]
fn mailbox_selectors_match_the_contract() {
    let mb = Mailbox::new();
    let expected: [[u8; 4]; 26] = [
        [255, 161, 173, 116],
        [61, 18, 80, 183],
        [110, 95, 81, 110],
        [228, 149, 241, 212],
        [130, 234, 123, 254],
        [16, 184, 61, 192],
        [72, 174, 232, 212],
        [250, 49, 222, 1],
        [248, 200, 118, 94],
        [19, 79, 187, 79],
        [141, 54, 56, 244],
        [175, 254, 208, 224],
        [141, 165, 203, 91],
        [124, 57, 209, 48],
        [7, 162, 253, 161],
        [93, 31, 229, 169],
        [129, 210, 234, 149],
        [156, 66, 189, 24],
        [247, 204, 211, 33],
        [231, 15, 72, 172],
        [113, 80, 24, 166],
        [214, 208, 138, 9],
        [153, 176, 72, 9],
        [247, 148, 104, 122],
        [20, 38, 183, 244],
        [242, 253, 227, 139],
    ];
    assert_eq!(mb.calls.schemas.len(), 26);
    for (i, sel) in expected.iter().enumerate() {
        assert_eq!(mb.calls.schemas[i].selector, sel.to_vec(), "schema {}", i);
    }
}

#[test]
fn mailbox_topics_match_the_contract() {
    let mb = Mailbox::new();
    let dispatch_topic =
        ethers_core::utils::keccak256("Dispatch(address,uint32,bytes32,bytes)".as_bytes());
    assert_eq!(mb.dispatch_filter().topic0, dispatch_topic.to_vec());
    let process_topic = ethers_core::utils::keccak256("Process(uint32,bytes32,address)".as_bytes());
    assert_eq!(mb.process_filter().topic0, process_topic.to_vec());
    let init_topic = ethers_core::utils::keccak256("Initialized(uint8)".as_bytes());
    assert_eq!(mb.initialized_filter().topic0, init_topic.to_vec());
}

#[test]
fn dispatch_calldata_has_the_documented_layout() {
    let mb = Mailbox::new();
    let data = mb.dispatch_0(7, &b32(1), &b"hi".to_vec()).unwrap();
    // selector, two static head words, the offset past the head, the
    // length, and the padded content.
    let mut expected = vec![250, 49, 222, 1];
    expected.extend_from_slice(&word(7));
    expected.extend_from_slice(&b32(1));
    expected.extend_from_slice(&word(96));
    expected.extend_from_slice(&word(2));
    let mut tail = b"hi".to_vec();
    tail.resize(32, 0);
    expected.extend_from_slice(&tail);
    assert_eq!(data, expected);
}

#[test]
fn calldata_round_trips_through_the_multiplexer() {
    let mb = Mailbox::new();
    let data = mb
        .dispatch_2(
            77,
            &b32(9),
            &b"payload".to_vec(),
            &b"meta".to_vec(),
            &addr(3),
        )
        .unwrap();
    match MailboxCalls::decode(&mb, &data).unwrap() {
        MailboxCalls::Dispatch2(c) => {
            assert_eq!(c.destination_domain, 77);
            assert_eq!(c.recipient_address, b32(9));
            assert_eq!(c.message_body, b"payload".to_vec());
            assert_eq!(c.metadata, b"meta".to_vec());
            assert_eq!(c.hook, addr(3));
        }
        other => panic!("wrong variant: {:?}", other),
    }
}

#[test]
fn typed_encode_round_trips_through_decode() {
    let mb = Mailbox::new();
    let call = Dispatch1Call {
        destination_domain: 5,
        recipient_address: b32(2),
        message_body: b"abc".to_vec(),
        hook_metadata: Vec::new(),
    };
    let data = MailboxCalls::Dispatch1(call).encode().unwrap();
    match MailboxCalls::decode(&mb, &data).unwrap() {
        MailboxCalls::Dispatch1(c) => {
            assert_eq!(c.destination_domain, 5);
            assert_eq!(c.recipient_address, b32(2));
            assert_eq!(c.message_body, b"abc".to_vec());
            assert_eq!(c.hook_metadata, Vec::<u8>::new());
        }
        other => panic!("wrong variant: {:?}", other),
    }
}

#[test]
fn nullary_calls_decode_by_selector() {
    let mb = Mailbox::new();
    let data = mb.version().unwrap();
    assert_eq!(data, vec![255, 161, 173, 116]);
    assert!(matches!(
        MailboxCalls::decode(&mb, &data).unwrap(),
        MailboxCalls::Version(_)
    ));
    let data = mb.nonce().unwrap();
    assert!(matches!(
        MailboxCalls::decode(&mb, &data).unwrap(),
        MailboxCalls::Nonce(_)
    ));
}

#[test]
fn unknown_selector_is_no_matching_schema() {
    let mb = Mailbox::new();
    let mut data = vec![1, 2, 3, 4];
    data.extend_from_slice(&word(0));
    assert_eq!(
        MailboxCalls::decode(&mb, &data),
        Err(DispatchError::NoMatchingSchema)
    );
    assert_eq!(
        MailboxCalls::decode(&mb, &[1, 2]),
        Err(DispatchError::NoMatchingSchema)
    );
}

#[test]
fn dispatch_event_splits_indexed_and_data_fields() {
    let mb = Mailbox::new();
    let sender = addr(0xAA);
    let message = b"hello".to_vec();
    let topics = vec![
        mb.dispatch_filter().topic0.clone(),
        topic_of_addr(&sender),
        word(42),
        b32(7),
    ];
    let data = encode_params(&vec![AbiType::Bytes], &vec![AbiValue::Bytes(message.clone())])
        .unwrap();
    match MailboxEvents::decode_log(&mb, &topics, &data).unwrap() {
        MailboxEvents::DispatchFilter(e) => {
            assert_eq!(e.sender, sender);
            assert_eq!(e.destination, 42);
            assert_eq!(e.recipient, b32(7));
            assert_eq!(e.message, message);
        }
        other => panic!("wrong variant: {:?}", other),
    }
}

#[test]
fn initialized_event_reads_its_data_field() {
    let mb = Mailbox::new();
    let topics = vec![mb.initialized_filter().topic0.clone()];
    let data = encode_params(&vec![AbiType::Uint(8)], &vec![AbiValue::Uint(vec![3])]).unwrap();
    match MailboxEvents::decode_log(&mb, &topics, &data).unwrap() {
        MailboxEvents::InitializedFilter(e) => assert_eq!(e.version, 3),
        other => panic!("wrong variant: {:?}", other),
    }
}

#[test]
fn unknown_topic_and_malformed_log_are_distinguished() {
    let mb = Mailbox::new();
    let topics = vec![vec![0u8; 32]];
    assert_eq!(
        MailboxEvents::decode_log(&mb, &topics, &[]),
        Err(DispatchError::NoMatchingSchema)
    );
    // A known topic with too few indexed topics is a decoding failure.
    let topics = vec![mb.dispatch_filter().topic0.clone()];
    assert!(matches!(
        MailboxEvents::decode_log(&mb, &topics, &[]),
        Err(DispatchError::Decoding(_))
    ));
}

#[test]
fn surplus_topics_are_rejected() {
    // Dispatch has three indexed fields, so exactly four topics fit; a
    // fifth topic is a topics-count mismatch even when the data payload
    // is well formed.
    let mb = Mailbox::new();
    let sender = addr(0xAA);
    let topics = vec![
        mb.dispatch_filter().topic0.clone(),
        topic_of_addr(&sender),
        word(42),
        b32(7),
        word(99),
    ];
    let data = encode_params(
        &vec![AbiType::Bytes],
        &vec![AbiValue::Bytes(b"hello".to_vec())],
    )
    .unwrap();
    assert!(matches!(
        MailboxEvents::decode_log(&mb, &topics, &data),
        Err(DispatchError::Decoding(_))
    ));
}

#[test]
fn return_values_decode() {
    let v = VersionReturn::decode(&encode_params(
        &vec![AbiType::Uint(8)],
        &vec![AbiValue::Uint(vec![3])],
    )
    .unwrap())
    .unwrap();
    assert_eq!(v.0, 3);
    let fee = QuoteDispatchReturn::decode(&word(1000)).unwrap();
    assert_eq!(fee.fee, word(1000));
    let delivered = DeliveredReturn::decode(&word(1)).unwrap();
    assert!(delivered.0);
    let at = ProcessedAtReturn::decode(&word(123_456)).unwrap();
    assert_eq!(at.0, 123_456);
}

#[test]
fn return_decode_rejects_short_data() {
    assert!(VersionReturn::decode(&[0u8; 31]).is_err());
    assert!(QuoteDispatchReturn::decode(&[]).is_err());
}

#[test]
fn repeated_initialization_builds_identical_registries() {
    let a = Mailbox::new();
    let b = Mailbox::new();
    assert_eq!(a.calls.schemas.len(), b.calls.schemas.len());
    for i in 0..a.calls.schemas.len() {
        assert_eq!(a.calls.schemas[i].name, b.calls.schemas[i].name);
        assert_eq!(a.calls.schemas[i].selector, b.calls.schemas[i].selector);
        assert_eq!(a.calls.schemas[i].outputs, b.calls.schemas[i].outputs);
        assert_eq!(
            a.calls.schemas[i].mutability,
            b.calls.schemas[i].mutability
        );
        assert_eq!(
            a.calls.schemas[i].inputs.len(),
            b.calls.schemas[i].inputs.len()
        );
        for j in 0..a.calls.schemas[i].inputs.len() {
            assert_eq!(
                a.calls.schemas[i].inputs[j].name,
                b.calls.schemas[i].inputs[j].name
            );
            assert_eq!(
                a.calls.schemas[i].inputs[j].ty,
                b.calls.schemas[i].inputs[j].ty
            );
        }
    }
    assert_eq!(a.events.events.len(), b.events.events.len());
    for i in 0..a.events.events.len() {
        assert_eq!(a.events.events[i].name, b.events.events[i].name);
        assert_eq!(a.events.events[i].topic0, b.events.events[i].topic0);
    }
}

#[test]
fn overloads_resolve_to_distinct_schemas() {
    let mb = Mailbox::new();
    let three = mb.dispatch_0(1, &b32(1), &b"x".to_vec()).unwrap();
    let four = mb
        .dispatch_1(1, &b32(1), &b"x".to_vec(), &b"y".to_vec())
        .unwrap();
    let five = mb
        .dispatch_2(1, &b32(1), &b"x".to_vec(), &b"y".to_vec(), &addr(1))
        .unwrap();
    assert!(matches!(
        MailboxCalls::decode(&mb, &three).unwrap(),
        MailboxCalls::Dispatch0(_)
    ));
    assert!(matches!(
        MailboxCalls::decode(&mb, &four).unwrap(),
        MailboxCalls::Dispatch1(_)
    ));
    assert!(matches!(
        MailboxCalls::decode(&mb, &five).unwrap(),
        MailboxCalls::Dispatch2(_)
    ));
}

#[test]
fn call_structs_convert_into_the_call_enum() {
    let c: MailboxCalls = mailbox::mailbox::NonceCall.into();
    assert!(matches!(c, MailboxCalls::Nonce(_)));
    let c = MailboxCalls::from(mailbox::mailbox::DeliveredCall { id: b32(5) });
    match c {
        MailboxCalls::Delivered(d) => assert_eq!(d.id, b32(5)),
        other => panic!("wrong variant: {:?}", other),
    }
}

#[test]
fn decode_params_reads_reference_encodings() {
    // Data produced by the reference encoder decodes to the same values.
    let theirs = ethers_core::abi::encode(&[
        ethers_core::abi::Token::Uint(ethers_core::types::U256::from(9u64)),
        ethers_core::abi::Token::Bytes(vec![1, 2, 3]),
    ]);
    let ts = vec![AbiType::Uint(256), AbiType::Bytes];
    let vs = decode_params(&ts, &theirs).unwrap();
    assert_eq!(
        vs,
        vec![AbiValue::Uint(word(9)), AbiValue::Bytes(vec![1, 2, 3])]
    );
}
