use ed25519_dalek::{Keypair, PublicKey, SecretKey, Signature, Signer, Verifier};
use sha2::Digest;
use ton_abi::cell::{serialize_tree, BuilderData, SliceData};
use ton_abi::errors::AbiErrorKind;
use ton_abi::function::{Event, Function};
use ton_abi::token::{Param, ParamType, Token, TokenValue};

fn transfer() -> Function {
    Function::new(
        "transfer",
        vec![Param::new("amount", ParamType::Uint(128))],
        vec![Param::new("success", ParamType::Bool)],
        false,
    )
}

fn amount_tokens(v: u128) -> Vec<Token> {
    vec![Token::new("amount", TokenValue::Uint { size: 128, value: v })]
}

fn bits_to_bytes(bits: &[bool]) -> Vec<u8> {
    assert_eq!(bits.len() % 8, 0);
    bits.chunks(8)
        .map(|c| c.iter().fold(0u8, |acc, b| acc * 2 + (*b as u8)))
        .collect()
}

#[test]
fn transfer_signature_string() {
    let f = transfer();
    assert_eq!(f.get_function_signature(), "transfer(uint128)(bool)");
}

#[test]
fn identifier_is_leading_word_of_digest() {
    // SHA-256 of the empty string starts with e3 b0 c4 42.
    assert_eq!(Function::calc_function_id(""), 0xe3b0c442);
    let f = transfer();
    let digest = sha2::Sha256::digest("transfer(uint128)(bool)".as_bytes());
    let expected = u32::from_be_bytes([digest[0], digest[1], digest[2], digest[3]]);
    assert_eq!(f.id, expected);
}

#[test]
fn identifier_depends_on_signature_alone() {
    let a = transfer();
    let b = transfer();
    assert_eq!(a.get_function_id(), b.get_function_id());
    assert_eq!(
        Function::calc_function_id("transfer(uint128)(bool)"),
        Function::calc_function_id("transfer(uint128)(bool)")
    );
    assert_ne!(
        Function::calc_function_id("transfer(uint128)(bool)"),
        Function::calc_function_id("transfer(uint64)(bool)")
    );
}

#[test]
fn direction_bits() {
    let f = transfer();
    assert_eq!(f.get_input_id() & 0x80000000, 0);
    assert_eq!(f.get_output_id() & 0x80000000, 0x80000000);
    // The two differ only in the top bit.
    assert_eq!(f.get_input_id() | 0x80000000, f.get_output_id());
    assert_eq!(f.get_input_id() & 0x7FFFFFFF, f.get_output_id() & 0x7FFFFFFF);
}

#[test]
fn transfer_round_trip() {
    let f = transfer();
    let body = f.encode_input(&amount_tokens(1000), None).unwrap();
    // The reserved slot is an explicit empty sub-tree.
    assert_eq!(body.refs.len(), 1);
    assert!(body.refs[0].bits.is_empty());
    let tokens = f.decode_input(SliceData::from_builder(body)).unwrap();
    assert_eq!(tokens.len(), 1);
    assert_eq!(tokens[0].name, "amount");
    assert_eq!(tokens[0].value, TokenValue::Uint { size: 128, value: 1000 });
}

#[test]
fn round_trip_many_types() {
    let f = Function::new(
        "poke",
        vec![
            Param::new("a", ParamType::Uint(8)),
            Param::new("b", ParamType::Bool),
            Param::new("c", ParamType::Uint(64)),
        ],
        vec![],
        false,
    );
    let tokens = vec![
        Token::new("a", TokenValue::Uint { size: 8, value: 0xAB }),
        Token::new("b", TokenValue::Bool(true)),
        Token::new("c", TokenValue::Uint { size: 64, value: u64::MAX as u128 }),
    ];
    let body = f.encode_input(&tokens, None).unwrap();
    let out = f.decode_input(SliceData::from_builder(body)).unwrap();
    assert_eq!(out.len(), 3);
    for (t, o) in tokens.iter().zip(out.iter()) {
        assert_eq!(t.name, o.name);
        assert_eq!(t.value, o.value);
    }
}

#[test]
fn signed_round_trip() {
    let f = transfer();
    let secret = SecretKey::from_bytes(&[7u8; 32]).unwrap();
    let public = PublicKey::from(&secret);
    let pair = Keypair { secret, public };
    let tokens = amount_tokens(77);

    let (_, hash) = f.prepare_input_for_sign(&tokens).unwrap();
    let body = f.encode_input(&tokens, Some(&pair)).unwrap();
    // The slot holds the 64-byte signature followed by the 32-byte key.
    assert_eq!(body.refs.len(), 1);
    assert_eq!(body.refs[0].bits.len(), 96 * 8);
    let blob = bits_to_bytes(&body.refs[0].bits);
    assert_eq!(&blob[64..], &pair.public.to_bytes());
    let sig = Signature::from_bytes(&blob[..64]).unwrap();
    pair.public.verify(&hash, &sig).unwrap();

    // Decoding strips the slot without altering the recovered arguments.
    let out = f.decode_input(SliceData::from_builder(body)).unwrap();
    assert_eq!(out.len(), 1);
    assert_eq!(out[0].value, TokenValue::Uint { size: 128, value: 77 });
}

#[test]
fn attach_signature_after_the_fact() {
    let f = transfer();
    let tokens = amount_tokens(5);
    let (body, hash) = f.prepare_input_for_sign(&tokens).unwrap();
    let secret = SecretKey::from_bytes(&[9u8; 32]).unwrap();
    let public = PublicKey::from(&secret);
    let pair = Keypair { secret, public };
    let sig = pair.sign(&hash).to_bytes();
    let pk = pair.public.to_bytes();
    let signed =
        Function::add_sign_to_encoded_input(&sig, &pk, SliceData::from_builder(body)).unwrap();
    assert_eq!(signed.refs.len(), 1);
    assert_eq!(signed.refs[0].bits.len(), 96 * 8);
    let out = f.decode_input(SliceData::from_builder(signed)).unwrap();
    assert_eq!(out[0].value, TokenValue::Uint { size: 128, value: 5 });
}

#[test]
fn attach_signature_needs_a_slot() {
    let empty = BuilderData::new();
    let r = Function::add_sign_to_encoded_input(&[0u8; 64], &[0u8; 32], SliceData::from_builder(empty));
    assert!(matches!(r, Err(AbiErrorKind::InvalidInputData(_))));
}

#[test]
fn content_hash_commits_to_body_without_slot() {
    let f = transfer();
    let tokens = amount_tokens(123456789);
    let (body, hash) = f.prepare_input_for_sign(&tokens).unwrap();
    let preimage = serialize_tree(&body.bits, &body.refs, 1);
    let expected = sha2::Sha256::digest(&preimage);
    assert_eq!(hash.as_slice(), expected.as_slice());
    // Preparing the same call again gives the same hash.
    let (_, hash2) = f.prepare_input_for_sign(&tokens).unwrap();
    assert_eq!(hash, hash2);
}

#[test]
fn wrong_parameter_type_is_rejected_before_writing() {
    let f = transfer();
    let bad = vec![Token::new("amount", TokenValue::Uint { size: 64, value: 1 })];
    assert!(matches!(f.encode_input(&bad, None), Err(AbiErrorKind::WrongParameterType)));
    let bad2 = vec![Token::new("amount", TokenValue::Bool(true))];
    assert!(matches!(
        f.prepare_input_for_sign(&bad2),
        Err(AbiErrorKind::WrongParameterType)
    ));
}

#[test]
fn tampered_identifier_fails_with_wrong_id() {
    let f = transfer();
    for i in 0..32 {
        let mut body = f.encode_input(&amount_tokens(42), None).unwrap();
        body.bits[i] = !body.bits[i];
        let r = f.decode_input(SliceData::from_builder(body));
        match r {
            Err(AbiErrorKind::WrongId(actual)) => assert_ne!(actual, f.get_input_id()),
            other => panic!("expected WrongId, got {:?}", other.is_ok()),
        }
    }
}

#[test]
fn truncated_final_parameter_is_incomplete() {
    let f = Function::new(
        "pair",
        vec![Param::new("x", ParamType::Uint(32)), Param::new("y", ParamType::Uint(16))],
        vec![],
        false,
    );
    let tokens = vec![
        Token::new("x", TokenValue::Uint { size: 32, value: 7 }),
        Token::new("y", TokenValue::Uint { size: 16, value: 9 }),
    ];
    let mut body = f.encode_input(&tokens, None).unwrap();
    let cut = body.bits.len() - 16;
    body.bits.truncate(cut);
    let r = f.decode_input(SliceData::from_builder(body));
    assert!(matches!(r, Err(AbiErrorKind::IncompleteDeserializationError)));
}

#[test]
fn leftover_data_is_incomplete() {
    let f = transfer();
    let mut body = f.encode_input(&amount_tokens(1), None).unwrap();
    body.bits.push(false);
    let r = f.decode_input(SliceData::from_builder(body));
    assert!(matches!(r, Err(AbiErrorKind::IncompleteDeserializationError)));
}

#[test]
fn missing_signature_slot_is_invalid_input() {
    let f = transfer();
    let mut body = f.encode_input(&amount_tokens(1), None).unwrap();
    body.refs.clear();
    let r = f.decode_input(SliceData::from_builder(body));
    assert!(matches!(r, Err(AbiErrorKind::InvalidInputData(_))));
}

#[test]
fn matches_uses_the_raw_identifier() {
    // A stored identifier with the top bit set: the ownership check compares
    // it raw, while call decoding checks the masked input identifier.
    let f = Function {
        name: "probe".to_owned(),
        inputs: vec![],
        outputs: vec![],
        set_time: false,
        id: 0x80000001,
    };
    let mut raw = BuilderData::new();
    raw.append_u32(0x80000001);
    raw.prepend_reference(ton_abi::cell::Cell::empty());
    assert_eq!(
        f.is_my_message(SliceData::from_builder(raw)).unwrap(),
        true
    );
    let mut raw2 = BuilderData::new();
    raw2.append_u32(0x80000001);
    raw2.prepend_reference(ton_abi::cell::Cell::empty());
    // decode_input validates against the masked input identifier 0x00000001.
    let r = f.decode_input(SliceData::from_builder(raw2));
    assert!(matches!(r, Err(AbiErrorKind::WrongId(0x80000001))));

    let mut masked = BuilderData::new();
    masked.append_u32(0x00000001);
    masked.prepend_reference(ton_abi::cell::Cell::empty());
    assert_eq!(
        f.is_my_message(SliceData::from_builder(masked)).unwrap(),
        false
    );
    let mut masked2 = BuilderData::new();
    masked2.append_u32(0x00000001);
    masked2.prepend_reference(ton_abi::cell::Cell::empty());
    assert!(f.decode_input(SliceData::from_builder(masked2)).is_ok());
}

#[test]
fn decode_id_reads_only_the_leading_word() {
    let mut b = BuilderData::new();
    b.append_u32(0xDEADBEEF);
    b.append_u32(0x01020304);
    assert_eq!(Function::decode_id(SliceData::from_builder(b)).unwrap(), 0xDEADBEEF);
    let short = BuilderData::new();
    assert!(matches!(
        Function::decode_id(SliceData::from_builder(short)),
        Err(AbiErrorKind::IncompleteDeserializationError)
    ));
}

#[test]
fn timestamped_call_round_trip() {
    let f = Function::new(
        "ping",
        vec![Param::new("n", ParamType::Uint(8))],
        vec![],
        true,
    );
    let tokens = vec![Token::new("n", TokenValue::Uint { size: 8, value: 3 })];
    let body = f.encode_input(&tokens, None).unwrap();
    // identifier + time + one uint8
    assert_eq!(body.bits.len(), 32 + 64 + 8);
    let out = f.decode_input(SliceData::from_builder(body)).unwrap();
    assert_eq!(out.len(), 1);
    assert_eq!(out[0].value, TokenValue::Uint { size: 8, value: 3 });
}

#[test]
fn response_round_trip() {
    let f = transfer();
    let mut b = BuilderData::new();
    b.append_u32(f.get_output_id());
    b.append_bit(true);
    let out = f.decode_output(SliceData::from_builder(b)).unwrap();
    assert_eq!(out.len(), 1);
    assert_eq!(out[0].name, "success");
    assert_eq!(out[0].value, TokenValue::Bool(true));
    // A response against the input identifier is rejected.
    let mut b2 = BuilderData::new();
    b2.append_u32(f.get_input_id());
    b2.append_bit(true);
    assert!(matches!(
        f.decode_output(SliceData::from_builder(b2)),
        Err(AbiErrorKind::WrongId(_))
    ));
}

#[test]
fn event_signature_and_decode() {
    let e = Event::new("transfer", vec![Param::new("amount", ParamType::Uint(128))]);
    assert_eq!(e.get_function_signature(), "transfer(uint128)");
    let digest = sha2::Sha256::digest("transfer(uint128)".as_bytes());
    let expected = u32::from_be_bytes([digest[0], digest[1], digest[2], digest[3]]);
    assert_eq!(e.id, expected);

    // Events carry the unmasked identifier, no slot and no time header.
    let mut b = BuilderData::new();
    b.append_u32(e.id);
    b.append_uint(1000, 128);
    let out = e.decode_input(SliceData::from_builder(b)).unwrap();
    assert_eq!(out.len(), 1);
    assert_eq!(out[0].name, "amount");
    assert_eq!(out[0].value, TokenValue::Uint { size: 128, value: 1000 });

    let mut b2 = BuilderData::new();
    b2.append_u32(e.id ^ 1);
    b2.append_uint(1000, 128);
    assert!(matches!(
        e.decode_input(SliceData::from_builder(b2)),
        Err(AbiErrorKind::WrongId(_))
    ));
}

#[test]
fn descriptor_accessors() {
    let f = transfer();
    assert!(f.has_input());
    assert!(f.has_output());
    assert_eq!(f.input_params().len(), 1);
    assert_eq!(f.output_params().len(), 1);
    let e = Event::new("empty", vec![]);
    assert!(!e.has_input());
    assert_eq!(e.input_params().len(), 0);
}
