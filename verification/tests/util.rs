use base64::Engine;
use sha2::Digest;
use ton_abi::boc::{get_boc_hash, to_hex_string, ParamsOfGetBocHash};
use ton_abi::cell::{serialize_tree, BuilderData, Cell};
use ton_abi::debot::{error, ErrorCode, Error};
use ton_abi::errors::AbiErrorKind;

fn hex(bytes: &[u8]) -> String {
    bytes.iter().map(|b| format!("{:02x}", b)).collect()
}

#[test]
fn hex_encoding() {
    assert_eq!(to_hex_string(&vec![]), "");
    assert_eq!(to_hex_string(&vec![0x00, 0xab, 0xff, 0x10]), "00abff10");
}

#[test]
fn boc_hash_of_serialized_tree() {
    let mut b = BuilderData::new();
    b.append_u32(0xCAFEBABE);
    b.append_bit(true);
    b.append_reference(Cell::from_bytes(&vec![1, 2, 3]));
    let bytes = serialize_tree(&b.bits, &b.refs, 0);
    let boc = base64::engine::general_purpose::STANDARD.encode(&bytes);
    let res = get_boc_hash(ParamsOfGetBocHash { boc }).unwrap();
    assert_eq!(res.hash, hex(&sha2::Sha256::digest(&bytes)));
}

#[test]
fn boc_hash_rejects_bad_input() {
    let r = get_boc_hash(ParamsOfGetBocHash { boc: "!!not base64!!".to_owned() });
    assert!(r.is_err());
    // Valid base64 that is not a serialized tree.
    let boc = base64::engine::general_purpose::STANDARD.encode([0xFFu8; 4]);
    let r2 = get_boc_hash(ParamsOfGetBocHash { boc });
    assert!(r2.is_err());
    // A bit byte other than 0 or 1 is refused.
    let mut bytes = vec![0u8; 8];
    bytes[7] = 1;
    bytes.push(2);
    bytes.extend_from_slice(&[0u8; 8]);
    let boc = base64::engine::general_purpose::STANDARD.encode(&bytes);
    assert!(get_boc_hash(ParamsOfGetBocHash { boc }).is_err());
}

#[test]
fn debot_error_codes_and_messages() {
    let e = Error::start_failed("boom".to_owned());
    assert_eq!(e.code, 801);
    assert_eq!(e.message, "Debot start failed: boom");
    let e = Error::fetch_failed("nope".to_owned());
    assert_eq!(e.code, 802);
    assert_eq!(e.message, "Debot fetch failed: nope");
    let e = Error::execute_failed("halt".to_owned());
    assert_eq!(e.code, 803);
    assert_eq!(e.message, "Debot execution failed: halt");
    let e = Error::invalid_handle(42);
    assert_eq!(e.code, 804);
    assert_eq!(e.message, "Invalid debot handle: 42");
    let e = error(ErrorCode::DebotStartFailed, "m".to_owned());
    assert_eq!(e.code, 801);
    assert_eq!(e.message, "m");
}

#[test]
fn error_kind_descriptions() {
    assert_eq!(AbiErrorKind::WrongParameterType.describe(), "wrong parameter type");
    assert_eq!(AbiErrorKind::WrongId(7).describe(), "wrong function identifier");
    assert_eq!(
        AbiErrorKind::IncompleteDeserializationError.describe(),
        "incomplete deserialization"
    );
    assert_eq!(
        AbiErrorKind::InvalidInputData("x".to_owned()).describe(),
        "invalid input data"
    );
}

#[test]
fn bit_fields_round_trip() {
    let mut out: Vec<bool> = Vec::new();
    ton_abi::bits::push_uint_bits(&mut out, 0xA5, 8);
    assert_eq!(out, vec![true, false, true, false, false, true, false, true]);
    let v = ton_abi::bits::read_uint_bits(&out, 0, 8);
    assert_eq!(v, 0xA5);
}
