//! Laws of the codec: the identifier's direction bits, and how decoding
//! relates to encoding — round trips, signature-slot transparency,
//! tampering and truncation.

use crate::bits::{
    bits_val, lemma_bits_val_injective, lemma_bits_val_uint_bits, lemma_uint_bits_len, uint_bits,
};
use crate::cell::bytes_bits;
use crate::errors::AbiErrorKind;
use crate::function::{
    function_wf, header_bits, spec_calc_id, spec_decode_body, FunctionV,
};
use crate::token::{
    params_bit_len, params_wf, param_type_wf, spec_decode_tokens, spec_read_value, tokens_bits,
    tokens_wf, type_bit_len, types_check_v, value_bits, value_kind, value_wf, ParamType, ParamV,
    TokenV, TokenValue,
};
use vstd::arithmetic::power2::{lemma2_to64, pow2};
use vstd::prelude::*;

verus! {

/// The identifier is a function of the canonical signature string alone:
/// equal signature strings always yield equal identifiers, whatever the
/// argument values.
pub proof fn lemma_identifier_pure(s1: Seq<char>, s2: Seq<char>)
    requires
        s1 == s2,
    ensures
        spec_calc_id(s1) == spec_calc_id(s2),
{
}

/// A call identifier always has its top bit clear and a response identifier
/// always has it set; the two differ only in that bit.
pub proof fn lemma_direction_bits(id: u32)
    ensures
        (id & 0x7FFFFFFF) & 0x80000000 == 0,
        (id | 0x80000000) & 0x80000000 == 0x80000000u32,
        (id & 0x7FFFFFFF) | 0x80000000 == id | 0x80000000,
{
    assert((id & 0x7FFFFFFF) & 0x80000000 == 0) by (bit_vector);
    assert((id | 0x80000000) & 0x80000000 == 0x80000000u32) by (bit_vector);
    assert((id & 0x7FFFFFFF) | 0x80000000 == id | 0x80000000) by (bit_vector);
}

/// A packed value is as wide as its type says.
pub proof fn lemma_value_bits_len(v: TokenValue)
    ensures
        value_bits(v).len() == type_bit_len(value_kind(v)),
{
    match v {
        TokenValue::Uint { size, value } => {
            lemma_uint_bits_len(value as nat, size as nat);
        },
        TokenValue::Bool(_) => {},
    }
}

/// Decoding the packed form of well-typed arguments recovers exactly those
/// arguments, and consumes exactly the declared widths.
pub proof fn lemma_decode_packed_tokens(params: Seq<ParamV>, tokens: Seq<TokenV>)
    requires
        params_wf(params),
        types_check_v(tokens, params),
        tokens_wf(tokens),
        forall|i: int| 0 <= i < tokens.len() ==> #[trigger] tokens[i].name == params[i].name,
    ensures
        spec_decode_tokens(params, tokens_bits(tokens)) == Option::Some(tokens),
        tokens_bits(tokens).len() == params_bit_len(params),
    decreases params.len(),
{
    if params.len() == 0 {
        assert(tokens =~= Seq::<TokenV>::empty());
    } else {
        let t0 = tokens[0];
        let p0 = params[0];
        assert(value_kind(t0.value) == p0.kind);
        assert(value_wf(t0.value));
        assert(t0.name == p0.name);
        let w = type_bit_len(p0.kind) as int;
        lemma_value_bits_len(t0.value);
        let bits = tokens_bits(tokens);
        assert(bits == value_bits(t0.value) + tokens_bits(tokens.drop_first()));
        assert(bits.take(w) =~= value_bits(t0.value));
        assert(bits.skip(w) =~= tokens_bits(tokens.drop_first()));
        match t0.value {
            TokenValue::Uint { size, value } => {
                assert(p0.kind == ParamType::Uint(size));
                lemma_bits_val_uint_bits(value as nat, size as nat);
                assert(spec_read_value(p0.kind, bits) == t0.value);
            },
            TokenValue::Bool(_) => {
                assert(bits[0] == value_bits(t0.value)[0]);
                assert(spec_read_value(p0.kind, bits) == t0.value);
            },
        }
        let tks = tokens.drop_first();
        let pms = params.drop_first();
        assert(types_check_v(tks, pms) && tokens_wf(tks) && params_wf(pms)) by {
            assert forall|i: int| 0 <= i < tks.len() implies value_kind(#[trigger] tks[i].value)
                == pms[i].kind && value_wf(tks[i].value) && param_type_wf(pms[i].kind) by {
                assert(tks[i] == tokens[i + 1]);
                assert(pms[i] == params[i + 1]);
                assert(value_kind(tokens[i + 1].value) == params[i + 1].kind);
                assert(value_wf(tokens[i + 1].value));
                assert(param_type_wf(params[i + 1].kind));
            }
        }
        assert forall|i: int| 0 <= i < tks.len() implies #[trigger] tks[i].name == pms[i].name by {
            assert(tks[i] == tokens[i + 1]);
            assert(pms[i] == params[i + 1]);
            assert(tokens[i + 1].name == params[i + 1].name);
        }
        lemma_decode_packed_tokens(pms, tks);
        let head = TokenV { name: p0.name, value: spec_read_value(p0.kind, bits) };
        assert(head == t0);
        assert(seq![t0] + tks =~= tokens);
    }
}

/// Packing strictly fewer arguments than the declared parameters leaves the
/// decoder short of data.
pub proof fn lemma_decode_tokens_shortage(params: Seq<ParamV>, tokens: Seq<TokenV>)
    requires
        params_wf(params),
        tokens.len() < params.len(),
        tokens_wf(tokens),
        forall|i: int|
            0 <= i < tokens.len() ==> value_kind(#[trigger] tokens[i].value) == params[i].kind,
    ensures
        spec_decode_tokens(params, tokens_bits(tokens)) is None,
    decreases params.len(),
{
    let p0 = params[0];
    assert(param_type_wf(p0.kind));
    let w = type_bit_len(p0.kind) as int;
    assert(w >= 1);
    if tokens.len() == 0 {
        assert(tokens_bits(tokens).len() == 0);
    } else {
        let t0 = tokens[0];
        assert(value_kind(t0.value) == p0.kind);
        lemma_value_bits_len(t0.value);
        let bits = tokens_bits(tokens);
        assert(bits == value_bits(t0.value) + tokens_bits(tokens.drop_first()));
        assert(bits.skip(w) =~= tokens_bits(tokens.drop_first()));
        let tks = tokens.drop_first();
        let pms = params.drop_first();
        assert forall|i: int| 0 <= i < tks.len() implies value_kind(#[trigger] tks[i].value)
            == pms[i].kind && value_wf(tks[i].value) && param_type_wf(pms[i].kind) by {
            assert(tks[i] == tokens[i + 1]);
            assert(pms[i] == params[i + 1]);
            assert(value_kind(tokens[i + 1].value) == params[i + 1].kind);
            assert(value_wf(tokens[i + 1].value));
            assert(param_type_wf(params[i + 1].kind));
        }
        lemma_decode_tokens_shortage(pms, tks);
    }
}

/// Round trip: a call encoded without a time header and without a
/// signature, then decoded against the same descriptor, recovers exactly
/// the encoded arguments.
pub proof fn lemma_call_round_trip(f: FunctionV, tokens: Seq<TokenV>)
    requires
        function_wf(f),
        !f.set_time,
        types_check_v(tokens, f.inputs),
        tokens_wf(tokens),
        forall|i: int| 0 <= i < tokens.len() ==> #[trigger] tokens[i].name == f.inputs[i].name,
    ensures
        spec_decode_body(
            f.inputs,
            f.id & 0x7FFFFFFF,
            false,
            header_bits(f.id & 0x7FFFFFFF, Option::None) + tokens_bits(tokens),
            0,
        ) == Ok::<Seq<TokenV>, AbiErrorKind>(tokens),
{
    let id = f.id & 0x7FFFFFFF;
    let hdr = header_bits(id, Option::None);
    assert(hdr =~= uint_bits(id as nat, 32));
    lemma_uint_bits_len(id as nat, 32);
    let bits = hdr + tokens_bits(tokens);
    assert(bits.take(32) =~= uint_bits(id as nat, 32));
    lemma2_to64();
    lemma_bits_val_uint_bits(id as nat, 32);
    assert(bits.skip(32) =~= tokens_bits(tokens));
    lemma_decode_packed_tokens(f.inputs, tokens);
}

/// Round trip with signing: a signature-plus-public-key blob of the
/// scheme's fixed lengths sitting in the reserved slot is stripped and
/// discarded by the decoder without altering the recovered arguments.
pub proof fn lemma_signed_round_trip(f: FunctionV, tokens: Seq<TokenV>, sig: Seq<u8>, pk: Seq<u8>)
    requires
        function_wf(f),
        !f.set_time,
        types_check_v(tokens, f.inputs),
        tokens_wf(tokens),
        forall|i: int| 0 <= i < tokens.len() ==> #[trigger] tokens[i].name == f.inputs[i].name,
        sig.len() == 64,
        pk.len() == 32,
    ensures
        ({
            let refs = seq![bytes_bits(sig + pk)];
            spec_decode_body(
                f.inputs,
                f.id & 0x7FFFFFFF,
                false,
                header_bits(f.id & 0x7FFFFFFF, Option::None) + tokens_bits(tokens),
                (refs.len() - 1) as nat,
            ) == Ok::<Seq<TokenV>, AbiErrorKind>(tokens)
        }),
{
    lemma_call_round_trip(f, tokens);
}

/// Tampering: flipping any single bit of the 32-bit identifier header of a
/// body whose identifier matched makes decoding fail with `WrongId`, whose
/// payload is the identifier actually read.
pub proof fn lemma_tampered_identifier(
    params: Seq<ParamV>,
    expected: u32,
    extract_time: bool,
    nrefs: nat,
    bits: Seq<bool>,
    i: int,
)
    requires
        bits.len() >= 32,
        bits_val(bits.take(32)) == expected as nat,
        0 <= i < 32,
    ensures
        ({
            let flipped = bits.update(i, !bits[i]);
            &&& bits_val(flipped.take(32)) != expected as nat
            &&& spec_decode_body(params, expected, extract_time, flipped, nrefs) == Err::<
                Seq<TokenV>,
                AbiErrorKind,
            >(AbiErrorKind::WrongId(bits_val(flipped.take(32)) as u32))
        }),
{
    let flipped = bits.update(i, !bits[i]);
    let t1 = bits.take(32);
    let t2 = flipped.take(32);
    assert(t1.len() == 32 && t2.len() == 32);
    if bits_val(t2) == bits_val(t1) {
        lemma_bits_val_injective(t1, t2);
        assert(t1[i] == t2[i]);
        assert(false);
    }
}

/// Truncation: dropping the final argument's bits from a call body that
/// would otherwise decode leaves the decoder short of data, which it
/// reports as incomplete deserialization.
pub proof fn lemma_truncated_call(f: FunctionV, tokens: Seq<TokenV>)
    requires
        function_wf(f),
        !f.set_time,
        types_check_v(tokens, f.inputs),
        tokens_wf(tokens),
        tokens.len() >= 1,
    ensures
        spec_decode_body(
            f.inputs,
            f.id & 0x7FFFFFFF,
            false,
            header_bits(f.id & 0x7FFFFFFF, Option::None) + tokens_bits(tokens.drop_last()),
            0,
        ) == Err::<Seq<TokenV>, AbiErrorKind>(AbiErrorKind::IncompleteDeserializationError),
{
    let id = f.id & 0x7FFFFFFF;
    let hdr = header_bits(id, Option::None);
    assert(hdr =~= uint_bits(id as nat, 32));
    lemma_uint_bits_len(id as nat, 32);
    let cut = tokens.drop_last();
    let bits = hdr + tokens_bits(cut);
    assert(bits.take(32) =~= uint_bits(id as nat, 32));
    lemma2_to64();
    lemma_bits_val_uint_bits(id as nat, 32);
    assert(bits.skip(32) =~= tokens_bits(cut));
    assert forall|i: int| 0 <= i < cut.len() implies value_kind(#[trigger] cut[i].value)
        == f.inputs[i].kind && value_wf(cut[i].value) by {
        assert(cut[i] == tokens[i]);
        assert(value_kind(tokens[i].value) == f.inputs[i].kind);
        assert(value_wf(tokens[i].value));
    }
    lemma_decode_tokens_shortage(f.inputs, cut);
}

} // verus!
