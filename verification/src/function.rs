//! Function and event descriptors, and the call/response message codec.
//!
//! A descriptor's 32-bit identifier is the leading word of the SHA-256
//! digest of its canonical signature string.  A call body carries the
//! identifier with its top bit forced to zero, an optional 64-bit time
//! header, one reserved reference slot for a detached signature, and the
//! packed argument values; a response carries the identifier with its top
//! bit forced to one and no slot or time header.

use crate::bits::{bits_val, lemma_bits_val_bound, uint_bits};
use crate::cell::{bytes_bits, ser_tree, serialize_tree, BuilderData, Cell, SliceData};
use crate::crypto::{now_millis, sha256, sha256_of, sign_hash};
use crate::errors::{AbiErrorKind, AbiResult};
use crate::strings::{dec_digits, push_dec, push_str};
use crate::token::{
    lemma_params_bit_len_push, lemma_tokens_bits_push, param_type_wf, params_bit_len, params_wf,
    spec_decode_tokens, spec_read_value, tokens_bits, type_bit_len, types_check_v, value_bits,
    value_kind, Param, ParamType, ParamV, Token, TokenV, TokenValue,
};
use vstd::prelude::*;

verus! {

/// Version byte of the serialization protocol.
pub const ABI_VERSION: u8 = 0;

/// The canonical signature of one parameter type.
pub open spec fn type_sig_chars(k: ParamType) -> Seq<char> {
    match k {
        ParamType::Uint(n) => "uint"@ + dec_digits(n as nat),
        ParamType::Bool => "bool"@,
    }
}

/// The comma-joined type signatures of a parameter list.
pub open spec fn joined_sigs(params: Seq<ParamV>) -> Seq<char>
    decreases params.len(),
{
    if params.len() == 0 {
        Seq::empty()
    } else if params.len() == 1 {
        type_sig_chars(params[0].kind)
    } else {
        joined_sigs(params.drop_last()) + ","@ + type_sig_chars(params.last().kind)
    }
}

/// The canonical signature string of a function.
pub open spec fn function_sig_chars(
    name: Seq<char>,
    inputs: Seq<ParamV>,
    outputs: Seq<ParamV>,
) -> Seq<char> {
    name + "("@ + joined_sigs(inputs) + ")("@ + joined_sigs(outputs) + ")"@
}

/// The canonical signature string of an event.
pub open spec fn event_sig_chars(name: Seq<char>, inputs: Seq<ParamV>) -> Seq<char> {
    name + "("@ + joined_sigs(inputs) + ")"@
}

/// The leading 32-bit word of a byte string, big-endian.
pub open spec fn be_u32_head(b: Seq<u8>) -> nat {
    (b[0] as nat) * 0x1000000 + (b[1] as nat) * 0x10000 + (b[2] as nat) * 0x100 + (b[3] as nat)
}

/// The identifier derived from a canonical signature string: the first four
/// bytes of the SHA-256 digest of its UTF-8 form, big-endian.
pub open spec fn spec_calc_id(s: Seq<char>) -> u32 {
    be_u32_head(sha256_of(vstd::utf8::encode_utf8(s))) as u32
}

/// The header bits of a call body: masked identifier, then the time field
/// when one is carried.
pub open spec fn header_bits(id: u32, time: Option<u64>) -> Seq<bool> {
    uint_bits(id as nat, 32) + (match time {
        Option::Some(t) => uint_bits(t as nat, 64),
        Option::None => Seq::empty(),
    })
}

/// The outcome of decoding a message body against a parameter list: the
/// leading word must equal `expected_id`, a 64-bit time field is consumed
/// when `extract_time` holds, every declared parameter is read in order, and
/// nothing may be left over in either channel.
pub open spec fn spec_decode_body(
    params: Seq<ParamV>,
    expected_id: u32,
    extract_time: bool,
    bits: Seq<bool>,
    nrefs: nat,
) -> Result<Seq<TokenV>, AbiErrorKind> {
    if bits.len() < 32 {
        Err(AbiErrorKind::IncompleteDeserializationError)
    } else if bits_val(bits.take(32)) != expected_id as nat {
        Err(AbiErrorKind::WrongId(bits_val(bits.take(32)) as u32))
    } else if extract_time && bits.len() < 96 {
        Err(AbiErrorKind::IncompleteDeserializationError)
    } else {
        let rest = if extract_time {
            bits.skip(96)
        } else {
            bits.skip(32)
        };
        match spec_decode_tokens(params, rest) {
            Option::None => Err(AbiErrorKind::IncompleteDeserializationError),
            Option::Some(ts) => if nrefs == 0 && rest.len() == params_bit_len(params) {
                Ok(ts)
            } else {
                Err(AbiErrorKind::IncompleteDeserializationError)
            },
        }
    }
}

/// Appends the canonical type signature of `k`.
fn push_type_sig(s: &mut String, k: &ParamType)
    ensures
        final(s)@ == old(s)@ + type_sig_chars(*k),
{
    match k {
        ParamType::Uint(n) => {
            push_str(s, "uint");
            push_dec(s, *n);
            assert(s@ =~= old(s)@ + type_sig_chars(*k));
        },
        ParamType::Bool => {
            push_str(s, "bool");
        },
    }
}

/// Appends the comma-joined type signatures of `params`.
fn push_joined_sigs(s: &mut String, params: &Vec<Param>)
    ensures
        final(s)@ == old(s)@ + joined_sigs(params.deep_view()),
{
    let ghost pv = params.deep_view();
    let mut i: usize = 0;
    while i < params.len()
        invariant
            i <= params@.len(),
            pv == params.deep_view(),
            pv.len() == params@.len(),
            s@ == old(s)@ + joined_sigs(pv.take(i as int)),
        decreases params@.len() - i,
    {
        if i > 0 {
            push_str(s, ",");
        }
        push_type_sig(s, &params[i].kind);
        proof {
            assert(params@[i as int]@.kind == pv[i as int].kind);
            if i == 0 {
                assert(pv.take(1)[0] == pv[0]);
                assert(s@ =~= old(s)@ + joined_sigs(pv.take(1)));
            } else {
                assert(pv.take(i + 1).drop_last() =~= pv.take(i as int));
                assert(pv.take(i + 1).last() == pv[i as int]);
                assert(s@ =~= old(s)@ + joined_sigs(pv.take(i + 1)));
            }
        }
        i = i + 1;
    }
    assert(pv.take(pv.len() as int) =~= pv);
}

/// A callable contract function: name, typed inputs and outputs, whether a
/// call body carries a time header, and the stored identifier.
pub struct Function {
    pub name: String,
    pub inputs: Vec<Param>,
    pub outputs: Vec<Param>,
    pub set_time: bool,
    pub id: u32,
}

/// The abstract value of a `Function`.
pub ghost struct FunctionV {
    pub name: Seq<char>,
    pub inputs: Seq<ParamV>,
    pub outputs: Seq<ParamV>,
    pub set_time: bool,
    pub id: u32,
}

impl View for Function {
    type V = FunctionV;

    open spec fn view(&self) -> FunctionV {
        FunctionV {
            name: self.name@,
            inputs: self.inputs.deep_view(),
            outputs: self.outputs.deep_view(),
            set_time: self.set_time,
            id: self.id,
        }
    }
}

/// Every declared parameter width fits the value model.
pub open spec fn function_wf(f: FunctionV) -> bool {
    params_wf(f.inputs) && params_wf(f.outputs)
}

impl Function {
    pub open spec fn wf(&self) -> bool {
        function_wf(self@)
    }

    /// A descriptor with its identifier computed from the canonical
    /// signature string.
    pub fn new(name: &str, inputs: Vec<Param>, outputs: Vec<Param>, set_time: bool) -> (r:
        Function)
        ensures
            r@.name == name@,
            r@.inputs == inputs.deep_view(),
            r@.outputs == outputs.deep_view(),
            r@.set_time == set_time,
            r@.id == spec_calc_id(
                function_sig_chars(name@, inputs.deep_view(), outputs.deep_view()),
            ),
    {
        let mut f = Function { name: name.to_owned(), inputs, outputs, set_time, id: 0 };
        let id = f.get_function_id();
        f.id = id;
        f
    }

    /// All input parameters, in order.
    pub fn input_params(&self) -> (r: Vec<Param>)
        ensures
            r.deep_view() == self@.inputs,
    {
        let mut r: Vec<Param> = Vec::new();
        let mut i: usize = 0;
        while i < self.inputs.len()
            invariant
                i <= self.inputs@.len(),
                r@.len() == i,
                forall|k: int| 0 <= k < i ==> #[trigger] r@[k]@ == self.inputs@[k]@,
            decreases self.inputs@.len() - i,
        {
            r.push(self.inputs[i].duplicate());
            i = i + 1;
        }
        assert forall|k: int| 0 <= k < r@.len() implies r.deep_view()[k] == self@.inputs[k] by {
            assert(r@[k]@ == self.inputs@[k]@);
        }
        assert(r.deep_view() =~= self@.inputs);
        r
    }

    /// All output parameters, in order.
    pub fn output_params(&self) -> (r: Vec<Param>)
        ensures
            r.deep_view() == self@.outputs,
    {
        let mut r: Vec<Param> = Vec::new();
        let mut i: usize = 0;
        while i < self.outputs.len()
            invariant
                i <= self.outputs@.len(),
                r@.len() == i,
                forall|k: int| 0 <= k < i ==> #[trigger] r@[k]@ == self.outputs@[k]@,
            decreases self.outputs@.len() - i,
        {
            r.push(self.outputs[i].duplicate());
            i = i + 1;
        }
        assert forall|k: int| 0 <= k < r@.len() implies r.deep_view()[k] == self@.outputs[k] by {
            assert(r@[k]@ == self.outputs@[k]@);
        }
        assert(r.deep_view() =~= self@.outputs);
        r
    }

    /// True when the function declares input parameters.
    pub fn has_input(&self) -> (r: bool)
        ensures
            r == (self@.inputs.len() != 0),
    {
        self.inputs.len() != 0
    }

    /// True when the function declares output parameters.
    pub fn has_output(&self) -> (r: bool)
        ensures
            r == (self@.outputs.len() != 0),
    {
        self.outputs.len() != 0
    }

    /// The canonical signature string:
    /// `name(input types)(output types)`.
    pub fn get_function_signature(&self) -> (r: String)
        ensures
            r@ == function_sig_chars(self@.name, self@.inputs, self@.outputs),
    {
        let mut s = self.name.clone();
        push_str(&mut s, "(");
        push_joined_sigs(&mut s, &self.inputs);
        push_str(&mut s, ")(");
        push_joined_sigs(&mut s, &self.outputs);
        push_str(&mut s, ")");
        proof {
            assert(")("@ =~= ")"@ + "("@) by {
                reveal_strlit(")(");
                reveal_strlit(")");
                reveal_strlit("(");
            }
            assert(s@ =~= function_sig_chars(self@.name, self@.inputs, self@.outputs));
        }
        s
    }

    /// The identifier derived from a canonical signature string: the first
    /// four bytes of its SHA-256 digest, big-endian.
    pub fn calc_function_id(signature: &str) -> (r: u32)
        ensures
            r == spec_calc_id(signature@),
    {
        let digest = sha256(signature.as_bytes());
        let r = (digest[0] as u32) * 0x1000000 + (digest[1] as u32) * 0x10000 + (digest[2] as u32)
            * 0x100 + (digest[3] as u32);
        assert(r as nat == be_u32_head(digest@));
        r
    }

    /// The identifier of this descriptor's signature string.
    pub fn get_function_id(&self) -> (r: u32)
        ensures
            r == spec_calc_id(function_sig_chars(self@.name, self@.inputs, self@.outputs)),
    {
        let signature = self.get_function_signature();
        Self::calc_function_id(signature.as_str())
    }

    /// The identifier of a call message: the stored identifier with its top
    /// bit forced to zero.
    pub fn get_input_id(&self) -> (r: u32)
        ensures
            r == self@.id & 0x7FFFFFFF,
    {
        self.id & 0x7FFFFFFF
    }

    /// The identifier of a response message: the stored identifier with its
    /// top bit forced to one.
    pub fn get_output_id(&self) -> (r: u32)
        ensures
            r == self@.id | 0x80000000,
    {
        self.id | 0x80000000
    }

    /// Reads the leading 32-bit identifier of a body, consuming nothing
    /// else.
    pub fn decode_id(mut data: SliceData) -> (r: AbiResult<u32>)
        requires
            data.wf(),
        ensures
            data.rem_bits().len() >= 32 ==> r == Ok::<u32, AbiErrorKind>(
                bits_val(data.rem_bits().take(32)) as u32,
            ),
            data.rem_bits().len() < 32 ==> r == Err::<u32, AbiErrorKind>(
                AbiErrorKind::IncompleteDeserializationError,
            ),
    {
        match data.get_next_u32() {
            Some(v) => Ok(v),
            None => Err(AbiErrorKind::IncompleteDeserializationError),
        }
    }

    /// True exactly when the leading word of `data` equals the stored,
    /// unmasked identifier.
    pub fn is_my_message(&self, data: SliceData) -> (r: Result<bool, AbiErrorKind>)
        requires
            data.wf(),
        ensures
            data.rem_bits().len() >= 32 ==> r == Ok::<bool, AbiErrorKind>(
                self@.id as nat == bits_val(data.rem_bits().take(32)),
            ),
            data.rem_bits().len() < 32 ==> r == Err::<bool, AbiErrorKind>(
                AbiErrorKind::IncompleteDeserializationError,
            ),
    {
        let ghost gbits = data.rem_bits();
        match Self::decode_id(data) {
            Ok(id) => {
                proof {
                    lemma_bits_val_bound(gbits.take(32));
                    vstd::arithmetic::power2::lemma2_to64();
                }
                Ok(self.id == id)
            },
            Err(e) => Err(e),
        }
    }

    /// Parses a response body: output identifier, then every declared
    /// output parameter, with exact consumption.
    pub fn decode_output(&self, data: SliceData) -> (r: AbiResult<Vec<Token>>)
        requires
            data.wf(),
            self.wf(),
        ensures
            ({
                let s = spec_decode_body(
                    self@.outputs,
                    self@.id | 0x80000000,
                    false,
                    data.rem_bits(),
                    data.rem_refs().len(),
                );
                match r {
                    Ok(ts) => s == Ok::<Seq<TokenV>, AbiErrorKind>(ts.deep_view()),
                    Err(e) => s == Err::<Seq<TokenV>, AbiErrorKind>(e),
                }
            }),
    {
        let expected = self.get_output_id();
        decode_body(&self.outputs, data, expected, false)
    }

    /// Parses a call body: the signature slot is removed unread, then the
    /// input identifier, the time header when one is carried, and every
    /// declared input parameter, with exact consumption.
    pub fn decode_input(&self, mut data: SliceData) -> (r: AbiResult<Vec<Token>>)
        requires
            data.wf(),
            self.wf(),
        ensures
            data.rem_refs().len() == 0 ==> (r matches Err(e) && (e matches
                AbiErrorKind::InvalidInputData(m) && m@ == "no signature reference to drain"@)),
            data.rem_refs().len() >= 1 ==> ({
                let s = spec_decode_body(
                    self@.inputs,
                    self@.id & 0x7FFFFFFF,
                    self@.set_time,
                    data.rem_bits(),
                    (data.rem_refs().len() - 1) as nat,
                );
                match r {
                    Ok(ts) => s == Ok::<Seq<TokenV>, AbiErrorKind>(ts.deep_view()),
                    Err(e) => s == Err::<Seq<TokenV>, AbiErrorKind>(e),
                }
            }),
    {
        match data.checked_drain_reference() {
            Some(_) => (),
            None => {
                return Err(
                    AbiErrorKind::InvalidInputData("no signature reference to drain".to_owned()),
                );
            },
        }
        let expected = self.get_input_id();
        decode_body(&self.inputs, data, expected, self.set_time)
    }

    /// Builds the unsigned call body with an explicit time header choice and
    /// returns it with its content hash, computed with the reserved slot
    /// left out.
    pub fn prepare_input_with_time(&self, tokens: &[Token], time: Option<u64>) -> (r: AbiResult<
        (BuilderData, Vec<u8>),
    >)
        requires
            self.wf(),
        ensures
            ({
                let ok = types_check_v(tokens.deep_view(), self@.inputs);
                match r {
                    Ok(p) => ok && {
                        let (b, h) = p;
                        &&& b@.bits == header_bits(self@.id & 0x7FFFFFFF, time) + tokens_bits(
                            tokens.deep_view(),
                        )
                        &&& b@.refs == seq![Seq::<bool>::empty()]
                        &&& h@ == sha256_of(ser_tree(b@.bits, Seq::<Seq<bool>>::empty()))
                    },
                    Err(e) => !ok && e matches AbiErrorKind::WrongParameterType,
                }
            }),
    {
        if !Token::types_check(tokens, self.inputs.as_slice()) {
            return Err(AbiErrorKind::WrongParameterType);
        }
        let ghost dv = tokens.deep_view();
        let mut builder = BuilderData::new();
        builder.append_u32(self.get_input_id());
        match time {
            Some(t) => builder.append_u64(t),
            None => (),
        }
        let ghost hdr = header_bits(self@.id & 0x7FFFFFFF, time);
        assert(builder@.bits =~= hdr);
        builder.append_reference(Cell::empty());
        assert(builder@.refs =~= seq![Seq::<bool>::empty()]);
        let mut i: usize = 0;
        while i < tokens.len()
            invariant
                i <= tokens@.len(),
                dv == tokens.deep_view(),
                dv.len() == tokens@.len(),
                types_check_v(dv, self@.inputs),
                params_wf(self@.inputs),
                builder@.bits == hdr + tokens_bits(dv.take(i as int)),
                builder@.refs == seq![Seq::<bool>::empty()],
            decreases tokens@.len() - i,
        {
            proof {
                assert(value_kind(dv[i as int].value) == self@.inputs[i as int].kind);
                assert(param_type_wf(self@.inputs[i as int].kind));
                assert(tokens@[i as int]@.value == dv[i as int].value);
            }
            tokens[i].value.pack(&mut builder);
            proof {
                assert(dv.take(i + 1).drop_last() =~= dv.take(i as int));
                assert(dv.take(i + 1) =~= dv.take(i as int).push(dv[i as int]));
                lemma_tokens_bits_push(dv.take(i as int), dv[i as int]);
                assert(builder@.bits =~= hdr + tokens_bits(dv.take(i + 1)));
            }
            i = i + 1;
        }
        assert(dv.take(dv.len() as int) =~= dv);
        let preimage = serialize_tree(&builder.bits, &builder.refs, 1);
        proof {
            assert(builder.refs.deep_view().skip(1) =~= Seq::<Seq<bool>>::empty());
        }
        let hash = sha256(preimage.as_slice());
        Ok((builder, hash))
    }

    /// Builds the unsigned call body, sampling the wall clock once when the
    /// descriptor carries a time header, and returns it with its content
    /// hash.
    pub fn prepare_input_for_sign(&self, tokens: &[Token]) -> (r: AbiResult<
        (BuilderData, Vec<u8>),
    >)
        requires
            self.wf(),
        ensures
            ({
                let ok = types_check_v(tokens.deep_view(), self@.inputs);
                match r {
                    Ok(p) => ok && {
                        let (b, h) = p;
                        &&& exists|time: Option<u64>|
                            (time is Some <==> self@.set_time) && b@.bits == header_bits(
                                self@.id & 0x7FFFFFFF,
                                time,
                            ) + tokens_bits(tokens.deep_view())
                        &&& b@.refs == seq![Seq::<bool>::empty()]
                        &&& h@ == sha256_of(ser_tree(b@.bits, Seq::<Seq<bool>>::empty()))
                    },
                    Err(e) => !ok && e matches AbiErrorKind::WrongParameterType,
                }
            }),
    {
        if !Token::types_check(tokens, self.inputs.as_slice()) {
            return Err(AbiErrorKind::WrongParameterType);
        }
        let time: Option<u64> = if self.set_time {
            Some(now_millis())
        } else {
            None
        };
        let r = self.prepare_input_with_time(tokens, time);
        proof {
            if r is Ok {
                assert((time is Some <==> self@.set_time) && r->Ok_0.0@.bits == header_bits(
                    self@.id & 0x7FFFFFFF,
                    time,
                ) + tokens_bits(tokens.deep_view()));
            }
        }
        r
    }

    /// Encodes a call: the prepared body with the reserved slot either
    /// filled by a fresh signature-plus-public-key blob or left as an
    /// explicit empty sub-tree.
    pub fn encode_input(&self, tokens: &[Token], pair: Option<&ed25519_dalek::Keypair>) -> (r:
        AbiResult<BuilderData>)
        requires
            self.wf(),
        ensures
            ({
                let ok = types_check_v(tokens.deep_view(), self@.inputs);
                match r {
                    Ok(b) => ok && {
                        &&& exists|time: Option<u64>|
                            (time is Some <==> self@.set_time) && b@.bits == header_bits(
                                self@.id & 0x7FFFFFFF,
                                time,
                            ) + tokens_bits(tokens.deep_view())
                        &&& (pair is None ==> b@.refs == seq![Seq::<bool>::empty()])
                        &&& (pair is Some ==> exists|sig: Seq<u8>, pk: Seq<u8>|
                            sig.len() == 64 && pk.len() == 32 && b@.refs == seq![
                                bytes_bits(sig + pk),
                            ])
                    },
                    Err(e) => !ok && e matches AbiErrorKind::WrongParameterType,
                }
            }),
    {
        let (mut builder, hash) = match self.prepare_input_for_sign(tokens) {
            Ok(p) => p,
            Err(e) => {
                return Err(e);
            },
        };
        match pair {
            Some(pair) => {
                let (sig, pk) = sign_hash(pair, &hash);
                let blob = concat_bytes(&sig, &pk);
                let cell = Cell::from_bytes(&blob);
                builder.set_first_reference(cell);
                assert(builder@.refs =~= seq![bytes_bits(sig@ + pk@)]);
                Ok(builder)
            },
            None => Ok(builder),
        }
    }

    /// Replaces the first reference slot of an already prepared body with
    /// the concatenation of `signature` and `public_key`; no hash is
    /// recomputed.
    pub fn add_sign_to_encoded_input(
        signature: &[u8],
        public_key: &[u8],
        function_call: SliceData,
    ) -> (r: AbiResult<BuilderData>)
        requires
            function_call.wf(),
        ensures
            function_call.rem_refs().len() == 0 ==> (r matches Err(e) && (e matches
                AbiErrorKind::InvalidInputData(m) && m@ == "no reference slot for a signature"@)),
            function_call.rem_refs().len() >= 1 ==> (r matches Ok(b) && b@.bits
                == function_call.rem_bits() && b@.refs == function_call.rem_refs().update(
                0,
                bytes_bits(signature@ + public_key@),
            )),
    {
        let mut builder = crate::cell::builder_from_slice(&function_call);
        if builder.refs.len() == 0 {
            return Err(
                AbiErrorKind::InvalidInputData("no reference slot for a signature".to_owned()),
            );
        }
        let sig = slice_to_vec(signature);
        let pk = slice_to_vec(public_key);
        let blob = concat_bytes(&sig, &pk);
        let cell = Cell::from_bytes(&blob);
        builder.set_first_reference(cell);
        Ok(builder)
    }
}

/// A contract event: name, typed inputs, and the stored identifier.  Events
/// have no outputs and no call/response distinction; their bodies carry the
/// unmasked identifier, no signature slot and no time header.
pub struct Event {
    pub name: String,
    pub inputs: Vec<Param>,
    pub id: u32,
}

/// The abstract value of an `Event`.
pub ghost struct EventV {
    pub name: Seq<char>,
    pub inputs: Seq<ParamV>,
    pub id: u32,
}

impl View for Event {
    type V = EventV;

    open spec fn view(&self) -> EventV {
        EventV { name: self.name@, inputs: self.inputs.deep_view(), id: self.id }
    }
}

impl Event {
    pub open spec fn wf(&self) -> bool {
        params_wf(self@.inputs)
    }

    /// An event descriptor with its identifier computed from the canonical
    /// signature string.
    pub fn new(name: &str, inputs: Vec<Param>) -> (r: Event)
        ensures
            r@.name == name@,
            r@.inputs == inputs.deep_view(),
            r@.id == spec_calc_id(event_sig_chars(name@, inputs.deep_view())),
    {
        let mut e = Event { name: name.to_owned(), inputs, id: 0 };
        let id = e.get_function_id();
        e.id = id;
        e
    }

    /// All input parameters, in order.
    pub fn input_params(&self) -> (r: Vec<Param>)
        ensures
            r.deep_view() == self@.inputs,
    {
        let mut r: Vec<Param> = Vec::new();
        let mut i: usize = 0;
        while i < self.inputs.len()
            invariant
                i <= self.inputs@.len(),
                r@.len() == i,
                forall|k: int| 0 <= k < i ==> #[trigger] r@[k]@ == self.inputs@[k]@,
            decreases self.inputs@.len() - i,
        {
            r.push(self.inputs[i].duplicate());
            i = i + 1;
        }
        assert forall|k: int| 0 <= k < r@.len() implies r.deep_view()[k] == self@.inputs[k] by {
            assert(r@[k]@ == self.inputs@[k]@);
        }
        assert(r.deep_view() =~= self@.inputs);
        r
    }

    /// True when the event declares input parameters.
    pub fn has_input(&self) -> (r: bool)
        ensures
            r == (self@.inputs.len() != 0),
    {
        self.inputs.len() != 0
    }

    /// The canonical signature string: `name(input types)`.
    pub fn get_function_signature(&self) -> (r: String)
        ensures
            r@ == event_sig_chars(self@.name, self@.inputs),
    {
        let mut s = self.name.clone();
        push_str(&mut s, "(");
        push_joined_sigs(&mut s, &self.inputs);
        push_str(&mut s, ")");
        proof {
            assert(s@ =~= event_sig_chars(self@.name, self@.inputs));
        }
        s
    }

    /// The identifier of this event's signature string.
    pub fn get_function_id(&self) -> (r: u32)
        ensures
            r == spec_calc_id(event_sig_chars(self@.name, self@.inputs)),
    {
        let signature = self.get_function_signature();
        Function::calc_function_id(signature.as_str())
    }

    /// Parses an event body: the stored, unmasked identifier, then every
    /// declared input parameter, with exact consumption.
    pub fn decode_input(&self, data: SliceData) -> (r: AbiResult<Vec<Token>>)
        requires
            data.wf(),
            self.wf(),
        ensures
            ({
                let s = spec_decode_body(
                    self@.inputs,
                    self@.id,
                    false,
                    data.rem_bits(),
                    data.rem_refs().len(),
                );
                match r {
                    Ok(ts) => s == Ok::<Seq<TokenV>, AbiErrorKind>(ts.deep_view()),
                    Err(e) => s == Err::<Seq<TokenV>, AbiErrorKind>(e),
                }
            }),
    {
        decode_body(&self.inputs, data, self.id, false)
    }

    /// Reads the leading 32-bit identifier of a body, consuming nothing
    /// else.
    pub fn decode_id(data: SliceData) -> (r: AbiResult<u32>)
        requires
            data.wf(),
        ensures
            data.rem_bits().len() >= 32 ==> r == Ok::<u32, AbiErrorKind>(
                bits_val(data.rem_bits().take(32)) as u32,
            ),
            data.rem_bits().len() < 32 ==> r == Err::<u32, AbiErrorKind>(
                AbiErrorKind::IncompleteDeserializationError,
            ),
    {
        Function::decode_id(data)
    }
}

/// A copy of a byte slice.
fn slice_to_vec(s: &[u8]) -> (r: Vec<u8>)
    ensures
        r@ == s@,
{
    let mut r: Vec<u8> = Vec::new();
    let mut i: usize = 0;
    while i < s.len()
        invariant
            i <= s@.len(),
            r@ == s@.take(i as int),
        decreases s@.len() - i,
    {
        r.push(s[i]);
        assert(r@ =~= s@.take(i + 1));
        i = i + 1;
    }
    assert(s@.take(s@.len() as int) =~= s@);
    r
}

/// The two byte strings, one after the other.
fn concat_bytes(a: &Vec<u8>, b: &Vec<u8>) -> (r: Vec<u8>)
    ensures
        r@ == a@ + b@,
{
    let mut r = slice_to_vec(a.as_slice());
    let mut i: usize = 0;
    while i < b.len()
        invariant
            i <= b@.len(),
            r@ == a@ + b@.take(i as int),
        decreases b@.len() - i,
    {
        r.push(b[i]);
        assert(r@ =~= a@ + b@.take(i + 1));
        i = i + 1;
    }
    assert(b@.take(b@.len() as int) =~= b@);
    r
}

/// Joins an already decoded prefix with the outcome for the remaining
/// parameters.
pub open spec fn opt_concat(pre: Seq<TokenV>, rest: Option<Seq<TokenV>>) -> Option<Seq<TokenV>> {
    match rest {
        Option::Some(r) => Option::Some(pre + r),
        Option::None => Option::None,
    }
}

/// Parses a body after any reference handling: expected identifier, time
/// header when asked, every declared parameter in order, exact consumption.
pub(crate) fn decode_body(
    params: &Vec<Param>,
    data: SliceData,
    expected_id: u32,
    extract_time: bool,
) -> (r: AbiResult<Vec<Token>>)
    requires
        data.wf(),
        params_wf(params.deep_view()),
    ensures
        ({
            let s = spec_decode_body(
                params.deep_view(),
                expected_id,
                extract_time,
                data.rem_bits(),
                data.rem_refs().len(),
            );
            match r {
                Ok(ts) => s == Ok::<Seq<TokenV>, AbiErrorKind>(ts.deep_view()),
                Err(e) => s == Err::<Seq<TokenV>, AbiErrorKind>(e),
            }
        }),
{
    let ghost pv = params.deep_view();
    let ghost bits0 = data.rem_bits();
    let ghost nrefs = data.rem_refs().len();
    let mut cursor = data;
    let id = match cursor.get_next_u32() {
        Some(v) => v,
        None => {
            return Err(AbiErrorKind::IncompleteDeserializationError);
        },
    };
    proof {
        lemma_bits_val_bound(bits0.take(32));
        vstd::arithmetic::power2::lemma2_to64();
    }
    if id != expected_id {
        return Err(AbiErrorKind::WrongId(id));
    }
    if extract_time {
        match cursor.get_next_u64() {
            Some(_) => {
                proof {
                    assert(bits0.skip(32).skip(64) =~= bits0.skip(96));
                }
            },
            None => {
                return Err(AbiErrorKind::IncompleteDeserializationError);
            },
        }
    }
    let ghost rest0 = cursor.rem_bits();
    let mut tokens: Vec<Token> = Vec::new();
    proof {
        assert(pv.skip(0) =~= pv);
        assert(pv.take(0) =~= Seq::<ParamV>::empty());
        assert(tokens.deep_view() =~= Seq::<TokenV>::empty());
        match spec_decode_tokens(pv, rest0) {
            Option::Some(ts) => {
                assert(Seq::<TokenV>::empty() + ts =~= ts);
            },
            Option::None => {},
        }
    }
    let mut i: usize = 0;
    while i < params.len()
        invariant
            i <= params@.len(),
            pv == params.deep_view(),
            pv.len() == params@.len(),
            params_wf(pv),
            cursor.wf(),
            cursor.rem_refs() == data.rem_refs(),
            bits0 == data.rem_bits(),
            bits0.len() >= 32,
            bits_val(bits0.take(32)) == expected_id as nat,
            extract_time ==> bits0.len() >= 96 && rest0 == bits0.skip(96),
            !extract_time ==> rest0 == bits0.skip(32),
            tokens.deep_view().len() == i,
            spec_decode_tokens(pv, rest0) == opt_concat(
                tokens.deep_view(),
                spec_decode_tokens(pv.skip(i as int), cursor.rem_bits()),
            ),
            cursor.rem_bits().len() + params_bit_len(pv.take(i as int)) == rest0.len(),
        decreases params@.len() - i,
    {
        let ghost rem = cursor.rem_bits();
        proof {
            assert(param_type_wf(pv[i as int].kind));
            assert(params@[i as int]@.kind == pv[i as int].kind);
            assert(pv.skip(i as int)[0] == pv[i as int]);
            assert(pv.skip(i as int).drop_first() =~= pv.skip(i + 1));
        }
        let value = match TokenValue::read_from(&params[i].kind, &mut cursor) {
            Ok(v) => v,
            Err(e) => {
                proof {
                    assert(spec_decode_tokens(pv.skip(i as int), rem) is None);
                    assert(spec_decode_tokens(pv, rest0) is None);
                    assert(bits0.len() >= 32);
                    assert(bits_val(bits0.take(32)) == expected_id as nat);
                    if extract_time {
                        assert(bits0.len() - 32 >= 64);
                        assert(rest0 == bits0.skip(96));
                    } else {
                        assert(rest0 == bits0.skip(32));
                    }
                    assert(spec_decode_body(pv, expected_id, extract_time, bits0, nrefs)
                        == Err::<Seq<TokenV>, AbiErrorKind>(
                        AbiErrorKind::IncompleteDeserializationError,
                    ));
                }
                return Err(AbiErrorKind::IncompleteDeserializationError);
            },
        };
        let token = Token { name: params[i].name.clone(), value };
        let ghost pre = tokens.deep_view();
        let ghost prev = tokens@;
        tokens.push(token);
        proof {
            let w = type_bit_len(pv[i as int].kind) as int;
            let tv = TokenV { name: pv[i as int].name, value: spec_read_value(pv[i as int].kind, rem) };
            assert(token@ == tv);
            assert(tokens@ == prev.push(token));
            assert forall|k: int| 0 <= k < pre.len() + 1 implies tokens.deep_view()[k] == pre.push(
                tv,
            )[k] by {
                if k < pre.len() {
                    assert(tokens@[k] == prev[k]);
                    assert(pre[k] == prev[k].deep_view());
                } else {
                    assert(tokens@[k] == token);
                }
            }
            assert(tokens.deep_view() =~= pre.push(tv));
            assert(spec_decode_tokens(pv.skip(i as int), rem) == opt_concat(
                seq![tv],
                spec_decode_tokens(pv.skip(i + 1), rem.skip(w)),
            ));
            match spec_decode_tokens(pv.skip(i + 1), rem.skip(w)) {
                Option::Some(restts) => {
                    assert(pre + (seq![tv] + restts) =~= pre.push(tv) + restts);
                },
                Option::None => {},
            }
            assert(pv.take(i + 1) =~= pv.take(i as int).push(pv[i as int]));
            lemma_params_bit_len_push(pv.take(i as int), pv[i as int]);
        }
        i = i + 1;
    }
    proof {
        assert(pv.skip(pv.len() as int) =~= Seq::<ParamV>::empty());
        assert(spec_decode_tokens(Seq::<ParamV>::empty(), cursor.rem_bits()) == Some(
            Seq::<TokenV>::empty(),
        ));
        assert(tokens.deep_view() + Seq::<TokenV>::empty() =~= tokens.deep_view());
        assert(pv.take(pv.len() as int) =~= pv);
    }
    if cursor.remaining_references() != 0 || cursor.remaining_bits() != 0 {
        Err(AbiErrorKind::IncompleteDeserializationError)
    } else {
        Ok(tokens)
    }
}

} // verus!
