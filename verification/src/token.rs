//! Parameters and argument values, with their bit-level codec.
//!
//! A [`Param`] declares a name and a type; a [`Token`] binds a name to a
//! typed value.  `value_bits` is the wire form of one value; `tokens_bits`
//! packs a sequence of values in order, and `spec_decode_tokens` is the
//! decoder the executable code is proved against.

use crate::bits::{bits_val, lemma_bits_val_bound, uint_bits};
use crate::cell::{BuilderData, SliceData};
use crate::errors::{AbiErrorKind, AbiResult};
use vstd::arithmetic::power2::pow2;
use vstd::prelude::*;

verus! {

/// The type of one parameter: an unsigned integer of a given bit width, or
/// a single bit.
#[derive(Clone, Copy, PartialEq, Eq, Structural, Debug)]
pub enum ParamType {
    Uint(u32),
    Bool,
}

/// A declared parameter of a function or event.
pub struct Param {
    pub name: String,
    pub kind: ParamType,
}

/// The abstract value of a `Param`.
pub ghost struct ParamV {
    pub name: Seq<char>,
    pub kind: ParamType,
}

impl View for Param {
    type V = ParamV;

    open spec fn view(&self) -> ParamV {
        ParamV { name: self.name@, kind: self.kind }
    }
}

impl DeepView for Param {
    type V = ParamV;

    open spec fn deep_view(&self) -> ParamV {
        self.view()
    }
}

impl Param {
    pub fn new(name: &str, kind: ParamType) -> (r: Param)
        ensures
            r@.name == name@,
            r@.kind == kind,
    {
        Param { name: name.to_owned(), kind }
    }

    /// A copy of this parameter.
    pub fn duplicate(&self) -> (r: Param)
        ensures
            r@ == self@,
    {
        Param { name: self.name.clone(), kind: self.kind }
    }
}

/// One argument value.
#[derive(Clone, Copy, PartialEq, Eq, Structural, Debug)]
pub enum TokenValue {
    /// An unsigned integer of the given bit width.
    Uint { size: u32, value: u128 },
    /// A single bit.
    Bool(bool),
}

/// An argument: a name bound to a value.
pub struct Token {
    pub name: String,
    pub value: TokenValue,
}

/// The abstract value of a `Token`.
pub ghost struct TokenV {
    pub name: Seq<char>,
    pub value: TokenValue,
}

impl View for Token {
    type V = TokenV;

    open spec fn view(&self) -> TokenV {
        TokenV { name: self.name@, value: self.value }
    }
}

impl DeepView for Token {
    type V = TokenV;

    open spec fn deep_view(&self) -> TokenV {
        self.view()
    }
}

impl Token {
    pub fn new(name: &str, value: TokenValue) -> (r: Token)
        ensures
            r@.name == name@,
            r@.value == value,
    {
        Token { name: name.to_owned(), value }
    }
}

/// How many bits a value of type `k` occupies on the wire.
pub open spec fn type_bit_len(k: ParamType) -> nat {
    match k {
        ParamType::Uint(n) => n as nat,
        ParamType::Bool => 1,
    }
}

/// The declared widths are at least one bit and fit the value model.
pub open spec fn param_type_wf(k: ParamType) -> bool {
    match k {
        ParamType::Uint(n) => 1 <= n <= 128,
        ParamType::Bool => true,
    }
}

pub open spec fn params_wf(params: Seq<ParamV>) -> bool {
    forall|i: int| 0 <= i < params.len() ==> param_type_wf(#[trigger] params[i].kind)
}

/// The type a value belongs to.
pub open spec fn value_kind(v: TokenValue) -> ParamType {
    match v {
        TokenValue::Uint { size, value: _ } => ParamType::Uint(size),
        TokenValue::Bool(_) => ParamType::Bool,
    }
}

/// The value fits its declared width.
pub open spec fn value_wf(v: TokenValue) -> bool {
    match v {
        TokenValue::Uint { size, value } => 1 <= size <= 128 && (value as nat) < pow2(size as nat),
        TokenValue::Bool(_) => true,
    }
}

pub open spec fn tokens_wf(tokens: Seq<TokenV>) -> bool {
    forall|i: int| 0 <= i < tokens.len() ==> value_wf(#[trigger] tokens[i].value)
}

/// The wire form of one value.
pub open spec fn value_bits(v: TokenValue) -> Seq<bool> {
    match v {
        TokenValue::Uint { size, value } => uint_bits(value as nat, size as nat),
        TokenValue::Bool(b) => seq![b],
    }
}

/// The wire form of a sequence of argument values, in order.
pub open spec fn tokens_bits(tokens: Seq<TokenV>) -> Seq<bool>
    decreases tokens.len(),
{
    if tokens.len() == 0 {
        Seq::empty()
    } else {
        value_bits(tokens[0].value) + tokens_bits(tokens.drop_first())
    }
}

/// The total bit width of a parameter list.
pub open spec fn params_bit_len(params: Seq<ParamV>) -> nat
    decreases params.len(),
{
    if params.len() == 0 {
        0
    } else {
        type_bit_len(params[0].kind) + params_bit_len(params.drop_first())
    }
}

/// Each argument's type matches the declared parameter type, in order.
pub open spec fn types_check_v(tokens: Seq<TokenV>, params: Seq<ParamV>) -> bool {
    &&& tokens.len() == params.len()
    &&& forall|i: int|
        0 <= i < tokens.len() ==> value_kind(#[trigger] tokens[i].value) == params[i].kind
}

/// The value denoted by the leading bits of `bits`, read at type `k`.
/// Meaningful when `bits` holds at least `type_bit_len(k)` bits.
pub open spec fn spec_read_value(k: ParamType, bits: Seq<bool>) -> TokenValue {
    match k {
        ParamType::Uint(n) => TokenValue::Uint {
            size: n,
            value: bits_val(bits.take(n as int)) as u128,
        },
        ParamType::Bool => TokenValue::Bool(bits[0]),
    }
}

/// Decodes one value per declared parameter from the front of `bits`;
/// `None` when the bits run out.
pub open spec fn spec_decode_tokens(params: Seq<ParamV>, bits: Seq<bool>) -> Option<Seq<TokenV>>
    decreases params.len(),
{
    if params.len() == 0 {
        Some(Seq::empty())
    } else {
        let w = type_bit_len(params[0].kind);
        if bits.len() < w {
            None
        } else {
            match spec_decode_tokens(params.drop_first(), bits.skip(w as int)) {
                Some(rest) => Some(
                    seq![TokenV { name: params[0].name, value: spec_read_value(params[0].kind, bits) }]
                        + rest,
                ),
                None => None,
            }
        }
    }
}

/// Appending one token extends the packed form at the end.
pub proof fn lemma_tokens_bits_push(tokens: Seq<TokenV>, t: TokenV)
    ensures
        tokens_bits(tokens.push(t)) == tokens_bits(tokens) + value_bits(t.value),
    decreases tokens.len(),
{
    let s = tokens.push(t);
    assert(s.len() == tokens.len() + 1);
    if tokens.len() == 0 {
        assert(s.drop_first() =~= Seq::empty());
        assert(s[0] == t);
        assert(tokens_bits(s) == value_bits(t.value) + tokens_bits(s.drop_first()));
        assert(tokens_bits(s) =~= tokens_bits(tokens) + value_bits(t.value));
    } else {
        assert(s[0] == tokens[0]);
        assert(s.drop_first() =~= tokens.drop_first().push(t));
        lemma_tokens_bits_push(tokens.drop_first(), t);
        assert(tokens_bits(s) == value_bits(tokens[0].value) + tokens_bits(s.drop_first()));
        assert(tokens_bits(s.drop_first()) == tokens_bits(tokens.drop_first()) + value_bits(
            t.value,
        ));
        assert(tokens_bits(tokens) == value_bits(tokens[0].value) + tokens_bits(
            tokens.drop_first(),
        ));
        assert(tokens_bits(s) =~= tokens_bits(tokens) + value_bits(t.value));
    }
}

/// Appending one parameter adds its width at the end.
pub proof fn lemma_params_bit_len_push(params: Seq<ParamV>, p: ParamV)
    ensures
        params_bit_len(params.push(p)) == params_bit_len(params) + type_bit_len(p.kind),
    decreases params.len(),
{
    let s = params.push(p);
    assert(s.len() == params.len() + 1);
    if params.len() == 0 {
        assert(s.drop_first() =~= Seq::<ParamV>::empty());
        assert(s[0] == p);
        assert(params_bit_len(s) == type_bit_len(p.kind) + params_bit_len(s.drop_first()));
        assert(params_bit_len(Seq::<ParamV>::empty()) == 0);
        assert(params_bit_len(params) == 0);
    } else {
        assert(s[0] == params[0]);
        assert(s.drop_first() =~= params.drop_first().push(p));
        lemma_params_bit_len_push(params.drop_first(), p);
        assert(params_bit_len(s) == type_bit_len(params[0].kind) + params_bit_len(
            s.drop_first(),
        ));
        assert(params_bit_len(params) == type_bit_len(params[0].kind) + params_bit_len(
            params.drop_first(),
        ));
    }
}

impl TokenValue {
    /// True exactly when this value belongs to type `kind`.
    pub fn type_check(&self, kind: &ParamType) -> (r: bool)
        ensures
            r == (value_kind(*self) == *kind),
    {
        match (self, kind) {
            (TokenValue::Uint { size, value: _ }, ParamType::Uint(n)) => *size == *n,
            (TokenValue::Bool(_), ParamType::Bool) => true,
            _ => false,
        }
    }

    /// Packs this value at the end of the builder's bit channel.
    pub fn pack(&self, builder: &mut BuilderData)
        requires
            param_type_wf(value_kind(*self)),
        ensures
            final(builder)@.bits == old(builder)@.bits + value_bits(*self),
            final(builder)@.refs == old(builder)@.refs,
    {
        match self {
            TokenValue::Uint { size, value } => builder.append_uint(*value, *size as usize),
            TokenValue::Bool(b) => {
                builder.append_bit(*b);
                assert(old(builder)@.bits.push(*b) =~= old(builder)@.bits + seq![*b]);
            },
        }
    }

    /// Reads one value of type `kind` from the cursor; fails with
    /// `IncompleteDeserializationError` when the bits run out, leaving the
    /// cursor unchanged.
    pub fn read_from(kind: &ParamType, cursor: &mut SliceData) -> (r: AbiResult<TokenValue>)
        requires
            old(cursor).wf(),
            param_type_wf(*kind),
        ensures
            final(cursor).wf(),
            final(cursor).rem_refs() == old(cursor).rem_refs(),
            old(cursor).rem_bits().len() >= type_bit_len(*kind) ==> {
                &&& r == Ok::<TokenValue, AbiErrorKind>(
                    spec_read_value(*kind, old(cursor).rem_bits()),
                )
                &&& final(cursor).rem_bits() == old(cursor).rem_bits().skip(
                    type_bit_len(*kind) as int,
                )
            },
            old(cursor).rem_bits().len() < type_bit_len(*kind) ==> {
                &&& r == Err::<TokenValue, AbiErrorKind>(
                    AbiErrorKind::IncompleteDeserializationError,
                )
                &&& *final(cursor) == *old(cursor)
            },
    {
        match kind {
            ParamType::Uint(n) => {
                match cursor.read_uint(*n as usize) {
                    Some(v) => {
                        proof {
                            lemma_bits_val_bound(old(cursor).rem_bits().take(*n as int));
                        }
                        Ok(TokenValue::Uint { size: *n, value: v })
                    },
                    None => Err(AbiErrorKind::IncompleteDeserializationError),
                }
            },
            ParamType::Bool => {
                match cursor.read_bit() {
                    Some(b) => Ok(TokenValue::Bool(b)),
                    None => Err(AbiErrorKind::IncompleteDeserializationError),
                }
            },
        }
    }
}

impl Token {
    /// True exactly when each argument's type matches the corresponding
    /// declared parameter type, in order.
    pub fn types_check(tokens: &[Token], params: &[Param]) -> (r: bool)
        ensures
            r == types_check_v(tokens.deep_view(), params.deep_view()),
    {
        if tokens.len() != params.len() {
            return false;
        }
        let mut i: usize = 0;
        while i < tokens.len()
            invariant
                tokens.deep_view().len() == tokens@.len(),
                params.deep_view().len() == params@.len(),
                tokens@.len() == params@.len(),
                i <= tokens@.len(),
                forall|k: int|
                    0 <= k < i ==> value_kind(#[trigger] tokens.deep_view()[k].value)
                        == params.deep_view()[k].kind,
            decreases tokens@.len() - i,
        {
            let ok = tokens[i].value.type_check(&params[i].kind);
            proof {
                assert(tokens.deep_view()[i as int].value == tokens@[i as int].value);
                assert(params.deep_view()[i as int].kind == params@[i as int].kind);
            }
            if !ok {
                return false;
            }
            i = i + 1;
        }
        true
    }
}

} // verus!
