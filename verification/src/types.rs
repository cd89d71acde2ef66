//! The data model: declared parameter types, typed tokens, loosely typed
//! values, and the mathematical view of each.
use crate::words::{be_value, signed_value, valid_bits};
use vstd::prelude::*;

verus! {

/// The declared shape of one parameter.
#[derive(Debug, PartialEq, Eq)]
pub enum ParameterType {
    Address,
    Bool,
    String,
    Bytes,
    /// A byte string of the given width.
    FixedBytes(usize),
    /// An unsigned integer of the given bit width.
    Uint(usize),
    /// A signed integer of the given bit width.
    Int(usize),
    Array(Box<ParameterType>),
    FixedArray(Box<ParameterType>, usize),
    Tuple(Vec<ParameterType>),
}

/// The mathematical view of a [`ParameterType`].
pub ghost enum ParameterTypeView {
    Address,
    Bool,
    String,
    Bytes,
    FixedBytes(nat),
    Uint(nat),
    Int(nat),
    Array(Box<ParameterTypeView>),
    FixedArray(Box<ParameterTypeView>, nat),
    Tuple(Seq<ParameterTypeView>),
}

impl ParameterTypeView {
    /// Whether every integer width in the type is a multiple of 8 from 8 to
    /// 256.
    pub open spec fn well_formed(self) -> bool
        decreases self,
    {
        match self {
            ParameterTypeView::Uint(bits) => valid_bits(bits),
            ParameterTypeView::Int(bits) => valid_bits(bits),
            ParameterTypeView::Array(elem) => elem.well_formed(),
            ParameterTypeView::FixedArray(elem, _) => elem.well_formed(),
            ParameterTypeView::Tuple(members) => forall|i: int|
                0 <= i < members.len() ==> (#[trigger] members[i]).well_formed(),
            _ => true,
        }
    }

    /// Whether every fixed array in the type has at least one element and
    /// every tuple at least one member, so that each value takes room in a
    /// layout.
    pub open spec fn sized(self) -> bool
        decreases self,
    {
        match self {
            ParameterTypeView::Array(elem) => elem.sized(),
            ParameterTypeView::FixedArray(elem, len) => len > 0 && elem.sized(),
            ParameterTypeView::Tuple(members) => members.len() > 0 && forall|i: int|
                0 <= i < members.len() ==> (#[trigger] members[i]).sized(),
            _ => true,
        }
    }

    /// Whether a schema may declare the type: it is well formed and sized.
    pub open spec fn declarable(self) -> bool {
        self.well_formed() && self.sized()
    }
}

/// Whether every type of a sequence is well formed.
pub open spec fn all_well_formed(types: Seq<ParameterTypeView>) -> bool {
    forall|i: int| 0 <= i < types.len() ==> (#[trigger] types[i]).well_formed()
}

/// Whether every type of a sequence is sized.
pub open spec fn all_sized(types: Seq<ParameterTypeView>) -> bool {
    forall|i: int| 0 <= i < types.len() ==> (#[trigger] types[i]).sized()
}

/// Whether a schema may declare every type of a sequence.
pub open spec fn all_declarable(types: Seq<ParameterTypeView>) -> bool {
    all_well_formed(types) && all_sized(types)
}

/// The views of a sequence of parameter types, in order.
pub open spec fn type_views(types: Seq<ParameterType>) -> Seq<ParameterTypeView>
    decreases types,
{
    Seq::new(
        types.len(),
        |i: int|
            if 0 <= i < types.len() {
                types[i].shape()
            } else {
                arbitrary()
            },
    )
}

impl ParameterType {
    /// The shape this type denotes; the body of the view.
    pub open spec fn shape(&self) -> ParameterTypeView
        decreases self,
    {
        match self {
            ParameterType::Address => ParameterTypeView::Address,
            ParameterType::Bool => ParameterTypeView::Bool,
            ParameterType::String => ParameterTypeView::String,
            ParameterType::Bytes => ParameterTypeView::Bytes,
            ParameterType::FixedBytes(width) => ParameterTypeView::FixedBytes(*width as nat),
            ParameterType::Uint(bits) => ParameterTypeView::Uint(*bits as nat),
            ParameterType::Int(bits) => ParameterTypeView::Int(*bits as nat),
            ParameterType::Array(elem) => ParameterTypeView::Array(Box::new(elem.shape())),
            ParameterType::FixedArray(elem, len) => ParameterTypeView::FixedArray(
                Box::new(elem.shape()),
                *len as nat,
            ),
            ParameterType::Tuple(members) => ParameterTypeView::Tuple(type_views(members@)),
        }
    }
}

impl View for ParameterType {
    type V = ParameterTypeView;

    open spec fn view(&self) -> ParameterTypeView {
        self.shape()
    }
}

/// A copy of a parameter type.
pub fn copy_type(ty: &ParameterType) -> (copy: ParameterType)
    ensures
        copy@ == ty@,
    decreases ty, 0nat,
{
    match ty {
        ParameterType::Address => ParameterType::Address,
        ParameterType::Bool => ParameterType::Bool,
        ParameterType::String => ParameterType::String,
        ParameterType::Bytes => ParameterType::Bytes,
        ParameterType::FixedBytes(width) => ParameterType::FixedBytes(*width),
        ParameterType::Uint(bits) => ParameterType::Uint(*bits),
        ParameterType::Int(bits) => ParameterType::Int(*bits),
        ParameterType::Array(elem) => ParameterType::Array(Box::new(copy_type(elem))),
        ParameterType::FixedArray(elem, len) => ParameterType::FixedArray(
            Box::new(copy_type(elem)),
            *len,
        ),
        ParameterType::Tuple(members) => ParameterType::Tuple(copy_types(members)),
    }
}

/// A copy of a sequence of parameter types.
#[verifier::loop_isolation(false)]
pub fn copy_types(types: &Vec<ParameterType>) -> (copies: Vec<ParameterType>)
    ensures
        type_views(copies@) == type_views(types@),
    decreases types, 1nat,
{
    let mut copies: Vec<ParameterType> = Vec::new();
    let mut i: usize = 0;
    while i < types.len()
        invariant
            i <= types@.len(),
            copies@.len() == i,
            forall|j: int| 0 <= j < i ==> (#[trigger] copies@[j])@ == types@[j]@,
        decreases types@.len() - i,
    {
        copies.push(copy_type(&types[i]));
        i += 1;
    }
    assert(type_views(copies@) =~= type_views(types@));
    copies
}

impl Clone for ParameterType {
    fn clone(&self) -> (copy: Self)
        ensures
            copy@ == self@,
    {
        copy_type(self)
    }
}

/// Whether a schema may declare every type of a sequence.
#[verifier::loop_isolation(false)]
pub fn are_declarable(types: &Vec<ParameterType>) -> (r: bool)
    ensures
        r == all_declarable(type_views(types@)),
    decreases types, 1nat,
{
    let ghost shapes = type_views(types@);
    let mut i: usize = 0;
    while i < types.len()
        invariant
            i <= types@.len(),
            forall|j: int| 0 <= j < i ==> (#[trigger] shapes[j]).well_formed(),
            forall|j: int| 0 <= j < i ==> (#[trigger] shapes[j]).sized(),
        decreases types@.len() - i,
    {
        if !is_declarable(&types[i]) {
            assert(!shapes[i as int].declarable());
            return false;
        }
        i += 1;
    }
    true
}

/// Whether a schema may declare a parameter type.
pub fn is_declarable(ty: &ParameterType) -> (r: bool)
    ensures
        r == ty@.declarable(),
    decreases ty, 0nat,
{
    match ty {
        ParameterType::Uint(bits) => 8 <= *bits && *bits <= 256 && *bits % 8 == 0,
        ParameterType::Int(bits) => 8 <= *bits && *bits <= 256 && *bits % 8 == 0,
        ParameterType::Array(elem) => is_declarable(elem),
        ParameterType::FixedArray(elem, len) => *len > 0 && is_declarable(elem),
        ParameterType::Tuple(members) => {
            proof {
                assert(ty@->Tuple_0 == type_views(members@));
            }
            members.len() > 0 && are_declarable(members)
        },
        _ => true,
    }
}

/// A typed value, shaped like the parameter type it was made for.
#[derive(Debug, PartialEq, Eq)]
pub enum TypedToken {
    /// Twenty bytes.
    Address([u8; 20]),
    Bool(bool),
    String(String),
    Bytes(Vec<u8>),
    FixedBytes(Vec<u8>),
    /// An unsigned 256-bit number as a big-endian word.
    Uint([u8; 32]),
    /// A signed 256-bit number as a big-endian twos-complement word.
    Int([u8; 32]),
    Array(Vec<TypedToken>),
    FixedArray(Vec<TypedToken>),
    Tuple(Vec<TypedToken>),
}

/// The mathematical view of a [`TypedToken`]: numbers stand for words.
pub ghost enum TokenView {
    Address(Seq<u8>),
    Bool(bool),
    String(Seq<char>),
    Bytes(Seq<u8>),
    FixedBytes(Seq<u8>),
    Uint(nat),
    Int(int),
    Array(Seq<TokenView>),
    FixedArray(Seq<TokenView>),
    Tuple(Seq<TokenView>),
}

/// The views of a sequence of tokens, in order.
pub open spec fn token_views(tokens: Seq<TypedToken>) -> Seq<TokenView>
    decreases tokens,
{
    Seq::new(
        tokens.len(),
        |i: int|
            if 0 <= i < tokens.len() {
                tokens[i].model()
            } else {
                arbitrary()
            },
    )
}

impl TypedToken {
    /// What this token denotes; the body of the view.
    pub open spec fn model(&self) -> TokenView
        decreases self,
    {
        match self {
            TypedToken::Address(bytes) => TokenView::Address(bytes@),
            TypedToken::Bool(b) => TokenView::Bool(*b),
            TypedToken::String(text) => TokenView::String(text@),
            TypedToken::Bytes(bytes) => TokenView::Bytes(bytes@),
            TypedToken::FixedBytes(bytes) => TokenView::FixedBytes(bytes@),
            TypedToken::Uint(word) => TokenView::Uint(be_value(word@)),
            TypedToken::Int(word) => TokenView::Int(signed_value(word@)),
            TypedToken::Array(items) => TokenView::Array(token_views(items@)),
            TypedToken::FixedArray(items) => TokenView::FixedArray(token_views(items@)),
            TypedToken::Tuple(items) => TokenView::Tuple(token_views(items@)),
        }
    }
}

impl View for TypedToken {
    type V = TokenView;

    open spec fn view(&self) -> TokenView {
        self.model()
    }
}

/// A copy of a byte string.
#[verifier::loop_isolation(false)]
fn copy_bytes(bytes: &Vec<u8>) -> (copy: Vec<u8>)
    ensures
        copy@ == bytes@,
{
    let mut copy: Vec<u8> = Vec::new();
    let mut i: usize = 0;
    while i < bytes.len()
        invariant
            i <= bytes@.len(),
            copy@ == bytes@.take(i as int),
        decreases bytes@.len() - i,
    {
        copy.push(bytes[i]);
        assert(copy@ =~= bytes@.take(i + 1));
        i += 1;
    }
    assert(bytes@.take(bytes@.len() as int) =~= bytes@);
    copy
}

/// A copy of a token.
pub fn copy_token(token: &TypedToken) -> (copy: TypedToken)
    ensures
        copy@ == token@,
    decreases token, 0nat,
{
    match token {
        TypedToken::Address(bytes) => TypedToken::Address(*bytes),
        TypedToken::Bool(b) => TypedToken::Bool(*b),
        TypedToken::String(text) => TypedToken::String(text.clone()),
        TypedToken::Bytes(bytes) => TypedToken::Bytes(copy_bytes(bytes)),
        TypedToken::FixedBytes(bytes) => TypedToken::FixedBytes(copy_bytes(bytes)),
        TypedToken::Uint(word) => TypedToken::Uint(*word),
        TypedToken::Int(word) => TypedToken::Int(*word),
        TypedToken::Array(items) => TypedToken::Array(copy_tokens(items)),
        TypedToken::FixedArray(items) => TypedToken::FixedArray(copy_tokens(items)),
        TypedToken::Tuple(items) => TypedToken::Tuple(copy_tokens(items)),
    }
}

/// A copy of a sequence of tokens.
#[verifier::loop_isolation(false)]
pub fn copy_tokens(tokens: &Vec<TypedToken>) -> (copies: Vec<TypedToken>)
    ensures
        token_views(copies@) == token_views(tokens@),
    decreases tokens, 1nat,
{
    let mut copies: Vec<TypedToken> = Vec::new();
    let mut i: usize = 0;
    while i < tokens.len()
        invariant
            i <= tokens@.len(),
            copies@.len() == i,
            forall|j: int| 0 <= j < i ==> (#[trigger] copies@[j])@ == tokens@[j]@,
        decreases tokens@.len() - i,
    {
        copies.push(copy_token(&tokens[i]));
        i += 1;
    }
    assert(token_views(copies@) =~= token_views(tokens@));
    copies
}

impl Clone for TypedToken {
    fn clone(&self) -> (copy: Self)
        ensures
            copy@ == self@,
    {
        copy_token(self)
    }
}

/// A loosely typed value, as a caller supplies it or receives it.
#[derive(Debug, PartialEq, Eq)]
pub enum Value {
    Bool(bool),
    Text(String),
    /// A numeric value that is a whole number.
    Number(i64),
    /// A numeric value that is not a whole number the host holds exactly.
    Inexact,
    /// An ordered sequence of values.
    List(Vec<Value>),
    /// A value of any other shape.
    Other,
}

/// The mathematical view of a [`Value`].
pub ghost enum ValueView {
    Bool(bool),
    Text(Seq<char>),
    Number(int),
    Inexact,
    List(Seq<ValueView>),
    Other,
}

/// The views of a sequence of values, in order.
pub open spec fn value_views(values: Seq<Value>) -> Seq<ValueView>
    decreases values,
{
    Seq::new(
        values.len(),
        |i: int|
            if 0 <= i < values.len() {
                values[i].model()
            } else {
                arbitrary()
            },
    )
}

impl Value {
    /// What this value denotes; the body of the view.
    pub open spec fn model(&self) -> ValueView
        decreases self,
    {
        match self {
            Value::Bool(b) => ValueView::Bool(*b),
            Value::Text(text) => ValueView::Text(text@),
            Value::Number(n) => ValueView::Number(*n as int),
            Value::Inexact => ValueView::Inexact,
            Value::List(items) => ValueView::List(value_views(items@)),
            Value::Other => ValueView::Other,
        }
    }
}

impl View for Value {
    type V = ValueView;

    open spec fn view(&self) -> ValueView {
        self.model()
    }
}

/// A copy of a value.
pub fn copy_value(value: &Value) -> (copy: Value)
    ensures
        copy@ == value@,
    decreases value, 0nat,
{
    match value {
        Value::Bool(b) => Value::Bool(*b),
        Value::Text(text) => Value::Text(text.clone()),
        Value::Number(n) => Value::Number(*n),
        Value::Inexact => Value::Inexact,
        Value::List(items) => Value::List(copy_values(items)),
        Value::Other => Value::Other,
    }
}

/// A copy of a sequence of values.
#[verifier::loop_isolation(false)]
pub fn copy_values(values: &Vec<Value>) -> (copies: Vec<Value>)
    ensures
        value_views(copies@) == value_views(values@),
    decreases values, 1nat,
{
    let mut copies: Vec<Value> = Vec::new();
    let mut i: usize = 0;
    while i < values.len()
        invariant
            i <= values@.len(),
            copies@.len() == i,
            forall|j: int| 0 <= j < i ==> (#[trigger] copies@[j])@ == values@[j]@,
        decreases values@.len() - i,
    {
        copies.push(copy_value(&values[i]));
        i += 1;
    }
    assert(value_views(copies@) =~= value_views(values@));
    copies
}

impl Clone for Value {
    fn clone(&self) -> (copy: Self)
        ensures
            copy@ == self@,
    {
        copy_value(self)
    }
}

/// Why a call failed.
#[derive(Debug, Clone, Copy, PartialEq, Eq, Structural)]
pub enum CoderError {
    /// The interface description holds a name that is not safe to read,
    /// could not be read, or names a type that a schema may not declare.
    SchemaParse,
    /// The schema holds no function of the requested name.
    FunctionNotFound,
    /// The number of supplied values differs from the number of declared
    /// inputs.
    ArityMismatch,
    /// A value does not have the shape its parameter type asks for.
    TypeMismatch,
    /// A number outside its declared range, or fixed-width bytes of the
    /// wrong length.
    Range,
    /// Text that is not hexadecimal or decimal where it must be, or too
    /// short to strip; or a word of a layout that holds no value of its type.
    MalformedInput,
    /// The buffer is shorter than the declared types require.
    BufferTooShort,
    /// An offset that points outside the buffer.
    MalformedOffset,
    /// A length prefix that claims more bytes than remain, or tokens too
    /// long to lay out.
    LengthOverflow,
    /// The input for a tuple is not an ordered sequence.
    Structure,
}

} // verus!
