//! The coder: a parsed schema, and the calls that encode and decode against
//! its functions.
use crate::codec::{
    abi_decode, abi_decoding, abi_encode, abi_encoding, encoded_bound_sum, selector,
    short_signature, tokens_bound, type_from_outside, MAX_ENCODED,
};
use crate::conformance::{all_conform, types_check};
use crate::framing::{
    hex_bytes, hex_decode, hex_encode, hex_text, is_hex, remove_bytes4, remove_hex_prefix,
    without_prefix,
};
use crate::layout::{check_layout, layout_fault};
use crate::schema_text::{names_are_safe, names_safe};
use crate::types::{
    all_declarable, all_sized, all_well_formed, are_declarable, copy_types, token_views,
    type_views, value_views, CoderError, ParameterType, ParameterTypeView, TokenView, TypedToken,
    Value, ValueView,
};
use vstd::prelude::*;

verus! {

/// One function of a schema: its name and the types it takes and returns.
#[derive(Debug, PartialEq, Eq)]
pub struct FunctionSignature {
    pub name: String,
    pub inputs: Vec<ParameterType>,
    pub outputs: Vec<ParameterType>,
}

/// The mathematical view of a [`FunctionSignature`].
pub ghost struct FunctionSignatureView {
    pub name: Seq<char>,
    pub inputs: Seq<ParameterTypeView>,
    pub outputs: Seq<ParameterTypeView>,
}

impl View for FunctionSignature {
    type V = FunctionSignatureView;

    open spec fn view(&self) -> FunctionSignatureView {
        FunctionSignatureView {
            name: self.name@,
            inputs: type_views(self.inputs@),
            outputs: type_views(self.outputs@),
        }
    }
}

/// The views of a sequence of signatures, in order.
pub open spec fn signature_views(functions: Seq<FunctionSignature>) -> Seq<FunctionSignatureView> {
    Seq::new(functions.len(), |i: int| functions[i]@)
}

/// Whether a schema may declare every type that a signature names.
pub open spec fn signature_declarable(signature: FunctionSignatureView) -> bool {
    all_declarable(signature.inputs) && all_declarable(signature.outputs)
}

/// Whether a schema may declare every type that its signatures name.
pub open spec fn schema_declarable(functions: Seq<FunctionSignatureView>) -> bool {
    forall|i: int| 0 <= i < functions.len() ==> signature_declarable(#[trigger] functions[i])
}

/// The first function of the name `name` among those from position `from`
/// on, if there is one.
pub open spec fn lookup_from(functions: Seq<FunctionSignatureView>, name: Seq<char>, from: nat)
    -> Option<FunctionSignatureView>
    decreases functions.len() - from,
{
    if from >= functions.len() {
        None
    } else if functions[from as int].name == name {
        Some(functions[from as int])
    } else {
        lookup_from(functions, name, from + 1)
    }
}

/// The first function of the name `name` in a schema, if there is one.
pub open spec fn lookup(functions: Seq<FunctionSignatureView>, name: Seq<char>) -> Option<
    FunctionSignatureView,
> {
    lookup_from(functions, name, 0)
}

/// The functions that `ethabi::Contract::load` reads from an interface
/// description, ordered by name and, under one name, as they are declared.
pub uninterp spec fn parsed_schema(abi_json: Seq<char>) -> Option<Seq<FunctionSignatureView>>;

/// `ethabi::Contract::load`, and the functions of the contract in the order
/// in which `Contract::functions` gives them: nothing where the text is not
/// an interface description. It is called on texts with safe names only:
/// the reader of type names cuts a name that ends in a bracket by counts of
/// characters, and goes wrong on a lone `]` or on one within a character of
/// several bytes.
#[verifier::external_body]
fn load_functions(abi_json: &str) -> (functions: Option<Vec<FunctionSignature>>)
    requires
        names_are_safe(abi_json@),
    ensures
        match functions {
            Some(functions) => parsed_schema(abi_json@) == Some(signature_views(functions@)),
            None => parsed_schema(abi_json@).is_none(),
        },
{
    let contract = ethabi::Contract::load(abi_json.as_bytes()).ok()?;
    Some(contract.functions().map(|f| FunctionSignature {
        name: f.name.clone(),
        inputs: f.inputs.iter().map(|p| type_from_outside(&p.kind)).collect(),
        outputs: f.outputs.iter().map(|p| type_from_outside(&p.kind)).collect(),
    }).collect())
}

/// The functions that an interface description gives a coder: those that
/// are parsed from it, where its names are safe to read, it can be read, and
/// a schema may declare every type that it names.
pub open spec fn described(abi_json: Seq<char>) -> Result<Seq<FunctionSignatureView>, CoderError> {
    if !names_are_safe(abi_json) {
        Err(CoderError::SchemaParse)
    } else {
        match parsed_schema(abi_json) {
            None => Err(CoderError::SchemaParse),
            Some(functions) => if schema_declarable(functions) {
                Ok(functions)
            } else {
                Err(CoderError::SchemaParse)
            },
        }
    }
}

/// The hexadecimal text of a call: the selector of the function and the
/// layout of the tokens, which must be as many as the inputs, each of the
/// shape of its type, and short enough to lay out.
pub open spec fn encoded_call(signature: FunctionSignatureView, tokens: Seq<TokenView>) -> Result<
    Seq<char>,
    CoderError,
> {
    if tokens.len() != signature.inputs.len() {
        Err(CoderError::ArityMismatch)
    } else if !all_conform(tokens, signature.inputs) {
        Err(CoderError::TypeMismatch)
    } else if encoded_bound_sum(tokens, tokens.len()) > MAX_ENCODED {
        Err(CoderError::LengthOverflow)
    } else {
        Ok(hex_text(selector(signature.name, signature.inputs) + abi_encoding(tokens)))
    }
}

/// The tokens that hexadecimal text holds for a sequence of types: the text
/// must be hexadecimal, its bytes a layout without fault, and the layout
/// one that the codec accepts.
pub open spec fn decoded_data(types: Seq<ParameterTypeView>, payload: Seq<char>) -> Result<
    Seq<TokenView>,
    CoderError,
> {
    if !is_hex(payload) {
        Err(CoderError::MalformedInput)
    } else {
        match layout_fault(types, hex_bytes(payload)) {
            Some(e) => Err(e),
            None => match abi_decoding(types, hex_bytes(payload)) {
                Some(tokens) => Ok(tokens),
                None => Err(CoderError::MalformedInput),
            },
        }
    }
}

/// The tokens that the text of a call holds: after an optional `0x` and the
/// eight characters of the selector.
pub open spec fn decoded_input(types: Seq<ParameterTypeView>, data: Seq<char>) -> Result<
    Seq<TokenView>,
    CoderError,
> {
    if data.len() < 2 || without_prefix(data).len() < 8 {
        Err(CoderError::MalformedInput)
    } else {
        decoded_data(types, without_prefix(data).skip(8))
    }
}

/// The tokens that the text of returned data holds: after an optional `0x`.
pub open spec fn decoded_output(types: Seq<ParameterTypeView>, data: Seq<char>) -> Result<
    Seq<TokenView>,
    CoderError,
> {
    if data.len() < 2 {
        Err(CoderError::MalformedInput)
    } else {
        decoded_data(types, without_prefix(data))
    }
}

/// Whether a result holds the tokens, or the error, that `expected` names.
pub open spec fn same_tokens(
    r: Result<Vec<TypedToken>, CoderError>,
    expected: Result<Seq<TokenView>, CoderError>,
) -> bool {
    match r {
        Ok(tokens) => expected == Ok::<Seq<TokenView>, CoderError>(token_views(tokens@)),
        Err(e) => expected == Err::<Seq<TokenView>, CoderError>(e),
    }
}

/// Whether a result holds the values, or the error, that `expected` names.
pub open spec fn same_values(
    r: Result<Vec<Value>, CoderError>,
    expected: Result<Seq<ValueView>, CoderError>,
) -> bool {
    match r {
        Ok(values) => expected == Ok::<Seq<ValueView>, CoderError>(value_views(values@)),
        Err(e) => expected == Err::<Seq<ValueView>, CoderError>(e),
    }
}

/// Whether a result holds the text, or the error, that `expected` names.
pub open spec fn same_text(r: Result<String, CoderError>, expected: Result<Seq<char>, CoderError>)
    -> bool {
    match r {
        Ok(text) => expected == Ok::<Seq<char>, CoderError>(text@),
        Err(e) => expected == Err::<Seq<char>, CoderError>(e),
    }
}

/// The text of a call: the lower-case hexadecimal digits of the selector and
/// of the layout behind it, without `0x`.
pub fn frame_call(head: &[u8; 4], body: Vec<u8>) -> (text: String)
    ensures
        text@ == hex_text(head@ + body@),
        text@.len() == 8 + 2 * body@.len(),
        text@.take(8) == hex_text(head@),
{
    let mut bytes: Vec<u8> = Vec::new();
    let mut i: usize = 0;
    while i < 4
        invariant
            i <= 4,
            bytes@ == head@.take(i as int),
        decreases 4 - i,
    {
        bytes.push(head[i]);
        assert(bytes@ =~= head@.take(i + 1));
        i += 1;
    }
    let mut body = body;
    let ghost layout = body@;
    bytes.append(&mut body);
    assert(bytes@ =~= head@ + layout);
    assert(hex_text(bytes@) =~= hex_text(head@) + hex_text(layout));
    assert((hex_text(head@) + hex_text(layout)).take(8) =~= hex_text(head@));
    hex_encode(bytes.as_slice())
}

/// Whether `text` is a framed call of the selector `head`: its first eight
/// characters are the hexadecimal digits of the selector, and whole words of
/// 64 digits follow them.
pub open spec fn framed(text: Seq<char>, head: Seq<u8>) -> bool {
    text.len() >= 8 && text.take(8) == hex_text(head) && (text.len() - 8) % 64 == 0
}

/// Whether a result holds a coder of the functions, or the error, that
/// `expected` names.
pub open spec fn same_coder(
    r: Result<Coder, CoderError>,
    expected: Result<Seq<FunctionSignatureView>, CoderError>,
) -> bool {
    match r {
        Ok(coder) => expected == Ok::<Seq<FunctionSignatureView>, CoderError>(coder@)
            && schema_declarable(coder@),
        Err(e) => expected == Err::<Seq<FunctionSignatureView>, CoderError>(e),
    }
}

/// Decodes hexadecimal text into the tokens of a sequence of types.
fn decode_data(types: &Vec<ParameterType>, payload: &str) -> (r: Result<
    Vec<TypedToken>,
    CoderError,
>)
    requires
        all_sized(type_views(types@)),
        payload@.len() <= usize::MAX,
    ensures
        same_tokens(r, decoded_data(type_views(types@), payload@)),
{
    let data = match hex_decode(payload) {
        Some(data) => data,
        None => { return Err(CoderError::MalformedInput); },
    };
    match check_layout(types, data.as_slice()) {
        Ok(_) => {},
        Err(e) => { return Err(e); },
    }
    match abi_decode(types, data.as_slice()) {
        Some(tokens) => Ok(tokens),
        None => Err(CoderError::MalformedInput),
    }
}

/// A parsed schema. It does not change once it is made.
pub struct Coder {
    functions: Vec<FunctionSignature>,
}

impl View for Coder {
    type V = Seq<FunctionSignatureView>;

    closed spec fn view(&self) -> Seq<FunctionSignatureView> {
        signature_views(self.functions@)
    }
}

impl Coder {
    #[verifier::type_invariant]
    spec fn every_type_declarable(self) -> bool {
        schema_declarable(signature_views(self.functions@))
    }

    /// Makes a coder of the functions of a schema. They are turned down
    /// where one of them names a type that a schema may not declare.
    #[verifier::loop_isolation(false)]
    pub fn from_functions(functions: Vec<FunctionSignature>) -> (r: Result<Self, CoderError>)
        ensures
            match r {
                Ok(coder) => coder@ == signature_views(functions@) && schema_declarable(coder@),
                Err(e) => e == CoderError::SchemaParse && !schema_declarable(
                    signature_views(functions@),
                ),
            },
    {
        let ghost views = signature_views(functions@);
        let mut i: usize = 0;
        while i < functions.len()
            invariant
                i <= functions@.len(),
                forall|j: int| 0 <= j < i ==> signature_declarable(#[trigger] views[j]),
            decreases functions@.len() - i,
        {
            if !are_declarable(&functions[i].inputs) || !are_declarable(&functions[i].outputs) {
                assert(!signature_declarable(views[i as int]));
                return Err(CoderError::SchemaParse);
            }
            i += 1;
        }
        Ok(Coder { functions })
    }

    /// Parses an interface description. It is turned down where a name in
    /// it is not safe to read, where it cannot be read, or where it names a
    /// type that a schema may not declare.
    pub fn new(abi_json: &str) -> (r: Result<Self, CoderError>)
        ensures
            same_coder(r, described(abi_json@)),
    {
        if !names_safe(abi_json) {
            return Err(CoderError::SchemaParse);
        }
        match load_functions(abi_json) {
            Some(functions) => Coder::from_functions(functions),
            None => Err(CoderError::SchemaParse),
        }
    }

    /// The first function of the name `function`.
    #[verifier::loop_isolation(false)]
    fn find(&self, function: &str) -> (r: Option<&FunctionSignature>)
        ensures
            match r {
                Some(signature) => lookup(self@, function@) == Some(signature@)
                    && signature_declarable(signature@),
                None => lookup(self@, function@).is_none(),
            },
    {
        proof {
            use_type_invariant(self);
        }
        let name = function.to_owned();
        let ghost views = signature_views(self.functions@);
        let mut i: usize = 0;
        while i < self.functions.len()
            invariant
                i <= self.functions@.len(),
                lookup(views, function@) == lookup_from(views, function@, i as nat),
            decreases self.functions@.len() - i,
        {
            if self.functions[i].name == name {
                assert(views[i as int].name == function@);
                return Some(&self.functions[i]);
            }
            i += 1;
        }
        None
    }

    /// The declared input types of a function, in order.
    pub fn argument_types(&self, function: &str) -> (r: Result<Vec<ParameterType>, CoderError>)
        ensures
            match r {
                Ok(types) => lookup(self@, function@) matches Some(signature) && type_views(types@)
                    == signature.inputs && all_well_formed(type_views(types@)),
                Err(e) => e == CoderError::FunctionNotFound && lookup(self@, function@).is_none(),
            },
    {
        match self.find(function) {
            Some(signature) => Ok(copy_types(&signature.inputs)),
            None => Err(CoderError::FunctionNotFound),
        }
    }

    /// Encodes a call of a function: the selector and the layout of the
    /// tokens, as lower-case hexadecimal text without `0x`.
    pub fn encode_input(&self, function: &str, arguments: &[TypedToken]) -> (r: Result<
        String,
        CoderError,
    >)
        ensures
            match lookup(self@, function@) {
                Some(signature) => same_text(r, encoded_call(signature, token_views(arguments@)))
                    && (r matches Ok(text) ==> framed(
                    text@,
                    selector(signature.name, signature.inputs),
                )),
                None => r == Err::<String, CoderError>(CoderError::FunctionNotFound),
            },
    {
        let signature = match self.find(function) {
            Some(signature) => signature,
            None => { return Err(CoderError::FunctionNotFound); },
        };
        if arguments.len() != signature.inputs.len() {
            return Err(CoderError::ArityMismatch);
        }
        if !types_check(arguments, &signature.inputs) {
            return Err(CoderError::TypeMismatch);
        }
        if tokens_bound(arguments).is_none() {
            return Err(CoderError::LengthOverflow);
        }
        let head = short_signature(signature.name.as_str(), &signature.inputs);
        let body = abi_encode(arguments);
        Ok(frame_call(&head, body))
    }

    /// Decodes the data of a call of a function into the tokens of its
    /// inputs. The text holds the selector, which is taken off unread.
    pub fn decode_input(&self, function: &str, data: &str) -> (r: Result<
        Vec<TypedToken>,
        CoderError,
    >)
        ensures
            match lookup(self@, function@) {
                Some(signature) => same_tokens(r, decoded_input(signature.inputs, data@)),
                None => r == Err::<Vec<TypedToken>, CoderError>(CoderError::FunctionNotFound),
            },
    {
        let signature = match self.find(function) {
            Some(signature) => signature,
            None => { return Err(CoderError::FunctionNotFound); },
        };
        let payload = match remove_bytes4(data) {
            Ok(payload) => payload,
            Err(e) => { return Err(e); },
        };
        decode_data(&signature.inputs, payload)
    }

    /// Decodes the data that a function returned into the tokens of its
    /// outputs.
    pub fn decode_output(&self, function: &str, data: &str) -> (r: Result<
        Vec<TypedToken>,
        CoderError,
    >)
        ensures
            match lookup(self@, function@) {
                Some(signature) => same_tokens(r, decoded_output(signature.outputs, data@)),
                None => r == Err::<Vec<TypedToken>, CoderError>(CoderError::FunctionNotFound),
            },
    {
        let signature = match self.find(function) {
            Some(signature) => signature,
            None => { return Err(CoderError::FunctionNotFound); },
        };
        let payload = match remove_hex_prefix(data) {
            Ok(payload) => payload,
            Err(e) => { return Err(e); },
        };
        decode_data(&signature.outputs, payload)
    }
}

} // verus!
