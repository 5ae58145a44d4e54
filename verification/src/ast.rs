//! The in-memory model of a WebIDL bindings section.
//!
//! All cross-references are typed handles holding the referent's position in
//! its arena; a handle's position is also the index the wire format uses for
//! it. Each arena is append-only, so positions are stable once assigned.

use vstd::prelude::*;

verus! {

/// Handle of a compound type: its position in the type arena.
#[derive(Clone, Copy, Debug, PartialEq, Eq, Structural)]
pub struct WebidlCompoundTypeId(pub u32);

/// Handle of a function binding: its position in the binding arena.
#[derive(Clone, Copy, Debug, PartialEq, Eq, Structural)]
pub struct FunctionBindingId(pub u32);

/// Handle of a bind statement: its position in the bind arena.
#[derive(Clone, Copy, Debug, PartialEq, Eq, Structural)]
pub struct BindId(pub u32);

/// A function in the host module's function index space.
#[derive(Clone, Copy, Debug, PartialEq, Eq, Structural)]
pub struct WasmFuncRef(pub u32);

/// A function type in the host module's type index space.
#[derive(Clone, Copy, Debug, PartialEq, Eq, Structural)]
pub struct WasmFuncTypeRef(pub u32);

/// The sizes of the host module's index spaces. Decoding resolves host
/// function and function-type indices against these bounds; an index at or
/// past the bound does not resolve.
#[derive(Clone, Copy, Debug, PartialEq, Eq, Structural)]
pub struct HostIndices {
    pub func_count: u32,
    pub func_type_count: u32,
}

/// A WebAssembly value type, as the wire format knows them.
#[derive(Clone, Copy, Debug, PartialEq, Eq, Structural)]
pub enum WasmValType {
    I32,
    I64,
    F32,
    F64,
    V128,
    Anyref,
}

/// The thirty scalar WebIDL types the wire format can name directly.
#[derive(Clone, Copy, Debug, PartialEq, Eq, Structural)]
pub enum WebidlScalarType {
    Any,
    Boolean,
    Byte,
    Octet,
    Long,
    UnsignedLong,
    Short,
    UnsignedShort,
    LongLong,
    UnsignedLongLong,
    Float,
    UnrestrictedFloat,
    Double,
    UnrestrictedDouble,
    DomString,
    ByteString,
    UsvString,
    Object,
    Symbol,
    ArrayBuffer,
    DataView,
    Int8Array,
    Int16Array,
    Int32Array,
    Uint8Array,
    Uint16Array,
    Uint32Array,
    Uint8ClampedArray,
    Float32Array,
    Float64Array,
}

/// A reference to a WebIDL type: either a handle into the compound-type
/// arena, or one of the scalar types. A scalar never needs an arena lookup; a
/// handle always does.
#[derive(Clone, Copy, Debug, PartialEq, Eq, Structural)]
pub enum WebidlTypeRef {
    Id(WebidlCompoundTypeId),
    Scalar(WebidlScalarType),
}

impl WebidlTypeRef {
    /// The compound-type handle, or `None` if this is a scalar.
    pub fn id(&self) -> (r: Option<WebidlCompoundTypeId>)
        ensures
            r == (match *self {
                WebidlTypeRef::Id(id) => Some(id),
                WebidlTypeRef::Scalar(_) => None::<WebidlCompoundTypeId>,
            }),
    {
        match self {
            WebidlTypeRef::Id(id) => Some(*id),
            WebidlTypeRef::Scalar(_) => None,
        }
    }

    /// The scalar type, or `None` if this is a compound-type handle.
    pub fn scalar(&self) -> (r: Option<WebidlScalarType>)
        ensures
            r == (match *self {
                WebidlTypeRef::Scalar(s) => Some(s),
                WebidlTypeRef::Id(_) => None::<WebidlScalarType>,
            }),
    {
        match self {
            WebidlTypeRef::Scalar(s) => Some(*s),
            WebidlTypeRef::Id(_) => None,
        }
    }
}

/// A compound WebIDL type, one of the four kinds the wire format stores.
#[derive(Clone, Debug, PartialEq, Eq)]
pub enum WebidlCompoundType {
    Function(WebidlFunction),
    Dictionary(WebidlDictionary),
    Enumeration(WebidlEnumeration),
    Union(WebidlUnion),
}

/// A WebIDL function type: a call kind, ordered parameters, optional result.
#[derive(Clone, Debug, PartialEq, Eq)]
pub struct WebidlFunction {
    pub kind: WebidlFunctionKind,
    pub params: Vec<WebidlTypeRef>,
    pub result: Option<WebidlTypeRef>,
}

#[derive(Clone, Copy, Debug, PartialEq, Eq, Structural)]
pub enum WebidlFunctionKind {
    Static,
    Method(WebidlFunctionKindMethod),
    Constructor,
}

#[derive(Clone, Copy, Debug, PartialEq, Eq, Structural)]
pub struct WebidlFunctionKindMethod {
    pub ty: WebidlTypeRef,
}

/// A dictionary type: ordered named fields. Field names are UTF-8 bytes.
#[derive(Clone, Debug, PartialEq, Eq)]
pub struct WebidlDictionary {
    pub fields: Vec<WebidlDictionaryField>,
}

#[derive(Clone, Debug, PartialEq, Eq)]
pub struct WebidlDictionaryField {
    pub name: Vec<u8>,
    pub ty: WebidlTypeRef,
}

/// An enumeration type: ordered string values, each UTF-8 bytes.
#[derive(Clone, Debug, PartialEq, Eq)]
pub struct WebidlEnumeration {
    pub values: Vec<Vec<u8>>,
}

/// A union type: ordered member type references.
#[derive(Clone, Debug, PartialEq, Eq)]
pub struct WebidlUnion {
    pub members: Vec<WebidlTypeRef>,
}

/// An expression computing one outgoing value (leaving WebAssembly).
#[derive(Debug, PartialEq, Eq)]
pub enum OutgoingBindingExpression {
    As(OutgoingBindingExpressionAs),
    Utf8Str(OutgoingBindingExpressionUtf8Str),
    Utf8CStr(OutgoingBindingExpressionUtf8CStr),
    I32ToEnum(OutgoingBindingExpressionI32ToEnum),
    View(OutgoingBindingExpressionView),
    Copy(OutgoingBindingExpressionCopy),
    Dict(OutgoingBindingExpressionDict),
    BindExport(OutgoingBindingExpressionBindExport),
}

#[derive(Clone, Copy, Debug, PartialEq, Eq, Structural)]
pub struct OutgoingBindingExpressionAs {
    pub ty: WebidlTypeRef,
    pub idx: u32,
}

#[derive(Clone, Copy, Debug, PartialEq, Eq, Structural)]
pub struct OutgoingBindingExpressionUtf8Str {
    pub ty: WebidlTypeRef,
    pub offset: u32,
    pub length: u32,
}

#[derive(Clone, Copy, Debug, PartialEq, Eq, Structural)]
pub struct OutgoingBindingExpressionUtf8CStr {
    pub ty: WebidlTypeRef,
    pub offset: u32,
}

#[derive(Clone, Copy, Debug, PartialEq, Eq, Structural)]
pub struct OutgoingBindingExpressionI32ToEnum {
    pub ty: WebidlTypeRef,
    pub idx: u32,
}

#[derive(Clone, Copy, Debug, PartialEq, Eq, Structural)]
pub struct OutgoingBindingExpressionView {
    pub ty: WebidlTypeRef,
    pub offset: u32,
    pub length: u32,
}

#[derive(Clone, Copy, Debug, PartialEq, Eq, Structural)]
pub struct OutgoingBindingExpressionCopy {
    pub ty: WebidlTypeRef,
    pub offset: u32,
    pub length: u32,
}

#[derive(Debug, PartialEq, Eq)]
pub struct OutgoingBindingExpressionDict {
    pub ty: WebidlTypeRef,
    pub fields: Vec<OutgoingBindingExpression>,
}

#[derive(Clone, Copy, Debug, PartialEq, Eq, Structural)]
pub struct OutgoingBindingExpressionBindExport {
    pub ty: WebidlTypeRef,
    pub binding: FunctionBindingId,
    pub idx: u32,
}

/// An expression computing one incoming value (entering WebAssembly).
#[derive(Debug, PartialEq, Eq)]
pub enum IncomingBindingExpression {
    Get(IncomingBindingExpressionGet),
    As(IncomingBindingExpressionAs),
    AllocUtf8Str(IncomingBindingExpressionAllocUtf8Str),
    AllocCopy(IncomingBindingExpressionAllocCopy),
    EnumToI32(IncomingBindingExpressionEnumToI32),
    Field(IncomingBindingExpressionField),
    BindImport(IncomingBindingExpressionBindImport),
}

#[derive(Clone, Copy, Debug, PartialEq, Eq, Structural)]
pub struct IncomingBindingExpressionGet {
    pub idx: u32,
}

#[derive(Debug, PartialEq, Eq)]
pub struct IncomingBindingExpressionAs {
    pub ty: WasmValType,
    pub expr: Box<IncomingBindingExpression>,
}

#[derive(Debug, PartialEq, Eq)]
pub struct IncomingBindingExpressionAllocUtf8Str {
    pub alloc_func_name: Vec<u8>,
    pub expr: Box<IncomingBindingExpression>,
}

#[derive(Debug, PartialEq, Eq)]
pub struct IncomingBindingExpressionAllocCopy {
    pub alloc_func_name: Vec<u8>,
    pub expr: Box<IncomingBindingExpression>,
}

#[derive(Debug, PartialEq, Eq)]
pub struct IncomingBindingExpressionEnumToI32 {
    pub ty: WebidlTypeRef,
    pub expr: Box<IncomingBindingExpression>,
}

#[derive(Debug, PartialEq, Eq)]
pub struct IncomingBindingExpressionField {
    pub idx: u32,
    pub expr: Box<IncomingBindingExpression>,
}

#[derive(Debug, PartialEq, Eq)]
pub struct IncomingBindingExpressionBindImport {
    pub ty: WasmFuncTypeRef,
    pub binding: FunctionBindingId,
    pub expr: Box<IncomingBindingExpression>,
}

/// The ordered outgoing expressions of one direction of a binding.
#[derive(Debug, PartialEq, Eq)]
pub struct OutgoingBindingMap {
    pub bindings: Vec<OutgoingBindingExpression>,
}

/// The ordered incoming expressions of one direction of a binding.
#[derive(Debug, PartialEq, Eq)]
pub struct IncomingBindingMap {
    pub bindings: Vec<IncomingBindingExpression>,
}

/// A function binding: an import or an export.
#[derive(Debug, PartialEq, Eq)]
pub enum FunctionBinding {
    Import(ImportBinding),
    Export(ExportBinding),
}

/// Binds an imported host function type to a WebIDL function type: params go
/// out of WebAssembly, the result comes in.
#[derive(Debug, PartialEq, Eq)]
pub struct ImportBinding {
    pub wasm_ty: WasmFuncTypeRef,
    pub webidl_ty: WebidlTypeRef,
    pub params: OutgoingBindingMap,
    pub result: IncomingBindingMap,
}

/// Binds an exported host function type to a WebIDL function type: params
/// come into WebAssembly, the result goes out.
#[derive(Debug, PartialEq, Eq)]
pub struct ExportBinding {
    pub wasm_ty: WasmFuncTypeRef,
    pub webidl_ty: WebidlTypeRef,
    pub params: IncomingBindingMap,
    pub result: OutgoingBindingMap,
}

/// Associates a host function with a function binding.
#[derive(Clone, Copy, Debug, PartialEq, Eq, Structural)]
pub struct Bind {
    pub func: WasmFuncRef,
    pub binding: FunctionBindingId,
}

// ---------------------------------------------------------------------------
// Mathematical views of the model, used by every contract.
// ---------------------------------------------------------------------------

pub struct WebidlFunctionV {
    pub kind: WebidlFunctionKind,
    pub params: Seq<WebidlTypeRef>,
    pub result: Option<WebidlTypeRef>,
}

pub struct WebidlDictionaryFieldV {
    pub name: Seq<u8>,
    pub ty: WebidlTypeRef,
}

pub struct WebidlDictionaryV {
    pub fields: Seq<WebidlDictionaryFieldV>,
}

pub struct WebidlEnumerationV {
    pub values: Seq<Seq<u8>>,
}

pub struct WebidlUnionV {
    pub members: Seq<WebidlTypeRef>,
}

pub enum WebidlCompoundTypeV {
    Function(WebidlFunctionV),
    Dictionary(WebidlDictionaryV),
    Enumeration(WebidlEnumerationV),
    Union(WebidlUnionV),
}

pub enum OutgoingBindingExpressionV {
    As { ty: WebidlTypeRef, idx: u32 },
    Utf8Str { ty: WebidlTypeRef, offset: u32, length: u32 },
    Utf8CStr { ty: WebidlTypeRef, offset: u32 },
    I32ToEnum { ty: WebidlTypeRef, idx: u32 },
    View { ty: WebidlTypeRef, offset: u32, length: u32 },
    Copy { ty: WebidlTypeRef, offset: u32, length: u32 },
    Dict { ty: WebidlTypeRef, fields: Seq<OutgoingBindingExpressionV> },
    BindExport { ty: WebidlTypeRef, binding: FunctionBindingId, idx: u32 },
}

pub enum IncomingBindingExpressionV {
    Get { idx: u32 },
    As { ty: WasmValType, expr: Box<IncomingBindingExpressionV> },
    AllocUtf8Str { alloc_func_name: Seq<u8>, expr: Box<IncomingBindingExpressionV> },
    AllocCopy { alloc_func_name: Seq<u8>, expr: Box<IncomingBindingExpressionV> },
    EnumToI32 { ty: WebidlTypeRef, expr: Box<IncomingBindingExpressionV> },
    Field { idx: u32, expr: Box<IncomingBindingExpressionV> },
    BindImport { ty: WasmFuncTypeRef, binding: FunctionBindingId, expr: Box<IncomingBindingExpressionV> },
}

pub struct ImportBindingV {
    pub wasm_ty: WasmFuncTypeRef,
    pub webidl_ty: WebidlTypeRef,
    pub params: Seq<OutgoingBindingExpressionV>,
    pub result: Seq<IncomingBindingExpressionV>,
}

pub struct ExportBindingV {
    pub wasm_ty: WasmFuncTypeRef,
    pub webidl_ty: WebidlTypeRef,
    pub params: Seq<IncomingBindingExpressionV>,
    pub result: Seq<OutgoingBindingExpressionV>,
}

pub enum FunctionBindingV {
    Import(ImportBindingV),
    Export(ExportBindingV),
}

impl View for WebidlDictionaryField {
    type V = WebidlDictionaryFieldV;

    open spec fn view(&self) -> WebidlDictionaryFieldV {
        WebidlDictionaryFieldV { name: self.name@, ty: self.ty }
    }
}

impl View for WebidlFunction {
    type V = WebidlFunctionV;

    open spec fn view(&self) -> WebidlFunctionV {
        WebidlFunctionV { kind: self.kind, params: self.params@, result: self.result }
    }
}

impl View for WebidlDictionary {
    type V = WebidlDictionaryV;

    open spec fn view(&self) -> WebidlDictionaryV {
        WebidlDictionaryV { fields: self.fields@.map_values(|f: WebidlDictionaryField| f@) }
    }
}

impl View for WebidlEnumeration {
    type V = WebidlEnumerationV;

    open spec fn view(&self) -> WebidlEnumerationV {
        WebidlEnumerationV { values: self.values@.map_values(|v: Vec<u8>| v@) }
    }
}

impl View for WebidlUnion {
    type V = WebidlUnionV;

    open spec fn view(&self) -> WebidlUnionV {
        WebidlUnionV { members: self.members@ }
    }
}

impl View for WebidlCompoundType {
    type V = WebidlCompoundTypeV;

    open spec fn view(&self) -> WebidlCompoundTypeV {
        match *self {
            WebidlCompoundType::Function(f) => WebidlCompoundTypeV::Function(f@),
            WebidlCompoundType::Dictionary(d) => WebidlCompoundTypeV::Dictionary(d@),
            WebidlCompoundType::Enumeration(e) => WebidlCompoundTypeV::Enumeration(e@),
            WebidlCompoundType::Union(u) => WebidlCompoundTypeV::Union(u@),
        }
    }
}

/// View of a sequence of outgoing expressions, element by element.
pub open spec fn out_exprs_view(v: Seq<OutgoingBindingExpression>) -> Seq<OutgoingBindingExpressionV>
    decreases v,
{
    if v.len() == 0 {
        Seq::empty()
    } else {
        seq![v[0]@] + out_exprs_view(v.drop_first())
    }
}

impl View for OutgoingBindingExpression {
    type V = OutgoingBindingExpressionV;

    open spec fn view(&self) -> OutgoingBindingExpressionV
        decreases self,
    {
        match *self {
            OutgoingBindingExpression::As(e) => OutgoingBindingExpressionV::As { ty: e.ty, idx: e.idx },
            OutgoingBindingExpression::Utf8Str(e) => OutgoingBindingExpressionV::Utf8Str {
                ty: e.ty,
                offset: e.offset,
                length: e.length,
            },
            OutgoingBindingExpression::Utf8CStr(e) => OutgoingBindingExpressionV::Utf8CStr {
                ty: e.ty,
                offset: e.offset,
            },
            OutgoingBindingExpression::I32ToEnum(e) => OutgoingBindingExpressionV::I32ToEnum {
                ty: e.ty,
                idx: e.idx,
            },
            OutgoingBindingExpression::View(e) => OutgoingBindingExpressionV::View {
                ty: e.ty,
                offset: e.offset,
                length: e.length,
            },
            OutgoingBindingExpression::Copy(e) => OutgoingBindingExpressionV::Copy {
                ty: e.ty,
                offset: e.offset,
                length: e.length,
            },
            OutgoingBindingExpression::Dict(e) => OutgoingBindingExpressionV::Dict {
                ty: e.ty,
                fields: out_exprs_view(e.fields@),
            },
            OutgoingBindingExpression::BindExport(e) => OutgoingBindingExpressionV::BindExport {
                ty: e.ty,
                binding: e.binding,
                idx: e.idx,
            },
        }
    }
}

impl View for IncomingBindingExpression {
    type V = IncomingBindingExpressionV;

    open spec fn view(&self) -> IncomingBindingExpressionV
        decreases self,
    {
        match *self {
            IncomingBindingExpression::Get(e) => IncomingBindingExpressionV::Get { idx: e.idx },
            IncomingBindingExpression::As(e) => IncomingBindingExpressionV::As {
                ty: e.ty,
                expr: Box::new((*e.expr)@),
            },
            IncomingBindingExpression::AllocUtf8Str(e) => IncomingBindingExpressionV::AllocUtf8Str {
                alloc_func_name: e.alloc_func_name@,
                expr: Box::new((*e.expr)@),
            },
            IncomingBindingExpression::AllocCopy(e) => IncomingBindingExpressionV::AllocCopy {
                alloc_func_name: e.alloc_func_name@,
                expr: Box::new((*e.expr)@),
            },
            IncomingBindingExpression::EnumToI32(e) => IncomingBindingExpressionV::EnumToI32 {
                ty: e.ty,
                expr: Box::new((*e.expr)@),
            },
            IncomingBindingExpression::Field(e) => IncomingBindingExpressionV::Field {
                idx: e.idx,
                expr: Box::new((*e.expr)@),
            },
            IncomingBindingExpression::BindImport(e) => IncomingBindingExpressionV::BindImport {
                ty: e.ty,
                binding: e.binding,
                expr: Box::new((*e.expr)@),
            },
        }
    }
}

/// View of a sequence of incoming expressions, element by element.
pub open spec fn in_exprs_view(v: Seq<IncomingBindingExpression>) -> Seq<IncomingBindingExpressionV>
    decreases v,
{
    if v.len() == 0 {
        Seq::empty()
    } else {
        seq![v[0]@] + in_exprs_view(v.drop_first())
    }
}

impl View for OutgoingBindingMap {
    type V = Seq<OutgoingBindingExpressionV>;

    open spec fn view(&self) -> Seq<OutgoingBindingExpressionV> {
        out_exprs_view(self.bindings@)
    }
}

impl View for IncomingBindingMap {
    type V = Seq<IncomingBindingExpressionV>;

    open spec fn view(&self) -> Seq<IncomingBindingExpressionV> {
        in_exprs_view(self.bindings@)
    }
}

impl View for ImportBinding {
    type V = ImportBindingV;

    open spec fn view(&self) -> ImportBindingV {
        ImportBindingV {
            wasm_ty: self.wasm_ty,
            webidl_ty: self.webidl_ty,
            params: self.params@,
            result: self.result@,
        }
    }
}

impl View for ExportBinding {
    type V = ExportBindingV;

    open spec fn view(&self) -> ExportBindingV {
        ExportBindingV {
            wasm_ty: self.wasm_ty,
            webidl_ty: self.webidl_ty,
            params: self.params@,
            result: self.result@,
        }
    }
}

impl View for FunctionBinding {
    type V = FunctionBindingV;

    open spec fn view(&self) -> FunctionBindingV {
        match *self {
            FunctionBinding::Import(b) => FunctionBindingV::Import(b@),
            FunctionBinding::Export(b) => FunctionBindingV::Export(b@),
        }
    }
}

// ---------------------------------------------------------------------------
// The three arenas and the section container.
// ---------------------------------------------------------------------------

/// The handle registered under `name`, if any: the one registered last wins.
pub open spec fn lookup_name<T>(names: Seq<(Seq<u8>, T)>, name: Seq<u8>) -> Option<T>
    decreases names.len(),
{
    if names.len() == 0 {
        None
    } else if names.last().0 == name {
        Some(names.last().1)
    } else {
        lookup_name(names.drop_last(), name)
    }
}

/// Byte-for-byte equality of two byte strings.
fn bytes_eq(a: &[u8], b: &[u8]) -> (r: bool)
    ensures
        r == (a@ == b@),
{
    if a.len() != b.len() {
        assert(a@ != b@) by {
            assert(a@.len() != b@.len());
        }
        return false;
    }
    let n = a.len();
    let mut i: usize = 0;
    while i < n
        invariant
            n == a@.len() && n == b@.len(),
            i <= n,
            forall|j: int| 0 <= j < i ==> a@[j] == b@[j],
        decreases n - i,
    {
        if a[i] != b[i] {
            return false;
        }
        i = i + 1;
    }
    assert(a@ =~= b@);
    true
}

/// A host function signature, as the narrow lookup interface reports it:
/// the value types of the parameters and of the results.
#[derive(Clone, Debug, PartialEq, Eq)]
pub struct WasmFuncType {
    pub params: Vec<WasmValType>,
    pub results: Vec<WasmValType>,
}

pub struct WasmFuncTypeV {
    pub params: Seq<WasmValType>,
    pub results: Seq<WasmValType>,
}

impl View for WasmFuncType {
    type V = WasmFuncTypeV;

    open spec fn view(&self) -> WasmFuncTypeV {
        WasmFuncTypeV { params: self.params@, results: self.results@ }
    }
}

/// `out_exprs_view` maps the sequence element by element.
pub broadcast proof fn lemma_out_exprs_view_props(v: Seq<OutgoingBindingExpression>)
    ensures
        (#[trigger] out_exprs_view(v)).len() == v.len(),
        forall|i: int| 0 <= i < v.len() ==> out_exprs_view(v)[i] == v[i]@,
    decreases v,
{
    if v.len() == 0 {
        assert(out_exprs_view(v) =~= Seq::<OutgoingBindingExpressionV>::empty());
    }
    if v.len() > 0 {
        lemma_out_exprs_view_props(v.drop_first());
        assert(out_exprs_view(v) == seq![v[0]@] + out_exprs_view(v.drop_first()));
        assert forall|i: int| 0 <= i < v.len() implies out_exprs_view(v)[i] == v[i]@ by {
            if i == 0 {
                assert(out_exprs_view(v)[0] == v[0]@);
            } else {
                assert(out_exprs_view(v) == seq![v[0]@] + out_exprs_view(v.drop_first()));
                assert(out_exprs_view(v)[i] == out_exprs_view(v.drop_first())[i - 1]);
                assert(v.drop_first()[i - 1] == v[i]);
            }
        }
    }
}

/// `in_exprs_view` maps the sequence element by element.
pub broadcast proof fn lemma_in_exprs_view_props(v: Seq<IncomingBindingExpression>)
    ensures
        (#[trigger] in_exprs_view(v)).len() == v.len(),
        forall|i: int| 0 <= i < v.len() ==> in_exprs_view(v)[i] == v[i]@,
    decreases v,
{
    if v.len() == 0 {
        assert(in_exprs_view(v) =~= Seq::<IncomingBindingExpressionV>::empty());
    }
    if v.len() > 0 {
        lemma_in_exprs_view_props(v.drop_first());
        assert(in_exprs_view(v) == seq![v[0]@] + in_exprs_view(v.drop_first()));
        assert forall|i: int| 0 <= i < v.len() implies in_exprs_view(v)[i] == v[i]@ by {
            if i == 0 {
                assert(in_exprs_view(v)[0] == v[0]@);
            } else {
                assert(in_exprs_view(v) == seq![v[0]@] + in_exprs_view(v.drop_first()));
                assert(in_exprs_view(v)[i] == in_exprs_view(v.drop_first())[i - 1]);
                assert(v.drop_first()[i - 1] == v[i]);
            }
        }
    }
}

/// Appending an expression appends its view.
pub proof fn lemma_out_exprs_view_snoc(xs: Seq<OutgoingBindingExpression>, x: OutgoingBindingExpression)
    ensures
        out_exprs_view(xs.push(x)) == out_exprs_view(xs).push(x@),
{
    lemma_out_exprs_view_props(xs.push(x));
    lemma_out_exprs_view_props(xs);
    assert(out_exprs_view(xs.push(x)) =~= out_exprs_view(xs).push(x@));
}

/// Appending an expression appends its view.
pub proof fn lemma_in_exprs_view_snoc(xs: Seq<IncomingBindingExpression>, x: IncomingBindingExpression)
    ensures
        in_exprs_view(xs.push(x)) == in_exprs_view(xs).push(x@),
{
    lemma_in_exprs_view_props(xs.push(x));
    lemma_in_exprs_view_props(xs);
    assert(in_exprs_view(xs.push(x)) =~= in_exprs_view(xs).push(x@));
}

/// The compound-type arena: append-only, with an optional name per entry.
#[derive(Clone, Debug, PartialEq, Eq)]
pub struct WebidlTypes {
    pub names: Vec<(Vec<u8>, WebidlCompoundTypeId)>,
    pub arena: Vec<WebidlCompoundType>,
}

pub struct WebidlTypesV {
    pub names: Seq<(Seq<u8>, WebidlCompoundTypeId)>,
    pub arena: Seq<WebidlCompoundTypeV>,
}

impl View for WebidlTypes {
    type V = WebidlTypesV;

    open spec fn view(&self) -> WebidlTypesV {
        WebidlTypesV {
            names: self.names@.map_values(|p: (Vec<u8>, WebidlCompoundTypeId)| (p.0@, p.1)),
            arena: self.arena@.map_values(|t: WebidlCompoundType| t@),
        }
    }
}

impl WebidlTypes {
    pub fn new() -> (r: Self)
        ensures
            r@.names.len() == 0,
            r@.arena.len() == 0,
    {
        WebidlTypes { names: Vec::new(), arena: Vec::new() }
    }

    /// Appends `ty`; its handle is the next free position.
    pub fn insert(&mut self, ty: WebidlCompoundType) -> (id: WebidlCompoundTypeId)
        requires
            old(self)@.arena.len() <= u32::MAX as int,
        ensures
            final(self)@.arena == old(self)@.arena.push(ty@),
            final(self)@.names == old(self)@.names,
            id.0 as int == old(self)@.arena.len(),
    {
        let id = WebidlCompoundTypeId(self.arena.len() as u32);
        self.arena.push(ty);
        proof {
            assert(self@.arena =~= old(self)@.arena.push(self.arena@.last()@));
        }
        id
    }

    /// Appends `ty` and registers `name` for the new handle.
    pub fn insert_named(&mut self, name: Vec<u8>, ty: WebidlCompoundType) -> (id: WebidlCompoundTypeId)
        requires
            old(self)@.arena.len() <= u32::MAX as int,
        ensures
            final(self)@.arena == old(self)@.arena.push(ty@),
            final(self)@.names == old(self)@.names.push((name@, id)),
            id.0 as int == old(self)@.arena.len(),
    {
        let ghost name_view = name@;
        let id = WebidlCompoundTypeId(self.arena.len() as u32);
        self.arena.push(ty);
        self.names.push((name, id));
        proof {
            assert(self@.arena =~= old(self)@.arena.push(self.arena@.last()@));
            assert(self@.names =~= old(self)@.names.push((name_view, id)));
        }
        id
    }

    /// The handle registered under `name`, if any; names registered later win.
    pub fn by_name(&self, name: &[u8]) -> (r: Option<WebidlCompoundTypeId>)
        ensures
            r == lookup_name(self@.names, name@),
    {
        let n = self.names.len();
        proof {
            assert(self@.names.take(n as int) =~= self@.names);
        }
        let mut i: usize = n;
        while i > 0
            invariant
                i <= n && n == self.names@.len(),
                lookup_name(self@.names, name@) == lookup_name(self@.names.take(i as int), name@),
            decreases i,
        {
            i = i - 1;
            let entry = &self.names[i];
            proof {
                assert(self@.names.take(i + 1).last() == (self.names@[i as int].0@, self.names@[i as int].1));
                assert(self@.names.take(i + 1).drop_last() =~= self@.names.take(i as int));
            }
            if bytes_eq(entry.0.as_slice(), name) {
                return Some(entry.1);
            }
        }
        proof {
            assert(self@.names.take(0) =~= Seq::<(Seq<u8>, WebidlCompoundTypeId)>::empty());
        }
        None
    }

    /// The handle at `index`, if the arena has that many entries.
    pub fn by_index(&self, index: u32) -> (r: Option<WebidlCompoundTypeId>)
        ensures
            r == if (index as int) < self@.arena.len() {
                Some(WebidlCompoundTypeId(index))
            } else {
                None::<WebidlCompoundTypeId>
            },
    {
        if (index as usize) < self.arena.len() {
            Some(WebidlCompoundTypeId(index))
        } else {
            None
        }
    }

    /// The entry a handle stands for, if the handle is in range.
    pub fn get(&self, id: WebidlCompoundTypeId) -> (r: Option<&WebidlCompoundType>)
        ensures
            match r {
                Some(t) => (id.0 as int) < self@.arena.len() && t@ == self@.arena[id.0 as int],
                None => (id.0 as int) >= self@.arena.len(),
            },
    {
        if (id.0 as usize) < self.arena.len() {
            Some(&self.arena[id.0 as usize])
        } else {
            None
        }
    }

    /// How many types the arena holds.
    pub fn len(&self) -> (n: usize)
        ensures
            n == self@.arena.len(),
    {
        self.arena.len()
    }
}

/// The function-binding arena: append-only, with an optional name per entry.
#[derive(Debug, PartialEq, Eq)]
pub struct FunctionBindings {
    pub names: Vec<(Vec<u8>, FunctionBindingId)>,
    pub arena: Vec<FunctionBinding>,
}

pub struct FunctionBindingsV {
    pub names: Seq<(Seq<u8>, FunctionBindingId)>,
    pub arena: Seq<FunctionBindingV>,
}

impl View for FunctionBindings {
    type V = FunctionBindingsV;

    open spec fn view(&self) -> FunctionBindingsV {
        FunctionBindingsV {
            names: self.names@.map_values(|p: (Vec<u8>, FunctionBindingId)| (p.0@, p.1)),
            arena: self.arena@.map_values(|b: FunctionBinding| b@),
        }
    }
}

impl FunctionBindings {
    pub fn new() -> (r: Self)
        ensures
            r@.names.len() == 0,
            r@.arena.len() == 0,
    {
        FunctionBindings { names: Vec::new(), arena: Vec::new() }
    }

    /// Appends `binding`; its handle is the next free position.
    pub fn insert(&mut self, binding: FunctionBinding) -> (id: FunctionBindingId)
        requires
            old(self)@.arena.len() <= u32::MAX as int,
        ensures
            final(self)@.arena == old(self)@.arena.push(binding@),
            final(self)@.names == old(self)@.names,
            id.0 as int == old(self)@.arena.len(),
    {
        let ghost bv = binding@;
        let id = FunctionBindingId(self.arena.len() as u32);
        self.arena.push(binding);
        proof {
            assert(self@.arena =~= old(self)@.arena.push(bv));
        }
        id
    }

    /// Appends `binding` and registers `name` for the new handle.
    pub fn insert_named(&mut self, name: Vec<u8>, binding: FunctionBinding) -> (id: FunctionBindingId)
        requires
            old(self)@.arena.len() <= u32::MAX as int,
        ensures
            final(self)@.arena == old(self)@.arena.push(binding@),
            final(self)@.names == old(self)@.names.push((name@, id)),
            id.0 as int == old(self)@.arena.len(),
    {
        let ghost bv = binding@;
        let ghost name_view = name@;
        let id = FunctionBindingId(self.arena.len() as u32);
        self.arena.push(binding);
        self.names.push((name, id));
        proof {
            assert(self@.arena =~= old(self)@.arena.push(bv));
            assert(self@.names =~= old(self)@.names.push((name_view, id)));
        }
        id
    }

    /// The handle registered under `name`, if any; names registered later win.
    pub fn by_name(&self, name: &[u8]) -> (r: Option<FunctionBindingId>)
        ensures
            r == lookup_name(self@.names, name@),
    {
        let n = self.names.len();
        proof {
            assert(self@.names.take(n as int) =~= self@.names);
        }
        let mut i: usize = n;
        while i > 0
            invariant
                i <= n && n == self.names@.len(),
                lookup_name(self@.names, name@) == lookup_name(self@.names.take(i as int), name@),
            decreases i,
        {
            i = i - 1;
            let entry = &self.names[i];
            proof {
                assert(self@.names.take(i + 1).last() == (self.names@[i as int].0@, self.names@[i as int].1));
                assert(self@.names.take(i + 1).drop_last() =~= self@.names.take(i as int));
            }
            if bytes_eq(entry.0.as_slice(), name) {
                return Some(entry.1);
            }
        }
        proof {
            assert(self@.names.take(0) =~= Seq::<(Seq<u8>, FunctionBindingId)>::empty());
        }
        None
    }

    /// The handle at `index`, if the arena has that many entries.
    pub fn by_index(&self, index: u32) -> (r: Option<FunctionBindingId>)
        ensures
            r == if (index as int) < self@.arena.len() {
                Some(FunctionBindingId(index))
            } else {
                None::<FunctionBindingId>
            },
    {
        if (index as usize) < self.arena.len() {
            Some(FunctionBindingId(index))
        } else {
            None
        }
    }

    /// The entry a handle stands for, if the handle is in range.
    pub fn get(&self, id: FunctionBindingId) -> (r: Option<&FunctionBinding>)
        ensures
            match r {
                Some(b) => (id.0 as int) < self@.arena.len() && b@ == self@.arena[id.0 as int],
                None => (id.0 as int) >= self@.arena.len(),
            },
    {
        if (id.0 as usize) < self.arena.len() {
            Some(&self.arena[id.0 as usize])
        } else {
            None
        }
    }

    /// How many bindings the arena holds.
    pub fn len(&self) -> (n: usize)
        ensures
            n == self@.arena.len(),
    {
        self.arena.len()
    }
}

/// The bind arena: append-only, unnamed.
#[derive(Clone, Debug, PartialEq, Eq)]
pub struct Binds {
    pub arena: Vec<Bind>,
}

impl View for Binds {
    type V = Seq<Bind>;

    open spec fn view(&self) -> Seq<Bind> {
        self.arena@
    }
}

impl Binds {
    pub fn new() -> (r: Self)
        ensures
            r@.len() == 0,
    {
        Binds { arena: Vec::new() }
    }

    /// Appends `bind`; its handle is the next free position.
    pub fn insert(&mut self, bind: Bind) -> (id: BindId)
        requires
            old(self)@.len() <= u32::MAX as int,
        ensures
            final(self)@ == old(self)@.push(bind),
            id.0 as int == old(self)@.len(),
    {
        let id = BindId(self.arena.len() as u32);
        self.arena.push(bind);
        id
    }

    /// The handle at `index`, if the arena has that many entries.
    pub fn by_index(&self, index: u32) -> (r: Option<BindId>)
        ensures
            r == if (index as int) < self@.len() {
                Some(BindId(index))
            } else {
                None::<BindId>
            },
    {
        if (index as usize) < self.arena.len() {
            Some(BindId(index))
        } else {
            None
        }
    }

    /// The entry a handle stands for, if the handle is in range.
    pub fn get(&self, id: BindId) -> (r: Option<&Bind>)
        ensures
            match r {
                Some(b) => (id.0 as int) < self@.len() && *b == self@[id.0 as int],
                None => (id.0 as int) >= self@.len(),
            },
    {
        if (id.0 as usize) < self.arena.len() {
            Some(&self.arena[id.0 as usize])
        } else {
            None
        }
    }

    /// How many binds the arena holds.
    pub fn len(&self) -> (n: usize)
        ensures
            n == self@.len(),
    {
        self.arena.len()
    }
}

/// The whole section: the three arenas.
#[derive(Debug, PartialEq, Eq)]
pub struct WebidlBindings {
    pub types: WebidlTypes,
    pub bindings: FunctionBindings,
    pub binds: Binds,
}

pub struct WebidlBindingsV {
    pub types: WebidlTypesV,
    pub bindings: FunctionBindingsV,
    pub binds: Seq<Bind>,
}

impl View for WebidlBindings {
    type V = WebidlBindingsV;

    open spec fn view(&self) -> WebidlBindingsV {
        WebidlBindingsV { types: self.types@, bindings: self.bindings@, binds: self.binds@ }
    }
}

impl Default for WebidlBindings {
    /// A fully empty section.
    fn default() -> (r: Self)
        ensures
            r@.types.names.len() == 0,
            r@.types.arena.len() == 0,
            r@.bindings.names.len() == 0,
            r@.bindings.arena.len() == 0,
            r@.binds.len() == 0,
    {
        WebidlBindings {
            types: WebidlTypes::new(),
            bindings: FunctionBindings::new(),
            binds: Binds::new(),
        }
    }
}

} // verus!
