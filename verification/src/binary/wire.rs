//! The wire format, as mathematics: for every construct, the byte sequence
//! that encodes it, the result of decoding a byte sequence, and the
//! well-formedness a container needs for the two to invert each other.
//!
//! Layout: a type subsection (discriminant byte 0, then a counted sequence
//! of compound types), then a function-bindings subsection (discriminant
//! byte 1, a counted sequence of bindings, and a counted sequence of binds).
//! Counts and indices are unsigned LEB128; type references are signed
//! LEB128, scalars negative and arena positions non-negative; strings are
//! length-prefixed UTF-8 bytes; optional values carry a one-byte present
//! flag.

use vstd::prelude::*;

use crate::ast::Bind;
use crate::ast::FunctionBindingId;
use crate::ast::ExportBindingV;
use crate::ast::FunctionBindingV;
use crate::ast::HostIndices;
use crate::ast::ImportBindingV;
use crate::ast::IncomingBindingExpressionV;
use crate::ast::OutgoingBindingExpressionV;
use crate::ast::WasmValType;
use crate::ast::WebidlBindingsV;
use crate::ast::WebidlCompoundTypeId;
use crate::ast::WebidlCompoundTypeV;
use crate::ast::WebidlDictionaryFieldV;
use crate::ast::WebidlFunctionKind;
use crate::ast::WebidlFunctionV;
use crate::ast::WebidlScalarType;
use crate::ast::WebidlTypeRef;
use crate::binary::error::DecodeError;
use crate::binary::leb::sleb32_dec;
use crate::binary::leb::sleb_enc_nonneg;
use crate::binary::leb::uleb32_dec;
use crate::binary::leb::uleb_enc;
use crate::utf8::is_utf8;

verus! {

// ---------------------------------------------------------------------------
// Scalar type codes.
// ---------------------------------------------------------------------------

/// The signed code of a scalar type reference, in `-30..=-1`.
pub open spec fn scalar_code(s: WebidlScalarType) -> int {
    match s {
        WebidlScalarType::Any => -1,
        WebidlScalarType::Boolean => -2,
        WebidlScalarType::Byte => -3,
        WebidlScalarType::Octet => -4,
        WebidlScalarType::Long => -5,
        WebidlScalarType::UnsignedLong => -6,
        WebidlScalarType::Short => -7,
        WebidlScalarType::UnsignedShort => -8,
        WebidlScalarType::LongLong => -9,
        WebidlScalarType::UnsignedLongLong => -10,
        WebidlScalarType::Float => -11,
        WebidlScalarType::UnrestrictedFloat => -12,
        WebidlScalarType::Double => -13,
        WebidlScalarType::UnrestrictedDouble => -14,
        WebidlScalarType::DomString => -15,
        WebidlScalarType::ByteString => -16,
        WebidlScalarType::UsvString => -17,
        WebidlScalarType::Object => -18,
        WebidlScalarType::Symbol => -19,
        WebidlScalarType::ArrayBuffer => -20,
        WebidlScalarType::DataView => -21,
        WebidlScalarType::Int8Array => -22,
        WebidlScalarType::Int16Array => -23,
        WebidlScalarType::Int32Array => -24,
        WebidlScalarType::Uint8Array => -25,
        WebidlScalarType::Uint16Array => -26,
        WebidlScalarType::Uint32Array => -27,
        WebidlScalarType::Uint8ClampedArray => -28,
        WebidlScalarType::Float32Array => -29,
        WebidlScalarType::Float64Array => -30,
    }
}

/// The scalar type a signed code names; the inverse of `scalar_code` on
/// `-30..=-1`.
pub open spec fn code_scalar(c: int) -> WebidlScalarType {
    if c == -1 { WebidlScalarType::Any }
    else if c == -2 { WebidlScalarType::Boolean }
    else if c == -3 { WebidlScalarType::Byte }
    else if c == -4 { WebidlScalarType::Octet }
    else if c == -5 { WebidlScalarType::Long }
    else if c == -6 { WebidlScalarType::UnsignedLong }
    else if c == -7 { WebidlScalarType::Short }
    else if c == -8 { WebidlScalarType::UnsignedShort }
    else if c == -9 { WebidlScalarType::LongLong }
    else if c == -10 { WebidlScalarType::UnsignedLongLong }
    else if c == -11 { WebidlScalarType::Float }
    else if c == -12 { WebidlScalarType::UnrestrictedFloat }
    else if c == -13 { WebidlScalarType::Double }
    else if c == -14 { WebidlScalarType::UnrestrictedDouble }
    else if c == -15 { WebidlScalarType::DomString }
    else if c == -16 { WebidlScalarType::ByteString }
    else if c == -17 { WebidlScalarType::UsvString }
    else if c == -18 { WebidlScalarType::Object }
    else if c == -19 { WebidlScalarType::Symbol }
    else if c == -20 { WebidlScalarType::ArrayBuffer }
    else if c == -21 { WebidlScalarType::DataView }
    else if c == -22 { WebidlScalarType::Int8Array }
    else if c == -23 { WebidlScalarType::Int16Array }
    else if c == -24 { WebidlScalarType::Int32Array }
    else if c == -25 { WebidlScalarType::Uint8Array }
    else if c == -26 { WebidlScalarType::Uint16Array }
    else if c == -27 { WebidlScalarType::Uint32Array }
    else if c == -28 { WebidlScalarType::Uint8ClampedArray }
    else if c == -29 { WebidlScalarType::Float32Array }
    else { WebidlScalarType::Float64Array }
}

/// The single byte that encodes a scalar: the signed LEB128 form of its
/// code.
pub open spec fn scalar_byte(s: WebidlScalarType) -> u8 {
    (128 + scalar_code(s)) as u8
}

/// The single byte that encodes a WebAssembly value type.
pub open spec fn valtype_byte(t: WasmValType) -> u8 {
    match t {
        WasmValType::I32 => 0x7f,
        WasmValType::I64 => 0x7e,
        WasmValType::F32 => 0x7d,
        WasmValType::F64 => 0x7c,
        WasmValType::V128 => 0x7b,
        WasmValType::Anyref => 0x6f,
    }
}

// ---------------------------------------------------------------------------
// Encoding.
// ---------------------------------------------------------------------------

/// A length-prefixed byte string.
pub open spec fn enc_bytes(bs: Seq<u8>) -> Seq<u8> {
    uleb_enc(bs.len()) + bs
}

/// A type reference: scalars as their negative code, arena positions as
/// non-negative signed LEB128.
pub open spec fn enc_type_ref(r: WebidlTypeRef) -> Seq<u8> {
    match r {
        WebidlTypeRef::Scalar(s) => seq![scalar_byte(s)],
        WebidlTypeRef::Id(id) => sleb_enc_nonneg(id.0 as nat),
    }
}

/// An optional type reference: an absent/present byte, then the value.
pub open spec fn enc_opt_type_ref(o: Option<WebidlTypeRef>) -> Seq<u8> {
    match o {
        None => seq![0u8],
        Some(r) => seq![1u8] + enc_type_ref(r),
    }
}

/// A function kind: static, method with a receiver type, or constructor.
pub open spec fn enc_kind(k: WebidlFunctionKind) -> Seq<u8> {
    match k {
        WebidlFunctionKind::Static => seq![0u8],
        WebidlFunctionKind::Method(m) => seq![1u8] + enc_type_ref(m.ty),
        WebidlFunctionKind::Constructor => seq![2u8],
    }
}

/// Type references, one after the other.
pub open spec fn enc_type_refs(xs: Seq<WebidlTypeRef>) -> Seq<u8>
    decreases xs.len(),
{
    if xs.len() == 0 {
        Seq::empty()
    } else {
        enc_type_ref(xs[0]) + enc_type_refs(xs.drop_first())
    }
}

/// Dictionary fields: each a name and a type reference.
pub open spec fn enc_dict_fields(xs: Seq<WebidlDictionaryFieldV>) -> Seq<u8>
    decreases xs.len(),
{
    if xs.len() == 0 {
        Seq::empty()
    } else {
        enc_bytes(xs[0].name) + enc_type_ref(xs[0].ty) + enc_dict_fields(xs.drop_first())
    }
}

/// Enumeration values: each a string.
pub open spec fn enc_enum_values(xs: Seq<Seq<u8>>) -> Seq<u8>
    decreases xs.len(),
{
    if xs.len() == 0 {
        Seq::empty()
    } else {
        enc_bytes(xs[0]) + enc_enum_values(xs.drop_first())
    }
}

/// One compound type: a discriminant byte, then the variant's payload.
pub open spec fn enc_compound(t: WebidlCompoundTypeV) -> Seq<u8> {
    match t {
        WebidlCompoundTypeV::Function(f) => seq![0u8] + enc_kind(f.kind) + uleb_enc(
            f.params.len(),
        ) + enc_type_refs(f.params) + enc_opt_type_ref(f.result),
        WebidlCompoundTypeV::Dictionary(d) => seq![1u8] + uleb_enc(d.fields.len())
            + enc_dict_fields(d.fields),
        WebidlCompoundTypeV::Enumeration(e) => seq![2u8] + uleb_enc(e.values.len())
            + enc_enum_values(e.values),
        WebidlCompoundTypeV::Union(u) => seq![3u8] + uleb_enc(u.members.len()) + enc_type_refs(
            u.members,
        ),
    }
}

/// Compound types, one after the other.
pub open spec fn enc_compounds(xs: Seq<WebidlCompoundTypeV>) -> Seq<u8>
    decreases xs.len(),
{
    if xs.len() == 0 {
        Seq::empty()
    } else {
        enc_compound(xs[0]) + enc_compounds(xs.drop_first())
    }
}

/// One outgoing expression: a discriminant byte, then its operands;
/// `Dict` carries a counted sequence of owned children.
pub open spec fn enc_out_expr(e: OutgoingBindingExpressionV) -> Seq<u8>
    decreases e,
{
    match e {
        OutgoingBindingExpressionV::As { ty, idx } => seq![0u8] + enc_type_ref(ty) + uleb_enc(
            idx as nat,
        ),
        OutgoingBindingExpressionV::Utf8Str { ty, offset, length } => seq![1u8] + enc_type_ref(ty)
            + uleb_enc(offset as nat) + uleb_enc(length as nat),
        OutgoingBindingExpressionV::Utf8CStr { ty, offset } => seq![2u8] + enc_type_ref(ty)
            + uleb_enc(offset as nat),
        OutgoingBindingExpressionV::I32ToEnum { ty, idx } => seq![3u8] + enc_type_ref(ty)
            + uleb_enc(idx as nat),
        OutgoingBindingExpressionV::View { ty, offset, length } => seq![4u8] + enc_type_ref(ty)
            + uleb_enc(offset as nat) + uleb_enc(length as nat),
        OutgoingBindingExpressionV::Copy { ty, offset, length } => seq![5u8] + enc_type_ref(ty)
            + uleb_enc(offset as nat) + uleb_enc(length as nat),
        OutgoingBindingExpressionV::Dict { ty, fields } => seq![6u8] + enc_type_ref(ty) + uleb_enc(
            fields.len(),
        ) + enc_out_exprs(fields),
        OutgoingBindingExpressionV::BindExport { ty, binding, idx } => seq![7u8] + enc_type_ref(ty)
            + uleb_enc(binding.0 as nat) + uleb_enc(idx as nat),
    }
}

/// Outgoing expressions, one after the other.
pub open spec fn enc_out_exprs(xs: Seq<OutgoingBindingExpressionV>) -> Seq<u8>
    decreases xs,
{
    if xs.len() == 0 {
        Seq::empty()
    } else {
        enc_out_expr(xs[0]) + enc_out_exprs(xs.drop_first())
    }
}

/// One incoming expression: a discriminant byte, then its operands; the
/// composite kinds carry one owned child each.
pub open spec fn enc_in_expr(e: IncomingBindingExpressionV) -> Seq<u8>
    decreases e,
{
    match e {
        IncomingBindingExpressionV::Get { idx } => seq![0u8] + uleb_enc(idx as nat),
        IncomingBindingExpressionV::As { ty, expr } => seq![1u8, valtype_byte(ty)] + enc_in_expr(
            *expr,
        ),
        IncomingBindingExpressionV::AllocUtf8Str { alloc_func_name, expr } => seq![2u8] + enc_bytes(
            alloc_func_name,
        ) + enc_in_expr(*expr),
        IncomingBindingExpressionV::AllocCopy { alloc_func_name, expr } => seq![3u8] + enc_bytes(
            alloc_func_name,
        ) + enc_in_expr(*expr),
        IncomingBindingExpressionV::EnumToI32 { ty, expr } => seq![4u8] + enc_type_ref(ty)
            + enc_in_expr(*expr),
        IncomingBindingExpressionV::Field { idx, expr } => seq![5u8] + uleb_enc(idx as nat)
            + enc_in_expr(*expr),
        IncomingBindingExpressionV::BindImport { ty, binding, expr } => seq![6u8] + uleb_enc(
            ty.0 as nat,
        ) + uleb_enc(binding.0 as nat) + enc_in_expr(*expr),
    }
}

/// Incoming expressions, one after the other.
pub open spec fn enc_in_exprs(xs: Seq<IncomingBindingExpressionV>) -> Seq<u8>
    decreases xs,
{
    if xs.len() == 0 {
        Seq::empty()
    } else {
        enc_in_expr(xs[0]) + enc_in_exprs(xs.drop_first())
    }
}

/// One function binding: a discriminant byte, the host function-type index,
/// the WebIDL type reference, then the two direction maps, each counted.
pub open spec fn enc_binding(b: FunctionBindingV) -> Seq<u8> {
    match b {
        FunctionBindingV::Import(i) => seq![0u8] + uleb_enc(i.wasm_ty.0 as nat) + enc_type_ref(
            i.webidl_ty,
        ) + uleb_enc(i.params.len()) + enc_out_exprs(i.params) + uleb_enc(i.result.len())
            + enc_in_exprs(i.result),
        FunctionBindingV::Export(e) => seq![1u8] + uleb_enc(e.wasm_ty.0 as nat) + enc_type_ref(
            e.webidl_ty,
        ) + uleb_enc(e.params.len()) + enc_in_exprs(e.params) + uleb_enc(e.result.len())
            + enc_out_exprs(e.result),
    }
}

/// Function bindings, one after the other.
pub open spec fn enc_bindings(xs: Seq<FunctionBindingV>) -> Seq<u8>
    decreases xs.len(),
{
    if xs.len() == 0 {
        Seq::empty()
    } else {
        enc_binding(xs[0]) + enc_bindings(xs.drop_first())
    }
}

/// One bind: a host function index and a binding index.
pub open spec fn enc_bind(bd: Bind) -> Seq<u8> {
    uleb_enc(bd.func.0 as nat) + uleb_enc(bd.binding.0 as nat)
}

/// Binds, one after the other.
pub open spec fn enc_binds(xs: Seq<Bind>) -> Seq<u8>
    decreases xs.len(),
{
    if xs.len() == 0 {
        Seq::empty()
    } else {
        enc_bind(xs[0]) + enc_binds(xs.drop_first())
    }
}

/// The whole section: the two subsections in their fixed order.
pub open spec fn enc_section(c: WebidlBindingsV) -> Seq<u8> {
    seq![0u8] + uleb_enc(c.types.arena.len()) + enc_compounds(c.types.arena) + seq![1u8]
        + uleb_enc(c.bindings.arena.len()) + enc_bindings(c.bindings.arena) + uleb_enc(
        c.binds.len(),
    ) + enc_binds(c.binds)
}

// ---------------------------------------------------------------------------
// Decoding. Each function yields the decoded value and how many bytes it
// consumed, or the first failure. `nt` is how many compound types have been
// inserted when the value is read; `nb` likewise for bindings.
// ---------------------------------------------------------------------------

/// Whether a reported byte count can be trusted for further slicing. Every
/// successful decode consumes between one byte and the whole rest; the
/// guard keeps the definitions well-founded.
pub open spec fn used_ok(k: int, s: Seq<u8>) -> bool {
    1 <= k && k <= s.len()
}

/// A length-prefixed byte string, which must be well-formed UTF-8.
pub open spec fn dec_bytes(s: Seq<u8>) -> Result<(Seq<u8>, int), DecodeError> {
    match uleb32_dec(s) {
        Ok((len, n)) => if n + len <= s.len() {
            if is_utf8(s.subrange(n, n + len)) {
                Ok((s.subrange(n, n + len), n + len))
            } else {
                Err(DecodeError::InvalidUtf8)
            }
        } else {
            Err(DecodeError::UnexpectedEof)
        },
        Err(e) => Err(e),
    }
}

/// A type reference: negative codes name scalars, non-negative values name
/// positions among the `nt` types inserted so far.
pub open spec fn dec_type_ref(s: Seq<u8>, nt: int) -> Result<(WebidlTypeRef, int), DecodeError> {
    match sleb32_dec(s) {
        Ok((v, n)) => if v >= 0 {
            if (v as int) < nt {
                Ok((WebidlTypeRef::Id(WebidlCompoundTypeId(v as u32)), n))
            } else {
                Err(DecodeError::InvalidTypeIndex)
            }
        } else if v >= -30 {
            Ok((WebidlTypeRef::Scalar(code_scalar(v as int)), n))
        } else {
            Err(DecodeError::BadScalarCode)
        },
        Err(e) => Err(e),
    }
}

/// An optional type reference.
pub open spec fn dec_opt_type_ref(s: Seq<u8>, nt: int) -> Result<
    (Option<WebidlTypeRef>, int),
    DecodeError,
> {
    if s.len() == 0 {
        Err(DecodeError::UnexpectedEof)
    } else if s[0] == 0 {
        Ok((None, 1))
    } else if s[0] == 1 {
        match dec_type_ref(s.skip(1), nt) {
            Ok((r, n)) => Ok((Some(r), n + 1)),
            Err(e) => Err(e),
        }
    } else {
        Err(DecodeError::BadOptionDiscriminant)
    }
}

/// A function kind.
pub open spec fn dec_kind(s: Seq<u8>, nt: int) -> Result<(WebidlFunctionKind, int), DecodeError> {
    if s.len() == 0 {
        Err(DecodeError::UnexpectedEof)
    } else if s[0] == 0 {
        Ok((WebidlFunctionKind::Static, 1))
    } else if s[0] == 1 {
        match dec_type_ref(s.skip(1), nt) {
            Ok((r, n)) => Ok((
                WebidlFunctionKind::Method(crate::ast::WebidlFunctionKindMethod { ty: r }),
                n + 1,
            )),
            Err(e) => Err(e),
        }
    } else if s[0] == 2 {
        Ok((WebidlFunctionKind::Constructor, 1))
    } else {
        Err(DecodeError::BadFunctionKindDiscriminant)
    }
}

/// A WebAssembly value type.
pub open spec fn dec_valtype(s: Seq<u8>) -> Result<(WasmValType, int), DecodeError> {
    if s.len() == 0 {
        Err(DecodeError::UnexpectedEof)
    } else if s[0] == 0x7f {
        Ok((WasmValType::I32, 1))
    } else if s[0] == 0x7e {
        Ok((WasmValType::I64, 1))
    } else if s[0] == 0x7d {
        Ok((WasmValType::F32, 1))
    } else if s[0] == 0x7c {
        Ok((WasmValType::F64, 1))
    } else if s[0] == 0x7b {
        Ok((WasmValType::V128, 1))
    } else if s[0] == 0x6f {
        Ok((WasmValType::Anyref, 1))
    } else {
        Err(DecodeError::BadValType)
    }
}

/// `n` type references in a row.
pub open spec fn dec_type_refs(s: Seq<u8>, n: nat, nt: int) -> Result<
    (Seq<WebidlTypeRef>, int),
    DecodeError,
>
    decreases n,
{
    if n == 0 {
        Ok((Seq::empty(), 0))
    } else {
        match dec_type_ref(s, nt) {
            Ok((r, k)) => if used_ok(k, s) {
                match dec_type_refs(s.skip(k), (n - 1) as nat, nt) {
                    Ok((rs, k2)) => Ok((seq![r] + rs, k + k2)),
                    Err(e) => Err(e),
                }
            } else {
                Err(DecodeError::UnexpectedEof)
            },
            Err(e) => Err(e),
        }
    }
}

/// `n` dictionary fields in a row.
pub open spec fn dec_dict_fields(s: Seq<u8>, n: nat, nt: int) -> Result<
    (Seq<WebidlDictionaryFieldV>, int),
    DecodeError,
>
    decreases n,
{
    if n == 0 {
        Ok((Seq::empty(), 0))
    } else {
        match dec_bytes(s) {
            Ok((name, k1)) => if used_ok(k1, s) {
                match dec_type_ref(s.skip(k1), nt) {
                    Ok((ty, k2)) => if used_ok(k2, s.skip(k1)) {
                        match dec_dict_fields(s.skip(k1 + k2), (n - 1) as nat, nt) {
                            Ok((fs, k3)) => Ok((
                                seq![WebidlDictionaryFieldV { name, ty }] + fs,
                                k1 + k2 + k3,
                            )),
                            Err(e) => Err(e),
                        }
                    } else {
                        Err(DecodeError::UnexpectedEof)
                    },
                    Err(e) => Err(e),
                }
            } else {
                Err(DecodeError::UnexpectedEof)
            },
            Err(e) => Err(e),
        }
    }
}

/// `n` enumeration values in a row.
pub open spec fn dec_enum_values(s: Seq<u8>, n: nat) -> Result<(Seq<Seq<u8>>, int), DecodeError>
    decreases n,
{
    if n == 0 {
        Ok((Seq::empty(), 0))
    } else {
        match dec_bytes(s) {
            Ok((v, k)) => if used_ok(k, s) {
                match dec_enum_values(s.skip(k), (n - 1) as nat) {
                    Ok((vs, k2)) => Ok((seq![v] + vs, k + k2)),
                    Err(e) => Err(e),
                }
            } else {
                Err(DecodeError::UnexpectedEof)
            },
            Err(e) => Err(e),
        }
    }
}

/// One compound type: the discriminant selects the variant, whose payload
/// may reference only the `nt` types inserted before it.
pub open spec fn dec_compound(s: Seq<u8>, nt: int) -> Result<
    (WebidlCompoundTypeV, int),
    DecodeError,
> {
    if s.len() == 0 {
        Err(DecodeError::UnexpectedEof)
    } else if s[0] == 0 {
        match dec_kind(s.skip(1), nt) {
            Ok((kind, k1)) => if used_ok(k1, s.skip(1)) {
                match uleb32_dec(s.skip(1 + k1)) {
                    Ok((np, k2)) => if used_ok(k2, s.skip(1 + k1)) {
                        match dec_type_refs(s.skip(1 + k1 + k2), np as nat, nt) {
                            Ok((params, k3)) => if 0 <= k3 <= s.skip(1 + k1 + k2).len() {
                                match dec_opt_type_ref(s.skip(1 + k1 + k2 + k3), nt) {
                                    Ok((result, k4)) => Ok((
                                        WebidlCompoundTypeV::Function(WebidlFunctionV {
                                            kind,
                                            params,
                                            result,
                                        }),
                                        1 + k1 + k2 + k3 + k4,
                                    )),
                                    Err(e) => Err(e),
                                }
                            } else {
                                Err(DecodeError::UnexpectedEof)
                            },
                            Err(e) => Err(e),
                        }
                    } else {
                        Err(DecodeError::UnexpectedEof)
                    },
                    Err(e) => Err(e),
                }
            } else {
                Err(DecodeError::UnexpectedEof)
            },
            Err(e) => Err(e),
        }
    } else if s[0] == 1 {
        match uleb32_dec(s.skip(1)) {
            Ok((nf, k1)) => if used_ok(k1, s.skip(1)) {
                match dec_dict_fields(s.skip(1 + k1), nf as nat, nt) {
                    Ok((fields, k2)) => Ok((
                        WebidlCompoundTypeV::Dictionary(
                            crate::ast::WebidlDictionaryV { fields },
                        ),
                        1 + k1 + k2,
                    )),
                    Err(e) => Err(e),
                }
            } else {
                Err(DecodeError::UnexpectedEof)
            },
            Err(e) => Err(e),
        }
    } else if s[0] == 2 {
        match uleb32_dec(s.skip(1)) {
            Ok((nv, k1)) => if used_ok(k1, s.skip(1)) {
                match dec_enum_values(s.skip(1 + k1), nv as nat) {
                    Ok((values, k2)) => Ok((
                        WebidlCompoundTypeV::Enumeration(
                            crate::ast::WebidlEnumerationV { values },
                        ),
                        1 + k1 + k2,
                    )),
                    Err(e) => Err(e),
                }
            } else {
                Err(DecodeError::UnexpectedEof)
            },
            Err(e) => Err(e),
        }
    } else if s[0] == 3 {
        match uleb32_dec(s.skip(1)) {
            Ok((nm, k1)) => if used_ok(k1, s.skip(1)) {
                match dec_type_refs(s.skip(1 + k1), nm as nat, nt) {
                    Ok((members, k2)) => Ok((
                        WebidlCompoundTypeV::Union(crate::ast::WebidlUnionV { members }),
                        1 + k1 + k2,
                    )),
                    Err(e) => Err(e),
                }
            } else {
                Err(DecodeError::UnexpectedEof)
            },
            Err(e) => Err(e),
        }
    } else {
        Err(DecodeError::BadCompoundTypeDiscriminant)
    }
}

/// `n` compound types in a row; the one at position `nt + i` may reference
/// only the `nt + i` types before it.
pub open spec fn dec_compounds(s: Seq<u8>, n: nat, nt: int) -> Result<
    (Seq<WebidlCompoundTypeV>, int),
    DecodeError,
>
    decreases n,
{
    if n == 0 {
        Ok((Seq::empty(), 0))
    } else {
        match dec_compound(s, nt) {
            Ok((t, k)) => if used_ok(k, s) {
                match dec_compounds(s.skip(k), (n - 1) as nat, nt + 1) {
                    Ok((ts, k2)) => Ok((seq![t] + ts, k + k2)),
                    Err(e) => Err(e),
                }
            } else {
                Err(DecodeError::UnexpectedEof)
            },
            Err(e) => Err(e),
        }
    }
}

/// One outgoing expression; composite kinds read their owned children
/// recursively.
pub open spec fn dec_out_expr(s: Seq<u8>, nt: int, nb: int) -> Result<
    (OutgoingBindingExpressionV, int),
    DecodeError,
>
    decreases s.len(), 0nat, 0nat,
{
    if s.len() == 0 {
        Err(DecodeError::UnexpectedEof)
    } else if s[0] == 0 || s[0] == 3 {
        match dec_type_ref(s.skip(1), nt) {
            Ok((ty, k1)) => match uleb32_dec(s.skip(1).skip(k1)) {
                Ok((idx, k2)) => if s[0] == 0 {
                    Ok((OutgoingBindingExpressionV::As { ty, idx }, 1 + k1 + k2))
                } else {
                    Ok((OutgoingBindingExpressionV::I32ToEnum { ty, idx }, 1 + k1 + k2))
                },
                Err(e) => Err(e),
            },
            Err(e) => Err(e),
        }
    } else if s[0] == 2 {
        match dec_type_ref(s.skip(1), nt) {
            Ok((ty, k1)) => match uleb32_dec(s.skip(1).skip(k1)) {
                Ok((offset, k2)) => Ok((
                    OutgoingBindingExpressionV::Utf8CStr { ty, offset },
                    1 + k1 + k2,
                )),
                Err(e) => Err(e),
            },
            Err(e) => Err(e),
        }
    } else if s[0] == 1 || s[0] == 4 || s[0] == 5 {
        match dec_type_ref(s.skip(1), nt) {
            Ok((ty, k1)) => match uleb32_dec(s.skip(1).skip(k1)) {
                Ok((offset, k2)) => match uleb32_dec(s.skip(1).skip(k1).skip(k2)) {
                    Ok((length, k3)) => if s[0] == 1 {
                        Ok((
                            OutgoingBindingExpressionV::Utf8Str { ty, offset, length },
                            1 + k1 + k2 + k3,
                        ))
                    } else if s[0] == 4 {
                        Ok((
                            OutgoingBindingExpressionV::View { ty, offset, length },
                            1 + k1 + k2 + k3,
                        ))
                    } else {
                        Ok((
                            OutgoingBindingExpressionV::Copy { ty, offset, length },
                            1 + k1 + k2 + k3,
                        ))
                    },
                    Err(e) => Err(e),
                },
                Err(e) => Err(e),
            },
            Err(e) => Err(e),
        }
    } else if s[0] == 6 {
        match dec_type_ref(s.skip(1), nt) {
            Ok((ty, k1)) => if used_ok(k1, s.skip(1)) {
                match uleb32_dec(s.skip(1 + k1)) {
                    Ok((nf, k2)) => if used_ok(k2, s.skip(1 + k1)) {
                        match dec_out_exprs(s.skip(1 + k1 + k2), nf as nat, nt, nb) {
                            Ok((fields, k3)) => Ok((
                                OutgoingBindingExpressionV::Dict { ty, fields },
                                1 + k1 + k2 + k3,
                            )),
                            Err(e) => Err(e),
                        }
                    } else {
                        Err(DecodeError::UnexpectedEof)
                    },
                    Err(e) => Err(e),
                }
            } else {
                Err(DecodeError::UnexpectedEof)
            },
            Err(e) => Err(e),
        }
    } else if s[0] == 7 {
        match dec_type_ref(s.skip(1), nt) {
            Ok((ty, k1)) => match uleb32_dec(s.skip(1).skip(k1)) {
                Ok((bidx, k2)) => if (bidx as int) < nb {
                    match uleb32_dec(s.skip(1).skip(k1).skip(k2)) {
                        Ok((idx, k3)) => Ok((
                            OutgoingBindingExpressionV::BindExport {
                                ty,
                                binding: FunctionBindingId(bidx),
                                idx,
                            },
                            1 + k1 + k2 + k3,
                        )),
                        Err(e) => Err(e),
                    }
                } else {
                    Err(DecodeError::InvalidBindingIndex)
                },
                Err(e) => Err(e),
            },
            Err(e) => Err(e),
        }
    } else {
        Err(DecodeError::BadOutgoingExpressionDiscriminant)
    }
}

/// `n` outgoing expressions in a row.
pub open spec fn dec_out_exprs(s: Seq<u8>, n: nat, nt: int, nb: int) -> Result<
    (Seq<OutgoingBindingExpressionV>, int),
    DecodeError,
>
    decreases s.len(), 1nat, n,
{
    if n == 0 {
        Ok((Seq::empty(), 0))
    } else {
        match dec_out_expr(s, nt, nb) {
            Ok((e, k)) => if used_ok(k, s) {
                match dec_out_exprs(s.skip(k), (n - 1) as nat, nt, nb) {
                    Ok((es, k2)) => Ok((seq![e] + es, k + k2)),
                    Err(er) => Err(er),
                }
            } else {
                Err(DecodeError::UnexpectedEof)
            },
            Err(e) => Err(e),
        }
    }
}

/// One incoming expression; composite kinds read their owned child
/// recursively.
pub open spec fn dec_in_expr(s: Seq<u8>, nt: int, nb: int, host: HostIndices) -> Result<
    (IncomingBindingExpressionV, int),
    DecodeError,
>
    decreases s.len(), 0nat,
{
    if s.len() == 0 {
        Err(DecodeError::UnexpectedEof)
    } else if s[0] == 0 {
        match uleb32_dec(s.skip(1)) {
            Ok((idx, k)) => Ok((IncomingBindingExpressionV::Get { idx }, 1 + k)),
            Err(e) => Err(e),
        }
    } else if s[0] == 1 {
        match dec_valtype(s.skip(1)) {
            Ok((ty, k1)) => if used_ok(k1, s.skip(1)) {
                match dec_in_expr(s.skip(1 + k1), nt, nb, host) {
                    Ok((child, k2)) => Ok((
                        IncomingBindingExpressionV::As { ty, expr: Box::new(child) },
                        1 + k1 + k2,
                    )),
                    Err(e) => Err(e),
                }
            } else {
                Err(DecodeError::UnexpectedEof)
            },
            Err(e) => Err(e),
        }
    } else if s[0] == 2 || s[0] == 3 {
        match dec_bytes(s.skip(1)) {
            Ok((name, k1)) => if used_ok(k1, s.skip(1)) {
                match dec_in_expr(s.skip(1 + k1), nt, nb, host) {
                    Ok((child, k2)) => if s[0] == 2 {
                        Ok((
                            IncomingBindingExpressionV::AllocUtf8Str {
                                alloc_func_name: name,
                                expr: Box::new(child),
                            },
                            1 + k1 + k2,
                        ))
                    } else {
                        Ok((
                            IncomingBindingExpressionV::AllocCopy {
                                alloc_func_name: name,
                                expr: Box::new(child),
                            },
                            1 + k1 + k2,
                        ))
                    },
                    Err(e) => Err(e),
                }
            } else {
                Err(DecodeError::UnexpectedEof)
            },
            Err(e) => Err(e),
        }
    } else if s[0] == 4 {
        match dec_type_ref(s.skip(1), nt) {
            Ok((ty, k1)) => if used_ok(k1, s.skip(1)) {
                match dec_in_expr(s.skip(1 + k1), nt, nb, host) {
                    Ok((child, k2)) => Ok((
                        IncomingBindingExpressionV::EnumToI32 { ty, expr: Box::new(child) },
                        1 + k1 + k2,
                    )),
                    Err(e) => Err(e),
                }
            } else {
                Err(DecodeError::UnexpectedEof)
            },
            Err(e) => Err(e),
        }
    } else if s[0] == 5 {
        match uleb32_dec(s.skip(1)) {
            Ok((idx, k1)) => if used_ok(k1, s.skip(1)) {
                match dec_in_expr(s.skip(1 + k1), nt, nb, host) {
                    Ok((child, k2)) => Ok((
                        IncomingBindingExpressionV::Field { idx, expr: Box::new(child) },
                        1 + k1 + k2,
                    )),
                    Err(e) => Err(e),
                }
            } else {
                Err(DecodeError::UnexpectedEof)
            },
            Err(e) => Err(e),
        }
    } else if s[0] == 6 {
        match uleb32_dec(s.skip(1)) {
            Ok((tidx, k1)) => if tidx < host.func_type_count {
                if used_ok(k1, s.skip(1)) {
                    match uleb32_dec(s.skip(1 + k1)) {
                        Ok((bidx, k2)) => if (bidx as int) < nb {
                            if used_ok(k2, s.skip(1 + k1)) {
                                match dec_in_expr(s.skip(1 + k1 + k2), nt, nb, host) {
                                    Ok((child, k3)) => Ok((
                                        IncomingBindingExpressionV::BindImport {
                                            ty: crate::ast::WasmFuncTypeRef(tidx),
                                            binding: FunctionBindingId(bidx),
                                            expr: Box::new(child),
                                        },
                                        1 + k1 + k2 + k3,
                                    )),
                                    Err(e) => Err(e),
                                }
                            } else {
                                Err(DecodeError::UnexpectedEof)
                            }
                        } else {
                            Err(DecodeError::InvalidBindingIndex)
                        },
                        Err(e) => Err(e),
                    }
                } else {
                    Err(DecodeError::UnexpectedEof)
                }
            } else {
                Err(DecodeError::InvalidFuncTypeIndex)
            },
            Err(e) => Err(e),
        }
    } else {
        Err(DecodeError::BadIncomingExpressionDiscriminant)
    }
}

/// `n` incoming expressions in a row.
pub open spec fn dec_in_exprs(s: Seq<u8>, n: nat, nt: int, nb: int, host: HostIndices) -> Result<
    (Seq<IncomingBindingExpressionV>, int),
    DecodeError,
>
    decreases s.len(), 1nat, n,
{
    if n == 0 {
        Ok((Seq::empty(), 0))
    } else {
        match dec_in_expr(s, nt, nb, host) {
            Ok((e, k)) => if used_ok(k, s) {
                match dec_in_exprs(s.skip(k), (n - 1) as nat, nt, nb, host) {
                    Ok((es, k2)) => Ok((seq![e] + es, k + k2)),
                    Err(er) => Err(er),
                }
            } else {
                Err(DecodeError::UnexpectedEof)
            },
            Err(e) => Err(e),
        }
    }
}

/// One function binding; its maps may reference the `nt` types and the `nb`
/// bindings inserted before it.
pub open spec fn dec_binding(s: Seq<u8>, nt: int, nb: int, host: HostIndices) -> Result<
    (FunctionBindingV, int),
    DecodeError,
> {
    if s.len() == 0 {
        Err(DecodeError::UnexpectedEof)
    } else if s[0] == 0 || s[0] == 1 {
        match uleb32_dec(s.skip(1)) {
            Ok((tidx, k1)) => if tidx < host.func_type_count {
                if used_ok(k1, s.skip(1)) {
                    match dec_type_ref(s.skip(1 + k1), nt) {
                        Ok((webidl_ty, k2)) => if used_ok(k2, s.skip(1 + k1)) {
                            match uleb32_dec(s.skip(1 + k1 + k2)) {
                                Ok((np, k3)) => if used_ok(k3, s.skip(1 + k1 + k2)) {
                                    dec_binding_maps(
                                        s,
                                        1 + k1 + k2 + k3,
                                        s[0] == 0,
                                        crate::ast::WasmFuncTypeRef(tidx),
                                        webidl_ty,
                                        np as nat,
                                        nt,
                                        nb,
                                        host,
                                    )
                                } else {
                                    Err(DecodeError::UnexpectedEof)
                                },
                                Err(e) => Err(e),
                            }
                        } else {
                            Err(DecodeError::UnexpectedEof)
                        },
                        Err(e) => Err(e),
                    }
                } else {
                    Err(DecodeError::UnexpectedEof)
                }
            } else {
                Err(DecodeError::InvalidFuncTypeIndex)
            },
            Err(e) => Err(e),
        }
    } else {
        Err(DecodeError::BadFunctionBindingDiscriminant)
    }
}

/// The two direction maps of a binding, from offset `at` in `s`: the counted
/// first map (`np` entries), then the counted second map. An import's
/// params go out and its result comes in; an export is the mirror.
pub open spec fn dec_binding_maps(
    s: Seq<u8>,
    at: int,
    is_import: bool,
    wasm_ty: crate::ast::WasmFuncTypeRef,
    webidl_ty: WebidlTypeRef,
    np: nat,
    nt: int,
    nb: int,
    host: HostIndices,
) -> Result<(FunctionBindingV, int), DecodeError> {
    if !(0 <= at <= s.len()) {
        Err(DecodeError::UnexpectedEof)
    } else if is_import {
        match dec_out_exprs(s.skip(at), np, nt, nb) {
            Ok((params, k4)) => if 0 <= k4 <= s.skip(at).len() {
                match uleb32_dec(s.skip(at + k4)) {
                    Ok((nr, k5)) => if used_ok(k5, s.skip(at + k4)) {
                        match dec_in_exprs(s.skip(at + k4 + k5), nr as nat, nt, nb, host) {
                            Ok((result, k6)) => Ok((
                                FunctionBindingV::Import(ImportBindingV {
                                    wasm_ty,
                                    webidl_ty,
                                    params,
                                    result,
                                }),
                                at + k4 + k5 + k6,
                            )),
                            Err(e) => Err(e),
                        }
                    } else {
                        Err(DecodeError::UnexpectedEof)
                    },
                    Err(e) => Err(e),
                }
            } else {
                Err(DecodeError::UnexpectedEof)
            },
            Err(e) => Err(e),
        }
    } else {
        match dec_in_exprs(s.skip(at), np, nt, nb, host) {
            Ok((params, k4)) => if 0 <= k4 <= s.skip(at).len() {
                match uleb32_dec(s.skip(at + k4)) {
                    Ok((nr, k5)) => if used_ok(k5, s.skip(at + k4)) {
                        match dec_out_exprs(s.skip(at + k4 + k5), nr as nat, nt, nb) {
                            Ok((result, k6)) => Ok((
                                FunctionBindingV::Export(ExportBindingV {
                                    wasm_ty,
                                    webidl_ty,
                                    params,
                                    result,
                                }),
                                at + k4 + k5 + k6,
                            )),
                            Err(e) => Err(e),
                        }
                    } else {
                        Err(DecodeError::UnexpectedEof)
                    },
                    Err(e) => Err(e),
                }
            } else {
                Err(DecodeError::UnexpectedEof)
            },
            Err(e) => Err(e),
        }
    }
}

/// `n` function bindings in a row; the one at position `nb + i` may
/// reference only the `nb + i` bindings before it.
pub open spec fn dec_bindings(s: Seq<u8>, n: nat, nt: int, nb: int, host: HostIndices) -> Result<
    (Seq<FunctionBindingV>, int),
    DecodeError,
>
    decreases n,
{
    if n == 0 {
        Ok((Seq::empty(), 0))
    } else {
        match dec_binding(s, nt, nb, host) {
            Ok((b, k)) => if used_ok(k, s) {
                match dec_bindings(s.skip(k), (n - 1) as nat, nt, nb + 1, host) {
                    Ok((bs, k2)) => Ok((seq![b] + bs, k + k2)),
                    Err(e) => Err(e),
                }
            } else {
                Err(DecodeError::UnexpectedEof)
            },
            Err(e) => Err(e),
        }
    }
}

/// One bind: a host function index and an index among all `nb` bindings.
pub open spec fn dec_bind(s: Seq<u8>, nb: int, host: HostIndices) -> Result<
    (Bind, int),
    DecodeError,
> {
    match uleb32_dec(s) {
        Ok((fidx, k1)) => if fidx < host.func_count {
            if used_ok(k1, s) {
                match uleb32_dec(s.skip(k1)) {
                    Ok((bidx, k2)) => if (bidx as int) < nb {
                        Ok((
                            Bind {
                                func: crate::ast::WasmFuncRef(fidx),
                                binding: FunctionBindingId(bidx),
                            },
                            k1 + k2,
                        ))
                    } else {
                        Err(DecodeError::InvalidBindingIndex)
                    },
                    Err(e) => Err(e),
                }
            } else {
                Err(DecodeError::UnexpectedEof)
            }
        } else {
            Err(DecodeError::InvalidFuncIndex)
        },
        Err(e) => Err(e),
    }
}

/// `n` binds in a row.
pub open spec fn dec_binds(s: Seq<u8>, n: nat, nb: int, host: HostIndices) -> Result<
    (Seq<Bind>, int),
    DecodeError,
>
    decreases n,
{
    if n == 0 {
        Ok((Seq::empty(), 0))
    } else {
        match dec_bind(s, nb, host) {
            Ok((b, k)) => if used_ok(k, s) {
                match dec_binds(s.skip(k), (n - 1) as nat, nb, host) {
                    Ok((bs, k2)) => Ok((seq![b] + bs, k + k2)),
                    Err(e) => Err(e),
                }
            } else {
                Err(DecodeError::UnexpectedEof)
            },
            Err(e) => Err(e),
        }
    }
}

/// The whole section: the decoded arena contents and the bytes consumed.
/// Bytes after the second subsection are not touched.
pub open spec fn dec_section(s: Seq<u8>, host: HostIndices) -> Result<
    ((Seq<WebidlCompoundTypeV>, Seq<FunctionBindingV>, Seq<Bind>), int),
    DecodeError,
> {
    if s.len() == 0 {
        Err(DecodeError::UnexpectedEof)
    } else if s[0] != 0 {
        Err(DecodeError::BadTypeSubsection)
    } else {
        match uleb32_dec(s.skip(1)) {
            Ok((ntc, k1)) => if used_ok(k1, s.skip(1)) {
                match dec_compounds(s.skip(1 + k1), ntc as nat, 0) {
                    Ok((types, k2)) => if 0 <= k2 <= s.skip(1 + k1).len() {
                        dec_section_bindings(s, 1 + k1 + k2, types, host)
                    } else {
                        Err(DecodeError::UnexpectedEof)
                    },
                    Err(e) => Err(e),
                }
            } else {
                Err(DecodeError::UnexpectedEof)
            },
            Err(e) => Err(e),
        }
    }
}

/// The function-bindings subsection, from offset `at` in `s`.
pub open spec fn dec_section_bindings(
    s: Seq<u8>,
    at: int,
    types: Seq<WebidlCompoundTypeV>,
    host: HostIndices,
) -> Result<((Seq<WebidlCompoundTypeV>, Seq<FunctionBindingV>, Seq<Bind>), int), DecodeError> {
    if !(0 <= at && at < s.len()) {
        Err(DecodeError::UnexpectedEof)
    } else if s[at] != 1 {
        Err(DecodeError::BadBindingSubsection)
    } else {
        match uleb32_dec(s.skip(at + 1)) {
            Ok((nbc, k3)) => if used_ok(k3, s.skip(at + 1)) {
                match dec_bindings(s.skip(at + 1 + k3), nbc as nat, types.len() as int, 0, host) {
                    Ok((bindings, k4)) => if 0 <= k4 <= s.skip(at + 1 + k3).len() {
                        match uleb32_dec(s.skip(at + 1 + k3 + k4)) {
                            Ok((nbd, k5)) => if used_ok(k5, s.skip(at + 1 + k3 + k4)) {
                                match dec_binds(
                                    s.skip(at + 1 + k3 + k4 + k5),
                                    nbd as nat,
                                    bindings.len() as int,
                                    host,
                                ) {
                                    Ok((binds, k6)) => Ok((
                                        (types, bindings, binds),
                                        at + 1 + k3 + k4 + k5 + k6,
                                    )),
                                    Err(e) => Err(e),
                                }
                            } else {
                                Err(DecodeError::UnexpectedEof)
                            },
                            Err(e) => Err(e),
                        }
                    } else {
                        Err(DecodeError::UnexpectedEof)
                    },
                    Err(e) => Err(e),
                }
            } else {
                Err(DecodeError::UnexpectedEof)
            },
            Err(e) => Err(e),
        }
    }
}

// ---------------------------------------------------------------------------
// Well-formedness: what a container needs for its encoding to decode back
// to it. Reference bounds are `int` so the same predicates serve both the
// decoder's growing contexts and the loosest bounds encoding alone needs.
// ---------------------------------------------------------------------------

/// A byte string the wire format can carry: its length fits the count
/// prefix and its bytes are well-formed UTF-8.
pub open spec fn wf_bytes(bs: Seq<u8>) -> bool {
    bs.len() <= u32::MAX && is_utf8(bs)
}

/// A type reference resolvable among `nt` types.
pub open spec fn wf_type_ref(r: WebidlTypeRef, nt: int) -> bool {
    match r {
        WebidlTypeRef::Id(id) => (id.0 as int) < nt,
        WebidlTypeRef::Scalar(_) => true,
    }
}

pub open spec fn wf_opt_type_ref(o: Option<WebidlTypeRef>, nt: int) -> bool {
    match o {
        Some(r) => wf_type_ref(r, nt),
        None => true,
    }
}

pub open spec fn wf_kind(k: WebidlFunctionKind, nt: int) -> bool {
    match k {
        WebidlFunctionKind::Method(m) => wf_type_ref(m.ty, nt),
        _ => true,
    }
}

/// A compound type whose references all resolve among `nt` types and whose
/// sequences fit their count prefixes.
pub open spec fn wf_compound(t: WebidlCompoundTypeV, nt: int) -> bool {
    match t {
        WebidlCompoundTypeV::Function(f) => {
            &&& wf_kind(f.kind, nt)
            &&& f.params.len() <= u32::MAX
            &&& forall|i: int| 0 <= i < f.params.len() ==> wf_type_ref(#[trigger] f.params[i], nt)
            &&& wf_opt_type_ref(f.result, nt)
        },
        WebidlCompoundTypeV::Dictionary(d) => {
            &&& d.fields.len() <= u32::MAX
            &&& forall|i: int| 0 <= i < d.fields.len() ==> wf_bytes(#[trigger] d.fields[i].name)
                && wf_type_ref(d.fields[i].ty, nt)
        },
        WebidlCompoundTypeV::Enumeration(e) => {
            &&& e.values.len() <= u32::MAX
            &&& forall|i: int| 0 <= i < e.values.len() ==> wf_bytes(#[trigger] e.values[i])
        },
        WebidlCompoundTypeV::Union(u) => {
            &&& u.members.len() <= u32::MAX
            &&& forall|i: int| 0 <= i < u.members.len() ==> wf_type_ref(#[trigger] u.members[i], nt)
        },
    }
}

/// An outgoing expression whose references all resolve.
pub open spec fn wf_out_expr(e: OutgoingBindingExpressionV, nt: int, nb: int) -> bool
    decreases e,
{
    match e {
        OutgoingBindingExpressionV::As { ty, .. } => wf_type_ref(ty, nt),
        OutgoingBindingExpressionV::Utf8Str { ty, .. } => wf_type_ref(ty, nt),
        OutgoingBindingExpressionV::Utf8CStr { ty, .. } => wf_type_ref(ty, nt),
        OutgoingBindingExpressionV::I32ToEnum { ty, .. } => wf_type_ref(ty, nt),
        OutgoingBindingExpressionV::View { ty, .. } => wf_type_ref(ty, nt),
        OutgoingBindingExpressionV::Copy { ty, .. } => wf_type_ref(ty, nt),
        OutgoingBindingExpressionV::Dict { ty, fields } => {
            &&& wf_type_ref(ty, nt)
            &&& fields.len() <= u32::MAX
            &&& wf_out_exprs(fields, nt, nb)
        },
        OutgoingBindingExpressionV::BindExport { ty, binding, .. } => {
            &&& wf_type_ref(ty, nt)
            &&& (binding.0 as int) < nb
        },
    }
}

pub open spec fn wf_out_exprs(xs: Seq<OutgoingBindingExpressionV>, nt: int, nb: int) -> bool
    decreases xs,
{
    forall|i: int| 0 <= i < xs.len() ==> wf_out_expr(#[trigger] xs[i], nt, nb)
}

/// An incoming expression whose references all resolve.
pub open spec fn wf_in_expr(e: IncomingBindingExpressionV, nt: int, nb: int, nft: int) -> bool
    decreases e,
{
    match e {
        IncomingBindingExpressionV::Get { .. } => true,
        IncomingBindingExpressionV::As { expr, .. } => wf_in_expr(*expr, nt, nb, nft),
        IncomingBindingExpressionV::AllocUtf8Str { alloc_func_name, expr } => wf_bytes(
            alloc_func_name,
        ) && wf_in_expr(*expr, nt, nb, nft),
        IncomingBindingExpressionV::AllocCopy { alloc_func_name, expr } => wf_bytes(
            alloc_func_name,
        ) && wf_in_expr(*expr, nt, nb, nft),
        IncomingBindingExpressionV::EnumToI32 { ty, expr } => wf_type_ref(ty, nt) && wf_in_expr(
            *expr,
            nt,
            nb,
            nft,
        ),
        IncomingBindingExpressionV::Field { expr, .. } => wf_in_expr(*expr, nt, nb, nft),
        IncomingBindingExpressionV::BindImport { ty, binding, expr } => {
            &&& (ty.0 as int) < nft
            &&& (binding.0 as int) < nb
            &&& wf_in_expr(*expr, nt, nb, nft)
        },
    }
}

pub open spec fn wf_in_exprs(xs: Seq<IncomingBindingExpressionV>, nt: int, nb: int, nft: int) -> bool
    decreases xs,
{
    forall|i: int| 0 <= i < xs.len() ==> wf_in_expr(#[trigger] xs[i], nt, nb, nft)
}

/// A function binding whose references all resolve among `nt` types, `nb`
/// earlier bindings, `nf` host functions and `nft` host function types.
pub open spec fn wf_binding(b: FunctionBindingV, nt: int, nb: int, nft: int) -> bool {
    match b {
        FunctionBindingV::Import(i) => {
            &&& (i.wasm_ty.0 as int) < nft
            &&& wf_type_ref(i.webidl_ty, nt)
            &&& i.params.len() <= u32::MAX
            &&& wf_out_exprs(i.params, nt, nb)
            &&& i.result.len() <= u32::MAX
            &&& wf_in_exprs(i.result, nt, nb, nft)
        },
        FunctionBindingV::Export(e) => {
            &&& (e.wasm_ty.0 as int) < nft
            &&& wf_type_ref(e.webidl_ty, nt)
            &&& e.params.len() <= u32::MAX
            &&& wf_in_exprs(e.params, nt, nb, nft)
            &&& e.result.len() <= u32::MAX
            &&& wf_out_exprs(e.result, nt, nb)
        },
    }
}

/// A bind whose references resolve.
pub open spec fn wf_bind(bd: Bind, nb: int, nf: int) -> bool {
    &&& (bd.func.0 as int) < nf
    &&& (bd.binding.0 as int) < nb
}

/// A whole container whose encoding decodes back to it against `host`:
/// every entry references only entries inserted before it, every sequence
/// fits its count prefix, every string is UTF-8, and the type count leaves
/// every type position encodable as a non-negative signed 32-bit integer.
pub open spec fn wf_section(c: WebidlBindingsV, host: HostIndices) -> bool {
    &&& c.types.arena.len() <= i32::MAX
    &&& c.bindings.arena.len() <= u32::MAX
    &&& c.binds.len() <= u32::MAX
    &&& forall|i: int| 0 <= i < c.types.arena.len() ==> wf_compound(#[trigger] c.types.arena[i], i)
    &&& forall|j: int| 0 <= j < c.bindings.arena.len() ==> wf_binding(
        #[trigger] c.bindings.arena[j],
        c.types.arena.len() as int,
        j,
        host.func_type_count as int,
    )
    &&& forall|k: int| 0 <= k < c.binds.len() ==> wf_bind(
        #[trigger] c.binds[k],
        c.bindings.arena.len() as int,
        host.func_count as int,
    )
}

/// What encoding alone needs of a container: every sequence fits its count
/// prefix and every string is UTF-8. References need not resolve; the
/// loosest bounds make every 32-bit index acceptable.
pub open spec fn encodable(c: WebidlBindingsV) -> bool {
    &&& c.types.arena.len() <= u32::MAX
    &&& c.bindings.arena.len() <= u32::MAX
    &&& c.binds.len() <= u32::MAX
    &&& forall|i: int| 0 <= i < c.types.arena.len() ==> wf_compound(
        #[trigger] c.types.arena[i],
        0x1_0000_0000,
    )
    &&& forall|j: int| 0 <= j < c.bindings.arena.len() ==> wf_binding(
        #[trigger] c.bindings.arena[j],
        0x1_0000_0000,
        0x1_0000_0000,
        0x1_0000_0000,
    )
}

// ---------------------------------------------------------------------------
// Appending one element to an encoded sequence appends its encoding.
// ---------------------------------------------------------------------------

pub proof fn lemma_enc_type_refs_snoc(xs: Seq<WebidlTypeRef>, x: WebidlTypeRef)
    ensures
        enc_type_refs(xs.push(x)) == enc_type_refs(xs) + (enc_type_ref(x)),
    decreases xs.len(),
{
    reveal_with_fuel(enc_type_refs, 2);
    if xs.len() == 0 {
        assert(xs.push(x).drop_first() =~= Seq::<WebidlTypeRef>::empty());
        assert(enc_type_refs(xs.push(x)) =~= enc_type_refs(xs) + (enc_type_ref(x)));
    } else {
        assert(xs.push(x).drop_first() =~= xs.drop_first().push(x));
        lemma_enc_type_refs_snoc(xs.drop_first(), x);
        assert(enc_type_refs(xs.push(x)) =~= enc_type_refs(xs) + (enc_type_ref(x)));
    }
}

pub proof fn lemma_enc_dict_fields_snoc(xs: Seq<WebidlDictionaryFieldV>, x: WebidlDictionaryFieldV)
    ensures
        enc_dict_fields(xs.push(x)) == enc_dict_fields(xs) + (enc_bytes(x.name) + enc_type_ref(x.ty)),
    decreases xs.len(),
{
    reveal_with_fuel(enc_dict_fields, 2);
    if xs.len() == 0 {
        assert(xs.push(x).drop_first() =~= Seq::<WebidlDictionaryFieldV>::empty());
        assert(enc_dict_fields(xs.push(x)) =~= enc_dict_fields(xs) + (enc_bytes(x.name) + enc_type_ref(x.ty)));
    } else {
        assert(xs.push(x).drop_first() =~= xs.drop_first().push(x));
        lemma_enc_dict_fields_snoc(xs.drop_first(), x);
        assert(enc_dict_fields(xs.push(x)) =~= enc_dict_fields(xs) + (enc_bytes(x.name) + enc_type_ref(x.ty)));
    }
}

pub proof fn lemma_enc_enum_values_snoc(xs: Seq<Seq<u8>>, x: Seq<u8>)
    ensures
        enc_enum_values(xs.push(x)) == enc_enum_values(xs) + (enc_bytes(x)),
    decreases xs.len(),
{
    reveal_with_fuel(enc_enum_values, 2);
    if xs.len() == 0 {
        assert(xs.push(x).drop_first() =~= Seq::<Seq<u8>>::empty());
        assert(enc_enum_values(xs.push(x)) =~= enc_enum_values(xs) + (enc_bytes(x)));
    } else {
        assert(xs.push(x).drop_first() =~= xs.drop_first().push(x));
        lemma_enc_enum_values_snoc(xs.drop_first(), x);
        assert(enc_enum_values(xs.push(x)) =~= enc_enum_values(xs) + (enc_bytes(x)));
    }
}

pub proof fn lemma_enc_compounds_snoc(xs: Seq<WebidlCompoundTypeV>, x: WebidlCompoundTypeV)
    ensures
        enc_compounds(xs.push(x)) == enc_compounds(xs) + (enc_compound(x)),
    decreases xs.len(),
{
    reveal_with_fuel(enc_compounds, 2);
    if xs.len() == 0 {
        assert(xs.push(x).drop_first() =~= Seq::<WebidlCompoundTypeV>::empty());
        assert(enc_compounds(xs.push(x)) =~= enc_compounds(xs) + (enc_compound(x)));
    } else {
        assert(xs.push(x).drop_first() =~= xs.drop_first().push(x));
        lemma_enc_compounds_snoc(xs.drop_first(), x);
        assert(enc_compounds(xs.push(x)) =~= enc_compounds(xs) + (enc_compound(x)));
    }
}

pub proof fn lemma_enc_out_exprs_snoc(xs: Seq<OutgoingBindingExpressionV>, x: OutgoingBindingExpressionV)
    ensures
        enc_out_exprs(xs.push(x)) == enc_out_exprs(xs) + (enc_out_expr(x)),
    decreases xs.len(),
{
    reveal_with_fuel(enc_out_exprs, 2);
    if xs.len() == 0 {
        assert(xs.push(x).drop_first() =~= Seq::<OutgoingBindingExpressionV>::empty());
        assert(enc_out_exprs(xs.push(x)) =~= enc_out_exprs(xs) + (enc_out_expr(x)));
    } else {
        assert(xs.push(x).drop_first() =~= xs.drop_first().push(x));
        lemma_enc_out_exprs_snoc(xs.drop_first(), x);
        assert(enc_out_exprs(xs.push(x)) =~= enc_out_exprs(xs) + (enc_out_expr(x)));
    }
}

pub proof fn lemma_enc_in_exprs_snoc(xs: Seq<IncomingBindingExpressionV>, x: IncomingBindingExpressionV)
    ensures
        enc_in_exprs(xs.push(x)) == enc_in_exprs(xs) + (enc_in_expr(x)),
    decreases xs.len(),
{
    reveal_with_fuel(enc_in_exprs, 2);
    if xs.len() == 0 {
        assert(xs.push(x).drop_first() =~= Seq::<IncomingBindingExpressionV>::empty());
        assert(enc_in_exprs(xs.push(x)) =~= enc_in_exprs(xs) + (enc_in_expr(x)));
    } else {
        assert(xs.push(x).drop_first() =~= xs.drop_first().push(x));
        lemma_enc_in_exprs_snoc(xs.drop_first(), x);
        assert(enc_in_exprs(xs.push(x)) =~= enc_in_exprs(xs) + (enc_in_expr(x)));
    }
}

pub proof fn lemma_enc_bindings_snoc(xs: Seq<FunctionBindingV>, x: FunctionBindingV)
    ensures
        enc_bindings(xs.push(x)) == enc_bindings(xs) + (enc_binding(x)),
    decreases xs.len(),
{
    reveal_with_fuel(enc_bindings, 2);
    if xs.len() == 0 {
        assert(xs.push(x).drop_first() =~= Seq::<FunctionBindingV>::empty());
        assert(enc_bindings(xs.push(x)) =~= enc_bindings(xs) + (enc_binding(x)));
    } else {
        assert(xs.push(x).drop_first() =~= xs.drop_first().push(x));
        lemma_enc_bindings_snoc(xs.drop_first(), x);
        assert(enc_bindings(xs.push(x)) =~= enc_bindings(xs) + (enc_binding(x)));
    }
}

pub proof fn lemma_enc_binds_snoc(xs: Seq<Bind>, x: Bind)
    ensures
        enc_binds(xs.push(x)) == enc_binds(xs) + (enc_bind(x)),
    decreases xs.len(),
{
    reveal_with_fuel(enc_binds, 2);
    if xs.len() == 0 {
        assert(xs.push(x).drop_first() =~= Seq::<Bind>::empty());
        assert(enc_binds(xs.push(x)) =~= enc_binds(xs) + (enc_bind(x)));
    } else {
        assert(xs.push(x).drop_first() =~= xs.drop_first().push(x));
        lemma_enc_binds_snoc(xs.drop_first(), x);
        assert(enc_binds(xs.push(x)) =~= enc_binds(xs) + (enc_bind(x)));
    }
}

} // verus!
