//! The encoder: turns a container into the exact byte sequence the wire
//! format prescribes for it. Encoding never fails; it only asks that every
//! sequence fit its 32-bit count prefix and that strings be UTF-8, which
//! `encodable` states and `is_encodable` decides.

use vstd::prelude::*;

use crate::ast::Bind;
use crate::ast::FunctionBinding;
use crate::ast::IncomingBindingExpression;
use crate::ast::IncomingBindingMap;
use crate::ast::OutgoingBindingExpression;
use crate::ast::OutgoingBindingMap;
use crate::ast::WasmValType;
use crate::ast::WebidlBindings;
use crate::ast::WebidlCompoundType;
use crate::ast::WebidlFunctionKind;
use crate::ast::WebidlScalarType;
use crate::ast::WebidlTypeRef;
use crate::ast::lemma_in_exprs_view_props;
use crate::ast::lemma_out_exprs_view_props;
use crate::ast::out_exprs_view;
use crate::binary::leb::write_sleb32_nonneg;
use crate::binary::leb::write_uleb32;
use crate::binary::wire::enc_bind;
use crate::binary::wire::enc_binding;
use crate::binary::wire::enc_bindings;
use crate::binary::wire::enc_binds;
use crate::binary::wire::enc_bytes;
use crate::binary::wire::enc_compound;
use crate::binary::wire::enc_compounds;
use crate::binary::wire::enc_dict_fields;
use crate::binary::wire::enc_enum_values;
use crate::binary::wire::enc_in_expr;
use crate::binary::wire::enc_in_exprs;
use crate::binary::wire::enc_kind;
use crate::binary::wire::enc_opt_type_ref;
use crate::binary::wire::enc_out_expr;
use crate::binary::wire::enc_out_exprs;
use crate::binary::wire::enc_section;
use crate::binary::wire::enc_type_ref;
use crate::binary::wire::enc_type_refs;
use crate::binary::wire::encodable;
use crate::binary::wire::lemma_enc_bindings_snoc;
use crate::binary::wire::lemma_enc_binds_snoc;
use crate::binary::wire::lemma_enc_compounds_snoc;
use crate::binary::wire::lemma_enc_dict_fields_snoc;
use crate::binary::wire::lemma_enc_enum_values_snoc;
use crate::binary::wire::lemma_enc_in_exprs_snoc;
use crate::binary::wire::lemma_enc_out_exprs_snoc;
use crate::binary::wire::lemma_enc_type_refs_snoc;
use crate::binary::wire::scalar_byte;
use crate::binary::leb::uleb_enc;
use crate::binary::wire::valtype_byte;
use crate::binary::wire::wf_binding;
use crate::binary::wire::wf_bytes;
use crate::binary::wire::wf_type_ref;
use crate::binary::wire::wf_compound;
use crate::binary::wire::wf_in_expr;
use crate::binary::wire::wf_in_exprs;
use crate::binary::wire::wf_out_expr;
use crate::binary::wire::wf_out_exprs;
use crate::utf8::validate_utf8;

verus! {

broadcast use lemma_out_exprs_view_props, lemma_in_exprs_view_props, vstd::std_specs::vec::group_vec_axioms;

/// Appends raw bytes.
fn push_bytes(out: &mut Vec<u8>, bs: &[u8])
    ensures
        final(out)@ == old(out)@ + bs@,
{
    let ghost prefix = out@;
    let n = bs.len();
    let mut i: usize = 0;
    while i < n
        invariant
            i <= n && n == bs@.len(),
            out@ == prefix + bs@.take(i as int),
        decreases n - i,
    {
        out.push(bs[i]);
        proof {
            assert(bs@.take(i + 1) =~= bs@.take(i as int).push(bs@[i as int]));
            assert(out@ =~= prefix + bs@.take(i + 1));
        }
        i = i + 1;
    }
    proof {
        assert(bs@.take(n as int) =~= bs@);
    }
}

/// The byte of a scalar type reference.
fn scalar_to_byte(s: WebidlScalarType) -> (b: u8)
    ensures
        b == scalar_byte(s),
{
    match s {
        WebidlScalarType::Any => 0x7f,
        WebidlScalarType::Boolean => 0x7e,
        WebidlScalarType::Byte => 0x7d,
        WebidlScalarType::Octet => 0x7c,
        WebidlScalarType::Long => 0x7b,
        WebidlScalarType::UnsignedLong => 0x7a,
        WebidlScalarType::Short => 0x79,
        WebidlScalarType::UnsignedShort => 0x78,
        WebidlScalarType::LongLong => 0x77,
        WebidlScalarType::UnsignedLongLong => 0x76,
        WebidlScalarType::Float => 0x75,
        WebidlScalarType::UnrestrictedFloat => 0x74,
        WebidlScalarType::Double => 0x73,
        WebidlScalarType::UnrestrictedDouble => 0x72,
        WebidlScalarType::DomString => 0x71,
        WebidlScalarType::ByteString => 0x70,
        WebidlScalarType::UsvString => 0x6f,
        WebidlScalarType::Object => 0x6e,
        WebidlScalarType::Symbol => 0x6d,
        WebidlScalarType::ArrayBuffer => 0x6c,
        WebidlScalarType::DataView => 0x6b,
        WebidlScalarType::Int8Array => 0x6a,
        WebidlScalarType::Int16Array => 0x69,
        WebidlScalarType::Int32Array => 0x68,
        WebidlScalarType::Uint8Array => 0x67,
        WebidlScalarType::Uint16Array => 0x66,
        WebidlScalarType::Uint32Array => 0x65,
        WebidlScalarType::Uint8ClampedArray => 0x64,
        WebidlScalarType::Float32Array => 0x63,
        WebidlScalarType::Float64Array => 0x62,
    }
}

/// The byte of a WebAssembly value type.
fn valtype_to_byte(t: WasmValType) -> (b: u8)
    ensures
        b == valtype_byte(t),
{
    match t {
        WasmValType::I32 => 0x7f,
        WasmValType::I64 => 0x7e,
        WasmValType::F32 => 0x7d,
        WasmValType::F64 => 0x7c,
        WasmValType::V128 => 0x7b,
        WasmValType::Anyref => 0x6f,
    }
}

/// Appends one type reference.
fn encode_type_ref(r: WebidlTypeRef, out: &mut Vec<u8>)
    ensures
        final(out)@ == old(out)@ + enc_type_ref(r),
{
    match r {
        WebidlTypeRef::Scalar(s) => {
            out.push(scalar_to_byte(s));
            proof {
                assert(out@ =~= old(out)@ + enc_type_ref(r));
            }
        },
        WebidlTypeRef::Id(id) => {
            write_sleb32_nonneg(out, id.0);
        },
    }
}

/// Appends one length-prefixed byte string.
fn encode_bytes(bs: &[u8], out: &mut Vec<u8>)
    requires
        bs@.len() <= u32::MAX,
    ensures
        final(out)@ == old(out)@ + enc_bytes(bs@),
{
    write_uleb32(out, bs.len() as u32);
    push_bytes(out, bs);
    proof {
        assert(out@ =~= old(out)@ + enc_bytes(bs@));
    }
}

/// Appends one optional type reference.
fn encode_opt_type_ref(o: &Option<WebidlTypeRef>, out: &mut Vec<u8>)
    ensures
        final(out)@ == old(out)@ + enc_opt_type_ref(*o),
{
    match o {
        None => {
            out.push(0);
            proof {
                assert(out@ =~= old(out)@ + enc_opt_type_ref(*o));
            }
        },
        Some(r) => {
            out.push(1);
            encode_type_ref(*r, out);
            proof {
                assert(out@ =~= old(out)@ + enc_opt_type_ref(*o));
            }
        },
    }
}

/// Appends one function kind.
fn encode_kind(k: WebidlFunctionKind, out: &mut Vec<u8>)
    ensures
        final(out)@ == old(out)@ + enc_kind(k),
{
    match k {
        WebidlFunctionKind::Static => {
            out.push(0);
            proof {
                assert(out@ =~= old(out)@ + enc_kind(k));
            }
        },
        WebidlFunctionKind::Method(m) => {
            out.push(1);
            encode_type_ref(m.ty, out);
            proof {
                assert(out@ =~= old(out)@ + enc_kind(k));
            }
        },
        WebidlFunctionKind::Constructor => {
            out.push(2);
            proof {
                assert(out@ =~= old(out)@ + enc_kind(k));
            }
        },
    }
}

/// Appends a counted sequence of type references.
fn encode_type_ref_vec(xs: &Vec<WebidlTypeRef>, out: &mut Vec<u8>)
    requires
        xs@.len() <= u32::MAX,
    ensures
        final(out)@ == old(out)@ + uleb_enc(xs@.len()) + enc_type_refs(xs@),
{
    write_uleb32(out, xs.len() as u32);
    let ghost prefix = out@;
    let n = xs.len();
    let mut i: usize = 0;
    while i < n
        invariant
            i <= n && n == xs@.len(),
            out@ == prefix + enc_type_refs(xs@.take(i as int)),
        decreases n - i,
    {
        encode_type_ref(xs[i], out);
        proof {
            lemma_enc_type_refs_snoc(xs@.take(i as int), xs@[i as int]);
            assert(xs@.take(i + 1) =~= xs@.take(i as int).push(xs@[i as int]));
            assert(out@ =~= prefix + enc_type_refs(xs@.take(i + 1)));
        }
        i = i + 1;
    }
    proof {
        assert(xs@.take(n as int) =~= xs@);
    }
}

/// Appends one compound type.
#[verifier::loop_isolation(false)]
fn encode_compound(t: &WebidlCompoundType, out: &mut Vec<u8>)
    requires
        wf_compound(t@, 0x1_0000_0000),
    ensures
        final(out)@ == old(out)@ + enc_compound(t@),
{
    match t {
        WebidlCompoundType::Function(f) => {
            out.push(0);
            encode_kind(f.kind, out);
            encode_type_ref_vec(&f.params, out);
            encode_opt_type_ref(&f.result, out);
            proof {
                assert(out@ =~= old(out)@ + enc_compound(t@));
            }
        },
        WebidlCompoundType::Dictionary(d) => {
            out.push(1);
            write_uleb32(out, d.fields.len() as u32);
            let ghost prefix = out@;
            proof {
                let fviews = d.fields@.map_values(|fd: crate::ast::WebidlDictionaryField| fd@);
                assert(fviews.take(0) =~= Seq::<crate::ast::WebidlDictionaryFieldV>::empty());
                assert(out@ =~= prefix + enc_dict_fields(fviews.take(0)));
            }
            let n = d.fields.len();
            let mut i: usize = 0;
            while i < n
                invariant
                    i <= n && n == d.fields@.len(),
                    wf_compound(t@, 0x1_0000_0000),
                    out@ == prefix + enc_dict_fields(
                        d.fields@.map_values(|fd: crate::ast::WebidlDictionaryField| fd@).take(
                            i as int,
                        ),
                    ),
                decreases n - i,
            {
                let ghost fviews = d.fields@.map_values(
                    |fd: crate::ast::WebidlDictionaryField| fd@,
                );
                proof {
                    assert(wf_bytes(fviews[i as int].name) && wf_type_ref(
                        fviews[i as int].ty,
                        0x1_0000_0000,
                    ));
                    assert(fviews[i as int].name == d.fields@[i as int].name@);
                }
                encode_bytes(d.fields[i].name.as_slice(), out);
                encode_type_ref(d.fields[i].ty, out);
                proof {
                    lemma_enc_dict_fields_snoc(fviews.take(i as int), fviews[i as int]);
                    assert(fviews.take(i + 1) =~= fviews.take(i as int).push(fviews[i as int]));
                    assert(out@ =~= prefix + enc_dict_fields(fviews.take(i + 1)));
                }
                i = i + 1;
            }
            proof {
                let fviews = d.fields@.map_values(|fd: crate::ast::WebidlDictionaryField| fd@);
                assert(fviews.take(n as int) =~= fviews);
                assert(out@ =~= old(out)@ + enc_compound(t@));
            }
        },
        WebidlCompoundType::Enumeration(e) => {
            out.push(2);
            write_uleb32(out, e.values.len() as u32);
            let ghost prefix = out@;
            proof {
                let vviews = e.values@.map_values(|v: Vec<u8>| v@);
                assert(vviews.take(0) =~= Seq::<Seq<u8>>::empty());
                assert(out@ =~= prefix + enc_enum_values(vviews.take(0)));
            }
            let n = e.values.len();
            let mut i: usize = 0;
            while i < n
                invariant
                    i <= n && n == e.values@.len(),
                    wf_compound(t@, 0x1_0000_0000),
                    out@ == prefix + enc_enum_values(
                        e.values@.map_values(|v: Vec<u8>| v@).take(i as int),
                    ),
                decreases n - i,
            {
                let ghost vviews = e.values@.map_values(|v: Vec<u8>| v@);
                proof {
                    assert(wf_bytes(vviews[i as int]));
                    assert(vviews[i as int] == e.values@[i as int]@);
                }
                encode_bytes(e.values[i].as_slice(), out);
                proof {
                    lemma_enc_enum_values_snoc(vviews.take(i as int), vviews[i as int]);
                    assert(vviews.take(i + 1) =~= vviews.take(i as int).push(vviews[i as int]));
                    assert(out@ =~= prefix + enc_enum_values(vviews.take(i + 1)));
                }
                i = i + 1;
            }
            proof {
                let vviews = e.values@.map_values(|v: Vec<u8>| v@);
                assert(vviews.take(n as int) =~= vviews);
                assert(out@ =~= old(out)@ + enc_compound(t@));
            }
        },
        WebidlCompoundType::Union(u) => {
            out.push(3);
            encode_type_ref_vec(&u.members, out);
            proof {
                assert(out@ =~= old(out)@ + enc_compound(t@));
            }
        },
    }
}

/// Appends one outgoing expression, children included.
#[verifier::loop_isolation(false)]
fn encode_out_expr(e: &OutgoingBindingExpression, out: &mut Vec<u8>)
    requires
        wf_out_expr(e@, 0x1_0000_0000, 0x1_0000_0000),
    ensures
        final(out)@ == old(out)@ + enc_out_expr(e@),
    decreases *e,
{
    match e {
        OutgoingBindingExpression::As(a) => {
            out.push(0);
            encode_type_ref(a.ty, out);
            write_uleb32(out, a.idx);
            proof {
                assert(out@ =~= old(out)@ + enc_out_expr(e@));
            }
        },
        OutgoingBindingExpression::Utf8Str(x) => {
            out.push(1);
            encode_type_ref(x.ty, out);
            write_uleb32(out, x.offset);
            write_uleb32(out, x.length);
            proof {
                assert(out@ =~= old(out)@ + enc_out_expr(e@));
            }
        },
        OutgoingBindingExpression::Utf8CStr(x) => {
            out.push(2);
            encode_type_ref(x.ty, out);
            write_uleb32(out, x.offset);
            proof {
                assert(out@ =~= old(out)@ + enc_out_expr(e@));
            }
        },
        OutgoingBindingExpression::I32ToEnum(x) => {
            out.push(3);
            encode_type_ref(x.ty, out);
            write_uleb32(out, x.idx);
            proof {
                assert(out@ =~= old(out)@ + enc_out_expr(e@));
            }
        },
        OutgoingBindingExpression::View(x) => {
            out.push(4);
            encode_type_ref(x.ty, out);
            write_uleb32(out, x.offset);
            write_uleb32(out, x.length);
            proof {
                assert(out@ =~= old(out)@ + enc_out_expr(e@));
            }
        },
        OutgoingBindingExpression::Copy(x) => {
            out.push(5);
            encode_type_ref(x.ty, out);
            write_uleb32(out, x.offset);
            write_uleb32(out, x.length);
            proof {
                assert(out@ =~= old(out)@ + enc_out_expr(e@));
            }
        },
        OutgoingBindingExpression::Dict(d) => {
            out.push(6);
            encode_type_ref(d.ty, out);
            write_uleb32(out, d.fields.len() as u32);
            let ghost prefix = out@;
            proof {
                assert(out_exprs_view(d.fields@).take(0)
                    =~= Seq::<crate::ast::OutgoingBindingExpressionV>::empty());
                assert(out@ =~= prefix + enc_out_exprs(out_exprs_view(d.fields@).take(0)));
            }
            let n = d.fields.len();
            let mut i: usize = 0;
            while i < n
                invariant
                    i <= n && n == d.fields@.len(),
                    wf_out_exprs(out_exprs_view(d.fields@), 0x1_0000_0000, 0x1_0000_0000),
                    out@ == prefix + enc_out_exprs(out_exprs_view(d.fields@).take(i as int)),
                decreases n - i,
            {
                let ghost eviews = out_exprs_view(d.fields@);
                proof {
                    assert(wf_out_expr(eviews[i as int], 0x1_0000_0000, 0x1_0000_0000));
                    assert(eviews[i as int] == d.fields@[i as int]@);
                    assert(decreases_to!(d.fields => d.fields[i as int]));
                    assert(decreases_to!(*e => d.fields[i as int]));
                }
                encode_out_expr(&d.fields[i], out);
                proof {
                    lemma_enc_out_exprs_snoc(eviews.take(i as int), eviews[i as int]);
                    assert(eviews.take(i + 1) =~= eviews.take(i as int).push(eviews[i as int]));
                    assert(out@ =~= prefix + enc_out_exprs(eviews.take(i + 1)));
                }
                i = i + 1;
            }
            proof {
                let eviews = out_exprs_view(d.fields@);
                assert(eviews.take(n as int) =~= eviews);
                assert(out@ =~= old(out)@ + enc_out_expr(e@));
            }
        },
        OutgoingBindingExpression::BindExport(x) => {
            out.push(7);
            encode_type_ref(x.ty, out);
            write_uleb32(out, x.binding.0);
            write_uleb32(out, x.idx);
            proof {
                assert(out@ =~= old(out)@ + enc_out_expr(e@));
            }
        },
    }
}

/// Appends one incoming expression, its child included.
fn encode_in_expr(e: &IncomingBindingExpression, out: &mut Vec<u8>)
    requires
        wf_in_expr(e@, 0x1_0000_0000, 0x1_0000_0000, 0x1_0000_0000),
    ensures
        final(out)@ == old(out)@ + enc_in_expr(e@),
    decreases *e,
{
    match e {
        IncomingBindingExpression::Get(g) => {
            out.push(0);
            write_uleb32(out, g.idx);
            proof {
                assert(out@ =~= old(out)@ + enc_in_expr(e@));
            }
        },
        IncomingBindingExpression::As(a) => {
            out.push(1);
            out.push(valtype_to_byte(a.ty));
            encode_in_expr(&a.expr, out);
            proof {
                assert(out@ =~= old(out)@ + enc_in_expr(e@));
            }
        },
        IncomingBindingExpression::AllocUtf8Str(a) => {
            out.push(2);
            encode_bytes(a.alloc_func_name.as_slice(), out);
            encode_in_expr(&a.expr, out);
            proof {
                assert(out@ =~= old(out)@ + enc_in_expr(e@));
            }
        },
        IncomingBindingExpression::AllocCopy(a) => {
            out.push(3);
            encode_bytes(a.alloc_func_name.as_slice(), out);
            encode_in_expr(&a.expr, out);
            proof {
                assert(out@ =~= old(out)@ + enc_in_expr(e@));
            }
        },
        IncomingBindingExpression::EnumToI32(a) => {
            out.push(4);
            encode_type_ref(a.ty, out);
            encode_in_expr(&a.expr, out);
            proof {
                assert(out@ =~= old(out)@ + enc_in_expr(e@));
            }
        },
        IncomingBindingExpression::Field(a) => {
            out.push(5);
            write_uleb32(out, a.idx);
            encode_in_expr(&a.expr, out);
            proof {
                assert(out@ =~= old(out)@ + enc_in_expr(e@));
            }
        },
        IncomingBindingExpression::BindImport(a) => {
            out.push(6);
            write_uleb32(out, a.ty.0);
            write_uleb32(out, a.binding.0);
            encode_in_expr(&a.expr, out);
            proof {
                assert(out@ =~= old(out)@ + enc_in_expr(e@));
            }
        },
    }
}

/// Appends one counted outgoing map.
fn encode_out_map(m: &OutgoingBindingMap, out: &mut Vec<u8>)
    requires
        m@.len() <= u32::MAX,
        wf_out_exprs(m@, 0x1_0000_0000, 0x1_0000_0000),
    ensures
        final(out)@ == old(out)@ + uleb_enc(m@.len()) + enc_out_exprs(m@),
{
    write_uleb32(out, m.bindings.len() as u32);
    let ghost prefix = out@;
    let n = m.bindings.len();
    let mut i: usize = 0;
    while i < n
        invariant
            i <= n && n == m.bindings@.len(),
            wf_out_exprs(m@, 0x1_0000_0000, 0x1_0000_0000),
            out@ == prefix + enc_out_exprs(m@.take(i as int)),
        decreases n - i,
    {
        proof {
            assert(m@[i as int] == m.bindings@[i as int]@);
            assert(wf_out_expr(m@[i as int], 0x1_0000_0000, 0x1_0000_0000));
        }
        encode_out_expr(&m.bindings[i], out);
        proof {
            lemma_enc_out_exprs_snoc(m@.take(i as int), m@[i as int]);
            assert(m@.take(i + 1) =~= m@.take(i as int).push(m@[i as int]));
            assert(out@ =~= prefix + enc_out_exprs(m@.take(i + 1)));
        }
        i = i + 1;
    }
    proof {
        assert(m@.take(n as int) =~= m@);
    }
}

/// Appends one counted incoming map.
fn encode_in_map(m: &IncomingBindingMap, out: &mut Vec<u8>)
    requires
        m@.len() <= u32::MAX,
        wf_in_exprs(m@, 0x1_0000_0000, 0x1_0000_0000, 0x1_0000_0000),
    ensures
        final(out)@ == old(out)@ + uleb_enc(m@.len()) + enc_in_exprs(m@),
{
    write_uleb32(out, m.bindings.len() as u32);
    let ghost prefix = out@;
    let n = m.bindings.len();
    let mut i: usize = 0;
    while i < n
        invariant
            i <= n && n == m.bindings@.len(),
            wf_in_exprs(m@, 0x1_0000_0000, 0x1_0000_0000, 0x1_0000_0000),
            out@ == prefix + enc_in_exprs(m@.take(i as int)),
        decreases n - i,
    {
        proof {
            assert(m@[i as int] == m.bindings@[i as int]@);
            assert(wf_in_expr(m@[i as int], 0x1_0000_0000, 0x1_0000_0000, 0x1_0000_0000));
        }
        encode_in_expr(&m.bindings[i], out);
        proof {
            lemma_enc_in_exprs_snoc(m@.take(i as int), m@[i as int]);
            assert(m@.take(i + 1) =~= m@.take(i as int).push(m@[i as int]));
            assert(out@ =~= prefix + enc_in_exprs(m@.take(i + 1)));
        }
        i = i + 1;
    }
    proof {
        assert(m@.take(n as int) =~= m@);
    }
}

/// Appends one function binding.
fn encode_binding(b: &FunctionBinding, out: &mut Vec<u8>)
    requires
        wf_binding(b@, 0x1_0000_0000, 0x1_0000_0000, 0x1_0000_0000),
    ensures
        final(out)@ == old(out)@ + enc_binding(b@),
{
    match b {
        FunctionBinding::Import(i) => {
            out.push(0);
            write_uleb32(out, i.wasm_ty.0);
            encode_type_ref(i.webidl_ty, out);
            encode_out_map(&i.params, out);
            encode_in_map(&i.result, out);
            proof {
                assert(out@ =~= old(out)@ + enc_binding(b@));
            }
        },
        FunctionBinding::Export(x) => {
            out.push(1);
            write_uleb32(out, x.wasm_ty.0);
            encode_type_ref(x.webidl_ty, out);
            encode_in_map(&x.params, out);
            encode_out_map(&x.result, out);
            proof {
                assert(out@ =~= old(out)@ + enc_binding(b@));
            }
        },
    }
}

/// Appends one bind.
fn encode_bind(bd: &Bind, out: &mut Vec<u8>)
    ensures
        final(out)@ == old(out)@ + enc_bind(*bd),
{
    write_uleb32(out, bd.func.0);
    write_uleb32(out, bd.binding.0);
    proof {
        assert(out@ =~= old(out)@ + enc_bind(*bd));
    }
}

/// Appends the whole section: the type subsection, then the
/// function-bindings subsection. Deterministic: a container has exactly one
/// encoding.
pub fn encode(section: &WebidlBindings, out: &mut Vec<u8>)
    requires
        encodable(section@),
    ensures
        final(out)@ == old(out)@ + enc_section(section@),
{
    out.push(0);
    write_uleb32(out, section.types.arena.len() as u32);
    let ghost tviews = section.types@.arena;
    let ghost prefix1 = out@;
    let n = section.types.arena.len();
    let mut i: usize = 0;
    while i < n
        invariant
            i <= n && n == section.types.arena@.len(),
            encodable(section@),
            tviews == section.types@.arena,
            out@ == prefix1 + enc_compounds(tviews.take(i as int)),
        decreases n - i,
    {
        proof {
            assert(tviews[i as int] == section.types.arena@[i as int]@);
            assert(wf_compound(tviews[i as int], 0x1_0000_0000));
        }
        encode_compound(&section.types.arena[i], out);
        proof {
            lemma_enc_compounds_snoc(tviews.take(i as int), tviews[i as int]);
            assert(tviews.take(i + 1) =~= tviews.take(i as int).push(tviews[i as int]));
            assert(out@ =~= prefix1 + enc_compounds(tviews.take(i + 1)));
        }
        i = i + 1;
    }
    proof {
        assert(tviews.take(n as int) =~= tviews);
    }

    out.push(1);
    write_uleb32(out, section.bindings.arena.len() as u32);
    let ghost bviews = section.bindings@.arena;
    let ghost prefix2 = out@;
    let nb = section.bindings.arena.len();
    let mut j: usize = 0;
    while j < nb
        invariant
            j <= nb && nb == section.bindings.arena@.len(),
            encodable(section@),
            bviews == section.bindings@.arena,
            out@ == prefix2 + enc_bindings(bviews.take(j as int)),
        decreases nb - j,
    {
        proof {
            assert(bviews[j as int] == section.bindings.arena@[j as int]@);
            assert(wf_binding(bviews[j as int], 0x1_0000_0000, 0x1_0000_0000, 0x1_0000_0000));
        }
        encode_binding(&section.bindings.arena[j], out);
        proof {
            lemma_enc_bindings_snoc(bviews.take(j as int), bviews[j as int]);
            assert(bviews.take(j + 1) =~= bviews.take(j as int).push(bviews[j as int]));
            assert(out@ =~= prefix2 + enc_bindings(bviews.take(j + 1)));
        }
        j = j + 1;
    }
    proof {
        assert(bviews.take(nb as int) =~= bviews);
    }

    write_uleb32(out, section.binds.arena.len() as u32);
    let ghost prefix3 = out@;
    let nd = section.binds.arena.len();
    let mut k: usize = 0;
    while k < nd
        invariant
            k <= nd && nd == section.binds.arena@.len(),
            out@ == prefix3 + enc_binds(section.binds.arena@.take(k as int)),
        decreases nd - k,
    {
        encode_bind(&section.binds.arena[k], out);
        proof {
            let dviews = section.binds.arena@;
            lemma_enc_binds_snoc(dviews.take(k as int), dviews[k as int]);
            assert(dviews.take(k + 1) =~= dviews.take(k as int).push(dviews[k as int]));
            assert(out@ =~= prefix3 + enc_binds(dviews.take(k + 1)));
        }
        k = k + 1;
    }
    proof {
        assert(section.binds.arena@.take(nd as int) =~= section.binds.arena@);
        assert(out@ =~= old(out)@ + enc_section(section@));
    }
}

/// Whether one byte string fits the wire format: length within the count
/// prefix and well-formed UTF-8.
fn check_bytes(bs: &Vec<u8>) -> (r: bool)
    ensures
        r == wf_bytes(bs@),
{
    bs.len() <= (u32::MAX as usize) && validate_utf8(bs.as_slice())
}

/// Whether one outgoing expression fits the wire format.
#[verifier::loop_isolation(false)]
fn check_out_expr(e: &OutgoingBindingExpression) -> (r: bool)
    ensures
        r == wf_out_expr(e@, 0x1_0000_0000, 0x1_0000_0000),
    decreases *e,
{
    broadcast use lemma_out_exprs_view_props;

    match e {
        OutgoingBindingExpression::Dict(d) => {
            if d.fields.len() > (u32::MAX as usize) {
                return false;
            }
            let n = d.fields.len();
            let mut i: usize = 0;
            while i < n
                invariant
                    i <= n && n == d.fields@.len(),
                    forall|j: int| 0 <= j < i ==> wf_out_expr(
                        #[trigger] out_exprs_view(d.fields@)[j],
                        0x1_0000_0000,
                        0x1_0000_0000,
                    ),
                decreases n - i,
            {
                proof {
                    assert(decreases_to!(d.fields => d.fields[i as int]));
                    assert(decreases_to!(*e => d.fields[i as int]));
                }
                if !check_out_expr(&d.fields[i]) {
                    proof {
                        assert(out_exprs_view(d.fields@)[i as int] == d.fields@[i as int]@);
                    }
                    return false;
                }
                proof {
                    assert(out_exprs_view(d.fields@)[i as int] == d.fields@[i as int]@);
                }
                i = i + 1;
            }
            true
        },
        _ => true,
    }
}

/// Whether one incoming expression fits the wire format.
fn check_in_expr(e: &IncomingBindingExpression) -> (r: bool)
    ensures
        r == wf_in_expr(e@, 0x1_0000_0000, 0x1_0000_0000, 0x1_0000_0000),
    decreases *e,
{
    match e {
        IncomingBindingExpression::Get(_) => true,
        IncomingBindingExpression::As(a) => check_in_expr(&a.expr),
        IncomingBindingExpression::AllocUtf8Str(a) => check_bytes(&a.alloc_func_name)
            && check_in_expr(&a.expr),
        IncomingBindingExpression::AllocCopy(a) => check_bytes(&a.alloc_func_name)
            && check_in_expr(&a.expr),
        IncomingBindingExpression::EnumToI32(a) => check_in_expr(&a.expr),
        IncomingBindingExpression::Field(a) => check_in_expr(&a.expr),
        IncomingBindingExpression::BindImport(a) => check_in_expr(&a.expr),
    }
}

/// Whether one outgoing map fits the wire format.
#[verifier::loop_isolation(false)]
fn check_out_map(m: &OutgoingBindingMap) -> (r: bool)
    ensures
        r == (m@.len() <= u32::MAX && wf_out_exprs(m@, 0x1_0000_0000, 0x1_0000_0000)),
{
    broadcast use lemma_out_exprs_view_props;

    if m.bindings.len() > (u32::MAX as usize) {
        return false;
    }
    let n = m.bindings.len();
    let mut i: usize = 0;
    while i < n
        invariant
            i <= n && n == m.bindings@.len(),
            forall|j: int| 0 <= j < i ==> wf_out_expr(
                #[trigger] m@[j],
                0x1_0000_0000,
                0x1_0000_0000,
            ),
        decreases n - i,
    {
        if !check_out_expr(&m.bindings[i]) {
            proof {
                assert(m@[i as int] == m.bindings@[i as int]@);
            }
            return false;
        }
        proof {
            assert(m@[i as int] == m.bindings@[i as int]@);
        }
        i = i + 1;
    }
    true
}

/// Whether one incoming map fits the wire format.
#[verifier::loop_isolation(false)]
fn check_in_map(m: &IncomingBindingMap) -> (r: bool)
    ensures
        r == (m@.len() <= u32::MAX && wf_in_exprs(
            m@,
            0x1_0000_0000,
            0x1_0000_0000,
            0x1_0000_0000,
        )),
{
    broadcast use lemma_in_exprs_view_props;

    if m.bindings.len() > (u32::MAX as usize) {
        return false;
    }
    let n = m.bindings.len();
    let mut i: usize = 0;
    while i < n
        invariant
            i <= n && n == m.bindings@.len(),
            forall|j: int| 0 <= j < i ==> wf_in_expr(
                #[trigger] m@[j],
                0x1_0000_0000,
                0x1_0000_0000,
                0x1_0000_0000,
            ),
        decreases n - i,
    {
        if !check_in_expr(&m.bindings[i]) {
            proof {
                assert(m@[i as int] == m.bindings@[i as int]@);
            }
            return false;
        }
        proof {
            assert(m@[i as int] == m.bindings@[i as int]@);
        }
        i = i + 1;
    }
    true
}

/// Whether one compound type fits the wire format.
#[verifier::loop_isolation(false)]
fn check_compound(t: &WebidlCompoundType) -> (r: bool)
    ensures
        r == wf_compound(t@, 0x1_0000_0000),
{
    match t {
        WebidlCompoundType::Function(f) => f.params.len() <= (u32::MAX as usize),
        WebidlCompoundType::Dictionary(d) => {
            if d.fields.len() > (u32::MAX as usize) {
                return false;
            }
            let ghost fviews = d.fields@.map_values(|fd: crate::ast::WebidlDictionaryField| fd@);
            let n = d.fields.len();
            let mut i: usize = 0;
            while i < n
                invariant
                    i <= n && n == d.fields@.len(),
                    forall|j: int| 0 <= j < i ==> wf_bytes(#[trigger] fviews[j].name),
                decreases n - i,
            {
                if !check_bytes(&d.fields[i].name) {
                    proof {
                        assert(fviews[i as int].name == d.fields@[i as int].name@);
                    }
                    return false;
                }
                proof {
                    assert(fviews[i as int].name == d.fields@[i as int].name@);
                }
                i = i + 1;
            }
            true
        },
        WebidlCompoundType::Enumeration(en) => {
            if en.values.len() > (u32::MAX as usize) {
                return false;
            }
            let ghost vviews = en.values@.map_values(|v: Vec<u8>| v@);
            let n = en.values.len();
            let mut i: usize = 0;
            while i < n
                invariant
                    i <= n && n == en.values@.len(),
                    forall|j: int| 0 <= j < i ==> wf_bytes(#[trigger] vviews[j]),
                decreases n - i,
            {
                if !check_bytes(&en.values[i]) {
                    proof {
                        assert(vviews[i as int] == en.values@[i as int]@);
                    }
                    return false;
                }
                proof {
                    assert(vviews[i as int] == en.values@[i as int]@);
                }
                i = i + 1;
            }
            true
        },
        WebidlCompoundType::Union(u) => u.members.len() <= (u32::MAX as usize),
    }
}

/// Whether one function binding fits the wire format.
fn check_binding(b: &FunctionBinding) -> (r: bool)
    ensures
        r == wf_binding(b@, 0x1_0000_0000, 0x1_0000_0000, 0x1_0000_0000),
{
    match b {
        FunctionBinding::Import(i) => check_out_map(&i.params) && check_in_map(&i.result),
        FunctionBinding::Export(x) => check_in_map(&x.params) && check_out_map(&x.result),
    }
}

/// Whether `encode` accepts `section`: every sequence fits its 32-bit count
/// prefix and every string is well-formed UTF-8. References play no part;
/// encoding writes any index.
#[verifier::loop_isolation(false)]
pub fn is_encodable(section: &WebidlBindings) -> (r: bool)
    ensures
        r == encodable(section@),
{
    if section.types.arena.len() > (u32::MAX as usize) || section.bindings.arena.len() > (
    u32::MAX as usize) || section.binds.arena.len() > (u32::MAX as usize) {
        return false;
    }
    let n = section.types.arena.len();
    let mut i: usize = 0;
    while i < n
        invariant
            i <= n && n == section.types.arena@.len(),
            forall|j: int| 0 <= j < i ==> wf_compound(
                #[trigger] section.types@.arena[j],
                0x1_0000_0000,
            ),
        decreases n - i,
    {
        if !check_compound(&section.types.arena[i]) {
            proof {
                assert(section.types@.arena[i as int] == section.types.arena@[i as int]@);
            }
            return false;
        }
        proof {
            assert(section.types@.arena[i as int] == section.types.arena@[i as int]@);
        }
        i = i + 1;
    }
    let nb = section.bindings.arena.len();
    let mut j: usize = 0;
    while j < nb
        invariant
            j <= nb && nb == section.bindings.arena@.len(),
            forall|k: int| 0 <= k < j ==> wf_binding(
                #[trigger] section.bindings@.arena[k],
                0x1_0000_0000,
                0x1_0000_0000,
                0x1_0000_0000,
            ),
        decreases nb - j,
    {
        if !check_binding(&section.bindings.arena[j]) {
            proof {
                assert(section.bindings@.arena[j as int] == section.bindings.arena@[j as int]@);
            }
            return false;
        }
        proof {
            assert(section.bindings@.arena[j as int] == section.bindings.arena@[j as int]@);
        }
        j = j + 1;
    }
    true
}

} // verus!
