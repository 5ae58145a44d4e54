//! Decoding inverts encoding: for every well-formed container, the decoder
//! applied to the encoder's output — with anything at all after it — yields
//! exactly the encoded value and consumes exactly its bytes.

use vstd::prelude::*;
use vstd::arithmetic::power2::lemma2_to64;
use vstd::arithmetic::power2::lemma2_to64_rest;

use crate::ast::Bind;
use crate::ast::ExportBindingV;
use crate::ast::ImportBindingV;
use crate::ast::FunctionBindingV;
use crate::ast::HostIndices;
use crate::ast::IncomingBindingExpressionV;
use crate::ast::OutgoingBindingExpressionV;
use crate::ast::WasmValType;
use crate::ast::WebidlBindingsV;
use crate::ast::WebidlCompoundTypeV;
use crate::ast::WebidlDictionaryFieldV;
use crate::ast::WebidlFunctionKind;
use crate::ast::WebidlScalarType;
use crate::ast::WebidlTypeRef;
use crate::binary::error::DecodeError;
use crate::binary::leb::lemma_sleb_nonneg_roundtrip;
use crate::binary::leb::lemma_uleb_roundtrip;
use crate::binary::leb::sleb32_dec;
use crate::binary::leb::sleb_enc_nonneg;
use crate::binary::leb::uleb32_dec;
use crate::binary::leb::uleb_enc;
use crate::binary::wire::code_scalar;
use crate::binary::wire::dec_bind;
use crate::binary::wire::dec_binding;
use crate::binary::wire::dec_binding_maps;
use crate::binary::wire::dec_section_bindings;
use crate::binary::wire::dec_bindings;
use crate::binary::wire::dec_binds;
use crate::binary::wire::dec_bytes;
use crate::binary::wire::dec_compound;
use crate::binary::wire::dec_compounds;
use crate::binary::wire::dec_dict_fields;
use crate::binary::wire::dec_enum_values;
use crate::binary::wire::dec_in_expr;
use crate::binary::wire::dec_in_exprs;
use crate::binary::wire::dec_kind;
use crate::binary::wire::dec_opt_type_ref;
use crate::binary::wire::dec_out_expr;
use crate::binary::wire::dec_out_exprs;
use crate::binary::wire::dec_section;
use crate::binary::wire::dec_type_ref;
use crate::binary::wire::dec_type_refs;
use crate::binary::wire::dec_valtype;
use crate::binary::wire::enc_bind;
use crate::binary::wire::enc_binding;
use crate::binary::wire::enc_bindings;
use crate::binary::wire::enc_binds;
use crate::binary::wire::enc_bytes;
use crate::binary::wire::enc_compound;
use crate::binary::wire::enc_compounds;
use crate::binary::wire::enc_dict_fields;
use crate::binary::wire::enc_enum_values;
use crate::binary::wire::enc_in_expr;
use crate::binary::wire::enc_in_exprs;
use crate::binary::wire::enc_kind;
use crate::binary::wire::enc_opt_type_ref;
use crate::binary::wire::enc_out_expr;
use crate::binary::wire::enc_out_exprs;
use crate::binary::wire::enc_section;
use crate::binary::wire::enc_type_ref;
use crate::binary::wire::enc_type_refs;
use crate::binary::wire::scalar_byte;
use crate::binary::wire::scalar_code;
use crate::binary::wire::used_ok;
use crate::binary::wire::valtype_byte;
use crate::binary::wire::wf_bind;
use crate::binary::wire::wf_binding;
use crate::binary::wire::wf_bytes;
use crate::binary::wire::wf_compound;
use crate::binary::wire::wf_in_expr;
use crate::binary::wire::wf_in_exprs;
use crate::binary::wire::wf_kind;
use crate::binary::wire::wf_opt_type_ref;
use crate::binary::wire::wf_out_expr;
use crate::binary::wire::wf_out_exprs;
use crate::binary::wire::wf_section;
use crate::binary::wire::wf_type_ref;

verus! {

/// An unsigned 32-bit count or index reads back exactly.
proof fn lemma_rt_uleb32(v: nat, rest: Seq<u8>)
    requires
        v <= u32::MAX,
    ensures
        uleb32_dec(uleb_enc(v) + rest) == Ok::<(u32, int), DecodeError>((
            v as u32,
            uleb_enc(v).len() as int,
        )),
        uleb_enc(v).len() >= 1,
{
    lemma2_to64();
    lemma2_to64_rest();
    lemma_uleb_roundtrip(v, 0, rest);
}

/// A non-negative signed index reads back exactly.
proof fn lemma_rt_sleb_idx(v: nat, rest: Seq<u8>)
    requires
        v <= i32::MAX,
    ensures
        sleb32_dec(sleb_enc_nonneg(v) + rest) == Ok::<(i32, int), DecodeError>((
            v as i32,
            sleb_enc_nonneg(v).len() as int,
        )),
        sleb_enc_nonneg(v).len() >= 1,
{
    lemma2_to64();
    lemma2_to64_rest();
    lemma_sleb_nonneg_roundtrip(v, 0, rest);
}

/// The scalar codes are a bijection onto `-30..=-1`.
pub proof fn lemma_scalar_code_bijective(sc: WebidlScalarType)
    ensures
        -30 <= scalar_code(sc) <= -1,
        code_scalar(scalar_code(sc)) == sc,
{
}

/// A byte string reads back exactly.
proof fn lemma_rt_bytes(bs: Seq<u8>, rest: Seq<u8>)
    requires
        wf_bytes(bs),
    ensures
        dec_bytes(enc_bytes(bs) + rest) == Ok::<(Seq<u8>, int), DecodeError>((
            bs,
            enc_bytes(bs).len() as int,
        )),
        enc_bytes(bs).len() >= 1,
{
    let s = enc_bytes(bs) + rest;
    assert(uleb_enc(bs.len()) + (bs + rest) =~= s);
    lemma_rt_uleb32(bs.len(), bs + rest);
    let k1 = uleb_enc(bs.len()).len() as int;
    assert(s.subrange(k1, k1 + bs.len() as int) =~= bs);
}

/// A type reference reads back exactly: every scalar tag round-trips, and
/// an arena position reads back as a handle to the same position.
pub proof fn lemma_rt_type_ref(r: WebidlTypeRef, nt: int, rest: Seq<u8>)
    requires
        wf_type_ref(r, nt),
        nt <= i32::MAX + 1,
    ensures
        dec_type_ref(enc_type_ref(r) + rest, nt) == Ok::<(WebidlTypeRef, int), DecodeError>((
            r,
            enc_type_ref(r).len() as int,
        )),
        enc_type_ref(r).len() >= 1,
{
    match r {
        WebidlTypeRef::Scalar(sc) => {
            lemma_scalar_code_bijective(sc);
            let s = enc_type_ref(r) + rest;
            assert(s[0] == scalar_byte(sc));
            lemma2_to64();
            assert(sleb32_dec(s) == Ok::<(i32, int), DecodeError>((
                scalar_code(sc) as i32,
                1,
            )));
        },
        WebidlTypeRef::Id(id) => {
            lemma_rt_sleb_idx(id.0 as nat, rest);
        },
    }
}

/// An optional type reference reads back exactly.
proof fn lemma_rt_opt_type_ref(o: Option<WebidlTypeRef>, nt: int, rest: Seq<u8>)
    requires
        wf_opt_type_ref(o, nt),
        nt <= i32::MAX + 1,
    ensures
        dec_opt_type_ref(enc_opt_type_ref(o) + rest, nt) == Ok::<
            (Option<WebidlTypeRef>, int),
            DecodeError,
        >((o, enc_opt_type_ref(o).len() as int)),
        enc_opt_type_ref(o).len() >= 1,
{
    let s = enc_opt_type_ref(o) + rest;
    match o {
        None => {
            assert(s[0] == 0);
        },
        Some(r) => {
            assert(s[0] == 1);
            assert(s.skip(1) =~= enc_type_ref(r) + rest);
            lemma_rt_type_ref(r, nt, rest);
        },
    }
}

/// A function kind reads back exactly.
proof fn lemma_rt_kind(k: WebidlFunctionKind, nt: int, rest: Seq<u8>)
    requires
        wf_kind(k, nt),
        nt <= i32::MAX + 1,
    ensures
        dec_kind(enc_kind(k) + rest, nt) == Ok::<(WebidlFunctionKind, int), DecodeError>((
            k,
            enc_kind(k).len() as int,
        )),
        enc_kind(k).len() >= 1,
{
    let s = enc_kind(k) + rest;
    match k {
        WebidlFunctionKind::Static => {
            assert(s[0] == 0);
        },
        WebidlFunctionKind::Method(m) => {
            assert(s[0] == 1);
            assert(s.skip(1) =~= enc_type_ref(m.ty) + rest);
            lemma_rt_type_ref(m.ty, nt, rest);
        },
        WebidlFunctionKind::Constructor => {
            assert(s[0] == 2);
        },
    }
}

/// A WebAssembly value type reads back exactly.
proof fn lemma_rt_valtype(t: WasmValType, rest: Seq<u8>)
    ensures
        dec_valtype(seq![valtype_byte(t)] + rest) == Ok::<(WasmValType, int), DecodeError>((t, 1)),
{
    let s = seq![valtype_byte(t)] + rest;
    assert(s[0] == valtype_byte(t));
}

/// A row of type references reads back exactly.
#[verifier::rlimit(100)]
#[verifier::spinoff_prover]
proof fn lemma_rt_type_refs(xs: Seq<WebidlTypeRef>, nt: int, rest: Seq<u8>)
    requires
        forall|i: int| 0 <= i < xs.len() ==> wf_type_ref(#[trigger] xs[i], nt),
        nt <= i32::MAX + 1,
    ensures
        dec_type_refs(enc_type_refs(xs) + rest, xs.len(), nt) == Ok::<
            (Seq<WebidlTypeRef>, int),
            DecodeError,
        >((xs, enc_type_refs(xs).len() as int)),
    decreases xs.len(),
{
    if xs.len() == 0 {
        assert(enc_type_refs(xs) + rest =~= rest);
        assert(xs =~= Seq::<WebidlTypeRef>::empty());
    } else {
        let s = enc_type_refs(xs) + rest;
        let tail = enc_type_refs(xs.drop_first()) + rest;
        assert(s =~= enc_type_ref(xs[0]) + tail);
        lemma_rt_type_ref(xs[0], nt, tail);
        let k1 = enc_type_ref(xs[0]).len() as int;
        assert(used_ok(k1, s));
        assert(s.skip(k1) =~= tail);
        assert(forall|i: int| 0 <= i < xs.drop_first().len() ==> wf_type_ref(
            #[trigger] xs.drop_first()[i],
            nt,
        ));
        lemma_rt_type_refs(xs.drop_first(), nt, rest);
        assert(seq![xs[0]] + xs.drop_first() =~= xs);
    }
}

/// A row of dictionary fields reads back exactly.
#[verifier::rlimit(100)]
#[verifier::spinoff_prover]
proof fn lemma_rt_dict_fields(xs: Seq<WebidlDictionaryFieldV>, nt: int, rest: Seq<u8>)
    requires
        forall|i: int| 0 <= i < xs.len() ==> wf_bytes(#[trigger] xs[i].name) && wf_type_ref(
            xs[i].ty,
            nt,
        ),
        nt <= i32::MAX + 1,
    ensures
        dec_dict_fields(enc_dict_fields(xs) + rest, xs.len(), nt) == Ok::<
            (Seq<WebidlDictionaryFieldV>, int),
            DecodeError,
        >((xs, enc_dict_fields(xs).len() as int)),
    decreases xs.len(),
{
    if xs.len() == 0 {
        assert(enc_dict_fields(xs) + rest =~= rest);
        assert(xs =~= Seq::<WebidlDictionaryFieldV>::empty());
    } else {
        let s = enc_dict_fields(xs) + rest;
        let tail2 = enc_dict_fields(xs.drop_first()) + rest;
        let tail1 = enc_type_ref(xs[0].ty) + tail2;
        assert(s =~= enc_bytes(xs[0].name) + tail1);
        lemma_rt_bytes(xs[0].name, tail1);
        let k1 = enc_bytes(xs[0].name).len() as int;
        assert(used_ok(k1, s));
        assert(s.skip(k1) =~= tail1);
        lemma_rt_type_ref(xs[0].ty, nt, tail2);
        let k2 = enc_type_ref(xs[0].ty).len() as int;
        assert(used_ok(k2, s.skip(k1)));
        assert(s.skip(k1 + k2) =~= tail2);
        lemma_rt_dict_fields(xs.drop_first(), nt, rest);
        assert(xs[0] == (WebidlDictionaryFieldV { name: xs[0].name, ty: xs[0].ty }));
        assert(seq![xs[0]] + xs.drop_first() =~= xs);
    }
}

/// A row of enumeration values reads back exactly.
proof fn lemma_rt_enum_values(xs: Seq<Seq<u8>>, rest: Seq<u8>)
    requires
        forall|i: int| 0 <= i < xs.len() ==> wf_bytes(#[trigger] xs[i]),
    ensures
        dec_enum_values(enc_enum_values(xs) + rest, xs.len()) == Ok::<
            (Seq<Seq<u8>>, int),
            DecodeError,
        >((xs, enc_enum_values(xs).len() as int)),
    decreases xs.len(),
{
    if xs.len() == 0 {
        assert(enc_enum_values(xs) + rest =~= rest);
        assert(xs =~= Seq::<Seq<u8>>::empty());
    } else {
        let s = enc_enum_values(xs) + rest;
        let tail = enc_enum_values(xs.drop_first()) + rest;
        assert(s =~= enc_bytes(xs[0]) + tail);
        lemma_rt_bytes(xs[0], tail);
        let k1 = enc_bytes(xs[0]).len() as int;
        assert(used_ok(k1, s));
        assert(s.skip(k1) =~= tail);
        lemma_rt_enum_values(xs.drop_first(), rest);
        assert(seq![xs[0]] + xs.drop_first() =~= xs);
    }
}

/// A compound type reads back exactly.
#[verifier::rlimit(100)]
#[verifier::spinoff_prover]
proof fn lemma_rt_compound(t: WebidlCompoundTypeV, nt: int, rest: Seq<u8>)
    requires
        wf_compound(t, nt),
        nt <= i32::MAX + 1,
    ensures
        dec_compound(enc_compound(t) + rest, nt) == Ok::<
            (WebidlCompoundTypeV, int),
            DecodeError,
        >((t, enc_compound(t).len() as int)),
        enc_compound(t).len() >= 1,
{
    let s = enc_compound(t) + rest;
    match t {
        WebidlCompoundTypeV::Function(f) => {
            assert(s[0] == 0);
            let tail3 = enc_opt_type_ref(f.result) + rest;
            let tail2 = enc_type_refs(f.params) + tail3;
            let tail1 = uleb_enc(f.params.len()) + tail2;
            assert(s.skip(1) =~= enc_kind(f.kind) + tail1);
            lemma_rt_kind(f.kind, nt, tail1);
            let k1 = enc_kind(f.kind).len() as int;
            assert(used_ok(k1, s.skip(1)));
            assert(s.skip(1 + k1) =~= tail1);
            assert(tail1 =~= uleb_enc(f.params.len()) + tail2);
            lemma_rt_uleb32(f.params.len(), tail2);
            let k2 = uleb_enc(f.params.len()).len() as int;
            assert(used_ok(k2, s.skip(1 + k1)));
            assert(s.skip(1 + k1 + k2) =~= tail2);
            lemma_rt_type_refs(f.params, nt, tail3);
            let k3 = enc_type_refs(f.params).len() as int;
            assert(0 <= k3 <= s.skip(1 + k1 + k2).len());
            assert(s.skip(1 + k1 + k2 + k3) =~= tail3);
            lemma_rt_opt_type_ref(f.result, nt, rest);
            assert(t == WebidlCompoundTypeV::Function(crate::ast::WebidlFunctionV {
                kind: f.kind,
                params: f.params,
                result: f.result,
            }));
        },
        WebidlCompoundTypeV::Dictionary(d) => {
            assert(s[0] == 1);
            let tail1 = enc_dict_fields(d.fields) + rest;
            assert(s.skip(1) =~= uleb_enc(d.fields.len()) + tail1);
            lemma_rt_uleb32(d.fields.len(), tail1);
            let k1 = uleb_enc(d.fields.len()).len() as int;
            assert(used_ok(k1, s.skip(1)));
            assert(s.skip(1 + k1) =~= tail1);
            lemma_rt_dict_fields(d.fields, nt, rest);
            assert(t == WebidlCompoundTypeV::Dictionary(crate::ast::WebidlDictionaryV {
                fields: d.fields,
            }));
        },
        WebidlCompoundTypeV::Enumeration(e) => {
            assert(s[0] == 2);
            let tail1 = enc_enum_values(e.values) + rest;
            assert(s.skip(1) =~= uleb_enc(e.values.len()) + tail1);
            lemma_rt_uleb32(e.values.len(), tail1);
            let k1 = uleb_enc(e.values.len()).len() as int;
            assert(used_ok(k1, s.skip(1)));
            assert(s.skip(1 + k1) =~= tail1);
            lemma_rt_enum_values(e.values, rest);
            assert(t == WebidlCompoundTypeV::Enumeration(crate::ast::WebidlEnumerationV {
                values: e.values,
            }));
        },
        WebidlCompoundTypeV::Union(u) => {
            assert(s[0] == 3);
            let tail1 = enc_type_refs(u.members) + rest;
            assert(s.skip(1) =~= uleb_enc(u.members.len()) + tail1);
            lemma_rt_uleb32(u.members.len(), tail1);
            let k1 = uleb_enc(u.members.len()).len() as int;
            assert(used_ok(k1, s.skip(1)));
            assert(s.skip(1 + k1) =~= tail1);
            lemma_rt_type_refs(u.members, nt, rest);
            assert(t == WebidlCompoundTypeV::Union(crate::ast::WebidlUnionV {
                members: u.members,
            }));
        },
    }
}

/// A row of compound types reads back exactly, each against the types
/// before it.
#[verifier::rlimit(100)]
#[verifier::spinoff_prover]
proof fn lemma_rt_compounds(ts: Seq<WebidlCompoundTypeV>, nt0: int, rest: Seq<u8>)
    requires
        forall|i: int| 0 <= i < ts.len() ==> wf_compound(#[trigger] ts[i], nt0 + i),
        nt0 + ts.len() <= i32::MAX + 1,
    ensures
        dec_compounds(enc_compounds(ts) + rest, ts.len(), nt0) == Ok::<
            (Seq<WebidlCompoundTypeV>, int),
            DecodeError,
        >((ts, enc_compounds(ts).len() as int)),
    decreases ts.len(),
{
    if ts.len() == 0 {
        assert(enc_compounds(ts) + rest =~= rest);
        assert(ts =~= Seq::<WebidlCompoundTypeV>::empty());
    } else {
        let s = enc_compounds(ts) + rest;
        let tail = enc_compounds(ts.drop_first()) + rest;
        assert(s =~= enc_compound(ts[0]) + tail);
        lemma_rt_compound(ts[0], nt0, tail);
        let k1 = enc_compound(ts[0]).len() as int;
        assert(used_ok(k1, s));
        assert(s.skip(k1) =~= tail);
        assert(forall|i: int| 0 <= i < ts.drop_first().len() ==> wf_compound(
            #[trigger] ts.drop_first()[i],
            nt0 + 1 + i,
        ));
        lemma_rt_compounds(ts.drop_first(), nt0 + 1, rest);
        assert(seq![ts[0]] + ts.drop_first() =~= ts);
    }
}

/// An outgoing expression reads back exactly.
#[verifier::rlimit(100)]
#[verifier::spinoff_prover]
proof fn lemma_rt_out_expr(e: OutgoingBindingExpressionV, nt: int, nb: int, rest: Seq<u8>)
    requires
        wf_out_expr(e, nt, nb),
        nt <= i32::MAX + 1,
        nb <= u32::MAX + 1,
    ensures
        dec_out_expr(enc_out_expr(e) + rest, nt, nb) == Ok::<
            (OutgoingBindingExpressionV, int),
            DecodeError,
        >((e, enc_out_expr(e).len() as int)),
        enc_out_expr(e).len() >= 1,
    decreases e,
{
    let s = enc_out_expr(e) + rest;
    match e {
        OutgoingBindingExpressionV::As { ty, idx } => {
            assert(s[0] == 0);
            let tail1 = uleb_enc(idx as nat) + rest;
            assert(s.skip(1) =~= enc_type_ref(ty) + tail1);
            lemma_rt_type_ref(ty, nt, tail1);
            let k1 = enc_type_ref(ty).len() as int;
            assert(s.skip(1).skip(k1) =~= tail1);
            lemma_rt_uleb32(idx as nat, rest);
        },
        OutgoingBindingExpressionV::I32ToEnum { ty, idx } => {
            assert(s[0] == 3);
            let tail1 = uleb_enc(idx as nat) + rest;
            assert(s.skip(1) =~= enc_type_ref(ty) + tail1);
            lemma_rt_type_ref(ty, nt, tail1);
            let k1 = enc_type_ref(ty).len() as int;
            assert(s.skip(1).skip(k1) =~= tail1);
            lemma_rt_uleb32(idx as nat, rest);
        },
        OutgoingBindingExpressionV::Utf8CStr { ty, offset } => {
            assert(s[0] == 2);
            let tail1 = uleb_enc(offset as nat) + rest;
            assert(s.skip(1) =~= enc_type_ref(ty) + tail1);
            lemma_rt_type_ref(ty, nt, tail1);
            let k1 = enc_type_ref(ty).len() as int;
            assert(s.skip(1).skip(k1) =~= tail1);
            lemma_rt_uleb32(offset as nat, rest);
        },
        OutgoingBindingExpressionV::Utf8Str { ty, offset, length } => {
            assert(s[0] == 1);
            let tail2 = uleb_enc(length as nat) + rest;
            let tail1 = uleb_enc(offset as nat) + tail2;
            assert(s.skip(1) =~= enc_type_ref(ty) + tail1);
            lemma_rt_type_ref(ty, nt, tail1);
            let k1 = enc_type_ref(ty).len() as int;
            assert(s.skip(1).skip(k1) =~= tail1);
            lemma_rt_uleb32(offset as nat, tail2);
            let k2 = uleb_enc(offset as nat).len() as int;
            assert(s.skip(1).skip(k1).skip(k2) =~= tail2);
            lemma_rt_uleb32(length as nat, rest);
        },
        OutgoingBindingExpressionV::View { ty, offset, length } => {
            assert(s[0] == 4);
            let tail2 = uleb_enc(length as nat) + rest;
            let tail1 = uleb_enc(offset as nat) + tail2;
            assert(s.skip(1) =~= enc_type_ref(ty) + tail1);
            lemma_rt_type_ref(ty, nt, tail1);
            let k1 = enc_type_ref(ty).len() as int;
            assert(s.skip(1).skip(k1) =~= tail1);
            lemma_rt_uleb32(offset as nat, tail2);
            let k2 = uleb_enc(offset as nat).len() as int;
            assert(s.skip(1).skip(k1).skip(k2) =~= tail2);
            lemma_rt_uleb32(length as nat, rest);
        },
        OutgoingBindingExpressionV::Copy { ty, offset, length } => {
            assert(s[0] == 5);
            let tail2 = uleb_enc(length as nat) + rest;
            let tail1 = uleb_enc(offset as nat) + tail2;
            assert(s.skip(1) =~= enc_type_ref(ty) + tail1);
            lemma_rt_type_ref(ty, nt, tail1);
            let k1 = enc_type_ref(ty).len() as int;
            assert(s.skip(1).skip(k1) =~= tail1);
            lemma_rt_uleb32(offset as nat, tail2);
            let k2 = uleb_enc(offset as nat).len() as int;
            assert(s.skip(1).skip(k1).skip(k2) =~= tail2);
            lemma_rt_uleb32(length as nat, rest);
        },
        OutgoingBindingExpressionV::Dict { ty, fields } => {
            assert(s[0] == 6);
            let tail2 = enc_out_exprs(fields) + rest;
            let tail1 = uleb_enc(fields.len()) + tail2;
            assert(s.skip(1) =~= enc_type_ref(ty) + tail1);
            lemma_rt_type_ref(ty, nt, tail1);
            let k1 = enc_type_ref(ty).len() as int;
            assert(used_ok(k1, s.skip(1)));
            assert(s.skip(1 + k1) =~= tail1);
            lemma_rt_uleb32(fields.len(), tail2);
            let k2 = uleb_enc(fields.len()).len() as int;
            assert(used_ok(k2, s.skip(1 + k1)));
            assert(s.skip(1 + k1 + k2) =~= tail2);
            lemma_rt_out_exprs(fields, nt, nb, rest);
        },
        OutgoingBindingExpressionV::BindExport { ty, binding, idx } => {
            assert(s[0] == 7);
            let tail2 = uleb_enc(idx as nat) + rest;
            let tail1 = uleb_enc(binding.0 as nat) + tail2;
            assert(s.skip(1) =~= enc_type_ref(ty) + tail1);
            lemma_rt_type_ref(ty, nt, tail1);
            let k1 = enc_type_ref(ty).len() as int;
            assert(s.skip(1).skip(k1) =~= tail1);
            lemma_rt_uleb32(binding.0 as nat, tail2);
            let k2 = uleb_enc(binding.0 as nat).len() as int;
            assert(s.skip(1).skip(k1).skip(k2) =~= tail2);
            lemma_rt_uleb32(idx as nat, rest);
        },
    }
}

/// A row of outgoing expressions reads back exactly.
#[verifier::rlimit(100)]
#[verifier::spinoff_prover]
proof fn lemma_rt_out_exprs(xs: Seq<OutgoingBindingExpressionV>, nt: int, nb: int, rest: Seq<u8>)
    requires
        wf_out_exprs(xs, nt, nb),
        nt <= i32::MAX + 1,
        nb <= u32::MAX + 1,
    ensures
        dec_out_exprs(enc_out_exprs(xs) + rest, xs.len(), nt, nb) == Ok::<
            (Seq<OutgoingBindingExpressionV>, int),
            DecodeError,
        >((xs, enc_out_exprs(xs).len() as int)),
    decreases xs,
{
    if xs.len() == 0 {
        assert(enc_out_exprs(xs) + rest =~= rest);
        assert(xs =~= Seq::<OutgoingBindingExpressionV>::empty());
    } else {
        let s = enc_out_exprs(xs) + rest;
        let tail = enc_out_exprs(xs.drop_first()) + rest;
        assert(s =~= enc_out_expr(xs[0]) + tail);
        lemma_rt_out_expr(xs[0], nt, nb, tail);
        let k1 = enc_out_expr(xs[0]).len() as int;
        assert(used_ok(k1, s));
        assert(s.skip(k1) =~= tail);
        assert(wf_out_exprs(xs.drop_first(), nt, nb)) by {
            assert(forall|i: int| 0 <= i < xs.drop_first().len()
                ==> xs.drop_first()[i] == xs[i + 1]);
        }
        lemma_rt_out_exprs(xs.drop_first(), nt, nb, rest);
        assert(seq![xs[0]] + xs.drop_first() =~= xs);
    }
}

/// An incoming expression reads back exactly.
#[verifier::rlimit(100)]
#[verifier::spinoff_prover]
proof fn lemma_rt_in_expr(e: IncomingBindingExpressionV, nt: int, nb: int, host: HostIndices, rest: Seq<u8>)
    requires
        wf_in_expr(e, nt, nb, host.func_type_count as int),
        nt <= i32::MAX + 1,
        nb <= u32::MAX + 1,
    ensures
        dec_in_expr(enc_in_expr(e) + rest, nt, nb, host) == Ok::<
            (IncomingBindingExpressionV, int),
            DecodeError,
        >((e, enc_in_expr(e).len() as int)),
        enc_in_expr(e).len() >= 1,
    decreases e,
{
    let s = enc_in_expr(e) + rest;
    match e {
        IncomingBindingExpressionV::Get { idx } => {
            assert(s[0] == 0);
            assert(s.skip(1) =~= uleb_enc(idx as nat) + rest);
            lemma_rt_uleb32(idx as nat, rest);
        },
        IncomingBindingExpressionV::As { ty, expr } => {
            assert(s[0] == 1);
            assert(s.skip(1) =~= seq![valtype_byte(ty)] + (enc_in_expr(*expr) + rest));
            lemma_rt_valtype(ty, enc_in_expr(*expr) + rest);
            assert(used_ok(1, s.skip(1)));
            assert(s.skip(2int) =~= enc_in_expr(*expr) + rest);
            lemma_rt_in_expr(*expr, nt, nb, host, rest);
            assert(e == (IncomingBindingExpressionV::As { ty, expr: Box::new(*expr) }));
        },
        IncomingBindingExpressionV::AllocUtf8Str { alloc_func_name, expr } => {
            assert(s[0] == 2);
            let tail = enc_in_expr(*expr) + rest;
            assert(s.skip(1) =~= enc_bytes(alloc_func_name) + tail);
            lemma_rt_bytes(alloc_func_name, tail);
            let k1 = enc_bytes(alloc_func_name).len() as int;
            assert(used_ok(k1, s.skip(1)));
            assert(s.skip(1 + k1) =~= tail);
            lemma_rt_in_expr(*expr, nt, nb, host, rest);
            assert(e == (IncomingBindingExpressionV::AllocUtf8Str {
                alloc_func_name,
                expr: Box::new(*expr),
            }));
        },
        IncomingBindingExpressionV::AllocCopy { alloc_func_name, expr } => {
            assert(s[0] == 3);
            let tail = enc_in_expr(*expr) + rest;
            assert(s.skip(1) =~= enc_bytes(alloc_func_name) + tail);
            lemma_rt_bytes(alloc_func_name, tail);
            let k1 = enc_bytes(alloc_func_name).len() as int;
            assert(used_ok(k1, s.skip(1)));
            assert(s.skip(1 + k1) =~= tail);
            lemma_rt_in_expr(*expr, nt, nb, host, rest);
            assert(e == (IncomingBindingExpressionV::AllocCopy {
                alloc_func_name,
                expr: Box::new(*expr),
            }));
        },
        IncomingBindingExpressionV::EnumToI32 { ty, expr } => {
            assert(s[0] == 4);
            let tail = enc_in_expr(*expr) + rest;
            assert(s.skip(1) =~= enc_type_ref(ty) + tail);
            lemma_rt_type_ref(ty, nt, tail);
            let k1 = enc_type_ref(ty).len() as int;
            assert(used_ok(k1, s.skip(1)));
            assert(s.skip(1 + k1) =~= tail);
            lemma_rt_in_expr(*expr, nt, nb, host, rest);
            assert(e == (IncomingBindingExpressionV::EnumToI32 { ty, expr: Box::new(*expr) }));
        },
        IncomingBindingExpressionV::Field { idx, expr } => {
            assert(s[0] == 5);
            let tail = enc_in_expr(*expr) + rest;
            assert(s.skip(1) =~= uleb_enc(idx as nat) + tail);
            lemma_rt_uleb32(idx as nat, tail);
            let k1 = uleb_enc(idx as nat).len() as int;
            assert(used_ok(k1, s.skip(1)));
            assert(s.skip(1 + k1) =~= tail);
            lemma_rt_in_expr(*expr, nt, nb, host, rest);
            assert(e == (IncomingBindingExpressionV::Field { idx, expr: Box::new(*expr) }));
        },
        IncomingBindingExpressionV::BindImport { ty, binding, expr } => {
            assert(s[0] == 6);
            let tail2 = enc_in_expr(*expr) + rest;
            let tail1 = uleb_enc(binding.0 as nat) + tail2;
            assert(s.skip(1) =~= uleb_enc(ty.0 as nat) + tail1);
            lemma_rt_uleb32(ty.0 as nat, tail1);
            let k1 = uleb_enc(ty.0 as nat).len() as int;
            assert(used_ok(k1, s.skip(1)));
            assert(s.skip(1 + k1) =~= tail1);
            lemma_rt_uleb32(binding.0 as nat, tail2);
            let k2 = uleb_enc(binding.0 as nat).len() as int;
            assert(used_ok(k2, s.skip(1 + k1)));
            assert(s.skip(1 + k1 + k2) =~= tail2);
            lemma_rt_in_expr(*expr, nt, nb, host, rest);
            assert(e == (IncomingBindingExpressionV::BindImport {
                ty,
                binding,
                expr: Box::new(*expr),
            }));
        },
    }
}

/// A row of incoming expressions reads back exactly.
#[verifier::rlimit(100)]
#[verifier::spinoff_prover]
proof fn lemma_rt_in_exprs(
    xs: Seq<IncomingBindingExpressionV>,
    nt: int,
    nb: int,
    host: HostIndices,
    rest: Seq<u8>,
)
    requires
        wf_in_exprs(xs, nt, nb, host.func_type_count as int),
        nt <= i32::MAX + 1,
        nb <= u32::MAX + 1,
    ensures
        dec_in_exprs(enc_in_exprs(xs) + rest, xs.len(), nt, nb, host) == Ok::<
            (Seq<IncomingBindingExpressionV>, int),
            DecodeError,
        >((xs, enc_in_exprs(xs).len() as int)),
    decreases xs,
{
    if xs.len() == 0 {
        assert(enc_in_exprs(xs) + rest =~= rest);
        assert(xs =~= Seq::<IncomingBindingExpressionV>::empty());
    } else {
        let s = enc_in_exprs(xs) + rest;
        let tail = enc_in_exprs(xs.drop_first()) + rest;
        assert(s =~= enc_in_expr(xs[0]) + tail);
        lemma_rt_in_expr(xs[0], nt, nb, host, tail);
        let k1 = enc_in_expr(xs[0]).len() as int;
        assert(used_ok(k1, s));
        assert(s.skip(k1) =~= tail);
        assert(wf_in_exprs(xs.drop_first(), nt, nb, host.func_type_count as int)) by {
            assert(forall|i: int| 0 <= i < xs.drop_first().len()
                ==> xs.drop_first()[i] == xs[i + 1]);
        }
        lemma_rt_in_exprs(xs.drop_first(), nt, nb, host, rest);
        assert(seq![xs[0]] + xs.drop_first() =~= xs);
    }
}

/// The two maps of an import binding read back exactly from offset `at`.
#[verifier::rlimit(100)]
#[verifier::spinoff_prover]
proof fn lemma_rt_maps_import(
    i: ImportBindingV,
    nt: int,
    nb: int,
    host: HostIndices,
    s: Seq<u8>,
    at: int,
    rest: Seq<u8>,
)
    requires
        wf_binding(FunctionBindingV::Import(i), nt, nb, host.func_type_count as int),
        nt <= i32::MAX + 1,
        nb <= u32::MAX + 1,
        0 <= at <= s.len(),
        s.skip(at) == enc_out_exprs(i.params) + (uleb_enc(i.result.len()) + (enc_in_exprs(
            i.result,
        ) + rest)),
    ensures
        dec_binding_maps(s, at, true, i.wasm_ty, i.webidl_ty, i.params.len(), nt, nb, host)
            == Ok::<(FunctionBindingV, int), DecodeError>((
            FunctionBindingV::Import(i),
            at + enc_out_exprs(i.params).len() + uleb_enc(i.result.len()).len() + enc_in_exprs(
                i.result,
            ).len(),
        )),
{
    let tail2 = enc_in_exprs(i.result) + rest;
    let tail1 = uleb_enc(i.result.len()) + tail2;
    lemma_rt_out_exprs(i.params, nt, nb, tail1);
    let k4 = enc_out_exprs(i.params).len() as int;
    assert(0 <= k4 <= s.skip(at).len());
    assert(s.skip(at).skip(k4) =~= tail1);
    assert(s.skip(at + k4) =~= s.skip(at).skip(k4));
    lemma_rt_uleb32(i.result.len(), tail2);
    let k5 = uleb_enc(i.result.len()).len() as int;
    assert(used_ok(k5, s.skip(at + k4)));
    assert(s.skip(at + k4).skip(k5) =~= tail2);
    assert(s.skip(at + k4 + k5) =~= s.skip(at + k4).skip(k5));
    lemma_rt_in_exprs(i.result, nt, nb, host, rest);
    assert(FunctionBindingV::Import(i) == FunctionBindingV::Import(ImportBindingV {
        wasm_ty: i.wasm_ty,
        webidl_ty: i.webidl_ty,
        params: i.params,
        result: i.result,
    }));
}

/// The two maps of an export binding read back exactly from offset `at`.
#[verifier::rlimit(100)]
#[verifier::spinoff_prover]
proof fn lemma_rt_maps_export(
    x: ExportBindingV,
    nt: int,
    nb: int,
    host: HostIndices,
    s: Seq<u8>,
    at: int,
    rest: Seq<u8>,
)
    requires
        wf_binding(FunctionBindingV::Export(x), nt, nb, host.func_type_count as int),
        nt <= i32::MAX + 1,
        nb <= u32::MAX + 1,
        0 <= at <= s.len(),
        s.skip(at) == enc_in_exprs(x.params) + (uleb_enc(x.result.len()) + (enc_out_exprs(
            x.result,
        ) + rest)),
    ensures
        dec_binding_maps(s, at, false, x.wasm_ty, x.webidl_ty, x.params.len(), nt, nb, host)
            == Ok::<(FunctionBindingV, int), DecodeError>((
            FunctionBindingV::Export(x),
            at + enc_in_exprs(x.params).len() + uleb_enc(x.result.len()).len() + enc_out_exprs(
                x.result,
            ).len(),
        )),
{
    let tail2 = enc_out_exprs(x.result) + rest;
    let tail1 = uleb_enc(x.result.len()) + tail2;
    lemma_rt_in_exprs(x.params, nt, nb, host, tail1);
    let k4 = enc_in_exprs(x.params).len() as int;
    assert(0 <= k4 <= s.skip(at).len());
    assert(s.skip(at).skip(k4) =~= tail1);
    assert(s.skip(at + k4) =~= s.skip(at).skip(k4));
    lemma_rt_uleb32(x.result.len(), tail2);
    let k5 = uleb_enc(x.result.len()).len() as int;
    assert(used_ok(k5, s.skip(at + k4)));
    assert(s.skip(at + k4).skip(k5) =~= tail2);
    assert(s.skip(at + k4 + k5) =~= s.skip(at + k4).skip(k5));
    lemma_rt_out_exprs(x.result, nt, nb, rest);
    assert(FunctionBindingV::Export(x) == FunctionBindingV::Export(ExportBindingV {
        wasm_ty: x.wasm_ty,
        webidl_ty: x.webidl_ty,
        params: x.params,
        result: x.result,
    }));
}

/// An import binding reads back exactly.
#[verifier::rlimit(100)]
#[verifier::spinoff_prover]
proof fn lemma_rt_binding_import(i: ImportBindingV, nt: int, nb: int, host: HostIndices, rest: Seq<u8>)
    requires
        wf_binding(FunctionBindingV::Import(i), nt, nb, host.func_type_count as int),
        nt <= i32::MAX + 1,
        nb <= u32::MAX + 1,
    ensures
        dec_binding(enc_binding(FunctionBindingV::Import(i)) + rest, nt, nb, host) == Ok::<
            (FunctionBindingV, int),
            DecodeError,
        >((
            FunctionBindingV::Import(i),
            enc_binding(FunctionBindingV::Import(i)).len() as int,
        )),
        enc_binding(FunctionBindingV::Import(i)).len() >= 1,
{
    let b = FunctionBindingV::Import(i);
    let s = enc_binding(b) + rest;
    assert(s[0] == 0);
    let tail2 = enc_out_exprs(i.params) + (uleb_enc(i.result.len()) + (enc_in_exprs(i.result)
        + rest));
    let tail15 = uleb_enc(i.params.len()) + tail2;
    let tail1 = enc_type_ref(i.webidl_ty) + tail15;
    assert(s.skip(1) =~= uleb_enc(i.wasm_ty.0 as nat) + tail1);
    lemma_rt_uleb32(i.wasm_ty.0 as nat, tail1);
    let k1 = uleb_enc(i.wasm_ty.0 as nat).len() as int;
    assert(used_ok(k1, s.skip(1)));
    assert(s.skip(1).skip(k1) =~= tail1);
    assert(s.skip(1 + k1) =~= s.skip(1).skip(k1));
    lemma_rt_type_ref(i.webidl_ty, nt, tail15);
    let k2 = enc_type_ref(i.webidl_ty).len() as int;
    assert(used_ok(k2, s.skip(1 + k1)));
    assert(s.skip(1 + k1).skip(k2) =~= tail15);
    assert(s.skip(1 + k1 + k2) =~= s.skip(1 + k1).skip(k2));
    lemma_rt_uleb32(i.params.len(), tail2);
    let k3 = uleb_enc(i.params.len()).len() as int;
    assert(used_ok(k3, s.skip(1 + k1 + k2)));
    let at = 1 + k1 + k2 + k3;
    assert(s.skip(1 + k1 + k2).skip(k3) =~= tail2);
    assert(s.skip(at) =~= s.skip(1 + k1 + k2).skip(k3));
    lemma_rt_maps_import(i, nt, nb, host, s, at, rest);
}

/// An export binding reads back exactly.
#[verifier::rlimit(100)]
#[verifier::spinoff_prover]
proof fn lemma_rt_binding_export(x: ExportBindingV, nt: int, nb: int, host: HostIndices, rest: Seq<u8>)
    requires
        wf_binding(FunctionBindingV::Export(x), nt, nb, host.func_type_count as int),
        nt <= i32::MAX + 1,
        nb <= u32::MAX + 1,
    ensures
        dec_binding(enc_binding(FunctionBindingV::Export(x)) + rest, nt, nb, host) == Ok::<
            (FunctionBindingV, int),
            DecodeError,
        >((
            FunctionBindingV::Export(x),
            enc_binding(FunctionBindingV::Export(x)).len() as int,
        )),
        enc_binding(FunctionBindingV::Export(x)).len() >= 1,
{
    let b = FunctionBindingV::Export(x);
    let s = enc_binding(b) + rest;
    assert(s[0] == 1);
    let tail2 = enc_in_exprs(x.params) + (uleb_enc(x.result.len()) + (enc_out_exprs(x.result)
        + rest));
    let tail15 = uleb_enc(x.params.len()) + tail2;
    let tail1 = enc_type_ref(x.webidl_ty) + tail15;
    assert(s.skip(1) =~= uleb_enc(x.wasm_ty.0 as nat) + tail1);
    lemma_rt_uleb32(x.wasm_ty.0 as nat, tail1);
    let k1 = uleb_enc(x.wasm_ty.0 as nat).len() as int;
    assert(used_ok(k1, s.skip(1)));
    assert(s.skip(1).skip(k1) =~= tail1);
    assert(s.skip(1 + k1) =~= s.skip(1).skip(k1));
    lemma_rt_type_ref(x.webidl_ty, nt, tail15);
    let k2 = enc_type_ref(x.webidl_ty).len() as int;
    assert(used_ok(k2, s.skip(1 + k1)));
    assert(s.skip(1 + k1).skip(k2) =~= tail15);
    assert(s.skip(1 + k1 + k2) =~= s.skip(1 + k1).skip(k2));
    lemma_rt_uleb32(x.params.len(), tail2);
    let k3 = uleb_enc(x.params.len()).len() as int;
    assert(used_ok(k3, s.skip(1 + k1 + k2)));
    let at = 1 + k1 + k2 + k3;
    assert(s.skip(1 + k1 + k2).skip(k3) =~= tail2);
    assert(s.skip(at) =~= s.skip(1 + k1 + k2).skip(k3));
    lemma_rt_maps_export(x, nt, nb, host, s, at, rest);
}

/// A function binding reads back exactly.
proof fn lemma_rt_binding(b: FunctionBindingV, nt: int, nb: int, host: HostIndices, rest: Seq<u8>)
    requires
        wf_binding(b, nt, nb, host.func_type_count as int),
        nt <= i32::MAX + 1,
        nb <= u32::MAX + 1,
    ensures
        dec_binding(enc_binding(b) + rest, nt, nb, host) == Ok::<
            (FunctionBindingV, int),
            DecodeError,
        >((b, enc_binding(b).len() as int)),
        enc_binding(b).len() >= 1,
{
    match b {
        FunctionBindingV::Import(i) => {
            lemma_rt_binding_import(i, nt, nb, host, rest);
        },
        FunctionBindingV::Export(x) => {
            lemma_rt_binding_export(x, nt, nb, host, rest);
        },
    }
}

/// A row of function bindings reads back exactly, each against the
/// bindings before it.
#[verifier::rlimit(100)]
#[verifier::spinoff_prover]
proof fn lemma_rt_bindings(
    bs: Seq<FunctionBindingV>,
    nt: int,
    nb0: int,
    host: HostIndices,
    rest: Seq<u8>,
)
    requires
        forall|j: int| 0 <= j < bs.len() ==> wf_binding(
            #[trigger] bs[j],
            nt,
            nb0 + j,
            host.func_type_count as int,
        ),
        nt <= i32::MAX + 1,
        nb0 + bs.len() <= u32::MAX + 1,
    ensures
        dec_bindings(enc_bindings(bs) + rest, bs.len(), nt, nb0, host) == Ok::<
            (Seq<FunctionBindingV>, int),
            DecodeError,
        >((bs, enc_bindings(bs).len() as int)),
    decreases bs.len(),
{
    if bs.len() == 0 {
        assert(enc_bindings(bs) + rest =~= rest);
        assert(bs =~= Seq::<FunctionBindingV>::empty());
    } else {
        let s = enc_bindings(bs) + rest;
        let tail = enc_bindings(bs.drop_first()) + rest;
        assert(s =~= enc_binding(bs[0]) + tail);
        lemma_rt_binding(bs[0], nt, nb0, host, tail);
        let k1 = enc_binding(bs[0]).len() as int;
        assert(used_ok(k1, s));
        assert(s.skip(k1) =~= tail);
        assert(forall|j: int| 0 <= j < bs.drop_first().len() ==> wf_binding(
            #[trigger] bs.drop_first()[j],
            nt,
            nb0 + 1 + j,
            host.func_type_count as int,
        ));
        lemma_rt_bindings(bs.drop_first(), nt, nb0 + 1, host, rest);
        assert(seq![bs[0]] + bs.drop_first() =~= bs);
    }
}

/// A bind reads back exactly.
proof fn lemma_rt_bind(bd: Bind, nb: int, host: HostIndices, rest: Seq<u8>)
    requires
        wf_bind(bd, nb, host.func_count as int),
    ensures
        dec_bind(enc_bind(bd) + rest, nb, host) == Ok::<(Bind, int), DecodeError>((
            bd,
            enc_bind(bd).len() as int,
        )),
        enc_bind(bd).len() >= 1,
{
    let s = enc_bind(bd) + rest;
    let tail = uleb_enc(bd.binding.0 as nat) + rest;
    assert(s =~= uleb_enc(bd.func.0 as nat) + tail);
    lemma_rt_uleb32(bd.func.0 as nat, tail);
    let k1 = uleb_enc(bd.func.0 as nat).len() as int;
    assert(used_ok(k1, s));
    assert(s.skip(k1) =~= tail);
    lemma_rt_uleb32(bd.binding.0 as nat, rest);
    assert(bd == (Bind { func: bd.func, binding: bd.binding }));
}

/// A row of binds reads back exactly.
#[verifier::rlimit(100)]
#[verifier::spinoff_prover]
proof fn lemma_rt_binds(bds: Seq<Bind>, nb: int, host: HostIndices, rest: Seq<u8>)
    requires
        forall|k: int| 0 <= k < bds.len() ==> wf_bind(#[trigger] bds[k], nb, host.func_count as int),
    ensures
        dec_binds(enc_binds(bds) + rest, bds.len(), nb, host) == Ok::<
            (Seq<Bind>, int),
            DecodeError,
        >((bds, enc_binds(bds).len() as int)),
    decreases bds.len(),
{
    if bds.len() == 0 {
        assert(enc_binds(bds) + rest =~= rest);
        assert(bds =~= Seq::<Bind>::empty());
    } else {
        let s = enc_binds(bds) + rest;
        let tail = enc_binds(bds.drop_first()) + rest;
        assert(s =~= enc_bind(bds[0]) + tail);
        lemma_rt_bind(bds[0], nb, host, tail);
        let k1 = enc_bind(bds[0]).len() as int;
        assert(used_ok(k1, s));
        assert(s.skip(k1) =~= tail);
        assert(forall|k: int| 0 <= k < bds.drop_first().len() ==> wf_bind(
            #[trigger] bds.drop_first()[k],
            nb,
            host.func_count as int,
        ));
        lemma_rt_binds(bds.drop_first(), nb, host, rest);
        assert(seq![bds[0]] + bds.drop_first() =~= bds);
    }
}

/// Evaluates the function-bindings subsection read, given each stage's
/// result.
proof fn lemma_section_bindings_eval(
    s: Seq<u8>,
    at: int,
    types: Seq<WebidlCompoundTypeV>,
    bindings: Seq<FunctionBindingV>,
    binds: Seq<Bind>,
    k3: int,
    k4: int,
    k5: int,
    k6: int,
    host: HostIndices,
)
    requires
        0 <= at < s.len(),
        s[at] == 1,
        bindings.len() <= u32::MAX,
        binds.len() <= u32::MAX,
        uleb32_dec(s.skip(at + 1)) == Ok::<(u32, int), DecodeError>((bindings.len() as u32, k3)),
        used_ok(k3, s.skip(at + 1)),
        dec_bindings(s.skip(at + 1 + k3), bindings.len(), types.len() as int, 0, host) == Ok::<
            (Seq<FunctionBindingV>, int),
            DecodeError,
        >((bindings, k4)),
        0 <= k4 <= s.skip(at + 1 + k3).len(),
        uleb32_dec(s.skip(at + 1 + k3 + k4)) == Ok::<(u32, int), DecodeError>((
            binds.len() as u32,
            k5,
        )),
        used_ok(k5, s.skip(at + 1 + k3 + k4)),
        dec_binds(s.skip(at + 1 + k3 + k4 + k5), binds.len(), bindings.len() as int, host)
            == Ok::<(Seq<Bind>, int), DecodeError>((binds, k6)),
    ensures
        dec_section_bindings(s, at, types, host) == Ok::<
            ((Seq<WebidlCompoundTypeV>, Seq<FunctionBindingV>, Seq<Bind>), int),
            DecodeError,
        >(((types, bindings, binds), at + 1 + k3 + k4 + k5 + k6)),
{
}

/// The function-bindings subsection reads back exactly from offset `at`.
#[verifier::rlimit(100)]
#[verifier::spinoff_prover]
proof fn lemma_rt_section_bindings(c: WebidlBindingsV, host: HostIndices, s: Seq<u8>, at: int, rest: Seq<u8>)
    requires
        wf_section(c, host),
        0 <= at < s.len(),
        s.skip(at) == seq![1u8] + (uleb_enc(c.bindings.arena.len()) + (enc_bindings(
            c.bindings.arena,
        ) + (uleb_enc(c.binds.len()) + (enc_binds(c.binds) + rest)))),
    ensures
        dec_section_bindings(s, at, c.types.arena, host) == Ok::<
            ((Seq<WebidlCompoundTypeV>, Seq<FunctionBindingV>, Seq<Bind>), int),
            DecodeError,
        >((
            (c.types.arena, c.bindings.arena, c.binds),
            at + 1 + uleb_enc(c.bindings.arena.len()).len() + enc_bindings(c.bindings.arena).len()
                + uleb_enc(c.binds.len()).len() + enc_binds(c.binds).len(),
        )),
{
    let tail5 = enc_binds(c.binds) + rest;
    let tail4 = uleb_enc(c.binds.len()) + tail5;
    let tail3 = enc_bindings(c.bindings.arena) + tail4;
    let tail25 = uleb_enc(c.bindings.arena.len()) + tail3;
    assert(s[at] == 1) by {
        assert(s.skip(at)[0] == s[at]);
    }
    assert(s.skip(at + 1) =~= tail25) by {
        assert(s.skip(at).skip(1) =~= s.skip(at + 1));
    }
    lemma_rt_uleb32(c.bindings.arena.len(), tail3);
    let k3 = uleb_enc(c.bindings.arena.len()).len() as int;
    assert(used_ok(k3, s.skip(at + 1)));
    assert(s.skip(at + 1).skip(k3) =~= tail3);
    assert(s.skip(at + 1 + k3) =~= s.skip(at + 1).skip(k3));
    lemma_rt_bindings(c.bindings.arena, c.types.arena.len() as int, 0, host, tail4);
    let k4 = enc_bindings(c.bindings.arena).len() as int;
    assert(0 <= k4 <= s.skip(at + 1 + k3).len());
    assert(s.skip(at + 1 + k3).skip(k4) =~= tail4);
    assert(s.skip(at + 1 + k3 + k4) =~= s.skip(at + 1 + k3).skip(k4));
    lemma_rt_uleb32(c.binds.len(), tail5);
    let k5 = uleb_enc(c.binds.len()).len() as int;
    assert(used_ok(k5, s.skip(at + 1 + k3 + k4)));
    assert(s.skip(at + 1 + k3 + k4).skip(k5) =~= tail5);
    assert(s.skip(at + 1 + k3 + k4 + k5) =~= s.skip(at + 1 + k3 + k4).skip(k5));
    lemma_rt_binds(c.binds, c.bindings.arena.len() as int, host, rest);
    let nbv = c.bindings.arena.len() as u32;
    let nbd = c.binds.len() as u32;
    assert(uleb32_dec(s.skip(at + 1)) == Ok::<(u32, int), DecodeError>((nbv, k3)));
    assert(dec_bindings(s.skip(at + 1 + k3), nbv as nat, c.types.arena.len() as int, 0, host)
        == Ok::<(Seq<FunctionBindingV>, int), DecodeError>((c.bindings.arena, k4)));
    assert(uleb32_dec(s.skip(at + 1 + k3 + k4)) == Ok::<(u32, int), DecodeError>((nbd, k5)));
    let k6 = enc_binds(c.binds).len() as int;
    assert(dec_binds(
        s.skip(at + 1 + k3 + k4 + k5),
        nbd as nat,
        c.bindings.arena.len() as int,
        host,
    ) == Ok::<(Seq<Bind>, int), DecodeError>((c.binds, k6)));
    assert(nbv as nat == c.bindings.arena.len() && nbd as nat == c.binds.len());
    lemma_section_bindings_eval(
        s,
        at,
        c.types.arena,
        c.bindings.arena,
        c.binds,
        k3,
        k4,
        k5,
        k6,
        host,
    );
}

/// The type subsection reads back exactly, reducing the whole read to the
/// function-bindings subsection at its offset.
#[verifier::rlimit(100)]
#[verifier::spinoff_prover]
proof fn lemma_rt_section_types(c: WebidlBindingsV, host: HostIndices, rest: Seq<u8>)
    requires
        wf_section(c, host),
    ensures
        dec_section(enc_section(c) + rest, host) == dec_section_bindings(
            enc_section(c) + rest,
            (1 + uleb_enc(c.types.arena.len()).len() + enc_compounds(c.types.arena).len()) as int,
            c.types.arena,
            host,
        ),
        0 <= 1 + uleb_enc(c.types.arena.len()).len() + enc_compounds(c.types.arena).len() < (
        enc_section(c) + rest).len(),
        (enc_section(c) + rest).skip(
            (1 + uleb_enc(c.types.arena.len()).len() + enc_compounds(c.types.arena).len()) as int,
        ) == seq![1u8] + (uleb_enc(c.bindings.arena.len()) + (enc_bindings(c.bindings.arena) + (
        uleb_enc(c.binds.len()) + (enc_binds(c.binds) + rest)))),
{
    let s = enc_section(c) + rest;
    let tail2 = seq![1u8] + (uleb_enc(c.bindings.arena.len()) + (enc_bindings(c.bindings.arena) + (
    uleb_enc(c.binds.len()) + (enc_binds(c.binds) + rest))));
    let tail1 = enc_compounds(c.types.arena) + tail2;
    assert(s[0] == 0);
    assert(s.skip(1) =~= uleb_enc(c.types.arena.len()) + tail1);
    lemma_rt_uleb32(c.types.arena.len(), tail1);
    let k1 = uleb_enc(c.types.arena.len()).len() as int;
    assert(used_ok(k1, s.skip(1)));
    assert(s.skip(1).skip(k1) =~= tail1);
    assert(s.skip(1 + k1) =~= s.skip(1).skip(k1));
    lemma_rt_compounds(c.types.arena, 0, tail2);
    let k2 = enc_compounds(c.types.arena).len() as int;
    assert(0 <= k2 <= s.skip(1 + k1).len());
    let at = 1 + k1 + k2;
    assert(s.skip(1 + k1).skip(k2) =~= tail2);
    assert(s.skip(at) =~= s.skip(1 + k1).skip(k2));
}

/// Round trip: for any container whose references point only to earlier
/// entries of the same construction (as the decoder itself guarantees) and
/// which resolves against `host`, decoding its encoding — with any bytes at
/// all after it — yields exactly its arena contents, in arena position
/// order, and consumes exactly the encoding. Names never reach the wire, so
/// the decoded container carries none; on a container without names this is
/// the identity, field for field.
#[verifier::rlimit(100)]
#[verifier::spinoff_prover]
pub proof fn lemma_decode_inverts_encode(c: WebidlBindingsV, host: HostIndices, rest: Seq<u8>)
    requires
        wf_section(c, host),
    ensures
        dec_section(enc_section(c) + rest, host) == Ok::<
            ((Seq<WebidlCompoundTypeV>, Seq<FunctionBindingV>, Seq<Bind>), int),
            DecodeError,
        >(((c.types.arena, c.bindings.arena, c.binds), enc_section(c).len() as int)),
{
    let s = enc_section(c) + rest;
    let at = 1 + uleb_enc(c.types.arena.len()).len() + enc_compounds(c.types.arena).len();
    lemma_rt_section_types(c, host, rest);
    lemma_rt_section_bindings(c, host, s, at as int, rest);
    assert(enc_section(c).len() as int == at + 1 + uleb_enc(c.bindings.arena.len()).len()
        + enc_bindings(c.bindings.arena).len() + uleb_enc(c.binds.len()).len() + enc_binds(
        c.binds,
    ).len());
}
// ---------------------------------------------------------------------------
// Discriminant exhaustiveness: the bytes outside each construct's range are
// rejected outright.
// ---------------------------------------------------------------------------

/// A compound-type discriminant outside 0..=3 fails.
pub proof fn lemma_bad_compound_discriminant(s: Seq<u8>, nt: int)
    requires
        s.len() > 0,
        s[0] > 3,
    ensures
        dec_compound(s, nt) == Err::<(WebidlCompoundTypeV, int), DecodeError>(
            DecodeError::BadCompoundTypeDiscriminant,
        ),
{
}

/// A function-binding discriminant outside 0..=1 fails.
pub proof fn lemma_bad_binding_discriminant(s: Seq<u8>, nt: int, nb: int, host: HostIndices)
    requires
        s.len() > 0,
        s[0] > 1,
    ensures
        dec_binding(s, nt, nb, host) == Err::<(FunctionBindingV, int), DecodeError>(
            DecodeError::BadFunctionBindingDiscriminant,
        ),
{
}

/// An outgoing-expression discriminant outside 0..=7 fails.
pub proof fn lemma_bad_out_expr_discriminant(s: Seq<u8>, nt: int, nb: int)
    requires
        s.len() > 0,
        s[0] > 7,
    ensures
        dec_out_expr(s, nt, nb) == Err::<(OutgoingBindingExpressionV, int), DecodeError>(
            DecodeError::BadOutgoingExpressionDiscriminant,
        ),
{
}

/// An incoming-expression discriminant outside 0..=6 fails.
pub proof fn lemma_bad_in_expr_discriminant(s: Seq<u8>, nt: int, nb: int, host: HostIndices)
    requires
        s.len() > 0,
        s[0] > 6,
    ensures
        dec_in_expr(s, nt, nb, host) == Err::<(IncomingBindingExpressionV, int), DecodeError>(
            DecodeError::BadIncomingExpressionDiscriminant,
        ),
{
}

} // verus!
