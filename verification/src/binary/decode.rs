//! The decoder: consumes a byte stream and an index-lookup context for the
//! host module, and populates a fresh container, assigning arena handles in
//! stream order — so a handle's position equals its wire index. Decoding is
//! all-or-nothing: the first failure is returned and no container is
//! produced.

use vstd::prelude::*;

use crate::ast::HostIndices;
use crate::ast::WasmValType;
use crate::ast::WebidlCompoundTypeId;
use crate::ast::WebidlFunctionKind;
use crate::ast::WebidlFunctionKindMethod;
use crate::ast::WebidlScalarType;
use crate::ast::WebidlTypeRef;
use crate::binary::error::DecodeError;
use crate::binary::leb::read_sleb32;
use crate::binary::leb::read_uleb32;
use crate::binary::wire::code_scalar;
use crate::binary::wire::dec_bytes;
use crate::binary::wire::dec_kind;
use crate::binary::wire::dec_opt_type_ref;
use crate::binary::wire::dec_type_ref;
use crate::binary::wire::dec_bind;
use crate::binary::wire::dec_binding;
use crate::binary::wire::dec_binds;
use crate::binary::wire::dec_bindings;
use crate::binary::wire::dec_compound;
use crate::binary::wire::dec_compounds;
use crate::binary::wire::dec_section;
use crate::binary::wire::dec_in_expr;
use crate::binary::wire::dec_in_exprs;
use crate::binary::wire::dec_dict_fields;
use crate::binary::wire::dec_out_expr;
use crate::binary::wire::dec_out_exprs;
use crate::binary::wire::dec_enum_values;
use crate::binary::wire::dec_type_refs;
use crate::binary::wire::dec_valtype;
use crate::binary::wire::used_ok;
use crate::utf8::validate_utf8;

verus! {

broadcast use vstd::std_specs::vec::group_vec_axioms;

/// `skip` composes: dropping `a` bytes and then `b - a` more drops `b`.
proof fn lemma_skip_skip(s: Seq<u8>, a: int, b: int)
    requires
        0 <= a <= b <= s.len(),
    ensures
        s.skip(a).skip(b - a) == s.skip(b),
{
    assert(s.skip(a).skip(b - a) =~= s.skip(b));
}

/// Reads one length-prefixed UTF-8 byte string.
fn decode_bytes(s: &[u8], pos: &mut usize) -> (r: Result<Vec<u8>, DecodeError>)
    requires
        *old(pos) <= s@.len(),
    ensures
        match r {
            Ok(v) => dec_bytes(s@.skip(*old(pos) as int)) == Ok::<(Seq<u8>, int), DecodeError>((
                v@,
                *final(pos) - *old(pos),
            )) && *old(pos) < *final(pos) <= s@.len(),
            Err(e) => dec_bytes(s@.skip(*old(pos) as int)) == Err::<(Seq<u8>, int), DecodeError>(e),
        },
{
    let ghost start = *pos as int;
    let len = match read_uleb32(s, pos) {
        Ok(v) => v,
        Err(e) => {
            return Err(e);
        },
    };
    let ghost k1 = *pos - start;
    if (len as usize) > s.len() - *pos {
        return Err(DecodeError::UnexpectedEof);
    }
    let mut v: Vec<u8> = Vec::new();
    let data_start = *pos;
    let end = *pos + len as usize;
    while *pos < end
        invariant
            data_start <= *pos <= end <= s@.len(),
            end == data_start + len,
            v@ == s@.subrange(data_start as int, *pos as int),
        decreases end - *pos,
    {
        let b = s[*pos];
        v.push(b);
        *pos = *pos + 1;
        proof {
            assert(v@ =~= s@.subrange(data_start as int, *pos as int));
        }
    }
    proof {
        assert(v@ == s@.skip(start).subrange(k1 as int, k1 + len as int)) by {
            assert(s@.subrange(data_start as int, end as int) =~= s@.skip(start).subrange(
                k1 as int,
                k1 + len as int,
            ));
        }
    }
    if validate_utf8(v.as_slice()) {
        Ok(v)
    } else {
        Err(DecodeError::InvalidUtf8)
    }
}

/// The scalar type a code in `-30..=-1` names.
fn code_to_scalar(v: i32) -> (r: WebidlScalarType)
    requires
        -30 <= v <= -1,
    ensures
        r == code_scalar(v as int),
{
    if v == -1 { WebidlScalarType::Any }
    else if v == -2 { WebidlScalarType::Boolean }
    else if v == -3 { WebidlScalarType::Byte }
    else if v == -4 { WebidlScalarType::Octet }
    else if v == -5 { WebidlScalarType::Long }
    else if v == -6 { WebidlScalarType::UnsignedLong }
    else if v == -7 { WebidlScalarType::Short }
    else if v == -8 { WebidlScalarType::UnsignedShort }
    else if v == -9 { WebidlScalarType::LongLong }
    else if v == -10 { WebidlScalarType::UnsignedLongLong }
    else if v == -11 { WebidlScalarType::Float }
    else if v == -12 { WebidlScalarType::UnrestrictedFloat }
    else if v == -13 { WebidlScalarType::Double }
    else if v == -14 { WebidlScalarType::UnrestrictedDouble }
    else if v == -15 { WebidlScalarType::DomString }
    else if v == -16 { WebidlScalarType::ByteString }
    else if v == -17 { WebidlScalarType::UsvString }
    else if v == -18 { WebidlScalarType::Object }
    else if v == -19 { WebidlScalarType::Symbol }
    else if v == -20 { WebidlScalarType::ArrayBuffer }
    else if v == -21 { WebidlScalarType::DataView }
    else if v == -22 { WebidlScalarType::Int8Array }
    else if v == -23 { WebidlScalarType::Int16Array }
    else if v == -24 { WebidlScalarType::Int32Array }
    else if v == -25 { WebidlScalarType::Uint8Array }
    else if v == -26 { WebidlScalarType::Uint16Array }
    else if v == -27 { WebidlScalarType::Uint32Array }
    else if v == -28 { WebidlScalarType::Uint8ClampedArray }
    else if v == -29 { WebidlScalarType::Float32Array }
    else { WebidlScalarType::Float64Array }
}

/// Reads one type reference, resolving non-negative values among the `nt`
/// types inserted so far.
fn decode_type_ref(s: &[u8], pos: &mut usize, nt: usize) -> (r: Result<WebidlTypeRef, DecodeError>)
    requires
        *old(pos) <= s@.len(),
    ensures
        match r {
            Ok(tr) => dec_type_ref(s@.skip(*old(pos) as int), nt as int) == Ok::<
                (WebidlTypeRef, int),
                DecodeError,
            >((tr, *final(pos) - *old(pos))) && *old(pos) < *final(pos) <= s@.len(),
            Err(e) => dec_type_ref(s@.skip(*old(pos) as int), nt as int) == Err::<
                (WebidlTypeRef, int),
                DecodeError,
            >(e),
        },
{
    let v = match read_sleb32(s, pos) {
        Ok(v) => v,
        Err(e) => {
            return Err(e);
        },
    };
    if v >= 0 {
        if (v as usize) < nt {
            Ok(WebidlTypeRef::Id(WebidlCompoundTypeId(v as u32)))
        } else {
            Err(DecodeError::InvalidTypeIndex)
        }
    } else if v >= -30 {
        Ok(WebidlTypeRef::Scalar(code_to_scalar(v)))
    } else {
        Err(DecodeError::BadScalarCode)
    }
}

/// Reads one optional type reference.
fn decode_opt_type_ref(s: &[u8], pos: &mut usize, nt: usize) -> (r: Result<
    Option<WebidlTypeRef>,
    DecodeError,
>)
    requires
        *old(pos) <= s@.len(),
    ensures
        match r {
            Ok(o) => dec_opt_type_ref(s@.skip(*old(pos) as int), nt as int) == Ok::<
                (Option<WebidlTypeRef>, int),
                DecodeError,
            >((o, *final(pos) - *old(pos))) && *old(pos) < *final(pos) <= s@.len(),
            Err(e) => dec_opt_type_ref(s@.skip(*old(pos) as int), nt as int) == Err::<
                (Option<WebidlTypeRef>, int),
                DecodeError,
            >(e),
        },
{
    let ghost start = *pos as int;
    if *pos == s.len() {
        proof {
            assert(s@.skip(start).len() == 0);
        }
        return Err(DecodeError::UnexpectedEof);
    }
    let b = s[*pos];
    proof {
        assert(s@.skip(start)[0] == s@[start]);
    }
    *pos = *pos + 1;
    if b == 0 {
        Ok(None)
    } else if b == 1 {
        match decode_type_ref(s, pos, nt) {
            Ok(tr) => {
                proof {
                    assert(s@.skip(start).skip(1) =~= s@.skip(start + 1));
                }
                Ok(Some(tr))
            },
            Err(e) => {
                proof {
                    assert(s@.skip(start).skip(1) =~= s@.skip(start + 1));
                }
                Err(e)
            },
        }
    } else {
        Err(DecodeError::BadOptionDiscriminant)
    }
}

/// Reads one function kind.
fn decode_kind(s: &[u8], pos: &mut usize, nt: usize) -> (r: Result<WebidlFunctionKind, DecodeError>)
    requires
        *old(pos) <= s@.len(),
    ensures
        match r {
            Ok(k) => dec_kind(s@.skip(*old(pos) as int), nt as int) == Ok::<
                (WebidlFunctionKind, int),
                DecodeError,
            >((k, *final(pos) - *old(pos))) && *old(pos) < *final(pos) <= s@.len(),
            Err(e) => dec_kind(s@.skip(*old(pos) as int), nt as int) == Err::<
                (WebidlFunctionKind, int),
                DecodeError,
            >(e),
        },
{
    let ghost start = *pos as int;
    if *pos == s.len() {
        proof {
            assert(s@.skip(start).len() == 0);
        }
        return Err(DecodeError::UnexpectedEof);
    }
    let b = s[*pos];
    proof {
        assert(s@.skip(start)[0] == s@[start]);
    }
    *pos = *pos + 1;
    if b == 0 {
        Ok(WebidlFunctionKind::Static)
    } else if b == 1 {
        match decode_type_ref(s, pos, nt) {
            Ok(tr) => {
                proof {
                    assert(s@.skip(start).skip(1) =~= s@.skip(start + 1));
                }
                Ok(WebidlFunctionKind::Method(WebidlFunctionKindMethod { ty: tr }))
            },
            Err(e) => {
                proof {
                    assert(s@.skip(start).skip(1) =~= s@.skip(start + 1));
                }
                Err(e)
            },
        }
    } else if b == 2 {
        Ok(WebidlFunctionKind::Constructor)
    } else {
        Err(DecodeError::BadFunctionKindDiscriminant)
    }
}

/// Reads one WebAssembly value type.
fn decode_valtype(s: &[u8], pos: &mut usize) -> (r: Result<WasmValType, DecodeError>)
    requires
        *old(pos) <= s@.len(),
    ensures
        match r {
            Ok(t) => dec_valtype(s@.skip(*old(pos) as int)) == Ok::<
                (WasmValType, int),
                DecodeError,
            >((t, *final(pos) - *old(pos))) && *old(pos) < *final(pos) <= s@.len(),
            Err(e) => dec_valtype(s@.skip(*old(pos) as int)) == Err::<
                (WasmValType, int),
                DecodeError,
            >(e),
        },
{
    let ghost start = *pos as int;
    if *pos == s.len() {
        proof {
            assert(s@.skip(start).len() == 0);
        }
        return Err(DecodeError::UnexpectedEof);
    }
    let b = s[*pos];
    proof {
        assert(s@.skip(start)[0] == s@[start]);
    }
    *pos = *pos + 1;
    if b == 0x7f {
        Ok(WasmValType::I32)
    } else if b == 0x7e {
        Ok(WasmValType::I64)
    } else if b == 0x7d {
        Ok(WasmValType::F32)
    } else if b == 0x7c {
        Ok(WasmValType::F64)
    } else if b == 0x7b {
        Ok(WasmValType::V128)
    } else if b == 0x6f {
        Ok(WasmValType::Anyref)
    } else {
        Err(DecodeError::BadValType)
    }
}

/// Reads `n` type references in a row.
#[verifier::loop_isolation(false)]
fn decode_type_refs(s: &[u8], pos: &mut usize, n: u32, nt: usize) -> (r: Result<
    Vec<WebidlTypeRef>,
    DecodeError,
>)
    requires
        *old(pos) <= s@.len(),
    ensures
        match r {
            Ok(v) => dec_type_refs(s@.skip(*old(pos) as int), n as nat, nt as int) == Ok::<
                (Seq<WebidlTypeRef>, int),
                DecodeError,
            >((v@, *final(pos) - *old(pos))) && *old(pos) <= *final(pos) <= s@.len(),
            Err(e) => dec_type_refs(s@.skip(*old(pos) as int), n as nat, nt as int) == Err::<
                (Seq<WebidlTypeRef>, int),
                DecodeError,
            >(e),
        },
{
    let ghost start = *pos as int;
    let mut v: Vec<WebidlTypeRef> = Vec::new();
    let mut i: u32 = 0;
    while i < n
        invariant
            start <= *pos <= s@.len(),
            i <= n,
            dec_type_refs(s@.skip(start), n as nat, nt as int) == (match dec_type_refs(
                s@.skip(*pos as int),
                (n - i) as nat,
                nt as int,
            ) {
                Ok((rs, k)) => Ok::<(Seq<WebidlTypeRef>, int), DecodeError>((
                    v@ + rs,
                    (*pos - start) + k,
                )),
                Err(e) => Err::<(Seq<WebidlTypeRef>, int), DecodeError>(e),
            }),
        decreases n - i,
    {
        let ghost pos0 = *pos as int;
        let ghost vold = v@;
        let ghost rest0 = s@.skip(pos0);
        match decode_type_ref(s, pos, nt) {
            Ok(tr) => {
                v.push(tr);
                proof {
                    let k1 = *pos - pos0;
                    assert(used_ok(k1, rest0));
                    assert(rest0.skip(k1) =~= s@.skip(*pos as int));
                    match dec_type_refs(s@.skip(*pos as int), (n - i - 1) as nat, nt as int) {
                        Ok((rs, k2)) => {
                            assert(vold + (seq![tr] + rs) =~= v@ + rs);
                        },
                        Err(e) => {},
                    }
                }
                i = i + 1;
            },
            Err(e) => {
                return Err(e);
            },
        }
    }
    proof {
        assert(v@ + Seq::<WebidlTypeRef>::empty() =~= v@);
    }
    Ok(v)
}

/// Reads `n` enumeration values in a row.
#[verifier::loop_isolation(false)]
fn decode_enum_values(s: &[u8], pos: &mut usize, n: u32) -> (r: Result<Vec<Vec<u8>>, DecodeError>)
    requires
        *old(pos) <= s@.len(),
    ensures
        match r {
            Ok(v) => dec_enum_values(s@.skip(*old(pos) as int), n as nat) == Ok::<
                (Seq<Seq<u8>>, int),
                DecodeError,
            >((v@.map_values(|x: Vec<u8>| x@), *final(pos) - *old(pos))) && *old(pos) <= *final(pos) <= s@.len(),
            Err(e) => dec_enum_values(s@.skip(*old(pos) as int), n as nat) == Err::<
                (Seq<Seq<u8>>, int),
                DecodeError,
            >(e),
        },
{
    let ghost start = *pos as int;
    let mut v: Vec<Vec<u8>> = Vec::new();
    let mut i: u32 = 0;
    proof {
        assert(v@.map_values(|x: Vec<u8>| x@) =~= Seq::<Seq<u8>>::empty());
    }
    while i < n
        invariant
            start <= *pos <= s@.len(),
            i <= n,
            dec_enum_values(s@.skip(start), n as nat) == (match dec_enum_values(
                s@.skip(*pos as int),
                (n - i) as nat,
            ) {
                Ok((rs, k)) => Ok::<(Seq<Seq<u8>>, int), DecodeError>((
                    v@.map_values(|x: Vec<u8>| x@) + rs,
                    (*pos - start) + k,
                )),
                Err(e) => Err::<(Seq<Seq<u8>>, int), DecodeError>(e),
            }),
        decreases n - i,
    {
        let ghost pos0 = *pos as int;
        let ghost vold = v@.map_values(|x: Vec<u8>| x@);
        let ghost rest0 = s@.skip(pos0);
        match decode_bytes(s, pos) {
            Ok(bs) => {
                let ghost bsv = bs@;
                v.push(bs);
                proof {
                    let k1 = *pos - pos0;
                    assert(used_ok(k1, rest0));
                    assert(rest0.skip(k1) =~= s@.skip(*pos as int));
                    assert(v@.map_values(|x: Vec<u8>| x@) =~= vold.push(bsv));
                    match dec_enum_values(s@.skip(*pos as int), (n - i - 1) as nat) {
                        Ok((rs, k2)) => {
                            assert(vold + (seq![bsv] + rs) =~= vold.push(bsv) + rs);
                        },
                        Err(e) => {},
                    }
                }
                i = i + 1;
            },
            Err(e) => {
                return Err(e);
            },
        }
    }
    proof {
        assert(v@.map_values(|x: Vec<u8>| x@) + Seq::<Seq<u8>>::empty() =~= v@.map_values(
            |x: Vec<u8>| x@,
        ));
    }
    Ok(v)
}

/// Reads `n` dictionary fields in a row.
#[verifier::loop_isolation(false)]
fn decode_dict_fields(s: &[u8], pos: &mut usize, n: u32, nt: usize) -> (r: Result<
    Vec<crate::ast::WebidlDictionaryField>,
    DecodeError,
>)
    requires
        *old(pos) <= s@.len(),
    ensures
        match r {
            Ok(v) => dec_dict_fields(s@.skip(*old(pos) as int), n as nat, nt as int) == Ok::<
                (Seq<crate::ast::WebidlDictionaryFieldV>, int),
                DecodeError,
            >((
                v@.map_values(|x: crate::ast::WebidlDictionaryField| x@),
                *final(pos) - *old(pos),
            )) && *old(pos) <= *final(pos) <= s@.len(),
            Err(e) => dec_dict_fields(s@.skip(*old(pos) as int), n as nat, nt as int) == Err::<
                (Seq<crate::ast::WebidlDictionaryFieldV>, int),
                DecodeError,
            >(e),
        },
{
    let ghost start = *pos as int;
    let mut v: Vec<crate::ast::WebidlDictionaryField> = Vec::new();
    let mut i: u32 = 0;
    proof {
        assert(v@.map_values(|x: crate::ast::WebidlDictionaryField| x@) =~= Seq::<
            crate::ast::WebidlDictionaryFieldV,
        >::empty());
    }
    while i < n
        invariant
            start <= *pos <= s@.len(),
            i <= n,
            dec_dict_fields(s@.skip(start), n as nat, nt as int) == (match dec_dict_fields(
                s@.skip(*pos as int),
                (n - i) as nat,
                nt as int,
            ) {
                Ok((rs, k)) => Ok::<(Seq<crate::ast::WebidlDictionaryFieldV>, int), DecodeError>((
                    v@.map_values(|x: crate::ast::WebidlDictionaryField| x@) + rs,
                    (*pos - start) + k,
                )),
                Err(e) => Err::<(Seq<crate::ast::WebidlDictionaryFieldV>, int), DecodeError>(e),
            }),
        decreases n - i,
    {
        let ghost pos0 = *pos as int;
        let ghost vold = v@.map_values(|x: crate::ast::WebidlDictionaryField| x@);
        let ghost rest0 = s@.skip(pos0);
        let name = match decode_bytes(s, pos) {
            Ok(name) => name,
            Err(e) => {
                return Err(e);
            },
        };
        let ghost pos1 = *pos as int;
        let ghost rest1 = s@.skip(pos1);
        proof {
            assert(used_ok(pos1 - pos0, rest0));
            assert(rest0.skip(pos1 - pos0) =~= rest1);
        }
        let ty = match decode_type_ref(s, pos, nt) {
            Ok(ty) => ty,
            Err(e) => {
                return Err(e);
            },
        };
        let fd = crate::ast::WebidlDictionaryField { name, ty };
        let ghost fdv = fd@;
        v.push(fd);
        proof {
            let k1 = pos1 - pos0;
            let k2 = *pos - pos1;
            assert(used_ok(k2, rest0.skip(k1)));
            assert(rest0.skip(k1).skip(k2) =~= s@.skip(*pos as int));
            assert(rest0.skip(k1 + k2) =~= s@.skip(*pos as int));
            assert(v@.map_values(|x: crate::ast::WebidlDictionaryField| x@) =~= vold.push(fdv));
            match dec_dict_fields(s@.skip(*pos as int), (n - i - 1) as nat, nt as int) {
                Ok((rs, k3)) => {
                    assert(vold + (seq![fdv] + rs) =~= vold.push(fdv) + rs);
                },
                Err(e) => {},
            }
        }
        i = i + 1;
    }
    proof {
        let mapped = v@.map_values(|x: crate::ast::WebidlDictionaryField| x@);
        assert(mapped + Seq::<crate::ast::WebidlDictionaryFieldV>::empty() =~= mapped);
    }
    Ok(v)
}

/// Reads one compound type and inserts it, so its handle is the count of
/// types read before it.
#[verifier::rlimit(100)]
#[verifier::spinoff_prover]
fn decode_compound(s: &[u8], pos: &mut usize, wb: &mut crate::ast::WebidlBindings) -> (r: Result<
    (),
    DecodeError,
>)
    requires
        *old(pos) <= s@.len(),
        old(wb)@.types.arena.len() <= u32::MAX,
    ensures
        match r {
            Ok(()) => {
                &&& (dec_compound(
                    s@.skip(*old(pos) as int),
                    old(wb)@.types.arena.len() as int,
                ) matches Ok((t, k)) && final(wb)@.types.arena == old(wb)@.types.arena.push(t)
                    && k == *final(pos) - *old(pos))
                &&& *old(pos) < *final(pos) <= s@.len()
                &&& final(wb)@.types.names == old(wb)@.types.names
                &&& final(wb)@.bindings == old(wb)@.bindings
                &&& final(wb)@.binds == old(wb)@.binds
            },
            Err(e) => dec_compound(s@.skip(*old(pos) as int), old(wb)@.types.arena.len() as int)
                == Err::<(crate::ast::WebidlCompoundTypeV, int), DecodeError>(e),
        },
{
    let ghost start = *pos as int;
    let ghost nt = wb@.types.arena.len() as int;
    if *pos == s.len() {
        proof {
            assert(s@.skip(start).len() == 0);
        }
        return Err(DecodeError::UnexpectedEof);
    }
    let b = s[*pos];
    proof {
        assert(s@.skip(start)[0] == s@[start]);
    }
    *pos = *pos + 1;
    let ghost p1 = *pos as int;
    proof {
        assert(s@.skip(start).skip(1) =~= s@.skip(p1));
    }
    if b == 0 {
        let ntypes = wb.types.len();
        let kind = match decode_kind(s, pos, ntypes) {
            Ok(k) => k,
            Err(e) => {
                return Err(e);
            },
        };
        let ghost p2 = *pos as int;
        proof {
            assert(used_ok(p2 - p1, s@.skip(p1)));
            lemma_skip_skip(s@, p1, p2);
            lemma_skip_skip(s@, start, p2);
        }
        let np = match read_uleb32(s, pos) {
            Ok(v) => v,
            Err(e) => {
                return Err(e);
            },
        };
        let ghost p3 = *pos as int;
        proof {
            assert(used_ok(p3 - p2, s@.skip(p2)));
            lemma_skip_skip(s@, p2, p3);
            lemma_skip_skip(s@, start, p3);
        }
        let params = match decode_type_refs(s, pos, np, ntypes) {
            Ok(v) => v,
            Err(e) => {
                return Err(e);
            },
        };
        let ghost p4 = *pos as int;
        proof {
            assert(0 <= p4 - p3 <= s@.skip(p3).len());
            lemma_skip_skip(s@, p3, p4);
            lemma_skip_skip(s@, start, p4);
        }
        let result = match decode_opt_type_ref(s, pos, ntypes) {
            Ok(v) => v,
            Err(e) => {
                return Err(e);
            },
        };
        let ty = crate::ast::WebidlCompoundType::Function(crate::ast::WebidlFunction {
            kind,
            params,
            result,
        });
        let ghost tyv = ty@;
        wb.types.insert(ty);
        proof {
            assert(dec_compound(s@.skip(start), nt) matches Ok((t, k)) && t == tyv && k == *pos
                - start);
        }
        Ok(())
    } else if b == 1 {
        let nf = match read_uleb32(s, pos) {
            Ok(v) => v,
            Err(e) => {
                return Err(e);
            },
        };
        let ghost p2 = *pos as int;
        proof {
            assert(used_ok(p2 - p1, s@.skip(p1)));
            lemma_skip_skip(s@, p1, p2);
            lemma_skip_skip(s@, start, p2);
        }
        let ntypes = wb.types.len();
        let fields = match decode_dict_fields(s, pos, nf, ntypes) {
            Ok(v) => v,
            Err(e) => {
                return Err(e);
            },
        };
        let ty = crate::ast::WebidlCompoundType::Dictionary(crate::ast::WebidlDictionary {
            fields,
        });
        let ghost tyv = ty@;
        wb.types.insert(ty);
        proof {
            assert(dec_compound(s@.skip(start), nt) matches Ok((t, k)) && t == tyv && k == *pos
                - start);
        }
        Ok(())
    } else if b == 2 {
        let nv = match read_uleb32(s, pos) {
            Ok(v) => v,
            Err(e) => {
                return Err(e);
            },
        };
        let ghost p2 = *pos as int;
        proof {
            assert(used_ok(p2 - p1, s@.skip(p1)));
            lemma_skip_skip(s@, p1, p2);
            lemma_skip_skip(s@, start, p2);
        }
        let values = match decode_enum_values(s, pos, nv) {
            Ok(v) => v,
            Err(e) => {
                return Err(e);
            },
        };
        let ty = crate::ast::WebidlCompoundType::Enumeration(crate::ast::WebidlEnumeration {
            values,
        });
        let ghost tyv = ty@;
        wb.types.insert(ty);
        proof {
            assert(dec_compound(s@.skip(start), nt) matches Ok((t, k)) && t == tyv && k == *pos
                - start);
        }
        Ok(())
    } else if b == 3 {
        let nm = match read_uleb32(s, pos) {
            Ok(v) => v,
            Err(e) => {
                return Err(e);
            },
        };
        let ghost p2 = *pos as int;
        proof {
            assert(used_ok(p2 - p1, s@.skip(p1)));
            lemma_skip_skip(s@, p1, p2);
            lemma_skip_skip(s@, start, p2);
        }
        let ntypes = wb.types.len();
        let members = match decode_type_refs(s, pos, nm, ntypes) {
            Ok(v) => v,
            Err(e) => {
                return Err(e);
            },
        };
        let ty = crate::ast::WebidlCompoundType::Union(crate::ast::WebidlUnion { members });
        let ghost tyv = ty@;
        wb.types.insert(ty);
        proof {
            assert(dec_compound(s@.skip(start), nt) matches Ok((t, k)) && t == tyv && k == *pos
                - start);
        }
        Ok(())
    } else {
        Err(DecodeError::BadCompoundTypeDiscriminant)
    }
}

/// Reads one outgoing expression, children included.
#[verifier::loop_isolation(false)]
#[verifier::rlimit(100)]
#[verifier::spinoff_prover]
fn decode_out_expr(s: &[u8], pos: &mut usize, nt: usize, nb: usize) -> (r: Result<
    crate::ast::OutgoingBindingExpression,
    DecodeError,
>)
    requires
        *old(pos) <= s@.len(),
    ensures
        match r {
            Ok(e) => dec_out_expr(s@.skip(*old(pos) as int), nt as int, nb as int) == Ok::<
                (crate::ast::OutgoingBindingExpressionV, int),
                DecodeError,
            >((e@, *final(pos) - *old(pos))) && *old(pos) < *final(pos) <= s@.len(),
            Err(er) => dec_out_expr(s@.skip(*old(pos) as int), nt as int, nb as int) == Err::<
                (crate::ast::OutgoingBindingExpressionV, int),
                DecodeError,
            >(er),
        },
    decreases s@.len() - *old(pos), 0int,
{
    let ghost start = *pos as int;
    if *pos == s.len() {
        proof {
            assert(s@.skip(start).len() == 0);
        }
        return Err(DecodeError::UnexpectedEof);
    }
    let b = s[*pos];
    proof {
        assert(s@.skip(start)[0] == s@[start]);
    }
    if b > 7 {
        return Err(DecodeError::BadOutgoingExpressionDiscriminant);
    }
    *pos = *pos + 1;
    let ghost p1 = *pos as int;
    proof {
        assert(s@.skip(start).skip(1) =~= s@.skip(p1));
    }
    let ty = match decode_type_ref(s, pos, nt) {
        Ok(t) => t,
        Err(e) => {
            return Err(e);
        },
    };
    let ghost p2 = *pos as int;
    proof {
        assert(used_ok(p2 - p1, s@.skip(p1)));
        lemma_skip_skip(s@, p1, p2);
        lemma_skip_skip(s@, start, p2);
    }
    if b == 6 {
        let nf = match read_uleb32(s, pos) {
            Ok(v) => v,
            Err(e) => {
                return Err(e);
            },
        };
        let ghost p3 = *pos as int;
        proof {
            assert(used_ok(p3 - p2, s@.skip(p2)));
            lemma_skip_skip(s@, p2, p3);
            lemma_skip_skip(s@, start, p3);
        }
        let fields = match decode_out_exprs(s, pos, nf, nt, nb) {
            Ok(v) => v,
            Err(e) => {
                return Err(e);
            },
        };
        let e = crate::ast::OutgoingBindingExpression::Dict(
            crate::ast::OutgoingBindingExpressionDict { ty, fields },
        );
        proof {
            crate::ast::lemma_out_exprs_view_props(e->Dict_0.fields@);
        }
        return Ok(e);
    }
    if b == 7 {
        let bidx = match read_uleb32(s, pos) {
            Ok(v) => v,
            Err(e) => {
                return Err(e);
            },
        };
        if !((bidx as usize) < nb) {
            return Err(DecodeError::InvalidBindingIndex);
        }
        let ghost p3 = *pos as int;
        proof {
            lemma_skip_skip(s@, p2, p3);
            lemma_skip_skip(s@, start, p3);
        }
        let idx = match read_uleb32(s, pos) {
            Ok(v) => v,
            Err(e) => {
                return Err(e);
            },
        };
        return Ok(crate::ast::OutgoingBindingExpression::BindExport(
            crate::ast::OutgoingBindingExpressionBindExport {
                ty,
                binding: crate::ast::FunctionBindingId(bidx),
                idx,
            },
        ));
    }
    // The remaining kinds carry one or two unsigned operands.
    let a = match read_uleb32(s, pos) {
        Ok(v) => v,
        Err(e) => {
            return Err(e);
        },
    };
    if b == 0 {
        return Ok(crate::ast::OutgoingBindingExpression::As(
            crate::ast::OutgoingBindingExpressionAs { ty, idx: a },
        ));
    }
    if b == 2 {
        return Ok(crate::ast::OutgoingBindingExpression::Utf8CStr(
            crate::ast::OutgoingBindingExpressionUtf8CStr { ty, offset: a },
        ));
    }
    if b == 3 {
        return Ok(crate::ast::OutgoingBindingExpression::I32ToEnum(
            crate::ast::OutgoingBindingExpressionI32ToEnum { ty, idx: a },
        ));
    }
    let ghost p3 = *pos as int;
    proof {
        lemma_skip_skip(s@, p2, p3);
        lemma_skip_skip(s@, start, p3);
    }
    let length = match read_uleb32(s, pos) {
        Ok(v) => v,
        Err(e) => {
            return Err(e);
        },
    };
    if b == 1 {
        Ok(crate::ast::OutgoingBindingExpression::Utf8Str(
            crate::ast::OutgoingBindingExpressionUtf8Str { ty, offset: a, length },
        ))
    } else if b == 4 {
        Ok(crate::ast::OutgoingBindingExpression::View(
            crate::ast::OutgoingBindingExpressionView { ty, offset: a, length },
        ))
    } else {
        Ok(crate::ast::OutgoingBindingExpression::Copy(
            crate::ast::OutgoingBindingExpressionCopy { ty, offset: a, length },
        ))
    }
}

/// Reads `n` outgoing expressions in a row.
#[verifier::loop_isolation(false)]
#[verifier::rlimit(100)]
#[verifier::spinoff_prover]
fn decode_out_exprs(s: &[u8], pos: &mut usize, n: u32, nt: usize, nb: usize) -> (r: Result<
    Vec<crate::ast::OutgoingBindingExpression>,
    DecodeError,
>)
    requires
        *old(pos) <= s@.len(),
    ensures
        match r {
            Ok(v) => dec_out_exprs(s@.skip(*old(pos) as int), n as nat, nt as int, nb as int)
                == Ok::<(Seq<crate::ast::OutgoingBindingExpressionV>, int), DecodeError>((
                crate::ast::out_exprs_view(v@),
                *final(pos) - *old(pos),
            )) && *old(pos) <= *final(pos) <= s@.len(),
            Err(e) => dec_out_exprs(s@.skip(*old(pos) as int), n as nat, nt as int, nb as int)
                == Err::<(Seq<crate::ast::OutgoingBindingExpressionV>, int), DecodeError>(e),
        },
    decreases s@.len() - *old(pos), 1int,
{
    let ghost start = *pos as int;
    let mut v: Vec<crate::ast::OutgoingBindingExpression> = Vec::new();
    let mut i: u32 = 0;
    proof {
        crate::ast::lemma_out_exprs_view_props(v@);
        assert(crate::ast::out_exprs_view(v@) =~= Seq::<
            crate::ast::OutgoingBindingExpressionV,
        >::empty());
    }
    while i < n
        invariant
            start <= *pos <= s@.len(),
            i <= n,
            dec_out_exprs(s@.skip(start), n as nat, nt as int, nb as int) == (match dec_out_exprs(
                s@.skip(*pos as int),
                (n - i) as nat,
                nt as int,
                nb as int,
            ) {
                Ok((rs, k)) => Ok::<(Seq<crate::ast::OutgoingBindingExpressionV>, int), DecodeError>(
                    (crate::ast::out_exprs_view(v@) + rs, (*pos - start) + k),
                ),
                Err(e) => Err::<(Seq<crate::ast::OutgoingBindingExpressionV>, int), DecodeError>(e),
            }),
        decreases n - i,
    {
        let ghost pos0 = *pos as int;
        let ghost vold = crate::ast::out_exprs_view(v@);
        let ghost rest0 = s@.skip(pos0);
        match decode_out_expr(s, pos, nt, nb) {
            Ok(e) => {
                let ghost ev = e@;
                let ghost vexec_old = v@;
                v.push(e);
                proof {
                    let k1 = *pos - pos0;
                    assert(used_ok(k1, rest0));
                    assert(rest0.skip(k1) =~= s@.skip(*pos as int));
                    crate::ast::lemma_out_exprs_view_snoc(vexec_old, v@.last());
                    assert(v@ =~= vexec_old.push(v@.last()));
                    assert(crate::ast::out_exprs_view(v@) == vold.push(ev));
                    match dec_out_exprs(s@.skip(*pos as int), (n - i - 1) as nat, nt as int, nb as int) {
                        Ok((rs, k2)) => {
                            assert(vold + (seq![ev] + rs) =~= vold.push(ev) + rs);
                        },
                        Err(er) => {},
                    }
                }
                i = i + 1;
            },
            Err(e) => {
                return Err(e);
            },
        }
    }
    proof {
        assert(crate::ast::out_exprs_view(v@) + Seq::<
            crate::ast::OutgoingBindingExpressionV,
        >::empty() =~= crate::ast::out_exprs_view(v@));
    }
    Ok(v)
}

/// Reads one incoming expression, its child included.
#[verifier::loop_isolation(false)]
#[verifier::rlimit(100)]
#[verifier::spinoff_prover]
fn decode_in_expr(s: &[u8], pos: &mut usize, nt: usize, nb: usize, host: &HostIndices) -> (r:
    Result<crate::ast::IncomingBindingExpression, DecodeError>)
    requires
        *old(pos) <= s@.len(),
    ensures
        match r {
            Ok(e) => dec_in_expr(s@.skip(*old(pos) as int), nt as int, nb as int, *host) == Ok::<
                (crate::ast::IncomingBindingExpressionV, int),
                DecodeError,
            >((e@, *final(pos) - *old(pos))) && *old(pos) < *final(pos) <= s@.len(),
            Err(er) => dec_in_expr(s@.skip(*old(pos) as int), nt as int, nb as int, *host) == Err::<
                (crate::ast::IncomingBindingExpressionV, int),
                DecodeError,
            >(er),
        },
    decreases s@.len() - *old(pos),
{
    let ghost start = *pos as int;
    if *pos == s.len() {
        proof {
            assert(s@.skip(start).len() == 0);
        }
        return Err(DecodeError::UnexpectedEof);
    }
    let b = s[*pos];
    proof {
        assert(s@.skip(start)[0] == s@[start]);
    }
    if b > 6 {
        return Err(DecodeError::BadIncomingExpressionDiscriminant);
    }
    *pos = *pos + 1;
    let ghost p1 = *pos as int;
    proof {
        lemma_skip_skip(s@, start, p1);
    }
    if b == 0 {
        let idx = match read_uleb32(s, pos) {
            Ok(v) => v,
            Err(e) => {
                return Err(e);
            },
        };
        return Ok(crate::ast::IncomingBindingExpression::Get(
            crate::ast::IncomingBindingExpressionGet { idx },
        ));
    }
    if b == 1 {
        let ty = match decode_valtype(s, pos) {
            Ok(t) => t,
            Err(e) => {
                return Err(e);
            },
        };
        let ghost p2 = *pos as int;
        proof {
            assert(used_ok(p2 - p1, s@.skip(p1)));
            lemma_skip_skip(s@, p1, p2);
            lemma_skip_skip(s@, start, p2);
        }
        let child = match decode_in_expr(s, pos, nt, nb, host) {
            Ok(c) => c,
            Err(e) => {
                return Err(e);
            },
        };
        return Ok(crate::ast::IncomingBindingExpression::As(
            crate::ast::IncomingBindingExpressionAs { ty, expr: Box::new(child) },
        ));
    }
    if b == 2 || b == 3 {
        let name = match decode_bytes(s, pos) {
            Ok(v) => v,
            Err(e) => {
                return Err(e);
            },
        };
        let ghost p2 = *pos as int;
        proof {
            assert(used_ok(p2 - p1, s@.skip(p1)));
            lemma_skip_skip(s@, p1, p2);
            lemma_skip_skip(s@, start, p2);
        }
        let child = match decode_in_expr(s, pos, nt, nb, host) {
            Ok(c) => c,
            Err(e) => {
                return Err(e);
            },
        };
        if b == 2 {
            return Ok(crate::ast::IncomingBindingExpression::AllocUtf8Str(
                crate::ast::IncomingBindingExpressionAllocUtf8Str {
                    alloc_func_name: name,
                    expr: Box::new(child),
                },
            ));
        } else {
            return Ok(crate::ast::IncomingBindingExpression::AllocCopy(
                crate::ast::IncomingBindingExpressionAllocCopy {
                    alloc_func_name: name,
                    expr: Box::new(child),
                },
            ));
        }
    }
    if b == 4 {
        let ty = match decode_type_ref(s, pos, nt) {
            Ok(t) => t,
            Err(e) => {
                return Err(e);
            },
        };
        let ghost p2 = *pos as int;
        proof {
            assert(used_ok(p2 - p1, s@.skip(p1)));
            lemma_skip_skip(s@, p1, p2);
            lemma_skip_skip(s@, start, p2);
        }
        let child = match decode_in_expr(s, pos, nt, nb, host) {
            Ok(c) => c,
            Err(e) => {
                return Err(e);
            },
        };
        return Ok(crate::ast::IncomingBindingExpression::EnumToI32(
            crate::ast::IncomingBindingExpressionEnumToI32 { ty, expr: Box::new(child) },
        ));
    }
    if b == 5 {
        let idx = match read_uleb32(s, pos) {
            Ok(v) => v,
            Err(e) => {
                return Err(e);
            },
        };
        let ghost p2 = *pos as int;
        proof {
            assert(used_ok(p2 - p1, s@.skip(p1)));
            lemma_skip_skip(s@, p1, p2);
            lemma_skip_skip(s@, start, p2);
        }
        let child = match decode_in_expr(s, pos, nt, nb, host) {
            Ok(c) => c,
            Err(e) => {
                return Err(e);
            },
        };
        return Ok(crate::ast::IncomingBindingExpression::Field(
            crate::ast::IncomingBindingExpressionField { idx, expr: Box::new(child) },
        ));
    }
    // b == 6
    let tidx = match read_uleb32(s, pos) {
        Ok(v) => v,
        Err(e) => {
            return Err(e);
        },
    };
    if !(tidx < host.func_type_count) {
        return Err(DecodeError::InvalidFuncTypeIndex);
    }
    let ghost p2 = *pos as int;
    proof {
        assert(used_ok(p2 - p1, s@.skip(p1)));
        lemma_skip_skip(s@, p1, p2);
        lemma_skip_skip(s@, start, p2);
    }
    let bidx = match read_uleb32(s, pos) {
        Ok(v) => v,
        Err(e) => {
            return Err(e);
        },
    };
    if !((bidx as usize) < nb) {
        return Err(DecodeError::InvalidBindingIndex);
    }
    let ghost p3 = *pos as int;
    proof {
        assert(used_ok(p3 - p2, s@.skip(p2)));
        lemma_skip_skip(s@, p2, p3);
        lemma_skip_skip(s@, start, p3);
    }
    let child = match decode_in_expr(s, pos, nt, nb, host) {
        Ok(c) => c,
        Err(e) => {
            return Err(e);
        },
    };
    Ok(crate::ast::IncomingBindingExpression::BindImport(
        crate::ast::IncomingBindingExpressionBindImport {
            ty: crate::ast::WasmFuncTypeRef(tidx),
            binding: crate::ast::FunctionBindingId(bidx),
            expr: Box::new(child),
        },
    ))
}

/// Reads `n` incoming expressions in a row.
#[verifier::loop_isolation(false)]
#[verifier::rlimit(100)]
#[verifier::spinoff_prover]
fn decode_in_exprs(s: &[u8], pos: &mut usize, n: u32, nt: usize, nb: usize, host: &HostIndices) -> (r:
    Result<Vec<crate::ast::IncomingBindingExpression>, DecodeError>)
    requires
        *old(pos) <= s@.len(),
    ensures
        match r {
            Ok(v) => dec_in_exprs(
                s@.skip(*old(pos) as int),
                n as nat,
                nt as int,
                nb as int,
                *host,
            ) == Ok::<(Seq<crate::ast::IncomingBindingExpressionV>, int), DecodeError>((
                crate::ast::in_exprs_view(v@),
                *final(pos) - *old(pos),
            )) && *old(pos) <= *final(pos) <= s@.len(),
            Err(e) => dec_in_exprs(
                s@.skip(*old(pos) as int),
                n as nat,
                nt as int,
                nb as int,
                *host,
            ) == Err::<(Seq<crate::ast::IncomingBindingExpressionV>, int), DecodeError>(e),
        },
{
    let ghost start = *pos as int;
    let mut v: Vec<crate::ast::IncomingBindingExpression> = Vec::new();
    let mut i: u32 = 0;
    proof {
        crate::ast::lemma_in_exprs_view_props(v@);
        assert(crate::ast::in_exprs_view(v@) =~= Seq::<
            crate::ast::IncomingBindingExpressionV,
        >::empty());
    }
    while i < n
        invariant
            start <= *pos <= s@.len(),
            i <= n,
            dec_in_exprs(s@.skip(start), n as nat, nt as int, nb as int, *host) == (
            match dec_in_exprs(
                s@.skip(*pos as int),
                (n - i) as nat,
                nt as int,
                nb as int,
                *host,
            ) {
                Ok((rs, k)) => Ok::<
                    (Seq<crate::ast::IncomingBindingExpressionV>, int),
                    DecodeError,
                >((crate::ast::in_exprs_view(v@) + rs, (*pos - start) + k)),
                Err(e) => Err::<(Seq<crate::ast::IncomingBindingExpressionV>, int), DecodeError>(e),
            }),
        decreases n - i,
    {
        let ghost pos0 = *pos as int;
        let ghost vold = crate::ast::in_exprs_view(v@);
        let ghost rest0 = s@.skip(pos0);
        match decode_in_expr(s, pos, nt, nb, host) {
            Ok(e) => {
                let ghost ev = e@;
                let ghost vexec_old = v@;
                v.push(e);
                proof {
                    let k1 = *pos - pos0;
                    assert(used_ok(k1, rest0));
                    assert(rest0.skip(k1) =~= s@.skip(*pos as int));
                    crate::ast::lemma_in_exprs_view_snoc(vexec_old, v@.last());
                    assert(v@ =~= vexec_old.push(v@.last()));
                    assert(crate::ast::in_exprs_view(v@) == vold.push(ev));
                    match dec_in_exprs(
                        s@.skip(*pos as int),
                        (n - i - 1) as nat,
                        nt as int,
                        nb as int,
                        *host,
                    ) {
                        Ok((rs, k2)) => {
                            assert(vold + (seq![ev] + rs) =~= vold.push(ev) + rs);
                        },
                        Err(er) => {},
                    }
                }
                i = i + 1;
            },
            Err(e) => {
                return Err(e);
            },
        }
    }
    proof {
        assert(crate::ast::in_exprs_view(v@) + Seq::<
            crate::ast::IncomingBindingExpressionV,
        >::empty() =~= crate::ast::in_exprs_view(v@));
    }
    Ok(v)
}

/// Reads one function binding and inserts it, so its handle is the count of
/// bindings read before it.
#[verifier::loop_isolation(false)]
#[verifier::rlimit(100)]
#[verifier::spinoff_prover]
fn decode_binding(
    s: &[u8],
    pos: &mut usize,
    wb: &mut crate::ast::WebidlBindings,
    host: &HostIndices,
) -> (r: Result<(), DecodeError>)
    requires
        *old(pos) <= s@.len(),
        old(wb)@.bindings.arena.len() <= u32::MAX,
    ensures
        match r {
            Ok(()) => {
                &&& (dec_binding(
                    s@.skip(*old(pos) as int),
                    old(wb)@.types.arena.len() as int,
                    old(wb)@.bindings.arena.len() as int,
                    *host,
                ) matches Ok((bv, k)) && final(wb)@.bindings.arena == old(
                    wb,
                )@.bindings.arena.push(bv) && k == *final(pos) - *old(pos))
                &&& *old(pos) < *final(pos) <= s@.len()
                &&& final(wb)@.bindings.names == old(wb)@.bindings.names
                &&& final(wb)@.types == old(wb)@.types
                &&& final(wb)@.binds == old(wb)@.binds
            },
            Err(e) => dec_binding(
                s@.skip(*old(pos) as int),
                old(wb)@.types.arena.len() as int,
                old(wb)@.bindings.arena.len() as int,
                *host,
            ) == Err::<(crate::ast::FunctionBindingV, int), DecodeError>(e),
        },
{
    let ghost start = *pos as int;
    let ghost nt = wb@.types.arena.len() as int;
    let ghost nb = wb@.bindings.arena.len() as int;
    if *pos == s.len() {
        proof {
            assert(s@.skip(start).len() == 0);
        }
        return Err(DecodeError::UnexpectedEof);
    }
    let b = s[*pos];
    proof {
        assert(s@.skip(start)[0] == s@[start]);
    }
    if b > 1 {
        return Err(DecodeError::BadFunctionBindingDiscriminant);
    }
    *pos = *pos + 1;
    let ghost p1 = *pos as int;
    proof {
        lemma_skip_skip(s@, start, p1);
    }
    let tidx = match read_uleb32(s, pos) {
        Ok(v) => v,
        Err(e) => {
            return Err(e);
        },
    };
    if !(tidx < host.func_type_count) {
        return Err(DecodeError::InvalidFuncTypeIndex);
    }
    let ghost p2 = *pos as int;
    proof {
        assert(used_ok(p2 - p1, s@.skip(p1)));
        lemma_skip_skip(s@, p1, p2);
        lemma_skip_skip(s@, start, p2);
    }
    let ntypes = wb.types.len();
    let nbindings = wb.bindings.len();
    let webidl_ty = match decode_type_ref(s, pos, ntypes) {
        Ok(t) => t,
        Err(e) => {
            return Err(e);
        },
    };
    let ghost p3 = *pos as int;
    proof {
        assert(used_ok(p3 - p2, s@.skip(p2)));
        lemma_skip_skip(s@, p2, p3);
        lemma_skip_skip(s@, start, p3);
    }
    let np = match read_uleb32(s, pos) {
        Ok(v) => v,
        Err(e) => {
            return Err(e);
        },
    };
    let ghost p4 = *pos as int;
    proof {
        assert(used_ok(p4 - p3, s@.skip(p3)));
        lemma_skip_skip(s@, p3, p4);
        lemma_skip_skip(s@, start, p4);
    }
    if b == 0 {
        let params = match decode_out_exprs(s, pos, np, ntypes, nbindings) {
            Ok(v) => v,
            Err(e) => {
                return Err(e);
            },
        };
        let ghost p5 = *pos as int;
        proof {
            assert(0 <= p5 - p4 <= s@.skip(p4).len());
            lemma_skip_skip(s@, p4, p5);
            lemma_skip_skip(s@, start, p5);
        }
        let nr = match read_uleb32(s, pos) {
            Ok(v) => v,
            Err(e) => {
                return Err(e);
            },
        };
        let ghost p6 = *pos as int;
        proof {
            assert(used_ok(p6 - p5, s@.skip(p5)));
            lemma_skip_skip(s@, p5, p6);
            lemma_skip_skip(s@, start, p6);
        }
        let result = match decode_in_exprs(s, pos, nr, ntypes, nbindings, host) {
            Ok(v) => v,
            Err(e) => {
                return Err(e);
            },
        };
        let binding = crate::ast::FunctionBinding::Import(crate::ast::ImportBinding {
            wasm_ty: crate::ast::WasmFuncTypeRef(tidx),
            webidl_ty,
            params: crate::ast::OutgoingBindingMap { bindings: params },
            result: crate::ast::IncomingBindingMap { bindings: result },
        });
        let ghost bv = binding@;
        wb.bindings.insert(binding);
        proof {
            assert(dec_binding(s@.skip(start), nt, nb, *host) matches Ok((x, k)) && x == bv && k
                == *pos - start);
        }
        Ok(())
    } else {
        let params = match decode_in_exprs(s, pos, np, ntypes, nbindings, host) {
            Ok(v) => v,
            Err(e) => {
                return Err(e);
            },
        };
        let ghost p5 = *pos as int;
        proof {
            assert(0 <= p5 - p4 <= s@.skip(p4).len());
            lemma_skip_skip(s@, p4, p5);
            lemma_skip_skip(s@, start, p5);
        }
        let nr = match read_uleb32(s, pos) {
            Ok(v) => v,
            Err(e) => {
                return Err(e);
            },
        };
        let ghost p6 = *pos as int;
        proof {
            assert(used_ok(p6 - p5, s@.skip(p5)));
            lemma_skip_skip(s@, p5, p6);
            lemma_skip_skip(s@, start, p6);
        }
        let result = match decode_out_exprs(s, pos, nr, ntypes, nbindings) {
            Ok(v) => v,
            Err(e) => {
                return Err(e);
            },
        };
        let binding = crate::ast::FunctionBinding::Export(crate::ast::ExportBinding {
            wasm_ty: crate::ast::WasmFuncTypeRef(tidx),
            webidl_ty,
            params: crate::ast::IncomingBindingMap { bindings: params },
            result: crate::ast::OutgoingBindingMap { bindings: result },
        });
        let ghost bv = binding@;
        wb.bindings.insert(binding);
        proof {
            assert(dec_binding(s@.skip(start), nt, nb, *host) matches Ok((x, k)) && x == bv && k
                == *pos - start);
        }
        Ok(())
    }
}

/// Reads one bind and inserts it.
fn decode_bind(
    s: &[u8],
    pos: &mut usize,
    wb: &mut crate::ast::WebidlBindings,
    host: &HostIndices,
) -> (r: Result<(), DecodeError>)
    requires
        *old(pos) <= s@.len(),
        old(wb)@.binds.len() <= u32::MAX,
    ensures
        match r {
            Ok(()) => {
                &&& (dec_bind(
                    s@.skip(*old(pos) as int),
                    old(wb)@.bindings.arena.len() as int,
                    *host,
                ) matches Ok((bd, k)) && final(wb)@.binds == old(wb)@.binds.push(bd)
                    && k == *final(pos) - *old(pos))
                &&& *old(pos) < *final(pos) <= s@.len()
                &&& final(wb)@.types == old(wb)@.types
                &&& final(wb)@.bindings == old(wb)@.bindings
            },
            Err(e) => dec_bind(
                s@.skip(*old(pos) as int),
                old(wb)@.bindings.arena.len() as int,
                *host,
            ) == Err::<(crate::ast::Bind, int), DecodeError>(e),
        },
{
    let ghost start = *pos as int;
    let fidx = match read_uleb32(s, pos) {
        Ok(v) => v,
        Err(e) => {
            return Err(e);
        },
    };
    if !(fidx < host.func_count) {
        return Err(DecodeError::InvalidFuncIndex);
    }
    let ghost p1 = *pos as int;
    proof {
        assert(used_ok(p1 - start, s@.skip(start)));
        lemma_skip_skip(s@, start, p1);
    }
    let bidx = match read_uleb32(s, pos) {
        Ok(v) => v,
        Err(e) => {
            return Err(e);
        },
    };
    let nbindings = wb.bindings.len();
    if !((bidx as usize) < nbindings) {
        return Err(DecodeError::InvalidBindingIndex);
    }
    let bd = crate::ast::Bind {
        func: crate::ast::WasmFuncRef(fidx),
        binding: crate::ast::FunctionBindingId(bidx),
    };
    wb.binds.insert(bd);
    Ok(())
}

/// Reads `n` compound types in a row, inserting each as it is read.
#[verifier::loop_isolation(false)]
#[verifier::rlimit(100)]
#[verifier::spinoff_prover]
fn decode_compounds(s: &[u8], pos: &mut usize, n: u32, wb: &mut crate::ast::WebidlBindings) -> (r:
    Result<(), DecodeError>)
    requires
        *old(pos) <= s@.len(),
        old(wb)@.types.arena.len() + n <= u32::MAX + 1,
    ensures
        match r {
            Ok(()) => {
                &&& (dec_compounds(
                    s@.skip(*old(pos) as int),
                    n as nat,
                    old(wb)@.types.arena.len() as int,
                ) matches Ok((ts, k)) && final(wb)@.types.arena == old(wb)@.types.arena + ts && k
                    == *final(pos) - *old(pos))
                &&& *old(pos) <= *final(pos) <= s@.len()
                &&& final(wb)@.types.names == old(wb)@.types.names
                &&& final(wb)@.bindings == old(wb)@.bindings
                &&& final(wb)@.binds == old(wb)@.binds
            },
            Err(e) => dec_compounds(
                s@.skip(*old(pos) as int),
                n as nat,
                old(wb)@.types.arena.len() as int,
            ) == Err::<(Seq<crate::ast::WebidlCompoundTypeV>, int), DecodeError>(e),
        },
{
    let ghost start = *pos as int;
    let ghost arena0 = wb@.types.arena;
    let mut i: u32 = 0;
    proof {
        assert(arena0 + Seq::<crate::ast::WebidlCompoundTypeV>::empty() =~= arena0);
        assert(wb@.types.arena.skip(arena0.len() as int) =~= Seq::<
            crate::ast::WebidlCompoundTypeV,
        >::empty());
    }
    while i < n
        invariant
            start <= *pos <= s@.len(),
            i <= n,
            wb@.types.arena.len() == arena0.len() + i,
            wb@.types.arena.take(arena0.len() as int) == arena0,
            wb@.types.names == old(wb)@.types.names,
            wb@.bindings == old(wb)@.bindings,
            wb@.binds == old(wb)@.binds,
            dec_compounds(s@.skip(start), n as nat, arena0.len() as int) == (match dec_compounds(
                s@.skip(*pos as int),
                (n - i) as nat,
                wb@.types.arena.len() as int,
            ) {
                Ok((ts, k)) => Ok::<(Seq<crate::ast::WebidlCompoundTypeV>, int), DecodeError>((
                    wb@.types.arena.skip(arena0.len() as int) + ts,
                    (*pos - start) + k,
                )),
                Err(e) => Err::<(Seq<crate::ast::WebidlCompoundTypeV>, int), DecodeError>(e),
            }),
        decreases n - i,
    {
        let ghost pos0 = *pos as int;
        let ghost done = wb@.types.arena.skip(arena0.len() as int);
        let ghost rest0 = s@.skip(pos0);
        match decode_compound(s, pos, wb) {
            Ok(()) => {
                proof {
                    let k1 = *pos - pos0;
                    assert(used_ok(k1, rest0));
                    assert(rest0.skip(k1) =~= s@.skip(*pos as int));
                    let t = wb@.types.arena.last();
                    assert(wb@.types.arena.skip(arena0.len() as int) =~= done.push(t));
                    assert(wb@.types.arena.take(arena0.len() as int) =~= arena0);
                    match dec_compounds(
                        s@.skip(*pos as int),
                        (n - i - 1) as nat,
                        wb@.types.arena.len() as int,
                    ) {
                        Ok((ts, k2)) => {
                            assert(done + (seq![t] + ts) =~= done.push(t) + ts);
                        },
                        Err(e) => {},
                    }
                }
                i = i + 1;
            },
            Err(e) => {
                return Err(e);
            },
        }
    }
    proof {
        let done = wb@.types.arena.skip(arena0.len() as int);
        assert(done + Seq::<crate::ast::WebidlCompoundTypeV>::empty() =~= done);
        assert(arena0 + done =~= wb@.types.arena);
    }
    Ok(())
}

/// Reads `n` function bindings in a row, inserting each as it is read.
#[verifier::loop_isolation(false)]
#[verifier::rlimit(100)]
#[verifier::spinoff_prover]
fn decode_bindings(
    s: &[u8],
    pos: &mut usize,
    n: u32,
    wb: &mut crate::ast::WebidlBindings,
    host: &HostIndices,
) -> (r: Result<(), DecodeError>)
    requires
        *old(pos) <= s@.len(),
        old(wb)@.bindings.arena.len() + n <= u32::MAX + 1,
    ensures
        match r {
            Ok(()) => {
                &&& (dec_bindings(
                    s@.skip(*old(pos) as int),
                    n as nat,
                    old(wb)@.types.arena.len() as int,
                    old(wb)@.bindings.arena.len() as int,
                    *host,
                ) matches Ok((bs, k)) && final(wb)@.bindings.arena == old(wb)@.bindings.arena + bs
                    && k == *final(pos) - *old(pos))
                &&& *old(pos) <= *final(pos) <= s@.len()
                &&& final(wb)@.bindings.names == old(wb)@.bindings.names
                &&& final(wb)@.types == old(wb)@.types
                &&& final(wb)@.binds == old(wb)@.binds
            },
            Err(e) => dec_bindings(
                s@.skip(*old(pos) as int),
                n as nat,
                old(wb)@.types.arena.len() as int,
                old(wb)@.bindings.arena.len() as int,
                *host,
            ) == Err::<(Seq<crate::ast::FunctionBindingV>, int), DecodeError>(e),
        },
{
    let ghost start = *pos as int;
    let ghost arena0 = wb@.bindings.arena;
    let ghost nt = wb@.types.arena.len() as int;
    let mut i: u32 = 0;
    proof {
        assert(wb@.bindings.arena.skip(arena0.len() as int) =~= Seq::<
            crate::ast::FunctionBindingV,
        >::empty());
    }
    while i < n
        invariant
            start <= *pos <= s@.len(),
            i <= n,
            wb@.bindings.arena.len() == arena0.len() + i,
            wb@.bindings.arena.take(arena0.len() as int) == arena0,
            wb@.bindings.names == old(wb)@.bindings.names,
            wb@.types == old(wb)@.types,
            wb@.binds == old(wb)@.binds,
            dec_bindings(s@.skip(start), n as nat, nt, arena0.len() as int, *host) == (
            match dec_bindings(
                s@.skip(*pos as int),
                (n - i) as nat,
                nt,
                wb@.bindings.arena.len() as int,
                *host,
            ) {
                Ok((bs, k)) => Ok::<(Seq<crate::ast::FunctionBindingV>, int), DecodeError>((
                    wb@.bindings.arena.skip(arena0.len() as int) + bs,
                    (*pos - start) + k,
                )),
                Err(e) => Err::<(Seq<crate::ast::FunctionBindingV>, int), DecodeError>(e),
            }),
        decreases n - i,
    {
        let ghost pos0 = *pos as int;
        let ghost done = wb@.bindings.arena.skip(arena0.len() as int);
        let ghost rest0 = s@.skip(pos0);
        match decode_binding(s, pos, wb, host) {
            Ok(()) => {
                proof {
                    let k1 = *pos - pos0;
                    assert(used_ok(k1, rest0));
                    assert(rest0.skip(k1) =~= s@.skip(*pos as int));
                    let bv = wb@.bindings.arena.last();
                    assert(wb@.bindings.arena.skip(arena0.len() as int) =~= done.push(bv));
                    assert(wb@.bindings.arena.take(arena0.len() as int) =~= arena0);
                    match dec_bindings(
                        s@.skip(*pos as int),
                        (n - i - 1) as nat,
                        nt,
                        wb@.bindings.arena.len() as int,
                        *host,
                    ) {
                        Ok((bs, k2)) => {
                            assert(done + (seq![bv] + bs) =~= done.push(bv) + bs);
                        },
                        Err(e) => {},
                    }
                }
                i = i + 1;
            },
            Err(e) => {
                return Err(e);
            },
        }
    }
    proof {
        let done = wb@.bindings.arena.skip(arena0.len() as int);
        assert(done + Seq::<crate::ast::FunctionBindingV>::empty() =~= done);
        assert(arena0 + done =~= wb@.bindings.arena);
    }
    Ok(())
}

/// Reads `n` binds in a row, inserting each as it is read.
#[verifier::loop_isolation(false)]
#[verifier::rlimit(100)]
#[verifier::spinoff_prover]
fn decode_binds(
    s: &[u8],
    pos: &mut usize,
    n: u32,
    wb: &mut crate::ast::WebidlBindings,
    host: &HostIndices,
) -> (r: Result<(), DecodeError>)
    requires
        *old(pos) <= s@.len(),
        old(wb)@.binds.len() + n <= u32::MAX + 1,
    ensures
        match r {
            Ok(()) => {
                &&& (dec_binds(
                    s@.skip(*old(pos) as int),
                    n as nat,
                    old(wb)@.bindings.arena.len() as int,
                    *host,
                ) matches Ok((bds, k)) && final(wb)@.binds == old(wb)@.binds + bds
                    && k == *final(pos) - *old(pos))
                &&& *old(pos) <= *final(pos) <= s@.len()
                &&& final(wb)@.types == old(wb)@.types
                &&& final(wb)@.bindings == old(wb)@.bindings
            },
            Err(e) => dec_binds(
                s@.skip(*old(pos) as int),
                n as nat,
                old(wb)@.bindings.arena.len() as int,
                *host,
            ) == Err::<(Seq<crate::ast::Bind>, int), DecodeError>(e),
        },
{
    let ghost start = *pos as int;
    let ghost binds0 = wb@.binds;
    let ghost nb = wb@.bindings.arena.len() as int;
    let mut i: u32 = 0;
    proof {
        assert(wb@.binds.skip(binds0.len() as int) =~= Seq::<crate::ast::Bind>::empty());
    }
    while i < n
        invariant
            start <= *pos <= s@.len(),
            i <= n,
            wb@.binds.len() == binds0.len() + i,
            wb@.binds.take(binds0.len() as int) == binds0,
            wb@.types == old(wb)@.types,
            wb@.bindings == old(wb)@.bindings,
            dec_binds(s@.skip(start), n as nat, nb, *host) == (match dec_binds(
                s@.skip(*pos as int),
                (n - i) as nat,
                nb,
                *host,
            ) {
                Ok((bds, k)) => Ok::<(Seq<crate::ast::Bind>, int), DecodeError>((
                    wb@.binds.skip(binds0.len() as int) + bds,
                    (*pos - start) + k,
                )),
                Err(e) => Err::<(Seq<crate::ast::Bind>, int), DecodeError>(e),
            }),
        decreases n - i,
    {
        let ghost pos0 = *pos as int;
        let ghost done = wb@.binds.skip(binds0.len() as int);
        let ghost rest0 = s@.skip(pos0);
        match decode_bind(s, pos, wb, host) {
            Ok(()) => {
                proof {
                    let k1 = *pos - pos0;
                    assert(used_ok(k1, rest0));
                    assert(rest0.skip(k1) =~= s@.skip(*pos as int));
                    let bd = wb@.binds.last();
                    assert(wb@.binds.skip(binds0.len() as int) =~= done.push(bd));
                    assert(wb@.binds.take(binds0.len() as int) =~= binds0);
                    match dec_binds(s@.skip(*pos as int), (n - i - 1) as nat, nb, *host) {
                        Ok((bds, k2)) => {
                            assert(done + (seq![bd] + bds) =~= done.push(bd) + bds);
                        },
                        Err(e) => {},
                    }
                }
                i = i + 1;
            },
            Err(e) => {
                return Err(e);
            },
        }
    }
    proof {
        let done = wb@.binds.skip(binds0.len() as int);
        assert(done + Seq::<crate::ast::Bind>::empty() =~= done);
        assert(binds0 + done =~= wb@.binds);
    }
    Ok(())
}

/// Decodes a whole section against the host module's index spaces, yielding
/// a fresh container whose arena positions equal the wire indices. Bytes
/// after the second subsection are left untouched.
#[verifier::loop_isolation(false)]
#[verifier::rlimit(100)]
#[verifier::spinoff_prover]
pub fn decode(host: &HostIndices, data: &[u8]) -> (r: Result<
    crate::ast::WebidlBindings,
    DecodeError,
>)
    ensures
        match r {
            Ok(wb) => {
                &&& (dec_section(data@, *host) matches Ok((c, k)) && wb@.types.arena == c.0
                    && wb@.bindings.arena == c.1 && wb@.binds == c.2)
                &&& wb@.types.names.len() == 0
                &&& wb@.bindings.names.len() == 0
            },
            Err(e) => dec_section(data@, *host) == Err::<
                (
                    (
                        Seq<crate::ast::WebidlCompoundTypeV>,
                        Seq<crate::ast::FunctionBindingV>,
                        Seq<crate::ast::Bind>,
                    ),
                    int,
                ),
                DecodeError,
            >(e),
        },
{
    let mut wb = crate::ast::WebidlBindings::default();
    let mut pos: usize = 0;
    proof {
        assert(data@.skip(0) =~= data@);
    }
    if data.len() == 0 {
        return Err(DecodeError::UnexpectedEof);
    }
    if data[0] != 0 {
        return Err(DecodeError::BadTypeSubsection);
    }
    pos = 1;
    let ghost p1 = 1int;
    proof {
        lemma_skip_skip(data@, 0, 1);
    }
    let ntc = match read_uleb32(data, &mut pos) {
        Ok(v) => v,
        Err(e) => {
            return Err(e);
        },
    };
    let ghost p2 = pos as int;
    proof {
        assert(used_ok(p2 - p1, data@.skip(p1)));
        lemma_skip_skip(data@, p1, p2);
    }
    match decode_compounds(data, &mut pos, ntc, &mut wb) {
        Ok(()) => {},
        Err(e) => {
            return Err(e);
        },
    }
    let ghost p3 = pos as int;
    proof {
        assert(0 <= p3 - p2 <= data@.skip(p2).len());
        lemma_skip_skip(data@, p2, p3);
    }
    let ghost types = wb@.types.arena;

    // Function-bindings subsection.
    if pos == data.len() {
        return Err(DecodeError::UnexpectedEof);
    }
    if data[pos] != 1 {
        return Err(DecodeError::BadBindingSubsection);
    }
    pos = pos + 1;
    let ghost p4 = pos as int;
    proof {
        lemma_skip_skip(data@, p3, p4);
    }
    let nbc = match read_uleb32(data, &mut pos) {
        Ok(v) => v,
        Err(e) => {
            return Err(e);
        },
    };
    let ghost p5 = pos as int;
    proof {
        assert(used_ok(p5 - p4, data@.skip(p4)));
        lemma_skip_skip(data@, p4, p5);
    }
    match decode_bindings(data, &mut pos, nbc, &mut wb, host) {
        Ok(()) => {},
        Err(e) => {
            return Err(e);
        },
    }
    let ghost p6 = pos as int;
    proof {
        assert(0 <= p6 - p5 <= data@.skip(p5).len());
        lemma_skip_skip(data@, p5, p6);
    }
    let nbd = match read_uleb32(data, &mut pos) {
        Ok(v) => v,
        Err(e) => {
            return Err(e);
        },
    };
    let ghost p7 = pos as int;
    proof {
        assert(used_ok(p7 - p6, data@.skip(p6)));
        lemma_skip_skip(data@, p6, p7);
    }
    match decode_binds(data, &mut pos, nbd, &mut wb, host) {
        Ok(()) => {},
        Err(e) => {
            return Err(e);
        },
    }
    Ok(wb)
}

} // verus!
