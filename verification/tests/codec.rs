use wasm_webidl_bindings::ast::Bind;
use wasm_webidl_bindings::ast::ExportBinding;
use wasm_webidl_bindings::ast::FunctionBinding;
use wasm_webidl_bindings::ast::FunctionBindingId;
use wasm_webidl_bindings::ast::HostIndices;
use wasm_webidl_bindings::ast::ImportBinding;
use wasm_webidl_bindings::ast::IncomingBindingExpression;
use wasm_webidl_bindings::ast::IncomingBindingExpressionAllocCopy;
use wasm_webidl_bindings::ast::IncomingBindingExpressionAllocUtf8Str;
use wasm_webidl_bindings::ast::IncomingBindingExpressionAs;
use wasm_webidl_bindings::ast::IncomingBindingExpressionBindImport;
use wasm_webidl_bindings::ast::IncomingBindingExpressionEnumToI32;
use wasm_webidl_bindings::ast::IncomingBindingExpressionField;
use wasm_webidl_bindings::ast::IncomingBindingExpressionGet;
use wasm_webidl_bindings::ast::IncomingBindingMap;
use wasm_webidl_bindings::ast::OutgoingBindingExpression;
use wasm_webidl_bindings::ast::OutgoingBindingExpressionAs;
use wasm_webidl_bindings::ast::OutgoingBindingExpressionBindExport;
use wasm_webidl_bindings::ast::OutgoingBindingExpressionCopy;
use wasm_webidl_bindings::ast::OutgoingBindingExpressionDict;
use wasm_webidl_bindings::ast::OutgoingBindingExpressionI32ToEnum;
use wasm_webidl_bindings::ast::OutgoingBindingExpressionUtf8CStr;
use wasm_webidl_bindings::ast::OutgoingBindingExpressionUtf8Str;
use wasm_webidl_bindings::ast::OutgoingBindingExpressionView;
use wasm_webidl_bindings::ast::OutgoingBindingMap;
use wasm_webidl_bindings::ast::WasmFuncRef;
use wasm_webidl_bindings::ast::WasmFuncTypeRef;
use wasm_webidl_bindings::ast::WasmValType;
use wasm_webidl_bindings::ast::WebidlBindings;
use wasm_webidl_bindings::ast::WebidlCompoundType;
use wasm_webidl_bindings::ast::WebidlDictionary;
use wasm_webidl_bindings::ast::WebidlDictionaryField;
use wasm_webidl_bindings::ast::WebidlEnumeration;
use wasm_webidl_bindings::ast::WebidlFunction;
use wasm_webidl_bindings::ast::WebidlFunctionKind;
use wasm_webidl_bindings::ast::WebidlFunctionKindMethod;
use wasm_webidl_bindings::ast::WebidlScalarType;
use wasm_webidl_bindings::ast::WebidlTypeRef;
use wasm_webidl_bindings::ast::WebidlUnion;
use wasm_webidl_bindings::binary::decode;
use wasm_webidl_bindings::binary::encode;
use wasm_webidl_bindings::binary::error::DecodeError;
use wasm_webidl_bindings::binary::is_encodable;

fn host(funcs: u32, types: u32) -> HostIndices {
    HostIndices { func_count: funcs, func_type_count: types }
}

fn scalar(s: WebidlScalarType) -> WebidlTypeRef {
    WebidlTypeRef::Scalar(s)
}

fn all_scalars() -> Vec<WebidlScalarType> {
    vec![
        WebidlScalarType::Any,
        WebidlScalarType::Boolean,
        WebidlScalarType::Byte,
        WebidlScalarType::Octet,
        WebidlScalarType::Long,
        WebidlScalarType::UnsignedLong,
        WebidlScalarType::Short,
        WebidlScalarType::UnsignedShort,
        WebidlScalarType::LongLong,
        WebidlScalarType::UnsignedLongLong,
        WebidlScalarType::Float,
        WebidlScalarType::UnrestrictedFloat,
        WebidlScalarType::Double,
        WebidlScalarType::UnrestrictedDouble,
        WebidlScalarType::DomString,
        WebidlScalarType::ByteString,
        WebidlScalarType::UsvString,
        WebidlScalarType::Object,
        WebidlScalarType::Symbol,
        WebidlScalarType::ArrayBuffer,
        WebidlScalarType::DataView,
        WebidlScalarType::Int8Array,
        WebidlScalarType::Int16Array,
        WebidlScalarType::Int32Array,
        WebidlScalarType::Uint8Array,
        WebidlScalarType::Uint16Array,
        WebidlScalarType::Uint32Array,
        WebidlScalarType::Uint8ClampedArray,
        WebidlScalarType::Float32Array,
        WebidlScalarType::Float64Array,
    ]
}

#[test]
fn empty_container_encodes_to_fixed_bytes() {
    let wb = WebidlBindings::default();
    assert!(is_encodable(&wb));
    let mut out: Vec<u8> = Vec::new();
    encode(&wb, &mut out);
    assert_eq!(out, vec![0x00, 0x00, 0x01, 0x00, 0x00]);
}

#[test]
fn empty_container_decodes_from_fixed_bytes() {
    // A type subsection with zero types, then a function-bindings subsection
    // with zero bindings and zero binds, is the fully empty container.
    let wb = decode(&host(0, 0), &[0x00, 0x00, 0x01, 0x00, 0x00]).unwrap();
    assert_eq!(wb, WebidlBindings::default());
    // The type subsection alone is not a whole section.
    assert_eq!(
        decode(&host(0, 0), &[0x00, 0x00]),
        Err(DecodeError::UnexpectedEof)
    );
}

#[test]
fn enumeration_type_encodes_byte_exactly() {
    let mut wb = WebidlBindings::default();
    wb.types.insert(WebidlCompoundType::Enumeration(WebidlEnumeration {
        values: vec![b"hi".to_vec(), b"bye".to_vec()],
    }));
    let mut out: Vec<u8> = Vec::new();
    encode(&wb, &mut out);
    assert_eq!(
        out,
        vec![
            0x00, // type subsection
            1,    // one type
            2,    // enumeration
            2,    // two values
            2, 104, 105, // "hi"
            3, 98, 121, 101, // "bye"
            0x01, // bindings subsection
            0,    // no bindings
            0,    // no binds
        ]
    );
}

#[test]
fn scalar_type_references_encode_byte_exactly() {
    // One static function type (param USVString, param Uint8Array, no
    // result): scalars carry their fixed negative codes.
    let mut wb = WebidlBindings::default();
    wb.types.insert(WebidlCompoundType::Function(WebidlFunction {
        kind: WebidlFunctionKind::Static,
        params: vec![scalar(WebidlScalarType::UsvString), scalar(WebidlScalarType::Uint8Array)],
        result: None,
    }));
    let mut out: Vec<u8> = Vec::new();
    encode(&wb, &mut out);
    assert_eq!(
        out,
        vec![
            0x00, // type subsection
            1,    // one type
            0,    // function
            0,    // static kind
            2, 111, 103, // two params: USVString, Uint8Array
            0,    // no result
            0x01, 0, 0,
        ]
    );
}

// Every scalar tag decodes back to itself, and a compound position decodes
// to the handle at that position.
#[test]
fn scalar_tags_round_trip() {
    for sc in all_scalars() {
        let mut wb = WebidlBindings::default();
        wb.types.insert(WebidlCompoundType::Union(WebidlUnion { members: vec![scalar(sc)] }));
        let mut out: Vec<u8> = Vec::new();
        encode(&wb, &mut out);
        let back = decode(&host(0, 0), &out).unwrap();
        assert_eq!(back, wb);
    }
}

#[test]
fn compound_position_round_trips() {
    let mut wb = WebidlBindings::default();
    let first = wb.types.insert(WebidlCompoundType::Enumeration(WebidlEnumeration {
        values: vec![],
    }));
    wb.types.insert(WebidlCompoundType::Union(WebidlUnion {
        members: vec![WebidlTypeRef::Id(first)],
    }));
    let mut out: Vec<u8> = Vec::new();
    encode(&wb, &mut out);
    let back = decode(&host(0, 0), &out).unwrap();
    assert_eq!(back, wb);
    match back.types.get(back.types.by_index(1).unwrap()).unwrap() {
        WebidlCompoundType::Union(u) => {
            assert_eq!(u.members, vec![WebidlTypeRef::Id(first)]);
        },
        other => panic!("expected a union, found {:?}", other),
    }
}

/// A container exercising all four compound kinds, both binding kinds,
/// every expression kind, and a bind.
fn kitchen_sink() -> WebidlBindings {
    let mut wb = WebidlBindings::default();

    let dict = wb.types.insert(WebidlCompoundType::Dictionary(WebidlDictionary {
        fields: vec![
            WebidlDictionaryField {
                name: b"read".to_vec(),
                ty: scalar(WebidlScalarType::UnsignedLongLong),
            },
            WebidlDictionaryField {
                name: b"written".to_vec(),
                ty: scalar(WebidlScalarType::UnsignedLongLong),
            },
        ],
    }));
    let en = wb.types.insert(WebidlCompoundType::Enumeration(WebidlEnumeration {
        values: vec![b"utf-8".to_vec(), b"utf-16".to_vec()],
    }));
    let un = wb.types.insert(WebidlCompoundType::Union(WebidlUnion {
        members: vec![WebidlTypeRef::Id(dict), scalar(WebidlScalarType::Long)],
    }));
    let func = wb.types.insert(WebidlCompoundType::Function(WebidlFunction {
        kind: WebidlFunctionKind::Method(WebidlFunctionKindMethod {
            ty: scalar(WebidlScalarType::Any),
        }),
        params: vec![scalar(WebidlScalarType::UsvString), WebidlTypeRef::Id(un)],
        result: Some(WebidlTypeRef::Id(dict)),
    }));

    let imp = wb.bindings.insert(FunctionBinding::Import(ImportBinding {
        wasm_ty: WasmFuncTypeRef(0),
        webidl_ty: WebidlTypeRef::Id(func),
        params: OutgoingBindingMap {
            bindings: vec![
                OutgoingBindingExpression::As(OutgoingBindingExpressionAs {
                    ty: scalar(WebidlScalarType::Any),
                    idx: 0,
                }),
                OutgoingBindingExpression::Utf8Str(OutgoingBindingExpressionUtf8Str {
                    ty: scalar(WebidlScalarType::DomString),
                    offset: 1,
                    length: 2,
                }),
                OutgoingBindingExpression::Utf8CStr(OutgoingBindingExpressionUtf8CStr {
                    ty: scalar(WebidlScalarType::DomString),
                    offset: 3,
                }),
                OutgoingBindingExpression::I32ToEnum(OutgoingBindingExpressionI32ToEnum {
                    ty: WebidlTypeRef::Id(en),
                    idx: 4,
                }),
                OutgoingBindingExpression::View(OutgoingBindingExpressionView {
                    ty: scalar(WebidlScalarType::Uint8Array),
                    offset: 5,
                    length: 6,
                }),
                OutgoingBindingExpression::Copy(OutgoingBindingExpressionCopy {
                    ty: scalar(WebidlScalarType::Uint8Array),
                    offset: 7,
                    length: 8,
                }),
            ],
        },
        result: IncomingBindingMap {
            bindings: vec![IncomingBindingExpression::As(IncomingBindingExpressionAs {
                ty: WasmValType::I64,
                expr: Box::new(IncomingBindingExpression::Field(IncomingBindingExpressionField {
                    idx: 0,
                    expr: Box::new(IncomingBindingExpression::Get(IncomingBindingExpressionGet {
                        idx: 0,
                    })),
                })),
            })],
        },
    }));

    wb.bindings.insert(FunctionBinding::Export(ExportBinding {
        wasm_ty: WasmFuncTypeRef(1),
        webidl_ty: WebidlTypeRef::Id(func),
        params: IncomingBindingMap {
            bindings: vec![
                IncomingBindingExpression::AllocUtf8Str(IncomingBindingExpressionAllocUtf8Str {
                    alloc_func_name: b"malloc".to_vec(),
                    expr: Box::new(IncomingBindingExpression::Get(IncomingBindingExpressionGet {
                        idx: 0,
                    })),
                }),
                IncomingBindingExpression::AllocCopy(IncomingBindingExpressionAllocCopy {
                    alloc_func_name: b"malloc".to_vec(),
                    expr: Box::new(IncomingBindingExpression::Get(IncomingBindingExpressionGet {
                        idx: 1,
                    })),
                }),
                IncomingBindingExpression::EnumToI32(IncomingBindingExpressionEnumToI32 {
                    ty: WebidlTypeRef::Id(en),
                    expr: Box::new(IncomingBindingExpression::Get(IncomingBindingExpressionGet {
                        idx: 2,
                    })),
                }),
                IncomingBindingExpression::BindImport(IncomingBindingExpressionBindImport {
                    ty: WasmFuncTypeRef(0),
                    binding: imp,
                    expr: Box::new(IncomingBindingExpression::Get(IncomingBindingExpressionGet {
                        idx: 3,
                    })),
                }),
            ],
        },
        result: OutgoingBindingMap {
            bindings: vec![
                OutgoingBindingExpression::Dict(OutgoingBindingExpressionDict {
                    ty: WebidlTypeRef::Id(dict),
                    fields: vec![
                        OutgoingBindingExpression::As(OutgoingBindingExpressionAs {
                            ty: scalar(WebidlScalarType::Any),
                            idx: 0,
                        }),
                    ],
                }),
                OutgoingBindingExpression::BindExport(OutgoingBindingExpressionBindExport {
                    ty: scalar(WebidlScalarType::Any),
                    binding: imp,
                    idx: 1,
                }),
            ],
        },
    }));

    wb.binds.insert(Bind { func: WasmFuncRef(2), binding: imp });
    wb
}

// Round trip: a container built purely from index-based references decodes
// from its own encoding, field for field, arena position order included.
#[test]
fn encode_decode_round_trips_every_construct() {
    let wb = kitchen_sink();
    assert!(is_encodable(&wb));
    let mut out: Vec<u8> = Vec::new();
    encode(&wb, &mut out);
    let back = decode(&host(3, 2), &out).unwrap();
    assert_eq!(back, wb);

    // Encoding what was decoded gives the same bytes again.
    let mut out2: Vec<u8> = Vec::new();
    encode(&back, &mut out2);
    assert_eq!(out, out2);
}

#[test]
fn valid_compound_discriminants_decode() {
    // Function, dictionary, enumeration, union: one minimal record of each.
    let data = [
        0x00, // type subsection
        4,    // four types
        0, 0, 0, 0, // static function, no params, no result
        1, 0, // dictionary, no fields
        2, 0, // enumeration, no values
        3, 0, // union, no members
        0x01, 0, 0,
    ];
    let wb = decode(&host(0, 0), &data).unwrap();
    assert_eq!(wb.types.len(), 4);
    assert!(matches!(
        wb.types.get(wb.types.by_index(0).unwrap()).unwrap(),
        WebidlCompoundType::Function(_)
    ));
    assert!(matches!(
        wb.types.get(wb.types.by_index(1).unwrap()).unwrap(),
        WebidlCompoundType::Dictionary(_)
    ));
    assert!(matches!(
        wb.types.get(wb.types.by_index(2).unwrap()).unwrap(),
        WebidlCompoundType::Enumeration(_)
    ));
    assert!(matches!(
        wb.types.get(wb.types.by_index(3).unwrap()).unwrap(),
        WebidlCompoundType::Union(_)
    ));
}

#[test]
fn invalid_compound_discriminant_rejected() {
    let data = [0x00, 1, 4, 0x01, 0, 0];
    assert_eq!(
        decode(&host(0, 0), &data),
        Err(DecodeError::BadCompoundTypeDiscriminant)
    );
}

#[test]
fn valid_binding_discriminants_decode() {
    // One import and one export, each over scalar `any`, with empty maps.
    let data = [
        0x00, 0, // no types
        0x01, 2, // two bindings
        0, 0, 0x7f, 0, 0, // import: type 0, any, no params, no results
        1, 0, 0x7f, 0, 0, // export: type 0, any, no params, no results
        0, // no binds
    ];
    let wb = decode(&host(0, 1), &data).unwrap();
    assert_eq!(wb.bindings.len(), 2);
    assert!(matches!(
        wb.bindings.get(wb.bindings.by_index(0).unwrap()).unwrap(),
        FunctionBinding::Import(_)
    ));
    assert!(matches!(
        wb.bindings.get(wb.bindings.by_index(1).unwrap()).unwrap(),
        FunctionBinding::Export(_)
    ));
}

#[test]
fn invalid_binding_discriminant_rejected() {
    let data = [0x00, 0, 0x01, 1, 2, 0, 0x7f, 0, 0, 0];
    assert_eq!(
        decode(&host(0, 1), &data),
        Err(DecodeError::BadFunctionBindingDiscriminant)
    );
}

#[test]
fn invalid_outgoing_expression_discriminant_rejected() {
    // An import whose params map holds one expression with discriminant 8.
    let data = [0x00, 0, 0x01, 1, 0, 0, 0x7f, 1, 8, 0, 0];
    assert_eq!(
        decode(&host(0, 1), &data),
        Err(DecodeError::BadOutgoingExpressionDiscriminant)
    );
}

#[test]
fn invalid_incoming_expression_discriminant_rejected() {
    // An import whose result map holds one expression with discriminant 7.
    let data = [0x00, 0, 0x01, 1, 0, 0, 0x7f, 0, 1, 7, 0];
    assert_eq!(
        decode(&host(0, 1), &data),
        Err(DecodeError::BadIncomingExpressionDiscriminant)
    );
}

#[test]
fn subsection_discriminants_are_checked() {
    assert_eq!(decode(&host(0, 0), &[0x02]), Err(DecodeError::BadTypeSubsection));
    assert_eq!(
        decode(&host(0, 0), &[0x00, 0, 0x02, 0, 0]),
        Err(DecodeError::BadBindingSubsection)
    );
}

#[test]
fn unresolved_references_are_rejected() {
    // A union whose member names compound position 0 before any type exists.
    assert_eq!(
        decode(&host(0, 0), &[0x00, 1, 3, 1, 0, 0x01, 0, 0]),
        Err(DecodeError::InvalidTypeIndex)
    );
    // A scalar code past the last one.
    assert_eq!(
        decode(&host(0, 0), &[0x00, 1, 3, 1, 0x61, 0x01, 0, 0]),
        Err(DecodeError::BadScalarCode)
    );
    // An import naming a host function type the module does not have.
    assert_eq!(
        decode(&host(0, 0), &[0x00, 0, 0x01, 1, 0, 0, 0x7f, 0, 0, 0]),
        Err(DecodeError::InvalidFuncTypeIndex)
    );
    // A bind naming a host function the module does not have.
    assert_eq!(
        decode(&host(0, 0), &[0x00, 0, 0x01, 0, 1, 0, 0]),
        Err(DecodeError::InvalidFuncIndex)
    );
    // A bind naming a binding that was never declared.
    assert_eq!(
        decode(&host(1, 0), &[0x00, 0, 0x01, 0, 1, 0, 0]),
        Err(DecodeError::InvalidBindingIndex)
    );
}

#[test]
fn option_discriminant_is_checked() {
    // A static function whose result flag is 2.
    assert_eq!(
        decode(&host(0, 0), &[0x00, 1, 0, 0, 0, 2, 0x01, 0, 0]),
        Err(DecodeError::BadOptionDiscriminant)
    );
}

#[test]
fn invalid_utf8_in_strings_is_rejected() {
    // An enumeration with one value holding a lone continuation byte.
    assert_eq!(
        decode(&host(0, 0), &[0x00, 1, 2, 1, 1, 0x80, 0x01, 0, 0]),
        Err(DecodeError::InvalidUtf8)
    );
}

#[test]
fn truncated_streams_are_rejected() {
    assert_eq!(decode(&host(0, 0), &[]), Err(DecodeError::UnexpectedEof));
    assert_eq!(decode(&host(0, 0), &[0x00]), Err(DecodeError::UnexpectedEof));
    assert_eq!(decode(&host(0, 0), &[0x00, 1, 2]), Err(DecodeError::UnexpectedEof));
    assert_eq!(
        decode(&host(0, 0), &[0x00, 0, 0x01, 0]),
        Err(DecodeError::UnexpectedEof)
    );
}

#[test]
fn trailing_bytes_are_ignored() {
    let wb = decode(&host(0, 0), &[0x00, 0x00, 0x01, 0x00, 0x00, 0xAA, 0xBB]).unwrap();
    assert_eq!(wb, WebidlBindings::default());
}

#[test]
fn bind_references_round_trip() {
    let mut wb = WebidlBindings::default();
    let func_ty = wb.types.insert(WebidlCompoundType::Function(WebidlFunction {
        kind: WebidlFunctionKind::Static,
        params: vec![],
        result: None,
    }));
    let b = wb.bindings.insert(FunctionBinding::Import(ImportBinding {
        wasm_ty: WasmFuncTypeRef(7),
        webidl_ty: WebidlTypeRef::Id(func_ty),
        params: OutgoingBindingMap { bindings: vec![] },
        result: IncomingBindingMap { bindings: vec![] },
    }));
    wb.binds.insert(Bind { func: WasmFuncRef(5), binding: b });
    let mut out: Vec<u8> = Vec::new();
    encode(&wb, &mut out);
    let back = decode(&host(6, 8), &out).unwrap();
    assert_eq!(back, wb);
    let bd = back.binds.get(back.binds.by_index(0).unwrap()).unwrap();
    assert_eq!(*bd, Bind { func: WasmFuncRef(5), binding: FunctionBindingId(0) });
}
