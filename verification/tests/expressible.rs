use wasm_webidl_bindings::ast::ExportBinding;
use wasm_webidl_bindings::ast::FunctionBinding;
use wasm_webidl_bindings::ast::ImportBinding;
use wasm_webidl_bindings::ast::IncomingBindingExpression;
use wasm_webidl_bindings::ast::IncomingBindingExpressionAllocUtf8Str;
use wasm_webidl_bindings::ast::IncomingBindingExpressionAs;
use wasm_webidl_bindings::ast::IncomingBindingExpressionGet;
use wasm_webidl_bindings::ast::IncomingBindingMap;
use wasm_webidl_bindings::ast::OutgoingBindingExpression;
use wasm_webidl_bindings::ast::OutgoingBindingExpressionAs;
use wasm_webidl_bindings::ast::OutgoingBindingExpressionCopy;
use wasm_webidl_bindings::ast::OutgoingBindingExpressionUtf8Str;
use wasm_webidl_bindings::ast::OutgoingBindingMap;
use wasm_webidl_bindings::ast::WasmFuncType;
use wasm_webidl_bindings::ast::WasmValType;
use wasm_webidl_bindings::ast::WebidlBindings;
use wasm_webidl_bindings::ast::WebidlCompoundType;
use wasm_webidl_bindings::ast::WebidlFunction;
use wasm_webidl_bindings::ast::WebidlFunctionKind;
use wasm_webidl_bindings::ast::WebidlFunctionKindMethod;
use wasm_webidl_bindings::ast::WebidlScalarType;
use wasm_webidl_bindings::ast::WebidlTypeRef;

fn scalar(s: WebidlScalarType) -> WebidlTypeRef {
    WebidlTypeRef::Scalar(s)
}

fn as_out(ty: WebidlTypeRef, idx: u32) -> OutgoingBindingExpression {
    OutgoingBindingExpression::As(OutgoingBindingExpressionAs { ty, idx })
}

fn as_get_in(ty: WasmValType, idx: u32) -> IncomingBindingExpression {
    IncomingBindingExpression::As(IncomingBindingExpressionAs {
        ty,
        expr: Box::new(IncomingBindingExpression::Get(IncomingBindingExpressionGet { idx })),
    })
}

fn webidl_scalars() -> Vec<WebidlTypeRef> {
    vec![
        scalar(WebidlScalarType::Any),
        scalar(WebidlScalarType::Boolean),
        scalar(WebidlScalarType::Byte),
        scalar(WebidlScalarType::Octet),
        scalar(WebidlScalarType::Long),
        scalar(WebidlScalarType::UnsignedLong),
        scalar(WebidlScalarType::Short),
        scalar(WebidlScalarType::UnsignedShort),
        scalar(WebidlScalarType::LongLong),
        scalar(WebidlScalarType::UnsignedLongLong),
        scalar(WebidlScalarType::Float),
        scalar(WebidlScalarType::UnrestrictedFloat),
        scalar(WebidlScalarType::Double),
        scalar(WebidlScalarType::UnrestrictedDouble),
        scalar(WebidlScalarType::DomString),
        scalar(WebidlScalarType::ByteString),
        scalar(WebidlScalarType::UsvString),
        scalar(WebidlScalarType::Object),
        scalar(WebidlScalarType::Symbol),
        scalar(WebidlScalarType::ArrayBuffer),
        scalar(WebidlScalarType::DataView),
        scalar(WebidlScalarType::Int8Array),
        scalar(WebidlScalarType::Int16Array),
        scalar(WebidlScalarType::Int32Array),
        scalar(WebidlScalarType::Uint8Array),
        scalar(WebidlScalarType::Uint16Array),
        scalar(WebidlScalarType::Uint32Array),
        scalar(WebidlScalarType::Uint8ClampedArray),
        scalar(WebidlScalarType::Float32Array),
        scalar(WebidlScalarType::Float64Array),
    ]
}

fn wasm_valtypes() -> Vec<WasmValType> {
    vec![
        WasmValType::I32,
        WasmValType::I64,
        WasmValType::F32,
        WasmValType::F64,
        WasmValType::V128,
        WasmValType::Anyref,
    ]
}

#[test]
fn imports_expressible_without_webidl_bindings() {
    let wasm_ty = WasmFuncType { params: vec![WasmValType::I32], results: vec![WasmValType::I32] };

    let mut wb = WebidlBindings::default();

    let webidl_ty = wb.types.insert(WebidlCompoundType::Function(WebidlFunction {
        kind: WebidlFunctionKind::Static,
        params: vec![scalar(WebidlScalarType::Long)],
        result: Some(scalar(WebidlScalarType::Long)),
    }));

    let binding = wb.bindings.insert(FunctionBinding::Import(ImportBinding {
        wasm_ty: wasm_webidl_bindings::ast::WasmFuncTypeRef(0),
        webidl_ty: WebidlTypeRef::Id(webidl_ty),
        params: OutgoingBindingMap { bindings: vec![as_out(scalar(WebidlScalarType::Long), 0)] },
        result: IncomingBindingMap { bindings: vec![as_get_in(WasmValType::I32, 0)] },
    }));

    let binding: &FunctionBinding = wb.bindings.get(binding).unwrap();
    assert!(binding.is_expressible_in_js_without_webidl_bindings(&wasm_ty, &wb));
}

#[test]
fn imports_not_expressible_without_webidl_bindings() {
    let wasm_ty = WasmFuncType {
        params: vec![WasmValType::I32, WasmValType::I32],
        results: vec![WasmValType::I32],
    };

    let mut wb = WebidlBindings::default();

    let webidl_ty = wb.types.insert(WebidlCompoundType::Function(WebidlFunction {
        kind: WebidlFunctionKind::Static,
        params: vec![scalar(WebidlScalarType::DomString)],
        result: Some(scalar(WebidlScalarType::Long)),
    }));

    let binding = wb.bindings.insert(FunctionBinding::Import(ImportBinding {
        wasm_ty: wasm_webidl_bindings::ast::WasmFuncTypeRef(0),
        webidl_ty: WebidlTypeRef::Id(webidl_ty),
        params: OutgoingBindingMap {
            bindings: vec![OutgoingBindingExpression::Utf8Str(OutgoingBindingExpressionUtf8Str {
                ty: scalar(WebidlScalarType::DomString),
                offset: 0,
                length: 1,
            })],
        },
        result: IncomingBindingMap { bindings: vec![as_get_in(WasmValType::I32, 0)] },
    }));

    let binding: &FunctionBinding = wb.bindings.get(binding).unwrap();
    assert!(!binding.is_expressible_in_js_without_webidl_bindings(&wasm_ty, &wb));
}

#[test]
fn imports_function_kind_not_expressible_without_webidl_bindings() {
    let wasm_ty = WasmFuncType { params: vec![WasmValType::Anyref], results: vec![] };

    let mut wb = WebidlBindings::default();

    let webidl_ty = wb.types.insert(WebidlCompoundType::Function(WebidlFunction {
        kind: WebidlFunctionKind::Method(WebidlFunctionKindMethod {
            ty: scalar(WebidlScalarType::Any),
        }),
        params: vec![],
        result: None,
    }));

    let binding = wb.bindings.insert(FunctionBinding::Import(ImportBinding {
        wasm_ty: wasm_webidl_bindings::ast::WasmFuncTypeRef(0),
        webidl_ty: WebidlTypeRef::Id(webidl_ty),
        params: OutgoingBindingMap { bindings: vec![as_out(scalar(WebidlScalarType::Any), 0)] },
        result: IncomingBindingMap { bindings: vec![] },
    }));

    let binding: &FunctionBinding = wb.bindings.get(binding).unwrap();
    assert!(!binding.is_expressible_in_js_without_webidl_bindings(&wasm_ty, &wb));
}

#[test]
fn exports_expressible_without_webidl_bindings() {
    let wasm_ty = WasmFuncType { params: vec![WasmValType::I32], results: vec![WasmValType::I32] };

    let mut wb = WebidlBindings::default();

    let webidl_ty = wb.types.insert(WebidlCompoundType::Function(WebidlFunction {
        kind: WebidlFunctionKind::Static,
        params: vec![scalar(WebidlScalarType::Long)],
        result: Some(scalar(WebidlScalarType::Long)),
    }));

    let binding = wb.bindings.insert(FunctionBinding::Export(ExportBinding {
        wasm_ty: wasm_webidl_bindings::ast::WasmFuncTypeRef(0),
        webidl_ty: WebidlTypeRef::Id(webidl_ty),
        params: IncomingBindingMap { bindings: vec![as_get_in(WasmValType::I32, 0)] },
        result: OutgoingBindingMap { bindings: vec![as_out(scalar(WebidlScalarType::Long), 0)] },
    }));

    let binding: &FunctionBinding = wb.bindings.get(binding).unwrap();
    assert!(binding.is_expressible_in_js_without_webidl_bindings(&wasm_ty, &wb));
}

#[test]
fn exports_not_expressible_without_webidl_bindings() {
    let wasm_ty = WasmFuncType {
        params: vec![WasmValType::I32, WasmValType::I32],
        results: vec![WasmValType::I32],
    };

    let mut wb = WebidlBindings::default();

    let webidl_ty = wb.types.insert(WebidlCompoundType::Function(WebidlFunction {
        kind: WebidlFunctionKind::Static,
        params: vec![scalar(WebidlScalarType::DomString)],
        result: Some(scalar(WebidlScalarType::Long)),
    }));

    let binding = wb.bindings.insert(FunctionBinding::Export(ExportBinding {
        wasm_ty: wasm_webidl_bindings::ast::WasmFuncTypeRef(0),
        webidl_ty: WebidlTypeRef::Id(webidl_ty),
        params: IncomingBindingMap {
            bindings: vec![IncomingBindingExpression::AllocUtf8Str(
                IncomingBindingExpressionAllocUtf8Str {
                    alloc_func_name: b"malloc".to_vec(),
                    expr: Box::new(IncomingBindingExpression::Get(IncomingBindingExpressionGet {
                        idx: 0,
                    })),
                },
            )],
        },
        result: OutgoingBindingMap { bindings: vec![as_out(scalar(WebidlScalarType::Long), 0)] },
    }));

    let binding: &FunctionBinding = wb.bindings.get(binding).unwrap();
    assert!(!binding.is_expressible_in_js_without_webidl_bindings(&wasm_ty, &wb));
}

#[test]
fn exports_function_kind_not_expressible_without_webidl_bindings() {
    let wasm_ty = WasmFuncType { params: vec![WasmValType::Anyref], results: vec![] };

    let mut wb = WebidlBindings::default();

    let webidl_ty = wb.types.insert(WebidlCompoundType::Function(WebidlFunction {
        kind: WebidlFunctionKind::Method(WebidlFunctionKindMethod {
            ty: scalar(WebidlScalarType::Any),
        }),
        params: vec![],
        result: None,
    }));

    let binding = wb.bindings.insert(FunctionBinding::Export(ExportBinding {
        wasm_ty: wasm_webidl_bindings::ast::WasmFuncTypeRef(0),
        webidl_ty: WebidlTypeRef::Id(webidl_ty),
        params: IncomingBindingMap { bindings: vec![as_get_in(WasmValType::Anyref, 0)] },
        result: OutgoingBindingMap { bindings: vec![] },
    }));

    let binding: &FunctionBinding = wb.bindings.get(binding).unwrap();
    assert!(!binding.is_expressible_in_js_without_webidl_bindings(&wasm_ty, &wb));
}

#[test]
fn incoming_empty_trivially_expressible_without_webidl_bindings() {
    let map = IncomingBindingMap { bindings: vec![] };
    assert!(map.is_expressible_in_js_without_webidl_bindings(&[], &[]));
}

#[test]
fn incoming_arity_not_expressible_without_webidl_bindings() {
    let map = IncomingBindingMap { bindings: vec![as_get_in(WasmValType::I32, 0)] };

    // Too many WebIDL types.
    assert!(!map.is_expressible_in_js_without_webidl_bindings(
        &[scalar(WebidlScalarType::Long), scalar(WebidlScalarType::Long)],
        &[WasmValType::I32],
    ));

    // Not enough WebIDL types.
    assert!(!map.is_expressible_in_js_without_webidl_bindings(&[], &[WasmValType::I32]));

    // Too many wasm valtypes.
    assert!(!map.is_expressible_in_js_without_webidl_bindings(
        &[scalar(WebidlScalarType::Long)],
        &[WasmValType::I32, WasmValType::I32],
    ));

    // Not enough wasm valtypes.
    assert!(!map.is_expressible_in_js_without_webidl_bindings(
        &[scalar(WebidlScalarType::Long)],
        &[],
    ));
}

#[test]
fn incoming_usage_order_not_expressible_without_webidl_bindings() {
    // Attempts to use param at index 1 before param at index 0.
    let map = IncomingBindingMap {
        bindings: vec![as_get_in(WasmValType::I32, 1), as_get_in(WasmValType::I32, 0)],
    };

    // And therefore, is not expressible even though arity and types work out.
    assert!(!map.is_expressible_in_js_without_webidl_bindings(
        &[scalar(WebidlScalarType::Long), scalar(WebidlScalarType::Long)],
        &[WasmValType::I32, WasmValType::I32],
    ));
}

#[test]
fn incoming_binding_operator_not_expressible_without_webidl_bindings() {
    let map = IncomingBindingMap {
        bindings: vec![IncomingBindingExpression::AllocUtf8Str(
            IncomingBindingExpressionAllocUtf8Str {
                alloc_func_name: b"malloc".to_vec(),
                expr: Box::new(IncomingBindingExpression::Get(IncomingBindingExpressionGet {
                    idx: 0,
                })),
            },
        )],
    };
    assert!(!map.is_expressible_in_js_without_webidl_bindings(
        &[scalar(WebidlScalarType::DomString)],
        &[WasmValType::I32, WasmValType::I32],
    ));
}

#[test]
fn outgoing_empty_trivially_expressible_without_webidl_bindings() {
    let map = OutgoingBindingMap { bindings: vec![] };
    assert!(map.is_expressible_in_js_without_webidl_bindings(&[], &[]));
}

#[test]
fn outgoing_arity_not_expressible_without_webidl_bindings() {
    let map = OutgoingBindingMap { bindings: vec![as_out(scalar(WebidlScalarType::Long), 0)] };

    // Too many WebIDL types.
    assert!(!map.is_expressible_in_js_without_webidl_bindings(
        &[WasmValType::I32],
        &[scalar(WebidlScalarType::Long), scalar(WebidlScalarType::Long)],
    ));

    // Not enough WebIDL types.
    assert!(!map.is_expressible_in_js_without_webidl_bindings(&[WasmValType::I32], &[]));

    // Too many wasm valtypes.
    assert!(!map.is_expressible_in_js_without_webidl_bindings(
        &[WasmValType::I32, WasmValType::I32],
        &[scalar(WebidlScalarType::Long)],
    ));

    // Not enough wasm valtypes.
    assert!(!map.is_expressible_in_js_without_webidl_bindings(
        &[],
        &[scalar(WebidlScalarType::Long)],
    ));
}

#[test]
fn outgoing_usage_order_not_expressible_without_webidl_bindings() {
    // Attempts to use param at index 1 before param at index 0.
    let map = OutgoingBindingMap {
        bindings: vec![
            as_out(scalar(WebidlScalarType::Long), 1),
            as_out(scalar(WebidlScalarType::Long), 0),
        ],
    };

    // And therefore, is not expressible even though arity and types work out.
    assert!(!map.is_expressible_in_js_without_webidl_bindings(
        &[WasmValType::I32, WasmValType::I32],
        &[scalar(WebidlScalarType::Long), scalar(WebidlScalarType::Long)],
    ));
}

#[test]
fn outgoing_binding_operator_not_expressible_without_webidl_bindings() {
    let map = OutgoingBindingMap {
        bindings: vec![OutgoingBindingExpression::Utf8Str(OutgoingBindingExpressionUtf8Str {
            ty: scalar(WebidlScalarType::DomString),
            offset: 0,
            length: 1,
        })],
    };
    assert!(!map.is_expressible_in_js_without_webidl_bindings(
        &[WasmValType::I32, WasmValType::I32],
        &[scalar(WebidlScalarType::DomString)],
    ));
}

#[test]
fn check_whether_all_outgoing_types_expressible_without_webidl_bindings() {
    for to in webidl_scalars() {
        let map = OutgoingBindingMap { bindings: vec![as_out(to, 0)] };
        for from in wasm_valtypes() {
            let _ = map.is_expressible_in_js_without_webidl_bindings(&[from], &[to]);
        }
    }
}

#[test]
fn check_whether_all_incoming_types_expressible_without_webidl_bindings() {
    for to in wasm_valtypes() {
        let map = IncomingBindingMap { bindings: vec![as_get_in(to, 0)] };
        for from in webidl_scalars() {
            let _ = map.is_expressible_in_js_without_webidl_bindings(&[from], &[to]);
        }
    }
}

// An import over a two-parameter, one-result static WebIDL function whose
// parameters are `as` of matching scalars in order and whose result is `as`
// of the matching value type over `get 0` is expressible; replacing one
// parameter with a copy operator makes it inexpressible.
#[test]
fn two_param_import_expressible_until_copy_operator() {
    let wasm_ty = WasmFuncType {
        params: vec![WasmValType::I32, WasmValType::F64],
        results: vec![WasmValType::I32],
    };

    let mut wb = WebidlBindings::default();
    let webidl_ty = wb.types.insert(WebidlCompoundType::Function(WebidlFunction {
        kind: WebidlFunctionKind::Static,
        params: vec![scalar(WebidlScalarType::Long), scalar(WebidlScalarType::Double)],
        result: Some(scalar(WebidlScalarType::Long)),
    }));

    let binding = wb.bindings.insert(FunctionBinding::Import(ImportBinding {
        wasm_ty: wasm_webidl_bindings::ast::WasmFuncTypeRef(0),
        webidl_ty: WebidlTypeRef::Id(webidl_ty),
        params: OutgoingBindingMap {
            bindings: vec![
                as_out(scalar(WebidlScalarType::Long), 0),
                as_out(scalar(WebidlScalarType::Double), 1),
            ],
        },
        result: IncomingBindingMap { bindings: vec![as_get_in(WasmValType::I32, 0)] },
    }));
    let binding_ref: &FunctionBinding = wb.bindings.get(binding).unwrap();
    assert!(binding_ref.is_expressible_in_js_without_webidl_bindings(&wasm_ty, &wb));

    let copied = wb.bindings.insert(FunctionBinding::Import(ImportBinding {
        wasm_ty: wasm_webidl_bindings::ast::WasmFuncTypeRef(0),
        webidl_ty: WebidlTypeRef::Id(webidl_ty),
        params: OutgoingBindingMap {
            bindings: vec![
                as_out(scalar(WebidlScalarType::Long), 0),
                OutgoingBindingExpression::Copy(OutgoingBindingExpressionCopy {
                    ty: scalar(WebidlScalarType::Double),
                    offset: 1,
                    length: 1,
                }),
            ],
        },
        result: IncomingBindingMap { bindings: vec![as_get_in(WasmValType::I32, 0)] },
    }));
    let copied: &FunctionBinding = wb.bindings.get(copied).unwrap();
    assert!(!copied.is_expressible_in_js_without_webidl_bindings(&wasm_ty, &wb));
}
