use wasm_webidl_bindings::ast::FunctionBinding;
use wasm_webidl_bindings::ast::ImportBinding;
use wasm_webidl_bindings::ast::IncomingBindingMap;
use wasm_webidl_bindings::ast::OutgoingBindingMap;
use wasm_webidl_bindings::ast::WasmFuncTypeRef;
use wasm_webidl_bindings::ast::WebidlBindings;
use wasm_webidl_bindings::ast::WebidlScalarType;
use wasm_webidl_bindings::ast::WebidlTypeRef;
use wasm_webidl_bindings::ast::WebidlCompoundType;
use wasm_webidl_bindings::ast::WebidlEnumeration;
use wasm_webidl_bindings::ast::WebidlUnion;
use wasm_webidl_bindings::binary::error::DecodeError;
use wasm_webidl_bindings::binary::leb::read_sleb32;
use wasm_webidl_bindings::binary::leb::read_uleb32;
use wasm_webidl_bindings::binary::leb::write_sleb32_nonneg;
use wasm_webidl_bindings::binary::leb::write_uleb32;
use wasm_webidl_bindings::utf8::validate_utf8;

fn uleb_samples() -> Vec<u32> {
    vec![0, 1, 63, 64, 127, 128, 129, 300, 16383, 16384, 1_000_000, u32::MAX - 1, u32::MAX]
}

#[test]
fn unsigned_leb_matches_reference_writer() {
    for v in uleb_samples() {
        let mut mine: Vec<u8> = Vec::new();
        write_uleb32(&mut mine, v);
        let mut theirs: Vec<u8> = Vec::new();
        leb128::write::unsigned(&mut theirs, v as u64).unwrap();
        assert_eq!(mine, theirs, "encoding of {}", v);
    }
}

#[test]
fn unsigned_leb_reads_back() {
    for v in uleb_samples() {
        let mut bytes: Vec<u8> = Vec::new();
        write_uleb32(&mut bytes, v);
        bytes.push(0xAA); // anything after the encoding is untouched
        let mut pos = 0usize;
        assert_eq!(read_uleb32(&bytes, &mut pos), Ok(v));
        assert_eq!(pos, bytes.len() - 1);
    }
}

#[test]
fn unsigned_leb_accepts_padded_forms() {
    // A redundant continuation byte is still the same value.
    let mut pos = 0usize;
    assert_eq!(read_uleb32(&[0x80, 0x00], &mut pos), Ok(0));
    assert_eq!(pos, 2);
    let mut pos = 0usize;
    assert_eq!(read_uleb32(&[0xFF, 0x00], &mut pos), Ok(127));
}

#[test]
fn unsigned_leb_rejects_oversized_values() {
    // 2^32 does not fit the 32-bit target.
    let mut bytes: Vec<u8> = Vec::new();
    leb128::write::unsigned(&mut bytes, 0x1_0000_0000u64).unwrap();
    let mut pos = 0usize;
    assert_eq!(read_uleb32(&bytes, &mut pos), Err(DecodeError::IntegerOverflow));
    // An unterminated encoding is a truncation.
    let mut pos = 0usize;
    assert_eq!(read_uleb32(&[0x80, 0x80], &mut pos), Err(DecodeError::UnexpectedEof));
    // Eleven continuation bytes overflow the 64-bit accumulator.
    let mut pos = 0usize;
    assert_eq!(
        read_uleb32(&[0x80; 11], &mut pos),
        Err(DecodeError::IntegerOverflow)
    );
}

#[test]
fn signed_leb_nonneg_matches_reference_writer() {
    for v in [0u32, 1, 63, 64, 127, 128, 8191, 8192, 1_000_000, i32::MAX as u32] {
        let mut mine: Vec<u8> = Vec::new();
        write_sleb32_nonneg(&mut mine, v);
        let mut theirs: Vec<u8> = Vec::new();
        leb128::write::signed(&mut theirs, v as i64).unwrap();
        assert_eq!(mine, theirs, "encoding of {}", v);
    }
}

#[test]
fn signed_leb_reads_reference_encodings() {
    for v in [0i64, 1, -1, -30, 63, 64, -64, -65, 8191, -8192, i32::MAX as i64, i32::MIN as i64] {
        let mut bytes: Vec<u8> = Vec::new();
        leb128::write::signed(&mut bytes, v).unwrap();
        let mut pos = 0usize;
        assert_eq!(read_sleb32(&bytes, &mut pos), Ok(v as i32), "decoding of {}", v);
        assert_eq!(pos, bytes.len());
    }
}

#[test]
fn signed_leb_rejects_out_of_range_values() {
    for v in [i32::MAX as i64 + 1, i32::MIN as i64 - 1, i64::MAX, i64::MIN] {
        let mut bytes: Vec<u8> = Vec::new();
        leb128::write::signed(&mut bytes, v).unwrap();
        let mut pos = 0usize;
        assert_eq!(
            read_sleb32(&bytes, &mut pos),
            Err(DecodeError::IntegerOverflow),
            "decoding of {}",
            v
        );
    }
}

#[test]
fn utf8_validation_agrees_with_std() {
    let cases: Vec<Vec<u8>> = vec![
        b"".to_vec(),
        b"hello".to_vec(),
        "héllo wörld".as_bytes().to_vec(),
        "日本語".as_bytes().to_vec(),
        "🙂🙃".as_bytes().to_vec(),
        vec![0x80],                   // lone continuation
        vec![0xC0, 0xAF],             // overlong two-byte form
        vec![0xC2],                   // truncated two-byte form
        vec![0xE0, 0x80, 0x80],       // overlong three-byte form
        vec![0xED, 0xA0, 0x80],       // surrogate
        vec![0xF0, 0x80, 0x80, 0x80], // overlong four-byte form
        vec![0xF4, 0x90, 0x80, 0x80], // past the last code point
        vec![0xF5],                   // no leading byte at all
        vec![0xFF],
        vec![0xE2, 0x82, 0xAC],       // three-byte form
        vec![0xF0, 0x9F, 0x98, 0x80], // four-byte form
        vec![0x7F, 0xC2, 0x80],
    ];
    for bytes in cases {
        assert_eq!(
            validate_utf8(&bytes),
            std::str::from_utf8(&bytes).is_ok(),
            "bytes {:?}",
            bytes
        );
    }
}

#[test]
fn arena_insertion_order_is_index_order() {
    let mut wb = WebidlBindings::default();
    let a = wb.types.insert(WebidlCompoundType::Enumeration(WebidlEnumeration { values: vec![] }));
    let b = wb.types.insert(WebidlCompoundType::Union(WebidlUnion { members: vec![] }));
    assert_eq!(a.0, 0);
    assert_eq!(b.0, 1);
    assert_eq!(wb.types.by_index(0), Some(a));
    assert_eq!(wb.types.by_index(1), Some(b));
    assert_eq!(wb.types.by_index(2), None);
    assert!(matches!(
        wb.types.get(a).unwrap(),
        WebidlCompoundType::Enumeration(_)
    ));
    assert!(matches!(wb.types.get(b).unwrap(), WebidlCompoundType::Union(_)));
}

#[test]
fn binding_names_resolve_like_type_names() {
    let mut wb = WebidlBindings::default();
    assert_eq!(wb.bindings.by_name(b"b"), None);
    let id = wb.bindings.insert_named(
        b"b".to_vec(),
        FunctionBinding::Import(ImportBinding {
            wasm_ty: WasmFuncTypeRef(0),
            webidl_ty: WebidlTypeRef::Scalar(WebidlScalarType::Any),
            params: OutgoingBindingMap { bindings: vec![] },
            result: IncomingBindingMap { bindings: vec![] },
        }),
    );
    assert_eq!(id.0, 0);
    assert_eq!(wb.bindings.by_name(b"b"), Some(id));
    assert_eq!(wb.bindings.by_index(0), Some(id));
    assert!(wb.bindings.get(id).is_some());
}

#[test]
fn names_resolve_to_the_latest_insertion() {
    let mut wb = WebidlBindings::default();
    assert_eq!(wb.types.by_name(b"e"), None);
    let first = wb.types.insert_named(
        b"e".to_vec(),
        WebidlCompoundType::Enumeration(WebidlEnumeration { values: vec![] }),
    );
    assert_eq!(wb.types.by_name(b"e"), Some(first));
    // A later declaration under the same name shadows the earlier one.
    let second = wb.types.insert_named(
        b"e".to_vec(),
        WebidlCompoundType::Union(WebidlUnion { members: vec![] }),
    );
    assert_eq!(wb.types.by_name(b"e"), Some(second));
    assert_eq!(wb.types.by_name(b"missing"), None);
}
