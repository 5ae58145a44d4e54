//! The expressibility analysis: whether a binding's conversions are already
//! covered by the host platform's default WebAssembly/JS/WebIDL coercions, so
//! that no explicit binding support is needed at runtime.
//!
//! The check is purely structural. A map passes only if its length equals
//! both adjacent type lists' lengths, every expression is the single trivial
//! node kind for its direction, every expression fetches exactly its own
//! position, and every (value type, scalar type) pair is in the fixed
//! coercion table. A whole binding passes only if both maps pass and its
//! WebIDL type is a static function type.

use vstd::prelude::*;

use crate::ast::ExportBinding;
use crate::ast::ExportBindingV;
use crate::ast::FunctionBinding;
use crate::ast::FunctionBindingV;
use crate::ast::ImportBinding;
use crate::ast::ImportBindingV;
use crate::ast::IncomingBindingExpression;
use crate::ast::IncomingBindingExpressionV;
use crate::ast::IncomingBindingMap;
use crate::ast::OutgoingBindingExpression;
use crate::ast::OutgoingBindingExpressionV;
use crate::ast::OutgoingBindingMap;
use crate::ast::WasmFuncType;
use crate::ast::WasmFuncTypeV;
use crate::ast::WasmValType;
use crate::ast::WebidlBindings;
use crate::ast::WebidlBindingsV;
use crate::ast::WebidlCompoundType;
use crate::ast::WebidlCompoundTypeV;
use crate::ast::WebidlFunctionKind;
use crate::ast::WebidlScalarType;
use crate::ast::WebidlTypeRef;
use crate::ast::lemma_in_exprs_view_props;
use crate::ast::lemma_out_exprs_view_props;

verus! {

broadcast use lemma_out_exprs_view_props, lemma_in_exprs_view_props;

/// The fixed table of outgoing coercions: which WebAssembly value types the
/// default conversions carry into which scalar WebIDL types.
pub open spec fn outgoing_scalar_coercible(from: WasmValType, to: WebidlScalarType) -> bool {
    match (from, to) {
        (_, WebidlScalarType::Any) => true,
        (WasmValType::I32, WebidlScalarType::Byte) => true,
        (WasmValType::I32, WebidlScalarType::Octet) => true,
        (WasmValType::I32, WebidlScalarType::Short) => true,
        (WasmValType::I32, WebidlScalarType::UnsignedShort) => true,
        (WasmValType::I32, WebidlScalarType::Long) => true,
        (WasmValType::I32, WebidlScalarType::LongLong) => true,
        (WasmValType::I32, WebidlScalarType::Float) => true,
        (WasmValType::I32, WebidlScalarType::UnrestrictedFloat) => true,
        (WasmValType::I32, WebidlScalarType::Double) => true,
        (WasmValType::I32, WebidlScalarType::UnrestrictedDouble) => true,
        (WasmValType::F32, WebidlScalarType::Float) => true,
        (WasmValType::F32, WebidlScalarType::UnrestrictedFloat) => true,
        (WasmValType::F32, WebidlScalarType::Double) => true,
        (WasmValType::F32, WebidlScalarType::UnrestrictedDouble) => true,
        (WasmValType::F64, WebidlScalarType::Double) => true,
        (WasmValType::F64, WebidlScalarType::UnrestrictedDouble) => true,
        _ => false,
    }
}

/// The fixed table of incoming coercions: which scalar WebIDL types the
/// default conversions carry into which WebAssembly value types.
pub open spec fn incoming_scalar_coercible(from: WebidlScalarType, to: WasmValType) -> bool {
    match (from, to) {
        (WebidlScalarType::Any, WasmValType::Anyref) => true,
        (WebidlScalarType::Boolean, WasmValType::I32) => true,
        (WebidlScalarType::Byte, WasmValType::I32) => true,
        (WebidlScalarType::Octet, WasmValType::I32) => true,
        (WebidlScalarType::Short, WasmValType::I32) => true,
        (WebidlScalarType::UnsignedShort, WasmValType::I32) => true,
        (WebidlScalarType::Long, WasmValType::I32) => true,
        (WebidlScalarType::UnsignedLong, WasmValType::I32) => true,
        (WebidlScalarType::Byte, WasmValType::F32) => true,
        (WebidlScalarType::Octet, WasmValType::F32) => true,
        (WebidlScalarType::Short, WasmValType::F32) => true,
        (WebidlScalarType::UnsignedShort, WasmValType::F32) => true,
        (WebidlScalarType::Float, WasmValType::F32) => true,
        (WebidlScalarType::UnrestrictedFloat, WasmValType::F32) => true,
        (WebidlScalarType::Byte, WasmValType::F64) => true,
        (WebidlScalarType::Octet, WasmValType::F64) => true,
        (WebidlScalarType::Short, WasmValType::F64) => true,
        (WebidlScalarType::UnsignedShort, WasmValType::F64) => true,
        (WebidlScalarType::Long, WasmValType::F64) => true,
        (WebidlScalarType::UnsignedLong, WasmValType::F64) => true,
        (WebidlScalarType::Float, WasmValType::F64) => true,
        (WebidlScalarType::UnrestrictedFloat, WasmValType::F64) => true,
        (WebidlScalarType::Double, WasmValType::F64) => true,
        (WebidlScalarType::UnrestrictedDouble, WasmValType::F64) => true,
        _ => false,
    }
}

/// One outgoing expression is trivial at position `at`: it is `As`, names
/// exactly the expected target type, fetches exactly argument `at`, and the
/// coercion is in the outgoing table.
pub open spec fn out_expr_expressible(
    e: OutgoingBindingExpressionV,
    from: WasmValType,
    to: WebidlTypeRef,
    at: int,
) -> bool {
    match e {
        OutgoingBindingExpressionV::As { ty, idx } => {
            &&& idx as int == at
            &&& ty == to
            &&& match to {
                WebidlTypeRef::Scalar(s) => outgoing_scalar_coercible(from, s),
                WebidlTypeRef::Id(_) => false,
            }
        },
        _ => false,
    }
}

/// One incoming expression is trivial at position `at`: it is `As` wrapping
/// `Get`, names exactly the expected value type, fetches exactly argument
/// `at`, and the coercion is in the incoming table.
pub open spec fn in_expr_expressible(
    e: IncomingBindingExpressionV,
    from: WebidlTypeRef,
    to: WasmValType,
    at: int,
) -> bool {
    match e {
        IncomingBindingExpressionV::As { ty, expr } => {
            &&& ty == to
            &&& match *expr {
                IncomingBindingExpressionV::Get { idx } => {
                    &&& idx as int == at
                    &&& match from {
                        WebidlTypeRef::Scalar(s) => incoming_scalar_coercible(s, to),
                        WebidlTypeRef::Id(_) => false,
                    }
                },
                _ => false,
            }
        },
        _ => false,
    }
}

/// A whole outgoing map is trivial: same length as both type lists, and
/// trivial at every position.
pub open spec fn out_map_expressible(
    exprs: Seq<OutgoingBindingExpressionV>,
    from: Seq<WasmValType>,
    to: Seq<WebidlTypeRef>,
) -> bool {
    &&& exprs.len() == from.len()
    &&& exprs.len() == to.len()
    &&& forall|i: int| 0 <= i < exprs.len() ==> out_expr_expressible(#[trigger] exprs[i], from[i], to[i], i)
}

/// A whole incoming map is trivial: same length as both type lists, and
/// trivial at every position.
pub open spec fn in_map_expressible(
    exprs: Seq<IncomingBindingExpressionV>,
    from: Seq<WebidlTypeRef>,
    to: Seq<WasmValType>,
) -> bool {
    &&& exprs.len() == from.len()
    &&& exprs.len() == to.len()
    &&& forall|i: int| 0 <= i < exprs.len() ==> in_expr_expressible(#[trigger] exprs[i], from[i], to[i], i)
}

/// An optional result type as a list of zero or one types.
pub open spec fn opt_ref_seq(r: Option<WebidlTypeRef>) -> Seq<WebidlTypeRef> {
    match r {
        Some(t) => seq![t],
        None => Seq::empty(),
    }
}

/// An import binding is expressible: its WebIDL type resolves to a static
/// function type, its params map is trivial from the host params to the
/// WebIDL params, and its result map is trivial from the WebIDL result to
/// the host results.
pub open spec fn import_expressible(b: ImportBindingV, ft: WasmFuncTypeV, wb: WebidlBindingsV) -> bool {
    match b.webidl_ty {
        WebidlTypeRef::Id(id) => {
            &&& (id.0 as int) < wb.types.arena.len()
            &&& match wb.types.arena[id.0 as int] {
                WebidlCompoundTypeV::Function(f) => {
                    &&& f.kind == WebidlFunctionKind::Static
                    &&& out_map_expressible(b.params, ft.params, f.params)
                    &&& in_map_expressible(b.result, opt_ref_seq(f.result), ft.results)
                },
                _ => false,
            }
        },
        WebidlTypeRef::Scalar(_) => false,
    }
}

/// An export binding is expressible: the mirror of `import_expressible`.
pub open spec fn export_expressible(b: ExportBindingV, ft: WasmFuncTypeV, wb: WebidlBindingsV) -> bool {
    match b.webidl_ty {
        WebidlTypeRef::Id(id) => {
            &&& (id.0 as int) < wb.types.arena.len()
            &&& match wb.types.arena[id.0 as int] {
                WebidlCompoundTypeV::Function(f) => {
                    &&& f.kind == WebidlFunctionKind::Static
                    &&& in_map_expressible(b.params, f.params, ft.params)
                    &&& out_map_expressible(b.result, ft.results, opt_ref_seq(f.result))
                },
                _ => false,
            }
        },
        WebidlTypeRef::Scalar(_) => false,
    }
}

/// Either side of a function binding, dispatched on its kind.
pub open spec fn binding_expressible(b: FunctionBindingV, ft: WasmFuncTypeV, wb: WebidlBindingsV) -> bool {
    match b {
        FunctionBindingV::Import(i) => import_expressible(i, ft, wb),
        FunctionBindingV::Export(e) => export_expressible(e, ft, wb),
    }
}

/// Whether the outgoing coercion (from, to) is in the fixed table.
fn outgoing_coercible(from: WasmValType, to: WebidlScalarType) -> (r: bool)
    ensures
        r == outgoing_scalar_coercible(from, to),
{
    match (from, to) {
        (_, WebidlScalarType::Any) => true,
        (WasmValType::I32, WebidlScalarType::Byte) => true,
        (WasmValType::I32, WebidlScalarType::Octet) => true,
        (WasmValType::I32, WebidlScalarType::Short) => true,
        (WasmValType::I32, WebidlScalarType::UnsignedShort) => true,
        (WasmValType::I32, WebidlScalarType::Long) => true,
        (WasmValType::I32, WebidlScalarType::LongLong) => true,
        (WasmValType::I32, WebidlScalarType::Float) => true,
        (WasmValType::I32, WebidlScalarType::UnrestrictedFloat) => true,
        (WasmValType::I32, WebidlScalarType::Double) => true,
        (WasmValType::I32, WebidlScalarType::UnrestrictedDouble) => true,
        (WasmValType::F32, WebidlScalarType::Float) => true,
        (WasmValType::F32, WebidlScalarType::UnrestrictedFloat) => true,
        (WasmValType::F32, WebidlScalarType::Double) => true,
        (WasmValType::F32, WebidlScalarType::UnrestrictedDouble) => true,
        (WasmValType::F64, WebidlScalarType::Double) => true,
        (WasmValType::F64, WebidlScalarType::UnrestrictedDouble) => true,
        _ => false,
    }
}

/// Whether the incoming coercion (from, to) is in the fixed table.
fn incoming_coercible(from: WebidlScalarType, to: WasmValType) -> (r: bool)
    ensures
        r == incoming_scalar_coercible(from, to),
{
    match (from, to) {
        (WebidlScalarType::Any, WasmValType::Anyref) => true,
        (WebidlScalarType::Boolean, WasmValType::I32) => true,
        (WebidlScalarType::Byte, WasmValType::I32) => true,
        (WebidlScalarType::Octet, WasmValType::I32) => true,
        (WebidlScalarType::Short, WasmValType::I32) => true,
        (WebidlScalarType::UnsignedShort, WasmValType::I32) => true,
        (WebidlScalarType::Long, WasmValType::I32) => true,
        (WebidlScalarType::UnsignedLong, WasmValType::I32) => true,
        (WebidlScalarType::Byte, WasmValType::F32) => true,
        (WebidlScalarType::Octet, WasmValType::F32) => true,
        (WebidlScalarType::Short, WasmValType::F32) => true,
        (WebidlScalarType::UnsignedShort, WasmValType::F32) => true,
        (WebidlScalarType::Float, WasmValType::F32) => true,
        (WebidlScalarType::UnrestrictedFloat, WasmValType::F32) => true,
        (WebidlScalarType::Byte, WasmValType::F64) => true,
        (WebidlScalarType::Octet, WasmValType::F64) => true,
        (WebidlScalarType::Short, WasmValType::F64) => true,
        (WebidlScalarType::UnsignedShort, WasmValType::F64) => true,
        (WebidlScalarType::Long, WasmValType::F64) => true,
        (WebidlScalarType::UnsignedLong, WasmValType::F64) => true,
        (WebidlScalarType::Float, WasmValType::F64) => true,
        (WebidlScalarType::UnrestrictedFloat, WasmValType::F64) => true,
        (WebidlScalarType::Double, WasmValType::F64) => true,
        (WebidlScalarType::UnrestrictedDouble, WasmValType::F64) => true,
        _ => false,
    }
}

impl OutgoingBindingExpression {
    /// Whether this expression is trivial at position `at_index` for the
    /// given source value type and target WebIDL type.
    pub fn is_expressible_in_js_without_webidl_bindings(
        &self,
        from_wasm_ty: WasmValType,
        to_webidl_ty: WebidlTypeRef,
        at_index: u32,
    ) -> (r: bool)
        ensures
            r == out_expr_expressible(self@, from_wasm_ty, to_webidl_ty, at_index as int),
    {
        match self {
            OutgoingBindingExpression::As(a) => {
                if a.idx != at_index || a.ty != to_webidl_ty {
                    return false;
                }
                match to_webidl_ty {
                    WebidlTypeRef::Scalar(s) => outgoing_coercible(from_wasm_ty, s),
                    WebidlTypeRef::Id(_) => false,
                }
            },
            _ => false,
        }
    }
}

impl IncomingBindingExpression {
    /// Whether this expression is trivial at position `at_index` for the
    /// given source WebIDL type and target value type.
    pub fn is_expressible_in_js_without_webidl_bindings(
        &self,
        from_webidl_ty: WebidlTypeRef,
        to_wasm_ty: WasmValType,
        at_index: u32,
    ) -> (r: bool)
        ensures
            r == in_expr_expressible(self@, from_webidl_ty, to_wasm_ty, at_index as int),
    {
        match self {
            IncomingBindingExpression::As(a) => {
                proof {
                    assert(self@ == (IncomingBindingExpressionV::As {
                        ty: a.ty,
                        expr: Box::new((*a.expr)@),
                    }));
                }
                if a.ty != to_wasm_ty {
                    return false;
                }
                match &*a.expr {
                    IncomingBindingExpression::Get(g) => {
                        if g.idx != at_index {
                            return false;
                        }
                        match from_webidl_ty {
                            WebidlTypeRef::Scalar(s) => incoming_coercible(s, to_wasm_ty),
                            WebidlTypeRef::Id(_) => false,
                        }
                    },
                    _ => false,
                }
            },
            _ => false,
        }
    }
}

impl OutgoingBindingMap {
    /// Whether every expression of this map is trivial for the adjacent type
    /// lists. A map whose length differs from either list never passes.
    pub fn is_expressible_in_js_without_webidl_bindings(
        &self,
        from_wasm_tys: &[WasmValType],
        to_webidl_tys: &[WebidlTypeRef],
    ) -> (r: bool)
        ensures
            r == out_map_expressible(self@, from_wasm_tys@, to_webidl_tys@),
            self@.len() != from_wasm_tys@.len() ==> !r,
            self@.len() != to_webidl_tys@.len() ==> !r,
    {
        proof {
            lemma_out_exprs_view_props(self.bindings@);
        }
        let n = self.bindings.len();
        if n != from_wasm_tys.len() || n != to_webidl_tys.len() {
            return false;
        }
        let mut i: usize = 0;
        while i < n
            invariant
                n == self.bindings@.len(),
                n == from_wasm_tys@.len() && n == to_webidl_tys@.len(),
                i <= n,
                forall|j: int| 0 <= j < i ==> out_expr_expressible(
                    #[trigger] self@[j],
                    from_wasm_tys@[j],
                    to_webidl_tys@[j],
                    j,
                ),
            decreases n - i,
        {
            if i > (u32::MAX as usize) {
                assert(!out_expr_expressible(self@[i as int], from_wasm_tys@[i as int], to_webidl_tys@[i as int], i as int));
                return false;
            }
            if !self.bindings[i].is_expressible_in_js_without_webidl_bindings(
                from_wasm_tys[i],
                to_webidl_tys[i],
                i as u32,
            ) {
                proof {
                    assert(self@[i as int] == self.bindings@[i as int]@);
                    assert(!out_expr_expressible(
                        self@[i as int],
                        from_wasm_tys@[i as int],
                        to_webidl_tys@[i as int],
                        i as int,
                    ));
                }
                return false;
            }
            i = i + 1;
        }
        true
    }
}

impl IncomingBindingMap {
    /// Whether every expression of this map is trivial for the adjacent type
    /// lists. A map whose length differs from either list never passes.
    pub fn is_expressible_in_js_without_webidl_bindings(
        &self,
        from_webidl_tys: &[WebidlTypeRef],
        to_wasm_tys: &[WasmValType],
    ) -> (r: bool)
        ensures
            r == in_map_expressible(self@, from_webidl_tys@, to_wasm_tys@),
            self@.len() != from_webidl_tys@.len() ==> !r,
            self@.len() != to_wasm_tys@.len() ==> !r,
    {
        proof {
            lemma_in_exprs_view_props(self.bindings@);
        }
        let n = self.bindings.len();
        if n != from_webidl_tys.len() || n != to_wasm_tys.len() {
            return false;
        }
        let mut i: usize = 0;
        while i < n
            invariant
                n == self.bindings@.len(),
                n == from_webidl_tys@.len() && n == to_wasm_tys@.len(),
                i <= n,
                forall|j: int| 0 <= j < i ==> in_expr_expressible(
                    #[trigger] self@[j],
                    from_webidl_tys@[j],
                    to_wasm_tys@[j],
                    j,
                ),
            decreases n - i,
        {
            if i > (u32::MAX as usize) {
                assert(!in_expr_expressible(self@[i as int], from_webidl_tys@[i as int], to_wasm_tys@[i as int], i as int));
                return false;
            }
            if !self.bindings[i].is_expressible_in_js_without_webidl_bindings(
                from_webidl_tys[i],
                to_wasm_tys[i],
                i as u32,
            ) {
                proof {
                    assert(self@[i as int] == self.bindings@[i as int]@);
                    assert(!in_expr_expressible(
                        self@[i as int],
                        from_webidl_tys@[i as int],
                        to_wasm_tys@[i as int],
                        i as int,
                    ));
                }
                return false;
            }
            i = i + 1;
        }
        true
    }
}

impl ImportBinding {
    /// Whether this import binding is expressible through default coercions
    /// alone. `wasm_ty` is the signature the host module reports for this
    /// binding's function type.
    pub fn is_expressible_in_js_without_webidl_bindings(
        &self,
        wasm_ty: &WasmFuncType,
        wb: &WebidlBindings,
    ) -> (r: bool)
        ensures
            r == import_expressible(self@, wasm_ty@, wb@),
    {
        let f = match self.webidl_ty {
            WebidlTypeRef::Id(id) => match wb.types.get(id) {
                Some(WebidlCompoundType::Function(f)) => f,
                _ => {
                    return false;
                },
            },
            WebidlTypeRef::Scalar(_) => {
                return false;
            },
        };
        if !matches!(f.kind, WebidlFunctionKind::Static) {
            return false;
        }
        let result_tys: Vec<WebidlTypeRef> = match f.result {
            Some(t) => vec![t],
            None => Vec::new(),
        };
        proof {
            assert(result_tys@ =~= opt_ref_seq(f@.result));
        }
        self.params.is_expressible_in_js_without_webidl_bindings(
            wasm_ty.params.as_slice(),
            f.params.as_slice(),
        ) && self.result.is_expressible_in_js_without_webidl_bindings(
            result_tys.as_slice(),
            wasm_ty.results.as_slice(),
        )
    }
}

impl ExportBinding {
    /// Whether this export binding is expressible through default coercions
    /// alone. `wasm_ty` is the signature the host module reports for this
    /// binding's function type.
    pub fn is_expressible_in_js_without_webidl_bindings(
        &self,
        wasm_ty: &WasmFuncType,
        wb: &WebidlBindings,
    ) -> (r: bool)
        ensures
            r == export_expressible(self@, wasm_ty@, wb@),
    {
        let f = match self.webidl_ty {
            WebidlTypeRef::Id(id) => match wb.types.get(id) {
                Some(WebidlCompoundType::Function(f)) => f,
                _ => {
                    return false;
                },
            },
            WebidlTypeRef::Scalar(_) => {
                return false;
            },
        };
        if !matches!(f.kind, WebidlFunctionKind::Static) {
            return false;
        }
        let result_tys: Vec<WebidlTypeRef> = match f.result {
            Some(t) => vec![t],
            None => Vec::new(),
        };
        proof {
            assert(result_tys@ =~= opt_ref_seq(f@.result));
        }
        self.params.is_expressible_in_js_without_webidl_bindings(
            f.params.as_slice(),
            wasm_ty.params.as_slice(),
        ) && self.result.is_expressible_in_js_without_webidl_bindings(
            wasm_ty.results.as_slice(),
            result_tys.as_slice(),
        )
    }
}

impl FunctionBinding {
    /// Whether this binding's conversions are losslessly expressible with the
    /// default conversions of the WebAssembly JavaScript interface and the
    /// ECMAScript bindings for WebIDL, with no explicit binding support.
    pub fn is_expressible_in_js_without_webidl_bindings(
        &self,
        wasm_ty: &WasmFuncType,
        wb: &WebidlBindings,
    ) -> (r: bool)
        ensures
            r == binding_expressible(self@, wasm_ty@, wb@),
    {
        match self {
            FunctionBinding::Import(i) => i.is_expressible_in_js_without_webidl_bindings(wasm_ty, wb),
            FunctionBinding::Export(e) => e.is_expressible_in_js_without_webidl_bindings(wasm_ty, wb),
        }
    }
}

// ---------------------------------------------------------------------------
// Laws of the analysis.
// ---------------------------------------------------------------------------

/// An outgoing map whose length differs from either adjacent type list's
/// length is never expressible.
pub proof fn lemma_outgoing_arity_mismatch_inexpressible(
    exprs: Seq<OutgoingBindingExpressionV>,
    from: Seq<WasmValType>,
    to: Seq<WebidlTypeRef>,
)
    requires
        exprs.len() != from.len() || exprs.len() != to.len(),
    ensures
        !out_map_expressible(exprs, from, to),
{
}

/// An incoming map whose length differs from either adjacent type list's
/// length is never expressible.
pub proof fn lemma_incoming_arity_mismatch_inexpressible(
    exprs: Seq<IncomingBindingExpressionV>,
    from: Seq<WebidlTypeRef>,
    to: Seq<WasmValType>,
)
    requires
        exprs.len() != from.len() || exprs.len() != to.len(),
    ensures
        !in_map_expressible(exprs, from, to),
{
}

/// An expressible outgoing map uses the arguments in identity order: the
/// expression at position `i` is an `As` node fetching exactly index `i`.
pub proof fn lemma_outgoing_expressible_is_identity_order(
    exprs: Seq<OutgoingBindingExpressionV>,
    from: Seq<WasmValType>,
    to: Seq<WebidlTypeRef>,
)
    requires
        out_map_expressible(exprs, from, to),
    ensures
        forall|i: int| 0 <= i < exprs.len() ==> ((#[trigger] exprs[i]) matches
            OutgoingBindingExpressionV::As { idx, .. } && idx as int == i),
{
}

/// Any outgoing map with an `As` node out of identity order, or with a node
/// of any other kind, is rejected whole.
pub proof fn lemma_outgoing_wrong_order_inexpressible(
    exprs: Seq<OutgoingBindingExpressionV>,
    from: Seq<WasmValType>,
    to: Seq<WebidlTypeRef>,
    i: int,
)
    requires
        0 <= i < exprs.len(),
        !(exprs[i] matches OutgoingBindingExpressionV::As { idx, .. } && idx as int == i),
    ensures
        !out_map_expressible(exprs, from, to),
{
    assert(!out_expr_expressible(exprs[i], from[i], to[i], i));
}

/// An expressible incoming map uses the arguments in identity order: the
/// expression at position `i` is an `As` node wrapping `Get` of exactly
/// index `i`.
pub proof fn lemma_incoming_expressible_is_identity_order(
    exprs: Seq<IncomingBindingExpressionV>,
    from: Seq<WebidlTypeRef>,
    to: Seq<WasmValType>,
)
    requires
        in_map_expressible(exprs, from, to),
    ensures
        forall|i: int| 0 <= i < exprs.len() ==> ((#[trigger] exprs[i]) matches
            IncomingBindingExpressionV::As { expr, .. } && *expr matches
            IncomingBindingExpressionV::Get { idx } && idx as int == i),
{
}

/// Any incoming map with a `Get` out of identity order, or with a node of
/// any other shape, is rejected whole.
pub proof fn lemma_incoming_wrong_order_inexpressible(
    exprs: Seq<IncomingBindingExpressionV>,
    from: Seq<WebidlTypeRef>,
    to: Seq<WasmValType>,
    i: int,
)
    requires
        0 <= i < exprs.len(),
        !(exprs[i] matches IncomingBindingExpressionV::As { expr, .. } && *expr matches
            IncomingBindingExpressionV::Get { idx } && idx as int == i),
    ensures
        !in_map_expressible(exprs, from, to),
{
    assert(!in_expr_expressible(exprs[i], from[i], to[i], i));
}

} // verus!
