//! Decode failures. Decoding is all-or-nothing: the first failure is
//! reported and no container is produced.

use vstd::prelude::*;

verus! {

/// Why a byte stream failed to decode.
#[derive(Clone, Copy, Debug, PartialEq, Eq, Structural)]
pub enum DecodeError {
    /// The stream ended inside a value.
    UnexpectedEof,
    /// A variable-length integer does not fit its target type.
    IntegerOverflow,
    /// The type subsection did not open with its discriminant byte.
    BadTypeSubsection,
    /// The function-bindings subsection did not open with its discriminant byte.
    BadBindingSubsection,
    /// An optional value carried a discriminant other than absent or present.
    BadOptionDiscriminant,
    /// A compound type carried an unknown discriminant.
    BadCompoundTypeDiscriminant,
    /// A function kind carried an unknown discriminant.
    BadFunctionKindDiscriminant,
    /// A function binding carried an unknown discriminant.
    BadFunctionBindingDiscriminant,
    /// An outgoing expression carried an unknown discriminant.
    BadOutgoingExpressionDiscriminant,
    /// An incoming expression carried an unknown discriminant.
    BadIncomingExpressionDiscriminant,
    /// A WebAssembly value type carried an unknown encoding.
    BadValType,
    /// A negative type reference names no scalar type.
    BadScalarCode,
    /// A compound-type reference names no type inserted so far.
    InvalidTypeIndex,
    /// A binding reference names no binding inserted so far.
    InvalidBindingIndex,
    /// A function index is outside the host module's function index space.
    InvalidFuncIndex,
    /// A function-type index is outside the host module's type index space.
    InvalidFuncTypeIndex,
    /// A string's bytes are not well-formed UTF-8.
    InvalidUtf8,
}

} // verus!
