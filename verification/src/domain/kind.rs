//! The kinds that classify IR types, IR functions and field accessors.
use vstd::prelude::*;

verus! {

/// How a C++ type crosses the C ABI.
#[derive(Debug, Clone, Copy, PartialEq, Eq, Structural)]
pub enum IrTypeKind {
    Void,
    Primitive,
    CString,
    String,
    Pointer,
    Reference,
    ExternStructPointer,
    ExternStructReference,
    Opaque,
    ModelReference,
    ModelPointer,
    ModelView,
    ModelValue,
    Callback,
    FixedByteArray,
    FixedArray,
    FixedModelArray,
}

/// What a wrapper function stands for on the C++ side.
#[derive(Debug, Clone, Copy, PartialEq, Eq, Structural)]
pub enum IrFunctionKind {
    Constructor,
    Destructor,
    Method,
    Function,
}

/// Whether a synthesized field accessor reads (`Get`) or writes
/// (`Assign`) the field.
#[derive(Debug, Clone, Copy, PartialEq, Eq, Structural)]
pub enum FieldAccessKind {
    Get,
    Assign,
}

/// The spelling that the IR dump uses for a type kind.
pub open spec fn type_kind_name(kind: IrTypeKind) -> Seq<char> {
    match kind {
        IrTypeKind::Void => "void"@,
        IrTypeKind::Primitive => "primitive"@,
        IrTypeKind::CString => "c_string"@,
        IrTypeKind::String => "string"@,
        IrTypeKind::Pointer => "pointer"@,
        IrTypeKind::Reference => "reference"@,
        IrTypeKind::ExternStructPointer => "extern_struct_pointer"@,
        IrTypeKind::ExternStructReference => "extern_struct_reference"@,
        IrTypeKind::Opaque => "opaque"@,
        IrTypeKind::ModelReference => "model_reference"@,
        IrTypeKind::ModelPointer => "model_pointer"@,
        IrTypeKind::ModelView => "model_view"@,
        IrTypeKind::ModelValue => "model_value"@,
        IrTypeKind::Callback => "callback"@,
        IrTypeKind::FixedByteArray => "fixed_byte_array"@,
        IrTypeKind::FixedArray => "fixed_array"@,
        IrTypeKind::FixedModelArray => "fixed_model_array"@,
    }
}

/// The spelling that the IR dump uses for a function kind.
pub open spec fn function_kind_name(kind: IrFunctionKind) -> Seq<char> {
    match kind {
        IrFunctionKind::Constructor => "constructor"@,
        IrFunctionKind::Destructor => "destructor"@,
        IrFunctionKind::Method => "method"@,
        IrFunctionKind::Function => "function"@,
    }
}

impl IrTypeKind {
    /// The spelling that the IR dump uses for this kind.
    pub fn as_str(&self) -> (r: &'static str)
        ensures
            r@ == type_kind_name(*self),
    {
        match self {
            IrTypeKind::Void => "void",
            IrTypeKind::Primitive => "primitive",
            IrTypeKind::CString => "c_string",
            IrTypeKind::String => "string",
            IrTypeKind::Pointer => "pointer",
            IrTypeKind::Reference => "reference",
            IrTypeKind::ExternStructPointer => "extern_struct_pointer",
            IrTypeKind::ExternStructReference => "extern_struct_reference",
            IrTypeKind::Opaque => "opaque",
            IrTypeKind::ModelReference => "model_reference",
            IrTypeKind::ModelPointer => "model_pointer",
            IrTypeKind::ModelView => "model_view",
            IrTypeKind::ModelValue => "model_value",
            IrTypeKind::Callback => "callback",
            IrTypeKind::FixedByteArray => "fixed_byte_array",
            IrTypeKind::FixedArray => "fixed_array",
            IrTypeKind::FixedModelArray => "fixed_model_array",
        }
    }
}

impl IrFunctionKind {
    /// The spelling that the IR dump uses for this kind.
    pub fn as_str(&self) -> (r: &'static str)
        ensures
            r@ == function_kind_name(*self),
    {
        match self {
            IrFunctionKind::Constructor => "constructor",
            IrFunctionKind::Destructor => "destructor",
            IrFunctionKind::Method => "method",
            IrFunctionKind::Function => "function",
        }
    }
}

} // verus!
