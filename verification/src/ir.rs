//! The IR under its short path: the normalized C ABI IR and the kinds that
//! classify it.
pub use crate::codegen::ir_norm::{
    normalize, IrCallback, IrEnum, IrEnumVariant, IrFieldAccessor, IrFunction, IrModule, IrParam,
    IrType, OpaqueType, SkippedDeclaration, SupportMetadata,
};
pub use crate::domain::kind::{FieldAccessKind, IrFunctionKind, IrTypeKind};
