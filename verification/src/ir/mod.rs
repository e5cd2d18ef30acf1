pub mod types;
pub mod validate;
pub mod view;
pub mod lowering;
pub mod lower;

pub use types::{
    compatible, Diagnostic, IrExpr, IrExprKind, IrFunction, IrMatchArm, IrParam, IrPattern,
    IrPatternField, IrPatternKind, IrProgram, IrRecordField, IrType, LoweringResult, SourceLoc,
};
pub use validate::validate_program;
pub use lower::lower_program;

use vstd::prelude::*;

verus! {

/// Name of the IR layer.
pub fn crate_name() -> (r: &'static str)
    ensures
        r@ == "cino-ir"@,
{
    "cino-ir"
}

} // verus!
