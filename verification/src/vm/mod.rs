pub mod value;
pub mod machine;

pub use value::VmValue;
pub use machine::{
    crate_name, IrVmProgram, NativeProgram, VmError, VmErrorCode, VmLimits, VmProgram,
};
