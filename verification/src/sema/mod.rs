pub mod model;
pub mod checker;
pub mod infer;
pub mod matching;
pub mod program;

pub use checker::{Analysis, Diagnostic};
pub use program::analyze;
