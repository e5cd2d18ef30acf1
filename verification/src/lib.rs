pub mod syntax;
pub mod text;
pub mod ir;
pub mod vm;
pub mod runtime;
pub mod sema;
pub mod codec;
pub mod cbor_order;
pub mod ffi;
pub mod json;
pub mod json_text;
pub mod docgen;
pub mod host_cbor;
