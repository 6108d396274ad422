//! Rewrites module graphs for a stack-machine instruction set so that
//! functions returning multiple values are replaced, at their exports, by
//! wrapper functions returning a single value: the remaining results are
//! spilled to an aligned scratch region of linear memory carved out of a
//! downward-growing shadow stack.

pub mod values;
pub mod layout;
pub mod ir;
pub mod interp;
pub mod module;
pub mod wrapper;
pub mod transform;
