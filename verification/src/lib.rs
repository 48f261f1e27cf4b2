//! Verified core of a Go code emitter: decision trees for pattern matching,
//! a lowered statement IR with its renderer, value planning, naming rules,
//! and the assembly of emitted files.

use vstd::prelude::*;

pub mod text;
pub mod go_type;
pub mod checks;
pub mod tree;
pub mod lowered;
pub mod values;
pub mod names;
pub mod render;
pub mod utils;
pub mod placement;
pub mod tree_emit;
pub mod packages;
pub mod output;
pub mod literals;
pub mod access;
pub mod bindings;
pub mod prelude_types;
pub mod format_strings;
pub mod flat_cases;
pub mod staging;
pub mod binary_ops;
pub mod slicing;
pub mod top_items;
pub mod operands;
pub mod struct_calls;
pub mod fused;
pub mod imports;
pub mod arm_shapes;

pub use output::{OutputFile, OutputImport};
pub use names::PRELUDE_IMPORT_PATH;

verus! {

/// Options for an emission run.
#[derive(Clone, Debug)]
pub struct EmitOptions {
    pub sourcemap: bool,
    pub emit_tests: bool,
}

/// The sentinel a Go function's hints ask for: `-1` when one of them is
/// `sentinel_minus_one`.
pub fn sentinel_hint(hints: &[String]) -> (r: Option<i64>)
    ensures
        r == (if exists|i: int| 0 <= i < hints@.len() && hints@[i]@ == "sentinel_minus_one"@ {
            Some(-1i64)
        } else {
            None
        }),
{
    let mut i: usize = 0;
    while i < hints.len()
        invariant
            i <= hints@.len(),
            forall|j: int| 0 <= j < i ==> hints@[j]@ != "sentinel_minus_one"@,
        decreases hints.len() - i,
    {
        if text::str_eq(hints[i].as_str(), "sentinel_minus_one") {
            return Some(-1);
        }
        i = i + 1;
    }
    None
}

} // verus!
