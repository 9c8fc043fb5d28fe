use vstd::prelude::*;

verus! {

/// One invocation: the delay to apply, the files to shift, and where to write them.
pub struct Command {
    pub delay_ms: i64,
    pub input_files: Vec<String>,
    pub output_directory: String,
}

} // verus!
