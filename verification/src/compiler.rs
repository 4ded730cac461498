//! The files that compiling a DPL source produces.

use vstd::prelude::*;

verus! {

/// The paths of what compiling a source file produces.
#[derive(Debug)]
pub struct CompileOutput {
    /// The compiled binary ready for execution.
    pub binary_path: String,
    /// The generated assembly file.
    pub asm_path: String,
    /// The source-map JSON sidecar produced alongside the assembly.
    pub map_path: String,
}

/// The file names compiling a source with file stem `stem` produces: the
/// assembly `<stem>.s`, the binary `<stem>` and the source map `<stem>.map`.
pub fn artifact_names(stem: &str) -> (r: CompileOutput)
    ensures
        r.asm_path@ == stem@ + ".s"@,
        r.binary_path@ == stem@,
        r.map_path@ == stem@ + ".map"@,
{
    let assembly = String::from_str(stem).concat(".s");
    let map = String::from_str(stem).concat(".map");
    let binary = String::from_str(stem);
    CompileOutput { binary_path: binary, asm_path: assembly, map_path: map }
}

} // verus!
