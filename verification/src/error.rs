use vstd::prelude::*;

verus! {

/// Every way the pipeline can refuse a program.
///
/// The two bracket errors arise while parsing; `UnsupportedOperation` arises
/// during code generation, when an `Input` token reaches the lowering stage,
/// which defines no translation for console input.
#[derive(Debug, Clone, Copy, PartialEq, Eq, Structural)]
pub enum BfError {
    UnmatchedCloseBracket,
    UnterminatedLoop,
    UnsupportedOperation,
}

} // verus!
