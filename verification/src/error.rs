//! Error taxonomy for a translation run.

use vstd::prelude::*;

verus! {

/// Spec-level mirror of [`AsmError`], with byte sequences in place of byte
/// vectors, so that contracts can speak about errors abstractly.
#[verifier::ext_equal]
pub enum AsmErrorView {
    /// A source line matched none of the three grammar alternatives; carries
    /// the offending line (comment-stripped and trimmed).
    Syntax(Seq<u8>),
    /// A destination selector absent from the fixed destination table.
    UnknownDest(Seq<u8>),
    /// A computation mnemonic absent from the fixed computation table.
    UnknownComp(Seq<u8>),
    /// A jump mnemonic absent from the fixed jump table.
    UnknownJump(Seq<u8>),
    /// More address/compute instructions than the 16-bit program counter can
    /// address.
    ProgramTooLarge,
    /// A fresh variable would be assigned an address beyond the 16-bit space.
    TooManyVariables,
}

/// An error from one translation run. Parse errors identify the offending
/// line; encoding errors identify the mnemonic that no fixed table holds.
#[derive(Debug, Clone, PartialEq, Eq)]
pub enum AsmError {
    /// A source line matched none of the three grammar alternatives; carries
    /// the offending line (comment-stripped and trimmed).
    Syntax(Vec<u8>),
    /// A destination selector absent from the fixed destination table.
    UnknownDest(Vec<u8>),
    /// A computation mnemonic absent from the fixed computation table.
    UnknownComp(Vec<u8>),
    /// A jump mnemonic absent from the fixed jump table.
    UnknownJump(Vec<u8>),
    /// More address/compute instructions than the 16-bit program counter can
    /// address.
    ProgramTooLarge,
    /// A fresh variable would be assigned an address beyond the 16-bit space.
    TooManyVariables,
}

impl View for AsmError {
    type V = AsmErrorView;

    open spec fn view(&self) -> AsmErrorView {
        match self {
            AsmError::Syntax(l) => AsmErrorView::Syntax(l@),
            AsmError::UnknownDest(s) => AsmErrorView::UnknownDest(s@),
            AsmError::UnknownComp(s) => AsmErrorView::UnknownComp(s@),
            AsmError::UnknownJump(s) => AsmErrorView::UnknownJump(s@),
            AsmError::ProgramTooLarge => AsmErrorView::ProgramTooLarge,
            AsmError::TooManyVariables => AsmErrorView::TooManyVariables,
        }
    }
}

} // verus!
