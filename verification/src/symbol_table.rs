//! Symbol kinds, for diagnostics that need to say what a name stood for.

use vstd::prelude::*;

verus! {

#[derive(Debug, Clone, Copy, PartialEq, Eq, Structural)]
pub enum SymbolType {
    Function,
    Variable,
}

#[derive(Debug, Clone, Copy, PartialEq, Eq, Structural)]
pub struct Symbol {
    pub symbol_type: SymbolType,
}

} // verus!
