//! Curve marker symbols and the codes the marker shader switches on.

use vstd::prelude::*;

verus! {

/// Marker symbol drawn at each curve vertex.
#[derive(Clone, Copy, Debug, PartialEq, Eq, Structural)]
pub enum Symbol {
    /// Filled circle.
    Circle,
    /// Filled square.
    Square,
    /// Diagonal "×".
    Cross,
    /// Upright "+".
    Plus,
    /// Upward-pointing triangle.
    Triangle,
}

/// The shader code of each symbol, in declaration order.
pub open spec fn symbol_code(s: Symbol) -> u32 {
    match s {
        Symbol::Circle => 0,
        Symbol::Square => 1,
        Symbol::Cross => 2,
        Symbol::Plus => 3,
        Symbol::Triangle => 4,
    }
}

impl Symbol {
    /// Shader symbol code (must match the `switch` in the marker shader).
    pub fn code(self) -> (r: u32)
        ensures
            r == symbol_code(self),
    {
        match self {
            Symbol::Circle => 0,
            Symbol::Square => 1,
            Symbol::Cross => 2,
            Symbol::Plus => 3,
            Symbol::Triangle => 4,
        }
    }
}

/// Distinct symbols have distinct shader codes, all below five.
pub proof fn lemma_symbol_codes_distinct(a: Symbol, b: Symbol)
    ensures
        symbol_code(a) < 5,
        a != b ==> symbol_code(a) != symbol_code(b),
{
}

} // verus!
