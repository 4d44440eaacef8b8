//! The lexical items.

use vstd::prelude::*;

verus! {

/// One lexical unit of an expression.
#[derive(Debug, Clone, Copy, PartialEq, Eq, Structural)]
pub enum ItemLexico {
    /// An operator character. The lexer makes `+` and `-` only.
    Operador(char),
    /// The value of a run of decimal digits. The lexer makes no negative
    /// value.
    Inteiro(i64),
}

impl ItemLexico {
    /// The item is one that stands for a piece of text: an operator `+` or
    /// `-`, or an integer that is not negative.
    pub open spec fn bem_formado(self) -> bool {
        match self {
            ItemLexico::Operador(c) => c == '+' || c == '-',
            ItemLexico::Inteiro(n) => n >= 0,
        }
    }
}

} // verus!
