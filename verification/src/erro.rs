//! The errors of the lexer and of the evaluation.

use crate::item::ItemLexico;
use vstd::prelude::*;

verus! {

/// Why a text could not be split into lexical items.
#[derive(Debug, Clone, Copy, PartialEq, Eq, Structural)]
pub enum ErroLexico {
    /// The text holds a character that is neither a digit, nor white space,
    /// nor `+` or `-`.
    CaracterInesperado(char),
    /// A run of digits denotes a value greater than `i64::MAX`.
    EstouroInteiro,
}

/// Why a sequence of lexical items could not be evaluated.
#[derive(Debug, Clone, Copy, PartialEq, Eq, Structural)]
pub enum ErroSintatico {
    /// An integer was expected where an operator stands, or an operator
    /// where an integer stands. Carries the item that was found.
    TokenInesperado(ItemLexico),
    /// An item was expected after the last one.
    ExpressaoIncompleta,
    /// The operator has no evaluation rule. Only `+` has one.
    OperadorNaoSuportado(char),
    /// A sum does not fit in an `i64`.
    EstouroAritmetico,
}

/// Why a text could not be evaluated.
#[derive(Debug, Clone, Copy, PartialEq, Eq, Structural)]
pub enum ErroAvaliacao {
    /// The text could not be split into lexical items.
    Lexico(ErroLexico),
    /// The lexical items do not form an expression that can be evaluated.
    Sintatico(ErroSintatico),
}

} // verus!
