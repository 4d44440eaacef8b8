//! Evaluation of a text: the lexer, then the evaluator.

use crate::erro::ErroAvaliacao;
use crate::item::ItemLexico;
use crate::lexico::{lexer, spec_lexer};
use crate::sintatico::{expressao, spec_expressao};
use vstd::prelude::*;

verus! {

/// What a sequence of lexical items is worth: 0 where there are none, else
/// the value of the expression that starts at the first item.
pub open spec fn spec_avaliar_itens(tokens: Seq<ItemLexico>) -> Result<i64, ErroAvaliacao> {
    if tokens.len() == 0 {
        Ok(0)
    } else {
        match spec_expressao(tokens, 0) {
            Ok(n) => Ok(n),
            Err(e) => Err(ErroAvaliacao::Sintatico(e)),
        }
    }
}

/// What the text `s` is worth: the value of its lexical items, or the error
/// of the lexer where it has one.
pub open spec fn spec_avaliar(s: Seq<char>) -> Result<i64, ErroAvaliacao> {
    match spec_lexer(s) {
        Ok(tokens) => spec_avaliar_itens(tokens),
        Err(e) => Err(ErroAvaliacao::Lexico(e)),
    }
}

/// Evaluates the text `codigo`.
///
/// The text is split into lexical items first, whole, and the items are
/// evaluated then: an error of the lexer comes before any error of the
/// evaluation. A text with no items, empty or of white space only, is worth 0.
pub fn avaliar(codigo: &str) -> (r: Result<i64, ErroAvaliacao>)
    ensures
        r == spec_avaliar(codigo@),
{
    let tokens = match lexer(codigo) {
        Ok(tokens) => tokens,
        Err(e) => {
            return Err(ErroAvaliacao::Lexico(e));
        },
    };
    if tokens.is_empty() {
        return Ok(0);
    }
    match expressao(&tokens, 0) {
        Ok(resultado) => Ok(resultado),
        Err(e) => Err(ErroAvaliacao::Sintatico(e)),
    }
}

} // verus!
