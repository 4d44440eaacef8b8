//! The evaluator: from lexical items to the value of the expression.

use crate::erro::ErroSintatico;
use crate::item::ItemLexico;
use vstd::prelude::*;

verus! {

/// What a term at position `delta` of `tokens` is worth.
///
/// A term is an integer. An operator there is `TokenInesperado`, and a
/// position past the last item is `ExpressaoIncompleta`.
pub open spec fn spec_termo(tokens: Seq<ItemLexico>, delta: int) -> Result<i64, ErroSintatico> {
    if 0 <= delta < tokens.len() {
        match tokens[delta] {
            ItemLexico::Inteiro(n) => Ok(n),
            ItemLexico::Operador(_) => Err(ErroSintatico::TokenInesperado(tokens[delta])),
        }
    } else {
        Err(ErroSintatico::ExpressaoIncompleta)
    }
}

/// What `operador` makes of its two operands.
///
/// Only `+` has a rule: the sum, or `EstouroAritmetico` where the sum does
/// not fit in an `i64`. Any other operator is `OperadorNaoSuportado`,
/// whatever the operands are.
pub open spec fn spec_combinacao(operador: char, n1: i64, n2: i64) -> Result<i64, ErroSintatico> {
    if operador != '+' {
        Err(ErroSintatico::OperadorNaoSuportado(operador))
    } else if i64::MIN <= n1 + n2 <= i64::MAX {
        Ok((n1 + n2) as i64)
    } else {
        Err(ErroSintatico::EstouroAritmetico)
    }
}

/// What the expression that starts at position `delta` of `tokens` is worth,
/// by the grammar
///
/// ```text
/// expression := term (operator expression)?
/// term       := Integer
/// ```
///
/// The right operand of an operator is the whole rest of the expression, so
/// operands are combined from the right. The rest is evaluated before the
/// operator is looked at: an error in the rest comes before the error of an
/// operator to its left.
pub open spec fn spec_expressao(tokens: Seq<ItemLexico>, delta: int) -> Result<i64, ErroSintatico>
    decreases tokens.len() - delta,
{
    match spec_termo(tokens, delta) {
        Err(e) => Err(e),
        Ok(n1) => {
            if delta + 1 == tokens.len() {
                Ok(n1)
            } else {
                match tokens[delta + 1] {
                    ItemLexico::Inteiro(_) => Err(
                        ErroSintatico::TokenInesperado(tokens[delta + 1]),
                    ),
                    ItemLexico::Operador(operador) => match spec_expressao(tokens, delta + 2) {
                        Err(e) => Err(e),
                        Ok(n2) => spec_combinacao(operador, n1, n2),
                    },
                }
            }
        },
    }
}

/// From `delta` up to `fim`, two positions at a time, `tokens` holds an
/// integer followed by an operator.
pub open spec fn elos(tokens: Seq<ItemLexico>, delta: int, fim: int) -> bool {
    &&& 0 <= delta <= fim
    &&& (fim - delta) % 2 == 0
    &&& forall|i: int|
        delta <= i < fim && (i - delta) % 2 == 0 ==> {
            &&& i + 1 < tokens.len()
            &&& #[trigger] tokens[i] is Inteiro
            &&& tokens[i + 1] is Operador
        }
}

/// An error of the expression that starts at `fim` is the error of the
/// expression that starts at `delta`, where only integers followed by
/// operators stand between the two.
pub proof fn lema_erro_propaga(tokens: Seq<ItemLexico>, delta: int, fim: int)
    requires
        elos(tokens, delta, fim),
        spec_expressao(tokens, fim) is Err,
    ensures
        spec_expressao(tokens, delta) == spec_expressao(tokens, fim),
    decreases fim - delta,
{
    if delta < fim {
        // The expression that starts two places before `fim` has an integer
        // and an operator first, so it fails as its rest does.
        lema_erro_propaga(tokens, delta, fim - 2);
    }
}

/// Reads the term at position `delta` of `tokens`.
pub fn termo(tokens: &Vec<ItemLexico>, delta: usize) -> (r: Result<i64, ErroSintatico>)
    ensures
        r == spec_termo(tokens@, delta as int),
{
    if delta < tokens.len() {
        match tokens[delta] {
            ItemLexico::Inteiro(n) => Ok(n),
            ItemLexico::Operador(_) => Err(ErroSintatico::TokenInesperado(tokens[delta])),
        }
    } else {
        Err(ErroSintatico::ExpressaoIncompleta)
    }
}

/// Applies `operador` to its two operands.
pub fn combinar(operador: char, n1: i64, n2: i64) -> (r: Result<i64, ErroSintatico>)
    ensures
        r == spec_combinacao(operador, n1, n2),
{
    if operador != '+' {
        Err(ErroSintatico::OperadorNaoSuportado(operador))
    } else {
        match n1.checked_add(n2) {
            Some(soma) => Ok(soma),
            None => Err(ErroSintatico::EstouroAritmetico),
        }
    }
}

/// Evaluates the expression that starts at position `delta` of `tokens`.
///
/// The result is exactly `spec_expressao`. The items are walked twice, first
/// forwards to find where the expression ends or breaks off, then backwards
/// to combine the operands from the right, so that the depth of the call
/// stack does not grow with the length of the expression.
pub fn expressao(tokens: &Vec<ItemLexico>, delta: usize) -> (r: Result<i64, ErroSintatico>)
    ensures
        r == spec_expressao(tokens@, delta as int),
{
    let mut fim: usize = delta;
    let mut resultado: i64;
    loop
        invariant_except_break
            elos(tokens@, delta as int, fim as int),
        ensures
            elos(tokens@, delta as int, fim as int),
            spec_expressao(tokens@, fim as int) == Ok::<i64, ErroSintatico>(resultado),
        decreases tokens.len() - fim,
    {
        match termo(tokens, fim) {
            Ok(n) => {
                resultado = n;
            },
            Err(e) => {
                proof {
                    lema_erro_propaga(tokens@, delta as int, fim as int);
                }
                return Err(e);
            },
        }
        if fim + 1 == tokens.len() {
            break ;
        }
        match tokens[fim + 1] {
            ItemLexico::Operador(_) => {},
            ItemLexico::Inteiro(_) => {
                proof {
                    lema_erro_propaga(tokens@, delta as int, fim as int);
                }
                return Err(ErroSintatico::TokenInesperado(tokens[fim + 1]));
            },
        }
        fim += 2;
    }
    while fim > delta
        invariant
            elos(tokens@, delta as int, fim as int),
            spec_expressao(tokens@, fim as int) == Ok::<i64, ErroSintatico>(resultado),
        decreases fim,
    {
        fim -= 2;
        let n1: i64 = match tokens[fim] {
            ItemLexico::Inteiro(n) => n,
            ItemLexico::Operador(_) => unreached(),
        };
        let operador = match tokens[fim + 1] {
            ItemLexico::Operador(op) => op,
            ItemLexico::Inteiro(_) => unreached(),
        };
        match combinar(operador, n1, resultado) {
            Ok(soma) => {
                resultado = soma;
            },
            Err(e) => {
                proof {
                    lema_erro_propaga(tokens@, delta as int, fim as int);
                }
                return Err(e);
            },
        }
    }
    Ok(resultado)
}

} // verus!
