//! What holds of the evaluation for whole classes of item sequences.

use crate::erro::ErroSintatico;
use crate::item::ItemLexico;
use crate::sintatico::{elos, lema_erro_propaga, spec_expressao};
use vstd::prelude::*;

verus! {

/// The items of the sum of `valores`: the values as integers, with a `+`
/// between each two.
pub open spec fn itens_da_soma(valores: Seq<i64>) -> Seq<ItemLexico>
    decreases valores.len(),
{
    if valores.len() == 0 {
        Seq::empty()
    } else if valores.len() == 1 {
        seq![ItemLexico::Inteiro(valores[0])]
    } else {
        seq![ItemLexico::Inteiro(valores[0]), ItemLexico::Operador('+')] + itens_da_soma(
            valores.drop_first(),
        )
    }
}

/// The sum of `valores`, as a mathematical integer.
pub open spec fn soma(valores: Seq<i64>) -> int
    decreases valores.len(),
{
    if valores.len() == 0 {
        0
    } else {
        valores[0] + soma(valores.drop_first())
    }
}

/// No value of `valores` is negative.
pub open spec fn nao_negativos(valores: Seq<i64>) -> bool {
    forall|i: int| 0 <= i < valores.len() ==> #[trigger] valores[i] >= 0
}

/// What an expression is worth does not depend on the items before its
/// start.
pub proof fn lema_expressao_desloca(prefixo: Seq<ItemLexico>, tokens: Seq<ItemLexico>, delta: int)
    requires
        0 <= delta,
    ensures
        spec_expressao(prefixo + tokens, prefixo.len() + delta) == spec_expressao(tokens, delta),
    decreases tokens.len() - delta,
{
    if delta + 1 < tokens.len() {
        lema_expressao_desloca(prefixo, tokens, delta + 2);
    }
}

/// The sum of values of which none is negative is not negative.
proof fn lema_soma_nao_negativa(valores: Seq<i64>)
    requires
        nao_negativos(valores),
    ensures
        soma(valores) >= 0,
    decreases valores.len(),
{
    if valores.len() > 0 {
        lema_soma_nao_negativa(valores.drop_first());
    }
}

/// The items of a sum of values of which none is negative are worth the sum
/// of the values, or `EstouroAritmetico` where that sum is greater than
/// `i64::MAX`.
pub proof fn lema_soma_itens(valores: Seq<i64>)
    requires
        valores.len() > 0,
        nao_negativos(valores),
    ensures
        spec_expressao(itens_da_soma(valores), 0) == if soma(valores) <= i64::MAX {
            Ok::<i64, ErroSintatico>(soma(valores) as i64)
        } else {
            Err::<i64, ErroSintatico>(ErroSintatico::EstouroAritmetico)
        },
    decreases valores.len(),
{
    let resto = valores.drop_first();
    lema_soma_nao_negativa(resto);
    if valores.len() > 1 {
        lema_soma_itens(resto);
        let prefixo = seq![ItemLexico::Inteiro(valores[0]), ItemLexico::Operador('+')];
        lema_expressao_desloca(prefixo, itens_da_soma(resto), 0);
    }
}

/// An expression that ends with an operator is incomplete: where only
/// integers followed by operators stand from `delta` to the end of `tokens`,
/// the expression that starts at `delta` is `ExpressaoIncompleta`.
pub proof fn lema_expressao_incompleta(tokens: Seq<ItemLexico>, delta: int)
    requires
        elos(tokens, delta, tokens.len() as int),
    ensures
        spec_expressao(tokens, delta) == Err::<i64, ErroSintatico>(
            ErroSintatico::ExpressaoIncompleta,
        ),
{
    lema_erro_propaga(tokens, delta, tokens.len() as int);
}

/// The first item that stands where the grammar wants the other kind is the
/// error: after integers followed by operators from `delta` up to `fim`,
/// an operator at `fim`, or an integer right after the integer at `fim`,
/// makes the expression that starts at `delta` a `TokenInesperado` with
/// that item.
pub proof fn lema_token_inesperado(tokens: Seq<ItemLexico>, delta: int, fim: int)
    requires
        elos(tokens, delta, fim),
        fim < tokens.len(),
        tokens[fim] is Operador || (fim + 1 < tokens.len() && tokens[fim + 1] is Inteiro),
    ensures
        spec_expressao(tokens, delta) == Err::<i64, ErroSintatico>(
            ErroSintatico::TokenInesperado(
                if tokens[fim] is Operador {
                    tokens[fim]
                } else {
                    tokens[fim + 1]
                },
            ),
        ),
{
    lema_erro_propaga(tokens, delta, fim);
}

/// Two operators in a row are never accepted: an expression that starts at
/// or before them is a `TokenInesperado`.
pub proof fn lema_operadores_seguidos(tokens: Seq<ItemLexico>, delta: int, k: int)
    requires
        0 <= delta <= k + 1 < tokens.len(),
        tokens[k] is Operador,
        tokens[k + 1] is Operador,
    ensures
        spec_expressao(tokens, delta) matches Err(e) && e is TokenInesperado,
    decreases k + 1 - delta,
{
    if tokens[delta] is Inteiro && tokens[delta + 1] is Operador {
        lema_operadores_seguidos(tokens, delta + 2, k);
    }
}

/// An operator other than `+` is an error once its right operand has been
/// evaluated: after integers followed by operators from `delta` up to `fim`,
/// an integer at `fim`, such an operator after it and a rest that is worth
/// some value make the expression that starts at `delta` an
/// `OperadorNaoSuportado` with that operator.
pub proof fn lema_operador_nao_suportado(tokens: Seq<ItemLexico>, delta: int, fim: int)
    requires
        elos(tokens, delta, fim),
        fim + 1 < tokens.len(),
        tokens[fim] is Inteiro,
        tokens[fim + 1] matches ItemLexico::Operador(operador) && operador != '+',
        spec_expressao(tokens, fim + 2) is Ok,
    ensures
        spec_expressao(tokens, delta) == Err::<i64, ErroSintatico>(
            ErroSintatico::OperadorNaoSuportado(tokens[fim + 1]->Operador_0),
        ),
{
    lema_erro_propaga(tokens, delta, fim);
}

} // verus!
