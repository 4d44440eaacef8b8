//! What holds of the evaluation of whole classes of texts.

use crate::avaliacao::spec_avaliar;
use crate::erro::{ErroAvaliacao, ErroLexico, ErroSintatico};
use crate::item::ItemLexico;
use crate::lemas_lexico::{
    lema_caracter_inesperado, lema_lexer_brancos, lema_lexer_concatena, lema_lexer_numero,
    no_alfabeto, todos_brancos,
};
use crate::lemas_sintatico::{
    itens_da_soma, lema_expressao_incompleta, lema_operador_nao_suportado,
    lema_operadores_seguidos, lema_soma_itens, nao_negativos, soma,
};
use crate::lexico::{spec_lexer, todos_digitos, valor_decimal};
use crate::sintatico::{elos, spec_expressao};
use vstd::prelude::*;

verus! {

/// A summand as it is written in a text: a run of digits with white space
/// before and after it.
pub struct Parcela {
    /// The white space before the digits; may be empty.
    pub antes: Seq<char>,
    /// The digits; at least one.
    pub digitos: Seq<char>,
    /// The white space after the digits; may be empty.
    pub depois: Seq<char>,
}

impl Parcela {
    /// The three parts hold what they are meant to hold.
    pub open spec fn valida(self) -> bool {
        &&& todos_brancos(self.antes)
        &&& self.digitos.len() > 0
        &&& todos_digitos(self.digitos)
        &&& todos_brancos(self.depois)
    }

    /// The summand as text.
    pub open spec fn texto(self) -> Seq<char> {
        self.antes + self.digitos + self.depois
    }

    /// The number that the digits denote.
    pub open spec fn valor(self) -> int {
        valor_decimal(self.digitos)
    }
}

/// The text of a sum: the summands in order, with a `+` between each two.
pub open spec fn texto_da_soma(parcelas: Seq<Parcela>) -> Seq<char>
    decreases parcelas.len(),
{
    if parcelas.len() == 0 {
        Seq::empty()
    } else if parcelas.len() == 1 {
        parcelas[0].texto()
    } else {
        parcelas[0].texto() + seq!['+'] + texto_da_soma(parcelas.drop_first())
    }
}

/// The sum of the numbers that the summands denote.
pub open spec fn valor_da_soma(parcelas: Seq<Parcela>) -> int
    decreases parcelas.len(),
{
    if parcelas.len() == 0 {
        0
    } else {
        parcelas[0].valor() + valor_da_soma(parcelas.drop_first())
    }
}

/// Every summand is well formed.
pub open spec fn parcelas_validas(parcelas: Seq<Parcela>) -> bool {
    forall|i: int| 0 <= i < parcelas.len() ==> (#[trigger] parcelas[i]).valida()
}

/// Every summand denotes a number that fits in an `i64`.
pub open spec fn parcelas_cabem(parcelas: Seq<Parcela>) -> bool {
    forall|i: int| 0 <= i < parcelas.len() ==> (#[trigger] parcelas[i]).valor() <= i64::MAX
}

/// The numbers that the summands denote, as `i64`.
pub open spec fn valores(parcelas: Seq<Parcela>) -> Seq<i64> {
    Seq::new(parcelas.len(), |i: int| parcelas[i].valor() as i64)
}

/// What holds of every summand holds of the first and of the rest, and the
/// other way round.
proof fn lema_primeira_e_resto(parcelas: Seq<Parcela>)
    requires
        parcelas.len() > 0,
    ensures
        parcelas_validas(parcelas) <==> parcelas[0].valida() && parcelas_validas(
            parcelas.drop_first(),
        ),
        parcelas_cabem(parcelas) <==> parcelas[0].valor() <= i64::MAX && parcelas_cabem(
            parcelas.drop_first(),
        ),
{
    let resto = parcelas.drop_first();
    if parcelas[0].valida() && parcelas_validas(resto) {
        assert forall|i: int| 0 <= i < parcelas.len() implies (#[trigger] parcelas[i]).valida() by {
            if i > 0 {
                assert(resto[i - 1].valida());
            }
        }
    }
    if parcelas[0].valor() <= i64::MAX && parcelas_cabem(resto) {
        assert forall|i: int| 0 <= i < parcelas.len() implies {
            (#[trigger] parcelas[i]).valor() <= i64::MAX
        } by {
            if i > 0 {
                assert(resto[i - 1].valor() <= i64::MAX);
            }
        }
    }
}

/// A summand is split into one item, its number, whatever white space
/// stands around the digits.
pub proof fn lema_lexer_parcela(parcela: Parcela)
    requires
        parcela.valida(),
    ensures
        0 <= parcela.valor(),
        spec_lexer(parcela.texto()) == if parcela.valor() <= i64::MAX {
            Ok::<Seq<ItemLexico>, ErroLexico>(seq![ItemLexico::Inteiro(parcela.valor() as i64)])
        } else {
            Err::<Seq<ItemLexico>, ErroLexico>(ErroLexico::EstouroInteiro)
        },
{
    let a = parcela.antes;
    let d = parcela.digitos;
    let b = parcela.depois;
    lema_lexer_brancos(a);
    lema_lexer_numero(d);
    lema_lexer_brancos(b);
    lema_lexer_concatena(d, b);
    lema_lexer_concatena(a, d + b);
    assert(a + d + b =~= a + (d + b));
}

/// The numbers of summands that all fit in an `i64` are not negative, and
/// their sum is the sum of what the summands denote.
proof fn lema_valores(parcelas: Seq<Parcela>)
    requires
        parcelas_validas(parcelas),
        parcelas_cabem(parcelas),
    ensures
        nao_negativos(valores(parcelas)),
        soma(valores(parcelas)) == valor_da_soma(parcelas),
    decreases parcelas.len(),
{
    assert forall|i: int| 0 <= i < parcelas.len() implies {
        #[trigger] valores(parcelas)[i] >= 0
    } by {
        lema_lexer_numero(parcelas[i].digitos);
    }
    if parcelas.len() > 0 {
        let resto = parcelas.drop_first();
        lema_primeira_e_resto(parcelas);
        lema_valores(resto);
        assert(valores(parcelas).drop_first() =~= valores(resto));
        lema_lexer_numero(parcelas[0].digitos);
        assert(valores(parcelas)[0] == parcelas[0].valor());
    }
}

/// The text of a sum is split into the items of the sum of its numbers,
/// unless one of the numbers does not fit in an `i64`.
pub proof fn lema_lexer_soma(parcelas: Seq<Parcela>)
    requires
        parcelas_validas(parcelas),
    ensures
        spec_lexer(texto_da_soma(parcelas)) == if parcelas_cabem(parcelas) {
            Ok::<Seq<ItemLexico>, ErroLexico>(itens_da_soma(valores(parcelas)))
        } else {
            Err::<Seq<ItemLexico>, ErroLexico>(ErroLexico::EstouroInteiro)
        },
    decreases parcelas.len(),
{
    if parcelas.len() > 0 {
        let primeira = parcelas[0];
        let resto = parcelas.drop_first();
        lema_primeira_e_resto(parcelas);
        lema_lexer_parcela(primeira);
        if parcelas.len() > 1 {
            lema_lexer_soma(resto);
            let seguinte = seq!['+'] + texto_da_soma(resto);
            assert(texto_da_soma(parcelas) =~= primeira.texto() + seguinte);
            assert(seguinte.drop_first() =~= texto_da_soma(resto));
            lema_lexer_concatena(primeira.texto(), seguinte);
            if parcelas_cabem(parcelas) {
                let n = primeira.valor() as i64;
                let itens = itens_da_soma(valores(resto));
                assert(valores(parcelas).drop_first() =~= valores(resto));
                assert(seq![ItemLexico::Inteiro(n)] + (seq![ItemLexico::Operador('+')] + itens)
                    =~= seq![ItemLexico::Inteiro(n), ItemLexico::Operador('+')] + itens);
            }
        }
    }
}

/// No summand denotes more than the sum, and none a negative number.
proof fn lema_parcela_limitada(parcelas: Seq<Parcela>)
    requires
        parcelas_validas(parcelas),
    ensures
        0 <= valor_da_soma(parcelas),
        forall|i: int|
            0 <= i < parcelas.len() ==> 0 <= (#[trigger] parcelas[i]).valor() <= valor_da_soma(
                parcelas,
            ),
    decreases parcelas.len(),
{
    if parcelas.len() > 0 {
        let resto = parcelas.drop_first();
        lema_primeira_e_resto(parcelas);
        lema_parcela_limitada(resto);
        lema_lexer_numero(parcelas[0].digitos);
        assert forall|i: int| 0 <= i < parcelas.len() implies {
            0 <= (#[trigger] parcelas[i]).valor() <= valor_da_soma(parcelas)
        } by {
            if i > 0 {
                assert(parcelas[i] == resto[i - 1]);
            }
        }
    }
}

/// A text of the form `d1 + d2 + ... + dk`, each `di` a run of digits, with
/// any amount of white space around the numbers, is worth the sum of the
/// numbers, wherever that sum fits in an `i64`.
///
/// Where the sum does not fit, the text is an error: `EstouroInteiro` where
/// already one of the numbers does not fit, `EstouroAritmetico` otherwise.
pub proof fn lema_avaliar_soma(parcelas: Seq<Parcela>)
    requires
        parcelas_validas(parcelas),
    ensures
        valor_da_soma(parcelas) <= i64::MAX ==> spec_avaliar(texto_da_soma(parcelas)) == Ok::<
            i64,
            ErroAvaliacao,
        >(valor_da_soma(parcelas) as i64),
        valor_da_soma(parcelas) > i64::MAX ==> spec_avaliar(texto_da_soma(parcelas)) == Err::<
            i64,
            ErroAvaliacao,
        >(
            if parcelas_cabem(parcelas) {
                ErroAvaliacao::Sintatico(ErroSintatico::EstouroAritmetico)
            } else {
                ErroAvaliacao::Lexico(ErroLexico::EstouroInteiro)
            },
        ),
{
    lema_lexer_soma(parcelas);
    lema_parcela_limitada(parcelas);
    if parcelas.len() > 0 && parcelas_cabem(parcelas) {
        lema_valores(parcelas);
        lema_soma_itens(valores(parcelas));
    }
}

/// An empty text, and a text of white space only, is worth 0.
pub proof fn lema_avaliar_brancos(s: Seq<char>)
    requires
        todos_brancos(s),
    ensures
        spec_avaliar(s) == Ok::<i64, ErroAvaliacao>(0),
{
    lema_lexer_brancos(s);
}

/// A text that holds a character which the lexer does not accept is an
/// error of the lexer. Where `p` is the place of the first such character,
/// the error is `CaracterInesperado` with that character, unless a run of
/// digits before it is too large, which is then the error.
pub proof fn lema_avaliar_caracter_inesperado(s: Seq<char>, p: int)
    requires
        0 <= p < s.len(),
        !no_alfabeto(s[p]),
        forall|i: int| 0 <= i < p ==> no_alfabeto(#[trigger] s[i]),
    ensures
        spec_avaliar(s) == Err::<i64, ErroAvaliacao>(
            ErroAvaliacao::Lexico(
                if spec_lexer(s.take(p)) is Ok {
                    ErroLexico::CaracterInesperado(s[p])
                } else {
                    ErroLexico::EstouroInteiro
                },
            ),
        ),
{
    lema_caracter_inesperado(s, p);
}

/// A text that ends right after an operator is incomplete: where its items
/// are integers, each followed by an operator, and nothing else, the text is
/// `ExpressaoIncompleta`.
pub proof fn lema_avaliar_incompleta(s: Seq<char>, tokens: Seq<ItemLexico>)
    requires
        spec_lexer(s) == Ok::<Seq<ItemLexico>, ErroLexico>(tokens),
        tokens.len() > 0,
        elos(tokens, 0, tokens.len() as int),
    ensures
        spec_avaliar(s) == Err::<i64, ErroAvaliacao>(
            ErroAvaliacao::Sintatico(ErroSintatico::ExpressaoIncompleta),
        ),
{
    lema_expressao_incompleta(tokens, 0);
}

/// A text with two operators in a row, the items at `k` and `k + 1`, is a
/// `TokenInesperado`.
pub proof fn lema_avaliar_operadores_seguidos(s: Seq<char>, tokens: Seq<ItemLexico>, k: int)
    requires
        spec_lexer(s) == Ok::<Seq<ItemLexico>, ErroLexico>(tokens),
        0 <= k,
        k + 1 < tokens.len(),
        tokens[k] is Operador,
        tokens[k + 1] is Operador,
    ensures
        spec_avaliar(s) matches Err(ErroAvaliacao::Sintatico(e)) && e is TokenInesperado,
{
    lema_operadores_seguidos(tokens, 0, k);
}

/// A text with a `-` between two operands is an `OperadorNaoSuportado`:
/// where the items up to `fim` are integers, each followed by an operator,
/// the item at `fim` is an integer, the next one is `-`, and the items after
/// it are worth some value, that is the error of the text.
pub proof fn lema_avaliar_subtracao(s: Seq<char>, tokens: Seq<ItemLexico>, fim: int)
    requires
        spec_lexer(s) == Ok::<Seq<ItemLexico>, ErroLexico>(tokens),
        elos(tokens, 0, fim),
        fim + 1 < tokens.len(),
        tokens[fim] is Inteiro,
        tokens[fim + 1] == ItemLexico::Operador('-'),
        spec_expressao(tokens, fim + 2) is Ok,
    ensures
        spec_avaliar(s) == Err::<i64, ErroAvaliacao>(
            ErroAvaliacao::Sintatico(ErroSintatico::OperadorNaoSuportado('-')),
        ),
{
    lema_operador_nao_suportado(tokens, 0, fim);
}

} // verus!
