//! What holds of the lexer for whole classes of texts.

use crate::erro::ErroLexico;
use crate::item::ItemLexico;
use crate::lexico::{
    comprimento_digitos, eh_branco, eh_digito, eh_operador, lema_comprimento_digitos,
    lema_seguido_associativo, lema_valor_decimal_nao_negativo, seguido, spec_lexer, todos_digitos,
    valor_decimal,
};
use vstd::prelude::*;

verus! {

/// Every character of `s` is white space.
pub open spec fn todos_brancos(s: Seq<char>) -> bool {
    forall|i: int| 0 <= i < s.len() ==> eh_branco(#[trigger] s[i])
}

/// `c` is a character that the lexer accepts.
pub open spec fn no_alfabeto(c: char) -> bool {
    eh_digito(c) || eh_branco(c) || eh_operador(c)
}

/// No run of digits reaches from the end of `a` into the front of `b`.
pub open spec fn fronteira_limpa(a: Seq<char>, b: Seq<char>) -> bool {
    a.len() == 0 || b.len() == 0 || !eh_digito(a.last()) || !eh_digito(b[0])
}

/// The run of digits at the front of `s` has length `n` where the first `n`
/// characters are digits and the next one, if there is one, is not.
pub proof fn lema_comprimento_digitos_unico(s: Seq<char>, n: int)
    requires
        0 <= n <= s.len(),
        todos_digitos(s.take(n)),
        n < s.len() ==> !eh_digito(s[n]),
    ensures
        comprimento_digitos(s) == n,
    decreases n,
{
    if n > 0 {
        assert(s[0] == s.take(n)[0]);
        let r = s.drop_first();
        assert forall|i: int| 0 <= i < n - 1 implies eh_digito(#[trigger] r.take(n - 1)[i]) by {
            assert(r.take(n - 1)[i] == s.take(n)[i + 1]);
        }
        lema_comprimento_digitos_unico(r, n - 1);
    }
}

/// Lexing is compositional: where no run of digits crosses the seam, the
/// items of `a + b` are the items of `a` followed by the items of `b`, and
/// the first error of the two is the error of the whole.
pub proof fn lema_lexer_concatena(a: Seq<char>, b: Seq<char>)
    requires
        fronteira_limpa(a, b),
    ensures
        spec_lexer(a + b) == seguido(spec_lexer(a), spec_lexer(b)),
    decreases a.len(),
{
    let ab = a + b;
    if a.len() == 0 {
        // `spec_lexer(a)` holds no items, and `a + b` is `b`.
    } else if eh_branco(a[0]) || eh_operador(a[0]) {
        let r = a.drop_first();
        assert(ab.drop_first() =~= r + b);
        lema_lexer_concatena(r, b);
        lema_seguido_associativo(
            Ok(seq![ItemLexico::Operador(a[0])]),
            spec_lexer(r),
            spec_lexer(b),
        );
    } else if eh_digito(a[0]) {
        let n = comprimento_digitos(a) as int;
        lema_comprimento_digitos(a);
        assert(ab.take(n) =~= a.take(n));
        lema_comprimento_digitos_unico(ab, n);
        let valor = valor_decimal(a.take(n));
        if valor <= i64::MAX {
            let r = a.skip(n);
            assert(ab.skip(n) =~= r + b);
            lema_lexer_concatena(r, b);
            lema_seguido_associativo(
                Ok(seq![ItemLexico::Inteiro(valor as i64)]),
                spec_lexer(r),
                spec_lexer(b),
            );
        }
    }
}

/// A text of white space only holds no items.
pub proof fn lema_lexer_brancos(s: Seq<char>)
    requires
        todos_brancos(s),
    ensures
        spec_lexer(s) == Ok::<Seq<ItemLexico>, ErroLexico>(Seq::empty()),
    decreases s.len(),
{
    if s.len() > 0 {
        lema_lexer_brancos(s.drop_first());
    }
}

/// A text of digits only holds one item, the value of the digits, unless
/// that value is greater than `i64::MAX`.
pub proof fn lema_lexer_numero(digitos: Seq<char>)
    requires
        digitos.len() > 0,
        todos_digitos(digitos),
    ensures
        0 <= valor_decimal(digitos),
        spec_lexer(digitos) == if valor_decimal(digitos) <= i64::MAX {
            Ok::<Seq<ItemLexico>, ErroLexico>(
                seq![ItemLexico::Inteiro(valor_decimal(digitos) as i64)],
            )
        } else {
            Err::<Seq<ItemLexico>, ErroLexico>(ErroLexico::EstouroInteiro)
        },
{
    let n = digitos.len() as int;
    assert(digitos.take(n) =~= digitos);
    lema_comprimento_digitos_unico(digitos, n);
    lema_valor_decimal_nao_negativo(digitos);
    assert(spec_lexer(digitos.skip(n)) == Ok::<Seq<ItemLexico>, ErroLexico>(Seq::empty()));
}

/// White space between two texts, however much of it, is not seen in the
/// items: they are the items of the first text followed by those of the
/// second. With no white space at all this holds where no run of digits
/// crosses the seam.
pub proof fn lema_brancos_ignorados(a: Seq<char>, brancos: Seq<char>, b: Seq<char>)
    requires
        todos_brancos(brancos),
        brancos.len() > 0 || fronteira_limpa(a, b),
    ensures
        spec_lexer(a + brancos + b) == seguido(spec_lexer(a), spec_lexer(b)),
{
    if brancos.len() == 0 {
        lema_lexer_concatena(a, b);
    } else {
        assert(a + brancos + b =~= a + (brancos + b));
        lema_lexer_concatena(a, brancos + b);
        lema_lexer_concatena(brancos, b);
        lema_lexer_brancos(brancos);
    }
}

/// A text of accepted characters only is split into items, unless a run of
/// digits is too large: no other error is possible.
pub proof fn lema_lexer_alfabeto(s: Seq<char>)
    requires
        forall|i: int| 0 <= i < s.len() ==> no_alfabeto(#[trigger] s[i]),
    ensures
        spec_lexer(s) is Ok || spec_lexer(s) == Err::<Seq<ItemLexico>, ErroLexico>(
            ErroLexico::EstouroInteiro,
        ),
    decreases s.len(),
{
    if s.len() > 0 {
        lema_comprimento_digitos(s);
        let resto = if eh_digito(s[0]) {
            s.skip(comprimento_digitos(s) as int)
        } else {
            s.drop_first()
        };
        assert forall|i: int| 0 <= i < resto.len() implies no_alfabeto(#[trigger] resto[i]) by {
            assert(resto[i] == s[i + s.len() - resto.len()]);
        }
        lema_lexer_alfabeto(resto);
    }
}

/// A text that holds a character which the lexer does not accept is not
/// split into items. Where `p` is the place of the first such character, the
/// error is `CaracterInesperado` with that character, unless a run of digits
/// before it is too large, which is then the error.
pub proof fn lema_caracter_inesperado(s: Seq<char>, p: int)
    requires
        0 <= p < s.len(),
        !no_alfabeto(s[p]),
        forall|i: int| 0 <= i < p ==> no_alfabeto(#[trigger] s[i]),
    ensures
        spec_lexer(s) == if spec_lexer(s.take(p)) is Ok {
            Err::<Seq<ItemLexico>, ErroLexico>(ErroLexico::CaracterInesperado(s[p]))
        } else {
            Err::<Seq<ItemLexico>, ErroLexico>(ErroLexico::EstouroInteiro)
        },
{
    let a = s.take(p);
    let b = s.skip(p);
    assert(s =~= a + b);
    lema_lexer_concatena(a, b);
    lema_lexer_alfabeto(a);
}

} // verus!
