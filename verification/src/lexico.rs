//! The lexer: from a text to its lexical items.

use crate::cursor::Cursor;
use crate::erro::ErroLexico;
use crate::item::ItemLexico;
use vstd::prelude::*;

verus! {

/// `c` is one of the decimal digits `0` to `9`.
pub open spec fn eh_digito(c: char) -> bool {
    '0' <= c && c <= '9'
}

/// `c` is a space, a tab or a line feed.
pub open spec fn eh_branco(c: char) -> bool {
    c == ' ' || c == '\t' || c == '\n'
}

/// `c` is `+` or `-`.
pub open spec fn eh_operador(c: char) -> bool {
    c == '+' || c == '-'
}

/// The value of the digit `c`.
pub open spec fn valor_digito(c: char) -> int
    recommends
        eh_digito(c),
{
    c as int - '0' as int
}

/// The value that `digitos` denotes in base ten; the empty sequence denotes 0.
pub open spec fn valor_decimal(digitos: Seq<char>) -> int
    decreases digitos.len(),
{
    if digitos.len() == 0 {
        0
    } else {
        10 * valor_decimal(digitos.drop_last()) + valor_digito(digitos.last())
    }
}

/// The number of digits at the front of `s`, up to its first character that
/// is no digit.
pub open spec fn comprimento_digitos(s: Seq<char>) -> nat
    decreases s.len(),
{
    if s.len() > 0 && eh_digito(s[0]) {
        1 + comprimento_digitos(s.drop_first())
    } else {
        0
    }
}

/// Every character of `s` is a digit.
pub open spec fn todos_digitos(s: Seq<char>) -> bool {
    forall|i: int| 0 <= i < s.len() ==> eh_digito(#[trigger] s[i])
}

/// The items of `primeiro` followed by those of `segundo`; where either is
/// an error, the error, that of `primeiro` before that of `segundo`.
pub open spec fn seguido(
    primeiro: Result<Seq<ItemLexico>, ErroLexico>,
    segundo: Result<Seq<ItemLexico>, ErroLexico>,
) -> Result<Seq<ItemLexico>, ErroLexico> {
    match (primeiro, segundo) {
        (Ok(itens), Ok(seguintes)) => Ok(itens + seguintes),
        (Ok(_), Err(e)) => Err(e),
        (Err(e), _) => Err(e),
    }
}

/// `item` put in front of the items of `resto`; an error stays as it is.
pub open spec fn anteposto(item: ItemLexico, resto: Result<Seq<ItemLexico>, ErroLexico>) -> Result<
    Seq<ItemLexico>,
    ErroLexico,
> {
    seguido(Ok(seq![item]), resto)
}

/// What the lexer makes of the text `s`: the items in the order of the text,
/// or the first error met from the left.
///
/// White space yields nothing, `+` and `-` yield an operator each, and a
/// maximal run of digits yields its decimal value, or `EstouroInteiro` where
/// that value is greater than `i64::MAX`. Any other character is an error.
pub open spec fn spec_lexer(s: Seq<char>) -> Result<Seq<ItemLexico>, ErroLexico>
    decreases s.len(),
{
    if s.len() == 0 {
        Ok(Seq::empty())
    } else if eh_branco(s[0]) {
        spec_lexer(s.drop_first())
    } else if eh_operador(s[0]) {
        anteposto(ItemLexico::Operador(s[0]), spec_lexer(s.drop_first()))
    } else if eh_digito(s[0]) {
        let n = comprimento_digitos(s) as int;
        let valor = valor_decimal(s.take(n));
        if valor > i64::MAX {
            Err(ErroLexico::EstouroInteiro)
        } else {
            proof {
                lema_comprimento_digitos(s);
            }
            anteposto(ItemLexico::Inteiro(valor as i64), spec_lexer(s.skip(n)))
        }
    } else {
        Err(ErroLexico::CaracterInesperado(s[0]))
    }
}

/// Putting sequences of items one after another is associative, also where
/// some of them are errors.
pub proof fn lema_seguido_associativo(
    primeiro: Result<Seq<ItemLexico>, ErroLexico>,
    segundo: Result<Seq<ItemLexico>, ErroLexico>,
    terceiro: Result<Seq<ItemLexico>, ErroLexico>,
)
    ensures
        seguido(seguido(primeiro, segundo), terceiro) == seguido(
            primeiro,
            seguido(segundo, terceiro),
        ),
{
    if primeiro is Ok && segundo is Ok && terceiro is Ok {
        let a = primeiro->Ok_0;
        let b = segundo->Ok_0;
        let c = terceiro->Ok_0;
        assert((a + b) + c =~= a + (b + c));
    }
}

/// An item put in front of what follows is the same as that item appended
/// to what came before.
proof fn lema_item_acrescentado(
    antes: Seq<ItemLexico>,
    item: ItemLexico,
    seguintes: Result<Seq<ItemLexico>, ErroLexico>,
)
    ensures
        seguido(Ok(antes), anteposto(item, seguintes)) == seguido(Ok(antes.push(item)), seguintes),
{
    lema_seguido_associativo(Ok(antes), Ok(seq![item]), seguintes);
    assert(antes + seq![item] =~= antes.push(item));
}

/// The run of digits at the front of `s` holds digits only and ends at the
/// end of `s` or before a character that is no digit.
pub proof fn lema_comprimento_digitos(s: Seq<char>)
    ensures
        comprimento_digitos(s) <= s.len(),
        todos_digitos(s.take(comprimento_digitos(s) as int)),
        comprimento_digitos(s) < s.len() ==> !eh_digito(s[comprimento_digitos(s) as int]),
    decreases s.len(),
{
    if s.len() > 0 && eh_digito(s[0]) {
        let r = s.drop_first();
        lema_comprimento_digitos(r);
        let n = comprimento_digitos(s) as int;
        assert forall|i: int| 0 <= i < n implies eh_digito(#[trigger] s.take(n)[i]) by {
            if i > 0 {
                assert(s.take(n)[i] == r.take(n - 1)[i - 1]);
            }
        }
    }
}

/// The value of a sequence of digits is not negative.
pub proof fn lema_valor_decimal_nao_negativo(digitos: Seq<char>)
    requires
        todos_digitos(digitos),
    ensures
        valor_decimal(digitos) >= 0,
    decreases digitos.len(),
{
    if digitos.len() > 0 {
        lema_valor_decimal_nao_negativo(digitos.drop_last());
    }
}

/// Digits written after a sequence of digits do not make its value smaller.
pub proof fn lema_valor_decimal_monotono(digitos: Seq<char>, mais: Seq<char>)
    requires
        todos_digitos(digitos),
        todos_digitos(mais),
    ensures
        valor_decimal(digitos) <= valor_decimal(digitos + mais),
    decreases mais.len(),
{
    if mais.len() > 0 {
        lema_valor_decimal_monotono(digitos, mais.drop_last());
        assert((digitos + mais).drop_last() =~= digitos + mais.drop_last());
        lema_valor_decimal_nao_negativo(digitos);
    }
}

/// The lexer makes operators of `+` and `-` only, and no negative integer.
pub proof fn lema_itens_do_lexer(s: Seq<char>)
    requires
        spec_lexer(s) is Ok,
    ensures
        forall|i: int|
            0 <= i < spec_lexer(s)->Ok_0.len() ==> (#[trigger] spec_lexer(s)->Ok_0[i]).bem_formado(),
    decreases s.len(),
{
    if s.len() > 0 {
        if eh_branco(s[0]) || eh_operador(s[0]) {
            lema_itens_do_lexer(s.drop_first());
        } else {
            let n = comprimento_digitos(s) as int;
            lema_comprimento_digitos(s);
            lema_valor_decimal_nao_negativo(s.take(n));
            lema_itens_do_lexer(s.skip(n));
        }
    }
}

/// The value of the digit `c`.
fn converter_digito(c: char) -> (r: i64)
    requires
        eh_digito(c),
    ensures
        r == valor_digito(c),
{
    (c as u32 - '0' as u32) as i64
}

/// Reads the number whose first digit `c` has just been consumed: consumes
/// the digits that follow and returns the value of the whole run.
///
/// Where that value is greater than `i64::MAX` the result is
/// `EstouroInteiro`, and the cursor is left before the first digit with which
/// the value no longer fits.
pub fn obter_numero(c: char, iterador: &mut Cursor) -> (r: Result<i64, ErroLexico>)
    requires
        eh_digito(c),
    ensures
        ({
            let resto = old(iterador)@;
            let n = comprimento_digitos(resto) as int;
            let valor = valor_decimal(seq![c] + resto.take(n));
            if valor <= i64::MAX {
                &&& r == Ok::<i64, ErroLexico>(valor as i64)
                &&& final(iterador)@ == resto.skip(n)
            } else {
                let k = resto.len() - final(iterador)@.len();
                &&& r == Err::<i64, ErroLexico>(ErroLexico::EstouroInteiro)
                &&& 0 <= k < n
                &&& final(iterador)@ == resto.skip(k)
                &&& valor_decimal(seq![c] + resto.take(k)) <= i64::MAX
                &&& valor_decimal(seq![c] + resto.take(k + 1)) > i64::MAX
            }
        }),
{
    let ghost resto = iterador@;
    let ghost n: int = comprimento_digitos(resto) as int;
    let ghost k: int = 0;
    let mut numero: i64 = converter_digito(c);
    proof {
        lema_comprimento_digitos(resto);
        assert(valor_decimal(seq![c].drop_last()) == 0);
    }
    loop
        invariant
            eh_digito(c),
            resto == old(iterador)@,
            n == comprimento_digitos(resto),
            n <= resto.len(),
            todos_digitos(resto.take(n)),
            n < resto.len() ==> !eh_digito(resto[n]),
            0 <= k <= n,
            iterador@ == resto.skip(k),
            numero == valor_decimal(seq![c] + resto.take(k)),
            0 <= numero,
        decreases n - k,
    {
        let proximo = match iterador.peek() {
            Some(d) => d,
            None => {
                return Ok(numero);
            },
        };
        if !('0' <= proximo && proximo <= '9') {
            assert(k == n) by {
                if k < n {
                    assert(resto.take(n)[k] == resto[k]);
                }
            }
            return Ok(numero);
        }
        proof {
            let ate = seq![c] + resto.take(k + 1);
            let depois = resto.subrange(k + 1, n);
            assert(ate.drop_last() =~= seq![c] + resto.take(k));
            assert(seq![c] + resto.take(n) =~= ate + depois);
            assert forall|i: int| 0 <= i < depois.len() implies eh_digito(#[trigger] depois[i]) by {
                assert(depois[i] == resto.take(n)[k + 1 + i]);
            }
            lema_valor_decimal_monotono(ate, depois);
        }
        let dezena: i64 = match numero.checked_mul(10) {
            Some(v) => v,
            None => {
                return Err(ErroLexico::EstouroInteiro);
            },
        };
        numero = match dezena.checked_add(converter_digito(proximo)) {
            Some(v) => v,
            None => {
                return Err(ErroLexico::EstouroInteiro);
            },
        };
        iterador.next();
        proof {
            k = k + 1;
        }
    }
}

/// Splits `input` into its lexical items, in the order of the text.
///
/// The result is exactly `spec_lexer` of the text: the items, or the first
/// error from the left, with no items at all. The items are operators `+`
/// and `-` and integers that are not negative.
pub fn lexer(input: &str) -> (r: Result<Vec<ItemLexico>, ErroLexico>)
    ensures
        match r {
            Ok(tokens) => spec_lexer(input@) == Ok::<Seq<ItemLexico>, ErroLexico>(tokens@),
            Err(e) => spec_lexer(input@) == Err::<Seq<ItemLexico>, ErroLexico>(e),
        },
        r matches Ok(tokens) ==> forall|i: int|
            0 <= i < tokens@.len() ==> (#[trigger] tokens@[i]).bem_formado(),
{
    let mut tokens: Vec<ItemLexico> = Vec::new();
    let mut iterador = Cursor::new(input);
    loop
        invariant
            spec_lexer(input@) == seguido(Ok(tokens@), spec_lexer(iterador@)),
        decreases iterador@.len(),
    {
        let ghost resto = iterador@;
        let ghost antes = tokens@;
        let c = match iterador.peek() {
            Some(c) => c,
            None => {
                proof {
                    lema_itens_do_lexer(input@);
                }
                return Ok(tokens);
            },
        };
        if '0' <= c && c <= '9' {
            iterador.next();
            proof {
                lema_comprimento_digitos(resto);
                let n: int = comprimento_digitos(resto) as int;
                assert(resto.take(n) =~= seq![c] + resto.drop_first().take(n - 1));
                assert(resto.skip(n) =~= resto.drop_first().skip(n - 1));
            }
            match obter_numero(c, &mut iterador) {
                Ok(n) => {
                    tokens.push(ItemLexico::Inteiro(n));
                    proof {
                        lema_item_acrescentado(antes, ItemLexico::Inteiro(n), spec_lexer(iterador@));
                    }
                },
                Err(e) => {
                    return Err(e);
                },
            }
        } else if c == ' ' || c == '\t' || c == '\n' {
            iterador.next();
        } else if c == '+' || c == '-' {
            tokens.push(ItemLexico::Operador(c));
            iterador.next();
            proof {
                lema_item_acrescentado(antes, ItemLexico::Operador(c), spec_lexer(iterador@));
            }
        } else {
            return Err(ErroLexico::CaracterInesperado(c));
        }
    }
}

} // verus!
