use avaliador::{lexer, obter_numero, Cursor, ErroLexico, ItemLexico};

fn inteiro(n: i64) -> ItemLexico {
    ItemLexico::Inteiro(n)
}

fn operador(c: char) -> ItemLexico {
    ItemLexico::Operador(c)
}

#[test]
fn lexer_de_uma_soma() {
    assert_eq!(
        lexer("1 + 2 + 3"),
        Ok(vec![
            inteiro(1),
            operador('+'),
            inteiro(2),
            operador('+'),
            inteiro(3)
        ])
    );
}

#[test]
fn lexer_de_texto_vazio() {
    assert_eq!(lexer(""), Ok(vec![]));
}

#[test]
fn lexer_de_brancos() {
    assert_eq!(lexer(" \t\n  "), Ok(vec![]));
}

#[test]
fn lexer_aceita_os_dois_operadores() {
    assert_eq!(lexer("+"), Ok(vec![operador('+')]));
    assert_eq!(lexer("-"), Ok(vec![operador('-')]));
    assert_eq!(
        lexer("-+ -"),
        Ok(vec![operador('-'), operador('+'), operador('-')])
    );
    assert_eq!(
        lexer("3-2"),
        Ok(vec![inteiro(3), operador('-'), inteiro(2)])
    );
}

#[test]
fn lexer_junta_os_digitos_seguidos() {
    assert_eq!(lexer("1234567890"), Ok(vec![inteiro(1234567890)]));
    assert_eq!(lexer("12 34"), Ok(vec![inteiro(12), inteiro(34)]));
    assert_eq!(lexer("12\n34"), Ok(vec![inteiro(12), inteiro(34)]));
    assert_eq!(
        lexer("12+34"),
        Ok(vec![inteiro(12), operador('+'), inteiro(34)])
    );
}

#[test]
fn lexer_nao_ve_os_brancos() {
    let esperado = Ok(vec![inteiro(10), operador('+'), inteiro(2)]);
    assert_eq!(lexer("10+2"), esperado);
    assert_eq!(lexer(" 10 + 2 "), esperado);
    assert_eq!(lexer("\t10\n\n+\t \t2\n"), esperado);
}

#[test]
fn lexer_le_zeros_a_esquerda() {
    assert_eq!(lexer("0"), Ok(vec![inteiro(0)]));
    assert_eq!(lexer("000"), Ok(vec![inteiro(0)]));
    assert_eq!(lexer("0042"), Ok(vec![inteiro(42)]));
    assert_eq!(
        lexer("000000000000000000000000000009223372036854775807"),
        Ok(vec![inteiro(i64::MAX)])
    );
}

#[test]
fn lexer_no_limite_do_inteiro() {
    assert_eq!(lexer("9223372036854775807"), Ok(vec![inteiro(i64::MAX)]));
    assert_eq!(lexer("9223372036854775808"), Err(ErroLexico::EstouroInteiro));
    assert_eq!(lexer("9223372036854775810"), Err(ErroLexico::EstouroInteiro));
    assert_eq!(lexer("92233720368547758070"), Err(ErroLexico::EstouroInteiro));
    assert_eq!(
        lexer("1 + 10000000000000000000"),
        Err(ErroLexico::EstouroInteiro)
    );
}

#[test]
fn lexer_recusa_outros_caracteres() {
    assert_eq!(lexer("5 $ 3"), Err(ErroLexico::CaracterInesperado('$')));
    assert_eq!(lexer("a"), Err(ErroLexico::CaracterInesperado('a')));
    assert_eq!(lexer("1 * 2"), Err(ErroLexico::CaracterInesperado('*')));
    assert_eq!(lexer("1 / 2"), Err(ErroLexico::CaracterInesperado('/')));
    assert_eq!(lexer("1\r"), Err(ErroLexico::CaracterInesperado('\r')));
    assert_eq!(lexer("1 + ç"), Err(ErroLexico::CaracterInesperado('ç')));
    assert_eq!(lexer("１"), Err(ErroLexico::CaracterInesperado('１')));
}

#[test]
fn lexer_da_o_primeiro_erro() {
    assert_eq!(lexer("1 # 2 $"), Err(ErroLexico::CaracterInesperado('#')));
    assert_eq!(
        lexer("99999999999999999999 $"),
        Err(ErroLexico::EstouroInteiro)
    );
    assert_eq!(
        lexer("$ 99999999999999999999"),
        Err(ErroLexico::CaracterInesperado('$'))
    );
}

#[test]
fn cursor_percorre_o_texto() {
    let mut cursor = Cursor::new("a+1");
    assert_eq!(cursor.peek(), Some('a'));
    assert_eq!(cursor.peek(), Some('a'));
    assert_eq!(cursor.next(), Some('a'));
    assert_eq!(cursor.peek(), Some('+'));
    assert_eq!(cursor.next(), Some('+'));
    assert_eq!(cursor.next(), Some('1'));
    assert_eq!(cursor.peek(), None);
    assert_eq!(cursor.next(), None);
    assert_eq!(cursor.next(), None);
    assert_eq!(cursor.peek(), None);
}

#[test]
fn cursor_em_texto_vazio() {
    let mut cursor = Cursor::new("");
    assert_eq!(cursor.peek(), None);
    assert_eq!(cursor.next(), None);
}

#[test]
fn cursor_le_caracteres_e_nao_bytes() {
    let mut cursor = Cursor::new("é१x");
    assert_eq!(cursor.next(), Some('é'));
    assert_eq!(cursor.next(), Some('१'));
    assert_eq!(cursor.next(), Some('x'));
    assert_eq!(cursor.next(), None);
}

#[test]
fn obter_numero_consome_os_digitos_seguintes() {
    let mut cursor = Cursor::new("23+4");
    assert_eq!(obter_numero('1', &mut cursor), Ok(123));
    assert_eq!(cursor.peek(), Some('+'));
    assert_eq!(cursor.next(), Some('+'));
    assert_eq!(cursor.next(), Some('4'));
    assert_eq!(obter_numero('4', &mut cursor), Ok(4));
    assert_eq!(cursor.peek(), None);
}

#[test]
fn obter_numero_sem_mais_digitos() {
    let mut cursor = Cursor::new(" 5");
    assert_eq!(obter_numero('7', &mut cursor), Ok(7));
    assert_eq!(cursor.peek(), Some(' '));
    let mut vazio = Cursor::new("");
    assert_eq!(obter_numero('0', &mut vazio), Ok(0));
    assert_eq!(vazio.peek(), None);
}

#[test]
fn obter_numero_no_limite() {
    let mut cursor = Cursor::new("223372036854775807");
    assert_eq!(obter_numero('9', &mut cursor), Ok(i64::MAX));
    assert_eq!(cursor.peek(), None);
}

#[test]
fn obter_numero_para_no_digito_que_nao_cabe() {
    let mut cursor = Cursor::new("223372036854775808 1");
    assert_eq!(obter_numero('9', &mut cursor), Err(ErroLexico::EstouroInteiro));
    assert_eq!(cursor.next(), Some('8'));
    assert_eq!(cursor.next(), Some(' '));

    let mut cursor = Cursor::new("9999999999999999987123");
    assert_eq!(obter_numero('9', &mut cursor), Err(ErroLexico::EstouroInteiro));
    assert_eq!(cursor.next(), Some('8'));
    assert_eq!(cursor.next(), Some('7'));
}

#[test]
fn lexer_de_textos_juntados() {
    let pares = vec![
        ("12", "+3"),
        ("12+", "3"),
        ("", "7"),
        ("7", ""),
        ("1 ", "2"),
        ("1", " 2"),
        ("-", "-"),
        ("4 + 5", "\n\n"),
    ];
    for (a, b) in pares {
        let mut esperado = lexer(a).unwrap();
        esperado.extend(lexer(b).unwrap());
        assert_eq!(lexer(&format!("{}{}", a, b)), Ok(esperado));
    }
}

#[test]
fn lexer_de_textos_juntados_com_erro() {
    assert_eq!(
        lexer(&format!("{}{}", "1 $", "99999999999999999999")),
        lexer("1 $")
    );
    assert_eq!(
        lexer(&format!("{}{}", "1 +", "99999999999999999999")),
        lexer("99999999999999999999")
    );
}

#[test]
fn lexer_junta_digitos_atraves_da_emenda() {
    assert_eq!(lexer("12"), Ok(vec![inteiro(12)]));
    assert_eq!(lexer("1"), Ok(vec![inteiro(1)]));
    assert_eq!(lexer("2"), Ok(vec![inteiro(2)]));
}

#[test]
fn lexer_com_brancos_entre_dois_textos() {
    let esperado = Ok(vec![inteiro(1), operador('+'), inteiro(2), operador('-')]);
    for brancos in [" ", "\t", "\n", "  \t\n \n"] {
        assert_eq!(lexer(&format!("1+{}2-", brancos)), esperado);
        assert_eq!(lexer(&format!("1{}+2-", brancos)), esperado);
        assert_eq!(lexer(&format!("1+2{}-", brancos)), esperado);
        assert_eq!(lexer(&format!("{}1+2-", brancos)), esperado);
        assert_eq!(lexer(&format!("1+2-{}", brancos)), esperado);
    }
}

#[test]
fn lexer_so_faz_operadores_e_inteiros_nao_negativos() {
    for texto in ["0", "1 - 2 + 3", "+-+-", "007 9223372036854775807 -", "\n5\t-\t5\n"] {
        for item in lexer(texto).unwrap() {
            match item {
                ItemLexico::Operador(c) => assert!(c == '+' || c == '-'),
                ItemLexico::Inteiro(n) => assert!(n >= 0),
            }
        }
    }
}

#[test]
fn lexer_com_caracter_inesperado_depois_de_texto_aceito() {
    for antes in ["", "1", "1 + 2", "- - 3 ", "\n\t", "9223372036854775807"] {
        for c in ['$', 'a', '*', '\r', 'é'] {
            assert_eq!(
                lexer(&format!("{}{}1 + 1", antes, c)),
                Err(ErroLexico::CaracterInesperado(c))
            );
        }
    }
}
