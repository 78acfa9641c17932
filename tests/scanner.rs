use cflat::{Scanner, Span, Token, TokenDebug};
use Token::{Eof, Error, Float, Id, Int, KeyWord, Op};

fn get_next<'a>(scanner: &mut Scanner, src: &'a str) -> (Token, &'a str) {
    let (t, s) = scanner.next();
    (t, &src[s.start..s.end])
}

fn expect(src: &str, expected: &[(fn(String) -> Token, &str)]) {
    let mut scanner = Scanner::new(src, TokenDebug::False);
    for (make, output) in expected {
        assert_eq!(get_next(&mut scanner, src), (make(output.to_string()), *output), "{src}");
    }
}

#[test]
fn scanner_main() {
    expect(
        "fn main() {\n    return 0;\n}\n",
        &[
            (KeyWord, "fn"),
            (Id, "main"),
            (Op, "("),
            (Op, ")"),
            (Op, "{"),
            (KeyWord, "return"),
            (Int, "0"),
            (Op, ";"),
            (Op, "}"),
        ],
    );
}

#[test]
fn scanner_add_func() {
    expect(
        "fn add(x: u64, y: u64) -> u64 {\n    return x + y;\n}\nfn main() {\n    let x = add(123, 321);\n    return 0;\n}",
        &[
            (KeyWord, "fn"),
            (Id, "add"),
            (Op, "("),
            (Id, "x"),
            (Op, ":"),
            (Id, "u64"),
            (Op, ","),
            (Id, "y"),
            (Op, ":"),
            (Id, "u64"),
            (Op, ")"),
            (Op, "->"),
            (Id, "u64"),
            (Op, "{"),
            (KeyWord, "return"),
            (Id, "x"),
            (Op, "+"),
            (Id, "y"),
            (Op, ";"),
            (Op, "}"),
            (KeyWord, "fn"),
            (Id, "main"),
            (Op, "("),
            (Op, ")"),
            (Op, "{"),
            (KeyWord, "let"),
            (Id, "x"),
            (Op, "="),
            (Id, "add"),
            (Op, "("),
            (Int, "123"),
            (Op, ","),
            (Int, "321"),
            (Op, ")"),
            (Op, ";"),
            (KeyWord, "return"),
            (Int, "0"),
            (Op, ";"),
            (Op, "}"),
        ],
    );
}

#[test]
fn lambda_glyph_spans_two_bytes() {
    let src = "λlambdaλ";
    let mut scanner = Scanner::new(src, TokenDebug::False);
    assert_eq!(scanner.next(), (Op("λ".into()), Span { start: 0, end: 2 }));
    assert_eq!(scanner.next(), (Id("lambda".into()), Span { start: 2, end: 8 }));
    assert_eq!(scanner.next(), (Op("λ".into()), Span { start: 8, end: 10 }));
    assert_eq!(scanner.next(), (Eof, Span { start: 10, end: 10 }));
}

#[test]
fn two_character_operators() {
    expect(
        "== >= <= != -> = > < ! -",
        &[
            (Op, "=="),
            (Op, ">="),
            (Op, "<="),
            (Op, "!="),
            (Op, "->"),
            (Op, "="),
            (Op, ">"),
            (Op, "<"),
            (Op, "!"),
            (Op, "-"),
        ],
    );
    expect("a-b", &[(Id, "a"), (Op, "-"), (Id, "b")]);
}

#[test]
fn numbers() {
    expect("1_000 3.14 7", &[(Int, "1_000"), (Float, "3.14"), (Int, "7")]);
    expect("12ab", &[(Int, "12"), (Id, "ab")]);
}

#[test]
fn identifiers_and_keywords() {
    expect("if iffy x_1 else", &[(KeyWord, "if"), (Id, "iffy"), (Id, "x_1"), (KeyWord, "else")]);
    for word in ["fn", "true", "false", "return", "let", "and", "or", "not", "if", "else"] {
        let mut scanner = Scanner::new(word, TokenDebug::False);
        assert_eq!(scanner.next().0, KeyWord(word.into()));
    }
}

#[test]
fn unknown_characters_do_not_stop_the_scan() {
    expect("a @ é b", &[(Id, "a"), (Error, "@"), (Error, "é"), (Id, "b")]);
}

#[test]
fn end_of_stream_repeats() {
    let src = "x  ";
    let mut scanner = Scanner::new(src, TokenDebug::False);
    assert_eq!(scanner.next(), (Id("x".into()), Span { start: 0, end: 1 }));
    let first = scanner.next();
    assert_eq!(first, (Eof, Span { start: 3, end: 3 }));
    for _ in 0..5 {
        assert_eq!(scanner.next(), first);
    }
    let mut empty = Scanner::new("", TokenDebug::True);
    assert_eq!(empty.next(), (Eof, Span { start: 0, end: 0 }));
    assert_eq!(empty.next(), (Eof, Span { start: 0, end: 0 }));
    assert_eq!(empty.token_debug(), TokenDebug::True);
}

#[test]
fn spans_partition_the_source() {
    let src = "fn add(x: u64) -> u64 {\n  return x + 1_0 @ λ;\n}";
    let mut scanner = Scanner::new(src, TokenDebug::False);
    let mut joined = String::new();
    loop {
        let (t, s) = scanner.next();
        if t.is_eof() {
            break;
        }
        joined.push_str(&src[s.start..s.end]);
    }
    let stripped: String = src.chars().filter(|c| *c != ' ' && *c != '\n').collect();
    assert_eq!(joined, stripped);
}

#[test]
fn lookups() {
    assert_eq!(Token::lookup("let"), Some(KeyWord("let".into())));
    assert_eq!(Token::lookup("lets"), None);
    assert_eq!(cflat::KeyWord::lookup("else"), Some(cflat::KeyWord::Else));
    assert_eq!(cflat::KeyWord::lookup(""), None);
    assert!(Eof.is_eof());
    assert!(!Id("x".into()).is_eof());
}
