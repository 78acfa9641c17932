use cflat::{parse, Atom, Expr, ParseError, Span, Token};

fn tparse(src: &str) -> Vec<Expr> {
    parse(src).unwrap_or(vec![])
}

fn into_string(exprs: &[Expr]) -> String {
    exprs.first().map(|e| e.to_text()).unwrap_or("".into())
}

#[test]
fn expressions() {
    let exprs = tparse("1");
    assert_eq!(into_string(&exprs), "1");
}

#[test]
fn change_precedence() {
    let exprs = tparse("(1)");
    assert_eq!(into_string(&exprs), "1");
}

#[test]
fn unary() {
    let exprs = tparse("-1");
    assert_eq!(into_string(&exprs), "(- 1)");
}

#[test]
fn binary() {
    let exprs = tparse("1 + 1");
    assert_eq!(into_string(&exprs), "(+ 1 1)");

    let exprs = tparse("1 + 2 * 3");
    assert_eq!(into_string(&exprs), "(+ 1 (* 2 3))");

    let exprs = tparse("1 > 2");
    assert_eq!(into_string(&exprs), "(> 1 2)");
}

#[test]
fn if_statement() {
    let exprs = tparse("if 1 > 3 { a + b }");
    assert_eq!(into_string(&exprs), "(if ((> 1 3)) ((+ a b)))");
}

#[test]
fn if_else_statement() {
    let exprs = tparse("if x > y { x } else { y }");
    assert_eq!(into_string(&exprs), "(if ((> x y)) then (x) else (y))");

    let exprs = tparse("if x > y { x } else if x < y { y + y } else { y }");
    assert_eq!(
        into_string(&exprs),
        "(if ((> x y)) then (x) else ((if ((< x y)) then ((+ y y)) else (y))))"
    );
}

#[test]
fn left_associative_sum() {
    assert_eq!(into_string(&tparse("1 + 2 + 3")), "(+ (+ 1 2) 3)");
    assert_eq!(into_string(&tparse("8 / 4 / 2")), "(/ (/ 8 4) 2)");
    assert_eq!(into_string(&tparse("1 - 2 - 3")), "(- (- 1 2) 3)");
}

#[test]
fn product_binds_tighter_than_sum() {
    assert_eq!(into_string(&tparse("1 * 2 + 3")), "(+ (* 1 2) 3)");
    assert_eq!(into_string(&tparse("(1 + 2) * 3")), "(* (+ 1 2) 3)");
}

#[test]
fn comparison_binds_tighter_than_product() {
    assert_eq!(into_string(&tparse("1 * 2 > 3")), "(* 1 (> 2 3))");
}

#[test]
fn unary_binds_tightest() {
    assert_eq!(into_string(&tparse("-1 + 2")), "(+ (- 1) 2)");
    assert_eq!(into_string(&tparse("--x")), "(- (- x))");
}

#[test]
fn several_units_in_order() {
    let exprs = tparse("a b + 1 if c { d }");
    let texts: Vec<String> = exprs.iter().map(|e| e.to_text()).collect();
    assert_eq!(texts, vec!["a", "(+ b 1)", "(if (c) (d))"]);
}

#[test]
fn empty_source_has_no_units() {
    assert_eq!(parse("").unwrap().len(), 0);
    assert_eq!(parse("  \n ").unwrap().len(), 0);
}

#[test]
fn nested_if_in_branch() {
    let exprs = tparse("if a { if b { c } }");
    assert_eq!(into_string(&exprs), "(if (a) ((if (b) (c))))");
}

#[test]
fn unknown_character_is_fatal() {
    match parse("@") {
        Err(ParseError::BadToken(t, s)) => {
            assert_eq!(t, Token::Error("@".into()));
            assert_eq!(s, Span { start: 0, end: 1 });
        }
        other => panic!("unexpected {other:?}"),
    }
    assert!(parse("1 + @").is_err());
}

#[test]
fn missing_brace_is_reported() {
    match parse("if a b") {
        Err(ParseError::Expected(want, found, s)) => {
            assert_eq!(want, Token::Op("{".into()));
            assert_eq!(found, Token::Id("b".into()));
            assert_eq!(s, Span { start: 5, end: 6 });
        }
        other => panic!("unexpected {other:?}"),
    }
    match parse("if a { b") {
        Err(ParseError::Expected(want, found, _)) => {
            assert_eq!(want, Token::Op("}".into()));
            assert_eq!(found, Token::Eof);
        }
        other => panic!("unexpected {other:?}"),
    }
}

#[test]
fn bad_number_is_reported() {
    match parse("1_000") {
        Err(ParseError::BadNumber(t, s)) => {
            assert_eq!(t, Token::Int("1_000".into()));
            assert_eq!(s, Span { start: 0, end: 5 });
        }
        other => panic!("unexpected {other:?}"),
    }
    assert!(matches!(parse("2147483648"), Err(ParseError::BadNumber(_, _))));
    assert_eq!(into_string(&tparse("2147483647")), "2147483647");
}

#[test]
fn missing_operand_is_reported() {
    match parse("1 +") {
        Err(ParseError::BadToken(t, s)) => {
            assert_eq!(t, Token::Eof);
            assert_eq!(s, Span { start: 3, end: 3 });
        }
        other => panic!("unexpected {other:?}"),
    }
    assert!(matches!(parse(")"), Err(ParseError::BadToken(_, _))));
}

#[test]
fn grouping_takes_any_closing_token() {
    // The token after a grouped expression is consumed whatever it is.
    assert_eq!(into_string(&tparse("(1 ]")), "1");
}

#[test]
fn atom_text() {
    assert_eq!(Atom::Int(-42).to_text(), "-42");
    assert_eq!(Atom::Int(i32::MIN).to_text(), "-2147483648");
    assert_eq!(Atom::Int(0).to_text(), "0");
    assert_eq!(Atom::Id("abc".into()).to_text(), "abc");
    assert_eq!(cflat::Op::Div.to_text(), "/");
}

#[test]
fn debug_flags_from_bool() {
    assert_eq!(cflat::TokenDebug::from(true), cflat::TokenDebug::True);
    assert_eq!(cflat::TokenDebug::from(false), cflat::TokenDebug::False);
    assert_eq!(cflat::ParseDebug::from(true), cflat::ParseDebug::True);
    assert_eq!(cflat::ParseDebug::from(false), cflat::ParseDebug::False);
}

#[test]
fn token_and_keyword_text() {
    assert_eq!(Token::Error("@".into()).describe(), "unknown token: '@'");
    assert_eq!(Token::Eof.describe(), "EOF");
    assert_eq!(Token::Op("->".into()).describe(), "->");
    assert_eq!(cflat::KeyWord::Return.to_text(), "return");
}
