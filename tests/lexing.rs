use w_analyze::ident::{Ident, Span};
use w_analyze::number::{parse_integer, parse_integer_inner};
use w_analyze::syntax::{
    BlockKind, Expr, ExprBlock, ExprTuple, ItemTy, Number,
};
use w_analyze::types_parser::{parse_path, parse_ty_ptr, parse_type, parse_types_in, Kind, Token};

fn chars(s: &str) -> Vec<char> {
    s.chars().collect()
}

fn sp(start: usize, end: usize) -> Span {
    Span { start, end }
}

#[test]
fn decimal_integer() {
    let r = parse_integer(&chars("42 "), 0).unwrap();
    assert_eq!(r.0, sp(0, 2));
    assert_eq!(r.1, Number { sign: None, number: sp(0, 2), suffix: None, base: None });
}

#[test]
fn signed_hex_integer_with_suffix() {
    let r = parse_integer(&chars("-0xFF_a0u32;"), 0).unwrap();
    assert_eq!(r.0, sp(0, 11));
    assert_eq!(
        r.1,
        Number { sign: Some(sp(0, 1)), number: sp(3, 8), suffix: Some(sp(8, 11)), base: Some(sp(1, 3)) }
    );
}

#[test]
fn binary_and_octal_digits() {
    let b = parse_integer(&chars("0b101"), 0).unwrap();
    assert_eq!(b.1.number, sp(2, 5));
    assert_eq!(b.1.base, Some(sp(0, 2)));
    assert!(parse_integer(&chars("0b2"), 0).is_none());
    let o = parse_integer(&chars("0o78"), 0).unwrap();
    assert_eq!(o.1.number, sp(2, 4));
}

#[test]
fn integer_followed_by_letter_is_rejected() {
    assert!(parse_integer(&chars("12abc"), 0).is_none());
    assert!(parse_integer(&chars("7u"), 0).is_none());
    assert!(parse_integer(&chars("5é"), 0).is_none());
    let inner = parse_integer_inner(&chars("12abc"), 0).unwrap();
    assert_eq!(inner.0, sp(0, 2));
}

#[test]
fn integer_needs_a_digit() {
    assert!(parse_integer(&chars("+-"), 0).is_none());
    assert!(parse_integer(&chars("_1"), 0).is_none());
    assert!(parse_integer(&chars(""), 0).is_none());
    let r = parse_integer(&chars("x 9i8"), 2).unwrap();
    assert_eq!(r.0, sp(2, 5));
    assert_eq!(r.1.suffix, Some(sp(3, 5)));
}

fn tok(kind: Kind, at: usize) -> Token {
    Token { kind, span: sp(at, at + 1) }
}

#[test]
fn pointer_to_path() {
    let toks = vec![
        tok(Kind::Mul, 0),
        tok(Kind::DoubleCol, 1),
        tok(Kind::Name(5), 2),
        tok(Kind::DoubleCol, 3),
        tok(Kind::Name(6), 4),
        tok(Kind::Semicolon, 5),
    ];
    let (end, p) = parse_ty_ptr(&toks, 0).unwrap();
    assert_eq!(end, 5);
    assert_eq!(p.span_ptr, sp(0, 1));
    match *p.ty {
        ItemTy::Referred(path) => {
            assert_eq!(path.root, Some(sp(1, 2)));
            assert_eq!(path.path, vec![Ident { name: 5, span: sp(2, 3) }, Ident { name: 6, span: sp(4, 5) }]);
        }
        _ => panic!("not a path"),
    }
    assert!(parse_ty_ptr(&toks, 1).is_none());
}

#[test]
fn path_stops_before_dangling_separator() {
    let toks = vec![tok(Kind::Name(1), 0), tok(Kind::DoubleCol, 1), tok(Kind::Comma, 2)];
    let (end, p) = parse_path(&toks, 0).unwrap();
    assert_eq!(end, 1);
    assert_eq!(p.root, None);
    assert_eq!(p.path.len(), 1);
}

#[test]
fn tuple_of_types() {
    let inner = vec![
        tok(Kind::Not, 1),
        tok(Kind::Comma, 2),
        tok(Kind::Mul, 3),
        tok(Kind::Name(9), 4),
        tok(Kind::Comma, 5),
    ];
    let toks = vec![tok(Kind::Tuple(inner), 0)];
    let (end, ty) = parse_type(&toks, 0).unwrap();
    assert_eq!(end, 1);
    match ty {
        ItemTy::Tuple(tp) => {
            assert_eq!(tp.types.len(), 2);
            assert!(matches!(tp.types[0], ItemTy::Never(_)));
            assert!(matches!(tp.types[1], ItemTy::Pointer(_)));
        }
        _ => panic!("not a tuple"),
    }
}

#[test]
fn type_lists() {
    assert_eq!(parse_types_in(&vec![tok(Kind::Comma, 0)]).unwrap().len(), 0);
    assert_eq!(parse_types_in(&vec![]).unwrap().len(), 0);
    assert!(parse_types_in(&vec![tok(Kind::Comma, 0), tok(Kind::Not, 1)]).is_none());
    assert!(parse_types_in(&vec![tok(Kind::Not, 0), tok(Kind::Not, 1)]).is_none());
    assert!(parse_types_in(&vec![tok(Kind::Not, 0), tok(Kind::Comma, 1), tok(Kind::Comma, 2)]).is_none());
}

#[test]
fn termination_of_statements() {
    let block = |kind| {
        Expr::Block(ExprBlock { span: sp(0, 2), kind, stmts: vec![], returning: None })
    };
    assert!(block(BlockKind::Inline).needs_termination());
    assert!(!block(BlockKind::Braced).needs_termination());
    assert!(Expr::Tuple(ExprTuple { span: sp(0, 2), values: vec![] }).needs_termination());
    assert!(Expr::Ident(Ident { name: 1, span: sp(0, 1) }).needs_termination());
}
