use w_analyze::expr_parser::{parse_array, parse_block, parse_call_wrapper, parse_ctor, parse_expression, parse_object};
use w_analyze::ident::{Ident, Span};
use w_analyze::item_parser::{parse_item_func, parse_ty_named_func};
use w_analyze::syntax::{BlockKind, Expr, ItemTy, Number};
use w_analyze::types_parser::{Kind, Token};

fn sp(start: usize, end: usize) -> Span {
    Span { start, end }
}

fn tok(kind: Kind, at: usize) -> Token {
    Token { kind, span: sp(at, at + 1) }
}

fn num(at: usize) -> Token {
    tok(Kind::Number(Number { sign: None, number: sp(at, at + 1), suffix: None, base: None }), at)
}

#[test]
fn call_chain() {
    // f(1)(x, "s",)
    let toks = vec![
        tok(Kind::Name(1), 0),
        tok(Kind::Tuple(vec![num(2)]), 1),
        tok(
            Kind::Tuple(vec![
                tok(Kind::Name(2), 5),
                tok(Kind::Comma, 6),
                tok(Kind::String(String::from("s")), 7),
                tok(Kind::Comma, 8),
            ]),
            4,
        ),
    ];
    let (end, e) = parse_expression(&toks, 0).unwrap();
    assert_eq!(end, 3);
    match e {
        Expr::Call(outer) => {
            assert_eq!(outer.args.span, sp(4, 5));
            assert_eq!(outer.args.values.len(), 2);
            assert!(matches!(&outer.args.values[1], Expr::String(s, text) if *s == sp(7, 8) && text == "s"));
            match *outer.base {
                Expr::Call(inner) => {
                    assert!(matches!(*inner.base, Expr::Ident(Ident { name: 1, .. })));
                    assert!(matches!(inner.args.values[0], Expr::Number(_)));
                }
                _ => panic!("not a nested call"),
            }
        }
        _ => panic!("not a call"),
    }
}

#[test]
fn constructor_and_paths() {
    // a::B { x = 1, }
    let toks = vec![
        tok(Kind::Name(1), 0),
        tok(Kind::DoubleCol, 1),
        tok(Kind::Name(2), 2),
        tok(Kind::Block(vec![tok(Kind::Name(3), 4), tok(Kind::Assign, 5), num(6), tok(Kind::Comma, 7)]), 3),
    ];
    let (end, c) = parse_ctor(&toks, 0).unwrap();
    assert_eq!(end, 4);
    assert_eq!(c.ty_path.path.len(), 2);
    assert_eq!(c.vals.values.len(), 1);
    assert_eq!(c.vals.values[0].0, Ident { name: 3, span: sp(4, 5) });
    assert!(matches!(parse_expression(&toks, 0), Some((4, Expr::Ctor(_)))));
    // Without the braces the same tokens are a path.
    let path = vec![tok(Kind::Name(1), 0), tok(Kind::DoubleCol, 1), tok(Kind::Name(2), 2)];
    assert!(matches!(parse_expression(&path, 0), Some((3, Expr::Path(_)))));
    assert!(parse_object(&toks, 0).is_none());
}

#[test]
fn bad_object_is_not_a_constructor() {
    // B { x 1 }: a name, then a block that is no field list
    let toks = vec![tok(Kind::Name(2), 0), tok(Kind::Block(vec![tok(Kind::Name(3), 2), num(3)]), 1)];
    assert!(parse_ctor(&toks, 0).is_none());
    assert!(matches!(parse_expression(&toks, 0), Some((1, Expr::Ident(_)))));
}

#[test]
fn arrays_and_wrappers() {
    let toks = vec![tok(Kind::Array(vec![num(1), tok(Kind::Comma, 2), num(3)]), 0)];
    let (end, a) = parse_array(&toks, 0).unwrap();
    assert_eq!((end, a.values.len(), a.span), (1, 2, sp(0, 1)));
    assert!(parse_call_wrapper(&toks, 0).is_none());
    assert!(parse_expression(&vec![tok(Kind::Semicolon, 0)], 0).is_none());
}

#[test]
fn blocks_need_a_closing_expression() {
    let body = vec![tok(Kind::Name(1), 1), tok(Kind::Semicolon, 2), tok(Kind::Name(2), 3)];
    let (end, b) = parse_block(&vec![tok(Kind::Block(body), 0)], 0).unwrap();
    assert_eq!(end, 1);
    assert_eq!(b.kind, BlockKind::Braced);
    assert_eq!(b.stmts.len(), 1);
    assert_eq!(b.stmts[0].sim, sp(2, 3));
    assert!(matches!(b.returning.as_deref(), Some(Expr::Ident(Ident { name: 2, .. }))));
    let open_ended = vec![tok(Kind::Name(1), 1), tok(Kind::Semicolon, 2)];
    assert!(parse_block(&vec![tok(Kind::Block(open_ended), 0)], 0).is_none());
    assert!(parse_block(&vec![tok(Kind::Block(vec![]), 0)], 0).is_none());
}

#[test]
fn function_item() {
    // func (a *T, b !,) U { a }
    let args = vec![
        tok(Kind::Name(1), 2),
        tok(Kind::Mul, 3),
        tok(Kind::Name(9), 4),
        tok(Kind::Comma, 5),
        tok(Kind::Name(2), 6),
        tok(Kind::Not, 7),
        tok(Kind::Comma, 8),
    ];
    let toks = vec![
        tok(Kind::Func, 0),
        tok(Kind::Tuple(args), 1),
        tok(Kind::Name(10), 9),
        tok(Kind::Block(vec![tok(Kind::Name(1), 11)]), 10),
    ];
    let (end, item) = parse_item_func(&toks, 0).unwrap();
    assert_eq!(end, 4);
    assert_eq!(item.func.span_func, sp(0, 1));
    assert_eq!(item.func.args.len(), 2);
    assert_eq!(item.func.args[1].name, Ident { name: 2, span: sp(6, 7) });
    assert!(matches!(item.func.args[0].ty, ItemTy::Pointer(_)));
    assert!(matches!(*item.func.ret_ty, ItemTy::Referred(_)));
    assert!(matches!(item.body.returning.as_deref(), Some(Expr::Ident(_))));
    let (sig_end, _) = parse_ty_named_func(&toks, 0).unwrap();
    assert_eq!(sig_end, 3);
    // A signature without a body is no function item.
    let no_body = vec![tok(Kind::Func, 0), tok(Kind::Tuple(vec![]), 1), tok(Kind::Not, 2)];
    assert!(parse_ty_named_func(&no_body, 0).is_some());
    assert!(parse_item_func(&no_body, 0).is_none());
    let missing_name = vec![tok(Kind::Func, 0), tok(Kind::Tuple(vec![tok(Kind::Not, 2)]), 1), tok(Kind::Not, 3)];
    assert!(parse_ty_named_func(&missing_name, 0).is_none());
}
