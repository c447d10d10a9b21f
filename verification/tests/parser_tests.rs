use cellang::parser::{parse, Atom, Cell, Expr, Node, Operator, Param, AST};
use cellang::scanner::scan;

fn parsed(input: &str) -> AST {
    parse(scan(input).unwrap()).unwrap()
}

fn num(text: &str) -> Expr {
    Expr::Atom(Atom::Number {
        bits: text.parse::<f64>().unwrap().to_bits(),
        text: text.to_string(),
    })
}

fn ident(name: &str) -> Expr {
    Expr::Atom(Atom::Ident(name.to_string()))
}

fn add(l: Expr, r: Expr) -> Expr {
    Expr::Add(Box::new(l), Box::new(r))
}

fn sub(l: Expr, r: Expr) -> Expr {
    Expr::Sub(Box::new(l), Box::new(r))
}

fn mul(l: Expr, r: Expr) -> Expr {
    Expr::Mul(Box::new(l), Box::new(r))
}

fn div(l: Expr, r: Expr) -> Expr {
    Expr::Div(Box::new(l), Box::new(r))
}

fn cell(name: &str, expr: Expr) -> Node {
    Node::Cell(Cell {
        name: name.to_string(),
        expr,
    })
}

#[test]
fn parser_test_param() {
    assert_eq!(
        parsed("param test;"),
        AST {
            nodes: vec![Node::Param(Param {
                name: "test".to_string()
            })]
        }
    );
    assert_eq!(
        parsed("param test; param test2;"),
        AST {
            nodes: vec![
                Node::Param(Param {
                    name: "test".to_string()
                }),
                Node::Param(Param {
                    name: "test2".to_string()
                }),
            ]
        }
    );
}

#[test]
fn test_func() {
    assert_eq!(
        parsed("cell test: random();"),
        AST {
            nodes: vec![cell(
                "test",
                Expr::Atom(Atom::Call {
                    name: "random".to_string(),
                    arguments: vec![]
                })
            )]
        }
    );
    assert_eq!(
        parsed("cell test: random(1);"),
        AST {
            nodes: vec![cell(
                "test",
                Expr::Atom(Atom::Call {
                    name: "random".to_string(),
                    arguments: vec![num("1")]
                })
            )]
        }
    );
    assert_eq!(
        parsed("cell test: random(1, 2, 3) + 1;"),
        AST {
            nodes: vec![cell(
                "test",
                add(
                    Expr::Atom(Atom::Call {
                        name: "random".to_string(),
                        arguments: vec![num("1"), num("2"), num("3")]
                    }),
                    num("1")
                )
            )]
        }
    );
}

#[test]
fn parser_test_cell() {
    assert_eq!(
        parsed("cell test2: 1;"),
        AST {
            nodes: vec![cell("test2", num("1"))]
        }
    );
    assert_eq!(
        parsed("\n        cell test: 1;\n        cell test2: 1 + 2;\n        "),
        AST {
            nodes: vec![cell("test", num("1")), cell("test2", add(num("1"), num("2")))]
        }
    );
    assert_eq!(
        parsed("cell test2: (1 + 2) + 3;"),
        AST {
            nodes: vec![cell("test2", add(add(num("1"), num("2")), num("3")))]
        }
    );
    assert_eq!(
        parsed("cell test2: (1 / abc) + 3;"),
        AST {
            nodes: vec![cell("test2", add(div(num("1"), ident("abc")), num("3")))]
        }
    );
    assert_eq!(
        parsed("cell test2: (1 + abc) - 3;"),
        AST {
            nodes: vec![cell("test2", sub(add(num("1"), ident("abc")), num("3")))]
        }
    );
    assert_eq!(
        parsed("cell test2: (1 * abc) - 3;"),
        AST {
            nodes: vec![cell("test2", sub(mul(num("1"), ident("abc")), num("3")))]
        }
    );
    assert_eq!(
        parsed("cell test2: (-1 * (abc)) - 3;"),
        AST {
            nodes: vec![cell("test2", sub(mul(num("-1"), ident("abc")), num("3")))]
        }
    );
}

#[test]
fn test_right_associative_grouping() {
    assert_eq!(
        parsed("cell a: 1 - 2 - 3;"),
        AST {
            nodes: vec![cell("a", sub(num("1"), sub(num("2"), num("3"))))]
        }
    );
}

#[test]
fn test_conditional_shape() {
    assert_eq!(
        parsed("cell a: if 1 > 2 ? 3 : 4;"),
        AST {
            nodes: vec![cell(
                "a",
                Expr::Condition {
                    lhs: Box::new(num("1")),
                    rhs: Box::new(num("2")),
                    op: Operator::Greater,
                    true_branch: Box::new(num("3")),
                    false_branch: Box::new(num("4")),
                }
            )]
        }
    );
}

#[test]
fn test_parse_error_on_missing_semicolon() {
    let err = parse(scan("param test").unwrap()).unwrap_err();
    assert_eq!(err.kind(), cellang::error::ErrorKind::Parse);
}

#[test]
fn test_parse_error_on_trailing_comma() {
    let err = parse(scan("cell t: f(1,);").unwrap()).unwrap_err();
    assert_eq!(err.kind(), cellang::error::ErrorKind::Parse);
}
