use cellang::ast_interpreter::run;
use cellang::error::ErrorKind;
use cellang::parser::parse;
use cellang::scanner::scan;

fn eval_cell(code: &str, cell_name: &str) -> f64 {
    let ast = parse(scan(code).unwrap()).unwrap();
    let out = run(&ast, &vec![cell_name.to_string()], &Vec::new()).unwrap();
    f64::from_bits(out[0].1)
}

fn eval_cell_with(code: &str, cell_name: &str, params: &[(&str, f64)]) -> f64 {
    let ast = parse(scan(code).unwrap()).unwrap();
    let ps: Vec<(String, u64)> = params
        .iter()
        .map(|(n, v)| (n.to_string(), v.to_bits()))
        .collect();
    let out = run(&ast, &vec![cell_name.to_string()], &ps).unwrap();
    f64::from_bits(out[0].1)
}

fn expect_error(code: &str, cell_name: &str) -> ErrorKind {
    let ast = parse(scan(code).unwrap()).unwrap();
    run(&ast, &vec![cell_name.to_string()], &Vec::new())
        .unwrap_err()
        .kind()
}

#[test]
fn ast_interpreter_test_cond() {
    assert_eq!(
        eval_cell("\n            cell a: if 1 + 2 > 4 ? 10 : 20;\n            ", "a"),
        20f64
    );
}

#[test]
fn ast_interpreter_test_simple() {
    assert_eq!(eval_cell("\n            cell a: 1 + 2;\n            ", "a"), 3f64);
    assert_eq!(eval_cell("\n            cell a: 3 * 2;\n            ", "a"), 6f64);
    assert_eq!(
        eval_cell(
            "\n            cell a: 3 * 2;\n            cell b: 3 + 2;\n            ",
            "b"
        ),
        5f64
    );
    assert_eq!(
        eval_cell(
            "\n            cell a: 3 * 2;\n            cell b: a + 2;\n            ",
            "b"
        ),
        8f64
    );
    assert_eq!(
        eval_cell(
            "\n            cell a: 3 * 2;\n            cell b: a + 2;\n            cell c: b + b;\n            ",
            "c"
        ),
        16f64
    );
}

#[test]
fn ast_interpreter_test_param() {
    assert_eq!(
        eval_cell_with(
            "\n            param test;\n            cell a: test + 2;\n            ",
            "a",
            &[("test", 5f64)]
        ),
        7f64
    );
    assert_eq!(
        eval_cell_with(
            "\n            param test1;\n            param test2;\n            cell a: test1 + 2;\n            cell b: test1 + test2 + a;\n            ",
            "b",
            &[("test1", 2f64), ("test2", 3f64)]
        ),
        9f64
    );
}

#[test]
fn test_cyclic() {
    assert_eq!(
        expect_error("\n        cell a: b;\n        cell b: a;\n        ", "b"),
        ErrorKind::Cycle
    );
    assert_eq!(
        expect_error(
            "\n        cell a: b;\n        cell b: c;\n        cell c: a;\n        ",
            "b"
        ),
        ErrorKind::Cycle
    );
}

#[test]
fn test_missing_param_error() {
    let ast = parse(scan("param p; cell a: p;").unwrap()).unwrap();
    let err = run(&ast, &vec!["a".to_string()], &Vec::new()).unwrap_err();
    assert_eq!(err.kind(), ErrorKind::MissingParam);
}

#[test]
fn test_undeclared_name_error() {
    assert_eq!(expect_error("cell a: ghost;", "a"), ErrorKind::Resolve);
}

#[test]
fn test_arity_error() {
    assert_eq!(expect_error("cell a: int(1, 2);", "a"), ErrorKind::Arity);
    assert_eq!(expect_error("cell a: rand(1);", "a"), ErrorKind::Arity);
}

#[test]
fn test_unknown_builtin_error() {
    assert_eq!(expect_error("cell a: random();", "a"), ErrorKind::UnknownBuiltin);
}

#[test]
fn test_division_by_zero_is_not_an_error() {
    assert_eq!(eval_cell("cell a: 1 / 0;", "a"), f64::INFINITY);
    assert_eq!(eval_cell("cell a: -1 / 0;", "a"), f64::NEG_INFINITY);
    assert!(eval_cell("cell a: 0 / 0;", "a").is_nan());
}

#[test]
fn test_single_param_single_cell() {
    let ast = parse(scan("param x; cell y: x;").unwrap()).unwrap();
    let ps = vec![("x".to_string(), 4.25f64.to_bits())];
    let out = run(&ast, &vec!["y".to_string(), "x".to_string()], &ps).unwrap();
    assert_eq!(out.len(), 2);
    assert_eq!(out[0].0, "y");
    assert_eq!(f64::from_bits(out[0].1), 4.25);
    assert_eq!(out[1].0, "x");
    assert_eq!(f64::from_bits(out[1].1), 4.25);
}

#[test]
fn test_int_rounds_to_nearest() {
    assert_eq!(eval_cell("cell a: int(2.5);", "a"), 3f64);
    assert_eq!(eval_cell("cell a: int(2.4);", "a"), 2f64);
    assert_eq!(eval_cell("cell a: int(0 - 2.5);", "a"), -3f64);
}

#[test]
fn test_modulo_keeps_dividend_sign() {
    assert_eq!(eval_cell("cell a: 7 % 3;", "a"), 1f64);
    assert_eq!(eval_cell("cell a: -7 % 3;", "a"), -1f64);
}

#[test]
fn test_rand_in_unit_interval() {
    let v = eval_cell("cell a: rand();", "a");
    assert!(0.0 <= v && v < 1.0);
}

#[test]
fn test_same_inputs_same_outputs() {
    let code = "param p; cell a: p * 3 + 1; cell b: a / 7;";
    let first = eval_cell_with(code, "b", &[("p", 2.5f64)]);
    let second = eval_cell_with(code, "b", &[("p", 2.5f64)]);
    assert_eq!(first.to_bits(), second.to_bits());
}
