use cellang::error::ErrorKind;
use cellang::ir::code_gen;
use cellang::parser::parse;
use cellang::scanner::scan;
use cellang::vm;

fn eval_all(code: &str) -> Vec<f64> {
    eval_all_with(code, &[])
}

fn eval_all_with(code: &str, params: &[(&str, f64)]) -> Vec<f64> {
    let ast = parse(scan(code).unwrap()).unwrap();
    let ir = code_gen(&ast).unwrap();
    let ps: Vec<(String, u64)> = params
        .iter()
        .map(|(n, v)| (n.to_string(), v.to_bits()))
        .collect();
    let mut out = vm::run(&ir, &ps).unwrap();
    out.sort_by(|a, b| a.0.cmp(&b.0));
    out.into_iter().map(|(_, v)| f64::from_bits(v)).collect()
}

#[test]
fn vm_test_cond() {
    assert_eq!(
        eval_all("\n            cell a: if 1 + 2 > 4 ? 10 : 20;\n            "),
        vec![20f64]
    );
}

#[test]
fn vm_test_simple() {
    assert_eq!(eval_all("\n            cell a: 1 + 2;\n            "), vec![3f64]);
    assert_eq!(eval_all("\n            cell a: 3 * 2;\n            "), vec![6f64]);
    assert_eq!(
        eval_all("\n            cell a: 3 * 2;\n            cell b: 3 + 2;\n            "),
        vec![6.0f64, 5f64]
    );
    assert_eq!(
        eval_all("\n            cell a: 3 * 2;\n            cell b: a + 2;\n            "),
        vec![6.0f64, 8f64]
    );
    assert_eq!(
        eval_all(
            "\n            cell a: 3 * 2;\n            cell b: a + 2;\n            cell c: b + b;\n            "
        ),
        vec![6.0f64, 8.0f64, 16f64]
    );
    assert_eq!(
        eval_all("\n            cell a: 1 - 2;\n            cell b: 2 - 1;\n            "),
        vec![-1f64, 1f64]
    );
}

#[test]
fn vm_test_param() {
    assert_eq!(
        eval_all_with(
            "\n            param test;\n            cell a: test + 2;\n            ",
            &[("test", 5f64)]
        ),
        vec![7f64, 5f64]
    );
    assert_eq!(
        eval_all_with(
            "\n            param test1;\n            param test2;\n            cell a: test1 + 2;\n            cell b: test1 + test2 + a;\n            ",
            &[("test1", 2f64), ("test2", 3f64)]
        ),
        vec![4f64, 9f64, 2f64, 3f64]
    );
}

#[test]
fn test_vm_output_follows_dependency_order() {
    let ast = parse(scan("param p1; param p2; cell c: p1 + 1; cell a: 5 + c; cell test: p1 + p2 * p2 + a * p1 / (p2 + 1);").unwrap()).unwrap();
    let ir = code_gen(&ast).unwrap();
    let ps = vec![
        ("p1".to_string(), 1f64.to_bits()),
        ("p2".to_string(), 2f64.to_bits()),
    ];
    let out = vm::run(&ir, &ps).unwrap();
    let names: Vec<&str> = out.iter().map(|(n, _)| n.as_str()).collect();
    assert_eq!(names, vec!["p1", "c", "a", "p2", "test"]);
    // Every operator groups to the right, so the cell reads
    // p1 + (p2 * (p2 + (a * (p1 / (p2 + 1))))) with c = 2 and a = 7.
    let expected = 1f64 + 2f64 * (2f64 + 7f64 * (1f64 / 3f64));
    assert_eq!(f64::from_bits(out[4].1), expected);
}

#[test]
fn test_vm_missing_param() {
    let ast = parse(scan("param p; cell a: p + 1;").unwrap()).unwrap();
    let ir = code_gen(&ast).unwrap();
    let err = vm::run(&ir, &Vec::new()).unwrap_err();
    assert_eq!(err.kind(), ErrorKind::MissingParam);
}

#[test]
fn test_vm_cycle_fails_at_lowering() {
    let ast = parse(scan("cell a: b; cell b: a;").unwrap()).unwrap();
    let err = code_gen(&ast).unwrap_err();
    assert_eq!(err.kind(), ErrorKind::Cycle);
}

#[test]
fn test_vm_stack_overflow() {
    let mut code = String::from("cell a: ");
    for _ in 0..70 {
        code.push('(');
    }
    code.push('1');
    for _ in 0..70 {
        code.push_str(" + 1)");
    }
    code.push(';');
    let ast = parse(scan(&code).unwrap()).unwrap();
    let ir = code_gen(&ast).unwrap();
    let err = vm::run(&ir, &Vec::new()).unwrap_err();
    assert_eq!(err.kind(), ErrorKind::Vm);
}

#[test]
fn test_engines_agree_on_pure_programs() {
    let cases: Vec<(&str, Vec<&str>, Vec<(&str, f64)>)> = vec![
        ("cell a: 1 + 2;", vec!["a"], vec![]),
        (
            "cell a: 3 * 2; cell b: a + 2; cell c: b + b;",
            vec!["a", "b", "c"],
            vec![],
        ),
        (
            "param test; cell a: test + 2;",
            vec!["a", "test"],
            vec![("test", 5f64)],
        ),
        ("cell a: if 1 + 2 > 4 ? 10 : 20;", vec!["a"], vec![]),
        (
            "param p1; param p2; cell c: p1 + 1; cell a: 5 + c; cell test: p1 + p2 * p2 + a * p1 / (p2 + 1);",
            vec!["test", "a", "c"],
            vec![("p1", 1f64), ("p2", 2f64)],
        ),
        ("cell a: int(7.5) % 3;", vec!["a"], vec![]),
    ];
    for (code, queries, params) in cases {
        let ast = parse(scan(code).unwrap()).unwrap();
        let ps: Vec<(String, u64)> = params
            .iter()
            .map(|(n, v)| (n.to_string(), v.to_bits()))
            .collect();
        let qs: Vec<String> = queries.iter().map(|q| q.to_string()).collect();
        let tree = cellang::ast_interpreter::run(&ast, &qs, &ps).unwrap();
        let ir = code_gen(&ast).unwrap();
        let machine = vm::run(&ir, &ps).unwrap();
        for (name, bits) in &tree {
            let got = machine.iter().find(|(n, _)| n == name).unwrap().1;
            assert_eq!(*bits, got, "engines disagree on {} in {}", name, code);
        }
    }
}
