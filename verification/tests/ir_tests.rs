use cellang::deps::get_order_of_execution;
use cellang::jit::{jit_plan, JitStep};
use cellang::ir::code_gen;
use cellang::parser::parse;
use cellang::scanner::scan;

fn parsed(input: &str) -> cellang::parser::AST {
    parse(scan(input).unwrap()).unwrap()
}

fn compare_generated_code(code: &str, expected: &str) {
    let ast = parsed(code);
    let ir = code_gen(&ast).unwrap();
    let text = ir.text().replace('\t', "");
    let generated: Vec<&str> = text.trim().lines().map(str::trim).collect();
    let expected: Vec<&str> = expected.trim().lines().map(str::trim).collect();
    assert_eq!(generated, expected);
}

#[test]
fn test_code_gen_for_example1() {
    compare_generated_code(
        r#"
        param p1;
        param p2;

        cell test:
            p1 + p2 * p2 + a * p1 / (p2 + 1)
        ;

        cell a:
            5 + c
        ;

        cell c: p1 + 1;
        "#,
        r#"
            0:LoadParam("p1")
            1:LoadConst(1.0)
            2:Read("p1")
            3:Add
            4:Read("c")
            5:LoadConst(5.0)
            6:Add
            7:LoadParam("p2")
            8:LoadConst(1.0)
            9:Read("p2")
            10:Add
            11:Read("p1")
            12:Div
            13:Read("a")
            14:Mul
            15:Read("p2")
            16:Add
            17:Read("p2")
            18:Mul
            19:Read("p1")
            20:Add
        "#,
    );
}

#[test]
fn test_code_gen_for_example2() {
    compare_generated_code(
        r#"
        param studentnumber;
        cell f:
          if studentnumber % 2 == 0
            ? studentnumber / 2
            : studentnumber / 3;

        cell F: ( rand() * 22 ) + 3;

        cell t: int( rand() * 10 );

        cell m: ( rand() * 4.5 ) + 0.5;

        cell V: (f / t ) - ((f/(2*m) * t));
        "#,
        r#"
            0:LoadConst(3.0)
            1:LoadConst(22.0)
            2:Call("rand")
            3:Mul
            4:Add
            5:LoadParam("studentnumber")
            6:LoadConst(0.0)
            7:LoadConst(2.0)
            8:Read("studentnumber")
            9:Mod
            10:Equal
            11:JMPIfFalse(16)
            12:LoadConst(2.0)
            13:Read("studentnumber")
            14:Div
            15:JMP(19)
            16:LoadConst(3.0)
            17:Read("studentnumber")
            18:Div
            19:Nop
            20:LoadConst(10.0)
            21:Call("rand")
            22:Mul
            23:Call("int")
            24:LoadConst(0.5)
            25:LoadConst(4.5)
            26:Call("rand")
            27:Mul
            28:Add
            29:Read("t")
            30:Read("m")
            31:LoadConst(2.0)
            32:Mul
            33:Mul
            34:Read("f")
            35:Div
            36:Read("t")
            37:Read("f")
            38:Div
            39:Sub
        "#,
    );
}

#[test]
fn test_get_order_of_execution() {
    let ast = parsed(
        r#"
        param p1;
        param p2;

        cell test:
            p1 + p2 * p2 + a * p1 / (p2 + 1)
        ;

        cell a:
            5 + c
        ;

        cell c: p1 + 1;
        "#,
    );

    let ooe = get_order_of_execution(&ast);
    assert_eq!(ooe, vec!["p1", "c", "a", "p2", "test"]);

    let ast = parsed(
        r#"
        param studentnumber;
        cell f:
          if studentnumber % 2 == 0
            ? studentnumber / 2
            : studentnumber / 3;

        cell F: ( rand() * 22 ) + 3;

        cell t: int( rand() * 10 );

        cell m: ( rand() * 4.5 ) + 0.5;

        cell V: (f / t ) - ((f/(2*m) * t));
        "#,
    );

    let ooe = get_order_of_execution(&ast);
    assert_eq!(ooe, vec!["F", "studentnumber", "f", "t", "m", "V"]);
}

#[test]
fn test_lowering_rejects_undeclared_name() {
    let ast = parsed("cell a: ghost + 1;");
    let err = code_gen(&ast).unwrap_err();
    assert_eq!(err.kind(), cellang::error::ErrorKind::Resolve);
}

#[test]
fn test_lowering_succeeds_when_all_names_declared() {
    let ast = parsed("param p; cell a: p + 1; cell b: a * a;");
    assert!(code_gen(&ast).is_ok());
}

#[test]
fn test_empty_program_empty_outputs() {
    let ast = parsed("");
    let ir = code_gen(&ast).unwrap();
    let out = cellang::vm::run(&ir, &Vec::new()).unwrap();
    assert_eq!(out.len(), 0);
    let tree = cellang::ast_interpreter::run(&ast, &Vec::new(), &Vec::new()).unwrap();
    assert_eq!(tree.len(), 0);
}

#[test]
fn test_jit_plan_rejects_calls() {
    let ast = parsed("cell a: rand();");
    let ir = code_gen(&ast).unwrap();
    let err = cellang::jit::jit_plan(&ir).unwrap_err();
    assert_eq!(err.kind(), cellang::error::ErrorKind::Jit);
}

#[test]
fn test_jit_plan_blocks_and_steps() {
    let ast = parsed("cell a: if 1 > 2 ? 3 : 4;");
    let ir = code_gen(&ast).unwrap();
    let plan = jit_plan(&ir).unwrap();
    assert_eq!(plan.steps.len(), ir.instructions.len());
    // [2.0][1.0][Greater][JMPIfFalse(6)][3.0][JMP(7)][4.0][Nop]
    assert_eq!(plan.block_start.len(), 8);
    assert_eq!(
        plan.block_start,
        vec![true, false, false, false, true, false, true, true]
    );
    assert_eq!(
        plan.steps[3],
        JitStep::Branch {
            cond: 0,
            target: 6,
            next: 4
        }
    );
    assert_eq!(plan.steps[7], JitStep::Skip);
}
