use cellang::parser::parse;
use cellang::printer::pretty_print;
use cellang::scanner::scan;

fn round_trip(src: &str) {
    let ast = parse(scan(src).unwrap()).unwrap();
    let printed = pretty_print(&ast);
    let again = parse(scan(&printed).unwrap()).unwrap();
    assert_eq!(ast, again, "printed form was: {}", printed);
}

#[test]
fn test_round_trip_declarations() {
    round_trip("param x;");
    round_trip("param x; param y; cell a: x + y;");
}

#[test]
fn test_round_trip_literals_kept_verbatim() {
    round_trip("cell a: 1 + 1.0 / 11.01;");
    round_trip("cell a: -123.125;");
}

#[test]
fn test_round_trip_grouping() {
    round_trip("cell a: 1 - 2 - 3;");
    round_trip("cell a: (1 - 2) - 3;");
    round_trip("cell a: ( 1 + 1.0 )  / 11.01 * ( (10 + 8 ) - 14 + cost ); cell cost: 1;");
}

#[test]
fn test_round_trip_conditionals_and_calls() {
    round_trip("cell a: if 1 + 2 > 4 ? 10 : 20;");
    round_trip("param s; cell f: if s % 2 == 0 ? s / 2 : s / 3;");
    round_trip("cell t: int( rand() * 10 );");
    round_trip("cell t: random(1, 2, 3) + 1;");
}

#[test]
fn test_printed_form_is_fully_parenthesized() {
    let ast = parse(scan("cell a: 1 + 2 * 3;").unwrap()).unwrap();
    assert_eq!(pretty_print(&ast), "cell a: (1 + (2 * 3));\n");
}
