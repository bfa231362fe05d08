use eiriad::checker::Checker;
use eiriad::parse_program;

fn check(src: &str) -> Result<(), String> {
    let program = parse_program(src).expect("parses");
    Checker::new().check_program(&program).map_err(|e| e.message)
}

#[test]
fn well_typed_program_passes() {
    assert_eq!(check("let x = 1\nmut y = x + 2\ny = y * 3\nprint(y)"), Ok(()));
}

#[test]
fn unknown_variable_is_reported() {
    assert_eq!(check("x + 1"), Err("Unknown variable 'x'".to_string()));
}

#[test]
fn assignment_to_immutable_binding_is_reported() {
    assert_eq!(check("let x = 1\nx = 2"), Err("Cannot assign to immutable binding 'x'".to_string()));
}

#[test]
fn assignment_type_mismatch_is_reported() {
    assert_eq!(
        check("mut x = 1\nx = \"s\""),
        Err("Type mismatch in assignment to 'x': expected Int, found Str".to_string())
    );
}

#[test]
fn operand_types_are_checked() {
    assert_eq!(
        check("1 + true"),
        Err("'+' expects two numeric operands or two Str operands".to_string())
    );
    assert_eq!(check("1 + \"a\""), Ok(()));
    assert_eq!(check("\"a\" < 1"), Err("Comparison expects compatible ordered operands".to_string()));
    assert_eq!(check("\"a\" == 1"), Err("'=='/'!=' operands are not comparable".to_string()));
    assert_eq!(
        check("match Some(1) { Some(v) -> v, None -> \"z\" }"),
        Err("All match arms must return compatible types".to_string())
    );
    assert_eq!(check("1 % 2.5"), Err("'%' expects Int operands".to_string()));
    assert_eq!(check("!1"), Err("Unary '!' expects Bool operand".to_string()));
}

#[test]
fn builtin_arguments_are_checked() {
    assert_eq!(check("len(1)"), Err("len expects Str".to_string()));
    assert_eq!(check("print(1, 2)"), Err("print expects 1 argument(s), got 2".to_string()));
}

#[test]
fn user_function_arity_is_checked() {
    assert_eq!(check("fn f(a) { a }\nf(1, 2)"), Err("f expects 1 argument(s), got 2".to_string()));
}

#[test]
fn lambda_parameters_do_not_leak() {
    assert_eq!(check("let f = (a) -> a\na"), Err("Unknown variable 'a'".to_string()));
}

#[test]
fn match_arm_bindings_do_not_leak() {
    assert_eq!(check("let o = Some(1)\nlet r = match o { Some(v) -> v, None -> 0 }\nv"), Err("Unknown variable 'v'".to_string()));
}

#[test]
fn compatible_types_compare_part_by_part() {
    assert_eq!(check("mut x = None\nx = Some(1)"), Ok(()));
    assert_eq!(check("mut x = Some(1)\nx = Some(2)"), Ok(()));
    assert_eq!(
        check("mut x = Some(1)\nx = Some(\"a\")"),
        Err("Type mismatch in assignment to 'x': expected Option<_>, found Option<_>".to_string())
    );
    assert_eq!(
        check("mut x = 1\nx = 2.5"),
        Err("Type mismatch in assignment to 'x': expected Int, found Float".to_string())
    );
}
