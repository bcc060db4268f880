use chiika::ast::{BinOp, Declaration, Expr, Extern, Function, Param, Ty};
use chiika::compiler::compile;
use chiika::error::CompileError;
use chiika::printer::to_source;

fn int_ty() -> Ty {
    Ty::raw("int")
}

fn param(name: &str) -> Param {
    Param::new(int_ty(), name)
}

fn call(name: &str, args: Vec<Expr>) -> Expr {
    Expr::FunCall(Box::new(Expr::var_ref(name)), args)
}

fn num(n: i64) -> Expr {
    Expr::Number(n)
}

fn ext(name: &str, params: Vec<Param>, is_async: bool) -> Declaration {
    Declaration::Extern(Extern { name: name.to_string(), params, ret_ty: int_ty(), is_async })
}

fn func(name: &str, params: Vec<Param>, body: Vec<Expr>) -> Declaration {
    Declaration::Function(Function { name: name.to_string(), params, ret_ty: int_ty(), body_stmts: body })
}

fn sleep_and_print() -> Vec<Declaration> {
    vec![ext("sleep", vec![param("n")], true), ext("print", vec![param("n")], false)]
}

fn functions(ds: &[Declaration]) -> Vec<&Function> {
    ds.iter()
        .filter_map(|d| match d {
            Declaration::Function(f) => Some(f),
            Declaration::Extern(_) => None,
        })
        .collect()
}

#[test]
fn sleep_example_expands_into_two_chapters() {
    let mut ast = sleep_and_print();
    ast.push(func(
        "foo",
        vec![],
        vec![call("print", vec![num(100)]), call("print", vec![call("sleep", vec![num(1)])]), call("print", vec![num(200)]), num(300)],
    ));
    let out = compile(ast).unwrap();
    let expected = "extern sleep($ENV $env, $FN(($ENV, int) -> $FUTURE) $cont, int n) -> $FUTURE;\n\
extern print(int n) -> int;\n\
func foo($ENV $env, $FN(($ENV, int) -> $FUTURE) $cont) -> $FUTURE {\n\
\x20 chiika_env_push($env, $CAST($cont as $any));\n\
\x20 print(100);\n\
\x20 sleep($env, foo_1, 1);\n\
}\n\
func foo_1($ENV $env, int $async_result) -> $FUTURE {\n\
\x20 print($async_result);\n\
\x20 print(200);\n\
\x20 ($CAST(chiika_env_pop($env, 1) as $FN(($ENV, int) -> $FUTURE)))($env, 300);\n\
}\n";
    assert_eq!(to_source(out), expected);
}

#[test]
fn function_without_async_call_is_unchanged() {
    let f = func(
        "add",
        vec![param("a"), param("b")],
        vec![call("print", vec![Expr::OpCall(BinOp::Add, Box::new(Expr::var_ref("a")), Box::new(num(1)))]), Expr::var_ref("b")],
    );
    let mut ast = sleep_and_print();
    ast.push(func(
        "add",
        vec![param("a"), param("b")],
        vec![call("print", vec![Expr::OpCall(BinOp::Add, Box::new(Expr::var_ref("a")), Box::new(num(1)))]), Expr::var_ref("b")],
    ));
    let out = compile(ast).unwrap();
    assert_eq!(out.len(), 3);
    assert_eq!(out[2], f);
}

#[test]
fn one_function_per_async_call_plus_one() {
    let mut ast = vec![
        Declaration::Extern(Extern {
            name: "fetch".to_string(),
            params: vec![],
            ret_ty: Ty::raw("$any"),
            is_async: true,
        }),
        ext("sleep", vec![param("n")], true),
        ext("print", vec![param("n")], false),
    ];
    ast.push(func(
        "run",
        vec![],
        vec![call("print", vec![call("sleep", vec![num(1)])]), call("fetch", vec![]), call("sleep", vec![num(2)]), num(0)],
    ));
    let out = compile(ast).unwrap();
    let fs = functions(&out);
    assert_eq!(fs.len(), 4);
    assert_eq!(fs[0].name, "run");
    assert_eq!(fs[1].name, "run_1");
    assert_eq!(fs[2].name, "run_2");
    assert_eq!(fs[3].name, "run_3");
    assert_eq!(fs[1].params[1].ty, Ty::raw("int"));
    assert_eq!(fs[2].params[1].ty, Ty::raw("$any"));
    assert_eq!(fs[3].params[1].ty, Ty::raw("int"));
    for f in &fs[1..] {
        assert_eq!(f.params[0].name, "$env");
        assert_eq!(f.params[1].name, "$async_result");
        assert_eq!(f.ret_ty, Ty::raw("$FUTURE"));
    }
}

#[test]
fn later_chapters_read_parameters_at_their_push_index() {
    let mut ast = sleep_and_print();
    ast.push(func(
        "pair",
        vec![param("a"), param("b")],
        vec![call("sleep", vec![Expr::var_ref("a")]), call("sleep", vec![num(1)]), call("print", vec![Expr::var_ref("b")]), Expr::var_ref("a")],
    ));
    let text = to_source(compile(ast).unwrap());
    let expected_tail = "func pair($ENV $env, $FN(($ENV, int) -> $FUTURE) $cont, int a, int b) -> $FUTURE {\n\
\x20 chiika_env_push($env, $CAST($cont as $any));\n\
\x20 chiika_env_push($env, $CAST(a as $any));\n\
\x20 chiika_env_push($env, $CAST(b as $any));\n\
\x20 sleep($env, pair_1, a);\n\
}\n\
func pair_1($ENV $env, int $async_result) -> $FUTURE {\n\
\x20 $async_result;\n\
\x20 sleep($env, pair_2, 1);\n\
}\n\
func pair_2($ENV $env, int $async_result) -> $FUTURE {\n\
\x20 $async_result;\n\
\x20 print(chiika_env_ref($env, 2));\n\
\x20 ($CAST(chiika_env_pop($env, 3) as $FN(($ENV, int) -> $FUTURE)))($env, chiika_env_ref($env, 1));\n\
}\n";
    assert!(text.ends_with(expected_tail), "{}", text);
}

#[test]
fn pop_count_is_parameter_count_plus_one() {
    let mut ast = sleep_and_print();
    ast.push(func(
        "three",
        vec![param("x"), param("y"), param("z")],
        vec![call("sleep", vec![num(5)])],
    ));
    let text = to_source(compile(ast).unwrap());
    assert!(text.contains("chiika_env_pop($env, 4)"), "{}", text);
    assert!(text.contains("($env, $async_result);\n"), "{}", text);
}

#[test]
fn call_of_undeclared_function_is_unknown_identifier() {
    let mut ast = sleep_and_print();
    ast.push(func("bad", vec![], vec![call("nope", vec![num(1)])]));
    ast.push(func("good", vec![], vec![num(1)]));
    assert_eq!(compile(ast), Err(CompileError::UnknownIdentifier("nope".to_string())));
}

#[test]
fn unknown_variable_is_unknown_identifier() {
    let mut ast = sleep_and_print();
    ast.push(func("bad", vec![param("a")], vec![call("print", vec![Expr::var_ref("c")])]));
    assert_eq!(compile(ast), Err(CompileError::UnknownIdentifier("c".to_string())));
}

#[test]
fn cast_in_source_is_unsupported() {
    let mut ast = sleep_and_print();
    ast.push(func("bad", vec![], vec![Expr::Cast(Box::new(num(1)), int_ty())]));
    assert_eq!(compile(ast), Err(CompileError::UnsupportedConstruct));
}

#[test]
fn call_of_a_number_is_shape_mismatch() {
    let mut ast = sleep_and_print();
    ast.push(func("bad", vec![], vec![Expr::FunCall(Box::new(num(3)), vec![])]));
    assert_eq!(compile(ast), Err(CompileError::TypeShapeMismatch));
}

#[test]
fn forward_reference_resolves() {
    let ast = vec![
        func("first", vec![], vec![call("second", vec![])]),
        func("second", vec![], vec![num(2)]),
    ];
    let out = compile(ast).unwrap();
    assert_eq!(to_source(out), "func first() -> int {\n  second();\n}\nfunc second() -> int {\n  2;\n}\n");
}

#[test]
fn async_extern_gets_continuation_signature() {
    let out = compile(vec![ext("wait", vec![param("a"), param("b")], true)]).unwrap();
    assert_eq!(
        to_source(out),
        "extern wait($ENV $env, $FN(($ENV, int) -> $FUTURE) $cont, int a, int b) -> $FUTURE;\n"
    );
}

#[test]
fn async_call_as_last_statement_delivers_result() {
    let mut ast = sleep_and_print();
    ast.push(func("just", vec![], vec![call("sleep", vec![num(7)])]));
    let text = to_source(compile(ast).unwrap());
    assert!(text.ends_with(
        "func just_1($ENV $env, int $async_result) -> $FUTURE {\n  ($CAST(chiika_env_pop($env, 1) as $FN(($ENV, int) -> $FUTURE)))($env, $async_result);\n}\n"
    ), "{}", text);
}

#[test]
fn empty_program_compiles_to_nothing() {
    assert_eq!(compile(vec![]).unwrap().len(), 0);
}
