use chiika::ast::{BinOp, Declaration, Expr, Extern, FunTy, Function, Param, Ty};
use chiika::compiler::compile;
use chiika::printer::to_source;
use chiika::reader::{parse_program, ParseError};

fn int_ty() -> Ty {
    Ty::raw("int")
}

fn call(name: &str, args: Vec<Expr>) -> Expr {
    Expr::FunCall(Box::new(Expr::var_ref(name)), args)
}

fn sleep_program() -> Vec<Declaration> {
    vec![
        Declaration::Extern(Extern {
            name: "sleep".to_string(),
            params: vec![Param::new(int_ty(), "n")],
            ret_ty: int_ty(),
            is_async: true,
        }),
        Declaration::Extern(Extern {
            name: "print".to_string(),
            params: vec![Param::new(int_ty(), "n")],
            ret_ty: int_ty(),
            is_async: false,
        }),
        Declaration::Function(Function {
            name: "foo".to_string(),
            params: vec![Param::new(int_ty(), "a")],
            ret_ty: int_ty(),
            body_stmts: vec![
                call("print", vec![Expr::Number(100)]),
                call("print", vec![call("sleep", vec![Expr::var_ref("a")])]),
                call("print", vec![Expr::OpCall(BinOp::Sub, Box::new(Expr::var_ref("a")), Box::new(Expr::Number(-2)))]),
                Expr::Number(300),
            ],
        }),
    ]
}

#[test]
fn expanded_program_reads_back_unchanged() {
    let expanded = compile(sleep_program()).unwrap();
    let text = to_source(compile(sleep_program()).unwrap());
    let back = parse_program(&text).unwrap();
    assert_eq!(back, expanded);
    assert_eq!(to_source(back), text);
}

#[test]
fn printed_text_of_each_construct_reads_back() {
    let fun_ty = Ty::Fun(FunTy {
        is_async: false,
        param_tys: vec![Ty::raw("$ENV"), Ty::Fun(FunTy { is_async: false, param_tys: vec![], ret_ty: Box::new(int_ty()) })],
        ret_ty: Box::new(Ty::raw("$FUTURE")),
    });
    let body = vec![
        Expr::Number(i64::MIN),
        Expr::Number(i64::MAX),
        Expr::OpCall(BinOp::Add, Box::new(Expr::Number(1)), Box::new(Expr::OpCall(BinOp::Sub, Box::new(Expr::var_ref("x")), Box::new(Expr::Number(0))))),
        Expr::FunCall(Box::new(Expr::Cast(Box::new(call("g", vec![])), fun_ty)), vec![Expr::var_ref("$env"), Expr::Number(7)]),
        Expr::FunCall(Box::new(Expr::OpCall(BinOp::Add, Box::new(Expr::var_ref("f")), Box::new(Expr::Number(1)))), vec![]),
        call("h", vec![call("k", vec![Expr::Number(1), Expr::Number(2)]), Expr::var_ref("y_2")]),
    ];
    let ast = vec![
        Declaration::Extern(Extern { name: "g".to_string(), params: vec![], ret_ty: Ty::raw("$any"), is_async: false }),
        Declaration::Function(Function {
            name: "main_1".to_string(),
            params: vec![Param::new(int_ty(), "x"), Param::new(Ty::raw("$ENV"), "$env")],
            ret_ty: int_ty(),
            body_stmts: body,
        }),
    ];
    let text = to_source(ast);
    let back = parse_program(&text).unwrap();
    assert_eq!(to_source(back), text);
    assert!(text.contains("($CAST(g() as $FN(($ENV, $FN(() -> int)) -> $FUTURE)))($env, 7);"), "{}", text);
    assert!(text.contains("((f + 1))();"), "{}", text);
}

#[test]
fn parse_reads_the_canonical_form() {
    let src = "extern print(int n) -> int;\nfunc main() -> int {\n  print((1 + 2));\n  0;\n}\n";
    let ds = parse_program(src).unwrap();
    assert_eq!(ds.len(), 2);
    match &ds[1] {
        Declaration::Function(f) => {
            assert_eq!(f.name, "main");
            assert_eq!(f.body_stmts.len(), 2);
            assert_eq!(f.body_stmts[1], Expr::Number(0));
            assert_eq!(
                f.body_stmts[0],
                call("print", vec![Expr::OpCall(BinOp::Add, Box::new(Expr::Number(1)), Box::new(Expr::Number(2)))])
            );
        },
        Declaration::Extern(_) => panic!("expected a function"),
    }
}

#[test]
fn parse_error_points_at_the_bad_declaration() {
    let src = "func f() -> int {\n  1;\n}\nbogus";
    assert_eq!(parse_program(src), Err(ParseError { offset: 25 }));
    assert_eq!(parse_program("func f() -> int {\n  1\n}\n"), Err(ParseError { offset: 0 }));
}

#[test]
fn parse_rejects_a_number_out_of_range() {
    assert!(parse_program("func f() -> int {\n  9223372036854775808;\n}\n").is_err());
    assert!(parse_program("func f() -> int {\n  -9223372036854775809;\n}\n").is_err());
    assert!(parse_program("func f() -> int {\n  -9223372036854775808;\n}\n").is_ok());
}

#[test]
fn empty_text_is_the_empty_program() {
    assert_eq!(parse_program(""), Ok(vec![]));
}

#[test]
fn source_with_async_extern_reads_and_expands() {
    let src = "extern async sleep(int n) -> int;\nextern print(int n) -> int;\nfunc foo() -> int {\n  print(100);\n  print(sleep(1));\n  print(200);\n  300;\n}\n";
    let ast = parse_program(src).unwrap();
    match &ast[0] {
        Declaration::Extern(x) => {
            assert!(x.is_async);
            assert_eq!(x.name, "sleep");
        },
        Declaration::Function(_) => panic!("expected an extern"),
    }
    assert_eq!(to_source(parse_program(src).unwrap()), src);
    let text = to_source(compile(ast).unwrap());
    assert!(text.contains("func foo_1($ENV $env, int $async_result) -> $FUTURE {\n  print($async_result);\n"), "{}", text);
    let again = parse_program(&text).unwrap();
    assert_eq!(to_source(again), text);
}

#[test]
fn extern_named_async_is_not_a_mark() {
    let src = "extern async(int n) -> int;\n";
    let ast = parse_program(src).unwrap();
    match &ast[0] {
        Declaration::Extern(x) => {
            assert!(!x.is_async);
            assert_eq!(x.name, "async");
        },
        Declaration::Function(_) => panic!("expected an extern"),
    }
}
