use chiika::ast::{Declaration, Expr, Extern, FunTy, Function, Param, Ty};
use chiika::env::{ChiikaEnv, EnvRegistry};
use chiika::error::CompileError;
use chiika::names::chapter_func_name;
use chiika::printer::to_source;
use chiika::sigs::{gather_sigs, lookup_sig};
use chiika::value::{
    call_kind, cast, cast_shape, machine_type, recast, recast_plan, BasicValue, CallKind, MachineTy, Shape, Step, Value,
};

fn cont_fun_ty() -> FunTy {
    FunTy { is_async: false, param_tys: vec![Ty::raw("$ENV"), Ty::raw("int")], ret_ty: Box::new(Ty::raw("$FUTURE")) }
}

#[test]
fn env_pop_returns_continuation_and_drains_pushes() {
    let mut env = ChiikaEnv::new();
    env.push(7);
    env.push(100);
    env.push(11);
    env.push(12);
    assert_eq!(env.get(2), 11);
    assert_eq!(env.get(3), 12);
    assert_eq!(env.pop(3), 100);
    assert_eq!(env.len(), 1);
    assert_eq!(env.get(0), 7);
}

#[test]
fn env_pop_of_one_takes_the_top() {
    let mut env = ChiikaEnv::new();
    env.push(5);
    assert_eq!(env.pop(1), 5);
    assert_eq!(env.len(), 0);
}

#[test]
fn registry_keeps_chains_apart() {
    let mut reg = EnvRegistry::new();
    let a = reg.create();
    let b = reg.create();
    assert_eq!((a, b), (0, 1));
    reg.push(a, 1);
    reg.push(b, 2);
    reg.push(a, 3);
    assert_eq!(reg.get(a, 1), 3);
    assert_eq!(reg.pop(a, 2), 1);
    assert_eq!(reg.get(b, 0), 2);
}

#[test]
fn chapter_names_carry_the_index() {
    assert_eq!(chapter_func_name("foo", 1), "foo_1");
    assert_eq!(chapter_func_name("foo", 0), "foo_0");
    assert_eq!(chapter_func_name("bar", 1230), "bar_1230");
}

#[test]
fn numbers_print_in_decimal() {
    let f = Function {
        name: "n".to_string(),
        params: vec![],
        ret_ty: Ty::raw("int"),
        body_stmts: vec![Expr::Number(-5), Expr::Number(0), Expr::Number(i64::MIN), Expr::Number(i64::MAX)],
    };
    assert_eq!(
        to_source(vec![Declaration::Function(f)]),
        "func n() -> int {\n  -5;\n  0;\n  -9223372036854775808;\n  9223372036854775807;\n}\n"
    );
}

#[test]
fn local_slots_and_async_marks_print() {
    let f = Function {
        name: "l".to_string(),
        params: vec![],
        ret_ty: Ty::raw("int"),
        body_stmts: vec![Expr::Alloc("x".to_string()), Expr::Assign("x".to_string(), Box::new(Expr::Number(2)))],
    };
    let e = Extern { name: "s".to_string(), params: vec![], ret_ty: Ty::raw("int"), is_async: true };
    assert_eq!(
        to_source(vec![Declaration::Extern(e), Declaration::Function(f)]),
        "extern async s() -> int;\nfunc l() -> int {\n  alloc x;\n  x = 2;\n}\n"
    );
}

#[test]
fn split_sorts_in_reverse_order() {
    let ds = vec![
        Declaration::Extern(Extern { name: "e1".to_string(), params: vec![], ret_ty: Ty::raw("int"), is_async: false }),
        Declaration::Function(Function { name: "f1".to_string(), params: vec![], ret_ty: Ty::raw("int"), body_stmts: vec![] }),
        Declaration::Extern(Extern { name: "e2".to_string(), params: vec![], ret_ty: Ty::raw("int"), is_async: false }),
    ];
    let (externs, funcs) = Declaration::split(ds);
    assert_eq!(externs.iter().map(|x| x.name.as_str()).collect::<Vec<_>>(), vec!["e2", "e1"]);
    assert_eq!(funcs.len(), 1);
    assert_eq!(funcs[0].name, "f1");
}

#[test]
fn signature_table_later_declaration_wins() {
    let ds = vec![
        Declaration::Extern(Extern { name: "f".to_string(), params: vec![], ret_ty: Ty::raw("int"), is_async: true }),
        Declaration::Function(Function {
            name: "f".to_string(),
            params: vec![Param::new(Ty::raw("int"), "a")],
            ret_ty: Ty::raw("$any"),
            body_stmts: vec![],
        }),
    ];
    let sigs = gather_sigs(&ds);
    assert_eq!(sigs.len(), 2);
    let ft = lookup_sig(&sigs, &"f".to_string()).unwrap();
    assert!(!ft.is_async);
    assert_eq!(ft.param_tys, vec![Ty::raw("int")]);
    assert_eq!(*ft.ret_ty, Ty::raw("$any"));
    assert!(lookup_sig(&sigs, &"g".to_string()).is_none());
}

#[test]
fn fun_ty_of_extern_keeps_asyncness() {
    let e = Extern { name: "s".to_string(), params: vec![Param::new(Ty::raw("int"), "n")], ret_ty: Ty::raw("int"), is_async: true };
    let ft = e.fun_ty();
    assert!(ft.is_async);
    assert_eq!(ft.param_tys, vec![Ty::raw("int")]);
    assert_eq!(Ty::fun(vec![Ty::raw("$ENV"), Ty::raw("int")], Ty::raw("$FUTURE")), Ty::Fun(cont_fun_ty()));
}

#[test]
fn machine_types_of_the_language_types() {
    assert_eq!(machine_type(&Ty::raw("int")), Ok(MachineTy::I64));
    assert_eq!(machine_type(&Ty::raw("$any")), Ok(MachineTy::I64));
    assert_eq!(machine_type(&Ty::raw("$ENV")), Ok(MachineTy::Ptr));
    assert_eq!(machine_type(&Ty::raw("$FUTURE")), Ok(MachineTy::Ptr));
    assert_eq!(machine_type(&Ty::Fun(cont_fun_ty())), Ok(MachineTy::Ptr));
    assert_eq!(machine_type(&Ty::raw("float")), Err(CompileError::TypeShapeMismatch));
}

#[test]
fn cast_checks_the_representation() {
    assert_eq!(cast(BasicValue::Int(4), &Ty::raw("int")), Ok(Value::Int(4)));
    assert_eq!(cast(BasicValue::Int(4), &Ty::raw("$any")), Ok(Value::Any(4)));
    assert_eq!(cast(BasicValue::Ptr(64), &Ty::raw("$ENV")), Ok(Value::Opaque(64)));
    assert_eq!(cast(BasicValue::Ptr(64), &Ty::Fun(cont_fun_ty())), Ok(Value::FuncPtr(64, cont_fun_ty())));
    assert_eq!(cast(BasicValue::Ptr(64), &Ty::raw("int")), Err(CompileError::TypeShapeMismatch));
    assert_eq!(cast(BasicValue::Int(4), &Ty::Fun(cont_fun_ty())), Err(CompileError::TypeShapeMismatch));
}

#[test]
fn recast_moves_values_through_the_erased_slot() {
    assert_eq!(recast(Value::Int(9), &Ty::raw("$any")), Ok(Value::Any(9)));
    assert_eq!(recast(Value::Opaque(16), &Ty::raw("$any")), Ok(Value::Any(16)));
    assert_eq!(recast(Value::Func(32, cont_fun_ty()), &Ty::raw("$any")), Ok(Value::Any(32)));
    assert_eq!(recast(Value::Any(48), &Ty::Fun(cont_fun_ty())), Ok(Value::FuncPtr(48, cont_fun_ty())));
    assert_eq!(recast(Value::Any(3), &Ty::raw("int")), Ok(Value::Int(3)));
    assert_eq!(recast(Value::Int(3), &Ty::raw("$ENV")), Err(CompileError::TypeShapeMismatch));
}

#[test]
fn only_functions_can_be_called() {
    let (kind, addr, ft) = Value::Func(8, cont_fun_ty()).call_target().unwrap();
    assert_eq!((kind, addr, ft), (CallKind::Direct, 8, cont_fun_ty()));
    let (kind, _, _) = Value::FuncPtr(8, cont_fun_ty()).call_target().unwrap();
    assert_eq!(kind, CallKind::Indirect);
    assert_eq!(Value::Int(1).call_target(), Err(CompileError::TypeShapeMismatch));
    assert_eq!(Value::Int(1).expect_int(), Ok(1));
    assert_eq!(Value::Any(1).expect_int(), Err(CompileError::TypeShapeMismatch));
    assert_eq!(Value::Opaque(2).into_integer(), 2);
    assert_eq!(Value::Any(5).into_arg_value(), BasicValue::Int(5));
}

#[test]
fn error_messages_name_the_identifier() {
    assert_eq!(CompileError::UnknownIdentifier("zap".to_string()).message(), "unknown identifier: zap");
    assert_eq!(CompileError::TypeShapeMismatch.message(), "value used with a shape it does not have");
    assert_eq!(CompileError::UnsupportedConstruct.message(), "construct not supported at this stage");
}

#[test]
fn conversion_plans_follow_the_shapes() {
    assert_eq!(recast_plan(&Shape::Any, &Ty::Fun(cont_fun_ty())), Ok((Step::IntToPtr, Shape::FuncPtr(cont_fun_ty()))));
    assert_eq!(recast_plan(&Shape::Opaque, &Ty::raw("$any")), Ok((Step::PtrToInt, Shape::Any)));
    assert_eq!(recast_plan(&Shape::Func(cont_fun_ty()), &Ty::raw("$any")), Ok((Step::PtrToInt, Shape::Any)));
    assert_eq!(recast_plan(&Shape::Int, &Ty::raw("$any")), Ok((Step::Keep, Shape::Any)));
    assert_eq!(recast_plan(&Shape::Any, &Ty::raw("int")), Ok((Step::Keep, Shape::Int)));
    assert_eq!(recast_plan(&Shape::Int, &Ty::raw("$FUTURE")), Err(CompileError::TypeShapeMismatch));
    assert_eq!(recast_plan(&Shape::Opaque, &Ty::raw("int")), Err(CompileError::TypeShapeMismatch));
}

#[test]
fn shapes_of_machine_values_and_calls() {
    assert_eq!(cast_shape(MachineTy::I64, &Ty::raw("int")), Ok(Shape::Int));
    assert_eq!(cast_shape(MachineTy::Ptr, &Ty::raw("$ENV")), Ok(Shape::Opaque));
    assert_eq!(cast_shape(MachineTy::I64, &Ty::raw("$ENV")), Err(CompileError::TypeShapeMismatch));
    assert_eq!(call_kind(&Shape::Func(cont_fun_ty())), Ok((CallKind::Direct, cont_fun_ty())));
    assert_eq!(call_kind(&Shape::FuncPtr(cont_fun_ty())), Ok((CallKind::Indirect, cont_fun_ty())));
    assert_eq!(call_kind(&Shape::Any), Err(CompileError::TypeShapeMismatch));
}
