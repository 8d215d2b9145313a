use alan_von_palladium::ast::AssignTarget;
use alan_von_palladium::ast::Function;
use alan_von_palladium::ast::Expr;
use alan_von_palladium::codegen::CodeGenerator;
use alan_von_palladium::errors::Span;

#[test]
fn test_an_effectful_argument_with_no_nameable_type_is_refused() {
    let mut codegen = CodeGenerator::new("test").unwrap();
    let span = Span::new(0, 0, 1, 1);
    let unnameable = Expr::Await {
        expr: Box::new(Expr::Integer(1)),
        span,
    };
    assert!(!CodeGenerator::expr_is_pure(&unnameable));
    assert!(codegen.try_infer_expr_type(&unnameable).is_none());

    let err = codegen
        .hoist_call_argument(&unnameable, false, 1, "add2", "", "")
        .unwrap_err()
        .to_string();
    assert!(err.contains("cannot sequence argument 2 of `add2`"), "{}", err);

    // A pure argument keeps the fallback: its read time is not observable,
    // so emitting it in place loses nothing.
    let pure = Expr::Ident("x".to_string());
    assert!(CodeGenerator::expr_is_pure(&pure));
    assert!(codegen.try_infer_expr_type(&pure).is_none());
    assert_eq!(
        codegen.hoist_call_argument(&pure, false, 0, "add2", "x", "").unwrap(),
        None
    );
}

#[test]
fn the_mangling_can_collide() {
    assert_eq!(
        CodeGenerator::tuple_c_name(&["A_B".to_string(), "C".to_string()]),
        CodeGenerator::tuple_c_name(&["A".to_string(), "B_C".to_string()]),
        "if these ever differ the mangling became injective"
    );
}

#[test]
fn a_colliding_layout_is_refused_by_name() {
    let mut codegen = CodeGenerator::new("collision_probe").expect("a generator");
    let first = codegen
        .register_tuple(&["A_B".to_string(), "C".to_string()])
        .expect("the first shape registers");
    let second = codegen.register_tuple(&["A".to_string(), "B_C".to_string()]);
    let err = second.expect_err(
        "the second shape mangles to the same name with different fields; accepting it \
         would emit one struct and use it for both",
    );
    let text = err.to_string();
    assert!(
        text.contains("mangle to the same C name") && text.contains(&first),
        "the refusal must name the collision and the name involved: {}",
        text
    );
}

#[test]
fn the_same_layout_registers_twice() {
    let mut codegen = CodeGenerator::new("collision_probe").expect("a generator");
    let a = codegen
        .register_tuple(&["long long".to_string(), "const char*".to_string()])
        .expect("first");
    let b = codegen
        .register_tuple(&["long long".to_string(), "const char*".to_string()])
        .expect("second registration of the same shape is not a collision");
    assert_eq!(a, b);
}

use alan_von_palladium::ast::{BinOp, UnaryOp};
use alan_von_palladium::codegen::{split_array_dims, OrderedMap};

fn sp() -> Span {
    Span::new(0, 0, 1, 1)
}

#[test]
fn tuple_names_spell_their_element_types() {
    assert_eq!(
        CodeGenerator::tuple_c_name(&["long long".to_string(), "const char*".to_string()]),
        "__pd_tuple2_long_long_const_char_p"
    );
    assert_eq!(CodeGenerator::tuple_c_name(&[]), "__pd_tuple0");
    assert_eq!(
        CodeGenerator::tuple_c_name(&["struct  A".to_string()]),
        "__pd_tuple1_struct_A"
    );
}

#[test]
fn the_shape_registry_keeps_registration_order() {
    let mut shapes = OrderedMap::default();
    assert!(shapes.is_empty());
    assert!(shapes.insert("b".to_string(), vec!["int".to_string()]));
    assert!(shapes.insert("a".to_string(), vec!["long long".to_string()]));
    assert!(shapes.insert("b".to_string(), vec!["int".to_string()]));
    assert!(!shapes.insert("b".to_string(), vec!["double".to_string()]));
    assert_eq!(shapes.element_types("b"), Some(&vec!["int".to_string()]));
    assert_eq!(shapes.element_types("c"), None);
    let names: Vec<&String> = shapes.iter().iter().map(|(n, _)| n).collect();
    assert_eq!(names, vec!["b", "a"]);
}

#[test]
fn c_type_strings() {
    assert_eq!(
        split_array_dims("long long [3] [2]"),
        ("long long".to_string(), "[3][2]".to_string())
    );
    assert_eq!(split_array_dims("int"), ("int".to_string(), String::new()));
    assert_eq!(CodeGenerator::array_of("long long[2]", 3), "long long[3][2]");
    assert_eq!(
        CodeGenerator::struct_name_of("struct Point*"),
        Some("Point".to_string())
    );
    assert_eq!(CodeGenerator::struct_name_of("Point"), Some("Point".to_string()));
    assert_eq!(CodeGenerator::struct_name_of("long long[3]"), None);
    assert_eq!(CodeGenerator::struct_name_of("**"), None);
    assert_eq!(
        CodeGenerator::pointer_declarator("long long", "[2]", "t"),
        "long long (*t)[2]"
    );
    assert_eq!(CodeGenerator::pointer_declarator("long long", "", "t"), "long long *t");
    assert_eq!(CodeGenerator::c_i64_literal(-5), "-5LL");
    assert_eq!(
        CodeGenerator::c_i64_literal(i64::MIN),
        "(-9223372036854775807LL - 1)"
    );
    assert_eq!(CodeGenerator::zero_of("const char*"), "0");
    assert_eq!(CodeGenerator::zero_of("size_t"), "0");
    assert_eq!(CodeGenerator::zero_of("struct P"), "{0}");
}

#[test]
fn inferred_types_of_expressions() {
    let g = CodeGenerator::new("m").unwrap();
    let int = |n| Expr::Integer(n);
    let arr = Expr::ArrayLiteral {
        elements: vec![int(1), int(2), int(3)],
        span: sp(),
    };
    assert_eq!(g.try_infer_expr_type(&arr), Some("long long[3]".to_string()));
    let idx = Expr::Index {
        array: Box::new(arr),
        index: Box::new(int(0)),
        span: sp(),
    };
    assert_eq!(g.try_infer_expr_type(&idx), Some("long long".to_string()));
    let cmp = Expr::Binary {
        left: Box::new(int(1)),
        op: BinOp::Lt,
        right: Box::new(int(2)),
        span: sp(),
    };
    assert_eq!(g.try_infer_expr_type(&cmp), Some("int".to_string()));
    let concat = Expr::Binary {
        left: Box::new(Expr::String("a".to_string())),
        op: BinOp::Add,
        right: Box::new(Expr::String("b".to_string())),
        span: sp(),
    };
    assert_eq!(g.try_infer_expr_type(&concat), Some("const char*".to_string()));
    let not = Expr::Unary {
        op: UnaryOp::Not,
        operand: Box::new(int(0)),
        span: sp(),
    };
    assert_eq!(g.try_infer_expr_type(&not), Some("int".to_string()));
    let reference = Expr::Reference {
        mutable: false,
        expr: Box::new(Expr::String("s".to_string())),
        span: sp(),
    };
    assert_eq!(g.try_infer_expr_type(&reference), Some("const char**".to_string()));
    let deref = Expr::Deref {
        expr: Box::new(reference),
        span: sp(),
    };
    assert_eq!(g.try_infer_expr_type(&deref), Some("const char*".to_string()));
    let first_char = Expr::Index {
        array: Box::new(Expr::String("s".to_string())),
        index: Box::new(int(0)),
        span: sp(),
    };
    assert_eq!(g.try_infer_expr_type(&first_char), Some("char".to_string()));
    let repeat = Expr::ArrayRepeat {
        value: Box::new(Expr::Bool(true)),
        count: Box::new(int(4)),
        span: sp(),
    };
    assert_eq!(g.try_infer_expr_type(&repeat), Some("int[4]".to_string()));
    let call = Expr::Call {
        func: Box::new(Expr::Ident("f".to_string())),
        args: vec![],
        span: sp(),
    };
    assert_eq!(g.try_infer_expr_type(&call), None);
    assert_eq!(g.infer_expr_type(&call), "long long");
    let locals = vec![("x".to_string(), "double".to_string())];
    assert_eq!(
        g.try_infer_expr_type_in(&Expr::Ident("x".to_string()), &locals),
        Some("double".to_string())
    );
}

#[test]
fn a_nameable_effectful_argument_is_read_into_a_temporary() {
    let mut g = CodeGenerator::new("m").unwrap();
    let call_in_index = Expr::Index {
        array: Box::new(Expr::String("s".to_string())),
        index: Box::new(Expr::Call {
            func: Box::new(Expr::Ident("idx".to_string())),
            args: vec![],
            span: sp(),
        }),
        span: sp(),
    };
    assert!(!CodeGenerator::expr_is_pure(&call_in_index));
    assert_eq!(
        g.hoist_call_argument(&call_in_index, false, 0, "take", "s[idx()]", "")
            .unwrap(),
        Some("__pd_val0".to_string())
    );
    assert_eq!(
        g.hoist_call_argument(&Expr::Integer(7), true, 1, "take", "7LL", "")
            .unwrap(),
        Some("__pd_val1".to_string())
    );
    assert_eq!(g.fresh_hoist_name(), "__pd_val2");
    assert_eq!(
        g.mangle_generic_name("pick", &vec!["i64".to_string(), "bool".to_string()]),
        "pick__i64_bool"
    );
    assert_eq!(
        CodeGenerator::expr_kind_name(&Expr::MacroInvocation {
            name: "m".to_string(),
            span: sp()
        }),
        "macro invocation"
    );
}

use alan_von_palladium::ast::{ArraySize, Param, Stmt, Type};
use alan_von_palladium::codegen::ArrayLen;

#[test]
fn types_spell_as_c_declarators() {
    let g = CodeGenerator::new("m").unwrap();
    let grid = Type::Array(
        Box::new(Type::Array(Box::new(Type::I64), ArraySize::Literal(2))),
        ArraySize::Literal(3),
    );
    assert_eq!(g.type_to_c(&grid), "long long[3][2]");
    let open = Type::Array(Box::new(Type::Bool), ArraySize::ConstParam("N".to_string()));
    assert_eq!(g.type_to_c(&open), "int[N]");
    assert_eq!(
        g.type_to_c(&Type::Reference {
            inner: Box::new(Type::Custom("P".to_string())),
            mutable: true
        }),
        "struct P*"
    );
    assert_eq!(
        g.type_to_c(&Type::Tuple(vec![Type::I64, Type::String])),
        "__pd_tuple2_long_long_const_char_p"
    );
    assert_eq!(g.type_to_c(&Type::TypeParam("T".to_string())), "void*");
    assert_eq!(g.return_type_to_c(None), Some("void".to_string()));
    assert_eq!(g.return_type_to_c(Some(&Type::Unit)), Some("void".to_string()));
    assert_eq!(g.return_type_to_c(Some(&Type::TypeParam("T".to_string()))), None);
    assert_eq!(g.return_type_to_c(Some(&Type::U64)), Some("unsigned long long".to_string()));
    assert_eq!(
        CodeGenerator::array_len_of_size(&ArraySize::Literal(0)),
        ArrayLen::Proven(0)
    );
    assert_eq!(
        CodeGenerator::array_len_of_size(&ArraySize::ConstParam("N".to_string())),
        ArrayLen::Unproven("N".to_string())
    );
}

#[test]
fn nested_tuple_types_register_inner_shapes_first() {
    let mut g = CodeGenerator::new("m").unwrap();
    let nested = Type::Tuple(vec![Type::Tuple(vec![Type::I64, Type::I64]), Type::Bool]);
    g.register_tuple_type(&nested).unwrap();
    let defs = g.tuple_definitions();
    let inner = defs.find("} __pd_tuple2_long_long_long_long;").unwrap();
    let outer = defs
        .find("} __pd_tuple2_pd_tuple2_long_long_long_long_int;")
        .unwrap();
    assert!(inner < outer, "{}", defs);
    assert!(defs.starts_with("// Tuple shapes (N4-12)\ntypedef struct {\n    long long f0;\n"));
    assert!(defs.contains(
        "static __pd_tuple2_long_long_long_long __pd_tuple2_long_long_long_long_new(long long f0, long long f1) {\n    __pd_tuple2_long_long_long_long t;\n    t.f0 = f0;\n    t.f1 = f1;\n    return t;\n}\n\n"
    ));
    let empty = CodeGenerator::new("m").unwrap();
    assert_eq!(empty.tuple_definitions(), "");
}

#[test]
fn reindenting_skips_blank_lines() {
    assert_eq!(
        CodeGenerator::reindent_to("a;\n\n  \nb;", "    "),
        "    a;\n\n  \n    b;"
    );
    assert_eq!(CodeGenerator::reindent_to("a;\n", ""), "a;\n");
}

#[test]
fn block_locals_are_typed_in_order() {
    let g = CodeGenerator::new("m").unwrap();
    let stmts = vec![
        Stmt::Let {
            name: "a".to_string(),
            ty: None,
            value: Expr::Integer(3),
            mutable: false,
            span: sp(),
        },
        Stmt::Let {
            name: "b".to_string(),
            ty: None,
            value: Expr::Ident("a".to_string()),
            mutable: false,
            span: sp(),
        },
        Stmt::Let {
            name: "s".to_string(),
            ty: Some(Type::String),
            value: Expr::Integer(0),
            mutable: false,
            span: sp(),
        },
    ];
    let locals = g.locals_of(&stmts, &vec![]);
    assert_eq!(
        locals,
        vec![
            ("a".to_string(), "long long".to_string()),
            ("b".to_string(), "long long".to_string()),
            ("s".to_string(), "const char*".to_string()),
        ]
    );
    let writes = Param {
        name: "xs".to_string(),
        ty: Type::Reference {
            inner: Box::new(Type::Array(Box::new(Type::I64), ArraySize::Literal(3))),
            mutable: true,
        },
        mutable: false,
    };
    assert!(CodeGenerator::param_grants_array_write(&writes));
    let reads = Param {
        name: "xs".to_string(),
        ty: Type::Array(Box::new(Type::I64), ArraySize::Literal(3)),
        mutable: false,
    };
    assert!(!CodeGenerator::param_grants_array_write(&reads));
}

#[test]
fn the_refusal_for_an_untyped_value_names_its_kind() {
    let g = CodeGenerator::new("m").unwrap();
    let err = g
        .expr_c_type(&Expr::Ident("ghost".to_string()), &vec![], sp())
        .unwrap_err();
    assert!(err.to_string().contains("this variable reference has no type"));
    let err = g
        .hoist_temp_type([None, Some("long long[2]".to_string())], "`if`")
        .unwrap_err();
    assert!(err.to_string().contains("an array cannot be the value of a `if` expression"));
    assert_eq!(
        g.hoist_temp_type([None, Some("int".to_string())], "`if`").unwrap(),
        "int"
    );
}

#[test]
fn an_assignment_writes_into_its_root_variable() {
    let target = AssignTarget::FieldAccess {
        object: Box::new(Expr::Index {
            array: Box::new(Expr::Ident("xs".to_string())),
            index: Box::new(Expr::Integer(0)),
            span: sp(),
        }),
        field: "f".to_string(),
    };
    assert_eq!(CodeGenerator::assign_target_root(&target), Some("xs"));
    let through_call = AssignTarget::Deref {
        expr: Box::new(Expr::Call {
            func: Box::new(Expr::Ident("get".to_string())),
            args: vec![],
            span: sp(),
        }),
    };
    assert_eq!(CodeGenerator::assign_target_root(&through_call), None);
}

#[test]
fn parameters_are_in_scope_with_their_types() {
    use_params_scope();
}

fn use_params_scope() {
    let span = Span::new(0, 0, 1, 1);
    let param = |name: &str, ty: Type| Param { name: name.to_string(), ty, mutable: false };
    let func = Function {
        name: "f".to_string(),
        params: vec![
            param("a", Type::I64),
            param("xs", Type::Array(Box::new(Type::I64), ArraySize::Literal(3))),
            param(
                "p",
                Type::Reference { inner: Box::new(Type::Custom("Point".to_string())), mutable: false },
            ),
            param("x", Type::F64),
        ],
        return_type: None,
        body: Vec::new(),
        is_async: false,
        span,
    };
    let mut codegen = CodeGenerator::new("test").unwrap();
    codegen.bind_non_array("stale", "int".to_string());
    assert_eq!(codegen.try_infer_expr_type(&Expr::Ident("stale".to_string())), Some("int".to_string()));
    codegen.bind_parameters(&func);
    let ty = |g: &CodeGenerator, n: &str| g.try_infer_expr_type(&Expr::Ident(n.to_string()));
    assert_eq!(ty(&codegen, "a"), Some("long long".to_string()));
    assert_eq!(ty(&codegen, "xs"), Some("long long[3]".to_string()));
    assert_eq!(ty(&codegen, "p"), Some("Point".to_string()));
    assert_eq!(ty(&codegen, "x"), Some("long long".to_string()));
    assert_eq!(ty(&codegen, "stale"), None);
    // A later binding shadows an earlier one.
    codegen.bind_non_array("a", "int".to_string());
    assert_eq!(ty(&codegen, "a"), Some("int".to_string()));
}

fn array_params_function() -> Function {
    let span = Span::new(0, 0, 1, 1);
    let arr = |n: usize| Type::Array(Box::new(Type::I64), ArraySize::Literal(n));
    let param = |name: &str, ty: Type, mutable: bool| Param { name: name.to_string(), ty, mutable };
    Function {
        name: "f".to_string(),
        params: vec![
            param("xs", Type::Reference { inner: Box::new(arr(3)), mutable: false }, false),
            param("ys", Type::Reference { inner: Box::new(arr(3)), mutable: true }, false),
            param("zs", arr(2), false),
            param("ws", arr(2), true),
            param("n", Type::I64, false),
        ],
        return_type: None,
        body: Vec::new(),
        is_async: false,
        span,
    }
}

#[test]
fn array_parameters_may_be_written_only_as_declared() {
    let mut codegen = CodeGenerator::new("test").unwrap();
    codegen.bind_parameters(&array_params_function());
    let shared = codegen.check_array_write("xs").unwrap_err().to_string();
    assert!(
        shared.starts_with("Code generation failed: cannot write to `xs`: it is a shared reference parameter"),
        "{}",
        shared
    );
    let by_value = codegen.check_array_write("zs").unwrap_err().to_string();
    assert!(by_value.contains("cannot write to `zs`: it is a by-value array parameter"), "{}", by_value);
    assert!(by_value.contains("Declare `zs: &mut [T; N]` (or `mut zs: [T; N]`)"), "{}", by_value);
    assert!(codegen.check_array_write("ys").is_ok());
    assert!(codegen.check_array_write("ws").is_ok());
    assert!(codegen.check_array_write("n").is_ok());
    assert!(codegen.check_array_write("unknown").is_ok());
    // A non-array binding of the name shadows the parameter.
    codegen.bind_non_array("xs", "long long".to_string());
    assert!(codegen.check_array_write("xs").is_ok());
}

#[test]
fn array_lengths_and_array_arguments() {
    let mut codegen = CodeGenerator::new("test").unwrap();
    codegen.bind_parameters(&array_params_function());
    let ident = |n: &str| Expr::Ident(n.to_string());
    let span = Span::new(0, 0, 1, 1);
    assert_eq!(codegen.array_len_of_expr(&ident("zs")), Some(ArrayLen::Proven(2)));
    assert_eq!(codegen.array_len_of_expr(&ident("n")), None);
    let literal = Expr::ArrayLiteral {
        elements: vec![Expr::Integer(1), Expr::Integer(2), Expr::Integer(3)],
        span,
    };
    assert_eq!(codegen.array_len_of_expr(&literal), Some(ArrayLen::Proven(3)));
    let repeat = |count: Expr| Expr::ArrayRepeat {
        value: Box::new(Expr::Integer(0)),
        count: Box::new(count),
        span,
    };
    assert_eq!(codegen.array_len_of_expr(&repeat(Expr::Integer(4))), Some(ArrayLen::Proven(4)));
    assert_eq!(
        codegen.array_len_of_expr(&repeat(ident("n"))),
        Some(ArrayLen::Unproven("variable reference".to_string()))
    );
    assert!(codegen.is_array_argument(&ident("xs")));
    assert!(codegen.is_array_argument(&Expr::Reference {
        mutable: true,
        expr: Box::new(ident("ys")),
        span,
    }));
    assert!(!codegen.is_array_argument(&ident("n")));
    let element = Expr::Index { array: Box::new(ident("zs")), index: Box::new(Expr::Integer(0)), span };
    assert!(!codegen.is_array_argument(&element));
}

#[test]
fn a_call_may_not_lend_more_than_the_caller_holds() {
    let mut codegen = CodeGenerator::new("test").unwrap();
    codegen.bind_parameters(&array_params_function());
    let span = Span::new(0, 0, 1, 1);
    let ident = |n: &str| Expr::Ident(n.to_string());
    let arr = Type::Array(Box::new(Type::I64), ArraySize::Literal(3));
    let writer = vec![Param {
        name: "out".to_string(),
        ty: Type::Reference { inner: Box::new(arr), mutable: true },
        mutable: false,
    }];
    let reader = vec![Param { name: "v".to_string(), ty: Type::I64, mutable: false }];

    // A mutable array parameter may be passed on to a writer.
    assert!(codegen.check_call_array_capabilities("mutate", Some(&writer), &[ident("ys")]).is_ok());
    // A shared one may not.
    let err = codegen
        .check_call_array_capabilities("mutate", Some(&writer), &[ident("xs")])
        .unwrap_err()
        .to_string();
    assert!(err.contains("cannot pass `xs` to `mutate`: the parameter `out` may write"), "{}", err);
    assert!(err.contains("`xs` is a shared reference parameter, `&[T; N]` here"), "{}", err);
    // Nor a by-value one, with or without `&mut`.
    let by_ref = Expr::Reference { mutable: true, expr: Box::new(ident("zs")), span };
    let err = codegen
        .check_call_array_capabilities("mutate", Some(&writer), &[by_ref])
        .unwrap_err()
        .to_string();
    assert!(err.contains("`zs` is a by-value array parameter, `[T; N]` here"), "{}", err);
    // An element has no array origin this generator can state, but it is no array.
    let element = Expr::Index { array: Box::new(ident("zs")), index: Box::new(Expr::Integer(0)), span };
    assert!(codegen.check_call_array_capabilities("mutate", Some(&writer), &[element]).is_ok());
    // A parameter that cannot write takes anything.
    assert!(codegen.check_call_array_capabilities("show", Some(&reader), &[ident("xs")]).is_ok());
    // An unknown callee may not be handed an array at all.
    let err = codegen
        .check_call_array_capabilities("method", None, &[ident("n"), ident("ys")])
        .unwrap_err()
        .to_string();
    assert!(err.contains("cannot pass an array to `method`: this compiler does not know"), "{}", err);
    assert!(codegen.check_call_array_capabilities("method", None, &[ident("n")]).is_ok());
}

#[test]
fn which_arguments_are_passed_by_address() {
    let span = Span::new(0, 0, 1, 1);
    let x = || Expr::Ident("x".to_string());
    assert!(CodeGenerator::expr_is_addressable(&x()));
    assert!(!CodeGenerator::expr_is_addressable(&Expr::Integer(1)));
    let to_int = Type::Reference { inner: Box::new(Type::I64), mutable: true };
    let to_array = Type::Reference {
        inner: Box::new(Type::Array(Box::new(Type::I64), ArraySize::Literal(2))),
        mutable: true,
    };
    assert!(CodeGenerator::reference_param_needs_address(&to_int, &x()));
    let written_as_reference = Expr::Reference { mutable: true, expr: Box::new(x()), span };
    assert!(!CodeGenerator::reference_param_needs_address(&to_int, &written_as_reference));
    assert!(!CodeGenerator::reference_param_needs_address(&to_array, &x()));
    assert!(!CodeGenerator::reference_param_needs_address(&Type::I64, &x()));
}
