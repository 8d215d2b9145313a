use alan_von_palladium::ast::{Expr, Function, Item, Param, Program, Stmt, Type};
use alan_von_palladium::codegen::CodeGenerator;
use alan_von_palladium::effects::{Effect, EffectAnalyzer};
use alan_von_palladium::errors::Span;

fn span() -> Span {
    Span::new(0, 0, 1, 1)
}

fn tuple(elements: Vec<Expr>) -> Expr {
    Expr::Tuple { elements, span: span() }
}

#[test]
fn nested_tuples_register_innermost_first() {
    let mut codegen = CodeGenerator::new("test").unwrap();
    let inner = tuple(vec![Expr::Integer(1), Expr::Integer(2)]);
    let outer = tuple(vec![inner, Expr::Bool(true)]);
    codegen.register_tuple_shapes_in(&outer, &Vec::new()).unwrap();
    let inner_name = CodeGenerator::tuple_c_name(&["long long".to_string(), "long long".to_string()]);
    let outer_name = CodeGenerator::tuple_c_name(&[inner_name.clone(), "int".to_string()]);
    let defs = codegen.tuple_definitions();
    let i = defs.find(&format!("}} {};", inner_name)).expect("inner shape defined");
    let o = defs.find(&format!("}} {};", outer_name)).expect("outer shape defined");
    assert!(i < o, "{}", defs);
    // Walking again registers nothing new.
    let before = codegen.tuple_definitions();
    codegen.register_tuple_shapes_in(&outer, &Vec::new()).unwrap();
    assert_eq!(codegen.tuple_definitions(), before);
}

#[test]
fn a_tuple_inside_other_expressions_is_found() {
    let mut codegen = CodeGenerator::new("test").unwrap();
    let call = Expr::Call {
        func: Box::new(Expr::Ident("f".to_string())),
        args: vec![Expr::Integer(0), tuple(vec![Expr::String("s".to_string())])],
        span: span(),
    };
    codegen.register_tuple_shapes_in(&call, &Vec::new()).unwrap();
    let name = CodeGenerator::tuple_c_name(&["const char*".to_string()]);
    assert!(codegen.tuple_definitions().contains(&name));
}

#[test]
fn a_tuple_element_without_a_type_is_refused_by_kind() {
    let mut codegen = CodeGenerator::new("test").unwrap();
    let unknown = tuple(vec![Expr::Ident("nowhere".to_string())]);
    let err = codegen.register_tuple_shapes_in(&unknown, &Vec::new()).unwrap_err().to_string();
    assert!(err.contains("this variable reference has no type"), "{}", err);
    // A local binding gives it one.
    let locals = vec![("nowhere".to_string(), "int".to_string())];
    codegen.register_tuple_shapes_in(&unknown, &locals).unwrap();
}

#[test]
fn tuple_element_access_reads_the_registry() {
    let mut codegen = CodeGenerator::new("test").unwrap();
    let pair = tuple(vec![Expr::Integer(1), Expr::String("a".to_string())]);
    codegen.register_tuple_shapes_in(&pair, &Vec::new()).unwrap();
    let name = codegen.try_infer_expr_type(&pair).unwrap();
    codegen.bind_non_array("p", name);
    let index = |i: usize| Expr::TupleIndex {
        expr: Box::new(Expr::Ident("p".to_string())),
        index: i,
        span: span(),
    };
    assert_eq!(codegen.try_infer_expr_type(&index(1)), Some("const char*".to_string()));
    assert_eq!(codegen.try_infer_expr_type(&index(0)), Some("long long".to_string()));
    assert_eq!(codegen.try_infer_expr_type(&index(2)), None);
    assert_eq!(codegen.try_infer_expr_type(&Expr::Char('x')), Some("long long".to_string()));
    let cast = Expr::Cast { expr: Box::new(Expr::Integer(1)), ty: Type::I32, span: span() };
    assert_eq!(codegen.try_infer_expr_type(&cast), Some("int".to_string()));
    assert_eq!(CodeGenerator::expr_kind_name(&cast), "`as` cast");
    assert!(CodeGenerator::expr_is_pure(&pair));
}

#[test]
fn a_programs_written_tuple_types_are_registered_in_order() {
    let pair = Type::Tuple(vec![Type::I64, Type::Bool]);
    let nested = Type::Tuple(vec![Type::Tuple(vec![Type::I32]), Type::String]);
    let func = Function {
        name: "f".to_string(),
        params: vec![Param { name: "p".to_string(), ty: pair, mutable: false }],
        return_type: None,
        body: vec![Stmt::While {
            condition: Expr::Bool(true),
            body: vec![Stmt::Let {
                name: "n".to_string(),
                ty: Some(nested),
                value: Expr::Integer(0),
                mutable: false,
                span: span(),
            }],
            span: span(),
        }],
        is_async: false,
        span: span(),
    };
    let program = Program { items: vec![Item::Function(func)] };
    let mut codegen = CodeGenerator::new("test").unwrap();
    codegen.register_tuple_types_in(&program).unwrap();
    let defs = codegen.tuple_definitions();
    let first = CodeGenerator::tuple_c_name(&["long long".to_string(), "int".to_string()]);
    let inner = CodeGenerator::tuple_c_name(&["int".to_string()]);
    let outer = CodeGenerator::tuple_c_name(&[inner.clone(), "const char*".to_string()]);
    let at = |n: &str| defs.find(&format!("}} {};", n)).expect(n);
    assert!(at(&first) < at(&inner));
    assert!(at(&inner) < at(&outer));
}

#[test]
fn tuples_casts_and_element_access_carry_their_operands_effects() {
    let mut analyzer = EffectAnalyzer::new();
    let print = || Expr::Call {
        func: Box::new(Expr::Ident("print".to_string())),
        args: vec![],
        span: span(),
    };
    let body = vec![
        Stmt::Expr(tuple(vec![Expr::Integer(1), print()])),
        Stmt::Expr(Expr::Cast { expr: Box::new(Expr::Char('c')), ty: Type::I64, span: span() }),
    ];
    let f = Function {
        name: "g".to_string(),
        params: vec![],
        return_type: None,
        body,
        is_async: false,
        span: span(),
    };
    assert!(analyzer.analyze_function(&f).unwrap().contains(&Effect::IO));
}

fn let_(name: &str, value: Expr) -> Stmt {
    Stmt::Let { name: name.to_string(), ty: None, value, mutable: false, span: span() }
}

fn ident(name: &str) -> Box<Expr> {
    Box::new(Expr::Ident(name.to_string()))
}

#[test]
fn a_block_value_is_typed_inside_its_own_bindings() {
    let codegen = CodeGenerator::new("test").unwrap();
    // `{ let a = "s"; a }`
    let block = Expr::Block {
        stmts: vec![let_("a", Expr::String("s".to_string()))],
        value: Some(ident("a")),
        span: span(),
    };
    assert_eq!(codegen.try_infer_expr_type(&block), Some("const char*".to_string()));
    // Outside the block `a` is unbound.
    assert_eq!(codegen.try_infer_expr_type(&Expr::Ident("a".to_string())), None);
    // A block without a value has no type.
    let empty = Expr::Block { stmts: vec![], value: None, span: span() };
    assert_eq!(codegen.try_infer_expr_type(&empty), None);
    assert_eq!(CodeGenerator::expr_kind_name(&empty), "block expression");
}

#[test]
fn an_if_value_takes_the_first_branch_with_a_type() {
    let codegen = CodeGenerator::new("test").unwrap();
    // `if c { unknown } else { let b = true; b }`: the then-value has no
    // type, so the else-value's, inside the else-branch's bindings, counts.
    let if_expr = Expr::If {
        condition: Box::new(Expr::Bool(true)),
        then_branch: vec![],
        then_value: Some(ident("unknown")),
        else_branch: Some(vec![let_("b", Expr::Bool(true))]),
        else_value: Some(ident("b")),
        span: span(),
    };
    assert_eq!(codegen.try_infer_expr_type(&if_expr), Some("int".to_string()));
    assert_eq!(CodeGenerator::expr_kind_name(&if_expr), "`if` expression");
    // `if c { let x = 1; x } else { "s" }`: the then-branch decides.
    let then_first = Expr::If {
        condition: Box::new(Expr::Bool(true)),
        then_branch: vec![let_("x", Expr::Integer(1))],
        then_value: Some(ident("x")),
        else_branch: None,
        else_value: Some(Box::new(Expr::String("s".to_string()))),
        span: span(),
    };
    assert_eq!(codegen.try_infer_expr_type(&then_first), Some("long long".to_string()));
}

#[test]
fn tuples_in_branch_values_are_registered_with_branch_bindings() {
    let mut codegen = CodeGenerator::new("test").unwrap();
    // `if c { let s = "a"; (s, 1) } else { (true,) }`
    let if_expr = Expr::If {
        condition: Box::new(Expr::Bool(true)),
        then_branch: vec![let_("s", Expr::String("a".to_string()))],
        then_value: Some(Box::new(tuple(vec![Expr::Ident("s".to_string()), Expr::Integer(1)]))),
        else_branch: None,
        else_value: Some(Box::new(tuple(vec![Expr::Bool(true)]))),
        span: span(),
    };
    codegen.register_tuple_shapes_in(&if_expr, &Vec::new()).unwrap();
    let defs = codegen.tuple_definitions();
    let first = CodeGenerator::tuple_c_name(&["const char*".to_string(), "long long".to_string()]);
    let second = CodeGenerator::tuple_c_name(&["int".to_string()]);
    let at = |n: &str| defs.find(&format!("}} {};", n)).expect(n);
    assert!(at(&first) < at(&second));
    // A block's value sees the block's bindings too.
    let mut codegen = CodeGenerator::new("test").unwrap();
    let block = Expr::Block {
        stmts: vec![let_("c", Expr::Char('z'))],
        value: Some(Box::new(tuple(vec![Expr::Ident("c".to_string())]))),
        span: span(),
    };
    codegen.register_tuple_shapes_in(&block, &Vec::new()).unwrap();
    assert!(codegen.tuple_definitions().contains(&CodeGenerator::tuple_c_name(&["long long".to_string()])));
}

#[test]
fn if_and_block_values_carry_their_parts_effects() {
    let mut analyzer = EffectAnalyzer::new();
    let print = || Expr::Call {
        func: Box::new(Expr::Ident("print".to_string())),
        args: vec![],
        span: span(),
    };
    let body = vec![Stmt::Expr(Expr::Block {
        stmts: vec![],
        value: Some(Box::new(Expr::If {
            condition: Box::new(Expr::Bool(true)),
            then_branch: vec![Stmt::Expr(print())],
            then_value: None,
            else_branch: None,
            else_value: None,
            span: span(),
        })),
        span: span(),
    })];
    let f = Function {
        name: "h".to_string(),
        params: vec![],
        return_type: None,
        body,
        is_async: false,
        span: span(),
    };
    let effects = analyzer.analyze_function(&f).unwrap();
    assert!(effects.contains(&Effect::IO));
}

fn method(name: &str, return_type: Option<Type>) -> Function {
    Function { name: name.to_string(), params: vec![], return_type, body: vec![], is_async: false, span: span() }
}

#[test]
fn method_calls_are_typed_by_the_receivers_impl() {
    let mut codegen = CodeGenerator::new("test").unwrap();
    codegen.declare_method("Rect", &method("area", Some(Type::I64)));
    codegen.declare_method("Rect", &method("show", None));
    codegen.bind_non_array("r", "struct Rect".to_string());
    let call = |receiver: &str, name: &str| Expr::Call {
        func: Box::new(Expr::FieldAccess {
            object: Box::new(Expr::Ident(receiver.to_string())),
            field: name.to_string(),
            span: span(),
        }),
        args: vec![],
        span: span(),
    };
    assert_eq!(codegen.try_infer_expr_type(&call("r", "area")), Some("long long".to_string()));
    assert_eq!(codegen.try_infer_expr_type(&call("r", "show")), Some("void".to_string()));
    // A method the impl does not declare, and a receiver of no known type.
    assert_eq!(codegen.try_infer_expr_type(&call("r", "perimeter")), None);
    assert_eq!(codegen.try_infer_expr_type(&call("q", "area")), None);
    // A function declared under the qualified name answers when no impl
    // method does.
    codegen.declare_function(&method("Rect::perimeter", Some(Type::Bool)));
    assert_eq!(codegen.try_infer_expr_type(&call("r", "perimeter")), Some("int".to_string()));
    // A path call by the qualified name reads the impl table too.
    let path_call = Expr::Call { func: Box::new(Expr::Ident("Rect::area".to_string())), args: vec![], span: span() };
    assert_eq!(codegen.try_infer_expr_type(&path_call), Some("long long".to_string()));
    // A generic return type has no C type until it is instantiated.
    codegen.declare_method("Rect", &method("pick", Some(Type::TypeParam("T".to_string()))));
    assert_eq!(codegen.try_infer_expr_type(&call("r", "pick")), None);
}

fn break_with(value: Expr) -> Stmt {
    Stmt::Break { value: Some(value), span: span() }
}

#[test]
fn a_loop_value_is_its_first_break_value() {
    let codegen = CodeGenerator::new("test").unwrap();
    // `loop { if c { break "s"; } break 1; }`: the first `break` met decides.
    let looped = Expr::Loop {
        body: vec![
            Stmt::If {
                condition: Expr::Bool(true),
                then_branch: vec![break_with(Expr::String("s".to_string()))],
                else_branch: None,
                span: span(),
            },
            break_with(Expr::Integer(1)),
        ],
        span: span(),
    };
    assert_eq!(codegen.try_infer_expr_type(&looped), Some("const char*".to_string()));
    assert_eq!(CodeGenerator::expr_kind_name(&looped), "`loop` expression");
    // A `break` inside a nested loop belongs to that loop.
    let nested = Expr::Loop {
        body: vec![
            Stmt::While {
                condition: Expr::Bool(true),
                body: vec![break_with(Expr::String("s".to_string()))],
                span: span(),
            },
            break_with(Expr::Bool(false)),
        ],
        span: span(),
    };
    assert_eq!(codegen.try_infer_expr_type(&nested), Some("int".to_string()));
    // A bare `break` carries nothing, and a loop without a valued `break`
    // has no type.
    let bare = Expr::Loop { body: vec![Stmt::Break { value: None, span: span() }], span: span() };
    assert_eq!(codegen.try_infer_expr_type(&bare), None);
    // The value is typed with the bindings outside the loop.
    let inner = Expr::Loop {
        body: vec![let_("x", Expr::Integer(1)), break_with(Expr::Ident("x".to_string()))],
        span: span(),
    };
    assert_eq!(codegen.try_infer_expr_type(&inner), None);
}

#[test]
fn a_loop_has_its_bodys_effects() {
    let mut analyzer = EffectAnalyzer::new();
    let print = Expr::Call { func: Box::new(Expr::Ident("print".to_string())), args: vec![], span: span() };
    let f = Function {
        name: "spin".to_string(),
        params: vec![],
        return_type: None,
        body: vec![Stmt::Expr(Expr::Loop { body: vec![Stmt::Expr(print)], span: span() })],
        is_async: false,
        span: span(),
    };
    assert!(analyzer.analyze_function(&f).unwrap().contains(&Effect::IO));
}
