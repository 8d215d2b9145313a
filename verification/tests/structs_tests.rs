use alan_von_palladium::ast::{ArraySize, Expr, Function, Param, StructDef, Type};
use alan_von_palladium::codegen::CodeGenerator;
use alan_von_palladium::errors::Span;

fn def(name: &str, fields: Vec<(&str, Type)>) -> StructDef {
    StructDef {
        name: name.to_string(),
        fields: fields.into_iter().map(|(n, t)| (n.to_string(), t)).collect(),
        span: Span::new(0, 0, 1, 1),
    }
}

fn array(elem: Type, size: ArraySize) -> Type {
    Type::Array(Box::new(elem), size)
}

#[test]
fn a_struct_becomes_a_typedef() {
    let mut codegen = CodeGenerator::new("test").unwrap();
    let point = def("Point", vec![("x", Type::I64), ("y", Type::I64)]);
    codegen.generate_struct(&point).unwrap();
    assert_eq!(
        codegen.generated_c(),
        "typedef struct Point {\n    long long x;\n    long long y;\n} Point;\n\n"
    );
    assert_eq!(codegen.defined_structs(), &vec!["Point".to_string()]);
    assert!(CodeGenerator::signature_tags_are_defined("struct Point f()", codegen.defined_structs()));
}

#[test]
fn array_and_struct_fields_are_declarators() {
    let mut codegen = CodeGenerator::new("test").unwrap();
    let grid = array(array(Type::I64, ArraySize::Literal(2)), ArraySize::Literal(3));
    let board = def(
        "Board",
        vec![("cells", grid), ("origin", Type::Custom("Point".to_string())), ("name", Type::String)],
    );
    codegen.generate_struct(&board).unwrap();
    assert_eq!(
        codegen.generated_c(),
        "typedef struct Board {\n    long long cells[3][2];\n    struct Point origin;\n    const char* name;\n} Board;\n\n"
    );
}

#[test]
fn a_refused_field_stops_the_definition() {
    let mut codegen = CodeGenerator::new("test").unwrap();
    let holder = def(
        "Holder",
        vec![
            ("n", Type::I32),
            ("r", Type::Reference { inner: Box::new(Type::I64), mutable: false }),
            ("m", Type::I32),
        ],
    );
    let err = codegen.generate_struct(&holder).unwrap_err().to_string();
    assert_eq!(err, "Reference types in structs not yet supported");
    assert_eq!(codegen.generated_c(), "typedef struct Holder {\n    int n;\n    ");
    assert_eq!(codegen.defined_structs(), &vec!["Holder".to_string()]);
}

#[test]
fn an_open_inner_field_length_is_refused() {
    let mut codegen = CodeGenerator::new("test").unwrap();
    let grid = array(
        array(Type::I64, ArraySize::ConstParam("N".to_string())),
        ArraySize::Literal(3),
    );
    let err = codegen.generate_struct(&def("Grid", vec![("g", grid)])).unwrap_err().to_string();
    assert!(
        err.starts_with("Code generation failed: cannot declare the field `g` of `Grid`: the inner array length is written as `N`"),
        "{}",
        err
    );
    for generic in [
        Type::TypeParam("T".to_string()),
        Type::Tuple(vec![Type::I64]),
    ] {
        let mut codegen = CodeGenerator::new("test").unwrap();
        assert!(codegen.generate_struct(&def("G", vec![("t", generic)])).is_err());
    }
}

#[test]
fn a_field_access_has_its_declared_type() {

    let mut codegen = CodeGenerator::new("test").unwrap();
    let point = def("Point", vec![("x", Type::I64), ("ok", Type::Bool)]);
    codegen.generate_struct(&point).unwrap();
    codegen.bind_non_array("p", "struct Point".to_string());
    codegen.bind_non_array("q", "struct Point*".to_string());
    let span = Span::new(0, 0, 1, 1);
    let access = |object: &str, field: &str| Expr::FieldAccess {
        object: Box::new(Expr::Ident(object.to_string())),
        field: field.to_string(),
        span,
    };
    assert_eq!(codegen.try_infer_expr_type(&access("p", "x")), Some("long long".to_string()));
    assert_eq!(codegen.try_infer_expr_type(&access("p", "ok")), Some("int".to_string()));
    assert_eq!(codegen.try_infer_expr_type(&access("q", "x")), Some("long long".to_string()));
    assert_eq!(codegen.try_infer_expr_type(&access("p", "z")), None);
    assert_eq!(codegen.try_infer_expr_type(&access("r", "x")), None);
}

#[test]
fn a_call_has_the_type_its_declaration_gives() {
    let span = Span::new(0, 0, 1, 1);
    let function = |name: &str, params: Vec<Param>, ret: Option<Type>, is_async: bool| Function {
        name: name.to_string(),
        params,
        return_type: ret,
        body: Vec::new(),
        is_async,
        span,
    };
    let t = || Type::TypeParam("T".to_string());
    let mut codegen = CodeGenerator::new("test").unwrap();
    codegen.declare_function(&function("len", Vec::new(), Some(Type::I64), false));
    codegen.declare_function(&function("greet", Vec::new(), None, false));
    codegen.declare_function(&function(
        "pick",
        vec![
            Param { name: "n".to_string(), ty: Type::I64, mutable: false },
            Param { name: "x".to_string(), ty: t(), mutable: false },
        ],
        Some(t()),
        false,
    ));
    codegen.declare_function(&function("fetch", Vec::new(), Some(Type::I64), true));
    let call = |name: &str, args: Vec<Expr>| Expr::Call {
        func: Box::new(Expr::Ident(name.to_string())),
        args,
        span,
    };
    assert_eq!(codegen.try_infer_expr_type(&call("len", vec![])), Some("long long".to_string()));
    assert_eq!(codegen.try_infer_expr_type(&call("greet", vec![])), Some("void".to_string()));
    assert_eq!(
        codegen.try_infer_expr_type(&call("pick", vec![Expr::Integer(1), Expr::String("s".to_string())])),
        Some("const char*".to_string())
    );
    assert_eq!(codegen.try_infer_expr_type(&call("pick", vec![Expr::Integer(1)])), None);
    assert_eq!(codegen.try_infer_expr_type(&call("fetch", vec![])), Some("fetch_Future".to_string()));
    assert_eq!(codegen.try_infer_expr_type(&call("unknown", vec![])), None);
    // A later declaration of the name takes precedence.
    codegen.declare_function(&function("len", Vec::new(), Some(Type::Bool), false));
    assert_eq!(codegen.try_infer_expr_type(&call("len", vec![])), Some("int".to_string()));
}
