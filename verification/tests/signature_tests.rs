use alan_von_palladium::ast::{ArraySize, Function, Item, Param, Program, StructDef, Type};
use alan_von_palladium::codegen::CodeGenerator;
use alan_von_palladium::errors::Span;

fn function(name: &str, params: Vec<Param>, return_type: Option<Type>) -> Function {
    Function {
        name: name.to_string(),
        params,
        return_type,
        body: Vec::new(),
        is_async: false,
        span: Span::new(0, 0, 1, 1),
    }
}

fn param(name: &str, ty: Type, mutable: bool) -> Param {
    Param { name: name.to_string(), ty, mutable }
}

fn array(elem: Type, size: ArraySize) -> Type {
    Type::Array(Box::new(elem), size)
}

fn reference(inner: Type, mutable: bool) -> Type {
    Type::Reference { inner: Box::new(inner), mutable }
}

fn signature(func: &Function) -> Result<String, String> {
    let codegen = CodeGenerator::new("test").unwrap();
    codegen.function_signature(func, &func.name).map_err(|e| e.to_string())
}

#[test]
fn parameterless_main_is_the_c_entry_point() {
    let main = function("main", Vec::new(), None);
    assert_eq!(signature(&main).unwrap(), "int main(int argc, char** argv)");
}

#[test]
fn main_with_parameters_keeps_them_and_returns_int() {
    let main = function("main", vec![param("n", Type::I32, false)], None);
    assert_eq!(signature(&main).unwrap(), "int main(int n)");
}

#[test]
fn scalars_pass_by_value_and_mut_ones_by_pointer() {
    let add = function(
        "add",
        vec![param("a", Type::I64, false), param("b", Type::I64, true)],
        Some(Type::I64),
    );
    assert_eq!(signature(&add).unwrap(), "long long add(long long a, long long* b)");
}

#[test]
fn a_function_without_return_type_is_void() {
    let f = function("greet", vec![param("who", Type::String, false)], None);
    assert_eq!(signature(&f).unwrap(), "void greet(const char* who)");
}

#[test]
fn returning_an_array_is_refused() {
    let f = function("make", Vec::new(), Some(array(Type::I64, ArraySize::Literal(3))));
    assert_eq!(
        signature(&f).unwrap_err(),
        "Returning arrays from functions is not yet supported"
    );
}

#[test]
fn array_parameters_are_declarators() {
    let f = function(
        "sum",
        vec![param("xs", array(Type::I64, ArraySize::Literal(3)), false)],
        Some(Type::I64),
    );
    assert_eq!(signature(&f).unwrap(), "long long sum(long long xs[3])");
}

#[test]
fn references_to_arrays_differ_only_by_const() {
    let shared = function(
        "read",
        vec![param("xs", reference(array(Type::I64, ArraySize::Literal(4)), false), false)],
        None,
    );
    assert_eq!(signature(&shared).unwrap(), "void read(const long long xs[4])");
    let unique = function(
        "fill",
        vec![param("xs", reference(array(Type::I64, ArraySize::Literal(4)), true), false)],
        None,
    );
    assert_eq!(signature(&unique).unwrap(), "void fill(long long xs[4])");
}

#[test]
fn const_goes_after_a_pointer_element() {
    let f = function(
        "show",
        vec![param("names", reference(array(Type::String, ArraySize::Literal(2)), false), false)],
        None,
    );
    assert_eq!(signature(&f).unwrap(), "void show(const char* const names[2])");
}

#[test]
fn the_outermost_length_may_be_left_open() {
    let grid = array(
        array(Type::I64, ArraySize::Literal(2)),
        ArraySize::ConstParam("N".to_string()),
    );
    let f = function("rows", vec![param("g", grid, false)], None);
    assert_eq!(signature(&f).unwrap(), "void rows(long long g[][2])");
}

#[test]
fn an_open_inner_length_is_refused() {
    let grid = array(
        array(Type::I64, ArraySize::ConstParam("N".to_string())),
        ArraySize::Literal(3),
    );
    let f = function("rows", vec![param("g", grid, false)], None);
    let err = signature(&f).unwrap_err();
    assert!(
        err.starts_with(
            "Code generation failed: cannot declare the parameter `g`: the inner array length is written as `N`"
        ),
        "{}",
        err
    );
}

#[test]
fn struct_references_are_struct_pointers() {
    let point = || Type::Custom("Point".to_string());
    let f = function(
        "move_by",
        vec![
            param("p", reference(point(), true), false),
            param("q", reference(point(), false), false),
            param("r", point(), false),
        ],
        None,
    );
    assert_eq!(
        signature(&f).unwrap(),
        "void move_by(struct Point* p, const struct Point* q, struct Point r)"
    );
}

#[test]
fn a_reference_to_an_unsupported_type_is_refused() {
    let f = function("scale", vec![param("x", reference(Type::F64, false), false)], None);
    assert_eq!(signature(&f).unwrap_err(), "Unsupported type in reference parameter");
}

#[test]
fn an_unsupported_array_element_is_refused_by_name() {
    let f = function(
        "avg",
        vec![param("xs", array(Type::F64, ArraySize::Literal(3)), false)],
        None,
    );
    assert_eq!(
        signature(&f).unwrap_err(),
        "Unsupported array element type in function parameter: F64"
    );
}

#[test]
fn the_first_refused_parameter_decides() {
    let f = function(
        "both",
        vec![
            param("a", Type::I32, false),
            param("x", reference(Type::F64, false), false),
            param("xs", array(Type::F64, ArraySize::Literal(3)), false),
        ],
        None,
    );
    assert_eq!(signature(&f).unwrap_err(), "Unsupported type in reference parameter");
}

#[test]
fn prototypes_name_only_defined_struct_tags() {
    let defined = vec!["Point".to_string(), "My_Line".to_string()];
    let sig = "void f(struct Point* p, const struct My_Line* l)";
    assert!(CodeGenerator::signature_tags_are_defined(sig, &defined));
    assert!(!CodeGenerator::signature_tags_are_defined(sig, &defined[..1].to_vec()));
    assert!(CodeGenerator::signature_tags_are_defined("long long add(long long a)", &Vec::new()));
    assert!(!CodeGenerator::signature_tags_are_defined("struct Shape make()", &defined));
}

#[test]
fn prototypes_declare_each_function_once_in_order() {
    let mut codegen = CodeGenerator::new("test").unwrap();
    codegen
        .generate_struct(&StructDef { name: "P".to_string(), fields: vec![], span: Span::new(0, 0, 1, 1) })
        .unwrap();
    let before = codegen.generated_c().to_string();
    let mut waiting = function("wait", Vec::new(), None);
    waiting.is_async = true;
    let program = Program {
        items: vec![
            Item::Function(function("main", Vec::new(), None)),
            Item::Function(function("add", vec![param("a", Type::I64, false)], Some(Type::I64))),
            Item::Function(waiting),
            // Names a struct tag nobody defined: no prototype.
            Item::Function(function("lost", vec![param("g", Type::Custom("G".to_string()), false)], None)),
            Item::Function(function("take", vec![param("p", Type::Custom("P".to_string()), false)], None)),
            // The same name again: the first prototype stands.
            Item::Function(function("add", Vec::new(), Some(Type::Bool))),
        ],
    };
    codegen.generate_function_prototypes(&program).unwrap();
    let added = &codegen.generated_c()[before.len()..];
    let take = codegen.function_signature(&function("take", vec![param("p", Type::Custom("P".to_string()), false)], None), "take").unwrap();
    assert_eq!(
        added,
        format!("// Forward declarations\nlong long add(long long a);\n{};\n\n", take)
    );
}

#[test]
fn no_functions_to_declare_emit_nothing() {
    let mut codegen = CodeGenerator::new("test").unwrap();
    let program = Program { items: vec![Item::Function(function("main", Vec::new(), None))] };
    codegen.generate_function_prototypes(&program).unwrap();
    assert_eq!(codegen.generated_c(), "");
}

#[test]
fn a_signature_that_cannot_be_written_refuses_the_prototypes() {
    let mut codegen = CodeGenerator::new("test").unwrap();
    let program = Program {
        items: vec![
            Item::Function(function("ok", Vec::new(), None)),
            Item::Function(function("make", Vec::new(), Some(array(Type::I64, ArraySize::Literal(3))))),
        ],
    };
    let err = codegen.generate_function_prototypes(&program).unwrap_err().to_string();
    assert_eq!(err, "Returning arrays from functions is not yet supported");
    assert_eq!(codegen.generated_c(), "");
}
