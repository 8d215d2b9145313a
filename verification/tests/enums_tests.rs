use alan_von_palladium::ast::{EnumDef, EnumVariant, EnumVariantData, Type};
use alan_von_palladium::codegen::CodeGenerator;
use alan_von_palladium::errors::Span;

fn variant(name: &str, data: EnumVariantData) -> EnumVariant {
    EnumVariant { name: name.to_string(), data }
}

fn shape() -> EnumDef {
    EnumDef {
        name: "Shape".to_string(),
        variants: vec![
            variant("Dot", EnumVariantData::Unit),
            variant("Circle", EnumVariantData::Tuple(vec![Type::I64])),
            variant(
                "Rect",
                EnumVariantData::Struct(vec![("w".to_string(), Type::I64), ("h".to_string(), Type::Bool)]),
            ),
        ],
        span: Span::new(0, 0, 1, 1),
    }
}

fn members() -> Vec<String> {
    vec!["m_Dot".to_string(), "m_Circle".to_string(), "m_Rect".to_string()]
}

#[test]
fn an_enum_is_a_tagged_union_with_constructors() {
    let mut codegen = CodeGenerator::new("test").unwrap();
    codegen.generate_enum(&shape(), &members(), &vec![vec![], vec![false], vec![false, true]]).unwrap();
    assert_eq!(
        codegen.generated_c(),
        "// Enum Shape\ntypedef enum {\n    __Shape__Dot,\n    __Shape__Circle,\n    __Shape__Rect,\n} ShapeTag;\n\n\
typedef struct {\n    long long field0;\n} Shape__Circle_Data;\n\n\
typedef struct {\n    long long w;\n    int* h;\n} Shape__Rect_Data;\n\n\
typedef struct Shape {\n    ShapeTag tag;\n    union {\n        Shape__Circle_Data m_Circle;\n        Shape__Rect_Data m_Rect;\n    } data;\n} Shape;\n\n"
    );
    assert_eq!(
        codegen.enum_constructors(),
        "static inline Shape Shape_Dot() {\n    Shape result = {.tag = __Shape__Dot};\n    return result;\n}\n\n\
static inline Shape Shape_Circle__new(long long arg0) {\n    Shape result = {.tag = __Shape__Circle};\n    result.data.m_Circle.field0 = arg0;\n    return result;\n}\n\n\
static inline Shape Shape_Rect__new(long long w, int h) {\n    Shape result = {.tag = __Shape__Rect};\n    result.data.m_Rect.w = w;\n    result.data.m_Rect.h = (int*)__pd_rec_alloc(sizeof(int));\n    *result.data.m_Rect.h = h;\n    return result;\n}\n\n"
    );
    assert!(codegen.defined_structs().contains(&"Shape".to_string()));
}

#[test]
fn a_unit_only_enum_has_no_union() {
    let mut codegen = CodeGenerator::new("test").unwrap();
    let e = EnumDef {
        name: "Light".to_string(),
        variants: vec![variant("On", EnumVariantData::Unit), variant("Off", EnumVariantData::Unit)],
        span: Span::new(0, 0, 1, 1),
    };
    codegen.generate_enum(&e, &vec!["a".to_string(), "b".to_string()], &vec![vec![], vec![]]).unwrap();
    assert!(codegen.generated_c().ends_with("typedef struct Light {\n    LightTag tag;\n} Light;\n\n"));
}

#[test]
fn a_tuple_payload_is_refused_after_the_tags() {
    let mut codegen = CodeGenerator::new("test").unwrap();
    let e = EnumDef {
        name: "P".to_string(),
        variants: vec![
            variant("Z", EnumVariantData::Unit),
            variant("A", EnumVariantData::Tuple(vec![Type::Tuple(vec![Type::I64, Type::I64])])),
        ],
        span: Span::new(0, 0, 1, 1),
    };
    let err = codegen
        .generate_enum(&e, &vec!["z".to_string(), "a".to_string()], &vec![vec![], vec![false]])
        .unwrap_err()
        .to_string();
    assert!(err.contains("`P::A` carries a TUPLE in its payload"), "{}", err);
    assert!(err.contains("as separate fields (`A(i64, i64)`)"), "{}", err);
    assert_eq!(
        codegen.generated_c(),
        "// Enum P\ntypedef enum {\n    __P__Z,\n    __P__A,\n} PTag;\n\n"
    );
    assert_eq!(codegen.enum_constructors(), "");
}
