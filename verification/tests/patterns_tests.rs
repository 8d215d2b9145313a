use alan_von_palladium::ast::{Pattern, PatternLiteral};
use alan_von_palladium::codegen::CodeGenerator;

fn condition(p: &Pattern, subject: &str) -> String {
    CodeGenerator::new("test").unwrap().pattern_condition(p, subject).unwrap()
}

#[test]
fn catch_all_patterns_are_always_true() {
    assert_eq!(condition(&Pattern::Wildcard, "_match_expr"), "1");
    assert_eq!(condition(&Pattern::Ident("x".to_string()), "_match_expr"), "1");
    let bound = Pattern::Binding { name: "n".to_string(), inner: Box::new(Pattern::Literal(PatternLiteral::Int(3))) };
    assert_eq!(condition(&bound, "s"), "s == 3LL");
}

#[test]
fn literals_compare_in_c() {
    assert_eq!(condition(&Pattern::Literal(PatternLiteral::Int(-7)), "s"), "s == -7LL");
    assert_eq!(condition(&Pattern::Literal(PatternLiteral::Bool(true)), "s"), "s == 1");
    assert_eq!(
        condition(&Pattern::Literal(PatternLiteral::Int(i64::MIN)), "s"),
        "s == (-9223372036854775807LL - 1)"
    );
}

#[test]
fn ranges_are_two_comparisons() {
    let inclusive = Pattern::Range { lo: PatternLiteral::Int(1), hi: PatternLiteral::Int(10), inclusive: true };
    assert_eq!(condition(&inclusive, "s"), "(s >= 1LL && s <= 10LL)");
    let exclusive = Pattern::Range { lo: PatternLiteral::Int(0), hi: PatternLiteral::Int(5), inclusive: false };
    assert_eq!(condition(&exclusive, "s"), "(s >= 0LL && s < 5LL)");
}

#[test]
fn tuples_test_their_members_and_skip_catch_alls() {
    let p = Pattern::Tuple(vec![
        Pattern::Literal(PatternLiteral::Int(1)),
        Pattern::Wildcard,
        Pattern::Tuple(vec![Pattern::Ident("y".to_string()), Pattern::Literal(PatternLiteral::Bool(false))]),
    ]);
    assert_eq!(condition(&p, "t"), "(t.f0 == 1LL) && ((t.f2.f1 == 0))");
    assert_eq!(condition(&Pattern::Tuple(vec![Pattern::Wildcard]), "t"), "1");
}

#[test]
fn alternatives_and_enum_tags() {
    let p = Pattern::Or(vec![
        Pattern::Literal(PatternLiteral::Int(1)),
        Pattern::Literal(PatternLiteral::Int(2)),
    ]);
    assert_eq!(condition(&p, "s"), "(s == 1LL) || (s == 2LL)");
    let e = Pattern::EnumPattern { enum_name: "Color".to_string(), variant: "Red".to_string() };
    assert_eq!(condition(&e, "_match_expr"), "_match_expr.tag == __Color__Red");
}
