use alan_von_palladium::effects::{Effect, EffectSet};

#[test]
fn test_effect_set() {
    let mut effects = EffectSet::new();
    assert!(effects.is_pure());

    effects.add(Effect::IO);
    assert!(!effects.is_pure());
    assert!(effects.contains(&Effect::IO));

    let other = EffectSet::singleton(Effect::Async);
    effects.union(&other);
    assert!(effects.contains(&Effect::IO));
    assert!(effects.contains(&Effect::Async));
}

use alan_von_palladium::ast::{Expr, Function, Stmt};
use alan_von_palladium::effects::EffectAnalyzer;
use alan_von_palladium::errors::Span;

fn sp() -> Span {
    Span::new(0, 0, 1, 1)
}

fn call(name: &str) -> Expr {
    Expr::Call {
        func: Box::new(Expr::Ident(name.to_string())),
        args: vec![],
        span: sp(),
    }
}

fn function(name: &str, body: Vec<Stmt>, is_async: bool) -> Function {
    Function {
        name: name.to_string(),
        params: vec![],
        return_type: None,
        body,
        is_async,
        span: sp(),
    }
}

#[test]
fn adding_a_real_effect_evicts_pure() {
    let mut effects = EffectSet::singleton(Effect::Pure);
    assert!(effects.is_pure());
    effects.add(Effect::Panic);
    assert!(!effects.contains(&Effect::Pure));
    assert_eq!(effects.effects(), &vec![Effect::Panic]);
    effects.add(Effect::Panic);
    assert_eq!(effects.effects().len(), 1);
}

#[test]
fn the_analysis_records_what_it_found() {
    let mut analyzer = EffectAnalyzer::new();
    let printer = function("greet", vec![Stmt::Expr(call("print"))], false);
    let found = analyzer.analyze_function(&printer).unwrap();
    assert!(found.contains(&Effect::IO));
    assert!(!analyzer.is_function_pure("greet"));
    assert_eq!(
        analyzer.get_function_effects("greet").unwrap().effects(),
        &vec![Effect::IO]
    );

    // A caller inherits what its callee was found to do.
    let caller = function("main", vec![Stmt::Expr(call("greet"))], false);
    let found = analyzer.analyze_function(&caller).unwrap();
    assert!(found.contains(&Effect::IO));

    // Pure built-ins and unknown functions add nothing.
    let quiet = function(
        "quiet",
        vec![Stmt::Expr(call("string_len")), Stmt::Expr(call("nobody_knows"))],
        false,
    );
    assert!(analyzer.analyze_function(&quiet).unwrap().is_pure());
    assert!(analyzer.is_function_pure("quiet"));
    assert!(analyzer.is_function_pure("never_analysed"));
    assert!(analyzer.get_function_effects("never_analysed").is_none());
}

#[test]
fn async_and_unsafe_and_question_marks() {
    let mut analyzer = EffectAnalyzer::default();
    let f = function("f", vec![], true);
    assert!(analyzer.analyze_function(&f).unwrap().contains(&Effect::Async));
    let g = function(
        "g",
        vec![
            Stmt::Unsafe { body: vec![], span: sp() },
            Stmt::Expr(Expr::Question {
                expr: Box::new(Expr::Integer(1)),
                span: sp(),
            }),
        ],
        false,
    );
    let found = analyzer.analyze_function(&g).unwrap();
    assert_eq!(found.effects(), &vec![Effect::Unsafe, Effect::Panic]);
}

#[test]
fn printing_is_io_whatever_was_analysed_before() {
    let mut analyzer = EffectAnalyzer::new();
    // Record a user function named like nothing built in, then print.
    let helper = function("helper", vec![], false);
    assert!(analyzer.analyze_function(&helper).unwrap().is_pure());
    let shows = function("shows", vec![Stmt::Expr(call("print_int"))], false);
    assert!(analyzer.analyze_function(&shows).unwrap().contains(&Effect::IO));
}
