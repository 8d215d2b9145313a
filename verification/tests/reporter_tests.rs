use alan_von_palladium::errors::reporter::{DiagnosticBuilder, ErrorReporter};
use alan_von_palladium::errors::Span;

#[test]
fn test_estimate_token_length() {
    let reporter = ErrorReporter::from_source(String::new(), String::new());
    
    // Alphanumeric tokens
    assert_eq!(reporter.estimate_token_length("variable123 + other"), 11);
    assert_eq!(reporter.estimate_token_length("fn_name()"), 7);
    assert_eq!(reporter.estimate_token_length("_underscore"), 11);
    
    // Single character tokens
    assert_eq!(reporter.estimate_token_length("+ other"), 1);
    assert_eq!(reporter.estimate_token_length("( expr"), 1);
    assert_eq!(reporter.estimate_token_length("; next"), 1);
    
    // Empty or whitespace
    assert_eq!(reporter.estimate_token_length(""), 0);
    assert_eq!(reporter.estimate_token_length("   "), 0);
}

#[test]
fn test_diagnostic_builder_type_mismatch() {
    let span = Span::new(10, 20, 5, 5);
    let diag = DiagnosticBuilder::type_mismatch("int", "string", span);
    
    assert_eq!(diag.message, "type mismatch: expected int, found string");
    assert_eq!(diag.notes.len(), 1);
    assert_eq!(diag.notes[0], "types must match exactly");
    assert_eq!(diag.context_lines, 2);
    assert!(diag.span.is_some());
}

#[test]
fn test_diagnostic_builder_undefined_variable() {
    let span = Span::new(15, 25, 10, 8);
    let diag = DiagnosticBuilder::undefined_variable("myVar", span);
    
    assert_eq!(diag.message, "undefined variable: myVar");
    assert_eq!(diag.notes.len(), 1);
    assert_eq!(diag.notes[0], "variables must be declared before use");
    assert_eq!(diag.suggestions.len(), 1);
    assert!(diag.suggestions[0].message.contains("let myVar = ..."));
    assert_eq!(diag.context_lines, 3);
}

#[test]
fn test_diagnostic_builder_missing_semicolon() {
    let span = Span::new(30, 31, 15, 20);
    let diag = DiagnosticBuilder::missing_semicolon(span);
    
    assert_eq!(diag.message, "expected ';' after statement");
    assert_eq!(diag.notes.len(), 1);
    assert_eq!(diag.notes[0], "each statement must end with a semicolon");
    assert_eq!(diag.suggestions.len(), 1);
    assert_eq!(diag.suggestions[0].message, "add a semicolon at the end of this line");
    assert_eq!(diag.suggestions[0].replacement, Some(";".to_string()));
}

#[test]
fn test_diagnostic_builder_wrong_arg_count_single() {
    let span = Span::new(40, 50, 20, 10);
    
    // Expected 1, found 0
    let diag = DiagnosticBuilder::wrong_arg_count("print", 1, 0, span);
    assert!(diag.message.contains("expects 1 argument, but 0 were provided"));
    assert!(diag.suggestions[0].message.contains("add 1 more argument"));
    
    // Expected 1, found 2
    let diag = DiagnosticBuilder::wrong_arg_count("print", 1, 2, span);
    assert!(diag.message.contains("expects 1 argument, but 2 were provided"));
    assert!(diag.suggestions[0].message.contains("remove 1 argument"));
}

#[test]
fn test_diagnostic_builder_wrong_arg_count_multiple() {
    let span = Span::new(40, 50, 20, 10);
    
    // Expected 3, found 1
    let diag = DiagnosticBuilder::wrong_arg_count("add3", 3, 1, span);
    // Message says "were" even with 1 because expected is plural
    assert!(diag.message.contains("expects 3 arguments, but 1 were provided"));
    assert!(diag.suggestions[0].message.contains("add 2 more arguments"));
    
    // Expected 2, found 5
    let diag = DiagnosticBuilder::wrong_arg_count("add", 2, 5, span);
    assert!(diag.message.contains("expects 2 arguments, but 5 were provided"));
    assert!(diag.suggestions[0].message.contains("remove 3 arguments"));
}

use alan_von_palladium::errors::{Diagnostic, DiagnosticLevel, Suggestion};

#[test]
fn a_report_shows_the_line_and_marks_the_column() {
    let reporter = ErrorReporter::from_source(
        "test.pd".to_string(),
        "fn main() {\n    let x = 42\n}".to_string(),
    );
    let diag = Diagnostic::error("Missing semicolon")
        .with_span(Span::new(26, 27, 2, 15))
        .with_note("Each statement must end with a semicolon")
        .with_suggestion("Add a semicolon here", Some(";".to_string()));
    let expected = [
        "\x1b[1;31merror\x1b[0m\x1b[1m: Missing semicolon\x1b[0m\n",
        "\x1b[1;34m  --> \x1b[0mtest.pd:2:15\n",
        " \x1b[1;34m |\x1b[0m\n",
        "\x1b[2;34m1 |\x1b[0m\x1b[2m fn main() {\x1b[0m\n",
        "\x1b[1;34m2 |\x1b[0m     let x = 42\n",
        "  \x1b[1;34m|\x1b[0m               \x1b[1;31m^\x1b[0m\n",
        "\x1b[2;34m3 |\x1b[0m\x1b[2m }\x1b[0m\n",
        " \x1b[1;34m |\x1b[0m\n",
        "\x1b[1;36m  = note:\x1b[0m Each statement must end with a semicolon\n",
        "\x1b[1;32m  = help:\x1b[0m Add a semicolon here\n",
        "\x1b[1;32m         Suggested fix:\x1b[0m\n",
        "\x1b[32m             let x = 42;\x1b[0m\n",
        "\n",
    ]
    .concat();
    assert_eq!(reporter.render_report(&diag), expected);
}

#[test]
fn a_report_without_a_span_shows_no_source() {
    let reporter = ErrorReporter::from_source("t.pd".to_string(), "x".to_string());
    let mut diag = Diagnostic::error("Generic warning").with_note("This is a note");
    diag.level = DiagnosticLevel::Warning;
    assert_eq!(
        reporter.render_report(&diag),
        "\x1b[1;33mwarning\x1b[0m\x1b[1m: Generic warning\x1b[0m\n\x1b[1;36m  = note:\x1b[0m This is a note\n\n"
    );
}

#[test]
fn a_zero_width_span_marks_the_whole_token_and_keeps_tabs() {
    let reporter = ErrorReporter::from_source(
        "t.pd".to_string(),
        "a\n\tlet value = 1\nb".to_string(),
    );
    let diag = Diagnostic::error("e")
        .with_span(Span::new(7, 7, 2, 6))
        .with_context_lines(0);
    let text = reporter.render_report(&diag);
    assert!(
        text.contains(" \x1b[1;34m|\x1b[0m \t    \x1b[1;31m^~~~~\x1b[0m\n"),
        "{:?}",
        text
    );
    assert!(!text.contains("a\x1b[0m"));
}

#[test]
fn test_show_source_snippet_with_context() {
    let reporter = ErrorReporter::from_source(
        "snippet.pd".to_string(),
        "line 1\nline 2\nline 3\nline 4\nline 5".to_string(),
    );

    // Test valid span
    let span = Span::new(0, 5, 3, 1);
    let text = reporter.snippet_text(span, 1);
    assert!(text.contains("line 2") && text.contains("line 3") && text.contains("line 4"));
    assert!(!text.contains("line 1") && !text.contains("line 5"));

    // Test edge cases
    let span = Span::new(0, 5, 0, 1); // line 0 (invalid)
    assert_eq!(
        reporter.snippet_text(span, 0),
        "\x1b[1;34m  --> \x1b[0msnippet.pd:0:1\n"
    );

    let span = Span::new(0, 5, 100, 1); // line too large
    assert_eq!(
        reporter.snippet_text(span, 0),
        "\x1b[1;34m  --> \x1b[0msnippet.pd:100:1\n"
    );
}

#[test]
fn test_show_suggestion_with_replacement() {
    let reporter = ErrorReporter::from_source(
        "s.pd".to_string(),
        "let x = 42\nprint(x)\nlet y = x + 1".to_string(),
    );

    let suggestion = Suggestion {
        message: "Use println instead".to_string(),
        replacement: Some("println".to_string()),
        span: Some(Span::new(11, 16, 2, 1)), // "print" on line 2
    };

    assert_eq!(
        reporter.suggestion_help(&suggestion),
        "\x1b[1;32m  = help:\x1b[0m Use println instead\n\x1b[1;32m         Suggested fix:\x1b[0m\n\x1b[32m         println\x1b[0m\n"
    );
}

#[test]
fn test_show_suggestion_without_replacement() {
    let reporter = ErrorReporter::from_source("t.pd".to_string(), "test".to_string());

    let suggestion = Suggestion {
        message: "Consider adding type annotations".to_string(),
        replacement: None,
        span: None,
    };

    assert_eq!(
        reporter.suggestion_help(&suggestion),
        "\x1b[1;32m  = help:\x1b[0m Consider adding type annotations\n"
    );
}

#[test]
fn test_report_full_diagnostic() {
    let reporter = ErrorReporter::from_source(
        "main.pd".to_string(),
        "fn main() {\n    let x = 42\n    println(x);\n}".to_string(),
    );

    let diagnostic = Diagnostic {
        level: DiagnosticLevel::Error,
        message: "Missing semicolon".to_string(),
        span: Some(Span::new(26, 27, 2, 14)),
        notes: vec!["Each statement must end with a semicolon".to_string()],
        suggestions: vec![Suggestion {
            message: "Add a semicolon here".to_string(),
            replacement: Some(";".to_string()),
            span: Some(Span::new(26, 27, 2, 14)),
        }],
        context_lines: 1,
    };

    let text = reporter.render_report(&diagnostic);
    assert!(text.contains("main.pd:2:14"));
    assert!(text.contains("    let x = 4;"), "{:?}", text);
}

#[test]
fn test_report_diagnostic_without_span() {
    let reporter = ErrorReporter::from_source("t.pd".to_string(), "test".to_string());

    let diagnostic = Diagnostic {
        level: DiagnosticLevel::Warning,
        message: "Generic warning".to_string(),
        span: None,
        notes: vec!["This is a note".to_string()],
        suggestions: vec![],
        context_lines: 0,
    };

    // Should handle missing span gracefully
    assert!(!reporter.render_report(&diagnostic).contains("-->"));
}

#[test]
fn test_show_source_snippet_edge_cases() {
    let reporter = ErrorReporter::from_source("one.pd".to_string(), "single line".to_string());

    // Test with context lines greater than file size
    let span = Span::new(0, 6, 1, 1);
    assert!(reporter.snippet_text(span, 10).contains("single line"));

    // Test at boundaries
    let reporter = ErrorReporter::from_source(
        "three.pd".to_string(),
        "line 1\nline 2\nline 3".to_string(),
    );

    // First line with context
    let span = Span::new(0, 5, 1, 1);
    assert!(reporter.snippet_text(span, 2).contains("line 3"));

    // Last line with context
    let span = Span::new(14, 19, 3, 1);
    assert!(reporter.snippet_text(span, 2).contains("line 1"));
}

#[test]
fn test_diagnostic_levels() {
    let reporter = ErrorReporter::from_source("t.pd".to_string(), "test".to_string());

    // Test each diagnostic level
    for level in [
        DiagnosticLevel::Error,
        DiagnosticLevel::Warning,
        DiagnosticLevel::Info,
        DiagnosticLevel::Help,
    ] {
        let diagnostic = Diagnostic {
            level,
            message: format!("Test {:?} message", level),
            span: None,
            notes: vec![],
            suggestions: vec![],
            context_lines: 0,
        };

        assert!(reporter
            .render_report(&diagnostic)
            .contains(&format!("Test {:?} message", level)));
    }
}

#[test]
fn test_tab_handling_in_source() {
    let reporter = ErrorReporter::from_source(
        "tabs.pd".to_string(),
        "fn main() {\n\tlet x = 42;\n\t\tprintln(x);\n}".to_string(),
    );

    // Span pointing to "println" on line 3 with tabs
    let span = Span::new(24, 31, 3, 3);
    assert!(reporter
        .snippet_text(span, 0)
        .contains(" \x1b[1;34m|\x1b[0m \t\t\x1b[1;31m^~~~~~~\x1b[0m\n"));
}

#[test]
fn a_span_inside_a_character_cannot_be_rendered() {
    let reporter = ErrorReporter::from_source("t.pd".to_string(), "let é = 1;\n".to_string());
    // Column 6 starts at byte 5, which is inside the two-byte `é`.
    let inside = Diagnostic::error("bad").with_span(Span::new(5, 5, 1, 6));
    assert!(!reporter.can_render(&inside));
    // Column 5 starts at byte 4, where `é` begins.
    let at_start = Diagnostic::error("bad").with_span(Span::new(5, 5, 1, 5));
    assert!(reporter.can_render(&at_start));
    // A suggestion whose end falls inside `é` cannot be spliced in.
    let splice = Diagnostic::error("bad")
        .with_span(Span::new(4, 5, 1, 5))
        .with_suggestion("rename", Some("x".to_string()));
    assert!(!reporter.can_render(&splice));
    assert!(reporter.can_render(&Diagnostic::error("no span")));
}
