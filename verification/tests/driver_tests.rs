use alan_von_palladium::driver::{describe_child_status, RunOutcome};
use alan_von_palladium::errors::CompileError;

#[test]
fn a_failed_program_passes_its_exit_code_through() {
    assert_eq!(RunOutcome::Child { code: Some(4), signal: None }.exit_code(), 4);
    assert_eq!(RunOutcome::Child { code: None, signal: Some(11) }.exit_code(), 139);
    assert_eq!(RunOutcome::Child { code: None, signal: None }.exit_code(), 128);
    assert_eq!(
        RunOutcome::Compile(CompileError::Generic("x".to_string())).exit_code(),
        1
    );
    assert_eq!(
        RunOutcome::Link { exit_code: 5, message: "gcc not found".to_string() }.exit_code(),
        5
    );
}

#[test]
fn a_run_outcome_collapses_into_a_compile_error() {
    let e = RunOutcome::Child { code: None, signal: Some(9) }.into_compile_error();
    assert_eq!(e.to_string(), "program was killed by signal 9");
    let e = RunOutcome::Child { code: Some(-1), signal: None }.into_compile_error();
    assert_eq!(e.to_string(), "program exited with code -1");
    let e = RunOutcome::Link { exit_code: 3, message: "link failed".to_string() }
        .into_compile_error();
    assert_eq!(e.to_string(), "link failed");
    assert_eq!(describe_child_status(None, None), "terminated abnormally");
}
