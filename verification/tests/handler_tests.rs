use error_snippet::{BufferedDiagnosticHandler, DrainError, GraphicalRenderer, Handler};
use error_snippet::{count_errors, drain_outcome, Renderer, RenderError, Severity, SimpleDiagnostic};
use error_snippet::{sort_suggestions, Source, SourceLocation, SourceRange, SpanRange, Suggestion};

pub struct StubRenderer;

impl Renderer for StubRenderer {
    fn render_diag(&mut self, _diagnostic: &SimpleDiagnostic) -> Result<String, RenderError> {
        Ok(String::new())
    }
}

pub struct FailingRenderer;

impl Renderer for FailingRenderer {
    fn render_diag(&mut self, _diagnostic: &SimpleDiagnostic) -> Result<String, RenderError> {
        Err(RenderError)
    }
}

#[test]
fn drain_removes_all() {
    let renderer = StubRenderer;
    let mut handler = BufferedDiagnosticHandler::with_renderer(512, renderer);

    handler.report(SimpleDiagnostic::new("foo"));
    assert_eq!(handler.count(), 1);

    let _ = handler.drain();
    assert_eq!(handler.count(), 0);
}

#[test]
fn drain_renders_into_buffer() {
    let mut renderer = GraphicalRenderer::new();
    renderer.use_colors = false;
    let mut handler = BufferedDiagnosticHandler::with_renderer(512, renderer);

    handler.report(SimpleDiagnostic::new("first"));
    handler.report(SimpleDiagnostic::new("second"));
    assert_eq!(handler.count(), 2);
    assert_eq!(handler.emitted().len(), 2);

    handler.drain().unwrap();
    assert_eq!(handler.count(), 0);
    assert_eq!(
        handler.buffer(),
        "\u{d7} error: first\n\u{d7} error: second\n"
    );
}

#[test]
fn report_and_drain_empties_the_store() {
    let mut renderer = GraphicalRenderer::new();
    renderer.use_colors = false;
    let mut handler = BufferedDiagnosticHandler::with_renderer(512, renderer);

    handler.report_and_drain(SimpleDiagnostic::new("boom")).unwrap();
    assert_eq!(handler.count(), 0);
    assert_eq!(handler.buffer(), "\u{d7} error: boom\n");
}

#[test]
fn failing_renderer_reports_a_format_error() {
    let mut handler = BufferedDiagnosticHandler::with_renderer(0, FailingRenderer);
    handler.report(SimpleDiagnostic::new("boom"));

    let result = handler.drain();
    assert!(matches!(result, Err(DrainError::Fmt(_))));
    assert_eq!(handler.count(), 0);
}

#[test]
fn drain_outcome_compounds_errors_when_halting() {
    let result = drain_outcome(3, true);
    match result {
        Err(DrainError::CompoundError(n)) => assert_eq!(n, 3),
        _ => panic!("expected a compound error"),
    }

    assert!(drain_outcome(0, true).is_ok());
    assert!(drain_outcome(3, false).is_ok());
}

#[test]
fn error_count_counts_only_error_severities() {
    let diags = vec![
        SimpleDiagnostic::new("a"),
        SimpleDiagnostic::new("b").with_severity(Severity::Warning),
        SimpleDiagnostic::new("c"),
    ];
    assert_eq!(count_errors(&diags), 2);
}

#[test]
fn suggestions_sort_by_kind_then_offset() {
    let source = Source::unnamed("let a = 1;");
    let suggs = vec![
        Suggestion::replace(SourceRange::new(source.clone(), SpanRange::new(1, 2)), "z"),
        Suggestion::delete(SourceRange::new(source.clone(), SpanRange::new(5, 6))),
        Suggestion::insert(SourceLocation::new(source.clone(), 2), "ab"),
        Suggestion::delete(SourceRange::new(source.clone(), SpanRange::new(0, 1))),
    ];

    let sorted = sort_suggestions(suggs);
    assert!(matches!(sorted[0], Suggestion::Deletion { .. }));
    assert!(matches!(sorted[1], Suggestion::Deletion { .. }));
    assert!(matches!(sorted[2], Suggestion::Insertion { .. }));
    assert!(matches!(sorted[3], Suggestion::Replacement { .. }));
    assert_eq!(sorted[0].span(), SpanRange::new(0, 1));
    assert_eq!(sorted[1].span(), SpanRange::new(5, 6));
}
