use error_snippet::{coords_of_idx, extract_with_context, extract_with_context_offset};
use error_snippet::{Coord, Label, Source, SpanRange};

#[test]
fn test_index_out_of_range() {
    let source = "let a = 1;";
    let Coord { line, column } = coords_of_idx(source, 12);

    assert_eq!(line, 0);
    assert_eq!(column, 10);
}

#[test]
fn test_index_at_end_boundary() {
    let source = "let a = 1;";
    let Coord { line, column } = coords_of_idx(source, 10);

    assert_eq!(line, 0);
    assert_eq!(column, 10);
}

#[test]
fn test_multiline() {
    let source = "let a = 1;\nlet b = 2;\nlet c = a + b;\nlet d = c * 2;\nlet e = (d + 3) * 2;";
    let Coord { line, column } = coords_of_idx(source, 26);

    assert_eq!(line, 2);
    assert_eq!(column, 4);
}

#[test]
fn test_multiline_line_boundary_start() {
    let source = "let a = 1;\nlet b = 2;\nlet c = a + b;\nlet d = c * 2;\nlet e = (d + 3) * 2;";
    let Coord { line, column } = coords_of_idx(source, 22);

    assert_eq!(line, 2);
    assert_eq!(column, 0);
}

#[test]
fn test_multiline_line_boundary_end() {
    let source = "let a = 1;\nlet b = 2;\nlet c = a + b;\nlet d = c * 2;\nlet e = (d + 3) * 2;";
    let Coord { line, column } = coords_of_idx(source, 36);

    assert_eq!(line, 2);
    assert_eq!(column, 14);
}

#[test]
fn test_extract_with_context() {
    let source = "let a = 1;\nlet b = 2;\nlet c = a + b;\nlet d = c * 2;\nlet e = (d + 3) * 2;";
    let (snipped, offset) = extract_with_context_offset(source, SpanRange::new(30, 35), 1);

    assert_eq!(snipped, "let b = 2;\nlet c = a + b;\nlet d = c * 2;");
    assert_eq!(offset, 2);
}

#[test]
fn test_extract_without_context() {
    let source = "let a = 1;\nlet b = 2;\nlet c = a + b;\nlet d = c * 2;\nlet e = (d + 3) * 2;";
    let (snipped, offset) = extract_with_context_offset(source, SpanRange::new(30, 35), 0);

    assert_eq!(snipped, "let c = a + b;");
    assert_eq!(offset, 2);
}

#[test]
fn test_extract_at_beginning_boundary() {
    let source = "let a = 1;\nlet b = 2;\nlet c = a + b;\nlet d = c * 2;\nlet e = (d + 3) * 2;";
    let (snipped, offset) = extract_with_context_offset(source, SpanRange::new(0, 10), 2);

    assert_eq!(snipped, "let a = 1;\nlet b = 2;\nlet c = a + b;");
    assert_eq!(offset, 0);
}

#[test]
fn test_extract_at_ending_boundary() {
    let source = "let a = 1;\nlet b = 2;\nlet c = a + b;\nlet d = c * 2;\nlet e = (d + 3) * 2;";
    let (snipped, offset) = extract_with_context_offset(source, SpanRange::new(60, 71), 2);

    assert_eq!(snipped, "let c = a + b;\nlet d = c * 2;\nlet e = (d + 3) * 2;");
    assert_eq!(offset, 4);
}

#[test]
fn test_extract_at_line_start() {
    let source = "let a = 1;\nlet b = 2;\nlet c = a + b;\nlet d = c * 2;\nlet e = (d + 3) * 2;";
    let (snipped, offset) = extract_with_context_offset(source, SpanRange::new(22, 36), 1);

    assert_eq!(snipped, "let b = 2;\nlet c = a + b;\nlet d = c * 2;");
    assert_eq!(offset, 2);
}

#[test]
fn test_extract_first_line() {
    let source = "let a = 1;\nlet b = 2;\nlet c = a + b;\nlet d = c * 2;\nlet e = (d + 3) * 2;";
    let (snipped, offset) = extract_with_context_offset(source, SpanRange::new(4, 9), 1);

    assert_eq!(snipped, "let a = 1;\nlet b = 2;");
    assert_eq!(offset, 0);
}

#[test]
fn test_extract_last_line() {
    let source = "let a = 1;\nlet b = 2;\nlet c = a + b;\nlet d = c * 2;\nlet e = (d + 3) * 2;";
    let (snipped, offset) = extract_with_context_offset(source, SpanRange::new(64, 75), 1);

    assert_eq!(snipped, "let d = c * 2;\nlet e = (d + 3) * 2;");
    assert_eq!(offset, 4);
}

#[test]
fn clamped_index_is_last_character_of_last_line() {
    // An index far past the end clamps to the end of the last line, and a
    // trailing newline does not move the clamp onto a phantom empty line.
    let source = "ab\ncd\n";
    let c = coords_of_idx(source, 100);
    assert_eq!(c.line, 1);
    assert_eq!(c.column, 2);

    let c2 = coords_of_idx("abc", 100);
    assert_eq!(c2.line, 0);
    assert_eq!(c2.column, 3);
}

#[test]
fn fallback_window_for_span_past_the_end() {
    // A span entirely outside the content yields a non-empty window from
    // the start of the content, never an empty string.
    let source = "abc";
    let (snipped, offset) = extract_with_context_offset(source, SpanRange::new(256, 280), 1);
    assert_eq!(snipped, "abc");
    assert_eq!(offset, 1);
    assert!(!snipped.is_empty());
}

#[test]
fn columns_of_reversed_span_cover_one_column() {
    let source = "abc";
    let span = error_snippet::coords_of_span(source, SpanRange::new(3, 1));
    let cols = span.columns();
    assert_eq!(cols.start, 3);
    assert_eq!(cols.end, 4);
}

#[test]
fn read_span_reads_the_labelled_window() {
    let source = Source::unnamed(
        "fn main() -> int {\n    let a = new Testing();\n    let b = a.invok();\n\n    return 0;\n}",
    );

    let label = Label::new(Some(source), SpanRange::new(58, 67), "");
    let span = label.read_span(None, 0).unwrap();

    assert_eq!(span.data, "    let b = a.invok();");
    assert_eq!(span.start_line, 2);
    assert_eq!(span.line, 2);
}

#[test]
fn line_count_counts_window_lines() {
    let source = Source::unnamed("let a = 1;\nlet b = 2;\nlet c = a + b;");
    let label = Label::new(Some(source), SpanRange::new(12, 14), "");
    let span = label.read_span(None, 1).unwrap();

    assert_eq!(span.line_count(), 3);
}

#[test]
fn fallback_window_holds_the_first_context_lines() {
    // No line intersects the span: the fallback window holds the first
    // 2 * context_lines + 1 lines of the content, here three of five.
    let source = "l1\nl2\nl3\nl4\nl5";
    let (snipped, offset) = extract_with_context_offset(source, SpanRange::new(200, 210), 1);
    assert_eq!(snipped, "l1\nl2\nl3");
    assert_eq!(offset, 1);

    // With no context lines the fallback window is the first line alone.
    let (one, _) = extract_with_context_offset(source, SpanRange::new(200, 210), 0);
    assert_eq!(one, "l1");
}
