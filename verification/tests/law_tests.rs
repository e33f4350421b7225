use error_snippet::{group_overlapping_labels, GraphicalRenderer, Help, Label, Severity};
use error_snippet::{SimpleDiagnostic, Source, SourceRange, SpanRange, Suggestion};

fn render(diagnostic: &SimpleDiagnostic) -> String {
    let mut renderer = GraphicalRenderer::new();
    renderer.use_colors = false;

    renderer.render(diagnostic).unwrap()
}

#[test]
fn rendering_twice_is_byte_identical() {
    let source = Source::new(
        "src/test.lm",
        "let a = 1;\nlet b = 2;\nlet c = a + b;\nlet d = c * 2;\nlet e = (d + 3) * 2;",
    );

    let message = SimpleDiagnostic::new("mismatched types")
        .with_code("E0308")
        .with_label(Label::new(Some(source.clone()), SpanRange::new(15, 20), "labelled message"))
        .with_help(Help::new("did you check your syntax?"));

    let first = render(&message);
    let second = render(&message);
    assert_eq!(first, second);
}

#[test]
fn single_line_label_snippet_has_one_source_line() {
    let source = Source::new(
        "src/test.lm",
        "let a = 1;\nlet b = 2;\nlet c = a + b;\nlet d = c * 2;\nlet e = (d + 3) * 2;",
    );

    let message = SimpleDiagnostic::new("mismatched types")
        .with_label(Label::new(Some(source), SpanRange::new(15, 20), "labelled message"));

    let mut renderer = GraphicalRenderer::new();
    renderer.use_colors = false;
    renderer.context_lines = 0;
    let out = renderer.render(&message).unwrap();

    assert_eq!(
        out,
        "\u{d7} error: mismatched types\n   \u{256d}\u{2500}[src/test.lm:2:5]\n 2 \u{2502} let b = 2;\n   \u{2236}     ^^^^^ labelled message\n   \u{2570}\u{2500}\u{2500}\n"
    );
}

#[test]
fn two_labels_on_distinct_lines_make_two_contexts() {
    let source = Source::new(
        "src/test.lm",
        "fn main() -> int {\n    let a = new Testing();\n    let b = a.invok();\n\n    return false;\n}",
    );

    let labels = vec![
        Label::new(Some(source.clone()), SpanRange::new(60, 65), "could not find method 'invok'"),
        Label::new(Some(source.clone()), SpanRange::new(81, 86), "expected 'int', found 'boolean'"),
    ];

    let ctxs = group_overlapping_labels(&None, labels);
    assert_eq!(ctxs.len(), 2);
    assert_eq!(ctxs[0].children.len(), 0);
    assert_eq!(ctxs[1].children.len(), 0);

    let message = SimpleDiagnostic::new("mismatched types")
        .with_label(Label::new(Some(source.clone()), SpanRange::new(60, 65), "could not find method 'invok'"))
        .with_label(Label::new(Some(source.clone()), SpanRange::new(81, 86), "expected 'int', found 'boolean'"));

    let out = render(&message);
    assert!(out.contains("^^^^^ could not find method 'invok'"));
    assert!(out.contains("^^^^^ expected 'int', found 'boolean'"));
    // the two contexts are separated by a vertical-break row
    assert!(out.contains('\u{2236}'));
}

#[test]
fn disjoint_single_line_labels_each_become_leaf_contexts() {
    let source = Source::new("a.txt", "let a = 1;\nlet b = 2;\nlet c = 3;");

    let labels = vec![
        Label::new(Some(source.clone()), SpanRange::new(26, 27), "third"),
        Label::new(Some(source.clone()), SpanRange::new(4, 5), "first"),
        Label::new(Some(source.clone()), SpanRange::new(15, 16), "second"),
    ];

    let ctxs = group_overlapping_labels(&None, labels);
    assert_eq!(ctxs.len(), 3);
    assert_eq!(ctxs[0].parent.message(), "first");
    assert_eq!(ctxs[1].parent.message(), "second");
    assert_eq!(ctxs[2].parent.message(), "third");
    assert_eq!(ctxs[0].children.len(), 0);
    assert_eq!(ctxs[1].children.len(), 0);
    assert_eq!(ctxs[2].children.len(), 0);
}

#[test]
fn child_label_attaches_to_exactly_one_parent() {
    let source = Source::new("a.txt", "let a = 1;\nlet b = 2;\nlet c = 3;");

    // Both later labels start within the first multi-line parent's range,
    // so both nest under it; nesting is one level deep, so the second
    // multi-line label is never examined for children of its own, and the
    // inner label appears in exactly one context.
    let labels = vec![
        Label::new(Some(source.clone()), SpanRange::new(0, 25), "outer one"),
        Label::new(Some(source.clone()), SpanRange::new(2, 30), "outer two"),
        Label::new(Some(source.clone()), SpanRange::new(12, 13), "inner"),
    ];

    let ctxs = group_overlapping_labels(&None, labels);
    assert_eq!(ctxs.len(), 1);
    assert_eq!(ctxs[0].parent.message(), "outer one");
    assert_eq!(ctxs[0].children.len(), 2);
    let inner_count: usize = ctxs
        .iter()
        .map(|c| c.children.iter().filter(|l| l.message() == "inner").count())
        .sum();
    assert_eq!(inner_count, 1);
}

#[test]
fn label_without_source_is_dropped_silently() {
    let message =
        SimpleDiagnostic::new("mismatched types").with_label(Label::new(None, SpanRange::new(0, 3), "nowhere"));

    let out = render(&message);
    assert_eq!(out, "\u{d7} error: mismatched types\n");
}

#[test]
fn replacement_marker_length_is_replacement_text_length() {
    let source = Source::new("src/test.lm", "fn foo() -> Boolean {\n    return fals;\n}");

    // "fals" (4 characters) replaced by "false" (5 characters): the marker
    // row shows 5 arrows, not 4.
    let message = SimpleDiagnostic::new("invalid value").with_help(
        Help::new("did you mean `false`?").with_suggestion(Suggestion::replace(
            SourceRange::new(source.clone(), SpanRange::new(33, 37)),
            "false",
        )),
    );

    let out = render(&message);
    let marker_row = out.lines().last().unwrap();
    let arrow_count = marker_row.chars().filter(|c| *c == '^').count();
    assert_eq!(arrow_count, 5);
}

#[test]
fn cause_renders_indented_before_labels_and_help() {
    let source = Source::new("src/test.lm", "let a = 1;\nlet b = 2;\nlet c = a + b;");
    let cause = SimpleDiagnostic::new("failed to read file").with_code("E0001");

    let message = SimpleDiagnostic::new("could not compile")
        .add_cause(cause)
        .with_label(Label::new(Some(source), SpanRange::new(15, 20), "here"))
        .with_help(Help::new("try again"));

    let out = render(&message);
    // the cause's full cycle comes right after the parent header, one level
    // deeper, followed by a blank line, before the parent's own snippet and
    // help sections
    assert!(out.starts_with(
        "\u{d7} error: could not compile\n      \u{d7} error[E0001]: failed to read file\n\n"
    ));
    let cause_pos = out.find("failed to read file").unwrap();
    let label_pos = out.find("here").unwrap();
    let help_pos = out.find("   help: try again").unwrap();
    assert!(cause_pos < label_pos);
    assert!(label_pos < help_pos);
}

#[test]
fn multiline_parent_nests_contained_label() {
    let source = Source::new(
        "src/test.lm",
        "fn main() -> int {\n    let a = new Testing();\n    let b = a.invok();\n\n    return 0;\n}",
    );

    let message = SimpleDiagnostic::new("mismatched types")
        .with_label(Label::new(Some(source.clone()), SpanRange::new(0, 85), "whole function"))
        .with_label(Label::new(Some(source.clone()), SpanRange::new(31, 38), "constructor"));

    let out = render(&message);
    // the multi-line parent draws top and bottom connectors and its message
    // on a closing row; the nested child is underlined within
    assert!(out.contains('\u{256d}'));
    assert!(out.contains('\u{25b6}'));
    assert!(out.contains("\u{2570} whole function"));
    assert!(out.contains("constructor"));
}

#[test]
fn colors_add_escape_sequences() {
    let mut renderer = GraphicalRenderer::new();
    renderer.use_colors = true;
    let plain = {
        let mut r2 = GraphicalRenderer::new();
        r2.use_colors = false;
        r2.render(&SimpleDiagnostic::new("boom")).unwrap()
    };
    let colored = renderer.render(&SimpleDiagnostic::new("boom")).unwrap();
    assert!(colored.contains('\u{1b}'));
    assert!(!plain.contains('\u{1b}'));
    assert_ne!(plain, colored);
}
