use error_snippet::{ArrowSymbols, GraphicalRenderer, Help, Label, Severity, SimpleDiagnostic};
use error_snippet::{Source, SourceLocation, SourceRange, SpanRange, Suggestion};
use error_snippet::{Theme, ThemeStyle, ThemeSymbols};

fn render(diagnostic: SimpleDiagnostic) -> String {
    let mut renderer = GraphicalRenderer::new();
    renderer.use_colors = false;

    renderer.render(&diagnostic).unwrap()
}

fn test_source() -> Source {
    Source::new(
        "src/test.lm",
        "let a = 1;\nlet b = 2;\nlet c = a + b;\nlet d = c * 2;\nlet e = (d + 3) * 2;",
    )
}

#[test]
fn only_message() {
    let message = SimpleDiagnostic::new("mismatched types");

    assert_eq!(render(message), "\u{d7} error: mismatched types\n");
}

#[test]
fn with_code() {
    let message = SimpleDiagnostic::new("mismatched types").with_code("E0308");

    assert_eq!(render(message), "\u{d7} error[E0308]: mismatched types\n");
}

#[test]
fn with_severity_error() {
    let message = SimpleDiagnostic::new("mismatched types").with_severity(Severity::Error);

    assert_eq!(render(message), "\u{d7} error: mismatched types\n");
}

#[test]
fn with_severity_warning() {
    let message = SimpleDiagnostic::new("mismatched types").with_severity(Severity::Warning);

    assert_eq!(render(message), "\u{26a0} warning: mismatched types\n");
}

#[test]
fn with_severity_info() {
    let message = SimpleDiagnostic::new("mismatched types").with_severity(Severity::Info);

    assert_eq!(render(message), "\u{261e} info: mismatched types\n");
}

#[test]
fn with_severity_note() {
    let message = SimpleDiagnostic::new("mismatched types").with_severity(Severity::Note);

    assert_eq!(render(message), "\u{261e} note: mismatched types\n");
}

#[test]
fn with_severity_help() {
    let message = SimpleDiagnostic::new("mismatched types").with_severity(Severity::Help);

    assert_eq!(render(message), "\u{261e} help: mismatched types\n");
}

#[test]
fn with_related_single() {
    let related = SimpleDiagnostic::new("failed to read file");
    let message = SimpleDiagnostic::new("could not compile").add_related(related);

    assert_eq!(
        render(message),
        "\u{d7} error: could not compile\n      \u{d7} error: failed to read file\n\n"
    );
}

#[test]
fn with_related_multiple() {
    let related1 = SimpleDiagnostic::new("failed to read file");
    let related2 = SimpleDiagnostic::new("permission denied");

    let message = SimpleDiagnostic::new("could not compile")
        .add_related(related1)
        .add_related(related2);

    assert_eq!(
        render(message),
        "\u{d7} error: could not compile\n      \u{d7} error: failed to read file\n\n      \u{d7} error: permission denied\n\n"
    );
}

#[test]
fn with_related_nested() {
    let related1 = SimpleDiagnostic::new("permission denied");
    let related2 = SimpleDiagnostic::new("failed to read file").add_related(related1);
    let message = SimpleDiagnostic::new("could not compile").add_related(related2);

    assert_eq!(
        render(message),
        "\u{d7} error: could not compile\n      \u{d7} error: failed to read file\n            \u{d7} error: permission denied\n\n\n"
    );
}

#[test]
fn with_related_labelled() {
    let source = test_source();

    let related = SimpleDiagnostic::new("failed to read file")
        .with_label(Label::new(Some(source), SpanRange::new(15, 20), "labelled message"));

    let message = SimpleDiagnostic::new("could not compile").add_related(related);

    let out = render(message);
    assert!(out.starts_with("\u{d7} error: could not compile\n"));
    assert!(out.contains("\u{d7} error: failed to read file\n"));
    assert!(out.contains("[src/test.lm:2:5]"));
    assert!(out.contains("^^^^^ labelled message"));
}

#[test]
fn with_related_labelled_multiple() {
    let source = test_source();

    let related1 = SimpleDiagnostic::new("failed to read file").with_label(Label::new(
        Some(source.clone()),
        SpanRange::new(15, 20),
        "labelled message 1",
    ));

    let related2 = SimpleDiagnostic::new("permission denied").with_label(Label::new(
        Some(source.clone()),
        SpanRange::new(30, 35),
        "labelled message 2",
    ));

    let message = SimpleDiagnostic::new("could not compile")
        .add_related(related1)
        .add_related(related2);

    let out = render(message);
    assert!(out.contains("labelled message 1"));
    assert!(out.contains("labelled message 2"));
    assert!(out.contains("[src/test.lm:2:5]"));
    assert!(out.contains("[src/test.lm:3:9]"));
}

#[test]
fn with_label_single() {
    let source = test_source();

    let message = SimpleDiagnostic::new("mismatched types")
        .with_label(Label::new(Some(source), SpanRange::new(15, 20), "labelled message"));

    assert_eq!(
        render(message),
        "\u{d7} error: mismatched types\n   \u{256d}\u{2500}[src/test.lm:2:5]\n 1 \u{2502} let a = 1;\n 2 \u{2502} let b = 2;\n   \u{2236}     ^^^^^ labelled message\n 3 \u{2502} let c = a + b;\n   \u{2570}\u{2500}\u{2500}\n"
    );
}

#[test]
fn with_unnamed_source() {
    let source = Source::unnamed(
        "let a = 1;\nlet b = 2;\nlet c = a + b;\nlet d = c * 2;\nlet e = (d + 3) * 2;",
    );

    let message = SimpleDiagnostic::new("mismatched types")
        .with_label(Label::new(Some(source), SpanRange::new(15, 20), "labelled message"));

    let out = render(message);
    assert!(out.contains("\u{256d}\u{2500}\u{2500}\u{2500}\u{2500}\u{2500}\u{2500}\u{2500}\u{2500}\u{2500}\u{2500}\u{2500}\n"));
    assert!(out.contains("^^^^^ labelled message"));
    assert!(!out.contains("src/test.lm"));
}

#[test]
fn with_label_multiple() {
    let source = test_source();

    let message = SimpleDiagnostic::new("mismatched types")
        .with_label(Label::new(Some(source.clone()), SpanRange::new(15, 20), "labelled message 1"))
        .with_label(Label::new(Some(source.clone()), SpanRange::new(30, 35), "labelled message 2"));

    let out = render(message);
    assert!(out.contains("^^^^^ labelled message 1"));
    assert!(out.contains("^^^^^ labelled message 2"));
    // one snippet header for the shared source, and one footer
    assert_eq!(out.matches("[src/test.lm:2:5]").count(), 1);
    assert_eq!(out.matches('\u{256d}').count(), 1);
    assert_eq!(out.matches('\u{2570}').count(), 1);
}

#[test]
fn with_label_different_files() {
    let source1 = Source::new(
        "src/file1.lm",
        "let a = 1;\nlet b = 2;\nlet c = a + b;\nlet d = c * 2;\nlet e = (d + 3) * 2;",
    );

    let source2 = Source::new(
        "src/file2.lm",
        "let f = 1;\nlet g = 2;\nlet h = a + b;\nlet i = c * 2;\nlet j = (d + 3) * 2;",
    );

    let message = SimpleDiagnostic::new("mismatched types")
        .with_label(Label::new(Some(source1), SpanRange::new(15, 20), "labelled message 1"))
        .with_label(Label::new(Some(source2), SpanRange::new(30, 35), "labelled message 2"));

    let out = render(message);
    assert!(out.contains("[src/file1.lm:2:5]"));
    assert!(out.contains("[src/file2.lm:3:9]"));
    assert_eq!(out.matches('\u{256d}').count(), 2);
    assert_eq!(out.matches('\u{2570}').count(), 2);
}

#[test]
fn with_label_severity_error() {
    let source = test_source();

    let message = SimpleDiagnostic::new("mismatched types")
        .with_label(Label::error(Some(source), SpanRange::new(15, 20), "labelled message"));

    let out = render(message);
    assert!(out.contains("^^^^^ labelled message"));
}

#[test]
fn with_label_severity_warning() {
    let source = test_source();

    let message = SimpleDiagnostic::new("mismatched types")
        .with_label(Label::warning(Some(source), SpanRange::new(15, 20), "labelled message"));

    let out = render(message);
    assert!(out.contains("^^^^^ labelled message"));
}

#[test]
fn with_label_severity_info() {
    let source = test_source();

    let message = SimpleDiagnostic::new("mismatched types")
        .with_label(Label::info(Some(source), SpanRange::new(15, 20), "labelled message"));

    let out = render(message);
    assert!(out.contains("^^^^^ labelled message"));
}

#[test]
fn with_label_severity_note() {
    let source = test_source();

    let message = SimpleDiagnostic::new("mismatched types")
        .with_label(Label::note(Some(source), SpanRange::new(15, 20), "labelled message"));

    let out = render(message);
    assert!(out.contains("^^^^^ labelled message"));
}

#[test]
fn with_label_severity_help() {
    let source = test_source();

    let message = SimpleDiagnostic::new("mismatched types")
        .with_label(Label::help(Some(source), SpanRange::new(15, 20), "labelled message"));

    let out = render(message);
    assert!(out.contains("^^^^^ labelled message"));
}

#[test]
fn with_help_single() {
    let message =
        SimpleDiagnostic::new("mismatched types").with_help(Help::new("did you check your syntax?"));

    assert_eq!(
        render(message),
        "\u{d7} error: mismatched types\n   help: did you check your syntax?\n"
    );
}

#[test]
fn with_help_multiple() {
    let message = SimpleDiagnostic::new("mismatched types")
        .with_help(Help::new("did you check your syntax?"))
        .with_help(Help::new("it would really help if you did..."));

    assert_eq!(
        render(message),
        "\u{d7} error: mismatched types\n   help: did you check your syntax?\n   help: it would really help if you did...\n"
    );
}

#[test]
fn with_help_newlines() {
    let message = SimpleDiagnostic::new("mismatched types")
        .with_help(Help::new("expected type `Array<T>`\n   found type `Boolean`"));

    assert_eq!(
        render(message),
        "\u{d7} error: mismatched types\n   help: expected type `Array<T>`\n            found type `Boolean`\n"
    );
}

#[test]
fn with_help_suggestion_delete() {
    let source = Source::new("src/test.lm", "fn foo() -> Boolean {\n    return false as Boolean;\n}");

    let message = SimpleDiagnostic::new("unnecessary cast").with_help(
        Help::new("remove unnecessary cast here")
            .with_suggestion(Suggestion::delete(SourceRange::new(source.clone(), SpanRange::new(38, 49)))),
    );

    let out = render(message);
    assert!(out.starts_with("\u{d7} error: unnecessary cast\n   help: remove unnecessary cast here\n"));
    assert!(out.contains(" 2 \u{2502}     return false as Boolean;\n"));
    // eleven arrows under the deleted range, one per deleted character
    assert!(out.contains("^^^^^^^^^^^"));
    assert!(!out.contains("^^^^^^^^^^^^"));
}

#[test]
fn with_help_suggestion_replace() {
    let source = Source::new("src/test.lm", "fn foo() -> Boolean {\n    return fals;\n}");

    let message = SimpleDiagnostic::new("invalid value").with_help(
        Help::new("did you mean `false`?")
            .with_suggestion(Suggestion::replace(
                SourceRange::new(source.clone(), SpanRange::new(33, 37)),
                "false",
            )),
    );

    assert_eq!(
        render(message),
        "\u{d7} error: invalid value\n   help: did you mean `false`?\n 2 \u{2502}     return false;\n   \u{2502}            ^^^^^\n"
    );
}

#[test]
fn with_help_suggestion_insert() {
    let source = Source::new("src/test.lm", "fn foo() -> Boolean {\n    return 0;\n}");

    let message = SimpleDiagnostic::new("mismatched types").with_help(
        Help::new("cast the value `0` to a `Boolean`").with_suggestion(Suggestion::insert(
            SourceLocation::new(source.clone(), 34),
            " as Boolean",
        )),
    );

    let out = render(message);
    assert!(out.contains("   help: cast the value `0` to a `Boolean`\n"));
    assert!(out.contains(" as Boolean"));
    // eleven arrows, one per inserted character
    assert!(out.contains("^^^^^^^^^^^"));
}

#[test]
fn with_help_suggestion_multiple() {
    let source = Source::new("src/test.lm", "fn foo() -> Boolean {\n    return (false);\n}");

    let message = SimpleDiagnostic::new("unnecessary parenthesis").with_help(
        Help::new("remove unnecessary parenthesis here")
            .with_suggestion(Suggestion::delete(SourceRange::new(source.clone(), SpanRange::new(33, 34))))
            .with_suggestion(Suggestion::delete(SourceRange::new(source.clone(), SpanRange::new(39, 40)))),
    );

    let out = render(message);
    assert!(out.contains("   help: remove unnecessary parenthesis here\n"));
    // two single-column markers on one row, with spacing between them
    assert!(out.contains("^     ^"));
}

#[test]
fn with_help_suggestion_different_lines() {
    let source = Source::new("src/test.lm", "fn foo() -> Boolean {\n    return false;\n}");

    let message = SimpleDiagnostic::new("unnecessary parenthesis").with_help(
        Help::new("remove unnecessary parenthesis here")
            .with_suggestion(Suggestion::replace(
                SourceRange::new(source.clone(), SpanRange::new(12, 19)),
                "CoolBoolean",
            ))
            .with_suggestion(Suggestion::delete(SourceRange::new(source.clone(), SpanRange::new(33, 38)))),
    );

    let out = render(message);
    assert!(out.contains("CoolBoolean"));
    // the two edits sit on different lines, separated by a break row
    assert!(out.contains('\u{2236}'));
    assert!(out.contains("^^^^^^^^^^^"));
    assert!(out.contains("^^^^^"));
}

#[test]
fn label_range_outside_range() {
    let source = Source::new("src/test.lm", "abc");

    let message = SimpleDiagnostic::new("failed to read file").with_label(Label::new(
        Some(source),
        SpanRange::new(256, 280),
        "label_range_outside_range",
    ));

    let out = render(message);
    assert!(out.starts_with("\u{d7} error: failed to read file\n"));
    assert!(out.contains(" 1 \u{2502} abc\n"));
    assert!(out.contains("label_range_outside_range"));
}

#[test]
fn label_end_outside_range() {
    let source = Source::new("src/test.lm", "abc");

    let message = SimpleDiagnostic::new("failed to read file").with_label(Label::new(
        Some(source),
        SpanRange::new(0, 50),
        "label_end_outside_range",
    ));

    let out = render(message);
    assert!(out.contains(" 1 \u{2502} abc\n"));
    assert!(out.contains("^^^ label_end_outside_range"));
}

#[test]
fn label_range_negative_length() {
    let source = Source::new("src/test.lm", "abc");

    let message = SimpleDiagnostic::new("failed to read file").with_label(Label::new(
        Some(source),
        SpanRange::new(3, 1),
        "label_range_negative_length",
    ));

    let out = render(message);
    assert!(out.contains(" 1 \u{2502} abc\n"));
    assert!(out.contains("label_range_negative_length"));
    // a reversed span degrades to a single-column marker, never a
    // negative-width underline
    assert!(!out.contains("^^"));
}

#[test]
fn theme_presets_expose_their_symbols() {
    let symbols = ThemeSymbols::unicode();
    assert_eq!(symbols.error, '\u{d7}');
    assert_eq!(symbols.warning, '\u{26a0}');

    let arrows = ArrowSymbols::unicode();
    assert_eq!(arrows.hbar, '\u{2500}');
    assert_eq!(arrows.arrow_up, '^');
    assert_eq!(arrows.vertical_break, '\u{2236}');

    let theme = Theme::fancy();
    assert_eq!(theme.symbols.error, '\u{d7}');
    assert_eq!(theme.style, ThemeStyle::rgb());
}

#[test]
fn builders_accumulate_their_fields() {
    let source = test_source();

    let labels = vec![
        Label::new(Some(source.clone()), SpanRange::new(0, 3), "one"),
        Label::new(Some(source.clone()), SpanRange::new(4, 6), "two"),
    ];

    let diag = SimpleDiagnostic::new("base")
        .with_labels(labels)
        .with_label(Label::new(Some(source.clone()), SpanRange::new(7, 8), "three"))
        .append_related(vec![SimpleDiagnostic::new("r1"), SimpleDiagnostic::new("r2")])
        .add_causes(vec![SimpleDiagnostic::new("c1")]);

    assert_eq!(diag.labels.as_ref().unwrap().len(), 3);
    assert_eq!(diag.related.len(), 2);
    assert_eq!(diag.causes.len(), 1);
    assert_eq!(diag.message, "base");

    let help = Help::new("base help")
        .with_suggestion(Suggestion::delete(SourceRange::new(source.clone(), SpanRange::new(0, 1))))
        .with_suggestions(vec![
            Suggestion::insert(SourceLocation::new(source.clone(), 2), "x"),
            Suggestion::replace(SourceRange::new(source.clone(), SpanRange::new(3, 4)), "y"),
        ]);
    assert_eq!(help.suggestions.len(), 3);

    let replaced = SimpleDiagnostic::new("m")
        .with_help(Help::new("a"))
        .with_help(Help::new("b"))
        .set_help(Help::new("only"));
    assert_eq!(replaced.help.len(), 1);
    assert_eq!(replaced.help[0].message, "only");
}

#[test]
fn label_getters_report_their_fields() {
    let source = test_source();
    let label = Label::new(Some(source), SpanRange::new(60, 65), "could not find method 'invok'")
        .with_severity(Severity::Warning);

    assert_eq!(label.message(), "could not find method 'invok'");
    assert_eq!(label.range(), SpanRange::new(60, 65));
    assert_eq!(label.severity(), Some(Severity::Warning));
    assert!(label.source().is_some());
}
