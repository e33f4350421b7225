//! The data model: severities, sources, labelled spans, suggestions, help
//! messages and the diagnostics that carry them.

use vstd::prelude::*;

use crate::span::{extract_window, lines_of, SpanRange};
use crate::span::{count_lines, extract_spec, window_first_spec};

verus! {

/// Diagnostic severity level.
///
/// Used by the renderer to pick the style and symbol of a diagnostic;
/// severities of `Error` also make a draining handler halt.
#[derive(Debug, Clone, Copy, PartialEq, Eq, Structural)]
pub enum Severity {
    /// Failure. Program cannot continue.
    Error,
    /// Warning. Program can continue but may be affected.
    Warning,
    /// Information. Program can continue and may be unaffected.
    Info,
    /// Note. Has no effect on the program, but may provide additional context.
    Note,
    /// Help. Has no effect on the program, but may provide extra help and tips.
    Help,
}

impl Default for Severity {
    /// The default severity is `Error`.
    fn default() -> (r: Severity)
        ensures
            r == Severity::Error,
    {
        Severity::Error
    }
}

/// The lower-case word for a severity, as shown in a diagnostic header.
pub open spec fn severity_word(s: Severity) -> Seq<char> {
    match s {
        Severity::Error => "error"@,
        Severity::Warning => "warning"@,
        Severity::Info => "info"@,
        Severity::Note => "note"@,
        Severity::Help => "help"@,
    }
}

impl Severity {
    /// The lower-case word for this severity, as shown in a header.
    pub fn word(self) -> (r: &'static str)
        ensures
            r@ == severity_word(self),
    {
        match self {
            Severity::Error => "error",
            Severity::Warning => "warning",
            Severity::Info => "info",
            Severity::Note => "note",
            Severity::Help => "help",
        }
    }
}

/// A piece of source text: an optional name (usually a file path) and the
/// full content.
///
/// Sources are immutable once created. For grouping purposes two sources
/// with the same name count as the same file, whatever their content.
#[derive(Debug)]
pub struct Source {
    /// The name of the source, usually a file path, if it has one.
    pub name: Option<String>,
    /// The full text of the source.
    pub content: String,
}

impl Source {
    /// Creates a named source from its name and content.
    pub fn new(name: &str, content: &str) -> (r: Source)
        ensures
            r.name matches Some(n) && n@ == name@,
            r.content@ == content@,
    {
        Source { name: Some(name.to_owned()), content: content.to_owned() }
    }

    /// Creates a source that has no name.
    pub fn unnamed(content: &str) -> (r: Source)
        ensures
            r.name is None,
            r.content@ == content@,
    {
        Source { name: None, content: content.to_owned() }
    }
}

impl Clone for Source {
    fn clone(&self) -> (r: Source)
        ensures
            r == *self,
    {
        Source {
            name: match &self.name {
                Some(n) => Some(n.clone()),
                None => None,
            },
            content: self.content.clone(),
        }
    }
}

/// Clones an optional source.
pub fn clone_opt_source(o: &Option<Source>) -> (r: Option<Source>)
    ensures
        r == *o,
{
    match o {
        Some(s) => Some(s.clone()),
        None => None,
    }
}

/// Whether two optional source names denote the same file: both absent, or
/// both present with equal text.
pub open spec fn same_name(a: Option<String>, b: Option<String>) -> bool {
    match (a, b) {
        (Some(x), Some(y)) => x@ == y@,
        (None, None) => true,
        _ => false,
    }
}

/// Compares two optional source names for equality by their text.
pub fn name_eq(a: &Option<String>, b: &Option<String>) -> (r: bool)
    ensures
        r == same_name(*a, *b),
{
    match (a, b) {
        (Some(x), Some(y)) => *x == *y,
        (None, None) => true,
        _ => false,
    }
}

/// The source a label is shown against: its own if it has one, else the
/// owning diagnostic's. A label with neither is dropped from the output.
pub open spec fn spec_resolved_source(own: Option<Source>, fallback: Option<Source>) -> Option<
    Source,
> {
    if own is Some {
        own
    } else {
        fallback
    }
}

/// Resolves a label's source against the owning diagnostic's fallback.
pub fn resolve_source(own: &Option<Source>, fallback: &Option<Source>) -> (r: Option<Source>)
    ensures
        r == spec_resolved_source(*own, *fallback),
{
    match own {
        Some(s) => Some(s.clone()),
        None => clone_opt_source(fallback),
    }
}

/// Represents a labelled span of some source code: a message anchored to a
/// range of characters within a source.
#[derive(Debug)]
pub struct Label {
    /// The message to print on the snippet.
    pub message: String,
    /// The source the label points into. If absent, the owning diagnostic's
    /// source is used; if that is also absent the label is dropped.
    pub source: Option<Source>,
    /// The range of the source which the label points at.
    pub range: SpanRange,
    /// The severity of the label, which can differ from the diagnostic's.
    pub severity: Option<Severity>,
}

impl Clone for Label {
    fn clone(&self) -> (r: Label)
        ensures
            r == *self,
    {
        Label {
            message: self.message.clone(),
            source: clone_opt_source(&self.source),
            range: self.range,
            severity: self.severity,
        }
    }
}

impl Label {
    /// Creates a new label with no severity of its own.
    pub fn new(source: Option<Source>, range: SpanRange, message: &str) -> (r: Label)
        ensures
            r.message@ == message@,
            r.source == source,
            r.range == range,
            r.severity is None,
    {
        Label { message: message.to_owned(), source, range, severity: None }
    }

    /// Creates a new label with a severity of `Error`.
    pub fn error(source: Option<Source>, range: SpanRange, message: &str) -> (r: Label)
        ensures
            r.message@ == message@,
            r.source == source,
            r.range == range,
            r.severity == Some(Severity::Error),
    {
        Label { message: message.to_owned(), source, range, severity: Some(Severity::Error) }
    }

    /// Creates a new label with a severity of `Warning`.
    pub fn warning(source: Option<Source>, range: SpanRange, message: &str) -> (r: Label)
        ensures
            r.message@ == message@,
            r.source == source,
            r.range == range,
            r.severity == Some(Severity::Warning),
    {
        Label { message: message.to_owned(), source, range, severity: Some(Severity::Warning) }
    }

    /// Creates a new label with a severity of `Info`.
    pub fn info(source: Option<Source>, range: SpanRange, message: &str) -> (r: Label)
        ensures
            r.message@ == message@,
            r.source == source,
            r.range == range,
            r.severity == Some(Severity::Info),
    {
        Label { message: message.to_owned(), source, range, severity: Some(Severity::Info) }
    }

    /// Creates a new label with a severity of `Note`.
    pub fn note(source: Option<Source>, range: SpanRange, message: &str) -> (r: Label)
        ensures
            r.message@ == message@,
            r.source == source,
            r.range == range,
            r.severity == Some(Severity::Note),
    {
        Label { message: message.to_owned(), source, range, severity: Some(Severity::Note) }
    }

    /// Creates a new label with a severity of `Help`.
    pub fn help(source: Option<Source>, range: SpanRange, message: &str) -> (r: Label)
        ensures
            r.message@ == message@,
            r.source == source,
            r.range == range,
            r.severity == Some(Severity::Help),
    {
        Label { message: message.to_owned(), source, range, severity: Some(Severity::Help) }
    }

    /// Gets the message of the label.
    pub fn message(&self) -> (r: &str)
        ensures
            r@ == self.message@,
    {
        self.message.as_str()
    }

    /// Gets the range of the label.
    pub fn range(&self) -> (r: SpanRange)
        ensures
            r == self.range,
    {
        self.range
    }

    /// Gets the source of the label, if it carries one itself.
    pub fn source(&self) -> (r: Option<Source>)
        ensures
            r == self.source,
    {
        clone_opt_source(&self.source)
    }

    /// Gets the severity of the label, if it carries one itself.
    pub fn severity(&self) -> (r: Option<Severity>)
        ensures
            r == self.severity,
    {
        self.severity
    }

    /// Sets the severity of the label.
    pub fn with_severity(self, severity: Severity) -> (r: Label)
        ensures
            r.message == self.message,
            r.source == self.source,
            r.range == self.range,
            r.severity == Some(severity),
    {
        Label { severity: Some(severity), ..self }
    }

    /// Reads the window of source lines which the label's range intersects,
    /// with `context_lines` surrounding lines, resolving the source from
    /// the label itself or from the given diagnostic.
    ///
    /// Returns `None` exactly when neither the label nor the diagnostic
    /// carries a source.
    pub fn read_span(&self, diagnostic: Option<&SimpleDiagnostic>, context_lines: usize) -> (r:
        Option<LabelSpan>)
        ensures
            ({
                let dsrc = match diagnostic {
                    Some(d) => d.source,
                    None => None::<Source>,
                };
                let resolved = spec_resolved_source(self.source, dsrc);
                match r {
                    None => resolved is None,
                    Some(ls) => resolved matches Some(src) && {
                        let ex = extract_spec(
                            src.content@,
                            self.range.start as int,
                            self.range.end as int,
                            context_lines as int,
                        );
                        &&& ls.data@ == ex.0
                        &&& ls.start_line as int == ex.1
                        &&& ls.line as int == window_first_spec(
                            src.content@,
                            self.range.start as int,
                            self.range.end as int,
                            context_lines as int,
                        )
                    },
                }
            }),
    {
        let dsrc: Option<Source> = match diagnostic {
            Some(d) => clone_opt_source(&d.source),
            None => None,
        };
        let resolved = resolve_source(&self.source, &dsrc);
        match resolved {
            None => None,
            Some(src) => {
                let (slice, first, offset, _) = extract_window(
                    src.content.as_str(),
                    self.range,
                    context_lines,
                );
                Some(LabelSpan { data: slice.to_owned(), line: first, start_line: offset })
            },
        }
    }
}

/// Represents a window of lines read for a label.
#[derive(Debug)]
pub struct LabelSpan {
    /// The text inside the window.
    pub data: String,
    /// The zero-indexed line in the source where the window starts,
    /// including context lines.
    pub line: usize,
    /// The zero-indexed line in the source where the labelled span itself
    /// starts, excluding context lines.
    pub start_line: usize,
}

impl Clone for LabelSpan {
    fn clone(&self) -> (r: LabelSpan)
        ensures
            r == *self,
    {
        LabelSpan { data: self.data.clone(), line: self.line, start_line: self.start_line }
    }
}

impl LabelSpan {
    /// Gets the number of lines in the window.
    pub fn line_count(&self) -> (r: usize)
        ensures
            r as int == lines_of(self.data@).len(),
    {
        count_lines(self.data.as_str())
    }
}

/// A position within a source: an absolute zero-indexed character offset.
#[derive(Debug)]
pub struct SourceLocation {
    /// The source which the offset points into.
    pub source: Source,
    /// The character offset into the source.
    pub offset: usize,
}

impl SourceLocation {
    /// Creates a new location from a source and an offset.
    pub fn new(source: Source, offset: usize) -> (r: SourceLocation)
        ensures
            r.source == source,
            r.offset == offset,
    {
        SourceLocation { source, offset }
    }
}

impl Clone for SourceLocation {
    fn clone(&self) -> (r: SourceLocation)
        ensures
            r == *self,
    {
        SourceLocation { source: self.source.clone(), offset: self.offset }
    }
}

/// A span within a source: an absolute zero-indexed character range.
#[derive(Debug)]
pub struct SourceRange {
    /// The source which the range points into.
    pub source: Source,
    /// The underlying span.
    pub span: SpanRange,
}

impl SourceRange {
    /// Creates a new range from a source and a span.
    pub fn new(source: Source, span: SpanRange) -> (r: SourceRange)
        ensures
            r.source == source,
            r.span == span,
    {
        SourceRange { source, span }
    }
}

impl Clone for SourceRange {
    fn clone(&self) -> (r: SourceRange)
        ensures
            r == *self,
    {
        SourceRange { source: self.source.clone(), span: self.span }
    }
}

/// A suggested fix: a concrete textual edit to the source code.
#[derive(Debug)]
pub enum Suggestion {
    /// Some span within a file should be deleted.
    Deletion { range: SourceRange },
    /// Some string should be inserted at some position within a file.
    Insertion { location: SourceLocation, value: String },
    /// Some span within a file should be replaced.
    Replacement { range: SourceRange, replacement: String },
}

impl Clone for Suggestion {
    fn clone(&self) -> (r: Suggestion)
        ensures
            r == *self,
    {
        match self {
            Suggestion::Deletion { range } => Suggestion::Deletion { range: range.clone() },
            Suggestion::Insertion { location, value } => Suggestion::Insertion {
                location: location.clone(),
                value: value.clone(),
            },
            Suggestion::Replacement { range, replacement } => Suggestion::Replacement {
                range: range.clone(),
                replacement: replacement.clone(),
            },
        }
    }
}

/// The span a suggestion points at: its own range, or for an insertion a
/// one-character span at the insertion point.
pub open spec fn spec_suggestion_span(s: Suggestion) -> (int, int) {
    match s {
        Suggestion::Deletion { range } => (range.span.start as int, range.span.end as int),
        Suggestion::Replacement { range, .. } => (range.span.start as int, range.span.end as int),
        Suggestion::Insertion { location, .. } => (
            location.offset as int,
            if location.offset < usize::MAX {
                location.offset + 1
            } else {
                usize::MAX as int
            },
        ),
    }
}

impl Suggestion {
    /// Creates a suggestion that deletes the given span.
    pub fn delete(range: SourceRange) -> (r: Suggestion)
        ensures
            r == (Suggestion::Deletion { range }),
    {
        Suggestion::Deletion { range }
    }

    /// Creates a suggestion that inserts a string at the given location.
    pub fn insert(location: SourceLocation, value: &str) -> (r: Suggestion)
        ensures
            r matches Suggestion::Insertion { location: l, value: v } && l == location && v@
                == value@,
    {
        Suggestion::Insertion { location, value: value.to_owned() }
    }

    /// Creates a suggestion that replaces the given span with a string.
    pub fn replace(range: SourceRange, replacement: &str) -> (r: Suggestion)
        ensures
            r matches Suggestion::Replacement { range: g, replacement: p } && g == range && p@
                == replacement@,
    {
        Suggestion::Replacement { range, replacement: replacement.to_owned() }
    }

    /// Gets the source file of the suggestion.
    pub fn source(&self) -> (r: Source)
        ensures
            r == spec_suggestion_source(*self),
    {
        match self {
            Suggestion::Deletion { range } => range.source.clone(),
            Suggestion::Insertion { location, .. } => location.source.clone(),
            Suggestion::Replacement { range, .. } => range.source.clone(),
        }
    }

    /// Gets the span which the suggestion refers to. An insertion yields a
    /// span of one character at its location.
    pub fn span(&self) -> (r: SpanRange)
        ensures
            (r.start as int, r.end as int) == spec_suggestion_span(*self),
    {
        match self {
            Suggestion::Deletion { range } => range.span,
            Suggestion::Replacement { range, .. } => range.span,
            Suggestion::Insertion { location, .. } => {
                let end: usize = if location.offset < usize::MAX {
                    location.offset + 1
                } else {
                    usize::MAX
                };
                SpanRange { start: location.offset, end }
            },
        }
    }
}

/// The source a suggestion targets.
pub open spec fn spec_suggestion_source(s: Suggestion) -> Source {
    match s {
        Suggestion::Deletion { range } => range.source,
        Suggestion::Insertion { location, .. } => location.source,
        Suggestion::Replacement { range, .. } => range.source,
    }
}

/// A help message, with zero or more suggested fixes attached.
#[derive(Debug)]
pub struct Help {
    /// The message to print in the footer.
    pub message: String,
    /// The suggestions to apply to the original source code.
    pub suggestions: Vec<Suggestion>,
}

impl Clone for Help {
    fn clone(&self) -> (r: Help)
        ensures
            r.message == self.message,
            r.suggestions@ == self.suggestions@,
    {
        let mut suggestions: Vec<Suggestion> = Vec::new();
        let mut i: usize = 0;
        while i < self.suggestions.len()
            invariant
                i <= self.suggestions@.len(),
                suggestions@ == self.suggestions@.take(i as int),
            decreases self.suggestions@.len() - i,
        {
            suggestions.push(self.suggestions[i].clone());
            proof {
                assert(suggestions@ =~= self.suggestions@.take(i + 1));
            }
            i = i + 1;
        }
        proof {
            assert(self.suggestions@.take(self.suggestions@.len() as int) =~= self.suggestions@);
        }
        Help { message: self.message.clone(), suggestions }
    }
}

impl Help {
    /// Creates a new help message with no suggestions.
    pub fn new(message: &str) -> (r: Help)
        ensures
            r.message@ == message@,
            r.suggestions@ == Seq::<Suggestion>::empty(),
    {
        Help { message: message.to_owned(), suggestions: Vec::new() }
    }

    /// Adds one suggestion to the help message.
    pub fn with_suggestion(self, suggestion: Suggestion) -> (r: Help)
        ensures
            r.message == self.message,
            r.suggestions@ == self.suggestions@.push(suggestion),
    {
        let mut s = self;
        s.suggestions.push(suggestion);
        s
    }

    /// Adds a list of suggestions to the help message.
    pub fn with_suggestions(self, suggestions: Vec<Suggestion>) -> (r: Help)
        ensures
            r.message == self.message,
            r.suggestions@ == self.suggestions@ + suggestions@,
    {
        let mut s = self;
        let mut rest = suggestions;
        let ghost added = rest@;
        let mut i: usize = 0;
        while i < rest.len()
            invariant
                i <= rest@.len(),
                rest@ == added,
                s.suggestions@ == self.suggestions@ + added.take(i as int),
                s.message == self.message,
            decreases rest@.len() - i,
        {
            let item = rest[i].clone();
            s.suggestions.push(item);
            proof {
                assert(self.suggestions@ + added.take(i as int) + seq![added[i as int]]
                    =~= self.suggestions@ + added.take(i + 1));
            }
            i = i + 1;
        }
        proof {
            assert(added.take(added.len() as int) =~= added);
        }
        s
    }
}

/// A single diagnostic message: a message, its severity, an optional code,
/// labelled source spans, help entries, and nested cause and related
/// diagnostics.
#[derive(Debug)]
pub struct SimpleDiagnostic {
    /// The message displayed along with the diagnostic.
    pub message: String,
    /// A code for the diagnostic, which can be used to look it up.
    pub code: Option<String>,
    /// The severity of the diagnostic.
    pub severity: Severity,
    /// The help messages attached to the diagnostic.
    pub help: Vec<Help>,
    /// The labels pointing into source code, if any.
    pub labels: Option<Vec<Label>>,
    /// The diagnostics that caused this one.
    pub causes: Vec<SimpleDiagnostic>,
    /// Diagnostics related to this one.
    pub related: Vec<SimpleDiagnostic>,
    /// The source used for labels that carry none of their own.
    pub source: Option<Source>,
}

impl SimpleDiagnostic {
    /// Creates a new diagnostic with the given message, a severity of
    /// `Error`, and nothing else.
    pub fn new(message: &str) -> (r: SimpleDiagnostic)
        ensures
            r.message@ == message@,
            r.code is None,
            r.severity == Severity::Error,
            r.help@ == Seq::<Help>::empty(),
            r.labels is None,
            r.causes@ == Seq::<SimpleDiagnostic>::empty(),
            r.related@ == Seq::<SimpleDiagnostic>::empty(),
            r.source is None,
    {
        SimpleDiagnostic {
            message: message.to_owned(),
            code: None,
            severity: Severity::Error,
            help: Vec::new(),
            labels: None,
            causes: Vec::new(),
            related: Vec::new(),
            source: None,
        }
    }

    /// Sets the severity of the diagnostic.
    pub fn with_severity(self, severity: Severity) -> (r: SimpleDiagnostic)
        ensures
            r == (SimpleDiagnostic { severity, ..self }),
    {
        SimpleDiagnostic { severity, ..self }
    }

    /// Sets the code of the diagnostic.
    pub fn with_code(self, code: &str) -> (r: SimpleDiagnostic)
        ensures
            r.code matches Some(c) && c@ == code@,
            r.message == self.message,
            r.severity == self.severity,
            r.help == self.help,
            r.labels == self.labels,
            r.causes == self.causes,
            r.related == self.related,
            r.source == self.source,
    {
        SimpleDiagnostic { code: Some(code.to_owned()), ..self }
    }

    /// Adds a help message to the diagnostic.
    pub fn with_help(self, help: Help) -> (r: SimpleDiagnostic)
        ensures
            r.help@ == self.help@.push(help),
            r.message == self.message,
            r.code == self.code,
            r.severity == self.severity,
            r.labels == self.labels,
            r.causes == self.causes,
            r.related == self.related,
            r.source == self.source,
    {
        let mut s = self;
        s.help.push(help);
        s
    }

    /// Replaces the help messages of the diagnostic with the given one.
    pub fn set_help(self, help: Help) -> (r: SimpleDiagnostic)
        ensures
            r.help@ == seq![help],
            r.message == self.message,
            r.code == self.code,
            r.severity == self.severity,
            r.labels == self.labels,
            r.causes == self.causes,
            r.related == self.related,
            r.source == self.source,
    {
        let mut s = self;
        let mut help_vec: Vec<Help> = Vec::new();
        help_vec.push(help);
        proof {
            assert(help_vec@ =~= seq![help]);
        }
        s.help = help_vec;
        s
    }

    /// Adds a label to the diagnostic.
    pub fn with_label(self, label: Label) -> (r: SimpleDiagnostic)
        ensures
            r.labels matches Some(ls) && ls@ == match self.labels {
                Some(prev) => prev@.push(label),
                None => seq![label],
            },
            r.message == self.message,
            r.code == self.code,
            r.severity == self.severity,
            r.help == self.help,
            r.causes == self.causes,
            r.related == self.related,
            r.source == self.source,
    {
        let mut s = self;
        let mut labels: Vec<Label> = match s.labels {
            Some(v) => v,
            None => Vec::new(),
        };
        labels.push(label);
        proof {
            if self.labels is None {
                assert(labels@ =~= seq![label]);
            }
        }
        s.labels = Some(labels);
        s
    }

    /// Appends a list of labels to the diagnostic, keeping any existing
    /// ones.
    pub fn with_labels(self, labels: Vec<Label>) -> (r: SimpleDiagnostic)
        ensures
            r.labels matches Some(ls) && ls@ == match self.labels {
                Some(prev) => prev@ + labels@,
                None => labels@,
            },
            r.message == self.message,
            r.code == self.code,
            r.severity == self.severity,
            r.help == self.help,
            r.causes == self.causes,
            r.related == self.related,
            r.source == self.source,
    {
        let mut s = self;
        let mut all: Vec<Label> = match s.labels {
            Some(v) => v,
            None => Vec::new(),
        };
        let ghost prev = all@;
        let mut rest = labels;
        let ghost added = rest@;
        let mut i: usize = 0;
        while i < rest.len()
            invariant
                i <= rest@.len(),
                rest@ == added,
                all@ == prev + added.take(i as int),
            decreases rest@.len() - i,
        {
            let item = rest[i].clone();
            all.push(item);
            proof {
                assert(prev + added.take(i as int) + seq![added[i as int]] =~= prev + added.take(
                    i + 1,
                ));
            }
            i = i + 1;
        }
        proof {
            assert(added.take(added.len() as int) =~= added);
            if self.labels is None {
                assert(Seq::<Label>::empty() + added =~= added);
            }
        }
        s.labels = Some(all);
        s
    }

    /// Adds a related diagnostic.
    pub fn add_related(self, related: SimpleDiagnostic) -> (r: SimpleDiagnostic)
        ensures
            r.related@ == self.related@.push(related),
            r.message == self.message,
            r.code == self.code,
            r.severity == self.severity,
            r.help == self.help,
            r.labels == self.labels,
            r.causes == self.causes,
            r.source == self.source,
    {
        let mut s = self;
        s.related.push(related);
        s
    }

    /// Appends a list of related diagnostics.
    pub fn append_related(self, related: Vec<SimpleDiagnostic>) -> (r: SimpleDiagnostic)
        ensures
            r.related@ == self.related@ + related@,
            r.message == self.message,
            r.code == self.code,
            r.severity == self.severity,
            r.help == self.help,
            r.labels == self.labels,
            r.causes == self.causes,
            r.source == self.source,
    {
        let mut s = self;
        let mut rest = related;
        let ghost added = rest@;
        let ghost prev = s.related@;
        while rest.len() > 0
            invariant
                s.related@ + rest@ == prev + added,
                s.message == self.message,
                s.code == self.code,
                s.severity == self.severity,
                s.help == self.help,
                s.labels == self.labels,
                s.causes == self.causes,
                s.source == self.source,
            decreases rest@.len(),
        {
            let item = rest.remove(0);
            s.related.push(item);
            proof {
                assert(s.related@ + rest@ =~= prev + added);
            }
        }
        proof {
            assert(s.related@ =~= s.related@ + rest@);
        }
        s
    }

    /// Adds a causing diagnostic.
    pub fn add_cause(self, cause: SimpleDiagnostic) -> (r: SimpleDiagnostic)
        ensures
            r.causes@ == self.causes@.push(cause),
            r.message == self.message,
            r.code == self.code,
            r.severity == self.severity,
            r.help == self.help,
            r.labels == self.labels,
            r.related == self.related,
            r.source == self.source,
    {
        let mut s = self;
        s.causes.push(cause);
        s
    }

    /// Appends a list of causing diagnostics.
    pub fn add_causes(self, causes: Vec<SimpleDiagnostic>) -> (r: SimpleDiagnostic)
        ensures
            r.causes@ == self.causes@ + causes@,
            r.message == self.message,
            r.code == self.code,
            r.severity == self.severity,
            r.help == self.help,
            r.labels == self.labels,
            r.related == self.related,
            r.source == self.source,
    {
        let mut s = self;
        let mut rest = causes;
        let ghost added = rest@;
        let ghost prev = s.causes@;
        while rest.len() > 0
            invariant
                s.causes@ + rest@ == prev + added,
                s.message == self.message,
                s.code == self.code,
                s.severity == self.severity,
                s.help == self.help,
                s.labels == self.labels,
                s.related == self.related,
                s.source == self.source,
            decreases rest@.len(),
        {
            let item = rest.remove(0);
            s.causes.push(item);
            proof {
                assert(s.causes@ + rest@ =~= prev + added);
            }
        }
        proof {
            assert(s.causes@ =~= s.causes@ + rest@);
        }
        s
    }

    /// Attaches a source to the diagnostic, used by labels that carry no
    /// source of their own.
    pub fn with_source(self, source: Source) -> (r: SimpleDiagnostic)
        ensures
            r.source matches Some(src) && src == source,
            r.message == self.message,
            r.code == self.code,
            r.severity == self.severity,
            r.help == self.help,
            r.labels == self.labels,
            r.causes == self.causes,
            r.related == self.related,
    {
        SimpleDiagnostic { source: Some(source), ..self }
    }
}

} // verus!
