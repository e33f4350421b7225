//! Renders structured diagnostic reports as annotated, human-readable text:
//! a message header, highlighted excerpts of source code with labelled spans,
//! nested sub-diagnostics, and a footer of help text with fix-it suggestions.

mod diagnostic;
mod group;
mod handler;
mod outside;
mod render;
mod span;
mod styled;
mod text;
mod theme;

pub use crate::diagnostic::Help;
pub use crate::diagnostic::Label;
pub use crate::diagnostic::LabelSpan;
pub use crate::diagnostic::Severity;
pub use crate::diagnostic::SimpleDiagnostic;
pub use crate::diagnostic::Source;
pub use crate::diagnostic::SourceLocation;
pub use crate::diagnostic::SourceRange;
pub use crate::diagnostic::Suggestion;
pub use crate::group::{LabelContext, LabelGroup};
pub use crate::handler::{BufferedDiagnosticHandler, DrainError, Handler, Renderer};
pub use crate::handler::{count_errors, drain_outcome};
pub use crate::render::{GraphicalRenderer, RenderError};
pub use crate::render::{build_label_groups, sort_suggestions};
pub use crate::group::{group_overlapping_labels, sort_labels};
pub use crate::span::Coord;
pub use crate::span::Span;
pub use crate::span::SpanRange;
pub use crate::span::{coords_of_idx, coords_of_span, extract_with_context, extract_with_context_offset};
pub use crate::theme::ArrowSymbols;
pub use crate::theme::ColorSpec;
pub use crate::theme::TextStyle;
pub use crate::theme::Theme;
pub use crate::theme::ThemeStyle;
pub use crate::theme::ThemeSymbols;
