//! The graphical renderer: turns a diagnostic into annotated text with
//! gutters, underlines, connectors and suggestion markers.

use vstd::prelude::*;

use crate::diagnostic::{severity_word, Label, Severity, SimpleDiagnostic, Suggestion};
use crate::diagnostic::Source;
use crate::span::{effective_index, extract_spec, line_col_at, lines_of, Coord, Span, SpanRange};
use crate::text::{centered, dec_chars, dec_str, push_centered, push_chars, push_repeat, push_str_chars, repeat_char};
use crate::theme::{color_code, spec_style_of, spec_symbol_of, TextStyle, Theme};
use crate::outside::painted_of;
use crate::styled::styled_render_spec;

verus! {

/// Saturating addition: the exact sum, clamped to the machine word.
pub open spec fn sat_add_spec(a: int, b: int) -> int {
    if a + b > usize::MAX {
        usize::MAX as int
    } else {
        a + b
    }
}

/// Adds two sizes, clamping at the machine limit instead of overflowing.
pub fn sat_add(a: usize, b: usize) -> (r: usize)
    ensures
        r as int == sat_add_spec(a as int, b as int),
{
    if a <= usize::MAX - b {
        a + b
    } else {
        usize::MAX
    }
}

/// Saturating multiplication: the exact product, clamped to the machine
/// word.
pub open spec fn sat_mul_spec(a: int, b: int) -> int {
    if a * b > usize::MAX {
        usize::MAX as int
    } else {
        a * b
    }
}

/// Multiplies two sizes, clamping at the machine limit instead of
/// overflowing.
pub fn sat_mul(a: usize, b: usize) -> (r: usize)
    ensures
        r as int == sat_mul_spec(a as int, b as int),
{
    match a.checked_mul(b) {
        Some(v) => v,
        None => usize::MAX,
    }
}

/// Renders diagnostics in a graphical way, with colors, Unicode symbols
/// and highlighting.
#[derive(Debug, Clone, Copy, PartialEq, Eq, Structural)]
pub struct GraphicalRenderer {
    /// The theme: which colors and symbols to use.
    pub theme: Theme,
    /// The terminal column budget. Advisory only: no wrapping is done.
    pub width: usize,
    /// The spaces per level of indentation.
    pub padding: usize,
    /// The extra padding in the line-number gutter of snippets.
    pub gutter_margin: usize,
    /// The lines surrounding a label shown as context.
    pub context_lines: usize,
    /// Whether to color the output.
    pub use_colors: bool,
    /// Whether to highlight the labelled source text itself. Only used
    /// when `use_colors` is on.
    pub highlight_source: bool,
}

/// The default terminal width assumed when none is configured.
pub open spec fn spec_default_width() -> int {
    80
}

impl GraphicalRenderer {
    /// Creates a renderer with the default settings: the fancy theme, an
    /// 80-column width, six spaces of indentation, a gutter margin of two,
    /// one context line, and colors on.
    pub fn new() -> (r: GraphicalRenderer)
        ensures
            r.theme.style == crate::theme::spec_rgb_theme(),
            r.theme.symbols == crate::theme::spec_unicode_symbols(),
            r.theme.arrows == crate::theme::spec_unicode_arrows(),
            r.width == spec_default_width(),
            r.padding == 6,
            r.gutter_margin == 2,
            r.context_lines == 1,
            r.use_colors == true,
            r.highlight_source == false,
    {
        GraphicalRenderer {
            theme: Theme::fancy(),
            width: 80,
            padding: 6,
            gutter_margin: 2,
            context_lines: 1,
            use_colors: true,
            highlight_source: false,
        }
    }
}

/// A piece of text as it appears in the output: painted in the given style
/// when colors are on, bare when they are off.
pub open spec fn styled_spec(cfg: GraphicalRenderer, s: Seq<char>, st: TextStyle) -> Seq<char> {
    if cfg.use_colors {
        painted_of(s, color_code(st.color), st.bold)
    } else {
        s
    }
}

/// The indentation written at the start of each line: the nesting level
/// times the configured padding, in spaces.
pub open spec fn indent_spaces(cfg: GraphicalRenderer, indent: int) -> Seq<char> {
    repeat_char(' ', sat_mul_spec(indent, cfg.padding as int))
}

/// The width of the line-number gutter for a source: the number of digits
/// of its line count, plus the configured margin.
pub open spec fn gutter_size_spec(cfg: GraphicalRenderer, content: Seq<char>) -> int {
    sat_add_spec(dec_str(lines_of(content).len() as int).len() as int, cfg.gutter_margin as int)
}

/// The gutter written before a snippet row: the indentation, the gutter
/// text centered within the gutter width, a bar glyph, and a space.
pub open spec fn snippet_gutter_spec(
    cfg: GraphicalRenderer,
    padding: int,
    gutter: Seq<char>,
    bar: char,
    indent: int,
) -> Seq<char> {
    indent_spaces(cfg, indent) + centered(gutter, padding) + seq![bar] + seq![' ']
}

/// The gutter of a numbered source line.
pub open spec fn line_gutter_spec(
    cfg: GraphicalRenderer,
    padding: int,
    line_num: int,
    indent: int,
) -> Seq<char> {
    indent_spaces(cfg, indent) + styled_spec(
        cfg,
        centered(dec_str(line_num), padding),
        cfg.theme.style.gutter,
    ) + seq![cfg.theme.arrows.vertical] + seq![' ']
}

impl GraphicalRenderer {
    /// Appends the given text, painted in the given style when colors are
    /// on.
    pub fn push_styled(&self, out: &mut Vec<char>, s: &Vec<char>, st: TextStyle)
        ensures
            final (out)@ == old(out)@ + styled_spec(*self, s@, st),
    {
        if self.use_colors {
            let single = crate::outside::string_from_chars(s);
            let painted = crate::outside::paint(single.as_str(), st);
            push_str_chars(out, painted.as_str());
        } else {
            push_chars(out, s);
        }
    }

    /// Appends the current indentation.
    pub fn push_indent(&self, out: &mut Vec<char>, indent: usize)
        ensures
            final (out)@ == old(out)@ + indent_spaces(*self, indent as int),
    {
        let n = sat_mul(indent, self.padding);
        push_repeat(out, ' ', n);
    }

    /// Computes the width of the line-number gutter for a source.
    pub fn gutter_size_of(&self, content: &str) -> (r: usize)
        ensures
            r as int == gutter_size_spec(*self, content@),
    {
        let count = crate::span::count_lines(content);
        let digits = dec_chars(count);
        sat_add(digits.len(), self.gutter_margin)
    }

    /// Appends a snippet gutter row: indentation, the gutter text centered
    /// in the gutter width, a bar glyph and a space.
    pub fn push_snippet_gutter(
        &self,
        out: &mut Vec<char>,
        padding: usize,
        gutter: &Vec<char>,
        bar: char,
        indent: usize,
    )
        ensures
            final (out)@ == old(out)@ + snippet_gutter_spec(
                *self,
                padding as int,
                gutter@,
                bar,
                indent as int,
            ),
    {
        self.push_indent(out, indent);
        push_centered(out, gutter, padding);
        out.push(bar);
        out.push(' ');
        proof {
            assert(final (out)@ =~= old(out)@ + snippet_gutter_spec(
                *self,
                padding as int,
                gutter@,
                bar,
                indent as int,
            ));
        }
    }

    /// Appends the gutter of a numbered source line.
    pub fn push_line_gutter(&self, out: &mut Vec<char>, padding: usize, line_num: usize, indent: usize)
        ensures
            final (out)@ == old(out)@ + line_gutter_spec(
                *self,
                padding as int,
                line_num as int,
                indent as int,
            ),
    {
        let digits = dec_chars(line_num);
        let mut gutter: Vec<char> = Vec::new();
        push_centered(&mut gutter, &digits, padding);
        let mut styled: Vec<char> = Vec::new();
        self.push_styled(&mut styled, &gutter, self.theme.style.gutter);
        self.push_indent(out, indent);
        push_chars(out, &styled);
        out.push(self.theme.arrows.vertical);
        out.push(' ');
        proof {
            assert(gutter@ =~= Seq::<char>::empty() + centered(
                dec_str(line_num as int),
                padding as int,
            ));
            assert(styled@ =~= styled_spec(
                *self,
                centered(dec_str(line_num as int), padding as int),
                self.theme.style.gutter,
            ));
            assert(final (out)@ =~= old(out)@ + line_gutter_spec(
                *self,
                padding as int,
                line_num as int,
                indent as int,
            ));
        }
    }

    /// Appends an empty snippet gutter row.
    pub fn push_empty_gutter(&self, out: &mut Vec<char>, padding: usize, indent: usize)
        ensures
            final (out)@ == old(out)@ + snippet_gutter_spec(
                *self,
                padding as int,
                Seq::<char>::empty(),
                self.theme.arrows.vertical,
                indent as int,
            ),
    {
        let empty: Vec<char> = Vec::new();
        self.push_snippet_gutter(out, padding, &empty, self.theme.arrows.vertical, indent);
    }

    /// Appends a vertical-break gutter row.
    pub fn push_break_gutter(&self, out: &mut Vec<char>, padding: usize, indent: usize)
        ensures
            final (out)@ == old(out)@ + snippet_gutter_spec(
                *self,
                padding as int,
                Seq::<char>::empty(),
                self.theme.arrows.vertical_break,
                indent as int,
            ),
    {
        let empty: Vec<char> = Vec::new();
        self.push_snippet_gutter(out, padding, &empty, self.theme.arrows.vertical_break, indent);
    }

    /// Appends a vertical-break gutter row ended by a newline.
    pub fn push_breakln(&self, out: &mut Vec<char>, padding: usize, indent: usize)
        ensures
            final (out)@ == old(out)@ + snippet_gutter_spec(
                *self,
                padding as int,
                Seq::<char>::empty(),
                self.theme.arrows.vertical_break,
                indent as int,
            ) + seq!['\n'],
    {
        self.push_break_gutter(out, padding, indent);
        out.push('\n');
    }

    /// Appends the footer of a source snippet.
    pub fn push_snippet_footer(&self, out: &mut Vec<char>, padding: usize, indent: usize)
        ensures
            final (out)@ == old(out)@ + snippet_footer_spec(*self, padding as int, indent as int),
    {
        self.push_indent(out, indent);
        push_repeat(out, ' ', padding);
        out.push(self.theme.arrows.bottom_left);
        out.push(self.theme.arrows.hbar);
        out.push(self.theme.arrows.hbar);
        out.push('\n');
        proof {
            assert(final (out)@ =~= old(out)@ + snippet_footer_spec(
                *self,
                padding as int,
                indent as int,
            ));
        }
    }
}

/// The footer of a source snippet: a bottom-left corner and two bars.
pub open spec fn snippet_footer_spec(cfg: GraphicalRenderer, padding: int, indent: int) -> Seq<
    char,
> {
    indent_spaces(cfg, indent) + repeat_char(' ', padding) + seq![
        cfg.theme.arrows.bottom_left,
        cfg.theme.arrows.hbar,
        cfg.theme.arrows.hbar,
        '\n',
    ]
}

/// The header of a diagnostic: the severity symbol and word, the optional
/// bracketed code, and the message.
pub open spec fn header_spec(cfg: GraphicalRenderer, d: SimpleDiagnostic, indent: int) -> Seq<
    char,
> {
    let st = spec_style_of(cfg.theme.style, d.severity);
    let sym = spec_symbol_of(cfg.theme.symbols, d.severity);
    let base = indent_spaces(cfg, indent) + styled_spec(cfg, seq![sym], st) + seq![' ']
        + styled_spec(cfg, severity_word(d.severity), st);
    let with_code = match d.code {
        Some(code) => base + styled_spec(cfg, seq!['['] + code@ + seq![']'], st),
        None => base,
    };
    with_code + seq![':', ' '] + d.message@ + seq!['\n']
}

impl GraphicalRenderer {
    /// Appends the header of a diagnostic: its severity symbol and word,
    /// its code when it has one, and its message.
    pub fn push_header(&self, out: &mut Vec<char>, d: &SimpleDiagnostic, indent: usize)
        ensures
            final (out)@ == old(out)@ + header_spec(*self, *d, indent as int),
    {
        let st = self.theme.style.from_severity(d.severity);
        let sym = self.theme.symbols.from_severity(d.severity);
        self.push_indent(out, indent);
        let mut symv: Vec<char> = Vec::new();
        symv.push(sym);
        self.push_styled(out, &symv, st);
        out.push(' ');
        let mut wordv: Vec<char> = Vec::new();
        push_str_chars(&mut wordv, d.severity.word());
        self.push_styled(out, &wordv, st);
        match &d.code {
            Some(code) => {
                let mut codev: Vec<char> = Vec::new();
                codev.push('[');
                push_str_chars(&mut codev, code.as_str());
                codev.push(']');
                proof {
                    assert(codev@ =~= seq!['['] + code@ + seq![']']);
                }
                self.push_styled(out, &codev, st);
            },
            None => {
            },
        }
        out.push(':');
        out.push(' ');
        push_str_chars(out, d.message.as_str());
        out.push('\n');
        proof {
            assert(symv@ =~= seq![spec_symbol_of(self.theme.symbols, d.severity)]);
            assert(wordv@ =~= severity_word(d.severity));
            assert(final (out)@ =~= old(out)@ + header_spec(*self, *d, indent as int));
        }
    }
}


/// The severity a label is drawn with: its own, or the diagnostic's.
pub open spec fn label_sev(l: Label, sev: Severity) -> Severity {
    match l.severity {
        Some(s) => s,
        None => sev,
    }
}

/// The text with one character overwritten; positions outside the text
/// leave it unchanged.
pub open spec fn set_at(text: Seq<char>, pos: int, c: char) -> Seq<char> {
    if 0 <= pos < text.len() {
        text.update(pos, c)
    } else {
        text
    }
}

/// The styles with one span restyled.
pub open spec fn restyle(styles: Seq<TextStyle>, start: int, end: int, st: TextStyle) -> Seq<
    TextStyle,
> {
    Seq::new(
        styles.len(),
        |i: int|
            if start <= i < end {
                st
            } else {
                styles[i]
            },
    )
}

/// The greatest end column among the spans of the given labels.
pub open spec fn max_end_col(labels: Seq<(Label, Span)>) -> int
    decreases labels.len(),
{
    if labels.len() == 0 {
        0
    } else {
        let rest = max_end_col(labels.drop_last());
        if labels.last().1.end.column > rest {
            labels.last().1.end.column as int
        } else {
            rest
        }
    }
}

/// The underline text after drawing one label's columns: a caret per
/// column when the label stands alone on the line, else bars with a tee at
/// the rightmost column.
pub open spec fn underline_cols(
    text: Seq<char>,
    cols: (int, int),
    single: bool,
    arr: crate::theme::ArrowSymbols,
) -> Seq<char> {
    Seq::new(
        text.len(),
        |i: int|
            if cols.0 <= i < cols.1 {
                if single {
                    arr.arrow_up
                } else if i == cols.1 - 1 {
                    arr.hbot
                } else {
                    arr.hbar
                }
            } else {
                text[i]
            },
    )
}

/// One label's effect on the underline row.
pub open spec fn underline_step(
    state: (Seq<char>, Seq<TextStyle>),
    item: (Label, Span),
    single: bool,
    sev: Severity,
    cfg: GraphicalRenderer,
) -> (Seq<char>, Seq<TextStyle>) {
    let st = spec_style_of(cfg.theme.style, label_sev(item.0, sev));
    let cols = crate::span::spec_columns(item.1);
    let text1 = underline_cols(state.0, cols, single, cfg.theme.arrows);
    let styles1 = restyle(state.1, cols.0, cols.1, st);
    if single {
        (
            text1 + seq![' '] + item.0.message@,
            styles1 + Seq::new(item.0.message@.len() + 1, |i: int| st),
        )
    } else {
        (text1, styles1)
    }
}

/// The underline row state after drawing the first `k` labels.
pub open spec fn underline_after(
    labels: Seq<(Label, Span)>,
    k: int,
    single: bool,
    sev: Severity,
    cfg: GraphicalRenderer,
    init: (Seq<char>, Seq<TextStyle>),
) -> (Seq<char>, Seq<TextStyle>)
    decreases k,
{
    if k <= 0 {
        init
    } else {
        underline_step(
            underline_after(labels, k - 1, single, sev, cfg, init),
            labels[k - 1],
            single,
            sev,
            cfg,
        )
    }
}

/// The elbow row a label starts with: spaces up to one past its end
/// column, a bottom-left corner under its tee, two bars, and the label's
/// message.
pub open spec fn elbow_row_spec(cfg: GraphicalRenderer, item: (Label, Span), sev: Severity) -> (
    Seq<char>,
    Seq<TextStyle>,
) {
    let st = spec_style_of(cfg.theme.style, label_sev(item.0, sev));
    let endc = item.1.end.column as int;
    let lc = if endc > 0 {
        endc - 1
    } else {
        0
    };
    let base_len = sat_add_spec(endc, 1);
    let t0 = repeat_char(' ', base_len);
    let s0 = Seq::new(t0.len(), |i: int| crate::styled::spec_plain_style());
    let t1 = set_at(t0, lc, cfg.theme.arrows.bottom_left);
    let t2 = set_at(t1, endc, cfg.theme.arrows.hbar);
    let t3 = set_at(t2, sat_add_spec(endc, 1), cfg.theme.arrows.hbar);
    let s1 = restyle(s0, lc, sat_add_spec(endc, 1), st);
    (
        t3 + seq![' '] + item.0.message@,
        s1 + Seq::new(1, |i: int| st) + Seq::new(item.0.message@.len(), |i: int| st),
    )
}

/// A later label's mark on an earlier elbow row: a vertical bar just left
/// of the later label's end column.
pub open spec fn vert_mark_spec(
    cfg: GraphicalRenderer,
    row: (Seq<char>, Seq<TextStyle>),
    item: (Label, Span),
    sev: Severity,
) -> (Seq<char>, Seq<TextStyle>) {
    let st = spec_style_of(cfg.theme.style, label_sev(item.0, sev));
    let endc = item.1.end.column as int;
    let lc = if endc > 0 {
        endc - 1
    } else {
        0
    };
    (set_at(row.0, lc, cfg.theme.arrows.vertical), restyle(row.1, lc, endc, st))
}

/// The elbow row of label `li` after the marks of the labels drawn before
/// index `k`.
pub open spec fn row_upto(
    labels: Seq<(Label, Span)>,
    li: int,
    k: int,
    sev: Severity,
    cfg: GraphicalRenderer,
) -> (Seq<char>, Seq<TextStyle>)
    decreases k - li,
{
    if k <= li + 1 {
        elbow_row_spec(cfg, labels[li], sev)
    } else {
        vert_mark_spec(cfg, row_upto(labels, li, k - 1, sev, cfg), labels[k - 1], sev)
    }
}

/// The prefix written before an underline or elbow row: a break gutter,
/// and under a multi-line parent a styled vertical bar and three spaces.
pub open spec fn row_head_spec(
    cfg: GraphicalRenderer,
    sev: Severity,
    gutter: int,
    is_multiline: bool,
    indent: int,
) -> Seq<char> {
    snippet_gutter_spec(cfg, gutter, Seq::<char>::empty(), cfg.theme.arrows.vertical_break, indent)
        + if is_multiline {
        styled_spec(cfg, seq![cfg.theme.arrows.vertical], spec_style_of(cfg.theme.style, sev))
            + repeat_char(' ', 3)
    } else {
        Seq::<char>::empty()
    }
}

/// The elbow rows of all labels from index `li` onward, one row each.
pub open spec fn elbow_rows_spec(
    cfg: GraphicalRenderer,
    labels: Seq<(Label, Span)>,
    li: int,
    sev: Severity,
    gutter: int,
    is_multiline: bool,
    indent: int,
) -> Seq<char>
    decreases labels.len() - li,
{
    if li < 0 || li >= labels.len() {
        Seq::empty()
    } else {
        let row = row_upto(labels, li, labels.len() as int, sev, cfg);
        row_head_spec(cfg, sev, gutter, is_multiline, indent) + styled_render_spec(
            row.0,
            row.1,
            cfg.use_colors,
        ) + seq!['\n'] + elbow_rows_spec(cfg, labels, li + 1, sev, gutter, is_multiline, indent)
    }
}

/// The rows drawn under one source line: the underline row, and, when the
/// line holds more than one label, one elbow row per label leading to its
/// message.
pub open spec fn line_labels_spec(
    cfg: GraphicalRenderer,
    sev: Severity,
    labels: Seq<(Label, Span)>,
    gutter: int,
    is_multiline: bool,
    indent: int,
) -> Seq<char> {
    if labels.len() == 0 {
        Seq::empty()
    } else {
        let single = labels.len() == 1;
        let ulen = max_end_col(labels);
        let init = (
            repeat_char(' ', ulen),
            Seq::new(repeat_char(' ', ulen).len(), |i: int| crate::styled::spec_plain_style()),
        );
        let ustate = underline_after(labels, labels.len() as int, single, sev, cfg, init);
        let urow = row_head_spec(cfg, sev, gutter, is_multiline, indent) + styled_render_spec(
            ustate.0,
            ustate.1,
            cfg.use_colors,
        ) + seq!['\n'];
        if single {
            urow
        } else {
            urow + elbow_rows_spec(cfg, labels, 0, sev, gutter, is_multiline, indent)
        }
    }
}

impl GraphicalRenderer {
    /// Appends the prefix of an underline or elbow row.
    pub fn push_row_head(
        &self,
        out: &mut Vec<char>,
        sev: Severity,
        gutter: usize,
        is_multiline: bool,
        indent: usize,
    )
        ensures
            final (out)@ == old(out)@ + row_head_spec(
                *self,
                sev,
                gutter as int,
                is_multiline,
                indent as int,
            ),
    {
        self.push_break_gutter(out, gutter, indent);
        if is_multiline {
            let mut vbar: Vec<char> = Vec::new();
            vbar.push(self.theme.arrows.vertical);
            let st = self.theme.style.from_severity(sev);
            self.push_styled(out, &vbar, st);
            push_repeat(out, ' ', 3);
            proof {
                assert(vbar@ =~= seq![self.theme.arrows.vertical]);
                assert(final (out)@ =~= old(out)@ + row_head_spec(
                    *self,
                    sev,
                    gutter as int,
                    is_multiline,
                    indent as int,
                ));
            }
        } else {
            proof {
                assert(final (out)@ =~= old(out)@ + row_head_spec(
                    *self,
                    sev,
                    gutter as int,
                    is_multiline,
                    indent as int,
                ));
            }
        }
    }

    /// Builds the underline row for the labels of one source line.
    #[verifier::loop_isolation(false)]
    #[verifier::rlimit(60)]
    fn build_underline(
        &self,
        labels: &Vec<(Label, Span)>,
        single: bool,
        severity: Severity,
        ulen: usize,
    ) -> (r: crate::styled::StyledText)
        ensures
            r.wf(),
            (r.text@, r.styles@) == underline_after(
                labels@,
                labels@.len() as int,
                single,
                severity,
                *self,
                (
                    repeat_char(' ', ulen as int),
                    Seq::new(repeat_char(' ', ulen as int).len(), |i: int| crate::styled::spec_plain_style()),
                ),
            ),
    {
        let n = labels.len();
        let mut base: Vec<char> = Vec::new();
        push_repeat(&mut base, ' ', ulen);
        let mut ustr = crate::styled::StyledText::new(base);
        let ghost init = (ustr.text@, ustr.styles@);
        proof {
            assert(init.0 =~= repeat_char(' ', ulen as int));
        }
        let mut k: usize = 0;
        while k < n
            invariant
                k <= n,
                ustr.wf(),
                (ustr.text@, ustr.styles@) == underline_after(
                    labels@,
                    k as int,
                    single,
                    severity,
                    *self,
                    init,
                ),
            decreases n - k,
        {
            let lab_sev: Severity = match labels[k].0.severity {
                Some(s) => s,
                None => severity,
            };
            let st = self.theme.style.from_severity(lab_sev);
            let cols = labels[k].1.columns();
            let ghost t_before = ustr.text@;
            proof {
                assert(cols.start <= cols.end);
            }
            let mut off: usize = cols.start;
            while off < cols.end
                invariant
                    cols.start <= off <= cols.end,
                    ustr.wf(),
                    ustr.styles@ == underline_after(
                        labels@,
                        k as int,
                        single,
                        severity,
                        *self,
                        init,
                    ).1,
                    ustr.text@ == Seq::new(
                        t_before.len(),
                        |p: int|
                            if cols.start <= p < off {
                                if single {
                                    self.theme.arrows.arrow_up
                                } else if p == cols.end - 1 {
                                    self.theme.arrows.hbot
                                } else {
                                    self.theme.arrows.hbar
                                }
                            } else {
                                t_before[p]
                            },
                    ),
                decreases cols.end - off,
            {
                let c: char = if single {
                    self.theme.arrows.arrow_up
                } else if off == cols.end - 1 {
                    self.theme.arrows.hbot
                } else {
                    self.theme.arrows.hbar
                };
                crate::text::set_char_at(&mut ustr.text, off, c);
                proof {
                    assert(ustr.text@ =~= Seq::new(
                        t_before.len(),
                        |p: int|
                            if cols.start <= p < off + 1 {
                                if single {
                                    self.theme.arrows.arrow_up
                                } else if p == cols.end - 1 {
                                    self.theme.arrows.hbot
                                } else {
                                    self.theme.arrows.hbar
                                }
                            } else {
                                t_before[p]
                            },
                    ));
                }
                off = off + 1;
            }
            proof {
                assert(ustr.text@ =~= underline_cols(
                    t_before,
                    crate::span::spec_columns(labels@[k as int].1),
                    single,
                    self.theme.arrows,
                ));
            }
            ustr.style_span(cols, st);
            proof {
                assert(ustr.styles@ =~= restyle(
                    underline_after(labels@, k as int, single, severity, *self, init).1,
                    crate::span::spec_columns(labels@[k as int].1).0,
                    crate::span::spec_columns(labels@[k as int].1).1,
                    st,
                ));
            }
            if single {
                let mut tail: Vec<char> = Vec::new();
                tail.push(' ');
                push_str_chars(&mut tail, labels[k].0.message.as_str());
                ustr.append(&tail, st);
                proof {
                    assert(tail@ =~= seq![' '] + labels@[k as int].0.message@);
                    assert(ustr.text@ =~= underline_cols(
                        t_before,
                        crate::span::spec_columns(labels@[k as int].1),
                        single,
                        self.theme.arrows,
                    ) + seq![' '] + labels@[k as int].0.message@);
                    assert(ustr.styles@ =~= restyle(
                        underline_after(labels@, k as int, single, severity, *self, init).1,
                        crate::span::spec_columns(labels@[k as int].1).0,
                        crate::span::spec_columns(labels@[k as int].1).1,
                        st,
                    ) + Seq::new(labels@[k as int].0.message@.len() + 1, |i: int| st));
                }
            }
            proof {
                assert((ustr.text@, ustr.styles@) == underline_after(
                    labels@,
                    k + 1,
                    single,
                    severity,
                    *self,
                    init,
                ));
            }
            k = k + 1;
        }
        ustr
    }

    /// Builds the elbow row of label `li`: its corner and message, with the
    /// vertical marks of the labels drawn after it.
    #[verifier::loop_isolation(false)]
    #[verifier::rlimit(60)]
    fn build_elbow_row(
        &self,
        labels: &Vec<(Label, Span)>,
        li: usize,
        severity: Severity,
    ) -> (r: crate::styled::StyledText)
        requires
            li < labels@.len(),
        ensures
            r.wf(),
            (r.text@, r.styles@) == row_upto(
                labels@,
                li as int,
                labels@.len() as int,
                severity,
                *self,
            ),
    {
        let n = labels.len();
        let lab_sev: Severity = match labels[li].0.severity {
            Some(s) => s,
            None => severity,
        };
        let st = self.theme.style.from_severity(lab_sev);
        let endc = labels[li].1.end.column;
        let lc: usize = if endc > 0 {
            endc - 1
        } else {
            0
        };
        let base_len = sat_add(endc, 1);
        let mut sp: Vec<char> = Vec::new();
        push_repeat(&mut sp, ' ', base_len);
        let mut row = crate::styled::StyledText::new(sp);
        crate::text::set_char_at(&mut row.text, lc, self.theme.arrows.bottom_left);
        crate::text::set_char_at(&mut row.text, endc, self.theme.arrows.hbar);
        crate::text::set_char_at(&mut row.text, sat_add(endc, 1), self.theme.arrows.hbar);
        row.style_span(SpanRange { start: lc, end: sat_add(endc, 1) }, st);
        let mut space_piece: Vec<char> = Vec::new();
        space_piece.push(' ');
        row.append(&space_piece, st);
        let mut msg_piece: Vec<char> = Vec::new();
        push_str_chars(&mut msg_piece, labels[li].0.message.as_str());
        row.append(&msg_piece, st);
        proof {
            let espec = elbow_row_spec(*self, labels@[li as int], severity);
            assert(space_piece@ =~= seq![' ']);
            assert(msg_piece@ =~= labels@[li as int].0.message@);
            assert(row.text@ =~= espec.0);
            assert(row.styles@ =~= espec.1);
            assert((row.text@, row.styles@) == row_upto(
                labels@,
                li as int,
                li + 1,
                severity,
                *self,
            ));
        }

        let mut idx: usize = li + 1;
        while idx < n
            invariant
                li < idx <= n,
                row.wf(),
                (row.text@, row.styles@) == row_upto(
                    labels@,
                    li as int,
                    idx as int,
                    severity,
                    *self,
                ),
            decreases n - idx,
        {
            let m_sev: Severity = match labels[idx].0.severity {
                Some(s) => s,
                None => severity,
            };
            let m_st = self.theme.style.from_severity(m_sev);
            let m_endc = labels[idx].1.end.column;
            let m_lc: usize = if m_endc > 0 {
                m_endc - 1
            } else {
                0
            };
            let ghost before = (row.text@, row.styles@);
            crate::text::set_char_at(&mut row.text, m_lc, self.theme.arrows.vertical);
            row.style_span(SpanRange { start: m_lc, end: m_endc }, m_st);
            proof {
                let vspec = vert_mark_spec(*self, before, labels@[idx as int], severity);
                assert(row.text@ =~= vspec.0);
                assert(row.styles@ =~= vspec.1);
                assert((row.text@, row.styles@) == row_upto(
                    labels@,
                    li as int,
                    idx + 1,
                    severity,
                    *self,
                ));
            }
            idx = idx + 1;
        }
        row
    }

    /// Appends the rows drawn under one source line: each labelled span is
    /// underlined, and with several labels on the line an elbow row per
    /// label leads down to its message, rightmost label first.
    #[verifier::loop_isolation(false)]
    #[verifier::rlimit(100)]
    #[verifier::spinoff_prover]
    pub fn render_line_labels(
        &self,
        out: &mut Vec<char>,
        severity: Severity,
        labels: &Vec<(Label, Span)>,
        gutter_size: usize,
        is_multiline: bool,
        indent: usize,
    )
        ensures
            final (out)@ == old(out)@ + line_labels_spec(
                *self,
                severity,
                labels@,
                gutter_size as int,
                is_multiline,
                indent as int,
            ),
    {
        let n = labels.len();
        if n == 0 {
            proof {
                assert(final (out)@ =~= old(out)@ + line_labels_spec(
                    *self,
                    severity,
                    labels@,
                    gutter_size as int,
                    is_multiline,
                    indent as int,
                ));
            }
            return ;
        }
        let single: bool = n == 1;

        self.push_row_head(out, severity, gutter_size, is_multiline, indent);

        let mut ulen: usize = 0;
        let mut i: usize = 0;
        while i < n
            invariant
                i <= n,
                ulen as int == max_end_col(labels@.take(i as int)),
            decreases n - i,
        {
            let ec = labels[i].1.end.column;
            if ec > ulen {
                ulen = ec;
            }
            proof {
                assert(labels@.take(i + 1).drop_last() =~= labels@.take(i as int));
                assert(labels@.take(i + 1).last() == labels@[i as int]);
            }
            i = i + 1;
        }
        proof {
            assert(labels@.take(n as int) =~= labels@);
        }

        let ustr = self.build_underline(labels, single, severity, ulen);
        let rendered = ustr.render(self.use_colors);
        push_chars(out, &rendered);
        out.push('\n');

        if !single {
            let ghost mid = out@;
            let mut li: usize = 0;
            while li < n
                invariant
                    li <= n,
                    mid + elbow_rows_spec(
                        *self,
                        labels@,
                        0,
                        severity,
                        gutter_size as int,
                        is_multiline,
                        indent as int,
                    ) == out@ + elbow_rows_spec(
                        *self,
                        labels@,
                        li as int,
                        severity,
                        gutter_size as int,
                        is_multiline,
                        indent as int,
                    ),
                decreases n - li,
            {
                self.push_row_head(out, severity, gutter_size, is_multiline, indent);
                let row = self.build_elbow_row(labels, li, severity);
                let row_rendered = row.render(self.use_colors);
                push_chars(out, &row_rendered);
                out.push('\n');
                proof {
                    assert(mid + elbow_rows_spec(
                        *self,
                        labels@,
                        0,
                        severity,
                        gutter_size as int,
                        is_multiline,
                        indent as int,
                    ) =~= out@ + elbow_rows_spec(
                        *self,
                        labels@,
                        li + 1,
                        severity,
                        gutter_size as int,
                        is_multiline,
                        indent as int,
                    ));
                }
                li = li + 1;
            }
            proof {
                assert(elbow_rows_spec(
                    *self,
                    labels@,
                    n as int,
                    severity,
                    gutter_size as int,
                    is_multiline,
                    indent as int,
                ) =~= Seq::<char>::empty());
                assert(final (out)@ =~= old(out)@ + line_labels_spec(
                    *self,
                    severity,
                    labels@,
                    gutter_size as int,
                    is_multiline,
                    indent as int,
                ));
            }
        } else {
            proof {
                assert(final (out)@ =~= old(out)@ + line_labels_spec(
                    *self,
                    severity,
                    labels@,
                    gutter_size as int,
                    is_multiline,
                    indent as int,
                ));
            }
        }
    }
}


/// The coordinate reported for position `i` of the text.
pub open spec fn spec_coord_at(s: Seq<char>, i: int) -> Coord {
    Coord {
        line: line_col_at(s, effective_index(s, i)).0 as usize,
        column: line_col_at(s, effective_index(s, i)).1 as usize,
    }
}

/// The span reported for the interval `[start, end)` of the text.
pub open spec fn spec_span_at(s: Seq<char>, start: int, end: int) -> Span {
    Span { start: spec_coord_at(s, start), end: spec_coord_at(s, end) }
}

/// The path line of a snippet header.
pub open spec fn source_path_spec(cfg: GraphicalRenderer, name: Seq<char>, line: int, column: int) -> Seq<
    char,
> {
    seq!['['] + styled_spec(cfg, name, cfg.theme.style.link) + seq![':'] + dec_str(line)
        + seq![':'] + dec_str(sat_add_spec(column, 1)) + seq![']', '\n']
}

/// The header of a source snippet: a top-left corner and bar, then the
/// source's path with the one-indexed line and column of the first label,
/// or a plain bar rule for a nameless source.
pub open spec fn snippet_header_spec(
    cfg: GraphicalRenderer,
    name: Option<Seq<char>>,
    padding: int,
    line: int,
    column: int,
    indent: int,
) -> Seq<char> {
    indent_spaces(cfg, indent) + repeat_char(' ', padding) + seq![
        cfg.theme.arrows.top_left,
        cfg.theme.arrows.hbar,
    ] + match name {
        Some(n) => source_path_spec(cfg, n, sat_add_spec(line, 1), column),
        None => repeat_char(cfg.theme.arrows.hbar, 10) + seq!['\n'],
    }
}

impl GraphicalRenderer {
    /// Appends the header of a source snippet.
    pub fn push_snippet_header(
        &self,
        out: &mut Vec<char>,
        name: &Option<String>,
        padding: usize,
        line: usize,
        column: usize,
        indent: usize,
    )
        ensures
            final (out)@ == old(out)@ + snippet_header_spec(
                *self,
                match *name {
                    Some(n) => Some(n@),
                    None => None,
                },
                padding as int,
                line as int,
                column as int,
                indent as int,
            ),
    {
        self.push_indent(out, indent);
        push_repeat(out, ' ', padding);
        out.push(self.theme.arrows.top_left);
        out.push(self.theme.arrows.hbar);
        match name {
            Some(n) => {
                out.push('[');
                let mut namev: Vec<char> = Vec::new();
                push_str_chars(&mut namev, n.as_str());
                self.push_styled(out, &namev, self.theme.style.link);
                out.push(':');
                let line1 = dec_chars(sat_add(line, 1));
                push_chars(out, &line1);
                out.push(':');
                let col1 = dec_chars(sat_add(column, 1));
                push_chars(out, &col1);
                out.push(']');
                out.push('\n');
                proof {
                    assert(namev@ =~= n@);
                    assert(final (out)@ =~= old(out)@ + snippet_header_spec(
                        *self,
                        Some(n@),
                        padding as int,
                        line as int,
                        column as int,
                        indent as int,
                    ));
                }
            },
            None => {
                push_repeat(out, self.theme.arrows.hbar, 10);
                out.push('\n');
                proof {
                    assert(final (out)@ =~= old(out)@ + snippet_header_spec(
                        *self,
                        None,
                        padding as int,
                        line as int,
                        column as int,
                        indent as int,
                    ));
                }
            },
        }
    }
}

/// Whether a label's span sits on the given window line and is itself
/// single-line, so that it is underlined beneath that line.
pub open spec fn on_line(item: (Label, Span), line: int) -> bool {
    item.1.start.line == item.1.end.line && item.1.start.line == line
}

/// The labels whose spans start on the given line, in their given order.
pub open spec fn filter_on_line(pairs: Seq<(Label, Span)>, line: int) -> Seq<(Label, Span)>
    decreases pairs.len(),
{
    if pairs.len() == 0 {
        Seq::empty()
    } else {
        let rest = filter_on_line(pairs.drop_first(), line);
        if on_line(pairs[0], line) {
            seq![pairs[0]] + rest
        } else {
            rest
        }
    }
}

/// Inserts a labelled span into a sequence sorted by descending start
/// column, after any item with the same column.
pub open spec fn insert_desc(item: (Label, Span), s: Seq<(Label, Span)>) -> Seq<(Label, Span)>
    decreases s.len(),
{
    if s.len() == 0 {
        seq![item]
    } else if item.1.start.column > s.last().1.start.column {
        insert_desc(item, s.drop_last()).push(s.last())
    } else {
        s.push(item)
    }
}

/// The labelled spans sorted by descending start column; items with equal
/// columns keep their relative order.
pub open spec fn sort_desc_spec(s: Seq<(Label, Span)>) -> Seq<(Label, Span)>
    decreases s.len(),
{
    if s.len() == 0 {
        Seq::empty()
    } else {
        insert_desc(s.last(), sort_desc_spec(s.drop_last()))
    }
}

/// The styles of a highlighted source line after the given labels' spans
/// are colored, one after the other.
pub open spec fn highlight_styles(
    cfg: GraphicalRenderer,
    pairs: Seq<(Label, Span)>,
    k: int,
    init: Seq<TextStyle>,
    sev: Severity,
) -> Seq<TextStyle>
    decreases k,
{
    if k <= 0 {
        init
    } else {
        let prev = highlight_styles(cfg, pairs, k - 1, init, sev);
        let item = pairs[k - 1];
        restyle(
            prev,
            item.1.start.column as int,
            item.1.end.column as int,
            spec_style_of(cfg.theme.style, label_sev(item.0, sev)),
        )
    }
}


/// The one-indexed gutter number of window line `idx`: the window's first
/// source line plus the offset into the window, plus one.
pub open spec fn lnum_spec(span: Span, c: int, idx: int) -> int {
    sat_add_spec(
        sat_add_spec(
            if span.start.line >= c {
                span.start.line - c
            } else {
                0
            },
            idx,
        ),
        1,
    )
}

/// The connector drawn left of a line of a multi-line parent: a top corner
/// and arrow on the first line, a tee and arrow on the last, a bare
/// vertical bar in between.
pub open spec fn ml_connector_spec(cfg: GraphicalRenderer, sev: Severity, idx: int, nlines: int) -> Seq<
    char,
> {
    let st = spec_style_of(cfg.theme.style, sev);
    if idx == 0 {
        styled_spec(cfg, seq![cfg.theme.arrows.top_left], st) + styled_spec(
            cfg,
            seq![cfg.theme.arrows.hbar],
            st,
        ) + styled_spec(cfg, seq![cfg.theme.arrows.arrow_right], st) + seq![' ']
    } else if idx == nlines - 1 {
        styled_spec(cfg, seq![cfg.theme.arrows.horizontal_right], st) + styled_spec(
            cfg,
            seq![cfg.theme.arrows.hbar],
            st,
        ) + styled_spec(cfg, seq![cfg.theme.arrows.arrow_right], st) + seq![' ']
    } else {
        styled_spec(cfg, seq![cfg.theme.arrows.vertical], st) + repeat_char(' ', 3)
    }
}

/// Whether the parent label itself is underlined beneath this line: the
/// parent is single-line, this is its line, and no child sits on the line.
pub open spec fn parent_underlined(parent: Label, lls: Seq<(Label, Span)>, span: Span, lnum: int) -> bool {
    span.start.line == span.end.line && lnum - 1 == span.start.line && lls.len() == 0
}

/// The body of one displayed source line: the bare text, or, when
/// highlighting is on, the text with each labelled sub-range restyled.
pub open spec fn line_body_spec(
    cfg: GraphicalRenderer,
    parent: Label,
    lls: Seq<(Label, Span)>,
    span: Span,
    line_text: Seq<char>,
    lnum: int,
    sev: Severity,
) -> Seq<char> {
    if cfg.highlight_source {
        let s0 = Seq::new(line_text.len(), |i: int| crate::styled::spec_plain_style());
        let s1 = highlight_styles(cfg, lls, lls.len() as int, s0, sev);
        let s2 = if parent_underlined(parent, lls, span, lnum) {
            restyle(
                s1,
                span.start.column as int,
                span.end.column as int,
                spec_style_of(cfg.theme.style, label_sev(parent, sev)),
            )
        } else {
            s1
        };
        styled_render_spec(line_text, s2, cfg.use_colors)
    } else {
        line_text
    }
}

/// The underline rows beneath one displayed line: the parent's own
/// underline on its anchor line, else one row per child on the line.
pub open spec fn line_under_spec(
    cfg: GraphicalRenderer,
    parent: Label,
    lls: Seq<(Label, Span)>,
    span: Span,
    lnum: int,
    sev: Severity,
    gutter: int,
    indent: int,
) -> Seq<char> {
    if parent_underlined(parent, lls, span, lnum) {
        line_labels_spec(cfg, sev, seq![(parent, span)], gutter, false, indent)
    } else {
        line_labels_spec(cfg, sev, lls, gutter, true, indent)
    }
}

/// The displayed lines of one context window, from line `idx` onward: each
/// line's gutter, connector, body and underline rows.
pub open spec fn ctx_line_one(
    cfg: GraphicalRenderer,
    parent: Label,
    pairs: Seq<(Label, Span)>,
    span: Span,
    window: Seq<char>,
    idx: int,
    sev: Severity,
    gutter: int,
    indent: int,
) -> Seq<char> {
    let wl = lines_of(window);
    let lnum = lnum_spec(span, cfg.context_lines as int, idx);
    let line_text = window.subrange(wl[idx].0, wl[idx].1);
    let lls = sort_desc_spec(filter_on_line(pairs, sat_add_spec(span.start.line as int, idx)));
    line_gutter_spec(cfg, gutter, lnum, indent) + (if span.start.line != span.end.line {
        ml_connector_spec(cfg, sev, idx, wl.len() as int)
    } else {
        Seq::<char>::empty()
    }) + line_body_spec(cfg, parent, lls, span, line_text, lnum, sev) + seq!['\n']
        + line_under_spec(cfg, parent, lls, span, lnum, sev, gutter, indent)
}

/// The displayed lines of one context window, from line `idx` onward: each
/// line's gutter, connector, body and underline rows.
pub open spec fn ctx_lines_spec(
    cfg: GraphicalRenderer,
    parent: Label,
    pairs: Seq<(Label, Span)>,
    span: Span,
    window: Seq<char>,
    idx: int,
    sev: Severity,
    gutter: int,
    indent: int,
) -> Seq<char>
    decreases lines_of(window).len() - idx,
{
    let wl = lines_of(window);
    if idx < 0 || idx >= wl.len() {
        Seq::empty()
    } else {
        ctx_line_one(cfg, parent, pairs, span, window, idx, sev, gutter, indent) + ctx_lines_spec(
            cfg,
            parent,
            pairs,
            span,
            window,
            idx + 1,
            sev,
            gutter,
            indent,
        )
    }
}

/// The closing rows of a multi-line parent: a vertical bar row, then an
/// elbow row carrying the parent's message.
pub open spec fn ml_tail_spec(
    cfg: GraphicalRenderer,
    parent: Label,
    sev: Severity,
    gutter: int,
    indent: int,
) -> Seq<char> {
    let st = spec_style_of(cfg.theme.style, sev);
    snippet_gutter_spec(
        cfg,
        gutter,
        Seq::<char>::empty(),
        cfg.theme.arrows.vertical_break,
        indent,
    ) + styled_spec(cfg, seq![cfg.theme.arrows.vertical], st) + seq!['\n'] + snippet_gutter_spec(
        cfg,
        gutter,
        Seq::<char>::empty(),
        cfg.theme.arrows.vertical,
        indent,
    ) + styled_spec(cfg, seq![cfg.theme.arrows.bottom_left], st) + seq![' '] + styled_spec(
        cfg,
        parent.message@,
        st,
    ) + seq!['\n']
}

/// The labelled spans of the children, each paired with its coordinates.
pub open spec fn child_pairs_spec(children: Seq<Label>, content: Seq<char>) -> Seq<(Label, Span)> {
    children.map_values(
        |l: Label| (l, spec_span_at(content, l.range.start as int, l.range.end as int)),
    )
}

/// The full rendering of one label context: its window of source lines
/// with underlines, and for a multi-line parent a closing message row.
#[verifier::opaque]
pub open spec fn label_context_spec(
    cfg: GraphicalRenderer,
    parent: Label,
    children: Seq<Label>,
    source: Source,
    sev: Severity,
    indent: int,
) -> Seq<char> {
    let content = source.content@;
    let gutter = gutter_size_spec(cfg, content);
    let joined = crate::group::spec_max_span(parent, children);
    let span = spec_span_at(content, joined.0, joined.1);
    let window = extract_spec(content, joined.0, joined.1, cfg.context_lines as int).0;
    let pairs = child_pairs_spec(children, content);
    ctx_lines_spec(cfg, parent, pairs, span, window, 0, sev, gutter, indent) + if span.start.line
        != span.end.line {
        ml_tail_spec(cfg, parent, sev, gutter, indent)
    } else {
        Seq::<char>::empty()
    }
}

proof fn lemma_insert_desc_at(item: (Label, Span), s: Seq<(Label, Span)>, p: int)
    requires
        0 <= p <= s.len(),
        forall|j: int| p <= j < s.len() ==> s[j].1.start.column < item.1.start.column,
        p > 0 ==> s[p - 1].1.start.column >= item.1.start.column,
    ensures
        insert_desc(item, s) == s.take(p) + seq![item] + s.skip(p),
    decreases s.len(),
{
    if p == s.len() {
        if s.len() > 0 {
            assert(!(item.1.start.column > s.last().1.start.column));
        }
        assert(insert_desc(item, s) =~= s.take(p) + seq![item] + s.skip(p));
    } else {
        assert(s[s.len() - 1].1.start.column < item.1.start.column);
        lemma_insert_desc_at(item, s.drop_last(), p);
        assert(s.drop_last().take(p) =~= s.take(p));
        assert(insert_desc(item, s) == insert_desc(item, s.drop_last()).push(s.last()));
        assert(insert_desc(item, s) =~= s.take(p) + seq![item] + s.skip(p));
    }
}


impl GraphicalRenderer {
    /// Collects the single-line labels that start on the given line,
    /// sorted by descending start column so that their connectors do not
    /// cross.
    #[verifier::loop_isolation(false)]
    fn line_labels_for(&self, pairs: &Vec<(Label, Span)>, line: usize) -> (r: Vec<(Label, Span)>)
        ensures
            r@ == sort_desc_spec(filter_on_line(pairs@, line as int)),
    {
        let n = pairs.len();
        let mut picked: Vec<(Label, Span)> = Vec::new();
        let mut i: usize = 0;
        proof {
            assert(pairs@.skip(0) =~= pairs@);
        }
        while i < n
            invariant
                i <= n,
                filter_on_line(pairs@, line as int) == picked@ + filter_on_line(
                    pairs@.skip(i as int),
                    line as int,
                ),
            decreases n - i,
        {
            let sp = pairs[i].1;
            proof {
                assert(pairs@.skip(i as int)[0] == pairs@[i as int]);
                assert(pairs@.skip(i as int).drop_first() =~= pairs@.skip(i + 1));
            }
            if sp.start.line == sp.end.line && sp.start.line == line {
                let item = (pairs[i].0.clone(), sp);
                picked.push(item);
                proof {
                    assert(pairs@[i as int].0 == item.0);
                    assert(item == pairs@[i as int]);
                    assert(picked@ + filter_on_line(pairs@.skip(i + 1), line as int)
                        =~= filter_on_line(pairs@, line as int));
                }
            } else {
                assert(!on_line(pairs@[i as int], line as int));
            }
            i = i + 1;
        }
        proof {
            assert(filter_on_line(pairs@.skip(n as int), line as int) =~= Seq::<
                (Label, Span),
            >::empty());
            assert(picked@ =~= filter_on_line(pairs@, line as int));
        }

        let ghost filtered = picked@;
        let m = picked.len();
        let mut rest = picked;
        let mut out: Vec<(Label, Span)> = Vec::new();
        let mut k: usize = 0;
        proof {
            assert(filtered.take(0) =~= Seq::<(Label, Span)>::empty());
        }
        while k < m
            invariant
                k <= m,
                rest@ == filtered,
                m == filtered.len(),
                out@ == sort_desc_spec(filtered.take(k as int)),
            decreases m - k,
        {
            let item = (rest[k].0.clone(), rest[k].1);
            proof {
                assert(item == filtered[k as int]);
            }
            let mut p: usize = out.len();
            while p > 0 && out[p - 1].1.start.column < item.1.start.column
                invariant
                    p <= out@.len(),
                    forall|j: int|
                        p <= j < out@.len() ==> out@[j].1.start.column < item.1.start.column,
                decreases p,
            {
                p = p - 1;
            }
            proof {
                lemma_insert_desc_at(item, out@, p as int);
            }
            out.insert(p, item);
            proof {
                assert(out@ =~= sort_desc_spec(filtered.take(k as int)).take(p as int) + seq![item]
                    + sort_desc_spec(filtered.take(k as int)).skip(p as int));
                assert(filtered.take(k + 1).drop_last() =~= filtered.take(k as int));
                assert(filtered.take(k + 1).last() == filtered[k as int]);
                assert(out@ == insert_desc(item, sort_desc_spec(filtered.take(k as int))));
            }
            k = k + 1;
        }
        proof {
            assert(filtered.take(m as int) =~= filtered);
        }
        out
    }

    /// Appends one rendered label context: its gutter-numbered window of
    /// source lines, the underline rows beneath each line, the connectors
    /// of a multi-line parent, and its closing message row.
    #[verifier::loop_isolation(false)]
    #[verifier::rlimit(100)]
    #[verifier::spinoff_prover]
    pub fn render_label_context(
        &self,
        out: &mut Vec<char>,
        ctx: &crate::group::LabelContext,
        severity: Severity,
        indent: usize,
    )
        ensures
            final (out)@ == old(out)@ + label_context_spec(
                *self,
                ctx.parent,
                ctx.children@,
                ctx.source,
                severity,
                indent as int,
            ),
    {
        let ghost content = ctx.source.content@;
        let gutter = self.gutter_size_of(ctx.source.content.as_str());
        let joined = ctx.max_span();
        let span = crate::span::coords_of_span(ctx.source.content.as_str(), joined);
        proof {
            assert(span == spec_span_at(
                content,
                crate::group::spec_max_span(ctx.parent, ctx.children@).0,
                crate::group::spec_max_span(ctx.parent, ctx.children@).1,
            ));
        }
        let window = crate::span::extract_with_context(
            ctx.source.content.as_str(),
            joined,
            self.context_lines,
        );
        let ghost w = window@;
        let wchars = crate::span::chars_of(window);
        let wspans = crate::span::line_spans_of(&wchars);
        let nlines = wspans.len();
        proof {
            assert(crate::span::pairs_of(wspans@).len() == wspans@.len());
            crate::span::lemma_lines_ordered(w);
        }

        let mut pairs: Vec<(Label, Span)> = Vec::new();
        let nc = ctx.children.len();
        let mut ci: usize = 0;
        while ci < nc
            invariant
                ci <= nc,
                pairs@ == child_pairs_spec(ctx.children@.take(ci as int), content),
            decreases nc - ci,
        {
            let csp = crate::span::coords_of_span(
                ctx.source.content.as_str(),
                ctx.children[ci].range,
            );
            let item = (ctx.children[ci].clone(), csp);
            pairs.push(item);
            proof {
                assert(ctx.children@.take(ci + 1).drop_last() =~= ctx.children@.take(ci as int));
                assert(ctx.children@.take(ci + 1).last() == ctx.children@[ci as int]);
                assert(pairs@ =~= child_pairs_spec(ctx.children@.take(ci + 1), content));
            }
            ci = ci + 1;
        }
        proof {
            assert(ctx.children@.take(nc as int) =~= ctx.children@);
        }

        let ghost mid = out@;
        let mut idx: usize = 0;
        while idx < nlines
            invariant
                idx <= nlines,
                nlines == lines_of(w).len(),
                nlines == wspans@.len(),
                crate::span::pairs_of(wspans@) == lines_of(w),
                wchars@ == w,
                pairs@ == child_pairs_spec(ctx.children@, content),
                mid + ctx_lines_spec(
                    *self,
                    ctx.parent,
                    pairs@,
                    span,
                    w,
                    0,
                    severity,
                    gutter as int,
                    indent as int,
                ) == out@ + ctx_lines_spec(
                    *self,
                    ctx.parent,
                    pairs@,
                    span,
                    w,
                    idx as int,
                    severity,
                    gutter as int,
                    indent as int,
                ),
            decreases nlines - idx,
        {
            self.render_ctx_line(
                out,
                &ctx.parent,
                &pairs,
                span,
                &wchars,
                &wspans,
                idx,
                severity,
                gutter,
                indent,
            );
            proof {
                assert(mid + ctx_lines_spec(
                    *self,
                    ctx.parent,
                    pairs@,
                    span,
                    w,
                    0,
                    severity,
                    gutter as int,
                    indent as int,
                ) =~= out@ + ctx_lines_spec(
                    *self,
                    ctx.parent,
                    pairs@,
                    span,
                    w,
                    idx + 1,
                    severity,
                    gutter as int,
                    indent as int,
                ));
            }
            idx = idx + 1;
        }
        proof {
            assert(ctx_lines_spec(
                *self,
                ctx.parent,
                pairs@,
                span,
                w,
                nlines as int,
                severity,
                gutter as int,
                indent as int,
            ) =~= Seq::<char>::empty());
        }

        if span.is_multiline() {
            self.push_ml_tail(out, &ctx.parent, severity, gutter, indent);
        }
        proof {
            reveal(label_context_spec);
            assert(final (out)@ =~= old(out)@ + label_context_spec(
                *self,
                ctx.parent,
                ctx.children@,
                ctx.source,
                severity,
                indent as int,
            ));
        }
    }
}


impl GraphicalRenderer {
    /// Appends the connector drawn left of one line of a multi-line
    /// parent.
    pub fn push_ml_connector(&self, out: &mut Vec<char>, sev: Severity, idx: usize, nlines: usize)
        requires
            idx < nlines,
        ensures
            final (out)@ == old(out)@ + ml_connector_spec(*self, sev, idx as int, nlines as int),
    {
        let st = self.theme.style.from_severity(sev);
        if idx == 0 {
            let mut c1: Vec<char> = Vec::new();
            c1.push(self.theme.arrows.top_left);
            self.push_styled(out, &c1, st);
            let mut c2: Vec<char> = Vec::new();
            c2.push(self.theme.arrows.hbar);
            self.push_styled(out, &c2, st);
            let mut c3: Vec<char> = Vec::new();
            c3.push(self.theme.arrows.arrow_right);
            self.push_styled(out, &c3, st);
            out.push(' ');
            proof {
                assert(c1@ =~= seq![self.theme.arrows.top_left]);
                assert(c2@ =~= seq![self.theme.arrows.hbar]);
                assert(c3@ =~= seq![self.theme.arrows.arrow_right]);
                assert(final (out)@ =~= old(out)@ + ml_connector_spec(
                    *self,
                    sev,
                    idx as int,
                    nlines as int,
                ));
            }
        } else if idx == nlines - 1 {
            let mut c1: Vec<char> = Vec::new();
            c1.push(self.theme.arrows.horizontal_right);
            self.push_styled(out, &c1, st);
            let mut c2: Vec<char> = Vec::new();
            c2.push(self.theme.arrows.hbar);
            self.push_styled(out, &c2, st);
            let mut c3: Vec<char> = Vec::new();
            c3.push(self.theme.arrows.arrow_right);
            self.push_styled(out, &c3, st);
            out.push(' ');
            proof {
                assert(c1@ =~= seq![self.theme.arrows.horizontal_right]);
                assert(c2@ =~= seq![self.theme.arrows.hbar]);
                assert(c3@ =~= seq![self.theme.arrows.arrow_right]);
                assert(final (out)@ =~= old(out)@ + ml_connector_spec(
                    *self,
                    sev,
                    idx as int,
                    nlines as int,
                ));
            }
        } else {
            let mut c1: Vec<char> = Vec::new();
            c1.push(self.theme.arrows.vertical);
            self.push_styled(out, &c1, st);
            push_repeat(out, ' ', 3);
            proof {
                assert(c1@ =~= seq![self.theme.arrows.vertical]);
                assert(final (out)@ =~= old(out)@ + ml_connector_spec(
                    *self,
                    sev,
                    idx as int,
                    nlines as int,
                ));
            }
        }
    }

    /// Appends the body of one displayed source line, highlighted when
    /// highlighting is on, followed by a newline.
    #[verifier::loop_isolation(false)]
    #[verifier::rlimit(60)]
    pub fn push_line_body(
        &self,
        out: &mut Vec<char>,
        parent: &Label,
        lls: &Vec<(Label, Span)>,
        span: Span,
        line_text: Vec<char>,
        lnum: usize,
        severity: Severity,
    )
        ensures
            final (out)@ == old(out)@ + line_body_spec(
                *self,
                *parent,
                lls@,
                span,
                line_text@,
                lnum as int,
                severity,
            ) + seq!['\n'],
    {
        let parent_here: bool = span.start.line == span.end.line && lnum >= 1 && lnum - 1
            == span.start.line && lls.len() == 0;
        proof {
            assert(parent_here == parent_underlined(*parent, lls@, span, lnum as int));
        }
        if self.highlight_source {
            let ghost ltext = line_text@;
            let mut hl = crate::styled::StyledText::new(line_text);
            let ghost s0 = hl.styles@;
            let lm = lls.len();
            let mut hk: usize = 0;
            while hk < lm
                invariant
                    hk <= lm,
                    hl.wf(),
                    hl.text@ == ltext,
                    hl.styles@ == highlight_styles(*self, lls@, hk as int, s0, severity),
                decreases lm - hk,
            {
                let h_sev: Severity = match lls[hk].0.severity {
                    Some(s) => s,
                    None => severity,
                };
                let h_st = self.theme.style.from_severity(h_sev);
                hl.style_span(
                    SpanRange { start: lls[hk].1.start.column, end: lls[hk].1.end.column },
                    h_st,
                );
                proof {
                    assert(hl.styles@ =~= highlight_styles(*self, lls@, hk + 1, s0, severity));
                }
                hk = hk + 1;
            }
            if parent_here {
                let p_sev: Severity = match parent.severity {
                    Some(s) => s,
                    None => severity,
                };
                let p_st = self.theme.style.from_severity(p_sev);
                hl.style_span(SpanRange { start: span.start.column, end: span.end.column }, p_st);
                proof {
                    assert(hl.styles@ =~= restyle(
                        highlight_styles(*self, lls@, lls@.len() as int, s0, severity),
                        span.start.column as int,
                        span.end.column as int,
                        spec_style_of(self.theme.style, label_sev(*parent, severity)),
                    ));
                }
            }
            let rendered = hl.render(self.use_colors);
            push_chars(out, &rendered);
        } else {
            push_chars(out, &line_text);
        }
        out.push('\n');
    }

    /// Appends the closing rows of a multi-line parent: a vertical bar row
    /// and an elbow row carrying the parent's message.
    pub fn push_ml_tail(
        &self,
        out: &mut Vec<char>,
        parent: &Label,
        severity: Severity,
        gutter: usize,
        indent: usize,
    )
        ensures
            final (out)@ == old(out)@ + ml_tail_spec(
                *self,
                *parent,
                severity,
                gutter as int,
                indent as int,
            ),
    {
        self.push_break_gutter(out, gutter, indent);
        let st = self.theme.style.from_severity(severity);
        let mut v1: Vec<char> = Vec::new();
        v1.push(self.theme.arrows.vertical);
        self.push_styled(out, &v1, st);
        out.push('\n');
        self.push_empty_gutter(out, gutter, indent);
        let mut v2: Vec<char> = Vec::new();
        v2.push(self.theme.arrows.bottom_left);
        self.push_styled(out, &v2, st);
        out.push(' ');
        let mut msgv: Vec<char> = Vec::new();
        push_str_chars(&mut msgv, parent.message.as_str());
        self.push_styled(out, &msgv, st);
        out.push('\n');
        proof {
            assert(v1@ =~= seq![self.theme.arrows.vertical]);
            assert(v2@ =~= seq![self.theme.arrows.bottom_left]);
            assert(msgv@ =~= parent.message@);
            assert(final (out)@ =~= old(out)@ + ml_tail_spec(
                *self,
                *parent,
                severity,
                gutter as int,
                indent as int,
            ));
        }
    }
}


impl GraphicalRenderer {
    /// Appends one displayed line of a context window: its gutter and
    /// number, the multi-line connector when one applies, the line's body,
    /// and the underline rows beneath it.
    #[verifier::loop_isolation(false)]
    #[verifier::rlimit(100)]
    #[verifier::spinoff_prover]
    fn render_ctx_line(
        &self,
        out: &mut Vec<char>,
        parent: &Label,
        pairs: &Vec<(Label, Span)>,
        span: Span,
        wchars: &Vec<char>,
        wspans: &Vec<(usize, usize)>,
        idx: usize,
        severity: Severity,
        gutter: usize,
        indent: usize,
    )
        requires
            crate::span::pairs_of(wspans@) == lines_of(wchars@),
            wspans@.len() == lines_of(wchars@).len(),
            idx < wspans@.len(),
        ensures
            final (out)@ == old(out)@ + ctx_line_one(
                *self,
                *parent,
                pairs@,
                span,
                wchars@,
                idx as int,
                severity,
                gutter as int,
                indent as int,
            ),
    {
        let ghost w = wchars@;
        let nlines = wspans.len();
        let base: usize = if span.start.line >= self.context_lines {
            span.start.line - self.context_lines
        } else {
            0
        };
        let lnum = sat_add(sat_add(base, idx), 1);
        proof {
            crate::span::lemma_pairs_index(wspans@, idx as int);
            crate::span::lemma_lines_ordered(w);
        }
        let line_text = crate::text::copy_range(wchars, wspans[idx].0, wspans[idx].1);
        let lls = self.line_labels_for(pairs, sat_add(span.start.line, idx));

        self.push_line_gutter(out, gutter, lnum, indent);
        let is_ml = span.is_multiline();
        if is_ml {
            self.push_ml_connector(out, severity, idx, nlines);
        }
        self.push_line_body(out, parent, &lls, span, line_text, lnum, severity);

        let parent_here: bool = !is_ml && lnum >= 1 && lnum - 1 == span.start.line && lls.len()
            == 0;
        proof {
            assert(parent_here == parent_underlined(*parent, lls@, span, lnum as int));
        }
        if parent_here {
            let mut solo: Vec<(Label, Span)> = Vec::new();
            solo.push((parent.clone(), span));
            proof {
                assert(solo@ =~= seq![(*parent, span)]);
            }
            self.render_line_labels(out, severity, &solo, gutter, false, indent);
        } else {
            self.render_line_labels(out, severity, &lls, gutter, true, indent);
        }
        proof {
            assert(final (out)@ =~= old(out)@ + ctx_line_one(
                *self,
                *parent,
                pairs@,
                span,
                wchars@,
                idx as int,
                severity,
                gutter as int,
                indent as int,
            ));
        }
    }
}


/// The renderings of all contexts from index `k` onward, separated by
/// vertical-break rows.
pub open spec fn contexts_out_spec(
    cfg: GraphicalRenderer,
    ctxs: Seq<(Label, Seq<Label>, Source)>,
    k: int,
    sev: Severity,
    gutter: int,
    indent: int,
) -> Seq<char>
    decreases ctxs.len() - k,
{
    if k < 0 || k >= ctxs.len() {
        Seq::empty()
    } else {
        label_context_spec(cfg, ctxs[k].0, ctxs[k].1, ctxs[k].2, sev, indent) + (if k < ctxs.len()
            - 1 {
            snippet_gutter_spec(
                cfg,
                gutter,
                Seq::<char>::empty(),
                cfg.theme.arrows.vertical_break,
                indent,
            ) + seq!['\n']
        } else {
            Seq::<char>::empty()
        }) + contexts_out_spec(cfg, ctxs, k + 1, sev, gutter, indent)
    }
}

/// The view of an optional source name.
pub open spec fn name_view(name: Option<String>) -> Option<Seq<char>> {
    match name {
        Some(n) => Some(n@),
        None => None,
    }
}

/// The rendering of one label group: a snippet header at the first label's
/// coordinates, the grouped contexts separated by break rows, and a
/// snippet footer.
pub open spec fn label_group_spec(
    cfg: GraphicalRenderer,
    labels: Seq<Label>,
    source: Source,
    sev: Severity,
    indent: int,
) -> Seq<char> {
    if labels.len() == 0 {
        Seq::empty()
    } else {
        let content = source.content@;
        let gutter = gutter_size_spec(cfg, content);
        let sspan = spec_span_at(
            content,
            labels[0].range.start as int,
            labels[0].range.end as int,
        );
        snippet_header_spec(
            cfg,
            name_view(source.name),
            gutter,
            sspan.start.line as int,
            sspan.start.column as int,
            indent,
        ) + contexts_out_spec(
            cfg,
            crate::group::group_ctxs_spec(labels, Some(source)),
            0,
            sev,
            gutter,
            indent,
        ) + snippet_footer_spec(cfg, gutter, indent)
    }
}

impl GraphicalRenderer {
    /// Appends the rendering of one label group: snippet header, the
    /// grouped contexts separated by break rows, and the snippet footer.
    #[verifier::loop_isolation(false)]
    #[verifier::rlimit(100)]
    #[verifier::spinoff_prover]
    pub fn render_label_group(
        &self,
        out: &mut Vec<char>,
        group: crate::group::LabelGroup,
        severity: Severity,
        indent: usize,
    )
        ensures
            final (out)@ == old(out)@ + label_group_spec(
                *self,
                group.labels@,
                group.source,
                severity,
                indent as int,
            ),
    {
        if group.labels.len() == 0 {
            proof {
                assert(final (out)@ =~= old(out)@ + label_group_spec(
                    *self,
                    group.labels@,
                    group.source,
                    severity,
                    indent as int,
                ));
            }
            return ;
        }
        let ghost glabels = group.labels@;
        let ghost gsource = group.source;
        let gutter = self.gutter_size_of(group.source.content.as_str());
        let sspan = crate::span::coords_of_span(
            group.source.content.as_str(),
            group.labels[0].range,
        );
        proof {
            assert(sspan == spec_span_at(
                gsource.content@,
                glabels[0].range.start as int,
                glabels[0].range.end as int,
            ));
        }
        self.push_snippet_header(
            out,
            &group.source.name,
            gutter,
            sspan.start.line,
            sspan.start.column,
            indent,
        );
        let diag_source: Option<crate::diagnostic::Source> = Some(group.source.clone());
        let ctxs = crate::group::group_overlapping_labels(&diag_source, group.labels);
        let count = ctxs.len();
        let ghost cview = crate::group::ctxs_view(ctxs@);
        let ghost mid = out@;
        let mut i: usize = 0;
        while i < count
            invariant
                i <= count,
                count == cview.len(),
                count == ctxs@.len(),
                crate::group::ctxs_view(ctxs@) == cview,
                cview == crate::group::group_ctxs_spec(glabels, Some(gsource)),
                mid + contexts_out_spec(
                    *self,
                    cview,
                    0,
                    severity,
                    gutter as int,
                    indent as int,
                ) == out@ + contexts_out_spec(
                    *self,
                    cview,
                    i as int,
                    severity,
                    gutter as int,
                    indent as int,
                ),
            decreases count - i,
        {
            proof {
                assert(cview[i as int] == (ctxs@[i as int].parent, ctxs@[i as int].children@, ctxs@[i as int].source));
            }
            self.render_label_context(out, &ctxs[i], severity, indent);
            if i < count - 1 {
                self.push_breakln(out, gutter, indent);
            }
            proof {
                assert(mid + contexts_out_spec(
                    *self,
                    cview,
                    0,
                    severity,
                    gutter as int,
                    indent as int,
                ) =~= out@ + contexts_out_spec(
                    *self,
                    cview,
                    i + 1,
                    severity,
                    gutter as int,
                    indent as int,
                ));
            }
            i = i + 1;
        }
        proof {
            assert(contexts_out_spec(
                *self,
                cview,
                count as int,
                severity,
                gutter as int,
                indent as int,
            ) =~= Seq::<char>::empty());
        }
        self.push_snippet_footer(out, gutter, indent);
        proof {
            assert(final (out)@ =~= old(out)@ + label_group_spec(
                *self,
                glabels,
                gsource,
                severity,
                indent as int,
            ));
        }
    }
}


/// The index of the first bucket whose source has the given name, or `-1`.
pub open spec fn find_bucket(acc: Seq<(Source, Seq<Label>)>, name: Option<String>) -> int
    decreases acc.len(),
{
    if acc.len() == 0 {
        -1
    } else if crate::diagnostic::same_name(acc[0].0.name, name) {
        0
    } else {
        let rest = find_bucket(acc.drop_first(), name);
        if rest < 0 {
            -1
        } else {
            rest + 1
        }
    }
}

/// The label buckets after placing the labels from index `i` onward: each
/// label joins the bucket of its resolved source's name, in first-seen
/// order of names; a label with no resolvable source is dropped.
pub open spec fn buckets_from(
    labels: Seq<Label>,
    dsrc: Option<Source>,
    i: int,
    acc: Seq<(Source, Seq<Label>)>,
) -> Seq<(Source, Seq<Label>)>
    decreases labels.len() - i,
{
    if i < 0 || i >= labels.len() {
        acc
    } else {
        match crate::diagnostic::spec_resolved_source(labels[i].source, dsrc) {
            None => buckets_from(labels, dsrc, i + 1, acc),
            Some(src) => {
                let j = find_bucket(acc, src.name);
                let acc2 = if j >= 0 {
                    acc.update(j, (acc[j].0, acc[j].1.push(labels[i])))
                } else {
                    acc.push((src, seq![labels[i]]))
                };
                buckets_from(labels, dsrc, i + 1, acc2)
            },
        }
    }
}

/// The label buckets of a diagnostic's labels, keyed by source name in
/// first-seen order.
pub open spec fn spec_buckets(labels: Seq<Label>, dsrc: Option<Source>) -> Seq<
    (Source, Seq<Label>),
> {
    buckets_from(labels, dsrc, 0, Seq::empty())
}

/// The mathematical form of a list of label groups.
pub open spec fn groups_view(groups: Seq<crate::group::LabelGroup>) -> Seq<(Source, Seq<Label>)> {
    groups.map_values(|g: crate::group::LabelGroup| (g.source, g.labels@))
}

proof fn lemma_same_name_dv(a: Option<String>, b: Option<String>)
    ensures
        crate::diagnostic::same_name(a, b) <==> a.deep_view() == b.deep_view(),
{
    match (a, b) {
        (Some(x), Some(y)) => {
            if x@ == y@ {
                assert(a.deep_view() =~= b.deep_view());
            }
        },
        _ => {
        },
    }
}

proof fn lemma_find_bucket_range(bs: Seq<(Source, Seq<Label>)>, name: Option<String>)
    ensures
        -1 <= find_bucket(bs, name) < bs.len(),
    decreases bs.len(),
{
    if bs.len() > 0 && !crate::diagnostic::same_name(bs[0].0.name, name) {
        lemma_find_bucket_range(bs.drop_first(), name);
    }
}

proof fn lemma_find_correspond(
    es: Seq<(Option<Seq<char>>, int)>,
    bs: Seq<(Source, Seq<Label>)>,
    name: Option<String>,
)
    requires
        es.len() == bs.len(),
        forall|j: int| 0 <= j < es.len() ==> #[trigger] es[j].0 == bs[j].0.name.deep_view(),
    ensures
        crate::outside::find_name_key(es, name.deep_view()) == find_bucket(bs, name),
    decreases es.len(),
{
    if es.len() > 0 {
        lemma_same_name_dv(bs[0].0.name, name);
        assert(es[0].0 == bs[0].0.name.deep_view());
        assert(forall|j: int|
            0 <= j < es.drop_first().len() ==> #[trigger] es.drop_first()[j].0 == bs.drop_first(
            )[j].0.name.deep_view());
        lemma_find_correspond(es.drop_first(), bs.drop_first(), name);
    }
}

/// Buckets a diagnostic's labels by the name of their resolved source, in
/// first-seen order of names. Labels with no resolvable source are
/// dropped.
#[verifier::loop_isolation(false)]
#[verifier::rlimit(100)]
#[verifier::spinoff_prover]
pub fn build_label_groups(labels: Vec<Label>, dsrc: &Option<Source>) -> (r: Vec<
    crate::group::LabelGroup,
>)
    ensures
        groups_view(r@) == spec_buckets(labels@, *dsrc),
{
    let n = labels.len();
    let mut groups: Vec<crate::group::LabelGroup> = Vec::new();
    let mut map = crate::outside::name_map_new();
    let mut i: usize = 0;
    proof {
        assert(groups_view(groups@) =~= Seq::<(Source, Seq<Label>)>::empty());
    }
    while i < n
        invariant
            i <= n,
            n == labels@.len(),
            groups@.len() <= i,
            crate::outside::name_map_entries(map).len() == groups@.len(),
            forall|j: int|
                0 <= j < groups@.len() ==> #[trigger] crate::outside::name_map_entries(map)[j]
                    == (groups@[j].source.name.deep_view(), j),
            spec_buckets(labels@, *dsrc) == buckets_from(
                labels@,
                *dsrc,
                i as int,
                groups_view(groups@),
            ),
        decreases n - i,
    {
        let label = labels[i].clone();
        let resolved = crate::diagnostic::resolve_source(&label.source, dsrc);
        match resolved {
            None => {
            },
            Some(src) => {
                proof {
                    assert(forall|j: int|
                        0 <= j < crate::outside::name_map_entries(map).len()
                            ==> #[trigger] crate::outside::name_map_entries(map)[j].0
                            == groups_view(groups@)[j].0.name.deep_view());
                    lemma_find_correspond(
                        crate::outside::name_map_entries(map),
                        groups_view(groups@),
                        src.name,
                    );
                    lemma_find_bucket_range(groups_view(groups@), src.name);
                }
                let found = crate::outside::name_map_get(&map, &src.name);
                match found {
                    Some(gi) => {
                        proof {
                            assert(crate::outside::name_map_entries(map)[find_bucket(
                                groups_view(groups@),
                                src.name,
                            )].1 == gi as int);
                            assert(find_bucket(groups_view(groups@), src.name) == gi as int);
                            assert(gi < groups@.len());
                        }
                        let ghost gv0 = groups_view(groups@);
                        let mut g = groups.remove(gi);
                        g.labels.push(label);
                        groups.insert(gi, g);
                        proof {
                            assert(groups_view(groups@) =~= gv0.update(
                                gi as int,
                                (gv0[gi as int].0, gv0[gi as int].1.push(labels@[i as int])),
                            ));
                        }
                    },
                    None => {
                        proof {
                            assert(find_bucket(groups_view(groups@), src.name) < 0);
                        }
                        let ghost gv0 = groups_view(groups@);
                        let key: Option<String> = match &src.name {
                            Some(nm) => Some(nm.clone()),
                            None => None,
                        };
                        let mut ls: Vec<Label> = Vec::new();
                        ls.push(label);
                        let gsrc = src.clone();
                        let new_idx = groups.len();
                        groups.push(crate::group::LabelGroup { labels: ls, source: gsrc });
                        let prior = crate::outside::name_map_insert(&mut map, key, new_idx);
                        proof {
                            assert(key.deep_view() == src.name.deep_view());
                            assert(groups_view(groups@) =~= gv0.push(
                                (src, seq![labels@[i as int]]),
                            ));
                        }
                    },
                }
            },
        }
        i = i + 1;
    }
    proof {
        assert(buckets_from(labels@, *dsrc, n as int, groups_view(groups@)) == groups_view(
            groups@,
        ));
    }
    groups
}


/// The ordering rank of a suggestion kind: deletions, then insertions,
/// then replacements.
pub open spec fn sugg_rank(s: Suggestion) -> int {
    match s {
        Suggestion::Deletion { .. } => 0,
        Suggestion::Insertion { .. } => 1,
        Suggestion::Replacement { .. } => 2,
    }
}

/// The anchor offset of a suggestion: where its edit starts.
pub open spec fn sugg_start(s: Suggestion) -> int {
    match s {
        Suggestion::Deletion { range } => range.span.start as int,
        Suggestion::Insertion { location, .. } => location.offset as int,
        Suggestion::Replacement { range, .. } => range.span.start as int,
    }
}

/// The text a suggestion carries: the inserted or replacement literal, or
/// nothing for a deletion.
pub open spec fn sugg_text(s: Suggestion) -> Seq<char> {
    match s {
        Suggestion::Deletion { .. } => Seq::empty(),
        Suggestion::Insertion { value, .. } => value@,
        Suggestion::Replacement { replacement, .. } => replacement@,
    }
}

/// The strict order suggestions are sorted in: by kind, then by anchor
/// offset, then by their text.
pub open spec fn sugg_lt(a: Suggestion, b: Suggestion) -> bool {
    ||| sugg_rank(a) < sugg_rank(b)
    ||| (sugg_rank(a) == sugg_rank(b) && sugg_start(a) < sugg_start(b))
    ||| (sugg_rank(a) == sugg_rank(b) && sugg_start(a) == sugg_start(b) && crate::text::lex_lt(
        sugg_text(a),
        sugg_text(b),
    ))
}

/// Inserts a suggestion into a sorted sequence, after any equal one.
pub open spec fn insert_sugg(item: Suggestion, s: Seq<Suggestion>) -> Seq<Suggestion>
    decreases s.len(),
{
    if s.len() == 0 {
        seq![item]
    } else if sugg_lt(item, s.last()) {
        insert_sugg(item, s.drop_last()).push(s.last())
    } else {
        s.push(item)
    }
}

/// The suggestions in sorted order; equal suggestions keep their relative
/// order.
pub open spec fn sort_suggs_spec(s: Seq<Suggestion>) -> Seq<Suggestion>
    decreases s.len(),
{
    if s.len() == 0 {
        Seq::empty()
    } else {
        insert_sugg(s.last(), sort_suggs_spec(s.drop_last()))
    }
}

/// The number of marker arrows drawn for a suggestion: the length of its
/// inserted or replacement text, or of the deleted span.
pub open spec fn sugg_arrow_count(s: Suggestion) -> int {
    match s {
        Suggestion::Deletion { range } => if range.span.end >= range.span.start {
            range.span.end - range.span.start
        } else {
            0
        },
        Suggestion::Insertion { value, .. } => value@.len() as int,
        Suggestion::Replacement { replacement, .. } => replacement@.len() as int,
    }
}

/// The style a suggestion's edit and markers are drawn in.
pub open spec fn sugg_style(cfg: GraphicalRenderer, s: Suggestion) -> TextStyle {
    match s {
        Suggestion::Deletion { .. } => cfg.theme.style.deletion,
        Suggestion::Insertion { .. } => cfg.theme.style.insertion,
        Suggestion::Replacement { .. } => cfg.theme.style.insertion,
    }
}

/// One suggestion's edit applied to the displayed line: a deletion
/// restyles the removed slice, an insertion splices its literal in at its
/// anchor, a replacement puts its literal in place of the removed slice.
pub open spec fn style_sugg_line_spec(
    cfg: GraphicalRenderer,
    s: Suggestion,
    line: Seq<char>,
    span: Span,
) -> Seq<char> {
    let cols = if span.start.line != span.end.line {
        (span.start.column as int, line.len() as int)
    } else {
        (span.start.column as int, span.end.column as int)
    };
    match s {
        Suggestion::Deletion { .. } => {
            let parts = crate::text::spec_split3(line, cols.0, cols.1);
            parts.0 + styled_spec(cfg, parts.1, cfg.theme.style.deletion) + parts.2
        },
        Suggestion::Insertion { value, .. } => {
            let parts = crate::text::spec_split3(line, cols.0, cols.1);
            parts.0 + styled_spec(cfg, value@, cfg.theme.style.insertion) + parts.1 + parts.2
        },
        Suggestion::Replacement { replacement, range } => {
            let length = if range.span.end >= range.span.start {
                range.span.end - range.span.start
            } else {
                0
            };
            let parts = crate::text::spec_split3(line, cols.0, sat_add_spec(cols.0, length));
            parts.0 + styled_spec(cfg, replacement@, cfg.theme.style.insertion) + parts.2
        },
    }
}

/// The displayed line after the suggestions from index `i` onward are
/// applied, rightmost first, so that earlier edits are not invalidated.
pub open spec fn sugg_applied(
    cfg: GraphicalRenderer,
    sorted: Seq<Suggestion>,
    i: int,
    init: Seq<char>,
    content: Seq<char>,
) -> Seq<char>
    decreases sorted.len() - i,
{
    if i < 0 || i >= sorted.len() {
        init
    } else {
        let sp = crate::diagnostic::spec_suggestion_span(sorted[i]);
        style_sugg_line_spec(
            cfg,
            sorted[i],
            sugg_applied(cfg, sorted, i + 1, init, content),
            spec_span_at(content, sp.0, sp.1),
        )
    }
}

/// `count` marker arrows, each styled on its own.
pub open spec fn arrow_reps(cfg: GraphicalRenderer, count: int, st: TextStyle) -> Seq<char>
    decreases count,
{
    if count <= 0 {
        Seq::empty()
    } else {
        styled_spec(cfg, seq![cfg.theme.arrows.arrow_up], st) + arrow_reps(cfg, count - 1, st)
    }
}

/// The marker row under an edited line: spacing up to each edit's column,
/// then one arrow per character of the edit, in ascending order.
pub open spec fn arrows_fold(
    cfg: GraphicalRenderer,
    sorted: Seq<Suggestion>,
    k: int,
    offset: int,
    content: Seq<char>,
) -> Seq<char>
    decreases sorted.len() - k,
{
    if k < 0 || k >= sorted.len() {
        Seq::empty()
    } else {
        let spr = crate::diagnostic::spec_suggestion_span(sorted[k]);
        let sp = spec_span_at(content, spr.0, spr.1);
        let spacing = if sp.start.column >= offset {
            sp.start.column - offset
        } else {
            0
        };
        repeat_char(' ', spacing) + arrow_reps(cfg, sugg_arrow_count(sorted[k]), sugg_style(cfg, sorted[k]))
            + arrows_fold(cfg, sorted, k + 1, sp.end.column as int, content)
    }
}

/// The rendering of the suggestions of one source line: the line with the
/// edits applied, then a marker row under the edited columns.
#[verifier::opaque]
pub open spec fn suggestion_line_spec(
    cfg: GraphicalRenderer,
    line_num: int,
    suggs: Seq<Suggestion>,
    indent: int,
) -> Seq<char> {
    if suggs.len() == 0 {
        Seq::empty()
    } else {
        let sorted = sort_suggs_spec(suggs);
        let first = sorted.last();
        let content = crate::diagnostic::spec_suggestion_source(first).content@;
        let fsp = crate::diagnostic::spec_suggestion_span(first);
        let init = extract_spec(content, fsp.0, fsp.1, 0).0;
        let padding = gutter_size_spec(cfg, content);
        let styled_line = sugg_applied(cfg, sorted, 0, init, content);
        line_gutter_spec(cfg, padding, sat_add_spec(line_num, 1), indent) + styled_line
            + seq!['\n'] + snippet_gutter_spec(
            cfg,
            padding,
            Seq::<char>::empty(),
            cfg.theme.arrows.vertical,
            indent,
        ) + arrows_fold(cfg, sorted, 0, 0, content) + seq!['\n']
    }
}


proof fn lemma_insert_sugg_at(item: Suggestion, s: Seq<Suggestion>, p: int)
    requires
        0 <= p <= s.len(),
        forall|j: int| p <= j < s.len() ==> sugg_lt(item, #[trigger] s[j]),
        p > 0 ==> !sugg_lt(item, s[p - 1]),
    ensures
        insert_sugg(item, s) == s.take(p) + seq![item] + s.skip(p),
    decreases s.len(),
{
    if p == s.len() {
        if s.len() > 0 {
            assert(!sugg_lt(item, s.last()));
        }
        assert(insert_sugg(item, s) =~= s.take(p) + seq![item] + s.skip(p));
    } else {
        assert(sugg_lt(item, s[s.len() - 1]));
        lemma_insert_sugg_at(item, s.drop_last(), p);
        assert(s.drop_last().take(p) =~= s.take(p));
        assert(insert_sugg(item, s) == insert_sugg(item, s.drop_last()).push(s.last()));
        assert(insert_sugg(item, s) =~= s.take(p) + seq![item] + s.skip(p));
    }
}

/// Compares two suggestions in the order they are sorted in.
fn sugg_lt_exec(a: &Suggestion, b: &Suggestion) -> (r: bool)
    ensures
        r == sugg_lt(*a, *b),
{
    let ra: usize = match a {
        Suggestion::Deletion { .. } => 0,
        Suggestion::Insertion { .. } => 1,
        Suggestion::Replacement { .. } => 2,
    };
    let rb: usize = match b {
        Suggestion::Deletion { .. } => 0,
        Suggestion::Insertion { .. } => 1,
        Suggestion::Replacement { .. } => 2,
    };
    if ra != rb {
        return ra < rb;
    }
    let sa: usize = match a {
        Suggestion::Deletion { range } => range.span.start,
        Suggestion::Insertion { location, .. } => location.offset,
        Suggestion::Replacement { range, .. } => range.span.start,
    };
    let sb: usize = match b {
        Suggestion::Deletion { range } => range.span.start,
        Suggestion::Insertion { location, .. } => location.offset,
        Suggestion::Replacement { range, .. } => range.span.start,
    };
    if sa != sb {
        return sa < sb;
    }
    let ta: Vec<char> = match a {
        Suggestion::Deletion { .. } => Vec::new(),
        Suggestion::Insertion { value, .. } => crate::span::chars_of(value.as_str()),
        Suggestion::Replacement { replacement, .. } => crate::span::chars_of(replacement.as_str()),
    };
    let tb: Vec<char> = match b {
        Suggestion::Deletion { .. } => Vec::new(),
        Suggestion::Insertion { value, .. } => crate::span::chars_of(value.as_str()),
        Suggestion::Replacement { replacement, .. } => crate::span::chars_of(replacement.as_str()),
    };
    crate::text::chars_lt(&ta, &tb)
}

/// Sorts suggestions by kind, anchor offset and text; equal suggestions
/// keep their relative order.
#[verifier::loop_isolation(false)]
pub fn sort_suggestions(suggs: Vec<Suggestion>) -> (r: Vec<Suggestion>)
    ensures
        r@ == sort_suggs_spec(suggs@),
{
    let n = suggs.len();
    let rest = suggs;
    let ghost input = rest@;
    let mut out: Vec<Suggestion> = Vec::new();
    let mut i: usize = 0;
    proof {
        assert(input.take(0) =~= Seq::<Suggestion>::empty());
    }
    while i < n
        invariant
            i <= n,
            rest@ == input,
            n == input.len(),
            out@ == sort_suggs_spec(input.take(i as int)),
        decreases n - i,
    {
        let item = rest[i].clone();
        let mut p: usize = out.len();
        while p > 0 && sugg_lt_exec(&item, &out[p - 1])
            invariant
                p <= out@.len(),
                forall|j: int| p <= j < out@.len() ==> sugg_lt(item, #[trigger] out@[j]),
            decreases p,
        {
            p = p - 1;
        }
        proof {
            lemma_insert_sugg_at(item, out@, p as int);
        }
        out.insert(p, item);
        proof {
            assert(out@ =~= sort_suggs_spec(input.take(i as int)).take(p as int) + seq![item]
                + sort_suggs_spec(input.take(i as int)).skip(p as int));
            assert(input.take(i + 1).drop_last() =~= input.take(i as int));
            assert(input.take(i + 1).last() == input[i as int]);
            assert(out@ == insert_sugg(item, sort_suggs_spec(input.take(i as int))));
        }
        i = i + 1;
    }
    proof {
        assert(input.take(n as int) =~= input);
    }
    out
}

impl GraphicalRenderer {
    /// Appends one suggestion's edit applied to the displayed line.
    #[verifier::rlimit(60)]
    fn apply_sugg_edit(&self, s: &Suggestion, line: Vec<char>, span: Span) -> (r: Vec<char>)
        ensures
            r@ == style_sugg_line_spec(*self, *s, line@, span),
    {
        let cols_start = span.start.column;
        let cols_end: usize = if span.start.line != span.end.line {
            line.len()
        } else {
            span.end.column
        };
        match s {
            Suggestion::Deletion { .. } => {
                let parts = crate::text::split3(&line, cols_start, cols_end);
                let mut out: Vec<char> = Vec::new();
                push_chars(&mut out, &parts.0);
                self.push_styled(&mut out, &parts.1, self.theme.style.deletion);
                push_chars(&mut out, &parts.2);
                proof {
                    assert(out@ =~= style_sugg_line_spec(*self, *s, line@, span));
                }
                out
            },
            Suggestion::Insertion { value, .. } => {
                let parts = crate::text::split3(&line, cols_start, cols_end);
                let mut out: Vec<char> = Vec::new();
                push_chars(&mut out, &parts.0);
                let vchars = crate::span::chars_of(value.as_str());
                self.push_styled(&mut out, &vchars, self.theme.style.insertion);
                push_chars(&mut out, &parts.1);
                push_chars(&mut out, &parts.2);
                proof {
                    assert(out@ =~= style_sugg_line_spec(*self, *s, line@, span));
                }
                out
            },
            Suggestion::Replacement { replacement, range } => {
                let length: usize = if range.span.end >= range.span.start {
                    range.span.end - range.span.start
                } else {
                    0
                };
                let parts = crate::text::split3(&line, cols_start, sat_add(cols_start, length));
                let mut out: Vec<char> = Vec::new();
                push_chars(&mut out, &parts.0);
                let rchars = crate::span::chars_of(replacement.as_str());
                self.push_styled(&mut out, &rchars, self.theme.style.insertion);
                push_chars(&mut out, &parts.2);
                proof {
                    assert(out@ =~= style_sugg_line_spec(*self, *s, line@, span));
                }
                out
            },
        }
    }

    /// Appends the suggestions of one source line: the line with the edits
    /// applied, rightmost first, then a marker row of arrows under the
    /// edited columns, leftmost first.
    #[verifier::loop_isolation(false)]
    #[verifier::rlimit(100)]
    #[verifier::spinoff_prover]
    pub fn render_suggestion_line(
        &self,
        out: &mut Vec<char>,
        line_num: usize,
        suggs: Vec<Suggestion>,
        indent: usize,
    )
        ensures
            final (out)@ == old(out)@ + suggestion_line_spec(
                *self,
                line_num as int,
                suggs@,
                indent as int,
            ),
    {
        proof {
            reveal(suggestion_line_spec);
        }
        if suggs.len() == 0 {
            proof {
                assert(final (out)@ =~= old(out)@ + suggestion_line_spec(
                    *self,
                    line_num as int,
                    suggs@,
                    indent as int,
                ));
            }
            return ;
        }
        let ghost input = suggs@;
        let sorted = sort_suggestions(suggs);
        let n = sorted.len();
        proof {
            lemma_sort_suggs_len(input);
        }
        let first = sorted[n - 1].clone();
        let source = first.source();
        let fspan = first.span();
        let init = crate::span::extract_with_context(source.content.as_str(), fspan, 0);
        let padding = self.gutter_size_of(source.content.as_str());
        let ghost content = source.content@;

        let mut line: Vec<char> = crate::span::chars_of(init);
        let ghost init_seq = line@;
        let mut j: usize = n;
        while j > 0
            invariant
                j <= n,
                n == sorted@.len(),
                line@ == sugg_applied(*self, sorted@, j as int, init_seq, content),
            decreases j,
        {
            j = j - 1;
            let sp = sorted[j].span();
            let sspan = crate::span::coords_of_span(source.content.as_str(), sp);
            proof {
                assert(sspan == spec_span_at(
                    content,
                    crate::diagnostic::spec_suggestion_span(sorted@[j as int]).0,
                    crate::diagnostic::spec_suggestion_span(sorted@[j as int]).1,
                ));
            }
            let stepped = self.apply_sugg_edit(&sorted[j], line, sspan);
            line = stepped;
        }
        self.push_line_gutter(out, padding, sat_add(line_num, 1), indent);
        push_chars(out, &line);
        out.push('\n');

        let empty: Vec<char> = Vec::new();
        self.push_snippet_gutter(out, padding, &empty, self.theme.arrows.vertical, indent);

        let ghost mid = out@;
        let mut offset: usize = 0;
        let mut k: usize = 0;
        while k < n
            invariant
                k <= n,
                n == sorted@.len(),
                mid + arrows_fold(*self, sorted@, 0, 0, content) == out@ + arrows_fold(
                    *self,
                    sorted@,
                    k as int,
                    offset as int,
                    content,
                ),
            decreases n - k,
        {
            let sp = sorted[k].span();
            let sspan = crate::span::coords_of_span(source.content.as_str(), sp);
            proof {
                assert(sspan == spec_span_at(
                    content,
                    crate::diagnostic::spec_suggestion_span(sorted@[k as int]).0,
                    crate::diagnostic::spec_suggestion_span(sorted@[k as int]).1,
                ));
            }
            let spacing: usize = if sspan.start.column >= offset {
                sspan.start.column - offset
            } else {
                0
            };
            push_repeat(out, ' ', spacing);
            let st = match &sorted[k] {
                Suggestion::Deletion { .. } => self.theme.style.deletion,
                Suggestion::Insertion { .. } => self.theme.style.insertion,
                Suggestion::Replacement { .. } => self.theme.style.insertion,
            };
            let count: usize = match &sorted[k] {
                Suggestion::Deletion { range } => if range.span.end >= range.span.start {
                    range.span.end - range.span.start
                } else {
                    0
                },
                Suggestion::Insertion { value, .. } => value.as_str().unicode_len(),
                Suggestion::Replacement { replacement, .. } => replacement.as_str().unicode_len(),
            };
            self.push_arrows(out, count, st);
            proof {
                assert(mid + arrows_fold(*self, sorted@, 0, 0, content) =~= out@ + arrows_fold(
                    *self,
                    sorted@,
                    k + 1,
                    sspan.end.column as int,
                    content,
                ));
            }
            offset = sspan.end.column;
            k = k + 1;
        }
        proof {
            assert(arrows_fold(*self, sorted@, n as int, offset as int, content) =~= Seq::<
                char,
            >::empty());
        }
        out.push('\n');
        proof {
            assert(final (out)@ =~= old(out)@ + suggestion_line_spec(
                *self,
                line_num as int,
                input,
                indent as int,
            ));
        }
    }

    /// Appends `count` marker arrows, each styled on its own.
    #[verifier::loop_isolation(false)]
    fn push_arrows(&self, out: &mut Vec<char>, count: usize, st: TextStyle)
        ensures
            final (out)@ == old(out)@ + arrow_reps(*self, count as int, st),
    {
        let mut a: usize = 0;
        while a < count
            invariant
                a <= count,
                out@ == old(out)@ + arrow_reps(*self, a as int, st),
            decreases count - a,
        {
            let mut one: Vec<char> = Vec::new();
            one.push(self.theme.arrows.arrow_up);
            self.push_styled(out, &one, st);
            proof {
                assert(one@ =~= seq![self.theme.arrows.arrow_up]);
                lemma_arrow_reps_snoc(*self, a as int, st);
                assert(out@ =~= old(out)@ + arrow_reps(*self, a + 1, st));
            }
            a = a + 1;
        }
    }
}

proof fn lemma_arrow_reps_snoc(cfg: GraphicalRenderer, k: int, st: TextStyle)
    requires
        k >= 0,
    ensures
        arrow_reps(cfg, k + 1, st) == arrow_reps(cfg, k, st) + styled_spec(
            cfg,
            seq![cfg.theme.arrows.arrow_up],
            st,
        ),
    decreases k,
{
    if k == 0 {
        assert(arrow_reps(cfg, 1, st) =~= arrow_reps(cfg, 0, st) + styled_spec(
            cfg,
            seq![cfg.theme.arrows.arrow_up],
            st,
        ));
    } else {
        lemma_arrow_reps_snoc(cfg, k - 1, st);
        assert(arrow_reps(cfg, k + 1, st) =~= arrow_reps(cfg, k, st) + styled_spec(
            cfg,
            seq![cfg.theme.arrows.arrow_up],
            st,
        ));
    }
}

proof fn lemma_sort_suggs_len(s: Seq<Suggestion>)
    ensures
        sort_suggs_spec(s).len() == s.len(),
    decreases s.len(),
{
    if s.len() > 0 {
        lemma_sort_suggs_len(s.drop_last());
        lemma_insert_sugg_len(s.last(), sort_suggs_spec(s.drop_last()));
    }
}

proof fn lemma_insert_sugg_len(item: Suggestion, s: Seq<Suggestion>)
    ensures
        insert_sugg(item, s).len() == s.len() + 1,
    decreases s.len(),
{
    if s.len() > 0 && sugg_lt(item, s.last()) {
        lemma_insert_sugg_len(item, s.drop_last());
    }
}


/// The index of the first line bucket with the given line, or `-1`.
pub open spec fn find_line_bucket(acc: Seq<(int, Seq<Suggestion>)>, line: int) -> int
    decreases acc.len(),
{
    if acc.len() == 0 {
        -1
    } else if acc[0].0 == line {
        0
    } else {
        let rest = find_line_bucket(acc.drop_first(), line);
        if rest < 0 {
            -1
        } else {
            rest + 1
        }
    }
}

/// The suggestions of one source grouped by the line their anchor sits on,
/// in first-seen order of lines.
pub open spec fn line_buckets_from(
    suggs: Seq<Suggestion>,
    content: Seq<char>,
    i: int,
    acc: Seq<(int, Seq<Suggestion>)>,
) -> Seq<(int, Seq<Suggestion>)>
    decreases suggs.len() - i,
{
    if i < 0 || i >= suggs.len() {
        acc
    } else {
        let line = line_col_at(content, effective_index(content, sugg_start(suggs[i]))).0;
        let j = find_line_bucket(acc, line);
        let acc2 = if j >= 0 {
            acc.update(j, (acc[j].0, acc[j].1.push(suggs[i])))
        } else {
            acc.push((line, seq![suggs[i]]))
        };
        line_buckets_from(suggs, content, i + 1, acc2)
    }
}

/// The per-line suggestion buckets of one source's suggestions.
pub open spec fn spec_line_buckets(suggs: Seq<Suggestion>, content: Seq<char>) -> Seq<
    (int, Seq<Suggestion>),
> {
    line_buckets_from(suggs, content, 0, Seq::empty())
}

/// The renderings of the per-line buckets from `k` onward, separated by
/// vertical-break rows.
pub open spec fn line_buckets_out(
    cfg: GraphicalRenderer,
    buckets: Seq<(int, Seq<Suggestion>)>,
    k: int,
    padding: int,
    indent: int,
) -> Seq<char>
    decreases buckets.len() - k,
{
    if k < 0 || k >= buckets.len() {
        Seq::empty()
    } else {
        suggestion_line_spec(cfg, buckets[k].0, buckets[k].1, indent) + (if k < buckets.len() - 1 {
            snippet_gutter_spec(
                cfg,
                padding,
                Seq::<char>::empty(),
                cfg.theme.arrows.vertical_break,
                indent,
            ) + seq!['\n']
        } else {
            Seq::<char>::empty()
        }) + line_buckets_out(cfg, buckets, k + 1, padding, indent)
    }
}

/// The rendering of a group of suggestions that share a source: each
/// anchor line's suggestions in turn, separated by break rows.
pub open spec fn suggestion_group_spec(
    cfg: GraphicalRenderer,
    suggs: Seq<Suggestion>,
    padding: int,
    indent: int,
) -> Seq<char> {
    if suggs.len() == 0 {
        Seq::empty()
    } else {
        let content = crate::diagnostic::spec_suggestion_source(suggs[0]).content@;
        line_buckets_out(cfg, spec_line_buckets(suggs, content), 0, padding, indent)
    }
}

/// The index of the first name bucket with the given name view, or `-1`.
pub open spec fn find_sname_bucket(
    acc: Seq<(Option<Seq<char>>, Seq<Suggestion>)>,
    name: Option<Seq<char>>,
) -> int
    decreases acc.len(),
{
    if acc.len() == 0 {
        -1
    } else if acc[0].0 == name {
        0
    } else {
        let rest = find_sname_bucket(acc.drop_first(), name);
        if rest < 0 {
            -1
        } else {
            rest + 1
        }
    }
}

/// The suggestions grouped by the name of their source, in first-seen
/// order of names.
pub open spec fn sugg_buckets_from(
    suggs: Seq<Suggestion>,
    i: int,
    acc: Seq<(Option<Seq<char>>, Seq<Suggestion>)>,
) -> Seq<(Option<Seq<char>>, Seq<Suggestion>)>
    decreases suggs.len() - i,
{
    if i < 0 || i >= suggs.len() {
        acc
    } else {
        let name = name_view(crate::diagnostic::spec_suggestion_source(suggs[i]).name);
        let j = find_sname_bucket(acc, name);
        let acc2 = if j >= 0 {
            acc.update(j, (acc[j].0, acc[j].1.push(suggs[i])))
        } else {
            acc.push((name, seq![suggs[i]]))
        };
        sugg_buckets_from(suggs, i + 1, acc2)
    }
}

/// The per-source suggestion buckets of a help entry's suggestions.
pub open spec fn spec_sugg_buckets(suggs: Seq<Suggestion>) -> Seq<
    (Option<Seq<char>>, Seq<Suggestion>),
> {
    sugg_buckets_from(suggs, 0, Seq::empty())
}

/// The widest gutter among the sources of the first `k` suggestions.
pub open spec fn max_sugg_padding(cfg: GraphicalRenderer, suggs: Seq<Suggestion>, k: int) -> int
    decreases k,
{
    if k <= 0 {
        0
    } else {
        let rest = max_sugg_padding(cfg, suggs, k - 1);
        let p = gutter_size_spec(
            cfg,
            crate::diagnostic::spec_suggestion_source(suggs[k - 1]).content@,
        );
        if p > rest {
            p
        } else {
            rest
        }
    }
}

/// The renderings of the per-source suggestion groups from `k` onward.
pub open spec fn sugg_groups_out(
    cfg: GraphicalRenderer,
    buckets: Seq<(Option<Seq<char>>, Seq<Suggestion>)>,
    k: int,
    padding: int,
    indent: int,
) -> Seq<char>
    decreases buckets.len() - k,
{
    if k < 0 || k >= buckets.len() {
        Seq::empty()
    } else {
        suggestion_group_spec(cfg, buckets[k].1, padding, indent) + sugg_groups_out(
            cfg,
            buckets,
            k + 1,
            padding,
            indent,
        )
    }
}

/// The lines of a help message from line `k` onward: the first under a
/// styled `help:` gutter, continuation lines indented to align under it.
pub open spec fn help_lines_spec(cfg: GraphicalRenderer, msg: Seq<char>, k: int, indent: int) -> Seq<
    char,
>
    decreases lines_of(msg).len() - k,
{
    let hl = lines_of(msg);
    if k < 0 || k >= hl.len() {
        Seq::empty()
    } else {
        indent_spaces(cfg, indent) + (if k == 0 {
            styled_spec(cfg, "   help: "@, cfg.theme.style.help) + msg.subrange(hl[k].0, hl[k].1)
        } else {
            repeat_char(' ', 9) + msg.subrange(hl[k].0, hl[k].1)
        }) + seq!['\n'] + help_lines_spec(cfg, msg, k + 1, indent)
    }
}

/// The rendering of one help entry: its message lines, then its
/// suggestions grouped by source.
#[verifier::opaque]
pub open spec fn help_spec(cfg: GraphicalRenderer, h: crate::diagnostic::Help, indent: int) -> Seq<
    char,
> {
    help_lines_spec(cfg, h.message@, 0, indent) + sugg_groups_out(
        cfg,
        spec_sugg_buckets(h.suggestions@),
        0,
        max_sugg_padding(cfg, h.suggestions@, h.suggestions@.len() as int),
        indent,
    )
}

/// The footer of a diagnostic: each of its help entries in turn.
pub open spec fn footer_spec(cfg: GraphicalRenderer, helps: Vec<crate::diagnostic::Help>, k: int, indent: int) -> Seq<
    char,
>
    decreases helps@.len() - k,
{
    if k < 0 || k >= helps@.len() {
        Seq::empty()
    } else {
        help_spec(cfg, helps@[k], indent) + footer_spec(cfg, helps, k + 1, indent)
    }
}


/// Clones a list of suggestions.
#[verifier::loop_isolation(false)]
pub fn clone_suggestions(v: &Vec<Suggestion>) -> (r: Vec<Suggestion>)
    ensures
        r@ == v@,
{
    let mut out: Vec<Suggestion> = Vec::new();
    let mut i: usize = 0;
    while i < v.len()
        invariant
            i <= v@.len(),
            out@ == v@.take(i as int),
        decreases v@.len() - i,
    {
        out.push(v[i].clone());
        proof {
            assert(v@.take(i as int) + seq![v@[i as int]] =~= v@.take(i + 1));
        }
        i = i + 1;
    }
    proof {
        assert(v@.take(v@.len() as int) =~= v@);
    }
    out
}

/// Clones a list of labels.
#[verifier::loop_isolation(false)]
pub fn clone_labels(v: &Vec<Label>) -> (r: Vec<Label>)
    ensures
        r@ == v@,
{
    let mut out: Vec<Label> = Vec::new();
    let mut i: usize = 0;
    while i < v.len()
        invariant
            i <= v@.len(),
            out@ == v@.take(i as int),
        decreases v@.len() - i,
    {
        out.push(v[i].clone());
        proof {
            assert(v@.take(i as int) + seq![v@[i as int]] =~= v@.take(i + 1));
        }
        i = i + 1;
    }
    proof {
        assert(v@.take(v@.len() as int) =~= v@);
    }
    out
}

proof fn lemma_find_line_correspond(
    es: Seq<(int, int)>,
    bs: Seq<(int, Seq<Suggestion>)>,
    line: int,
)
    requires
        es.len() == bs.len(),
        forall|j: int| 0 <= j < es.len() ==> #[trigger] es[j].0 == bs[j].0,
    ensures
        crate::outside::find_line_key(es, line) == find_line_bucket(bs, line),
    decreases es.len(),
{
    if es.len() > 0 {
        assert(forall|j: int|
            0 <= j < es.drop_first().len() ==> #[trigger] es.drop_first()[j].0 == bs.drop_first(
            )[j].0);
        lemma_find_line_correspond(es.drop_first(), bs.drop_first(), line);
    }
}

proof fn lemma_find_line_bucket_range(bs: Seq<(int, Seq<Suggestion>)>, line: int)
    ensures
        -1 <= find_line_bucket(bs, line) < bs.len(),
    decreases bs.len(),
{
    if bs.len() > 0 && bs[0].0 != line {
        lemma_find_line_bucket_range(bs.drop_first(), line);
    }
}

/// The mathematical form of per-line suggestion buckets held as parallel
/// vectors of keys and values.
pub open spec fn lb_view(keys: Seq<usize>, vals: Seq<Vec<Suggestion>>) -> Seq<
    (int, Seq<Suggestion>),
> {
    Seq::new(keys.len(), |j: int| (keys[j] as int, vals[j]@))
}

impl GraphicalRenderer {
    /// Appends the rendering of a group of suggestions sharing a source:
    /// buckets them by the line their anchor sits on, first-seen order, and
    /// renders each line's suggestions separated by break rows.
    #[verifier::loop_isolation(false)]
    #[verifier::rlimit(100)]
    #[verifier::spinoff_prover]
    pub fn render_suggestion_group(
        &self,
        out: &mut Vec<char>,
        suggs: &Vec<Suggestion>,
        padding: usize,
        indent: usize,
    )
        ensures
            final (out)@ == old(out)@ + suggestion_group_spec(
                *self,
                suggs@,
                padding as int,
                indent as int,
            ),
    {
        let n = suggs.len();
        if n == 0 {
            proof {
                assert(final (out)@ =~= old(out)@ + suggestion_group_spec(
                    *self,
                    suggs@,
                    padding as int,
                    indent as int,
                ));
            }
            return ;
        }
        let source = suggs[0].source();
        let ghost content = source.content@;
        let mut keys: Vec<usize> = Vec::new();
        let mut vals: Vec<Vec<Suggestion>> = Vec::new();
        let mut map = crate::outside::line_map_new();
        let mut i: usize = 0;
        proof {
            assert(lb_view(keys@, vals@) =~= Seq::<(int, Seq<Suggestion>)>::empty());
        }
        while i < n
            invariant
                i <= n,
                n == suggs@.len(),
                keys@.len() == vals@.len(),
                source.content@ == content,
                crate::outside::line_map_entries(map).len() == keys@.len(),
                forall|j: int|
                    0 <= j < keys@.len() ==> #[trigger] crate::outside::line_map_entries(map)[j]
                        == (keys@[j] as int, j),
                spec_line_buckets(suggs@, content) == line_buckets_from(
                    suggs@,
                    content,
                    i as int,
                    lb_view(keys@, vals@),
                ),
            decreases n - i,
        {
            let start: usize = match &suggs[i] {
                Suggestion::Deletion { range } => range.span.start,
                Suggestion::Insertion { location, .. } => location.offset,
                Suggestion::Replacement { range, .. } => range.span.start,
            };
            let coord = crate::span::coords_of_idx(source.content.as_str(), start);
            let line = coord.line;
            proof {
                assert(line as int == line_col_at(
                    content,
                    effective_index(content, sugg_start(suggs@[i as int])),
                ).0);
                assert(forall|j: int|
                    0 <= j < crate::outside::line_map_entries(map).len()
                        ==> #[trigger] crate::outside::line_map_entries(map)[j].0 == lb_view(
                        keys@,
                        vals@,
                    )[j].0);
                lemma_find_line_correspond(
                    crate::outside::line_map_entries(map),
                    lb_view(keys@, vals@),
                    line as int,
                );
                lemma_find_line_bucket_range(lb_view(keys@, vals@), line as int);
            }
            let found = crate::outside::line_map_get(&map, &line);
            match found {
                Some(bi) => {
                    proof {
                        assert(crate::outside::line_map_entries(map)[find_line_bucket(
                            lb_view(keys@, vals@),
                            line as int,
                        )].1 == bi as int);
                        assert(find_line_bucket(lb_view(keys@, vals@), line as int) == bi as int);
                        assert(bi < vals@.len());
                    }
                    let ghost bv0 = lb_view(keys@, vals@);
                    let mut b = vals.remove(bi);
                    b.push(suggs[i].clone());
                    vals.insert(bi, b);
                    proof {
                        assert(lb_view(keys@, vals@) =~= bv0.update(
                            bi as int,
                            (bv0[bi as int].0, bv0[bi as int].1.push(suggs@[i as int])),
                        ));
                    }
                },
                None => {
                    let ghost bv0 = lb_view(keys@, vals@);
                    let mut b: Vec<Suggestion> = Vec::new();
                    b.push(suggs[i].clone());
                    let new_idx = keys.len();
                    keys.push(line);
                    vals.push(b);
                    let prior = crate::outside::line_map_insert(&mut map, line, new_idx);
                    proof {
                        assert(lb_view(keys@, vals@) =~= bv0.push(
                            (line as int, seq![suggs@[i as int]]),
                        ));
                    }
                },
            }
            i = i + 1;
        }
        proof {
            assert(line_buckets_from(suggs@, content, n as int, lb_view(keys@, vals@))
                == lb_view(keys@, vals@));
        }

        let m = keys.len();
        let ghost buckets = lb_view(keys@, vals@);
        let ghost mid = out@;
        let mut k: usize = 0;
        while k < m
            invariant
                k <= m,
                m == keys@.len(),
                m == vals@.len(),
                lb_view(keys@, vals@) == buckets,
                mid + line_buckets_out(
                    *self,
                    buckets,
                    0,
                    padding as int,
                    indent as int,
                ) == out@ + line_buckets_out(
                    *self,
                    buckets,
                    k as int,
                    padding as int,
                    indent as int,
                ),
            decreases m - k,
        {
            let bucket = clone_suggestions(&vals[k]);
            proof {
                assert(buckets[k as int] == (keys@[k as int] as int, vals@[k as int]@));
            }
            self.render_suggestion_line(out, keys[k], bucket, indent);
            if k < m - 1 {
                self.push_breakln(out, padding, indent);
            }
            proof {
                assert(mid + line_buckets_out(
                    *self,
                    buckets,
                    0,
                    padding as int,
                    indent as int,
                ) =~= out@ + line_buckets_out(
                    *self,
                    buckets,
                    k + 1,
                    padding as int,
                    indent as int,
                ));
            }
            k = k + 1;
        }
        proof {
            assert(line_buckets_out(
                *self,
                buckets,
                m as int,
                padding as int,
                indent as int,
            ) =~= Seq::<char>::empty());
            assert(final (out)@ =~= old(out)@ + suggestion_group_spec(
                *self,
                suggs@,
                padding as int,
                indent as int,
            ));
        }
    }
}


proof fn lemma_name_dv(a: Option<String>)
    ensures
        a.deep_view() == name_view(a),
{
    match a {
        Some(x) => {
            assert(a.deep_view() =~= Some(x@));
        },
        None => {
            assert(a.deep_view() =~= None::<Seq<char>>);
        },
    }
}

proof fn lemma_find_sname_correspond(
    es: Seq<(Option<Seq<char>>, int)>,
    bs: Seq<(Option<Seq<char>>, Seq<Suggestion>)>,
    name: Option<String>,
)
    requires
        es.len() == bs.len(),
        forall|j: int| 0 <= j < es.len() ==> #[trigger] es[j].0 == bs[j].0,
    ensures
        crate::outside::find_name_key(es, name.deep_view()) == find_sname_bucket(
            bs,
            name_view(name),
        ),
    decreases es.len(),
{
    lemma_name_dv(name);
    if es.len() > 0 {
        assert(forall|j: int|
            0 <= j < es.drop_first().len() ==> #[trigger] es.drop_first()[j].0 == bs.drop_first(
            )[j].0);
        lemma_find_sname_correspond(es.drop_first(), bs.drop_first(), name);
    }
}

proof fn lemma_find_sname_bucket_range(
    bs: Seq<(Option<Seq<char>>, Seq<Suggestion>)>,
    name: Option<Seq<char>>,
)
    ensures
        -1 <= find_sname_bucket(bs, name) < bs.len(),
    decreases bs.len(),
{
    if bs.len() > 0 && bs[0].0 != name {
        lemma_find_sname_bucket_range(bs.drop_first(), name);
    }
}

/// The mathematical form of per-source suggestion buckets held as parallel
/// vectors of name keys and values.
pub open spec fn sb_view(keys: Seq<Option<String>>, vals: Seq<Vec<Suggestion>>) -> Seq<
    (Option<Seq<char>>, Seq<Suggestion>),
> {
    Seq::new(keys.len(), |j: int| (name_view(keys[j]), vals[j]@))
}

impl GraphicalRenderer {
    /// Appends the rendering of one help entry: its message lines aligned
    /// under the `help:` gutter, then its suggestions grouped by source.
    #[verifier::loop_isolation(false)]
    #[verifier::rlimit(100)]
    #[verifier::spinoff_prover]
    pub fn render_help(&self, out: &mut Vec<char>, help: &crate::diagnostic::Help, indent: usize)
        ensures
            final (out)@ == old(out)@ + help_spec(*self, *help, indent as int),
    {
        proof {
            reveal(help_spec);
        }
        let mchars = crate::span::chars_of(help.message.as_str());
        let mspans = crate::span::line_spans_of(&mchars);
        let ghost msg = help.message@;
        let nl = mspans.len();
        proof {
            assert(crate::span::pairs_of(mspans@).len() == mspans@.len());
            crate::span::lemma_lines_ordered(msg);
        }
        let ghost start0 = out@;
        let mut k: usize = 0;
        while k < nl
            invariant
                k <= nl,
                nl == lines_of(msg).len(),
                nl == mspans@.len(),
                crate::span::pairs_of(mspans@) == lines_of(msg),
                mchars@ == msg,
                start0 + help_lines_spec(*self, msg, 0, indent as int) == out@ + help_lines_spec(
                    *self,
                    msg,
                    k as int,
                    indent as int,
                ),
            decreases nl - k,
        {
            proof {
                crate::span::lemma_pairs_index(mspans@, k as int);
            }
            self.push_indent(out, indent);
            if k == 0 {
                let mut gut: Vec<char> = Vec::new();
                push_str_chars(&mut gut, "   help: ");
                self.push_styled(out, &gut, self.theme.style.help);
                proof {
                    assert(gut@ =~= "   help: "@);
                }
            } else {
                push_repeat(out, ' ', 9);
            }
            let line_text = crate::text::copy_range(&mchars, mspans[k].0, mspans[k].1);
            push_chars(out, &line_text);
            out.push('\n');
            proof {
                assert(start0 + help_lines_spec(*self, msg, 0, indent as int) =~= out@
                    + help_lines_spec(*self, msg, k + 1, indent as int));
            }
            k = k + 1;
        }
        proof {
            assert(help_lines_spec(*self, msg, nl as int, indent as int) =~= Seq::<char>::empty());
        }

        let ns = help.suggestions.len();
        let mut padding: usize = 0;
        let mut pi: usize = 0;
        while pi < ns
            invariant
                pi <= ns,
                ns == help.suggestions@.len(),
                padding as int == max_sugg_padding(*self, help.suggestions@, pi as int),
            decreases ns - pi,
        {
            let src = help.suggestions[pi].source();
            let p = self.gutter_size_of(src.content.as_str());
            if p > padding {
                padding = p;
            }
            pi = pi + 1;
        }

        let mut keys: Vec<Option<String>> = Vec::new();
        let mut vals: Vec<Vec<Suggestion>> = Vec::new();
        let mut map = crate::outside::name_map_new();
        let mut i: usize = 0;
        proof {
            assert(sb_view(keys@, vals@) =~= Seq::<(Option<Seq<char>>, Seq<Suggestion>)>::empty());
        }
        while i < ns
            invariant
                i <= ns,
                ns == help.suggestions@.len(),
                keys@.len() == vals@.len(),
                crate::outside::name_map_entries(map).len() == keys@.len(),
                forall|j: int|
                    0 <= j < keys@.len() ==> #[trigger] crate::outside::name_map_entries(map)[j]
                        == (keys@[j].deep_view(), j),
                spec_sugg_buckets(help.suggestions@) == sugg_buckets_from(
                    help.suggestions@,
                    i as int,
                    sb_view(keys@, vals@),
                ),
            decreases ns - i,
        {
            let src = help.suggestions[i].source();
            proof {
                assert(src.name == crate::diagnostic::spec_suggestion_source(
                    help.suggestions@[i as int],
                ).name);
                assert forall|j: int| 0 <= j < crate::outside::name_map_entries(map).len()
                    implies #[trigger] crate::outside::name_map_entries(map)[j].0 == sb_view(
                    keys@,
                    vals@,
                )[j].0 by {
                    lemma_name_dv(keys@[j]);
                }
                lemma_find_sname_correspond(
                    crate::outside::name_map_entries(map),
                    sb_view(keys@, vals@),
                    src.name,
                );
                lemma_find_sname_bucket_range(sb_view(keys@, vals@), name_view(src.name));
            }
            let found = crate::outside::name_map_get(&map, &src.name);
            match found {
                Some(bi) => {
                    proof {
                        assert(crate::outside::name_map_entries(map)[find_sname_bucket(
                            sb_view(keys@, vals@),
                            name_view(src.name),
                        )].1 == bi as int);
                        assert(find_sname_bucket(sb_view(keys@, vals@), name_view(src.name))
                            == bi as int);
                        assert(bi < vals@.len());
                    }
                    let ghost bv0 = sb_view(keys@, vals@);
                    let mut b = vals.remove(bi);
                    b.push(help.suggestions[i].clone());
                    vals.insert(bi, b);
                    proof {
                        assert(sb_view(keys@, vals@) =~= bv0.update(
                            bi as int,
                            (
                                bv0[bi as int].0,
                                bv0[bi as int].1.push(help.suggestions@[i as int]),
                            ),
                        ));
                    }
                },
                None => {
                    let ghost bv0 = sb_view(keys@, vals@);
                    let key: Option<String> = match &src.name {
                        Some(nm) => Some(nm.clone()),
                        None => None,
                    };
                    let mut b: Vec<Suggestion> = Vec::new();
                    b.push(help.suggestions[i].clone());
                    let new_idx = keys.len();
                    let key2: Option<String> = match &key {
                        Some(nm) => Some(nm.clone()),
                        None => None,
                    };
                    keys.push(key);
                    vals.push(b);
                    let prior = crate::outside::name_map_insert(&mut map, key2, new_idx);
                    proof {
                        lemma_name_dv(src.name);
                        assert(sb_view(keys@, vals@) =~= bv0.push(
                            (name_view(src.name), seq![help.suggestions@[i as int]]),
                        ));
                    }
                },
            }
            i = i + 1;
        }
        proof {
            assert(sugg_buckets_from(help.suggestions@, ns as int, sb_view(keys@, vals@))
                == sb_view(keys@, vals@));
        }

        let m = keys.len();
        let ghost buckets = sb_view(keys@, vals@);
        let ghost mid = out@;
        let mut g: usize = 0;
        while g < m
            invariant
                g <= m,
                m == keys@.len(),
                m == vals@.len(),
                sb_view(keys@, vals@) == buckets,
                mid + sugg_groups_out(
                    *self,
                    buckets,
                    0,
                    padding as int,
                    indent as int,
                ) == out@ + sugg_groups_out(
                    *self,
                    buckets,
                    g as int,
                    padding as int,
                    indent as int,
                ),
            decreases m - g,
        {
            proof {
                assert(buckets[g as int] == (name_view(keys@[g as int]), vals@[g as int]@));
            }
            self.render_suggestion_group(out, &vals[g], padding, indent);
            proof {
                assert(mid + sugg_groups_out(
                    *self,
                    buckets,
                    0,
                    padding as int,
                    indent as int,
                ) =~= out@ + sugg_groups_out(
                    *self,
                    buckets,
                    g + 1,
                    padding as int,
                    indent as int,
                ));
            }
            g = g + 1;
        }
        proof {
            assert(sugg_groups_out(
                *self,
                buckets,
                m as int,
                padding as int,
                indent as int,
            ) =~= Seq::<char>::empty());
            assert(final (out)@ =~= old(out)@ + help_spec(*self, *help, indent as int));
        }
    }

    /// Appends the footer of a diagnostic: each help entry in turn.
    #[verifier::loop_isolation(false)]
    pub fn push_footer(&self, out: &mut Vec<char>, d: &SimpleDiagnostic, indent: usize)
        ensures
            final (out)@ == old(out)@ + footer_spec(*self, d.help, 0, indent as int),
    {
        let n = d.help.len();
        let ghost mid = out@;
        let mut i: usize = 0;
        while i < n
            invariant
                i <= n,
                n == d.help@.len(),
                mid + footer_spec(*self, d.help, 0, indent as int) == out@ + footer_spec(
                    *self,
                    d.help,
                    i as int,
                    indent as int,
                ),
            decreases n - i,
        {
            self.render_help(out, &d.help[i], indent);
            proof {
                assert(mid + footer_spec(*self, d.help, 0, indent as int) =~= out@ + footer_spec(
                    *self,
                    d.help,
                    i + 1,
                    indent as int,
                ));
            }
            i = i + 1;
        }
        proof {
            assert(footer_spec(*self, d.help, n as int, indent as int) =~= Seq::<char>::empty());
        }
    }
}


/// The renderings of the label groups from `k` onward.
pub open spec fn lgroups_out(
    cfg: GraphicalRenderer,
    buckets: Seq<(Source, Seq<Label>)>,
    k: int,
    sev: Severity,
    indent: int,
) -> Seq<char>
    decreases buckets.len() - k,
{
    if k < 0 || k >= buckets.len() {
        Seq::empty()
    } else {
        label_group_spec(cfg, buckets[k].1, buckets[k].0, sev, indent) + lgroups_out(
            cfg,
            buckets,
            k + 1,
            sev,
            indent,
        )
    }
}

/// The labels block of a diagnostic: its labels bucketed by source name,
/// each bucket rendered as one snippet.
pub open spec fn labels_block_spec(cfg: GraphicalRenderer, d: SimpleDiagnostic, indent: int) -> Seq<
    char,
> {
    match d.labels {
        None => Seq::empty(),
        Some(ls) => lgroups_out(cfg, spec_buckets(ls@, d.source), 0, d.severity, indent),
    }
}

/// The full rendering of a diagnostic at the given indentation: its
/// header; each cause, rendered one level deeper and followed by a blank
/// line; its labels, bucketed by source into snippets; each related
/// diagnostic, also one level deeper; and its help footer.
pub open spec fn render_diag_spec(cfg: GraphicalRenderer, d: SimpleDiagnostic, indent: int) -> Seq<
    char,
>
    decreases d, 1int, 0int,
{
    header_spec(cfg, d, indent) + diag_list_spec(cfg, d.causes, 0, sat_add_spec(indent, 1), cfg)
        + labels_block_spec(cfg, d, indent) + diag_list_spec(
        cfg,
        d.related,
        0,
        sat_add_spec(indent, 1),
        cfg,
    ) + footer_spec(cfg, d.help, 0, indent)
}

/// The renderings of a list of nested diagnostics from index `k` onward,
/// each followed by a blank line.
pub open spec fn diag_list_spec(
    cfg: GraphicalRenderer,
    list: Vec<SimpleDiagnostic>,
    k: int,
    indent: int,
    cfg2: GraphicalRenderer,
) -> Seq<char>
    decreases list, 0int, list@.len() - k,
{
    if k < 0 || k >= list@.len() {
        Seq::empty()
    } else {
        render_diag_spec(cfg, list@[k], indent) + seq!['\n'] + diag_list_spec(
            cfg,
            list,
            k + 1,
            indent,
            cfg2,
        )
    }
}

impl GraphicalRenderer {
    /// Appends the full rendering of a diagnostic: header, causes one level
    /// deeper, label snippets, related diagnostics one level deeper, and
    /// the help footer.
    #[verifier::loop_isolation(false)]
    #[verifier::rlimit(100)]
    #[verifier::spinoff_prover]
    pub fn render_diagnostic(&self, out: &mut Vec<char>, d: &SimpleDiagnostic, indent: usize)
        ensures
            final (out)@ == old(out)@ + render_diag_spec(*self, *d, indent as int),
        decreases *d,
    {
        self.push_header(out, d, indent);

        let deeper = sat_add(indent, 1);
        let nc = d.causes.len();
        let ghost mid1 = out@;
        let mut i: usize = 0;
        while i < nc
            invariant
                i <= nc,
                nc == d.causes@.len(),
                mid1 + diag_list_spec(*self, d.causes, 0, deeper as int, *self) == out@
                    + diag_list_spec(*self, d.causes, i as int, deeper as int, *self),
            decreases nc - i,
        {
            self.render_diagnostic(out, &d.causes[i], deeper);
            out.push('\n');
            proof {
                assert(mid1 + diag_list_spec(*self, d.causes, 0, deeper as int, *self) =~= out@
                    + diag_list_spec(*self, d.causes, i + 1, deeper as int, *self));
            }
            i = i + 1;
        }
        proof {
            assert(diag_list_spec(*self, d.causes, nc as int, deeper as int, *self) =~= Seq::<
                char,
            >::empty());
        }

        match &d.labels {
            None => {
            },
            Some(ls) => {
                let owned = clone_labels(ls);
                let groups = build_label_groups(owned, &d.source);
                let ng = groups.len();
                let ghost buckets = groups_view(groups@);
                let ghost mid2 = out@;
                let mut g: usize = 0;
                while g < ng
                    invariant
                        g <= ng,
                        ng == groups@.len(),
                        groups_view(groups@) == buckets,
                        mid2 + lgroups_out(
                            *self,
                            buckets,
                            0,
                            d.severity,
                            indent as int,
                        ) == out@ + lgroups_out(
                            *self,
                            buckets,
                            g as int,
                            d.severity,
                            indent as int,
                        ),
                    decreases ng - g,
                {
                    proof {
                        assert(buckets[g as int] == (
                            groups@[g as int].source,
                            groups@[g as int].labels@,
                        ));
                    }
                    self.render_label_group_ref(out, &groups[g], d.severity, indent);
                    proof {
                        assert(mid2 + lgroups_out(
                            *self,
                            buckets,
                            0,
                            d.severity,
                            indent as int,
                        ) =~= out@ + lgroups_out(
                            *self,
                            buckets,
                            g + 1,
                            d.severity,
                            indent as int,
                        ));
                    }
                    g = g + 1;
                }
                proof {
                    assert(lgroups_out(
                        *self,
                        buckets,
                        ng as int,
                        d.severity,
                        indent as int,
                    ) =~= Seq::<char>::empty());
                }
            },
        }

        let nr = d.related.len();
        let ghost mid3 = out@;
        let mut r: usize = 0;
        while r < nr
            invariant
                r <= nr,
                nr == d.related@.len(),
                mid3 + diag_list_spec(*self, d.related, 0, deeper as int, *self) == out@
                    + diag_list_spec(*self, d.related, r as int, deeper as int, *self),
            decreases nr - r,
        {
            self.render_diagnostic(out, &d.related[r], deeper);
            out.push('\n');
            proof {
                assert(mid3 + diag_list_spec(*self, d.related, 0, deeper as int, *self) =~= out@
                    + diag_list_spec(*self, d.related, r + 1, deeper as int, *self));
            }
            r = r + 1;
        }
        proof {
            assert(diag_list_spec(*self, d.related, nr as int, deeper as int, *self) =~= Seq::<
                char,
            >::empty());
        }

        self.push_footer(out, d, indent);
        proof {
            assert(final (out)@ =~= old(out)@ + render_diag_spec(*self, *d, indent as int));
        }
    }

    /// Appends the rendering of one label group, borrowed.
    pub fn render_label_group_ref(
        &self,
        out: &mut Vec<char>,
        group: &crate::group::LabelGroup,
        severity: Severity,
        indent: usize,
    )
        ensures
            final (out)@ == old(out)@ + label_group_spec(
                *self,
                group.labels@,
                group.source,
                severity,
                indent as int,
            ),
    {
        let owned = crate::group::LabelGroup {
            labels: clone_labels(&group.labels),
            source: group.source.clone(),
        };
        self.render_label_group(out, owned, severity, indent);
    }

    /// Renders the diagnostic to a string.
    pub fn render(&mut self, diagnostic: &SimpleDiagnostic) -> (r: Result<
        String,
        crate::render::RenderError,
    >)
        ensures
            r matches Ok(s) && s@ == render_diag_spec(*old(self), *diagnostic, 0),
            *final (self) == *old(self),
    {
        let mut out: Vec<char> = Vec::new();
        let me = *self;
        me.render_diagnostic(&mut out, diagnostic, 0);
        proof {
            assert(Seq::<char>::empty() + render_diag_spec(me, *diagnostic, 0)
                =~= render_diag_spec(me, *diagnostic, 0));
        }
        Ok(crate::outside::string_from_chars(&out))
    }
}

/// The error a renderer reports when its output sink fails. Rendering to
/// an in-memory string never fails.
#[derive(Debug, Clone, Copy, PartialEq, Eq, Structural)]
pub struct RenderError;

/// Law: rendering is deterministic. The output is a function of the
/// renderer's configuration and the diagnostic alone, so rendering the
/// same diagnostic twice — with colors off or on — produces identical
/// text.
pub proof fn lemma_render_deterministic(
    cfg: GraphicalRenderer,
    d: SimpleDiagnostic,
    r1: Seq<char>,
    r2: Seq<char>,
)
    requires
        r1 == render_diag_spec(cfg, d, 0),
        r2 == render_diag_spec(cfg, d, 0),
    ensures
        r1 == r2,
{
}


proof fn lemma_arrow_reps_plain(cfg: GraphicalRenderer, count: int, st: TextStyle)
    requires
        !cfg.use_colors,
    ensures
        arrow_reps(cfg, count, st) == repeat_char(cfg.theme.arrows.arrow_up, count),
    decreases count,
{
    if count <= 0 {
        assert(arrow_reps(cfg, count, st) =~= repeat_char(cfg.theme.arrows.arrow_up, count));
    } else {
        lemma_arrow_reps_plain(cfg, count - 1, st);
        assert(arrow_reps(cfg, count, st) =~= repeat_char(cfg.theme.arrows.arrow_up, count));
    }
}

/// Law: with colors off, the marker row drawn for a single suggestion is
/// its leading spacing followed by exactly one arrow glyph per character of
/// its edit — the length of the inserted or replacement literal, or of the
/// deleted span — never the length of the replaced range.
pub proof fn lemma_single_suggestion_markers(
    cfg: GraphicalRenderer,
    s: Suggestion,
    content: Seq<char>,
)
    requires
        !cfg.use_colors,
    ensures
        ({
            let spr = crate::diagnostic::spec_suggestion_span(s);
            let sp = spec_span_at(content, spr.0, spr.1);
            arrows_fold(cfg, seq![s], 0, 0, content) == repeat_char(' ', sp.start.column as int)
                + repeat_char(cfg.theme.arrows.arrow_up, sugg_arrow_count(s))
        }),
        s matches Suggestion::Replacement { replacement, .. } ==> sugg_arrow_count(s)
            == replacement@.len(),
{
    let labels = seq![s];
    assert(labels[0] == s);
    let spr = crate::diagnostic::spec_suggestion_span(s);
    let sp = spec_span_at(content, spr.0, spr.1);
    crate::span::lemma_line_col_bounds(content, effective_index(content, spr.0));
    lemma_arrow_reps_plain(cfg, sugg_arrow_count(s), sugg_style(cfg, s));
    assert(arrows_fold(cfg, labels, 1, sp.end.column as int, content) =~= Seq::<char>::empty());
    assert(arrows_fold(cfg, labels, 0, 0, content) =~= repeat_char(' ', sp.start.column as int)
        + repeat_char(cfg.theme.arrows.arrow_up, sugg_arrow_count(s)));
}

/// Law: with colors off, the underline row drawn for a single label on its
/// line is one caret per column of its span — the span's width in columns —
/// followed by a space and the label's message, on the same row.
pub proof fn lemma_single_label_underline(
    cfg: GraphicalRenderer,
    l: Label,
    sp: Span,
    sev: Severity,
)
    requires
        !cfg.use_colors,
        sp.start.column <= sp.end.column,
    ensures
        ({
            let labels = seq![(l, sp)];
            let init = (
                repeat_char(' ', max_end_col(labels)),
                Seq::new(
                    repeat_char(' ', max_end_col(labels)).len(),
                    |i: int| crate::styled::spec_plain_style(),
                ),
            );
            let row = underline_after(labels, 1, true, sev, cfg, init);
            styled_render_spec(row.0, row.1, cfg.use_colors) == repeat_char(
                ' ',
                sp.start.column as int,
            ) + repeat_char(
                cfg.theme.arrows.arrow_up,
                sp.end.column - sp.start.column,
            ) + seq![' '] + l.message@
        }),
{
    let labels = seq![(l, sp)];
    assert(labels[0] == (l, sp));
    assert(labels.drop_last() =~= Seq::<(Label, Span)>::empty());
    assert(max_end_col(labels.drop_last()) == 0);
    assert(max_end_col(labels) == sp.end.column as int);
    let ulen = max_end_col(labels);
    let init = (
        repeat_char(' ', ulen),
        Seq::new(repeat_char(' ', ulen).len(), |i: int| crate::styled::spec_plain_style()),
    );
    let cols = crate::span::spec_columns(sp);
    assert(cols == (sp.start.column as int, sp.end.column as int));
    let row = underline_after(labels, 1, true, sev, cfg, init);
    assert(underline_after(labels, 0, true, sev, cfg, init) == init);
    assert(row == underline_step(init, (l, sp), true, sev, cfg));
    assert(underline_cols(init.0, cols, true, cfg.theme.arrows) =~= repeat_char(
        ' ',
        sp.start.column as int,
    ) + repeat_char(cfg.theme.arrows.arrow_up, sp.end.column - sp.start.column));
    assert(styled_render_spec(row.0, row.1, cfg.use_colors) =~= repeat_char(
        ' ',
        sp.start.column as int,
    ) + repeat_char(cfg.theme.arrows.arrow_up, sp.end.column - sp.start.column) + seq![' ']
        + l.message@);
}

} // verus!
