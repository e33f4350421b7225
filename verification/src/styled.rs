//! A per-character style overlay: a text buffer paired one-to-one with a
//! style tag for each character, restylable in arbitrary sub-ranges before
//! the final emit.

use vstd::prelude::*;

use crate::outside::{paint, painted_of, string_from_chars};
use crate::span::SpanRange;
use crate::text::push_str_chars;
use crate::theme::{color_code, ColorSpec, TextStyle};

verus! {

/// The style of unstyled text: no color, no bold weight.
pub open spec fn spec_plain_style() -> TextStyle {
    TextStyle { color: ColorSpec::NoColor, bold: false }
}

/// The style of unstyled text.
pub fn plain_style() -> (r: TextStyle)
    ensures
        r == spec_plain_style(),
{
    TextStyle { color: ColorSpec::NoColor, bold: false }
}

/// A text span where each character carries its own style.
#[derive(Debug)]
pub struct StyledText {
    /// The characters of the text.
    pub text: Vec<char>,
    /// The style of each character, one per character.
    pub styles: Vec<TextStyle>,
}

impl StyledText {
    /// Whether the overlay is well formed: one style per character.
    pub open spec fn wf(&self) -> bool {
        self.text@.len() == self.styles@.len()
    }

    /// Creates an overlay over the given text with every character
    /// unstyled.
    #[verifier::loop_isolation(false)]
    pub fn new(text: Vec<char>) -> (r: StyledText)
        ensures
            r.wf(),
            r.text == text,
            r.styles@ == Seq::new(text@.len(), |i: int| spec_plain_style()),
    {
        let n = text.len();
        let mut styles: Vec<TextStyle> = Vec::new();
        let mut i: usize = 0;
        while i < n
            invariant
                i <= n,
                styles@ == Seq::new(i as nat, |j: int| spec_plain_style()),
            decreases n - i,
        {
            styles.push(plain_style());
            proof {
                assert(styles@ =~= Seq::new((i + 1) as nat, |j: int| spec_plain_style()));
            }
            i = i + 1;
        }
        StyledText { text, styles }
    }

    /// Appends the given text, every appended character in the given style.
    #[verifier::loop_isolation(false)]
    pub fn append(&mut self, s: &Vec<char>, style: TextStyle)
        requires
            old(self).wf(),
        ensures
            final (self).wf(),
            final (self).text@ == old(self).text@ + s@,
            final (self).styles@ == old(self).styles@ + Seq::new(s@.len(), |i: int| style),
    {
        let n = s.len();
        let mut i: usize = 0;
        while i < n
            invariant
                i <= n,
                self.text@ == old(self).text@ + s@.take(i as int),
                self.styles@ == old(self).styles@ + Seq::new(i as nat, |j: int| style),
            decreases n - i,
        {
            self.text.push(s[i]);
            self.styles.push(style);
            proof {
                assert(old(self).text@ + s@.take(i as int) + seq![s@[i as int]] =~= old(
                    self,
                ).text@ + s@.take(i + 1));
                assert(old(self).styles@ + Seq::new(i as nat, |j: int| style) + seq![style]
                    =~= old(self).styles@ + Seq::new((i + 1) as nat, |j: int| style));
            }
            i = i + 1;
        }
        proof {
            assert(s@.take(n as int) =~= s@);
        }
    }

    /// Applies a style to a span of characters; positions past the end of
    /// the text are ignored.
    #[verifier::loop_isolation(false)]
    pub fn style_span(&mut self, span: SpanRange, style: TextStyle)
        requires
            old(self).wf(),
        ensures
            final (self).wf(),
            final (self).text == old(self).text,
            final (self).styles@ == Seq::new(
                old(self).styles@.len(),
                |i: int|
                    if span.start <= i < span.end {
                        style
                    } else {
                        old(self).styles@[i]
                    },
            ),
    {
        let n = self.styles.len();
        let mut i: usize = span.start;
        if i >= n || span.start >= span.end {
            proof {
                assert(Seq::new(
                    old(self).styles@.len(),
                    |j: int|
                        if span.start <= j < span.end {
                            style
                        } else {
                            old(self).styles@[j]
                        },
                ) =~= old(self).styles@);
            }
            return ;
        }
        while i < n && i < span.end
            invariant
                span.start <= i <= n,
                n == old(self).styles@.len(),
                self.text == old(self).text,
                self.styles@ == Seq::new(
                    old(self).styles@.len(),
                    |j: int|
                        if span.start <= j < i && j < span.end {
                            style
                        } else {
                            old(self).styles@[j]
                        },
                ),
            decreases n - i,
        {
            if i < span.end {
                self.styles[i] = style;
            }
            proof {
                assert(self.styles@ =~= Seq::new(
                    old(self).styles@.len(),
                    |j: int|
                        if span.start <= j < i + 1 && j < span.end {
                            style
                        } else {
                            old(self).styles@[j]
                        },
                ));
            }
            i = i + 1;
        }
        proof {
            assert(self.styles@ =~= Seq::new(
                old(self).styles@.len(),
                |j: int|
                    if span.start <= j < span.end {
                        style
                    } else {
                        old(self).styles@[j]
                    },
            ));
        }
    }
}

/// The text an overlay renders to: the characters themselves when colors
/// are off, or each character painted in its own style when colors are on.
pub open spec fn styled_render_spec(text: Seq<char>, styles: Seq<TextStyle>, use_colors: bool) -> Seq<
    char,
>
    decreases text.len(),
{
    if !use_colors {
        text
    } else if text.len() == 0 {
        Seq::empty()
    } else {
        painted_of(seq![text[0]], color_code(styles[0].color), styles[0].bold)
            + styled_render_spec(text.drop_first(), styles.drop_first(), use_colors)
    }
}

impl StyledText {
    /// Renders the overlay: the plain characters when colors are off, or
    /// each character painted in its own style when colors are on.
    #[verifier::loop_isolation(false)]
    pub fn render(&self, use_colors: bool) -> (r: Vec<char>)
        requires
            self.wf(),
        ensures
            r@ == styled_render_spec(self.text@, self.styles@, use_colors),
    {
        if !use_colors {
            return vstd::slice::slice_to_vec(self.text.as_slice());
        }
        let n = self.text.len();
        let mut out: Vec<char> = Vec::new();
        let mut i: usize = 0;
        proof {
            assert(self.text@.skip(0) =~= self.text@);
            assert(self.styles@.skip(0) =~= self.styles@);
        }
        while i < n
            invariant
                i <= n,
                styled_render_spec(self.text@, self.styles@, true) == out@ + styled_render_spec(
                    self.text@.skip(i as int),
                    self.styles@.skip(i as int),
                    true,
                ),
            decreases n - i,
        {
            let mut one: Vec<char> = Vec::new();
            one.push(self.text[i]);
            let single = string_from_chars(&one);
            let painted = paint(single.as_str(), self.styles[i]);
            let ghost prev = out@;
            push_str_chars(&mut out, painted.as_str());
            proof {
                let rest_t = self.text@.skip(i as int);
                let rest_s = self.styles@.skip(i as int);
                assert(one@ =~= seq![self.text@[i as int]]);
                assert(rest_t[0] == self.text@[i as int]);
                assert(rest_s[0] == self.styles@[i as int]);
                assert(rest_t.drop_first() =~= self.text@.skip(i + 1));
                assert(rest_s.drop_first() =~= self.styles@.skip(i + 1));
                assert(styled_render_spec(rest_t, rest_s, true) == painted@ + styled_render_spec(
                    self.text@.skip(i + 1),
                    self.styles@.skip(i + 1),
                    true,
                ));
                assert(prev + styled_render_spec(rest_t, rest_s, true) =~= out@
                    + styled_render_spec(self.text@.skip(i + 1), self.styles@.skip(i + 1), true));
            }
            i = i + 1;
        }
        proof {
            assert(self.text@.skip(n as int).len() == 0);
            assert(out@ =~= styled_render_spec(self.text@, self.styles@, true));
        }
        out
    }
}

} // verus!
