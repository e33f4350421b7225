//! Handlers: stores of reported diagnostics which render them all when
//! drained.

use vstd::prelude::*;

use crate::diagnostic::{Severity, SimpleDiagnostic};
use crate::render::RenderError;

verus! {

/// An error which can occur when draining diagnostics from a handler.
#[derive(Debug)]
pub enum DrainError {
    /// Writing a rendered diagnostic to the output failed.
    Fmt(RenderError),
    /// One or more errors were reported during the drain and the handler is
    /// set to halt on errors; carries how many errors were drained, not
    /// counting warnings or nested diagnostics.
    CompoundError(usize),
}

/// Renders diagnostics to text. `GraphicalRenderer` is the library's
/// renderer; other implementations can substitute their own rendering.
pub trait Renderer: Sized {
    /// Whether this renderer pins its output: rendering always succeeds,
    /// leaves the renderer unchanged, and returns exactly `rendered`.
    /// Unless an implementation says otherwise, nothing is pinned.
    open spec fn obeys_render_spec(&self) -> bool {
        false
    }

    /// The text this renderer produces for a diagnostic, where the
    /// implementation pins it.
    open spec fn rendered(&self, diagnostic: SimpleDiagnostic) -> Seq<char> {
        Seq::empty()
    }

    /// Renders the diagnostic to a string.
    fn render_diag(&mut self, diagnostic: &SimpleDiagnostic) -> (r: Result<String, RenderError>)
        ensures
            old(self).obeys_render_spec() ==> *final (self) == *old(self) && (r matches Ok(s)
                && s@ == old(self).rendered(*diagnostic)),
    ;
}

impl Renderer for crate::render::GraphicalRenderer {
    open spec fn obeys_render_spec(&self) -> bool {
        true
    }

    open spec fn rendered(&self, diagnostic: SimpleDiagnostic) -> Seq<char> {
        crate::render::render_diag_spec(*self, diagnostic, 0)
    }

    fn render_diag(&mut self, diagnostic: &SimpleDiagnostic) -> (r: Result<String, RenderError>) {
        self.render(diagnostic)
    }
}

/// The concatenated renderings of a list of diagnostics, in order.
pub open spec fn renderings_spec<R: Renderer>(r: R, diags: Seq<SimpleDiagnostic>) -> Seq<char>
    decreases diags.len(),
{
    if diags.len() == 0 {
        Seq::empty()
    } else {
        r.rendered(diags[0]) + renderings_spec(r, diags.drop_first())
    }
}

proof fn lemma_renderings_snoc<R: Renderer>(r: R, diags: Seq<SimpleDiagnostic>, k: int)
    requires
        0 <= k < diags.len(),
    ensures
        renderings_spec(r, diags.take(k + 1)) == renderings_spec(r, diags.take(k)) + r.rendered(
            diags[k],
        ),
    decreases k,
{
    if k == 0 {
        assert(diags.take(1).drop_first() =~= Seq::<SimpleDiagnostic>::empty());
        assert(diags.take(1)[0] == diags[0]);
        assert(renderings_spec(r, diags.take(1).drop_first()) =~= Seq::<char>::empty());
        assert(renderings_spec(r, diags.take(0)) =~= Seq::<char>::empty());
        assert(renderings_spec(r, diags.take(1)) =~= renderings_spec(r, diags.take(0)) + r.rendered(
            diags[0],
        ));
    } else {
        assert(diags.take(k + 1).drop_first() =~= diags.drop_first().take(k));
        assert(diags.take(k).drop_first() =~= diags.drop_first().take(k - 1));
        assert(diags.take(k + 1)[0] == diags[0]);
        assert(diags.take(k)[0] == diags[0]);
        lemma_renderings_snoc(r, diags.drop_first(), k - 1);
        assert(diags.drop_first()[k - 1] == diags[k]);
        assert(renderings_spec(r, diags.take(k + 1)) =~= renderings_spec(r, diags.take(k))
            + r.rendered(diags[k]));
    }
}

/// A store for diagnostics which decides when to drain them to the user.
pub trait Handler {
    /// Reports the diagnostic to the handler, without emitting it
    /// immediately.
    fn report(&mut self, diagnostic: SimpleDiagnostic);

    /// Drains all the stored diagnostics and empties the store.
    fn drain(&mut self) -> Result<(), DrainError>;

    /// Reports the diagnostic and immediately drains the whole store.
    fn report_and_drain(&mut self, diagnostic: SimpleDiagnostic) -> Result<(), DrainError> {
        self.report(diagnostic);
        self.drain()
    }
}

/// How many of the given diagnostics carry the `Error` severity.
pub open spec fn spec_error_count(s: Seq<SimpleDiagnostic>) -> int
    decreases s.len(),
{
    if s.len() == 0 {
        0
    } else {
        spec_error_count(s.drop_first()) + if s[0].severity == Severity::Error {
            1int
        } else {
            0int
        }
    }
}

/// Counts the diagnostics of `Error` severity.
#[verifier::loop_isolation(false)]
pub fn count_errors(diags: &Vec<SimpleDiagnostic>) -> (r: usize)
    ensures
        r as int == spec_error_count(diags@),
{
    let n = diags.len();
    let mut count: usize = 0;
    let mut i: usize = 0;
    proof {
        assert(diags@.skip(0) =~= diags@);
    }
    while i < n
        invariant
            i <= n,
            count <= i,
            spec_error_count(diags@) == count + spec_error_count(diags@.skip(i as int)),
        decreases n - i,
    {
        proof {
            assert(diags@.skip(i as int)[0] == diags@[i as int]);
            assert(diags@.skip(i as int).drop_first() =~= diags@.skip(i + 1));
        }
        let is_err = match diags[i].severity {
            Severity::Error => true,
            _ => false,
        };
        if is_err {
            count = count + 1;
        }
        i = i + 1;
    }
    proof {
        assert(spec_error_count(diags@.skip(n as int)) == 0);
    }
    count
}

/// Decides the outcome of a drain: an error compounding the drained error
/// diagnostics when the handler halts on errors and any were drained,
/// success otherwise.
pub fn drain_outcome(error_count: usize, exit_on_error: bool) -> (r: Result<(), DrainError>)
    ensures
        error_count > 0 && exit_on_error ==> (r matches Err(DrainError::CompoundError(n)) && n
            == error_count),
        !(error_count > 0 && exit_on_error) ==> r is Ok,
{
    if error_count > 0 && exit_on_error {
        Err(DrainError::CompoundError(error_count))
    } else {
        Ok(())
    }
}

/// A handler which saves the rendered diagnostics to an internal string
/// buffer, so they can be read back; mostly used for testing output.
pub struct BufferedDiagnosticHandler<R: Renderer> {
    /// All the rendered diagnostics drained so far.
    pub buffer: String,
    /// The diagnostics reported and not yet drained.
    pub emitted_diagnostics: Vec<SimpleDiagnostic>,
    /// The renderer used when draining.
    pub renderer: R,
}

impl<R: Renderer> BufferedDiagnosticHandler<R> {
    /// Creates a new empty handler. The capacity is advisory only.
    pub fn with_renderer(capacity: usize, renderer: R) -> (r: BufferedDiagnosticHandler<R>)
        ensures
            r.buffer@ == Seq::<char>::empty(),
            r.emitted_diagnostics@ == Seq::<SimpleDiagnostic>::empty(),
    {
        BufferedDiagnosticHandler { buffer: String::new(), emitted_diagnostics: Vec::new(), renderer }
    }

    /// Gets the buffer which holds the drained, rendered diagnostics.
    pub fn buffer(&self) -> (r: &str)
        ensures
            r@ == self.buffer@,
    {
        self.buffer.as_str()
    }

    /// Gets the diagnostics which have been reported and not yet drained.
    pub fn emitted(&self) -> (r: &Vec<SimpleDiagnostic>)
        ensures
            r == &self.emitted_diagnostics,
    {
        &self.emitted_diagnostics
    }

    /// Gets the number of diagnostics not yet drained.
    pub fn count(&self) -> (r: usize)
        ensures
            r == self.emitted_diagnostics@.len(),
    {
        self.emitted_diagnostics.len()
    }
}

impl<R: Renderer> Handler for BufferedDiagnosticHandler<R> {
    fn report(&mut self, diagnostic: SimpleDiagnostic)
        ensures
            final (self).emitted_diagnostics@ == old(self).emitted_diagnostics@.push(diagnostic),
            final (self).buffer == old(self).buffer,
    {
        self.emitted_diagnostics.push(diagnostic);
    }

    /// Renders every stored diagnostic into the buffer and empties the
    /// store; the store is emptied even when rendering fails part-way.
    ///
    /// A failed rendering is the only error; this handler never reports a
    /// compound error. With a renderer that pins its output, such as
    /// `GraphicalRenderer`, draining succeeds and appends exactly the
    /// renderings of the stored diagnostics, in the order they were
    /// reported.
    #[verifier::loop_isolation(false)]
    fn drain(&mut self) -> (r: Result<(), DrainError>)
        ensures
            final (self).emitted_diagnostics@.len() == 0,
            r is Err ==> r matches Err(DrainError::Fmt(_)),
            old(self).renderer.obeys_render_spec() ==> r is Ok && final (self).renderer == old(
                self,
            ).renderer && final (self).buffer@ == old(self).buffer@ + renderings_spec(
                old(self).renderer,
                old(self).emitted_diagnostics@,
            ),
    {
        let ghost r0 = old(self).renderer;
        let ghost ds0 = old(self).emitted_diagnostics@;
        let ghost buf0 = old(self).buffer@;
        proof {
            assert(ds0.skip(0) =~= ds0);
            assert(renderings_spec(r0, ds0.take(0)) =~= Seq::<char>::empty());
        }
        while self.emitted_diagnostics.len() > 0
            invariant
                self.emitted_diagnostics@.len() <= ds0.len(),
                self.emitted_diagnostics@ == ds0.skip(
                    ds0.len() - self.emitted_diagnostics@.len(),
                ),
                r0.obeys_render_spec() ==> self.renderer == r0 && self.buffer@ == buf0
                    + renderings_spec(
                    r0,
                    ds0.take(ds0.len() - self.emitted_diagnostics@.len()),
                ),
            decreases self.emitted_diagnostics@.len(),
        {
            let ghost p = ds0.len() - self.emitted_diagnostics@.len();
            let d = self.emitted_diagnostics.remove(0);
            proof {
                assert(d == ds0.skip(p)[0]);
                assert(d == ds0[p]);
                assert(ds0.skip(p).drop_first() =~= ds0.skip(p + 1));
                assert(self.emitted_diagnostics@ =~= ds0.skip(p + 1));
            }
            let rendered = self.renderer.render_diag(&d);
            match rendered {
                Ok(s) => {
                    self.buffer.append(s.as_str());
                    proof {
                        if r0.obeys_render_spec() {
                            lemma_renderings_snoc(r0, ds0, p);
                        }
                    }
                },
                Err(e) => {
                    self.emitted_diagnostics.clear();
                    return Err(DrainError::Fmt(e));
                },
            }
        }
        proof {
            assert(ds0.take(ds0.len() as int) =~= ds0);
        }
        Ok(())
    }
}


} // verus!
