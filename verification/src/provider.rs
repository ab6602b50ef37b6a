//! The abstract text-measurement-and-draw boundary.
//!
//! The layout engine does not rasterize text itself: it consumes a
//! [`TextProvider`], which measures a token at a font and size, draws it, and
//! draws decoration lines.  A provider's results must be a deterministic
//! function of its inputs, which the trait states through its spec
//! functions.  [`MonospaceProvider`] is a simple verified provider with fixed
//! per-character advance, usable headless (for instance by tests).

use vstd::prelude::*;
use crate::style::{Color, FontFamily, FontWeight};
use vstd::string::StrSliceExecFns;

verus! {

/// Width and height of measured or drawn text, in centipixels.
#[derive(Clone, Copy, Debug, PartialEq, Eq, Structural)]
pub struct Dimensions {
    pub width: u64,
    pub height: u64,
}

/// An error of a render pass.
#[derive(Debug)]
pub enum RenderError {
    /// An inline run collapse expected a container with exactly one text
    /// child; carries the offending node's identifier.
    CollapseViolation { id: String },
    /// The requested (family, weight) pair is absent from the provider's
    /// font table.
    MissingFont { family: FontFamily, weight: FontWeight },
    /// The provider could not measure or draw a token.
    MeasurementFailure,
}

/// The text measurement and drawing boundary consumed by the layout engine.
///
/// Measurement must be deterministic: `measure` and `draw` return the
/// dimensions given by `spec_measure`, a function of the token, font key and
/// integral pixel size alone.  A missing font table entry is reported as
/// `MissingFont`; any other provider-level failure as `MeasurementFailure`,
/// and which inputs fail is itself fixed per provider (`spec_measure_ok`).
pub trait TextProvider: Sized {
    /// Whether the provider's font table holds the (family, weight) pair.
    /// The default says every font is present; a provider with a real font
    /// table overrides it.
    open spec fn spec_has_font(&self, family: FontFamily, weight: FontWeight) -> bool {
        true
    }

    /// Whether the provider can measure this token at all.  The default
    /// says measurement never fails; a fallible provider overrides it.
    open spec fn spec_measure_ok(
        &self,
        token: Seq<char>,
        family: FontFamily,
        weight: FontWeight,
        size_px: u16,
    ) -> bool {
        true
    }

    /// The dimensions of a token, in centipixels.  The default leaves every
    /// token dimensionless; a real provider overrides it.
    open spec fn spec_measure(
        &self,
        token: Seq<char>,
        family: FontFamily,
        weight: FontWeight,
        size_px: u16,
    ) -> Dimensions {
        Dimensions { width: 0, height: 0 }
    }

    /// Measures a token at an integral pixel size.
    fn measure(&self, token: &str, family: FontFamily, weight: FontWeight, size_px: u16) -> (r:
        Result<Dimensions, RenderError>)
        ensures
            self.spec_has_font(family, weight) && self.spec_measure_ok(
                token@,
                family,
                weight,
                size_px,
            ) ==> r == Ok::<Dimensions, RenderError>(
                self.spec_measure(token@, family, weight, size_px),
            ),
            !self.spec_has_font(family, weight) ==> r == Err::<Dimensions, RenderError>(
                RenderError::MissingFont { family, weight },
            ),
            self.spec_has_font(family, weight) && !self.spec_measure_ok(
                token@,
                family,
                weight,
                size_px,
            ) ==> r == Err::<Dimensions, RenderError>(RenderError::MeasurementFailure),
    ;

    /// Draws a token with its top-left pen position at (x, y) centipixels,
    /// returning the same dimensions that `measure` reports.
    fn draw(
        &self,
        token: &str,
        x: u64,
        y: u64,
        size_px: u16,
        color: Color,
        family: FontFamily,
        weight: FontWeight,
    ) -> (r: Result<Dimensions, RenderError>)
        ensures
            self.spec_has_font(family, weight) && self.spec_measure_ok(
                token@,
                family,
                weight,
                size_px,
            ) ==> r == Ok::<Dimensions, RenderError>(
                self.spec_measure(token@, family, weight, size_px),
            ),
            !self.spec_has_font(family, weight) ==> r == Err::<Dimensions, RenderError>(
                RenderError::MissingFont { family, weight },
            ),
            self.spec_has_font(family, weight) && !self.spec_measure_ok(
                token@,
                family,
                weight,
                size_px,
            ) ==> r == Err::<Dimensions, RenderError>(RenderError::MeasurementFailure),
    ;

    /// Draws a straight decoration line between two points, in centipixels.
    fn draw_line(&self, x0: u64, y0: u64, x1: u64, y1: u64, thickness: u64, color: Color);
}

/// Saturating product used for monospace advances.
pub open spec fn sat_mul(a: u64, b: u64) -> u64 {
    if a * b > u64::MAX {
        u64::MAX
    } else {
        (a * b) as u64
    }
}

/// A deterministic provider with a fixed advance per character: a token of
/// `n` characters measures `n * char_width` centipixels wide and one line
/// high.  Drawing is a no-op, which makes the provider usable headless.
pub struct MonospaceProvider {
    /// Advance of one character, in centipixels.
    pub char_width: u64,
    /// The font table: the (family, weight) pairs this provider accepts.
    pub fonts: Vec<(FontFamily, FontWeight)>,
}

impl MonospaceProvider {
    pub open spec fn spec_width(&self, token: Seq<char>, size_px: u16) -> u64 {
        sat_mul(token.len() as u64, self.char_width)
    }
}

impl TextProvider for MonospaceProvider {
    open spec fn spec_has_font(&self, family: FontFamily, weight: FontWeight) -> bool {
        exists|i: int| 0 <= i < self.fonts@.len() && self.fonts@[i] == (family, weight)
    }

    open spec fn spec_measure_ok(
        &self,
        token: Seq<char>,
        family: FontFamily,
        weight: FontWeight,
        size_px: u16,
    ) -> bool {
        true
    }

    open spec fn spec_measure(
        &self,
        token: Seq<char>,
        family: FontFamily,
        weight: FontWeight,
        size_px: u16,
    ) -> Dimensions {
        Dimensions { width: self.spec_width(token, size_px), height: (100 * size_px) as u64 }
    }

    fn measure(&self, token: &str, family: FontFamily, weight: FontWeight, size_px: u16) -> (r:
        Result<Dimensions, RenderError>)
    {
        let mut found = false;
        let mut i: usize = 0;
        while i < self.fonts.len()
            invariant
                i <= self.fonts@.len(),
                found == exists|j: int| 0 <= j < i && self.fonts@[j] == (family, weight),
            decreases self.fonts@.len() - i,
        {
            let (f, w) = self.fonts[i];
            if f == family && w == weight {
                found = true;
            }
            i += 1;
        }
        if !found {
            return Err(RenderError::MissingFont { family, weight });
        }
        let n = token.unicode_len() as u64;
        let width = match n.checked_mul(self.char_width) {
            Some(w) => w,
            None => u64::MAX,
        };
        Ok(Dimensions { width, height: 100 * (size_px as u64) })
    }

    fn draw(
        &self,
        token: &str,
        x: u64,
        y: u64,
        size_px: u16,
        color: Color,
        family: FontFamily,
        weight: FontWeight,
    ) -> (r: Result<Dimensions, RenderError>) {
        self.measure(token, family, weight, size_px)
    }

    fn draw_line(&self, x0: u64, y0: u64, x1: u64, y1: u64, thickness: u64, color: Color) {
    }
}

} // verus!
