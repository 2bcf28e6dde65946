//! The rendering pipeline: polar samples to layered drawing paths.
//!
//! A scan entry is projected onto a square canvas with the fixed
//! polar-to-Cartesian projection
//!
//! ```text
//! x = scale * (r * cos(angle) + clip)
//! y = scale * (r * sin(angle) + clip)
//! ```
//!
//! in fixed-point arithmetic (see [`crate::fixed`] and
//! [`crate::trig`]).  The canvas is a square of side
//! `2 * scale * clip` against an opaque black background.  One entry
//! yields up to three layers:
//!
//! - *outline*: one closed path through every sample's projection, in
//!   sequence order, zero-range samples included (they project to the
//!   canvas centre offset) — 40% saturation, 30% opacity, stroke width
//!   `0.0005 * scale`;
//! - *signal*: one closed path through the projections of the
//!   non-zero-range samples only, omitted entirely when the entry has
//!   no such sample — 70% saturation, 60% opacity, stroke width
//!   `0.003 * scale` for the vector backend and `0.002 * scale` for
//!   the raster backend (the documented parity difference);
//! - *markers*: one independent closed square per non-zero-range
//!   sample, of half-width `0.002 * scale` centred on its projection —
//!   100% saturation, 80% opacity, stroke width `0.002 * scale`.
//!
//! Hue (micro-degrees) and lightness (0–100) are caller-supplied and
//! shared by the three layers of one entry.  Both backends receive the
//! same geometry; only the styling mechanics differ downstream.

use vstd::prelude::*;
use crate::catalog::Sample;
use crate::fixed::{abs_of, fx_mul, spec_fx_mul};
use crate::trig::{cos_micro, sin_micro, spec_cos_micro, spec_sin_micro};

verus! {

/// Largest magnitude accepted for a range, a scale or a clip
/// position: one million whole units.  The bound keeps every
/// projected coordinate inside the `i64` range.
pub const COORD_LIMIT: i64 = 1_000_000_000_000;

/// Which encoder the layer set is destined for; it decides only the
/// signal stroke width.
#[derive(Clone, Copy, Debug, PartialEq, Eq, Structural)]
pub enum Backend {
    Raster,
    Vector,
}

/// The role of a layer within its entry's set.
#[derive(Clone, Copy, Debug, PartialEq, Eq, Structural)]
pub enum LayerKind {
    Outline,
    Signal,
    Markers,
}

/// One drawing layer: a set of closed paths with a shared style.
#[derive(Debug)]
pub struct Layer {
    pub kind: LayerKind,
    /// Closed polygonal paths, points in micro-units.
    pub paths: Vec<Vec<(i64, i64)>>,
    /// Hue in micro-degrees.
    pub hue: i64,
    /// Saturation, percent.
    pub saturation: u8,
    /// Layer opacity, percent.
    pub opacity: u8,
    /// Lightness, 0 to 100.
    pub lightness: u8,
    /// Stroke width in micro-units.
    pub stroke_width: i64,
}

/// The mathematical image of a [`Layer`].
#[verifier::ext_equal]
pub ghost struct LayerModel {
    pub kind: LayerKind,
    pub paths: Seq<Seq<(i64, i64)>>,
    pub hue: int,
    pub saturation: int,
    pub opacity: int,
    pub lightness: int,
    pub stroke_width: int,
}

impl View for Layer {
    type V = LayerModel;

    open spec fn view(&self) -> LayerModel {
        LayerModel {
            kind: self.kind,
            paths: self.paths.deep_view(),
            hue: self.hue as int,
            saturation: self.saturation as int,
            opacity: self.opacity as int,
            lightness: self.lightness as int,
            stroke_width: self.stroke_width as int,
        }
    }
}

/// The layer images of a layer list.
pub open spec fn layer_models(ls: Seq<Layer>) -> Seq<LayerModel> {
    ls.map_values(|l: Layer| l@)
}

/// The layers rendered from one entry, with the canvas side they
/// expect.
#[derive(Debug)]
pub struct RenderLayerSet {
    /// Side of the square canvas, micro-units.
    pub side: i64,
    pub layers: Vec<Layer>,
}

/// A rendering request outside the representable range.
#[derive(Debug)]
pub enum RenderError {
    /// `scale` or `clip` not in `(0, COORD_LIMIT]`, or a sample range
    /// beyond `COORD_LIMIT` in magnitude.
    OutOfRange,
}

/// Whether a render request is within the representable range.
pub open spec fn render_params_ok(s: Seq<Sample>, scale: int, clip: int) -> bool {
    &&& 0 < scale <= COORD_LIMIT as int
    &&& 0 < clip <= COORD_LIMIT as int
    &&& forall|i: int| 0 <= i < s.len() ==> abs_of((#[trigger] s[i]).1 as int) <= COORD_LIMIT as int
}

/// The projection of one sample.
pub open spec fn project_pt(scale: int, clip: int, s: Sample) -> (i64, i64) {
    let c = spec_cos_micro(s.0 as int);
    let sn = spec_sin_micro(s.0 as int);
    (
        spec_fx_mul(scale, spec_fx_mul(s.1 as int, c) + clip) as i64,
        spec_fx_mul(scale, spec_fx_mul(s.1 as int, sn) + clip) as i64,
    )
}

/// The subsequence of samples with a non-zero range.
pub open spec fn nonzero_samples(s: Seq<Sample>) -> Seq<Sample>
    decreases s.len(),
{
    if s.len() == 0 {
        Seq::empty()
    } else if s.last().1 != 0 {
        nonzero_samples(s.drop_last()).push(s.last())
    } else {
        nonzero_samples(s.drop_last())
    }
}

/// Every sample of the non-zero subsequence has a non-zero range: a
/// zero-range sample never reaches the signal or marker layers.
pub proof fn lemma_nonzero_samples_nonzero(s: Seq<Sample>)
    ensures
        forall|j: int|
            0 <= j < nonzero_samples(s).len() ==> (#[trigger] nonzero_samples(s)[j]).1 != 0,
        nonzero_samples(s).len() <= s.len(),
    decreases s.len(),
{
    if s.len() > 0 {
        lemma_nonzero_samples_nonzero(s.drop_last());
    }
}

/// The corners of the closed marker square of half-width `h` centred
/// on `c`.
pub open spec fn marker_square(c: (i64, i64), h: int) -> Seq<(i64, i64)> {
    seq![
        ((c.0 as int - h) as i64, (c.1 as int - h) as i64),
        ((c.0 as int + h) as i64, (c.1 as int - h) as i64),
        ((c.0 as int + h) as i64, (c.1 as int + h) as i64),
        ((c.0 as int - h) as i64, (c.1 as int + h) as i64),
    ]
}

/// The signal stroke width factor of a backend, in millionths of the
/// scale.
pub open spec fn signal_width_factor(b: Backend) -> int {
    match b {
        Backend::Vector => 3000,
        Backend::Raster => 2000,
    }
}

/// The layer images rendered from one entry.
pub open spec fn render_model(
    s: Seq<Sample>,
    scale: int,
    clip: int,
    hue: int,
    lightness: int,
    backend: Backend,
) -> Seq<LayerModel> {
    let proj = s.map_values(|x: Sample| project_pt(scale, clip, x));
    let nzp = nonzero_samples(s).map_values(|x: Sample| project_pt(scale, clip, x));
    let h = spec_fx_mul(scale, 2000);
    let outline = LayerModel {
        kind: LayerKind::Outline,
        paths: seq![proj],
        hue,
        saturation: 40,
        opacity: 30,
        lightness,
        stroke_width: spec_fx_mul(scale, 500),
    };
    let signal = LayerModel {
        kind: LayerKind::Signal,
        paths: seq![nzp],
        hue,
        saturation: 70,
        opacity: 60,
        lightness,
        stroke_width: spec_fx_mul(scale, signal_width_factor(backend)),
    };
    let markers = LayerModel {
        kind: LayerKind::Markers,
        paths: nzp.map_values(|c: (i64, i64)| marker_square(c, h)),
        hue,
        saturation: 100,
        opacity: 80,
        lightness,
        stroke_width: spec_fx_mul(scale, 2000),
    };
    if nzp.len() > 0 {
        seq![outline, signal, markers]
    } else {
        seq![outline, markers]
    }
}

proof fn lemma_fx_bound(a: int, b: int, am: int, bm: int)
    requires
        abs_of(a) <= am,
        abs_of(b) <= bm,
        0 <= am,
        0 <= bm,
    ensures
        abs_of(spec_fx_mul(a, b)) <= (am * bm) / 1_000_000,
        abs_of(a * b) <= am * bm,
{
    assert(abs_of(a) * abs_of(b) == abs_of(a * b)) by (nonlinear_arith);
    assert(abs_of(a) * abs_of(b) <= am * bm) by (nonlinear_arith)
        requires
            0 <= abs_of(a) <= am,
            0 <= abs_of(b) <= bm,
    ;
    let p = a * b;
    if p >= 0 {
        assert(p / 1_000_000 <= (am * bm) / 1_000_000) by (nonlinear_arith)
            requires
                0 <= p <= am * bm,
        ;
    } else {
        assert((-p) / 1_000_000 <= (am * bm) / 1_000_000) by (nonlinear_arith)
            requires
                0 <= -p <= am * bm,
        ;
    }
}

/// Projects one sample.  The coordinates are bounded well inside the
/// `i64` range, leaving room for the marker half-width.
pub fn project(scale: i64, clip: i64, s: Sample) -> (p: (i64, i64))
    requires
        0 < scale <= COORD_LIMIT as int,
        0 < clip <= COORD_LIMIT as int,
        abs_of(s.1 as int) <= COORD_LIMIT as int,
    ensures
        p == project_pt(scale as int, clip as int, s),
        abs_of(p.0 as int) <= 2_000_000_000_000_000_000,
        abs_of(p.1 as int) <= 2_000_000_000_000_000_000,
{
    let c = cos_micro(s.0);
    let sn = sin_micro(s.0);
    proof {
        lemma_fx_bound(s.1 as int, c as int, COORD_LIMIT as int, 1_000_000);
        lemma_fx_bound(s.1 as int, sn as int, COORD_LIMIT as int, 1_000_000);
    }
    let rx = fx_mul(s.1, c);
    let ry = fx_mul(s.1, sn);
    proof {
        lemma_fx_bound(scale as int, rx as int + clip as int, COORD_LIMIT as int, 2 * (
        COORD_LIMIT as int));
        lemma_fx_bound(scale as int, ry as int + clip as int, COORD_LIMIT as int, 2 * (
        COORD_LIMIT as int));
    }
    let x = fx_mul(scale, rx + clip);
    let y = fx_mul(scale, ry + clip);
    (x, y)
}

/// Renders one entry into its layer set; see the module description
/// for the projection, the three layers and their styles.  Fails
/// exactly when the request leaves the representable range.
pub fn render_entry(
    samples: &Vec<Sample>,
    scale: i64,
    clip: i64,
    hue: i64,
    lightness: u8,
    backend: Backend,
) -> (r: Result<RenderLayerSet, RenderError>)
    ensures
        match r {
            Ok(ls) => {
                &&& render_params_ok(samples@, scale as int, clip as int)
                &&& ls.side == 2 * spec_fx_mul(scale as int, clip as int)
                &&& layer_models(ls.layers@) == render_model(
                    samples@,
                    scale as int,
                    clip as int,
                    hue as int,
                    lightness as int,
                    backend,
                )
            },
            Err(e) => {
                &&& e is OutOfRange
                &&& !render_params_ok(samples@, scale as int, clip as int)
            },
        },
{
    if scale <= 0 || scale > COORD_LIMIT || clip <= 0 || clip > COORD_LIMIT {
        return Err(RenderError::OutOfRange);
    }
    let mut i: usize = 0;
    while i < samples.len()
        invariant
            0 <= i <= samples@.len(),
            0 < scale <= COORD_LIMIT as int,
            0 < clip <= COORD_LIMIT as int,
            forall|j: int|
                0 <= j < i ==> abs_of((#[trigger] samples@[j]).1 as int) <= COORD_LIMIT as int,
        decreases samples@.len() - i,
    {
        let r = samples[i].1;
        if r > COORD_LIMIT || r < -COORD_LIMIT {
            return Err(RenderError::OutOfRange);
        }
        i = i + 1;
    }
    let ghost sv = samples@;
    let ghost proj_spec = sv.map_values(|x: Sample| project_pt(scale as int, clip as int, x));
    let ghost nzs = nonzero_samples(sv);
    let ghost nzp = nzs.map_values(|x: Sample| project_pt(scale as int, clip as int, x));
    proof {
        lemma_nonzero_samples_nonzero(sv);
    }

    // project every sample, and the non-zero ones on the side
    let mut outline_pts: Vec<(i64, i64)> = Vec::new();
    let mut signal_pts: Vec<(i64, i64)> = Vec::new();
    let mut k: usize = 0;
    proof {
        assert(sv.take(0) =~= Seq::<Sample>::empty());
        assert(outline_pts@ =~= sv.take(0).map_values(
            |x: Sample| project_pt(scale as int, clip as int, x),
        ));
        assert(signal_pts@ =~= nonzero_samples(sv.take(0)).map_values(
            |x: Sample| project_pt(scale as int, clip as int, x),
        ));
    }
    while k < samples.len()
        invariant
            0 <= k <= samples@.len(),
            sv == samples@,
            0 < scale <= COORD_LIMIT as int,
            0 < clip <= COORD_LIMIT as int,
            forall|j: int|
                0 <= j < sv.len() ==> abs_of((#[trigger] sv[j]).1 as int) <= COORD_LIMIT as int,
            outline_pts@ == sv.take(k as int).map_values(
                |x: Sample| project_pt(scale as int, clip as int, x),
            ),
            signal_pts@ == nonzero_samples(sv.take(k as int)).map_values(
                |x: Sample| project_pt(scale as int, clip as int, x),
            ),
            forall|j: int|
                0 <= j < signal_pts@.len() ==> abs_of((#[trigger] signal_pts@[j]).0 as int)
                    <= 2_000_000_000_000_000_000 && abs_of(signal_pts@[j].1 as int)
                    <= 2_000_000_000_000_000_000,
        decreases samples@.len() - k,
    {
        let s = samples[k];
        let p = project(scale, clip, s);
        let ghost f = |x: Sample| project_pt(scale as int, clip as int, x);
        proof {
            assert(sv.take(k as int + 1).drop_last() =~= sv.take(k as int));
            assert(sv.take(k as int + 1).last() == sv[k as int]);
            assert(sv.take(k as int + 1).map_values(f) =~= sv.take(k as int).map_values(f).push(
                f(sv[k as int]),
            ));
        }
        outline_pts.push(p);
        if s.1 != 0 {
            signal_pts.push(p);
            proof {
                assert(nonzero_samples(sv.take(k as int + 1)) =~= nonzero_samples(
                    sv.take(k as int),
                ).push(sv[k as int]));
                assert(nonzero_samples(sv.take(k as int + 1)).map_values(f) =~= nonzero_samples(
                    sv.take(k as int),
                ).map_values(f).push(f(sv[k as int])));
            }
        } else {
            proof {
                assert(nonzero_samples(sv.take(k as int + 1)) =~= nonzero_samples(
                    sv.take(k as int),
                ));
            }
        }
        k = k + 1;
    }
    proof {
        assert(sv.take(sv.len() as int) =~= sv);
    }

    // marker squares around every signal point
    let half = fx_mul(scale, 2000);
    proof {
        lemma_fx_bound(scale as int, 2000, COORD_LIMIT as int, 2000);
    }
    let mut marker_paths: Vec<Vec<(i64, i64)>> = Vec::new();
    let mut m: usize = 0;
    proof {
        assert(marker_paths.deep_view() =~~= nzp.take(0).map_values(
            |c: (i64, i64)| marker_square(c, spec_fx_mul(scale as int, 2000)),
        ));
    }
    while m < signal_pts.len()
        invariant
            0 <= m <= signal_pts@.len(),
            signal_pts@ == nzp,
            half == spec_fx_mul(scale as int, 2000),
            0 <= half <= 2_000_000_000,
            forall|j: int|
                0 <= j < nzp.len() ==> abs_of((#[trigger] nzp[j]).0 as int)
                    <= 2_000_000_000_000_000_000 && abs_of(nzp[j].1 as int)
                    <= 2_000_000_000_000_000_000,
            marker_paths.deep_view() =~~= nzp.take(m as int).map_values(
                |c: (i64, i64)| marker_square(c, spec_fx_mul(scale as int, 2000)),
            ),
        decreases signal_pts@.len() - m,
    {
        let c = signal_pts[m];
        let mut sq: Vec<(i64, i64)> = Vec::new();
        sq.push((c.0 - half, c.1 - half));
        sq.push((c.0 + half, c.1 - half));
        sq.push((c.0 + half, c.1 + half));
        sq.push((c.0 - half, c.1 + half));
        let ghost g = |c: (i64, i64)| marker_square(c, spec_fx_mul(scale as int, 2000));
        proof {
            assert(sq@ =~~= marker_square(c, spec_fx_mul(scale as int, 2000)));
            assert(nzp.take(m as int + 1).drop_last() =~= nzp.take(m as int));
            assert(nzp.take(m as int + 1).map_values(g) =~= nzp.take(m as int).map_values(g).push(
                g(nzp[m as int]),
            ));
        }
        marker_paths.push(sq);
        proof {
            assert(marker_paths.deep_view() =~~= marker_paths.deep_view().subrange(
                0,
                marker_paths.deep_view().len() - 1,
            ).push(sq@));
        }
        m = m + 1;
    }
    proof {
        assert(nzp.take(nzp.len() as int) =~= nzp);
    }

    // assemble the layers
    let ghost hh = spec_fx_mul(scale as int, clip as int);
    proof {
        lemma_fx_bound(scale as int, clip as int, COORD_LIMIT as int, COORD_LIMIT as int);
    }
    let side = 2 * fx_mul(scale, clip);
    let has_signal = signal_pts.len() > 0;
    let mut outline_paths: Vec<Vec<(i64, i64)>> = Vec::new();
    outline_paths.push(outline_pts);
    let outline = Layer {
        kind: LayerKind::Outline,
        paths: outline_paths,
        hue,
        saturation: 40,
        opacity: 30,
        lightness,
        stroke_width: fx_mul(scale, 500),
    };
    proof {
        lemma_fx_bound(scale as int, 500, COORD_LIMIT as int, 500);
        lemma_fx_bound(scale as int, 3000, COORD_LIMIT as int, 3000);
        assert(outline.paths.deep_view() =~~= seq![proj_spec]);
    }
    let mut layers: Vec<Layer> = Vec::new();
    layers.push(outline);
    if has_signal {
        let width_factor: i64 = match backend {
            Backend::Vector => 3000,
            Backend::Raster => 2000,
        };
        let mut signal_paths: Vec<Vec<(i64, i64)>> = Vec::new();
        signal_paths.push(signal_pts);
        let signal = Layer {
            kind: LayerKind::Signal,
            paths: signal_paths,
            hue,
            saturation: 70,
            opacity: 60,
            lightness,
            stroke_width: fx_mul(scale, width_factor),
        };
        proof {
            assert(signal.paths.deep_view() =~~= seq![nzp]);
        }
        layers.push(signal);
    }
    let markers = Layer {
        kind: LayerKind::Markers,
        paths: marker_paths,
        hue,
        saturation: 100,
        opacity: 80,
        lightness,
        stroke_width: fx_mul(scale, 2000),
    };
    layers.push(markers);
    proof {
        let model = render_model(
            sv,
            scale as int,
            clip as int,
            hue as int,
            lightness as int,
            backend,
        );
        assert(layer_models(layers@) =~~= model);
    }
    Ok(RenderLayerSet { side, layers })
}

/// How many of the first `i` hue choices are unspecified.
pub open spec fn nones_upto(s: Seq<Option<i64>>, i: int) -> int
    decreases i,
{
    if i <= 0 {
        0
    } else {
        nones_upto(s, i - 1) + if s[i - 1] is None {
            1int
        } else {
            0int
        }
    }
}

proof fn lemma_hue_step_bound(c: int, n: int)
    requires
        1 <= n,
        0 <= c < n,
    ensures
        0 <= c * (360_000_000int / n) < 360_000_000,
{
    let step = 360_000_000int / n;
    vstd::arithmetic::div_mod::lemma_fundamental_div_mod(360_000_000, n);
    vstd::arithmetic::div_mod::lemma_mod_division_less_than_divisor(360_000_000, n);
    assert(n * step <= 360_000_000);
    assert(0 <= step);
    assert(0 <= c * step && c * step <= (n - 1) * step && (n - 1) * step <= n * step - step)
        by (nonlinear_arith)
        requires
            0 <= c < n,
            0 <= step,
    ;
    if step == 0 {
        assert(c * step == 0) by (nonlinear_arith)
            requires
                step == 0,
        ;
    }
}

/// Fills in the hues left unspecified: the `k`-th unspecified entry,
/// in reading order, receives `k * (360 / u)` degrees, `u` being the
/// number of unspecified entries — hues evenly spaced over the circle
/// starting at zero.  Explicit hues pass through unchanged.
pub fn assign_hues(hues: &Vec<Option<i64>>) -> (r: Vec<i64>)
    ensures
        r@.len() == hues@.len(),
        forall|i: int|
            0 <= i < hues@.len() ==> (#[trigger] r@[i]) as int == (match hues@[i] {
                Some(h) => h as int,
                None => nones_upto(hues@, i) * (360_000_000int / nones_upto(
                    hues@,
                    hues@.len() as int,
                )),
            }),
{
    let ghost hv = hues@;
    let mut n: u64 = 0;
    let mut i: usize = 0;
    while i < hues.len()
        invariant
            0 <= i <= hv.len(),
            hv == hues@,
            n == nones_upto(hv, i as int),
            n <= i,
        decreases hv.len() - i,
    {
        if hues[i].is_none() {
            n = n + 1;
        }
        i = i + 1;
    }
    let step: u64 = if n == 0 {
        0
    } else {
        360_000_000 / n
    };
    let mut r: Vec<i64> = Vec::new();
    let mut c: u64 = 0;
    let mut j: usize = 0;
    while j < hues.len()
        invariant
            0 <= j <= hv.len(),
            hv == hues@,
            n == nones_upto(hv, hv.len() as int),
            n == 0 ==> step == 0,
            n >= 1 ==> step == 360_000_000int / n as int,
            c == nones_upto(hv, j as int),
            c <= n,
            r@.len() == j,
            forall|i: int|
                0 <= i < j ==> (#[trigger] r@[i]) as int == (match hv[i] {
                    Some(h) => h as int,
                    None => nones_upto(hv, i) * (360_000_000int / nones_upto(hv, hv.len() as int)),
                }),
        decreases hv.len() - j,
    {
        proof {
            lemma_nones_upto_le(hv, j as int, hv.len() as int);
        }
        match hues[j] {
            Some(h) => {
                r.push(h);
            },
            None => {
                proof {
                    lemma_hue_step_bound(c as int, n as int);
                }
                let v: u64 = c * step;
                r.push(v as i64);
                c = c + 1;
            },
        }
        j = j + 1;
    }
    r
}

/// Counting unspecified hues is monotone in the prefix length.
proof fn lemma_nones_upto_le(s: Seq<Option<i64>>, i: int, j: int)
    requires
        0 <= i <= j,
    ensures
        nones_upto(s, i) <= nones_upto(s, j),
        i < j && s[i] is None ==> nones_upto(s, i) + 1 <= nones_upto(s, j),
    decreases j - i,
{
    if i < j {
        lemma_nones_upto_le(s, i + 1, j);
    }
}

/// The even-spacing law of hue auto-assignment: when no entry names a
/// hue, the `i`-th of `u` entries receives exactly
/// `i * (360 / u)` degrees — `u` values evenly spaced over the circle
/// starting at zero, in input order.
pub proof fn lemma_hues_evenly_spaced(s: Seq<Option<i64>>, i: int)
    requires
        forall|k: int| 0 <= k < s.len() ==> s[k] is None,
        0 <= i <= s.len(),
    ensures
        nones_upto(s, i) == i,
    decreases i,
{
    if i > 0 {
        lemma_hues_evenly_spaced(s, i - 1);
    }
}

/// Concatenates two layer sets: the first set's layers come first.
/// Both sets must target the same canvas.
pub fn combine_layer_sets(a: RenderLayerSet, b: RenderLayerSet) -> (r: RenderLayerSet)
    ensures
        r.side == a.side,
        layer_models(r.layers@) == layer_models(a.layers@) + layer_models(b.layers@),
{
    let ghost am = layer_models(a.layers@);
    let ghost bm = layer_models(b.layers@);
    let mut layers = a.layers;
    let mut rest = b.layers;
    layers.append(&mut rest);
    proof {
        assert(layer_models(layers@) =~= am + bm);
    }
    RenderLayerSet { side: a.side, layers }
}

} // verus!
