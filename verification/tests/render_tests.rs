use ptfl_reader::render::{
    assign_hues, combine_layer_sets, render_entry, Backend, LayerKind, RenderError,
};
use ptfl_reader::trig::{cos_micro, sin_micro};

const UNIT: i64 = 1_000_000;

fn close(a: i64, b: i64, tol: i64) -> bool {
    (a - b).abs() <= tol
}

#[test]
fn trig_anchor_values() {
    assert_eq!(sin_micro(0), 0);
    assert_eq!(cos_micro(0), UNIT);
    // quarter turn
    assert!(close(sin_micro(1_570_796), UNIT, 5));
    assert!(close(cos_micro(1_570_796), 0, 5));
    // half turn
    assert!(close(sin_micro(3_141_593), 0, 5));
    assert!(close(cos_micro(3_141_593), -UNIT, 5));
    // odd and even symmetry
    assert_eq!(sin_micro(-700_000), -sin_micro(700_000));
    assert_eq!(cos_micro(-700_000), cos_micro(700_000));
    // bounded everywhere
    for a in [-7_000_000i64, -1, 1, 2_500_000, 6_283_185, 100_000_000] {
        assert!(sin_micro(a).abs() <= UNIT);
        assert!(cos_micro(a).abs() <= UNIT);
    }
}

#[test]
fn projection_example_values() {
    // samples (0, 1.0) and (1.5708, 2.0) at scale 100, clip 2:
    // expected pixels (300, 200) and (200, 400)
    let samples = vec![(0i64, UNIT), (1_570_800, 2 * UNIT)];
    let ls = render_entry(&samples, 100 * UNIT, 2 * UNIT, 0, 50, Backend::Raster).unwrap();
    let outline = &ls.layers[0];
    assert_eq!(outline.kind, LayerKind::Outline);
    let pts = &outline.paths[0];
    assert!(close(pts[0].0, 300 * UNIT, 1000));
    assert!(close(pts[0].1, 200 * UNIT, 1000));
    assert!(close(pts[1].0, 200 * UNIT, 1000));
    assert!(close(pts[1].1, 400 * UNIT, 1000));
}

#[test]
fn projection_separates_distinct_samples() {
    // two distinct unit-circle samples land on distinct pixels
    let samples = vec![(0i64, UNIT), (1_570_796, UNIT)];
    let ls = render_entry(&samples, 100 * UNIT, 2 * UNIT, 0, 50, Backend::Raster).unwrap();
    let pts = &ls.layers[0].paths[0];
    assert_ne!(pts[0], pts[1]);
}

#[test]
fn vector_canvas_and_styles() {
    // scale 500, clip 1, hue 90: a 1000 x 1000 canvas and three layers
    let samples = vec![(0i64, 500_000), (1_000_000, 700_000)];
    let hue = 90 * UNIT;
    let ls = render_entry(&samples, 500 * UNIT, UNIT, hue, 50, Backend::Vector).unwrap();
    assert_eq!(ls.side, 1000 * UNIT);
    assert_eq!(ls.layers.len(), 3);

    let outline = &ls.layers[0];
    assert_eq!(outline.kind, LayerKind::Outline);
    assert_eq!(outline.hue, hue);
    assert_eq!(outline.saturation, 40);
    assert_eq!(outline.opacity, 30);
    assert_eq!(outline.lightness, 50);
    assert_eq!(outline.stroke_width, 250_000); // 0.0005 * 500

    let signal = &ls.layers[1];
    assert_eq!(signal.kind, LayerKind::Signal);
    assert_eq!(signal.saturation, 70);
    assert_eq!(signal.opacity, 60);
    assert_eq!(signal.stroke_width, 1_500_000); // 0.003 * 500

    let markers = &ls.layers[2];
    assert_eq!(markers.kind, LayerKind::Markers);
    assert_eq!(markers.saturation, 100);
    assert_eq!(markers.opacity, 80);
    assert_eq!(markers.stroke_width, 1_000_000); // 0.002 * 500
    assert_eq!(markers.paths.len(), 2);
    // each marker is a square of half-width 0.002 * 500 = 1 unit
    let c = ls.layers[1].paths[0][0];
    let sq = &markers.paths[0];
    assert_eq!(sq[0], (c.0 - UNIT, c.1 - UNIT));
    assert_eq!(sq[2], (c.0 + UNIT, c.1 + UNIT));
}

#[test]
fn raster_signal_width_differs() {
    let samples = vec![(0i64, 500_000)];
    let ls = render_entry(&samples, 500 * UNIT, UNIT, 0, 50, Backend::Raster).unwrap();
    let signal = &ls.layers[1];
    assert_eq!(signal.kind, LayerKind::Signal);
    assert_eq!(signal.stroke_width, 1_000_000); // 0.002 * 500 in raster parity
}

#[test]
fn zero_range_stays_out_of_signal_and_markers() {
    let samples = vec![(0i64, UNIT), (500_000, 0), (1_000_000, 2 * UNIT)];
    let ls = render_entry(&samples, 100 * UNIT, 2 * UNIT, 0, 50, Backend::Vector).unwrap();
    let outline = &ls.layers[0];
    let signal = &ls.layers[1];
    let markers = &ls.layers[2];
    // the zero-range sample projects to the canvas centre offset and
    // appears in the outline only
    assert_eq!(outline.paths[0].len(), 3);
    assert_eq!(outline.paths[0][1], (200 * UNIT, 200 * UNIT));
    assert_eq!(signal.paths[0].len(), 2);
    assert!(!signal.paths[0].contains(&(200 * UNIT, 200 * UNIT)));
    assert_eq!(markers.paths.len(), 2);
}

#[test]
fn all_zero_ranges_omit_the_signal_layer() {
    let samples = vec![(0i64, 0), (500_000, 0)];
    let ls = render_entry(&samples, 100 * UNIT, 2 * UNIT, 0, 50, Backend::Vector).unwrap();
    assert_eq!(ls.layers.len(), 2);
    assert_eq!(ls.layers[0].kind, LayerKind::Outline);
    assert_eq!(ls.layers[1].kind, LayerKind::Markers);
    assert_eq!(ls.layers[1].paths.len(), 0);
}

#[test]
fn out_of_range_requests_are_refused() {
    let samples = vec![(0i64, UNIT)];
    assert!(matches!(
        render_entry(&samples, 0, UNIT, 0, 50, Backend::Raster),
        Err(RenderError::OutOfRange)
    ));
    assert!(matches!(
        render_entry(&samples, UNIT, -5, 0, 50, Backend::Raster),
        Err(RenderError::OutOfRange)
    ));
    let huge = vec![(0i64, 2_000_000_000_000)];
    assert!(matches!(
        render_entry(&huge, UNIT, UNIT, 0, 50, Backend::Raster),
        Err(RenderError::OutOfRange)
    ));
}

#[test]
fn combine_keeps_order_and_canvas() {
    let a = render_entry(&vec![(0i64, UNIT)], 100 * UNIT, 2 * UNIT, 0, 50, Backend::Vector)
        .unwrap();
    let b = render_entry(&vec![(0i64, 2 * UNIT)], 100 * UNIT, 2 * UNIT, 0, 50, Backend::Vector)
        .unwrap();
    let a_len = a.layers.len();
    let b_len = b.layers.len();
    let side = a.side;
    let merged = combine_layer_sets(a, b);
    assert_eq!(merged.side, side);
    assert_eq!(merged.layers.len(), a_len + b_len);
    assert_eq!(merged.layers[0].kind, LayerKind::Outline);
    assert_eq!(merged.layers[a_len].kind, LayerKind::Outline);
}

#[test]
fn hues_evenly_spaced_when_unspecified() {
    let hues: Vec<Option<i64>> = vec![None, None, None, None];
    let r = assign_hues(&hues);
    assert_eq!(r, vec![0, 90 * UNIT, 180 * UNIT, 270 * UNIT]);
}

#[test]
fn explicit_hues_pass_through() {
    let hues: Vec<Option<i64>> = vec![Some(10 * UNIT), None, Some(300 * UNIT), None];
    let r = assign_hues(&hues);
    assert_eq!(r, vec![10 * UNIT, 0, 300 * UNIT, 180 * UNIT]);
}
