use phys_rs::render::{
    bloom_extent, box_edges, choose_hdr_format, instance_draw_count, lens_count,
    line_vertex_draw_count, orbit_loop_segments, resize_applies, surface_extent,
    surface_format_index, HdrFormat, RenderScaleMode, ShowForceVectors, ShowSectorGrid, ShowVelocityVectors,
    WindowSize,
};

#[test]
fn render_defaults() {
    let w = WindowSize::default();
    assert_eq!((w.width, w.height), (1280, 720));
    assert_eq!(RenderScaleMode::default(), RenderScaleMode::Linear);
    assert!(!ShowVelocityVectors::default().0);
    assert!(!ShowForceVectors::default().0);
    assert!(!ShowSectorGrid::default().0);
}

#[test]
fn toggles() {
    let m = RenderScaleMode::Linear.toggled();
    assert_eq!(m, RenderScaleMode::Logarithmic);
    assert_eq!(m.toggled(), RenderScaleMode::Linear);
    let mut v = ShowVelocityVectors(false);
    v.toggle();
    assert!(v.0);
    v.toggle();
    assert!(!v.0);
    let mut f = ShowForceVectors(false);
    f.toggle();
    assert!(f.0);
    let mut g = ShowSectorGrid(true);
    g.toggle();
    assert!(!g.0);
}

#[test]
fn bloom_textures_are_half_size_rounded_up() {
    assert_eq!(bloom_extent(1280), 640);
    assert_eq!(bloom_extent(721), 361);
    assert_eq!(bloom_extent(1), 1);
    assert_eq!(bloom_extent(0), 0);
}

#[test]
fn draw_counts_are_clamped() {
    assert_eq!(instance_draw_count(12), 12);
    assert_eq!(instance_draw_count(50_000), 10_000);
    assert_eq!(line_vertex_draw_count(300_000), 200_000);
    assert_eq!(line_vertex_draw_count(8), 8);
    assert_eq!(lens_count(true, 3), 3);
    assert_eq!(lens_count(true, 100), 64);
    assert_eq!(lens_count(false, 3), 0);
}

#[test]
fn orbit_loop_is_closed() {
    assert_eq!(orbit_loop_segments(3), vec![(0, 1), (1, 2), (2, 0)]);
    assert!(orbit_loop_segments(0).is_empty());
    let segs = orbit_loop_segments(128);
    assert_eq!(segs[127], (127, 0));
}

#[test]
fn box_has_twelve_edges() {
    let e = box_edges();
    assert_eq!(e.len(), 12);
    // Each corner touches three edges.
    for c in 0..8usize {
        assert_eq!(e.iter().filter(|&&(a, b)| a == c || b == c).count(), 3);
    }
}

#[test]
fn surface_configuration_choices() {
    assert_eq!(choose_hdr_format(true), HdrFormat::Rgba16Float);
    assert_eq!(choose_hdr_format(false), HdrFormat::Rgba32Float);
    assert_eq!(surface_format_index(&vec![false, true, true]), 1);
    assert_eq!(surface_format_index(&vec![false, false]), 0);
    assert_eq!(surface_format_index(&vec![true]), 0);
    assert_eq!(surface_extent(0, 0), (1, 1));
    assert_eq!(surface_extent(1920, 0), (1920, 1));
    assert_eq!(surface_extent(800, 600), (800, 600));
    assert!(resize_applies(800, 600));
    assert!(!resize_applies(0, 600));
    assert!(!resize_applies(800, 0));
}
