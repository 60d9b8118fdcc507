//! Rendering settings and the integer bookkeeping of the render passes.
use vstd::prelude::*;

verus! {

use vstd::arithmetic::div_mod::{lemma_mod_self_0, lemma_small_mod};

/// Window width in pixels before the first resize.
pub const DEFAULT_WINDOW_WIDTH: u32 = 1280;

/// Window height in pixels before the first resize.
pub const DEFAULT_WINDOW_HEIGHT: u32 = 720;

/// Most sphere instances drawn in one frame.
pub const MAX_INSTANCES: u32 = 10_000;

/// Most line vertices uploaded in one frame.
pub const MAX_LINE_VERTICES: u32 = 200_000;

/// Most gravitational lenses sent to the lensing pass.
pub const MAX_LENSES: usize = 64;

/// Window pixel dimensions; updated on resize.
#[derive(Clone, Copy, PartialEq, Eq, Structural, Debug)]
pub struct WindowSize {
    pub width: u32,
    pub height: u32,
}

impl Default for WindowSize {
    fn default() -> (w: Self)
        ensures
            w.width == DEFAULT_WINDOW_WIDTH,
            w.height == DEFAULT_WINDOW_HEIGHT,
    {
        WindowSize { width: DEFAULT_WINDOW_WIDTH, height: DEFAULT_WINDOW_HEIGHT }
    }
}

/// How bodies are scaled on screen.
#[derive(Clone, Copy, PartialEq, Eq, Structural, Debug)]
pub enum RenderScaleMode {
    /// Physical scale (real bounding radius).
    Linear,
    /// Logarithmic scale based on mass, for visual clarity.
    Logarithmic,
}

impl Default for RenderScaleMode {
    fn default() -> (m: Self)
        ensures
            m == RenderScaleMode::Linear,
    {
        RenderScaleMode::Linear
    }
}

/// The scale mode that toggling `m` switches to.
pub open spec fn scale_toggled(m: RenderScaleMode) -> RenderScaleMode {
    match m {
        RenderScaleMode::Linear => RenderScaleMode::Logarithmic,
        RenderScaleMode::Logarithmic => RenderScaleMode::Linear,
    }
}

impl RenderScaleMode {
    /// The other scale mode.
    pub fn toggled(self) -> (m: Self)
        ensures
            m == scale_toggled(self),
    {
        match self {
            RenderScaleMode::Linear => RenderScaleMode::Logarithmic,
            RenderScaleMode::Logarithmic => RenderScaleMode::Linear,
        }
    }
}

/// Whether velocity vectors are drawn (off by default).
#[derive(Clone, Copy, PartialEq, Eq, Structural, Debug, Default)]
pub struct ShowVelocityVectors(pub bool);

/// Whether force vectors are drawn (off by default).
#[derive(Clone, Copy, PartialEq, Eq, Structural, Debug, Default)]
pub struct ShowForceVectors(pub bool);

/// Whether the sector grid is drawn (off by default).
#[derive(Clone, Copy, PartialEq, Eq, Structural, Debug, Default)]
pub struct ShowSectorGrid(pub bool);

impl ShowVelocityVectors {
    /// Flips the setting.
    pub fn toggle(&mut self)
        ensures
            final(self).0 == !old(self).0,
    {
        self.0 = !self.0;
    }
}

impl ShowForceVectors {
    /// Flips the setting.
    pub fn toggle(&mut self)
        ensures
            final(self).0 == !old(self).0,
    {
        self.0 = !self.0;
    }
}

impl ShowSectorGrid {
    /// Flips the setting.
    pub fn toggle(&mut self)
        ensures
            final(self).0 == !old(self).0,
    {
        self.0 = !self.0;
    }
}

/// Toggling the scale mode changes it, and toggling it twice restores it.
pub proof fn lemma_scale_toggle_involution(m: RenderScaleMode)
    ensures
        scale_toggled(m) != m,
        scale_toggled(scale_toggled(m)) == m,
{
}

/// Side length of the half-resolution bloom textures for a full-resolution
/// side of `full` pixels (rounded up).
pub fn bloom_extent(full: u32) -> (half: u32)
    requires
        full < u32::MAX,
    ensures
        half == (full + 1) / 2,
        2 * half >= full,
        2 * half <= full + 1,
{
    (full + 1) / 2
}

/// Number of sphere instances drawn for `count` collected instances.
pub fn instance_draw_count(count: usize) -> (n: u32)
    ensures
        n as int == if count < MAX_INSTANCES as usize {
            count as int
        } else {
            MAX_INSTANCES as int
        },
{
    if count < MAX_INSTANCES as usize {
        count as u32
    } else {
        MAX_INSTANCES
    }
}

/// Number of line vertices uploaded and drawn for `count` collected ones.
pub fn line_vertex_draw_count(count: usize) -> (n: u32)
    ensures
        n as int == if count < MAX_LINE_VERTICES as usize {
            count as int
        } else {
            MAX_LINE_VERTICES as int
        },
{
    if count < MAX_LINE_VERTICES as usize {
        count as u32
    } else {
        MAX_LINE_VERTICES
    }
}

/// Number of lenses the lensing pass applies: none while lensing is
/// disabled, otherwise the lenses found, at most [`MAX_LENSES`].
pub fn lens_count(enabled: bool, found: usize) -> (n: u32)
    ensures
        n as int == if !enabled {
            0
        } else if found < MAX_LENSES {
            found as int
        } else {
            MAX_LENSES as int
        },
{
    if !enabled {
        0
    } else if found < MAX_LENSES {
        found as u32
    } else {
        MAX_LENSES as u32
    }
}

/// Line segments `(i, i + 1 mod n)` that close a loop through `n` sampled
/// orbit points.
pub fn orbit_loop_segments(n: usize) -> (segs: Vec<(usize, usize)>)
    ensures
        segs.len() == n,
        forall|i: int|
            0 <= i < n ==> (#[trigger] segs[i]).0 == i && segs[i].1 == (i + 1) % (n as int),
{
    let mut segs: Vec<(usize, usize)> = Vec::new();
    let mut i: usize = 0;
    while i < n
        invariant
            i <= n,
            segs.len() == i,
            forall|j: int|
                0 <= j < i ==> (#[trigger] segs[j]).0 == j && segs[j].1 == (j + 1) % (n as int),
        decreases n - i,
    {
        let next = if i + 1 == n {
            0
        } else {
            i + 1
        };
        proof {
            if i + 1 < n {
                lemma_small_mod((i + 1) as nat, n as nat);
            } else {
                lemma_mod_self_0(n as int);
            }
        }
        segs.push((i, next));
        i = i + 1;
    }
    segs
}

/// The point a closed loop of `n` points goes to after point `i`.
pub open spec fn loop_next(n: int, i: int) -> int {
    (i + 1) % n
}

/// Every point of a closed orbit loop ends exactly one segment: the one that
/// starts at the point before it.
pub proof fn lemma_orbit_loop_visits_each_point_once(n: int, p: int)
    requires
        0 <= p < n,
    ensures
        0 <= (if p == 0 {
            n - 1
        } else {
            p - 1
        }) < n,
        loop_next(
            n,
            if p == 0 {
                n - 1
            } else {
                p - 1
            },
        ) == p,
        forall|q: int|
            0 <= q < n && #[trigger] loop_next(n, q) == p ==> q == (if p == 0 {
                n - 1
            } else {
                p - 1
            }),
{
    assert forall|q: int| 0 <= q < n && #[trigger] loop_next(n, q) == p implies q == (if p == 0 {
        n - 1
    } else {
        p - 1
    }) by {
        if q + 1 == n {
            lemma_mod_self_0(n);
        } else {
            lemma_small_mod((q + 1) as nat, n as nat);
        }
    }
    if p == 0 {
        lemma_mod_self_0(n);
    } else {
        lemma_small_mod(p as nat, n as nat);
    }
}

/// The twelve edges of a box, as pairs of corner numbers (corner bit 0: +x,
/// bit 1: +y, bit 2: +z); each sector of the grid is drawn with these.
pub fn box_edges() -> (edges: Vec<(usize, usize)>)
    ensures
        edges@ == seq![
            (0usize, 1usize), (1, 3), (3, 2), (2, 0),
            (4, 5), (5, 7), (7, 6), (6, 4),
            (0, 4), (1, 5), (2, 6), (3, 7),
        ],
{
    let edges: Vec<(usize, usize)> = vec![
        (0, 1), (1, 3), (3, 2), (2, 0),
        (4, 5), (5, 7), (7, 6), (6, 4),
        (0, 4), (1, 5), (2, 6), (3, 7),
    ];
    assert(edges@ =~= seq![
        (0usize, 1usize), (1, 3), (3, 2), (2, 0),
        (4, 5), (5, 7), (7, 6), (6, 4),
        (0, 4), (1, 5), (2, 6), (3, 7),
    ]);
    edges
}

/// Formats of the HDR render target, in order of preference.
#[derive(Clone, Copy, PartialEq, Eq, Structural, Debug)]
pub enum HdrFormat {
    /// Four 16-bit float channels.
    Rgba16Float,
    /// Four 32-bit float channels.
    Rgba32Float,
}

/// The HDR render target format: `Rgba16Float` when the adapter can render
/// to it, sample it and filter it (`rgba16_usable`), otherwise
/// `Rgba32Float`, which is also the fallback when neither is usable.
pub fn choose_hdr_format(rgba16_usable: bool) -> (f: HdrFormat)
    ensures
        f == (if rgba16_usable {
            HdrFormat::Rgba16Float
        } else {
            HdrFormat::Rgba32Float
        }),
{
    if rgba16_usable {
        HdrFormat::Rgba16Float
    } else {
        HdrFormat::Rgba32Float
    }
}

/// Position of the surface format to present with, among the formats the
/// surface supports (`is_srgb[i]` tells whether format `i` is an sRGB
/// format): the first sRGB format, or the first format when none is sRGB.
pub fn surface_format_index(is_srgb: &Vec<bool>) -> (i: usize)
    requires
        is_srgb.len() > 0,
    ensures
        i < is_srgb.len(),
        is_srgb[i as int] || i == 0,
        is_srgb[i as int] ==> forall|j: int| 0 <= j < i ==> !is_srgb[j],
        !is_srgb[i as int] ==> forall|j: int| 0 <= j < is_srgb.len() ==> !is_srgb[j],
{
    let mut k: usize = 0;
    while k < is_srgb.len()
        invariant
            k <= is_srgb.len(),
            forall|j: int| 0 <= j < k ==> !is_srgb[j],
        decreases is_srgb.len() - k,
    {
        if is_srgb[k] {
            return k;
        }
        k = k + 1;
    }
    0
}

/// Size of the surface configured for a window of `width` by `height`
/// pixels: each side at least one pixel.
pub fn surface_extent(width: u32, height: u32) -> (e: (u32, u32))
    ensures
        e.0 == (if width == 0 {
            1
        } else {
            width
        }),
        e.1 == (if height == 0 {
            1
        } else {
            height
        }),
{
    let w = if width == 0 {
        1
    } else {
        width
    };
    let h = if height == 0 {
        1
    } else {
        height
    };
    (w, h)
}

/// Whether a window resize to `width` by `height` pixels reconfigures the
/// surface: a minimised window (a side of zero) keeps the old surface.
pub fn resize_applies(width: u32, height: u32) -> (b: bool)
    ensures
        b == (width != 0 && height != 0),
{
    width != 0 && height != 0
}

} // verus!
