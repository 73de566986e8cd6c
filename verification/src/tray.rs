//! The icon in the system tray.
//!
//! Shows the icon of the currently selected item, in its accent colour on a dark rounded
//! square with a border.

use vstd::prelude::*;

use crate::config::Rgb;

verus! {

/// Icon size in pixels.
pub const ICON_SIZE: usize = 22;

/// Font size in pixels for active icons.
pub const GLYPH_PX: u32 = 16;

/// Font size in pixels for the idle "M", larger to fill the icon.
pub const IDLE_GLYPH_PX: u32 = 18;

/// Active background: a dark panel.
#[verifier::allow_in_spec]
pub fn active_bg() -> Rgb
    returns
        (Rgb { r: 0x1F, g: 0x1F, b: 0x28 }),
{
    Rgb { r: 0x1F, g: 0x1F, b: 0x28 }
}

/// Idle background: dark violet.
#[verifier::allow_in_spec]
pub fn idle_bg() -> Rgb
    returns
        (Rgb { r: 0x36, g: 0x2B, b: 0x50 }),
{
    Rgb { r: 0x36, g: 0x2B, b: 0x50 }
}

/// Border colour: a lighter violet that reads against both backgrounds.
#[verifier::allow_in_spec]
pub fn border() -> Rgb
    returns
        (Rgb { r: 0x7E, g: 0x6B, b: 0xA8 }),
{
    Rgb { r: 0x7E, g: 0x6B, b: 0xA8 }
}

/// Idle foreground: white.
#[verifier::allow_in_spec]
pub fn idle_fg() -> Rgb
    returns
        (Rgb { r: 0xFF, g: 0xFF, b: 0xFF }),
{
    Rgb { r: 0xFF, g: 0xFF, b: 0xFF }
}

// ── State ─────────────────────────────────────────────────────────────────────

/// What the tray icon shows.
#[derive(Debug)]
pub struct MofiTray {
    pub label: String,
    pub glyph: String,
    pub fg: Rgb,
    pub bg: Rgb,
    pub glyph_px: u32,
}

/// What a tray icon holds.
#[verifier::ext_equal]
pub struct TrayIcon {
    pub label: Seq<char>,
    pub glyph: Seq<char>,
    pub fg: Rgb,
    pub bg: Rgb,
    pub glyph_px: u32,
}

impl View for MofiTray {
    type V = TrayIcon;

    open spec fn view(&self) -> TrayIcon {
        TrayIcon {
            label: self.label@,
            glyph: self.glyph@,
            fg: self.fg,
            bg: self.bg,
            glyph_px: self.glyph_px,
        }
    }
}

/// The icon while the window is hidden.
pub open spec fn idle_icon() -> TrayIcon {
    TrayIcon {
        label: "mofi"@,
        glyph: "M"@,
        fg: idle_fg(),
        bg: idle_bg(),
        glyph_px: IDLE_GLYPH_PX,
    }
}

impl MofiTray {
    /// An idle icon.
    pub fn new() -> (t: Self)
        ensures
            t@ == idle_icon(),
    {
        MofiTray {
            label: "mofi".to_owned(),
            glyph: "M".to_owned(),
            fg: idle_fg(),
            bg: idle_bg(),
            glyph_px: IDLE_GLYPH_PX,
        }
    }

    /// Shows the given icon while the window is visible, and the idle icon otherwise.
    pub fn set_icon(&mut self, glyph: &str, fg: Rgb, label: &str, visible: bool)
        ensures
            final(self)@ == if visible {
                TrayIcon { label: label@, glyph: glyph@, fg, bg: active_bg(), glyph_px: GLYPH_PX }
            } else {
                idle_icon()
            },
    {
        if visible {
            self.glyph = glyph.to_owned();
            self.fg = fg;
            self.bg = active_bg();
            self.glyph_px = GLYPH_PX;
            self.label = label.to_owned();
        } else {
            self.glyph = "M".to_owned();
            self.fg = idle_fg();
            self.bg = idle_bg();
            self.glyph_px = IDLE_GLYPH_PX;
            self.label = "mofi".to_owned();
        }
    }
}

// ── Pixels ────────────────────────────────────────────────────────────────────

/// A pixel with its alpha.
#[derive(PartialEq, Eq, Structural, Clone, Copy, Debug)]
pub struct Argb {
    pub a: u8,
    pub r: u8,
    pub g: u8,
    pub b: u8,
}

/// How much of a pixel the background covers: the alpha of the inner square within that of
/// the outer one.
pub open spec fn inner_coverage(outer: u8, inner: u8) -> int {
    inner as int * outer as int / 255
}

/// One colour component of border and background in proportion to what they cover.
pub open spec fn blended(edge: u8, fill: u8, outer: u8, inner: u8) -> u8 {
    ((edge * (outer - inner_coverage(outer, inner)) + fill * inner_coverage(outer, inner))
        / outer as int) as u8
}

/// A pixel of the square: the border where only the outer square covers it, the background
/// where the inner one does.
pub open spec fn square_pixel(outer: u8, inner: u8, bg: Rgb) -> Argb {
    if outer == 0 {
        Argb { a: 0, r: 0, g: 0, b: 0 }
    } else {
        Argb {
            a: outer,
            r: blended(border().r, bg.r, outer, inner),
            g: blended(border().g, bg.g, outer, inner),
            b: blended(border().b, bg.b, outer, inner),
        }
    }
}

/// The alpha of a pixel under a foreground of the given coverage.
pub open spec fn alpha_over(coverage: u8, a: u8) -> int {
    coverage + a as int * (255 - coverage) / 255
}

/// One colour component of a pixel under a foreground of the given coverage.
pub open spec fn over(fg: u8, coverage: u8, x: u8, a: u8) -> u8 {
    let mixed = (fg as int * coverage as int + x as int * a as int * (255 - coverage) / 255)
        / alpha_over(coverage, a);
    if mixed > 255 {
        255
    } else {
        mixed as u8
    }
}

/// A pixel under a foreground of the given coverage.
pub open spec fn glyph_pixel(p: Argb, fg: Rgb, coverage: u8) -> Argb {
    if coverage == 0 {
        p
    } else {
        Argb {
            a: alpha_over(coverage, p.a) as u8,
            r: over(fg.r, coverage, p.r, p.a),
            g: over(fg.g, coverage, p.g, p.a),
            b: over(fg.b, coverage, p.b, p.a),
        }
    }
}

proof fn lemma_coverage(outer: u8, inner: u8)
    ensures
        0 <= inner_coverage(outer, inner) <= outer,
{
    assert(0 <= inner as int * outer as int <= 255 * outer as int) by (nonlinear_arith)
        requires
            0 <= inner as int <= 255,
            0 <= outer as int,
    ;
}

proof fn lemma_blend(edge: u8, fill: u8, outer: u8, inner: u8)
    requires
        outer > 0,
    ensures
        ({
            let k = inner_coverage(outer, inner);
            let sum = edge * (outer - k) + fill * k;
            &&& 0 <= sum <= 255 * 255
            &&& 0 <= sum / outer as int <= 255
        }),
{
    lemma_coverage(outer, inner);
    let k = inner_coverage(outer, inner);
    let o = outer as int;
    let sum = edge * (outer - k) + fill * k;
    assert(0 <= sum <= 255 * o && 255 * o <= 255 * 255) by (nonlinear_arith)
        requires
            0 <= edge as int <= 255,
            0 <= fill as int <= 255,
            0 <= k <= o,
            0 < o <= 255,
            sum == edge as int * (o - k) + fill as int * k,
    ;
    assert(0 <= sum / o <= 255) by (nonlinear_arith)
        requires
            0 <= sum <= 255 * o,
            0 < o,
    ;
}

fn blend(edge: u8, fill: u8, outer: u8, inner: u8) -> (r: u8)
    requires
        outer > 0,
    ensures
        r == blended(edge, fill, outer, inner),
{
    proof {
        lemma_coverage(outer, inner);
        lemma_blend(edge, fill, outer, inner);
        assert(0 <= inner as int * outer as int <= 255 * 255) by (nonlinear_arith)
            requires
                0 <= inner as int <= 255,
                0 <= outer as int <= 255,
        ;
    }
    let k: u32 = inner as u32 * outer as u32 / 255;
    let rest: u32 = outer as u32 - k;
    proof {
        let (e, f, x, y) = (edge as int, fill as int, rest as int, k as int);
        assert(0 <= e * x <= 255 * 255 && 0 <= f * y <= 255 * 255) by (nonlinear_arith)
            requires
                0 <= e <= 255,
                0 <= f <= 255,
                0 <= x <= 255,
                0 <= y <= 255,
        ;
    }
    let sum: u32 = edge as u32 * rest + fill as u32 * k;
    (sum / outer as u32) as u8
}

fn square(outer: u8, inner: u8, bg: Rgb) -> (r: Argb)
    ensures
        r == square_pixel(outer, inner, bg),
{
    if outer == 0 {
        Argb { a: 0, r: 0, g: 0, b: 0 }
    } else {
        let edge = border();
        Argb {
            a: outer,
            r: blend(edge.r, bg.r, outer, inner),
            g: blend(edge.g, bg.g, outer, inner),
            b: blend(edge.b, bg.b, outer, inner),
        }
    }
}

proof fn lemma_alpha_over(coverage: u8, a: u8)
    ensures
        coverage <= alpha_over(coverage, a) <= 255,
        0 <= a as int * (255 - coverage) <= 255 * 255,
{
    let x = a as int;
    let y = 255 - coverage;
    assert(0 <= x * y <= 255 * y && 255 * y <= 255 * 255) by (nonlinear_arith)
        requires
            0 <= x <= 255,
            0 <= y <= 255,
    ;
}

fn mix(fg: u8, coverage: u8, x: u8, a: u8) -> (r: u8)
    requires
        coverage > 0,
    ensures
        r == over(fg, coverage, x, a),
{
    proof {
        lemma_alpha_over(coverage, a);
        let (f, k, p, q, n) = (fg as int, coverage as int, x as int, a as int, 255 - coverage);
        assert(0 <= f * k <= 255 * 255 && 0 <= p * q <= 255 * 255) by (nonlinear_arith)
            requires
                0 <= f <= 255,
                0 <= k <= 255,
                0 <= p <= 255,
                0 <= q <= 255,
        ;
        assert(0 <= p * q * n <= 255 * 255 * 255) by (nonlinear_arith)
            requires
                0 <= p * q <= 255 * 255,
                0 <= n <= 255,
        ;
    }
    let n: u32 = 255 - coverage as u32;
    let out: u32 = coverage as u32 + a as u32 * n / 255;
    let under: u32 = x as u32 * a as u32 * n / 255;
    let mixed: u32 = (fg as u32 * coverage as u32 + under) / out;
    if mixed > 255 {
        255
    } else {
        mixed as u8
    }
}

fn put_glyph(p: Argb, fg: Rgb, coverage: u8) -> (r: Argb)
    ensures
        r == glyph_pixel(p, fg, coverage),
{
    if coverage == 0 {
        p
    } else {
        proof {
            lemma_alpha_over(coverage, p.a);
        }
        let out: u32 = coverage as u32 + p.a as u32 * (255 - coverage as u32) / 255;
        Argb {
            a: out as u8,
            r: mix(fg.r, coverage, p.r, p.a),
            g: mix(fg.g, coverage, p.g, p.a),
            b: mix(fg.b, coverage, p.b, p.a),
        }
    }
}

// ── Icon ──────────────────────────────────────────────────────────────────────

/// A rasterised glyph: how much of each pixel it covers, row by row.
#[derive(Debug)]
pub struct Bitmap {
    pub width: usize,
    pub height: usize,
    pub coverage: Vec<u8>,
}

impl Bitmap {
    /// There is a coverage for each pixel.
    pub open spec fn wf(&self) -> bool {
        &&& self.coverage@.len() == self.width * self.height
        &&& self.width <= i32::MAX
        &&& self.height <= i32::MAX
    }
}

/// Where a glyph of the given extent starts so that it is centred; before the icon where it
/// is larger.
pub open spec fn centred(extent: int) -> int {
    if extent <= ICON_SIZE {
        (ICON_SIZE - extent) / 2
    } else {
        -((extent - ICON_SIZE) / 2)
    }
}

/// How much of the pixel at column `x` and row `y` of the icon a glyph covers.
pub open spec fn coverage_at(glyph: Option<Bitmap>, x: int, y: int) -> u8 {
    match glyph {
        Some(g) => {
            let gx = x - centred(g.width as int);
            let gy = y - centred(g.height as int);
            if 0 <= gx < g.width && 0 <= gy < g.height {
                g.coverage@[gy * g.width + gx]
            } else {
                0
            }
        },
        None => 0,
    }
}

/// The pixel at column `x` and row `y` of the icon: border, background, glyph, one over the
/// other.
pub open spec fn icon_pixel(
    outer: Seq<u8>,
    inner: Seq<u8>,
    glyph: Option<Bitmap>,
    fg: Rgb,
    bg: Rgb,
    x: int,
    y: int,
) -> Argb {
    let i = y * ICON_SIZE + x;
    glyph_pixel(square_pixel(outer[i], inner[i], bg), fg, coverage_at(glyph, x, y))
}

/// The number of pixels of the icon.
pub const PIXELS: usize = 484;

/// The bytes of pixels, four for each.
pub open spec fn pixel_bytes(p: Seq<Argb>) -> Seq<u8>
    decreases p.len(),
{
    if p.len() == 0 {
        seq![]
    } else {
        pixel_bytes(p.drop_last()) + seq![p.last().a, p.last().r, p.last().g, p.last().b]
    }
}

/// The pixels of the icon, row by row.
pub open spec fn icon_pixels(
    outer: Seq<u8>,
    inner: Seq<u8>,
    glyph: Option<Bitmap>,
    fg: Rgb,
    bg: Rgb,
) -> Seq<Argb> {
    Seq::new(
        PIXELS as nat,
        |i: int|
            icon_pixel(
                outer,
                inner,
                glyph,
                fg,
                bg,
                i % ICON_SIZE as int,
                i / ICON_SIZE as int,
            ),
    )
}

fn centre(extent: usize) -> (r: i64)
    requires
        extent <= i32::MAX,
    ensures
        r == centred(extent as int),
{
    if extent <= ICON_SIZE {
        ((ICON_SIZE - extent) / 2) as i64
    } else {
        -(((extent - ICON_SIZE) / 2) as i64)
    }
}

fn coverage_of(glyph: &Option<Bitmap>, x: usize, y: usize) -> (r: u8)
    requires
        *glyph matches Some(g) ==> g.wf(),
        x < ICON_SIZE,
        y < ICON_SIZE,
    ensures
        r == coverage_at(*glyph, x as int, y as int),
{
    match glyph {
        Some(g) => {
            let gx: i64 = x as i64 - centre(g.width);
            let gy: i64 = y as i64 - centre(g.height);
            if 0 <= gx && gx < g.width as i64 && 0 <= gy && gy < g.height as i64 {
                let col: usize = gx as usize;
                let row: usize = gy as usize;
                let n: usize = g.coverage.len();
                proof {
                    let (w, h, p, q) = (g.width as int, g.height as int, col as int, row as int);
                    assert(0 <= q * w && q * w + p < w * h) by (nonlinear_arith)
                        requires
                            0 <= p < w,
                            0 <= q < h,
                    ;
                    assert(q * w + p < n);
                }
                g.coverage[row * g.width + col]
            } else {
                0
            }
        },
        None => 0,
    }
}

/// Renders the icon: border, then background, then glyph. `outer` and `inner` are the
/// alphas of the outer and the inner rounded square. Returns four bytes for each pixel,
/// alpha first, row by row.
pub fn render_icon(
    outer: &Vec<u8>,
    inner: &Vec<u8>,
    glyph: &Option<Bitmap>,
    fg: Rgb,
    bg: Rgb,
) -> (r: Vec<u8>)
    requires
        outer@.len() == PIXELS,
        inner@.len() == PIXELS,
        *glyph matches Some(g) ==> g.wf(),
    ensures
        r@ == pixel_bytes(icon_pixels(outer@, inner@, *glyph, fg, bg)),
{
    let ghost all = icon_pixels(outer@, inner@, *glyph, fg, bg);
    let mut argb: Vec<u8> = Vec::new();
    let mut i: usize = 0;
    assert(argb@ =~= pixel_bytes(all.take(0)));
    while i < PIXELS
        invariant
            i <= PIXELS,
            outer@.len() == PIXELS,
            inner@.len() == PIXELS,
            *glyph matches Some(g) ==> g.wf(),
            all == icon_pixels(outer@, inner@, *glyph, fg, bg),
            argb@ == pixel_bytes(all.take(i as int)),
        decreases PIXELS - i,
    {
        let x: usize = i % ICON_SIZE;
        let y: usize = i / ICON_SIZE;
        let base = square(outer[i], inner[i], bg);
        let p = put_glyph(base, fg, coverage_of(glyph, x, y));
        proof {
            assert(y * ICON_SIZE + x == i);
            assert(all[i as int] == p);
            assert(all.take(i as int + 1).drop_last() =~= all.take(i as int));
            assert(all.take(i as int + 1).last() == p);
        }
        argb.push(p.a);
        argb.push(p.r);
        argb.push(p.g);
        argb.push(p.b);
        i = i + 1;
        assert(argb@ =~= pixel_bytes(all.take(i as int)));
    }
    assert(all.take(i as int) =~= all);
    argb
}

/// The border is the same in the idle and in the active state: where the inner square does
/// not reach, a pixel does not depend on the background.
pub proof fn law_border_persists(outer: u8, bg: Rgb)
    requires
        outer > 0,
    ensures
        square_pixel(outer, 0, bg) == (Argb {
            a: outer,
            r: border().r,
            g: border().g,
            b: border().b,
        }),
{
    lemma_only_edge(border().r, bg.r, outer);
    lemma_only_edge(border().g, bg.g, outer);
    lemma_only_edge(border().b, bg.b, outer);
}

proof fn lemma_only_edge(edge: u8, fill: u8, outer: u8)
    requires
        outer > 0,
    ensures
        blended(edge, fill, outer, 0) == edge,
{
    let (e, o) = (edge as int, outer as int);
    assert(inner_coverage(outer, 0) == 0);
    assert(e * o / o == e) by (nonlinear_arith)
        requires
            o > 0,
    ;
    assert(fill as int * 0 == 0);
}

/// Where the inner square covers a pixel of the outer one whole, the pixel is of the
/// background colour.
pub proof fn law_background_fills(bg: Rgb)
    ensures
        square_pixel(255, 255, bg) == (Argb { a: 255, r: bg.r, g: bg.g, b: bg.b }),
{
    assert(inner_coverage(255, 255) == 255);
    assert(forall|e: u8, f: u8| #[trigger] blended(e, f, 255, 255) == f);
}

/// Where a glyph covers a pixel whole, the pixel is of the foreground colour.
pub proof fn law_glyph_covers(p: Argb, fg: Rgb)
    ensures
        glyph_pixel(p, fg, 255) == (Argb { a: 255, r: fg.r, g: fg.g, b: fg.b }),
{
    lemma_only_glyph(fg.r, p.r, p.a);
    lemma_only_glyph(fg.g, p.g, p.a);
    lemma_only_glyph(fg.b, p.b, p.a);
}

proof fn lemma_only_glyph(fg: u8, x: u8, a: u8)
    ensures
        alpha_over(255, a) == 255,
        over(fg, 255, x, a) == fg,
{
    assert(a as int * (255 - 255u8) == 0) by (nonlinear_arith);
    assert(x as int * a as int * (255 - 255u8) == 0) by (nonlinear_arith);
}

/// The icon takes four bytes for each pixel.
pub proof fn law_icon_size(p: Seq<Argb>)
    ensures
        pixel_bytes(p).len() == 4 * p.len(),
    decreases p.len(),
{
    if p.len() > 0 {
        law_icon_size(p.drop_last());
    }
}

/// The bytes of the icon are alpha, red, green and blue of its pixels, one after the other.
pub proof fn law_pixel_bytes(p: Seq<Argb>, i: int)
    requires
        0 <= i < p.len(),
    ensures
        pixel_bytes(p).len() == 4 * p.len(),
        pixel_bytes(p)[4 * i] == p[i].a,
        pixel_bytes(p)[4 * i + 1] == p[i].r,
        pixel_bytes(p)[4 * i + 2] == p[i].g,
        pixel_bytes(p)[4 * i + 3] == p[i].b,
    decreases p.len(),
{
    law_icon_size(p);
    law_icon_size(p.drop_last());
    if i < p.len() - 1 {
        law_pixel_bytes(p.drop_last(), i);
    }
}

/// A glyph has as much space on one side as on the other, but for one pixel; one that is
/// larger than the icon stands out on both sides as much.
pub proof fn law_glyph_centred(extent: int)
    requires
        0 <= extent,
    ensures
        -1 <= 22 - extent - 2 * centred(extent) <= 1,
{
}

/// A pixel of the icon is covered by the pixel of the glyph that stands on it, and where none
/// does, not at all.
pub proof fn law_coverage(g: Bitmap, gx: int, gy: int)
    requires
        0 <= gx < g.width,
        0 <= gy < g.height,
    ensures
        coverage_at(Some(g), centred(g.width as int) + gx, centred(g.height as int) + gy)
            == g.coverage@[gy * g.width + gx],
        forall|x: int, y: int|
            x < centred(g.width as int) || x >= centred(g.width as int) + g.width ==>
            #[trigger] coverage_at(Some(g), x, y) == 0,
        forall|x: int, y: int|
            y < centred(g.height as int) || y >= centred(g.height as int) + g.height ==>
            #[trigger] coverage_at(Some(g), x, y) == 0,
        forall|x: int, y: int| #[trigger] coverage_at(None, x, y) == 0,
{
}

/// A mixed colour lies between border and background.
pub proof fn law_blend_between(edge: u8, fill: u8, outer: u8, inner: u8)
    requires
        outer > 0,
    ensures
        edge <= fill ==> edge <= blended(edge, fill, outer, inner) <= fill,
        fill <= edge ==> fill <= blended(edge, fill, outer, inner) <= edge,
{
    lemma_coverage(outer, inner);
    lemma_blend(edge, fill, outer, inner);
    let (e, f, o, k) = (edge as int, fill as int, outer as int, inner_coverage(outer, inner));
    let sum = e * (o - k) + f * k;
    if e <= f {
        assert(e * o <= sum <= f * o) by (nonlinear_arith)
            requires
                0 <= k <= o,
                e <= f,
                sum == e * (o - k) + f * k,
        ;
        lemma_between(sum, e, f, o);
    } else {
        assert(f * o <= sum <= e * o) by (nonlinear_arith)
            requires
                0 <= k <= o,
                f <= e,
                sum == e * (o - k) + f * k,
        ;
        lemma_between(sum, f, e, o);
    }
}

proof fn lemma_between(sum: int, low: int, high: int, o: int)
    requires
        low * o <= sum <= high * o,
        o > 0,
    ensures
        low <= sum / o <= high,
{
    assert(low <= sum / o <= high) by (nonlinear_arith)
        requires
            low * o <= sum <= high * o,
            o > 0,
    ;
}

/// Putting a glyph on a pixel never makes it more transparent, and a pixel that the glyph does
/// not cover stays as it is.
pub proof fn law_glyph_alpha(p: Argb, fg: Rgb, coverage: u8)
    ensures
        glyph_pixel(p, fg, 0) == p,
        coverage > 0 ==> glyph_pixel(p, fg, coverage).a >= coverage,
        p.a == 255 ==> glyph_pixel(p, fg, coverage).a == 255,
{
    lemma_alpha_over(coverage, p.a);
    if p.a == 255 {
        assert(255 * (255 - coverage) / 255 == 255 - coverage);
    }
}

/// The icon has 22 rows of 22 pixels, each with the square of its place and the glyph over it.
pub proof fn law_icon_pixel(
    outer: Seq<u8>,
    inner: Seq<u8>,
    glyph: Option<Bitmap>,
    fg: Rgb,
    bg: Rgb,
    x: int,
    y: int,
)
    requires
        0 <= x < 22,
        0 <= y < 22,
    ensures
        icon_pixels(outer, inner, glyph, fg, bg).len() == 22 * 22,
        icon_pixels(outer, inner, glyph, fg, bg)[22 * y + x] == glyph_pixel(
            square_pixel(outer[22 * y + x], inner[22 * y + x], bg),
            fg,
            coverage_at(glyph, x, y),
        ),
        outer[22 * y + x] == 0 && coverage_at(glyph, x, y) == 0 ==> icon_pixels(
            outer,
            inner,
            glyph,
            fg,
            bg,
        )[22 * y + x].a == 0,
{
    let i = 22 * y + x;
    assert(i % 22 == x && i / 22 == y);
}

} // verus!
