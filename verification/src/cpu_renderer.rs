//! A software RGB framebuffer that marks transformed entities with small squares, with the
//! statistics of each rendered frame.
//!
//! Pixel `(x, y)` of a `width`-wide framebuffer occupies the three bytes starting at
//! `3 * (y * width + x)`. Marker centres are signed pixel coordinates; the framebuffer's width
//! and height are compared with them as 32-bit signed values.
use vstd::arithmetic::div_mod::{lemma_fundamental_div_mod, lemma_fundamental_div_mod_converse};
use vstd::prelude::*;

verus! {

/// Work done for one rendered frame.
#[derive(Clone, Copy, Debug, PartialEq, Eq, Structural)]
pub struct FrameStats {
    pub submitted_commands: usize,
    pub drawn_pixels: usize,
}

impl Default for FrameStats {
    fn default() -> (r: Self)
        ensures
            r == (FrameStats { submitted_commands: 0, drawn_pixels: 0 }),
    {
        FrameStats { submitted_commands: 0, drawn_pixels: 0 }
    }
}

/// Distance from a marker's centre to its edge, in pixels.
pub const MARKER_RADIUS: i32 = 3;

/// Byte `channel` of the background colour.
pub open spec fn clear_rgb(channel: int) -> u8 {
    if channel == 0 {
        18
    } else if channel == 1 {
        22
    } else {
        30
    }
}

/// Byte `channel` of the marker colour.
pub open spec fn marker_rgb(channel: int) -> u8 {
    if channel == 0 {
        92
    } else if channel == 1 {
        201
    } else {
        255
    }
}

/// Bytes of a framebuffer: three per pixel, saturated at `u32::MAX`.
pub open spec fn frame_bytes(width: u32, height: u32) -> int {
    let n = width * height * 3;
    if n > u32::MAX {
        u32::MAX as int
    } else {
        n
    }
}

/// An extent as a 32-bit signed value.
pub open spec fn signed_extent(n: u32) -> int {
    if n <= i32::MAX {
        n as int
    } else {
        n - 0x1_0000_0000
    }
}

/// Whether the marker centred at `(cx, cy)` paints pixel `(x, y)`.
pub open spec fn covers(width: u32, height: u32, cx: int, cy: int, x: int, y: int) -> bool {
    &&& cx - MARKER_RADIUS <= x <= cx + MARKER_RADIUS
    &&& cy - MARKER_RADIUS <= y <= cy + MARKER_RADIUS
    &&& 0 <= x < signed_extent(width)
    &&& 0 <= y < signed_extent(height)
}

/// Row-major index of pixel `(x, y)`.
pub open spec fn pixel_index(width: u32, x: int, y: int) -> int {
    y * width + x
}

/// The marker centred at `(cx, cy)` can be drawn: its pixel coordinates are 32-bit and every
/// pixel it paints lies within the `len` bytes of the framebuffer.
pub open spec fn marker_fits(width: u32, height: u32, len: int, cx: int, cy: int) -> bool {
    &&& i32::MIN + MARKER_RADIUS <= cx <= i32::MAX - MARKER_RADIUS
    &&& i32::MIN + MARKER_RADIUS <= cy <= i32::MAX - MARKER_RADIUS
    &&& forall|x: int, y: int| #[trigger] covers(width, height, cx, cy, x, y) ==> 3 * pixel_index(width, x, y) + 3 <= len
}

/// Whether byte `k` belongs to a pixel the marker paints.
pub open spec fn byte_painted(width: u32, height: u32, cx: int, cy: int, k: int) -> bool {
    width > 0 && covers(width, height, cx, cy, (k / 3) % (width as int), (k / 3) / (width as int))
}

/// `bytes` with the marker centred at `(cx, cy)` painted over them.
pub open spec fn painted(bytes: Seq<u8>, width: u32, height: u32, cx: int, cy: int) -> Seq<u8> {
    Seq::new(bytes.len(), |k: int| if byte_painted(width, height, cx, cy, k) { marker_rgb(k % 3) } else { bytes[k] })
}

/// Number of positions in `[lo, hi)` that lie in `[0, extent)`.
pub open spec fn span_hits(lo: int, hi: int, extent: int) -> int {
    let a = if lo > 0 { lo } else { 0 };
    let b = if hi < extent { hi } else { extent };
    if b > a { b - a } else { 0 }
}

/// Number of pixels the marker centred at `(cx, cy)` paints.
pub open spec fn marker_pixels(width: u32, height: u32, cx: int, cy: int) -> int {
    span_hits(cx - MARKER_RADIUS, cx + MARKER_RADIUS + 1, signed_extent(width)) * span_hits(
        cy - MARKER_RADIUS,
        cy + MARKER_RADIUS + 1,
        signed_extent(height),
    )
}

/// `a + b`, saturated at `usize::MAX`.
pub open spec fn saturated(a: int, b: int) -> usize {
    if a + b > usize::MAX {
        usize::MAX
    } else {
        (a + b) as usize
    }
}

/// Bytes painted after the rows before offset `oy`, and the pixels before offset `ox` of row
/// `oy`, have been drawn.
spec fn painted_upto(bytes: Seq<u8>, width: u32, height: u32, cx: int, cy: int, oy: int, ox: int) -> Seq<u8> {
    Seq::new(
        bytes.len(),
        |k: int|
            if byte_painted(width, height, cx, cy, k) && ((k / 3) / (width as int) - cy < oy || ((k / 3) / (width as int)
                - cy == oy && (k / 3) % (width as int) - cx < ox)) {
                marker_rgb(k % 3)
            } else {
                bytes[k]
            },
    )
}

/// The bytes of pixel `(x, y)` are exactly those whose pixel coordinates are `(x, y)`.
proof fn lemma_pixel_bytes(width: u32, x: int, y: int, k: int)
    requires
        width > 0,
        0 <= x < width,
        0 <= y,
        0 <= k,
    ensures
        ((k / 3) % (width as int) == x && (k / 3) / (width as int) == y) <==> (3 * pixel_index(width, x, y) <= k < 3
            * pixel_index(width, x, y) + 3),
{
    let w = width as int;
    let p = pixel_index(width, x, y);
    assert(p == y * w + x);
    assert(y * w >= 0) by (nonlinear_arith)
        requires
            y >= 0,
            w > 0,
    ;
    if 3 * p <= k < 3 * p + 3 {
        assert(k / 3 == p);
        lemma_fundamental_div_mod_converse(p, w, y, x);
    }
    if (k / 3) % w == x && (k / 3) / w == y {
        lemma_fundamental_div_mod(k / 3, w);
        assert(w * ((k / 3) / w) == y * w) by (nonlinear_arith)
            requires
                (k / 3) / w == y,
        ;
        assert(k / 3 == p);
    }
}

/// A software framebuffer with the counters of the frame being rendered.
#[derive(Clone, Debug)]
pub struct CpuRenderer {
    width: u32,
    height: u32,
    pixels: Vec<u8>,
    submitted_commands: usize,
    drawn_pixels: usize,
    last_stats: FrameStats,
}

impl CpuRenderer {
    pub closed spec fn width_spec(&self) -> u32 {
        self.width
    }

    pub closed spec fn height_spec(&self) -> u32 {
        self.height
    }

    pub closed spec fn pixels_spec(&self) -> Seq<u8> {
        self.pixels@
    }

    pub closed spec fn submitted_spec(&self) -> usize {
        self.submitted_commands
    }

    pub closed spec fn drawn_spec(&self) -> usize {
        self.drawn_pixels
    }

    pub closed spec fn last_stats_spec(&self) -> FrameStats {
        self.last_stats
    }

    /// The framebuffer holds three bytes per pixel, saturated at `u32::MAX`.
    pub open spec fn wf(&self) -> bool {
        self.pixels_spec().len() == frame_bytes(self.width_spec(), self.height_spec())
    }

    /// A black framebuffer of `width` by `height` pixels with zeroed counters.
    pub fn new(width: u32, height: u32) -> (r: Self)
        ensures
            r.wf(),
            r.width_spec() == width,
            r.height_spec() == height,
            r.pixels_spec() == Seq::new(frame_bytes(width, height) as nat, |k: int| 0u8),
            r.submitted_spec() == 0,
            r.drawn_spec() == 0,
            r.last_stats_spec() == (FrameStats { submitted_commands: 0, drawn_pixels: 0 }),
    {
        let area: u32 = match width.checked_mul(height) {
            Some(n) => n,
            None => u32::MAX,
        };
        let bytes: u32 = match area.checked_mul(3) {
            Some(n) => n,
            None => u32::MAX,
        };
        proof {
            assert(width * height >= 0) by (nonlinear_arith);
        }
        let pixels = vec![0u8; bytes as usize];
        proof {
            assert(pixels@ =~= Seq::new(frame_bytes(width, height) as nat, |k: int| 0u8));
        }
        CpuRenderer {
            width,
            height,
            pixels,
            submitted_commands: 0,
            drawn_pixels: 0,
            last_stats: FrameStats { submitted_commands: 0, drawn_pixels: 0 },
        }
    }

    pub fn width(&self) -> (r: u32)
        ensures
            r == self.width_spec(),
    {
        self.width
    }

    pub fn height(&self) -> (r: u32)
        ensures
            r == self.height_spec(),
    {
        self.height
    }

    /// The RGB bytes of the framebuffer, row by row.
    pub fn framebuffer(&self) -> (r: &[u8])
        ensures
            r@ == self.pixels_spec(),
    {
        self.pixels.as_slice()
    }

    /// Statistics of the last finished frame.
    pub fn last_stats(&self) -> (r: FrameStats)
        ensures
            r == self.last_stats_spec(),
    {
        self.last_stats
    }

    /// Fills every pixel with the background colour.
    pub fn clear(&mut self)
        requires
            old(self).wf(),
        ensures
            final(self).wf(),
            final(self).width_spec() == old(self).width_spec(),
            final(self).height_spec() == old(self).height_spec(),
            final(self).pixels_spec() == Seq::new(old(self).pixels_spec().len(), |k: int| clear_rgb(k % 3)),
            final(self).submitted_spec() == old(self).submitted_spec(),
            final(self).drawn_spec() == old(self).drawn_spec(),
            final(self).last_stats_spec() == old(self).last_stats_spec(),
    {
        let len = self.pixels.len();
        proof {
            let n = self.width * self.height * 3;
            assert(n % 3 == 0) by (nonlinear_arith)
                requires
                    n == self.width * self.height * 3,
            ;
            assert(len % 3 == 0);
        }
        let mut i: usize = 0;
        while i < len
            invariant
                len == self.pixels@.len(),
                len % 3 == 0,
                i % 3 == 0,
                i <= len,
                self.width == old(self).width,
                self.height == old(self).height,
                self.submitted_commands == old(self).submitted_commands,
                self.drawn_pixels == old(self).drawn_pixels,
                self.last_stats == old(self).last_stats,
                forall|k: int| 0 <= k < i ==> #[trigger] self.pixels@[k] == clear_rgb(k % 3),
                forall|k: int| i <= k < len ==> #[trigger] self.pixels@[k] == old(self).pixels@[k],
            decreases len - i,
        {
            self.pixels[i] = 18;
            self.pixels[i + 1] = 22;
            self.pixels[i + 2] = 30;
            i = i + 3;
        }
        proof {
            assert(self.pixels@ =~= Seq::new(old(self).pixels_spec().len(), |k: int| clear_rgb(k % 3)));
        }
    }

    /// Whether the marker centred at pixel `(center_x, center_y)` can be drawn.
    pub fn marker_fits_at(&self, center_x: i32, center_y: i32) -> (r: bool)
        requires
            self.wf(),
        ensures
            r == marker_fits(self.width_spec(), self.height_spec(), self.pixels_spec().len() as int, center_x as int, center_y as int),
    {
        let ghost w = self.width_spec();
        let ghost h = self.height_spec();
        let ghost len = self.pixels_spec().len() as int;
        let ghost cx = center_x as int;
        let ghost cy = center_y as int;
        if center_x < i32::MIN + MARKER_RADIUS || center_x > i32::MAX - MARKER_RADIUS || center_y < i32::MIN
            + MARKER_RADIUS || center_y > i32::MAX - MARKER_RADIUS {
            return false;
        }
        let width_ext = signed_extent_of(self.width);
        let height_ext = signed_extent_of(self.height);
        let x_lo: i64 = if center_x as i64 - 3 > 0 { center_x as i64 - 3 } else { 0 };
        let x_hi: i64 = if center_x as i64 + 3 < width_ext - 1 { center_x as i64 + 3 } else { width_ext - 1 };
        let y_lo: i64 = if center_y as i64 - 3 > 0 { center_y as i64 - 3 } else { 0 };
        let y_hi: i64 = if center_y as i64 + 3 < height_ext - 1 { center_y as i64 + 3 } else { height_ext - 1 };
        if x_lo > x_hi || y_lo > y_hi {
            assert forall|x: int, y: int| #[trigger] covers(w, h, cx, cy, x, y) implies 3 * pixel_index(w, x, y) + 3
                <= len by {}
            return true;
        }
        proof {
            assert(y_hi * w <= 0x7fff_ffff * 0x7fff_ffff) by (nonlinear_arith)
                requires
                    0 <= y_hi <= 0x7fff_ffff,
                    0 <= w <= 0x7fff_ffff,
            ;
        }
        let last: u64 = (y_hi as u64 * self.width as u64 + x_hi as u64) * 3 + 3;
        let fits = last <= self.pixels.len() as u64;
        proof {
            assert(covers(w, h, cx, cy, x_hi as int, y_hi as int));
            if fits {
                assert forall|x: int, y: int| #[trigger] covers(w, h, cx, cy, x, y) implies 3 * pixel_index(w, x, y) + 3
                    <= len by {
                    assert(y * w <= y_hi * w) by (nonlinear_arith)
                        requires
                            0 <= y <= y_hi,
                            w >= 0,
                    ;
                }
            }
        }
        fits
    }

    /// Paints the marker centred at pixel `(center_x, center_y)`, clipped to the framebuffer,
    /// and counts each painted pixel.
    pub fn draw_marker_at(&mut self, center_x: i32, center_y: i32)
        requires
            old(self).wf(),
            marker_fits(
                old(self).width_spec(),
                old(self).height_spec(),
                old(self).pixels_spec().len() as int,
                center_x as int,
                center_y as int,
            ),
        ensures
            final(self).wf(),
            final(self).width_spec() == old(self).width_spec(),
            final(self).height_spec() == old(self).height_spec(),
            final(self).pixels_spec() == painted(
                old(self).pixels_spec(),
                old(self).width_spec(),
                old(self).height_spec(),
                center_x as int,
                center_y as int,
            ),
            final(self).drawn_spec() == saturated(
                old(self).drawn_spec() as int,
                marker_pixels(old(self).width_spec(), old(self).height_spec(), center_x as int, center_y as int),
            ),
            final(self).submitted_spec() == old(self).submitted_spec(),
            final(self).last_stats_spec() == old(self).last_stats_spec(),
    {
        let ghost w = self.width;
        let ghost h = self.height;
        let ghost cx = center_x as int;
        let ghost cy = center_y as int;
        let ghost start = self.pixels@;
        let ghost drawn0 = self.drawn_pixels as int;
        let ghost xs = span_hits(cx - 3, cx + 4, signed_extent(w));
        let width_ext = signed_extent_of(self.width);
        let height_ext = signed_extent_of(self.height);
        let mut offset_y: i32 = -MARKER_RADIUS;
        proof {
            assert(self.pixels@ =~= painted_upto(start, w, h, cx, cy, -3, -3));
        }
        while offset_y <= MARKER_RADIUS
            invariant
                self.wf(),
                self.width == w,
                self.height == h,
                self.submitted_commands == old(self).submitted_commands,
                self.last_stats == old(self).last_stats,
                start == old(self).pixels@,
                drawn0 == old(self).drawn_pixels,
                cx == center_x,
                cy == center_y,
                width_ext == signed_extent(w),
                height_ext == signed_extent(h),
                xs == span_hits(cx - 3, cx + 4, signed_extent(w)),
                marker_fits(w, h, start.len() as int, cx, cy),
                -3 <= offset_y <= 4,
                self.pixels@ == painted_upto(start, w, h, cx, cy, offset_y as int, -3),
                self.drawn_pixels == saturated(drawn0, xs * span_hits(cy - 3, cy + offset_y, signed_extent(h))),
            decreases 4 - offset_y,
        {
            let ghost row_start = self.drawn_pixels;
            let ghost row_hit = 0 <= cy + offset_y < signed_extent(h);
            let mut offset_x: i32 = -MARKER_RADIUS;
            while offset_x <= MARKER_RADIUS
                invariant
                    self.wf(),
                    self.width == w,
                    self.height == h,
                    self.submitted_commands == old(self).submitted_commands,
                    self.last_stats == old(self).last_stats,
                    start == old(self).pixels@,
                    cx == center_x,
                    cy == center_y,
                    width_ext == signed_extent(w),
                    height_ext == signed_extent(h),
                    marker_fits(w, h, start.len() as int, cx, cy),
                    xs == span_hits(cx - 3, cx + 4, signed_extent(w)),
                    -3 <= offset_y <= 3,
                    -3 <= offset_x <= 4,
                    row_hit == (0 <= cy + offset_y < signed_extent(h)),
                    self.pixels@ == painted_upto(start, w, h, cx, cy, offset_y as int, offset_x as int),
                    self.drawn_pixels == saturated(
                        row_start as int,
                        if row_hit { span_hits(cx - 3, cx + offset_x, signed_extent(w)) } else { 0 },
                    ),
                decreases 4 - offset_x,
            {
                let pixel_x = center_x + offset_x;
                let pixel_y = center_y + offset_y;
                let inside = !(pixel_x < 0 || pixel_y < 0 || pixel_x as i64 >= width_ext || pixel_y as i64
                    >= height_ext);
                let ghost before = self.pixels@;
                if inside {
                    proof {
                        assert(covers(w, h, cx, cy, pixel_x as int, pixel_y as int));
                    }
                    let index = (pixel_y as usize * self.width as usize + pixel_x as usize) * 3;
                    self.pixels[index] = 92;
                    self.pixels[index + 1] = 201;
                    self.pixels[index + 2] = 255;
                    self.drawn_pixels = self.drawn_pixels.saturating_add(1);
                    proof {
                        self.lemma_paint_step(before, start, cx, cy, offset_y as int, offset_x as int, index as int);
                    }
                } else {
                    proof {
                        assert(!covers(w, h, cx, cy, pixel_x as int, pixel_y as int));
                        lemma_skip_step(start, w, h, cx, cy, offset_y as int, offset_x as int);
                    }
                }
                offset_x = offset_x + 1;
            }
            proof {
                lemma_next_row(start, w, h, cx, cy, offset_y as int);
                let rows = span_hits(cy - 3, cy + offset_y, signed_extent(h));
                assert(span_hits(cy - 3, cy + offset_y + 1, signed_extent(h)) == rows + if row_hit { 1int } else { 0 });
                assert(xs * (rows + 1) == xs * rows + xs) by (nonlinear_arith);
                assert(xs * rows >= 0) by (nonlinear_arith)
                    requires
                        rows >= 0,
                        xs >= 0,
                ;
            }
            offset_y = offset_y + 1;
        }
        proof {
            assert(painted_upto(start, w, h, cx, cy, 4, -3) =~= painted(start, w, h, cx, cy));
        }
    }

    proof fn lemma_paint_step(&self, before: Seq<u8>, start: Seq<u8>, cx: int, cy: int, oy: int, ox: int, index: int)
        requires
            covers(self.width, self.height, cx, cy, cx + ox, cy + oy),
            index == 3 * pixel_index(self.width, cx + ox, cy + oy),
            before == painted_upto(start, self.width, self.height, cx, cy, oy, ox),
            self.pixels@ == before.update(index, 92u8).update(index + 1, 201u8).update(index + 2, 255u8),
            before.len() == start.len(),
            index + 3 <= start.len(),
        ensures
            self.pixels@ == painted_upto(start, self.width, self.height, cx, cy, oy, ox + 1),
    {
        let w = self.width;
        assert forall|k: int| 0 <= k < start.len() implies #[trigger] self.pixels@[k] == painted_upto(
            start,
            w,
            self.height,
            cx,
            cy,
            oy,
            ox + 1,
        )[k] by {
            lemma_pixel_bytes(w, cx + ox, cy + oy, k);
            if index <= k < index + 3 {
                assert(k % 3 == k - index);
            }
        }
        assert(self.pixels@ =~= painted_upto(start, w, self.height, cx, cy, oy, ox + 1));
    }
}

/// Skipping a pixel the marker does not paint leaves the painted bytes as they are.
proof fn lemma_skip_step(start: Seq<u8>, width: u32, height: u32, cx: int, cy: int, oy: int, ox: int)
    requires
        !covers(width, height, cx, cy, cx + ox, cy + oy),
    ensures
        painted_upto(start, width, height, cx, cy, oy, ox + 1) == painted_upto(start, width, height, cx, cy, oy, ox),
{
    assert forall|k: int| 0 <= k < start.len() implies #[trigger] painted_upto(start, width, height, cx, cy, oy, ox + 1)[k]
        == painted_upto(start, width, height, cx, cy, oy, ox)[k] by {
        if width > 0 && (k / 3) / (width as int) - cy == oy && (k / 3) % (width as int) - cx == ox {
            assert(!byte_painted(width, height, cx, cy, k));
        }
    }
    assert(painted_upto(start, width, height, cx, cy, oy, ox + 1) =~= painted_upto(start, width, height, cx, cy, oy, ox));
}

/// Finishing a row is starting the next one.
proof fn lemma_next_row(start: Seq<u8>, width: u32, height: u32, cx: int, cy: int, oy: int)
    ensures
        painted_upto(start, width, height, cx, cy, oy, 4) == painted_upto(start, width, height, cx, cy, oy + 1, -3),
{
    assert(painted_upto(start, width, height, cx, cy, oy, 4) =~= painted_upto(start, width, height, cx, cy, oy + 1, -3));
}

/// `n` as a 32-bit signed value, widened.
fn signed_extent_of(n: u32) -> (r: i64)
    ensures
        r == signed_extent(n),
{
    if n <= i32::MAX as u32 {
        n as i64
    } else {
        n as i64 - 0x1_0000_0000
    }
}

impl CpuRenderer {
    /// Starts a frame: clears the framebuffer and zeroes the frame's counters.
    pub fn begin_frame(&mut self)
        requires
            old(self).wf(),
        ensures
            final(self).wf(),
            final(self).width_spec() == old(self).width_spec(),
            final(self).height_spec() == old(self).height_spec(),
            final(self).pixels_spec() == Seq::new(old(self).pixels_spec().len(), |k: int| clear_rgb(k % 3)),
            final(self).submitted_spec() == 0,
            final(self).drawn_spec() == 0,
            final(self).last_stats_spec() == old(self).last_stats_spec(),
    {
        self.clear();
        self.submitted_commands = 0;
        self.drawn_pixels = 0;
    }

    /// Counts one submitted command, saturating.
    pub fn count_command(&mut self)
        ensures
            final(self).width_spec() == old(self).width_spec(),
            final(self).height_spec() == old(self).height_spec(),
            final(self).pixels_spec() == old(self).pixels_spec(),
            final(self).submitted_spec() == saturated(old(self).submitted_spec() as int, 1),
            final(self).drawn_spec() == old(self).drawn_spec(),
            final(self).last_stats_spec() == old(self).last_stats_spec(),
    {
        self.submitted_commands = self.submitted_commands.saturating_add(1);
    }

    /// Finishes a frame: its counters become the last statistics, which are returned.
    pub fn end_frame(&mut self) -> (r: FrameStats)
        ensures
            r == (FrameStats { submitted_commands: old(self).submitted_spec(), drawn_pixels: old(self).drawn_spec() }),
            final(self).last_stats_spec() == r,
            final(self).width_spec() == old(self).width_spec(),
            final(self).height_spec() == old(self).height_spec(),
            final(self).pixels_spec() == old(self).pixels_spec(),
            final(self).submitted_spec() == old(self).submitted_spec(),
            final(self).drawn_spec() == old(self).drawn_spec(),
    {
        self.last_stats = FrameStats { submitted_commands: self.submitted_commands, drawn_pixels: self.drawn_pixels };
        self.last_stats
    }
}

impl Default for CpuRenderer {
    fn default() -> (r: Self)
        ensures
            r.wf(),
            r.width_spec() == 640,
            r.height_spec() == 360,
            r.pixels_spec() == Seq::new(frame_bytes(640, 360) as nat, |k: int| 0u8),
            r.submitted_spec() == 0,
            r.drawn_spec() == 0,
            r.last_stats_spec() == (FrameStats { submitted_commands: 0, drawn_pixels: 0 }),
    {
        CpuRenderer::new(640, 360)
    }
}

} // verus!
