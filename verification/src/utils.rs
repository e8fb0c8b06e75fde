//! Small helpers around the simulation: buffer alignment and the
//! background gradient that fills a freshly created color buffer.

use vstd::prelude::*;

verus! {

/// Rounds `size` up to the next multiple of `alignment`: the result is
/// the unique multiple of `alignment` in `[size, size + alignment)`.
pub fn align_buffer_size(size: u64, alignment: u64) -> (r: u64)
    requires
        alignment >= 1,
        size <= u64::MAX - alignment + 1,
    ensures
        r % alignment == 0,
        size <= r,
        r < size + alignment,
{
    let m: u64 = alignment - 1;
    let s: u64 = size + m;
    let q: u64 = s / alignment;
    proof {
        assert(q * alignment <= s && q * alignment + alignment > s && (q * alignment) % (
        alignment as int) == 0) by (nonlinear_arith)
            requires
                alignment >= 1,
                q == s / alignment,
        ;
    }
    q * alignment
}

/// One byte of the background gradient for a `w * h` RGBA buffer.
///
/// Pixel `(x, y)` has red rising left to right (`x * 255 / w`,
/// truncated), green rising top to bottom (`y * 255 / h`, rounded to
/// nearest), and blue and alpha fixed at 255.
pub open spec fn bg_byte(w: int, h: int, j: int) -> u8 {
    let p = j / 4;
    let k = j % 4;
    let x = p % w;
    let y = p / w;
    if k == 0 {
        ((x * 255) / w) as u8
    } else if k == 1 {
        ((y * 510 + h) / (2 * h)) as u8
    } else {
        255u8
    }
}

/// The full background gradient, row-major, four bytes per pixel.
pub open spec fn spec_background(w: int, h: int) -> Seq<u8> {
    Seq::new((4 * (w * h)) as nat, |j: int| bg_byte(w, h, j))
}

/// Decomposing a row-major pixel number back into its coordinates.
proof fn lemma_pixel_decompose(w: int, x: int, y: int)
    by (nonlinear_arith)
    requires
        0 <= x < w,
        0 <= y,
    ensures
        (y * w + x) % w == x,
        (y * w + x) / w == y,
{
}

/// Decomposing a byte index into its pixel number and channel.
proof fn lemma_channel_decompose(p: int, k: int)
    by (nonlinear_arith)
    requires
        0 <= p,
        0 <= k < 4,
    ensures
        (4 * p + k) / 4 == p,
        (4 * p + k) % 4 == k,
{
}

/// The two gradient channel formulas stay inside one byte.
proof fn lemma_gradient_fits(w: int, h: int, x: int, y: int)
    by (nonlinear_arith)
    requires
        0 <= x < w,
        0 <= y < h,
    ensures
        0 <= (x * 255) / w < 256,
        0 <= (y * 510 + h) / (2 * h) < 256,
{
}

/// Builds the background color buffer for a fresh `width * height`
/// grid: every byte equals [`spec_background`].
pub fn new_texture(width: usize, height: usize) -> (data: Vec<u8>)
    requires
        1 <= width,
        1 <= height,
        4 * (width * height) <= usize::MAX,
    ensures
        data@ == spec_background(width as int, height as int),
        data@.len() == 4 * (width * height),
{
    let size: usize = width * height * 4;
    let mut res: Vec<u8> = vec![255u8; size];
    let mut y: usize = 0;
    while y < height
        invariant
            1 <= width,
            1 <= height,
            4 * (width * height) <= usize::MAX,
            y <= height,
            res@.len() == 4 * (width * height),
            forall|j: int|
                0 <= j < 4 * (y * width) ==> res@[j] == bg_byte(width as int, height as int, j),
        decreases height - y,
    {
        proof {
            lemma_gradient_fits(width as int, height as int, 0, y as int);
        }
        let g_byte: u8 = (((y as u128) * 510 + (height as u128)) / (2 * (height as u128))) as u8;
        let mut x: usize = 0;
        while x < width
            invariant
                1 <= width,
                1 <= height,
                4 * (width * height) <= usize::MAX,
                y < height,
                x <= width,
                res@.len() == 4 * (width * height),
                g_byte == ((y * 510 + height) / (2 * (height as int))) as u8,
                forall|j: int|
                    0 <= j < 4 * (y * width + x) ==> res@[j] == bg_byte(
                        width as int,
                        height as int,
                        j,
                    ),
            decreases width - x,
        {
            proof {
                crate::primitives::lemma_pixel_index_bounds(
                    width as int,
                    height as int,
                    x as int,
                    y as int,
                );
                lemma_gradient_fits(width as int, height as int, x as int, y as int);
            }
            let r_byte: u8 = (((x as u128) * 255) / (width as u128)) as u8;
            let i: usize = (y * width + x) * 4;
            res[i] = r_byte;
            res[i + 1] = g_byte;
            res[i + 2] = 255;
            res[i + 3] = 255;
            proof {
                let p: int = y * width + x;
                lemma_pixel_decompose(width as int, x as int, y as int);
                lemma_channel_decompose(p, 0);
                lemma_channel_decompose(p, 1);
                lemma_channel_decompose(p, 2);
                lemma_channel_decompose(p, 3);
                assert forall|j: int| 0 <= j < 4 * (p + 1) implies res@[j] == bg_byte(
                    width as int,
                    height as int,
                    j,
                ) by {
                    if j < 4 * p {
                    } else {
                        lemma_channel_decompose(p, j - 4 * p);
                    }
                }
            }
            x += 1;
        }
        proof {
            assert(y * width + width == (y + 1) * width) by (nonlinear_arith);
        }
        y += 1;
    }
    proof {
        assert(height * width == width * height) by (nonlinear_arith);
        assert(res@ =~= spec_background(width as int, height as int));
    }
    res
}

#[verifier::external_type_specification]
#[verifier::external_body]
pub struct ExInstant(std::time::Instant);

/// Relies on `std::time::Instant::now`: an opaque reading of the
/// monotonic clock; nothing can be promised about its value.
#[verifier::external_body]
fn instant_now() -> std::time::Instant {
    std::time::Instant::now()
}

/// Relies on `std::time::Instant::saturating_duration_since`: the time
/// elapsed from `earlier` to `later`, or zero if `earlier` is the
/// later of the two; the value depends on the clock readings, so
/// nothing more can be promised about it.
#[verifier::external_body]
fn duration_between(earlier: &std::time::Instant, later: &std::time::Instant) -> core::time::Duration {
    later.saturating_duration_since(*earlier)
}

/// Relies on `Duration` being `Copy`: the returned value is the very
/// duration referred to.
#[verifier::external_body]
fn duration_copy(d: &core::time::Duration) -> (r: core::time::Duration)
    ensures
        r == *d,
{
    *d
}

/// Relies on `Duration::new`: builds the zero duration.
#[verifier::external_body]
fn duration_zero() -> core::time::Duration {
    core::time::Duration::new(0, 0)
}

/// A frame timer: remembers the instant of the previous tick and the
/// interval measured by it.
pub struct FrameTime {
    last_frame_instant: std::time::Instant,
    last_frame_dt: core::time::Duration,
}

impl FrameTime {
    /// The interval measured by the most recent tick.
    pub closed spec fn spec_dt(self) -> core::time::Duration {
        self.last_frame_dt
    }

    pub fn new() -> Self {
        FrameTime { last_frame_instant: instant_now(), last_frame_dt: duration_zero() }
    }

    /// Measures and stores the time elapsed since the previous tick
    /// (or since creation), and starts the next interval.
    pub fn tick(&mut self) -> (dt: core::time::Duration)
        ensures
            final(self).spec_dt() == dt,
    {
        let now: std::time::Instant = instant_now();
        let dt: core::time::Duration = duration_between(&self.last_frame_instant, &now);
        self.last_frame_dt = duration_copy(&dt);
        self.last_frame_instant = now;
        dt
    }

    /// The interval measured by the most recent tick.
    pub fn get_dt(&self) -> (dt: core::time::Duration)
        ensures
            dt == self.spec_dt(),
    {
        duration_copy(&self.last_frame_dt)
    }
}

} // verus!
