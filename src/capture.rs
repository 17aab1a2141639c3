use vstd::prelude::*;
use rayon::iter::{IndexedParallelIterator, IntoParallelIterator, ParallelIterator};
use crate::region::{Rect, Region};

verus! {

/// How the bytes of one pixel are laid out in a frame buffer.
#[derive(Clone, Copy, Debug, PartialEq, Eq, Structural)]
pub enum PixelFormat {
    /// Three bytes: red, green, blue.
    Rgb,
    /// Four bytes: red, green, blue, alpha.
    Rgba,
}

impl PixelFormat {
    pub open spec fn spec_bytes_per_pixel(self) -> int {
        match self {
            PixelFormat::Rgb => 3,
            PixelFormat::Rgba => 4,
        }
    }

    pub fn bytes_per_pixel(&self) -> (r: usize)
        ensures
            r as int == self.spec_bytes_per_pixel(),
    {
        match self {
            PixelFormat::Rgb => 3,
            PixelFormat::Rgba => 4,
        }
    }
}

/// Which sampled pixels take part in an average.
#[derive(Clone, Copy, Debug, PartialEq, Eq, Structural)]
pub enum ExclusionPolicy {
    /// Every sampled pixel counts.
    IncludeAll,
    /// Pure black pixels, and fully transparent ones where the buffer has
    /// alpha, are left out.
    ExcludeBlack,
}

/// One captured image: `width` by `height` pixels, row-major.
pub struct Frame {
    pub width: usize,
    pub height: usize,
    pub format: PixelFormat,
    pub data: Vec<u8>,
}

/// Per-channel sums of counted pixels, and how many were counted.
#[derive(Clone, Copy, Debug, PartialEq, Eq)]
pub struct PixelSum {
    pub red: u128,
    pub green: u128,
    pub blue: u128,
    pub count: u128,
}

impl View for PixelSum {
    type V = (int, int, int, int);

    open spec fn view(&self) -> (int, int, int, int) {
        (self.red as int, self.green as int, self.blue as int, self.count as int)
    }
}

/// The distance from `lo` up to `hi`, or zero where `hi` is not above `lo`.
pub open spec fn span(lo: int, hi: int) -> int {
    if lo < hi {
        hi - lo
    } else {
        0
    }
}

pub open spec fn sum_plus(a: (int, int, int, int), b: (int, int, int, int)) -> (int, int, int, int) {
    (a.0 + b.0, a.1 + b.1, a.2 + b.2, a.3 + b.3)
}

pub open spec fn sum_zero() -> (int, int, int, int) {
    (0, 0, 0, 0)
}

/// Every channel sum is between zero and 255 times the count.
pub open spec fn sum_bounded(s: (int, int, int, int)) -> bool {
    &&& 0 <= s.3
    &&& 0 <= s.0 <= 255 * s.3
    &&& 0 <= s.1 <= 255 * s.3
    &&& 0 <= s.2 <= 255 * s.3
}

impl Frame {
    /// The buffer holds every pixel of the frame.
    pub open spec fn wf(&self) -> bool {
        self.width * self.height * self.format.spec_bytes_per_pixel() <= self.data@.len()
    }

    /// Byte `c` of the pixel at `(x, y)`.
    pub open spec fn channel(&self, x: int, y: int, c: int) -> int {
        self.data@[(y * self.width + x) * self.format.spec_bytes_per_pixel() + c] as int
    }

    /// Whether the pixel at `(x, y)` takes part in an average under `policy`.
    pub open spec fn is_counted(&self, policy: ExclusionPolicy, x: int, y: int) -> bool {
        match policy {
            ExclusionPolicy::IncludeAll => true,
            ExclusionPolicy::ExcludeBlack => {
                &&& !(self.channel(x, y, 0) == 0 && self.channel(x, y, 1) == 0 && self.channel(
                    x,
                    y,
                    2,
                ) == 0)
                &&& !(self.format == PixelFormat::Rgba && self.channel(x, y, 3) == 0)
            },
        }
    }

    /// What the pixel at `(x, y)` adds to the sums.
    pub open spec fn sample(&self, policy: ExclusionPolicy, x: int, y: int) -> (int, int, int, int) {
        if self.is_counted(policy, x, y) {
            (self.channel(x, y, 0), self.channel(x, y, 1), self.channel(x, y, 2), 1)
        } else {
            sum_zero()
        }
    }

    /// Sums over the samples `x, x + stride, ...` below `x_end` of row `y`.
    pub open spec fn row_sum(
        &self,
        policy: ExclusionPolicy,
        y: int,
        x: int,
        x_end: int,
        stride: int,
    ) -> (int, int, int, int)
        decreases span(x, x_end),
    {
        if x < x_end && stride > 0 {
            sum_plus(self.sample(policy, x, y), self.row_sum(policy, y, x + stride, x_end, stride))
        } else {
            sum_zero()
        }
    }

    /// Sums over the rows `y, y + stride, ...` below `y_end`, each sampled
    /// from `x_start` below `x_end` at the same stride.
    pub open spec fn rows_sum(
        &self,
        policy: ExclusionPolicy,
        x_start: int,
        x_end: int,
        y: int,
        y_end: int,
        stride: int,
    ) -> (int, int, int, int)
        decreases span(y, y_end),
    {
        if y < y_end && stride > 0 {
            sum_plus(
                self.row_sum(policy, y, x_start, x_end, stride),
                self.rows_sum(policy, x_start, x_end, y + stride, y_end, stride),
            )
        } else {
            sum_zero()
        }
    }

    /// Sums over the strided samples of `region`.
    pub open spec fn region_sum(
        &self,
        region: Region,
        stride: int,
        policy: ExclusionPolicy,
    ) -> (int, int, int, int) {
        let w = region.spec_rect(self.width as int, self.height as int);
        self.rows_sum(policy, w.0, w.1, w.2, w.3, stride)
    }

    /// The color of `region`: the truncated per-channel mean of its counted
    /// samples, or black where none was counted.
    pub open spec fn spec_aggregate(
        &self,
        region: Region,
        stride: int,
        policy: ExclusionPolicy,
    ) -> (int, int, int) {
        mean_of(self.region_sum(region, stride, policy))
    }
}

pub open spec fn mean_of(s: (int, int, int, int)) -> (int, int, int) {
    if s.3 > 0 {
        (s.0 / s.3, s.1 / s.3, s.2 / s.3)
    } else {
        (0, 0, 0)
    }
}

/// How many of `0, stride, 2 * stride, ...` lie below `d`.
pub open spec fn steps(d: int, stride: int) -> nat
    decreases span(0, d),
{
    if d > 0 && stride > 0 {
        1 + steps(d - stride, stride)
    } else {
        0
    }
}

proof fn lemma_steps(d: int, stride: int, k: int)
    requires
        stride > 0,
        k >= 0,
    ensures
        k < steps(d, stride) <==> k * stride < d,
    decreases span(0, d),
{
    if d > 0 && k > 0 {
        lemma_steps(d - stride, stride, k - 1);
        assert((k - 1) * stride == k * stride - stride) by (nonlinear_arith);
    } else if d <= 0 {
        assert(k * stride >= 0) by (nonlinear_arith)
            requires
                k >= 0,
                stride > 0,
        ;
    }
}

proof fn lemma_row_bounds(
    f: &Frame,
    policy: ExclusionPolicy,
    y: int,
    x: int,
    x_end: int,
    stride: int,
)
    requires
        stride > 0,
    ensures
        sum_bounded(f.row_sum(policy, y, x, x_end, stride)),
        f.row_sum(policy, y, x, x_end, stride).3 <= if x < x_end {
            x_end - x
        } else {
            0
        },
    decreases span(x, x_end),
{
    if x < x_end {
        lemma_row_bounds(f, policy, y, x + stride, x_end, stride);
        if f.is_counted(policy, x, y) {
            let i = (y * f.width + x) * f.format.spec_bytes_per_pixel();
            assert(f.data@[i] <= 255 && f.data@[i + 1] <= 255 && f.data@[i + 2] <= 255);
        }
    }
}

proof fn lemma_rows_bounds(
    f: &Frame,
    policy: ExclusionPolicy,
    x_start: int,
    x_end: int,
    y: int,
    y_end: int,
    stride: int,
)
    requires
        stride > 0,
        x_start <= x_end,
    ensures
        sum_bounded(f.rows_sum(policy, x_start, x_end, y, y_end, stride)),
        f.rows_sum(policy, x_start, x_end, y, y_end, stride).3 <= if y < y_end {
            (x_end - x_start) * (y_end - y)
        } else {
            0
        },
    decreases span(y, y_end),
{
    if y < y_end {
        lemma_row_bounds(f, policy, y, x_start, x_end, stride);
        lemma_rows_bounds(f, policy, x_start, x_end, y + stride, y_end, stride);
        let rest = f.rows_sum(policy, x_start, x_end, y + stride, y_end, stride).3;
        let row = f.row_sum(policy, y, x_start, x_end, stride).3;
        let w = x_end - x_start;
        assert(row + rest <= w * (y_end - y)) by (nonlinear_arith)
            requires
                w >= 0,
                row <= w,
                y + stride < y_end ==> rest <= w * (y_end - y - stride),
                y + stride >= y_end ==> rest <= 0,
                stride > 0,
                y < y_end,
        ;
    }
}

impl Frame {
    /// Whether the buffer holds every pixel of the frame.
    pub fn is_well_formed(&self) -> (r: bool)
        ensures
            r == self.wf(),
    {
        let bpp = self.format.bytes_per_pixel();
        let len = self.data.len();
        match self.width.checked_mul(self.height) {
            Some(area) => match area.checked_mul(bpp) {
                Some(bytes) => bytes <= len,
                None => {
                    assert(self.width * self.height * bpp > self.data@.len());
                    false
                },
            },
            None => {
                assert(self.width * self.height * bpp > self.data@.len()) by (nonlinear_arith)
                    requires
                        self.width * self.height > usize::MAX,
                        bpp >= 1,
                        self.data@.len() <= usize::MAX,
                ;
                false
            },
        }
    }

    /// A frame over `data`, where it holds every pixel.
    pub fn new(width: usize, height: usize, format: PixelFormat, data: Vec<u8>) -> (r: Option<Frame>)
        ensures
            r is Some <==> width * height * format.spec_bytes_per_pixel() <= data@.len(),
            r is Some ==> {
                let f = r->Some_0;
                &&& f.width == width
                &&& f.height == height
                &&& f.format == format
                &&& f.data@ == data@
            },
    {
        let frame = Frame { width, height, format, data };
        if frame.is_well_formed() {
            Some(frame)
        } else {
            None
        }
    }
}

/// The pixel at `(x, y)` lies inside the buffer, and so does the frame's area.
proof fn lemma_pixel_in_buffer(f: &Frame, x: int, y: int)
    requires
        f.wf(),
        0 <= x < f.width,
        0 <= y < f.height,
    ensures
        f.width * f.height <= f.data@.len(),
        0 <= y * f.width + x,
        y * f.width + x < f.width * f.height,
        (y * f.width + x) * f.format.spec_bytes_per_pixel() + f.format.spec_bytes_per_pixel()
            <= f.data@.len(),
{
    let w = f.width as int;
    let h = f.height as int;
    let b = f.format.spec_bytes_per_pixel();
    assert(0 <= y * w + x < w * h) by (nonlinear_arith)
        requires
            0 <= x < w,
            0 <= y < h,
    ;
    assert(w * h <= w * h * b) by (nonlinear_arith)
        requires
            w >= 0,
            h >= 0,
            b > 0,
    ;
    assert((y * w + x) * b + b <= w * h * b) by (nonlinear_arith)
        requires
            y * w + x < w * h,
            b > 0,
    ;
}

/// Sums the counted samples `x_start, x_start + stride, ...` below `x_end`
/// of row `y`.
fn sum_row(
    frame: &Frame,
    policy: ExclusionPolicy,
    y: usize,
    x_start: usize,
    x_end: usize,
    stride: usize,
) -> (r: PixelSum)
    requires
        frame.wf(),
        y < frame.height,
        x_start <= x_end <= frame.width,
        stride >= 1,
    ensures
        r@ == frame.row_sum(policy, y as int, x_start as int, x_end as int, stride as int),
{
    let bpp = frame.format.bytes_per_pixel();
    let len = frame.data.len();
    let mut acc = PixelSum { red: 0, green: 0, blue: 0, count: 0 };
    let mut x = x_start;
    proof {
        lemma_row_bounds(frame, policy, y as int, x_start as int, x_end as int, stride as int);
    }
    while x < x_end
        invariant
            frame.wf(),
            y < frame.height,
            x_start <= x <= x_end <= frame.width,
            stride >= 1,
            bpp as int == frame.format.spec_bytes_per_pixel(),
            len == frame.data@.len(),
            sum_plus(acc@, frame.row_sum(policy, y as int, x as int, x_end as int, stride as int))
                == frame.row_sum(policy, y as int, x_start as int, x_end as int, stride as int),
            sum_bounded(
                frame.row_sum(policy, y as int, x_start as int, x_end as int, stride as int),
            ),
            frame.row_sum(policy, y as int, x_start as int, x_end as int, stride as int).3
                <= frame.width,
        decreases x_end - x,
    {
        proof {
            lemma_pixel_in_buffer(frame, x as int, y as int);
            lemma_row_bounds(frame, policy, y as int, x as int, x_end as int, stride as int);
            lemma_row_bounds(
                frame,
                policy,
                y as int,
                x + stride,
                x_end as int,
                stride as int,
            );
        }
        let base = (y * frame.width + x) * bpp;
        let red = frame.data[base];
        let green = frame.data[base + 1];
        let blue = frame.data[base + 2];
        let counted = match policy {
            ExclusionPolicy::IncludeAll => true,
            ExclusionPolicy::ExcludeBlack => {
                let black = red == 0 && green == 0 && blue == 0;
                let transparent = match frame.format {
                    PixelFormat::Rgb => false,
                    PixelFormat::Rgba => frame.data[base + 3] == 0,
                };
                !black && !transparent
            },
        };
        assert(counted == frame.is_counted(policy, x as int, y as int));
        if counted {
            acc.red = acc.red + red as u128;
            acc.green = acc.green + green as u128;
            acc.blue = acc.blue + blue as u128;
            acc.count = acc.count + 1;
        }
        if x_end - x <= stride {
            x = x_end;
        } else {
            x = x + stride;
        }
    }
    acc
}

/// Relies on rayon's `into_par_iter().step_by(stride).map(..).collect()` over
/// an integer range: one item for each of `y_start, y_start + stride, ...`
/// below `y_end`, collected into a `Vec` in the order of the range (rayon
/// documents `step_by` and indexed `collect` as order-keeping).
#[verifier::external_body]
fn par_row_sums(frame: &Frame, policy: ExclusionPolicy, rect: Rect, stride: usize) -> (r: Vec<
    PixelSum,
>)
    requires
        frame.wf(),
        rect.within(frame.width as int, frame.height as int),
        stride >= 1,
    ensures
        r@.len() == steps(rect.y_end - rect.y_start, stride as int),
        forall|k: int|
            0 <= k < r@.len() ==> (#[trigger] r@[k])@ == frame.row_sum(
                policy,
                rect.y_start + k * stride,
                rect.x_start as int,
                rect.x_end as int,
                stride as int,
            ),
{
    (rect.y_start..rect.y_end).into_par_iter().step_by(stride).map(
        |y| sum_row(frame, policy, y, rect.x_start, rect.x_end, stride),
    ).collect()
}

/// The color of `region` in `frame`: rows and columns of the region are
/// sampled every `stride` pixels, counted pixels are chosen by `policy`, and
/// the result is the truncated mean per channel, or black where no pixel was
/// counted. Rows are summed in parallel; the sums are exact, so the result is
/// that of a plain scan.
pub fn aggregate(frame: &Frame, region: Region, stride: usize, policy: ExclusionPolicy) -> (r: [u32; 3])
    requires
        frame.wf(),
        stride >= 1,
    ensures
        (r@[0] as int, r@[1] as int, r@[2] as int) == frame.spec_aggregate(
            region,
            stride as int,
            policy,
        ),
{
    let rect = region.rect(frame.width, frame.height);
    let len = frame.data.len();
    let rows = par_row_sums(frame, policy, rect, stride);
    let ghost x0 = rect.x_start as int;
    let ghost x1 = rect.x_end as int;
    let ghost y0 = rect.y_start as int;
    let ghost y1 = rect.y_end as int;
    let ghost s = stride as int;
    let ghost total = frame.rows_sum(policy, x0, x1, y0, y1, s);
    proof {
        lemma_rows_bounds(frame, policy, x0, x1, y0, y1, s);
        lemma_pixel_in_buffer_area(frame);
        assert(frame.data@.len() == len);
        assert((x1 - x0) * (y1 - y0) <= frame.width * frame.height) by (nonlinear_arith)
            requires
                0 <= x1 - x0 <= frame.width,
                0 <= y1 - y0 <= frame.height,
        ;
    }
    let mut acc = PixelSum { red: 0, green: 0, blue: 0, count: 0 };
    let mut k: usize = 0;
    while k < rows.len()
        invariant
            rows@.len() == steps(y1 - y0, s),
            forall|j: int|
                0 <= j < rows@.len() ==> (#[trigger] rows@[j])@ == frame.row_sum(
                    policy,
                    y0 + j * s,
                    x0,
                    x1,
                    s,
                ),
            0 <= k <= rows@.len(),
            s >= 1,
            x0 <= x1,
            sum_plus(acc@, frame.rows_sum(policy, x0, x1, y0 + k * s, y1, s)) == total,
            sum_bounded(total),
            total.3 <= usize::MAX,
        decreases rows@.len() - k,
    {
        proof {
            lemma_steps(y1 - y0, s, k as int);
            assert((k + 1) * s == k * s + s) by (nonlinear_arith);
            lemma_row_bounds(frame, policy, y0 + k * s, x0, x1, s);
            lemma_rows_bounds(frame, policy, x0, x1, y0 + k * s + s, y1, s);
        }
        let row = rows[k];
        acc.red = acc.red + row.red;
        acc.green = acc.green + row.green;
        acc.blue = acc.blue + row.blue;
        acc.count = acc.count + row.count;
        k = k + 1;
    }
    proof {
        lemma_steps(y1 - y0, s, k as int);
    }
    assert(acc@ == total);
    if acc.count == 0 {
        [0, 0, 0]
    } else {
        proof {
            lemma_mean_bounded(acc@);
        }
        [
            (acc.red / acc.count) as u32,
            (acc.green / acc.count) as u32,
            (acc.blue / acc.count) as u32,
        ]
    }
}

/// The color of `position` in `frame`, over every pixel of the region, with
/// pure black (and fully transparent) pixels left out.
pub fn calculate_average_color(frame: &Frame, position: Region) -> (r: [u32; 3])
    requires
        frame.wf(),
    ensures
        (r@[0] as int, r@[1] as int, r@[2] as int) == frame.spec_aggregate(
            position,
            1,
            ExclusionPolicy::ExcludeBlack,
        ),
{
    aggregate(frame, position, 1, ExclusionPolicy::ExcludeBlack)
}

proof fn lemma_mean_bounded(s: (int, int, int, int))
    requires
        sum_bounded(s),
        s.3 > 0,
    ensures
        0 <= s.0 / s.3 <= 255,
        0 <= s.1 / s.3 <= 255,
        0 <= s.2 / s.3 <= 255,
{
    lemma_quotient_bounded(s.0, s.3);
    lemma_quotient_bounded(s.1, s.3);
    lemma_quotient_bounded(s.2, s.3);
}

proof fn lemma_quotient_bounded(a: int, n: int)
    requires
        0 <= a <= 255 * n,
        n > 0,
    ensures
        0 <= a / n <= 255,
{
    vstd::arithmetic::div_mod::lemma_div_is_ordered(a, 255 * n, n);
    vstd::arithmetic::div_mod::lemma_div_multiples_vanish(255, n);
    vstd::arithmetic::div_mod::lemma_div_pos_is_pos(a, n);
}

/// The frame's area fits the buffer.
proof fn lemma_pixel_in_buffer_area(f: &Frame)
    requires
        f.wf(),
    ensures
        f.width * f.height <= f.data@.len(),
{
    let b = f.format.spec_bytes_per_pixel();
    assert(f.width * f.height <= f.width * f.height * b) by (nonlinear_arith)
        requires
            b > 0,
    ;
}

impl Frame {
    /// Every pixel of the frame has color `c` in its first three channels.
    pub open spec fn is_uniform(&self, c: (int, int, int)) -> bool {
        forall|x: int, y: int|
            0 <= x < self.width && 0 <= y < self.height ==> (self.channel(x, y, 0), self.channel(
                x,
                y,
                1,
            ), #[trigger] self.channel(x, y, 2)) == c
    }

    /// No pixel of the frame is left out under `policy`.
    pub open spec fn counts_every_pixel(&self, policy: ExclusionPolicy) -> bool {
        forall|x: int, y: int|
            0 <= x < self.width && 0 <= y < self.height ==> #[trigger] self.is_counted(policy, x, y)
    }

    /// Every pixel of the frame is pure black.
    pub open spec fn is_black(&self) -> bool {
        forall|x: int, y: int|
            0 <= x < self.width && 0 <= y < self.height ==> self.channel(x, y, 0) == 0
                && self.channel(x, y, 1) == 0 && #[trigger] self.channel(x, y, 2) == 0
    }
}

/// A frame of one color `c` in which no pixel is excluded has color `c` in
/// every region that holds a pixel, at every stride.
pub proof fn lemma_uniform_frame_aggregate(
    frame: &Frame,
    c: (int, int, int),
    region: Region,
    stride: int,
    policy: ExclusionPolicy,
)
    requires
        frame.is_uniform(c),
        frame.counts_every_pixel(policy),
        stride >= 1,
        ({
            let w = region.spec_rect(frame.width as int, frame.height as int);
            w.0 < w.1 && w.2 < w.3
        }),
    ensures
        frame.spec_aggregate(region, stride, policy) == c,
{
    let w = region.spec_rect(frame.width as int, frame.height as int);
    let n = steps(w.1 - w.0, stride) as int;
    let m = steps(w.3 - w.2, stride) as int;
    lemma_rows_uniform(frame, c, policy, w.0, w.1, w.2, w.3, stride);
    lemma_steps(w.1 - w.0, stride, 0);
    lemma_steps(w.3 - w.2, stride, 0);
    assert(n * m > 0) by (nonlinear_arith)
        requires
            n > 0,
            m > 0,
    ;
    vstd::arithmetic::div_mod::lemma_div_multiples_vanish(c.0, n * m);
    vstd::arithmetic::div_mod::lemma_div_multiples_vanish(c.1, n * m);
    vstd::arithmetic::div_mod::lemma_div_multiples_vanish(c.2, n * m);
    assert(n * m * c.0 == (n * m) * c.0 && c.0 * (n * m) == (n * m) * c.0) by (nonlinear_arith);
    assert(c.1 * (n * m) == (n * m) * c.1) by (nonlinear_arith);
    assert(c.2 * (n * m) == (n * m) * c.2) by (nonlinear_arith);
}

/// Under [`ExclusionPolicy::ExcludeBlack`] an all-black frame has no counted
/// pixel, and every region comes out black.
pub proof fn lemma_black_frame_aggregate(frame: &Frame, region: Region, stride: int)
    requires
        frame.is_black(),
        stride >= 1,
    ensures
        frame.spec_aggregate(region, stride, ExclusionPolicy::ExcludeBlack) == (0int, 0int, 0int),
{
    let w = region.spec_rect(frame.width as int, frame.height as int);
    lemma_rows_black(frame, w.0, w.1, w.2, w.3, stride);
}

proof fn lemma_row_uniform(
    f: &Frame,
    c: (int, int, int),
    policy: ExclusionPolicy,
    y: int,
    x: int,
    x_end: int,
    stride: int,
)
    requires
        f.is_uniform(c),
        f.counts_every_pixel(policy),
        stride >= 1,
        0 <= x,
        x_end <= f.width,
        0 <= y < f.height,
    ensures
        ({
            let n = steps(x_end - x, stride) as int;
            f.row_sum(policy, y, x, x_end, stride) == (n * c.0, n * c.1, n * c.2, n)
        }),
    decreases span(x, x_end),
{
    if x < x_end {
        lemma_row_uniform(f, c, policy, y, x + stride, x_end, stride);
        assert(f.is_counted(policy, x, y));
        assert(f.channel(x, y, 2) == c.2);
        let n = steps(x_end - x - stride, stride) as int;
        assert(x_end - (x + stride) == x_end - x - stride);
        assert(steps(x_end - x, stride) == 1 + n);
        assert(f.sample(policy, x, y) == (c.0, c.1, c.2, 1int));
        assert((1 + n) * c.0 == c.0 + n * c.0 && (1 + n) * c.1 == c.1 + n * c.1 && (1 + n) * c.2
            == c.2 + n * c.2) by (nonlinear_arith);
    } else {
        assert(0 * c.0 == 0 && 0 * c.1 == 0 && 0 * c.2 == 0);
    }
}

proof fn lemma_rows_uniform(
    f: &Frame,
    c: (int, int, int),
    policy: ExclusionPolicy,
    x_start: int,
    x_end: int,
    y: int,
    y_end: int,
    stride: int,
)
    requires
        f.is_uniform(c),
        f.counts_every_pixel(policy),
        stride >= 1,
        0 <= x_start,
        x_end <= f.width,
        0 <= y,
        y_end <= f.height,
    ensures
        ({
            let k = steps(x_end - x_start, stride) as int * steps(y_end - y, stride) as int;
            f.rows_sum(policy, x_start, x_end, y, y_end, stride) == (k * c.0, k * c.1, k * c.2, k)
        }),
    decreases span(y, y_end),
{
    if y < y_end {
        lemma_row_uniform(f, c, policy, y, x_start, x_end, stride);
        lemma_rows_uniform(f, c, policy, x_start, x_end, y + stride, y_end, stride);
        let n = steps(x_end - x_start, stride) as int;
        let m = steps(y_end - y - stride, stride) as int;
        assert(y_end - (y + stride) == y_end - y - stride);
        assert(steps(y_end - y, stride) == 1 + m);
        assert(n * (1 + m) == n + n * m) by (nonlinear_arith);
        assert((n + n * m) * c.0 == n * c.0 + (n * m) * c.0 && (n + n * m) * c.1 == n * c.1 + (n
            * m) * c.1 && (n + n * m) * c.2 == n * c.2 + (n * m) * c.2) by (nonlinear_arith);
    } else {
        let n = steps(x_end - x_start, stride) as int;
        assert(n * 0 == 0) by (nonlinear_arith);
        assert(0 * c.0 == 0 && 0 * c.1 == 0 && 0 * c.2 == 0);
    }
}

proof fn lemma_rows_black(f: &Frame, x_start: int, x_end: int, y: int, y_end: int, stride: int)
    requires
        f.is_black(),
        stride >= 1,
        0 <= x_start,
        x_end <= f.width,
        0 <= y,
        y_end <= f.height,
    ensures
        f.rows_sum(ExclusionPolicy::ExcludeBlack, x_start, x_end, y, y_end, stride).3 == 0,
    decreases span(y, y_end),
{
    if y < y_end {
        lemma_row_black(f, y, x_start, x_end, stride);
        lemma_rows_black(f, x_start, x_end, y + stride, y_end, stride);
    }
}

proof fn lemma_row_black(f: &Frame, y: int, x: int, x_end: int, stride: int)
    requires
        f.is_black(),
        stride >= 1,
        0 <= x,
        x_end <= f.width,
        0 <= y < f.height,
    ensures
        f.row_sum(ExclusionPolicy::ExcludeBlack, y, x, x_end, stride).3 == 0,
    decreases span(x, x_end),
{
    if x < x_end {
        lemma_row_black(f, y, x + stride, x_end, stride);
        assert(f.channel(x, y, 2) == 0);
    }
}

} // verus!
