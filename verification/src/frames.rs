//! Batches of frames as plain row-major data, and the rearrangements made of them.

use vstd::arithmetic::div_mod::{lemma_fundamental_div_mod, lemma_fundamental_div_mod_converse};
use vstd::prelude::*;

verus! {

/// `batch` frames of `channels` planes, each `height` by `width`, in row-major order.
#[derive(Debug)]
pub struct FrameBatch<T> {
    pub batch: usize,
    pub channels: usize,
    pub height: usize,
    pub width: usize,
    pub data: Vec<T>,
}

/// Where the element at `(b, c, y, x)` stands in row-major data.
pub open spec fn linear(b: int, c: int, y: int, x: int, channels: int, height: int, width: int) -> int {
    ((b * channels + c) * height + y) * width + x
}

/// How many elements a batch of this shape has.
pub open spec fn volume(batch: int, channels: int, height: int, width: int) -> int {
    batch * channels * height * width
}

impl<T> FrameBatch<T> {
    /// The data has as many elements as the shape says.
    pub open spec fn wf(&self) -> bool {
        self.data@.len() == volume(
            self.batch as int,
            self.channels as int,
            self.height as int,
            self.width as int,
        )
    }

    pub open spec fn in_bounds(&self, b: int, c: int, y: int, x: int) -> bool {
        &&& 0 <= b < self.batch
        &&& 0 <= c < self.channels
        &&& 0 <= y < self.height
        &&& 0 <= x < self.width
    }

    /// The element of frame `b`, plane `c`, row `y`, column `x`.
    pub open spec fn at(&self, b: int, c: int, y: int, x: int) -> T {
        self.data@[linear(
            b,
            c,
            y,
            x,
            self.channels as int,
            self.height as int,
            self.width as int,
        )]
    }

    pub open spec fn same_shape(&self, other: &FrameBatch<T>) -> bool {
        &&& self.batch == other.batch
        &&& self.channels == other.channels
        &&& self.height == other.height
        &&& self.width == other.width
    }
}

/// Row-major positions are in range, and their coordinates come back by division.
pub proof fn lemma_linear(
    b: int,
    c: int,
    y: int,
    x: int,
    batch: int,
    channels: int,
    height: int,
    width: int,
)
    requires
        0 <= b < batch,
        0 <= c < channels,
        0 <= y < height,
        0 <= x < width,
    ensures
        ({
            let k = linear(b, c, y, x, channels, height, width);
            &&& 0 <= k < volume(batch, channels, height, width)
            &&& k % width == x
            &&& (k / width) % height == y
            &&& ((k / width) / height) % channels == c
            &&& ((k / width) / height) / channels == b
        }),
{
    let plane = b * channels + c;
    let row = plane * height + y;
    let k = row * width + x;
    assert(0 <= plane < batch * channels) by (nonlinear_arith)
        requires
            plane == b * channels + c,
            0 <= b < batch,
            0 <= c < channels,
    ;
    assert(0 <= row < batch * channels * height) by (nonlinear_arith)
        requires
            row == plane * height + y,
            0 <= plane < batch * channels,
            0 <= y < height,
    ;
    assert(0 <= k < batch * channels * height * width) by (nonlinear_arith)
        requires
            k == row * width + x,
            0 <= row < batch * channels * height,
            0 <= x < width,
    ;
    lemma_fundamental_div_mod_converse(k, width, row, x);
    lemma_fundamental_div_mod_converse(row, height, plane, y);
    lemma_fundamental_div_mod_converse(plane, channels, b, c);
}

/// Every position below the volume has coordinates in range, and they lead back to it.
pub proof fn lemma_coordinates(k: int, batch: int, channels: int, height: int, width: int)
    requires
        0 <= batch,
        0 <= channels,
        0 <= height,
        0 <= width,
        0 <= k < volume(batch, channels, height, width),
    ensures
        0 < batch && 0 < channels && 0 < height && 0 < width,
        ({
            let x = k % width;
            let y = (k / width) % height;
            let c = ((k / width) / height) % channels;
            let b = ((k / width) / height) / channels;
            &&& 0 <= b < batch
            &&& 0 <= c < channels
            &&& 0 <= y < height
            &&& 0 <= x < width
            &&& linear(b, c, y, x, channels, height, width) == k
        }),
{
    assert(0 < batch && 0 < channels && 0 < height && 0 < width) by (nonlinear_arith)
        requires
            0 <= batch,
            0 <= channels,
            0 <= height,
            0 <= width,
            0 < batch * channels * height * width,
    ;
    let row = k / width;
    let plane = row / height;
    let b = plane / channels;
    lemma_fundamental_div_mod(k, width);
    lemma_fundamental_div_mod(row, height);
    lemma_fundamental_div_mod(plane, channels);
    assert(0 <= row < batch * channels * height) by (nonlinear_arith)
        requires
            row == k / width,
            0 <= k < batch * channels * height * width,
            width > 0,
    ;
    assert(0 <= plane < batch * channels) by (nonlinear_arith)
        requires
            plane == row / height,
            0 <= row < batch * channels * height,
            height > 0,
    ;
    assert(0 <= b < batch) by (nonlinear_arith)
        requires
            b == plane / channels,
            0 <= plane < batch * channels,
            channels > 0,
    ;
    assert(linear(b, plane % channels, row % height, k % width, channels, height, width) == k)
        by (nonlinear_arith)
        requires
            k == width * row + k % width,
            row == height * plane + row % height,
            plane == channels * b + plane % channels,
            linear(b, plane % channels, row % height, k % width, channels, height, width) == ((b
                * channels + plane % channels) * height + row % height) * width + k % width,
    ;
}

/// Batches of one shape that agree at all coordinates hold the same data.
pub proof fn lemma_frames_equal<T>(a: &FrameBatch<T>, b: &FrameBatch<T>)
    requires
        a.wf(),
        b.wf(),
        a.same_shape(b),
        forall|i: int, c: int, y: int, x: int|
            a.in_bounds(i, c, y, x) ==> #[trigger] a.at(i, c, y, x) == b.at(i, c, y, x),
    ensures
        a.data@ == b.data@,
{
    assert forall|k: int| 0 <= k < a.data@.len() implies a.data@[k] == b.data@[k] by {
        let (n, c, h, w) = (a.batch as int, a.channels as int, a.height as int, a.width as int);
        lemma_coordinates(k, n, c, h, w);
        assert(a.at(((k / w) / h) / c, ((k / w) / h) % c, (k / w) % h, k % w) == b.at(
            ((k / w) / h) / c,
            ((k / w) / h) % c,
            (k / w) % h,
            k % w,
        ));
    }
    assert(a.data@ =~= b.data@);
}

/// The coordinates lie in a batch of the given shape.
pub open spec fn within(
    b: usize,
    c: usize,
    y: usize,
    x: usize,
    batch: usize,
    channels: usize,
    height: usize,
    width: usize,
) -> bool {
    b < batch && c < channels && y < height && x < width
}

/// The coordinates of one element.
#[derive(Clone, Copy, Debug)]
pub struct Coordinates {
    pub b: usize,
    pub c: usize,
    pub y: usize,
    pub x: usize,
}

/// The coordinates of position `k` in a batch of the given shape.
fn coordinates_of(k: usize, batch: usize, channels: usize, height: usize, width: usize) -> (r:
    Coordinates)
    requires
        k < volume(batch as int, channels as int, height as int, width as int),
    ensures
        r.b < batch,
        r.c < channels,
        r.y < height,
        r.x < width,
        linear(
            r.b as int,
            r.c as int,
            r.y as int,
            r.x as int,
            channels as int,
            height as int,
            width as int,
        ) == k,
{
    proof {
        lemma_coordinates(
            k as int,
            batch as int,
            channels as int,
            height as int,
            width as int,
        );
    }
    let row: usize = k / width;
    let plane: usize = row / height;
    Coordinates { b: plane / channels, c: plane % channels, y: row % height, x: k % width }
}

impl<T: Copy> FrameBatch<T> {
    /// The element at the given coordinates.
    pub fn get(&self, b: usize, c: usize, y: usize, x: usize) -> (r: T)
        requires
            self.wf(),
            self.in_bounds(b as int, c as int, y as int, x as int),
        ensures
            r == self.at(b as int, c as int, y as int, x as int),
    {
        proof {
            lemma_linear(
                b as int,
                c as int,
                y as int,
                x as int,
                self.batch as int,
                self.channels as int,
                self.height as int,
                self.width as int,
            );
            let plane = b * self.channels + c;
            let row = plane * self.height + y;
            let k = row * self.width + x;
            assert(0 <= b * self.channels <= plane <= row <= k && plane * self.height <= row && row
                * self.width <= k) by (nonlinear_arith)
                requires
                    plane == b * self.channels + c,
                    row == plane * self.height + y,
                    k == row * self.width + x,
                    self.height >= 1,
                    self.width >= 1,
                    b >= 0,
                    c >= 0,
                    self.channels >= 0,
            ;
        }
        let count: usize = self.data.len();
        assert(linear(
            b as int,
            c as int,
            y as int,
            x as int,
            self.channels as int,
            self.height as int,
            self.width as int,
        ) < count);
        self.data[((b * self.channels + c) * self.height + y) * self.width + x]
    }
}

/// The number of elements of a shape that is known to fit.
fn element_count(batch: usize, channels: usize, height: usize, width: usize) -> (n: usize)
    requires
        volume(batch as int, channels as int, height as int, width as int) <= usize::MAX,
    ensures
        n == volume(batch as int, channels as int, height as int, width as int),
{
    if batch == 0 || channels == 0 || height == 0 || width == 0 {
        assert(batch * channels * height * width == 0) by (nonlinear_arith)
            requires
                batch == 0 || channels == 0 || height == 0 || width == 0,
        ;
        return 0;
    }
    proof {
        let (n, c, h, w) = (batch as int, channels as int, height as int, width as int);
        assert(n * c <= n * c * h && n * c * h <= n * c * h * w && n * c >= 0) by (nonlinear_arith)
            requires
                n >= 1,
                c >= 1,
                h >= 1,
                w >= 1,
        ;
    }
    batch * channels * height * width
}

/// A batch of the given shape, each element computed from its coordinates.
pub fn build_frames<T, F: Fn(usize, usize, usize, usize) -> T>(
    batch: usize,
    channels: usize,
    height: usize,
    width: usize,
    element: F,
) -> (out: FrameBatch<T>)
    requires
        volume(batch as int, channels as int, height as int, width as int) <= usize::MAX,
        forall|b: usize, c: usize, y: usize, x: usize|
            b < batch && c < channels && y < height && x < width ==> #[trigger] element.requires(
                (b, c, y, x),
            ),
    ensures
        out.wf(),
        out.batch == batch,
        out.channels == channels,
        out.height == height,
        out.width == width,
        forall|b: usize, c: usize, y: usize, x: usize|
            b < batch && c < channels && y < height && x < width ==> element.ensures(
                (b, c, y, x),
                #[trigger] out.at(b as int, c as int, y as int, x as int),
            ),
{
    let total: usize = element_count(batch, channels, height, width);
    let mut data: Vec<T> = Vec::new();
    let mut k: usize = 0;
    while k < total
        invariant
            k <= total,
            data@.len() == k,
            total == volume(batch as int, channels as int, height as int, width as int),
            forall|b: usize, c: usize, y: usize, x: usize|
                b < batch && c < channels && y < height && x < width
                    ==> #[trigger] element.requires((b, c, y, x)),
            forall|b: usize, c: usize, y: usize, x: usize|
                b < batch && c < channels && y < height && x < width && linear(
                    b as int,
                    c as int,
                    y as int,
                    x as int,
                    channels as int,
                    height as int,
                    width as int,
                ) < k ==> element.ensures(
                    (b, c, y, x),
                    data@[#[trigger] linear(
                        b as int,
                        c as int,
                        y as int,
                        x as int,
                        channels as int,
                        height as int,
                        width as int,
                    )],
                ),
        decreases total - k,
    {
        let at = coordinates_of(k, batch, channels, height, width);
        let value: T = element(at.b, at.c, at.y, at.x);
        let ghost before = data@;
        data.push(value);
        assert forall|b: usize, c: usize, y: usize, x: usize|
            b < batch && c < channels && y < height && x < width && linear(
                b as int,
                c as int,
                y as int,
                x as int,
                channels as int,
                height as int,
                width as int,
            ) < k + 1 implies element.ensures(
            (b, c, y, x),
            data@[#[trigger] linear(
                b as int,
                c as int,
                y as int,
                x as int,
                channels as int,
                height as int,
                width as int,
            )],
        ) by {
            let (n, m, h, w) = (batch as int, channels as int, height as int, width as int);
            lemma_linear(b as int, c as int, y as int, x as int, n, m, h, w);
            if linear(b as int, c as int, y as int, x as int, m, h, w) == k {
                lemma_linear(at.b as int, at.c as int, at.y as int, at.x as int, n, m, h, w);
            } else {
                assert(data@[linear(b as int, c as int, y as int, x as int, m, h, w)]
                    == before[linear(b as int, c as int, y as int, x as int, m, h, w)]);
            }
        }
        k += 1;
    }
    let out = FrameBatch { batch, channels, height, width, data };
    assert forall|b: usize, c: usize, y: usize, x: usize|
        b < batch && c < channels && y < height && x < width implies element.ensures(
        (b, c, y, x),
        #[trigger] out.at(b as int, c as int, y as int, x as int),
    ) by {
        let (n, m, h, w) = (batch as int, channels as int, height as int, width as int);
        lemma_linear(b as int, c as int, y as int, x as int, n, m, h, w);
    }
    out
}

/// Whether `out` is `input` with each group of `factor * factor` planes spread over the pixels of
/// one enlarged plane: `out[b, c, y, x] = input[b, c * f * f + (y % f) * f + x % f, y / f, x / f]`.
pub open spec fn is_pixel_shuffle<T>(
    out: &FrameBatch<T>,
    input: &FrameBatch<T>,
    factor: int,
) -> bool {
    &&& out.wf()
    &&& out.batch == input.batch
    &&& out.channels == input.channels as int / (factor * factor)
    &&& out.height == input.height * factor
    &&& out.width == input.width * factor
    &&& forall|b: int, c: int, y: int, x: int|
        out.in_bounds(b, c, y, x) ==> #[trigger] out.at(b, c, y, x) == input.at(
            b,
            c * (factor * factor) + (y % factor) * factor + x % factor,
            y / factor,
            x / factor,
        )
}

/// Whether `out` is `input` with each `factor` by `factor` tile of a plane split over as many
/// planes: `out[b, c * f * f + i * f + j, y, x] = input[b, c, y * f + i, x * f + j]`.
pub open spec fn is_pixel_unshuffle<T>(
    out: &FrameBatch<T>,
    input: &FrameBatch<T>,
    factor: int,
) -> bool {
    &&& out.wf()
    &&& out.batch == input.batch
    &&& out.channels == input.channels * (factor * factor)
    &&& out.height == input.height as int / factor
    &&& out.width == input.width as int / factor
    &&& forall|b: int, c: int, y: int, x: int|
        out.in_bounds(b, c, y, x) ==> #[trigger] out.at(b, c, y, x) == input.at(
            b,
            c / (factor * factor),
            y * factor + (c % (factor * factor)) / factor,
            x * factor + c % factor,
        )
}

/// `factor`, but at least one.
pub open spec fn factor_or_one(factor: usize) -> int {
    if factor < 1 {
        1
    } else {
        factor as int
    }
}

proof fn lemma_shuffle_source(
    c: int,
    y: int,
    x: int,
    planes: int,
    height: int,
    width: int,
    f: int,
)
    requires
        f >= 1,
        0 <= c < planes,
        0 <= y < height * f,
        0 <= x < width * f,
    ensures
        0 <= y / f < height,
        0 <= x / f < width,
        0 <= (y % f) * f + x % f < f * f,
        0 <= c * (f * f) + (y % f) * f + x % f < planes * (f * f),
{
    assert(0 <= y / f < height) by (nonlinear_arith)
        requires
            0 <= y < height * f,
            f >= 1,
    ;
    assert(0 <= x / f < width) by (nonlinear_arith)
        requires
            0 <= x < width * f,
            f >= 1,
    ;
    let i = y % f;
    let j = x % f;
    assert(0 <= i * f + j < f * f) by (nonlinear_arith)
        requires
            0 <= i < f,
            0 <= j < f,
    ;
    let ff = f * f;
    assert(0 <= c * ff + (i * f + j) < planes * ff) by (nonlinear_arith)
        requires
            0 <= c < planes,
            0 <= i * f + j < ff,
    ;
}

/// Sub-pixel upsampling: planes become pixels.
pub fn pixel_shuffle<T: Copy>(input: &FrameBatch<T>, upscale_factor: usize) -> (out: FrameBatch<T>)
    requires
        input.wf(),
        input.channels as int % (factor_or_one(upscale_factor) * factor_or_one(upscale_factor))
            == 0,
        factor_or_one(upscale_factor) * factor_or_one(upscale_factor) <= usize::MAX,
        input.height * factor_or_one(upscale_factor) <= usize::MAX,
        input.width * factor_or_one(upscale_factor) <= usize::MAX,
    ensures
        is_pixel_shuffle(&out, input, factor_or_one(upscale_factor)),
{
    let factor: usize = if upscale_factor < 1 {
        1
    } else {
        upscale_factor
    };
    let ghost f = factor as int;
    let tile: usize = factor * factor;
    assert(tile >= 1) by (nonlinear_arith)
        requires
            tile == factor * factor,
            factor >= 1,
    ;
    let channels: usize = input.channels / tile;
    let height: usize = input.height * factor;
    let width: usize = input.width * factor;
    let total: usize = input.data.len();
    proof {
        lemma_fundamental_div_mod(input.channels as int, tile as int);
        assert(volume(input.batch as int, channels as int, height as int, width as int) == total)
            by (nonlinear_arith)
            requires
                volume(input.batch as int, channels as int, height as int, width as int)
                    == input.batch * channels * height * width,
                total == input.batch * input.channels * input.height * input.width,
                input.channels == tile * channels,
                tile == factor * factor,
                height == input.height * factor,
                width == input.width * factor,
        ;
    }
    let out = build_frames(
        input.batch,
        channels,
        height,
        width,
        |b: usize, c: usize, y: usize, x: usize| -> (r: T)
            requires
                within(b, c, y, x, input.batch, channels, height, width),
            ensures
                r == input.at(
                    b as int,
                    c * (f * f) + (y as int % f) * f + x as int % f,
                    y as int / f,
                    x as int / f,
                )
            {
                proof {
                    lemma_shuffle_source(
                        c as int,
                        y as int,
                        x as int,
                        channels as int,
                        input.height as int,
                        input.width as int,
                        f,
                    );
                    assert(c * tile >= 0 && (y as int % f) * f >= 0) by (nonlinear_arith)
                        requires
                            c >= 0,
                            tile >= 0,
                            y as int % f >= 0,
                            f >= 1,
                    ;
                    assert(channels * tile == tile * channels) by (nonlinear_arith);
                }
                input.get(
                    b,
                    c * tile + ((y % factor) * factor + x % factor),
                    y / factor,
                    x / factor,
                )
            },
    );
    assert forall|b: int, c: int, y: int, x: int|
        out.in_bounds(b, c, y, x) implies #[trigger] out.at(b, c, y, x) == input.at(
        b,
        c * (f * f) + (y % f) * f + x % f,
        y / f,
        x / f,
    ) by {
        let (bu, cu, yu, xu) = (b as usize, c as usize, y as usize, x as usize);
        assert(out.at(bu as int, cu as int, yu as int, xu as int) == out.at(b, c, y, x));
    }
    out
}

proof fn lemma_unshuffle_source(
    c: int,
    y: int,
    x: int,
    planes: int,
    height: int,
    width: int,
    f: int,
)
    requires
        f >= 1,
        0 <= c < planes * (f * f),
        0 <= y < height,
        0 <= x < width,
    ensures
        0 <= c / (f * f) < planes,
        0 <= (c % (f * f)) / f < f,
        0 <= y * f,
        0 <= x * f,
        0 <= y * f + (c % (f * f)) / f < height * f,
        0 <= x * f + c % f < width * f,
{
    let ff = f * f;
    assert(ff >= 1) by (nonlinear_arith)
        requires
            ff == f * f,
            f >= 1,
    ;
    assert(0 <= c / ff < planes) by (nonlinear_arith)
        requires
            0 <= c < planes * ff,
            ff >= 1,
    ;
    let i = (c % ff) / f;
    assert(0 <= i < f) by (nonlinear_arith)
        requires
            i == (c % ff) / f,
            0 <= c % ff < f * f,
            f >= 1,
    ;
    let j = c % f;
    assert(0 <= y * f && 0 <= y * f + i < height * f) by (nonlinear_arith)
        requires
            0 <= y < height,
            0 <= i < f,
    ;
    assert(0 <= x * f && 0 <= x * f + j < width * f) by (nonlinear_arith)
        requires
            0 <= x < width,
            0 <= j < f,
    ;
}

/// Sub-pixel downsampling: pixels become planes.
pub fn pixel_unshuffle<T: Copy>(input: &FrameBatch<T>, downscale_factor: usize) -> (out: FrameBatch<
    T,
>)
    requires
        input.wf(),
        input.height as int % factor_or_one(downscale_factor) == 0,
        input.width as int % factor_or_one(downscale_factor) == 0,
        input.channels * (factor_or_one(downscale_factor) * factor_or_one(downscale_factor))
            <= usize::MAX,
        factor_or_one(downscale_factor) * factor_or_one(downscale_factor) <= usize::MAX,
    ensures
        is_pixel_unshuffle(&out, input, factor_or_one(downscale_factor)),
{
    let factor: usize = if downscale_factor < 1 {
        1
    } else {
        downscale_factor
    };
    let ghost f = factor as int;
    let tile: usize = factor * factor;
    assert(tile >= 1) by (nonlinear_arith)
        requires
            tile == factor * factor,
            factor >= 1,
    ;
    let channels: usize = input.channels * tile;
    let height: usize = input.height / factor;
    let width: usize = input.width / factor;
    let total: usize = input.data.len();
    proof {
        lemma_fundamental_div_mod(input.height as int, f);
        lemma_fundamental_div_mod(input.width as int, f);
        assert(height * f == input.height && width * f == input.width) by (nonlinear_arith)
            requires
                input.height == f * height,
                input.width == f * width,
        ;
        assert(volume(input.batch as int, channels as int, height as int, width as int) == total)
            by (nonlinear_arith)
            requires
                volume(input.batch as int, channels as int, height as int, width as int)
                    == input.batch * channels * height * width,
                total == input.batch * input.channels * input.height * input.width,
                channels == input.channels * tile,
                tile == factor * factor,
                input.height == factor * height,
                input.width == factor * width,
        ;
    }
    let out = build_frames(
        input.batch,
        channels,
        height,
        width,
        |b: usize, c: usize, y: usize, x: usize| -> (r: T)
            requires
                within(b, c, y, x, input.batch, channels, height, width),
            ensures
                r == input.at(
                    b as int,
                    c as int / (f * f),
                    y * f + (c as int % (f * f)) / f,
                    x * f + c as int % f,
                )
            {
                proof {
                    lemma_unshuffle_source(
                        c as int,
                        y as int,
                        x as int,
                        input.channels as int,
                        height as int,
                        width as int,
                        f,
                    );
                }
                input.get(b, c / tile, y * factor + (c % tile) / factor, x * factor + c % factor)
            },
    );
    assert forall|b: int, c: int, y: int, x: int|
        out.in_bounds(b, c, y, x) implies #[trigger] out.at(b, c, y, x) == input.at(
        b,
        c / (f * f),
        y * f + (c % (f * f)) / f,
        x * f + c % f,
    ) by {
        let (bu, cu, yu, xu) = (b as usize, c as usize, y as usize, x as usize);
        assert(out.at(bu as int, cu as int, yu as int, xu as int) == out.at(b, c, y, x));
    }
    out
}

/// Splitting tiles over planes and spreading the planes again gives the batch back.
pub proof fn law_shuffle_undoes_unshuffle<T>(
    input: &FrameBatch<T>,
    folded: &FrameBatch<T>,
    back: &FrameBatch<T>,
    factor: int,
)
    requires
        factor >= 1,
        input.wf(),
        input.height as int % factor == 0,
        input.width as int % factor == 0,
        is_pixel_unshuffle(folded, input, factor),
        is_pixel_shuffle(back, folded, factor),
    ensures
        back.same_shape(input),
        back.data@ == input.data@,
{
    let f = factor;
    let ff = f * f;
    assert(ff >= 1) by (nonlinear_arith)
        requires
            ff == f * f,
            f >= 1,
    ;
    vstd::arithmetic::div_mod::lemma_div_by_multiple(input.channels as int, ff);
    lemma_fundamental_div_mod(input.height as int, f);
    lemma_fundamental_div_mod(input.width as int, f);
    vstd::arithmetic::mul::lemma_mul_is_commutative(f, input.height as int / f);
    vstd::arithmetic::mul::lemma_mul_is_commutative(f, input.width as int / f);
    assert(back.same_shape(input));
    assert forall|b: int, c: int, y: int, x: int| back.in_bounds(b, c, y, x) implies #[trigger] back.at(
        b,
        c,
        y,
        x,
    ) == input.at(b, c, y, x) by {
        lemma_shuffle_source(
            c,
            y,
            x,
            input.channels as int,
            folded.height as int,
            folded.width as int,
            f,
        );
        let inner = (y % f) * f + x % f;
        let plane = c * ff + inner;
        assert(folded.in_bounds(b, plane, y / f, x / f));
        assert(back.at(b, c, y, x) == folded.at(b, plane, y / f, x / f));
        lemma_fundamental_div_mod_converse(plane, ff, c, inner);
        lemma_fundamental_div_mod_converse(inner, f, y % f, x % f);
        assert(plane == (c * f + y % f) * f + x % f) by (nonlinear_arith)
            requires
                plane == c * (f * f) + ((y % f) * f + x % f),
        ;
        lemma_fundamental_div_mod_converse(plane, f, c * f + y % f, x % f);
        lemma_fundamental_div_mod(y, f);
        lemma_fundamental_div_mod(x, f);
        vstd::arithmetic::mul::lemma_mul_is_commutative(f, y / f);
        vstd::arithmetic::mul::lemma_mul_is_commutative(f, x / f);
    }
    lemma_frames_equal(back, input);
}

/// Spreading planes over tiles and splitting the tiles again gives the batch back.
pub proof fn law_unshuffle_undoes_shuffle<T>(
    input: &FrameBatch<T>,
    spread: &FrameBatch<T>,
    back: &FrameBatch<T>,
    factor: int,
)
    requires
        factor >= 1,
        input.wf(),
        input.channels as int % (factor * factor) == 0,
        is_pixel_shuffle(spread, input, factor),
        is_pixel_unshuffle(back, spread, factor),
    ensures
        back.same_shape(input),
        back.data@ == input.data@,
{
    let f = factor;
    let ff = f * f;
    assert(ff >= 1) by (nonlinear_arith)
        requires
            ff == f * f,
            f >= 1,
    ;
    lemma_fundamental_div_mod(input.channels as int, ff);
    vstd::arithmetic::mul::lemma_mul_is_commutative(ff, input.channels as int / ff);
    vstd::arithmetic::div_mod::lemma_div_by_multiple(input.height as int, f);
    vstd::arithmetic::div_mod::lemma_div_by_multiple(input.width as int, f);
    assert(back.same_shape(input));
    assert forall|b: int, c: int, y: int, x: int| back.in_bounds(b, c, y, x) implies #[trigger] back.at(
        b,
        c,
        y,
        x,
    ) == input.at(b, c, y, x) by {
        lemma_unshuffle_source(
            c,
            y,
            x,
            spread.channels as int,
            input.height as int,
            input.width as int,
            f,
        );
        let i = (c % ff) / f;
        let j = c % f;
        let yy = y * f + i;
        let xx = x * f + j;
        assert(spread.in_bounds(b, c / ff, yy, xx));
        lemma_fundamental_div_mod_converse(yy, f, y, i);
        lemma_fundamental_div_mod_converse(xx, f, x, j);
        lemma_fundamental_div_mod(c, ff);
        lemma_fundamental_div_mod(c % ff, f);
        vstd::arithmetic::div_mod::lemma_mod_mod(c, f, f);
        assert((c % ff) % f == j);
        assert(c == (c / ff) * ff + i * f + j) by (nonlinear_arith)
            requires
                c == ff * (c / ff) + c % ff,
                c % ff == f * i + j,
        ;
    }
    lemma_frames_equal(back, input);
}

/// The planes of a group become the pixels of a tile, row by row: plane `i * factor + j` of the
/// group gives the pixel in row `i` and column `j` of the tile.
pub proof fn law_planes_become_the_pixels_of_a_tile<T>(
    out: &FrameBatch<T>,
    input: &FrameBatch<T>,
    factor: int,
    b: int,
    c: int,
    y: int,
    x: int,
    i: int,
    j: int,
)
    requires
        factor >= 1,
        is_pixel_shuffle(out, input, factor),
        0 <= i < factor,
        0 <= j < factor,
        0 <= c < out.channels,
        0 <= b < input.batch,
        0 <= y < input.height,
        0 <= x < input.width,
    ensures
        out.in_bounds(b, c, y * factor + i, x * factor + j),
        out.at(b, c, y * factor + i, x * factor + j) == input.at(
            b,
            (c * factor + i) * factor + j,
            y,
            x,
        ),
{
    vstd::arithmetic::div_mod::lemma_fundamental_div_mod_converse(y * factor + i, factor, y, i);
    vstd::arithmetic::div_mod::lemma_fundamental_div_mod_converse(x * factor + j, factor, x, j);
    let (h, w) = (input.height as int, input.width as int);
    assert(0 <= y * factor && y * factor + factor <= h * factor && 0 <= x * factor && x * factor
        + factor <= w * factor && c * (factor * factor) + i * factor == (c * factor + i) * factor)
        by (nonlinear_arith)
        requires
            0 <= y < h,
            0 <= x < w,
            factor >= 1,
    ;
    let _ = out.at(b, c, y * factor + i, x * factor + j);
}

/// The pixels of a tile become the planes of a group, row by row.
pub proof fn law_pixels_of_a_tile_become_planes<T>(
    out: &FrameBatch<T>,
    input: &FrameBatch<T>,
    factor: int,
    b: int,
    c: int,
    y: int,
    x: int,
    i: int,
    j: int,
)
    requires
        factor >= 1,
        is_pixel_unshuffle(out, input, factor),
        0 <= i < factor,
        0 <= j < factor,
        0 <= c < input.channels,
        0 <= b < input.batch,
        0 <= y < out.height,
        0 <= x < out.width,
    ensures
        out.in_bounds(b, (c * factor + i) * factor + j, y, x),
        out.at(b, (c * factor + i) * factor + j, y, x) == input.at(
            b,
            c,
            y * factor + i,
            x * factor + j,
        ),
{
    let p = (c * factor + i) * factor + j;
    let n = input.channels as int;
    assert(p == c * (factor * factor) + (i * factor + j) && 0 <= i * factor + j < factor * factor
        && 0 <= c * (factor * factor) && (c + 1) * (factor * factor) <= n * (factor * factor) && (c
        + 1) * (factor * factor) == c * (factor * factor) + factor * factor) by (nonlinear_arith)
        requires
            p == (c * factor + i) * factor + j,
            0 <= i < factor,
            0 <= j < factor,
            0 <= c < n,
            factor >= 1,
    ;
    vstd::arithmetic::div_mod::lemma_fundamental_div_mod_converse(
        p,
        factor * factor,
        c,
        i * factor + j,
    );
    vstd::arithmetic::div_mod::lemma_fundamental_div_mod_converse(i * factor + j, factor, i, j);
    vstd::arithmetic::div_mod::lemma_fundamental_div_mod_converse(p, factor, c * factor + i, j);
    let _ = out.at(b, p, y, x);
}

/// Neighbours in a row stand next to each other, rows of a plane follow each other, planes follow
/// each other, and so do frames.
pub proof fn law_frames_are_row_major(
    b: int,
    c: int,
    y: int,
    x: int,
    channels: int,
    height: int,
    width: int,
)
    ensures
        linear(0, 0, 0, 0, channels, height, width) == 0,
        linear(b, c, y, x + 1, channels, height, width) == linear(
            b,
            c,
            y,
            x,
            channels,
            height,
            width,
        ) + 1,
        linear(b, c, y + 1, x, channels, height, width) == linear(
            b,
            c,
            y,
            x,
            channels,
            height,
            width,
        ) + width,
        linear(b, c, y + 1, 0, channels, height, width) == linear(
            b,
            c,
            y,
            width,
            channels,
            height,
            width,
        ),
        linear(b, c + 1, 0, 0, channels, height, width) == linear(
            b,
            c,
            height,
            0,
            channels,
            height,
            width,
        ),
        linear(b + 1, 0, 0, 0, channels, height, width) == linear(
            b,
            channels,
            0,
            0,
            channels,
            height,
            width,
        ),
        volume(b, channels, height, width) == linear(b, 0, 0, 0, channels, height, width),
{
    let k = b * channels + c;
    assert((k * height + (y + 1)) * width == (k * height + y) * width + width) by (nonlinear_arith);
    assert((k + 1) * height == k * height + height) by (nonlinear_arith);
    assert((b + 1) * channels == b * channels + channels) by (nonlinear_arith);
    assert(0 * channels == 0 && 0 * height == 0 && 0 * width == 0) by (nonlinear_arith);
}

} // verus!
