//! Pictures in the formats in which they are kept.

use crate::texture::{lemma_place, Image, ImageView};
use image::DynamicImage::{
    ImageLuma16, ImageLuma8, ImageLumaA16, ImageLumaA8, ImageRgb16, ImageRgb8, ImageRgba16,
    ImageRgba8,
};
use image::ImageBuffer;
use image_overlay::{overlay_dyn_img, BlendMode};
use vstd::prelude::*;

verus! {

/// The format that a picture is kept in: gray or colored, with or without transparency, in samples
/// of eight or sixteen bits.
#[derive(Clone, Copy, PartialEq, Eq, Structural, Debug)]
pub enum ColorType {
    Gray8,
    GrayAlpha8,
    Rgb8,
    Rgba8,
    Gray16,
    GrayAlpha16,
    Rgb16,
    Rgba16,
}

impl ColorType {
    /// Whether a sample has sixteen bits.
    pub open spec fn deep(self) -> bool {
        match self {
            ColorType::Gray8 | ColorType::GrayAlpha8 | ColorType::Rgb8 | ColorType::Rgba8 => false,
            _ => true,
        }
    }

    /// How many samples a pixel is kept in.
    pub open spec fn channels(self) -> int {
        match self {
            ColorType::Gray8 | ColorType::Gray16 => 1,
            ColorType::GrayAlpha8 | ColorType::GrayAlpha16 => 2,
            ColorType::Rgb8 | ColorType::Rgb16 => 3,
            ColorType::Rgba8 | ColorType::Rgba16 => 4,
        }
    }

    /// Whether a sample has sixteen bits.
    pub fn is_deep(self) -> (r: bool)
        ensures
            r == self.deep(),
    {
        match self {
            ColorType::Gray8 | ColorType::GrayAlpha8 | ColorType::Rgb8 | ColorType::Rgba8 => false,
            _ => true,
        }
    }

    /// How many samples a pixel is kept in.
    pub fn channel_count(self) -> (r: usize)
        ensures
            r == self.channels(),
    {
        match self {
            ColorType::Gray8 | ColorType::Gray16 => 1,
            ColorType::GrayAlpha8 | ColorType::GrayAlpha16 => 2,
            ColorType::Rgb8 | ColorType::Rgb16 => 3,
            ColorType::Rgba8 | ColorType::Rgba16 => 4,
        }
    }
}

/// A picture, line by line from the top, and the format it is kept in. Each pixel has four samples
/// of sixteen bits, for red, green, blue and opacity; those of a narrower format are widened.
pub struct Picture {
    pub width: u32,
    pub height: u32,
    pub color: ColorType,
    pub samples: Vec<u16>,
}

/// What a `Picture` shows.
pub struct PictureView {
    pub width: u32,
    pub height: u32,
    pub color: ColorType,
    pub samples: Seq<u16>,
}

impl View for Picture {
    type V = PictureView;

    open spec fn view(&self) -> PictureView {
        PictureView {
            width: self.width,
            height: self.height,
            color: self.color,
            samples: self.samples@,
        }
    }
}

impl PictureView {
    /// Whether there are as many samples as the size asks for.
    pub open spec fn wf(self) -> bool {
        self.samples.len() == self.width * self.height * 4
    }

    /// The place of the first sample of a pixel.
    pub open spec fn place(self, x: int, y: int) -> int {
        4 * (y * self.width + x)
    }

    /// The samples of a pixel.
    pub open spec fn pixel(self, x: int, y: int) -> Seq<u16> {
        self.samples.subrange(self.place(x, y), self.place(x, y) + 4)
    }
}

/// A sample of eight bits in sixteen bits.
pub open spec fn widened(byte: u8) -> u16 {
    (byte * 257) as u16
}

/// The sample of eight bits that is nearest to one of sixteen bits.
pub open spec fn narrowed(sample: u16) -> u8 {
    ((sample + 128) / 257) as u8
}

/// A sample that was widened is narrowed to what it was.
pub proof fn law_narrow_widened(byte: u8)
    ensures
        narrowed(widened(byte)) == byte,
{
}

/// A picture in colors with transparency, in eight bits.
pub open spec fn rgba8_of(picture: PictureView) -> ImageView {
    ImageView {
        width: picture.width,
        height: picture.height,
        pixels: picture.samples.map_values(|sample: u16| narrowed(sample)),
    }
}

/// The picture that is kept as an image.
pub open spec fn picture_of(image: ImageView) -> PictureView {
    PictureView {
        width: image.width,
        height: image.height,
        color: ColorType::Rgba8,
        samples: image.pixels.map_values(|byte: u8| widened(byte)),
    }
}

/// An image that is kept as a picture is read as it was.
pub proof fn law_image_is_kept(image: ImageView)
    ensures
        rgba8_of(picture_of(image)) == image,
{
    assert(rgba8_of(picture_of(image)).pixels =~= image.pixels);
}

#[derive(Copy, Clone, PartialEq, Eq, Structural, Debug)]
pub enum Flip {
    Horizontal,
    Vertical,
    /// Swaps columns and lines.
    Diagonal,
}

impl Flip {
    /// The size of a flipped picture.
    pub open spec fn size(self, width: u32, height: u32) -> (u32, u32) {
        match self {
            Flip::Diagonal => (height, width),
            _ => (width, height),
        }
    }

    /// The pixel of a picture of this size that a flipped picture shows at a place.
    pub open spec fn source(self, width: int, height: int, x: int, y: int) -> (int, int) {
        match self {
            Flip::Horizontal => (width - 1 - x, y),
            Flip::Vertical => (x, height - 1 - y),
            Flip::Diagonal => (y, x),
        }
    }
}

/// Whether `r` is a picture flipped.
pub open spec fn is_flipped(image: PictureView, flip: Flip, r: PictureView) -> bool {
    &&& r.wf()
    &&& r.color == image.color
    &&& (r.width, r.height) == flip.size(image.width, image.height)
    &&& forall|x: int, y: int|
        #![trigger r.place(x, y)]
        0 <= x < r.width && 0 <= y < r.height ==> {
            let (sx, sy) = flip.source(image.width as int, image.height as int, x, y);
            &&& 0 <= sx < image.width
            &&& 0 <= sy < image.height
            &&& r.pixel(x, y) == image.pixel(sx, sy)
        }
}

/// A picture flipped.
pub open spec fn flipped(image: PictureView, flip: Flip) -> PictureView {
    let (width, height) = flip.size(image.width, image.height);
    PictureView {
        width,
        height,
        color: image.color,
        samples: Seq::new(
            (width * height * 4) as nat,
            |i: int|
                {
                    let (x, y) = flip.source(
                        image.width as int,
                        image.height as int,
                        i / 4 % (width as int),
                        i / 4 / (width as int),
                    );
                    image.samples[image.place(x, y) + i % 4]
                },
        ),
    }
}

proof fn lemma_flipped(image: PictureView, flip: Flip, r: PictureView)
    requires
        image.wf(),
        is_flipped(image, flip, r),
    ensures
        r == flipped(image, flip),
{
    let expected = flipped(image, flip);
    let (width, height) = (r.width as int, r.height as int);
    assert(r.samples.len() == expected.samples.len());
    assert forall|i: int| 0 <= i < r.samples.len() implies r.samples[i] == expected.samples[i] by {
        let n = i / 4;
        assert(0 < width) by (nonlinear_arith)
            requires
                0 <= n < width * height,
                0 <= width,
        ;
        lemma_unplace(width, height, n);
        let (x, y) = (n % width, n / width);
        assert(r.place(x, y) == 4 * n);
        let (sx, sy) = flip.source(image.width as int, image.height as int, x, y);
        assert(r.pixel(x, y)[i % 4] == r.samples[i]);
        lemma_place(image.width as int, image.height as int, sx, sy);
        assert(image.pixel(sx, sy)[i % 4] == image.samples[image.place(sx, sy) + i % 4]);
    }
    assert(r.samples =~= expected.samples);
}

/// Flipping twice in the same way shows each pixel where it was.
pub proof fn law_flip_twice(image: PictureView, flip: Flip, a: PictureView, b: PictureView, x: int, y: int)
    requires
        is_flipped(image, flip, a),
        is_flipped(a, flip, b),
        0 <= x < image.width,
        0 <= y < image.height,
    ensures
        (b.width, b.height) == (image.width, image.height),
        b.pixel(x, y) == image.pixel(x, y),
{
    let (sx, sy) = flip.source(a.width as int, a.height as int, x, y);
    let _ = b.place(x, y);
    let _ = a.place(sx, sy);
}

/// The sample number `i` of a picture as its format keeps it.
pub open spec fn kept_sample(picture: PictureView, i: int) -> u16 {
    let sample = match picture.color {
        ColorType::Gray8 | ColorType::Gray16 => picture.samples[4 * i],
        ColorType::GrayAlpha8 | ColorType::GrayAlpha16 => picture.samples[4 * (i / 2) + 3 * (i % 2)],
        ColorType::Rgb8 | ColorType::Rgb16 => picture.samples[4 * (i / 3) + i % 3],
        ColorType::Rgba8 | ColorType::Rgba16 => picture.samples[i],
    };
    if picture.color.deep() {
        sample
    } else {
        narrowed(sample) as u16
    }
}

/// The samples of a picture as its format keeps them.
pub open spec fn kept_samples(picture: PictureView) -> Seq<u16> {
    Seq::new(
        (picture.samples.len() / 4 * picture.color.channels()) as nat,
        |i: int| kept_sample(picture, i),
    )
}

/// The sample number `i` of a picture that a format keeps as `kept`.
pub open spec fn shown_sample(color: ColorType, kept: Seq<u16>, i: int) -> u16 {
    let (n, c) = (i / 4, i % 4);
    let sample = match color {
        ColorType::Gray8 | ColorType::Gray16 => kept[n],
        ColorType::GrayAlpha8 | ColorType::GrayAlpha16 => kept[2 * n + (if c < 3 {
            0
        } else {
            1int
        })],
        ColorType::Rgb8 | ColorType::Rgb16 => kept[3 * n + (if c < 3 {
            c
        } else {
            0
        })],
        ColorType::Rgba8 | ColorType::Rgba16 => kept[i],
    };
    if c == 3 && (color.channels() == 1 || color.channels() == 3) {
        0xffff
    } else if color.deep() {
        sample
    } else {
        (sample * 257) as u16
    }
}

/// The samples of a picture of `count` pixels that a format keeps as `kept`.
pub open spec fn shown_samples(color: ColorType, kept: Seq<u16>, count: nat) -> Seq<u16> {
    Seq::new(4 * count, |i: int| shown_sample(color, kept, i))
}

/// The samples of a picture of a format with another picture laid over it. The samples of the other
/// one are those of colors with transparency, in sixteen bits.
pub uninterp spec fn overlaid(
    base: Seq<u16>,
    color: ColorType,
    overlay: Seq<u16>,
    width: u32,
    height: u32,
) -> Seq<u16>;

/// Lays a picture over one that is kept in samples of eight bits.
///
/// `image_overlay::overlay_dyn_img` in the mode `Normal`, from the top left corner: the samples of
/// the result, in the format of the base, are named, and there are as many as before. The call reads
/// a sample of the upper picture as a fraction of the greatest one, which widening does not change.
#[verifier::external_body]
fn overlay_shallow(
    base: Vec<u16>,
    color: ColorType,
    overlay: Vec<u16>,
    width: u32,
    height: u32,
) -> (r: Vec<u16>)
    requires
        !color.deep(),
        base@.len() == width * height * color.channels(),
        forall|i: int| 0 <= i < base@.len() ==> #[trigger] base@[i] <= 0xff,
        overlay@.len() == width * height * 4,
    ensures
        r@ == overlaid(base@, color, overlay@, width, height),
        r@.len() == base@.len(),
        forall|i: int| 0 <= i < r@.len() ==> #[trigger] r@[i] <= 0xff,
{
    let bytes: Vec<u8> = base.into_iter().map(|sample| sample as u8).collect();
    let mut bottom = match color {
        ColorType::Gray8 => ImageLuma8(ImageBuffer::from_raw(width, height, bytes).unwrap()),
        ColorType::GrayAlpha8 => ImageLumaA8(ImageBuffer::from_raw(width, height, bytes).unwrap()),
        ColorType::Rgb8 => ImageRgb8(ImageBuffer::from_raw(width, height, bytes).unwrap()),
        _ => ImageRgba8(ImageBuffer::from_raw(width, height, bytes).unwrap()),
    };
    let top = ImageRgba16(ImageBuffer::from_raw(width, height, overlay).unwrap());
    overlay_dyn_img(&mut bottom, &top, 0, 0, BlendMode::Normal);
    bottom.into_bytes().into_iter().map(|byte| byte as u16).collect()
}

/// Lays a picture over one that is kept in samples of sixteen bits.
///
/// `image_overlay::overlay_dyn_img` in the mode `Normal`, from the top left corner: the samples of
/// the result, in the format of the base, are named, and there are as many as before.
#[verifier::external_body]
fn overlay_deep(
    base: Vec<u16>,
    color: ColorType,
    overlay: Vec<u16>,
    width: u32,
    height: u32,
) -> (r: Vec<u16>)
    requires
        color.deep(),
        base@.len() == width * height * color.channels(),
        overlay@.len() == width * height * 4,
    ensures
        r@ == overlaid(base@, color, overlay@, width, height),
        r@.len() == base@.len(),
{
    let mut bottom = match color {
        ColorType::Gray16 => ImageLuma16(ImageBuffer::from_raw(width, height, base).unwrap()),
        ColorType::GrayAlpha16 => ImageLumaA16(ImageBuffer::from_raw(width, height, base).unwrap()),
        ColorType::Rgb16 => ImageRgb16(ImageBuffer::from_raw(width, height, base).unwrap()),
        _ => ImageRgba16(ImageBuffer::from_raw(width, height, base).unwrap()),
    };
    let top = ImageRgba16(ImageBuffer::from_raw(width, height, overlay).unwrap());
    overlay_dyn_img(&mut bottom, &top, 0, 0, BlendMode::Normal);
    bottom.as_flat_samples_u16().unwrap().samples.to_vec()
}

/// A picture with another one of the same size laid over it. It stays in its format.
pub open spec fn laid_over(base: PictureView, overlay: PictureView) -> PictureView {
    PictureView {
        samples: shown_samples(
            base.color,
            overlaid(kept_samples(base), base.color, overlay.samples, base.width, base.height),
            (base.width * base.height) as nat,
        ),
        ..base
    }
}

/// The samples of the `i`-th pixel.
spec fn quad(samples: Seq<u16>, i: int) -> Seq<u16> {
    samples.subrange(4 * i, 4 * i + 4)
}

/// Whether the `i`-th pixel of a flipped picture is right.
spec fn quad_is_flipped(image: PictureView, flip: Flip, width: u32, samples: Seq<u16>, i: int) -> bool {
    let (sx, sy) = flip.source(
        image.width as int,
        image.height as int,
        i % (width as int),
        i / (width as int),
    );
    &&& 0 <= sx < image.width
    &&& 0 <= sy < image.height
    &&& quad(samples, i) == image.pixel(sx, sy)
}

proof fn lemma_unplace(width: int, height: int, n: int)
    requires
        0 <= n < width * height,
        0 < width,
    ensures
        0 <= n % width < width,
        0 <= n / width < height,
        (n / width) * width + n % width == n,
{
    vstd::arithmetic::div_mod::lemma_fundamental_div_mod(n, width);
    assert(n / width < height) by (nonlinear_arith)
        requires
            n == width * (n / width) + n % width,
            0 <= n % width,
            n < width * height,
            0 < width,
    ;
    assert(0 <= n / width) by (nonlinear_arith)
        requires
            0 <= n,
            0 < width,
    ;
    assert((n / width) * width == width * (n / width)) by (nonlinear_arith);
}

impl Picture {
    /// A copy of the picture.
    pub fn copy(&self) -> (r: Picture)
        ensures
            r@ == self@,
    {
        let mut samples: Vec<u16> = Vec::new();
        let mut i: usize = 0;
        while i < self.samples.len()
            invariant
                i <= self.samples@.len(),
                samples@ == self.samples@.take(i as int),
            decreases self.samples@.len() - i,
        {
            samples.push(self.samples[i]);
            assert(samples@ =~= self.samples@.take(i + 1));
            i += 1;
        }
        assert(samples@ =~= self.samples@);
        Picture { width: self.width, height: self.height, color: self.color, samples }
    }

    /// Whether the picture has the samples of all its pixels.
    pub fn is_whole(&self) -> (r: bool)
        ensures
            r == self@.wf(),
    {
        assert(0 <= self.width * self.height <= 0xffff_ffff * 0xffff_ffff) by (nonlinear_arith)
            requires
                0 <= self.width <= 0xffff_ffff,
                0 <= self.height <= 0xffff_ffff,
        ;
        self.samples.len() as u128 == self.width as u128 * self.height as u128 * 4
    }

    /// The picture in colors with transparency, in eight bits.
    pub fn to_rgba8(&self) -> (r: Image)
        ensures
            r@ == rgba8_of(self@),
            self@.wf() ==> r@.wf(),
    {
        let mut pixels: Vec<u8> = Vec::new();
        let mut i: usize = 0;
        while i < self.samples.len()
            invariant
                i <= self.samples@.len(),
                pixels@ == rgba8_of(self@).pixels.take(i as int),
            decreases self.samples@.len() - i,
        {
            pixels.push(((self.samples[i] as u32 + 128) / 257) as u8);
            assert(pixels@ =~= rgba8_of(self@).pixels.take(i + 1));
            i += 1;
        }
        assert(pixels@ =~= rgba8_of(self@).pixels);
        Image { width: self.width, height: self.height, pixels }
    }

    /// The picture that is kept as an image.
    pub fn from_rgba8(image: &Image) -> (r: Picture)
        ensures
            r@ == picture_of(image@),
            image@.wf() ==> r@.wf(),
    {
        let mut samples: Vec<u16> = Vec::new();
        let mut i: usize = 0;
        while i < image.pixels.len()
            invariant
                i <= image.pixels@.len(),
                samples@ == picture_of(image@).samples.take(i as int),
            decreases image.pixels@.len() - i,
        {
            samples.push(image.pixels[i] as u16 * 257);
            assert(samples@ =~= picture_of(image@).samples.take(i + 1));
            i += 1;
        }
        assert(samples@ =~= picture_of(image@).samples);
        Picture { width: image.width, height: image.height, color: ColorType::Rgba8, samples }
    }

    /// The samples of the picture as its format keeps them.
    fn kept(&self) -> (r: Vec<u16>)
        requires
            self@.wf(),
        ensures
            r@ == kept_samples(self@),
    {
        let length: usize = self.samples.len();
        let channels: usize = self.color.channel_count();
        assert(length / 4 * channels <= length) by (nonlinear_arith)
            requires
                0 <= length,
                0 <= channels <= 4,
        ;
        let count: usize = length / 4 * channels;
        let mut kept: Vec<u16> = Vec::new();
        let mut i: usize = 0;
        while i < count
            invariant
                i <= count,
                length == self.samples@.len(),
                length % 4 == 0,
                count == length / 4 * self.color.channels(),
                kept@ == kept_samples(self@).take(i as int),
            decreases count - i,
        {
            let from: usize = match self.color {
                ColorType::Gray8 | ColorType::Gray16 => 4 * i,
                ColorType::GrayAlpha8 | ColorType::GrayAlpha16 => 4 * (i / 2) + 3 * (i % 2),
                ColorType::Rgb8 | ColorType::Rgb16 => 4 * (i / 3) + i % 3,
                ColorType::Rgba8 | ColorType::Rgba16 => i,
            };
            let sample: u16 = self.samples[from];
            if self.color.is_deep() {
                kept.push(sample);
            } else {
                kept.push(((sample as u32 + 128) / 257) as u16);
            }
            assert(kept@ =~= kept_samples(self@).take(i + 1));
            i += 1;
        }
        assert(kept@ =~= kept_samples(self@));
        kept
    }

    /// The picture with another one of the same size laid over it.
    pub fn overlay(&self, overlay: Picture) -> (r: Picture)
        requires
            self@.wf(),
            overlay@.wf(),
            (overlay.width, overlay.height) == (self.width, self.height),
        ensures
            r@ == laid_over(self@, overlay@),
            r@.wf(),
    {
        let length: usize = self.samples.len();
        let count: usize = length / 4;
        let kept = self.kept();
        let ghost base = kept@;
        proof {
            assert(count == self.width * self.height);
            assert forall|i: int| 0 <= i < base.len() && !self.color.deep() implies #[trigger] base[i]
                <= 0xff by {}
        }
        let laid = if self.color.is_deep() {
            overlay_deep(kept, self.color, overlay.samples, self.width, self.height)
        } else {
            overlay_shallow(kept, self.color, overlay.samples, self.width, self.height)
        };
        let ghost expected = shown_samples(self.color, laid@, count as nat);
        let mut samples: Vec<u16> = Vec::new();
        let mut i: usize = 0;
        while i < length
            invariant
                i <= length,
                length == 4 * count,
                laid@.len() == count * self.color.channels(),
                !self.color.deep() ==> forall|j: int|
                    0 <= j < laid@.len() ==> #[trigger] laid@[j] <= 0xff,
                expected == shown_samples(self.color, laid@, count as nat),
                samples@ == expected.take(i as int),
            decreases length - i,
        {
            let n: usize = i / 4;
            let c: usize = i % 4;
            let channels: usize = self.color.channel_count();
            if c == 3 && (channels == 1 || channels == 3) {
                samples.push(0xffff);
            } else {
                let from: usize = match self.color {
                    ColorType::Gray8 | ColorType::Gray16 => n,
                    ColorType::GrayAlpha8 | ColorType::GrayAlpha16 => if c < 3 {
                        2 * n
                    } else {
                        2 * n + 1
                    },
                    ColorType::Rgb8 | ColorType::Rgb16 => 3 * n + c,
                    ColorType::Rgba8 | ColorType::Rgba16 => i,
                };
                let sample: u16 = laid[from];
                if self.color.is_deep() {
                    samples.push(sample);
                } else {
                    samples.push(sample * 257);
                }
            }
            assert(samples@ =~= expected.take(i + 1));
            i += 1;
        }
        assert(samples@ =~= expected);
        Picture { width: self.width, height: self.height, color: self.color, samples }
    }

    /// The picture flipped.
    pub fn flip(&self, flip: Flip) -> (r: Picture)
        requires
            self@.wf(),
        ensures
            r@ == flipped(self@, flip),
            is_flipped(self@, flip, r@),
    {
        let (width, height): (u32, u32) = match flip {
            Flip::Diagonal => (self.height, self.width),
            _ => (self.width, self.height),
        };
        let mut samples: Vec<u16> = Vec::new();
        let length: usize = self.samples.len();
        let count: usize = length / 4;
        let ghost image = self@;
        assert(count == width * height) by {
            assert(self.width * self.height == self.height * self.width) by (nonlinear_arith);
        }
        let mut n: usize = 0;
        while n < count
            invariant
                n <= count,
                length == self.samples@.len(),
                count == width * height,
                count == self.width * self.height,
                length == count * 4,
                image == self@,
                image.wf(),
                (width, height) == flip.size(self.width, self.height),
                samples@.len() == 4 * n,
                forall|i: int|
                    0 <= i < n ==> #[trigger] quad_is_flipped(image, flip, width, samples@, i),
            decreases count - n,
        {
            assert(width > 0) by (nonlinear_arith)
                requires
                    n < width * height,
                    0 <= n,
                    0 <= width,
            ;
            proof {
                lemma_unplace(width as int, height as int, n as int);
            }
            let x: usize = n % width as usize;
            let y: usize = n / width as usize;
            let (sx, sy): (usize, usize) = match flip {
                Flip::Horizontal => (self.width as usize - 1 - x, y),
                Flip::Vertical => (x, self.height as usize - 1 - y),
                Flip::Diagonal => (y, x),
            };
            proof {
                lemma_place(self.width as int, self.height as int, sx as int, sy as int);
                assert(0 <= sy * self.width) by (nonlinear_arith)
                    requires
                        0 <= sy,
                        0 <= self.width,
                ;
            }
            let from: usize = (sy * self.width as usize + sx) * 4;
            let ghost before = samples@;
            samples.push(self.samples[from]);
            samples.push(self.samples[from + 1]);
            samples.push(self.samples[from + 2]);
            samples.push(self.samples[from + 3]);
            proof {
                assert(quad(samples@, n as int) =~= image.pixel(sx as int, sy as int));
                assert forall|i: int| 0 <= i < n + 1 implies #[trigger] quad_is_flipped(
                    image,
                    flip,
                    width,
                    samples@,
                    i,
                ) by {
                    if i < n {
                        assert(quad_is_flipped(image, flip, width, before, i));
                        assert(quad(samples@, i) =~= quad(before, i));
                    }
                }
            }
            n += 1;
        }
        let r = Picture { width, height, color: self.color, samples };
        proof {
            assert forall|x: int, y: int|
                #![trigger r@.place(x, y)]
                0 <= x < width && 0 <= y < height implies {
                let (sx, sy) = flip.source(image.width as int, image.height as int, x, y);
                &&& 0 <= sx < image.width
                &&& 0 <= sy < image.height
                &&& r@.pixel(x, y) == image.pixel(sx, sy)
            } by {
                lemma_place(width as int, height as int, x, y);
                let i = y * width + x;
                assert(quad_is_flipped(image, flip, width, samples@, i));
            }
        }
        proof {
            lemma_flipped(image, flip, r@);
        }
        r
    }
}

/// A flipped picture shows the columns, or the rows, in the other order; flipped at the diagonal it
/// shows rows for columns. The samples of a pixel stay in order.
pub proof fn law_flipped_places(image: PictureView, x: int, y: int, c: int)
    requires
        0 <= x < image.width,
        0 <= y < image.height,
        0 <= c < 4,
    ensures
        ({
            let (w, h) = (image.width as int, image.height as int);
            let at = |s: Seq<u16>, row: int, x: int, y: int| s[4 * (y * row + x) + c];
            let a = flipped(image, Flip::Horizontal);
            let b = flipped(image, Flip::Vertical);
            let d = flipped(image, Flip::Diagonal);
            &&& a.width == w && a.height == h && b.width == w && b.height == h
            &&& d.width == h && d.height == w
            &&& a.color == image.color && b.color == image.color && d.color == image.color
            &&& at(a.samples, w, x, y) == at(image.samples, w, w - 1 - x, y)
            &&& at(b.samples, w, x, y) == at(image.samples, w, x, h - 1 - y)
            &&& at(d.samples, h, y, x) == at(image.samples, w, x, y)
        }),
{
    let (w, h) = (image.width as int, image.height as int);
    lemma_place(w, h, x, y);
    lemma_place(h, w, y, x);
    let n = y * w + x;
    let m = x * h + y;
    let (i, j) = (4 * n + c, 4 * m + c);
    assert(i / 4 == n && i % 4 == c && j / 4 == m && j % 4 == c);
    assert(w * h == h * w) by (nonlinear_arith);
    assert(flipped(image, Flip::Horizontal).samples[i] == image.samples[image.place(w - 1 - x, y) + c]);
    assert(flipped(image, Flip::Vertical).samples[i] == image.samples[image.place(x, h - 1 - y) + c]);
    assert(flipped(image, Flip::Diagonal).samples[j] == image.samples[image.place(x, y) + c]);
}

/// A narrowed sample lies at most half a step from the sample, and a widened one repeats its bits.
pub proof fn law_nearest_sample(sample: u16, byte: u8)
    ensures
        -128 <= sample - 257 * narrowed(sample) <= 128,
        widened(byte) / 256 == byte,
        widened(byte) % 256 == byte,
{
}

/// Whether a format keeps the sample number `c` of a pixel on its own.
pub open spec fn carries(color: ColorType, c: int) -> bool {
    match color {
        ColorType::Gray8 | ColorType::Gray16 => c == 0,
        ColorType::GrayAlpha8 | ColorType::GrayAlpha16 => c == 0 || c == 3,
        ColorType::Rgb8 | ColorType::Rgb16 => c < 3,
        ColorType::Rgba8 | ColorType::Rgba16 => true,
    }
}

/// What a format keeps of a picture is shown as it was, where it is as fine as the format; gray is
/// shown in all three colors, and a format without transparency shows everything.
pub proof fn law_kept_is_shown(picture: PictureView, n: int, c: int)
    requires
        picture.wf(),
        0 <= c < 4,
        0 <= n < picture.width * picture.height,
        picture.color.deep() || picture.samples[4 * n + c] % 257 == 0,
        picture.color.deep() || picture.samples[4 * n] % 257 == 0,
    ensures
        ({
            let r = shown_samples(
                picture.color,
                kept_samples(picture),
                (picture.samples.len() / 4) as nat,
            );
            &&& r.len() == picture.samples.len()
            &&& carries(picture.color, c) ==> r[4 * n + c] == picture.samples[4 * n + c]
            &&& !carries(picture.color, c) && c < 3 ==> r[4 * n + c] == picture.samples[4 * n]
            &&& !carries(picture.color, c) && c == 3 ==> r[4 * n + c] == 0xffff
        }),
{
    let count = picture.samples.len() / 4;
    assert(count == picture.width * picture.height);
    let kept = kept_samples(picture);
    let i = 4 * n + c;
    assert(i / 4 == n && i % 4 == c);
    match picture.color {
        ColorType::Gray8 | ColorType::Gray16 => {
            assert(kept[n] == kept_sample(picture, n));
        },
        ColorType::GrayAlpha8 | ColorType::GrayAlpha16 => {
            let k = if c < 3 {
                2 * n
            } else {
                2 * n + 1
            };
            assert(0 <= k < kept.len());
            assert(kept[k] == kept_sample(picture, k));
        },
        ColorType::Rgb8 | ColorType::Rgb16 => {
            if c < 3 {
                assert((3 * n + c) / 3 == n && (3 * n + c) % 3 == c);
                assert(kept[3 * n + c] == kept_sample(picture, 3 * n + c));
            }
        },
        ColorType::Rgba8 | ColorType::Rgba16 => {
            assert(kept[i] == kept_sample(picture, i));
        },
    }
}

} // verus!
