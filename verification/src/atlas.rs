//! The picture that holds all textures.

use crate::color::Color;
use crate::picture::{rgba8_of, Picture, PictureView};
use crate::text;
use crate::texture::{Image, ImageView};
use base64::prelude::BASE64_STANDARD;
use base64::Engine;
use image::{DynamicImage, ImageBuffer, ImageFormat, RgbaImage};
use texture_packer::exporter::ImageExporter;
use texture_packer::{TexturePacker, TexturePackerConfig};
use vstd::prelude::*;

verus! {

/// The width and the height of the atlas.
pub const ATLAS_SIZE: u32 = 2048;

/// A packer of `texture_packer` that places pictures by the skylines of those it holds.
#[verifier::external_body]
pub struct AtlasPacker {
    packer: TexturePacker<'static, DynamicImage, usize>,
}

/// The sizes of the pictures that a packer has placed, in order.
pub uninterp spec fn placed_sizes(packer: AtlasPacker) -> Seq<(u32, u32)>;

/// Where a packer has placed its pictures: the left and upper border, the width and the height.
pub uninterp spec fn frames(packer: AtlasPacker) -> Map<usize, (u32, u32, u32, u32)>;

/// The bytes of the pictures of a packer.
pub uninterp spec fn pictures(packer: AtlasPacker) -> Map<usize, Seq<u8>>;

/// Where a packer that has placed pictures of the given sizes places the next one; `None` if it has
/// no room for it.
pub uninterp spec fn next_place(sizes: Seq<(u32, u32)>, width: u32, height: u32) -> Option<(u32, u32)>;

/// Whether a pixel lies in a frame.
pub open spec fn in_frame(frame: (u32, u32, u32, u32), x: int, y: int) -> bool {
    frame.0 <= x < frame.0 + frame.2 && frame.1 <= y < frame.1 + frame.3
}

/// Whether no pixel lies in both of two frames.
pub open spec fn are_apart(a: (u32, u32, u32, u32), b: (u32, u32, u32, u32)) -> bool {
    a.0 + a.2 <= b.0 || b.0 + b.2 <= a.0 || a.1 + a.3 <= b.1 || b.1 + b.3 <= a.1
}

/// No frames.
pub open spec fn no_frames() -> Map<usize, (u32, u32, u32, u32)> {
    Map::empty()
}

/// No pictures.
pub open spec fn no_pictures() -> Map<usize, Seq<u8>> {
    Map::empty()
}

/// How a packer places its pictures.
#[derive(Clone, Copy)]
pub struct PackerSettings {
    pub width: u32,
    pub height: u32,
    /// Whether pictures may be turned.
    pub rotates: bool,
    /// Whether the atlas has its full size, however few pictures it holds.
    pub keeps_size: bool,
    /// The pixels that are left free at the border of the atlas.
    pub border: u32,
    /// The pixels that are left free between pictures.
    pub gap: u32,
    /// How often the border of a picture is repeated round it.
    pub extrusion: u32,
    /// Whether the transparent borders of pictures are cut off.
    pub trims: bool,
    /// Whether pictures get an outline.
    pub outlines: bool,
}

impl PackerSettings {
    /// Whether pictures stand side by side, as they are, in an atlas of its full size.
    pub open spec fn are_plain(self) -> bool {
        &&& self.width == ATLAS_SIZE && self.height == ATLAS_SIZE
        &&& !self.rotates && self.keeps_size
        &&& self.border == 0 && self.gap == 0 && self.extrusion == 0
        &&& !self.trims && !self.outlines
    }
}

/// An empty packer for an atlas.
///
/// `TexturePacker::new_skyline`: it holds nothing.
#[verifier::external_body]
fn packer_new(settings: PackerSettings) -> (r: AtlasPacker)
    requires
        settings.are_plain(),
    ensures
        placed_sizes(r).len() == 0,
        frames(r) == no_frames(),
        pictures(r) == no_pictures(),
{
    let config = TexturePackerConfig {
        max_width: settings.width,
        max_height: settings.height,
        allow_rotation: settings.rotates,
        force_max_dimensions: settings.keeps_size,
        border_padding: settings.border,
        texture_padding: settings.gap,
        texture_extrusion: settings.extrusion,
        trim: settings.trims,
        texture_outlines: settings.outlines,
    };
    AtlasPacker { packer: TexturePacker::new_skyline(config) }
}

/// Places a picture.
///
/// `TexturePacker::pack_own`: where the picture goes depends on the sizes of those before it alone,
/// and is named. It lies within the atlas and apart from the others, which stay. A picture for which
/// there is no room is left out.
#[verifier::external_body]
fn packer_pack(packer: &mut AtlasPacker, key: usize, width: u32, height: u32, pixels: Vec<u8>) -> (r:
    bool)
    requires
        0 < width <= 0x8000_0000,
        0 < height <= 0x8000_0000,
        pixels@.len() == width * height * 4,
        !frames(*old(packer)).contains_key(key),
    ensures
        match next_place(placed_sizes(*old(packer)), width, height) {
            Some((x, y)) => {
                &&& r
                &&& placed_sizes(*final(packer)) == placed_sizes(*old(packer)).push((width, height))
                &&& frames(*final(packer)) == frames(*old(packer)).insert(key, (x, y, width, height))
                &&& pictures(*final(packer)) == pictures(*old(packer)).insert(key, pixels@)
                &&& x + width <= ATLAS_SIZE
                &&& y + height <= ATLAS_SIZE
                &&& forall|other: usize|
                    frames(*old(packer)).contains_key(other) ==> are_apart(
                        #[trigger] frames(*old(packer))[other],
                        (x, y, width, height),
                    )
            },
            None => {
                &&& !r
                &&& placed_sizes(*final(packer)) == placed_sizes(*old(packer))
                &&& frames(*final(packer)) == frames(*old(packer))
                &&& pictures(*final(packer)) == pictures(*old(packer))
            },
        },
{
    let picture = RgbaImage::from_raw(width, height, pixels).unwrap();
    packer.packer.pack_own(key, DynamicImage::ImageRgba8(picture)).is_ok()
}

/// The frame of a picture.
///
/// `TexturePacker::get_frame`: where the picture was placed, `None` if it was not.
#[verifier::external_body]
fn packer_frame(packer: &AtlasPacker, key: usize) -> (r: Option<(u32, u32, u32, u32)>)
    ensures
        r == if frames(*packer).contains_key(key) {
            Some(frames(*packer)[key])
        } else {
            None
        },
{
    let frame = packer.packer.get_frame(&key);
    frame.map(|frame| (frame.frame.x, frame.frame.y, frame.frame.w, frame.frame.h))
}

/// The atlas of a view of that size.
pub open spec fn atlas_view(pixels: Seq<u8>) -> ImageView {
    ImageView { width: ATLAS_SIZE, height: ATLAS_SIZE, pixels }
}

/// Whether a pixel lies in none of several frames.
pub open spec fn in_no_frame(all: Map<usize, (u32, u32, u32, u32)>, x: int, y: int) -> bool {
    forall|key: usize| #[trigger] all.contains_key(key) ==> !in_frame(all[key], x, y)
}

/// Paints the atlas.
///
/// `ImageExporter::export` without a background: every pixel of a frame is that of its picture, and
/// a pixel of no frame is transparent.
#[verifier::external_body]
fn packer_export(packer: &AtlasPacker) -> (r: Vec<u8>)
    ensures
        r@.len() == 2048 * 2048 * 4,
        forall|key: usize, x: int, y: int|
            #![trigger frames(*packer)[key], atlas_view(r@).pixel(x, y)]
            frames(*packer).contains_key(key) && in_frame(frames(*packer)[key], x, y)
                ==> atlas_view(r@).pixel(x, y) == (ImageView {
                width: frames(*packer)[key].2,
                height: frames(*packer)[key].3,
                pixels: pictures(*packer)[key],
            }).pixel(x - frames(*packer)[key].0, y - frames(*packer)[key].1),
        forall|x: int, y: int|
            0 <= x < ATLAS_SIZE && 0 <= y < ATLAS_SIZE && in_no_frame(frames(*packer), x, y)
                ==> #[trigger] atlas_view(r@).pixel(x, y) == seq![0u8, 0, 0, 0],
{
    let exported: DynamicImage = ImageExporter::export(&packer.packer, None).unwrap();
    exported.into_rgba8().into_raw()
}

/// Whether a number is 16, doubled any number of times.
pub open spec fn is_multiple(n: int) -> bool
    decreases n,
{
    n == 16 || (n > 16 && n % 2 == 0 && is_multiple(n / 2))
}

/// The first of `from`, doubled any number of times, that has room for `size` pixels.
pub open spec fn multiple_from(size: int, from: int) -> int
    decreases
            (if size > from {
                size - from
            } else {
                0
            }),
{
    if size <= from || from <= 0 {
        from
    } else {
        multiple_from(size, 2 * from)
    }
}

/// The least multiple for a size.
pub open spec fn multiple_of(size: int) -> int {
    multiple_from(size, 16)
}

/// The least size of a picture in the atlas that has room for `size` pixels: 16, doubled as often as
/// need be.
pub fn get_nearest_texture_multiple(size: u32) -> (r: u32)
    requires
        size <= 0x8000_0000,
    ensures
        r == multiple_of(size as int),
        is_multiple(r as int),
        size <= r <= 0x8000_0000,
        r == 16 || size > r / 2,
{
    let mut current: u32 = 16;
    while size > current
        invariant
            size <= 0x8000_0000,
            multiple_of(size as int) == multiple_from(size as int, current as int),
            is_multiple(current as int),
            16 <= current <= 0x8000_0000,
            current == 16 || size > current / 2,
        decreases 0x8000_0000 - current,
    {
        proof {
            lemma_multiple_doubles(current as int);
            lemma_multiple_below(current as int);
        }
        current = current * 2;
    }
    current
}

proof fn lemma_multiple_doubles(n: int)
    requires
        is_multiple(n),
    ensures
        is_multiple(2 * n),
{
}

/// A multiple below the greatest one can be doubled.
proof fn lemma_multiple_below(n: int)
    requires
        is_multiple(n),
        n < 0x8000_0000,
    ensures
        n <= 0x4000_0000,
{
    reveal_with_fuel(is_multiple, 30);
}

/// A picture that is filled up with transparent pixels to the right and below.
pub open spec fn is_padded(image: ImageView, r: ImageView) -> bool {
    &&& r.wf()
    &&& forall|x: int, y: int|
        0 <= x < r.width && 0 <= y < r.height ==> #[trigger] r.pixel(x, y) == if x < image.width && y
            < image.height {
            image.pixel(x, y)
        } else {
            seq![0u8, 0, 0, 0]
        }
}

/// A transparent picture.
fn blank(width: u32, height: u32) -> (r: Image)
    requires
        width * height * 4 <= usize::MAX,
    ensures
        r@.wf(),
        r.width == width,
        r.height == height,
        forall|x: int, y: int|
            0 <= x < width && 0 <= y < height ==> #[trigger] r@.pixel(x, y) == seq![0u8, 0, 0, 0],
{
    let color = Color { r: 0, g: 0, b: 0, a: 0 };
    let r = Image::fill(width, height, color);
    proof {
        assert forall|x: int, y: int| 0 <= x < width && 0 <= y < height implies #[trigger] r@.pixel(
            x,
            y,
        ) == seq![0u8, 0, 0, 0] by {
            crate::texture::lemma_place(width as int, height as int, x, y);
            assert(r@.pixel(x, y) =~= seq![0u8, 0, 0, 0]);
        }
    }
    r
}

/// The picture, filled up to a size.
fn pad(image: &Image, width: u32, height: u32) -> (r: Image)
    requires
        image@.wf(),
        image.width <= width,
        image.height <= height,
        width * height * 4 <= usize::MAX,
    ensures
        r.width == width,
        r.height == height,
        is_padded(image@, r@),
{
    let mut r = blank(width, height);
    let mut x: u32 = 0;
    while x < image.width
        invariant
            x <= image.width,
            image@.wf(),
            image.width <= width,
            image.height <= height,
            r@.wf(),
            r.width == width,
            r.height == height,
            forall|a: int, b: int|
                0 <= a < width && 0 <= b < height ==> #[trigger] r@.pixel(a, b) == if a < x && b
                    < image.height {
                    image@.pixel(a, b)
                } else {
                    seq![0u8, 0, 0, 0]
                },
        decreases image.width - x,
    {
        let mut y: u32 = 0;
        while y < image.height
            invariant
                x < image.width,
                y <= image.height,
                image@.wf(),
                image.width <= width,
                image.height <= height,
                r@.wf(),
                r.width == width,
                r.height == height,
                forall|a: int, b: int|
                    0 <= a < width && 0 <= b < height ==> #[trigger] r@.pixel(a, b) == if b
                        < image.height && (a < x || (a == x && b < y)) {
                        image@.pixel(a, b)
                    } else {
                        seq![0u8, 0, 0, 0]
                    },
            decreases image.height - y,
        {
            r.set_pixel(x, y, image.get_pixel(x, y));
            y += 1;
        }
        x += 1;
    }
    r
}

/// What is packed into the atlas: a texture, a texture of a model, or a glyph.
#[derive(Copy, Clone, PartialEq, Eq, Structural, Debug)]
pub enum TextureAtlasKey {
    Texture(usize),
    Model(usize, usize),
    Glyph(usize),
}

/// The textures among the first `n` that are packed: those whose names do not end in `!`.
pub open spec fn texture_keys(ids: Seq<Seq<char>>, n: int) -> Seq<TextureAtlasKey>
    decreases n,
{
    if n <= 0 {
        Seq::empty()
    } else if text::has_ending(ids[n - 1], seq!['!']) {
        texture_keys(ids, n - 1)
    } else {
        texture_keys(ids, n - 1).push(TextureAtlasKey::Texture((n - 1) as usize))
    }
}

/// The first `m` textures of a model that it brings along.
pub open spec fn model_keys(model: int, embedded: Seq<bool>, m: int) -> Seq<TextureAtlasKey>
    decreases m,
{
    if m <= 0 {
        Seq::empty()
    } else if embedded[m - 1] {
        model_keys(model, embedded, m - 1).push(
            TextureAtlasKey::Model(model as usize, (m - 1) as usize),
        )
    } else {
        model_keys(model, embedded, m - 1)
    }
}

/// The textures that the first `n` models bring along.
pub open spec fn all_model_keys(models: Seq<Vec<bool>>, n: int) -> Seq<TextureAtlasKey>
    decreases n,
{
    if n <= 0 {
        Seq::empty()
    } else {
        all_model_keys(models, n - 1) + model_keys(
            n - 1,
            models[n - 1]@,
            models[n - 1]@.len() as int,
        )
    }
}

/// Those of the first `n` glyphs that show something.
pub open spec fn glyph_keys(shown: Seq<bool>, n: int) -> Seq<TextureAtlasKey>
    decreases n,
{
    if n <= 0 {
        Seq::empty()
    } else if shown[n - 1] {
        glyph_keys(shown, n - 1).push(TextureAtlasKey::Glyph((n - 1) as usize))
    } else {
        glyph_keys(shown, n - 1)
    }
}

/// Everything that is packed, in order: given the names of the textures, of each model which of its
/// textures it brings along, and of each glyph whether it shows something.
pub fn atlas_keys(ids: &Vec<String>, models: &Vec<Vec<bool>>, glyphs: &Vec<bool>) -> (r: Vec<
    TextureAtlasKey,
>)
    ensures
        r@ == texture_keys(crate::scripts::names(ids@), ids@.len() as int) + all_model_keys(
            models@,
            models@.len() as int,
        ) + glyph_keys(glyphs@, glyphs@.len() as int),
{
    let mut r: Vec<TextureAtlasKey> = Vec::new();
    let ghost id_views = crate::scripts::names(ids@);
    let mut i: usize = 0;
    while i < ids.len()
        invariant
            i <= ids@.len(),
            id_views == crate::scripts::names(ids@),
            r@ == texture_keys(id_views, i as int),
        decreases ids@.len() - i,
    {
        assert(id_views[i as int] == ids@[i as int]@);
        proof {
            let id = ids@[i as int]@;
            assert(text::has_ending(id, seq!['!']) == (id.len() > 0 && id[id.len() - 1] == '!')) by {
                if id.len() > 0 {
                    assert(id.subrange(id.len() - 1, id.len() as int) =~= seq![id[id.len() - 1]]);
                    assert(seq![id[id.len() - 1]][0] == id[id.len() - 1]);
                    assert(seq!['!'][0] == '!');
                }
            }
        }
        if !text::ends_with(ids[i].as_str(), '!') {
            r.push(TextureAtlasKey::Texture(i));
        }
        i += 1;
    }
    let ghost first = r@;
    let mut m: usize = 0;
    assert(r@ =~= first + all_model_keys(models@, 0));
    while m < models.len()
        invariant
            m <= models@.len(),
            r@ == first + all_model_keys(models@, m as int),
        decreases models@.len() - m,
    {
        let embedded = &models[m];
        let ghost before = r@;
        let mut j: usize = 0;
        assert(r@ =~= before + model_keys(m as int, embedded@, 0));
        while j < embedded.len()
            invariant
                j <= embedded@.len(),
                r@ == before + model_keys(m as int, embedded@, j as int),
            decreases embedded@.len() - j,
        {
            if embedded[j] {
                r.push(TextureAtlasKey::Model(m, j));
            }
            j += 1;
            assert(r@ =~= before + model_keys(m as int, embedded@, j as int));
        }
        m += 1;
        assert(r@ =~= first + all_model_keys(models@, m as int));
    }
    let ghost second = r@;
    let mut g: usize = 0;
    assert(r@ =~= second + glyph_keys(glyphs@, 0));
    while g < glyphs.len()
        invariant
            g <= glyphs@.len(),
            r@ == second + glyph_keys(glyphs@, g as int),
        decreases glyphs@.len() - g,
    {
        if glyphs[g] {
            r.push(TextureAtlasKey::Glyph(g));
        }
        g += 1;
        assert(r@ =~= second + glyph_keys(glyphs@, g as int));
    }
    r
}

/// A rectangle of the atlas, in pixels.
#[derive(Copy, Clone, PartialEq, Eq, Structural, Debug)]
pub struct AtlasRect {
    pub x: u32,
    pub y: u32,
    pub width: u32,
    pub height: u32,
}

/// Whether a picture can be packed: it is sound, and so many pixels as it is filled up to can be held.
pub open spec fn can_pack(image: ImageView) -> bool {
    &&& image.wf()
    &&& image.width <= 0x8000_0000
    &&& image.height <= 0x8000_0000
    &&& multiple_of(image.width as int) * multiple_of(image.height as int) * 4 <= usize::MAX
}

/// Whether a picture can be packed.
pub fn is_packable(image: &Image) -> (r: bool)
    ensures
        r == can_pack(image@),
{
    if !image.is_whole() || image.width > 0x8000_0000 || image.height > 0x8000_0000 {
        return false;
    }
    let width: u32 = get_nearest_texture_multiple(image.width);
    let height: u32 = get_nearest_texture_multiple(image.height);
    assert(0 <= width * height <= 0x8000_0000 * 0x8000_0000) by (nonlinear_arith)
        requires
            0 <= width <= 0x8000_0000,
            0 <= height <= 0x8000_0000,
    ;
    width as u128 * height as u128 * 4 <= usize::MAX as u128
}

/// The sizes of those of the first `n` pictures that find a place.
pub open spec fn packed_sizes(images: Seq<ImageView>, n: int) -> Seq<(u32, u32)>
    decreases n,
{
    if n <= 0 {
        Seq::empty()
    } else {
        let before = packed_sizes(images, n - 1);
        let size = (
            multiple_of(images[n - 1].width as int) as u32,
            multiple_of(images[n - 1].height as int) as u32,
        );
        if next_place(before, size.0, size.1) is Some {
            before.push(size)
        } else {
            before
        }
    }
}

/// Where the picture number `i` lies in the atlas, without what it was filled up with.
pub open spec fn rect_of(images: Seq<ImageView>, i: int) -> Option<AtlasRect> {
    let place = next_place(
        packed_sizes(images, i),
        multiple_of(images[i].width as int) as u32,
        multiple_of(images[i].height as int) as u32,
    );
    match place {
        Some((x, y)) => Some(
            AtlasRect { x, y, width: images[i].width, height: images[i].height },
        ),
        None => None,
    }
}

/// The views of several pictures.
pub open spec fn image_views(images: Seq<Image>) -> Seq<ImageView> {
    images.map_values(|image: Image| image@)
}

/// All textures in one picture.
pub struct TextureAtlas {
    pub rects: Vec<Option<AtlasRect>>,
    pub picture: Image,
}

impl TextureAtlas {
    /// Whether every picture that found a place is shown there.
    pub open spec fn shows(self, images: Seq<ImageView>) -> bool {
        forall|i: int, x: int, y: int|
            #![trigger self.rects@[i], images[i].pixel(x, y)]
            0 <= i < images.len() && 0 <= x < images[i].width && 0 <= y < images[i].height
                && self.rects@[i] is Some ==> self.picture@.pixel(
                self.rects@[i]->0.x + x,
                self.rects@[i]->0.y + y,
            ) == images[i].pixel(x, y)
    }

    /// Whether a pixel lies in no picture.
    pub open spec fn is_free(self, x: int, y: int) -> bool {
        forall|i: int|
            0 <= i < self.rects@.len() && (#[trigger] self.rects@[i]) is Some ==> {
                let rect = self.rects@[i]->0;
                !in_frame((rect.x, rect.y, rect.width, rect.height), x, y)
            }
    }

    /// Whether every pixel that lies in no picture is transparent.
    pub open spec fn is_clear_elsewhere(self) -> bool {
        forall|x: int, y: int|
            0 <= x < ATLAS_SIZE && 0 <= y < ATLAS_SIZE && self.is_free(x, y)
                ==> #[trigger] self.picture@.pixel(x, y) == seq![0u8, 0, 0, 0]
    }

    /// Whether no two pictures overlap, and each lies within the atlas.
    pub open spec fn is_tidy(self) -> bool {
        &&& forall|i: int|
            0 <= i < self.rects@.len() && (#[trigger] self.rects@[i]) is Some ==> {
                &&& self.rects@[i]->0.x + self.rects@[i]->0.width <= ATLAS_SIZE
                &&& self.rects@[i]->0.y + self.rects@[i]->0.height <= ATLAS_SIZE
            }
        &&& forall|i: int, j: int|
            0 <= i < j < self.rects@.len() && (#[trigger] self.rects@[i]) is Some && (
            #[trigger] self.rects@[j]) is Some ==> rects_apart(
                self.rects@[i]->0,
                self.rects@[j]->0,
            )
    }

    /// Packs pictures. Each gets room for the next multiple of its size, as long as there is any.
    pub fn pack(images: &Vec<Image>) -> (r: TextureAtlas)
        requires
            forall|i: int| 0 <= i < images@.len() ==> can_pack((#[trigger] images@[i])@),
        ensures
            r.picture.width == ATLAS_SIZE,
            r.picture.height == ATLAS_SIZE,
            r.picture@.wf(),
            r.rects@ == Seq::new(
                images@.len(),
                |i: int| rect_of(image_views(images@), i),
            ),
            r.shows(image_views(images@)),
            r.is_clear_elsewhere(),
            r.is_tidy(),
    {
        let mut packer = packer_new(
            PackerSettings {
                width: ATLAS_SIZE,
                height: ATLAS_SIZE,
                rotates: false,
                keeps_size: true,
                border: 0,
                gap: 0,
                extrusion: 0,
                trims: false,
                outlines: false,
            },
        );
        let ghost views = image_views(images@);
        let mut rects: Vec<Option<AtlasRect>> = Vec::new();
        let mut i: usize = 0;
        while i < images.len()
            invariant
                i <= images@.len(),
                views == image_views(images@),
                forall|i: int| 0 <= i < images@.len() ==> can_pack((#[trigger] images@[i])@),
                placed_sizes(packer) == packed_sizes(views, i as int),
                rects@.len() == i,
                forall|j: int| 0 <= j < i ==> #[trigger] rects@[j] == rect_of(views, j),
                forall|key: usize| #[trigger]
                    frames(packer).contains_key(key) <==> key < i && rects@[key as int] is Some,
                forall|key: usize| #[trigger]
                    frames(packer).contains_key(key) ==> {
                        let frame = frames(packer)[key];
                        let rect = rects@[key as int]->0;
                        &&& frame.0 == rect.x
                        &&& frame.1 == rect.y
                        &&& rect.width == views[key as int].width
                        &&& rect.height == views[key as int].height
                        &&& rect.width <= frame.2
                        &&& rect.height <= frame.3
                        &&& frame.0 + frame.2 <= ATLAS_SIZE
                        &&& frame.1 + frame.3 <= ATLAS_SIZE
                        &&& is_padded(
                            views[key as int],
                            ImageView {
                                width: frame.2,
                                height: frame.3,
                                pixels: pictures(packer)[key],
                            },
                        )
                    },
                forall|a: usize, b: usize|
                    #![trigger frames(packer)[a], frames(packer)[b]]
                    a < b && frames(packer).contains_key(a) && frames(packer).contains_key(b)
                        ==> are_apart(frames(packer)[a], frames(packer)[b]),
            decreases images@.len() - i,
        {
            let image = &images[i];
            let width = get_nearest_texture_multiple(image.width);
            let height = get_nearest_texture_multiple(image.height);
            assert(can_pack(images@[i as int]@));
            proof {
                assert(views[i as int] == image@);
            }
            let padded = pad(image, width, height);
            let ghost before = packer;
            let ghost padded_view = padded@;
            let is_packed = packer_pack(&mut packer, i, width, height, padded.pixels);
            if is_packed {
                let rect = match packer_frame(&packer, i) {
                    Some((x, y, _, _)) => Some(
                        AtlasRect { x, y, width: image.width, height: image.height },
                    ),
                    None => None,
                };
                rects.push(rect);
            } else {
                rects.push(None);
            }
            proof {
                assert(rects@[i as int] == rect_of(views, i as int));
                assert forall|key: usize| #[trigger] frames(packer).contains_key(key) implies {
                    let frame = frames(packer)[key];
                    let rect = rects@[key as int]->0;
                    &&& frame.0 == rect.x
                    &&& frame.1 == rect.y
                    &&& rect.width == views[key as int].width
                    &&& rect.height == views[key as int].height
                    &&& rect.width <= frame.2
                    &&& rect.height <= frame.3
                    &&& frame.0 + frame.2 <= ATLAS_SIZE
                    &&& frame.1 + frame.3 <= ATLAS_SIZE
                    &&& is_padded(
                        views[key as int],
                        ImageView {
                            width: frame.2,
                            height: frame.3,
                            pixels: pictures(packer)[key],
                        },
                    )
                } by {
                    if key == i {
                        assert(padded_view == (ImageView {
                            width,
                            height,
                            pixels: pictures(packer)[key],
                        }));
                    } else {
                        assert(frames(before).contains_key(key));
                    }
                }
                assert forall|key: usize| #[trigger] frames(packer).contains_key(key) <==> key < i + 1
                    && rects@[key as int] is Some by {
                    if key != i {
                        assert(frames(packer).contains_key(key) == frames(before).contains_key(key));
                    }
                }
                assert forall|a: usize, b: usize|
                    #![trigger frames(packer)[a], frames(packer)[b]]
                    a < b && frames(packer).contains_key(a) && frames(packer).contains_key(
                        b,
                    ) implies are_apart(frames(packer)[a], frames(packer)[b]) by {
                    if b == i {
                        assert(frames(before).contains_key(a));
                        assert(are_apart(frames(before)[a], frames(packer)[b]));
                    } else {
                        assert(frames(before).contains_key(a));
                        assert(frames(before).contains_key(b));
                        assert(are_apart(frames(before)[a], frames(before)[b]));
                    }
                }
            }
            i += 1;
        }
        let picture = Image { width: ATLAS_SIZE, height: ATLAS_SIZE, pixels: packer_export(&packer) };
        let r = TextureAtlas { rects, picture };
        proof {
            assert(r.picture@ == atlas_view(r.picture.pixels@));
            assert(r.rects@ =~= Seq::new(images@.len(), |i: int| rect_of(views, i)));
            assert forall|i: int, x: int, y: int|
                #![trigger r.rects@[i], views[i].pixel(x, y)]
                0 <= i < views.len() && 0 <= x < views[i].width && 0 <= y < views[i].height
                    && r.rects@[i] is Some implies r.picture@.pixel(
                r.rects@[i]->0.x + x,
                r.rects@[i]->0.y + y,
            ) == views[i].pixel(x, y) by {
                let key = i as usize;
                assert(frames(packer).contains_key(key));
                let frame = frames(packer)[key];
                assert(in_frame(frame, frame.0 + x, frame.1 + y));
                let shown = ImageView {
                    width: frame.2,
                    height: frame.3,
                    pixels: pictures(packer)[key],
                };
                assert(atlas_view(r.picture.pixels@).pixel(frame.0 + x, frame.1 + y) == shown.pixel(
                    x,
                    y,
                ));
                assert(is_padded(views[i], shown));
            }
            assert forall|x: int, y: int|
                0 <= x < ATLAS_SIZE && 0 <= y < ATLAS_SIZE && r.is_free(
                    x,
                    y,
                ) implies #[trigger] r.picture@.pixel(x, y) == seq![0u8, 0, 0, 0] by {
                let shown = atlas_view(r.picture.pixels@);
                if !in_no_frame(frames(packer), x, y) {
                    let key = choose|key: usize| #[trigger]
                        frames(packer).contains_key(key) && in_frame(frames(packer)[key], x, y);
                    let frame = frames(packer)[key];
                    assert(r.rects@[key as int] is Some);
                    let part = ImageView {
                        width: frame.2,
                        height: frame.3,
                        pixels: pictures(packer)[key],
                    };
                    assert(shown.pixel(x, y) == part.pixel(x - frame.0, y - frame.1));
                    assert(is_padded(views[key as int], part));
                } else {
                    assert(shown.pixel(x, y) == seq![0u8, 0, 0, 0]);
                }
            }
            assert forall|i: int| 0 <= i < r.rects@.len() && (#[trigger] r.rects@[i]) is Some implies {
                &&& r.rects@[i]->0.x + r.rects@[i]->0.width <= ATLAS_SIZE
                &&& r.rects@[i]->0.y + r.rects@[i]->0.height <= ATLAS_SIZE
            } by {
                assert(frames(packer).contains_key(i as usize));
            }
            assert forall|i: int, j: int|
                0 <= i < j < r.rects@.len() && (#[trigger] r.rects@[i]) is Some && (
                #[trigger] r.rects@[j]) is Some implies rects_apart(
                r.rects@[i]->0,
                r.rects@[j]->0,
            ) by {
                assert(frames(packer).contains_key(i as usize));
                assert(frames(packer).contains_key(j as usize));
                assert(are_apart(frames(packer)[i as usize], frames(packer)[j as usize]));
            }
        }
        r
    }
}

/// Whether no pixel lies in both of two rectangles.
pub open spec fn rects_apart(a: AtlasRect, b: AtlasRect) -> bool {
    a.x + a.width <= b.x || b.x + b.width <= a.x || a.y + a.height <= b.y || b.y + b.height <= a.y
}

/// The bytes of a character in a text.
pub open spec fn byte_width(c: char) -> int {
    let code = c as u32;
    if code < 0x80 {
        1
    } else if code < 0x800 {
        2
    } else if code < 0x10000 {
        3
    } else {
        4
    }
}

/// The bytes of a text.
pub open spec fn byte_length(s: Seq<char>) -> int
    decreases s.len(),
{
    if s.len() == 0 {
        0
    } else {
        byte_length(s.drop_last()) + byte_width(s.last())
    }
}

/// Whether the first `n` characters take up so many bytes.
pub open spec fn ends_at(s: Seq<char>, n: int, bytes: int) -> bool {
    0 <= n <= s.len() && byte_length(s.take(n)) == bytes
}

fn width_of(c: char) -> (r: usize)
    ensures
        r == byte_width(c),
{
    let code = c as u32;
    if code < 0x80 {
        1
    } else if code < 0x800 {
        2
    } else if code < 0x10000 {
        3
    } else {
        4
    }
}

proof fn lemma_byte_length_grows(s: Seq<char>, n: int, m: int)
    requires
        0 <= n <= m <= s.len(),
    ensures
        byte_length(s.take(n)) + (m - n) <= byte_length(s.take(m)),
    decreases m - n,
{
    if n < m {
        lemma_byte_length_grows(s, n, m - 1);
        assert(s.take(m).drop_last() =~= s.take(m - 1));
    }
}

/// What follows the first `bytes` bytes of a text; `None` if no character begins there.
pub fn after_bytes(s: &str, bytes: usize) -> (r: Option<String>)
    ensures
        match r {
            Some(rest) => exists|n: int| #[trigger]
                ends_at(s@, n, bytes as int) && rest@ == s@.skip(n),
            None => forall|n: int| !#[trigger] ends_at(s@, n, bytes as int),
        },
{
    let chars = text::chars(s);
    let mut left: usize = bytes;
    let mut i: usize = 0;
    assert(s@.take(0) =~= Seq::<char>::empty());
    while left > 0 && i < chars.len()
        invariant
            chars@ == s@,
            i <= s@.len(),
            left + byte_length(s@.take(i as int)) == bytes,
            forall|n: int| 0 <= n < i ==> byte_length(#[trigger] s@.take(n)) < bytes,
        decreases s@.len() - i,
    {
        assert(s@.take(i + 1).drop_last() =~= s@.take(i as int));
        let width: usize = width_of(chars[i]);
        if width > left {
            proof {
                assert forall|n: int| !#[trigger] ends_at(s@, n, bytes as int) by {
                    if 0 <= n <= i {
                        assert(byte_length(s@.take(n)) < bytes);
                    } else if i < n <= s@.len() {
                        lemma_byte_length_grows(s@, i + 1, n);
                    }
                }
            }
            return None;
        }
        left -= width;
        i += 1;
    }
    if left > 0 {
        proof {
            assert forall|n: int| !#[trigger] ends_at(s@, n, bytes as int) by {
                if 0 <= n <= s@.len() {
                    assert(byte_length(s@.take(n)) < bytes);
                }
            }
        }
        return None;
    }
    let mut rest: Vec<char> = Vec::new();
    let mut k: usize = i;
    while k < chars.len()
        invariant
            chars@ == s@,
            i <= k <= s@.len(),
            rest@ == s@.subrange(i as int, k as int),
        decreases s@.len() - k,
    {
        rest.push(chars[k]);
        k += 1;
        assert(rest@ =~= s@.subrange(i as int, k as int));
    }
    assert(ends_at(s@, i as int, bytes as int));
    assert(s@.skip(i as int) =~= s@.subrange(i as int, k as int));
    Some(text::from_chars(&rest))
}

/// The bytes that a text stands for in base 64; `None` if it stands for none.
pub uninterp spec fn base64_bytes(text: Seq<char>) -> Option<Seq<u8>>;

/// The picture of a file in the format PNG: its width, its height and four bytes for each pixel;
/// `None` if it is no such file.
pub uninterp spec fn png_picture(bytes: Seq<u8>) -> Option<(u32, u32, Seq<u8>)>;

/// Decodes base 64.
///
/// `decode` of the engine `BASE64_STANDARD` of `base64`: the bytes that the text stands for, an error
/// if it is not in base 64. What they are for a given text is not said.
#[verifier::external_body]
fn decode_base64(text: &str) -> (r: Option<Vec<u8>>)
    ensures
        crate::net::optional_bytes(r) == base64_bytes(text@),
{
    BASE64_STANDARD.decode(text).ok()
}

/// Decodes a file in the format PNG.
///
/// `image::load_from_memory_with_format`, its result turned into eight bits for each of the four
/// components: there are four bytes for each pixel. What they are for a given file is not said.
#[verifier::external_body]
fn decode_png(bytes: &Vec<u8>) -> (r: Option<(u32, u32, Vec<u8>)>)
    ensures
        match r {
            Some((width, height, pixels)) => {
                &&& png_picture(bytes@) == Some((width, height, pixels@))
                &&& pixels@.len() == width * height * 4
            },
            None => png_picture(bytes@) is None,
        },
{
    match image::load_from_memory_with_format(bytes.as_slice(), ImageFormat::Png) {
        Ok(picture) => {
            let picture = picture.into_rgba8();
            Some((picture.width(), picture.height(), picture.into_raw()))
        },
        Err(_) => None,
    }
}

/// The picture of a file whose format shows in its first bytes: its width, its height and four bytes
/// for each pixel; `None` if there is none.
pub uninterp spec fn file_picture(bytes: Seq<u8>) -> Option<(u32, u32, Seq<u8>)>;

/// Decodes a file whose format shows in its first bytes.
///
/// `image::load_from_memory`, its result turned into eight bits for each of the four components:
/// there are four bytes for each pixel. What they are for a given file is not said.
#[verifier::external_body]
fn decode_file(bytes: &Vec<u8>) -> (r: Option<(u32, u32, Vec<u8>)>)
    ensures
        match r {
            Some((width, height, pixels)) => {
                &&& file_picture(bytes@) == Some((width, height, pixels@))
                &&& pixels@.len() == width * height * 4
            },
            None => file_picture(bytes@) is None,
        },
{
    match image::load_from_memory(bytes.as_slice()) {
        Ok(picture) => {
            let picture = picture.into_rgba8();
            Some((picture.width(), picture.height(), picture.into_raw()))
        },
        Err(_) => None,
    }
}

/// The picture of a file whose format shows in its first bytes; `None` if there is none.
pub fn decode_picture(bytes: &Vec<u8>) -> (r: Option<Image>)
    ensures
        match r {
            Some(picture) => {
                &&& file_picture(bytes@) == Some((picture.width, picture.height, picture.pixels@))
                &&& picture@.wf()
            },
            None => file_picture(bytes@) is None,
        },
{
    match decode_file(bytes) {
        Some((width, height, pixels)) => Some(Image { width, height, pixels }),
        None => None,
    }
}

/// The bytes before the picture in the source of an embedded texture.
pub const SOURCE_PREFIX: usize = 22;

/// The picture of an embedded texture: a file in the format PNG, in base 64, behind a prefix. `None`
/// if there is none.
pub fn embedded_picture(source: &str) -> (r: Option<Image>)
    ensures
        match r {
            Some(picture) => exists|n: int|
                #![trigger ends_at(source@, n, SOURCE_PREFIX as int)]
                ends_at(source@, n, SOURCE_PREFIX as int) && (base64_bytes(
                    source@.skip(n),
                ) matches Some(bytes) && png_picture(bytes) == Some(
                    (picture.width, picture.height, picture.pixels@),
                )) && picture@.wf(),
            None => forall|n: int| #[trigger]
                ends_at(source@, n, SOURCE_PREFIX as int) ==> match base64_bytes(source@.skip(n)) {
                    Some(bytes) => png_picture(bytes) is None,
                    None => true,
                },
        },
{
    let text = match after_bytes(source, SOURCE_PREFIX) {
        Some(text) => text,
        None => {
            return None;
        },
    };
    let ghost at = choose|n: int| #[trigger]
        ends_at(source@, n, SOURCE_PREFIX as int) && text@ == source@.skip(n);
    proof {
        assert forall|n: int| #[trigger] ends_at(source@, n, SOURCE_PREFIX as int) implies n == at by {
            if n < at {
                lemma_byte_length_grows(source@, n, at);
            } else {
                lemma_byte_length_grows(source@, at, n);
            }
        }
    }
    let bytes = match decode_base64(text.as_str()) {
        Some(bytes) => bytes,
        None => {
            return None;
        },
    };
    match decode_png(&bytes) {
        Some((width, height, pixels)) => {
            let picture = Image { width, height, pixels };
            assert(ends_at(source@, at, SOURCE_PREFIX as int));
            Some(picture)
        },
        None => None,
    }
}

/// The brightness of each pixel of a picture, line by line.
pub uninterp spec fn brightness(pixels: Seq<u8>, width: u32, height: u32) -> Seq<u8>;

/// The brightness of each pixel.
///
/// `DynamicImage::grayscale` and `into_luma8` of `image`: one byte for each pixel, which depends on
/// the picture alone. How bright a given pixel is, is not said.
#[verifier::external_body]
fn to_brightness(width: u32, height: u32, pixels: Vec<u8>) -> (r: Vec<u8>)
    requires
        pixels@.len() == width * height * 4,
    ensures
        r@ == brightness(pixels@, width, height),
        r@.len() == width * height,
{
    let picture = RgbaImage::from_raw(width, height, pixels).unwrap();
    DynamicImage::ImageRgba8(picture).grayscale().into_luma8().into_raw()
}

/// The brightness of each pixel of a picture in sixteen bits, line by line.
pub uninterp spec fn deep_brightness(samples: Seq<u16>, width: u32, height: u32) -> Seq<u8>;

/// The brightness of each pixel of a picture in sixteen bits.
///
/// `DynamicImage::grayscale` and `into_luma8` of `image`: one byte for each pixel, which depends on
/// the picture alone. How bright a given pixel is, is not said.
#[verifier::external_body]
fn to_deep_brightness(width: u32, height: u32, samples: Vec<u16>) -> (r: Vec<u8>)
    requires
        samples@.len() == width * height * 4,
    ensures
        r@ == deep_brightness(samples@, width, height),
        r@.len() == width * height,
{
    let picture = ImageBuffer::from_raw(width, height, samples).unwrap();
    DynamicImage::ImageRgba16(picture).grayscale().into_luma8().into_raw()
}

/// The brightness of each pixel of a picture, which is taken before a picture in sixteen bits is
/// narrowed.
pub open spec fn picture_brightness(picture: PictureView) -> Seq<u8> {
    if picture.color.deep() {
        deep_brightness(picture.samples, picture.width, picture.height)
    } else {
        brightness(rgba8_of(picture).pixels, picture.width, picture.height)
    }
}

/// The masks of a texture in the atlas: how much of its color changes and how much it glows.
pub struct MaterialMasks {
    pub color_mask: Option<Picture>,
    pub emissive: Option<Picture>,
}

/// Whether a mask has the size of its texture.
pub open spec fn mask_fits(mask: Option<Picture>, rect: AtlasRect) -> bool {
    mask matches Some(mask) ==> mask@.wf() && mask.width == rect.width && mask.height == rect.height
}

/// The brightness of a pixel of a mask; 0 without a mask.
pub open spec fn mask_value(mask: Option<PictureView>, x: int, y: int) -> u8 {
    match mask {
        Some(mask) => picture_brightness(mask)[y * mask.width + x],
        None => 0,
    }
}

/// The view of an optional picture.
pub open spec fn optional_picture(picture: Option<Picture>) -> Option<PictureView> {
    match picture {
        Some(picture) => Some(picture@),
        None => None,
    }
}

/// The pixel of the material texture at a place of the atlas, after the first `n` textures: that of
/// the last texture that lies there.
pub open spec fn material_pixel(
    rects: Seq<Option<AtlasRect>>,
    masks: Seq<MaterialMasks>,
    n: int,
    x: int,
    y: int,
) -> Seq<u8>
    decreases n,
{
    if n <= 0 {
        seq![0u8, 0, 0, 0]
    } else {
        match rects[n - 1] {
            Some(rect) if rect.x <= x < rect.x + rect.width && rect.y <= y < rect.y + rect.height => seq![
                mask_value(optional_picture(masks[n - 1].color_mask), x - rect.x, y - rect.y),
                mask_value(optional_picture(masks[n - 1].emissive), x - rect.x, y - rect.y),
                0u8,
                0u8,
            ],
            _ => material_pixel(rects, masks, n - 1, x, y),
        }
    }
}

fn mask_brightness(mask: &Option<Picture>, Ghost(rect): Ghost<AtlasRect>) -> (r: Option<Vec<u8>>)
    requires
        mask_fits(*mask, rect),
    ensures
        match r {
            Some(values) => {
                &&& mask is Some
                &&& values@ == picture_brightness(mask->0@)
                &&& values@.len() == rect.width * rect.height
            },
            None => mask is None,
        },
{
    match mask {
        Some(mask) => {
            if mask.color.is_deep() {
                let copy = mask.copy();
                Some(to_deep_brightness(copy.width, copy.height, copy.samples))
            } else {
                let image = mask.to_rgba8();
                Some(to_brightness(image.width, image.height, image.pixels))
            }
        },
        None => None,
    }
}

fn value_at(values: &Option<Vec<u8>>, width: u32, x: u32, y: u32) -> (r: u8)
    requires
        values matches Some(values) ==> y * width + x < values@.len(),
    ensures
        r == match *values {
            Some(values) => values@[y * width + x],
            None => 0,
        },
{
    match values {
        Some(values) => {
            assert(0 <= y * width) by (nonlinear_arith)
                requires
                    0 <= y,
                    0 <= width,
            ;
            let length: usize = values.len();
            assert(y * width + x < length);
            values[y as usize * width as usize + x as usize]
        },
        None => 0,
    }
}

/// Paints the masks of the textures where the textures lie in the atlas.
pub fn paint_materials(rects: &Vec<Option<AtlasRect>>, masks: &Vec<MaterialMasks>) -> (r: Image)
    requires
        rects@.len() == masks@.len(),
        forall|i: int|
            0 <= i < rects@.len() ==> ((#[trigger] rects@[i]) matches Some(rect) ==> {
                &&& rect.x + rect.width <= ATLAS_SIZE
                &&& rect.y + rect.height <= ATLAS_SIZE
                &&& mask_fits(masks@[i].color_mask, rect)
                &&& mask_fits(masks@[i].emissive, rect)
            }),
    ensures
        r@.wf(),
        r.width == ATLAS_SIZE,
        r.height == ATLAS_SIZE,
        forall|x: int, y: int|
            0 <= x < ATLAS_SIZE && 0 <= y < ATLAS_SIZE ==> #[trigger] r@.pixel(x, y)
                == material_pixel(rects@, masks@, rects@.len() as int, x, y),
{
    let mut r = blank(ATLAS_SIZE, ATLAS_SIZE);
    let mut i: usize = 0;
    while i < rects.len()
        invariant
            i <= rects@.len(),
            rects@.len() == masks@.len(),
            forall|i: int|
                0 <= i < rects@.len() ==> ((#[trigger] rects@[i]) matches Some(rect) ==> {
                    &&& rect.x + rect.width <= ATLAS_SIZE
                    &&& rect.y + rect.height <= ATLAS_SIZE
                    &&& mask_fits(masks@[i].color_mask, rect)
                    &&& mask_fits(masks@[i].emissive, rect)
                }),
            r@.wf(),
            r.width == ATLAS_SIZE,
            r.height == ATLAS_SIZE,
            forall|x: int, y: int|
                0 <= x < ATLAS_SIZE && 0 <= y < ATLAS_SIZE ==> #[trigger] r@.pixel(x, y)
                    == material_pixel(rects@, masks@, i as int, x, y),
        decreases rects@.len() - i,
    {
        if let Some(rect) = rects[i] {
            assert(rects@[i as int] == Some(rect));
            let color_mask = mask_brightness(&masks[i].color_mask, Ghost(rect));
            let emissive = mask_brightness(&masks[i].emissive, Ghost(rect));
            let mut x: u32 = 0;
            while x < rect.width
                invariant
                    x <= rect.width,
                    i < rects@.len(),
                    rects@[i as int] == Some(rect),
                    rect.x + rect.width <= ATLAS_SIZE,
                    rect.y + rect.height <= ATLAS_SIZE,
                    mask_fits(masks@[i as int].color_mask, rect),
                    mask_fits(masks@[i as int].emissive, rect),
                    is_brightness_of(masks@[i as int].color_mask, color_mask, rect),
                    is_brightness_of(masks@[i as int].emissive, emissive, rect),
                    r@.wf(),
                    r.width == ATLAS_SIZE,
                    r.height == ATLAS_SIZE,
                    forall|a: int, b: int|
                        0 <= a < ATLAS_SIZE && 0 <= b < ATLAS_SIZE ==> #[trigger] r@.pixel(a, b)
                            == material_pixel(
                            rects@,
                            masks@,
                            if rect.x <= a < rect.x + x && rect.y <= b < rect.y + rect.height {
                                i + 1
                            } else {
                                i as int
                            },
                            a,
                            b,
                        ),
                decreases rect.width - x,
            {
                let mut y: u32 = 0;
                while y < rect.height
                    invariant
                        x < rect.width,
                        y <= rect.height,
                        i < rects@.len(),
                        rects@[i as int] == Some(rect),
                        rect.x + rect.width <= ATLAS_SIZE,
                        rect.y + rect.height <= ATLAS_SIZE,
                        mask_fits(masks@[i as int].color_mask, rect),
                        mask_fits(masks@[i as int].emissive, rect),
                        is_brightness_of(masks@[i as int].color_mask, color_mask, rect),
                        is_brightness_of(masks@[i as int].emissive, emissive, rect),
                        r@.wf(),
                        r.width == ATLAS_SIZE,
                        r.height == ATLAS_SIZE,
                        forall|a: int, b: int|
                            0 <= a < ATLAS_SIZE && 0 <= b < ATLAS_SIZE ==> #[trigger] r@.pixel(a, b)
                                == material_pixel(
                                rects@,
                                masks@,
                                if (rect.x <= a < rect.x + x && rect.y <= b < rect.y + rect.height)
                                    || (a == rect.x + x && rect.y <= b < rect.y + y) {
                                    i + 1
                                } else {
                                    i as int
                                },
                                a,
                                b,
                            ),
                    decreases rect.height - y,
                {
                    proof {
                        crate::texture::lemma_place(
                            rect.width as int,
                            rect.height as int,
                            x as int,
                            y as int,
                        );
                    }
                    let pixel = [
                        value_at(&color_mask, rect.width, x, y),
                        value_at(&emissive, rect.width, x, y),
                        0u8,
                        0u8,
                    ];
                    proof {
                        assert(pixel@ =~= material_pixel(
                            rects@,
                            masks@,
                            i + 1,
                            rect.x + x,
                            rect.y + y,
                        ));
                    }
                    r.set_pixel(rect.x + x, rect.y + y, pixel);
                    y += 1;
                }
                x += 1;
            }
        }
        i += 1;
    }
    r
}

/// Whether `values` is the brightness of a mask of the size of `rect`.
spec fn is_brightness_of(mask: Option<Picture>, values: Option<Vec<u8>>, rect: AtlasRect) -> bool {
    match (mask, values) {
        (Some(mask), Some(values)) => {
            &&& values@ == picture_brightness(mask@)
            &&& values@.len() == rect.width * rect.height
        },
        (None, None) => true,
        _ => false,
    }
}

proof fn lemma_multiples(a: int, b: int)
    requires
        is_multiple(a),
        is_multiple(b),
        a < b,
    ensures
        16 <= a,
        2 * a <= b,
    decreases a,
{
    lemma_multiple_is_large(a);
    lemma_multiple_is_large(b);
    if a > 16 {
        lemma_multiples(a / 2, b / 2);
    } else {
        lemma_multiple_is_large(b / 2);
    }
}

proof fn lemma_multiple_is_large(a: int)
    requires
        is_multiple(a),
    ensures
        a >= 16,
{
}

proof fn lemma_least_multiple(size: int, from: int, m: int)
    requires
        is_multiple(from),
        is_multiple(m),
        from <= m,
        size <= m,
    ensures
        multiple_from(size, from) <= m,
        size <= multiple_from(size, from),
        is_multiple(multiple_from(size, from)),
    decreases m - from,
{
    lemma_multiple_is_large(from);
    if size > from {
        lemma_multiples(from, m);
        assert(is_multiple(2 * from));
        lemma_least_multiple(size, 2 * from, m);
    }
}

/// The multiple for a size is the least of the numbers 16, 32, 64 and so on that has room for it.
pub proof fn law_least_multiple(size: int, m: int)
    requires
        is_multiple(m),
        size <= m,
    ensures
        size <= multiple_of(size) <= m,
        is_multiple(multiple_of(size)),
        is_multiple(16),
        is_multiple(2 * m),
        m != 16 ==> is_multiple(m / 2) && m % 2 == 0,
{
    lemma_multiple_is_large(m);
    lemma_least_multiple(size, 16, m);
}

/// A texture is packed unless its name ends with an exclamation mark, and textures are packed in
/// order.
pub proof fn law_packed_textures(ids: Seq<Seq<char>>, n: int, i: int)
    requires
        0 <= i < n <= ids.len(),
        n <= usize::MAX,
    ensures
        texture_keys(ids, n).contains(TextureAtlasKey::Texture(i as usize)) <==> !(ids[i].len() > 0
            && ids[i].last() == '!'),
        !(ids[n - 1].len() > 0 && ids[n - 1].last() == '!') ==> texture_keys(ids, n).len()
            == texture_keys(ids, n - 1).len() + 1 && texture_keys(ids, n).last()
            == TextureAtlasKey::Texture((n - 1) as usize),
    decreases n,
{
    lemma_texture_keys_below(ids, n - 1);
    let id = ids[n - 1];
    let before = texture_keys(ids, n - 1);
    let ends = id.len() > 0 && id.last() == '!';
    if id.len() > 0 {
        let end = id.subrange(id.len() - 1, id.len() as int);
        assert(end[0] == id.last());
        if id.last() == '!' {
            assert(end =~= seq!['!']);
        }
        assert(seq!['!'][0] == '!');
    }
    assert(text::has_ending(id, seq!['!']) == ends);
    let key = TextureAtlasKey::Texture(i as usize);
    if i < n - 1 {
        law_packed_textures(ids, n - 1, i);
        if !ends {
            let all = before.push(TextureAtlasKey::Texture((n - 1) as usize));
            if before.contains(key) {
                let k = before.index_of(key);
                assert(all[k] == key);
            }
            if all.contains(key) {
                let k = all.index_of(key);
                assert(k < before.len());
                assert(before[k] == key);
            }
        }
    } else {
        if !ends {
            let all = before.push(key);
            assert(all[before.len() as int] == key);
        } else if before.contains(key) {
            let k = before.index_of(key);
            assert(before[k] == key);
        }
    }
}

proof fn lemma_texture_keys_below(ids: Seq<Seq<char>>, n: int)
    requires
        n <= usize::MAX,
    ensures
        forall|k: int|
            0 <= k < texture_keys(ids, n).len() ==> (#[trigger] texture_keys(ids, n)[k] matches TextureAtlasKey::Texture(
                i,
            ) && i < n),
    decreases n,
{
    if n > 0 {
        lemma_texture_keys_below(ids, n - 1);
    }
}

/// A model's texture is packed where the model brings it along, and a glyph where it shows something.
pub proof fn law_packed_parts(model: int, embedded: Seq<bool>, m: int)
    requires
        0 <= model <= usize::MAX,
        0 < m <= embedded.len(),
        m <= usize::MAX,
    ensures
        embedded[m - 1] ==> model_keys(model, embedded, m) == model_keys(model, embedded, m - 1)
            + seq![TextureAtlasKey::Model(model as usize, (m - 1) as usize)],
        !embedded[m - 1] ==> model_keys(model, embedded, m) == model_keys(model, embedded, m - 1),
        embedded[m - 1] ==> glyph_keys(embedded, m) == glyph_keys(embedded, m - 1) + seq![
            TextureAtlasKey::Glyph((m - 1) as usize),
        ],
        !embedded[m - 1] ==> glyph_keys(embedded, m) == glyph_keys(embedded, m - 1),
        model_keys(model, embedded, 0).len() == 0,
        glyph_keys(embedded, 0).len() == 0,
{
    assert(model_keys(model, embedded, m - 1).push(
        TextureAtlasKey::Model(model as usize, (m - 1) as usize),
    ) =~= model_keys(model, embedded, m - 1) + seq![
        TextureAtlasKey::Model(model as usize, (m - 1) as usize),
    ]);
    assert(glyph_keys(embedded, m - 1).push(TextureAtlasKey::Glyph((m - 1) as usize))
        =~= glyph_keys(embedded, m - 1) + seq![TextureAtlasKey::Glyph((m - 1) as usize)]);
}

/// Where a picture finds a place, it lies there with its own size; the next picture is placed behind
/// all that found one.
pub proof fn law_rects(images: Seq<ImageView>, i: int)
    requires
        0 <= i < images.len(),
    ensures
        rect_of(images, i) matches Some(rect) ==> {
            &&& rect.width == images[i].width && rect.height == images[i].height
            &&& next_place(
                packed_sizes(images, i),
                multiple_of(images[i].width as int) as u32,
                multiple_of(images[i].height as int) as u32,
            ) == Some((rect.x, rect.y))
        },
        rect_of(images, i) is Some <==> packed_sizes(images, i + 1).len() == packed_sizes(
            images,
            i,
        ).len() + 1,
        rect_of(images, i) is None <==> packed_sizes(images, i + 1) == packed_sizes(images, i),
{
    if rect_of(images, i) is Some {
        assert(packed_sizes(images, i + 1).len() == packed_sizes(images, i).len() + 1);
    }
}

/// The first component of the material texture is how much of a color changes, the second how much
/// it glows; where textures overlap the last one counts, and where none lies there is nothing.
pub proof fn law_material_pixels(
    rects: Seq<Option<AtlasRect>>,
    masks: Seq<MaterialMasks>,
    n: int,
    i: int,
    x: int,
    y: int,
)
    requires
        0 <= i < n <= rects.len(),
        forall|j: int|
            i < j < n && (#[trigger] rects[j]) is Some ==> !in_frame(
                (rects[j]->0.x, rects[j]->0.y, rects[j]->0.width, rects[j]->0.height),
                x,
                y,
            ),
    ensures
        rects[i] matches Some(rect) ==> in_frame((rect.x, rect.y, rect.width, rect.height), x, y) ==> {
            let pixel = material_pixel(rects, masks, n, x, y);
            &&& pixel.len() == 4
            &&& masks[i].color_mask is None ==> pixel[0] == 0
            &&& masks[i].color_mask matches Some(mask) ==> pixel[0] == picture_brightness(mask@)[(y
                - rect.y) * mask.width + (x - rect.x)]
            &&& masks[i].emissive is None ==> pixel[1] == 0
            &&& masks[i].emissive matches Some(mask) ==> pixel[1] == picture_brightness(mask@)[(y
                - rect.y) * mask.width + (x - rect.x)]
            &&& pixel[2] == 0 && pixel[3] == 0
        },
        i == 0 && (rects[0] matches Some(rect) ==> !in_frame(
            (rect.x, rect.y, rect.width, rect.height),
            x,
            y,
        )) ==> material_pixel(rects, masks, n, x, y) == seq![0u8, 0, 0, 0],
    decreases n,
{
    if i < n - 1 {
        assert(rects[n - 1] is Some ==> !in_frame(
            (rects[n - 1]->0.x, rects[n - 1]->0.y, rects[n - 1]->0.width, rects[n - 1]->0.height),
            x,
            y,
        ));
        law_material_pixels(rects, masks, n - 1, i, x, y);
    } else if i == 0 {
        assert(material_pixel(rects, masks, 0, x, y) == seq![0u8, 0, 0, 0]);
    }
}

} // verus!
