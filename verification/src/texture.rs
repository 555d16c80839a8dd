//! Textures that are composed of others.

use crate::color::Color;
use crate::picture::{flipped, laid_over, picture_of, rgba8_of, Flip, Picture, PictureView};
use crate::registry::{Key, TextureData};
use crate::text;
use vstd::prelude::*;

verus! {

/// A picture: four bytes for each pixel, line by line from the top.
pub struct Image {
    pub width: u32,
    pub height: u32,
    pub pixels: Vec<u8>,
}

/// What an `Image` shows.
pub struct ImageView {
    pub width: u32,
    pub height: u32,
    pub pixels: Seq<u8>,
}

impl View for Image {
    type V = ImageView;

    open spec fn view(&self) -> ImageView {
        ImageView { width: self.width, height: self.height, pixels: self.pixels@ }
    }
}

impl ImageView {
    /// Whether there are as many bytes as the size asks for.
    pub open spec fn wf(self) -> bool {
        self.pixels.len() == self.width * self.height * 4
    }

    /// The place of the first byte of a pixel.
    pub open spec fn place(self, x: int, y: int) -> int {
        4 * (y * self.width + x)
    }

    /// The bytes of a pixel.
    pub open spec fn pixel(self, x: int, y: int) -> Seq<u8> {
        self.pixels.subrange(self.place(x, y), self.place(x, y) + 4)
    }
}

/// A component of a color by its place.
pub open spec fn component(color: Color, i: int) -> u8 {
    if i % 4 == 0 {
        color.r
    } else if i % 4 == 1 {
        color.g
    } else if i % 4 == 2 {
        color.b
    } else {
        color.a
    }
}

/// A byte of a picture, darkened by `v` of 255 parts.
pub open spec fn tinted_byte(p: u8, v: u8) -> u8 {
    ((p * v + 1 + p * v / 256) / 256) as u8
}

/// A picture in another color.
pub open spec fn tinted(image: ImageView, color: Color) -> ImageView {
    ImageView {
        pixels: Seq::new(
            image.pixels.len(),
            |i: int| tinted_byte(image.pixels[i], component(color, i)),
        ),
        ..image
    }
}

/// Full parts leave a byte as it is, and no parts make it zero.
pub proof fn law_tint(p: u8)
    ensures
        tinted_byte(p, 255) == p,
        tinted_byte(p, 0) == 0,
{
    assert(p * 255 / 256 == (if p == 0 {
        0
    } else {
        p - 1
    }));
}

/// A picture of one color.
pub open spec fn filled(width: u32, height: u32, color: Color) -> ImageView {
    ImageView {
        width,
        height,
        pixels: Seq::new((width * height * 4) as nat, |i: int| component(color, i)),
    }
}

pub proof fn lemma_place(width: int, height: int, x: int, y: int)
    requires
        0 <= x < width,
        0 <= y < height,
    ensures
        0 <= y * width + x < width * height,
        (y * width + x) / width == y,
        (y * width + x) % width == x,
{
    assert(0 <= y * width) by (nonlinear_arith)
        requires
            0 <= y,
            0 < width,
    ;
    assert(y * width + width <= width * height) by (nonlinear_arith)
        requires
            y < height,
            0 < width,
    ;
    vstd::arithmetic::div_mod::lemma_fundamental_div_mod_converse(y * width + x, width, y, x);
}

proof fn lemma_place_fits(width: int, x: int, y: int)
    requires
        0 <= x,
        0 <= y,
        0 <= width,
    ensures
        0 <= y * width <= y * width + x,
{
    assert(0 <= y * width) by (nonlinear_arith)
        requires
            0 <= y,
            0 <= width,
    ;
}

impl Image {
    /// A copy of the picture.
    pub fn copy(&self) -> (r: Image)
        ensures
            r@ == self@,
    {
        let mut pixels: Vec<u8> = Vec::new();
        let mut i: usize = 0;
        while i < self.pixels.len()
            invariant
                i <= self.pixels@.len(),
                pixels@ == self.pixels@.take(i as int),
            decreases self.pixels@.len() - i,
        {
            pixels.push(self.pixels[i]);
            assert(pixels@ =~= self.pixels@.take(i + 1));
            i += 1;
        }
        assert(pixels@ =~= self.pixels@);
        Image { width: self.width, height: self.height, pixels }
    }

    /// The picture in another color.
    pub fn tint(&self, color: Color) -> (r: Image)
        ensures
            r@ == tinted(self@, color),
    {
        let parts = color.to_array();
        let mut pixels: Vec<u8> = Vec::new();
        let mut i: usize = 0;
        while i < self.pixels.len()
            invariant
                i <= self.pixels@.len(),
                parts@ == seq![color.r, color.g, color.b, color.a],
                pixels@ == tinted(self@, color).pixels.take(i as int),
            decreases self.pixels@.len() - i,
        {
            let byte: u8 = self.pixels[i];
            let part: u8 = parts[i % 4];
            assert(part == component(color, i as int));
            assert(byte * part <= 255 * 255) by (nonlinear_arith)
                requires
                    byte <= 255,
                    part <= 255,
            ;
            let p: u16 = byte as u16 * part as u16;
            assert(p >> 8u16 == p / 256) by (bit_vector);
            let sum: u16 = p + 1 + (p >> 8u16);
            assert(sum >> 8u16 == sum / 256) by (bit_vector);
            pixels.push((sum >> 8u16) as u8);
            assert(pixels@ =~= tinted(self@, color).pixels.take(i + 1));
            i += 1;
        }
        assert(pixels@ =~= tinted(self@, color).pixels);
        Image { width: self.width, height: self.height, pixels }
    }

    /// A picture of one color.
    pub fn fill(width: u32, height: u32, color: Color) -> (r: Image)
        requires
            width * height * 4 <= usize::MAX,
        ensures
            r@ == filled(width, height, color),
            r@.wf(),
    {
        let parts = color.to_array();
        let mut pixels: Vec<u8> = Vec::new();
        assert(width * height <= width * height * 4 && 0 <= width * height) by (nonlinear_arith)
            requires
                0 <= width,
                0 <= height,
        ;
        let count: usize = width as usize * height as usize * 4;
        let mut i: usize = 0;
        while i < count
            invariant
                i <= count,
                count == width * height * 4,
                parts@ == seq![color.r, color.g, color.b, color.a],
                pixels@ == filled(width, height, color).pixels.take(i as int),
            decreases count - i,
        {
            pixels.push(parts[i % 4]);
            assert(pixels@ =~= filled(width, height, color).pixels.take(i + 1));
            i += 1;
        }
        assert(pixels@ =~= filled(width, height, color).pixels);
        Image { width, height, pixels }
    }

    /// The bytes of a pixel.
    pub fn get_pixel(&self, x: u32, y: u32) -> (r: [u8; 4])
        requires
            self@.wf(),
            x < self.width,
            y < self.height,
        ensures
            r@ == self@.pixel(x as int, y as int),
    {
        proof {
            lemma_place(self.width as int, self.height as int, x as int, y as int);
            lemma_place_fits(self.width as int, x as int, y as int);
        }
        let length: usize = self.pixels.len();
        assert(4 * (y * self.width + x) + 4 <= length);
        let from: usize = (y as usize * self.width as usize + x as usize) * 4;
        let r = [
            self.pixels[from],
            self.pixels[from + 1],
            self.pixels[from + 2],
            self.pixels[from + 3],
        ];
        assert(r@ =~= self@.pixel(x as int, y as int));
        r
    }

    /// Replaces a pixel.
    pub fn set_pixel(&mut self, x: u32, y: u32, pixel: [u8; 4])
        requires
            old(self)@.wf(),
            x < old(self).width,
            y < old(self).height,
        ensures
            final(self)@.wf(),
            final(self).width == old(self).width,
            final(self).height == old(self).height,
            forall|a: int, b: int|
                0 <= a < old(self).width && 0 <= b < old(self).height ==> #[trigger] final(self)@.pixel(
                    a,
                    b,
                ) == if a == x && b == y {
                    pixel@
                } else {
                    old(self)@.pixel(a, b)
                },
    {
        proof {
            lemma_place(self.width as int, self.height as int, x as int, y as int);
            lemma_place_fits(self.width as int, x as int, y as int);
        }
        let ghost before = self@;
        let length: usize = self.pixels.len();
        assert(4 * (y * self.width + x) + 4 <= length);
        let from: usize = (y as usize * self.width as usize + x as usize) * 4;
        self.pixels.set(from, pixel[0]);
        self.pixels.set(from + 1, pixel[1]);
        self.pixels.set(from + 2, pixel[2]);
        self.pixels.set(from + 3, pixel[3]);
        proof {
            let after = self@;
            assert forall|a: int, b: int|
                0 <= a < before.width && 0 <= b < before.height implies #[trigger] after.pixel(a, b)
                == if a == x && b == y {
                pixel@
            } else {
                before.pixel(a, b)
            } by {
                lemma_place(before.width as int, before.height as int, a, b);
                let n = b * before.width + a;
                let m = y * before.width + x;
                if n == m {
                    assert(a == x && b == y);
                    assert(after.pixel(a, b) =~= pixel@);
                } else {
                    assert(4 * n + 4 <= 4 * m || 4 * m + 4 <= 4 * n);
                    assert(after.pixel(a, b) =~= before.pixel(a, b));
                }
            }
        }
    }
}

/// Which picture of a texture is meant.
#[derive(Clone, Copy, PartialEq, Eq, Hash, Debug, Structural)]
pub enum LoadTextureType {
    Texture,
    ColorMask,
    Emissive,
}

/// The pictures of a texture.
pub struct TextureImages {
    pub texture: Picture,
    pub color_mask: Option<Picture>,
    pub emissive: Option<Picture>,
}

impl TextureImages {
    /// The picture of a type, if there is one.
    pub open spec fn picture(self, load_texture_type: LoadTextureType) -> Option<PictureView> {
        match load_texture_type {
            LoadTextureType::Texture => Some(self.texture@),
            LoadTextureType::ColorMask => match self.color_mask {
                Some(image) => Some(image@),
                None => None,
            },
            LoadTextureType::Emissive => match self.emissive {
                Some(image) => Some(image@),
                None => None,
            },
        }
    }
}

/// How a texture is made of others.
pub enum ComposedTexture {
    Image(Key<TextureData>),
    Overlay { base: Box<ComposedTexture>, overlay: Box<ComposedTexture> },
    Color { base: Box<ComposedTexture>, color: Color },
    Fill { width: u32, height: u32, color: Color },
    Flip { base: Box<ComposedTexture>, horizontal: bool, vertical: bool, diagonal: bool },
}

/// Why a texture cannot be made.
#[derive(Clone, Copy)]
pub enum ComposeError {
    /// A texture that it is made of was not loaded.
    NotLoaded(Key<TextureData>),
    /// The pictures that lie over each other are not of one size.
    SizeMismatch { base: (u32, u32), overlay: (u32, u32) },
}

/// Whether every picture that the texture is made of is there, if its texture was loaded, and is
/// sound.
pub open spec fn can_resolve(
    composed: ComposedTexture,
    images: Seq<Option<TextureImages>>,
    load_texture_type: LoadTextureType,
) -> bool
    decreases composed,
{
    match composed {
        ComposedTexture::Image(key) => {
            &&& key.index() < images.len()
            &&& images[key.index()] matches Some(texture) ==> texture.picture(load_texture_type)
                is Some && texture.picture(load_texture_type)->0.wf()
        },
        ComposedTexture::Overlay { base, overlay } => can_resolve(*base, images, load_texture_type)
            && can_resolve(*overlay, images, load_texture_type),
        ComposedTexture::Color { base, .. } => can_resolve(*base, images, load_texture_type),
        ComposedTexture::Fill { width, height, .. } => width * height * 4 <= usize::MAX,
        ComposedTexture::Flip { base, .. } => can_resolve(*base, images, load_texture_type),
    }
}

/// How many bytes a picture of a size has.
fn bytes_of_size(width: u32, height: u32) -> (r: u128)
    ensures
        r == width * height * 4,
{
    assert(0 <= width * height <= 0xffff_ffff * 0xffff_ffff) by (nonlinear_arith)
        requires
            0 <= width <= 0xffff_ffff,
            0 <= height <= 0xffff_ffff,
    ;
    width as u128 * height as u128 * 4
}

impl Image {
    /// Whether the picture has the bytes of all its pixels.
    pub fn is_whole(&self) -> (r: bool)
        ensures
            r == self@.wf(),
    {
        self.pixels.len() as u128 == bytes_of_size(self.width, self.height)
    }
}

/// The textures that a texture is made of.
pub open spec fn parts_of(composed: ComposedTexture) -> Seq<Key<TextureData>>
    decreases composed,
{
    match composed {
        ComposedTexture::Image(key) => seq![key],
        ComposedTexture::Overlay { base, overlay } => parts_of(*base) + parts_of(*overlay),
        ComposedTexture::Color { base, .. } => parts_of(*base),
        ComposedTexture::Fill { .. } => Seq::empty(),
        ComposedTexture::Flip { base, .. } => parts_of(*base),
    }
}

/// A picture flipped, or as it was.
pub open spec fn flipped_if(picture: PictureView, flip: Flip, flips: bool) -> PictureView {
    if flips {
        flipped(picture, flip)
    } else {
        picture
    }
}

/// What a composed texture shows, or why it shows nothing.
pub open spec fn resolved(
    composed: ComposedTexture,
    images: Seq<Option<TextureImages>>,
    load_texture_type: LoadTextureType,
) -> Result<PictureView, ComposeError>
    decreases composed,
{
    match composed {
        ComposedTexture::Image(key) => match images[key.index()] {
            Some(texture) => Ok(texture.picture(load_texture_type)->0),
            None => Err(ComposeError::NotLoaded(key)),
        },
        ComposedTexture::Overlay { base, overlay } => match resolved(
            *base,
            images,
            load_texture_type,
        ) {
            Err(e) => Err(e),
            Ok(below) => match resolved(*overlay, images, load_texture_type) {
                Err(e) => Err(e),
                Ok(above) => if (below.width, below.height) != (above.width, above.height) {
                    Err(
                        ComposeError::SizeMismatch {
                            base: (below.width, below.height),
                            overlay: (above.width, above.height),
                        },
                    )
                } else {
                    Ok(laid_over(below, above))
                },
            },
        },
        ComposedTexture::Color { base, color } => match resolved(*base, images, load_texture_type) {
            Err(e) => Err(e),
            Ok(below) => Ok(picture_of(tinted(rgba8_of(below), color))),
        },
        ComposedTexture::Fill { width, height, color } => Ok(
            picture_of(filled(width, height, color)),
        ),
        ComposedTexture::Flip { base, horizontal, vertical, diagonal } => match resolved(
            *base,
            images,
            load_texture_type,
        ) {
            Err(e) => Err(e),
            Ok(below) => {
                let first = flipped_if(below, Flip::Horizontal, horizontal);
                let second = flipped_if(first, Flip::Vertical, vertical);
                Ok(flipped_if(second, Flip::Diagonal, diagonal))
            },
        },
    }
}

/// The view of a result.
pub open spec fn picture_result(r: Result<Picture, ComposeError>) -> Result<
    PictureView,
    ComposeError,
> {
    match r {
        Ok(picture) => Ok(picture@),
        Err(e) => Err(e),
    }
}

fn flip_if(picture: Picture, flip: Flip, flips: bool) -> (r: Picture)
    requires
        picture@.wf(),
    ensures
        r@ == flipped_if(picture@, flip, flips),
        r@.wf(),
{
    if flips {
        picture.flip(flip)
    } else {
        picture
    }
}

impl ComposedTexture {
    /// The textures that the texture is made of.
    pub fn parts(&self) -> (r: Vec<Key<TextureData>>)
        ensures
            r@ == parts_of(*self),
        decreases self,
    {
        match self {
            ComposedTexture::Image(key) => {
                let mut r: Vec<Key<TextureData>> = Vec::new();
                r.push(*key);
                assert(r@ =~= seq![*key]);
                r
            },
            ComposedTexture::Overlay { base, overlay } => {
                let mut r = base.parts();
                let mut above = overlay.parts();
                r.append(&mut above);
                r
            },
            ComposedTexture::Color { base, .. } => base.parts(),
            ComposedTexture::Fill { .. } => Vec::new(),
            ComposedTexture::Flip { base, .. } => base.parts(),
        }
    }

    /// Whether the texture can be put together.
    pub fn is_resolvable(
        &self,
        images: &Vec<Option<TextureImages>>,
        load_texture_type: LoadTextureType,
    ) -> (r: bool)
        ensures
            r == can_resolve(*self, images@, load_texture_type),
        decreases self,
    {
        match self {
            ComposedTexture::Image(key) => {
                if key.numeric_id() >= images.len() {
                    return false;
                }
                match &images[key.numeric_id()] {
                    Some(texture) => match load_texture_type {
                        LoadTextureType::Texture => texture.texture.is_whole(),
                        LoadTextureType::ColorMask => match &texture.color_mask {
                            Some(image) => image.is_whole(),
                            None => false,
                        },
                        LoadTextureType::Emissive => match &texture.emissive {
                            Some(image) => image.is_whole(),
                            None => false,
                        },
                    },
                    None => true,
                }
            },
            ComposedTexture::Overlay { base, overlay } => {
                base.is_resolvable(images, load_texture_type) && overlay.is_resolvable(
                    images,
                    load_texture_type,
                )
            },
            ComposedTexture::Color { base, .. } => base.is_resolvable(images, load_texture_type),
            ComposedTexture::Fill { width, height, .. } => {
                bytes_of_size(*width, *height) <= usize::MAX as u128
            },
            ComposedTexture::Flip { base, .. } => base.is_resolvable(images, load_texture_type),
        }
    }

    /// The picture that the texture shows. `images` holds the textures by their keys.
    pub fn resolve(
        &self,
        images: &Vec<Option<TextureImages>>,
        load_texture_type: LoadTextureType,
    ) -> (r: Result<Picture, ComposeError>)
        requires
            can_resolve(*self, images@, load_texture_type),
        ensures
            picture_result(r) == resolved(*self, images@, load_texture_type),
            r matches Ok(picture) ==> picture@.wf(),
        decreases self,
    {
        match self {
            ComposedTexture::Image(key) => {
                match &images[key.numeric_id()] {
                    Some(texture) => {
                        let picture = match load_texture_type {
                            LoadTextureType::Texture => &texture.texture,
                            LoadTextureType::ColorMask => texture.color_mask.as_ref().unwrap(),
                            LoadTextureType::Emissive => texture.emissive.as_ref().unwrap(),
                        };
                        Ok(picture.copy())
                    },
                    None => Err(ComposeError::NotLoaded(*key)),
                }
            },
            ComposedTexture::Overlay { base, overlay } => {
                let below = match base.resolve(images, load_texture_type) {
                    Ok(picture) => picture,
                    Err(e) => {
                        return Err(e);
                    },
                };
                let above = match overlay.resolve(images, load_texture_type) {
                    Ok(picture) => picture,
                    Err(e) => {
                        return Err(e);
                    },
                };
                if below.width != above.width || below.height != above.height {
                    return Err(
                        ComposeError::SizeMismatch {
                            base: (below.width, below.height),
                            overlay: (above.width, above.height),
                        },
                    );
                }
                Ok(below.overlay(above))
            },
            ComposedTexture::Color { base, color } => {
                match base.resolve(images, load_texture_type) {
                    Ok(picture) => Ok(Picture::from_rgba8(&picture.to_rgba8().tint(*color))),
                    Err(e) => Err(e),
                }
            },
            ComposedTexture::Fill { width, height, color } => Ok(
                Picture::from_rgba8(&Image::fill(*width, *height, *color)),
            ),
            ComposedTexture::Flip { base, horizontal, vertical, diagonal } => {
                match base.resolve(images, load_texture_type) {
                    Ok(picture) => {
                        let first = flip_if(picture, Flip::Horizontal, *horizontal);
                        let second = flip_if(first, Flip::Vertical, *vertical);
                        Ok(flip_if(second, Flip::Diagonal, *diagonal))
                    },
                    Err(e) => Err(e),
                }
            },
        }
    }
}

/// The mask of a texture that is not of the texture's size.
#[derive(Clone, Copy, PartialEq, Eq, Debug)]
pub struct MaskSizeError {
    pub mask: (u32, u32),
    pub texture: (u32, u32),
}

/// Checks that a mask is of the size of its texture.
pub fn check_mask_size(mask: &Picture, texture: &Picture) -> (r: Result<(), MaskSizeError>)
    ensures
        r == (if mask.width != texture.width || mask.height != texture.height {
            Err(
                MaskSizeError {
                    mask: (mask.width, mask.height),
                    texture: (texture.width, texture.height),
                },
            )
        } else {
            Ok(())
        }),
{
    if mask.width != texture.width || mask.height != texture.height {
        Err(
            MaskSizeError {
                mask: (mask.width, mask.height),
                texture: (texture.width, texture.height),
            },
        )
    } else {
        Ok(())
    }
}

/// Whether a file is the mask of a texture, not a texture. The file's name is given without its
/// last extension.
pub fn is_mask_file(file_name: &str) -> (r: bool)
    ensures
        r == (text::has_ending(file_name@, ".emissive"@) || text::has_ending(
            file_name@,
            ".color_mask"@,
        )),
{
    text::ends_with_text(file_name, ".emissive") || text::ends_with_text(file_name, ".color_mask")
}

/// A darkened byte is the whole part of the byte times the parts, divided by 255.
pub proof fn law_tint_scales(p: u8, v: u8)
    ensures
        255 * tinted_byte(p, v) <= p * v < 255 * tinted_byte(p, v) + 255,
{
    let x = p * v;
    assert(0 <= x <= 255 * 255) by (nonlinear_arith)
        requires
            x == p * v,
            0 <= p <= 255,
            0 <= v <= 255,
    ;
    assert(255 * ((x + 1 + x / 256) / 256) <= x < 255 * ((x + 1 + x / 256) / 256) + 255);
}

/// Coloring darkens each component of a pixel by that of the color and changes nothing else.
pub proof fn law_tinted_components(image: ImageView, color: Color, n: int)
    requires
        image.wf(),
        0 <= n < image.width * image.height,
    ensures
        ({
            let r = tinted(image, color);
            &&& r.width == image.width && r.height == image.height
            &&& r.pixels.len() == image.pixels.len()
            &&& r.pixels[4 * n] == tinted_byte(image.pixels[4 * n], color.r)
            &&& r.pixels[4 * n + 1] == tinted_byte(image.pixels[4 * n + 1], color.g)
            &&& r.pixels[4 * n + 2] == tinted_byte(image.pixels[4 * n + 2], color.b)
            &&& r.pixels[4 * n + 3] == tinted_byte(image.pixels[4 * n + 3], color.a)
        }),
{
}

/// Every pixel of a filled picture is the color.
pub proof fn law_filled_pixels(width: u32, height: u32, color: Color, x: int, y: int)
    requires
        0 <= x < width,
        0 <= y < height,
    ensures
        filled(width, height, color).wf(),
        filled(width, height, color).width == width,
        filled(width, height, color).height == height,
        filled(width, height, color).pixel(x, y) == seq![color.r, color.g, color.b, color.a],
{
    lemma_place(width as int, height as int, x, y);
    let n = y * width + x;
    let r = filled(width, height, color);
    assert(r.place(x, y) == 4 * n);
    assert(0 <= width * height * 4);
    assert(r.pixels.len() == width * height * 4);
    assert(4 * n + 4 <= r.pixels.len());
    assert((4 * n) % 4 == 0 && (4 * n + 1) % 4 == 1 && (4 * n + 2) % 4 == 2 && (4 * n + 3) % 4 == 3);
    assert(0 <= 4 * n);
    assert(r.pixels[4 * n] == color.r);
    assert(r.pixels[4 * n + 1] == color.g);
    assert(r.pixels[4 * n + 2] == color.b);
    assert(r.pixels[4 * n + 3] == color.a);
    let expected = seq![color.r, color.g, color.b, color.a];
    assert(r.pixel(x, y).len() == 4);
    assert forall|i: int| 0 <= i < 4 implies #[trigger] r.pixel(x, y)[i] == expected[i] by {
        assert(r.pixel(x, y)[i] == r.pixels[4 * n + i]);
        if i == 0 {
        } else if i == 1 {
        } else if i == 2 {
        } else {
            assert(i == 3);
        }
    }
    assert(r.pixel(x, y) =~= expected);
}

/// A texture shows the picture of the kind that is asked for.
pub proof fn law_texture_kinds(images: TextureImages)
    ensures
        images.picture(LoadTextureType::Texture) == Some(images.texture@),
        images.color_mask is Some ==> images.picture(LoadTextureType::ColorMask) == Some(
            images.color_mask->0@,
        ),
        images.emissive is Some ==> images.picture(LoadTextureType::Emissive) == Some(
            images.emissive->0@,
        ),
{
}

/// A composed texture that is flipped shows its base with the columns in the other order first, then
/// the rows, and then rows for columns.
pub proof fn law_composed_flips(
    base: Box<ComposedTexture>,
    images: Seq<Option<TextureImages>>,
    kind: LoadTextureType,
    below: PictureView,
)
    requires
        resolved(*base, images, kind) == Ok::<_, ComposeError>(below),
    ensures
        ({
            let shown = |horizontal: bool, vertical: bool, diagonal: bool|
                resolved(
                    ComposedTexture::Flip { base, horizontal, vertical, diagonal },
                    images,
                    kind,
                );
            &&& shown(false, false, false) == Ok::<_, ComposeError>(below)
            &&& shown(true, false, false) == Ok::<_, ComposeError>(flipped(below, Flip::Horizontal))
            &&& shown(false, true, false) == Ok::<_, ComposeError>(flipped(below, Flip::Vertical))
            &&& shown(false, false, true) == Ok::<_, ComposeError>(flipped(below, Flip::Diagonal))
            &&& shown(true, true, true) == Ok::<_, ComposeError>(
                flipped(flipped(flipped(below, Flip::Horizontal), Flip::Vertical), Flip::Diagonal),
            )
        }),
{
}

/// A texture is laid over another of the same size only, the base below; else the error tells both
/// sizes.
pub proof fn law_composed_overlays(
    base: Box<ComposedTexture>,
    overlay: Box<ComposedTexture>,
    images: Seq<Option<TextureImages>>,
    kind: LoadTextureType,
    below: PictureView,
    above: PictureView,
)
    requires
        resolved(*base, images, kind) == Ok::<_, ComposeError>(below),
        resolved(*overlay, images, kind) == Ok::<_, ComposeError>(above),
    ensures
        ({
            let r = resolved(ComposedTexture::Overlay { base, overlay }, images, kind);
            &&& below.width == above.width && below.height == above.height ==> r == Ok::<
                _,
                ComposeError,
            >(laid_over(below, above))
            &&& below.width != above.width || below.height != above.height ==> r == Err::<
                PictureView,
                _,
            >(
                ComposeError::SizeMismatch {
                    base: (below.width, below.height),
                    overlay: (above.width, above.height),
                },
            )
        }),
{
}

/// A composed texture shows nothing if a texture that it is made of is not loaded, and it is made of
/// the parts of its base and then of those of what lies over it.
pub proof fn law_composed_parts(
    base: Box<ComposedTexture>,
    other: Box<ComposedTexture>,
    color: Color,
    key: Key<TextureData>,
    images: Seq<Option<TextureImages>>,
    kind: LoadTextureType,
)
    ensures
        images[key.index()] is None ==> resolved(ComposedTexture::Image(key), images, kind) == Err::<
            PictureView,
            _,
        >(ComposeError::NotLoaded(key)),
        resolved(*base, images, kind) is Err ==> resolved(
            ComposedTexture::Overlay { base, overlay: other },
            images,
            kind,
        ) == resolved(*base, images, kind),
        resolved(*base, images, kind) is Err ==> resolved(
            ComposedTexture::Color { base, color },
            images,
            kind,
        ) == resolved(*base, images, kind),
        resolved(*base, images, kind) matches Ok(below) ==> resolved(
            ComposedTexture::Color { base, color },
            images,
            kind,
        ) == Ok::<_, ComposeError>(picture_of(tinted(rgba8_of(below), color))),
        parts_of(ComposedTexture::Image(key)) == seq![key],
        parts_of(ComposedTexture::Overlay { base, overlay: other }) == parts_of(*base) + parts_of(
            *other,
        ),
        parts_of(ComposedTexture::Color { base, color }) == parts_of(*base),
{
}

} // verus!
