use block_byte::atlas::{
    after_bytes, atlas_keys, decode_picture, embedded_picture, get_nearest_texture_multiple,
    is_packable, paint_materials, AtlasRect, MaterialMasks, TextureAtlas, TextureAtlasKey,
};
use block_byte::color::Color;
use block_byte::keyed_store::KeyedStore;
use block_byte::language::TranslationLanguageData;
use block_byte::net::{
    in_order, make_connection_config, unpack_messages, ClientConnectionState, ConnectionStep,
};
use block_byte::picture::{ColorType, Flip, Picture};
use block_byte::registry::{
    add_group_text, content_id, group_id, is_group_closed, is_group_id, no_group_texts,
    skips_extension, BlockData, Key, KeyGroup, LoadRegistry, ModelData, ModelInstance, ModelInstanceError, OwnOrKey, TextureData,
};
use block_byte::shader::ShaderFiles;
use block_byte::texture::{
    check_mask_size, is_mask_file, ComposeError, ComposedTexture, Image, LoadTextureType,
    MaskSizeError, TextureImages,
};
use base64::Engine;
use std::io::Write;

fn registry(ids: &[&str]) -> LoadRegistry<BlockData> {
    let mut registry = LoadRegistry::default();
    for id in ids {
        registry.register(id.to_string(), format!("{}.ron", id));
    }
    registry
}

#[test]
fn registries_give_keys() {
    let blocks = registry(&["air", "stone"]);
    let stone = blocks.id("stone").unwrap();
    assert_eq!(stone.numeric_id(), 1);
    assert_eq!(blocks.text_id(stone), "stone");
    assert_eq!(blocks.path(stone), "stone.ron");
    assert!(blocks.id("dirt").is_none());
    assert_eq!(blocks.entries().len(), 2);
    assert!(stone.same(Key::from_index(1)));
}

#[test]
fn groups_hold_keys_and_groups() {
    let mut blocks = registry(&["air", "stone", "dirt", "sand"]);
    let files = TranslationLanguageData::parse("soft=dirt\nall=#soft\nbroken=gravel\n").translations;
    let (soft, missing) = blocks.load_group(&files, "soft");
    assert!(!missing);
    assert!(soft.contains(&blocks, blocks.id("dirt").unwrap()));
    assert!(!soft.contains(&blocks, blocks.id("stone").unwrap()));
    let (all, missing) = blocks.load_group(&files, "all");
    assert!(!missing);
    assert_eq!(all.list(&blocks).len(), 1);
    let (broken, missing) = blocks.load_group(&files, "broken");
    assert!(missing);
    assert_eq!(broken.variant_count(&blocks), 0);
    let parsed = KeyGroup::parse(&blocks, "#soft").unwrap();
    assert!(parsed.same(soft));
    assert_eq!(parsed.variant(&blocks, 5).numeric_id(), 2);
    assert!(KeyGroup::parse(&blocks, "#nothing").is_none());
    assert!(matches!(KeyGroup::parse(&blocks, ""), Some(KeyGroup::Empty)));
    assert!(matches!(KeyGroup::parse(&blocks, "sand"), Some(KeyGroup::Single(_))));
    assert!(KeyGroup::parse(&blocks, "gravel").is_none());
}

#[test]
fn group_files_are_put_together() {
    let mut groups = no_group_texts();
    add_group_text(&mut groups, "soft", "dirt");
    add_group_text(&mut groups, "soft", "sand");
    add_group_text(&mut groups, "all", "#soft");
    add_group_text(&mut groups, "first", "#second");
    add_group_text(&mut groups, "second", "#first");
    assert_eq!(groups.get("soft").unwrap(), "\ndirt\nsand");
    assert!(is_group_closed(&groups, "all", 4));
    assert!(is_group_closed(&groups, "soft", 1));
    assert!(!is_group_closed(&groups, "all", 1));
    assert!(!is_group_closed(&groups, "first", 4));
    assert!(!is_group_closed(&groups, "hard", 4));
    let mut blocks = registry(&["air", "stone", "dirt", "sand"]);
    let (all, missing) = blocks.load_group(&groups, "all");
    assert!(!missing);
    assert_eq!(all.list(&blocks).len(), 2);
}

#[test]
fn own_data_or_that_of_a_key() {
    let entries = vec!["a", "b"];
    assert_eq!(*OwnOrKey::Own("c").data(&entries), "c");
    assert_eq!(*OwnOrKey::Key(Key::from_index(1)).data(&entries), "b");
}

#[test]
fn model_instances_name_textures() {
    let mut models: LoadRegistry<ModelData> = LoadRegistry::default();
    models.register("chair".to_string(), String::new());
    let mut textures: LoadRegistry<TextureData> = LoadRegistry::default();
    textures.register("oak".to_string(), String::new());
    let instance = ModelInstance::parse("chair;oak;oak", &models, &textures).unwrap();
    assert_eq!(instance.model.numeric_id(), 0);
    assert_eq!(instance.textures.len(), 2);
    assert!(matches!(
        ModelInstance::parse("table;oak", &models, &textures),
        Err(ModelInstanceError::ModelNotFound(name)) if name == "table"
    ));
    assert!(matches!(
        ModelInstance::parse("chair;oak;birch", &models, &textures),
        Err(ModelInstanceError::TextureNotFound(name)) if name == "birch"
    ));
}

#[test]
fn files_have_content_names() {
    assert_eq!(content_id("blocks/wood/oak"), "blocks.wood.oak");
    assert!(is_group_id("blocks.#soft"));
    assert!(!is_group_id("#blocks.soft"));
    assert_eq!(group_id("blocks.#soft"), "blocks.soft");
    assert!(skips_extension("py"));
    assert!(skips_extension("png~"));
    assert!(!skips_extension("png"));
    assert!(is_mask_file("stone.emissive"));
    assert!(is_mask_file("stone.color_mask"));
    assert!(!is_mask_file("stone"));
}

#[test]
fn translations_are_read() {
    let language = TranslationLanguageData::parse("a = Apple\nb=x=y\na = Ant");
    assert_eq!(language.translate("a"), "Ant");
    assert_eq!(language.translate("b"), "x=y");
    assert_eq!(language.translate("c"), "c");
}

#[test]
fn stores_hold_by_key() {
    let mut store: KeyedStore<&str> = KeyedStore::with_capacity(10);
    store.insert(5, "five");
    store.insert(u128::MAX, "most");
    store.insert(5, "again");
    assert_eq!(store.len(), 2);
    assert_eq!(store.get(5), Some(&"again"));
    *store.get_mut(u128::MAX).unwrap() = "top";
    assert_eq!(store.remove(5), Some("again"));
    assert_eq!(store.remove(5), None);
    assert!(!store.contains_key(5));
    assert_eq!(store.len(), 1);
    assert_eq!(store.entry(0), (u128::MAX, &"top"));
}

fn picture(width: u32, height: u32) -> Image {
    let pixels = (0..width * height * 4).map(|i| (i * 7 % 251) as u8).collect();
    Image { width, height, pixels }
}

#[test]
fn pictures_are_tinted() {
    let image = picture(2, 1);
    assert_eq!(image.tint(Color::white()).pixels, image.pixels);
    let dark = Image { width: 1, height: 1, pixels: vec![200, 100, 50, 255] }.tint(Color {
        r: 128,
        g: 0,
        b: 255,
        a: 255,
    });
    assert_eq!(dark.pixels, vec![100, 0, 50, 255]);
}

#[test]
fn pictures_are_flipped() {
    let image = picture(3, 2);
    let kept = Picture::from_rgba8(&image);
    let flipped = kept.flip(Flip::Horizontal).to_rgba8();
    assert_eq!(flipped.get_pixel(0, 1), image.get_pixel(2, 1));
    let flipped = kept.flip(Flip::Vertical).to_rgba8();
    assert_eq!(flipped.get_pixel(1, 0), image.get_pixel(1, 1));
    let flipped = kept.flip(Flip::Diagonal);
    assert_eq!((flipped.width, flipped.height, flipped.color), (2, 3, ColorType::Rgba8));
    for flip in [Flip::Horizontal, Flip::Vertical, Flip::Diagonal] {
        assert_eq!(kept.flip(flip).flip(flip).samples, kept.samples);
    }
}

#[test]
fn pictures_are_widened_and_narrowed() {
    let image = picture(2, 3);
    let kept = Picture::from_rgba8(&image);
    assert_eq!((kept.color, kept.samples[1]), (ColorType::Rgba8, 7 * 257));
    assert_eq!(kept.to_rgba8().pixels, image.pixels);
    let deep = Picture {
        width: 1,
        height: 1,
        color: ColorType::Rgba16,
        samples: vec![128, 129, 0x8000, 0xffff],
    };
    assert_eq!(deep.to_rgba8().pixels, vec![0, 1, 128, 255]);
    assert!(deep.is_whole());
    assert!(!Picture { samples: vec![1], ..deep }.is_whole());
}

#[test]
fn overlays_keep_the_format_of_the_base() {
    let red = || Picture::from_rgba8(&Image::fill(1, 1, Color::rgb(255, 0, 0)));
    let gray = Picture {
        width: 1,
        height: 1,
        color: ColorType::Gray8,
        samples: vec![30 * 257, 30 * 257, 30 * 257, 0xffff],
    };
    let laid = gray.overlay(red());
    assert_eq!(laid.color, ColorType::Gray8);
    let pixel = laid.to_rgba8().get_pixel(0, 0);
    assert!(pixel[0] == pixel[1] && pixel[1] == pixel[2] && pixel[3] == 255);
    assert!(pixel[0] > 30 && pixel[0] < 255);
    let clear = Picture::from_rgba8(&Image::fill(1, 1, Color { r: 9, g: 9, b: 9, a: 0 }));
    assert_eq!(gray.overlay(clear).samples, gray.samples);
    for color in [ColorType::Rgb8, ColorType::Rgba8, ColorType::Rgb16, ColorType::Rgba16] {
        let base = Picture { width: 1, height: 1, color, samples: vec![0, 0, 0, 0xffff] };
        let laid = base.overlay(red());
        assert_eq!((laid.color, laid.samples), (color, vec![0xffff, 0, 0, 0xffff]));
    }
    for color in [ColorType::GrayAlpha8, ColorType::Gray16, ColorType::GrayAlpha16] {
        let base = Picture { width: 1, height: 1, color, samples: vec![0, 0, 0, 0xffff] };
        let laid = base.overlay(red());
        assert!(laid.samples[0] == laid.samples[2] && laid.samples[0] > 0);
        assert_eq!((laid.color, laid.samples[3]), (color, 0xffff));
    }
    // Half transparent red over black: sixteen bits keep what eight bits cut off.
    let veil = || Picture::from_rgba8(&Image::fill(1, 1, Color { r: 255, g: 0, b: 0, a: 100 }));
    let black = |color: ColorType| Picture { width: 1, height: 1, color, samples: vec![0, 0, 0, 0xffff] };
    let deep = black(ColorType::Rgba16).overlay(veil()).samples[0];
    let shallow = black(ColorType::Rgba8).overlay(veil()).samples[0];
    assert!(shallow % 257 == 0 && deep.abs_diff(100 * 257) <= 1);
}

#[test]
fn textures_are_composed() {
    let kept = |image: Image| Picture::from_rgba8(&image);
    let base = kept(Image::fill(2, 2, Color::rgb(10, 20, 30)));
    let mut top = Image::fill(2, 2, Color { r: 0, g: 0, b: 0, a: 0 });
    top.set_pixel(1, 0, [255, 0, 0, 255]);
    let images = vec![
        Some(TextureImages { texture: base, color_mask: None, emissive: None }),
        Some(TextureImages { texture: kept(top), color_mask: None, emissive: None }),
        None,
        Some(TextureImages {
            texture: kept(Image::fill(1, 2, Color::white())),
            color_mask: None,
            emissive: None,
        }),
    ];
    let image = |index: u32| Box::new(ComposedTexture::Image(Key::from_index(index)));
    let both = ComposedTexture::Overlay { base: image(0), overlay: image(1) };
    let resolved = both.resolve(&images, LoadTextureType::Texture).ok().unwrap().to_rgba8();
    assert_eq!(resolved.get_pixel(1, 0), [255, 0, 0, 255]);
    assert_eq!(resolved.get_pixel(0, 0), [10, 20, 30, 255]);
    let parts: Vec<usize> = both.parts().iter().map(|part| part.numeric_id()).collect();
    assert_eq!(parts, vec![0, 1]);
    assert!(both.is_resolvable(&images, LoadTextureType::Texture));
    assert!(!both.is_resolvable(&images, LoadTextureType::Emissive));
    let missing = ComposedTexture::Overlay { base: image(0), overlay: image(2) };
    assert!(missing.is_resolvable(&images, LoadTextureType::Texture));
    assert!(!image(9).is_resolvable(&images, LoadTextureType::Texture));
    assert!(matches!(
        missing.resolve(&images, LoadTextureType::Texture),
        Err(ComposeError::NotLoaded(key)) if key.numeric_id() == 2
    ));
    let uneven = ComposedTexture::Overlay { base: image(0), overlay: image(3) };
    assert!(matches!(
        uneven.resolve(&images, LoadTextureType::Texture),
        Err(ComposeError::SizeMismatch { base: (2, 2), overlay: (1, 2) })
    ));
    let broken = Image { width: 2, height: 2, pixels: vec![0; 15] };
    assert!(!broken.is_whole());
    assert!(Image::fill(2, 2, Color::white()).is_whole());
    let filled = ComposedTexture::Color {
        base: Box::new(ComposedTexture::Fill { width: 1, height: 1, color: Color::white() }),
        color: Color::rgb(1, 2, 3),
    };
    assert_eq!(
        filled.resolve(&images, LoadTextureType::Texture).ok().unwrap().to_rgba8().pixels,
        vec![1, 2, 3, 255]
    );
    let flipped = ComposedTexture::Flip {
        base: image(1),
        horizontal: true,
        vertical: true,
        diagonal: false,
    };
    let flipped = flipped.resolve(&images, LoadTextureType::Texture).ok().unwrap().to_rgba8();
    assert_eq!(flipped.get_pixel(0, 1), [255, 0, 0, 255]);
}

#[test]
fn masks_have_the_size_of_textures() {
    let texture = Picture::from_rgba8(&Image::fill(2, 2, Color::white()));
    assert_eq!(check_mask_size(&texture, &texture), Ok(()));
    let mask = Picture::from_rgba8(&Image::fill(2, 3, Color::white()));
    assert_eq!(
        check_mask_size(&mask, &texture),
        Err(MaskSizeError { mask: (2, 3), texture: (2, 2) })
    );
}

#[test]
fn sizes_are_rounded_up() {
    assert_eq!(get_nearest_texture_multiple(1), 16);
    assert_eq!(get_nearest_texture_multiple(16), 16);
    assert_eq!(get_nearest_texture_multiple(17), 32);
    assert_eq!(get_nearest_texture_multiple(100), 128);
}

#[test]
fn atlases_show_every_picture() {
    let images = vec![picture(16, 16), picture(32, 16), picture(16, 64)];
    let atlas = TextureAtlas::pack(&images);
    assert_eq!((atlas.picture.width, atlas.picture.height), (2048, 2048));
    let mut seen: Vec<(u32, u32)> = Vec::new();
    for (image, rect) in images.iter().zip(&atlas.rects) {
        let rect = rect.as_ref().unwrap();
        for x in 0..image.width {
            for y in 0..image.height {
                assert_eq!(
                    atlas.picture.get_pixel(rect.x + x, rect.y + y),
                    image.get_pixel(x, y)
                );
                seen.push((rect.x + x, rect.y + y));
            }
        }
    }
    let count = seen.len();
    seen.sort();
    seen.dedup();
    assert_eq!(seen.len(), count);
}

#[test]
fn atlases_are_clear_beside_their_pictures() {
    let white = |width: u32, height: u32| Image::fill(width, height, Color::white());
    let atlas = TextureAtlas::pack(&vec![white(10, 12), white(16, 3)]);
    let rects: Vec<&AtlasRect> = atlas.rects.iter().map(|rect| rect.as_ref().unwrap()).collect();
    for x in 0..64 {
        for y in 0..64 {
            let is_shown = rects.iter().any(|rect| {
                rect.x <= x && x < rect.x + rect.width && rect.y <= y && y < rect.y + rect.height
            });
            let pixel = if is_shown { [255; 4] } else { [0; 4] };
            assert_eq!(atlas.picture.get_pixel(x, y), pixel);
        }
    }
    assert_eq!(atlas.picture.get_pixel(2047, 2047), [0; 4]);
}

#[test]
fn atlases_have_room_for_so_many_pictures() {
    let atlas = TextureAtlas::pack(&vec![picture(16, 16), picture(2048, 2048), picture(16, 16)]);
    assert!(atlas.rects[0].is_some());
    assert!(atlas.rects[1].is_none());
    assert!(atlas.rects[2].is_some());
    let wide = picture(4096, 16);
    assert!(is_packable(&wide));
    let atlas = TextureAtlas::pack(&vec![wide, picture(16, 16)]);
    assert!(atlas.rects[0].is_none());
    assert!(atlas.rects[1].is_some());
    assert!(!is_packable(&Image { width: 1, height: 1, pixels: Vec::new() }));
}

#[test]
fn atlas_keys_are_listed() {
    let keys = atlas_keys(
        &vec!["stone".to_string()],
        &vec![vec![false, true], vec![true]],
        &vec![true, false, true],
    );
    assert!(keys.contains(&TextureAtlasKey::Texture(0)));
    assert!(keys.iter().any(|key| matches!(key, TextureAtlasKey::Model(1, 0))));
    assert!(keys.iter().any(|key| matches!(key, TextureAtlasKey::Glyph(2))));
    assert!(!keys.iter().any(|key| matches!(key, TextureAtlasKey::Glyph(1))));
}

#[test]
fn embedded_pictures_are_decoded() {
    let mut bytes: Vec<u8> = Vec::new();
    let png = image::RgbaImage::from_raw(2, 1, vec![1, 2, 3, 255, 4, 5, 6, 128]).unwrap();
    png.write_to(&mut std::io::Cursor::new(&mut bytes), image::ImageFormat::Png).unwrap();
    let text = base64::prelude::BASE64_STANDARD.encode(&bytes);
    let decoded = embedded_picture(&format!("data:image/png;base64,{}", text)).unwrap();
    assert_eq!((decoded.width, decoded.height), (2, 1));
    assert_eq!(decoded.pixels, vec![1, 2, 3, 255, 4, 5, 6, 128]);
    assert!(embedded_picture("data:image/png;base64,!!!!").is_none());
    assert!(embedded_picture("data:image/png;base64,AAAA").is_none());
    assert!(embedded_picture("short").is_none());
    let read = decode_picture(&bytes).unwrap();
    assert_eq!((read.width, read.height, read.pixels), (2, 1, decoded.pixels));
    assert!(decode_picture(&vec![1, 2, 3]).is_none());
}

#[test]
fn texts_are_cut_by_bytes() {
    assert_eq!(after_bytes("abc", 2), Some("c".to_string()));
    assert_eq!(after_bytes("\u{e9}bc", 2), Some("bc".to_string()));
    assert_eq!(after_bytes("\u{e9}bc", 1), None);
    assert_eq!(after_bytes("abc", 4), None);
    assert_eq!(after_bytes("abc", 3), Some(String::new()));
    assert_eq!(after_bytes("abc", usize::MAX), None);
    assert_eq!(after_bytes(&"x".repeat(1500), 1499), Some("x".to_string()));
}

#[test]
fn materials_are_painted() {
    let rects = vec![Some(AtlasRect { x: 3, y: 5, width: 1, height: 1 }), None];
    let masks = vec![
        MaterialMasks {
            color_mask: Some(Picture::from_rgba8(&Image::fill(1, 1, Color::rgb(255, 255, 255)))),
            emissive: None,
        },
        MaterialMasks { color_mask: None, emissive: None },
    ];
    let painted = paint_materials(&rects, &masks);
    assert_ne!(painted.get_pixel(3, 5), painted.get_pixel(4, 5));
    assert!(painted.get_pixel(3, 5).contains(&255));
    let deep = Picture {
        width: 1,
        height: 1,
        color: ColorType::Rgba16,
        samples: vec![0xffff; 4],
    };
    let masks = vec![
        MaterialMasks { color_mask: Some(deep), emissive: None },
        MaterialMasks { color_mask: None, emissive: None },
    ];
    assert_eq!(paint_materials(&rects, &masks).get_pixel(3, 5), painted.get_pixel(3, 5));
}

#[test]
fn messages_are_unpacked() {
    let pack = |bytes: &[u8]| {
        let mut encoder = lz4_flex::frame::FrameEncoder::new(Vec::new());
        encoder.write_all(bytes).unwrap();
        encoder.finish().unwrap()
    };
    let packets = in_order(vec![pack(b"hello")], vec![pack(b""), pack(&[7; 1000])]);
    let messages = unpack_messages(&packets).unwrap();
    assert_eq!(messages, vec![b"hello".to_vec(), Vec::new(), vec![7; 1000]]);
    let broken = vec![pack(b"a"), vec![1, 2, 3]];
    assert_eq!(unpack_messages(&broken), Err(1));
}

#[test]
fn connections_step() {
    let connecting = ClientConnectionState::Connecting;
    assert!(matches!(
        connecting.begin_step(false),
        (ClientConnectionState::Connecting, ConnectionStep::Wait)
    ));
    assert!(matches!(
        connecting.begin_step(true),
        (ClientConnectionState::Connected, ConnectionStep::Wait)
    ));
    assert!(matches!(
        ClientConnectionState::Connected.begin_step(true),
        (ClientConnectionState::Connected, ConnectionStep::Exchange)
    ));
    assert!(matches!(
        ClientConnectionState::Disconnect.begin_step(true),
        (ClientConnectionState::Disconnect, ConnectionStep::Close)
    ));
    assert!(matches!(connecting.end_step(true), ClientConnectionState::Disconnected));
    let config = make_connection_config();
    assert_eq!(config.available_bytes_per_tick, 30000);
    assert_eq!(config.server_channels_config.len(), 2);
}

fn shader_files(files: &[(&str, &str)]) -> ShaderFiles {
    ShaderFiles {
        files: files.iter().map(|(name, text)| (name.to_string(), text.to_string())).collect(),
    }
}

#[test]
fn shaders_stand_in_one_another() {
    let mark = ["#inc", "lude "].concat();
    let main = format!("a\n{}math\nb\n", mark);
    let files = shader_files(&[("main.wgsl", &main), ("math.wgsl", "x\ny")]);
    assert_eq!(files.load_shader_source("main").unwrap(), "a\nx\ny\nb");
    assert_eq!(files.load_shader_source("math").unwrap(), "x\ny");
    assert!(files.load_shader_source("none").is_none());
    let missing = format!("{}none", mark);
    assert!(shader_files(&[("main.wgsl", &missing)]).load_shader_source("main").is_none());
    let round = format!("{}main", mark);
    assert!(shader_files(&[("main.wgsl", &round)]).load_shader_source("main").is_none());
}

#[test]
fn shaders_without_a_cycle_have_sources() {
    let mark = ["#inc", "lude "].concat();
    let top = format!("{0}middle\n{0}bottom", mark);
    let middle = format!("x\n{}bottom", mark);
    let files = shader_files(&[
        ("top.wgsl", top.as_str()),
        ("middle.wgsl", middle.as_str()),
        ("bottom.wgsl", "y\n z"),
    ]);
    let source = files.load_shader_source("top").unwrap();
    assert_eq!(source, "x\ny\n z\ny\n z");
    assert!(source.lines().all(|line| !line.starts_with(mark.as_str())));
}
