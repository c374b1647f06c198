use neophyte::text::atlas::node::Node;
use neophyte::text::atlas::{FontAtlas, GlyphImage, ImageContent, DEFAULT_SIZE};
use neophyte::text::cache::{
    CacheKey, CacheValue, Cached, FontCache, GlyphInfo, GlyphKind, RenderedGlyph,
};
use neophyte::text::font::{Font, MetricsPixels};
use neophyte::text::fonts::FontStyle;
use neophyte::ui::options::{is_whitespace, FontSize, GuiFont, SizeKind};
use neophyte::util::vec2::Vec2;

#[test]
fn node_packs_glyphs_side_by_side() {
    let mut root = Node::new(Vec2::new(0, 0), Vec2::new(u32::MAX, u32::MAX));
    let a = root.pack(Vec2::new(10, 10), 256).unwrap();
    assert_eq!(a, Vec2::new(0, 0));
    let b = root.pack(Vec2::new(10, 10), 256).unwrap();
    assert_ne!(a, b);
    assert!(b.x >= 10 || b.y >= 10);
    assert!(root.pack(Vec2::new(300, 1), 256).is_none());
}

fn image(w: u32, h: u32, content: ImageContent, byte: u8) -> GlyphImage {
    let ch = if content == ImageContent::Mask { 1 } else { 4 };
    GlyphImage {
        width: w,
        height: h,
        content,
        data: vec![byte; (w * h * ch) as usize],
    }
}

#[test]
fn atlas_copies_glyph_pixels() {
    let mut atlas = FontAtlas::new(1);
    assert_eq!(atlas.size(), DEFAULT_SIZE);
    assert!(atlas.data().iter().all(|b| *b == 0));
    let o = atlas.pack(&image(3, 2, ImageContent::Mask, 9)).unwrap();
    let s = atlas.size() as usize;
    for y in 0..2 {
        for x in 0..3 {
            assert_eq!(atlas.data()[(o.y as usize + y) * s + o.x as usize + x], 9);
        }
    }
}

#[test]
fn atlas_grows_when_full_and_keeps_pixels() {
    let mut atlas = FontAtlas::new(1);
    let o = atlas.pack(&image(200, 200, ImageContent::Mask, 5)).unwrap();
    let p = atlas.pack(&image(200, 200, ImageContent::Mask, 6)).unwrap();
    assert!(atlas.size() > DEFAULT_SIZE);
    let s = atlas.size() as usize;
    assert_eq!(atlas.data()[o.y as usize * s + o.x as usize], 5);
    assert_eq!(atlas.data()[(o.y as usize + 199) * s + o.x as usize + 199], 5);
    assert_eq!(atlas.data()[p.y as usize * s + p.x as usize], 6);
    atlas.clear();
    assert_eq!(atlas.size(), DEFAULT_SIZE);
    assert!(atlas.data().iter().all(|b| *b == 0));
}

fn key(glyph_id: u16) -> CacheKey {
    CacheKey {
        glyph_id,
        style: FontStyle::Regular,
        font_index: 0,
    }
}

#[test]
fn cache_records_glyphs_by_kind() {
    let mut cache = FontCache::new();
    assert_eq!(cache.lookup(key(1)), None);
    let mono = cache.insert(
        key(1),
        Some(RenderedGlyph {
            left: 1,
            top: 7,
            image: image(2, 3, ImageContent::Mask, 1),
        }),
    );
    assert_eq!(
        mono,
        Some(CacheValue {
            index: 0,
            kind: GlyphKind::Monochrome
        })
    );
    assert_eq!(cache.lookup(key(1)), Some(mono));
    let info = cache.monochrome.info[0];
    assert_eq!(info.size, Vec2::new(2, 3));
    assert_eq!(info.offset, Vec2::new(1, -7));
    assert_eq!(cache.monochrome.revision, 1);
    let emoji = cache.insert(
        key(2),
        Some(RenderedGlyph {
            left: 0,
            top: 0,
            image: image(4, 4, ImageContent::Color, 2),
        }),
    );
    assert_eq!(
        emoji,
        Some(CacheValue {
            index: 0,
            kind: GlyphKind::Emoji
        })
    );
    assert_eq!(cache.emoji.info.len(), 1);
    assert_eq!(cache.monochrome.info.len(), 1);
}

#[test]
fn cache_records_failures() {
    let mut cache = FontCache::new();
    assert_eq!(cache.insert(key(5), None), None);
    assert_eq!(cache.lookup(key(5)), Some(None));
    let empty = cache.insert(
        key(6),
        Some(RenderedGlyph {
            left: 0,
            top: 0,
            image: image(0, 4, ImageContent::Mask, 0),
        }),
    );
    assert_eq!(empty, None);
    assert_eq!(cache.lookup(key(6)), Some(None));
    assert!(cache.monochrome.info.is_empty());
    cache.clear();
    assert_eq!(cache.lookup(key(5)), None);
    assert_eq!(cache.monochrome.revision, 1);
    assert_eq!(cache.emoji.revision, 1);
}

#[test]
fn cached_atlas_add_and_clear() {
    let mut cached = Cached::new(4);
    let i = cached
        .add(&image(1, 1, ImageContent::SubpixelMask, 3), -2, 5)
        .unwrap();
    assert_eq!(i, 0);
    assert_eq!(
        cached.info[0],
        GlyphInfo {
            size: Vec2::new(1, 1),
            offset: Vec2::new(-2, -5),
            origin: Vec2::new(0, 0)
        }
    );
    cached.clear();
    assert!(cached.info.is_empty());
    assert_eq!(cached.revision, 2);
}

#[test]
fn font_style_from_bold_and_italic() {
    assert_eq!(FontStyle::new(false, false), FontStyle::Regular);
    assert_eq!(FontStyle::new(true, false), FontStyle::Bold);
    assert_eq!(FontStyle::new(false, true), FontStyle::Italic);
    assert_eq!(FontStyle::new(true, true), FontStyle::BoldItalic);
    assert_eq!(FontStyle::default(), FontStyle::Regular);
}

#[test]
fn cell_size_is_width_by_em_plus_descent() {
    let m = MetricsPixels {
        scale_factor: 1,
        width: 9,
        em: 16,
        descent: 4,
        ascent: 13,
        leading: 0,
        cap_height: 11,
        x_height: 8,
        underline_offset: 2,
        strikeout_offset: 5,
        stroke_size: 1,
    };
    assert_eq!(m.cell_size(), Vec2::new(9, 20));
}

fn fonts(g: &GuiFont) -> Vec<&str> {
    g.fonts.iter().map(|s| s.as_str()).collect()
}

#[test]
fn guifont_names_and_sizes() {
    let g = GuiFont::parse("Fira Code,Noto Color Emoji:h12");
    assert_eq!(fonts(&g), vec!["Fira Code", "Noto Color Emoji"]);
    // A size takes effect once a `,` or `:` ends it.
    assert_eq!(g.size, FontSize::Height(18));
    let g = GuiFont::parse("Fira Code:h12,Noto Color Emoji");
    assert_eq!(fonts(&g), vec!["Fira Code", "Noto Color Emoji"]);
    assert_eq!(g.size, FontSize::Height(12));
    let g = GuiFont::parse("  Cascadia_Code:w9:b, Hack");
    assert_eq!(fonts(&g), vec!["Cascadia Code", "Hack"]);
    assert_eq!(g.size, FontSize::Width(9));
    let g = GuiFont::parse("");
    assert!(g.fonts.is_empty());
    assert_eq!(g.size, FontSize::Height(18));
    assert_eq!(FontSize::default(), FontSize::Height(18));
    assert_eq!(FontSize::new(3, SizeKind::Width), FontSize::Width(3));
}

#[test]
fn guifont_escape_and_bad_size() {
    let g = GuiFont::parse("A\\,B:h1,C");
    assert_eq!(fonts(&g), vec!["A,B:h1,C"]);
    let g = GuiFont::parse("Mono:h1x,Other");
    assert_eq!(fonts(&g), vec!["Mono"]);
    assert_eq!(g.size, FontSize::Height(18));
    let g = GuiFont::parse("Mono:h14:w7");
    assert_eq!(fonts(&g), vec!["Mono"]);
    assert_eq!(g.size, FontSize::Height(14));
    let g = GuiFont::parse("Mono:h14:w7,");
    assert_eq!(g.size, FontSize::Width(7));
}

#[test]
fn whitespace_matches_std() {
    for n in 0..=0x10FFFFu32 {
        if let Some(c) = char::from_u32(n) {
            assert_eq!(is_whitespace(c), c.is_whitespace(), "{n:#x}");
        }
    }
}

#[test]
fn packed_glyphs_never_overlap() {
    let mut atlas = FontAtlas::new(1);
    let sizes = [(30, 40), (100, 20), (7, 7), (64, 64), (120, 90), (1, 250), (250, 1), (33, 17)];
    let mut placed: Vec<(u32, u32, u32, u32)> = vec![];
    for (w, h) in sizes {
        let o = atlas.pack(&image(w, h, ImageContent::Mask, 1)).unwrap();
        assert!(o.x + w <= atlas.size() && o.y + h <= atlas.size());
        for &(x, y, pw, ph) in &placed {
            let apart = o.x + w <= x || x + pw <= o.x || o.y + h <= y || y + ph <= o.y;
            assert!(apart, "{:?} overlaps {:?}", (o.x, o.y, w, h), (x, y, pw, ph));
        }
        placed.push((o.x, o.y, w, h));
    }
}

#[test]
fn guifont_without_options_keeps_default_size() {
    let g = GuiFont::parse("Iosevka Term, JetBrains Mono");
    assert_eq!(fonts(&g), vec!["Iosevka Term", "JetBrains Mono"]);
    assert_eq!(g.size, FontSize::Height(18));
    assert_eq!(GuiFont::new().size, FontSize::Height(18));
}

#[test]
fn node_search_goes_left_first_and_keeps_failed_trees() {
    let mut n = Node::new(Vec2::new(0, 0), Vec2::new(u32::MAX, u32::MAX));
    assert_eq!(n.pack(Vec2::new(2, 3), 4), Some(Vec2::new(0, 0)));
    assert_eq!(n.pack(Vec2::new(2, 3), 4), Some(Vec2::new(2, 0)));
    assert_eq!(n.pack(Vec2::new(2, 3), 4), None);
    assert_eq!(n.pack(Vec2::new(2, 3), 8), Some(Vec2::new(0, 3)));
}

#[test]
fn atlas_grows_only_when_the_glyph_does_not_fit() {
    let mut atlas = FontAtlas::new(1);
    atlas.pack(&image(10, 10, ImageContent::Mask, 1)).unwrap();
    assert_eq!(atlas.size(), DEFAULT_SIZE);
    atlas.pack(&image(300, 10, ImageContent::Mask, 1)).unwrap();
    assert_eq!(atlas.size(), 2 * DEFAULT_SIZE);
    assert_eq!(atlas.data().len(), (2 * DEFAULT_SIZE * 2 * DEFAULT_SIZE) as usize);
}

#[test]
fn font_from_bytes_finds_single_fonts_and_collection_members() {
    let single = vec![0, 1, 0, 0, 0, 0, 0, 0];
    let mut f = Font::from_bytes(single.clone(), 0, FontSize::Height(12)).unwrap();
    assert_eq!(f.offset, 0);
    assert_eq!(f.data, single);
    assert_eq!(f.size, FontSize::Height(12));
    f.resize(FontSize::Width(9));
    assert_eq!(f.size, FontSize::Width(9));
    assert_eq!((f.offset, f.data.len()), (0, 8));
    assert!(Font::from_bytes(single, 1, FontSize::Height(12)).is_none());
    assert_eq!(Font::from_bytes(b"OTTO".to_vec(), 0, FontSize::Width(7)).unwrap().offset, 0);
    assert!(Font::from_bytes(vec![1, 2, 3, 4], 0, FontSize::Height(12)).is_none());
    assert!(Font::from_bytes(vec![], 0, FontSize::Height(12)).is_none());

    let mut collection = b"ttcf".to_vec();
    collection.extend_from_slice(&[0, 1, 0, 0]);
    collection.extend_from_slice(&[0, 0, 0, 2]);
    collection.extend_from_slice(&[0, 0, 0, 20]);
    collection.extend_from_slice(&[0, 0, 0, 24]);
    collection.extend_from_slice(b"true");
    collection.extend_from_slice(&[0, 1, 0, 0]);
    assert_eq!(Font::from_bytes(collection.clone(), 0, FontSize::Height(12)).unwrap().offset, 20);
    assert_eq!(Font::from_bytes(collection.clone(), 1, FontSize::Height(12)).unwrap().offset, 24);
    assert!(Font::from_bytes(collection, 2, FontSize::Height(12)).is_none());
}

#[test]
fn get_renders_a_glyph_once_and_reads_it_back() {
    let mut cache = FontCache::new();
    let key = CacheKey { glyph_id: 3, style: FontStyle::Regular, font_index: 0 };
    let first = cache.get(key, || {
        Some(RenderedGlyph { left: 0, top: 5, image: image(3, 4, ImageContent::Mask, 7) })
    });
    assert_eq!(first, Some(CacheValue { index: 0, kind: GlyphKind::Monochrome }));
    let size = cache.monochrome.atlas.size();
    let again = cache.get(key, || panic!("a recorded glyph is not rendered again"));
    assert_eq!(again, first);
    assert_eq!(cache.monochrome.info.len(), 1);
    assert_eq!(cache.monochrome.atlas.size(), size);

    let missing = CacheKey { glyph_id: 4, style: FontStyle::Bold, font_index: 1 };
    assert_eq!(cache.get(missing, || None), None);
    assert_eq!(cache.get(missing, || panic!("a failed glyph is not rendered again")), None);
    assert_eq!(cache.lookup(missing), Some(None));
}
