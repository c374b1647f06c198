//! A cache of rendered glyphs: one atlas of single-channel masks and one of four-channel
//! color images, and a table from glyph, style and font to the glyph's entry.
use super::atlas::{can_double, FontAtlas, GlyphImage, ImageContent};
use super::atlas::node::{rect, Rect};
use super::fonts::FontStyle;
use crate::util::vec2::Vec2;
use vstd::prelude::*;

verus! {

/// Where a cached glyph lies in its atlas and how to place it.
#[derive(Debug, Clone, Copy, PartialEq, Eq)]
pub struct GlyphInfo {
    /// The size of the glyph in pixels
    pub size: Vec2<i32>,
    /// The amount to offset the glyph in pixels
    pub offset: Vec2<i32>,
    /// The upper-left corner of the texture in the glyph atlas
    pub origin: Vec2<i32>,
}

/// A glyph of a font in a style.
#[derive(Debug, Clone, Copy, PartialEq, Eq, Structural, Hash)]
pub struct CacheKey {
    pub glyph_id: u16,
    pub style: FontStyle,
    pub font_index: usize,
}

/// The entry of a cached glyph.
#[derive(Debug, Clone, Copy, PartialEq, Eq, Structural, Hash)]
pub struct CacheValue {
    pub index: usize,
    pub kind: GlyphKind,
}

/// Indicates whether the cache value should be used to index the monochrome or
/// emoji cache entries.
#[derive(Debug, Clone, Copy, PartialEq, Eq, Structural, Hash)]
pub enum GlyphKind {
    Monochrome,
    Emoji,
}

/// A glyph as the scaler rendered it: its image and where it sits relative to the pen.
#[derive(Debug, Clone, PartialEq, Eq)]
pub struct RenderedGlyph {
    /// Horizontal offset of the image from the pen
    pub left: i32,
    /// Vertical offset of the top of the image above the baseline
    pub top: i32,
    pub image: GlyphImage,
}

/// An atlas with the placement of each glyph packed into it.
pub struct Cached {
    pub atlas: FontAtlas,
    pub info: Vec<GlyphInfo>,
    /// Counts the changes to the atlas
    pub revision: u32,
}

impl Cached {
    /// The atlas is consistent and every glyph is placed where its info says.
    pub open spec fn wf(&self) -> bool {
        &&& self.atlas.wf()
        &&& forall|i: int|
            0 <= i < self.info@.len() ==> self.atlas.is_placed(
                #[trigger] info_rect(self.info@[i]),
            )
    }

    /// An empty atlas with `channels` bytes per pixel.
    pub fn new(channels: u32) -> (r: Cached)
        requires
            0 < channels,
            256 * 256 * channels <= usize::MAX,
        ensures
            r.wf(),
            r.atlas.spec_channels() == channels,
            r.info@.len() == 0,
            r.revision == 0,
            forall|q: Rect| !r.atlas.is_placed(q),
    {
        Cached { atlas: FontAtlas::new(channels), info: Vec::new(), revision: 0 }
    }

    /// Empties the atlas and counts the change.
    pub fn clear(&mut self)
        requires
            old(self).atlas.wf(),
            256 * 256 * old(self).atlas.spec_channels() <= usize::MAX,
            old(self).revision < u32::MAX,
        ensures
            final(self).wf(),
            final(self).atlas.spec_channels() == old(self).atlas.spec_channels(),
            final(self).info@.len() == 0,
            final(self).revision == old(self).revision + 1,
            forall|q: Rect| !final(self).atlas.is_placed(q),
    {
        self.atlas.clear();
        self.info.clear();
        self.revision += 1;
    }

    /// Packs a glyph image into the atlas and records where it lies, `left` and `top` being
    /// the image's offset from the pen; it counts the change and returns the glyph's index.
    /// It returns `None`, recording nothing, where the atlas can not hold the image or
    /// places it beyond what an `i32` holds.
    pub fn add(&mut self, image: &GlyphImage, left: i32, top: i32) -> (r: Option<usize>)
        requires
            old(self).wf(),
            old(self).atlas.spec_channels() == channels_for(image.content),
            image.data@.len() == image.width * image.height * channels_for(image.content),
            image.width <= i32::MAX,
            image.height <= i32::MAX,
            top > i32::MIN,
            old(self).revision < u32::MAX,
        ensures
            final(self).wf(),
            final(self).atlas.spec_channels() == old(self).atlas.spec_channels(),
            forall|q: Rect| #[trigger] old(self).atlas.is_placed(q) ==> final(self).atlas.is_placed(q),
            r matches Some(i) ==> {
                let g = final(self).info@[i as int];
                &&& i == old(self).info@.len()
                &&& final(self).info@ == old(self).info@.push(g)
                &&& final(self).revision == old(self).revision + 1
                &&& g.size == (Vec2::<i32> { x: image.width as i32, y: image.height as i32 })
                &&& g.offset.x == left && g.offset.y == -top
                &&& g.origin.x >= 0 && g.origin.y >= 0
                &&& FontAtlas::packed_at(
                    old(self).atlas,
                    final(self).atlas,
                    *image,
                    Vec2 { x: g.origin.x as u32, y: g.origin.y as u32 },
                )
            },
            r is None ==> final(self).info == old(self).info && final(self).revision
                == old(self).revision,
            r is None ==> {
                ||| !can_double(final(self).atlas.spec_size(), final(self).atlas.spec_channels())
                ||| image.width >= u32::MAX - final(self).atlas.spec_size()
                ||| image.height >= u32::MAX - final(self).atlas.spec_size()
                ||| exists|o: Vec2<u32>|
                    #![trigger FontAtlas::packed_at(old(self).atlas, final(self).atlas, *image, o)]
                    FontAtlas::packed_at(old(self).atlas, final(self).atlas, *image, o) && (o.x
                        > i32::MAX || o.y > i32::MAX)
            },
    {
        let ghost before = self.atlas;
        match self.atlas.pack(image) {
            Some(origin) => {
                if origin.x <= 0x7fff_ffff && origin.y <= 0x7fff_ffff {
                    let index = self.info.len();
                    let g = GlyphInfo {
                        size: Vec2::new(image.width as i32, image.height as i32),
                        offset: Vec2::new(left, -top),
                        origin: Vec2::new(origin.x as i32, origin.y as i32),
                    };
                    self.revision += 1;
                    self.info.push(g);
                    proof {
                        assert(info_rect(g) == rect(
                            origin,
                            Vec2 { x: image.width, y: image.height },
                        ));
                        assert forall|i: int| 0 <= i < self.info@.len() implies self.atlas.is_placed(
                            #[trigger] info_rect(self.info@[i]),
                        ) by {
                            if i < index {
                                assert(before.is_placed(info_rect(old(self).info@[i])));
                            }
                        }
                    }
                    Some(index)
                } else {
                    proof {
                        assert(FontAtlas::packed_at(old(self).atlas, self.atlas, *image, origin));
                        assert forall|i: int| 0 <= i < self.info@.len() implies self.atlas.is_placed(
                            #[trigger] info_rect(self.info@[i]),
                        ) by {
                            assert(before.is_placed(info_rect(old(self).info@[i])));
                        }
                    }
                    None
                }
            },
            None => {
                proof {
                    assert forall|i: int| 0 <= i < self.info@.len() implies self.atlas.is_placed(
                        #[trigger] info_rect(self.info@[i]),
                    ) by {
                        assert(before.is_placed(info_rect(old(self).info@[i])));
                    }
                }
                None
            },
        }
    }
}

/// The atlas rectangle of a cached glyph.
pub open spec fn info_rect(g: GlyphInfo) -> Rect {
    (g.origin.x as int, g.origin.y as int, g.size.x as int, g.size.y as int)
}

/// The table entries have distinct keys.
pub open spec fn keys_unique(lut: Seq<(CacheKey, Option<CacheValue>)>) -> bool {
    forall|i: int, j: int| 0 <= i < j < lut.len() ==> lut[i].0 != lut[j].0
}

/// The table as a map.
pub open spec fn lut_map(lut: Seq<(CacheKey, Option<CacheValue>)>) -> Map<CacheKey, Option<CacheValue>> {
    Map::new(
        |k: CacheKey| exists|i: int| 0 <= i < lut.len() && lut[i].0 == k,
        |k: CacheKey| lut[choose|i: int| 0 <= i < lut.len() && lut[i].0 == k].1,
    )
}

/// The channels of the atlas that an image of this content goes to.
pub open spec fn channels_for(content: ImageContent) -> u32 {
    match content {
        ImageContent::Mask => 1,
        _ => 4,
    }
}

/// A rendered glyph the cache can take: its pixels have the size its placement and content
/// say, and its measures fit the atlas's integers.
pub open spec fn fits_cache(rendered: Option<RenderedGlyph>) -> bool {
    rendered matches Some(g) ==> {
        &&& g.image.data@.len() == g.image.width * g.image.height * channels_for(g.image.content)
        &&& g.image.width * g.image.height <= u32::MAX
        &&& g.image.width <= i32::MAX
        &&& g.image.height <= i32::MAX
        &&& g.top > i32::MIN
    }
}

/// A cache of font glyphs
pub struct FontCache {
    pub monochrome: Cached,
    pub emoji: Cached,
    /// Given a glyph, a font, and a font style, the corresponding cache entry. A value of
    /// `None` indicates that the glyph was tried and could not be cached, so it is not
    /// tried again.
    pub lut: Vec<(CacheKey, Option<CacheValue>)>,
}

impl FontCache {
    /// The table: what each glyph that was tried gave.
    pub open spec fn table(&self) -> Map<CacheKey, Option<CacheValue>> {
        lut_map(self.lut@)
    }

    /// Both atlases are consistent, the monochrome one has one channel and the emoji one
    /// four, and every entry of the table names a glyph of its atlas.
    pub open spec fn wf(&self) -> bool {
        &&& self.monochrome.wf()
        &&& self.emoji.wf()
        &&& self.monochrome.atlas.spec_channels() == 1
        &&& self.emoji.atlas.spec_channels() == 4
        &&& keys_unique(self.lut@)
        &&& forall|i: int|
            0 <= i < self.lut@.len() ==> match #[trigger] self.lut@[i].1 {
                Some(v) => v.index < match v.kind {
                    GlyphKind::Monochrome => self.monochrome.info@.len(),
                    GlyphKind::Emoji => self.emoji.info@.len(),
                },
                None => true,
            }
    }

    /// Empty atlases and an empty table.
    pub fn new() -> (r: FontCache)
        ensures
            r.wf(),
            r.table() == Map::<CacheKey, Option<CacheValue>>::empty(),
            r.monochrome.info@.len() == 0,
            r.emoji.info@.len() == 0,
            r.monochrome.revision == 0,
            r.emoji.revision == 0,
    {
        let r = FontCache { monochrome: Cached::new(1), emoji: Cached::new(4), lut: Vec::new() };
        proof {
            assert(r.table() =~= Map::<CacheKey, Option<CacheValue>>::empty());
        }
        r
    }

    /// Remove all cached entries
    pub fn clear(&mut self)
        requires
            old(self).wf(),
            old(self).monochrome.revision < u32::MAX,
            old(self).emoji.revision < u32::MAX,
        ensures
            final(self).wf(),
            final(self).table() == Map::<CacheKey, Option<CacheValue>>::empty(),
            final(self).monochrome.info@.len() == 0,
            final(self).emoji.info@.len() == 0,
            final(self).monochrome.revision == old(self).monochrome.revision + 1,
            final(self).emoji.revision == old(self).emoji.revision + 1,
    {
        self.monochrome.clear();
        self.emoji.clear();
        self.lut.clear();
        proof {
            assert(self.table() =~= Map::<CacheKey, Option<CacheValue>>::empty());
        }
    }

    /// The atlas of glyphs of this kind.
    pub open spec fn cached_of(&self, kind: GlyphKind) -> Cached {
        match kind {
            GlyphKind::Monochrome => self.monochrome,
            GlyphKind::Emoji => self.emoji,
        }
    }

    /// What recording `rendered` as a new glyph does, going from `before` to `after` with
    /// entry `r`: a missing or empty image is a failure that leaves both atlases alone;
    /// otherwise the atlas of the image's kind either takes it as its next glyph, placed with
    /// `packed_at`, or fails only where it cannot grow, the image is too large, or the place
    /// found lies beyond an `i32`; the other atlas stays as it was.
    pub open spec fn recorded(
        before: FontCache,
        after: FontCache,
        rendered: Option<RenderedGlyph>,
        r: Option<CacheValue>,
    ) -> bool {
        &&& (rendered is None || rendered.unwrap().image.width * rendered.unwrap().image.height == 0)
                ==> r is None && after.monochrome == before.monochrome && after.emoji
                == before.emoji
        &&& rendered matches Some(g) ==> g.image.width * g.image.height > 0 ==> {
                let kind = match g.image.content {
                    ImageContent::Mask => GlyphKind::Monochrome,
                    _ => GlyphKind::Emoji,
                };
                let other = match kind {
                    GlyphKind::Monochrome => GlyphKind::Emoji,
                    GlyphKind::Emoji => GlyphKind::Monochrome,
                };
                let was = before.cached_of(kind);
                let now = after.cached_of(kind);
                &&& after.cached_of(other) == before.cached_of(other)
                &&& forall|q: Rect| #[trigger] was.atlas.is_placed(q) ==> now.atlas.is_placed(q)
                &&& r matches Some(v) ==> {
                    let info = now.info@[v.index as int];
                    &&& v == (CacheValue { index: was.info@.len() as usize, kind })
                    &&& now.info@ == was.info@.push(info)
                    &&& now.revision == was.revision + 1
                    &&& info.size == (Vec2::<i32> { x: g.image.width as i32, y: g.image.height as i32 })
                    &&& info.offset.x == g.left && info.offset.y == -g.top
                    &&& info.origin.x >= 0 && info.origin.y >= 0
                    &&& FontAtlas::packed_at(
                        was.atlas,
                        now.atlas,
                        g.image,
                        Vec2 { x: info.origin.x as u32, y: info.origin.y as u32 },
                    )
                }
                &&& r is None ==> now.info == was.info && now.revision == was.revision
                &&& r is None ==> {
                    ||| !can_double(now.atlas.spec_size(), now.atlas.spec_channels())
                    ||| g.image.width >= u32::MAX - now.atlas.spec_size()
                    ||| g.image.height >= u32::MAX - now.atlas.spec_size()
                    ||| exists|o: Vec2<u32>|
                        #![trigger FontAtlas::packed_at(was.atlas, now.atlas, g.image, o)]
                        FontAtlas::packed_at(was.atlas, now.atlas, g.image, o) && (o.x
                            > i32::MAX || o.y > i32::MAX)
                }
            }
    }

    /// Records what rendering a glyph that was never tried gave. A missing or empty image is
    /// recorded as a failure. Otherwise a mask goes into the monochrome atlas and any other
    /// image into the emoji one, and the glyph's entry is its index there; where that atlas
    /// can not hold it, it is recorded as a failure.
    pub fn insert(&mut self, key: CacheKey, rendered: Option<RenderedGlyph>) -> (r: Option<CacheValue>)
        requires
            old(self).wf(),
            !old(self).table().dom().contains(key),
            fits_cache(rendered),
            old(self).monochrome.revision < u32::MAX,
            old(self).emoji.revision < u32::MAX,
        ensures
            final(self).wf(),
            final(self).table() == old(self).table().insert(key, r),
            FontCache::recorded(*old(self), *final(self), rendered, r),
    {
        let ghost lut = self.lut@;
        let r = match rendered {
            Some(g) => {
                let size = Vec2::new(g.image.width, g.image.height);
                if size.area() > 0 {
                    match g.image.content {
                        ImageContent::Mask => match self.monochrome.add(&g.image, g.left, g.top) {
                            Some(index) => Some(CacheValue { index, kind: GlyphKind::Monochrome }),
                            None => None,
                        },
                        _ => match self.emoji.add(&g.image, g.left, g.top) {
                            Some(index) => Some(CacheValue { index, kind: GlyphKind::Emoji }),
                            None => None,
                        },
                    }
                } else {
                    None
                }
            },
            None => None,
        };
        self.lut.push((key, r));
        proof {
            assert forall|i: int, j: int| 0 <= i < j < self.lut@.len() implies self.lut@[i].0
                != self.lut@[j].0 by {
                if j == lut.len() {
                    assert(lut[i].0 != key);
                }
            }
            assert forall|i: int| 0 <= i < self.lut@.len() implies match #[trigger] self.lut@[i].1 {
                Some(v) => v.index < match v.kind {
                    GlyphKind::Monochrome => self.monochrome.info@.len(),
                    GlyphKind::Emoji => self.emoji.info@.len(),
                },
                None => true,
            } by {
                if i < lut.len() {
                    assert(self.lut@[i] == lut[i]);
                }
            }
            assert forall|k: CacheKey| #[trigger] self.table().dom().contains(k) == old(self).table().insert(key, r).dom().contains(k) by {
                if k == key {
                    assert(self.lut@[lut.len() as int].0 == key);
                } else if old(self).table().dom().contains(k) {
                    let i = choose|i: int| 0 <= i < lut.len() && lut[i].0 == k;
                    assert(self.lut@[i].0 == k);
                } else if self.table().dom().contains(k) {
                    let i = choose|i: int| 0 <= i < self.lut@.len() && self.lut@[i].0 == k;
                    assert(lut[i].0 == k);
                }
            }
            assert forall|k: CacheKey| #[trigger] self.table().dom().contains(k) implies self.table()[k] == old(self).table().insert(key, r)[k] by {
                let i = choose|i: int| 0 <= i < self.lut@.len() && self.lut@[i].0 == k;
                if k == key {
                    assert(self.lut@[lut.len() as int].0 == key);
                    if i != lut.len() {
                        assert(self.lut@[i].0 == self.lut@[lut.len() as int].0);
                    }
                } else {
                    assert(i < lut.len());
                    assert(lut[i].0 == k);
                    let i2 = choose|i2: int| 0 <= i2 < lut.len() && lut[i2].0 == k;
                    if i2 != i {
                        assert(lut[i2].0 == lut[i].0);
                    }
                }
            }
            assert(self.table() =~= old(self).table().insert(key, r));
        }
        r
    }

    /// What the table holds for a glyph: `None` where it was never tried.
    pub fn lookup(&self, key: CacheKey) -> (r: Option<Option<CacheValue>>)
        requires
            self.wf(),
        ensures
            r == (if self.table().dom().contains(key) {
                Some(self.table()[key])
            } else {
                None
            }),
    {
        let mut i: usize = 0;
        while i < self.lut.len()
            invariant
                self.wf(),
                i <= self.lut@.len(),
                forall|j: int| 0 <= j < i ==> #[trigger] self.lut@[j].0 != key,
            decreases self.lut@.len() - i,
        {
            if self.lut[i].0 == key {
                proof {
                    assert(self.lut@[i as int].0 == key);
                    let k = choose|k: int| 0 <= k < self.lut@.len() && self.lut@[k].0 == key;
                    if k != i as int {
                        assert(self.lut@[k].0 == self.lut@[i as int].0);
                    }
                }
                return Some(self.lut[i].1);
            }
            i += 1;
        }
        None
    }
}

impl FontCache {
    /// Get an existing cache entry or attempt to create it: where the glyph was tried
    /// before, what was recorded for it, with nothing rendered and nothing changed; otherwise
    /// `render` draws it and what it gives is recorded as `insert` records it.
    pub fn get<F>(&mut self, key: CacheKey, render: F) -> (r: Option<CacheValue>) where
        F: FnOnce() -> Option<RenderedGlyph>,

        requires
            old(self).wf(),
            old(self).monochrome.revision < u32::MAX,
            old(self).emoji.revision < u32::MAX,
            !old(self).table().dom().contains(key) ==> call_requires(render, ()),
            forall|g: Option<RenderedGlyph>| #[trigger] call_ensures(render, (), g) ==> fits_cache(g),
        ensures
            final(self).wf(),
            final(self).table() == old(self).table().insert(key, r),
            old(self).table().dom().contains(key) ==> r == old(self).table()[key] && *final(self)
                == *old(self),
            !old(self).table().dom().contains(key) ==> exists|g: Option<RenderedGlyph>|
                #[trigger] call_ensures(render, (), g) && FontCache::recorded(
                    *old(self),
                    *final(self),
                    g,
                    r,
                ),
    {
        match self.lookup(key) {
            Some(entry) => {
                proof {
                    assert(self.table().insert(key, entry) =~= self.table());
                }
                entry
            },
            None => {
                let rendered = render();
                self.insert(key, rendered)
            },
        }
    }
}

/// Asking for a glyph a second time, with no clearing in between, gives what the first
/// request gave and changes nothing: `first` and `second` are the caches before and after
/// the second `get`, and the two requests' entries are `r1` and `r2`.
pub proof fn repeated_get_reads_back(
    before: FontCache,
    first: FontCache,
    second: FontCache,
    key: CacheKey,
    r1: Option<CacheValue>,
    r2: Option<CacheValue>,
)
    requires
        first.table() == before.table().insert(key, r1),
        first.table().dom().contains(key) ==> r2 == first.table()[key] && second == first,
    ensures
        r2 == r1,
        second == first,
{
}

/// Once a glyph is recorded, the table gives what was recorded for it, and for every other
/// glyph what it gave before.
pub proof fn recorded_glyph_reads_back(before: FontCache, after: FontCache, key: CacheKey, r: Option<CacheValue>)
    requires
        after.table() == before.table().insert(key, r),
    ensures
        after.table().dom().contains(key),
        after.table()[key] == r,
        forall|k: CacheKey|
            k != key ==> (#[trigger] after.table().dom().contains(k) == before.table().dom().contains(k)
                && (before.table().dom().contains(k) ==> after.table()[k] == before.table()[k])),
{
}

} // verus!
