//! A glyph atlas: a square texture that glyph images are packed into, which doubles in size
//! whenever a glyph does not fit.
pub mod node;

use crate::util::vec2::Vec2;
use node::{rect, Node, Rect};
use vstd::prelude::*;

verus! {

pub const DEFAULT_SIZE: u32 = 256;

/// What the pixels of a glyph image hold.
#[derive(Debug, Clone, Copy, PartialEq, Eq)]
pub enum ImageContent {
    /// One coverage channel.
    Mask,
    /// Four channels of subpixel coverage.
    SubpixelMask,
    /// Four color channels.
    Color,
}

/// A rendered glyph: `width` by `height` pixels, row by row.
#[derive(Debug, Clone, PartialEq, Eq)]
pub struct GlyphImage {
    pub width: u32,
    pub height: u32,
    pub content: ImageContent,
    pub data: Vec<u8>,
}

/// The index of channel `k` of pixel `(x, y)` in a square texture of side `s` with `ch`
/// channels.
pub open spec fn texel_index(s: int, ch: int, x: int, y: int, k: int) -> int {
    (y * s + x) * ch + k
}

/// Channel `k` of pixel `(x, y)`.
pub open spec fn texel(data: Seq<u8>, s: int, ch: int, x: int, y: int, k: int) -> u8 {
    data[texel_index(s, ch, x, y, k)]
}

/// Texel indices are in bounds.
pub proof fn lemma_texel_bounds(s: int, ch: int, x: int, y: int, k: int)
    requires
        0 <= x < s,
        0 <= y < s,
        0 <= k < ch,
    ensures
        0 <= texel_index(s, ch, x, y, k) < s * s * ch,
        texel_index(s, ch, x, y, k) == y * (s * ch) + x * ch + k,
{
    assert(0 <= y * s + x) by (nonlinear_arith)
        requires
            0 <= x,
            0 <= y,
            0 < s,
    ;
    assert(y * s + x < s * s) by (nonlinear_arith)
        requires
            0 <= x < s,
            0 <= y < s,
    ;
    assert(0 <= (y * s + x) * ch) by (nonlinear_arith)
        requires
            0 <= y * s + x,
            0 < ch,
    ;
    assert((y * s + x) * ch + k < s * s * ch) by (nonlinear_arith)
        requires
            y * s + x < s * s,
            0 <= k < ch,
    ;
    assert((y * s + x) * ch == y * (s * ch) + x * ch) by (nonlinear_arith);
}

/// Channel `k` of pixel `x` lies in the byte range of the pixels `[a, b)` of its row exactly
/// when `x` lies in `[a, b)`.
pub proof fn lemma_flat_range(ch: int, x: int, k: int, a: int, b: int)
    requires
        0 < ch,
        0 <= k < ch,
    ensures
        (a <= x < b) <==> (a * ch <= x * ch + k < b * ch),
{
    if a <= x {
        assert(a * ch <= x * ch) by (nonlinear_arith)
            requires
                a <= x,
                0 < ch,
        ;
    } else {
        assert(x * ch + ch <= a * ch) by (nonlinear_arith)
            requires
                x + 1 <= a,
                0 < ch,
        ;
    }
    if x < b {
        assert(x * ch + ch <= b * ch) by (nonlinear_arith)
            requires
                x + 1 <= b,
                0 < ch,
        ;
    } else {
        assert(b * ch <= x * ch) by (nonlinear_arith)
            requires
                b <= x,
                0 < ch,
        ;
    }
}

/// A texture of side `size` with `channels` bytes per pixel can double: the doubled side
/// fits a `u32` below half its range, and the doubled texture's rows and bytes fit a
/// `usize`.
pub open spec fn can_double(size: u32, channels: u32) -> bool {
    &&& size < u32::MAX / 2
    &&& 2 * size * channels <= usize::MAX
    &&& 2 * size * channels * (2 * size) <= usize::MAX
}

/// The side `size` doubled `m` times.
pub open spec fn doubled(size: u32, m: nat) -> int {
    size * vstd::arithmetic::power2::pow2(m)
}

/// A side doubled no times is itself.
proof fn lemma_doubled_zero(size: u32)
    ensures
        doubled(size, 0) == size,
{
    vstd::arithmetic::power::lemma_pow0(2);
    assert(vstd::arithmetic::power2::pow2(0) == 1);
}

/// One more doubling doubles the side.
proof fn lemma_doubled_step(size: u32, m: nat)
    ensures
        doubled(size, m + 1) == 2 * doubled(size, m),
{
    vstd::arithmetic::power2::lemma_pow2_unfold(m + 1);
    let p = vstd::arithmetic::power2::pow2(m);
    assert(size * (2 * p) == 2 * (size * p)) by (nonlinear_arith);
}

/// A glyph atlas.
pub struct FontAtlas {
    /// x and y dimensions of the texture
    size: u32,
    /// Root of the glyph tree
    root: Node,
    /// Glyph atlas image data
    data: Vec<u8>,
    /// The number of color channels
    channels: u32,
}

impl FontAtlas {
    /// The atlas is consistent: the texture holds `size * size` pixels of `channels` bytes and
    /// the tree of placed glyphs is well formed for it and starts at the texture's corner.
    pub closed spec fn wf(&self) -> bool {
        &&& self.data@.len() == self.size * self.size * self.channels
        &&& 0 < self.size < u32::MAX
        &&& 0 < self.channels
        &&& self.root.wf(self.size as int)
        &&& self.root.spec_origin() == (Vec2::<u32> { x: 0, y: 0 })
        &&& self.root.spec_size() == (Vec2::<u32> { x: u32::MAX, y: u32::MAX })
    }

    pub closed spec fn spec_size(&self) -> u32 {
        self.size
    }

    pub closed spec fn spec_channels(&self) -> u32 {
        self.channels
    }

    pub closed spec fn spec_data(&self) -> Seq<u8> {
        self.data@
    }

    /// Where the atlas's tree would place a glyph of `glyph` pixels in a texture of side `t`.
    pub closed spec fn placement_at(&self, glyph: Vec2<u32>, t: int) -> Option<Vec2<u32>> {
        self.root.placement(glyph, t)
    }

    /// `r` is the rectangle of a glyph packed in the atlas.
    pub closed spec fn is_placed(&self, r: Rect) -> bool {
        self.root.is_placed(r)
    }

    /// An empty atlas of the default size with `channels` bytes per pixel.
    pub fn new(channels: u32) -> (r: FontAtlas)
        requires
            0 < channels,
            256 * 256 * channels <= usize::MAX,
        ensures
            r.wf(),
            r.spec_size() == DEFAULT_SIZE,
            r.spec_channels() == channels,
            r.spec_data().len() == DEFAULT_SIZE * DEFAULT_SIZE * channels,
            forall|i: int| 0 <= i < r.spec_data().len() ==> #[trigger] r.spec_data()[i] == 0,
            forall|q: Rect| !r.is_placed(q),
    {
        let n = (DEFAULT_SIZE as usize) * (DEFAULT_SIZE as usize) * (channels as usize);
        let data = zeroed(n);
        let root = Node::new(Vec2::new(0, 0), Vec2::new(u32::MAX, u32::MAX));
        proof {
            assert(node::extent_ok(0, u32::MAX as int, DEFAULT_SIZE as int));
        }
        FontAtlas { channels, size: DEFAULT_SIZE, root, data }
    }

    /// Empties the atlas and brings it back to the default size.
    pub fn clear(&mut self)
        requires
            old(self).wf(),
            256 * 256 * old(self).spec_channels() <= usize::MAX,
        ensures
            final(self).wf(),
            final(self).spec_size() == DEFAULT_SIZE,
            final(self).spec_channels() == old(self).spec_channels(),
            final(self).spec_data().len() == DEFAULT_SIZE * DEFAULT_SIZE * old(self).spec_channels(),
            forall|i: int| 0 <= i < final(self).spec_data().len() ==> #[trigger] final(self).spec_data()[i] == 0,
            forall|q: Rect| !final(self).is_placed(q),
    {
        self.size = DEFAULT_SIZE;
        self.root = Node::new(Vec2::new(0, 0), Vec2::new(u32::MAX, u32::MAX));
        proof {
            assert(node::extent_ok(0, u32::MAX as int, DEFAULT_SIZE as int));
        }
        let n = (DEFAULT_SIZE as usize) * (DEFAULT_SIZE as usize) * (self.channels as usize);
        self.data = zeroed(n);
    }

    /// Doubles the side of the texture, keeping every pixel where it was and zeroing the new
    /// ones; it does not grow (and returns `false`) where the doubled texture would not fit a
    /// `u32` side or a `usize` length.
    fn grow(&mut self) -> (grown: bool)
        requires
            old(self).wf(),
        ensures
            final(self).wf(),
            final(self).spec_channels() == old(self).spec_channels(),
            forall|q: Rect| #[trigger] final(self).is_placed(q) == old(self).is_placed(q),
            grown == can_double(old(self).spec_size(), old(self).spec_channels()),
            final(self).root == old(self).root,
            !grown ==> final(self).spec_size() == old(self).spec_size() && final(self).spec_data()
                == old(self).spec_data(),
            grown ==> final(self).spec_size() == 2 * old(self).spec_size(),
            forall|x: int, y: int, k: int|
                0 <= x < final(self).spec_size() && 0 <= y < final(self).spec_size() && 0 <= k
                    < final(self).spec_channels() ==> #[trigger] texel(
                    final(self).spec_data(),
                    final(self).spec_size() as int,
                    final(self).spec_channels() as int,
                    x,
                    y,
                    k,
                ) == if x < old(self).spec_size() && y < old(self).spec_size() {
                    texel(
                        old(self).spec_data(),
                        old(self).spec_size() as int,
                        old(self).spec_channels() as int,
                        x,
                        y,
                        k,
                    )
                } else {
                    0
                },
    {
        let ghost s = self.size as int;
        let ghost ch = self.channels as int;
        let ghost old_data = self.data@;
        if self.size >= u32::MAX / 2 {
            proof {
                self.lemma_texels_same();
            }
            return false;
        }
        let new_size = self.size * 2;
        let side = new_size as usize;
        let row = match side.checked_mul(self.channels as usize) {
            Some(r) => r,
            None => {
                proof {
                    self.lemma_texels_same();
                }
                return false;
            },
        };
        let total = match row.checked_mul(side) {
            Some(t) => t,
            None => {
                proof {
                    self.lemma_texels_same();
                }
                return false;
            },
        };
        let old_len = self.data.len();
        proof {
            assert(self.size * self.channels <= self.size * self.size * self.channels) by (nonlinear_arith)
                requires
                    0 < self.size,
                    0 < self.channels,
            ;
        }
        let old_row = (self.size as usize) * (self.channels as usize);
        proof {
            assert(old_row == s * ch) by (nonlinear_arith)
                requires
                    old_row == self.size * self.channels,
                    s == self.size,
                    ch == self.channels,
            ;
            assert(row == 2 * s * ch) by (nonlinear_arith)
                requires
                    row == side * self.channels,
                    side == 2 * s,
                    ch == self.channels,
            ;
            assert(total == new_size * new_size * self.channels) by (nonlinear_arith)
                requires
                    total == row * side,
                    row == side * self.channels,
                    side == new_size,
            ;
            assert(old_row <= row) by (nonlinear_arith)
                requires
                    old_row == s * ch,
                    row == 2 * s * ch,
                    0 < s,
                    0 < ch,
            ;
        }
        let mut data = zeroed(total);
        proof {
            assert forall|yy: int, j: int|
                0 <= yy < 2 * s && 0 <= j < row implies #[trigger] data@[yy * row + j] == if yy < 0
                && j < old_row {
                old_data[yy * old_row + j]
            } else {
                0
            } by {
                crate::ui::grid::lemma_index(row as int, 2 * s, j, yy);
                assert(row * (2 * s) == 2 * s * row) by (nonlinear_arith);
            }
        }
        let mut y: usize = 0;
        while y < self.size as usize
            invariant
                self.wf(),
                self.size == s,
                self.channels == ch,
                self.data@ == old_data,
                old_row == s * ch,
                row == 2 * s * ch,
                old_row <= row,
                total == row * (2 * s),
                data@.len() == total,
                y <= s,
                forall|yy: int, j: int|
                    0 <= yy < 2 * s && 0 <= j < row ==> #[trigger] data@[yy * row + j] == if yy < y
                        && j < old_row {
                        old_data[yy * old_row + j]
                    } else {
                        0
                    },
            decreases s - y,
        {
            let mut j: usize = 0;
            while j < old_row
                invariant
                    self.wf(),
                    self.size == s,
                    self.channels == ch,
                    self.data@ == old_data,
                    old_row == s * ch,
                    row == 2 * s * ch,
                    old_row <= row,
                    total == row * (2 * s),
                    data@.len() == total,
                    y < s,
                    j <= old_row,
                    forall|yy: int, jj: int|
                        0 <= yy < 2 * s && 0 <= jj < row ==> #[trigger] data@[yy * row + jj] == if (yy
                            < y && jj < old_row) || (yy == y && jj < j) {
                            old_data[yy * old_row + jj]
                        } else {
                            0
                        },
                decreases old_row - j,
            {
                let _ = self.data.len();
                proof {
                    crate::ui::grid::lemma_index(row as int, 2 * s, j as int, y as int);
                    crate::ui::grid::lemma_index(old_row as int, s, j as int, y as int);
                    assert(row * (2 * s) == 2 * s * row) by (nonlinear_arith);
                    assert(old_row * s == s * old_row) by (nonlinear_arith);
                    assert(old_data.len() == s * old_row) by (nonlinear_arith)
                        requires
                            old_data.len() == s * s * ch,
                            old_row == s * ch,
                    ;
                }
                let ghost before = data@;
                let dst = y * row + j;
                let src = y * old_row + j;
                data.set(dst, self.data[src]);
                proof {
                    assert forall|yy: int, jj: int|
                        0 <= yy < 2 * s && 0 <= jj < row implies #[trigger] data@[yy * row + jj] == if (
                        yy < y && jj < old_row) || (yy == y && jj < j + 1) {
                            old_data[yy * old_row + jj]
                        } else {
                            0
                        } by {
                        crate::ui::grid::lemma_index(row as int, 2 * s, jj, yy);
                        if yy * row + jj == dst {
                            crate::ui::grid::lemma_index_unique(row as int, jj, yy, j as int, y as int);
                        } else {
                            assert(data@[yy * row + jj] == before[yy * row + jj]);
                        }
                    }
                }
                j += 1;
            }
            y += 1;
        }
        self.size = new_size;
        self.data = data;
        proof {
            self.root.lemma_wf_grow(s, 2 * s);
            assert forall|x: int, yy: int, k: int|
                0 <= x < 2 * s && 0 <= yy < 2 * s && 0 <= k < ch implies #[trigger] texel(
                self.data@,
                2 * s,
                ch,
                x,
                yy,
                k,
            ) == if x < s && yy < s {
                texel(old_data, s, ch, x, yy, k)
            } else {
                0
            } by {
                lemma_texel_bounds(2 * s, ch, x, yy, k);
                assert(2 * s * ch == row);
                lemma_flat_range(ch, x, k, 0, s);
                assert(0 <= x * ch + k) by (nonlinear_arith)
                    requires
                        0 <= x,
                        0 <= k,
                        0 < ch,
                ;
                assert(x * ch + k < row) by (nonlinear_arith)
                    requires
                        x < 2 * s,
                        0 <= k < ch,
                        row == 2 * s * ch,
                ;
                assert(texel_index(2 * s, ch, x, yy, k) == yy * row + (x * ch + k));
                if x < s && yy < s {
                    lemma_texel_bounds(s, ch, x, yy, k);
                    assert(texel_index(s, ch, x, yy, k) == yy * old_row + (x * ch + k));
                }
            }
        }
        true
    }

    /// `new` is `old` with `image` packed at `o`: it fits the texture, takes a free place,
    /// leaves the pixels of the glyphs already placed as they were and holds the image's
    /// pixels there.
    pub open spec fn packed_at(old: FontAtlas, new: FontAtlas, image: GlyphImage, o: Vec2<u32>) -> bool {
        &&& o.x + image.width <= new.spec_size()
        &&& o.y + image.height <= new.spec_size()
        &&& forall|q: Rect| #[trigger]
            new.is_placed(q) == (old.is_placed(q) || q == rect(
                o,
                Vec2 { x: image.width, y: image.height },
            ))
        &&& forall|q: Rect| #[trigger]
            old.is_placed(q) ==> node::rect_disjoint(
                q,
                rect(o, Vec2 { x: image.width, y: image.height }),
            )
        &&& forall|q: Rect, x: int, y: int, k: int|
            #![trigger old.is_placed(q), texel(new.spec_data(), new.spec_size() as int, new.spec_channels() as int, x, y, k)]
            old.is_placed(q) && q.0 <= x < q.0 + q.2 && q.1 <= y < q.1 + q.3 && 0 <= k
                < old.spec_channels() ==> texel(
                new.spec_data(),
                new.spec_size() as int,
                new.spec_channels() as int,
                x,
                y,
                k,
            ) == texel(
                old.spec_data(),
                old.spec_size() as int,
                old.spec_channels() as int,
                x,
                y,
                k,
            )
        &&& forall|c: int, row: int, k: int|
            0 <= c < image.width && 0 <= row < image.height && 0 <= k
                < new.spec_channels() ==> #[trigger] texel(
                new.spec_data(),
                new.spec_size() as int,
                new.spec_channels() as int,
                o.x + c,
                o.y + row,
                k,
            ) == image.data@[(row * image.width + c) * new.spec_channels() + k]
    }

    /// Places a glyph image in the atlas, doubling the texture until the glyph fits, and
    /// copies its pixels in. It returns the glyph's origin, or `None` where the texture can not
    /// grow any further or the glyph is as wide or tall as the `u32` range less the texture.
    pub fn pack(&mut self, image: &GlyphImage) -> (r: Option<Vec2<u32>>)
        requires
            old(self).wf(),
            match image.content {
                ImageContent::Mask => old(self).spec_channels() == 1,
                _ => old(self).spec_channels() == 4,
            },
            image.data@.len() == image.width * image.height * old(self).spec_channels(),
        ensures
            final(self).wf(),
            final(self).spec_channels() == old(self).spec_channels(),
            final(self).spec_size() >= old(self).spec_size(),
            r is None ==> forall|q: Rect| #[trigger]
                final(self).is_placed(q) == old(self).is_placed(q),
            final(self).spec_data().len() == final(self).spec_size() * final(self).spec_size()
                * final(self).spec_channels(),
            exists|m: nat|
                #![trigger doubled(old(self).spec_size(), m)]
                final(self).spec_size() == doubled(old(self).spec_size(), m) && forall|j: nat|
                    j < m ==> (#[trigger] old(self).placement_at(
                        Vec2 { x: image.width, y: image.height },
                        doubled(old(self).spec_size(), j),
                    )) is None,
            r matches Some(o) ==> old(self).placement_at(
                Vec2 { x: image.width, y: image.height },
                final(self).spec_size() as int,
            ) == Some(o),
            r is None ==> !can_double(final(self).spec_size(), final(self).spec_channels())
                || image.width >= u32::MAX - final(self).spec_size() || image.height >= u32::MAX
                - final(self).spec_size(),
            r matches Some(o) ==> FontAtlas::packed_at(*old(self), *final(self), *image, o),
            forall|x: int, y: int, k: int|
                0 <= x < final(self).spec_size() && 0 <= y < final(self).spec_size() && 0 <= k
                    < final(self).spec_channels() && !(r matches Some(o) && o.x <= x < o.x
                    + image.width && o.y <= y < o.y + image.height) ==> #[trigger] texel(
                    final(self).spec_data(),
                    final(self).spec_size() as int,
                    final(self).spec_channels() as int,
                    x,
                    y,
                    k,
                ) == if x < old(self).spec_size() && y < old(self).spec_size() {
                    texel(
                        old(self).spec_data(),
                        old(self).spec_size() as int,
                        old(self).spec_channels() as int,
                        x,
                        y,
                        k,
                    )
                } else {
                    0
                },
    {
        let ghost s0 = self.size as int;
        let ghost d0 = self.data@;
        let ghost ch = self.channels as int;
        let glyph = Vec2::new(image.width, image.height);
        let mut found: Option<Vec2<u32>> = None;
        let ghost mut m: nat = 0;
        let ghost root0 = self.root;
        proof {
            vstd::arithmetic::power::lemma_pow0(2);
            assert(vstd::arithmetic::power2::pow2(0) == 1);
            lemma_doubled_zero(old(self).size);
        }
        while found.is_none()
            invariant
                self.wf(),
                root0 == old(self).root,
                self.size == doubled(old(self).size, m),
                forall|j: nat|
                    j < m ==> (#[trigger] old(self).placement_at(glyph, doubled(old(self).size, j)))
                        is None,
                found is None ==> self.root == root0,
                found matches Some(o) ==> old(self).placement_at(glyph, self.size as int) == Some(o),
                s0 == old(self).size,
                ch == old(self).channels,
                d0 == old(self).data@,
                self.channels == ch,
                self.size >= s0,
                glyph.x == image.width,
                glyph.y == image.height,
                found is None ==> forall|q: Rect| #[trigger] self.is_placed(q) == old(self).is_placed(q),
                found matches Some(o) ==> {
                    &&& o.x + glyph.x <= self.size
                    &&& o.y + glyph.y <= self.size
                    &&& forall|q: Rect| #[trigger]
                        self.is_placed(q) == (old(self).is_placed(q) || q == rect(o, glyph))
                    &&& forall|q: Rect| #[trigger]
                        old(self).is_placed(q) ==> node::rect_disjoint(q, rect(o, glyph))
                },
                forall|x: int, y: int, k: int|
                    0 <= x < self.size && 0 <= y < self.size && 0 <= k < ch ==> #[trigger] texel(
                        self.data@,
                        self.size as int,
                        ch,
                        x,
                        y,
                        k,
                    ) == if x < s0 && y < s0 {
                        texel(d0, s0, ch, x, y, k)
                    } else {
                        0
                    },
            decreases u32::MAX - self.size, if found is None {
                1int
            } else {
                0
            },
        {
            if glyph.x >= u32::MAX - self.size || glyph.y >= u32::MAX - self.size {
                return None;
            }
            let ghost pre = *self;
            match self.root.pack(glyph, self.size) {
                Some(o) => {
                    found = Some(o);
                    assert(old(self).placement_at(glyph, self.size as int) == Some(o));
                    proof {
                        assert forall|q: Rect| #[trigger]
                            self.is_placed(q) == (old(self).is_placed(q) || q == rect(o, glyph)) by {
                            assert(self.root.is_placed(q) == (pre.root.is_placed(q) || q == rect(o, glyph)));
                            assert(pre.is_placed(q) == old(self).is_placed(q));
                        }
                        assert forall|q: Rect| #[trigger]
                            old(self).is_placed(q) implies node::rect_disjoint(q, rect(o, glyph)) by {
                            assert(pre.is_placed(q) == old(self).is_placed(q));
                            assert(pre.root.is_placed(q));
                        }
                    }
                },
                None => {
                    let ghost before = self.data@;
                    let ghost size_before = self.size as int;
                    let ghost atlas_before = *self;
                    if !self.grow() {
                        proof {
                            assert forall|q: Rect| #[trigger]
                                self.is_placed(q) == old(self).is_placed(q) by {
                                assert(self.is_placed(q) == atlas_before.is_placed(q));
                                assert(atlas_before.root.is_placed(q) == pre.root.is_placed(q));
                                assert(pre.is_placed(q) == old(self).is_placed(q));
                            }
                        }
                        return None;
                    }
                    proof {
                        assert(old(self).placement_at(glyph, doubled(old(self).size, m)) is None);
                        vstd::arithmetic::power2::lemma_pow2_unfold(m + 1);
                        lemma_doubled_step(old(self).size, m);
                        assert forall|j: nat|
                            j < m + 1 implies (#[trigger] old(self).placement_at(
                                glyph,
                                doubled(old(self).size, j),
                            )) is None by {}
                        m = m + 1;
                        assert forall|q: Rect| #[trigger]
                            self.is_placed(q) == old(self).is_placed(q) by {
                            assert(self.is_placed(q) == atlas_before.is_placed(q));
                            assert(atlas_before.root.is_placed(q) == pre.root.is_placed(q));
                            assert(pre.is_placed(q) == old(self).is_placed(q));
                        }
                        assert(self.spec_data() == self.data@);
                        assert(self.spec_size() == self.size);
                        assert(self.spec_channels() == ch);
                        assert(atlas_before.spec_data() == before);
                        assert(atlas_before.spec_size() == size_before);
                        assert forall|x: int, y: int, k: int|
                            0 <= x < self.size && 0 <= y < self.size && 0 <= k < ch implies #[trigger] texel(
                            self.data@,
                            self.size as int,
                            ch,
                            x,
                            y,
                            k,
                        ) == if x < s0 && y < s0 {
                            texel(d0, s0, ch, x, y, k)
                        } else {
                            0
                        } by {
                            assert(texel(
                                self.spec_data(),
                                self.spec_size() as int,
                                self.spec_channels() as int,
                                x,
                                y,
                                k,
                            ) == if x < atlas_before.spec_size() && y < atlas_before.spec_size() {
                                texel(
                                    atlas_before.spec_data(),
                                    atlas_before.spec_size() as int,
                                    atlas_before.spec_channels() as int,
                                    x,
                                    y,
                                    k,
                                )
                            } else {
                                0
                            });
                            if x < size_before && y < size_before {
                                assert(texel(before, size_before, ch, x, y, k) == if x < s0 && y < s0 {
                                    texel(d0, s0, ch, x, y, k)
                                } else {
                                    0
                                });
                            }
                        }
                    }
                },
            }
        }
        let o = match found {
            Some(o) => o,
            None => {
                proof {
                    assert(false);
                }
                return None;
            },
        };
        let ghost base = self.data@;
        let ghost root0 = self.root;
        proof {
            assert(forall|q: Rect| #[trigger]
                self.is_placed(q) == (old(self).is_placed(q) || q == rect(o, glyph)));
            assert forall|q: Rect| #[trigger]
                root0.is_placed(q) == (old(self).is_placed(q) || q == rect(o, glyph)) by {
                assert(self.is_placed(q) == root0.is_placed(q));
            }
        }
        let ghost s = self.size as int;
        let total = self.data.len();
        let _ = image.data.len();
        proof {
            assert(image.data@.len() == image.height * (image.width * ch)) by (nonlinear_arith)
                requires
                    image.data@.len() == image.width * image.height * ch,
            ;
            assert(self.size * self.channels <= self.size * self.size * self.channels) by (nonlinear_arith)
                requires
                    0 < self.size,
                    0 < self.channels,
            ;
            assert(o.x * ch + image.width * ch <= s * ch) by (nonlinear_arith)
                requires
                    o.x + image.width <= s,
                    0 < ch,
            ;
            assert(0 <= o.x * ch && 0 <= image.width * ch) by (nonlinear_arith)
                requires
                    0 < ch,
            ;
        }
        let row_len = (self.size as usize) * (self.channels as usize);
        let glyph_row = (image.width as usize) * (self.channels as usize);
        let x0 = (o.x as usize) * (self.channels as usize);
        proof {
            assert(base.len() == s * row_len) by (nonlinear_arith)
                requires
                    base.len() == s * s * ch,
                    row_len == s * ch,
            ;
        }
        let mut r: usize = 0;
        while r < image.height as usize
            invariant
                self.wf(),
                self.root == root0,
                self.size == s,
                self.channels == ch,
                row_len == s * ch,
                glyph_row == image.width * ch,
                x0 == o.x * ch,
                o.x + image.width <= s,
                o.y + image.height <= s,
                self.data@.len() == base.len(),
                r <= image.height,
                base.len() == s * row_len,
                x0 + glyph_row <= row_len,
                total == base.len(),
                ch > 0,
                image.data@.len() == image.height * glyph_row,
                forall|yy: int, j: int|
                    0 <= yy < s && 0 <= j < row_len ==> #[trigger] self.data@[yy * row_len + j] == if o.y
                        <= yy < o.y + r && x0 <= j < x0 + glyph_row {
                        image.data@[(yy - o.y) * glyph_row + (j - x0)]
                    } else {
                        base[yy * row_len + j]
                    },
            decreases image.height - r,
        {
            let mut j: usize = 0;
            while j < glyph_row
                invariant
                    self.wf(),
                    self.root == root0,
                    self.size == s,
                    self.channels == ch,
                    row_len == s * ch,
                    glyph_row == image.width * ch,
                    x0 == o.x * ch,
                    o.x + image.width <= s,
                    o.y + image.height <= s,
                    self.data@.len() == base.len(),
                    r < image.height,
                    j <= glyph_row,
                    base.len() == s * row_len,
                    x0 + glyph_row <= row_len,
                    total == base.len(),
                    ch > 0,
                    image.data@.len() == image.height * glyph_row,
                    forall|yy: int, jj: int|
                        0 <= yy < s && 0 <= jj < row_len ==> #[trigger] self.data@[yy * row_len + jj]
                            == if (o.y <= yy < o.y + r && x0 <= jj < x0 + glyph_row) || (yy == o.y + r
                            && x0 <= jj < x0 + j) {
                            image.data@[(yy - o.y) * glyph_row + (jj - x0)]
                        } else {
                            base[yy * row_len + jj]
                        },
                decreases glyph_row - j,
            {
                let ghost before = self.data@;
                let _ = image.data.len();
                proof {
                    crate::ui::grid::lemma_index(row_len as int, s, x0 + j, o.y + r);
                    crate::ui::grid::lemma_index(glyph_row as int, image.height as int, j as int, r as int);
                    assert(row_len * s == s * row_len) by (nonlinear_arith);
                    assert(glyph_row * image.height == image.height * glyph_row) by (nonlinear_arith);
                }
                let dst = (o.y as usize + r) * row_len + x0 + j;
                let src = r * glyph_row + j;
                self.data.set(dst, image.data[src]);
                proof {
                    assert forall|yy: int, jj: int|
                        0 <= yy < s && 0 <= jj < row_len implies #[trigger] self.data@[yy * row_len + jj]
                        == if (o.y <= yy < o.y + r && x0 <= jj < x0 + glyph_row) || (yy == o.y + r
                        && x0 <= jj < x0 + j + 1) {
                        image.data@[(yy - o.y) * glyph_row + (jj - x0)]
                    } else {
                        base[yy * row_len + jj]
                    } by {
                        crate::ui::grid::lemma_index(row_len as int, s, jj, yy);
                        if yy * row_len + jj == dst {
                            crate::ui::grid::lemma_index_unique(row_len as int, jj, yy, x0 + j, o.y + r);
                        } else {
                            assert(self.data@[yy * row_len + jj] == before[yy * row_len + jj]);
                        }
                    }
                }
                j += 1;
            }
            r += 1;
        }
        proof {
            assert(self.spec_data() == self.data@);
            assert(self.spec_size() == s);
            assert(self.spec_channels() == ch);
            assert forall|c: int, row: int, k: int|
                0 <= c < image.width && 0 <= row < image.height && 0 <= k < ch implies #[trigger] texel(
                self.data@,
                s,
                ch,
                o.x + c,
                o.y + row,
                k,
            ) == image.data@[(row * image.width + c) * ch + k] by {
                lemma_texel_bounds(s, ch, o.x + c, o.y + row, k);
                lemma_flat_range(ch, o.x + c, k, o.x as int, o.x + image.width);
                lemma_flat_range(ch, c, k, 0, image.width as int);
                assert(0 * ch == 0);
                assert(image.width * ch == glyph_row);
                assert((o.x + c) * ch + k == x0 + (c * ch + k)) by (nonlinear_arith)
                    requires
                        x0 == o.x * ch,
                ;
                assert(0 <= (o.x + c) * ch + k < row_len) by (nonlinear_arith)
                    requires
                        0 <= c,
                        o.x + c < s,
                        0 <= k < ch,
                        row_len == s * ch,
                ;
                assert(texel_index(s, ch, o.x + c, o.y + row, k) == (o.y + row) * row_len + ((o.x
                    + c) * ch + k));
                assert((row * image.width + c) * ch + k == row * glyph_row + (c * ch + k))
                    by (nonlinear_arith)
                    requires
                        glyph_row == image.width * ch,
                ;
            }
            assert(self.spec_data() == self.data@);
            assert(self.spec_size() == s);
            assert(self.spec_channels() == ch);
            assert forall|x: int, y: int, k: int|
                0 <= x < s && 0 <= y < s && 0 <= k < ch && !(o.x <= x < o.x + image.width && o.y <= y
                    < o.y + image.height) implies #[trigger] texel(self.data@, s, ch, x, y, k) == if x
                < s0 && y < s0 {
                texel(d0, s0, ch, x, y, k)
            } else {
                0
            } by {
                lemma_texel_bounds(s, ch, x, y, k);
                lemma_flat_range(ch, x, k, o.x as int, o.x + image.width);
                assert(0 <= x * ch + k < row_len) by (nonlinear_arith)
                    requires
                        0 <= x < s,
                        0 <= k < ch,
                        row_len == s * ch,
                ;
                assert(o.x * ch + image.width * ch == (o.x + image.width) * ch) by (nonlinear_arith);
                assert(texel_index(s, ch, x, y, k) == y * row_len + (x * ch + k));
                assert(texel(base, s, ch, x, y, k) == if x < s0 && y < s0 {
                    texel(d0, s0, ch, x, y, k)
                } else {
                    0
                });
            }
            assert(glyph == (Vec2::<u32> { x: image.width, y: image.height }));
            assert forall|q: Rect, x: int, y: int, k: int|
                #![trigger old(self).is_placed(q), texel(self.spec_data(), self.spec_size() as int, self.spec_channels() as int, x, y, k)]
                old(self).is_placed(q) && q.0 <= x < q.0 + q.2 && q.1 <= y < q.1 + q.3 && 0 <= k
                    < old(self).spec_channels() implies texel(
                    self.spec_data(),
                    self.spec_size() as int,
                    self.spec_channels() as int,
                    x,
                    y,
                    k,
                ) == texel(
                    old(self).spec_data(),
                    old(self).spec_size() as int,
                    old(self).spec_channels() as int,
                    x,
                    y,
                    k,
                ) by {
                old(self).root.lemma_placed_in_texture(s0, q);
                assert(node::rect_disjoint(q, rect(o, glyph)));
                assert(texel(self.data@, s, ch, x, y, k) == if x < s0 && y < s0 {
                    texel(d0, s0, ch, x, y, k)
                } else {
                    0
                });
            }
            assert forall|q: Rect| #[trigger]
                self.is_placed(q) == (old(self).is_placed(q) || q == rect(o, glyph)) by {
                assert(self.is_placed(q) == root0.is_placed(q));
            }
            assert(doubled(old(self).spec_size(), m) == self.spec_size());
        }
        Some(o)
    }

    /// No two glyphs packed in the atlas overlap, and each lies in the texture.
    pub proof fn placed_glyphs_disjoint(&self, q1: Rect, q2: Rect)
        requires
            self.wf(),
            self.is_placed(q1),
            self.is_placed(q2),
        ensures
            q1 != q2 ==> node::rect_disjoint(q1, q2),
            0 <= q1.0 && q1.0 + q1.2 <= self.spec_size(),
            0 <= q1.1 && q1.1 + q1.3 <= self.spec_size(),
    {
        self.root.lemma_placed_in_texture(self.size as int, q1);
        if q1 != q2 {
            self.root.placed_rects_disjoint(self.size as int, q1, q2);
        }
    }

    /// Nothing changed means every texel is the same.
    proof fn lemma_texels_same(&self)
        requires
            self.wf(),
        ensures
            forall|x: int, y: int, k: int|
                0 <= x < self.spec_size() && 0 <= y < self.spec_size() && 0 <= k
                    < self.spec_channels() ==> #[trigger] texel(
                    self.spec_data(),
                    self.spec_size() as int,
                    self.spec_channels() as int,
                    x,
                    y,
                    k,
                ) == if x < self.spec_size() && y < self.spec_size() {
                    texel(
                        self.spec_data(),
                        self.spec_size() as int,
                        self.spec_channels() as int,
                        x,
                        y,
                        k,
                    )
                } else {
                    0
                },
    {
    }

    pub fn data(&self) -> (r: &Vec<u8>)
        ensures
            r@ == self.spec_data(),
            self.wf() ==> r@.len() == self.spec_size() * self.spec_size() * self.spec_channels(),
    {
        &self.data
    }

    pub fn size(&self) -> (r: u32)
        ensures
            r == self.spec_size(),
    {
        self.size
    }
}

/// `n` zero bytes.
fn zeroed(n: usize) -> (r: Vec<u8>)
    ensures
        r@.len() == n,
        forall|i: int| 0 <= i < n ==> #[trigger] r@[i] == 0,
{
    let mut v: Vec<u8> = Vec::new();
    let mut i: usize = 0;
    while i < n
        invariant
            i <= n,
            v@.len() == i,
            forall|j: int| 0 <= j < i ==> #[trigger] v@[j] == 0,
        decreases n - i,
    {
        v.push(0);
        i += 1;
    }
    v
}

} // verus!
