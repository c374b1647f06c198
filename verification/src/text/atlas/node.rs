//! A binary tree that packs glyph rectangles into a square texture. Each node covers a
//! rectangle; a split leaves two children that share the parent's rectangle without overlap,
//! and a filled leaf is a placed glyph. A node whose far edge lies at `u32::MAX` reaches the
//! edge of the texture, wherever that edge is: the texture can grow without the tree changing.
use crate::util::vec2::Vec2;
use vstd::prelude::*;

verus! {

/// A rectangle `(x, y, width, height)`.
pub type Rect = (int, int, int, int);

/// The rectangle at `origin` of size `size`.
pub open spec fn rect(origin: Vec2<u32>, size: Vec2<u32>) -> Rect {
    (origin.x as int, origin.y as int, size.x as int, size.y as int)
}

pub open spec fn rect_empty(r: Rect) -> bool {
    r.2 <= 0 || r.3 <= 0
}

/// No pixel lies in both rectangles.
pub open spec fn rect_disjoint(a: Rect, b: Rect) -> bool {
    ||| rect_empty(a)
    ||| rect_empty(b)
    ||| a.0 + a.2 <= b.0
    ||| b.0 + b.2 <= a.0
    ||| a.1 + a.3 <= b.1
    ||| b.1 + b.3 <= a.1
}

/// Every pixel of `a` lies in `b`.
pub open spec fn rect_within(a: Rect, b: Rect) -> bool {
    rect_empty(a) || (b.0 <= a.0 && a.0 + a.2 <= b.0 + b.2 && b.1 <= a.1 && a.1 + a.3 <= b.1 + b.3)
}

/// A coordinate range `[o, o + s)` that either reaches the texture's edge (it ends at
/// `u32::MAX`) and starts inside the texture, or ends inside it.
pub open spec fn extent_ok(o: int, s: int, texture_size: int) -> bool {
    &&& o + s <= u32::MAX
    &&& (o + s == u32::MAX ==> o <= texture_size)
    &&& (o + s != u32::MAX ==> o + s <= texture_size)
}

/// A node of the packing tree: a rectangle of the texture that is free, holds one glyph, or
/// is split in two. A side that reaches `u32::MAX` reaches the edge of the texture, whatever
/// its size.
pub struct Node {
    pub origin: Vec2<u32>,
    pub size: Vec2<u32>,
    pub is_filled: bool,
    pub children: Option<(Box<Node>, Box<Node>)>,
}

impl Node {
    /// The rectangle the node covers.
    pub open spec fn region(&self) -> Rect {
        rect(self.origin, self.size)
    }

    pub open spec fn spec_origin(&self) -> Vec2<u32> {
        self.origin
    }

    pub open spec fn spec_size(&self) -> Vec2<u32> {
        self.size
    }

    /// The depth of the tree below the node.
    pub open spec fn height(&self) -> nat
        decreases self,
    {
        match self.children {
            Some((a, b)) => {
                let ha = a.height();
                let hb = b.height();
                1 + if ha >= hb {
                    ha
                } else {
                    hb
                }
            },
            None => 0,
        }
    }

    /// The tree is well formed for a texture of side `texture_size`: coordinates fit in a
    /// `u32` and lie in the texture, a filled node is a leaf, and the children of a split node
    /// lie in their parent without overlapping each other.
    pub open spec fn wf(&self, texture_size: int) -> bool
        decreases self,
    {
        &&& extent_ok(self.origin.x as int, self.size.x as int, texture_size)
        &&& extent_ok(self.origin.y as int, self.size.y as int, texture_size)
        &&& (self.is_filled ==> self.origin.x + self.size.x != u32::MAX && self.origin.y
            + self.size.y != u32::MAX)
        &&& match self.children {
            Some((a, b)) => {
                &&& !self.is_filled
                &&& a.wf(texture_size)
                &&& b.wf(texture_size)
                &&& rect_within(a.region(), self.region())
                &&& rect_within(b.region(), self.region())
                &&& rect_disjoint(a.region(), b.region())
            },
            None => true,
        }
    }

    /// `r` is the rectangle of a glyph placed in the tree.
    pub open spec fn is_placed(&self, r: Rect) -> bool
        decreases self,
    {
        if self.is_filled {
            r == self.region()
        } else {
            match self.children {
                Some((a, b)) => a.is_placed(r) || b.is_placed(r),
                None => false,
            }
        }
    }

    /// The node is a leaf that holds no glyph yet.
    pub open spec fn is_free_leaf(&self) -> bool {
        !self.is_filled && self.children is None
    }

    /// The width and height of the part of the node inside a texture of side
    /// `texture_size`: a side that reaches the texture's edge ends there.
    pub open spec fn real_extent(&self, texture_size: int) -> (int, int) {
        (
            if self.origin.x + self.size.x == u32::MAX {
                texture_size - self.origin.x
            } else {
                self.size.x as int
            },
            if self.origin.y + self.size.y == u32::MAX {
                texture_size - self.origin.y
            } else {
                self.size.y as int
            },
        )
    }

    /// Where a rectangle of `size` goes in a texture of side `t`: the search tries the first
    /// child before the second, and a leaf that holds no glyph takes the rectangle at its
    /// origin where it has the rectangle's size or reaches at least as far within the
    /// texture. `None` where no free leaf takes it.
    pub open spec fn placement(&self, size: Vec2<u32>, t: int) -> Option<Vec2<u32>>
        decreases self,
    {
        if self.is_filled {
            None
        } else {
            match self.children {
                Some((a, b)) => match a.placement(size, t) {
                    Some(o) => Some(o),
                    None => b.placement(size, t),
                },
                None => if (self.size.x == size.x && self.size.y == size.y) || (size.x
                    <= self.real_extent(t).0 && size.y <= self.real_extent(t).1) {
                    Some(self.origin)
                } else {
                    None
                },
            }
        }
    }

    /// `after` is `before` with the rectangle of `size` at `r` placed where that is `Some`,
    /// apart from every rectangle placed before; and `before` itself where it is `None`.
    pub open spec fn packed_step(before: Node, after: Node, size: Vec2<u32>, r: Option<Vec2<u32>>) -> bool {
        &&& forall|q: Rect| #[trigger]
            after.is_placed(q) == (before.is_placed(q) || (r matches Some(o) && q == rect(o, size)))
        &&& r matches Some(o) ==> forall|q: Rect| #[trigger]
            before.is_placed(q) ==> rect_disjoint(q, rect(o, size))
    }

    /// The two parts a free leaf is split into to take a rectangle of `size` at its origin in
    /// a texture of side `t`: one row of the rectangle's height above the rest where the
    /// room left below is larger than the room left beside it (or, with no room left at all,
    /// where the leaf is taller than wide), else one column of its width beside the rest.
    pub open spec fn split_for(self, size: Vec2<u32>, t: int) -> (Node, Node) {
        let rem_x = self.real_extent(t).0 - size.x;
        let rem_y = self.real_extent(t).1 - size.y;
        let vertical = if rem_x == 0 && rem_y == 0 {
            self.size.x < self.size.y
        } else {
            rem_x < rem_y
        };
        if vertical {
            (
                Node {
                    origin: self.origin,
                    size: Vec2 { x: self.size.x, y: size.y },
                    is_filled: false,
                    children: None,
                },
                Node {
                    origin: Vec2 { x: self.origin.x, y: (self.origin.y + size.y) as u32 },
                    size: Vec2 { x: self.size.x, y: (self.size.y - size.y) as u32 },
                    is_filled: false,
                    children: None,
                },
            )
        } else {
            (
                Node {
                    origin: self.origin,
                    size: Vec2 { x: size.x, y: self.size.y },
                    is_filled: false,
                    children: None,
                },
                Node {
                    origin: Vec2 { x: (self.origin.x + size.x) as u32, y: self.origin.y },
                    size: Vec2 { x: (self.size.x - size.x) as u32, y: self.size.y },
                    is_filled: false,
                    children: None,
                },
            )
        }
    }

    /// The tree once a rectangle of `size` is packed into it in a texture of side `t`: the
    /// search goes as in `placement`; a free leaf of the rectangle's size is filled, one that
    /// is too small is left alone, and a larger one is split with `split_for` and its first
    /// part takes the rectangle.
    pub open spec fn after_pack(self, size: Vec2<u32>, t: int) -> Node
        decreases self.height(), mismatch(self.size, size),
    {
        if self.is_filled {
            self
        } else {
            match self.children {
                Some((a, b)) => {
                    if a.placement(size, t) is Some {
                        Node { children: Some((Box::new(a.after_pack(size, t)), b)), ..self }
                    } else {
                        Node { children: Some((a, Box::new(b.after_pack(size, t)))), ..self }
                    }
                },
                None => {
                    if self.size.x == size.x && self.size.y == size.y {
                        Node { is_filled: true, ..self }
                    } else if self.real_extent(t).0 < size.x || self.real_extent(t).1 < size.y {
                        self
                    } else {
                        let parts = self.split_for(size, t);
                        if mismatch(parts.0.size, size) < mismatch(self.size, size) {
                            Node {
                                children: Some((Box::new(parts.0.after_pack(size, t)), Box::new(parts.1))),
                                ..self
                            }
                        } else {
                            self
                        }
                    }
                },
            }
        }
    }

    /// An empty node covering `size` at `origin`.
    pub fn new(origin: Vec2<u32>, size: Vec2<u32>) -> (r: Node)
        ensures
            r == (Node { origin, size, is_filled: false, children: None }),
            r.spec_origin() == origin,
            r.spec_size() == size,
            r.height() == 0,
            r.is_free_leaf(),
            forall|q: Rect| !r.is_placed(q),
            forall|t: int|
                extent_ok(origin.x as int, size.x as int, t) && extent_ok(
                    origin.y as int,
                    size.y as int,
                    t,
                ) ==> #[trigger] r.wf(t),
    {
        Node { origin, size, is_filled: false, children: None }
    }

    /// A rectangle placed in a well-formed tree lies in the tree's region.
    pub proof fn lemma_placed_within(&self, t: int, r: Rect)
        requires
            self.wf(t),
            self.is_placed(r),
        ensures
            rect_within(r, self.region()),
        decreases self,
    {
        if !self.is_filled {
            match self.children {
                Some((a, b)) => {
                    if a.is_placed(r) {
                        a.lemma_placed_within(t, r);
                        lemma_within_trans(r, a.region(), self.region());
                    } else {
                        b.lemma_placed_within(t, r);
                        lemma_within_trans(r, b.region(), self.region());
                    }
                },
                None => {},
            }
        }
    }

    /// Glyphs placed in a well-formed tree never overlap.
    pub proof fn placed_rects_disjoint(&self, t: int, q1: Rect, q2: Rect)
        requires
            self.wf(t),
            self.is_placed(q1),
            self.is_placed(q2),
            q1 != q2,
        ensures
            rect_disjoint(q1, q2),
        decreases self,
    {
        if !self.is_filled {
            match self.children {
                Some((a, b)) => {
                    if a.is_placed(q1) && a.is_placed(q2) {
                        a.placed_rects_disjoint(t, q1, q2);
                    } else if b.is_placed(q1) && b.is_placed(q2) {
                        b.placed_rects_disjoint(t, q1, q2);
                    } else if a.is_placed(q1) {
                        a.lemma_placed_within(t, q1);
                        b.lemma_placed_within(t, q2);
                        lemma_within_disjoint(q1, q2, a.region(), b.region());
                    } else {
                        b.lemma_placed_within(t, q1);
                        a.lemma_placed_within(t, q2);
                        lemma_within_disjoint(q1, q2, b.region(), a.region());
                    }
                },
                None => {},
            }
        }
    }

    /// A glyph placed in a well-formed tree lies in the texture.
    pub proof fn lemma_placed_in_texture(&self, t: int, r: Rect)
        requires
            self.wf(t),
            self.is_placed(r),
        ensures
            0 <= r.0,
            0 <= r.1,
            r.0 + r.2 <= t,
            r.1 + r.3 <= t,
        decreases self,
    {
        if !self.is_filled {
            match self.children {
                Some((a, b)) => {
                    if a.is_placed(r) {
                        a.lemma_placed_in_texture(t, r);
                    } else {
                        b.lemma_placed_in_texture(t, r);
                    }
                },
                None => {},
            }
        }
    }

    /// A well-formed tree stays well formed as the texture grows.
    pub proof fn lemma_wf_grow(&self, t: int, t2: int)
        requires
            self.wf(t),
            t <= t2,
        ensures
            self.wf(t2),
        decreases self,
    {
        match self.children {
            Some((a, b)) => {
                a.lemma_wf_grow(t, t2);
                b.lemma_wf_grow(t, t2);
            },
            None => {},
        }
    }

    /// Places a rectangle of `size` in a free part of the tree, returning its origin, or
    /// `None` where no free part of a texture of side `texture_size` holds it.
    pub fn pack(&mut self, size: Vec2<u32>, texture_size: u32) -> (r: Option<Vec2<u32>>)
        requires
            old(self).wf(texture_size as int),
            texture_size < u32::MAX,
            size.x + texture_size < u32::MAX,
            size.y + texture_size < u32::MAX,
        ensures
            final(self).wf(texture_size as int),
            final(self).spec_origin() == old(self).spec_origin(),
            final(self).spec_size() == old(self).spec_size(),
            r is None ==> forall|q: Rect| #[trigger]
                final(self).is_placed(q) == old(self).is_placed(q),
            r matches Some(o) ==> {
                &&& o.x + size.x <= texture_size
                &&& o.y + size.y <= texture_size
                &&& rect_within(rect(o, size), old(self).region())
                &&& forall|q: Rect| #[trigger]
                    final(self).is_placed(q) == (old(self).is_placed(q) || q == rect(o, size))
                &&& forall|q: Rect| #[trigger]
                    old(self).is_placed(q) ==> rect_disjoint(q, rect(o, size))
            },
            r == old(self).placement(size, texture_size as int),
            r is None ==> *final(self) == *old(self),
            *final(self) == old(self).after_pack(size, texture_size as int),
            Node::packed_step(*old(self), *final(self), size, r),
        decreases old(self).height(), mismatch(old(self).spec_size(), size),
    {
        if self.is_filled {
            return None;
        }
        match self.children.take() {
            Some((mut a, mut b)) => {
                let ghost a0 = *a;
                let ghost b0 = *b;
                proof {
                    assert(a0.height() < old(self).height());
                    assert(b0.height() < old(self).height());
                }
                match a.pack(size, texture_size) {
                    Some(o) => {
                        let ghost a1 = *a;
                        self.children = Some((a, b));
                        proof {
                            assert forall|q: Rect| #[trigger]
                                self.is_placed(q) == (old(self).is_placed(q) || q == rect(o, size)) by {
                                assert(self.is_placed(q) == (a1.is_placed(q) || b0.is_placed(q)));
                                assert(a1.is_placed(q) == (a0.is_placed(q) || q == rect(o, size)));
                            }
                            assert forall|q: Rect| #[trigger]
                                old(self).is_placed(q) implies rect_disjoint(q, rect(o, size)) by {
                                if b0.is_placed(q) {
                                    b0.lemma_placed_within(texture_size as int, q);
                                    lemma_within_disjoint(q, rect(o, size), b0.region(), a0.region());
                                } else {
                                    assert(a0.is_placed(q));
                                }
                            }
                            lemma_within_trans(rect(o, size), a0.region(), old(self).region());
                        }
                        Some(o)
                    },
                    None => {
                        let ghost a1 = *a;
                        let r = b.pack(size, texture_size);
                        let ghost b1 = *b;
                        self.children = Some((a, b));
                        proof {
                            assert forall|q: Rect| #[trigger] self.is_placed(q) == (a1.is_placed(q)
                                || b1.is_placed(q)) by {}
                            assert forall|q: Rect| #[trigger] a1.is_placed(q) == a0.is_placed(q) by {}
                            assert forall|q: Rect| #[trigger] old(self).is_placed(q) == (
                            a0.is_placed(q) || b0.is_placed(q)) by {}
                            match r {
                                Some(o) => {
                                    assert forall|q: Rect| #[trigger]
                                        old(self).is_placed(q) implies rect_disjoint(q, rect(o, size)) by {
                                        if a0.is_placed(q) {
                                            a0.lemma_placed_within(texture_size as int, q);
                                            lemma_within_disjoint(
                                                q,
                                                rect(o, size),
                                                a0.region(),
                                                b0.region(),
                                            );
                                        } else {
                                            assert(b0.is_placed(q));
                                        }
                                    }
                                    lemma_within_trans(rect(o, size), b0.region(), old(self).region());
                                    assert forall|q: Rect| #[trigger]
                                        self.is_placed(q) == (old(self).is_placed(q) || q == rect(o, size)) by {
                                        assert(b1.is_placed(q) == (b0.is_placed(q) || q == rect(o, size)));
                                    }
                                },
                                None => {},
                            }
                        }
                        r
                    },
                }
            },
            None => {
                let real_x = if self.origin.x + self.size.x == u32::MAX {
                    texture_size - self.origin.x
                } else {
                    self.size.x
                };
                let real_y = if self.origin.y + self.size.y == u32::MAX {
                    texture_size - self.origin.y
                } else {
                    self.size.y
                };
                if self.size.x == size.x && self.size.y == size.y {
                    self.is_filled = true;
                    proof {
                        assert(self.origin.x + size.x <= texture_size);
                        assert(self.origin.y + size.y <= texture_size);
                        assert(self.region() == rect(self.origin, size));
                        assert forall|q: Rect| #[trigger]
                            self.is_placed(q) == (old(self).is_placed(q) || q == rect(
                                self.origin,
                                size,
                            )) by {
                            assert(!old(self).is_placed(q));
                        }
                    }
                    Some(self.origin)
                } else if real_x < size.x || real_y < size.y {
                    proof {
                        assert forall|q: Rect| #[trigger]
                            self.is_placed(q) == old(self).is_placed(q) by {
                            assert(!old(self).is_placed(q));
                            assert(!self.is_placed(q));
                        }
                    }
                    None
                } else {
                    let rem_x = real_x - size.x;
                    let rem_y = real_y - size.y;
                    let vertical_split = if rem_x == 0 && rem_y == 0 {
                        self.size.x < self.size.y
                    } else {
                        rem_x < rem_y
                    };
                    let (mut first, second) = if vertical_split {
                        (
                            Box::new(Node::new(self.origin, Vec2::new(self.size.x, size.y))),
                            Box::new(
                                Node::new(
                                    Vec2::new(self.origin.x, self.origin.y + size.y),
                                    Vec2::new(self.size.x, self.size.y - size.y),
                                ),
                            ),
                        )
                    } else {
                        (
                            Box::new(Node::new(self.origin, Vec2::new(size.x, self.size.y))),
                            Box::new(
                                Node::new(
                                    Vec2::new(self.origin.x + size.x, self.origin.y),
                                    Vec2::new(self.size.x - size.x, self.size.y),
                                ),
                            ),
                        )
                    };
                    proof {
                        assert(extent_ok(first.spec_origin().x as int, first.spec_size().x as int, texture_size as int));
                        assert(extent_ok(first.spec_origin().y as int, first.spec_size().y as int, texture_size as int));
                        assert(extent_ok(second.spec_origin().x as int, second.spec_size().x as int, texture_size as int));
                        assert(extent_ok(second.spec_origin().y as int, second.spec_size().y as int, texture_size as int));
                        assert(first.wf(texture_size as int));
                        assert(second.wf(texture_size as int));
                        assert(first.height() == 0);
                        assert(first.is_free_leaf());
                        assert(size.x <= first.real_extent(texture_size as int).0);
                        assert(size.y <= first.real_extent(texture_size as int).1);
                        assert(mismatch(first.spec_size(), size) < mismatch(
                            old(self).spec_size(),
                            size,
                        ));
                    }
                    let ghost second0 = *second;
                    let ghost first0 = *first;
                    let r = first.pack(size, texture_size);
                    self.children = Some((first, second));
                    proof {
                        assert(rect_within(first0.region(), old(self).region()));
                        assert(rect_within(second0.region(), old(self).region()));
                        assert(rect_disjoint(first0.region(), second0.region()));
                        match r {
                            Some(o) => {
                                lemma_within_trans(rect(o, size), first0.region(), old(self).region());
                                assert forall|q: Rect| #[trigger]
                                    self.is_placed(q) == (old(self).is_placed(q) || q == rect(o, size)) by {
                                    assert(!first0.is_placed(q));
                                    assert(!second0.is_placed(q));
                                    assert(!old(self).is_placed(q));
                                    match self.children {
                                        Some((f, g)) => {
                                            assert(*g == second0);
                                            assert(f.is_placed(q) == (first0.is_placed(q) || q == rect(o, size)));
                                        },
                                        None => {},
                                    }
                                }
                            },
                            None => {
                                assert forall|q: Rect| #[trigger]
                                    self.is_placed(q) == old(self).is_placed(q) by {
                                    assert(!first0.is_placed(q));
                                    assert(!second0.is_placed(q));
                                    assert(!old(self).is_placed(q));
                                    match self.children {
                                        Some((f, g)) => {
                                            assert(*g == second0);
                                            assert(!f.is_placed(q));
                                        },
                                        None => {},
                                    }
                                }
                            },
                        }
                    }
                    r
                }
            },
        }
    }
}

/// How many of the two sides differ.
pub open spec fn mismatch(a: Vec2<u32>, b: Vec2<u32>) -> int {
    (if a.x != b.x {
        1int
    } else {
        0
    }) + (if a.y != b.y {
        1int
    } else {
        0
    })
}

/// A rectangle in a rectangle in `c` is in `c`.
pub proof fn lemma_within_trans(a: Rect, b: Rect, c: Rect)
    requires
        rect_within(a, b),
        rect_within(b, c),
    ensures
        rect_within(a, c),
{
}

/// Two rectangles that lie in disjoint rectangles are disjoint.
pub proof fn lemma_within_disjoint(a: Rect, b: Rect, c: Rect, d: Rect)
    requires
        rect_within(a, c),
        rect_within(b, d),
        rect_disjoint(c, d),
    ensures
        rect_disjoint(a, b),
{
}

/// A rectangle placed at some step of a sequence of packs stays placed at every later step.
proof fn lemma_placed_stays(nodes: Seq<Node>, sizes: Seq<Vec2<u32>>, results: Seq<Option<Vec2<u32>>>, i: int, k: int)
    requires
        nodes.len() == results.len() + 1,
        sizes.len() == results.len(),
        forall|s: int|
            #![trigger results[s]]
            0 <= s < results.len() ==> Node::packed_step(nodes[s], nodes[s + 1], sizes[s], results[s]),
        0 <= i < k <= results.len(),
        results[i] is Some,
    ensures
        nodes[k].is_placed(rect(results[i].unwrap(), sizes[i])),
    decreases k - i,
{
    let q = rect(results[i].unwrap(), sizes[i]);
    if k == i + 1 {
        assert(Node::packed_step(nodes[i], nodes[i + 1], sizes[i], results[i]));
        assert(nodes[i + 1].is_placed(q) == (nodes[i].is_placed(q) || (results[i] matches Some(
            o,
        ) && q == rect(o, sizes[i]))));
    } else {
        lemma_placed_stays(nodes, sizes, results, i, k - 1);
        let s = k - 1;
        assert(Node::packed_step(nodes[s], nodes[s + 1], sizes[s], results[s]));
        assert(nodes[s + 1].is_placed(q) == (nodes[s].is_placed(q) || (results[s] matches Some(
            o,
        ) && q == rect(o, sizes[s]))));
    }
}

/// Glyphs packed one after another into one tree never overlap: of any two packs that
/// succeed, the later one's rectangle is apart from the earlier one's.
pub proof fn packed_sequence_disjoint(nodes: Seq<Node>, sizes: Seq<Vec2<u32>>, results: Seq<Option<Vec2<u32>>>)
    requires
        nodes.len() == results.len() + 1,
        sizes.len() == results.len(),
        forall|s: int|
            #![trigger results[s]]
            0 <= s < results.len() ==> Node::packed_step(nodes[s], nodes[s + 1], sizes[s], results[s]),
    ensures
        forall|i: int, j: int|
            0 <= i < j < results.len() && results[i] is Some && results[j] is Some ==> rect_disjoint(
                rect(results[i].unwrap(), sizes[i]),
                rect(results[j].unwrap(), sizes[j]),
            ),
{
    assert forall|i: int, j: int|
        0 <= i < j < results.len() && results[i] is Some && results[j] is Some implies rect_disjoint(
        rect(results[i].unwrap(), sizes[i]),
        rect(results[j].unwrap(), sizes[j]),
    ) by {
        lemma_placed_stays(nodes, sizes, results, i, j);
        assert(Node::packed_step(nodes[j], nodes[j + 1], sizes[j], results[j]));
        let q = rect(results[i].unwrap(), sizes[i]);
        assert(nodes[j].is_placed(q) ==> rect_disjoint(q, rect(results[j].unwrap(), sizes[j])));
    }
}

} // verus!
