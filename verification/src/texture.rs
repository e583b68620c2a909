//! The dynamic texture atlas: an online rectangle packer (`ImagePack`) that
//! places named images into one shared backing bitmap, growing it by doubling
//! when space runs out, plus the GPU-side types that expose the packed result
//! (`Texture`, `TextureRegion`, `TextureAtlas`).
//!
//! The packer maintains three invariants, stated in `ImagePack::wf` and
//! exposed through `lemma_placed_disjoint` and `lemma_placed_in_bounds`:
//! placed images never overlap, every placed image lies inside the backing
//! bitmap, and the backing bitmap holds exactly the pixels of every image
//! added so far.

use std::rc::Rc;

use vstd::prelude::*;
use vstd::string::StringExecFns;

use crate::bitmap::Image;
use crate::bitmap::ImageView;
use crate::bitmap::pix_idx;

verus! {

/// The errors reported by the atlas types.
#[derive(Clone, Copy, Debug, PartialEq, Eq, Structural)]
pub enum AtlasError {
    /// A lookup used a name that was never added.
    UnknownName,
    /// An image was added under a name that is already taken.
    DuplicateName,
    /// An added image had a zero width or a zero height.
    InvalidImageDimensions,
    /// A region operation needed its backing texture, but the texture has
    /// been released.
    ResourceExpired,
}

/// Largest width or height the packer accepts for a single image; keeps the
/// doubling growth within `u32` pixel-buffer arithmetic.
pub const MAX_PACK_IMAGE_DIM: u32 = 4096;

/// Largest backing-bitmap dimension from which the packer will still grow;
/// one placement can at most double each dimension twice past this bound.
pub const MAX_PACK_DIM: u32 = 8192;

/// An axis-aligned rectangle in pixel coordinates, for specifications.
pub struct Rect {
    pub x: int,
    pub y: int,
    pub w: int,
    pub h: int,
}

/// Two rectangles share no pixel.
pub open spec fn rects_disjoint(a: Rect, b: Rect) -> bool {
    a.x + a.w <= b.x || b.x + b.w <= a.x || a.y + a.h <= b.y || b.y + b.h <= a.y
}

/// The rectangle lies fully inside a `w * h` canvas.
pub open spec fn rect_in_bounds(r: Rect, w: int, h: int) -> bool {
    0 <= r.x && 0 <= r.y && r.x + r.w <= w && r.y + r.h <= h
}

/// The first rectangle lies fully inside the second.
pub open spec fn rect_within(inner: Rect, outer: Rect) -> bool {
    outer.x <= inner.x && inner.x + inner.w <= outer.x + outer.w && outer.y <= inner.y && inner.y
        + inner.h <= outer.y + outer.h
}

/// The set of pixel coordinates covered by a rectangle.
pub open spec fn rect_cells(r: Rect) -> Set<(int, int)> {
    Set::new(|p: (int, int)| r.x <= p.0 < r.x + r.w && r.y <= p.1 < r.y + r.h)
}

/// One row of `w` cells starting at `(x, y)`.
spec fn row_cells(x: int, y: int, w: int) -> Set<(int, int)> {
    Set::new(|p: (int, int)| x <= p.0 < x + w && p.1 == y)
}

proof fn lemma_row_cells_card(x: int, y: int, w: int)
    requires
        0 <= w,
    ensures
        row_cells(x, y, w).finite(),
        row_cells(x, y, w).len() == w,
    decreases w,
{
    if w == 0 {
        assert(row_cells(x, y, 0) =~= Set::<(int, int)>::empty());
    } else {
        lemma_row_cells_card(x, y, w - 1);
        assert(row_cells(x, y, w) =~= row_cells(x, y, w - 1).insert((x + w - 1, y)));
        assert(!row_cells(x, y, w - 1).contains((x + w - 1, y)));
    }
}

/// A `w * h` rectangle covers exactly `w * h` cells.
proof fn lemma_rect_cells_card(r: Rect)
    requires
        0 <= r.w,
        0 <= r.h,
    ensures
        rect_cells(r).finite(),
        rect_cells(r).len() == r.w * r.h,
    decreases r.h,
{
    if r.h == 0 {
        assert(rect_cells(r) =~= Set::<(int, int)>::empty());
        assert(r.w * r.h == 0) by (nonlinear_arith)
            requires
                r.h == 0,
        ;
    } else {
        let inner = Rect { x: r.x, y: r.y, w: r.w, h: r.h - 1 };
        let row = row_cells(r.x, r.y + r.h - 1, r.w);
        lemma_rect_cells_card(inner);
        lemma_row_cells_card(r.x, r.y + r.h - 1, r.w);
        assert(rect_cells(r) =~= rect_cells(inner) + row);
        assert(rect_cells(inner).disjoint(row));
        vstd::set_lib::lemma_set_disjoint_lens(rect_cells(inner), row);
        assert(r.w * (r.h - 1) + r.w == r.w * r.h) by (nonlinear_arith);
    }
}

/// Disjoint rectangles cover disjoint cells.
proof fn lemma_disjoint_rect_cells(a: Rect, b: Rect)
    requires
        rects_disjoint(a, b),
    ensures
        rect_cells(a).disjoint(rect_cells(b)),
{
}

/// Total area of the images recorded by the first `k` name-table entries.
spec fn areas_sum(nodes: Seq<ImagePackNode>, locs: Seq<(String, usize)>, k: int) -> int
    decreases k,
{
    if k <= 0 {
        0
    } else {
        let r = image_rect(nodes[locs[k - 1].1 as int]);
        areas_sum(nodes, locs, k - 1) + r.w * r.h
    }
}

/// Cells covered by the images of the first `k` name-table entries.
spec fn cells_union(nodes: Seq<ImagePackNode>, locs: Seq<(String, usize)>, k: int) -> Set<
    (int, int),
>
    decreases k,
{
    if k <= 0 {
        Set::empty()
    } else {
        cells_union(nodes, locs, k - 1) + rect_cells(image_rect(nodes[locs[k - 1].1 as int]))
    }
}

/// The area sum only looks at the entries below `k` and their nodes.
proof fn lemma_areas_sum_congruence(
    nodes1: Seq<ImagePackNode>,
    locs1: Seq<(String, usize)>,
    nodes2: Seq<ImagePackNode>,
    locs2: Seq<(String, usize)>,
    k: int,
)
    requires
        0 <= k <= locs1.len(),
        k <= locs2.len(),
        forall|j: int| 0 <= j < k ==> #[trigger] locs2[j] == locs1[j],
        forall|j: int|
            0 <= j < k ==> #[trigger] nodes2[locs1[j].1 as int] == nodes1[locs1[j].1 as int],
    ensures
        areas_sum(nodes2, locs2, k) == areas_sum(nodes1, locs1, k),
    decreases k,
{
    if k > 0 {
        lemma_areas_sum_congruence(nodes1, locs1, nodes2, locs2, k - 1);
    }
}

/// A cell lies in the union iff some entry's image covers it.
proof fn lemma_cells_union_member(
    nodes: Seq<ImagePackNode>,
    locs: Seq<(String, usize)>,
    k: int,
    p: (int, int),
)
    requires
        0 <= k,
    ensures
        cells_union(nodes, locs, k).contains(p) <==> exists|j: int|
            0 <= j < k && #[trigger] rect_cells(image_rect(nodes[locs[j].1 as int])).contains(p),
    decreases k,
{
    if k > 0 {
        lemma_cells_union_member(nodes, locs, k - 1, p);
        if rect_cells(image_rect(nodes[locs[k - 1].1 as int])).contains(p) {
            assert(cells_union(nodes, locs, k).contains(p));
        }
    }
}

/// A node of the packing tree: a rectangle of the backing bitmap that is
/// either free (`available`), occupied by one placed image, or split into
/// smaller nodes.  Nodes are stored in an append-only arena and addressed by
/// index.
#[derive(Clone, Copy)]
pub struct ImagePackNode {
    x: u32,
    y: u32,
    width: u32,
    height: u32,
    image_width: u32,
    image_height: u32,
    available: bool,
    child_1: Option<usize>,
    child_2: Option<usize>,
}

/// The full rectangle covered by a node.
pub closed spec fn node_rect(n: ImagePackNode) -> Rect {
    Rect { x: n.x as int, y: n.y as int, w: n.width as int, h: n.height as int }
}

/// The sub-rectangle of a node actually covered by its placed image.
pub closed spec fn image_rect(n: ImagePackNode) -> Rect {
    Rect { x: n.x as int, y: n.y as int, w: n.image_width as int, h: n.image_height as int }
}

/// Two nodes agree on everything but their availability and recorded image
/// size: same position, same extent, same child links.  Placement and
/// splitting may flip a node's availability or record an image size, but
/// never move a node; this is what makes node indices stable handles.
pub closed spec fn node_geom_eq(a: ImagePackNode, b: ImagePackNode) -> bool {
    a.x == b.x && a.y == b.y && a.width == b.width && a.height == b.height && a.child_1
        == b.child_1 && a.child_2 == b.child_2
}

/// Upper bound on a bitmap dimension after the doubling growth that one
/// placement of a `w * h` image can cause, starting from a `w0 * h0`
/// bitmap: growth stops at latest once a doubling has exposed a free leaf
/// larger than the request in both directions.
pub open spec fn growth_bound(w0: int, h0: int, w: int, h: int) -> int {
    2 * vstd::math::max(vstd::math::max(w0, h0), vstd::math::max(2 * w, 2 * h))
}

impl ImagePackNode {
    pub closed spec fn spec_x(self) -> u32 {
        self.x
    }

    pub closed spec fn spec_y(self) -> u32 {
        self.y
    }

    pub closed spec fn spec_width(self) -> u32 {
        self.width
    }

    pub closed spec fn spec_height(self) -> u32 {
        self.height
    }

    pub closed spec fn spec_image_width(self) -> u32 {
        self.image_width
    }

    pub closed spec fn spec_image_height(self) -> u32 {
        self.image_height
    }

    pub closed spec fn spec_available(self) -> bool {
        self.available
    }

    /// A fresh leaf covering the given rectangle; until an image is placed,
    /// the recorded image size is the full node size.
    fn new(x: u32, y: u32, width: u32, height: u32) -> (r: ImagePackNode)
        ensures
            r == (ImagePackNode {
                x,
                y,
                width,
                height,
                image_width: width,
                image_height: height,
                available: true,
                child_1: None,
                child_2: None,
            }),
    {
        ImagePackNode {
            x,
            y,
            width,
            height,
            image_width: width,
            image_height: height,
            available: true,
            child_1: None,
            child_2: None,
        }
    }

    /// Whether the node is free and at least `width * height` large.
    pub closed spec fn spec_has_space(self, width: u32, height: u32) -> bool {
        self.width >= width && self.height >= height && self.available
    }

    fn has_space(&self, width: u32, height: u32) -> (r: bool)
        ensures
            r == self.spec_has_space(width, height),
    {
        self.width >= width && self.height >= height && self.available
    }
}

/// The atlas packer: the node arena, the index of the current head node, the
/// name table of placed images, and the backing bitmap all images are
/// composed into.
pub struct ImagePack {
    bitmap: Image,
    pub nodes: Vec<ImagePackNode>,
    head: usize,
    locations: Vec<(String, usize)>,
    contents: Ghost<Map<Seq<char>, ImageView>>,
}

impl ImagePack {
    /// Model of the backing bitmap.
    pub closed spec fn bitmap_view(&self) -> ImageView {
        self.bitmap@
    }

    /// Model of the node arena.
    pub closed spec fn nodes_view(&self) -> Seq<ImagePackNode> {
        self.nodes@
    }

    /// Model of the name table: the images added so far, by name, with their
    /// exact pixels.
    pub closed spec fn contents(&self) -> Map<Seq<char>, ImageView> {
        self.contents@
    }

    /// Whether an image with this name has been added.
    pub closed spec fn has_name(&self, name: Seq<char>) -> bool {
        exists|k: int| 0 <= k < self.locations@.len() && #[trigger] self.locations@[k].0@ == name
    }

    /// The arena index of the node holding the named image.
    pub closed spec fn id_of(&self, name: Seq<char>) -> int {
        let k = choose|k: int|
            0 <= k < self.locations@.len() && #[trigger] self.locations@[k].0@ == name;
        self.locations@[k].1 as int
    }

    /// The rectangle of the named image inside the backing bitmap.
    pub closed spec fn rect_of(&self, name: Seq<char>) -> Rect {
        image_rect(self.nodes@[self.id_of(name)])
    }

    /// The node at index `i` holds a placed image.
    pub closed spec fn is_placed(&self, i: int) -> bool {
        exists|k: int| 0 <= k < self.locations@.len() && #[trigger] self.locations@[k].1 == i
    }

    /// The node at index `i` is live: free space, or a placed image.  Nodes
    /// that were split or superseded by doubling are not active.
    pub closed spec fn is_active(&self, i: int) -> bool {
        self.nodes@[i].available || self.is_placed(i)
    }

    /// Geometry of every node: positive extent, recorded image size within
    /// the node, and the node within the backing bitmap.
    pub closed spec fn wf_nodes(&self) -> bool {
        forall|i: int|
            0 <= i < self.nodes@.len() ==> {
                let n = #[trigger] self.nodes@[i];
                &&& 1 <= n.width
                &&& 1 <= n.height
                &&& n.image_width <= n.width
                &&& n.image_height <= n.height
                &&& n.x + n.width <= self.bitmap@.width
                &&& n.y + n.height <= self.bitmap@.height
            }
    }

    /// The head node exists and covers exactly the backing bitmap.
    pub closed spec fn wf_head(&self) -> bool {
        &&& (self.nodes@.len() == 0 ==> self.head == 0 && self.bitmap@.width == 1
            && self.bitmap@.height == 1)
        &&& (self.nodes@.len() > 0 ==> {
            let h = self.nodes@[self.head as int];
            &&& (self.head as int) < self.nodes@.len()
            &&& h.x == 0
            &&& h.y == 0
            &&& h.width == self.bitmap@.width
            &&& h.height == self.bitmap@.height
        })
    }

    /// The name table: names are distinct, each entry points at a distinct
    /// existing node, and a placed node is never also free.
    pub closed spec fn wf_locations(&self) -> bool {
        &&& (self.nodes@.len() == 0 ==> self.locations@.len() == 0)
        &&& forall|k: int|
            0 <= k < self.locations@.len() ==> (#[trigger] self.locations@[k].1)
                < self.nodes@.len() && !self.nodes@[self.locations@[k].1 as int].available
        &&& forall|k1: int, k2: int|
            0 <= k1 < k2 < self.locations@.len() ==> #[trigger] self.locations@[k1].0@
                != #[trigger] self.locations@[k2].0@
        &&& forall|k1: int, k2: int|
            0 <= k1 < k2 < self.locations@.len() ==> #[trigger] self.locations@[k1].1
                != #[trigger] self.locations@[k2].1
    }

    /// No two active nodes overlap.
    pub closed spec fn wf_disjoint(&self) -> bool {
        forall|i: int, j: int|
            0 <= i < self.nodes@.len() && 0 <= j < self.nodes@.len() && i != j && #[trigger] self.is_active(i)
                && #[trigger] self.is_active(j) ==> rects_disjoint(
                node_rect(self.nodes@[i]),
                node_rect(self.nodes@[j]),
            )
    }

    /// The recorded contents: the name table and the ghost map of added
    /// images name exactly the same names, the recorded image sizes match,
    /// and the backing bitmap holds each added image's pixels at its node's
    /// position.
    pub closed spec fn wf_contents(&self) -> bool {
        &&& (forall|name: Seq<char>| self.contents@.dom().contains(name) ==> self.has_name(name))
        &&& forall|k: int|
            0 <= k < self.locations@.len() ==> {
                let name = (#[trigger] self.locations@[k]).0@;
                let n = self.nodes@[self.locations@[k].1 as int];
                let img = self.contents@[name];
                &&& self.contents@.dom().contains(name)
                &&& img.wf()
                &&& img.width == n.image_width
                &&& img.height == n.image_height
                &&& forall|px: int, py: int, cc: int|
                    0 <= px < img.width && 0 <= py < img.height && 0 <= cc < 4
                        ==> self.bitmap@.chan(n.x + px, n.y + py, cc) == #[trigger] img.chan(
                        px,
                        py,
                        cc,
                    )
            }
    }

    /// The packer's full invariant.
    pub closed spec fn wf(&self) -> bool {
        &&& self.bitmap@.wf()
        &&& 1 <= self.bitmap@.width
        &&& 1 <= self.bitmap@.height
        &&& self.wf_nodes()
        &&& self.wf_head()
        &&& self.wf_locations()
        &&& self.wf_disjoint()
        &&& self.wf_contents()
    }

    /// An empty packer: a one-pixel transparent bitmap and no nodes; the
    /// first added image re-sizes both.
    pub fn new() -> (r: ImagePack)
        ensures
            r.wf(),
            r.contents() == Map::<Seq<char>, ImageView>::empty(),
            forall|name: Seq<char>| !r.has_name(name),
            r.nodes_view().len() == 0,
            r.placed_area() == 0,
            r.bitmap_view().width == 1,
            r.bitmap_view().height == 1,
            forall|k: int|
                0 <= k < r.bitmap_view().data.len() ==> r.bitmap_view().data[k] == 0,
    {
        let r = ImagePack {
            bitmap: Image::from_color(1, 1, 0x00_00_00_00),
            nodes: Vec::new(),
            head: 0,
            locations: Vec::new(),
            contents: Ghost(Map::empty()),
        };
        proof {
            assert forall|name: Seq<char>| r.contents@.dom().contains(name) implies r.has_name(
                name,
            ) by {}
            assert forall|k: int|
                0 <= k < r.bitmap@.data.len() implies r.bitmap@.data[k] == 0 by {
                crate::bitmap::lemma_zero_color_channel(k % 4);
            }
        }
        r
    }

    /// Whether some free node can hold a `width * height` image.
    pub closed spec fn spec_has_space(&self, width: u32, height: u32) -> bool {
        exists|i: int|
            0 <= i < self.nodes@.len() && (#[trigger] self.nodes@[i]).spec_has_space(width, height)
    }

    fn has_space(&self, width: u32, height: u32) -> (r: bool)
        ensures
            r == self.spec_has_space(width, height),
    {
        let mut k: usize = 0;
        while k < self.nodes.len()
            invariant
                k <= self.nodes@.len(),
                forall|i: int|
                    0 <= i < k ==> !(#[trigger] self.nodes@[i]).spec_has_space(width, height),
            decreases self.nodes@.len() - k,
        {
            if self.nodes[k].has_space(width, height) {
                return true;
            }
            k = k + 1;
        }
        false
    }

    /// The backing bitmap holding every placed image.
    pub fn get_bitmap(&self) -> (r: &Image)
        ensures
            r@ == self.bitmap_view(),
    {
        &self.bitmap
    }

    /// Finds a free node at least `width * height` large, growing the tree
    /// by doubling while none exists and refining the choice by splitting
    /// while it is at least twice too large in one direction, then marks it
    /// occupied with that exact image size and returns its index.
    fn get_empty_node(&mut self, width: u32, height: u32) -> (r: usize)
        requires
            old(self).wf(),
            old(self).nodes@.len() >= 1,
            1 <= width <= MAX_PACK_IMAGE_DIM,
            1 <= height <= MAX_PACK_IMAGE_DIM,
            old(self).bitmap@.width <= MAX_PACK_DIM,
            old(self).bitmap@.height <= MAX_PACK_DIM,
        ensures
            final(self).wf(),
            final(self).locations == old(self).locations,
            final(self).contents == old(self).contents,
            r < final(self).nodes@.len(),
            !final(self).nodes@[r as int].available,
            !final(self).is_placed(r as int),
            final(self).nodes@[r as int].image_width == width,
            final(self).nodes@[r as int].image_height == height,
            width <= final(self).nodes@[r as int].width,
            height <= final(self).nodes@[r as int].height,
            final(self).nodes@[r as int].width < 2 * width,
            final(self).nodes@[r as int].height < 2 * height,
            final(self).nodes@.len() >= old(self).nodes@.len(),
            forall|i: int|
                0 <= i < old(self).nodes@.len() ==> node_geom_eq(
                    #[trigger] final(self).nodes@[i],
                    old(self).nodes@[i],
                ),
            forall|k: int|
                0 <= k < old(self).locations@.len()
                    ==> final(self).nodes@[(#[trigger] old(self).locations@[k]).1 as int]
                    == old(self).nodes@[old(self).locations@[k].1 as int],
            forall|i: int|
                0 <= i < final(self).nodes@.len() && i != r && #[trigger] final(self).is_active(i)
                    ==> rects_disjoint(
                    node_rect(final(self).nodes@[i]),
                    node_rect(final(self).nodes@[r as int]),
                ),
            final(self).bitmap@.width >= old(self).bitmap@.width,
            final(self).bitmap@.height >= old(self).bitmap@.height,
            final(self).bitmap@.width <= growth_bound(
                old(self).bitmap@.width as int,
                old(self).bitmap@.height as int,
                width as int,
                height as int,
            ),
            final(self).bitmap@.height <= growth_bound(
                old(self).bitmap@.width as int,
                old(self).bitmap@.height as int,
                width as int,
                height as int,
            ),
            old(self).spec_has_space(width, height) ==> final(self).bitmap == old(self).bitmap,
    {
        let ghost orig: ImagePack = *old(self);
        let ghost m: int = vstd::math::max(
            vstd::math::max(orig.bitmap@.width as int, orig.bitmap@.height as int),
            vstd::math::max(2 * width as int, 2 * height as int),
        );

        // Grow by doubling until some free node is large enough.
        let mut fits = self.has_space(width, height);
        let ghost mut grew: bool = false;
        let ghost mut leaf_i: int = 0;
        while !fits
            invariant
                self.wf(),
                self.nodes@.len() >= 1,
                1 <= width <= MAX_PACK_IMAGE_DIM,
                1 <= height <= MAX_PACK_IMAGE_DIM,
                self.locations == orig.locations,
                self.contents == orig.contents,
                forall|k: int|
                    0 <= k < orig.locations@.len()
                        ==> self.nodes@[(#[trigger] orig.locations@[k]).1 as int]
                        == orig.nodes@[orig.locations@[k].1 as int],
                fits == self.spec_has_space(width, height),
                self.bitmap@.width >= orig.bitmap@.width,
                self.bitmap@.height >= orig.bitmap@.height,
                1 <= m <= MAX_PACK_DIM,
                2 * width <= m,
                2 * height <= m,
                self.bitmap@.width <= 2 * m,
                self.bitmap@.height <= 2 * m,
                !grew ==> self.bitmap == orig.bitmap,
                !grew ==> self.bitmap@.width <= m && self.bitmap@.height <= m,
                orig.spec_has_space(width, height) ==> self.bitmap == orig.bitmap,
                orig.nodes@.len() <= self.nodes@.len(),
                forall|i: int|
                    0 <= i < orig.nodes@.len() ==> #[trigger] self.nodes@[i] == orig.nodes@[i],
                grew ==> 0 <= leaf_i < self.nodes@.len() && self.nodes@[leaf_i].available
                    && self.bitmap@.width <= 2 * self.nodes@[leaf_i].width && self.bitmap@.height
                    <= 2 * self.nodes@[leaf_i].height,
            decreases 4 * m - self.bitmap@.width - self.bitmap@.height,
        {
            proof {
                // If the pack already had room on entry, the loop cannot
                // be running: that free node is still here untouched.
                if orig.spec_has_space(width, height) {
                    let i = choose|i: int|
                        0 <= i < orig.nodes@.len() && (#[trigger] orig.nodes@[i]).spec_has_space(
                            width,
                            height,
                        );
                    assert(self.nodes@[i] == orig.nodes@[i]);
                    assert(self.spec_has_space(width, height));
                }
                // While the loop runs, the dimension about to double is at
                // most `m`: initially both are, and later the leaf exposed
                // by the previous doubling is still free, so it must be too
                // small for the request.
                if grew {
                    assert(!self.nodes@[leaf_i].spec_has_space(width, height));
                }
            }
            let ghost pre_len: int = self.nodes@.len() as int;
            if self.bitmap.width() <= self.bitmap.height() {
                proof {
                    assert(self.bitmap@.width <= m);
                    assert((self.bitmap@.width as int) * 2 * (self.bitmap@.height as int) * 4
                        <= u32::MAX) by (nonlinear_arith)
                        requires
                            0 <= self.bitmap@.width <= m,
                            0 <= self.bitmap@.height <= 2 * m,
                            1 <= m <= MAX_PACK_DIM,
                    ;
                }
                self.double_vert();
            } else {
                proof {
                    assert(self.bitmap@.height <= m);
                    assert((self.bitmap@.width as int) * ((self.bitmap@.height as int) * 2) * 4
                        <= u32::MAX) by (nonlinear_arith)
                        requires
                            0 <= self.bitmap@.height <= m,
                            0 <= self.bitmap@.width <= 2 * m,
                            1 <= m <= MAX_PACK_DIM,
                    ;
                }
                self.double_horz();
            }
            proof {
                grew = true;
                leaf_i = pre_len + 1;
            }
            fits = self.has_space(width, height);
        }

        // Among the nodes with room, pick the one with the smallest area.
        let mut best: usize = 0;
        let mut found = false;
        let mut k: usize = 0;
        while k < self.nodes.len()
            invariant
                k <= self.nodes@.len(),
                found ==> best < self.nodes@.len() && self.nodes@[best as int].spec_has_space(
                    width,
                    height,
                ),
                !found ==> forall|i: int|
                    0 <= i < k ==> !(#[trigger] self.nodes@[i]).spec_has_space(width, height),
            decreases self.nodes@.len() - k,
        {
            if self.nodes[k].has_space(width, height) {
                if !found {
                    best = k;
                    found = true;
                } else {
                    proof {
                        assert((self.nodes@[k as int].width as int) * (
                        self.nodes@[k as int].height as int) <= u64::MAX) by (nonlinear_arith)
                            requires
                                self.nodes@[k as int].width <= u32::MAX,
                                self.nodes@[k as int].height <= u32::MAX,
                        ;
                        assert((self.nodes@[best as int].width as int) * (
                        self.nodes@[best as int].height as int) <= u64::MAX) by (nonlinear_arith)
                            requires
                                self.nodes@[best as int].width <= u32::MAX,
                                self.nodes@[best as int].height <= u32::MAX,
                        ;
                    }
                    let cand = self.nodes[k].width as u64 * self.nodes[k].height as u64;
                    let cur = self.nodes[best].width as u64 * self.nodes[best].height as u64;
                    if cand < cur {
                        best = k;
                    }
                }
            }
            k = k + 1;
        }
        proof {
            if !found {
                assert(!self.spec_has_space(width, height));
            }
        }

        // Refine: while the chosen node could hold two requests side by
        // side, split it and continue with the half that keeps its corner.
        let mut node_id = best;
        let mut again = {
            let n = &self.nodes[node_id];
            n.has_space(width * 2, height) || n.has_space(width, height * 2)
        };
        while again
            invariant
                self.wf(),
                1 <= width <= MAX_PACK_IMAGE_DIM,
                1 <= height <= MAX_PACK_IMAGE_DIM,
                node_id < self.nodes@.len(),
                self.nodes@[node_id as int].spec_has_space(width, height),
                again == (self.nodes@[node_id as int].spec_has_space((width * 2) as u32, height)
                    || self.nodes@[node_id as int].spec_has_space(width, (height * 2) as u32)),
                self.locations == orig.locations,
                self.contents == orig.contents,
                self.bitmap@.width >= orig.bitmap@.width,
                self.bitmap@.height >= orig.bitmap@.height,
                self.bitmap@.width <= 2 * m,
                self.bitmap@.height <= 2 * m,
                m == vstd::math::max(
                    vstd::math::max(orig.bitmap@.width as int, orig.bitmap@.height as int),
                    vstd::math::max(2 * width as int, 2 * height as int),
                ),
                orig.spec_has_space(width, height) ==> self.bitmap == orig.bitmap,
                self.nodes@.len() >= orig.nodes@.len(),
                forall|i: int|
                    0 <= i < orig.nodes@.len() ==> node_geom_eq(
                        #[trigger] self.nodes@[i],
                        orig.nodes@[i],
                    ),
                forall|k: int|
                    0 <= k < orig.locations@.len()
                        ==> self.nodes@[(#[trigger] orig.locations@[k]).1 as int]
                        == orig.nodes@[orig.locations@[k].1 as int],
            decreases (self.nodes@[node_id as int].width as int) * (
            self.nodes@[node_id as int].height as int),
        {
            let ghost area0: int = (self.nodes@[node_id as int].width as int) * (
            self.nodes@[node_id as int].height as int);
            if self.nodes[node_id].has_space(width * 2, height) {
                proof {
                    let n = self.nodes@[node_id as int];
                    assert((n.width / 2) as int * (n.height as int) < (n.width as int) * (
                    n.height as int)) by (nonlinear_arith)
                        requires
                            2 <= n.width,
                            1 <= n.height,
                    ;
                }
                self.split_vert(node_id);
                node_id = self.nodes.len() - 1;
            }
            if self.nodes[node_id].has_space(width, height * 2) {
                proof {
                    let n = self.nodes@[node_id as int];
                    assert((n.width as int) * ((n.height / 2) as int) < (n.width as int) * (
                    n.height as int)) by (nonlinear_arith)
                        requires
                            2 <= n.height,
                            1 <= n.width,
                    ;
                }
                self.split_horz(node_id);
                node_id = self.nodes.len() - 1;
            }
            again = {
                let n = &self.nodes[node_id];
                n.has_space(width * 2, height) || n.has_space(width, height * 2)
            };
        }

        proof {
            // The refinement loop only stops once neither direction could
            // hold two copies of the request.
            let n = self.nodes@[node_id as int];
            assert(!n.spec_has_space((width * 2) as u32, height));
            assert(!n.spec_has_space(width, (height * 2) as u32));
            assert(n.width < 2 * width && n.height < 2 * height);
        }
        self.mark_occupied(node_id, width, height);
        node_id
    }

    /// Position of `key` in the name table.
    fn find_name_index(&self, key: &String) -> (r: Option<usize>)
        ensures
            match r {
                Some(k) => k < self.locations@.len() && self.locations@[k as int].0@ == key@,
                None => !self.has_name(key@),
            },
    {
        let mut k: usize = 0;
        while k < self.locations.len()
            invariant
                k <= self.locations@.len(),
                forall|i: int| 0 <= i < k ==> #[trigger] self.locations@[i].0@ != key@,
            decreases self.locations@.len() - k,
        {
            if self.locations[k].0 == *key {
                return Some(k);
            }
            k = k + 1;
        }
        None
    }

    /// Places `image` into the atlas under `image_name`.
    ///
    /// On the first call the tree is bootstrapped with a single leaf sized
    /// exactly to the image.  The tree then grows by doubling until the
    /// image fits, the backing bitmap is enlarged (existing content
    /// preserved), and the image's pixels are blitted in.  Rejects a zero
    /// sized image and a name that is already taken; the size bounds in the
    /// preconditions keep all pixel arithmetic within `u32`.
    pub fn add_image(&mut self, image_name: &str, image: Image) -> (r: Result<(), AtlasError>)
        requires
            old(self).wf(),
            image@.wf(),
            image@.width <= MAX_PACK_IMAGE_DIM,
            image@.height <= MAX_PACK_IMAGE_DIM,
            old(self).bitmap_view().width <= MAX_PACK_DIM,
            old(self).bitmap_view().height <= MAX_PACK_DIM,
        ensures
            final(self).wf(),
            r == Err::<(), AtlasError>(AtlasError::InvalidImageDimensions) <==> (image@.width == 0
                || image@.height == 0),
            r == Err::<(), AtlasError>(AtlasError::DuplicateName) <==> (image@.width > 0
                && image@.height > 0 && old(self).has_name(image_name@)),
            r == Ok::<(), AtlasError>(()) <==> (image@.width > 0 && image@.height > 0
                && !old(self).has_name(image_name@)),
            r is Err ==> *final(self) == *old(self),
            r is Ok ==> {
                &&& final(self).contents() == old(self).contents().insert(image_name@, image@)
                &&& final(self).has_name(image_name@)
                &&& final(self).rect_of(image_name@).w == image@.width
                &&& final(self).rect_of(image_name@).h == image@.height
                &&& rect_in_bounds(
                    final(self).rect_of(image_name@),
                    final(self).bitmap_view().width as int,
                    final(self).bitmap_view().height as int,
                )
                &&& forall|n: Seq<char>|
                    #[trigger] final(self).has_name(n) <==> (old(self).has_name(n) || n
                        == image_name@)
                &&& forall|n: Seq<char>|
                    #[trigger] old(self).has_name(n) ==> final(self).has_name(n)
                        && final(self).rect_of(n) == old(self).rect_of(n)
                &&& final(self).bitmap_view().width >= old(self).bitmap_view().width
                &&& final(self).bitmap_view().height >= old(self).bitmap_view().height
                &&& final(self).placed_area() == old(self).placed_area() + image@.width
                    * image@.height
                &&& (old(self).nodes_view().len() > 0 && old(self).spec_has_space(
                    image@.width as u32,
                    image@.height as u32,
                ) ==> final(self).bitmap_view().width == old(self).bitmap_view().width
                    && final(self).bitmap_view().height == old(self).bitmap_view().height)
                &&& (old(self).nodes_view().len() == 0 ==> final(self).bitmap_view().width
                    == image@.width && final(self).bitmap_view().height == image@.height)
                &&& final(self).bitmap_view().width <= growth_bound(
                    old(self).bitmap_view().width as int,
                    old(self).bitmap_view().height as int,
                    image@.width as int,
                    image@.height as int,
                )
                &&& final(self).bitmap_view().height <= growth_bound(
                    old(self).bitmap_view().width as int,
                    old(self).bitmap_view().height as int,
                    image@.width as int,
                    image@.height as int,
                )
                &&& final(self).nodes_view().len() >= old(self).nodes_view().len()
                &&& forall|i: int|
                    0 <= i < old(self).nodes_view().len() ==> node_geom_eq(
                        #[trigger] final(self).nodes_view()[i],
                        old(self).nodes_view()[i],
                    )
            },
    {
        if image.width() == 0 || image.height() == 0 {
            return Err(AtlasError::InvalidImageDimensions);
        }
        let key = String::from_str(image_name);
        if self.find_name_index(&key).is_some() {
            return Err(AtlasError::DuplicateName);
        }

        if self.nodes.len() == 0 {
            proof {
                assert((image@.width as int) * (image@.height as int) * 4 <= u32::MAX)
                    by (nonlinear_arith)
                    requires
                        image@.width <= MAX_PACK_IMAGE_DIM,
                        image@.height <= MAX_PACK_IMAGE_DIM,
                ;
            }
            self.nodes.push(ImagePackNode::new(0, 0, image.width(), image.height()));
            self.bitmap.resize(image.width(), image.height());
            proof {
                assert(self.locations@.len() == 0);
                assert forall|i: int, j: int|
                    0 <= i < self.nodes@.len() && 0 <= j < self.nodes@.len() && i != j
                        && #[trigger] self.is_active(i) && #[trigger] self.is_active(j)
                    implies rects_disjoint(
                    node_rect(self.nodes@[i]),
                    node_rect(self.nodes@[j]),
                ) by {}
                assert forall|name: Seq<char>|
                    self.contents@.dom().contains(name) implies self.has_name(name) by {
                    assert(old(self).has_name(name));
                }
                assert(self.wf());
            }
        }

        let ghost pre_get: ImagePack = *self;
        let id = self.get_empty_node(image.width(), image.height());
        let nx = self.nodes[id].x;
        let ny = self.nodes[id].y;

        let ghost imgv: ImageView = image@;
        let ghost pre_push: ImagePack = *self;
        self.locations.push((key, id));
        proof {
            self.contents@ = self.contents@.insert(image_name@, imgv);
        }
        let ghost pre_draw: ImagePack = *self;
        self.bitmap.draw(nx, ny, image);

        proof {
            let post = *self;
            let len_loc = pre_push.locations@.len() as int;
            let nid = id as int;
            let node = post.nodes@[nid];

            // The new location entry is the last one; placement grows by
            // exactly the chosen node.
            assert(post.locations@ == pre_push.locations@.push((key, id)));
            assert(post.locations@[len_loc].0@ == image_name@);
            assert(post.locations@[len_loc].1 == id);

            assert forall|i: int| #[trigger] post.is_placed(i) implies (pre_push.is_placed(i) || i
                == nid) by {
                let k = choose|k: int|
                    0 <= k < post.locations@.len() && #[trigger] post.locations@[k].1 == i;
                if k < len_loc {
                    assert(pre_push.locations@[k].1 == i);
                }
            }
            assert forall|i: int| pre_push.is_placed(i) implies #[trigger] post.is_placed(i) by {
                let k = choose|k: int|
                    0 <= k < pre_push.locations@.len() && #[trigger] pre_push.locations@[k].1 == i;
                assert(post.locations@[k].1 == i);
            }
            assert(post.is_placed(nid));

            // No old entry names the new image or its node.
            assert(!pre_push.has_name(image_name@));
            assert(!pre_push.is_placed(nid));
            assert forall|k: int| 0 <= k < len_loc implies #[trigger] post.locations@[k].1 != nid
                by {
                if post.locations@[k].1 == nid {
                    assert(pre_push.locations@[k].1 == nid);
                }
            }

            assert(post.wf_nodes());
            assert(post.wf_head());
            assert(post.wf_locations());

            assert forall|i: int, j: int|
                0 <= i < post.nodes@.len() && 0 <= j < post.nodes@.len() && i != j
                    && #[trigger] post.is_active(i) && #[trigger] post.is_active(j)
                implies rects_disjoint(
                node_rect(post.nodes@[i]),
                node_rect(post.nodes@[j]),
            ) by {
                if i != nid && j != nid {
                    assert(pre_push.is_active(i) && pre_push.is_active(j));
                } else if i == nid {
                    assert(pre_push.is_active(j));
                } else {
                    assert(pre_push.is_active(i));
                }
            }
            assert(post.wf_disjoint());

            // Contents: every old entry's pixels are outside the blitted
            // rectangle, and the new entry's pixels are exactly the image.
            assert forall|k: int| 0 <= k < post.locations@.len() implies {
                let name = (#[trigger] post.locations@[k]).0@;
                let n = post.nodes@[post.locations@[k].1 as int];
                let img = post.contents@[name];
                &&& post.contents@.dom().contains(name)
                &&& img.wf()
                &&& img.width == n.image_width
                &&& img.height == n.image_height
                &&& forall|px: int, py: int, cc: int|
                    0 <= px < img.width && 0 <= py < img.height && 0 <= cc < 4
                        ==> post.bitmap@.chan(n.x + px, n.y + py, cc) == #[trigger] img.chan(
                        px,
                        py,
                        cc,
                    )
            } by {
                let name = post.locations@[k].0@;
                let n = post.nodes@[post.locations@[k].1 as int];
                if k < len_loc {
                    assert(pre_push.locations@[k] == post.locations@[k]);
                    assert(name != image_name@);
                    let img = post.contents@[name];
                    assert(img == pre_push.contents@[name]);
                    let i0 = pre_push.locations@[k].1 as int;
                    assert(0 <= k < pre_push.locations@.len() && pre_push.locations@[k].1 == i0);
                    assert(pre_push.is_placed(i0));
                    assert(pre_push.is_active(i0));
                    assert(i0 != nid);
                    assert(rects_disjoint(
                        node_rect(pre_push.nodes@[i0]),
                        node_rect(pre_push.nodes@[nid]),
                    ));
                    assert(pre_push.nodes@ == post.nodes@);
                    assert(rects_disjoint(node_rect(n), node_rect(node)));
                    assert forall|px: int, py: int, cc: int|
                        0 <= px < img.width && 0 <= py < img.height && 0 <= cc < 4
                        implies post.bitmap@.chan(n.x + px, n.y + py, cc) == #[trigger] img.chan(
                        px,
                        py,
                        cc,
                    ) by {
                        assert(pre_draw.bitmap@.chan(n.x + px, n.y + py, cc) == img.chan(
                            px,
                            py,
                            cc,
                        ));
                        assert(!(nx <= n.x + px < nx + imgv.width && ny <= n.y + py < ny
                            + imgv.height));
                    }
                } else {
                    assert(name == image_name@);
                    let img = post.contents@[name];
                    assert(img == imgv);
                    assert(n == post.nodes@[nid]);
                }
            }
            assert forall|name: Seq<char>|
                post.contents@.dom().contains(name) implies post.has_name(name) by {
                if name == image_name@ {
                    assert(post.locations@[len_loc].0@ == name);
                } else {
                    assert(pre_push.has_name(name));
                    let k = choose|k: int|
                        0 <= k < pre_push.locations@.len() && #[trigger] pre_push.locations@[k].0@
                            == name;
                    assert(post.locations@[k].0@ == name);
                }
            }
            assert(post.wf_contents());
            assert(post.wf());

            // Lookup of the new name resolves to the chosen node.
            assert(post.has_name(image_name@));
            let kc = choose|k: int|
                0 <= k < post.locations@.len() && #[trigger] post.locations@[k].0@ == image_name@;
            assert(post.locations@[kc].1 == id);
            assert(post.rect_of(image_name@) == image_rect(node));

            // Lookup of every old name is unchanged.
            assert forall|nm: Seq<char>| #[trigger] old(self).has_name(nm) implies post.has_name(
                nm,
            ) && post.rect_of(nm) == old(self).rect_of(nm) by {
                let k0 = choose|k: int|
                    0 <= k < old(self).locations@.len() && #[trigger] old(self).locations@[k].0@
                        == nm;
                assert(pre_push.locations@ == old(self).locations@);
                assert(post.locations@[k0].0@ == nm);
                assert(post.has_name(nm));
                let k1 = choose|k: int|
                    0 <= k < post.locations@.len() && #[trigger] post.locations@[k].0@ == nm;
                assert(k1 < len_loc);
                let k2 = choose|k: int|
                    0 <= k < old(self).locations@.len() && #[trigger] old(self).locations@[k].0@
                        == nm;
                assert(old(self).locations@[k1].0@ == nm);
                if k1 != k2 {
                    assert(false);
                }
                // The node of an already placed image was not touched.
                assert(post.nodes@[post.locations@[k1].1 as int]
                    == old(self).nodes@[old(self).locations@[k2].1 as int]);
            }

            // The total placed area grows by exactly the image's area.
            assert(old(self).locations@.len() == len_loc);
            assert forall|j: int| 0 <= j < len_loc implies #[trigger] post.nodes@[old(
                self,
            ).locations@[j].1 as int] == old(self).nodes@[old(self).locations@[j].1 as int] by {}
            lemma_areas_sum_congruence(
                old(self).nodes@,
                old(self).locations@,
                post.nodes@,
                post.locations@,
                len_loc,
            );
            assert(image_rect(node).w == imgv.width && image_rect(node).h == imgv.height);
            assert(post.placed_area() == areas_sum(post.nodes@, post.locations@, len_loc)
                + image_rect(node).w * image_rect(node).h);

            // A name is placed afterwards exactly when it was placed before
            // or is the name just added.
            assert forall|n: Seq<char>| #[trigger] post.has_name(n) implies (old(self).has_name(n)
                || n == image_name@) by {
                let k = choose|k: int|
                    0 <= k < post.locations@.len() && #[trigger] post.locations@[k].0@ == n;
                if k < len_loc {
                    assert(old(self).locations@[k].0@ == n);
                }
            }
            assert forall|n: Seq<char>|
                old(self).has_name(n) || n == image_name@ implies #[trigger] post.has_name(n) by {
                if old(self).has_name(n) {
                    let k = choose|k: int|
                        0 <= k < old(self).locations@.len() && #[trigger] old(
                            self,
                        ).locations@[k].0@ == n;
                    assert(post.locations@[k].0@ == n);
                } else {
                    assert(post.locations@[len_loc].0@ == n);
                }
            }

            // Bitmap size: the bootstrap leaf fits the image exactly, so no
            // growth follows it, and otherwise the doubling bound applies to
            // the entry state unchanged.
            if old(self).nodes@.len() == 0 {
                assert(pre_get.nodes@[0].spec_has_space(imgv.width as u32, imgv.height as u32));
                assert(pre_get.spec_has_space(imgv.width as u32, imgv.height as u32));
                assert(post.bitmap@.width == imgv.width && post.bitmap@.height == imgv.height);
            } else {
                assert(pre_get.bitmap@ == old(self).bitmap@);
            }
            assert(post.bitmap@.width <= growth_bound(
                old(self).bitmap@.width as int,
                old(self).bitmap@.height as int,
                imgv.width as int,
                imgv.height as int,
            ));
            assert(post.bitmap@.height <= growth_bound(
                old(self).bitmap@.width as int,
                old(self).bitmap@.height as int,
                imgv.width as int,
                imgv.height as int,
            ));

            // The arena is append-only: every pre-existing node keeps its
            // geometry and child links.
            assert forall|i: int| 0 <= i < old(self).nodes@.len() implies node_geom_eq(
                #[trigger] post.nodes@[i],
                old(self).nodes@[i],
            ) by {
                assert(node_geom_eq(pre_push.nodes@[i], pre_get.nodes@[i]));
                assert(pre_get.nodes@[i] == old(self).nodes@[i]);
            }
        }
        Ok(())
    }

    /// Any two distinct placed images occupy disjoint rectangles of the
    /// backing bitmap.
    pub proof fn lemma_placed_disjoint(&self, n1: Seq<char>, n2: Seq<char>)
        requires
            self.wf(),
            self.has_name(n1),
            self.has_name(n2),
            n1 != n2,
        ensures
            rects_disjoint(self.rect_of(n1), self.rect_of(n2)),
    {
        let k1 = choose|k: int|
            0 <= k < self.locations@.len() && #[trigger] self.locations@[k].0@ == n1;
        let k2 = choose|k: int|
            0 <= k < self.locations@.len() && #[trigger] self.locations@[k].0@ == n2;
        let id1 = self.locations@[k1].1 as int;
        let id2 = self.locations@[k2].1 as int;
        assert(self.id_of(n1) == id1);
        assert(self.id_of(n2) == id2);
        assert(k1 != k2);
        assert(id1 != id2);
        assert(self.is_placed(id1) && self.is_placed(id2));
        assert(self.is_active(id1) && self.is_active(id2));
        assert(rects_disjoint(node_rect(self.nodes@[id1]), node_rect(self.nodes@[id2])));
    }

    /// Every placed image's rectangle lies fully inside the backing bitmap.
    pub proof fn lemma_placed_in_bounds(&self, name: Seq<char>)
        requires
            self.wf(),
            self.has_name(name),
        ensures
            rect_in_bounds(
                self.rect_of(name),
                self.bitmap_view().width as int,
                self.bitmap_view().height as int,
            ),
    {
        let k = choose|k: int|
            0 <= k < self.locations@.len() && #[trigger] self.locations@[k].0@ == name;
        let id = self.locations@[k].1 as int;
        assert(self.id_of(name) == id);
        assert(self.is_placed(id));
    }

    /// The pixels recorded for every placed image are exactly the crop of
    /// the backing bitmap at that image's rectangle, so looking an image up
    /// returns what was added.
    pub proof fn lemma_round_trip(&self, name: Seq<char>)
        requires
            self.wf(),
            self.has_name(name),
        ensures
            self.contents().dom().contains(name),
            self.contents()[name].width == self.rect_of(name).w,
            self.contents()[name].height == self.rect_of(name).h,
            forall|px: int, py: int, cc: int|
                0 <= px < self.rect_of(name).w && 0 <= py < self.rect_of(name).h && 0 <= cc < 4
                    ==> self.bitmap_view().chan(
                    self.rect_of(name).x + px,
                    self.rect_of(name).y + py,
                    cc,
                ) == #[trigger] self.contents()[name].chan(px, py, cc),
    {
        let k = choose|k: int|
            0 <= k < self.locations@.len() && #[trigger] self.locations@[k].0@ == name;
        let id = self.locations@[k].1 as int;
        assert(self.id_of(name) == id);
        assert(self.rect_of(name) == image_rect(self.nodes@[id]));
    }

    /// Total area, in pixels, of all placed images.
    pub closed spec fn placed_area(&self) -> int {
        areas_sum(self.nodes@, self.locations@, self.locations@.len() as int)
    }

    /// The cells of the first `k` placed images are pairwise disjoint, lie
    /// inside the backing bitmap, and number exactly the images' total
    /// area.
    proof fn lemma_cells_union_card(&self, k: int)
        requires
            self.wf(),
            0 <= k <= self.locations@.len(),
        ensures
            cells_union(self.nodes@, self.locations@, k).finite(),
            cells_union(self.nodes@, self.locations@, k).len() == areas_sum(
                self.nodes@,
                self.locations@,
                k,
            ),
            cells_union(self.nodes@, self.locations@, k).subset_of(
                rect_cells(
                    Rect {
                        x: 0,
                        y: 0,
                        w: self.bitmap@.width as int,
                        h: self.bitmap@.height as int,
                    },
                ),
            ),
        decreases k,
    {
        if k > 0 {
            self.lemma_cells_union_card(k - 1);
            let prev = cells_union(self.nodes@, self.locations@, k - 1);
            let id = self.locations@[k - 1].1 as int;
            let full = node_rect(self.nodes@[id]);
            let img = image_rect(self.nodes@[id]);
            let cells = rect_cells(img);
            lemma_rect_cells_card(img);

            // The new image's cells avoid every earlier image's cells:
            // the underlying nodes are distinct and active, so their full
            // rectangles are disjoint.
            assert forall|p: (int, int)| prev.contains(p) implies !cells.contains(p) by {
                lemma_cells_union_member(self.nodes@, self.locations@, k - 1, p);
                let j = choose|j: int|
                    0 <= j < k - 1 && #[trigger] rect_cells(
                        image_rect(self.nodes@[self.locations@[j].1 as int]),
                    ).contains(p);
                let jd = self.locations@[j].1 as int;
                assert(self.is_placed(jd) && self.is_placed(id));
                assert(self.is_active(jd) && self.is_active(id));
                assert(jd != id);
                assert(rects_disjoint(node_rect(self.nodes@[jd]), node_rect(self.nodes@[id])));
                lemma_disjoint_rect_cells(node_rect(self.nodes@[jd]), node_rect(self.nodes@[id]));
                assert(rect_cells(image_rect(self.nodes@[jd])).subset_of(
                    rect_cells(node_rect(self.nodes@[jd])),
                ));
                assert(cells.subset_of(rect_cells(full)));
            }
            assert(prev.disjoint(cells));
            vstd::set_lib::lemma_set_disjoint_lens(prev, cells);
        }
    }

    /// Because placed images are disjoint and lie inside the backing
    /// bitmap, their total area never exceeds the bitmap's area: once the
    /// images added exceed the current capacity, the bitmap must have
    /// grown.
    pub proof fn lemma_placed_area_bounded(&self)
        requires
            self.wf(),
        ensures
            0 <= self.placed_area(),
            self.placed_area() <= self.bitmap_view().width * self.bitmap_view().height,
    {
        let len = self.locations@.len() as int;
        let grid = Rect { x: 0, y: 0, w: self.bitmap@.width as int, h: self.bitmap@.height as int };
        self.lemma_cells_union_card(len);
        lemma_rect_cells_card(grid);
        vstd::set_lib::lemma_len_subset(
            cells_union(self.nodes@, self.locations@, len),
            rect_cells(grid),
        );
    }

    /// Returns a copy of the named image, cropped back out of the backing
    /// bitmap; pixel-identical to the image that was added.
    pub fn get_image(&self, image_name: &str) -> (r: Result<Image, AtlasError>)
        requires
            self.wf(),
        ensures
            match r {
                Ok(img) => self.has_name(image_name@) && img@ == self.contents()[image_name@],
                Err(e) => e == AtlasError::UnknownName && !self.has_name(image_name@),
            },
    {
        let key = String::from_str(image_name);
        let k = match self.find_name_index(&key) {
            Some(k) => k,
            None => {
                return Err(AtlasError::UnknownName);
            },
        };
        let id = self.locations[k].1;
        let node = self.nodes[id];
        let img = self.bitmap.crop(node.x, node.y, node.image_width, node.image_height);
        proof {
            let name = image_name@;
            let stored = self.contents@[name];
            assert(self.locations@[k as int].0@ == name);
            assert(self.contents@.dom().contains(name));
            assert(stored.width == node.image_width && stored.height == node.image_height);
            assert forall|px: int, py: int, cc: int|
                0 <= px < img@.width && 0 <= py < img@.height && 0 <= cc < 4 implies img@.chan(
                px,
                py,
                cc,
            ) == #[trigger] stored.chan(px, py, cc) by {
                assert(img@.chan(px, py, cc) == self.bitmap@.chan(node.x + px, node.y + py, cc));
            }
            lemma_image_views_equal(img@, stored);
        }
        Ok(img)
    }
}

/// Re-establishes the packer invariant after a split: the free node at
/// `node_id` was marked unavailable and replaced by two fresh free leaves
/// that lie inside it and do not overlap each other.
proof fn lemma_split_wf(
    pre: ImagePack,
    post: ImagePack,
    node_id: int,
    first: ImagePackNode,
    second: ImagePackNode,
)
    requires
        pre.wf(),
        0 <= node_id < pre.nodes@.len(),
        pre.nodes@[node_id].available,
        post.bitmap == pre.bitmap,
        post.locations == pre.locations,
        post.contents == pre.contents,
        post.head == pre.head,
        post.nodes@ == pre.nodes@.update(
            node_id,
            ImagePackNode { available: false, ..pre.nodes@[node_id] },
        ).push(first).push(second),
        first.available,
        second.available,
        first.image_width == first.width,
        first.image_height == first.height,
        second.image_width == second.width,
        second.image_height == second.height,
        1 <= first.width,
        1 <= first.height,
        1 <= second.width,
        1 <= second.height,
        rect_within(node_rect(first), node_rect(pre.nodes@[node_id])),
        rect_within(node_rect(second), node_rect(pre.nodes@[node_id])),
        rects_disjoint(node_rect(first), node_rect(second)),
    ensures
        post.wf(),
{
    let len = pre.nodes@.len() as int;

    // The split node held no image: placed nodes are never available.
    assert(!pre.is_placed(node_id));

    // Placement is decided by the name table alone, which did not change.
    assert forall|i: int| #[trigger] post.is_placed(i) == pre.is_placed(i) by {
        if pre.is_placed(i) {
            let k = choose|k: int|
                0 <= k < pre.locations@.len() && #[trigger] pre.locations@[k].1 == i;
            assert(post.locations@[k].1 == i);
        }
        if post.is_placed(i) {
            let k = choose|k: int|
                0 <= k < post.locations@.len() && #[trigger] post.locations@[k].1 == i;
            assert(pre.locations@[k].1 == i);
        }
    }

    // The fresh leaves hold no image either: location entries point below
    // the old arena length.
    assert(!post.is_placed(len) && !post.is_placed(len + 1));
    assert(!post.is_active(node_id));

    assert(post.wf_nodes());
    assert(post.wf_head());
    assert(post.wf_locations());

    assert forall|i: int, j: int|
        0 <= i < post.nodes@.len() && 0 <= j < post.nodes@.len() && i != j
            && #[trigger] post.is_active(i) && #[trigger] post.is_active(j) implies rects_disjoint(
        node_rect(post.nodes@[i]),
        node_rect(post.nodes@[j]),
    ) by {
        if i < len && j < len {
            assert(pre.is_active(i) && pre.is_active(j));
        } else {
            // One index is a fresh leaf; the other is either the second
            // fresh leaf or an old active node, which the split node was
            // disjoint from.
            assert(pre.is_active(node_id));
            if i < len {
                assert(pre.is_active(i));
                assert(rects_disjoint(node_rect(pre.nodes@[i]), node_rect(pre.nodes@[node_id])));
            }
            if j < len {
                assert(pre.is_active(j));
                assert(rects_disjoint(node_rect(pre.nodes@[j]), node_rect(pre.nodes@[node_id])));
            }
        }
    }

    assert forall|name: Seq<char>| post.contents@.dom().contains(name) implies post.has_name(
        name,
    ) by {
        assert(pre.has_name(name));
        let k = choose|k: int|
            0 <= k < pre.locations@.len() && #[trigger] pre.locations@[k].0@ == name;
        assert(post.locations@[k].0@ == name);
    }
    assert(post.wf_contents());
}

/// Decomposes a byte index of an RGBA8 buffer into its pixel coordinates
/// and channel.
proof fn lemma_pix_index_decompose(w: int, h: int, k: int)
    by (nonlinear_arith)
    requires
        1 <= w,
        0 <= h,
        0 <= k < w * h * 4,
    ensures
        0 <= k % 4 < 4,
        0 <= (k / 4) % w < w,
        0 <= (k / 4) / w < h,
        pix_idx(w, (k / 4) % w, (k / 4) / w, k % 4) == k,
{
}

/// Two well-formed images with the same dimensions and the same channel
/// values everywhere are equal.
proof fn lemma_image_views_equal(a: ImageView, b: ImageView)
    requires
        a.wf(),
        b.wf(),
        a.width == b.width,
        a.height == b.height,
        forall|x: int, y: int, c: int|
            0 <= x < a.width && 0 <= y < a.height && 0 <= c < 4 ==> a.chan(x, y, c) == #[trigger] b.chan(
                x,
                y,
                c,
            ),
    ensures
        a == b,
{
    if a.width >= 1 {
        assert forall|k: int| 0 <= k < a.data.len() implies a.data[k] == b.data[k] by {
            lemma_pix_index_decompose(a.width as int, a.height as int, k);
            let x = (k / 4) % (a.width as int);
            let y = (k / 4) / (a.width as int);
            let c = k % 4;
            assert(a.chan(x, y, c) == b.chan(x, y, c));
        }
        assert(a.data =~= b.data);
    } else {
        assert(a.data.len() == 0 && b.data.len() == 0) by (nonlinear_arith)
            requires
                a.width == 0,
                a.data.len() == a.width * a.height * 4,
                b.data.len() == b.width * b.height * 4,
                b.width == a.width,
        ;
        assert(a.data =~= b.data);
    }
}

/// Re-establishes the packer invariant after a doubling step: the backing
/// bitmap grew in one dimension (content preserved), a new unavailable
/// composite head covering the whole grown bitmap was appended, and one new
/// free leaf covering exactly the newly exposed area was appended after it.
proof fn lemma_double_wf(
    pre: ImagePack,
    post: ImagePack,
    new_head: ImagePackNode,
    leaf: ImagePackNode,
)
    requires
        pre.wf(),
        pre.nodes@.len() >= 1,
        post.locations == pre.locations,
        post.contents == pre.contents,
        post.nodes@ == pre.nodes@.push(new_head).push(leaf),
        post.head == pre.nodes@.len(),
        post.bitmap@.wf(),
        post.bitmap@.width >= pre.bitmap@.width,
        post.bitmap@.height >= pre.bitmap@.height,
        forall|xx: int, yy: int, cc: int|
            0 <= xx < pre.bitmap@.width && 0 <= yy < pre.bitmap@.height && 0 <= cc < 4
                ==> post.bitmap@.chan(xx, yy, cc) == pre.bitmap@.chan(xx, yy, cc),
        !new_head.available,
        new_head.x == 0,
        new_head.y == 0,
        new_head.width == post.bitmap@.width,
        new_head.height == post.bitmap@.height,
        new_head.image_width <= new_head.width,
        new_head.image_height <= new_head.height,
        1 <= new_head.width,
        1 <= new_head.height,
        leaf.available,
        leaf.image_width == leaf.width,
        leaf.image_height == leaf.height,
        1 <= leaf.width,
        1 <= leaf.height,
        rect_in_bounds(node_rect(leaf), post.bitmap@.width as int, post.bitmap@.height as int),
        leaf.x >= pre.bitmap@.width || leaf.y >= pre.bitmap@.height,
    ensures
        post.wf(),
{
    let len = pre.nodes@.len() as int;

    assert forall|i: int| #[trigger] post.is_placed(i) == pre.is_placed(i) by {
        if pre.is_placed(i) {
            let k = choose|k: int|
                0 <= k < pre.locations@.len() && #[trigger] pre.locations@[k].1 == i;
            assert(post.locations@[k].1 == i);
        }
        if post.is_placed(i) {
            let k = choose|k: int|
                0 <= k < post.locations@.len() && #[trigger] post.locations@[k].1 == i;
            assert(pre.locations@[k].1 == i);
        }
    }
    assert(!post.is_placed(len) && !post.is_placed(len + 1));
    assert(!post.is_active(len));

    assert(post.wf_nodes());
    assert(post.wf_head());
    assert(post.wf_locations());

    assert forall|i: int, j: int|
        0 <= i < post.nodes@.len() && 0 <= j < post.nodes@.len() && i != j
            && #[trigger] post.is_active(i) && #[trigger] post.is_active(j) implies rects_disjoint(
        node_rect(post.nodes@[i]),
        node_rect(post.nodes@[j]),
    ) by {
        if i < len && j < len {
            assert(pre.is_active(i) && pre.is_active(j));
        }
        // Otherwise one of them is the new leaf (the composite head is not
        // active), which lies beyond the old bitmap, while every old node
        // lies inside it.
    }

    assert forall|name: Seq<char>| post.contents@.dom().contains(name) implies post.has_name(
        name,
    ) by {
        assert(pre.has_name(name));
        let k = choose|k: int|
            0 <= k < pre.locations@.len() && #[trigger] pre.locations@[k].0@ == name;
        assert(post.locations@[k].0@ == name);
    }

    assert forall|k: int| 0 <= k < post.locations@.len() implies {
        let name = (#[trigger] post.locations@[k]).0@;
        let n = post.nodes@[post.locations@[k].1 as int];
        let img = post.contents@[name];
        &&& post.contents@.dom().contains(name)
        &&& img.wf()
        &&& img.width == n.image_width
        &&& img.height == n.image_height
        &&& forall|px: int, py: int, cc: int|
            0 <= px < img.width && 0 <= py < img.height && 0 <= cc < 4 ==> post.bitmap@.chan(
                n.x + px,
                n.y + py,
                cc,
            ) == #[trigger] img.chan(px, py, cc)
    } by {
        let name = post.locations@[k].0@;
        let n = post.nodes@[post.locations@[k].1 as int];
        let img = post.contents@[name];
        assert(post.locations@[k] == pre.locations@[k]);
        assert(n == pre.nodes@[pre.locations@[k].1 as int]);
        assert forall|px: int, py: int, cc: int|
            0 <= px < img.width && 0 <= py < img.height && 0 <= cc < 4 implies post.bitmap@.chan(
            n.x + px,
            n.y + py,
            cc,
        ) == #[trigger] img.chan(px, py, cc) by {
            assert(0 <= n.x + px < pre.bitmap@.width);
            assert(0 <= n.y + py < pre.bitmap@.height);
        }
    }
    assert(post.wf_contents());
}

impl ImagePack {
    /// Doubles the bitmap height: stacks a fresh free leaf of the current
    /// size above the current head, under a new composite head twice as
    /// tall.
    fn double_horz(&mut self)
        requires
            old(self).wf(),
            old(self).nodes@.len() >= 1,
            old(self).bitmap@.width * (old(self).bitmap@.height * 2) * 4 <= u32::MAX,
        ensures
            final(self).wf(),
            final(self).locations == old(self).locations,
            final(self).contents == old(self).contents,
            final(self).bitmap@.width == old(self).bitmap@.width,
            final(self).bitmap@.height == old(self).bitmap@.height * 2,
            forall|xx: int, yy: int, cc: int|
                0 <= xx < old(self).bitmap@.width && 0 <= yy < old(self).bitmap@.height && 0 <= cc
                    < 4 ==> final(self).bitmap@.chan(xx, yy, cc) == old(self).bitmap@.chan(
                    xx,
                    yy,
                    cc,
                ),
            final(self).nodes@.len() == old(self).nodes@.len() + 2,
            forall|i: int|
                0 <= i < old(self).nodes@.len() ==> final(self).nodes@[i] == old(self).nodes@[i],
            final(self).head == old(self).nodes@.len(),
            final(self).nodes@[old(self).nodes@.len() as int] == (ImagePackNode {
                x: 0,
                y: 0,
                width: old(self).bitmap@.width as u32,
                height: (old(self).bitmap@.height * 2) as u32,
                image_width: old(self).bitmap@.width as u32,
                image_height: (old(self).bitmap@.height * 2) as u32,
                available: false,
                child_1: Some(old(self).head),
                child_2: Some((old(self).nodes@.len() + 1) as usize),
            }),
            final(self).nodes@[old(self).nodes@.len() as int + 1] == (ImagePackNode {
                x: 0,
                y: old(self).bitmap@.height as u32,
                width: old(self).bitmap@.width as u32,
                height: old(self).bitmap@.height as u32,
                image_width: old(self).bitmap@.width as u32,
                image_height: old(self).bitmap@.height as u32,
                available: true,
                child_1: None,
                child_2: None,
            }),
            final(self).nodes@[old(self).nodes@.len() as int + 1].spec_has_space(
                old(self).bitmap@.width as u32,
                old(self).bitmap@.height as u32,
            ),
    {
        let down = self.nodes[self.head];
        let up = ImagePackNode::new(0, down.height, down.width, down.height);

        proof {
            assert((down.height as int) * 2 <= u32::MAX) by (nonlinear_arith)
                requires
                    (down.width as int) >= 1,
                    (down.height as int) >= 0,
                    (down.width as int) * ((down.height as int) * 2) * 4 <= u32::MAX,
            ;
        }
        let mut new_head = ImagePackNode::new(0, 0, down.width, down.height * 2);
        new_head.available = false;
        new_head.child_1 = Some(self.head);

        let base = self.nodes.len();
        self.head = base;

        self.bitmap.resize(new_head.width, new_head.height);

        self.nodes.push(new_head);
        let up_idx = self.nodes.len();
        self.nodes.push(up);
        let mut nh = self.nodes[base];
        nh.child_2 = Some(up_idx);
        self.nodes[base] = nh;

        proof {
            let full_head = ImagePackNode { child_2: Some(up_idx), ..new_head };
            assert(self.nodes@ =~= old(self).nodes@.push(full_head).push(up));
            lemma_double_wf(*old(self), *self, full_head, up);
        }
    }

    /// Doubles the bitmap width: places a fresh free leaf of the current
    /// size to the right of the current head, under a new composite head
    /// twice as wide.
    fn double_vert(&mut self)
        requires
            old(self).wf(),
            old(self).nodes@.len() >= 1,
            old(self).bitmap@.width * 2 * old(self).bitmap@.height * 4 <= u32::MAX,
        ensures
            final(self).wf(),
            final(self).locations == old(self).locations,
            final(self).contents == old(self).contents,
            final(self).bitmap@.width == old(self).bitmap@.width * 2,
            final(self).bitmap@.height == old(self).bitmap@.height,
            forall|xx: int, yy: int, cc: int|
                0 <= xx < old(self).bitmap@.width && 0 <= yy < old(self).bitmap@.height && 0 <= cc
                    < 4 ==> final(self).bitmap@.chan(xx, yy, cc) == old(self).bitmap@.chan(
                    xx,
                    yy,
                    cc,
                ),
            final(self).nodes@.len() == old(self).nodes@.len() + 2,
            forall|i: int|
                0 <= i < old(self).nodes@.len() ==> final(self).nodes@[i] == old(self).nodes@[i],
            final(self).head == old(self).nodes@.len(),
            final(self).nodes@[old(self).nodes@.len() as int] == (ImagePackNode {
                x: 0,
                y: 0,
                width: (old(self).bitmap@.width * 2) as u32,
                height: old(self).bitmap@.height as u32,
                image_width: (old(self).bitmap@.width * 2) as u32,
                image_height: old(self).bitmap@.height as u32,
                available: false,
                child_1: Some(old(self).head),
                child_2: Some((old(self).nodes@.len() + 1) as usize),
            }),
            final(self).nodes@[old(self).nodes@.len() as int + 1] == (ImagePackNode {
                x: old(self).bitmap@.width as u32,
                y: 0,
                width: old(self).bitmap@.width as u32,
                height: old(self).bitmap@.height as u32,
                image_width: old(self).bitmap@.width as u32,
                image_height: old(self).bitmap@.height as u32,
                available: true,
                child_1: None,
                child_2: None,
            }),
            final(self).nodes@[old(self).nodes@.len() as int + 1].spec_has_space(
                old(self).bitmap@.width as u32,
                old(self).bitmap@.height as u32,
            ),
    {
        let left = self.nodes[self.head];
        let right = ImagePackNode::new(left.width, 0, left.width, left.height);

        proof {
            assert((left.width as int) * 2 <= u32::MAX) by (nonlinear_arith)
                requires
                    (left.height as int) >= 1,
                    (left.width as int) >= 0,
                    (left.width as int) * 2 * (left.height as int) * 4 <= u32::MAX,
            ;
        }
        let mut new_head = ImagePackNode::new(0, 0, left.width * 2, left.height);
        new_head.available = false;
        new_head.child_1 = Some(self.head);

        let base = self.nodes.len();
        self.head = base;

        self.bitmap.resize(new_head.width, new_head.height);

        self.nodes.push(new_head);
        let right_idx = self.nodes.len();
        self.nodes.push(right);
        let mut nh = self.nodes[base];
        nh.child_2 = Some(right_idx);
        self.nodes[base] = nh;

        proof {
            let full_head = ImagePackNode { child_2: Some(right_idx), ..new_head };
            assert(self.nodes@ =~= old(self).nodes@.push(full_head).push(right));
            lemma_double_wf(*old(self), *self, full_head, right);
        }
    }

    /// Splits the free node at `node_id` into an upper and a lower half of
    /// equal height; the lower half keeps the node's position and is pushed
    /// last.
    fn split_horz(&mut self, node_id: usize)
        requires
            old(self).wf(),
            node_id < old(self).nodes@.len(),
            old(self).nodes@[node_id as int].available,
            old(self).nodes@[node_id as int].height >= 2,
        ensures
            final(self).wf(),
            final(self).bitmap == old(self).bitmap,
            final(self).locations == old(self).locations,
            final(self).contents == old(self).contents,
            final(self).head == old(self).head,
            final(self).nodes@.len() == old(self).nodes@.len() + 2,
            forall|i: int|
                0 <= i < old(self).nodes@.len() && i != node_id
                    ==> final(self).nodes@[i] == old(self).nodes@[i],
            final(self).nodes@[node_id as int] == (ImagePackNode {
                available: false,
                ..old(self).nodes@[node_id as int]
            }),
            final(self).nodes@[old(self).nodes@.len() as int] == (ImagePackNode {
                x: old(self).nodes@[node_id as int].x,
                y: (old(self).nodes@[node_id as int].y + old(self).nodes@[node_id as int].height
                    / 2) as u32,
                width: old(self).nodes@[node_id as int].width,
                height: (old(self).nodes@[node_id as int].height / 2) as u32,
                image_width: old(self).nodes@[node_id as int].width,
                image_height: (old(self).nodes@[node_id as int].height / 2) as u32,
                available: true,
                child_1: None,
                child_2: None,
            }),
            final(self).nodes@[old(self).nodes@.len() as int + 1] == (ImagePackNode {
                x: old(self).nodes@[node_id as int].x,
                y: old(self).nodes@[node_id as int].y,
                width: old(self).nodes@[node_id as int].width,
                height: (old(self).nodes@[node_id as int].height / 2) as u32,
                image_width: old(self).nodes@[node_id as int].width,
                image_height: (old(self).nodes@[node_id as int].height / 2) as u32,
                available: true,
                child_1: None,
                child_2: None,
            }),
    {
        let node = self.nodes[node_id];

        let up = ImagePackNode::new(
            node.x,
            node.y + node.height / 2,
            node.width,
            node.height / 2,
        );
        let down = ImagePackNode::new(node.x, node.y, node.width, node.height / 2);

        let mut marked = node;
        marked.available = false;
        self.nodes[node_id] = marked;
        self.nodes.push(up);
        self.nodes.push(down);

        proof {
            lemma_split_wf(*old(self), *self, node_id as int, up, down);
        }
    }

    /// Marks the free node at `node_id` as occupied by a `width * height`
    /// image and records that exact size.
    fn mark_occupied(&mut self, node_id: usize, width: u32, height: u32)
        requires
            old(self).wf(),
            node_id < old(self).nodes@.len(),
            old(self).nodes@[node_id as int].available,
            1 <= width <= old(self).nodes@[node_id as int].width,
            1 <= height <= old(self).nodes@[node_id as int].height,
        ensures
            final(self).wf(),
            final(self).bitmap == old(self).bitmap,
            final(self).locations == old(self).locations,
            final(self).contents == old(self).contents,
            final(self).head == old(self).head,
            final(self).nodes@.len() == old(self).nodes@.len(),
            forall|i: int|
                0 <= i < old(self).nodes@.len() && i != node_id
                    ==> final(self).nodes@[i] == old(self).nodes@[i],
            final(self).nodes@[node_id as int] == (ImagePackNode {
                available: false,
                image_width: width,
                image_height: height,
                ..old(self).nodes@[node_id as int]
            }),
            !final(self).is_placed(node_id as int),
            forall|i: int|
                0 <= i < final(self).nodes@.len() && i != node_id
                    && #[trigger] final(self).is_active(i) ==> rects_disjoint(
                    node_rect(final(self).nodes@[i]),
                    node_rect(final(self).nodes@[node_id as int]),
                ),
    {
        let mut n = self.nodes[node_id];
        n.available = false;
        n.image_width = width;
        n.image_height = height;
        self.nodes[node_id] = n;

        proof {
            let pre = *old(self);
            let post = *self;
            let nid = node_id as int;
            assert(!pre.is_placed(nid));
            assert forall|i: int| #[trigger] post.is_placed(i) == pre.is_placed(i) by {
                if pre.is_placed(i) {
                    let k = choose|k: int|
                        0 <= k < pre.locations@.len() && #[trigger] pre.locations@[k].1 == i;
                    assert(post.locations@[k].1 == i);
                }
                if post.is_placed(i) {
                    let k = choose|k: int|
                        0 <= k < post.locations@.len() && #[trigger] post.locations@[k].1 == i;
                    assert(pre.locations@[k].1 == i);
                }
            }
            assert(post.wf_nodes());
            assert(post.wf_head());
            assert(post.wf_locations());
            assert forall|i: int, j: int|
                0 <= i < post.nodes@.len() && 0 <= j < post.nodes@.len() && i != j
                    && #[trigger] post.is_active(i) && #[trigger] post.is_active(j)
                implies rects_disjoint(
                node_rect(post.nodes@[i]),
                node_rect(post.nodes@[j]),
            ) by {
                assert(pre.is_active(i) && pre.is_active(j));
            }
            assert forall|name: Seq<char>|
                post.contents@.dom().contains(name) implies post.has_name(name) by {
                assert(pre.has_name(name));
                let k = choose|k: int|
                    0 <= k < pre.locations@.len() && #[trigger] pre.locations@[k].0@ == name;
                assert(post.locations@[k].0@ == name);
            }
            assert(post.wf_contents());
            assert forall|i: int|
                0 <= i < post.nodes@.len() && i != nid && #[trigger] post.is_active(i)
                implies rects_disjoint(
                node_rect(post.nodes@[i]),
                node_rect(post.nodes@[nid]),
            ) by {
                assert(pre.is_active(i) && pre.is_active(nid));
            }
        }
    }

    /// Splits the free node at `node_id` into a left and a right half of
    /// equal width; the left half keeps the node's position and is pushed
    /// last.
    fn split_vert(&mut self, node_id: usize)
        requires
            old(self).wf(),
            node_id < old(self).nodes@.len(),
            old(self).nodes@[node_id as int].available,
            old(self).nodes@[node_id as int].width >= 2,
        ensures
            final(self).wf(),
            final(self).bitmap == old(self).bitmap,
            final(self).locations == old(self).locations,
            final(self).contents == old(self).contents,
            final(self).head == old(self).head,
            final(self).nodes@.len() == old(self).nodes@.len() + 2,
            forall|i: int|
                0 <= i < old(self).nodes@.len() && i != node_id
                    ==> final(self).nodes@[i] == old(self).nodes@[i],
            final(self).nodes@[node_id as int] == (ImagePackNode {
                available: false,
                ..old(self).nodes@[node_id as int]
            }),
            final(self).nodes@[old(self).nodes@.len() as int] == (ImagePackNode {
                x: (old(self).nodes@[node_id as int].x + old(self).nodes@[node_id as int].width
                    / 2) as u32,
                y: old(self).nodes@[node_id as int].y,
                width: (old(self).nodes@[node_id as int].width / 2) as u32,
                height: old(self).nodes@[node_id as int].height,
                image_width: (old(self).nodes@[node_id as int].width / 2) as u32,
                image_height: old(self).nodes@[node_id as int].height,
                available: true,
                child_1: None,
                child_2: None,
            }),
            final(self).nodes@[old(self).nodes@.len() as int + 1] == (ImagePackNode {
                x: old(self).nodes@[node_id as int].x,
                y: old(self).nodes@[node_id as int].y,
                width: (old(self).nodes@[node_id as int].width / 2) as u32,
                height: old(self).nodes@[node_id as int].height,
                image_width: (old(self).nodes@[node_id as int].width / 2) as u32,
                image_height: old(self).nodes@[node_id as int].height,
                available: true,
                child_1: None,
                child_2: None,
            }),
    {
        let node = self.nodes[node_id];

        let right = ImagePackNode::new(
            node.x + node.width / 2,
            node.y,
            node.width / 2,
            node.height,
        );
        let left = ImagePackNode::new(node.x, node.y, node.width / 2, node.height);

        let mut marked = node;
        marked.available = false;
        self.nodes[node_id] = marked;
        self.nodes.push(right);
        self.nodes.push(left);

        proof {
            lemma_split_wf(*old(self), *self, node_id as int, right, left);
        }
    }
}

/// A GPU-resident texture: the id of a texture object that lives in the
/// graphics API, together with its pixel dimensions.  Creating, binding and
/// deleting the underlying object are graphics-API calls and live outside
/// this crate; here the texture is plain data, shared through `Rc` and
/// observed through weak references.
pub struct Texture {
    gl_texture_id: u32,
    width: u32,
    height: u32,
}

impl Texture {
    pub closed spec fn spec_id(&self) -> u32 {
        self.gl_texture_id
    }

    pub closed spec fn spec_width(&self) -> u32 {
        self.width
    }

    pub closed spec fn spec_height(&self) -> u32 {
        self.height
    }

    /// Wraps an already created texture object of the given size.
    pub fn from_raw(gl_texture_id: u32, width: u32, height: u32) -> (r: Texture)
        ensures
            r.spec_id() == gl_texture_id,
            r.spec_width() == width,
            r.spec_height() == height,
    {
        Texture { gl_texture_id, width, height }
    }

    /// The texture object's id in the graphics API.
    pub fn gl_texture_id(&self) -> (r: u32)
        ensures
            r == self.spec_id(),
    {
        self.gl_texture_id
    }

    pub fn width(&self) -> (r: u32)
        ensures
            r == self.spec_width(),
    {
        self.width
    }

    pub fn height(&self) -> (r: u32)
        ensures
            r == self.spec_height(),
    {
        self.height
    }
}

/// A non-owning reference to a reference-counted [`Texture`].  Whether a
/// non-empty reference can still be upgraded depends on whether the last
/// strong owner has been dropped, which is a run-time property outside the
/// reach of the specifications here; the wrappers below promise nothing
/// about it.  The one time-independent property of such a reference is
/// whether it was created empty, named by [`weak_texture_is_empty`].
#[verifier::external_body]
pub struct WeakTexture {
    inner: std::rc::Weak<Texture>,
}

/// Whether the reference was created empty (by `std::rc::Weak::new`), and
/// so points at no allocation and can never upgrade.  This is intrinsic to
/// the value: std documents that upgrading such a reference always fails,
/// while `Rc::downgrade` always yields a reference to an allocation.
pub uninterp spec fn weak_texture_is_empty(w: WeakTexture) -> bool;

impl Clone for WeakTexture {
    /// Relies on `std::rc::Weak::clone`: another weak reference to the same
    /// allocation, or another empty reference.
    #[verifier::external_body]
    fn clone(&self) -> (r: Self)
        ensures
            weak_texture_is_empty(r) == weak_texture_is_empty(*self),
    {
        WeakTexture { inner: self.inner.clone() }
    }
}

/// Relies on `std::rc::Rc::downgrade`: returns a weak reference to the
/// allocation behind `t` without affecting its strong count.
#[verifier::external_body]
fn weak_texture_from(t: &Rc<Texture>) -> (r: WeakTexture)
    ensures
        !weak_texture_is_empty(r),
{
    WeakTexture { inner: Rc::downgrade(t) }
}

/// Relies on `std::rc::Weak::new`: returns the empty weak reference, which
/// never upgrades.
#[verifier::external_body]
fn weak_texture_empty() -> (r: WeakTexture)
    ensures
        weak_texture_is_empty(r),
{
    WeakTexture { inner: std::rc::Weak::new() }
}

/// Relies on `std::rc::Weak::upgrade`: returns a strong reference while the
/// texture is still alive, and `None` once every strong owner is gone.  On
/// the empty reference it always returns `None`, as std documents; for a
/// real reference the outcome depends on the program's run-time ownership
/// state, so nothing more is promised.
#[verifier::external_body]
fn weak_texture_upgrade(w: &WeakTexture) -> (r: Option<Rc<Texture>>)
    ensures
        weak_texture_is_empty(*w) ==> r is None,
{
    w.inner.upgrade()
}

/// Relies on `std::rc::Weak::ptr_eq`: true exactly when both references
/// point at the same allocation or both are empty, also after expiry.  Two
/// empty references compare equal; an empty and a non-empty one do not;
/// between two non-empty references the outcome is allocation identity,
/// which has no model here, so nothing is promised of it.
#[verifier::external_body]
fn weak_texture_ptr_eq(a: &WeakTexture, b: &WeakTexture) -> (r: bool)
    ensures
        weak_texture_is_empty(*a) && weak_texture_is_empty(*b) ==> r == true,
        weak_texture_is_empty(*a) != weak_texture_is_empty(*b) ==> r == false,
{
    a.inner.ptr_eq(&b.inner)
}

/// A rectangular sub-area of a shared texture, held by weak reference: many
/// regions may point at one texture without keeping it alive, and a region
/// whose texture has been released reports itself invalid instead of
/// failing.
pub struct TextureRegion {
    texture: WeakTexture,
    pub x: u32,
    pub y: u32,
    pub width: u32,
    pub height: u32,
}

impl TextureRegion {
    /// Whether this region holds the empty reference (created by
    /// `new_invalid`), which never resolves to a texture.
    pub closed spec fn spec_is_empty_ref(&self) -> bool {
        weak_texture_is_empty(self.texture)
    }

    pub closed spec fn spec_x(&self) -> u32 {
        self.x
    }

    pub closed spec fn spec_y(&self) -> u32 {
        self.y
    }

    pub closed spec fn spec_width(&self) -> u32 {
        self.width
    }

    pub closed spec fn spec_height(&self) -> u32 {
        self.height
    }
}

impl Clone for TextureRegion {
    /// A new handle onto the same texture and rectangle.
    fn clone(&self) -> (r: Self)
        ensures
            r.spec_x() == self.spec_x(),
            r.spec_y() == self.spec_y(),
            r.spec_width() == self.spec_width(),
            r.spec_height() == self.spec_height(),
            r.spec_is_empty_ref() == self.spec_is_empty_ref(),
    {
        TextureRegion {
            texture: self.texture.clone(),
            x: self.x,
            y: self.y,
            width: self.width,
            height: self.height,
        }
    }
}

impl TextureRegion {
    /// A region of `texture` in source-pixel units.
    pub fn new(x: u32, y: u32, width: u32, height: u32, texture: &Rc<Texture>) -> (r:
        TextureRegion)
        ensures
            r.spec_x() == x,
            r.spec_y() == y,
            r.spec_width() == width,
            r.spec_height() == height,
            !r.spec_is_empty_ref(),
    {
        TextureRegion { texture: weak_texture_from(texture), x, y, width, height }
    }

    /// A region covering all of `texture`.
    pub fn new_whole(texture: &Rc<Texture>) -> (r: TextureRegion)
        ensures
            r.spec_x() == 0,
            r.spec_y() == 0,
            r.spec_width() == texture.spec_width(),
            r.spec_height() == texture.spec_height(),
            !r.spec_is_empty_ref(),
    {
        let width = texture.width();
        let height = texture.height();
        TextureRegion { texture: weak_texture_from(texture), x: 0, y: 0, width, height }
    }

    /// A region that refers to no texture; `is_valid` is always false.
    pub fn new_invalid() -> (r: TextureRegion)
        ensures
            r.spec_x() == 0,
            r.spec_y() == 0,
            r.spec_width() == 0,
            r.spec_height() == 0,
            r.spec_is_empty_ref(),
    {
        TextureRegion { texture: weak_texture_empty(), x: 0, y: 0, width: 0, height: 0 }
    }

    /// A strong reference to the region's texture, while it is alive.  A
    /// region holding the empty reference yields `None`; otherwise the
    /// outcome reflects run-time ownership.
    pub fn texture(&self) -> (r: Option<Rc<Texture>>)
        ensures
            self.spec_is_empty_ref() ==> r is None,
    {
        weak_texture_upgrade(&self.texture)
    }

    /// Whether the region's texture is still alive.  A region holding the
    /// empty reference is never valid; otherwise this reflects run-time
    /// ownership: it turns false, permanently, when the last strong owner
    /// of the texture is dropped.
    pub fn is_valid(&self) -> (r: bool)
        ensures
            self.spec_is_empty_ref() ==> r == false,
    {
        match weak_texture_upgrade(&self.texture) {
            Some(_) => true,
            None => false,
        }
    }

    /// Whether two regions were cut from the same texture allocation; also
    /// meaningful when both have expired.  Two empty-reference regions
    /// compare equal; an empty one never equals a real one.
    pub fn has_same_texture(&self, other: &TextureRegion) -> (r: bool)
        ensures
            self.spec_is_empty_ref() && other.spec_is_empty_ref() ==> r == true,
            self.spec_is_empty_ref() != other.spec_is_empty_ref() ==> r == false,
    {
        weak_texture_ptr_eq(&self.texture, &other.texture)
    }
}

/// Re-establishes the atlas invariant and the lookup facts after storing a
/// region: entry `k` of the name table now carries `name` and `region`,
/// either replacing the entry that already carried `name` or appended at
/// the end when no entry did.
proof fn lemma_atlas_upsert(
    pre: TextureAtlas,
    post: TextureAtlas,
    k: int,
    name: Seq<char>,
    region: TextureRegion,
)
    requires
        pre.wf(),
        post.texture == pre.texture,
        0 <= k <= pre.textures@.len(),
        !region.spec_is_empty_ref(),
        post.textures@.len() == vstd::math::max(pre.textures@.len() as int, k + 1),
        k < pre.textures@.len() ==> pre.textures@[k].0@ == name
            && post.textures@ == pre.textures@.update(k, (post.textures@[k].0, region)),
        k == pre.textures@.len() ==> post.textures@ == pre.textures@.push(
            (post.textures@[k].0, region),
        ) && !pre.has_region(name),
        post.textures@[k].0@ == name,
        forall|i: int| 0 <= i < pre.textures@.len() && i != k ==> #[trigger] post.textures@[i]
            == pre.textures@[i],
    ensures
        post.wf(),
        post.has_region(name),
        post.region_rect(name) == (Rect {
            x: region.spec_x() as int,
            y: region.spec_y() as int,
            w: region.spec_width() as int,
            h: region.spec_height() as int,
        }),
        forall|n: Seq<char>|
            n != name ==> #[trigger] post.has_region(n) == pre.has_region(n),
        forall|n: Seq<char>|
            n != name && pre.has_region(n) ==> #[trigger] post.region_rect(n) == pre.region_rect(
                n,
            ),
{
    assert forall|k1: int, k2: int|
        0 <= k1 < k2 < post.textures@.len() implies #[trigger] post.textures@[k1].0@
        != #[trigger] post.textures@[k2].0@ by {
        if k1 != k && k2 != k {
            assert(post.textures@[k1] == pre.textures@[k1]);
            assert(post.textures@[k2] == pre.textures@[k2]);
        } else if k < pre.textures@.len() {
            // Replacement: the entry at `k` keeps its name, so the old
            // distinctness carries over unchanged.
            assert(post.textures@[k].0@ == pre.textures@[k].0@);
            assert(pre.textures@[k1].0@ != pre.textures@[k2].0@);
        } else {
            // Appended entry: its name matched no existing entry.
            assert(k2 == k);
            assert(post.textures@[k1] == pre.textures@[k1]);
            if post.textures@[k1].0@ == name {
                assert(pre.has_region(name));
            }
        }
    }
    assert(post.has_region(name));
    let kc = choose|j: int|
        0 <= j < post.textures@.len() && #[trigger] post.textures@[j].0@ == name;
    if kc != k {
        assert(post.textures@[kc] == pre.textures@[kc]);
        assert(pre.textures@[kc].0@ == name);
        if k < pre.textures@.len() {
            assert(false);
        } else {
            assert(pre.has_region(name));
            assert(post.textures@[k].0@ == name);
            assert(false);
        }
    }
    assert forall|n: Seq<char>|
        n != name implies #[trigger] post.has_region(n) == pre.has_region(n) by {
        if post.has_region(n) {
            let j = choose|j: int|
                0 <= j < post.textures@.len() && #[trigger] post.textures@[j].0@ == n;
            assert(j != k);
            assert(pre.textures@[j].0@ == n);
        }
        if pre.has_region(n) {
            let j = choose|j: int|
                0 <= j < pre.textures@.len() && #[trigger] pre.textures@[j].0@ == n;
            assert(j != k || pre.textures@[k].0@ == name);
            assert(post.textures@[j].0@ == n);
        }
    }
    assert forall|n: Seq<char>|
        n != name && pre.has_region(n) implies #[trigger] post.region_rect(n)
        == pre.region_rect(n) by {
        let j1 = choose|j: int|
            0 <= j < post.textures@.len() && #[trigger] post.textures@[j].0@ == n;
        let j2 = choose|j: int|
            0 <= j < pre.textures@.len() && #[trigger] pre.textures@[j].0@ == n;
        assert(post.has_region(n));
        assert(j1 != k);
        assert(pre.textures@[j1].0@ == n);
        if j1 != j2 {
            assert(false);
        }
    }
}

/// The packed result on the GPU side: one shared texture and a name table
/// of regions, one region per image that was packed.
pub struct TextureAtlas {
    texture: Rc<Texture>,
    textures: Vec<(String, TextureRegion)>,
}

impl TextureAtlas {
    /// The texture all regions of this atlas refer to.
    pub closed spec fn spec_texture(&self) -> Texture {
        *self.texture
    }

    /// Whether the atlas has a region under this name.
    pub closed spec fn has_region(&self, name: Seq<char>) -> bool {
        exists|k: int| 0 <= k < self.textures@.len() && #[trigger] self.textures@[k].0@ == name
    }

    /// The rectangle of the named region.
    pub closed spec fn region_rect(&self, name: Seq<char>) -> Rect {
        let k = choose|k: int|
            0 <= k < self.textures@.len() && #[trigger] self.textures@[k].0@ == name;
        let reg = self.textures@[k].1;
        Rect { x: reg.x as int, y: reg.y as int, w: reg.width as int, h: reg.height as int }
    }

    /// Region names are distinct, so each lookup has one answer, and every
    /// stored region holds a real (non-empty) texture reference.
    pub closed spec fn wf(&self) -> bool {
        &&& forall|k1: int, k2: int|
            0 <= k1 < k2 < self.textures@.len() ==> #[trigger] self.textures@[k1].0@
                != #[trigger] self.textures@[k2].0@
        &&& forall|k: int|
            0 <= k < self.textures@.len() ==> !(#[trigger] self.textures@[k]).1.spec_is_empty_ref()
    }

    /// An atlas over one whole texture, with no named regions yet.
    pub fn new(texture: Texture) -> (r: TextureAtlas)
        ensures
            r.wf(),
            r.spec_texture() == texture,
            forall|name: Seq<char>| !r.has_region(name),
    {
        TextureAtlas { texture: Rc::new(texture), textures: Vec::new() }
    }

    /// Builds the name table for a finished pack: one region per placed
    /// image, at exactly the rectangle the packer placed it, all referring
    /// weakly to `texture`.  The texture is expected to hold the pack's
    /// backing bitmap, uploaded by the caller.
    pub fn from_image_pack(image_pack: &ImagePack, texture: Rc<Texture>) -> (r: TextureAtlas)
        requires
            image_pack.wf(),
        ensures
            r.wf(),
            r.spec_texture() == texture,
            forall|name: Seq<char>| #[trigger] r.has_region(name) == image_pack.has_name(name),
            forall|name: Seq<char>|
                #[trigger] image_pack.has_name(name) ==> r.region_rect(name) == image_pack.rect_of(
                    name,
                ),
    {
        let mut textures: Vec<(String, TextureRegion)> = Vec::new();
        let mut k: usize = 0;
        while k < image_pack.locations.len()
            invariant
                image_pack.wf(),
                k <= image_pack.locations@.len(),
                textures@.len() == k,
                forall|j: int|
                    0 <= j < k ==> (#[trigger] textures@[j]).0@ == image_pack.locations@[j].0@,
                forall|j: int|
                    0 <= j < k ==> {
                        let reg = (#[trigger] textures@[j]).1;
                        let n = image_pack.nodes@[image_pack.locations@[j].1 as int];
                        reg.x == n.spec_x() && reg.y == n.spec_y() && reg.width
                            == n.spec_image_width() && reg.height == n.spec_image_height()
                            && !reg.spec_is_empty_ref()
                    },
            decreases image_pack.locations@.len() - k,
        {
            let name = image_pack.locations[k].0.clone();
            let id = image_pack.locations[k].1;
            let node = image_pack.nodes[id];
            let region = TextureRegion::new(
                node.x,
                node.y,
                node.image_width,
                node.image_height,
                &texture,
            );
            textures.push((name, region));
            k = k + 1;
        }
        let r = TextureAtlas { texture, textures };
        proof {
            assert forall|k1: int, k2: int|
                0 <= k1 < k2 < r.textures@.len() implies #[trigger] r.textures@[k1].0@
                != #[trigger] r.textures@[k2].0@ by {
                assert(image_pack.locations@[k1].0@ != image_pack.locations@[k2].0@);
            }
            assert forall|name: Seq<char>| #[trigger] r.has_region(name) == image_pack.has_name(
                name,
            ) by {
                if r.has_region(name) {
                    let j = choose|j: int|
                        0 <= j < r.textures@.len() && #[trigger] r.textures@[j].0@ == name;
                    assert(image_pack.locations@[j].0@ == name);
                }
                if image_pack.has_name(name) {
                    let j = choose|j: int|
                        0 <= j < image_pack.locations@.len()
                            && #[trigger] image_pack.locations@[j].0@ == name;
                    assert(r.textures@[j].0@ == name);
                }
            }
            assert forall|name: Seq<char>| #[trigger] image_pack.has_name(name) implies
                r.region_rect(name) == image_pack.rect_of(name) by {
                let j1 = choose|j: int|
                    0 <= j < r.textures@.len() && #[trigger] r.textures@[j].0@ == name;
                let j2 = choose|j: int|
                    0 <= j < image_pack.locations@.len() && #[trigger] image_pack.locations@[j].0@
                        == name;
                assert(r.has_region(name));
                assert(image_pack.locations@[j1].0@ == name);
                if j1 != j2 {
                    assert(false);
                }
            }
        }
        r
    }

    /// Hands the shared texture out, consuming the atlas.
    pub fn texture(self) -> (r: Rc<Texture>)
        ensures
            r == self.spec_texture(),
    {
        self.texture
    }

    /// Borrows the shared texture, keeping the atlas.
    pub fn texture_ref(&self) -> (r: &Rc<Texture>)
        ensures
            **r == self.spec_texture(),
    {
        &self.texture
    }

    /// Stores `region` under `texture_name`, replacing any region already
    /// recorded under that name, provided the region refers to this atlas's
    /// own texture allocation; a region of another texture (or an expired
    /// or empty one) is refused and the atlas is left unchanged.  Returns
    /// whether the region was stored.  Which side is taken rests on the
    /// allocation-identity test, whose outcome for two real references has
    /// no model here; both outcomes are specified.
    pub fn set(&mut self, texture_name: &str, region: TextureRegion) -> (r: bool)
        requires
            old(self).wf(),
        ensures
            final(self).wf(),
            final(self).spec_texture() == old(self).spec_texture(),
            region.spec_is_empty_ref() ==> r == false,
            !r ==> *final(self) == *old(self),
            r ==> {
                &&& final(self).has_region(texture_name@)
                &&& final(self).region_rect(texture_name@) == (Rect {
                    x: region.spec_x() as int,
                    y: region.spec_y() as int,
                    w: region.spec_width() as int,
                    h: region.spec_height() as int,
                })
                &&& forall|n: Seq<char>|
                    n != texture_name@ ==> #[trigger] final(self).has_region(n)
                        == old(self).has_region(n)
                &&& forall|n: Seq<char>|
                    n != texture_name@ && old(self).has_region(n)
                        ==> #[trigger] final(self).region_rect(n) == old(self).region_rect(n)
            },
    {
        let atlas_ref = weak_texture_from(&self.texture);
        if !weak_texture_ptr_eq(&region.texture, &atlas_ref) {
            return false;
        }
        let ghost pre: TextureAtlas = *self;
        proof {
            assert(!region.spec_is_empty_ref());
        }
        let key = String::from_str(texture_name);
        let mut found: usize = 0;
        let mut present = false;
        let mut k: usize = 0;
        while k < self.textures.len() && !present
            invariant
                key@ == texture_name@,
                k <= self.textures@.len(),
                !present ==> forall|i: int| 0 <= i < k ==> #[trigger] self.textures@[i].0@ != key@,
                present ==> found < self.textures@.len() && self.textures@[found as int].0@
                    == key@,
            decreases self.textures@.len() - k,
        {
            if self.textures[k].0 == key {
                found = k;
                present = true;
            }
            k = k + 1;
        }
        if present {
            self.textures[found] = (key, region);
            proof {
                lemma_atlas_upsert(pre, *self, found as int, texture_name@, region);
            }
        } else {
            let ghost len = self.textures@.len() as int;
            proof {
                if pre.has_region(texture_name@) {
                    let j = choose|j: int|
                        0 <= j < pre.textures@.len() && #[trigger] pre.textures@[j].0@
                            == texture_name@;
                }
                assert(!pre.has_region(texture_name@));
            }
            self.textures.push((key, region));
            proof {
                lemma_atlas_upsert(pre, *self, len, texture_name@, region);
            }
        }
        true
    }

    /// The named region, as a fresh handle onto the shared texture.
    pub fn get(&self, texture_name: &str) -> (r: Result<TextureRegion, AtlasError>)
        requires
            self.wf(),
        ensures
            match r {
                Ok(reg) => {
                    &&& self.has_region(texture_name@)
                    &&& reg.spec_x() == self.region_rect(texture_name@).x
                    &&& reg.spec_y() == self.region_rect(texture_name@).y
                    &&& reg.spec_width() == self.region_rect(texture_name@).w
                    &&& reg.spec_height() == self.region_rect(texture_name@).h
                    &&& !reg.spec_is_empty_ref()
                },
                Err(e) => e == AtlasError::UnknownName && !self.has_region(texture_name@),
            },
    {
        let key = String::from_str(texture_name);
        let mut k: usize = 0;
        while k < self.textures.len()
            invariant
                self.wf(),
                key@ == texture_name@,
                k <= self.textures@.len(),
                forall|i: int| 0 <= i < k ==> #[trigger] self.textures@[i].0@ != key@,
            decreases self.textures@.len() - k,
        {
            if self.textures[k].0 == key {
                let reg = &self.textures[k].1;
                let fresh = TextureRegion {
                    texture: reg.texture.clone(),
                    x: reg.x,
                    y: reg.y,
                    width: reg.width,
                    height: reg.height,
                };
                proof {
                    assert(self.textures@[k as int].0@ == texture_name@);
                    let j = choose|j: int|
                        0 <= j < self.textures@.len() && #[trigger] self.textures@[j].0@
                            == texture_name@;
                    if j != k as int {
                        assert(false);
                    }
                }
                return Ok(fresh);
            }
            k = k + 1;
        }
        Err(AtlasError::UnknownName)
    }
}

} // verus!
