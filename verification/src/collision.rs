//! Two-phase collision detection between the dino and the trees.
//!
//! Phase 1 is a bounding-box overlap test; phase 2 scans every pixel of the
//! overlap region and reports a hit when a pixel is opaque in both sprites'
//! masks. When a mask has not loaded yet, a tighter bounding box decides.
//!
//! World coordinates grow upward while image rows grow downward, so a world
//! pixel `(px, py)` is image pixel `(px - left, top - py)` of a sprite whose
//! top-left corner sits at `(left, top)`.
use vstd::prelude::*;
use crate::pixel_mask::PixelMask;

verus! {

/// The integer pixel geometry of one dino/tree pair: the inclusive overlap
/// region of their bounding boxes in world pixels, and the world position
/// of each sprite's top-left corner.
pub struct PixelFrame {
    pub min_x: i32,
    pub max_x: i32,
    pub min_y: i32,
    pub max_y: i32,
    pub dino_left: i32,
    pub dino_top: i32,
    pub tree_left: i32,
    pub tree_top: i32,
}

/// What the collision check needs to know of one tree: the outcome of the
/// bounding-box test, of the tighter fallback box test, the pixel geometry
/// of the pair, and the tree's mask if it has loaded.
pub struct TreeProbe<'a> {
    pub aabb_overlap: bool,
    pub tight_overlap: bool,
    pub frame: PixelFrame,
    pub mask: Option<&'a PixelMask>,
}

/// The value fits in an `i32`.
pub open spec fn fits_i32(v: int) -> bool {
    i32::MIN <= v <= i32::MAX
}

impl PixelFrame {
    /// The region is empty.
    pub open spec fn is_empty(self) -> bool {
        self.min_x > self.max_x || self.min_y > self.max_y
    }

    /// Every image coordinate of the scan fits in an `i32`.
    pub open spec fn fits(self) -> bool {
        !self.is_empty() ==> {
            &&& fits_i32(self.min_x - self.dino_left)
            &&& fits_i32(self.max_x - self.dino_left)
            &&& fits_i32(self.min_x - self.tree_left)
            &&& fits_i32(self.max_x - self.tree_left)
            &&& fits_i32(self.dino_top - self.min_y)
            &&& fits_i32(self.dino_top - self.max_y)
            &&& fits_i32(self.tree_top - self.min_y)
            &&& fits_i32(self.tree_top - self.max_y)
        }
    }
}

/// World pixel `(px, py)` is opaque in both sprites.
pub open spec fn both_opaque(
    dino_mask: PixelMask,
    tree_mask: PixelMask,
    frame: PixelFrame,
    px: int,
    py: int,
) -> bool {
    &&& dino_mask.opaque_at(px - frame.dino_left, frame.dino_top - py)
    &&& tree_mask.opaque_at(px - frame.tree_left, frame.tree_top - py)
}

/// Some world pixel of the overlap region is opaque in both sprites.
pub open spec fn pixels_collide(dino_mask: PixelMask, tree_mask: PixelMask, frame: PixelFrame) -> bool {
    exists|px: int, py: int|
        frame.min_x <= px <= frame.max_x && frame.min_y <= py <= frame.max_y && #[trigger] both_opaque(
            dino_mask,
            tree_mask,
            frame,
            px,
            py,
        )
}

/// World pixel `(px, py)` lies in the overlap region.
pub open spec fn in_region(frame: PixelFrame, px: int, py: int) -> bool {
    frame.min_x <= px <= frame.max_x && frame.min_y <= py <= frame.max_y
}

/// Some world pixel of the overlap region is opaque in both masks, read
/// straight from the mask bytes: world pixel `(px, py)` is pixel
/// `(px - left, top - py)` of each sprite's own image, with its own left
/// and top edge, and a pixel `(x, y)` of a `w`-wide mask is byte `y * w + x`.
pub open spec fn overlap_has_shared_opaque_byte(
    dino_mask: PixelMask,
    tree_mask: PixelMask,
    frame: PixelFrame,
) -> bool {
    exists|px: int, py: int|
        #[trigger] in_region(frame, px, py) && {
            &&& dino_mask.width <= i32::MAX
            &&& dino_mask.height <= i32::MAX
            &&& 0 <= px - frame.dino_left < dino_mask.width
            &&& 0 <= frame.dino_top - py < dino_mask.height
            &&& dino_mask.data@[(frame.dino_top - py) * dino_mask.width + (px - frame.dino_left)] != 0
            &&& tree_mask.width <= i32::MAX
            &&& tree_mask.height <= i32::MAX
            &&& 0 <= px - frame.tree_left < tree_mask.width
            &&& 0 <= frame.tree_top - py < tree_mask.height
            &&& tree_mask.data@[(frame.tree_top - py) * tree_mask.width + (px - frame.tree_left)] != 0
        }
}

/// The pixel scan finds a collision exactly when some world pixel of the
/// overlap region is opaque in the dino's image at the dino's own row
/// `dino_top - py` and in the tree's image at the tree's own row
/// `tree_top - py`, as read from the bytes of the two masks.
pub proof fn lemma_pixel_scan_reads_mask_bytes(
    dino_mask: PixelMask,
    tree_mask: PixelMask,
    frame: PixelFrame,
)
    ensures
        pixels_collide(dino_mask, tree_mask, frame) <==> overlap_has_shared_opaque_byte(
            dino_mask,
            tree_mask,
            frame,
        ),
{
    if pixels_collide(dino_mask, tree_mask, frame) {
        let (px, py) = choose|px: int, py: int|
            frame.min_x <= px <= frame.max_x && frame.min_y <= py <= frame.max_y
                && #[trigger] both_opaque(dino_mask, tree_mask, frame, px, py);
        assert(in_region(frame, px, py));
    }
    if overlap_has_shared_opaque_byte(dino_mask, tree_mask, frame) {
        let (px, py) = choose|px: int, py: int|
            #[trigger] in_region(frame, px, py) && {
                &&& dino_mask.width <= i32::MAX
                &&& dino_mask.height <= i32::MAX
                &&& 0 <= px - frame.dino_left < dino_mask.width
                &&& 0 <= frame.dino_top - py < dino_mask.height
                &&& dino_mask.data@[(frame.dino_top - py) * dino_mask.width + (px - frame.dino_left)]
                    != 0
                &&& tree_mask.width <= i32::MAX
                &&& tree_mask.height <= i32::MAX
                &&& 0 <= px - frame.tree_left < tree_mask.width
                &&& 0 <= frame.tree_top - py < tree_mask.height
                &&& tree_mask.data@[(frame.tree_top - py) * tree_mask.width + (px - frame.tree_left)]
                    != 0
            };
        assert(both_opaque(dino_mask, tree_mask, frame, px, py));
    }
}

/// Phase 2: scans the overlap region pixel by pixel and reports whether
/// some pixel is opaque in both masks.
pub fn pixel_perfect_collision(dino_mask: &PixelMask, tree_mask: &PixelMask, frame: &PixelFrame) -> (hit: bool)
    requires
        dino_mask.wf(),
        tree_mask.wf(),
        frame.fits(),
    ensures
        hit == pixels_collide(*dino_mask, *tree_mask, *frame),
        hit == overlap_has_shared_opaque_byte(*dino_mask, *tree_mask, *frame),
{
    proof {
        lemma_pixel_scan_reads_mask_bytes(*dino_mask, *tree_mask, *frame);
    }
    if frame.min_x > frame.max_x || frame.min_y > frame.max_y {
        return false;
    }
    let max_x = frame.max_x as i64;
    let max_y = frame.max_y as i64;
    let mut px: i64 = frame.min_x as i64;
    while px <= max_x
        invariant
            frame.min_x <= px <= max_x + 1,
            max_x == frame.max_x,
            max_y == frame.max_y,
            frame.min_y <= frame.max_y,
            dino_mask.wf(),
            tree_mask.wf(),
            frame.fits(),
            !frame.is_empty(),
            forall|qx: int, qy: int|
                frame.min_x <= qx < px && frame.min_y <= qy <= frame.max_y ==> !#[trigger] both_opaque(
                    *dino_mask,
                    *tree_mask,
                    *frame,
                    qx,
                    qy,
                ),
        decreases max_x + 1 - px,
    {
        let mut py: i64 = frame.min_y as i64;
        while py <= max_y
            invariant
                frame.min_x <= px <= max_x,
                frame.min_y <= py <= max_y + 1,
                max_x == frame.max_x,
                max_y == frame.max_y,
                dino_mask.wf(),
                tree_mask.wf(),
                frame.fits(),
                !frame.is_empty(),
                forall|qx: int, qy: int|
                    frame.min_x <= qx < px && frame.min_y <= qy <= frame.max_y ==> !#[trigger] both_opaque(
                        *dino_mask,
                        *tree_mask,
                        *frame,
                        qx,
                        qy,
                    ),
                forall|qy: int|
                    frame.min_y <= qy < py ==> !#[trigger] both_opaque(
                        *dino_mask,
                        *tree_mask,
                        *frame,
                        px as int,
                        qy,
                    ),
            decreases max_y + 1 - py,
        {
            let dx = (px - frame.dino_left as i64) as i32;
            let dy = (frame.dino_top as i64 - py) as i32;
            let tx = (px - frame.tree_left as i64) as i32;
            let ty = (frame.tree_top as i64 - py) as i32;
            if dino_mask.is_opaque(dx, dy) && tree_mask.is_opaque(tx, ty) {
                assert(both_opaque(*dino_mask, *tree_mask, *frame, px as int, py as int));
                proof {
                    lemma_pixel_scan_reads_mask_bytes(*dino_mask, *tree_mask, *frame);
                }
                return true;
            }
            py = py + 1;
        }
        px = px + 1;
    }
    proof {
        lemma_pixel_scan_reads_mask_bytes(*dino_mask, *tree_mask, *frame);
    }
    false
}

/// The tree is hit: its bounding box overlaps the dino's, and then either
/// both masks are present and the pixel scan finds a shared opaque pixel,
/// or a mask is missing and the tighter box overlaps.
pub open spec fn probe_hits(dino_mask: Option<&PixelMask>, probe: TreeProbe) -> bool {
    &&& probe.aabb_overlap
    &&& match (dino_mask, probe.mask) {
        (Some(d), Some(t)) => pixels_collide(*d, *t, probe.frame),
        _ => probe.tight_overlap,
    }
}

/// Some tree of the list is hit.
pub open spec fn any_tree_hit(dino_mask: Option<&PixelMask>, trees: Seq<TreeProbe>) -> bool {
    exists|i: int| 0 <= i < trees.len() && #[trigger] probe_hits(dino_mask, trees[i])
}

/// A tree is hit exactly when its bounding box overlaps the dino's and then
/// either both masks are loaded and share an opaque byte in the overlap
/// region, or a mask is missing and the tighter box overlaps.
pub proof fn lemma_tree_hit_on_mask_bytes(dino_mask: Option<&PixelMask>, probe: TreeProbe)
    ensures
        probe_hits(dino_mask, probe) <==> probe.aabb_overlap && (if dino_mask is Some
            && probe.mask is Some {
            overlap_has_shared_opaque_byte(*dino_mask.unwrap(), *probe.mask.unwrap(), probe.frame)
        } else {
            probe.tight_overlap
        }),
{
    if dino_mask is Some && probe.mask is Some {
        lemma_pixel_scan_reads_mask_bytes(*dino_mask.unwrap(), *probe.mask.unwrap(), probe.frame);
    }
}

/// A tree that is hit makes the whole list hit, whatever the other trees
/// are.
pub proof fn lemma_hit_tree_hits_list(dino_mask: Option<&PixelMask>, trees: Seq<TreeProbe>, i: int)
    requires
        0 <= i < trees.len(),
        probe_hits(dino_mask, trees[i]),
    ensures
        any_tree_hit(dino_mask, trees),
{
}

/// A list is hit only through one of its trees.
pub proof fn lemma_list_hit_has_hit_tree(dino_mask: Option<&PixelMask>, trees: Seq<TreeProbe>)
    requires
        any_tree_hit(dino_mask, trees),
    ensures
        exists|i: int| 0 <= i < trees.len() && #[trigger] probe_hits(dino_mask, trees[i]),
{
}

/// Joining two lists of trees: the result is hit exactly when one of the
/// two parts is; in particular, trees added after a hit tree never undo
/// the hit, and trees that are not hit never create one.
pub proof fn lemma_hit_of_joined_lists(
    dino_mask: Option<&PixelMask>,
    first: Seq<TreeProbe>,
    second: Seq<TreeProbe>,
)
    ensures
        any_tree_hit(dino_mask, first + second) == (any_tree_hit(dino_mask, first) || any_tree_hit(
            dino_mask,
            second,
        )),
{
    let joined = first + second;
    if any_tree_hit(dino_mask, first) {
        let i = choose|i: int| 0 <= i < first.len() && #[trigger] probe_hits(dino_mask, first[i]);
        assert(joined[i] == first[i]);
    }
    if any_tree_hit(dino_mask, second) {
        let i = choose|i: int| 0 <= i < second.len() && #[trigger] probe_hits(dino_mask, second[i]);
        assert(joined[first.len() + i] == second[i]);
    }
    if any_tree_hit(dino_mask, joined) {
        let i = choose|i: int| 0 <= i < joined.len() && #[trigger] probe_hits(dino_mask, joined[i]);
        if i < first.len() {
            assert(joined[i] == first[i]);
        } else {
            assert(joined[i] == second[i - first.len()]);
        }
    }
}

/// The masks the check may read are well formed, and the pixel scan is
/// only asked for frames whose coordinates fit.
pub open spec fn probe_ready(dino_mask: Option<&PixelMask>, probe: TreeProbe) -> bool {
    &&& probe.mask matches Some(t) ==> t.wf()
    &&& (probe.aabb_overlap && dino_mask is Some && probe.mask is Some) ==> probe.frame.fits()
}

/// Full check of the dino against every tree: bounding-box pre-check, then
/// the pixel scan, or the tighter box while a mask is missing. Returns
/// whether any tree is hit.
pub fn check_dino_tree_collision(dino_mask: Option<&PixelMask>, trees: &Vec<TreeProbe>) -> (hit: bool)
    requires
        dino_mask matches Some(d) ==> d.wf(),
        forall|i: int| 0 <= i < trees@.len() ==> #[trigger] probe_ready(dino_mask, trees@[i]),
    ensures
        hit == any_tree_hit(dino_mask, trees@),
        forall|i: int| 0 <= i < trees@.len() && #[trigger] probe_hits(dino_mask, trees@[i]) ==> hit,
        forall|i: int|
            0 <= i < trees@.len() && (#[trigger] trees@[i]).aabb_overlap && (dino_mask is None
                || trees@[i].mask is None) && trees@[i].tight_overlap ==> hit,
        forall|i: int|
            0 <= i < trees@.len() && (#[trigger] trees@[i]).aabb_overlap && dino_mask is Some
                && trees@[i].mask is Some && overlap_has_shared_opaque_byte(
                *dino_mask.unwrap(),
                *trees@[i].mask.unwrap(),
                trees@[i].frame,
            ) ==> hit,
        hit ==> exists|i: int|
            0 <= i < trees@.len() && (#[trigger] trees@[i]).aabb_overlap && (if dino_mask is Some
                && trees@[i].mask is Some {
                overlap_has_shared_opaque_byte(
                    *dino_mask.unwrap(),
                    *trees@[i].mask.unwrap(),
                    trees@[i].frame,
                )
            } else {
                trees@[i].tight_overlap
            }),
        hit ==> exists|i: int| 0 <= i < trees@.len() && #[trigger] probe_hits(dino_mask, trees@[i]),
{
    let n = trees.len();
    let mut i: usize = 0;
    while i < n
        invariant
            i <= n,
            n == trees@.len(),
            dino_mask matches Some(d) ==> d.wf(),
            forall|k: int| 0 <= k < trees@.len() ==> #[trigger] probe_ready(dino_mask, trees@[k]),
            forall|k: int| 0 <= k < i ==> !#[trigger] probe_hits(dino_mask, trees@[k]),
        decreases n - i,
    {
        let probe = &trees[i];
        assert(probe_ready(dino_mask, trees@[i as int]));
        if probe.aabb_overlap {
            let hit = match (dino_mask, probe.mask) {
                (Some(d), Some(t)) => pixel_perfect_collision(d, t, &probe.frame),
                _ => probe.tight_overlap,
            };
            if hit {
                assert(probe_hits(dino_mask, trees@[i as int]));
                proof {
                    lemma_tree_hit_on_mask_bytes(dino_mask, trees@[i as int]);
                }
                return true;
            }
        }
        i = i + 1;
    }
    assert forall|k: int| 0 <= k < trees@.len() implies !(#[trigger] trees@[k]).aabb_overlap || !(if dino_mask is Some
        && trees@[k].mask is Some {
        overlap_has_shared_opaque_byte(*dino_mask.unwrap(), *trees@[k].mask.unwrap(), trees@[k].frame)
    } else {
        trees@[k].tight_overlap
    }) by {
        lemma_tree_hit_on_mask_bytes(dino_mask, trees@[k]);
        assert(!probe_hits(dino_mask, trees@[k]));
    }
    false
}

} // verus!
