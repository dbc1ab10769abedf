//! The tree obstacles: three sprite variants, one picked at random for each
//! new tree.
use vstd::prelude::*;
use rand::Rng;

verus! {

/// A tree sprite: its image asset and its native size in pixels.
pub struct TreeVariant {
    pub image: &'static str,
    pub width: u32,
    pub height: u32,
}

/// Number of tree variants.
pub const TREE_VARIANT_COUNT: u32 = 3;

/// Variant `index` (1, 2 or 3): `tree<index>.png`, 153x170, 245x170 and
/// 153x222 pixels.
pub open spec fn is_variant(index: u32, v: TreeVariant) -> bool {
    if index == 1 {
        v.image@ == "tree1.png"@ && v.width == 153 && v.height == 170
    } else if index == 2 {
        v.image@ == "tree2.png"@ && v.width == 245 && v.height == 170
    } else {
        index == 3 && v.image@ == "tree3.png"@ && v.width == 153 && v.height == 222
    }
}

/// The tree variant with the given number.
pub fn tree_variant(index: u32) -> (v: TreeVariant)
    requires
        1 <= index <= TREE_VARIANT_COUNT,
    ensures
        is_variant(index, v),
        index == 1 ==> v.width == 153 && v.height == 170,
        index == 2 ==> v.width == 245 && v.height == 170,
        index == 3 ==> v.width == 153 && v.height == 222,
{
    if index == 1 {
        TreeVariant { image: "tree1.png", width: 153, height: 170 }
    } else if index == 2 {
        TreeVariant { image: "tree2.png", width: 245, height: 170 }
    } else {
        TreeVariant { image: "tree3.png", width: 153, height: 222 }
    }
}

/// Draws a number uniformly from `low..=high` with `rand`'s thread-local
/// generator (`rand::thread_rng().gen_range(low..=high)`, rand 0.8). Claimed
/// of every outcome: it lies in the range. Which number comes out is left
/// open; it depends on the generator's state.
#[verifier::external_body]
fn random_in_range(low: u32, high: u32) -> (n: u32)
    requires
        low <= high,
    ensures
        low <= n <= high,
{
    rand::thread_rng().gen_range(low..=high)
}

/// Picks one of the tree variants at random.
pub fn random_tree() -> (v: TreeVariant)
    ensures
        exists|index: u32| 1 <= index <= TREE_VARIANT_COUNT && #[trigger] is_variant(index, v),
{
    let index = random_in_range(1, TREE_VARIANT_COUNT);
    let v = tree_variant(index);
    assert(is_variant(index, v));
    v
}

} // verus!
