use dino_jump::collision::{check_dino_tree_collision, pixel_perfect_collision, PixelFrame, TreeProbe};
use dino_jump::pixel_mask::PixelMask;

fn solid(width: u32, height: u32) -> PixelMask {
    PixelMask { width, height, data: vec![1; (width * height) as usize] }
}

fn blank(width: u32, height: u32) -> PixelMask {
    PixelMask { width, height, data: vec![0; (width * height) as usize] }
}

/// Both sprites 4x4; the dino's top-left at world (0, 3), the tree's at
/// world (2, 3); they overlap in world columns 2..=3, rows 0..=3.
fn side_by_side() -> PixelFrame {
    PixelFrame {
        min_x: 2, max_x: 3, min_y: 0, max_y: 3,
        dino_left: 0, dino_top: 3, tree_left: 2, tree_top: 3,
    }
}

#[test]
fn solid_masks_collide() {
    assert!(pixel_perfect_collision(&solid(4, 4), &solid(4, 4), &side_by_side()));
}

#[test]
fn transparent_mask_never_collides() {
    assert!(!pixel_perfect_collision(&solid(4, 4), &blank(4, 4), &side_by_side()));
    assert!(!pixel_perfect_collision(&blank(4, 4), &solid(4, 4), &side_by_side()));
}

#[test]
fn empty_region_never_collides() {
    let mut frame = side_by_side();
    frame.max_x = 1;
    assert!(!pixel_perfect_collision(&solid(4, 4), &solid(4, 4), &frame));
    let mut frame = side_by_side();
    frame.min_y = 4;
    assert!(!pixel_perfect_collision(&solid(4, 4), &solid(4, 4), &frame));
}

#[test]
fn single_shared_pixel_collides_with_y_flip() {
    // Dino: only its right column, bottom row (image (3, 3)) is opaque.
    let mut dino = blank(4, 4);
    dino.data[3 * 4 + 3] = 1;
    // Tree: only image (1, 3), bottom row.
    let mut tree = blank(4, 4);
    tree.data[3 * 4 + 1] = 1;
    // World column 3 is dino image x 3 and tree image x 1; world row 0 is
    // image row 3 for both (top 3 - 0).
    assert!(pixel_perfect_collision(&dino, &tree, &side_by_side()));
    // Move the tree's opaque pixel to its top row: no shared pixel.
    let mut tree = blank(4, 4);
    tree.data[0 * 4 + 1] = 1;
    assert!(!pixel_perfect_collision(&dino, &tree, &side_by_side()));
}

#[test]
fn region_outside_masks_never_collides() {
    let frame = PixelFrame {
        min_x: 10, max_x: 12, min_y: 10, max_y: 12,
        dino_left: 0, dino_top: 3, tree_left: 0, tree_top: 3,
    };
    assert!(!pixel_perfect_collision(&solid(4, 4), &solid(4, 4), &frame));
}

fn probe<'a>(aabb: bool, tight: bool, mask: Option<&'a PixelMask>) -> TreeProbe<'a> {
    TreeProbe { aabb_overlap: aabb, tight_overlap: tight, frame: side_by_side(), mask }
}

#[test]
fn no_trees_no_collision() {
    let dino = solid(4, 4);
    assert!(!check_dino_tree_collision(Some(&dino), &Vec::new()));
}

#[test]
fn bounding_box_rejects_first() {
    let dino = solid(4, 4);
    let tree = solid(4, 4);
    let trees = vec![probe(false, true, Some(&tree))];
    assert!(!check_dino_tree_collision(Some(&dino), &trees));
}

#[test]
fn pixel_scan_decides_when_masks_are_loaded() {
    let dino = solid(4, 4);
    let ghost = blank(4, 4);
    let tree = solid(4, 4);
    // The tight box says yes, but transparent pixels win when both masks exist.
    assert!(!check_dino_tree_collision(Some(&dino), &vec![probe(true, true, Some(&ghost))]));
    // The tight box says no, but the pixels overlap.
    assert!(check_dino_tree_collision(Some(&dino), &vec![probe(true, false, Some(&tree))]));
}

#[test]
fn tight_box_decides_while_a_mask_is_missing() {
    let tree = solid(4, 4);
    assert!(check_dino_tree_collision(None, &vec![probe(true, true, Some(&tree))]));
    assert!(!check_dino_tree_collision(None, &vec![probe(true, false, Some(&tree))]));
    let dino = solid(4, 4);
    assert!(check_dino_tree_collision(Some(&dino), &vec![probe(true, true, None)]));
    assert!(!check_dino_tree_collision(Some(&dino), &vec![probe(true, false, None)]));
}

#[test]
fn any_tree_hit_counts() {
    let dino = solid(4, 4);
    let ghost = blank(4, 4);
    let tree = solid(4, 4);
    let trees = vec![
        probe(false, true, Some(&tree)),
        probe(true, true, Some(&ghost)),
        probe(true, false, Some(&tree)),
    ];
    assert!(check_dino_tree_collision(Some(&dino), &trees));
}
