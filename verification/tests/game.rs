use dino_jump::collision::{PixelFrame, TreeProbe};
use dino_jump::game::{
    check_collisions, jump_input, restart_game, score_trees, show_game_over, DinoProbe,
    GameRunning, Score, Speed, SPEED_START, SPEED_STEP,
};

fn frame() -> PixelFrame {
    PixelFrame { min_x: 0, max_x: 0, min_y: 0, max_y: 0, dino_left: 0, dino_top: 0, tree_left: 0, tree_top: 0 }
}

fn fallback_probe<'a>(hit: bool) -> TreeProbe<'a> {
    TreeProbe { aabb_overlap: true, tight_overlap: hit, frame: frame(), mask: None }
}

#[test]
fn start_state() {
    assert!(GameRunning::new().0);
    assert_eq!(Score::new().0, 0);
    assert_eq!(Speed::new().hundredths, 100);
    assert_eq!(SPEED_START, 100);
    assert_eq!(SPEED_STEP, 5);
}

#[test]
fn collision_ends_the_game() {
    let mut game = GameRunning::new();
    check_collisions(&mut game, Some(DinoProbe { mask: None }), &vec![fallback_probe(false)]);
    assert!(game.0);
    check_collisions(&mut game, Some(DinoProbe { mask: None }), &vec![fallback_probe(true)]);
    assert!(!game.0);
}

#[test]
fn no_dino_no_collision() {
    let mut game = GameRunning::new();
    check_collisions(&mut game, None, &vec![fallback_probe(true)]);
    assert!(game.0);
}

#[test]
fn collision_check_never_resumes_a_game() {
    let mut game = GameRunning(false);
    check_collisions(&mut game, Some(DinoProbe { mask: None }), &vec![fallback_probe(false)]);
    assert!(!game.0);
}

#[test]
fn game_over_texts_shown_once() {
    assert!(!show_game_over(&GameRunning(true), false));
    assert!(show_game_over(&GameRunning(false), false));
    assert!(!show_game_over(&GameRunning(false), true));
}

#[test]
fn restart_needs_game_over_and_key() {
    let mut game = GameRunning(true);
    let mut score = Score(7);
    let mut speed = Speed { hundredths: 135 };
    assert!(!restart_game(&mut game, &mut score, &mut speed, true));
    assert_eq!((game.0, score.0, speed.hundredths), (true, 7, 135));

    let mut game = GameRunning(false);
    assert!(!restart_game(&mut game, &mut score, &mut speed, false));
    assert_eq!((game.0, score.0, speed.hundredths), (false, 7, 135));

    assert!(restart_game(&mut game, &mut score, &mut speed, true));
    assert_eq!((game.0, score.0, speed.hundredths), (true, 0, 100));
}

#[test]
fn scoring_adds_points_and_speed() {
    let mut score = Score::new();
    let mut speed = Speed::new();
    let scored = score_trees(&mut speed, &mut score, &vec![true, false, true, true]);
    assert_eq!(scored, vec![0, 2, 3]);
    assert_eq!(score.0, 3);
    assert_eq!(speed.hundredths, 115);
    let scored = score_trees(&mut speed, &mut score, &vec![false, false]);
    assert!(scored.is_empty());
    assert_eq!(score.0, 3);
    assert_eq!(speed.hundredths, 115);
}

#[test]
fn speed_tracks_score_through_a_game() {
    let mut game = GameRunning::new();
    let mut score = Score::new();
    let mut speed = Speed::new();
    for round in 0..10 {
        score_trees(&mut speed, &mut score, &vec![round % 2 == 0, true]);
        assert_eq!(speed.hundredths, 100 + 5 * score.0 as u64);
    }
    check_collisions(&mut game, None, &Vec::new());
    game.0 = false;
    assert!(restart_game(&mut game, &mut score, &mut speed, true));
    assert_eq!(speed.hundredths, 100 + 5 * score.0 as u64);
}

#[test]
fn jump_only_from_the_ground_while_running() {
    assert!(jump_input(&GameRunning(true), true, false));
    assert!(!jump_input(&GameRunning(true), true, true));
    assert!(!jump_input(&GameRunning(true), false, false));
    assert!(!jump_input(&GameRunning(false), true, false));
}
