use dino_jump::game::{Score, Speed};
use dino_jump::hud::{score_text, speed_text};

#[test]
fn score_line() {
    assert_eq!(score_text(&Score(0)), "Score: 0");
    assert_eq!(score_text(&Score(7)), "Score: 7");
    assert_eq!(score_text(&Score(10)), "Score: 10");
    assert_eq!(score_text(&Score(1234)), "Score: 1234");
    assert_eq!(score_text(&Score(u32::MAX)), "Score: 4294967295");
}

#[test]
fn speed_line() {
    assert_eq!(speed_text(&Speed::new()), "Speed: 1.00x");
    assert_eq!(speed_text(&Speed { hundredths: 105 }), "Speed: 1.05x");
    assert_eq!(speed_text(&Speed { hundredths: 250 }), "Speed: 2.50x");
    assert_eq!(speed_text(&Speed { hundredths: 1000 }), "Speed: 10.00x");
    assert_eq!(speed_text(&Speed { hundredths: 7 }), "Speed: 0.07x");
}

#[test]
fn speed_line_matches_float_formatting() {
    for h in [100u64, 105, 110, 195, 200, 345, 1005] {
        let expected = format!("Speed: {:.2}x", h as f64 / 100.0);
        assert_eq!(speed_text(&Speed { hundredths: h }), expected);
    }
}
