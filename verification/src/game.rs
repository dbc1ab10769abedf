//! Game state and the rules that change it: a collision ends the run,
//! passing a tree scores it and speeds the game up, and a restart after
//! game over brings everything back to the starting state.
use vstd::prelude::*;
use crate::collision::{any_tree_hit, check_dino_tree_collision, probe_ready, TreeProbe};
use crate::pixel_mask::PixelMask;

verus! {

/// Whether the game is running (`true`) or over (`false`).
pub struct GameRunning(pub bool);

/// Number of trees the dino has jumped over.
pub struct Score(pub u32);

/// The speed multiplier of the scrolling world, in hundredths: `100` is
/// 1.00x.
pub struct Speed {
    pub hundredths: u64,
}

/// The speed multiplier at the start of a game, 1.00x.
pub const SPEED_START: u64 = 100;

/// How much each scored tree adds to the speed multiplier, 0.05x.
pub const SPEED_STEP: u64 = 5;

/// The speed multiplier is 1.00x plus 0.05x per scored tree.
pub open spec fn speed_tracks_score(speed: Speed, score: Score) -> bool {
    speed.hundredths == SPEED_START + SPEED_STEP * score.0
}

/// The state a game starts in, and returns to on restart.
pub open spec fn is_start_state(game: GameRunning, score: Score, speed: Speed) -> bool {
    &&& game.0
    &&& score.0 == 0
    &&& speed.hundredths == SPEED_START
}

/// In the start state the speed is 1.00x for a score of zero, so the speed
/// tracks the score from the first frame on.
pub proof fn lemma_start_state_speed_tracks_score(game: GameRunning, score: Score, speed: Speed)
    requires
        is_start_state(game, score, speed),
    ensures
        speed_tracks_score(speed, score),
{
}

impl GameRunning {
    /// A game starts running.
    pub fn new() -> (game: GameRunning)
        ensures
            game.0,
    {
        GameRunning(true)
    }
}

impl Score {
    /// A game starts with no tree scored.
    pub fn new() -> (score: Score)
        ensures
            score.0 == 0,
    {
        Score(0)
    }
}

impl Speed {
    /// A game starts at 1.00x speed.
    pub fn new() -> (speed: Speed)
        ensures
            speed.hundredths == SPEED_START,
    {
        Speed { hundredths: SPEED_START }
    }
}

/// What the collision rule needs of the dino: its mask, if loaded.
pub struct DinoProbe<'a> {
    pub mask: Option<&'a PixelMask>,
}

/// One frame of the collision rule. Nothing happens while the game is over
/// or when there is no dino; otherwise the game ends as soon as the dino
/// hits a tree.
pub fn check_collisions(game: &mut GameRunning, dino: Option<DinoProbe>, trees: &Vec<TreeProbe>)
    requires
        old(game).0 ==> (dino matches Some(d) ==> {
            &&& d.mask matches Some(m) ==> m.wf()
            &&& forall|i: int| 0 <= i < trees@.len() ==> #[trigger] probe_ready(d.mask, trees@[i])
        }),
    ensures
        final(game).0 == (old(game).0 && !(dino matches Some(d) && any_tree_hit(d.mask, trees@))),
{
    if !game.0 {
        return;
    }
    match dino {
        Some(d) => {
            if check_dino_tree_collision(d.mask, trees) {
                game.0 = false;
            }
        },
        None => {},
    }
}

/// Whether the game-over texts must be put up now: the game is over and
/// they are not shown yet.
pub fn show_game_over(game: &GameRunning, already_shown: bool) -> (show: bool)
    ensures
        show == (!game.0 && !already_shown),
{
    if game.0 {
        return false;
    }
    if already_shown {
        return false;
    }
    true
}

/// The restart rule: after game over, pressing the restart key resets the
/// score and the speed and resumes the game. Returns whether the restart
/// happened; otherwise nothing changes.
pub fn restart_game(
    game: &mut GameRunning,
    score: &mut Score,
    speed: &mut Speed,
    restart_pressed: bool,
) -> (restarted: bool)
    ensures
        restarted == (!old(game).0 && restart_pressed),
        restarted ==> is_start_state(*final(game), *final(score), *final(speed)),
        restarted ==> speed_tracks_score(*final(speed), *final(score)),
        restarted ==> final(game).0 && final(score).0 == 0 && final(speed).hundredths == 100,
        !restarted ==> {
            &&& final(game).0 == old(game).0
            &&& final(score).0 == old(score).0
            &&& final(speed).hundredths == old(speed).hundredths
        },
{
    if game.0 {
        return false;
    }
    if !restart_pressed {
        return false;
    }
    score.0 = 0;
    speed.hundredths = SPEED_START;
    game.0 = true;
    true
}

/// Indices of the `true` entries, in increasing order.
pub open spec fn passed_indices(passed: Seq<bool>) -> Seq<usize>
    decreases passed.len(),
{
    if passed.len() == 0 {
        Seq::empty()
    } else {
        let rest = passed_indices(passed.drop_last());
        if passed.last() {
            rest.push((passed.len() - 1) as usize)
        } else {
            rest
        }
    }
}

/// Each tree is scored at most once, and exactly the passed ones are: the
/// indices come in strictly increasing order, each names a passed entry,
/// and every passed entry is among them.
pub proof fn lemma_each_passed_tree_scored_once(passed: Seq<bool>)
    requires
        passed.len() <= usize::MAX,
    ensures
        forall|i: int, j: int|
            0 <= i < j < passed_indices(passed).len() ==> passed_indices(passed)[i]
                < passed_indices(passed)[j],
        forall|i: int|
            0 <= i < passed_indices(passed).len() ==> {
                &&& (passed_indices(passed)[i] as int) < passed.len()
                &&& passed[passed_indices(passed)[i] as int]
            },
        forall|k: int| 0 <= k < passed.len() && passed[k] ==> passed_indices(passed).contains(k as usize),
    decreases passed.len(),
{
    if passed.len() > 0 {
        let rest = passed.drop_last();
        lemma_each_passed_tree_scored_once(rest);
        let idx = passed_indices(passed);
        let ridx = passed_indices(rest);
        assert forall|i: int| 0 <= i < ridx.len() implies passed[ridx[i] as int] by {
            assert(rest[ridx[i] as int] == passed[ridx[i] as int]);
        }
        assert forall|k: int| 0 <= k < passed.len() && passed[k] implies idx.contains(k as usize) by {
            if k < passed.len() - 1 {
                assert(rest[k] == passed[k]);
                let w = choose|w: int| 0 <= w < ridx.len() && ridx[w] == k as usize;
                assert(idx[w] == k as usize);
            } else {
                assert(idx[idx.len() - 1] == k as usize);
            }
        }
    }
}

/// A prefix has no more passed entries than the whole sequence.
proof fn lemma_passed_prefix_len(passed: Seq<bool>, i: int)
    requires
        0 <= i <= passed.len(),
    ensures
        passed_indices(passed.take(i)).len() <= passed_indices(passed).len(),
    decreases passed.len() - i,
{
    if i < passed.len() {
        lemma_passed_prefix_len(passed, i + 1);
        assert(passed.take(i + 1).drop_last() =~= passed.take(i));
    } else {
        assert(passed.take(i) =~= passed);
    }
}

/// The scoring rule for one frame: every unscored tree that the dino has
/// passed (`passed[i]`) is scored once, adding one point and 0.05x speed
/// each. Returns the indices of the trees scored now.
pub fn score_trees(speed: &mut Speed, score: &mut Score, passed: &Vec<bool>) -> (scored: Vec<usize>)
    requires
        old(score).0 + passed_indices(passed@).len() <= u32::MAX,
        old(speed).hundredths + SPEED_STEP * passed_indices(passed@).len() <= u64::MAX,
    ensures
        scored@ == passed_indices(passed@),
        final(score).0 == old(score).0 + scored@.len(),
        final(speed).hundredths == old(speed).hundredths + SPEED_STEP * scored@.len(),
        final(speed).hundredths == old(speed).hundredths + 5 * scored@.len(),
        forall|i: int, j: int| 0 <= i < j < scored@.len() ==> scored@[i] < scored@[j],
        forall|i: int|
            0 <= i < scored@.len() ==> (scored@[i] as int) < passed@.len() && passed@[scored@[i] as int],
        forall|k: int| 0 <= k < passed@.len() && passed@[k] ==> scored@.contains(k as usize),
        speed_tracks_score(*old(speed), *old(score)) ==> speed_tracks_score(*final(speed), *final(score)),
{
    let n = passed.len();
    let mut scored: Vec<usize> = Vec::new();
    let mut i: usize = 0;
    while i < n
        invariant
            i <= n,
            n == passed@.len(),
            scored@ == passed_indices(passed@.take(i as int)),
            score.0 == old(score).0 + scored@.len(),
            speed.hundredths == old(speed).hundredths + SPEED_STEP * scored@.len(),
            old(score).0 + passed_indices(passed@).len() <= u32::MAX,
            old(speed).hundredths + SPEED_STEP * passed_indices(passed@).len() <= u64::MAX,
        decreases n - i,
    {
        proof {
            lemma_passed_prefix_len(passed@, i + 1);
            assert(passed@.take(i + 1).drop_last() =~= passed@.take(i as int));
        }
        if passed[i] {
            scored.push(i);
            speed.hundredths = speed.hundredths + SPEED_STEP;
            score.0 = score.0 + 1;
        }
        i = i + 1;
    }
    assert(passed@.take(n as int) =~= passed@);
    proof {
        lemma_each_passed_tree_scored_once(passed@);
    }
    scored
}

/// The jump rule: while the game runs, the jump key starts a jump unless
/// the dino is already in the air (no double jump).
pub fn jump_input(game: &GameRunning, jump_pressed: bool, is_jumping: bool) -> (start_jump: bool)
    ensures
        start_jump == (game.0 && jump_pressed && !is_jumping),
{
    if !game.0 {
        return false;
    }
    jump_pressed && !is_jumping
}

} // verus!
