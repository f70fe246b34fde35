//! Scenario tests for the per-tick physics engine, driven with injected
//! random draws so every outcome is deterministic.

use breakout::entities::{Ball, Bar, GameState, WinDimensions};
use breakout::game::{Game, TickRandom};
use breakout::geometry::Rect;

fn dims_800x600() -> WinDimensions {
    WinDimensions { width: 800, height: 600 }
}

fn quiet_draws() -> TickRandom {
    TickRandom {
        brick_perturb: 0,
        first_dir_right: false,
        jitter_x: 0,
        jitter_y: 0,
        spawn_offset: 0,
    }
}

fn fresh_game() -> Game {
    let mut g = Game::new(dims_800x600());
    g.get_bricks();
    g
}

#[test]
fn paddle_center_bounce_goes_straight_up() {
    // Ball just above a bar centered at x=300 of width 200, field 800 wide,
    // moving straight down; the hit lands exactly mid-bar, so the bounce
    // angle is zero: the velocity is (0, -0.8) before normalization and
    // exactly straight up, (0, -1), after it.
    let mut g = fresh_game();
    assert_eq!(g.bar.rect.x, 300);
    assert_eq!(g.bar.rect.y, 540);
    g.bar.velocity_x = 0;
    g.ball = Ball {
        rect: Rect { x: 385, y: 510, width: 30, height: 30 },
        velocity_x: 0,
        velocity_y: 1000,
        first_bounce: false,
    };
    g.update_ball_position(quiet_draws());
    assert_eq!(g.ball.velocity_x, 0);
    assert_eq!(g.ball.velocity_y, -1000);
    // the ball is snapped on top of the bar
    assert_eq!(g.ball.rect.y, 510);
    assert_eq!(g.state.score, 0);
    assert!(!g.state.game_over);
}

#[test]
fn paddle_bounce_takes_the_bars_motion() {
    // Same central hit, but with the bar moving right: 0.15 of its unit
    // velocity is added to the outgoing horizontal component.
    let mut g = fresh_game();
    g.bar.velocity_x = 1000;
    g.ball = Ball {
        rect: Rect { x: 385, y: 510, width: 30, height: 30 },
        velocity_x: 0,
        velocity_y: 1000,
        first_bounce: false,
    };
    g.update_ball_position(quiet_draws());
    // (150, -800) normalized twice in fixed point
    assert_eq!(g.ball.velocity_x, 184);
    assert_eq!(g.ball.velocity_y, -982);
}

#[test]
fn paddle_edge_hit_is_clamped_to_sixty_degrees() {
    // The ball catches the bar's very left edge: the hit position clamps
    // to zero and the bounce angle to sixty degrees leftward.
    let mut g = fresh_game();
    g.bar.velocity_x = 0;
    g.ball = Ball {
        rect: Rect { x: 270, y: 510, width: 30, height: 30 },
        velocity_x: 0,
        velocity_y: 1000,
        first_bounce: false,
    };
    g.update_ball_position(quiet_draws());
    // sin(-60 degrees) is -864 milli; (-864, -800) normalized
    assert_eq!(g.ball.velocity_x, -733);
    assert_eq!(g.ball.velocity_y, -679);
}

#[test]
fn brick_hit_centered_bounces_vertically() {
    // Ball dead-centered on a brick (dx = dy = 0): the horizontal
    // penetration (45) is not smaller than the vertical one (25), so the
    // tie-break family of cases resolves to a vertical bounce.
    let mut g = fresh_game();
    // first brick of the grid sits at (195, 50); center the ball on it
    assert_eq!(g.bricks[0].rect.x, 195);
    assert_eq!(g.bricks[0].rect.y, 50);
    g.ball = Ball {
        rect: Rect { x: 210, y: 38, width: 30, height: 30 },
        velocity_x: 0,
        velocity_y: 1000,
        first_bounce: false,
    };
    g.update_ball_position(quiet_draws());
    assert!(g.bricks[0].destroyed);
    assert_eq!(g.state.score, 10);
    assert_eq!(g.ball.velocity_x, 0);
    assert_eq!(g.ball.velocity_y, -1000);
    assert_eq!(g.ball.rect.x, 210);
    assert_eq!(g.ball.rect.y, 45);
    assert!(!g.state.game_over);
}

#[test]
fn brick_hit_equal_penetration_bounces_vertically() {
    // wx == wy exactly (the ball 20 pixels right of the brick's center):
    // `wx < wy` is false, so the bounce is vertical.
    let mut g = fresh_game();
    g.ball = Ball {
        rect: Rect { x: 230, y: 38, width: 30, height: 30 },
        velocity_x: 0,
        velocity_y: 1000,
        first_bounce: false,
    };
    g.update_ball_position(quiet_draws());
    assert!(g.bricks[0].destroyed);
    assert_eq!(g.ball.velocity_x, 0);
    assert_eq!(g.ball.velocity_y, -1000);
}

#[test]
fn destroyed_brick_stays_destroyed_and_scores_once() {
    let mut g = fresh_game();
    g.ball = Ball {
        rect: Rect { x: 210, y: 38, width: 30, height: 30 },
        velocity_x: 0,
        velocity_y: 1000,
        first_bounce: false,
    };
    g.update_ball_position(quiet_draws());
    assert!(g.bricks[0].destroyed);
    assert_eq!(g.state.score, 10);
    // put the ball back on the same spot: the dead brick is skipped
    g.ball = Ball {
        rect: Rect { x: 210, y: 38, width: 30, height: 30 },
        velocity_x: 0,
        velocity_y: 1000,
        first_bounce: false,
    };
    g.update_ball_position(quiet_draws());
    assert!(g.bricks[0].destroyed);
    assert_eq!(g.state.score, 10);
}

#[test]
fn bottom_exit_on_last_life_ends_the_game_without_respawn() {
    // Lives go from 1 to 0 on a bottom exit: game over in the same tick,
    // and the ball is not respawned.
    let mut g = fresh_game();
    g.state.lives = 1;
    g.ball = Ball {
        rect: Rect { x: 400, y: 570, width: 30, height: 30 },
        velocity_x: 0,
        velocity_y: 1000,
        first_bounce: false,
    };
    g.update_ball_position(quiet_draws());
    assert_eq!(g.state.lives, 0);
    assert!(g.state.game_over);
    // no respawn: the ball kept falling past the bottom edge
    assert_eq!(g.ball.rect.y, 577);
    assert_eq!(g.ball.rect.x, 400);
    assert_eq!(g.ball.velocity_y, 1000);
}

#[test]
fn bottom_exit_with_lives_left_respawns_above_the_bar() {
    let mut g = fresh_game();
    g.ball = Ball {
        rect: Rect { x: 400, y: 570, width: 30, height: 30 },
        velocity_x: 0,
        velocity_y: 1000,
        first_bounce: false,
    };
    let mut draws = quiet_draws();
    draws.spawn_offset = 25;
    g.update_ball_position(draws);
    assert_eq!(g.state.lives, 2);
    assert!(!g.state.game_over);
    // respawned just above the bar, 100 + offset right of its left edge
    assert_eq!(g.ball.rect.x, 300 + 100 + 25);
    assert_eq!(g.ball.rect.y, 540 - 30);
    assert_eq!(g.ball.velocity_x, 0);
    assert_eq!(g.ball.velocity_y, -1000);
    assert!(g.ball.first_bounce);
}

#[test]
fn side_wall_clamps_and_reflects() {
    let mut g = fresh_game();
    g.ball = Ball {
        rect: Rect { x: 3, y: 300, width: 30, height: 30 },
        velocity_x: -866,
        velocity_y: 500,
        first_bounce: false,
    };
    g.update_ball_position(quiet_draws());
    assert_eq!(g.ball.rect.x, 0);
    assert_eq!(g.ball.velocity_x, 866);
    assert_eq!(g.ball.velocity_y, 500);

    g.ball = Ball {
        rect: Rect { x: 769, y: 300, width: 30, height: 30 },
        velocity_x: 866,
        velocity_y: 500,
        first_bounce: false,
    };
    g.update_ball_position(quiet_draws());
    assert_eq!(g.ball.rect.x, 770);
    assert_eq!(g.ball.velocity_x, -866);
    assert_eq!(g.ball.velocity_y, 500);
}

#[test]
fn first_ceiling_bounce_randomizes_direction_once() {
    // First flight: the ceiling contact reflects the ball downward,
    // clears the first-flight flag, and picks a fresh horizontal
    // direction (injected here as rightward).
    let mut g = fresh_game();
    g.ball = Ball {
        rect: Rect { x: 400, y: 5, width: 30, height: 30 },
        velocity_x: 0,
        velocity_y: -1000,
        first_bounce: true,
    };
    let mut draws = quiet_draws();
    draws.first_dir_right = true;
    g.update_ball_position(draws);
    assert!(!g.ball.first_bounce);
    assert_eq!(g.ball.rect.y, 0);
    // (1000, 1000) normalized
    assert_eq!(g.ball.velocity_x, 707);
    assert_eq!(g.ball.velocity_y, 707);

    // a later ceiling contact does not randomize again
    g.ball = Ball {
        rect: Rect { x: 400, y: 4, width: 30, height: 30 },
        velocity_x: 707,
        velocity_y: -707,
        first_bounce: false,
    };
    let mut draws2 = quiet_draws();
    draws2.first_dir_right = false;
    g.update_ball_position(draws2);
    assert!(!g.ball.first_bounce);
    assert_eq!(g.ball.velocity_x, 707);
    assert_eq!(g.ball.velocity_y, 707);
}

#[test]
fn first_side_wall_bounce_randomizes_direction() {
    // The first flight can also end at a side wall: the contact reflects
    // the ball, then the fresh horizontal direction (injected here as
    // rightward) replaces it and the first-flight flag clears.
    let mut g = fresh_game();
    g.ball = Ball {
        rect: Rect { x: 3, y: 300, width: 30, height: 30 },
        velocity_x: -866,
        velocity_y: 500,
        first_bounce: true,
    };
    let mut draws = quiet_draws();
    draws.first_dir_right = true;
    g.update_ball_position(draws);
    assert!(!g.ball.first_bounce);
    assert_eq!(g.ball.rect.x, 0);
    // (1000, 500) normalized by the jitter step
    assert_eq!(g.ball.velocity_x, 894);
    assert_eq!(g.ball.velocity_y, 447);
}

#[test]
fn last_life_lost_in_a_corner_discards_the_ball() {
    // A first-flight side-wall contact and a bottom exit in the same tick,
    // with the last life: the freshly randomized ball is discarded as the
    // game ends, so its velocity is left as the boundary pass set it.
    let mut g = fresh_game();
    g.state.lives = 1;
    g.ball = Ball {
        rect: Rect { x: 3, y: 570, width: 30, height: 30 },
        velocity_x: -866,
        velocity_y: 500,
        first_bounce: true,
    };
    g.update_ball_position(quiet_draws());
    assert_eq!(g.state.lives, 0);
    assert!(g.state.game_over);
    assert!(!g.ball.first_bounce);
    assert_eq!(g.ball.rect.x, 0);
    assert_eq!(g.ball.rect.y, 573);
    assert_eq!(g.ball.velocity_x, -1000);
    assert_eq!(g.ball.velocity_y, 500);
}

#[test]
fn clearing_the_last_brick_ends_the_game() {
    let mut g = fresh_game();
    g.bricks = vec![breakout::entities::Brick::new(195, 50)];
    g.ball = Ball {
        rect: Rect { x: 210, y: 38, width: 30, height: 30 },
        velocity_x: 0,
        velocity_y: 1000,
        first_bounce: false,
    };
    g.update_ball_position(quiet_draws());
    assert!(g.bricks[0].destroyed);
    assert_eq!(g.state.score, 10);
    assert_eq!(g.state.lives, 3);
    assert!(g.state.game_over);
}

#[test]
fn brick_perturbation_is_renormalized() {
    // A vertical brick bounce with the largest positive perturbation: the
    // perturbed axis picks up the draw, then the vector is renormalized.
    let mut g = fresh_game();
    g.ball = Ball {
        rect: Rect { x: 210, y: 38, width: 30, height: 30 },
        velocity_x: 0,
        velocity_y: 1000,
        first_bounce: false,
    };
    let mut draws = quiet_draws();
    draws.brick_perturb = 90;
    g.update_ball_position(draws);
    // vertical bounce to (90, -1000), normalized to (89, -995); the zero
    // jitter renormalizes once more, to (89, -996)
    assert!(g.bricks[0].destroyed);
    assert_eq!(g.ball.velocity_x, 89);
    assert_eq!(g.ball.velocity_y, -996);
    let vx = g.ball.velocity_x as i64;
    let vy = g.ball.velocity_y as i64;
    let m = vx * vx + vy * vy;
    assert!(990_000 <= m && m <= 1_010_000);
}

#[test]
fn random_ticks_keep_the_invariants() {
    // Drive the real generator for many ticks: the velocity stays in the
    // unit band, the score never decreases, destroyed bricks stay
    // destroyed, and the terminal flag tracks its two causes.
    let mut g = fresh_game();
    let mut last_score: u32 = 0;
    let mut steps: u32 = 0;
    while !g.state.game_over && steps < 2000 {
        let destroyed_before: Vec<bool> = g.bricks.iter().map(|b| b.destroyed).collect();
        g.tick();
        let vx = g.ball.velocity_x as i64;
        let vy = g.ball.velocity_y as i64;
        let m = vx * vx + vy * vy;
        assert!(990_000 <= m && m <= 1_010_000);
        assert!(g.state.score >= last_score);
        assert!(g.state.score - last_score <= 10);
        for (i, was) in destroyed_before.iter().enumerate() {
            if *was {
                assert!(g.bricks[i].destroyed);
            }
        }
        let all_gone = g.bricks.iter().all(|b| b.destroyed);
        assert_eq!(g.state.game_over, g.state.lives == 0 || all_gone);
        last_score = g.state.score;
        steps += 1;
    }
}

#[test]
fn spawned_ball_lands_in_the_bars_right_half() {
    // The random spawn offset always lands within [100, 200) of the bar's
    // left edge.
    let bar = Bar {
        rect: Rect { x: 300, y: 540, width: 200, height: 30 },
        velocity_x: 1000,
    };
    let mut n: u32 = 0;
    while n < 50 {
        let b = Ball::new(&bar);
        assert!(b.rect.x >= 400 && b.rect.x < 500);
        assert_eq!(b.rect.y, 510);
        assert_eq!(b.velocity_x, 0);
        assert_eq!(b.velocity_y, -1000);
        assert!(b.first_bounce);
        n += 1;
    }
}

#[test]
fn game_state_starts_full() {
    let s = GameState::new();
    assert_eq!(s.score, 0);
    assert_eq!(s.lives, 3);
    assert!(!s.game_over);
}
