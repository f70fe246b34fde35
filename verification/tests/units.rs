//! Unit tests for the geometry, the fixed-point math, and the entities.

use breakout::entities::{Ball, Bar, Brick, Direction, WinDimensions};
use breakout::fixed::{isqrt_u64, mul_div_to_zero, normalize_milli, sin_milli_fp};
use breakout::game::Game;
use breakout::geometry::Rect;

#[test]
fn overlap_is_strict() {
    let a = Rect::new(0, 0, 10, 10);
    let touching = Rect::new(10, 0, 10, 10);
    let apart = Rect::new(11, 0, 10, 10);
    let crossing = Rect::new(9, 9, 10, 10);
    assert!(!a.overlaps(&touching));
    assert!(!touching.overlaps(&a));
    assert!(!a.overlaps(&apart));
    assert!(a.overlaps(&crossing));
    assert!(crossing.overlaps(&a));
    assert!(a.overlaps(&a));
}

#[test]
fn isqrt_is_the_floor_of_the_root() {
    assert_eq!(isqrt_u64(0), 0);
    assert_eq!(isqrt_u64(1), 1);
    assert_eq!(isqrt_u64(3), 1);
    assert_eq!(isqrt_u64(4), 2);
    assert_eq!(isqrt_u64(999_999), 999);
    assert_eq!(isqrt_u64(1_000_000), 1000);
    assert_eq!(isqrt_u64(2_000_000), 1414);
    assert_eq!(isqrt_u64(2_500_000_000_000), 1_581_138);
    assert_eq!(isqrt_u64(99_999_999_999_999), 9_999_999);
}

#[test]
fn division_rounds_toward_zero() {
    assert_eq!(mul_div_to_zero(7, 1, 2), 3);
    assert_eq!(mul_div_to_zero(-7, 1, 2), -3);
    assert_eq!(mul_div_to_zero(-1000, 7, 1000), -7);
    assert_eq!(mul_div_to_zero(999, 7, 1000), 6);
    assert_eq!(mul_div_to_zero(-999, 7, 1000), -6);
}

#[test]
fn sine_matches_known_angles() {
    assert_eq!(sin_milli_fp(0), 0);
    // thirty degrees: one half
    assert_eq!(sin_milli_fp(524), 500);
    // sixty degrees
    assert_eq!(sin_milli_fp(1047), 864);
    assert_eq!(sin_milli_fp(-1047), -864);
}

#[test]
fn normalization_scales_to_the_unit() {
    assert_eq!(normalize_milli(3000, 4000), (600, 800));
    assert_eq!(normalize_milli(-3000, 4000), (-600, 800));
    assert_eq!(normalize_milli(3000, -4000), (600, -800));
    // a zero vector is left alone
    assert_eq!(normalize_milli(0, 0), (0, 0));
    assert_eq!(normalize_milli(0, -800), (0, -1000));
    // the shortest diagonal scales up to the unit too
    assert_eq!(normalize_milli(1, 1), (707, 707));
    assert_eq!(normalize_milli(-1, -2), (-447, -894));
}

#[test]
fn normalization_is_a_fixpoint_on_unit_vectors() {
    let once = normalize_milli(1, 1);
    let twice = normalize_milli(once.0, once.1);
    assert_eq!(once, twice);
    let once = normalize_milli(150, -800);
    let twice = normalize_milli(once.0, once.1);
    assert_eq!(once, twice);
    let once = normalize_milli(7000, 7000);
    let twice = normalize_milli(once.0, once.1);
    assert_eq!(once, twice);
}

#[test]
fn normalized_ball_velocity_lands_in_the_band() {
    let mut b = Ball {
        rect: Rect::new(0, 0, 30, 30),
        velocity_x: 1234,
        velocity_y: -567,
        first_bounce: false,
    };
    b.normalize_velocity();
    let m = (b.velocity_x as i64) * (b.velocity_x as i64) + (b.velocity_y as i64) * (b.velocity_y
        as i64);
    assert!(990_000 <= m && m <= 1_010_000);
    assert!(b.velocity_x > 0 && b.velocity_y < 0);
}

#[test]
fn brick_new_is_live_with_fixed_size() {
    let b = Brick::new(37, 81);
    assert_eq!(b.rect.x, 37);
    assert_eq!(b.rect.y, 81);
    assert_eq!(b.rect.width, 60);
    assert_eq!(b.rect.height, 20);
    assert!(!b.destroyed);
}

#[test]
fn bar_starts_centered_near_the_bottom() {
    let dims = WinDimensions { width: 800, height: 600 };
    let bar = Bar::new(&dims);
    assert_eq!(bar.rect.x, 300);
    assert_eq!(bar.rect.y, 540);
    assert_eq!(bar.rect.width, 200);
    assert_eq!(bar.rect.height, 30);
    assert_eq!(bar.velocity_x, 1000);
}

#[test]
fn bar_moves_and_clamps_at_the_walls() {
    let dims = WinDimensions { width: 800, height: 600 };
    let mut g = Game::new(dims);
    g.update_bar_position(Direction::Left);
    assert_eq!(g.bar.rect.x, 280);
    assert_eq!(g.bar.velocity_x, -1000);
    g.update_bar_position(Direction::Right);
    assert_eq!(g.bar.rect.x, 300);
    assert_eq!(g.bar.velocity_x, 1000);

    g.bar.rect.x = 10;
    g.update_bar_position(Direction::Left);
    assert_eq!(g.bar.rect.x, 0);
    assert_eq!(g.bar.velocity_x, 1000);

    g.bar.rect.x = 590;
    g.update_bar_position(Direction::Right);
    assert_eq!(g.bar.rect.x, 600);
    assert_eq!(g.bar.velocity_x, -1000);
}

#[test]
fn brick_grid_is_centered_and_row_major() {
    let dims = WinDimensions { width: 800, height: 600 };
    let mut g = Game::new(dims);
    assert_eq!(g.bricks.len(), 0);
    g.get_bricks();
    // 800 / 70 - 5 = 6 columns, 5 rows
    assert_eq!(g.bricks.len(), 30);
    assert_eq!(g.bricks[0].rect.x, 195);
    assert_eq!(g.bricks[0].rect.y, 50);
    assert_eq!(g.bricks[5].rect.x, 195 + 5 * 70);
    assert_eq!(g.bricks[5].rect.y, 50);
    assert_eq!(g.bricks[6].rect.x, 195);
    assert_eq!(g.bricks[6].rect.y, 80);
    assert!(g.bricks.iter().all(|b| !b.destroyed));
    assert!(g.bricks.iter().all(|b| b.rect.width == 60 && b.rect.height == 20));
    // the grid is horizontally centered
    let first = g.bricks[0].rect.x;
    let last = g.bricks[5].rect.x + 60;
    assert_eq!(first, 800 - last);
}

#[test]
fn new_game_is_ready_to_play() {
    let dims = WinDimensions { width: 1024, height: 768 };
    let g = Game::new(dims);
    assert_eq!(g.state.score, 0);
    assert_eq!(g.state.lives, 3);
    assert!(!g.state.game_over);
    assert_eq!(g.dimensions, dims);
    assert_eq!(g.bar.rect.x, (1024 - 200) / 2);
    assert_eq!(g.bar.rect.y, 768 - 76);
    assert_eq!(g.ball.rect.y, g.bar.rect.y - 30);
    assert!(g.ball.first_bounce);
    assert_eq!(g.ball.velocity_x, 0);
    assert_eq!(g.ball.velocity_y, -1000);
}
