use metaballs::{
    blob_count, blob_from_draws, gen_blobs, linear_interpolation, step_blob, transform, Blob,
    Params, SpawnDraws, TickDraws, Vector2, UNIT,
};

fn still_params() -> Params {
    let mut p = Params::default();
    p.velocity = 0;
    p.fluct = 0;
    p
}

fn blob_at(x: i64, y: i64, vx: i64, vy: i64) -> Blob {
    Blob { coord: Vector2 { x, y }, velocity: Vector2 { x: vx, y: vy }, falling: false }
}

fn no_jitter() -> TickDraws {
    TickDraws { roll: 0, eps: 0, jitter: 1000 }
}

#[test]
fn default_params() {
    let p = Params::default();
    assert_eq!(p.velocity, 5500);
    assert_eq!(p.fluct, 200);
    assert_eq!((p.color.r, p.color.g, p.color.b), (255, 255, 255));
    assert!(p.background_enable);
    assert!(p.epilepsy);
    assert_eq!(p.density, 1350);
    assert_eq!(p.threshold, 800);
    assert!(p.is_valid());
}

#[test]
fn blob_count_of_example_viewport() {
    // 100 * 40 / 1.25 = 3200, whose cube root is about 14.7.
    assert_eq!(blob_count(100, 40, 1250), 14);
    assert_eq!(blob_count(100, 40, 1250), blob_count(100, 40, 1250));
}

#[test]
fn blob_count_exact_cube() {
    // 8 * 1 / 1.0 = 8, whose cube root is exactly 2.
    assert_eq!(blob_count(8, 1, 1000), 2);
    assert_eq!(blob_count(7, 1, 1000), 1);
}

#[test]
fn blob_count_tiny_viewport_is_zero() {
    assert_eq!(blob_count(1, 1, 1350), 0);
    assert_eq!(blob_count(0, 40, 1250), 0);
}

#[test]
fn blob_count_largest_viewport() {
    let n = blob_count(u32::MAX, u32::MAX, 1) as u128;
    let area = (u32::MAX as u128) * (u32::MAX as u128) * 1000;
    assert!(n * n * n <= area);
    assert!((n + 1) * (n + 1) * (n + 1) > area);
}

#[test]
fn gen_blobs_places_blobs_in_view() {
    let mut p = Params::default();
    p.density = 1250;
    let blobs = gen_blobs(&100, &40, &p);
    assert_eq!(blobs.len(), 14);
    for b in &blobs {
        assert!(0 <= b.coord.x && b.coord.x < 100 * UNIT);
        assert!(0 <= b.coord.y && b.coord.y < 40 * UNIT);
        assert!(b.velocity.x.abs() <= 5500 / 2);
        assert!(b.velocity.y.abs() <= 5500 * 3 / 10);
        assert!(!b.falling);
    }
}

#[test]
fn blob_from_draws_centres_velocity() {
    let p = Params::default();
    let d = SpawnDraws { px: 1234, py: 567, rx: 0, ry: 599 };
    let b = blob_from_draws(d, 10, 10, &p);
    assert_eq!(b.coord, Vector2 { x: 1234, y: 567 });
    // (0 - 500) * 5500 / 1000 and (599 - 300) * 5500 / 1000, floored.
    assert_eq!(b.velocity, Vector2 { x: -2750, y: 1644 });
    assert!(!b.falling);
}

#[test]
fn blob_from_draws_odd_speed_is_symmetric() {
    let mut p = Params::default();
    p.velocity = 5501;
    let low = blob_from_draws(SpawnDraws { px: 0, py: 0, rx: 0, ry: 0 }, 10, 10, &p);
    // -2750.5 and -1650.3, rounded toward zero.
    assert_eq!(low.velocity, Vector2 { x: -2750, y: -1650 });
    let high = blob_from_draws(SpawnDraws { px: 0, py: 0, rx: 999, ry: 599 }, 10, 10, &p);
    // 2744.9 and 1644.9.
    assert_eq!(high.velocity, Vector2 { x: 2744, y: 1644 });
}

#[test]
fn largest_speed_is_accepted() {
    let mut p = Params::default();
    p.velocity = u32::MAX;
    assert!(p.is_valid());
    let b = blob_from_draws(SpawnDraws { px: 5000, py: 5000, rx: 0, ry: 599 }, 10, 10, &p);
    assert!(2 * (b.velocity.x.abs() as u64) <= u32::MAX as u64);
    assert!(10 * (b.velocity.y.abs() as u64) <= 3 * u32::MAX as u64);
    let n = step_blob(b, 10, 10, &p, TickDraws { roll: 999, eps: 0, jitter: 1200 });
    assert_eq!(n.velocity.x.abs(), b.velocity.x.abs());
    assert_eq!(n.velocity.y.abs(), b.velocity.y.abs());
}

#[test]
fn linear_interpolation_values() {
    assert_eq!(linear_interpolation(0, 5000), 999);
    assert_eq!(linear_interpolation(5000, 5000), 0);
    assert_eq!(linear_interpolation(2500, 5000), 500);
    assert_eq!(linear_interpolation(1, 3000), 999);
    assert_eq!(linear_interpolation(2999, 3000), 0);
    assert_eq!(linear_interpolation(-1000, 5000), 1200);
    assert_eq!(linear_interpolation(-1, 3000), 1000);
}

#[test]
fn linear_interpolation_stays_below_one_and_falls() {
    let mut last = linear_interpolation(0, 3000);
    assert!(last < 1000);
    for j in 1..=3000 {
        let f = linear_interpolation(j, 3000);
        assert!(0 <= f && f < 1000);
        assert!(f <= last);
        last = f;
    }
    assert_eq!(last, 0);
}

#[test]
fn step_moves_without_reflection() {
    let b = blob_at(5000, 5000, 300, -200);
    let n = step_blob(b, 10, 10, &still_params(), no_jitter());
    assert_eq!(n.coord, Vector2 { x: 5300, y: 4800 });
    assert_eq!(n.velocity, b.velocity);
}

#[test]
fn step_reflects_at_left_edge() {
    let b = blob_at(500, 5000, -1000, 0);
    let n = step_blob(b, 10, 10, &still_params(), no_jitter());
    assert_eq!(n.velocity, Vector2 { x: 1000, y: 0 });
    assert_eq!(n.coord, Vector2 { x: 1500, y: 5000 });
}

#[test]
fn step_reflects_both_axes_in_corner() {
    let b = blob_at(9800, 9900, 400, 300);
    let n = step_blob(b, 10, 10, &still_params(), no_jitter());
    assert_eq!(n.velocity, Vector2 { x: -400, y: -300 });
    assert_eq!(n.coord, Vector2 { x: 9400, y: 9600 });
}

#[test]
fn reflection_keeps_speed() {
    let mut p = still_params();
    p.fluct = 200;
    let b = blob_at(200, 5000, -600, 800);
    let d = TickDraws { roll: 0, eps: 0, jitter: 1200 };
    let n = step_blob(b, 10, 10, &p, d);
    let before = b.velocity.x * b.velocity.x + b.velocity.y * b.velocity.y;
    let after = n.velocity.x * n.velocity.x + n.velocity.y * n.velocity.y;
    assert_eq!(before, after);
    // The displacement is the reflected step scaled by the jitter of 1.2.
    assert_eq!(n.coord.x - b.coord.x, 720);
    assert_eq!(n.coord.y - b.coord.y, 960);
}

#[test]
fn buoyancy_lifts_near_bottom() {
    let mut p = still_params();
    p.velocity = 5500;
    // At y = 0 the height factor is 0.999: 5500 * 1.2 * 0.999 = 6593.4.
    let b = blob_at(5000, 0, 0, 0);
    let n = step_blob(b, 10, 10, &p, no_jitter());
    assert_eq!(n.coord, Vector2 { x: 5000, y: 6593 });
    assert_eq!(n.velocity, Vector2 { x: 0, y: 0 });
}

#[test]
fn falling_mode_pulls_down_near_top() {
    let mut p = still_params();
    p.velocity = 5500;
    let b = blob_at(5000, 9000, 0, 0);
    // The height factor at 0.9 of the height is 0.1: the rise is 660 and
    // the pull 5500 * (1 - 0.1) = 4950.
    let rising = step_blob(b, 10, 10, &p, TickDraws { roll: 0, eps: 0, jitter: 1000 });
    assert!(!rising.falling);
    assert_eq!(rising.coord.y, 9660);
    let fallen = step_blob(b, 10, 10, &p, TickDraws { roll: 990, eps: 0, jitter: 1000 });
    assert!(fallen.falling);
    assert_eq!(fallen.coord.y, 4710);
}

#[test]
fn falling_mode_needs_top_of_view() {
    let mut p = still_params();
    p.velocity = 5500;
    let b = blob_at(5000, 5000, 0, 0);
    let n = step_blob(b, 10, 10, &p, TickDraws { roll: 999, eps: 0, jitter: 1000 });
    assert!(!n.falling);
}

#[test]
fn falling_mode_ends_when_motion_turns_up() {
    let mut p = still_params();
    p.velocity = 1000;
    let mut b = blob_at(5000, 1000, 0, 0);
    b.falling = true;
    // Low down the rise outweighs the pull, so the blob stops falling.
    let n = step_blob(b, 10, 10, &p, no_jitter());
    assert!(!n.falling);
}

#[test]
fn zero_jitter_keeps_blobs_in_view() {
    let mut p = Params::default();
    p.fluct = 0;
    let mut blobs = vec![
        blob_at(100, 100, 2000, -1500),
        blob_at(39_900, 19_900, -2500, 1200),
        blob_at(20_000, 10_000, 700, 300),
    ];
    let mut falling_seen = false;
    for tick in 0..2000u64 {
        let mut next = Vec::new();
        for (k, b) in blobs.iter().enumerate() {
            let d = TickDraws { roll: (tick * 37 + k as u64 * 11) % 1000, eps: tick % 5, jitter: 1000 };
            let n = step_blob(*b, 40, 20, &p, d);
            assert!(0 <= n.coord.x && n.coord.x < 40 * UNIT, "x left the view: {:?}", n);
            assert!(0 <= n.coord.y && n.coord.y < 20 * UNIT, "y left the view: {:?}", n);
            falling_seen |= n.falling;
            next.push(n);
        }
        blobs = next;
    }
    assert!(falling_seen);
}

#[test]
fn transform_keeps_count_and_speed() {
    let p = Params::default();
    let blobs = vec![blob_at(1000, 1000, 300, 200), blob_at(5000, 3000, -100, 50)];
    let next = transform(blobs.clone(), 10, 10, &p);
    assert_eq!(next.len(), 2);
    for (a, b) in blobs.iter().zip(next.iter()) {
        assert_eq!(a.velocity.x.abs(), b.velocity.x.abs());
        assert_eq!(a.velocity.y.abs(), b.velocity.y.abs());
    }
}
