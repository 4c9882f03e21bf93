use flowfield::color::Rgba;
use flowfield::fixed::{ONE, Vec2D};
use flowfield::grid::Grid;

fn still(_x: i64, _y: i64) -> Vec2D {
    Vec2D { x: 0, y: 0 }
}

fn is_accent(p: &Rgba) -> bool {
    p.r == 0xf9 && p.g == 0xa9 && p.b == 0x00
}

fn is_black(p: &Rgba) -> bool {
    p.r == 0 && p.g == 0 && p.b == 0
}

fn particle_pixel(g: &Grid, i: usize) -> (u64, u64) {
    let p = g.particles()[i];
    let x = p.position.x as u64 * g.width() as u64 / ONE;
    let y = p.position.y as u64 * g.height() as u64 / ONE;
    (x, y)
}

fn stamped_pixels(g: &Grid) -> Vec<usize> {
    let mut out = Vec::new();
    for i in 0..g.particles().len() {
        let (x, y) = particle_pixel(g, i);
        if x < g.width() as u64 && y < g.height() as u64 {
            out.push((y * g.width() as u64 + x) as usize);
        }
    }
    out
}

#[test]
fn new_canvas_is_opaque_black() {
    let g = Grid::new(7, 5, 10, 3, 4, &still, 10, 1);
    assert_eq!(g.width(), 7);
    assert_eq!(g.height(), 5);
    assert_eq!(g.pixels().len(), 35);
    assert!(g.pixels().iter().all(|p| *p == Rgba { r: 0, g: 0, b: 0, a: 0xff }));
    assert_eq!(g.particles().len(), 10);
}

#[test]
fn unit_circle_colours_one_pixel() {
    let mut g = Grid::new(10, 10, 0, 1, 1, &still, 1, 1);
    g.circle(5, 5, 1);
    for (k, p) in g.pixels().iter().enumerate() {
        if k == 5 * 10 + 5 {
            assert_eq!(*p, Rgba { r: 0xf9, g: 0xa9, b: 0x00, a: 0xff });
        } else {
            assert_eq!(*p, Rgba { r: 0, g: 0, b: 0, a: 0xff });
        }
    }
}

#[test]
fn radius_two_circle_colours_open_disk() {
    let mut g = Grid::new(10, 10, 0, 1, 1, &still, 1, 1);
    g.circle(5, 5, 2);
    let mut count = 0;
    for (k, p) in g.pixels().iter().enumerate() {
        let x = (k % 10) as i64;
        let y = (k / 10) as i64;
        let inside = (x - 5) * (x - 5) + (y - 5) * (y - 5) < 4;
        assert_eq!(is_accent(p), inside, "pixel ({}, {})", x, y);
        assert_eq!(p.a, 0xff);
        if inside {
            count += 1;
        }
    }
    assert_eq!(count, 9);
}

#[test]
fn circle_at_corner_is_clipped() {
    let mut g = Grid::new(10, 10, 0, 1, 1, &still, 1, 1);
    g.circle(0, 0, 2);
    let lit: Vec<usize> = (0..100).filter(|&k| is_accent(&g.pixels()[k])).collect();
    assert_eq!(lit, vec![0, 1, 10, 11]);
    g.circle(9, 9, 2);
    let lit: Vec<usize> = (0..100).filter(|&k| is_accent(&g.pixels()[k])).collect();
    assert_eq!(lit, vec![0, 1, 10, 11, 88, 89, 98, 99]);
}

#[test]
fn circle_off_canvas_changes_nothing() {
    let mut g = Grid::new(10, 10, 0, 1, 1, &still, 1, 1);
    g.circle(10, 3, 1);
    g.circle(100, 100, 5);
    g.circle(u32::MAX, u32::MAX, u32::MAX);
    g.circle(3, 3, 0);
    assert!(g.pixels().iter().all(is_black));
}

#[test]
fn circle_on_wide_canvas_uses_column_and_row() {
    let mut g = Grid::new(8, 3, 0, 1, 1, &still, 1, 1);
    g.circle(7, 2, 1);
    let lit: Vec<usize> = (0..24).filter(|&k| is_accent(&g.pixels()[k])).collect();
    assert_eq!(lit, vec![2 * 8 + 7]);
}

#[test]
fn clear_keeps_alpha() {
    let mut g = Grid::new(6, 6, 0, 1, 1, &still, 1, 1);
    g.circle(2, 2, 3);
    assert!(g.pixels().iter().any(is_accent));
    g.clear();
    assert!(g.pixels().iter().all(|p| *p == Rgba { r: 0, g: 0, b: 0, a: 0xff }));
}

#[test]
fn tick_stamps_each_particle() {
    let mut g = Grid::new(20, 20, 30, 4, 1000, &still, 50, 4);
    g.tick();
    let stamped = stamped_pixels(&g);
    for (k, p) in g.pixels().iter().enumerate() {
        assert_eq!(is_accent(p), stamped.contains(&k));
    }
}

#[test]
fn canvas_is_cleared_every_decay_period() {
    let mut g = Grid::new(10, 10, 5, 4, 3, &still, 2, 21);
    g.tick();
    g.tick();
    g.tick();
    let stamped = stamped_pixels(&g);
    for (k, p) in g.pixels().iter().enumerate() {
        if !stamped.contains(&k) {
            assert!(is_black(p), "pixel {} kept its colour", k);
        }
    }
    for _ in 0..3 {
        g.tick();
    }
    let stamped = stamped_pixels(&g);
    for (k, p) in g.pixels().iter().enumerate() {
        assert_eq!(is_accent(p), stamped.contains(&k));
    }
}

#[test]
fn trails_remain_between_clears() {
    let mut g = Grid::new(30, 30, 40, 4, 4, &still, 1000, 6);
    g.tick();
    let first = stamped_pixels(&g);
    g.tick();
    for k in first {
        assert!(is_accent(&g.pixels()[k]));
    }
}

#[test]
fn decay_period_restarts_counting() {
    let mut g = Grid::new(30, 30, 40, 4, 2, &still, 1000, 6);
    g.tick();
    let first = stamped_pixels(&g);
    g.set_grid_lifetime(2);
    g.tick();
    for k in first {
        assert!(is_accent(&g.pixels()[k]));
    }
}

#[test]
fn reconfigure_clears_canvas() {
    let mut g = Grid::new(16, 16, 60, 4, 100, &still, 30, 2);
    for _ in 0..5 {
        g.tick();
    }
    assert!(g.pixels().iter().any(is_accent));
    g.set_flow_params(25, 6, &|x: i64, y: i64| Vec2D { x: y, y: -x }, 9);
    assert!(g.pixels().iter().all(|p| *p == Rgba { r: 0, g: 0, b: 0, a: 0xff }));
    assert_eq!(g.particles().len(), 25);
    assert!(g.particles().iter().all(|p| 1 <= p.lifetime && p.lifetime <= 9));
}

#[test]
fn pixel_reads_are_identical() {
    let mut g = Grid::new(12, 9, 20, 4, 5, &still, 10, 3);
    g.tick();
    let a: Vec<Rgba> = g.pixels().to_vec();
    let b: Vec<Rgba> = g.pixels().to_vec();
    assert_eq!(a, b);
}

#[test]
fn positions_on_canvas_stay_in_bounds_over_many_ticks() {
    let swirl = |x: i64, y: i64| Vec2D { x: 50 * (y - (ONE as i64) / 2), y: 50 * ((ONE as i64) / 2 - x) };
    let mut g = Grid::new(9, 13, 100, 5, 7, &swirl, 20, 12);
    for _ in 0..60 {
        g.tick();
        for p in g.particles() {
            assert!(0 <= p.position.x && p.position.x <= ONE as i64);
            assert!(0 <= p.position.y && p.position.y <= ONE as i64);
        }
    }
}
