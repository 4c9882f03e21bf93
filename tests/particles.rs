use flowfield::fixed::{ONE, Vec2D};
use flowfield::particles::{FlowField, Particle};

fn in_unit_square(p: &Particle) -> bool {
    0 <= p.position.x && p.position.x <= ONE as i64 && 0 <= p.position.y && p.position.y <= ONE as i64
}

#[test]
fn new_draws_particles_in_range() {
    let f = FlowField::new(500, 4, &|_x: i64, _y: i64| Vec2D { x: 0, y: 0 }, 20, 1);
    assert_eq!(f.particles().len(), 500);
    for p in f.particles() {
        assert!(0 <= p.position.x && p.position.x < ONE as i64);
        assert!(0 <= p.position.y && p.position.y < ONE as i64);
        assert!(1 <= p.lifetime && p.lifetime <= 20);
    }
}

#[test]
fn same_seed_gives_same_particles() {
    let field = |x: i64, y: i64| Vec2D { x: y - x, y: x };
    let mut a = FlowField::new(50, 5, &field, 10, 99);
    let mut b = FlowField::new(50, 5, &field, 10, 99);
    for _ in 0..30 {
        assert_eq!(a.particles(), b.particles());
        a.tick();
        b.tick();
    }
}

#[test]
fn positions_stay_in_unit_square() {
    let strong = |x: i64, y: i64| Vec2D { x: 400 * (ONE as i64) - x, y: -300 * (ONE as i64) + y };
    let mut f = FlowField::new(300, 7, &strong, 50, 3);
    for _ in 0..100 {
        f.tick();
        assert!(f.particles().iter().all(in_unit_square));
    }
}

#[test]
fn lifetime_drops_by_one_or_respawns() {
    let mut f = FlowField::new(200, 3, &|_x: i64, _y: i64| Vec2D { x: 0, y: 0 }, 5, 11);
    for _ in 0..40 {
        let before: Vec<Particle> = f.particles().to_vec();
        f.tick();
        for (b, a) in before.iter().zip(f.particles()) {
            if b.lifetime > 1 {
                assert_eq!(a.lifetime, b.lifetime - 1);
                assert_eq!(a.position, b.position);
            } else {
                assert!(1 <= a.lifetime && a.lifetime <= 5);
                assert!(a.position.x < ONE as i64 && a.position.y < ONE as i64);
            }
        }
    }
}

#[test]
fn particles_move_by_their_cell_step() {
    // every cell holds (0.005, -0.005)
    let field = |_x: i64, _y: i64| Vec2D { x: ONE as i64, y: -(ONE as i64) };
    let mut f = FlowField::new(100, 4, &field, 1000, 5);
    let before: Vec<Particle> = f.particles().to_vec();
    f.tick();
    for (b, a) in before.iter().zip(f.particles()) {
        if b.lifetime > 1 {
            let x = (b.position.x + 5000).min(ONE as i64);
            let y = (b.position.y - 5000).max(0);
            assert_eq!(a.position, Vec2D { x, y });
        }
    }
}

#[test]
fn step_follows_the_cell_of_the_position() {
    // left half of the square pushes right, right half pushes left
    let field = |x: i64, _y: i64| {
        if x < (ONE as i64) / 2 {
            Vec2D { x: ONE as i64, y: 0 }
        } else {
            Vec2D { x: -(ONE as i64), y: 0 }
        }
    };
    let mut f = FlowField::new(100, 2, &field, 1000, 8);
    let before: Vec<Particle> = f.particles().to_vec();
    f.tick();
    for (b, a) in before.iter().zip(f.particles()) {
        if b.lifetime > 1 {
            let step = if b.position.x * 2 < ONE as i64 { 5000 } else { -5000 };
            assert_eq!(a.position.x, (b.position.x + step).clamp(0, ONE as i64));
            assert_eq!(a.position.y, b.position.y);
        }
    }
}
