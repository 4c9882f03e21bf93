use flowfield::color::Rgba;
use flowfield::fixed::{DT, ONE, Vec2D};
use flowfield::sampler::sample_field;
use rand::SeedableRng;
use rand::rngs::StdRng;

#[test]
fn rgba_from_u32_splits_channels() {
    let c = Rgba::from_u32(0x11223344);
    assert_eq!(c, Rgba { r: 0x11, g: 0x22, b: 0x33, a: 0x44 });
    let black = Rgba::from_u32(0x000000ff);
    assert_eq!(black, Rgba { r: 0, g: 0, b: 0, a: 0xff });
}

#[test]
fn vec_add_adds_components() {
    let mut v = Vec2D { x: 10, y: -3 };
    v.add(&Vec2D { x: -4, y: 7 });
    assert_eq!(v, Vec2D { x: 6, y: 4 });
}

#[test]
fn vec_mul_scales_and_rounds_down() {
    let mut v = Vec2D { x: ONE as i64, y: -(ONE as i64) };
    v.mul(DT);
    assert_eq!(v, Vec2D { x: 5000, y: -5000 });
    let mut w = Vec2D { x: 199, y: -1 };
    w.mul(DT);
    // 199 * 0.005 = 0.995 rounds down to 0; -0.005 rounds down to -1
    assert_eq!(w, Vec2D { x: 0, y: -1 });
    let mut big = Vec2D { x: i64::MAX, y: i64::MIN };
    big.mul(ONE);
    assert_eq!(big, Vec2D { x: i64::MAX, y: i64::MIN });
}

#[test]
fn vec_clamp_limits_components() {
    let mut v = Vec2D { x: -5, y: 2_000_000 };
    v.clamp(0, ONE as i64);
    assert_eq!(v, Vec2D { x: 0, y: ONE as i64 });
    let mut w = Vec2D { x: 300, y: 400 };
    w.clamp(0, ONE as i64);
    assert_eq!(w, Vec2D { x: 300, y: 400 });
}

#[test]
fn vec_random_lies_in_unit_square() {
    let mut rng = StdRng::seed_from_u64(7);
    let mut distinct = false;
    let first = Vec2D::random(&mut rng);
    for _ in 0..200 {
        let v = Vec2D::random(&mut rng);
        assert!(0 <= v.x && v.x < ONE as i64);
        assert!(0 <= v.y && v.y < ONE as i64);
        if v != first {
            distinct = true;
        }
    }
    assert!(distinct);
}

#[test]
fn constant_field_samples_to_scaled_constant() {
    for n in [1u32, 2, 3, 8] {
        let cells = sample_field(&|_x: i64, _y: i64| Vec2D { x: ONE as i64, y: 0 }, n, DT);
        assert_eq!(cells.len(), n as usize);
        for row in &cells {
            assert_eq!(row.len(), n as usize);
            for cell in row {
                assert_eq!(*cell, Vec2D { x: 5000, y: 0 });
            }
        }
    }
}

#[test]
fn sampling_uses_cell_centres() {
    let cells = sample_field(&|x: i64, y: i64| Vec2D { x, y }, 2, ONE);
    assert_eq!(cells[0][0], Vec2D { x: 250_000, y: 250_000 });
    assert_eq!(cells[0][1], Vec2D { x: 250_000, y: 750_000 });
    assert_eq!(cells[1][0], Vec2D { x: 750_000, y: 250_000 });
    assert_eq!(cells[1][1], Vec2D { x: 750_000, y: 750_000 });
    let scaled = sample_field(&|x: i64, y: i64| Vec2D { x, y }, 2, DT);
    assert_eq!(scaled[1][0], Vec2D { x: 3750, y: 1250 });
}

#[test]
fn zero_resolution_samples_nothing() {
    let cells = sample_field(&|x: i64, y: i64| Vec2D { x, y }, 0, DT);
    assert!(cells.is_empty());
}
