use hexpxl::error::PixelError;
use hexpxl::geometry::Point;
use hexpxl::square::SquareTiler;

#[test]
fn square_tiler_refuses_zero_radius() {
    assert_eq!(SquareTiler::new(0).err(), Some(PixelError::InvalidRadius));
}

#[test]
fn square_tiler_keeps_its_radius() {
    let tiler = SquareTiler::new(20).unwrap();
    assert_eq!(tiler.radius(), 20);
}

#[test]
fn square_map_rounds_down_to_tile_corner() {
    let tiler = SquareTiler::new(20).unwrap();
    assert_eq!(tiler.map(45, 79), Point { x: 40, y: 60 });
    assert_eq!(tiler.map(0, 0), Point { x: 0, y: 0 });
    assert_eq!(tiler.map(19, 20), Point { x: 0, y: 20 });
    assert_eq!(tiler.map(39, 40), Point { x: 20, y: 40 });
}

#[test]
fn square_map_with_radius_one_is_identity() {
    let tiler = SquareTiler::new(1).unwrap();
    for x in 0..17u32 {
        for y in 0..13u32 {
            assert_eq!(tiler.map(x, y), Point { x, y });
        }
    }
}

#[test]
fn square_map_at_the_largest_coordinate() {
    let tiler = SquareTiler::new(u32::MAX).unwrap();
    assert_eq!(tiler.map(u32::MAX, u32::MAX - 1), Point { x: u32::MAX, y: 0 });
    let tiler = SquareTiler::new(7).unwrap();
    assert_eq!(tiler.map(u32::MAX, 6), Point { x: 4294967292, y: 0 });
}

#[test]
fn square_map_is_idempotent() {
    for radius in 1..12u32 {
        let tiler = SquareTiler::new(radius).unwrap();
        for x in 0..50u32 {
            for y in 0..50u32 {
                let once = tiler.map(x, y);
                assert_eq!(tiler.map(once.x, once.y), once);
            }
        }
    }
}

#[test]
fn square_map_gives_largest_multiple_not_above() {
    for radius in 1..12u32 {
        let tiler = SquareTiler::new(radius).unwrap();
        for x in 0..60u32 {
            let p = tiler.map(x, x);
            assert_eq!(p.x % radius, 0);
            assert!(p.x <= x && x - p.x < radius);
            assert_eq!(p.y, p.x);
        }
    }
}

#[test]
fn square_map_agrees_inside_a_tile() {
    let tiler = SquareTiler::new(8).unwrap();
    let corner = tiler.map(16, 24);
    for x in 16..24u32 {
        for y in 24..32u32 {
            assert_eq!(tiler.map(x, y), corner);
        }
    }
    assert_ne!(tiler.map(24, 24), corner);
    assert_ne!(tiler.map(16, 32), corner);
}
