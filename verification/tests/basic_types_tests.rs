use biosimrust::basic_types::{Compass, Coord, Dir, Polar};

fn coord_fields(c: Coord) -> (i16, i16) {
    (c.x, c.y)
}

fn polar_fields(p: Polar) -> (i32, Compass) {
    (p.mag, p.dir.dir9)
}

#[test]
fn test_dir_basic_types() {
    // Dir ctor from Compass
    let mut d1;
    let mut d2 = Dir::new(Compass::Center);
    d1 = d2;
    assert_eq!(d1.as_int(), Compass::Center as u8);
    d1 = Dir::new(Compass::SW);
    assert_eq!(d1.as_int(), 0);
    d1 = Dir::new(Compass::S);
    assert_eq!(d1.as_int(), 1);
    d1 = Dir::new(Compass::SE);
    assert_eq!(d1.as_int(), 2);
    d1 = Dir::new(Compass::W);
    assert_eq!(d1.as_int(), 3);
    d1 = Dir::new(Compass::Center);
    assert_eq!(d1.as_int(), 4);
    d1 = Dir::new(Compass::E);
    assert_eq!(d1.as_int(), 5);
    d1 = Dir::new(Compass::NW);
    assert_eq!(d1.as_int(), 6);
    d1 = Dir::new(Compass::N);
    assert_eq!(d1.as_int(), 7);
    d1 = Dir::new(Compass::NE);
    assert_eq!(d1.as_int(), 8);

    assert_eq!(Dir::new(Compass::SW).as_int(), 0);
    assert_eq!(Dir::new(Compass::S).as_int(), 1);
    assert_eq!(Dir::new(Compass::SE).as_int(), 2);
    assert_eq!(Dir::new(Compass::W).as_int(), 3);
    assert_eq!(Dir::new(Compass::Center).as_int(), 4);
    assert_eq!(Dir::new(Compass::E).as_int(), 5);
    assert_eq!(Dir::new(Compass::NW).as_int(), 6);
    assert_eq!(Dir::new(Compass::N).as_int(), 7);
    assert_eq!(Dir::new(Compass::NE).as_int(), 8);
    // the compass value numbered 8
    assert_eq!(Dir::new(Compass::NE).as_int(), 8);

    d2 = Dir::from_compass(Compass::E);
    d1 = d2;
    assert_eq!(d1.as_int(), 5);
    d2 = d1;
    assert_eq!(d1.as_int(), 5);
    assert_eq!(d2.as_int(), 5);

    // assignment from Compass
    d1 = Dir::from_compass(Compass::SW);
    assert_eq!(d1.as_int(), 0);
    d1 = Dir::from_compass(Compass::SE);
    assert_eq!(d1.as_int(), 2);

    // [in]equality with Compass
    d1 = Dir::from_compass(Compass::Center);
    assert_eq!(d1.dir9, Compass::Center);
    d1 = Dir::from_compass(Compass::SE);
    assert_eq!(d1.dir9, Compass::SE);
    assert_eq!(Dir::new(Compass::W).dir9, Compass::W);
    assert_ne!(Dir::new(Compass::W).dir9, Compass::NW);

    // [in]equality with Dir
    d1 = Dir::from_compass(Compass::N);
    d2 = Dir::from_compass(Compass::N);
    assert_eq!(d1, d2);
    assert_eq!(d2, d1);
    d1 = Dir::from_compass(Compass::NE);
    assert_ne!(d1, d2);
    assert_ne!(d2, d1);

    // .rotate()
    d1 = Dir::from_compass(Compass::NE);
    assert_eq!(d1.rotate(1).dir9, Compass::E);
    assert_eq!(d1.rotate(2).dir9, Compass::SE);
    assert_eq!(d1.rotate(-1).dir9, Compass::N);
    assert_eq!(d1.rotate(-2).dir9, Compass::NW);
    assert_eq!(Dir::new(Compass::N).rotate(1), d1);
    assert_eq!(Dir::new(Compass::SW).rotate(-2).dir9, Compass::SE);

    // .as_normalized_coord()
    let mut c1 = Dir::new(Compass::Center).as_normalized_coord();
    let (x, y) = coord_fields(c1);
    assert_eq!(x, 0);
    assert_eq!(y, 0);
    d1 = Dir::from_compass(Compass::SW);
    c1 = d1.as_normalized_coord();
    let (x, y) = coord_fields(c1);
    assert_eq!(x, -1);
    assert_eq!(y, -1);
    c1 = Dir::new(Compass::S).as_normalized_coord();
    let (x, y) = coord_fields(c1);
    assert_eq!(x, 0);
    assert_eq!(y, -1);
    c1 = Dir::new(Compass::SE).as_normalized_coord();
    let (x, y) = coord_fields(c1);
    assert_eq!(x, 1);
    assert_eq!(y, -1);
    c1 = Dir::new(Compass::W).as_normalized_coord();
    let (x, y) = coord_fields(c1);
    assert_eq!(x, -1);
    assert_eq!(y, 0);
    c1 = Dir::new(Compass::E).as_normalized_coord();
    let (x, y) = coord_fields(c1);
    assert_eq!(x, 1);
    assert_eq!(y, 0);
    c1 = Dir::new(Compass::NW).as_normalized_coord();
    let (x, y) = coord_fields(c1);
    assert_eq!(x, -1);
    assert_eq!(y, 1);
    c1 = Dir::new(Compass::N).as_normalized_coord();
    let (x, y) = coord_fields(c1);
    assert_eq!(x, 0);
    assert_eq!(y, 1);
    c1 = Dir::new(Compass::NE).as_normalized_coord();
    let (x, y) = coord_fields(c1);
    assert_eq!(x, 1);
    assert_eq!(y, 1);

    // .as_normalized_polar()
    d1 = Dir::from_compass(Compass::SW);
    let mut p1 = d1.as_normalized_polar();
    let (mag, dir) = polar_fields(p1);
    assert_eq!(mag, 1);
    assert_eq!(dir, Compass::SW);
    p1 = Dir::new(Compass::S).as_normalized_polar();
    let (mag, dir) = polar_fields(p1);
    assert_eq!(mag, 1);
    assert_eq!(dir, Compass::S);
    p1 = Dir::new(Compass::SE).as_normalized_polar();
    let (mag, dir) = polar_fields(p1);
    assert_eq!(mag, 1);
    assert_eq!(dir, Compass::SE);
    p1 = Dir::new(Compass::W).as_normalized_polar();
    let (mag, dir) = polar_fields(p1);
    assert_eq!(mag, 1);
    assert_eq!(dir, Compass::W);
    p1 = Dir::new(Compass::E).as_normalized_polar();
    let (mag, dir) = polar_fields(p1);
    assert_eq!(mag, 1);
    assert_eq!(dir, Compass::E);
    p1 = Dir::new(Compass::NW).as_normalized_polar();
    let (mag, dir) = polar_fields(p1);
    assert_eq!(mag, 1);
    assert_eq!(dir, Compass::NW);
    p1 = Dir::new(Compass::N).as_normalized_polar();
    let (mag, dir) = polar_fields(p1);
    assert_eq!(mag, 1);
    assert_eq!(dir, Compass::N);
    p1 = Dir::new(Compass::NE).as_normalized_polar();
    let (mag, dir) = polar_fields(p1);
    assert_eq!(mag, 1);
    assert_eq!(dir, Compass::NE);
}

#[test]
fn test_coord_basic_types() {
    let mut c1 = Coord::default();
    assert_eq!(coord_fields(c1), (0, 0));
    c1 = Coord::new(1, 1);
    assert_eq!(coord_fields(c1), (1, 1));
    c1 = Coord::new(-6, 12);
    assert_eq!(coord_fields(c1), (-6, 12));
    let c2 = Coord::new(9, 101);
    c1 = c2;
    assert_eq!(coord_fields(c1), (9, 101));

    // is_normalized
    assert!(!c1.is_normalized());
    assert!(Coord::new(0, 0).is_normalized());
    assert!(Coord::new(0, 1).is_normalized());
    assert!(Coord::new(1, 1).is_normalized());
    assert!(Coord::new(-1, 0).is_normalized());
    assert!(Coord::new(-1, -1).is_normalized());
    assert!(!Coord::new(0, 2).is_normalized());
    assert!(!Coord::new(1, 2).is_normalized());
    assert!(!Coord::new(-1, 2).is_normalized());
    assert!(!Coord::new(-2, 0).is_normalized());

    // normalize and as_dir
    let cases: [((i16, i16), (i16, i16), Compass); 12] = [
        ((0, 0), (0, 0), Compass::Center),
        ((0, 1), (0, 1), Compass::N),
        ((-1, 1), (-1, 1), Compass::NW),
        ((100, 5), (1, 0), Compass::E),
        ((100, 105), (1, 1), Compass::NE),
        ((-5, 101), (0, 1), Compass::N),
        ((-500, 10), (-1, 0), Compass::W),
        ((-500, -490), (-1, -1), Compass::SW),
        ((-1, -490), (0, -1), Compass::S),
        ((1101, -1090), (1, -1), Compass::SE),
        ((1101, -3), (1, 0), Compass::E),
        ((0, 0), (0, 0), Compass::Center),
    ];
    for ((x, y), n, d) in cases.iter() {
        let c = Coord::new(*x, *y).normalize();
        assert_eq!(coord_fields(c), *n);
        assert_eq!(c.as_dir().dir9, *d);
    }

    // length, rounded down
    assert_eq!(Coord::new(0, 0).length(), 0);
    assert_eq!(Coord::new(0, 1).length(), 1);
    assert_eq!(Coord::new(-1, 0).length(), 1);
    assert_eq!(Coord::new(-1, -1).length(), 1);
    assert_eq!(Coord::new(22, 0).length(), 22);
    assert_eq!(Coord::new(22, 22).length(), 31);
    assert_eq!(Coord::new(10, -10).length(), 14);
    assert_eq!(Coord::new(-310, 0).length(), 310);

    // as_polar
    assert_eq!(polar_fields(Coord::new(0, 0).as_polar()), (0, Compass::Center));
    assert_eq!(polar_fields(Coord::new(0, 1).as_polar()), (1, Compass::N));
    assert_eq!(polar_fields(Coord::new(-10, -10).as_polar()), (14, Compass::SW));
    assert_eq!(polar_fields(Coord::new(100, 1).as_polar()), (100, Compass::E));

    // addition, subtraction, scaling
    assert_eq!(coord_fields(Coord::new(0, 0).add(Coord::new(6, 8))), (6, 8));
    assert_eq!(coord_fields(Coord::new(-70, 20).add(Coord::new(10, -10))), (-60, 10));
    assert_eq!(coord_fields(Coord::new(-70, 20).sub(Coord::new(10, -10))), (-80, 30));
    assert_eq!(coord_fields(Coord::new(0, 0).mul(1)), (0, 0));
    assert_eq!(coord_fields(Coord::new(1, 1).mul(-5)), (-5, -5));
    assert_eq!(coord_fields(Coord::new(11, 5).mul(-5)), (-55, -25));

    // steps by a direction
    let c0 = Coord::new(0, 0);
    assert_eq!(coord_fields(c0.add_dir(Dir::new(Compass::Center))), (0, 0));
    assert_eq!(coord_fields(c0.add_dir(Dir::new(Compass::E))), (1, 0));
    assert_eq!(coord_fields(c0.add_dir(Dir::new(Compass::W))), (-1, 0));
    assert_eq!(coord_fields(c0.add_dir(Dir::new(Compass::SW))), (-1, -1));
    assert_eq!(coord_fields(c0.sub_dir(Dir::new(Compass::Center))), (0, 0));
    assert_eq!(coord_fields(c0.sub_dir(Dir::new(Compass::E))), (-1, 0));
    assert_eq!(coord_fields(c0.sub_dir(Dir::new(Compass::W))), (1, 0));
    assert_eq!(coord_fields(c0.sub_dir(Dir::new(Compass::SW))), (1, 1));
}

#[test]
fn test_polar_basic_types() {
    // Polar ctor from mag, dir
    let mut p1 = Polar::new(0, Compass::S);
    let (mag, dir) = polar_fields(p1);
    assert_eq!(mag, 0);
    assert_eq!(dir, Compass::S);
    p1 = Polar::new(10, Compass::SE);
    let (mag, dir) = polar_fields(p1);
    assert_eq!(mag, 10);
    assert_eq!(dir, Compass::SE);
    p1 = Polar::new(-10, Compass::NW);
    let (mag, dir) = polar_fields(p1);
    assert_eq!(mag, -10);
    assert_eq!(dir, Compass::NW);

    // .as_coord()
    let mut c1 = Polar::new(0, Compass::Center).as_coord();
    let (x, y) = coord_fields(c1);
    assert_eq!(x, 0);
    assert_eq!(y, 0);
    c1 = Polar::new(20, Compass::Center).as_coord();
    let (x, y) = coord_fields(c1);
    assert_eq!(x, 0);
    assert_eq!(y, 0);
    c1 = Polar::new(20, Compass::N).as_coord();
    let (x, y) = coord_fields(c1);
    assert_eq!(x, 0);
    assert_eq!(y, 20);
    p1 = Polar::new(12, Compass::W);
    c1 = p1.as_coord();
    let (x, y) = coord_fields(c1);
    assert_eq!(x, -12);
    assert_eq!(y, 0);
    c1 = Polar::new(14, Compass::NE).as_coord();
    let (x, y) = coord_fields(c1);
    assert_eq!(x, 10);
    assert_eq!(y, 10);
    c1 = Polar::new(-14, Compass::NE).as_coord();
    let (x, y) = coord_fields(c1);
    assert_eq!(x, -10);
    assert_eq!(y, -10);
    c1 = Polar::new(14, Compass::E).as_coord();
    let (x, y) = coord_fields(c1);
    assert_eq!(x, 14);
    assert_eq!(y, 0);
    c1 = Polar::new(-14, Compass::E).as_coord();
    let (x, y) = coord_fields(c1);
    assert_eq!(x, -14);
    assert_eq!(y, 0);
}

#[test]
fn rotation_laws_on_examples() {
    // rotating by n then by -n comes back; eight steps are a full turn
    for c in [Compass::SW, Compass::S, Compass::SE, Compass::W, Compass::E, Compass::NW, Compass::N, Compass::NE] {
        let d = Dir::new(c);
        assert_eq!(d.rotate(3).rotate(-3), d);
        assert_eq!(d.rotate(8), d);
        assert_eq!(d.rotate90_deg_cw().rotate90_deg_ccw(), d);
        assert_eq!(d.rotate180_deg().rotate180_deg(), d);
    }
    assert_eq!(Dir::new(Compass::Center).rotate(5), Dir::new(Compass::Center));
}
