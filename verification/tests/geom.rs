use murmur::geom::{in_cone, supercover_between, Dir4, Pos};

fn p(x: i16, y: i16) -> Pos {
    Pos::new(0, x, y)
}

#[test]
fn adjacency_is_orthogonal_only() {
    assert!(p(3, 3).is_adjacent(p(3, 4)));
    assert!(p(3, 3).is_adjacent(p(2, 3)));
    assert!(!p(3, 3).is_adjacent(p(4, 4)));
    assert!(!p(3, 3).is_adjacent(p(3, 3)));
    assert!(!Pos::new(0, 3, 3).is_adjacent(Pos::new(1, 3, 4)));
}

#[test]
fn step_and_dir_towards_adjacent_agree() {
    for dir in Dir4::ALL {
        let from = p(5, 5);
        let to = from.step(dir);
        assert_eq!(from.dir_towards_adjacent(to), Some(dir));
    }
}

#[test]
fn cone_contains_facing_axis_and_excludes_behind() {
    // 3/2 ratio: total cone ~112 degrees.
    assert!(in_cone(p(0, 0), Dir4::East, p(4, 0), 3, 2));
    assert!(in_cone(p(0, 0), Dir4::East, p(4, 3), 3, 2));
    assert!(!in_cone(p(0, 0), Dir4::East, p(4, 7), 3, 2));
    assert!(!in_cone(p(0, 0), Dir4::East, p(-1, 0), 3, 2));
    assert!(!in_cone(p(0, 0), Dir4::East, p(0, 1), 3, 2));
}

#[test]
fn supercover_between_walks_straight_lines() {
    assert_eq!(supercover_between(p(0, 0), p(3, 0)), vec![p(1, 0), p(2, 0)]);
    assert_eq!(supercover_between(p(0, 0), p(0, -2)), vec![p(0, -1)]);
    assert!(supercover_between(p(0, 0), p(1, 0)).is_empty());
}

#[test]
fn supercover_between_includes_corner_flanks_on_exact_diagonals() {
    let cells = supercover_between(p(0, 0), p(2, 2));
    assert!(cells.contains(&p(1, 0)));
    assert!(cells.contains(&p(0, 1)));
    assert!(cells.contains(&p(1, 1)));
}

#[test]
fn supercover_between_is_symmetric_in_coverage() {
    let forward = supercover_between(p(0, 0), p(5, 3));
    let mut backward = supercover_between(p(5, 3), p(0, 0));
    backward.reverse();
    let mut f = forward.clone();
    let mut b = backward.clone();
    f.sort();
    b.sort();
    assert_eq!(f, b);
}

#[test]
fn opposite_turns_around_and_back() {
    for dir in Dir4::ALL {
        assert_ne!(dir.opposite(), dir);
        assert_eq!(dir.opposite().opposite(), dir);
        let (dx, dy) = dir.delta();
        let (ox, oy) = dir.opposite().delta();
        assert_eq!((dx + ox, dy + oy), (0, 0));
    }
}

#[test]
fn step_then_opposite_returns_home() {
    for dir in Dir4::ALL {
        assert_eq!(p(4, 4).step(dir).step(dir.opposite()), p(4, 4));
    }
}

#[test]
fn towards_prefers_the_horizontal_axis_on_ties() {
    assert_eq!(Dir4::towards(p(0, 0), p(3, 3)), Some(Dir4::East));
    assert_eq!(Dir4::towards(p(0, 0), p(-3, 3)), Some(Dir4::West));
    assert_eq!(Dir4::towards(p(0, 0), p(1, 4)), Some(Dir4::South));
    assert_eq!(Dir4::towards(p(0, 0), p(1, -4)), Some(Dir4::North));
    assert_eq!(Dir4::towards(p(0, 0), p(0, 0)), None);
    assert_eq!(Dir4::towards(p(0, 0), Pos::new(1, 1, 0)), None);
}

#[test]
fn chebyshev_is_the_larger_axis_and_none_across_floors() {
    assert_eq!(p(0, 0).chebyshev(p(3, -5)), Some(5));
    assert_eq!(p(2, 2).chebyshev(p(2, 2)), Some(0));
    assert_eq!(p(0, 0).chebyshev(Pos::new(1, 0, 0)), None);
}

#[test]
fn own_tile_is_always_in_the_cone() {
    assert!(in_cone(p(2, 2), Dir4::North, p(2, 2), 3, 2));
    assert!(!in_cone(p(2, 2), Dir4::North, Pos::new(1, 2, 2), 3, 2));
}

#[test]
fn dir_towards_adjacent_refuses_distant_tiles() {
    assert_eq!(p(0, 0).dir_towards_adjacent(p(2, 0)), None);
    assert_eq!(p(0, 0).dir_towards_adjacent(p(1, 1)), None);
}

#[test]
fn supercover_stays_inside_the_box_and_off_the_ends() {
    let a = Pos::new(0, 2, -1);
    for (x, y) in [(7, 3), (-4, 2), (2, 6), (-3, -5), (3, -1), (2, -1)] {
        let b = Pos::new(0, x, y);
        let cells = supercover_between(a, b);
        assert!(!cells.contains(&a) && !cells.contains(&b));
        for c in &cells {
            assert_eq!(c.floor, 0);
            assert!(a.x.min(b.x) <= c.x && c.x <= a.x.max(b.x));
            assert!(a.y.min(b.y) <= c.y && c.y <= a.y.max(b.y));
        }
        let mut back = supercover_between(b, a);
        let mut forth = cells.clone();
        back.sort();
        forth.sort();
        assert_eq!(forth, back);
    }
}
