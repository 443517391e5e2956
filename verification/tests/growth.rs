use snowflake::bit::Bit;
use snowflake::growth::Growth;
use snowflake::point::Point;
use snowflake::{create_hash, generate, hash_sum, in_slice};

fn pts(coords: &[(i32, i32)]) -> Vec<Point> {
    coords.iter().map(|&(x, y)| Point::new(x, y)).collect()
}

#[test]
fn seed_of_ab_is_195() {
    assert_eq!(hash_sum("ab"), 195);
}

#[test]
fn seed_of_the_empty_string_is_zero() {
    assert_eq!(hash_sum(""), 0);
}

#[test]
fn seed_adds_every_byte() {
    // U+00B0 is the two bytes 0xC2 and 0xB0.
    assert_eq!(hash_sum("\u{b0}"), 0xC2 + 0xB0);
    assert_eq!(hash_sum("zzzz"), 4 * 122);
    assert_eq!(hash_sum("ba"), hash_sum("ab"));
}

#[test]
fn growth_starts_at_the_origin() {
    let growth = Growth::new();
    assert_eq!(growth.open(), &pts(&[(0, 0)]));
    assert_eq!(growth.closed(), &pts(&[]));
    assert_eq!(growth.filled(), &pts(&[]));
}

#[test]
fn first_draw_activates_the_origin() {
    let mut growth = Growth::new();
    growth.step(0, Bit::high());
    assert_eq!(growth.filled(), &pts(&[(0, 0)]));
    assert_eq!(growth.open(), &pts(&[(1, 0)]));
    assert_eq!(growth.closed(), &pts(&[(0, 0)]));
}

#[test]
fn axis_points_activate_on_a_low_bit() {
    let mut growth = Growth::new();
    growth.step(0, Bit::low());
    assert_eq!(growth.filled(), &pts(&[(0, 0)]));
    assert_eq!(growth.open(), &pts(&[(1, 0)]));
    growth.step(0, Bit::low());
    assert_eq!(
        growth.filled(),
        &pts(&[(0, 0), (1, 0), (0, 1), (-1, 0), (0, -1), (1, -1), (-1, 1)])
    );
    assert_eq!(growth.open(), &pts(&[(2, 0), (1, 1)]));
    assert_eq!(growth.closed(), &pts(&[(0, 0), (1, 0)]));
}

#[test]
fn low_bit_prunes_a_point_off_the_axes() {
    let mut growth = Growth::new();
    growth.step(0, Bit::high());
    growth.step(0, Bit::high());
    let filled = growth.filled().clone();
    // The frontier is [(2, 0), (1, 1)]: draw (1, 1) with a low bit.
    growth.step(1, Bit::low());
    assert_eq!(growth.filled(), &filled);
    assert_eq!(growth.open(), &pts(&[(2, 0)]));
    assert_eq!(growth.closed(), &pts(&[(0, 0), (1, 0), (1, 1)]));
}

#[test]
fn high_bit_activates_a_point_off_the_axes() {
    let mut growth = Growth::new();
    growth.step(0, Bit::high());
    growth.step(0, Bit::high());
    growth.step(1, Bit::high());
    assert_eq!(growth.filled().len(), 1 + 6 + 12);
    assert_eq!(growth.filled()[7..].to_vec(), Point::new(1, 1).reflection());
    // Of the neighbours of (1, 1), (1, 0) is visited and (2, 1), (2, 0) are new.
    assert_eq!(growth.open(), &pts(&[(2, 0), (2, 1), (2, 0)]));
    assert_eq!(growth.closed(), &pts(&[(0, 0), (1, 0), (1, 1)]));
}

#[test]
fn a_point_drawn_twice_fills_its_orbit_twice() {
    let mut growth = Growth::new();
    growth.step(0, Bit::high());
    growth.step(0, Bit::high());
    growth.step(1, Bit::high());
    // The frontier is [(2, 0), (2, 1), (2, 0)].
    growth.step(0, Bit::high());
    assert_eq!(growth.open(), &pts(&[(2, 1), (2, 0), (3, 0), (2, 1)]));
    let filled = growth.filled().len();
    growth.step(1, Bit::high());
    assert_eq!(growth.filled().len(), filled + 6);
    // Its neighbours (3, 0) and (2, 1) join the frontier once more.
    assert_eq!(growth.open(), &pts(&[(2, 1), (3, 0), (2, 1), (3, 0), (2, 1)]));
    assert_eq!(growth.closed(), &pts(&[(0, 0), (1, 0), (1, 1), (2, 0), (2, 0)]));
}

#[test]
fn always_drawing_the_first_point_on_high_bits() {
    let mut growth = Growth::new();
    for _ in 0..64 {
        assert!(!growth.open().is_empty());
        growth.step(0, Bit::high());
        for p in growth.open() {
            assert!(in_slice(p));
        }
        for p in growth.closed() {
            assert!(in_slice(p));
        }
    }
    assert_eq!(growth.closed().len(), 64);
    assert_eq!(growth.filled()[0], Point::origin());
}

#[test]
fn frontier_never_runs_dry_on_low_bits() {
    let mut growth = Growth::new();
    for round in 0..200 {
        let last = growth.open().len() - 1;
        growth.step(if round % 2 == 0 { last } else { 0 }, Bit::low());
        assert!(!growth.open().is_empty());
        for p in growth.open() {
            assert!(in_slice(p));
            assert!((p.x() + p.y()) as usize <= growth.closed().len());
        }
    }
}

#[test]
fn into_filled_hands_out_what_was_filled() {
    let mut growth = Growth::new();
    growth.step(0, Bit::high());
    growth.step(0, Bit::low());
    let filled = growth.filled().clone();
    assert_eq!(growth.into_filled(), filled);
}

#[test]
fn empty_string_gives_an_empty_pattern() {
    assert_eq!(generate(""), pts(&[]));
}

#[test]
fn same_string_gives_the_same_pattern() {
    for text in ["a", "snow", "0123456789abcdef", "\u{2744}\u{2744}"] {
        assert_eq!(generate(text), generate(text));
    }
}

#[test]
fn first_two_draws_are_forced() {
    // With one point in the frontier every draw picks it: the origin first,
    // then (1, 0). Both lie on an axis, so both are activated.
    let filled = generate("a");
    assert_eq!(
        filled[..7].to_vec(),
        pts(&[(0, 0), (1, 0), (0, 1), (-1, 0), (0, -1), (1, -1), (-1, 1)])
    );
}

#[test]
fn pattern_of_a_one_byte_string() {
    // 'a' is 0b0110_0001. Of its eight draws seven activate: four cells of
    // the x-axis, (2, 0) among them twice, and the cells (1, 1) and (2, 1).
    let expected = pts(&[
        (0, 0),
        (1, 0), (0, 1), (-1, 0), (0, -1), (1, -1), (-1, 1),
        (1, 1), (-1, -1), (1, 1), (-1, -1), (-1, 2), (-1, 2),
        (1, -2), (1, -2), (2, -1), (2, -1), (-2, 1), (-2, 1),
        (2, 0), (0, 2), (-2, 0), (0, -2), (2, -2), (-2, 2),
        (2, 0), (0, 2), (-2, 0), (0, -2), (2, -2), (-2, 2),
        (3, 0), (0, 3), (-3, 0), (0, -3), (3, -3), (-3, 3),
        (2, 1), (-2, -1), (1, 2), (-1, -2), (-2, 3), (-1, 3),
        (2, -3), (1, -3), (3, -2), (3, -1), (-3, 2), (-3, 1),
    ]);
    assert_eq!(expected.len(), 49);
    assert_eq!(generate("a"), expected);
}

#[test]
fn pattern_is_made_of_whole_orbits() {
    let filled = generate("\u{ff}\u{ff}\u{ff}\u{ff}");
    let mut at = 0;
    let mut orbits = 0;
    while at < filled.len() {
        let p = filled[at];
        assert!(in_slice(&p));
        let images = p.reflection();
        assert_eq!(filled[at..at + images.len()].to_vec(), images);
        at += images.len();
        orbits += 1;
    }
    assert!(orbits >= 2);
    assert!(orbits <= 64);
}

#[test]
fn every_draw_of_an_all_high_tape_activates() {
    // "\u{7f}" is the byte 0x7F: one low bit, spent on the origin, then
    // seven high bits. Every draw activates, so eight orbits are filled.
    let filled = generate("\u{7f}");
    let mut at = 0;
    let mut orbits = 0;
    while at < filled.len() {
        at += filled[at].reflection().len();
        orbits += 1;
    }
    assert_eq!(at, filled.len());
    assert_eq!(orbits, 8);
}

#[test]
fn created_hash_has_the_length_asked_for() {
    assert_eq!(create_hash(0), "");
    assert_eq!(create_hash(1).len(), 1);
    assert_eq!(create_hash(64).len(), 64);
}

#[test]
fn created_hash_is_alphanumeric() {
    let hash = create_hash(500);
    assert_eq!(hash.chars().count(), 500);
    assert!(hash.chars().all(|c| c.is_ascii_alphanumeric()));
}

#[test]
fn created_hash_can_be_grown() {
    let hash = create_hash(64);
    let filled = generate(&hash);
    assert_eq!(filled[0], Point::origin());
    assert_eq!(generate(&hash), filled);
}
