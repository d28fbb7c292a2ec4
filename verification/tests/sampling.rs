use minesweep::sampling::draw_picks;
use minesweep::{Minefield, SpotKind};

#[test]
fn picks_stay_below_the_spots_that_are_left() {
    for _ in 0..50 {
        let picks = draw_picks(5, 5);
        assert_eq!(picks.len(), 5);
        for (i, pick) in picks.iter().enumerate() {
            assert!(*pick < 5 - i);
        }
        assert_eq!(picks[4], 0);
    }
}

#[test]
fn picks_end_where_the_spots_end() {
    assert_eq!(draw_picks(3, 7).len(), 3);
    assert_eq!(draw_picks(0, 2).len(), 0);
    assert_eq!(draw_picks(4, 0).len(), 0);
}

#[test]
fn random_fields_differ() {
    let mut seen = Vec::new();
    for _ in 0..40 {
        let field = Minefield::build(8, 8, 1).unwrap();
        for y in 0..8u16 {
            for x in 0..8u16 {
                if field.spot(x, y).unwrap().kind() == SpotKind::Mine && !seen.contains(&(x, y)) {
                    seen.push((x, y));
                }
            }
        }
    }
    assert!(seen.len() > 1);
}
