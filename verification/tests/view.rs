use mandel::view::View;

#[test]
fn at() {
    let mut g = View::new(3, 3);
    assert_eq!(g.at(0, 0), Some(false));
    assert_eq!(g.at(2, 2), Some(false));
    assert!(g.set(1, 2, true));
    assert_eq!(g.at(1, 2), Some(true));
    assert_eq!(g.at(3, 0), None);
    assert_eq!(g.at(0, 3), None);
}

#[test]
fn unchecked_at() {
    let mut g = View::new(2, 2);
    assert!(g.set(1, 1, true));
    assert!(g.unchecked_at(1, 1));
    assert!(!g.unchecked_at(0, 0));
}

#[test]
fn set_reports_bounds() {
    let mut g = View::new(3, 3);
    assert!(g.set(2, 2, true));
    assert!(!g.set(3, 2, true));
    assert!(!g.set(2, 3, true));
    assert_eq!(g.at(2, 2), Some(true));
}

#[test]
fn dimensions() {
    let g = View::new(80, 40);
    assert_eq!(g.dimensions(), (80, 40));
}

#[test]
fn iteration_order_and_count() {
    let mut g = View::new(3, 3);
    assert!(g.set(1, 0, true));
    let ts = g.triples();
    assert_eq!(ts.len(), 9);
    let coords: Vec<(u16, u16)> = ts.iter().map(|t| (t.0, t.1)).collect();
    assert_eq!(
        coords,
        vec![
            (0, 0),
            (1, 0),
            (2, 0),
            (0, 1),
            (1, 1),
            (2, 1),
            (0, 2),
            (1, 2),
            (2, 2)
        ]
    );
    let values: Vec<bool> = ts.iter().map(|t| t.2).collect();
    assert_eq!(
        values,
        vec![false, true, false, false, false, false, false, false, false]
    );
}

#[test]
fn iteration_restarts_identically() {
    let mut g = View::new(2, 2);
    assert!(g.set(0, 1, true));
    let first = g.triples();
    let _ = g.at(1, 1);
    let second = g.triples();
    assert_eq!(first, second);
}

#[test]
fn iteration_aliases_on_wide_grids() {
    // width > height: the y * height + x mapping sends (2, 0) and (0, 1)
    // to the same buffer cell, so a write to one shows up at both.
    let mut g = View::new(3, 2);
    assert!(g.set(2, 0, true));
    let ts = g.triples();
    assert_eq!(ts.len(), 6);
    assert_eq!(ts[2], (2, 0, true));
    assert_eq!(ts[3], (0, 1, true));
}

#[test]
fn iteration_ends_early_on_tall_grids() {
    // width < height: (0, 2) maps to buffer position 6 of 6 cells, so the
    // traversal ends there instead of covering all 6 coordinates.
    let g = View::new(2, 3);
    let ts = g.triples();
    assert_eq!(ts.len(), 4);
}

#[test]
fn iterator_steps_by_hand() {
    let g = View::new(2, 1);
    let mut it = g.iter();
    assert_eq!(it.next(), Some((0, 0, false)));
    assert_eq!(it.next(), Some((1, 0, false)));
    assert_eq!(it.next(), None);
}

#[test]
fn empty_grid() {
    let g = View::new(0, 0);
    assert_eq!(g.dimensions(), (0, 0));
    assert_eq!(g.at(0, 0), None);
    assert!(g.triples().is_empty());
    assert_eq!(g.render(), "");
}

#[test]
fn render_fresh_two_by_two() {
    let g = View::new(2, 2);
    assert_eq!(g.render(), "░░\n░░\n");
}

#[test]
fn render_set_toggles_one_character() {
    let mut g = View::new(2, 2);
    assert!(g.set(0, 1, true));
    assert_eq!(g.render(), "░░\n█░\n");
}

#[test]
fn render_shows_aliasing_on_wide_grids() {
    // (2, 0) and (0, 1) share a buffer cell on a 3x2 grid, so one write
    // lights both rendered characters.
    let mut g = View::new(3, 2);
    assert!(g.set(2, 0, true));
    assert_eq!(g.render(), "░░█\n█░░\n");
}

#[test]
fn render_with_custom_symbols() {
    let mut g = View::new(2, 2).set_symbols('.', '#');
    assert!(g.set(1, 0, true));
    assert_eq!(g.render(), ".#\n..\n");
}
