use fire::palette::color_of;
use fire::render::{CellPaint, RenderState};

#[test]
fn palette_ends() {
    assert_eq!(color_of(0), (7, 7, 7));
    assert_eq!(color_of(12), (223, 79, 7));
    assert_eq!(color_of(35), (255, 255, 255));
    assert_eq!(color_of(13), color_of(14));
}

#[test]
fn new_screen_shows_seeded_field() {
    let s = RenderState::new(2, 2);
    assert_eq!(s.shown(), &vec![0, 0, 35, 35]);
    assert!(s.has_any_color());
}

#[test]
fn changes_list_changed_cells_one_based() {
    let s = RenderState::new(3, 2);
    let next = vec![0, 20, 0, 35, 0, 35];
    let c = s.changes(&next);
    let (r, g, b) = color_of(20);
    let (r0, g0, b0) = color_of(0);
    assert_eq!(
        c,
        vec![
            CellPaint { column: 2, row: 1, red: r, green: g, blue: b },
            CellPaint { column: 2, row: 2, red: r0, green: g0, blue: b0 },
        ]
    );
}

#[test]
fn changes_skip_cells_of_same_color() {
    let mut s = RenderState::new(2, 1);
    s.commit(vec![13, 25]);
    assert!(s.changes(&vec![14, 24]).is_empty());
    assert_eq!(s.changes(&vec![14, 23]).len(), 1);
}

#[test]
fn changes_count_matches_differing_cells() {
    let mut s = RenderState::new(4, 2);
    let a = vec![0, 1, 2, 3, 4, 5, 6, 7];
    let b = vec![0, 9, 2, 30, 4, 5, 1, 7];
    s.commit(a.clone());
    let c = s.changes(&b);
    let differ: Vec<usize> = (0..8).filter(|&i| a[i] != b[i]).collect();
    assert_eq!(c.len(), differ.len());
    for (p, &i) in c.iter().zip(differ.iter()) {
        assert_eq!(p.column, i % 4 + 1);
        assert_eq!(p.row, i / 4 + 1);
        assert_eq!((p.red, p.green, p.blue), color_of(b[i]));
    }
}

#[test]
fn no_changes_for_equal_frames() {
    let s = RenderState::new(3, 3);
    let same = s.shown().clone();
    assert!(s.changes(&same).is_empty());
}

#[test]
fn commit_replaces_screen() {
    let mut s = RenderState::new(2, 1);
    s.commit(vec![0, 0]);
    assert_eq!(s.shown(), &vec![0, 0]);
    assert!(!s.has_any_color());
}
