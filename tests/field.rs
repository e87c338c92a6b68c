use fire::field::{BufferContainer, MAX_HEAT};

fn zeros(n: usize) -> Vec<usize> {
    vec![0; n]
}

#[test]
fn new_seeds_bottom_row() {
    let f = BufferContainer::new(4, 3);
    assert_eq!(f.width(), 4);
    assert_eq!(f.height(), 3);
    assert_eq!(f.cells(), &vec![0, 0, 0, 0, 0, 0, 0, 0, 35, 35, 35, 35]);
    assert!(!f.is_stopped());
    assert!(!f.is_done());
}

#[test]
fn one_igniting_step_with_fixed_draws() {
    // Coefficients 0.0, 0.5, 0.99 and 0.4 round to the draws 0, 2, 3 and 1.
    let mut f = BufferContainer::new(4, 3);
    let jitters = vec![0, 0, 0, 0, 0, 0, 0, 0, 0, 2, 3, 1];
    f.next_frame(&jitters, &zeros(12));
    // Column 0: darkness from (0,1) to (0,0), then 35 from (0,2) straight up.
    // Column 1: 35 from (1,2) lands two cells left of (1,1): index 3.
    // Column 2: 35 less one from (2,2) lands three left of (2,1): index 3.
    // Column 3: darkness from (3,1) to index 3, then 34 from (3,2) to index 6.
    assert_eq!(f.cells(), &vec![0, 0, 0, 0, 35, 0, 34, 0, 35, 35, 35, 35]);
    assert!(!f.is_done());
}

#[test]
fn ignition_reseeds_bottom_row() {
    let mut f = BufferContainer::new(3, 2);
    for _ in 0..5 {
        f.next_frame(&vec![1; 6], &zeros(6));
        assert_eq!(&f.cells()[3..6], &[35, 35, 35]);
    }
}

#[test]
fn odd_draw_costs_one_level() {
    let mut f = BufferContainer::new(1, 2);
    f.next_frame(&vec![0, 1], &zeros(2));
    assert_eq!(f.cells(), &vec![34, 35]);
    f.next_frame(&vec![0, 2], &zeros(2));
    assert_eq!(f.cells(), &vec![35, 35]);
}

#[test]
fn jitter_clamps_at_first_cell() {
    let mut f = BufferContainer::new(2, 2);
    f.next_frame(&vec![0, 0, 3, 3], &zeros(4));
    // From index 2 the target would be 0 - 3: it clamps to 0 and the odd
    // draw costs one level; from index 3 the target is 1 - 3, clamped to 0.
    assert_eq!(f.cells(), &vec![34, 0, 35, 35]);
}

#[test]
fn stop_flames_cools_bottom_rows() {
    let mut f = BufferContainer::new(2, 2);
    f.stop_flames();
    assert!(f.is_stopped());
    f.next_frame(&vec![0, 0, 0, 0], &vec![0, 0, 1, 0]);
    assert_eq!(f.cells(), &vec![34, 35, 34, 35]);
}

#[test]
fn cooling_reaches_only_five_bottom_rows() {
    let mut f = BufferContainer::new(1, 7);
    f.next_frame(&vec![0; 7], &zeros(7));
    f.next_frame(&vec![0; 7], &zeros(7));
    assert_eq!(f.cells(), &vec![0, 0, 0, 0, 35, 35, 35]);
    f.stop_flames();
    f.next_frame(&vec![0; 7], &vec![1; 7]);
    // Cooling lowers rows 2 to 6 (rows 0 and 1 are out of reach) before
    // heat moves up one row.
    assert_eq!(f.cells(), &vec![0, 0, 0, 34, 34, 34, 34]);
}

#[test]
fn field_burns_out_after_stop() {
    let (w, h) = (3usize, 4usize);
    let n = w * h;
    let mut f = BufferContainer::new(w, h);
    for _ in 0..10 {
        f.next_frame(&vec![2; n], &zeros(n));
    }
    f.stop_flames();
    let mut steps = 0;
    while !f.is_done() {
        f.next_frame(&vec![1; n], &vec![1; n]);
        steps += 1;
        assert!(steps <= MAX_HEAT + h - 1);
    }
    assert!(f.cells().iter().all(|&c| c == 0));
}

#[test]
fn dark_field_stays_dark() {
    let mut f = BufferContainer::new(2, 1);
    f.stop_flames();
    for _ in 0..35 {
        f.next_frame(&vec![0; 2], &vec![1; 2]);
    }
    assert!(f.is_done());
    f.next_frame(&vec![3; 2], &vec![1; 2]);
    assert!(f.is_done());
    assert_eq!(f.cells(), &vec![0, 0]);
}

#[test]
fn heat_stays_bounded() {
    let (w, h) = (5usize, 6usize);
    let n = w * h;
    let mut f = BufferContainer::new(w, h);
    for s in 0..60usize {
        let jitters: Vec<usize> = (0..n).map(|i| (i * 7 + s * 3) % 4).collect();
        let cools: Vec<usize> = (0..n).map(|i| (i + s) % 2).collect();
        if s == 40 {
            f.stop_flames();
        }
        let before = f.cells().clone();
        f.next_frame(&jitters, &cools);
        assert!(f.cells().iter().all(|&c| c <= MAX_HEAT));
        if f.is_stopped() {
            let max_before = *before.iter().max().unwrap();
            assert!(f.cells().iter().all(|&c| c <= max_before));
            for i in (h - 1) * w..n {
                assert!(f.cells()[i] <= before[i]);
            }
        }
    }
}

#[test]
fn snapshot_copies_cells() {
    let mut f = BufferContainer::new(3, 3);
    f.next_frame(&vec![1; 9], &zeros(9));
    assert_eq!(&f.snapshot(), f.cells());
}
