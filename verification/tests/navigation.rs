use bema::terminal_runner::{apply_key, header_line, normalize_index};

#[test]
fn next_wraps_after_last_slide() {
    // deck ["A", "B", "C"]: three "next" presses from index 0 come back to 0
    let n = 3usize;
    let (i1, q1) = apply_key('n', 0, n);
    let (i2, q2) = apply_key('n', i1, n);
    let (i3, q3) = apply_key('n', i2, n);
    assert_eq!((i1, i2, i3), (1, 2, 0));
    assert!(!q1 && !q2 && !q3);
}

#[test]
fn previous_wraps_before_first_slide() {
    assert_eq!(apply_key('p', 0, 3).0, 2);
    assert_eq!(apply_key('k', 2, 3).0, 1);
    assert_eq!(apply_key('h', 1, 3).0, 0);
}

#[test]
fn jump_keys() {
    assert_eq!(apply_key('g', 2, 5).0, 0);
    assert_eq!(apply_key('G', 0, 5).0, 4);
}

#[test]
fn quit_key_only_quits() {
    let (i, quit) = apply_key('q', 1, 3);
    assert!(quit);
    assert_eq!(i, 1);
    assert!(!apply_key('x', 1, 3).1);
}

#[test]
fn other_keys_stay_put() {
    assert_eq!(apply_key('z', 1, 3).0, 1);
}

#[test]
fn single_slide_always_index_zero() {
    for c in ['n', 'p', 'g', 'G', 'z'] {
        assert_eq!(apply_key(c, 0, 1).0, 0);
    }
}

#[test]
fn normalize_wraps_both_ways() {
    assert_eq!(normalize_index(-1, 3), 2);
    assert_eq!(normalize_index(3, 3), 0);
    assert_eq!(normalize_index(7, 3), 0);
    assert_eq!(normalize_index(2, 3), 2);
}

#[test]
fn header_shows_one_based_index() {
    assert_eq!(header_line(0, 3), "1/3");
    assert_eq!(header_line(2, 3), "3/3");
}
