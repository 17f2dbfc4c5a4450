use quicpacket::PktNumWindow;

#[test]
fn inserted_numbers_count_as_received() {
    let mut win = PktNumWindow::default();
    for n in [5u64, 127, 299, 300, 1 << 40, u64::MAX - 1] {
        win.insert(n);
        assert!(win.contains(n));
        assert!(!win.contains(n + 1));
    }
}

#[test]
fn received_numbers_stay_received() {
    let mut win = PktNumWindow::default();
    let mut seen = Vec::new();
    for n in [3u64, 1, 200, 150, 90, 5000, 1 << 33, (1 << 33) + (1 << 32)] {
        win.insert(n);
        seen.push(n);
        for s in &seen {
            assert!(win.contains(*s));
        }
    }
}

#[test]
fn only_the_inserted_number_is_new() {
    let mut win = PktNumWindow::default();
    win.insert(100);
    win.insert(130);
    assert_eq!(win.lower, 3);
    for n in 3..140 {
        assert_eq!(win.contains(n), n == 100 || n == 130);
    }
}

#[test]
fn inserting_again() {
    let mut win = PktNumWindow::default();
    win.insert(7);
    win.insert(200);
    win.insert(200);
    win.insert(7);
    assert_eq!(win.lower, 73);
    assert!(win.contains(7));
    assert!(win.contains(200));
    assert!(!win.contains(199));
}

#[test]
fn marks_move_by_the_low_bits_of_the_distance() {
    let mut win = PktNumWindow::default();
    win.insert(0);
    win.insert(127 + (1 << 32));
    assert_eq!(win.lower, 1 << 32);
    assert!(win.contains(1 << 32));
    assert!(!win.contains((1 << 32) + 1));
}

#[test]
fn upper_end_of_the_window() {
    let mut win = PktNumWindow::default();
    assert_eq!(win.upper(), 127);
    win.insert(128);
    assert_eq!(win.upper(), 128);
    win.insert(u64::MAX - 1);
    assert_eq!(win.upper(), u64::MAX - 1);
    assert_eq!(win.lower, u64::MAX - 128);
    assert!(!win.contains(u64::MAX));
}

#[test]
fn numbers_above_and_below_the_window() {
    let mut win = PktNumWindow::default();
    win.insert(500);
    for n in 0..373 {
        assert!(win.contains(n));
    }
    for n in [501u64, 502, 628, 1 << 32, u64::MAX] {
        assert!(!win.contains(n));
    }
}
