use qoi_viewer::{wait_before_draw, Slideshow, INTERVAL_MS};

#[test]
fn waits_only_when_early() {
    assert_eq!(wait_before_draw(1000, 5000), Some(4000));
    assert_eq!(wait_before_draw(5000, 5000), None);
    assert_eq!(wait_before_draw(7000, 5000), None);
}

#[test]
fn rotation_cycles_with_fixed_cadence() {
    let mut s = Slideshow::new(3);
    assert_eq!(s.image(), 0);
    assert_eq!(s.wait_ms(0), None);
    s.drawn(100);
    assert_eq!(s.image(), 1);
    assert_eq!(s.wait_ms(1100), Some(INTERVAL_MS - 1000));
    s.drawn(5100);
    assert_eq!(s.image(), 2);
    s.drawn(20000);
    assert_eq!(s.image(), 0);
    assert_eq!(s.wait_ms(30000), None);
}

#[test]
fn deadline_saturates() {
    let mut s = Slideshow::new(1);
    s.drawn(u64::MAX - 10);
    assert_eq!(s.image(), 0);
    assert_eq!(s.wait_ms(u64::MAX - 10), Some(10));
}
