use hls_wavelet::render::Packet;

#[test]
fn new_packet_holds_what_it_was_given() {
    let p = Packet::new(100, false);
    assert_eq!(p, Packet { volume: 100, mute: false });
    let q = Packet::new(35, true);
    assert_eq!(q.volume, 35);
    assert!(q.mute);
}

#[test]
fn volume_up_stops_at_full() {
    let mut p = Packet::new(90, false);
    p.volume_up();
    assert_eq!(p.volume, 95);
    p.volume_up();
    assert_eq!(p.volume, 100);
    p.volume_up();
    assert_eq!(p.volume, 100);
    let mut q = Packet::new(97, true);
    q.volume_up();
    assert_eq!(q, Packet { volume: 100, mute: true });
}

#[test]
fn volume_down_stops_at_zero() {
    let mut p = Packet::new(10, false);
    p.volume_down();
    assert_eq!(p.volume, 5);
    p.volume_down();
    assert_eq!(p.volume, 0);
    p.volume_down();
    assert_eq!(p.volume, 0);
    let mut q = Packet::new(3, false);
    q.volume_down();
    assert_eq!(q.volume, 0);
}

#[test]
fn volume_beyond_full_comes_back() {
    let mut p = Packet::new(700, false);
    p.volume_down();
    assert_eq!(p.volume, 695);
    p.volume_up();
    assert_eq!(p.volume, 100);
    let mut q = Packet::new(u32::MAX, false);
    q.volume_up();
    assert_eq!(q.volume, 100);
}

#[test]
fn full_walk_down_and_up() {
    let mut p = Packet::new(100, false);
    for step in 1..=20 {
        p.volume_down();
        assert_eq!(p.volume, 100 - 5 * step);
    }
    p.volume_down();
    assert_eq!(p.volume, 0);
    for step in 1..=20 {
        p.volume_up();
        assert_eq!(p.volume, 5 * step);
    }
    assert!(!p.mute);
}
