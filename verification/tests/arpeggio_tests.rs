use robodrummer::arpeggio::Arpeggio;

#[test]
fn arpeggio_cycles_with_octave_offset() {
    let mut arp = Arpeggio::new(&vec![40, 44, 47], 500_000, 12);
    // a fresh chord parks the cursor on the last note, so the next three
    // fires walk the chord from its first note, an octave up
    arp.update_chord(&vec![40, 44, 47]);
    assert_eq!(arp.next(), 52);
    assert_eq!(arp.next(), 56);
    assert_eq!(arp.next(), 59);
    // and the cursor wraps around
    assert_eq!(arp.next(), 52);
}

#[test]
fn arpeggio_keeps_duration() {
    let arp = Arpeggio::new(&vec![60], 250_000, 0);
    assert_eq!(arp.duration_us, 250_000);
    assert_eq!(arp.chord, vec![60]);
}

#[test]
fn new_chord_restarts_the_walk() {
    let mut arp = Arpeggio::new(&vec![40, 44, 47], 500_000, 12);
    arp.next();
    arp.next();
    arp.update_chord(&vec![50, 53]);
    assert_eq!(arp.chord, vec![62, 65]);
    assert_eq!(arp.current, 1);
    assert_eq!(arp.next(), 62);
    assert_eq!(arp.next(), 65);
}
