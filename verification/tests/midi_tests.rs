use std::sync::mpsc;

use robodrummer::midi::{
    accept_onset, control_change_bytes, note_off_bytes, note_on_bytes, parse_midi, KeyEvent,
    MidiEvent, MidiFilter,
};
use robodrummer::utils::{get_last_sent, get_last_sent_timeout};

#[test]
fn midi_bytes_round_trip() {
    let on = note_on_bytes(2, 60, 100);
    assert_eq!(on, vec![0x92, 60, 100]);
    assert_eq!(
        parse_midi(&on),
        MidiEvent::NoteOn(2, KeyEvent { key: 60, value: 100 })
    );
    let off = note_off_bytes(2, 60, 0);
    assert_eq!(off, vec![0x82, 60, 0]);
    assert_eq!(
        parse_midi(&off),
        MidiEvent::NoteOff(2, KeyEvent { key: 60, value: 0 })
    );
    let cc = control_change_bytes(0, 3, 64);
    assert_eq!(cc, vec![0xB0, 3, 64]);
    assert_eq!(parse_midi(&cc), MidiEvent::ControlChange(0, 3, 64));
}

#[test]
fn parse_rejects_short_and_foreign_buffers() {
    assert_eq!(parse_midi(&[0x90]), MidiEvent::Other);
    assert_eq!(parse_midi(&[0xF8, 0, 0]), MidiEvent::Other);
}

#[test]
fn onset_filter_rules() {
    let hit = KeyEvent { key: 38, value: 90 };
    // no filters: any positive-velocity note passes
    assert!(accept_onset(None, None, 5, hit));
    // zero velocity is a note-off in disguise and is dropped
    assert!(!accept_onset(None, None, 5, KeyEvent { key: 38, value: 0 }));
    // the channel filter is one-based
    assert!(accept_onset(Some(6), None, 5, hit));
    assert!(!accept_onset(Some(5), None, 5, hit));
    // the key filter wants the exact key
    assert!(accept_onset(None, Some(38), 5, hit));
    assert!(!accept_onset(None, Some(39), 5, hit));
}

#[test]
fn chord_detection() {
    let mut filter = MidiFilter::new(8, 3, 100_000);
    filter.add(1_000_000, KeyEvent { key: 40, value: 100 });
    filter.add(1_020_000, KeyEvent { key: 44, value: 100 });
    // two notes are not yet a chord of three: the window still holds a
    // zero-stamped slot, far in the past
    assert_eq!(filter.chord_played(), None);
    filter.add(1_040_000, KeyEvent { key: 47, value: 100 });
    // three notes within 100 ms: a chord, newest first
    assert_eq!(filter.chord_played(), Some(vec![47, 44, 40]));
    // the same notes are not reported twice
    assert_eq!(filter.chord_played(), None);
}

#[test]
fn spread_notes_are_no_chord() {
    let mut filter = MidiFilter::new(8, 3, 100_000);
    filter.add(1_000_000, KeyEvent { key: 40, value: 100 });
    filter.add(1_200_000, KeyEvent { key: 44, value: 100 });
    filter.add(1_400_000, KeyEvent { key: 47, value: 100 });
    assert_eq!(filter.chord_played(), None);
}

#[test]
fn latest_value_reads() {
    let (tx, rx) = mpsc::channel();
    assert_eq!(get_last_sent::<u32>(&rx), None);
    tx.send(1u32).unwrap();
    tx.send(2).unwrap();
    tx.send(3).unwrap();
    // a drain keeps only the newest value
    assert_eq!(get_last_sent(&rx), Some(3));
    assert_eq!(get_last_sent(&rx), None);
    tx.send(7).unwrap();
    assert_eq!(get_last_sent_timeout(&rx, 50), Some(7));
    assert_eq!(get_last_sent_timeout(&rx, 10), None);
}
