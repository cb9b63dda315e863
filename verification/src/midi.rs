//! MIDI at the byte level, and the broker's filtering rules.
//!
//! Channel voice messages are three bytes: a status byte carrying the
//! kind in its high nibble and the channel in its low nibble, then two
//! data bytes. The onset filter accepts exactly the note-on events that
//! match the configured channel and key and carry a positive velocity;
//! the chord filter watches the recent notes and reports a chord when
//! enough arrive close together.

use vstd::prelude::*;
use vstd::string::StringExecFns;

verus! {

/// What can go wrong around MIDI devices.
pub enum MidiError {
    CantCreateMidiOut,
    CantCreateMidiIn,
    CantConnectMidi,
    PortNotOpen,
    DeviceNotFound(String),
}

impl MidiError {
    /// The rendered error text of each variant.
    pub open spec fn spec_message(self) -> Seq<char> {
        match self {
            MidiError::CantCreateMidiOut => "Can't create a midi output port..."@,
            MidiError::CantCreateMidiIn => "Can't create a midi input port..."@,
            MidiError::CantConnectMidi => "Can't connect to that midi port..."@,
            MidiError::PortNotOpen => "Port is not available"@,
            MidiError::DeviceNotFound(d) => "Device "@ + d@ + " not found"@,
        }
    }

    /// Render the error as text.
    pub fn message(&self) -> (r: String)
        ensures
            r@ == self.spec_message(),
    {
        match self {
            MidiError::CantCreateMidiOut => "Can't create a midi output port...".to_owned(),
            MidiError::CantCreateMidiIn => "Can't create a midi input port...".to_owned(),
            MidiError::CantConnectMidi => "Can't connect to that midi port...".to_owned(),
            MidiError::PortNotOpen => "Port is not available".to_owned(),
            MidiError::DeviceNotFound(d) => {
                let a = "Device ".to_owned();
                let b = a.concat(d.as_str());
                let c = b.concat(" not found");
                proof {
                    assert(c@ =~= self.spec_message());
                }
                c
            },
        }
    }
}

/// A key with the velocity or pressure it carries.
#[derive(Clone, Copy, PartialEq, Eq, Structural, Debug)]
pub struct KeyEvent {
    /// The MIDI key number.
    pub key: u8,
    /// The velocity or controller value.
    pub value: u8,
}

/// A parsed channel voice message.
#[derive(Clone, Copy, PartialEq, Eq, Structural, Debug)]
pub enum MidiEvent {
    /// A note pressed on a channel.
    NoteOn(u8, KeyEvent),
    /// A note released on a channel.
    NoteOff(u8, KeyEvent),
    /// A control change on a channel: controller number and value.
    ControlChange(u8, u8, u8),
    /// Any other message.
    Other,
}

/// What a three-or-more-byte buffer parses to: note-on, note-off and
/// control-change by the status high nibble, anything else `Other`.
pub open spec fn spec_parse_midi(bytes: Seq<u8>) -> MidiEvent {
    if bytes.len() < 3 {
        MidiEvent::Other
    } else {
        let status = bytes[0];
        let channel = status & 0x0F;
        let kind = status >> 4;
        if kind == 9 {
            MidiEvent::NoteOn(channel, KeyEvent { key: bytes[1], value: bytes[2] })
        } else if kind == 8 {
            MidiEvent::NoteOff(channel, KeyEvent { key: bytes[1], value: bytes[2] })
        } else if kind == 11 {
            MidiEvent::ControlChange(channel, bytes[1], bytes[2])
        } else {
            MidiEvent::Other
        }
    }
}

/// Parse a raw MIDI buffer into a channel voice message.
pub fn parse_midi(bytes: &[u8]) -> (r: MidiEvent)
    ensures
        r == spec_parse_midi(bytes@),
{
    if bytes.len() < 3 {
        return MidiEvent::Other;
    }
    let status = bytes[0];
    let channel = status & 0x0F;
    let kind = status >> 4;
    if kind == 9 {
        MidiEvent::NoteOn(channel, KeyEvent { key: bytes[1], value: bytes[2] })
    } else if kind == 8 {
        MidiEvent::NoteOff(channel, KeyEvent { key: bytes[1], value: bytes[2] })
    } else if kind == 11 {
        MidiEvent::ControlChange(channel, bytes[1], bytes[2])
    } else {
        MidiEvent::Other
    }
}

/// The three bytes of a note-on.
pub fn note_on_bytes(channel: u8, key: u8, velocity: u8) -> (r: Vec<u8>)
    requires
        channel < 16,
        key < 128,
        velocity < 128,
    ensures
        r@ == seq![(0x90u8 | channel) as u8, key, velocity],
        spec_parse_midi(r@) == MidiEvent::NoteOn(channel, KeyEvent { key, value: velocity }),
    {
    let status: u8 = 0x90u8 | channel;
    let mut out: Vec<u8> = Vec::new();
    out.push(status);
    out.push(key);
    out.push(velocity);
    proof {
        assert(out@ =~= seq![status, key, velocity]);
        assert((0x90u8 | channel) & 0x0F == channel && (0x90u8 | channel) >> 4 == 9) by (bit_vector)
            requires
                channel < 16,
        ;
    }
    out
}

/// The three bytes of a note-off.
pub fn note_off_bytes(channel: u8, key: u8, velocity: u8) -> (r: Vec<u8>)
    requires
        channel < 16,
        key < 128,
        velocity < 128,
    ensures
        r@ == seq![(0x80u8 | channel) as u8, key, velocity],
        spec_parse_midi(r@) == MidiEvent::NoteOff(channel, KeyEvent { key, value: velocity }),
    {
    let status: u8 = 0x80u8 | channel;
    let mut out: Vec<u8> = Vec::new();
    out.push(status);
    out.push(key);
    out.push(velocity);
    proof {
        assert(out@ =~= seq![status, key, velocity]);
        assert((0x80u8 | channel) & 0x0F == channel && (0x80u8 | channel) >> 4 == 8) by (bit_vector)
            requires
                channel < 16,
        ;
    }
    out
}

/// The three bytes of a control change.
pub fn control_change_bytes(channel: u8, control: u8, value: u8) -> (r: Vec<u8>)
    requires
        channel < 16,
        control < 128,
        value < 128,
    ensures
        r@ == seq![(0xB0u8 | channel) as u8, control, value],
        spec_parse_midi(r@) == MidiEvent::ControlChange(channel, control, value),
    {
    let status: u8 = 0xB0u8 | channel;
    let mut out: Vec<u8> = Vec::new();
    out.push(status);
    out.push(control);
    out.push(value);
    proof {
        assert(out@ =~= seq![status, control, value]);
        assert((0xB0u8 | channel) & 0x0F == channel && (0xB0u8 | channel) >> 4 == 11)
            by (bit_vector)
            requires
                channel < 16,
        ;
    }
    out
}

/// The onset filter of the broker: a note-on passes when it matches the
/// configured one-based channel, matches the configured key, and carries
/// a positive velocity.
pub fn accept_onset(
    filter_channel: Option<u8>,
    filter_key: Option<u8>,
    channel: u8,
    event: KeyEvent,
) -> (r: bool)
    requires
        filter_channel matches Some(c) ==> c >= 1,
    ensures
        r == ((filter_channel matches Some(c) ==> channel == c - 1) && (filter_key matches Some(k)
            ==> event.key == k) && event.value > 0),
{
    match filter_channel {
        Some(c) => {
            if channel != c - 1 {
                return false;
            }
        },
        None => {},
    }
    match filter_key {
        Some(k) => {
            if event.key != k {
                return false;
            }
        },
        None => {},
    }
    event.value > 0
}

/// The chord filter: a ring of the most recent notes and their
/// timestamps, from which a chord is reported when the last `chord_size`
/// notes arrived within `max_time` of one another and were not part of
/// an already reported chord.
pub struct MidiFilter {
    /// The last notes, a ring.
    pub notes: Vec<KeyEvent>,
    /// Their timestamps in microseconds, same ring.
    pub stamps: Vec<u64>,
    /// The slot of the newest entry.
    pub pointer: usize,
    /// How many notes make a chord.
    pub chord_size: usize,
    /// Largest spread of a chord, in microseconds.
    pub max_time: u64,
    /// The newest timestamp of the last reported chord.
    pub last_chord_time: u64,
}

impl MidiFilter {
    /// The ring slot `n` steps back from the newest entry.
    pub open spec fn spec_back(self, n: int) -> int {
        (self.pointer - n) % (self.notes.len() as int)
    }

    /// Rings line up, the cursor is in range, the chord fits the ring,
    /// and timestamps never increase going back in time.
    pub open spec fn wf(self) -> bool {
        &&& self.notes.len() == self.stamps.len()
        &&& 0 < self.notes.len() <= 0x10000
        &&& self.pointer < self.notes.len()
        &&& 1 <= self.chord_size <= self.notes.len()
        &&& forall|n1: int, n2: int|
            0 <= n1 <= n2 < self.notes.len() ==> self.stamps@[self.spec_back(n1)]
                >= self.stamps@[self.spec_back(n2)]
    }

    /// An empty filter of capacity `capacity`.
    pub fn new(capacity: usize, chord_size: usize, max_time: u64) -> (r: MidiFilter)
        requires
            1 <= chord_size <= capacity <= 0x10000,
        ensures
            r.wf(),
            r.chord_size == chord_size,
            r.max_time == max_time,
            r.last_chord_time == 0,
            r.notes@.len() == capacity,
            forall|i: int| 0 <= i < capacity ==> r.stamps@[i] == 0,
    {
        let mut notes: Vec<KeyEvent> = Vec::new();
        let mut stamps: Vec<u64> = Vec::new();
        let mut i: usize = 0;
        while i < capacity
            invariant
                i <= capacity,
                notes@.len() == i,
                stamps@.len() == i,
                forall|k: int| 0 <= k < i ==> stamps@[k] == 0,
            decreases capacity - i,
        {
            notes.push(KeyEvent { key: 0, value: 0 });
            stamps.push(0);
            i += 1;
        }
        let r = MidiFilter { notes, stamps, pointer: 0, chord_size, max_time, last_chord_time: 0 };
        proof {
            assert forall|n1: int, n2: int|
                0 <= n1 <= n2 < r.notes.len() implies r.stamps@[r.spec_back(n1)]
                >= r.stamps@[r.spec_back(n2)] by {
                vstd::arithmetic::div_mod::lemma_mod_bound(0 - n1, r.notes.len() as int);
                vstd::arithmetic::div_mod::lemma_mod_bound(0 - n2, r.notes.len() as int);
            }
        }
        r
    }

    /// Record a note. Timestamps must not run backward; the newest slot
    /// advances and takes the note.
    pub fn add(&mut self, stamp: u64, note: KeyEvent)
        requires
            old(self).wf(),
            stamp >= old(self).stamps@[old(self).pointer as int],
        ensures
            final(self).wf(),
            final(self).pointer == (old(self).pointer + 1) % (old(self).notes@.len() as int),
            final(self).notes@ == old(self).notes@.update(final(self).pointer as int, note),
            final(self).stamps@ == old(self).stamps@.update(final(self).pointer as int, stamp),
            final(self).chord_size == old(self).chord_size,
            final(self).max_time == old(self).max_time,
            final(self).last_chord_time == old(self).last_chord_time,
    {
        let len = self.notes.len();
        self.pointer = (self.pointer + 1) % len;
        self.notes.set(self.pointer, note);
        self.stamps.set(self.pointer, stamp);
        proof {
            let l = len as int;
            let p0 = old(self).pointer as int;
            let newp = self.pointer as int;
            assert(self.spec_back(0) == newp) by {
                vstd::arithmetic::div_mod::lemma_small_mod(newp as nat, l as nat);
            }
            assert(old(self).spec_back(0) == p0) by {
                vstd::arithmetic::div_mod::lemma_small_mod(p0 as nat, l as nat);
            }
            assert forall|n: int| 1 <= n < l implies self.spec_back(n) == old(self).spec_back(
                n - 1,
            ) && self.spec_back(n) != newp by {
                lemma_back_shift(p0, n, l);
                vstd::arithmetic::div_mod::lemma_mod_bound(p0 - (n - 1), l);
                if old(self).spec_back(n - 1) == newp {
                    vstd::arithmetic::div_mod::lemma_mod_equivalence(p0 - (n - 1), p0 + 1, l);
                    assert((p0 - (n - 1) - (p0 + 1)) % l == 0);
                    assert((0 - n) % l == 0);
                    vstd::arithmetic::div_mod::lemma_mod_add_multiples_vanish(0 - n, l);
                    assert((l - n) % l == 0);
                    vstd::arithmetic::div_mod::lemma_small_mod((l - n) as nat, l as nat);
                    assert(false);
                }
            }
            assert forall|n1: int, n2: int|
                0 <= n1 <= n2 < l implies self.stamps@[self.spec_back(n1)]
                >= self.stamps@[self.spec_back(n2)] by {
                if n1 == 0 {
                    if n2 > 0 {
                        assert(self.stamps@[self.spec_back(n2)] == old(self).stamps@[old(
                            self,
                        ).spec_back(n2 - 1)]);
                        assert(old(self).stamps@[old(self).spec_back(0)] >= old(self).stamps@[old(
                            self,
                        ).spec_back(n2 - 1)]);
                    }
                } else {
                    assert(self.stamps@[self.spec_back(n1)] == old(self).stamps@[old(
                        self,
                    ).spec_back(n1 - 1)]);
                    assert(self.stamps@[self.spec_back(n2)] == old(self).stamps@[old(
                        self,
                    ).spec_back(n2 - 1)]);
                    assert(old(self).stamps@[old(self).spec_back(n1 - 1)] >= old(self).stamps@[old(
                        self,
                    ).spec_back(n2 - 1)]);
                }
            }
        }
    }

    /// The keys of the last `count` notes, newest first.
    pub open spec fn spec_recent_keys(self, count: int) -> Seq<u8> {
        Seq::new(count as nat, |i: int| self.notes@[self.spec_back(i)].key)
    }

    /// Report a chord: the last `chord_size` notes, newest first, when
    /// they arrived within `max_time` of one another and start after the
    /// last reported chord; nothing otherwise.
    pub fn chord_played(&mut self) -> (r: Option<Vec<u8>>)
        requires
            old(self).wf(),
        ensures
            final(self).wf(),
            ({
                let last = old(self).stamps@[old(self).pointer as int];
                let first = old(self).stamps@[old(self).spec_back(old(self).chord_size - 1)];
                &&& (r is Some <==> last - first <= old(self).max_time && first > old(
                    self,
                ).last_chord_time)
                &&& r is Some ==> r->0@ == old(self).spec_recent_keys(
                    old(self).chord_size as int,
                ) && final(self).last_chord_time == last
                &&& r is None ==> *final(self) == *old(self)
            }),
            final(self).notes == old(self).notes,
            final(self).stamps == old(self).stamps,
            final(self).pointer == old(self).pointer,
            final(self).chord_size == old(self).chord_size,
    {
        let len = self.notes.len();
        let last = self.stamps[self.pointer];
        let first_idx = self.idx_n_back(self.chord_size - 1);
        let first = self.stamps[first_idx];
        proof {
            assert(old(self).spec_back(0) == old(self).pointer as int) by {
                vstd::arithmetic::div_mod::lemma_small_mod(
                    old(self).pointer as nat,
                    old(self).notes@.len() as nat,
                );
            }
            assert(last >= first);
        }
        if last - first > self.max_time || first <= self.last_chord_time {
            return None;
        }
        self.last_chord_time = last;
        proof {
            assert forall|n1: int, n2: int|
                0 <= n1 <= n2 < self.notes.len() implies self.stamps@[self.spec_back(n1)]
                >= self.stamps@[self.spec_back(n2)] by {
                assert(self.spec_back(n1) == old(self).spec_back(n1));
                assert(self.spec_back(n2) == old(self).spec_back(n2));
                assert(old(self).stamps@[old(self).spec_back(n1)] >= old(self).stamps@[old(
                    self,
                ).spec_back(n2)]);
            }
            assert(self.wf());
        }
        let mut chord: Vec<u8> = Vec::new();
        let mut i: usize = 0;
        while i < self.chord_size
            invariant
                i <= self.chord_size,
                self.wf(),
                chord@.len() == i,
                forall|j: int|
                    0 <= j < i ==> chord@[j] == self.notes@[self.spec_back(j)].key,
            decreases self.chord_size - i,
        {
            let idx = self.idx_n_back(i);
            chord.push(self.notes[idx].key);
            i += 1;
        }
        proof {
            assert(chord@ =~= old(self).spec_recent_keys(old(self).chord_size as int));
        }
        Some(chord)
    }

    /// The ring index `n` steps back from the newest entry.
    fn idx_n_back(&self, n: usize) -> (r: usize)
        requires
            self.wf(),
            n < self.notes@.len(),
        ensures
            r == self.spec_back(n as int),
            r < self.notes@.len(),
    {
        let len = self.notes.len();
        let r = (self.pointer + (len - n)) % len;
        proof {
            vstd::arithmetic::div_mod::lemma_mod_add_multiples_vanish(
                self.pointer - n,
                len as int,
            );
        }
        r
    }
}

/// Going one step further back from an advanced cursor lands where the
/// old cursor's step landed.
proof fn lemma_back_shift(p0: int, n: int, l: int)
    requires
        l > 0,
        0 <= p0 < l,
        1 <= n < l,
    ensures
        ((p0 + 1) % l - n) % l == (p0 - (n - 1)) % l,
{
    vstd::arithmetic::div_mod::lemma_mod_bound(p0 + 1, l);
    if p0 + 1 < l {
        vstd::arithmetic::div_mod::lemma_small_mod((p0 + 1) as nat, l as nat);
    } else {
        assert(p0 + 1 == l);
        vstd::arithmetic::div_mod::lemma_mod_self_0(l);
        assert((p0 + 1) % l == 0);
        vstd::arithmetic::div_mod::lemma_mod_add_multiples_vanish(0 - n, l);
        vstd::arithmetic::div_mod::lemma_mod_add_multiples_vanish(p0 - (n - 1) - l, l);
    }
}

} // verus!
