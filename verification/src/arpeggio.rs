//! Cycling arpeggio state for the arpeggio output mode.
//!
//! An `Arpeggio` holds an ordered chord of MIDI notes, a cursor into it, a
//! note duration and a fixed note offset (12 for one octave). Each fire of
//! the output scheduler advances the cursor by one position, modulo the
//! chord length, and plays the note under the new cursor.

use vstd::prelude::*;

verus! {

/// Cycles through a chord of MIDI notes, offset upward by a fixed interval.
pub struct Arpeggio {
    /// The chord notes, already shifted up by `offset`.
    pub chord: Vec<u8>,
    /// How long each played note should sound, in microseconds.
    pub duration_us: u64,
    /// Cursor of the note that was played last.
    pub current: usize,
    /// Offset added to every incoming chord note (12 for an octave).
    pub offset: u8,
}

impl Arpeggio {
    /// All stored notes stay valid MIDI notes and the cursor stays in range.
    pub open spec fn wf(self) -> bool {
        &&& self.chord.len() > 0
        &&& self.current < self.chord.len()
        &&& forall|i: int| 0 <= i < self.chord@.len() ==> self.chord@[i] <= 127
    }

    /// The chord as stored, given the notes handed in: each shifted up by `offset`.
    pub open spec fn shifted(notes: Seq<u8>, offset: u8) -> Seq<u8> {
        notes.map_values(|n: u8| (n + offset) as u8)
    }

    pub fn new(chord: &Vec<u8>, duration_us: u64, offset: u8) -> (r: Arpeggio)
        requires
            chord@.len() > 0,
            forall|i: int| 0 <= i < chord@.len() ==> chord@[i] + offset <= 127,
        ensures
            r.wf(),
            r.chord@ == Self::shifted(chord@, offset),
            r.duration_us == duration_us,
            r.offset == offset,
            r.current == 0,
    {
        let mut shifted: Vec<u8> = Vec::new();
        let mut i: usize = 0;
        while i < chord.len()
            invariant
                i <= chord@.len(),
                forall|j: int| 0 <= j < chord@.len() ==> chord@[j] + offset <= 127,
                shifted@ =~= Self::shifted(chord@, offset).take(i as int),
            decreases chord@.len() - i,
        {
            shifted.push(chord[i] + offset);
            i += 1;
        }
        assert(shifted@ =~= Self::shifted(chord@, offset));
        Arpeggio { chord: shifted, duration_us, current: 0, offset }
    }

    /// Advance the cursor one position, modulo the chord length, and return
    /// the note now under it.
    pub fn next(&mut self) -> (note: u8)
        requires
            old(self).wf(),
        ensures
            final(self).wf(),
            final(self).current == (old(self).current + 1) % (old(self).chord@.len() as int),
            note == old(self).chord@[final(self).current as int],
            final(self).chord == old(self).chord,
            final(self).duration_us == old(self).duration_us,
            final(self).offset == old(self).offset,
    {
        self.current = (self.current + 1) % self.chord.len();
        self.chord[self.current]
    }

    /// Replace the chord with a new one, shifted by the stored offset, and
    /// park the cursor on the last position so that the next fire plays the
    /// first note of the new chord.
    pub fn update_chord(&mut self, chord: &Vec<u8>)
        requires
            old(self).wf(),
            chord@.len() > 0,
            forall|i: int| 0 <= i < chord@.len() ==> chord@[i] + old(self).offset <= 127,
        ensures
            final(self).wf(),
            final(self).chord@ == Self::shifted(chord@, old(self).offset),
            final(self).current == chord@.len() - 1,
            final(self).duration_us == old(self).duration_us,
            final(self).offset == old(self).offset,
    {
        let mut shifted: Vec<u8> = Vec::new();
        let mut i: usize = 0;
        while i < chord.len()
            invariant
                i <= chord@.len(),
                forall|j: int| 0 <= j < chord@.len() ==> chord@[j] + old(self).offset <= 127,
                self.offset == old(self).offset,
                shifted@ =~= Self::shifted(chord@, old(self).offset).take(i as int),
            decreases chord@.len() - i,
        {
            shifted.push(chord[i] + self.offset);
            i += 1;
        }
        assert(shifted@ =~= Self::shifted(chord@, old(self).offset));
        self.current = shifted.len() - 1;
        self.chord = shifted;
    }
}

} // verus!
