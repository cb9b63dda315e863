//! Messages passed between the system's tasks, and the byte codec for the
//! one that crosses a transport.
//!
//! Onset publications travel as a tagged, length-prefixed binary frame: a
//! four-byte little-endian variant tag, then — for a note list — an
//! eight-byte little-endian count followed by the notes themselves. The
//! encoder and the parser are exact inverses.

use vstd::prelude::*;

verus! {

/// Messages the MIDI broker sends to the terminal front-end.
pub enum MidiTuiMessage {
    /// The midi notes that were played.
    MidiNotes(Vec<u8>),
    /// An error occurred.
    Error(String),
    /// Heartbeat to check whether the connection is alive.
    Heartbeat,
    /// Midi options the user can select between.
    MidiOptions(Vec<String>),
    /// The selected midi option.
    MidiSelected(usize),
}

/// An onset publication: the user's input notes, or a note at the output.
#[derive(PartialEq, Eq, Debug)]
pub enum MidiNoteMessage {
    /// The midi notes of the user input.
    InputNotes(Vec<u8>),
    /// A midi note at the output.
    OutputNote,
}

/// Why a frame failed to parse.
#[derive(PartialEq, Eq, Structural, Debug)]
pub enum MessageError {
    /// The bytes are not a well-formed frame.
    Malformed,
}

/// 256 to the `k`.
pub open spec fn pow256(k: nat) -> int
    decreases k,
{
    if k == 0 {
        1
    } else {
        256 * pow256((k - 1) as nat)
    }
}

/// The `k` little-endian bytes of `x`, least significant first.
pub open spec fn spec_le_bytes(x: int, k: nat) -> Seq<u8>
    decreases k,
{
    if k == 0 {
        Seq::empty()
    } else {
        seq![(x % 256) as u8] + spec_le_bytes(x / 256, (k - 1) as nat)
    }
}

/// The number a little-endian byte string denotes.
pub open spec fn spec_le_value(s: Seq<u8>) -> int
    decreases s.len(),
{
    if s.len() == 0 {
        0
    } else {
        s[0] + 256 * spec_le_value(s.drop_first())
    }
}

/// Reading back the little-endian bytes of `x` yields `x`.
pub proof fn lemma_le_round_trip(x: int, k: nat)
    requires
        0 <= x < pow256(k),
    ensures
        spec_le_value(spec_le_bytes(x, k)) == x,
        spec_le_bytes(x, k).len() == k,
    decreases k,
{
    if k > 0 {
        assert(pow256(k) == 256 * pow256((k - 1) as nat));
        assert(x / 256 < pow256((k - 1) as nat)) by (nonlinear_arith)
            requires
                0 <= x < 256 * pow256((k - 1) as nat),
        ;
        lemma_le_round_trip(x / 256, (k - 1) as nat);
        let s = spec_le_bytes(x, k);
        assert(s.drop_first() =~= spec_le_bytes(x / 256, (k - 1) as nat));
        assert(x % 256 + 256 * (x / 256) == x) by {
            vstd::arithmetic::div_mod::lemma_fundamental_div_mod(x, 256);
        }
    }
}

/// A byte string of length `k` denotes a number below 256 to the `k`, and
/// writing that number back as `k` little-endian bytes restores the
/// string.
pub proof fn lemma_le_bytes_of_value(s: Seq<u8>)
    ensures
        0 <= spec_le_value(s) < pow256(s.len() as nat),
        spec_le_bytes(spec_le_value(s), s.len() as nat) == s,
    decreases s.len(),
{
    if s.len() == 0 {
        assert(spec_le_bytes(0, 0) =~= s);
    } else {
        let rest = s.drop_first();
        lemma_le_bytes_of_value(rest);
        let v = spec_le_value(s);
        assert(v == s[0] + 256 * spec_le_value(rest));
        assert(v < pow256(s.len() as nat)) by (nonlinear_arith)
            requires
                v == s[0] + 256 * spec_le_value(rest),
                s[0] < 256,
                spec_le_value(rest) < pow256((s.len() - 1) as nat),
                pow256(s.len() as nat) == 256 * pow256((s.len() - 1) as nat),
                spec_le_value(rest) >= 0,
                s[0] >= 0,
        ;
        vstd::arithmetic::div_mod::lemma_fundamental_div_mod_converse(
            v,
            256,
            spec_le_value(rest),
            s[0] as int,
        );
        assert(spec_le_bytes(v, s.len() as nat) =~= s);
    }
}

/// The frame for a message: variant tag, then for a note list the note
/// count and the notes.
pub open spec fn spec_message_bytes(m: MidiNoteMessage) -> Seq<u8> {
    match m {
        MidiNoteMessage::InputNotes(notes) => seq![0u8, 0u8, 0u8, 0u8] + spec_le_bytes(
            notes@.len() as int,
            8,
        ) + notes@,
        MidiNoteMessage::OutputNote => seq![1u8, 0u8, 0u8, 0u8],
    }
}

/// Whether a byte string is a well-formed frame.
pub open spec fn spec_message_valid(bytes: Seq<u8>) -> bool {
    ||| (bytes.len() == 4 && bytes[0] == 1 && bytes[1] == 0 && bytes[2] == 0 && bytes[3] == 0)
    ||| (bytes.len() >= 12 && bytes[0] == 0 && bytes[1] == 0 && bytes[2] == 0 && bytes[3] == 0
        && spec_le_value(bytes.subrange(4, 12)) == bytes.len() - 12)
}

/// Every encoded frame is well-formed, so parsing it succeeds.
pub proof fn lemma_message_frame_valid(m: MidiNoteMessage)
    ensures
        spec_message_valid(spec_message_bytes(m)),
{
    match m {
        MidiNoteMessage::OutputNote => {},
        MidiNoteMessage::InputNotes(notes) => {
            let bytes = spec_message_bytes(m);
            lemma_pow256_positive(8);
            vstd::std_specs::vec::axiom_spec_len(&notes);
            lemma_le_len_bound(notes@.len() as int);
            lemma_le_round_trip(notes@.len() as int, 8);
            assert(bytes.subrange(4, 12) =~= spec_le_bytes(notes@.len() as int, 8));
        },
    }
}

/// 256 to any power is positive.
pub proof fn lemma_pow256_positive(k: nat)
    ensures
        pow256(k) > 0,
    decreases k,
{
    if k > 0 {
        lemma_pow256_positive((k - 1) as nat);
    }
}

/// A vector length fits in eight bytes.
proof fn lemma_le_len_bound(n: int)
    requires
        0 <= n < 0x1_0000_0000_0000_0000,
    ensures
        n < pow256(8),
{
    assert(pow256(8) == 0x1_0000_0000_0000_0000) by {
        reveal_with_fuel(pow256, 9);
    }
}

impl MidiNoteMessage {
    /// Whether this message carries the user's input notes.
    pub fn is_input(&self) -> (r: bool)
        ensures
            r == (self is InputNotes),
    {
        match self {
            MidiNoteMessage::InputNotes(_) => true,
            MidiNoteMessage::OutputNote => false,
        }
    }

    /// Encode the message as its frame.
    pub fn to_bytes(&self) -> (r: Vec<u8>)
        ensures
            r@ == spec_message_bytes(*self),
    {
        match self {
            MidiNoteMessage::OutputNote => {
                let mut out: Vec<u8> = Vec::new();
                out.push(1);
                out.push(0);
                out.push(0);
                out.push(0);
                proof {
                    assert(out@ =~= spec_message_bytes(*self));
                }
                out
            },
            MidiNoteMessage::InputNotes(notes) => {
                let mut out: Vec<u8> = Vec::new();
                out.push(0);
                out.push(0);
                out.push(0);
                out.push(0);
                let mut x: u64 = notes.len() as u64;
                let ghost x0 = x as int;
                let mut k: usize = 0;
                while k < 8
                    invariant
                        k <= 8,
                        out@.len() == 4 + k,
                        out@.subrange(0, 4) == seq![0u8, 0u8, 0u8, 0u8],
                        spec_le_bytes(x0, 8) == out@.subrange(4, out@.len() as int)
                            + spec_le_bytes(x as int, (8 - k) as nat),
                    decreases 8 - k,
                {
                    let ghost xp = x as int;
                    let ghost outp = out@;
                    let b: u8 = (x % 256) as u8;
                    out.push(b);
                    x = x / 256;
                    k += 1;
                    proof {
                        assert(spec_le_bytes(xp, (8 - (k - 1)) as nat) == seq![b]
                            + spec_le_bytes(x as int, (8 - k) as nat));
                        assert(out@.subrange(0, 4) =~= outp.subrange(0, 4));
                        assert(out@.subrange(4, out@.len() as int) =~= outp.subrange(
                            4,
                            outp.len() as int,
                        ).push(b));
                        assert(outp.subrange(4, outp.len() as int).push(b) + spec_le_bytes(
                            x as int,
                            (8 - k) as nat,
                        ) =~= outp.subrange(4, outp.len() as int) + spec_le_bytes(
                            xp,
                            (8 - (k - 1)) as nat,
                        ));
                    }
                }
                let ghost header = out@;
                let mut i: usize = 0;
                while i < notes.len()
                    invariant
                        i <= notes@.len(),
                        out@ == header + notes@.take(i as int),
                        header.len() == 12,
                    decreases notes@.len() - i,
                {
                    out.push(notes[i]);
                    proof {
                        assert(out@ =~= header + notes@.take(i + 1));
                    }
                    i += 1;
                }
                proof {
                    assert(notes@.take(notes@.len() as int) =~= notes@);
                    assert(header =~= seq![0u8, 0u8, 0u8, 0u8] + spec_le_bytes(x0, 8)) by {
                        assert(header + spec_le_bytes(x as int, 0) =~= header);
                        assert(header.subrange(4, 12) =~= spec_le_bytes(x0, 8));
                        assert(header =~= header.subrange(0, 4) + header.subrange(4, 12));
                    }
                    assert(out@ =~= spec_message_bytes(*self));
                }
                out
            },
        }
    }

    /// Parse a frame. A well-formed frame — and nothing else — parses,
    /// to the message whose encoding it is.
    pub fn from_bytes(bytes: &[u8]) -> (r: Result<MidiNoteMessage, MessageError>)
        ensures
            r is Ok <==> spec_message_valid(bytes@),
            r is Ok ==> spec_message_bytes(r->Ok_0) == bytes@,
            r is Ok && bytes@[0] == 1 ==> r->Ok_0 is OutputNote,
            r is Ok && bytes@[0] == 0 ==> r->Ok_0 is InputNotes && r->Ok_0->0@ == bytes@.subrange(
                12,
                bytes@.len() as int,
            ),
    {
        if bytes.len() == 4 && bytes[0] == 1 && bytes[1] == 0 && bytes[2] == 0 && bytes[3] == 0 {
            proof {
                assert(spec_message_bytes(MidiNoteMessage::OutputNote) =~= bytes@);
            }
            return Ok(MidiNoteMessage::OutputNote);
        }
        if !(bytes.len() >= 12 && bytes[0] == 0 && bytes[1] == 0 && bytes[2] == 0 && bytes[3]
            == 0) {
            return Err(MessageError::Malformed);
        }
        // read the note count, most significant byte first
        let mut n: u64 = 0;
        let mut k: usize = 12;
        proof {
            assert(bytes@.subrange(12, 12) =~= Seq::<u8>::empty());
            lemma_le_bytes_of_value(bytes@.subrange(4, 12));
        }
        while k > 4
            invariant
                4 <= k <= 12,
                n == spec_le_value(bytes@.subrange(k as int, 12)),
                n < pow256((12 - k) as nat),
                bytes@.len() >= 12,
            decreases k,
        {
            let ghost np = n as int;
            proof {
                assert(pow256((12 - (k - 1)) as nat) == 256 * pow256((12 - k) as nat));
                assert(256 * np + 255 < 256 * pow256((12 - k) as nat)) by (nonlinear_arith)
                    requires
                        0 <= np < pow256((12 - k) as nat),
                ;
                assert(pow256((12 - (k - 1)) as nat) <= pow256(8)) by {
                    lemma_pow256_increases((12 - (k - 1)) as nat, 8);
                }
                assert(pow256(8) == 0x1_0000_0000_0000_0000) by {
                    reveal_with_fuel(pow256, 9);
                }
            }
            n = n * 256 + (bytes[k - 1] as u64);
            k -= 1;
            proof {
                let s = bytes@.subrange(k as int, 12);
                assert(s.drop_first() =~= bytes@.subrange(k + 1, 12));
                assert(s[0] == bytes@[k as int]);
                vstd::arithmetic::div_mod::lemma_fundamental_div_mod_converse(
                    n as int,
                    256,
                    np,
                    bytes@[k as int] as int,
                );
                assert(n < pow256((12 - k) as nat)) by (nonlinear_arith)
                    requires
                        n == s[0] + 256 * np,
                        s[0] < 256,
                        0 <= np < pow256((12 - k - 1) as nat),
                        pow256((12 - k) as nat) == 256 * pow256((12 - k - 1) as nat),
                        s[0] >= 0,
                        np >= 0,
                ;
            }
        }
        if n != (bytes.len() - 12) as u64 {
            return Err(MessageError::Malformed);
        }
        let mut notes: Vec<u8> = Vec::new();
        let mut i: usize = 12;
        while i < bytes.len()
            invariant
                12 <= i <= bytes@.len(),
                notes@ == bytes@.subrange(12, i as int),
            decreases bytes@.len() - i,
        {
            notes.push(bytes[i]);
            proof {
                assert(notes@ =~= bytes@.subrange(12, i + 1));
            }
            i += 1;
        }
        let r = MidiNoteMessage::InputNotes(notes);
        proof {
            lemma_le_bytes_of_value(bytes@.subrange(4, 12));
            assert(spec_le_bytes(n as int, 8) == bytes@.subrange(4, 12));
            assert(spec_message_bytes(r) =~= bytes@);
        }
        Ok(r)
    }
}

/// The big-endian frame of a 64-bit word: its little-endian bytes,
/// reversed. Tempo estimates travel as one such frame per update.
pub open spec fn spec_be64_bytes(x: int) -> Seq<u8> {
    spec_le_bytes(x, 8).reverse()
}

/// The big-endian frame of a 32-bit word. Reservoir feel samples travel
/// as one such frame per change.
pub open spec fn spec_be32_bytes(x: int) -> Seq<u8> {
    spec_le_bytes(x, 4).reverse()
}

/// Encode a tempo publication: the eight bytes of the 64-bit word, most
/// significant first.
pub fn tempo_frame_bytes(word: u64) -> (r: Vec<u8>)
    ensures
        r@ == spec_be64_bytes(word as int),
{
    proof {
        assert(pow256(8) == 0x1_0000_0000_0000_0000) by {
            reveal_with_fuel(pow256, 9);
        }
    }
    be_bytes(word, 8)
}

/// Parse a tempo publication frame.
pub fn tempo_frame_word(bytes: &[u8]) -> (r: Result<u64, MessageError>)
    ensures
        r is Ok <==> bytes@.len() == 8,
        r is Ok ==> spec_be64_bytes(r->Ok_0 as int) == bytes@,
{
    if bytes.len() != 8 {
        return Err(MessageError::Malformed);
    }
    Ok(be_word(bytes))
}

/// Encode a feel publication: the four bytes of the 32-bit word, most
/// significant first.
pub fn feel_frame_bytes(word: u32) -> (r: Vec<u8>)
    ensures
        r@ == spec_be32_bytes(word as int),
{
    proof {
        assert(pow256(4) == 0x1_0000_0000) by {
            reveal_with_fuel(pow256, 5);
        }
    }
    be_bytes(word as u64, 4)
}

/// Parse a feel publication frame.
pub fn feel_frame_word(bytes: &[u8]) -> (r: Result<u32, MessageError>)
    ensures
        r is Ok <==> bytes@.len() == 4,
        r is Ok ==> spec_be32_bytes(r->Ok_0 as int) == bytes@,
{
    if bytes.len() != 4 {
        return Err(MessageError::Malformed);
    }
    let w = be_word(bytes);
    proof {
        lemma_le_bytes_of_value(bytes@.reverse());
        assert(bytes@.reverse().len() == 4);
        assert(pow256(4) == 0x1_0000_0000) by {
            reveal_with_fuel(pow256, 5);
        }
        assert(spec_le_bytes(w as int, 4).reverse() =~= bytes@);
    }
    Ok(w as u32)
}

/// Write the low `k` bytes of `x`, most significant first.
#[verifier::loop_isolation(false)]
fn be_bytes(x: u64, k: usize) -> (r: Vec<u8>)
    requires
        1 <= k <= 8,
        x < pow256(k as nat),
    ensures
        r@ == spec_le_bytes(x as int, k as nat).reverse(),
{
    let ghost x0 = x as int;
    let mut x = x;
    let mut out: Vec<u8> = Vec::new();
    let mut j: usize = 0;
    proof {
        assert(out@.reverse() =~= Seq::<u8>::empty());
        assert(Seq::<u8>::empty() + spec_le_bytes(x0, k as nat) =~= spec_le_bytes(x0, k as nat));
    }
    while j < k
        invariant
            j <= k,
            out@.len() == j,
            out@.reverse() + spec_le_bytes(x as int, (k - j) as nat) == spec_le_bytes(
                x0,
                k as nat,
            ),
        decreases k - j,
    {
        let ghost xp = x as int;
        let ghost outp = out@;
        let b: u8 = (x % 256) as u8;
        out.insert(0, b);
        x = x / 256;
        j += 1;
        proof {
            assert(spec_le_bytes(xp, (k - (j - 1)) as nat) == seq![b] + spec_le_bytes(
                x as int,
                (k - j) as nat,
            ));
            assert(out@.reverse() =~= outp.reverse().push(b));
            assert(outp.reverse().push(b) + spec_le_bytes(x as int, (k - j) as nat)
                =~= outp.reverse() + (seq![b] + spec_le_bytes(x as int, (k - j) as nat)));
        }
    }
    proof {
        assert(out@.reverse() + spec_le_bytes(x as int, 0) =~= out@.reverse());
        assert(out@ =~= spec_le_bytes(x0, k as nat).reverse());
    }
    out
}

/// Read a word from bytes given most significant first.
#[verifier::loop_isolation(false)]
fn be_word(bytes: &[u8]) -> (r: u64)
    requires
        1 <= bytes@.len() <= 8,
    ensures
        spec_le_bytes(r as int, bytes@.len() as nat).reverse() == bytes@,
        r < pow256(bytes@.len() as nat),
{
    let k = bytes.len();
    let mut n: u64 = 0;
    let mut j: usize = 0;
    proof {
        assert(bytes@.subrange(0, 0) =~= Seq::<u8>::empty());
        assert(spec_le_value(Seq::<u8>::empty().reverse()) == 0);
    }
    while j < k
        invariant
            j <= k,
            k == bytes@.len() <= 8,
            n == spec_le_value(bytes@.subrange(0, j as int).reverse()),
            n < pow256(j as nat),
        decreases k - j,
    {
        let ghost np = n as int;
        proof {
            assert(pow256((j + 1) as nat) == 256 * pow256(j as nat));
            assert(256 * np + 255 < 256 * pow256(j as nat)) by (nonlinear_arith)
                requires
                    0 <= np < pow256(j as nat),
            ;
            assert(pow256((j + 1) as nat) <= pow256(8)) by {
                lemma_pow256_increases((j + 1) as nat, 8);
            }
            assert(pow256(8) == 0x1_0000_0000_0000_0000) by {
                reveal_with_fuel(pow256, 9);
            }
        }
        n = n * 256 + (bytes[j] as u64);
        j += 1;
        proof {
            let s = bytes@.subrange(0, j as int).reverse();
            assert(s[0] == bytes@[j - 1]);
            assert(s.drop_first() =~= bytes@.subrange(0, j - 1).reverse());
            vstd::arithmetic::div_mod::lemma_fundamental_div_mod_converse(
                n as int,
                256,
                np,
                bytes@[j - 1] as int,
            );
            assert(n < pow256(j as nat)) by (nonlinear_arith)
                requires
                    n == s[0] + 256 * np,
                    0 <= s[0] < 256,
                    0 <= np < pow256((j - 1) as nat),
                    pow256(j as nat) == 256 * pow256((j - 1) as nat),
            ;
        }
    }
    proof {
        assert(bytes@.subrange(0, k as int) =~= bytes@);
        lemma_le_bytes_of_value(bytes@.reverse());
        assert(bytes@.reverse().len() == k);
        assert(spec_le_bytes(n as int, k as nat) =~= bytes@.reverse());
        assert(spec_le_bytes(n as int, k as nat).reverse() =~= bytes@.reverse().reverse());
        assert(bytes@.reverse().reverse() =~= bytes@);
    }
    n
}

/// Powers of 256 grow with the exponent.
pub proof fn lemma_pow256_increases(a: nat, b: nat)
    requires
        a <= b,
    ensures
        pow256(a) <= pow256(b),
    decreases b,
{
    if a < b {
        lemma_pow256_increases(a, (b - 1) as nat);
        lemma_pow256_positive((b - 1) as nat);
    }
}

} // verus!
