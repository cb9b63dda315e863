//! The reservoir (echo state network) model: its immutable parameters,
//! its mutable state, and the byte codec that persists it.
//!
//! The numeric forward pass works on IEEE double samples and lives with
//! the runtime that owns the floating-point unit; the library holds every
//! parameter as its 64-bit pattern, enforces the shape invariants — state
//! of length `size`, output of length `outputs`, readout over a visible
//! prefix — and defines the serialized form exactly: a nine-word header
//! followed by the arrays, every word eight little-endian bytes. Encoding
//! and decoding are proved inverse to the bit.

use vstd::prelude::*;

use crate::activation::Activation;
use crate::messages::{lemma_le_bytes_of_value, lemma_le_round_trip, lemma_pow256_increases,
    lemma_pow256_positive, pow256, spec_le_bytes, spec_le_value};

verus! {

/// Matrix dimensions are capped here so that every size computation of
/// the codec stays far from overflow.
pub const MAX_DIM: usize = 0x1000;

/// A dense row-major matrix of 64-bit patterns.
pub struct Matrix {
    pub rows: usize,
    pub cols: usize,
    pub data: Vec<u64>,
}

impl Matrix {
    pub open spec fn wf(self) -> bool {
        self.data.len() == self.rows * self.cols
    }
}

/// An echo state network: a fixed random recurrent core with a trained
/// linear readout over the first `visible_count` neurons.
pub struct Reservoir {
    /// Internal state of the reservoir, one word per neuron.
    pub state: Vec<u64>,
    /// Output layer of the reservoir.
    pub output: Vec<u64>,
    /// Input weights (input to reservoir), `size` by `inputs`.
    pub weights_in_res: Matrix,
    /// Resonant weights (reservoir to reservoir), `size` by `size`.
    pub weights_res_res: Matrix,
    /// Output feedback weights (output to reservoir), `size` by `outputs`.
    pub weights_out_res: Matrix,
    /// Readout weights (reservoir to output), `outputs` by `size`; the
    /// trained part.
    pub weights_res_out: Matrix,
    /// Bias for the reservoir neurons.
    pub bias_res: Vec<u64>,
    /// Bias for the output layer.
    pub bias_out: Vec<u64>,
    /// Number of neurons.
    pub size: usize,
    /// How many neurons the readout observes; at most `size`.
    pub visible_count: usize,
    /// Number of inputs.
    pub inputs: usize,
    /// Number of outputs.
    pub outputs: usize,
    /// The activation function.
    pub activation: Activation,
    /// Leak rate of the neurons, as a 64-bit pattern.
    pub leak_rate_bits: u64,
    /// Learning rate of the readout, as a 64-bit pattern.
    pub learning_rate_bits: u64,
    /// Number of warm-up steps.
    pub warm_up: usize,
    /// Regularization parameter, as a 64-bit pattern.
    pub regularization_bits: u64,
}

/// The bytes of a word sequence: eight little-endian bytes per word.
pub open spec fn spec_words_bytes(s: Seq<u64>) -> Seq<u8>
    decreases s.len(),
{
    if s.len() == 0 {
        Seq::empty()
    } else {
        spec_le_bytes(s[0] as int, 8) + spec_words_bytes(s.drop_first())
    }
}

/// The word denoted at word index `k` of a byte string.
pub open spec fn spec_word_at(bytes: Seq<u8>, k: int) -> int {
    spec_le_value(bytes.subrange(8 * k, 8 * k + 8))
}

/// A word sequence's bytes are eight per word.
pub proof fn lemma_words_bytes_len(s: Seq<u64>)
    ensures
        spec_words_bytes(s).len() == 8 * s.len(),
    decreases s.len(),
{
    if s.len() > 0 {
        lemma_le_bytes_len(s[0] as int);
        lemma_words_bytes_len(s.drop_first());
    }
}

/// Eight little-endian bytes are eight bytes.
proof fn lemma_le_bytes_len(x: int)
    ensures
        spec_le_bytes(x, 8).len() == 8,
{
    reveal_with_fuel(spec_le_bytes, 9);
}

/// Appending a word appends its eight bytes.
pub proof fn lemma_words_bytes_append(s: Seq<u64>, w: u64)
    ensures
        spec_words_bytes(s.push(w)) == spec_words_bytes(s) + spec_le_bytes(w as int, 8),
    decreases s.len(),
{
    if s.len() == 0 {
        assert(s.push(w)[0] == w);
        assert(s.push(w).drop_first() =~= Seq::<u64>::empty());
        assert(spec_words_bytes(s.push(w)) == spec_le_bytes(w as int, 8) + spec_words_bytes(
            s.push(w).drop_first(),
        ));
        assert(spec_le_bytes(w as int, 8) + Seq::<u8>::empty() =~= spec_le_bytes(w as int, 8));
        assert(spec_words_bytes(s) + spec_le_bytes(w as int, 8) =~= spec_le_bytes(w as int, 8));
    } else {
        lemma_words_bytes_append(s.drop_first(), w);
        assert(s.push(w).drop_first() =~= s.drop_first().push(w));
        assert(s.push(w)[0] == s[0]);
        assert(spec_le_bytes(s[0] as int, 8) + (spec_words_bytes(s.drop_first()) + spec_le_bytes(
            w as int,
            8,
        )) =~= (spec_le_bytes(s[0] as int, 8) + spec_words_bytes(s.drop_first())) + spec_le_bytes(
            w as int,
            8,
        ));
    }
}

/// Reading word `k` of a word sequence's bytes yields the word.
pub proof fn lemma_word_at(s: Seq<u64>, k: int)
    requires
        0 <= k < s.len(),
    ensures
        spec_word_at(spec_words_bytes(s), k) == s[k],
    decreases k,
{
    lemma_words_bytes_len(s);
    lemma_le_bytes_len(s[0] as int);
    if k == 0 {
        lemma_pow256_positive(8);
        assert(0 <= s[0] < pow256(8)) by {
            lemma_pow256_8_value();
        }
        lemma_le_round_trip(s[0] as int, 8);
        assert(spec_words_bytes(s).subrange(0, 8) =~= spec_le_bytes(s[0] as int, 8)) by {
            lemma_words_bytes_len(s.drop_first());
        }
    } else {
        lemma_word_at(s.drop_first(), k - 1);
        lemma_words_bytes_len(s.drop_first());
        assert(spec_words_bytes(s).subrange(8 * k, 8 * k + 8) =~= spec_words_bytes(
            s.drop_first(),
        ).subrange(8 * (k - 1), 8 * (k - 1) + 8));
    }
}

/// 256 to the eighth is the word bound.
pub proof fn lemma_pow256_8_value()
    ensures
        pow256(8) == 0x1_0000_0000_0000_0000,
{
    reveal_with_fuel(pow256, 9);
}

/// Word sequences of equal length with equal bytes are equal.
pub proof fn lemma_words_bytes_injective(s1: Seq<u64>, s2: Seq<u64>)
    requires
        s1.len() == s2.len(),
        spec_words_bytes(s1) == spec_words_bytes(s2),
    ensures
        s1 == s2,
{
    assert forall|k: int| 0 <= k < s1.len() implies s1[k] == s2[k] by {
        lemma_word_at(s1, k);
        lemma_word_at(s2, k);
    }
    assert(s1 =~= s2);
}

impl Reservoir {
    /// Shapes hold together: the state spans the neurons, the output the
    /// output layer, every weight matrix matches its two layers, and the
    /// readout observes a prefix of the neurons.
    pub open spec fn wf(self) -> bool {
        &&& 1 <= self.size <= MAX_DIM
        &&& 1 <= self.inputs <= MAX_DIM
        &&& 1 <= self.outputs <= MAX_DIM
        &&& self.visible_count <= self.size
        &&& self.warm_up <= 0xFFFF_FFFF
        &&& self.state.len() == self.size
        &&& self.output.len() == self.outputs
        &&& self.weights_in_res.rows == self.size && self.weights_in_res.cols == self.inputs
            && self.weights_in_res.wf()
        &&& self.weights_res_res.rows == self.size && self.weights_res_res.cols == self.size
            && self.weights_res_res.wf()
        &&& self.weights_out_res.rows == self.size && self.weights_out_res.cols == self.outputs
            && self.weights_out_res.wf()
        &&& self.weights_res_out.rows == self.outputs && self.weights_res_out.cols == self.size
            && self.weights_res_out.wf()
        &&& self.bias_res.len() == self.size
        &&& self.bias_out.len() == self.outputs
    }

    /// The nine header words of the serialized form.
    pub open spec fn header_words(self) -> Seq<u64> {
        seq![
            self.size as u64,
            self.visible_count as u64,
            self.inputs as u64,
            self.outputs as u64,
            self.warm_up as u64,
            self.leak_rate_bits,
            self.learning_rate_bits,
            self.regularization_bits,
            self.activation.spec_tag(),
        ]
    }

    /// Every word of the serialized form: the header, then state, output,
    /// input weights, resonant weights, feedback weights, readout
    /// weights, and the two biases.
    pub open spec fn all_words(self) -> Seq<u64> {
        self.header_words() + self.state@ + self.output@ + self.weights_in_res.data@
            + self.weights_res_res.data@ + self.weights_out_res.data@ + self.weights_res_out.data@
            + self.bias_res@ + self.bias_out@
    }

    /// The serialized form.
    pub open spec fn spec_bytes(self) -> Seq<u8> {
        spec_words_bytes(self.all_words())
    }

    /// Zero the mutable state: every neuron and every output word becomes
    /// the zero pattern. Parameters are untouched.
    pub fn reset_state(&mut self)
        requires
            old(self).wf(),
        ensures
            final(self).wf(),
            final(self).state@.len() == old(self).state@.len(),
            forall|i: int| 0 <= i < final(self).state@.len() ==> final(self).state@[i] == 0,
            forall|i: int| 0 <= i < final(self).output@.len() ==> final(self).output@[i] == 0,
            final(self).output@.len() == old(self).output@.len(),
            *final(self) == (Reservoir { state: final(self).state, output: final(self).output, ..*old(self) }),
    {
        let n = self.state.len();
        let mut state: Vec<u64> = Vec::new();
        let mut i: usize = 0;
        while i < n
            invariant
                i <= n,
                state@.len() == i,
                forall|k: int| 0 <= k < i ==> state@[k] == 0,
            decreases n - i,
        {
            state.push(0);
            i += 1;
        }
        let m = self.output.len();
        let mut output: Vec<u64> = Vec::new();
        let mut j: usize = 0;
        while j < m
            invariant
                j <= m,
                output@.len() == j,
                forall|k: int| 0 <= k < j ==> output@[k] == 0,
            decreases m - j,
        {
            output.push(0);
            j += 1;
        }
        self.state = state;
        self.output = output;
    }

    /// Install a trained readout matrix of the right shape.
    pub fn set_weights_out(&mut self, weights: Matrix)
        requires
            old(self).wf(),
            weights.rows == old(self).outputs,
            weights.cols == old(self).size,
            weights.wf(),
        ensures
            final(self).wf(),
            final(self).weights_res_out == weights,
            *final(self) == (Reservoir { weights_res_out: weights, ..*old(self) }),
    {
        self.weights_res_out = weights;
    }

    /// Take one tick's freshly computed state and output. Only vectors of
    /// the configured shape are accepted, so after every tick the state
    /// spans exactly `size` neurons and the output exactly `outputs`
    /// words.
    pub fn apply_step(&mut self, new_state: Vec<u64>, new_output: Vec<u64>)
        requires
            old(self).wf(),
            new_state@.len() == old(self).size,
            new_output@.len() == old(self).outputs,
        ensures
            final(self).wf(),
            final(self).state == new_state,
            final(self).output == new_output,
            final(self).state@.len() == final(self).size,
            final(self).output@.len() == final(self).outputs,
            *final(self) == (Reservoir { state: new_state, output: new_output, ..*old(self) }),
    {
        self.state = new_state;
        self.output = new_output;
    }

    /// Read one output word.
    pub fn get_output(&self, output_id: usize) -> (r: u64)
        requires
            self.wf(),
            output_id < self.outputs,
        ensures
            r == self.output@[output_id as int],
    {
        self.output[output_id]
    }

    /// Serialize the model: the nine header words, then every array, each
    /// word as eight little-endian bytes.
    pub fn to_bytes(&self) -> (r: Vec<u8>)
        requires
            self.wf(),
        ensures
            r@ == self.spec_bytes(),
    {
        let mut words: Vec<u64> = Vec::new();
        words.push(self.size as u64);
        words.push(self.visible_count as u64);
        words.push(self.inputs as u64);
        words.push(self.outputs as u64);
        words.push(self.warm_up as u64);
        words.push(self.leak_rate_bits);
        words.push(self.learning_rate_bits);
        words.push(self.regularization_bits);
        words.push(self.activation.tag());
        proof {
            assert(words@ =~= self.header_words());
        }
        append_words(&mut words, &self.state);
        append_words(&mut words, &self.output);
        append_words(&mut words, &self.weights_in_res.data);
        append_words(&mut words, &self.weights_res_res.data);
        append_words(&mut words, &self.weights_out_res.data);
        append_words(&mut words, &self.weights_res_out.data);
        append_words(&mut words, &self.bias_res);
        append_words(&mut words, &self.bias_out);
        proof {
            assert(words@ =~= self.all_words());
        }
        words_to_bytes(&words)
    }

    /// Parse a serialized model. A well-formed frame — and nothing else —
    /// parses, to a well-formed reservoir whose serialization is the
    /// frame itself.
    #[verifier::loop_isolation(false)]
    #[verifier::rlimit(100)]
    pub fn from_bytes(bytes: &[u8]) -> (r: Result<Reservoir, ModelError>)
        ensures
            r is Ok <==> spec_reservoir_valid(bytes@),
            r is Ok ==> r->Ok_0.wf() && r->Ok_0.spec_bytes() == bytes@,
    {
        if bytes.len() % 8 != 0 {
            return Err(ModelError::Malformed);
        }
        let count = bytes.len() / 8;
        if count < 9 {
            return Err(ModelError::Malformed);
        }
        let mut words: Vec<u64> = Vec::new();
        let mut k: usize = 0;
        while k < count
            invariant
                k <= count,
                words@.len() == k,
                forall|j: int| 0 <= j < k ==> words@[j] == spec_word_at(bytes@, j),
            decreases count - k,
        {
            let w = read_word(bytes, k);
            words.push(w);
            k += 1;
        }
        proof {
            lemma_words_from_bytes(bytes@, words@);
        }
        if words[0] < 1 || words[0] > MAX_DIM as u64 {
            return Err(ModelError::Malformed);
        }
        let size = words[0] as usize;
        if words[1] > size as u64 {
            return Err(ModelError::Malformed);
        }
        let visible_count = words[1] as usize;
        if words[2] < 1 || words[2] > MAX_DIM as u64 {
            return Err(ModelError::Malformed);
        }
        let inputs = words[2] as usize;
        if words[3] < 1 || words[3] > MAX_DIM as u64 {
            return Err(ModelError::Malformed);
        }
        let outputs = words[3] as usize;
        if words[4] > 0xFFFF_FFFF {
            return Err(ModelError::Malformed);
        }
        let warm_up = words[4] as usize;
        let activation = match Activation::from_tag(words[8]) {
            Some(a) => a,
            None => {
                return Err(ModelError::Malformed);
            },
        };
        let n64 = size as u64;
        let i64v = inputs as u64;
        let o64 = outputs as u64;
        proof {
            assert(n64 * i64v <= 0x1000000 && n64 * n64 <= 0x1000000 && n64 * o64 <= 0x1000000
                && o64 * n64 <= 0x1000000) by (nonlinear_arith)
                requires
                    1 <= n64 <= 0x1000,
                    1 <= i64v <= 0x1000,
                    1 <= o64 <= 0x1000,
            ;
        }
        let expected: u64 = 9 + n64 + o64 + n64 * i64v + n64 * n64 + n64 * o64 + o64 * n64 + n64
            + o64;
        if count as u64 != expected {
            return Err(ModelError::Malformed);
        }
        let mut pos: usize = 9;
        let state = copy_range(&words, pos, pos + size);
        pos = pos + size;
        let output = copy_range(&words, pos, pos + outputs);
        pos = pos + outputs;
        let w_in = copy_range(&words, pos, pos + size * inputs);
        pos = pos + size * inputs;
        let w_rr = copy_range(&words, pos, pos + size * size);
        pos = pos + size * size;
        let w_or = copy_range(&words, pos, pos + size * outputs);
        pos = pos + size * outputs;
        let w_ro = copy_range(&words, pos, pos + outputs * size);
        pos = pos + outputs * size;
        let bias_res = copy_range(&words, pos, pos + size);
        pos = pos + size;
        let bias_out = copy_range(&words, pos, pos + outputs);
        let r = Reservoir {
            state,
            output,
            weights_in_res: Matrix { rows: size, cols: inputs, data: w_in },
            weights_res_res: Matrix { rows: size, cols: size, data: w_rr },
            weights_out_res: Matrix { rows: size, cols: outputs, data: w_or },
            weights_res_out: Matrix { rows: outputs, cols: size, data: w_ro },
            bias_res,
            bias_out,
            size,
            visible_count,
            inputs,
            outputs,
            activation,
            leak_rate_bits: words[5],
            learning_rate_bits: words[6],
            warm_up,
            regularization_bits: words[7],
        };
        proof {
            assert(r.header_words() =~= words@.subrange(0, 9));
            assert(r.all_words() =~= words@);
            lemma_words_from_bytes(bytes@, words@);
        }
        Ok(r)
    }
}

/// Why a serialized model failed to parse.
#[derive(PartialEq, Eq, Structural, Debug)]
pub enum ModelError {
    /// The bytes are not a well-formed model frame.
    Malformed,
}

/// Whether a byte string is a well-formed model frame: a whole number of
/// words, a header with dimensions in range, and exactly the word count
/// those dimensions demand.
pub open spec fn spec_reservoir_valid(bytes: Seq<u8>) -> bool {
    &&& bytes.len() % 8 == 0
    &&& bytes.len() / 8 >= 9
    &&& {
        let size = spec_word_at(bytes, 0);
        let visible = spec_word_at(bytes, 1);
        let inputs = spec_word_at(bytes, 2);
        let outputs = spec_word_at(bytes, 3);
        let warm = spec_word_at(bytes, 4);
        let tag = spec_word_at(bytes, 8);
        &&& 1 <= size <= MAX_DIM
        &&& 0 <= visible <= size
        &&& 1 <= inputs <= MAX_DIM
        &&& 1 <= outputs <= MAX_DIM
        &&& warm <= 0xFFFF_FFFF
        &&& tag < 4
        &&& bytes.len() / 8 == 9 + size + outputs + size * inputs + size * size + size * outputs
            + outputs * size + size + outputs
    }
}

/// Append the words of `src`.
fn append_words(dst: &mut Vec<u64>, src: &Vec<u64>)
    ensures
        final(dst)@ == old(dst)@ + src@,
{
    let ghost base = dst@;
    let mut i: usize = 0;
    while i < src.len()
        invariant
            i <= src@.len(),
            dst@ == base + src@.take(i as int),
        decreases src@.len() - i,
    {
        dst.push(src[i]);
        proof {
            assert(dst@ =~= base + src@.take(i + 1));
        }
        i += 1;
    }
    proof {
        assert(base + src@.take(src@.len() as int) =~= base + src@);
    }
}

/// Write every word as eight little-endian bytes.
fn words_to_bytes(words: &Vec<u64>) -> (r: Vec<u8>)
    ensures
        r@ == spec_words_bytes(words@),
{
    let mut out: Vec<u8> = Vec::new();
    let mut i: usize = 0;
    proof {
        assert(spec_words_bytes(words@.take(0int)) =~= Seq::<u8>::empty());
    }
    while i < words.len()
        invariant
            i <= words@.len(),
            out@ == spec_words_bytes(words@.take(i as int)),
        decreases words@.len() - i,
    {
        push_word(&mut out, words[i]);
        proof {
            assert(words@.take(i + 1) =~= words@.take(i as int).push(words@[i as int]));
            lemma_words_bytes_append(words@.take(i as int), words@[i as int]);
        }
        i += 1;
    }
    proof {
        assert(words@.take(words@.len() as int) =~= words@);
    }
    out
}

/// Append the eight little-endian bytes of one word.
#[verifier::loop_isolation(false)]
fn push_word(out: &mut Vec<u8>, x: u64)
    ensures
        final(out)@ == old(out)@ + spec_le_bytes(x as int, 8),
{
    let ghost base = out@;
    let ghost x0 = x as int;
    let mut x = x;
    let mut k: usize = 0;
    proof {
        assert(base + Seq::<u8>::empty() =~= base);
    }
    while k < 8
        invariant
            k <= 8,
            out@.len() == base.len() + k,
            spec_le_bytes(x0, 8) == out@.subrange(base.len() as int, out@.len() as int)
                + spec_le_bytes(x as int, (8 - k) as nat),
            out@.subrange(0, base.len() as int) == base,
        decreases 8 - k,
    {
        let ghost xp = x as int;
        let ghost outp = out@;
        let b: u8 = (x % 256) as u8;
        out.push(b);
        x = x / 256;
        k += 1;
        proof {
            assert(spec_le_bytes(xp, (8 - (k - 1)) as nat) == seq![b] + spec_le_bytes(
                x as int,
                (8 - k) as nat,
            ));
            assert(out@.subrange(0, base.len() as int) =~= outp.subrange(0, base.len() as int));
            assert(out@.subrange(base.len() as int, out@.len() as int) =~= outp.subrange(
                base.len() as int,
                outp.len() as int,
            ).push(b));
            assert(outp.subrange(base.len() as int, outp.len() as int).push(b) + spec_le_bytes(
                x as int,
                (8 - k) as nat,
            ) =~= outp.subrange(base.len() as int, outp.len() as int) + (seq![b] + spec_le_bytes(
                x as int,
                (8 - k) as nat,
            )));
        }
    }
    proof {
        assert(out@.subrange(base.len() as int, out@.len() as int) + Seq::<u8>::empty()
            =~= out@.subrange(base.len() as int, out@.len() as int));
        assert(out@ =~= base + spec_le_bytes(x0, 8));
    }
}

/// Read the word at word index `k`.
#[verifier::loop_isolation(false)]
fn read_word(bytes: &[u8], k: usize) -> (r: u64)
    requires
        8 * k + 8 <= bytes@.len(),
    ensures
        r == spec_word_at(bytes@, k as int),
{
    let total = bytes.len();
    let base = 8 * k;
    let mut n: u64 = 0;
    let mut j: usize = 8;
    proof {
        assert(bytes@.subrange(base + 8, base + 8) =~= Seq::<u8>::empty());
    }
    while j > 0
        invariant
            0 <= j <= 8,
            n == spec_le_value(bytes@.subrange(base + j, base as int + 8)),
            n < pow256((8 - j) as nat),
        decreases j,
    {
        let ghost np = n as int;
        proof {
            assert(pow256((8 - (j - 1)) as nat) == 256 * pow256((8 - j) as nat));
            assert(256 * np + 255 < 256 * pow256((8 - j) as nat)) by (nonlinear_arith)
                requires
                    0 <= np < pow256((8 - j) as nat),
            ;
            assert(pow256((8 - (j - 1)) as nat) <= pow256(8)) by {
                lemma_pow256_increases((8 - (j - 1)) as nat, 8);
            }
            lemma_pow256_8_value();
        }
        n = n * 256 + (bytes[base + j - 1] as u64);
        j -= 1;
        proof {
            let s = bytes@.subrange(base + j, base as int + 8);
            assert(s.drop_first() =~= bytes@.subrange(base + j + 1, base as int + 8));
            assert(s[0] == bytes@[base + j]);
            vstd::arithmetic::div_mod::lemma_fundamental_div_mod_converse(
                n as int,
                256,
                np,
                bytes@[base + j] as int,
            );
            assert(n < pow256((8 - j) as nat)) by (nonlinear_arith)
                requires
                    n == s[0] + 256 * np,
                    0 <= s[0] < 256,
                    0 <= np < pow256((8 - j - 1) as nat),
                    pow256((8 - j) as nat) == 256 * pow256((8 - j - 1) as nat),
            ;
        }
    }
    proof {
        assert(bytes@.subrange(base as int, base as int + 8) =~= bytes@.subrange(
            8 * (k as int),
            8 * (k as int) + 8,
        ));
    }
    n
}

/// Copy the words from `a` up to `b`.
fn copy_range(words: &Vec<u64>, a: usize, b: usize) -> (r: Vec<u64>)
    requires
        a <= b <= words@.len(),
    ensures
        r@ == words@.subrange(a as int, b as int),
{
    let mut out: Vec<u64> = Vec::new();
    let mut i: usize = a;
    while i < b
        invariant
            a <= i <= b <= words@.len(),
            out@ == words@.subrange(a as int, i as int),
        decreases b - i,
    {
        out.push(words[i]);
        proof {
            assert(out@ =~= words@.subrange(a as int, i + 1));
        }
        i += 1;
    }
    out
}

/// A sequence of words each matching the word read from a byte string of
/// the right length is that byte string's word sequence.
pub proof fn lemma_words_from_bytes(bytes: Seq<u8>, words: Seq<u64>)
    requires
        bytes.len() == 8 * words.len(),
        forall|j: int| 0 <= j < words.len() ==> words[j] == spec_word_at(bytes, j),
    ensures
        spec_words_bytes(words) == bytes,
    decreases words.len(),
{
    if words.len() == 0 {
        assert(spec_words_bytes(words) =~= bytes);
    } else {
        let rest = bytes.subrange(8, bytes.len() as int);
        assert forall|j: int| 0 <= j < words.drop_first().len() implies words.drop_first()[j]
            == spec_word_at(rest, j) by {
            assert(words[j + 1] == spec_word_at(bytes, j + 1));
            assert(rest.subrange(8 * j, 8 * j + 8) =~= bytes.subrange(
                8 * (j + 1),
                8 * (j + 1) + 8,
            ));
        }
        lemma_words_from_bytes(rest, words.drop_first());
        let head = bytes.subrange(0, 8);
        lemma_le_bytes_of_value(head);
        assert(words[0] == spec_le_value(head)) by {
            assert(bytes.subrange(8 * 0int, 8 * 0int + 8) =~= head);
        }
        assert(spec_le_bytes(words[0] as int, 8) == head);
        assert(spec_words_bytes(words) == spec_le_bytes(words[0] as int, 8) + spec_words_bytes(
            words.drop_first(),
        ));
        assert(head + rest =~= bytes);
    }
}


/// Where each field lies in the word layout of the serialized form.
pub proof fn lemma_all_words_layout(m: Reservoir)
    requires
        m.wf(),
    ensures
        m.all_words().len() == 9 + m.size + m.outputs + m.size * m.inputs + m.size * m.size
            + m.size * m.outputs + m.outputs * m.size + m.size + m.outputs,
        forall|j: int| 0 <= j < 9 ==> m.all_words()[j] == m.header_words()[j],
        forall|i: int| 0 <= i < m.size ==> m.all_words()[9 + i] == m.state@[i],
        forall|i: int|
            0 <= i < m.outputs ==> m.all_words()[9 + m.size + i] == m.output@[i],
        forall|i: int|
            0 <= i < m.size * m.inputs ==> m.all_words()[9 + m.size + m.outputs + i]
                == m.weights_in_res.data@[i],
        forall|i: int|
            0 <= i < m.size * m.size ==> m.all_words()[9 + m.size + m.outputs + m.size * m.inputs
                + i] == m.weights_res_res.data@[i],
        forall|i: int|
            0 <= i < m.size * m.outputs ==> m.all_words()[9 + m.size + m.outputs + m.size
                * m.inputs + m.size * m.size + i] == m.weights_out_res.data@[i],
        forall|i: int|
            0 <= i < m.outputs * m.size ==> m.all_words()[9 + m.size + m.outputs + m.size
                * m.inputs + m.size * m.size + m.size * m.outputs + i]
                == m.weights_res_out.data@[i],
        forall|i: int|
            0 <= i < m.size ==> m.all_words()[9 + m.size + m.outputs + m.size * m.inputs + m.size
                * m.size + m.size * m.outputs + m.outputs * m.size + i] == m.bias_res@[i],
        forall|i: int|
            0 <= i < m.outputs ==> m.all_words()[9 + m.size + m.outputs + m.size * m.inputs
                + m.size * m.size + m.size * m.outputs + m.outputs * m.size + m.size + i]
                == m.bias_out@[i],
{
    let h = m.header_words();
    let p1 = h + m.state@;
    let p2 = p1 + m.output@;
    let p3 = p2 + m.weights_in_res.data@;
    let p4 = p3 + m.weights_res_res.data@;
    let p5 = p4 + m.weights_out_res.data@;
    let p6 = p5 + m.weights_res_out.data@;
    let p7 = p6 + m.bias_res@;
    let p8 = p7 + m.bias_out@;
    assert(m.all_words() == p8);
    assert(forall|j: int| 0 <= j < p7.len() ==> #[trigger] p8[j] == p7[j]);
    assert(forall|j: int| 0 <= j < p6.len() ==> #[trigger] p7[j] == p6[j]);
    assert(forall|j: int| 0 <= j < p5.len() ==> #[trigger] p6[j] == p5[j]);
    assert(forall|j: int| 0 <= j < p4.len() ==> #[trigger] p5[j] == p4[j]);
    assert(forall|j: int| 0 <= j < p3.len() ==> #[trigger] p4[j] == p3[j]);
    assert(forall|j: int| 0 <= j < p2.len() ==> #[trigger] p3[j] == p2[j]);
    assert(forall|j: int| 0 <= j < p1.len() ==> #[trigger] p2[j] == p1[j]);
    assert(forall|j: int| 0 <= j < h.len() ==> #[trigger] p1[j] == h[j]);
}

/// An encoded model is a valid frame: decoding what `to_bytes` wrote
/// always succeeds.
pub proof fn lemma_reservoir_frame_valid(m: Reservoir)
    requires
        m.wf(),
    ensures
        spec_reservoir_valid(m.spec_bytes()),
{
    let words = m.all_words();
    let bytes = m.spec_bytes();
    lemma_words_bytes_len(words);
    lemma_all_words_layout(m);
    assert forall|j: int| 0 <= j < 9 implies spec_word_at(bytes, j) == words[j] by {
        lemma_word_at(words, j);
    }
    assert(bytes.len() % 8 == 0 && bytes.len() / 8 == words.len()) by {
        assert(bytes.len() == 8 * words.len());
        vstd::arithmetic::div_mod::lemma_mod_multiples_basic(words.len() as int, 8);
        vstd::arithmetic::div_mod::lemma_div_multiples_vanish(words.len() as int, 8);
    }
}

/// Two well-formed reservoirs with the same serialized form agree on
/// every parameter bit and on the state: the serialized form determines
/// the model.
#[verifier::rlimit(100)]
pub proof fn lemma_reservoir_codec_injective(a: Reservoir, b: Reservoir)
    requires
        a.wf(),
        b.wf(),
        a.spec_bytes() == b.spec_bytes(),
    ensures
        a.size == b.size && a.visible_count == b.visible_count && a.inputs == b.inputs
            && a.outputs == b.outputs && a.warm_up == b.warm_up,
        a.leak_rate_bits == b.leak_rate_bits && a.learning_rate_bits == b.learning_rate_bits
            && a.regularization_bits == b.regularization_bits,
        a.activation == b.activation,
        a.state@ == b.state@ && a.output@ == b.output@,
        a.weights_in_res.data@ == b.weights_in_res.data@,
        a.weights_res_res.data@ == b.weights_res_res.data@,
        a.weights_out_res.data@ == b.weights_out_res.data@,
        a.weights_res_out.data@ == b.weights_res_out.data@,
        a.bias_res@ == b.bias_res@ && a.bias_out@ == b.bias_out@,
{
    let wa = a.all_words();
    let wb = b.all_words();
    lemma_words_bytes_len(wa);
    lemma_words_bytes_len(wb);
    lemma_words_bytes_injective(wa, wb);
    lemma_all_words_layout(a);
    lemma_all_words_layout(b);
    assert(a.size == b.size && a.visible_count == b.visible_count && a.inputs == b.inputs
        && a.outputs == b.outputs && a.warm_up == b.warm_up) by {
        assert(wa[0] == a.header_words()[0] && wb[0] == b.header_words()[0]);
        assert(wa[1] == a.header_words()[1] && wb[1] == b.header_words()[1]);
        assert(wa[2] == a.header_words()[2] && wb[2] == b.header_words()[2]);
        assert(wa[3] == a.header_words()[3] && wb[3] == b.header_words()[3]);
        assert(wa[4] == a.header_words()[4] && wb[4] == b.header_words()[4]);
    }
    assert(a.activation == b.activation) by {
        assert(wa[8] == a.activation.spec_tag());
        assert(wb[8] == b.activation.spec_tag());
    }
    let n = a.size as int;
    let o = a.outputs as int;
    let ni = a.size * a.inputs;
    let nn = a.size * a.size;
    let no = a.size * a.outputs;
    let on = a.outputs * a.size;
    assert(a.state@ =~= b.state@) by {
        assert forall|i: int| 0 <= i < a.state@.len() implies a.state@[i] == b.state@[i] by {
            assert(wa[9 + i] == a.state@[i]);
            assert(wb[9 + i] == b.state@[i]);
        }
    }
    assert(a.output@ =~= b.output@) by {
        assert forall|i: int| 0 <= i < a.output@.len() implies a.output@[i] == b.output@[i] by {
            assert(wa[9 + n + i] == a.output@[i]);
            assert(wb[9 + n + i] == b.output@[i]);
        }
    }
    assert(a.weights_in_res.data@ =~= b.weights_in_res.data@) by {
        assert forall|i: int| 0 <= i < a.weights_in_res.data@.len() implies a.weights_in_res.data@[i]
            == b.weights_in_res.data@[i] by {
            assert(wa[9 + n + o + i] == a.weights_in_res.data@[i]);
            assert(wb[9 + n + o + i] == b.weights_in_res.data@[i]);
        }
    }
    assert(a.weights_res_res.data@ =~= b.weights_res_res.data@) by {
        assert forall|i: int| 0 <= i < a.weights_res_res.data@.len() implies a.weights_res_res.data@[i]
            == b.weights_res_res.data@[i] by {
            assert(wa[9 + n + o + ni + i] == a.weights_res_res.data@[i]);
            assert(wb[9 + n + o + ni + i] == b.weights_res_res.data@[i]);
        }
    }
    assert(a.weights_out_res.data@ =~= b.weights_out_res.data@) by {
        assert forall|i: int| 0 <= i < a.weights_out_res.data@.len() implies a.weights_out_res.data@[i]
            == b.weights_out_res.data@[i] by {
            assert(wa[9 + n + o + ni + nn + i] == a.weights_out_res.data@[i]);
            assert(wb[9 + n + o + ni + nn + i] == b.weights_out_res.data@[i]);
        }
    }
    assert(a.weights_res_out.data@ =~= b.weights_res_out.data@) by {
        assert forall|i: int| 0 <= i < a.weights_res_out.data@.len() implies a.weights_res_out.data@[i]
            == b.weights_res_out.data@[i] by {
            assert(wa[9 + n + o + ni + nn + no + i] == a.weights_res_out.data@[i]);
            assert(wb[9 + n + o + ni + nn + no + i] == b.weights_res_out.data@[i]);
        }
    }
    assert(a.bias_res@ =~= b.bias_res@) by {
        assert forall|i: int| 0 <= i < a.bias_res@.len() implies a.bias_res@[i] == b.bias_res@[i]
            by {
            assert(wa[9 + n + o + ni + nn + no + on + i] == a.bias_res@[i]);
            assert(wb[9 + n + o + ni + nn + no + on + i] == b.bias_res@[i]);
        }
    }
    assert(a.bias_out@ =~= b.bias_out@) by {
        assert forall|i: int| 0 <= i < a.bias_out@.len() implies a.bias_out@[i] == b.bias_out@[i]
            by {
            assert(wa[9 + n + o + ni + nn + no + on + n + i] == a.bias_out@[i]);
            assert(wb[9 + n + o + ni + nn + no + on + n + i] == b.bias_out@[i]);
        }
    }
}

} // verus!
