use robodrummer::activation::Activation;
use robodrummer::messages::{
    feel_frame_bytes, feel_frame_word, tempo_frame_bytes, tempo_frame_word, MessageError,
    MidiNoteMessage,
};
use robodrummer::reservoir::{Matrix, Reservoir};

#[test]
fn note_message_frames_are_exact() {
    let m = MidiNoteMessage::InputNotes(vec![1, 2]);
    assert_eq!(
        m.to_bytes(),
        vec![0, 0, 0, 0, 2, 0, 0, 0, 0, 0, 0, 0, 1, 2]
    );
    let out = MidiNoteMessage::OutputNote;
    assert_eq!(out.to_bytes(), vec![1, 0, 0, 0]);
}

#[test]
fn note_message_round_trip() {
    let m = MidiNoteMessage::InputNotes(vec![60, 64, 67]);
    let bytes = m.to_bytes();
    match MidiNoteMessage::from_bytes(&bytes).unwrap() {
        MidiNoteMessage::InputNotes(notes) => assert_eq!(notes, vec![60, 64, 67]),
        MidiNoteMessage::OutputNote => panic!("wrong variant"),
    }
    let bytes = MidiNoteMessage::OutputNote.to_bytes();
    assert!(matches!(
        MidiNoteMessage::from_bytes(&bytes),
        Ok(MidiNoteMessage::OutputNote)
    ));
}

#[test]
fn note_message_rejects_malformed_frames() {
    assert_eq!(
        MidiNoteMessage::from_bytes(&[]),
        Err(MessageError::Malformed)
    );
    assert_eq!(
        MidiNoteMessage::from_bytes(&[9, 0, 0, 0]),
        Err(MessageError::Malformed)
    );
    // a count that disagrees with the payload
    assert_eq!(
        MidiNoteMessage::from_bytes(&[0, 0, 0, 0, 5, 0, 0, 0, 0, 0, 0, 0, 1, 2]),
        Err(MessageError::Malformed)
    );
    // a truncated frame
    assert_eq!(
        MidiNoteMessage::from_bytes(&[0, 0, 0, 0, 2, 0]),
        Err(MessageError::Malformed)
    );
}

#[test]
fn message_is_input() {
    assert!(MidiNoteMessage::InputNotes(vec![60]).is_input());
    assert!(!MidiNoteMessage::OutputNote.is_input());
}

fn small_reservoir() -> Reservoir {
    // 3 neurons, 1 input, 2 outputs, readout over the first 2 neurons
    let bits = |x: f64| x.to_bits();
    Reservoir {
        state: vec![bits(0.25), bits(-1.5), bits(0.0)],
        output: vec![bits(0.5), bits(-0.125)],
        weights_in_res: Matrix {
            rows: 3,
            cols: 1,
            data: vec![bits(1.0), bits(0.1), bits(-0.7)],
        },
        weights_res_res: Matrix {
            rows: 3,
            cols: 3,
            data: (0..9).map(|i| bits(i as f64 * 0.11)).collect(),
        },
        weights_out_res: Matrix {
            rows: 3,
            cols: 2,
            data: (0..6).map(|i| bits(-0.2 * i as f64)).collect(),
        },
        weights_res_out: Matrix {
            rows: 2,
            cols: 3,
            data: (0..6).map(|i| bits(0.31 * i as f64)).collect(),
        },
        bias_res: vec![bits(0.0); 3],
        bias_out: vec![bits(0.01), bits(0.02)],
        size: 3,
        visible_count: 2,
        inputs: 1,
        outputs: 2,
        activation: Activation::Tanh,
        leak_rate_bits: bits(0.1),
        learning_rate_bits: bits(0.05),
        warm_up: 50,
        regularization_bits: bits(0.01),
    }
}

#[test]
fn reservoir_codec_round_trip_is_bit_identical() {
    let m = small_reservoir();
    let bytes = m.to_bytes();
    let back = Reservoir::from_bytes(&bytes).expect("decode failed");
    assert_eq!(back.size, m.size);
    assert_eq!(back.visible_count, m.visible_count);
    assert_eq!(back.inputs, m.inputs);
    assert_eq!(back.outputs, m.outputs);
    assert_eq!(back.warm_up, m.warm_up);
    assert_eq!(back.activation, m.activation);
    assert_eq!(back.leak_rate_bits, m.leak_rate_bits);
    assert_eq!(back.learning_rate_bits, m.learning_rate_bits);
    assert_eq!(back.regularization_bits, m.regularization_bits);
    assert_eq!(back.state, m.state);
    assert_eq!(back.output, m.output);
    assert_eq!(back.weights_in_res.data, m.weights_in_res.data);
    assert_eq!(back.weights_res_res.data, m.weights_res_res.data);
    assert_eq!(back.weights_out_res.data, m.weights_out_res.data);
    assert_eq!(back.weights_res_out.data, m.weights_res_out.data);
    assert_eq!(back.bias_res, m.bias_res);
    assert_eq!(back.bias_out, m.bias_out);
    // and the round trip reproduces the frame itself
    assert_eq!(back.to_bytes(), bytes);
}

#[test]
fn reservoir_rejects_malformed_frames() {
    assert!(Reservoir::from_bytes(&[]).is_err());
    let m = small_reservoir();
    let mut bytes = m.to_bytes();
    // truncation
    bytes.pop();
    assert!(Reservoir::from_bytes(&bytes).is_err());
    // an impossible size word
    let mut bytes = m.to_bytes();
    bytes[0] = 0xFF;
    bytes[1] = 0xFF;
    bytes[2] = 0xFF;
    assert!(Reservoir::from_bytes(&bytes).is_err());
}

#[test]
fn reservoir_state_methods_keep_shape() {
    let mut m = small_reservoir();
    m.reset_state();
    assert_eq!(m.state, vec![0u64; 3]);
    assert_eq!(m.output, vec![0u64; 2]);
    m.apply_step(vec![1, 2, 3], vec![4, 5]);
    assert_eq!(m.state.len(), m.size);
    assert_eq!(m.output.len(), m.outputs);
    assert_eq!(m.get_output(0), 4);
    assert_eq!(m.get_output(1), 5);
}

#[test]
fn activation_tags_round_trip() {
    for a in [
        Activation::Tanh,
        Activation::ReLu,
        Activation::Sigmoid,
        Activation::Linear,
    ] {
        assert_eq!(Activation::from_tag(a.tag()), Some(a));
    }
    assert_eq!(Activation::from_tag(7), None);
}

#[test]
fn tempo_frames_are_big_endian_words() {
    let hz = 2.0f64;
    let frame = tempo_frame_bytes(hz.to_bits());
    // the frame is the eight big-endian bytes of the word
    assert_eq!(frame, hz.to_be_bytes().to_vec());
    let word = tempo_frame_word(&frame).unwrap();
    assert_eq!(f64::from_bits(word), 2.0);
    assert!(tempo_frame_word(&frame[..7]).is_err());
}

#[test]
fn feel_frames_are_big_endian_words() {
    let value = -0.25f32;
    let frame = feel_frame_bytes(value.to_bits());
    assert_eq!(frame, value.to_be_bytes().to_vec());
    let word = feel_frame_word(&frame).unwrap();
    assert_eq!(f32::from_bits(word), -0.25);
    assert!(feel_frame_word(&[1, 2, 3]).is_err());
}
