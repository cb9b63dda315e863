use robodrummer::commands::{BrokerMode, MidiBrokerArgs, TrainMode};
use robodrummer::data::{data_metadata_string, model_metadata_string, DataMeta, ModelMeta};
use robodrummer::errors::NeuronError;
use robodrummer::guier::{decimal_string, Text};
use robodrummer::midi::MidiError;

#[test]
fn decimal_rendering() {
    assert_eq!(decimal_string(0), "0");
    assert_eq!(decimal_string(7), "7");
    assert_eq!(decimal_string(120), "120");
    assert_eq!(decimal_string(98765), "98765");
    assert_eq!(decimal_string(u64::MAX), "18446744073709551615");
}

#[test]
fn text_rows_hold_their_value() {
    let mut row = Text::new("BPM", "120");
    assert_eq!(row.description, "BPM");
    assert_eq!(row.value, "120");
    row.update("121");
    assert_eq!(row.value, "121");
}

#[test]
fn neuron_error_messages() {
    assert_eq!(
        NeuronError::IndexOutOfRange(3, 2).message(),
        "Index was out of range: idx: 3 and ln: 2"
    );
    assert_eq!(
        NeuronError::ModelNotFound("good".to_string()).message(),
        "Model `good` does not exist."
    );
    assert_eq!(
        NeuronError::CantCreateMidiOut.message(),
        "Can't create a midi output port..."
    );
}

#[test]
fn midi_error_messages() {
    assert_eq!(
        MidiError::DeviceNotFound("pad".to_string()).message(),
        "Device pad not found"
    );
    assert_eq!(MidiError::PortNotOpen.message(), "Port is not available");
}

#[test]
fn broker_filter_descriptions() {
    let args = MidiBrokerArgs {
        port: 6543,
        mode: BrokerMode::Chord,
        chord_size: 3,
        channel: Some(10),
        device: None,
    };
    assert_eq!(args.channel_str(), "channel 10");
    assert_eq!(args.mode_str(), "chords of size 3");
    let single = MidiBrokerArgs {
        port: 6543,
        mode: BrokerMode::Single,
        chord_size: 3,
        channel: None,
        device: None,
    };
    assert_eq!(single.channel_str(), "all channels");
    assert_eq!(single.mode_str(), "single notes");
}

#[test]
fn model_metadata_rendering() {
    let meta = ModelMeta {
        size: 100,
        mode: TrainMode::Inv,
        euler: false,
        data: "default".to_string(),
    };
    let text = model_metadata_string(Some(&meta));
    assert!(text.contains("size: \x1b[38;5;216m100"));
    assert!(text.contains("pseudo inverse"));
    assert!(text.contains("Random ESN"));
    assert!(text.contains("dataset: \x1b[38;5;216mdefault"));
    assert_eq!(model_metadata_string(None), "NO METADATA");
}

#[test]
fn data_metadata_rendering() {
    let meta = DataMeta {
        algorithm: "Euclidean".to_string(),
        euclidean: true,
        k: "[3]".to_string(),
        n: "[8]".to_string(),
        bpm: "120".to_string(),
        variance: "5".to_string(),
        scale: 1,
    };
    let text = data_metadata_string(Some(&meta));
    assert!(text.contains("algorithm: \x1b[38;5;216mEuclidean"));
    assert!(text.contains("- k: \x1b[38;5;70m[3]"));
    assert!(text.contains("- n: \x1b[38;5;70m[8]"));
    assert!(text.contains("bpm: \x1b[38;5;216m120"));
    assert!(text.contains("scale: \x1b[38;5;216m1"));
    assert_eq!(data_metadata_string(None), "NO METADATA");
}

#[test]
fn train_mode_labels() {
    assert_eq!(TrainMode::Inv.label(), "pseudo inverse");
    assert_eq!(TrainMode::Grad.label(), "MSE gradient descent");
}
