/*!
 * RoboDrummer: a real-time musical accompaniment library.
 *
 * A human plays a controller; the system infers their tempo from onset
 * timestamps, runs a trained echo-state network to produce a rhythmic-feel
 * prediction, and schedules quantized, delay-compensated output events
 * (drum beats, arpeggio notes, or continuous-controller values).
 *
 * Time is measured in integer microseconds or milliseconds, frequency in
 * integer milli-BPM (one thousandth of a beat per minute), and network
 * activations in integer millionths, so that every rule in the pipeline is
 * stated and checked exactly. The surrounding binary converts at the edges
 * where devices speak in seconds and IEEE floating point.
 */

pub mod activation;
pub mod arpeggio;
pub mod combine;
pub mod commands;
pub mod data;
pub mod errors;
pub mod guier;
pub mod messages;
pub mod midi;
pub mod reservoir;
pub mod rhythm;
pub mod runner;
pub mod spectrum;
pub mod utils;
pub mod window;
