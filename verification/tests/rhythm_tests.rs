use robodrummer::rhythm::{euclidean, gendata, EucledeanArgs, RhythmAlgorithm, RhythmPattern};

#[test]
fn euclidean_three_over_eight() {
    let p = euclidean(8, 3);
    assert_eq!(
        p.0,
        vec![true, false, false, true, false, false, true, false]
    );
}

#[test]
fn euclidean_five_over_sixteen() {
    let p = euclidean(16, 5);
    assert_eq!(p.0.len(), 16);
    assert_eq!(p.0.iter().filter(|&&b| b).count(), 5);
}

#[test]
fn euclidean_all_onsets() {
    let p = euclidean(4, 4);
    assert_eq!(p.0, vec![true, true, true, true]);
}

#[test]
fn euclidean_single_onset() {
    let p = euclidean(7, 1);
    assert_eq!(p.0.len(), 7);
    assert_eq!(p.0.iter().filter(|&&b| b).count(), 1);
}

#[test]
fn pattern_new_is_silent() {
    let p = RhythmPattern::new(5);
    assert_eq!(p.0, vec![false; 5]);
    assert_eq!(p.len(), 5);
}

#[test]
fn rotation_shifts_left() {
    let mut p = RhythmPattern(vec![true, false, false, true, false]);
    p.rotation(3);
    // slot j takes the value of slot (j + 3) mod 5
    assert_eq!(p.0, vec![true, false, true, false, false]);
}

#[test]
fn rotation_by_length_is_identity() {
    let mut p = RhythmPattern(vec![true, false, true]);
    p.rotation(3);
    assert_eq!(p.0, vec![true, false, true]);
}

#[test]
fn gendata_generates_each_pattern() {
    let alg = RhythmAlgorithm::Euclidean(EucledeanArgs {
        n: vec![8, 16],
        k: vec![3, 5],
    });
    let patterns = gendata(&alg);
    assert_eq!(patterns.len(), 2);
    assert_eq!(patterns[0].0.len(), 8);
    assert_eq!(patterns[0].0.iter().filter(|&&b| b).count(), 3);
    assert_eq!(patterns[1].0.len(), 16);
    assert_eq!(patterns[1].0.iter().filter(|&&b| b).count(), 5);
}
