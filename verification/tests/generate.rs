//! Sampling from a text model, and the built-in tasks.

use transformer::blackbox::{by_name, projectile, sum};
use transformer::generate::{argmax, is_greedy, keep_top, Need, Rollout};
use transformer::single::Single;

fn s(v: f32) -> Single {
    Single { bits: v.to_bits() }
}

fn list(values: &[f32]) -> Vec<Single> {
    values.iter().map(|&v| s(v)).collect()
}

#[test]
fn greedy_choice_takes_the_first_largest_score() {
    assert_eq!(argmax(&list(&[0.5, 2.0, 2.0, -1.0])), 1);
    assert_eq!(argmax(&list(&[-3.0])), 0);
    assert_eq!(argmax(&list(&[f32::NAN, 1.0])), 0);
}

#[test]
fn no_temperature_means_the_greedy_choice() {
    assert!(is_greedy(s(0.0)));
    assert!(is_greedy(s(-1.0)));
    assert!(!is_greedy(s(0.8)));
}

#[test]
fn only_the_largest_scores_stay() {
    let kept = keep_top(&list(&[1.0, 3.0, 2.0, 3.0]), 2);
    let kept: Vec<f32> = kept.iter().map(|v| f32::from_bits(v.bits)).collect();
    assert_eq!(kept, vec![f32::NEG_INFINITY, 3.0, f32::NEG_INFINITY, 3.0]);
    let all = keep_top(&list(&[1.0, 3.0]), 0);
    assert_eq!(f32::from_bits(all[0].bits), 1.0);
    let many = keep_top(&list(&[1.0, 3.0]), 9);
    assert_eq!(f32::from_bits(many[0].bits), 1.0);
}

#[test]
fn a_rollout_goes_on_in_blocks_until_enough_was_drawn() {
    let mut run = Rollout::new(vec![7, 8, 9], 5, 2, 3);
    let mut encoded = Vec::new();
    let mut scored = Vec::new();
    let mut next = 100;
    loop {
        match run.need() {
            Need::Encode(context) => {
                encoded.push(context);
                run.encoded();
            }
            Need::Score(dec) => {
                scored.push(dec);
                run.drawn(next);
                next += 1;
            }
            Need::Done => break,
        }
    }
    assert_eq!(run.output(), vec![100, 101, 102, 103, 104]);
    assert_eq!(encoded, vec![vec![8, 9], vec![101, 102]]);
    assert_eq!(scored[0], vec![9]);
    assert_eq!(scored[1], vec![9, 100]);
    assert_eq!(scored.len(), 5);
}

#[test]
fn tasks_are_found_by_their_names() {
    for name in ["sum", "product", "sine", "polynomial", "projectile"] {
        assert_eq!(by_name(name).unwrap().name, name);
    }
    assert!(by_name("Sum").is_none());
    assert_eq!(sum().n_inputs(), 2);
    assert_eq!(sum().n_outputs, 1);
    let task = projectile();
    assert_eq!(task.n_inputs(), 2);
    assert_eq!(task.n_outputs, 1);
    let ends: Vec<(f32, f32)> = task
        .input_ranges
        .iter()
        .map(|r| (f32::from_bits(r.0.bits), f32::from_bits(r.1.bits)))
        .collect();
    assert_eq!(ends, vec![(1.0, 10.0), (0.1, 1.5)]);
}
