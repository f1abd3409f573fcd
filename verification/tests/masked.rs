//! Masked language modelling: batches, corruption, and what is scored.
use rand::rngs::StdRng;
use rand::{Rng, SeedableRng};
use rusting_brain::batch::TokenBatch;
use rusting_brain::corruption::{Corruption, Fate, Wanted};
use rusting_brain::error::NetworkError;
use rusting_brain::masked_lm::{masked_targets, MaskedBatch};

/// Corrupts sequences with a seeded generator.
fn corrupt(
    sequences: &[Vec<u32>],
    vocab_size: usize,
    mask_id: u32,
    probability: f32,
    seed: u64,
) -> Result<MaskedBatch, NetworkError> {
    let fraction = if (0.0..=1.0).contains(&probability) {
        Ok(())
    } else {
        Err(format!("{probability}"))
    };
    let mut corruption: Corruption =
        MaskedBatch::corrupt(&sequences.to_vec(), vocab_size, mask_id, fraction)?;
    let mut rng = StdRng::seed_from_u64(seed);
    loop {
        match corruption.wanted() {
            Wanted::Coin => corruption.coin(rng.gen_range(0.0..1.0f32) < probability),
            Wanted::Position(length) => corruption.place(rng.gen_range(0..length)),
            Wanted::Roll => {
                let roll = rng.gen_range(0.0..1.0f32);
                corruption.roll(if roll < 0.8 {
                    Fate::Mask
                } else if roll < 0.9 {
                    Fate::Replace
                } else {
                    Fate::Keep
                });
            }
            Wanted::Token => corruption.token(rng.gen_range(0..vocab_size as u32)),
            Wanted::Nothing => return Ok(corruption.finish()),
        }
    }
}

fn message(error: NetworkError) -> String {
    match error {
        NetworkError::InvalidConfig(message) => message,
        other => format!("{other:?}"),
    }
}

#[test]
fn corruption_keeps_the_targets_and_marks_what_it_changed() {
    let sequences = [vec![3u32, 4, 5, 6, 7, 8, 9, 10]];
    let batch = corrupt(&sequences, 32, 1, 0.5, 4).unwrap();

    assert_eq!(batch.targets(), &sequences[0][..]);
    assert!(batch.masked() > 1);
    for row in 0..batch.inputs().rows() {
        if !batch.is_masked(row) {
            // An untouched position reads exactly what it was.
            assert_eq!(batch.inputs().ids()[row], batch.targets()[row]);
        }
    }
    // Most masked positions became the mask id, and none of the ids left the
    // vocabulary.
    let masked_positions = (0..batch.inputs().rows()).filter(|&row| batch.is_masked(row));
    assert!(masked_positions.clone().any(|row| batch.inputs().ids()[row] == 1));
    assert!(masked_positions.map(|row| batch.inputs().ids()[row]).all(|id| id < 32));
}

#[test]
fn every_sequence_gets_a_masked_position_even_at_probability_zero() {
    let batch = corrupt(&[vec![3u32, 4], vec![5, 6], vec![7, 8]], 16, 0, 0.0, 1).unwrap();

    assert_eq!(batch.masked(), 3);
    for sequence in 0..3 {
        let base = sequence * batch.inputs().seq_len();
        assert!((base..base + 2).any(|row| batch.is_masked(row)));
    }
}

#[test]
fn padding_cannot_be_a_target_and_a_short_batch_still_masks_real_tokens() {
    let sequences = vec![vec![3u32, 4, 5, 6], vec![7, 8]];
    let batch = corrupt(&sequences, 16, 1, 1.0, 2).unwrap();
    // Four rows per sequence, but the second sequence has two real tokens.
    assert_eq!(batch.masked(), 6);

    let inputs = TokenBatch::new(&sequences).unwrap();
    let mut masked = vec![false; inputs.rows()];
    masked[7] = true; // padding
    let error = message(MaskedBatch::new(inputs, &vec![0; 8], &masked).unwrap_err());
    assert!(error.contains("padding"), "{error}");
    assert_eq!(error, "row 7 is padding, so it cannot be a masked target");
}

#[test]
fn the_loss_scores_masked_positions_only() {
    let inputs = TokenBatch::new(&vec![vec![1u32, 1, 1]]).unwrap();
    let batch = MaskedBatch::new(inputs, &vec![2, 0, 1], &vec![false, true, false]).unwrap();

    assert_eq!(masked_targets(3, &batch).unwrap(), vec![None, Some(0), None]);
    assert_eq!(batch.masked(), 1);
    // The last row has a target here, which a causal loss never gives it.
    let last = MaskedBatch::new(
        TokenBatch::new(&vec![vec![1u32, 1, 1]]).unwrap(),
        &vec![2, 0, 1],
        &vec![false, false, true],
    )
    .unwrap();
    assert_eq!(masked_targets(3, &last).unwrap(), vec![None, None, Some(1)]);
}

#[test]
fn logits_of_another_height_are_refused() {
    let inputs = TokenBatch::new(&vec![vec![1u32, 1, 1]]).unwrap();
    let batch = MaskedBatch::new(inputs, &vec![2, 0, 1], &vec![false, true, false]).unwrap();
    assert!(matches!(
        masked_targets(4, &batch),
        Err(NetworkError::InvalidTarget { expected: 4, actual: 3 })
    ));
}

#[test]
fn a_corruption_that_cannot_start_says_why() {
    let sequences = [vec![3u32, 4]];
    assert!(matches!(
        corrupt(&sequences, 4, 4, 0.5, 1),
        Err(NetworkError::TokenOutOfRange { id: 4, vocab_size: 4 })
    ));
    assert_eq!(
        message(corrupt(&sequences, 4, 1, 1.5, 1).unwrap_err()),
        "a masking probability is a fraction, got 1.5"
    );
    assert_eq!(
        message(corrupt(&[vec![]], 4, 1, 0.5, 1).unwrap_err()),
        "a batch needs at least one sequence, and every sequence a token"
    );
}

#[test]
fn a_masked_batch_of_the_wrong_size_is_refused() {
    let inputs = TokenBatch::new(&vec![vec![1u32, 2]]).unwrap();
    assert_eq!(
        message(MaskedBatch::new(inputs, &vec![1], &vec![true, false, true]).unwrap_err()),
        "a masked batch of 2 rows needs 2 targets and 2 flags, got 1 and 3"
    );
    let inputs = TokenBatch::new(&vec![vec![1u32, 2]]).unwrap();
    assert_eq!(
        message(MaskedBatch::new(inputs, &vec![1, 2], &vec![false, false]).unwrap_err()),
        "a masked batch with no masked position has nothing to learn from"
    );
}

#[test]
fn the_draws_of_a_corruption_come_in_order() {
    let mut corruption = MaskedBatch::corrupt(&vec![vec![5, 6], vec![7]], 9, 0, Ok(())).unwrap();
    assert_eq!(corruption.wanted(), Wanted::Coin);
    corruption.coin(false);
    corruption.coin(false);
    // Nothing was chosen, so a position is asked for.
    assert_eq!(corruption.wanted(), Wanted::Position(2));
    corruption.place(1);
    assert_eq!(corruption.wanted(), Wanted::Roll);
    corruption.roll(Fate::Replace);
    assert_eq!(corruption.wanted(), Wanted::Token);
    corruption.token(8);
    corruption.coin(true);
    corruption.roll(Fate::Keep);
    assert_eq!(corruption.wanted(), Wanted::Nothing);
    let batch = corruption.finish();
    assert_eq!(batch.inputs().ids(), &vec![5, 8, 7, 0]);
    assert_eq!(batch.targets(), &[5, 6, 7, 0]);
    assert!(!batch.is_masked(0) && batch.is_masked(1) && batch.is_masked(2) && !batch.is_masked(3));
}

#[test]
fn equal_seeds_corrupt_equally() {
    let sequences = [vec![3u32, 4, 5, 6, 7, 8], vec![9, 10, 11]];
    for seed in 0..8 {
        let (a, b) = (
            corrupt(&sequences, 32, 1, 0.4, seed).unwrap(),
            corrupt(&sequences, 32, 1, 0.4, seed).unwrap(),
        );
        assert_eq!(a.inputs().ids(), b.inputs().ids());
        for row in 0..a.inputs().rows() {
            assert_eq!(a.is_masked(row), b.is_masked(row));
        }
    }
}
