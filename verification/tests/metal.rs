//! Training a dense network on a device: memory, batches, order, gradients.
use rusting_brain::error::NetworkError;
use rusting_brain::losses::{Activation, Loss};
use rusting_brain::metal_batch::{train_batch, Dispatch, Place};
use rusting_brain::metal_fit::{Action, Event, Fit};
use rusting_brain::metal_training::{
    act, allocated_bytes, checkpoint_bytes, dispatch_1d, dispatch_tiles, fit_batch, is_resident,
    metal_err, open_device, DenseLayer, MetalTrainingSession, MIB,
};
use rusting_brain::metal_update::{update, Launch, Optimizer, Part, Rates};
use std::collections::BTreeMap;

fn layers() -> Vec<DenseLayer> {
    vec![
        DenseLayer { inputs: 3, units: 4, activation: Activation::Tanh },
        DenseLayer { inputs: 4, units: 2, activation: Activation::Sigmoid },
    ]
}

fn session(rows: usize, batch: usize, shuffle: bool, seed: Option<u64>) -> MetalTrainingSession {
    MetalTrainingSession::new(
        &layers(),
        Loss::Mse,
        Ok(()),
        rows,
        (3, 2),
        batch,
        shuffle,
        seed,
        16,
        &|_: usize| Ok(1),
    )
    .unwrap()
}

#[test]
fn a_session_is_refused_for_each_reason() {
    let open = |layers: &Vec<DenseLayer>, loss, data, rows, budget| {
        MetalTrainingSession::new(
            layers,
            loss,
            data,
            rows,
            (3, 2),
            4,
            false,
            None,
            budget,
            &|batch: usize| Ok(batch),
        )
    };
    let nets = layers();
    assert!(matches!(
        open(&nets, Loss::Mse, Ok(()), 0, 16),
        Err(NetworkError::EmptyDataset)
    ));
    match open(&nets, Loss::CrossEntropy, Ok(()), 8, 16) {
        Err(NetworkError::UnsupportedMetal(message)) => {
            assert_eq!(message, "only MSE loss is implemented")
        }
        other => panic!("{other:?}"),
    }
    let soft = vec![DenseLayer { inputs: 3, units: 2, activation: Activation::Softmax }];
    match open(&soft, Loss::Mse, Ok(()), 8, 16) {
        Err(NetworkError::UnsupportedMetal(message)) => assert_eq!(message, "Softmax activation"),
        other => panic!("{other:?}"),
    }
    let bad = Err(NetworkError::InvalidInput { expected: 3, actual: 5 });
    assert!(matches!(
        open(&nets, Loss::Mse, bad, 8, 16),
        Err(NetworkError::InvalidInput { expected: 3, actual: 5 })
    ));
    assert!(matches!(
        open(&nets, Loss::Mse, Ok(()), 8, 0),
        Err(NetworkError::MetalMemoryBudget { estimated_mib: 1, budget_mib: 0 })
    ));
    let session = open(&nets, Loss::Mse, Ok(()), 8, 2).unwrap();
    assert_eq!(session.batch_size, 2);
    // The tensors alone fill the budget, so the rows are staged batch by batch.
    assert!(!session.resident);
    assert!(open(&nets, Loss::Mse, Ok(()), 8, 3).unwrap().resident);
    assert_eq!(session.order, vec![0, 1, 2, 3, 4, 5, 6, 7]);
}

#[test]
fn a_batch_is_halved_until_it_fits() {
    let estimate = |batch: usize| Ok(batch * 10);
    assert_eq!(fit_batch(7, 100, &estimate).unwrap(), 7);
    assert_eq!(fit_batch(7, 40, &estimate).unwrap(), 4);
    assert_eq!(fit_batch(7, 39, &estimate).unwrap(), 2);
    assert_eq!(fit_batch(7, 10, &estimate).unwrap(), 1);
    assert!(matches!(
        fit_batch(7, 9, &estimate),
        Err(NetworkError::MetalMemoryBudget { estimated_mib: 10, budget_mib: 9 })
    ));
    let failing = |_: usize| Err(NetworkError::EmptyDataset);
    assert!(matches!(fit_batch(7, 9, &failing), Err(NetworkError::EmptyDataset)));
}

#[test]
fn memory_is_counted() {
    // Two layers of 16 and 10 parameters, kept four times; six outputs a row,
    // kept twice; five numbers a row; one loss.
    let parameters = (16 + 10) * 4 * 4;
    let batch = 5 * 6 * 2 * 4 + (5 * 5 + 1) * 4;
    assert_eq!(allocated_bytes(&layers(), 5, 3, 2, 9, false), parameters + batch);
    let resident = 9 * 5 * 4 + 9 * 4;
    assert_eq!(allocated_bytes(&layers(), 5, 3, 2, 9, true), parameters + batch + resident);
    assert_eq!(checkpoint_bytes(&layers()), 26 * 12);
    assert!(is_resident(1, MIB, 2));
    assert!(!is_resident(1, MIB + 1, 2));
    assert!(is_resident(usize::MAX, 1, usize::MAX));
}

#[test]
fn every_element_gets_a_thread() {
    assert_eq!(dispatch_1d(0), None);
    assert_eq!(dispatch_1d(1), Some(1));
    assert_eq!(dispatch_1d(256), Some(1));
    assert_eq!(dispatch_1d(257), Some(2));
    assert_eq!(dispatch_1d(u64::MAX), Some(1 << 56));
    assert_eq!(dispatch_tiles(0, 5), None);
    assert_eq!(dispatch_tiles(5, 0), None);
    assert_eq!(dispatch_tiles(17, 32), Some((2, 2)));
    assert_eq!(dispatch_tiles(16, 33), Some((3, 1)));
}

#[test]
fn devices_and_activations_are_looked_up() {
    assert_eq!(open_device(vec!["a", "b"], 1).unwrap(), "b");
    match open_device(vec!["a"], 3) {
        Err(NetworkError::Metal(message)) => {
            assert_eq!(message, "no Metal device at index 3; this machine reports 1 device(s)")
        }
        other => panic!("{other:?}"),
    }
    match metal_err("pipeline", "no such function") {
        NetworkError::Metal(message) => assert_eq!(message, "pipeline failed: no such function"),
        other => panic!("{other:?}"),
    }
    let codes: Vec<i32> =
        [Activation::Linear, Activation::Relu, Activation::Sigmoid, Activation::Tanh]
            .map(|activation| act(activation).unwrap())
            .to_vec();
    assert_eq!(codes, vec![0, 1, 2, 3]);
}

// -- Order -----------------------------------------------------------------------

#[test]
fn an_epoch_covers_every_row_once() {
    let mut session = session(10, 4, true, Some(7));
    let batches = session.begin_epoch();
    assert_eq!(batches, vec![(0, 4), (4, 4), (8, 2)]);
    assert_ne!(session.order, (0..10).collect::<Vec<usize>>());
    let table: Vec<usize> = (0..10).flat_map(|row| [row, 100 + row]).collect();
    let mut seen: Vec<usize> = Vec::new();
    for (start, rows) in batches {
        let staged = session.stage_batch(start, rows, &table, 2);
        for pair in staged.chunks(2) {
            assert_eq!(pair[1], 100 + pair[0]);
            seen.push(pair[0]);
        }
    }
    assert_eq!(seen, session.order);
    seen.sort();
    assert_eq!(seen, (0..10).collect::<Vec<usize>>());
}

#[test]
fn a_seeded_session_resumes_where_it_stopped() {
    let mut whole = session(10, 4, true, Some(3));
    let mut orders = Vec::new();
    for _ in 0..3 {
        whole.begin_epoch();
        whole.end_epoch(true).unwrap();
        orders.push(whole.order.clone());
    }
    assert_eq!(whole.epoch(), 3);
    let mut resumed = session(10, 4, true, Some(3)).resume(2).unwrap();
    assert_eq!(resumed.epoch(), 2);
    assert_eq!(resumed.order, orders[1]);
    resumed.begin_epoch();
    assert_eq!(resumed.order, orders[2]);
    assert_ne!(orders[1], orders[2]);
    // Another seed shuffles otherwise.
    let mut other = session(10, 4, true, Some(4));
    other.begin_epoch();
    assert_ne!(other.order, orders[0]);
}

#[test]
fn an_unseeded_shuffle_cannot_be_resumed() {
    match session(10, 4, true, None).resume(2) {
        Err(NetworkError::InvalidCudaCheckpoint(message)) => {
            assert_eq!(message, "cannot deterministically resume an unseeded shuffle")
        }
        other => panic!("{other:?}"),
    }
    assert!(session(10, 4, true, None).resume(0).is_ok());
    let plain = session(10, 4, false, None).resume(5).unwrap();
    assert_eq!(plain.order, (0..10).collect::<Vec<usize>>());
    let mut chance = session(60, 4, true, None);
    chance.begin_epoch();
    let mut order = chance.order.clone();
    assert_ne!(order, (0..60).collect::<Vec<usize>>());
    order.sort();
    assert_eq!(order, (0..60).collect::<Vec<usize>>());
}

#[test]
fn an_epoch_whose_loss_is_not_finite_does_not_count() {
    let mut session = session(10, 4, false, None);
    session.begin_epoch();
    match session.end_epoch(false) {
        Err(NetworkError::Metal(message)) => {
            assert_eq!(message, "numerical preflight failed: non-finite loss")
        }
        other => panic!("{other:?}"),
    }
    assert_eq!(session.epoch(), 0);
}

// -- Gradients -------------------------------------------------------------------

type Memory = BTreeMap<String, Vec<f64>>;

fn name(place: Place) -> String {
    format!("{place:?}")
}

fn at(memory: &Memory, place: Place) -> &Vec<f64> {
    &memory[&name(place)]
}

fn activate(code: i32, x: f64) -> f64 {
    match code {
        0 => x,
        1 => x.max(0.0),
        2 => 1.0 / (1.0 + (-x).exp()),
        _ => x.tanh(),
    }
}

/// The slope of an activation, given what it made.
fn slope(code: i32, y: f64) -> f64 {
    match code {
        0 => 1.0,
        1 => (y > 0.0) as u8 as f64,
        2 => y * (1.0 - y),
        _ => 1.0 - y * y,
    }
}

/// Runs the dispatches of a batch, up to the update.
fn run(memory: &mut Memory, dispatches: &[Dispatch]) -> f64 {
    let mut loss = f64::NAN;
    for dispatch in dispatches {
        match *dispatch {
            Dispatch::ProductNt { out, a, b, m, n, k } => {
                let made = (0..m * n)
                    .map(|i| {
                        let (r, c) = (i / n, i % n);
                        (0..k).map(|l| at(memory, a)[r * k + l] * at(memory, b)[c * k + l]).sum()
                    })
                    .collect();
                memory.insert(name(out), made);
            }
            Dispatch::ProductTn { out, a, b, m, n, k } => {
                let made = (0..m * n)
                    .map(|i| {
                        let (r, c) = (i / n, i % n);
                        (0..k).map(|l| at(memory, a)[l * m + r] * at(memory, b)[l * n + c]).sum()
                    })
                    .collect();
                memory.insert(name(out), made);
            }
            Dispatch::ProductNn { out, a, b, m, n, k } => {
                let made = (0..m * n)
                    .map(|i| {
                        let (r, c) = (i / n, i % n);
                        (0..k).map(|l| at(memory, a)[r * k + l] * at(memory, b)[l * n + c]).sum()
                    })
                    .collect();
                memory.insert(name(out), made);
            }
            Dispatch::BiasAct { layer, rows, units, code } => {
                let biases = at(memory, Place::Biases(layer)).clone();
                let sums = memory.get_mut(&name(Place::Outputs(layer))).unwrap();
                assert_eq!(sums.len(), rows * units);
                for (i, value) in sums.iter_mut().enumerate() {
                    *value = activate(code, *value + biases[i % units]);
                }
            }
            Dispatch::OutputDelta { layer, count, code } => {
                let deltas = (0..count)
                    .map(|i| {
                        let made = at(memory, Place::Outputs(layer))[i];
                        (at(memory, Place::Target)[i] - made) * slope(code, made)
                    })
                    .collect();
                memory.insert(name(Place::Deltas(layer)), deltas);
            }
            Dispatch::BiasGradient { layer, rows, units } => {
                let deltas = at(memory, Place::Deltas(layer));
                let sums = (0..units)
                    .map(|u| (0..rows).map(|r| deltas[r * units + u]).sum())
                    .collect();
                memory.insert(name(Place::BiasGradient(layer)), sums);
            }
            Dispatch::ActDerivative { layer, count, code } => {
                let made = at(memory, Place::Outputs(layer)).clone();
                let deltas = memory.get_mut(&name(Place::Deltas(layer))).unwrap();
                for i in 0..count {
                    deltas[i] *= slope(code, made[i]);
                }
            }
            Dispatch::Update { .. } => {}
            Dispatch::LossSum { layer, count, batches } => {
                assert_eq!(batches, 1);
                loss = (0..count)
                    .map(|i| {
                        let made = at(memory, Place::Outputs(layer))[i];
                        (at(memory, Place::Target)[i] - made).powi(2) / 2.0
                    })
                    .sum();
            }
        }
    }
    loss
}

fn memory() -> Memory {
    let mut memory = Memory::new();
    let mut fill = |place: Place, count: usize, start: f64| {
        let values = (0..count).map(|i| (start + i as f64 * 1.7).sin() * 0.6).collect();
        memory.insert(name(place), values);
    };
    fill(Place::Input, 5 * 3, 0.1);
    fill(Place::Target, 5 * 2, 0.9);
    fill(Place::Weights(0), 4 * 3, 0.3);
    fill(Place::Biases(0), 4, 0.5);
    fill(Place::Weights(1), 2 * 4, 0.7);
    fill(Place::Biases(1), 2, 0.2);
    memory
}

#[test]
fn a_batch_moves_every_parameter_down_the_loss() {
    let dispatches = train_batch(&layers(), 3, 5, 1);
    let mut done = memory();
    run(&mut done, &dispatches);
    for (place, gradient) in [
        (Place::Weights(0), Place::WeightGradient(0)),
        (Place::Biases(0), Place::BiasGradient(0)),
        (Place::Weights(1), Place::WeightGradient(1)),
        (Place::Biases(1), Place::BiasGradient(1)),
    ] {
        let found = at(&done, gradient).clone();
        for (i, value) in found.iter().enumerate() {
            let loss = |by: f64| {
                let mut nudged = memory();
                nudged.get_mut(&name(place)).unwrap()[i] += by;
                run(&mut nudged, &dispatches)
            };
            let descent = -(loss(1e-4) - loss(-1e-4)) / 2e-4;
            assert!((value - descent).abs() < 1e-6, "{gradient:?} {i}: {value} {descent}");
        }
    }
    let updates = dispatches.iter().filter(|d| matches!(d, Dispatch::Update { .. })).count();
    assert_eq!(updates, 2);
}

#[test]
fn adam_counts_its_steps_and_leaves_biases_undecayed() {
    let correct = |beta: f32, step: usize| 1.0 - beta.powi(step as i32);
    let adam = Optimizer::Adam {
        learning_rate: 0.1f32,
        beta1: 0.5,
        beta2: 0.25,
        epsilon: 1e-8,
        weight_decay: 0.01,
    };
    let (steps, launches) = update(adam, 1, &layers(), 0.0, &correct);
    assert_eq!(steps, 2);
    let rates = |decay: f32| Rates::Adam {
        learning_rate: 0.1,
        beta1: 0.5,
        beta2: 0.25,
        epsilon: 1e-8,
        first: 0.75,
        second: 0.9375,
        decay,
    };
    assert_eq!(
        launches,
        vec![
            Launch { layer: 0, part: Part::Weights, count: 12, rates: rates(0.01) },
            Launch { layer: 0, part: Part::Biases, count: 4, rates: rates(0.0) },
            Launch { layer: 1, part: Part::Weights, count: 8, rates: rates(0.01) },
            Launch { layer: 1, part: Part::Biases, count: 2, rates: rates(0.0) },
        ]
    );
    let (steps, launches) =
        update(Optimizer::Sgd { learning_rate: 0.1 }, 1, &layers(), 0.0, &correct);
    assert_eq!(steps, 1);
    assert_eq!(launches.len(), 4);
    assert!(launches.iter().all(|l| l.rates == Rates::Sgd { learning_rate: 0.1 }));
}

/// Trains for so many epochs, the given one failing, and returns how many ran,
/// how often the network was written, and what came of it.
fn fit(epochs: usize, fails: usize) -> (usize, usize, Result<Vec<usize>, NetworkError>) {
    let (mut ran, mut written) = (0, 0);
    let mut action = Fit::start(epochs);
    loop {
        action = match action {
            Action::Train(fit) => {
                ran += 1;
                fit.step(Event::Trained(if ran == fails {
                    Err(NetworkError::EmptyDataset)
                } else {
                    Ok(ran * 10)
                }))
            }
            Action::Write(fit) => {
                written += 1;
                fit.step(Event::Written(Ok(())))
            }
            Action::Finish(outcome) => return (ran, written, outcome),
        };
    }
}

#[test]
fn the_network_is_written_once_after_the_last_epoch() {
    let (ran, written, outcome) = fit(3, 0);
    assert_eq!((ran, written), (3, 1));
    assert_eq!(outcome.unwrap(), vec![10, 20, 30]);
    let (ran, written, outcome) = fit(0, 0);
    assert_eq!((ran, written), (0, 1));
    assert!(outcome.unwrap().is_empty());
    let (ran, written, outcome) = fit(3, 2);
    assert_eq!((ran, written), (2, 0));
    assert!(matches!(outcome, Err(NetworkError::EmptyDataset)));
    let unwritten = Fit { epochs: 1, losses: vec![1] };
    let action = unwritten.step(Event::Written(Err(NetworkError::EmptyDataset)));
    assert!(matches!(action, Action::Finish(Err(NetworkError::EmptyDataset))));
}

#[test]
fn an_ordered_session_resumes_whatever_its_seed() {
    let mut resumed = session(4, 2, false, Some(u64::MAX)).resume(3).unwrap();
    assert_eq!(resumed.epoch(), 3);
    assert_eq!(resumed.begin_epoch(), vec![(0, 2), (2, 2)]);
    assert_eq!(resumed.order, vec![0, 1, 2, 3]);
}
