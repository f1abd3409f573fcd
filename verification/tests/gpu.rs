//! What a device is told: precisions, budgets, targets, chunks and flags.
use rusting_brain::batch::TokenBatch;
use rusting_brain::device::{
    capped, rmsnorm_smem, tile, Buffer, Factor, Grid, Kernel, Kind, Product, Step,
};
use rusting_brain::error::NetworkError;
use rusting_brain::gpu_attention::{forward, AttentionPlan, AttentionShape};
use rusting_brain::gpu_feed_forward::GatedPlan;
use rusting_brain::gpu_grouping::group_slots;
use rusting_brain::gpu_host_attention::mask_rows;
use rusting_brain::gpu_matrix::{gpu_dot, GpuMatrix};
use rusting_brain::gpu_model::{
    causal_targets, check_rows, device_of, embedding_of, head_chunk_rows, head_chunks, head_of,
    loss_targets, narrow_chunk, narrow_setup, norm_slot, norm_slots, predicted, row_flags,
    train_step, FeedForward, HeadPlan, Kept, NarrowPlan, StackPlan,
};
use rusting_brain::gpu_model_stack::{backward_from_final, forward_hidden, BlockPass};
use rusting_brain::gpu_shape::{
    accumulate_bias, add_bias, block_backward, moments, read_surface, BlockPlan, EncodePlan,
};
use rusting_brain::gpu_stack::{
    accumulate_host_grad, add_slots, device_params, encode_backward, encode_train_batch, repeated,
    sum_sequences, ShapeBlock, ShapeParams,
};
use rusting_brain::gpu_transformer::{
    act_precision, blas_config, check_budget, head_offsets, Compute, DeviceParam, Optimizer,
    Poison, Update, Width,
};
use rusting_brain::matrix::Matrix;

fn batch() -> TokenBatch {
    TokenBatch::new(&vec![vec![5, 6, 7], vec![8]]).unwrap()
}

#[test]
fn an_impossible_memory_budget_is_refused_before_any_upload() {
    // A million weights, each with its gradient and two moments.
    assert!(check_budget(1 << 20, 16).is_ok());
    assert!(matches!(
        check_budget((1 << 20) + 1, 16),
        Err(NetworkError::CudaMemoryBudget { estimated_mib: 17, budget_mib: 16 })
    ));
    assert!(matches!(
        check_budget(1 << 20, 1),
        Err(NetworkError::CudaMemoryBudget { estimated_mib: 16, budget_mib: 1 })
    ));
}

#[test]
fn a_batch_is_turned_into_flags_and_targets() {
    let (flags, valid) = row_flags(&batch(), 9).unwrap();
    assert_eq!(flags, vec![1, 1, 1, 1, 0, 0]);
    assert_eq!(valid, 4);
    assert!(matches!(
        row_flags(&batch(), 8),
        Err(NetworkError::TokenOutOfRange { id: 8, vocab_size: 8 })
    ));
    assert_eq!(causal_targets(&batch(), 9).unwrap(), vec![6, 7, -1, -1, -1, -1]);
    let (targets, count) = loss_targets(&batch(), 9).unwrap();
    assert_eq!(targets, vec![6, 7, -1, -1, -1, -1]);
    assert_eq!(count, 2);
    assert_eq!(predicted(&batch()), 2);
    assert!(matches!(check_rows(4, 5), Err(_)));
    assert!(check_rows(4, 4).is_ok());
}

#[test]
fn a_training_step_is_planned_in_chunks() {
    let plan = train_step(&batch(), 9, false).unwrap();
    assert_eq!(plan.targets, vec![6, 7, -1, -1, -1, -1]);
    assert_eq!(plan.predicted, 2);
    assert_eq!(plan.chunk, 6);
    assert_eq!(plan.chunks, vec![(0, 6)]);
    assert!(train_step(&batch(), 7, false).is_err());
    let lonely = TokenBatch::new(&vec![vec![5], vec![8]]).unwrap();
    assert!(train_step(&lonely, 9, false).is_err());
}

#[test]
fn a_head_is_cut_into_chunks_that_cover_its_rows() {
    assert_eq!(head_chunks(10, 4), vec![(0, 4), (4, 4), (8, 2)]);
    assert_eq!(head_chunks(0, 4), vec![]);
    assert_eq!(head_chunk_rows(10, 3, 4), 10);
    // A vocabulary whose logits fill the budget goes row by row.
    assert_eq!(head_chunk_rows(10, usize::MAX / 8, 4), 1);
    assert_eq!(head_chunk_rows(100_000, 32_768, 4), (256 << 20) / (32_768 * 4));
}

#[test]
fn a_narrow_head_keeps_its_last_chunk_short() {
    let head = HeadPlan::new(10, 3, 4, 8, 2);
    let plan = NarrowPlan::new(head, 4);
    let reserved: Vec<usize> = narrow_setup(&plan)
        .iter()
        .filter_map(|step| match step {
            Step::Reserve(_, len) => Some(*len),
            _ => None,
        })
        .collect();
    assert!(reserved.contains(&(4 * 3)) && reserved.contains(&(4 * 4)));
    for step in narrow_chunk(&plan) {
        if let Step::Heads { product, .. } = step {
            assert!(product.m <= 4 && product.n <= 4, "{product:?}");
        }
    }
}

#[test]
fn every_norm_has_a_slot() {
    assert_eq!(norm_slots(3), 7);
    assert_eq!(norm_slot(0), (1, 2));
    assert_eq!(norm_slot(2), (5, 6));
}

#[test]
fn what_is_not_on_the_device_is_said() {
    assert_eq!(device_of(Some(3)).unwrap(), 3);
    assert!(device_of::<u8>(None).is_err());
    assert!(embedding_of::<u8>(None).is_err());
    assert_eq!(head_of(Some(Some(3)), Some(4)).unwrap(), 3);
    assert_eq!(head_of(None, Some(4)).unwrap(), 4);
    assert!(head_of::<u8>(Some(None), Some(4)).is_err());
    assert!(head_of::<u8>(None, None).is_err());
}

#[test]
fn the_first_failure_is_the_one_reported() {
    let mut poison = Poison::new();
    assert!(poison.check().is_ok());
    assert_eq!(poison.guard(Ok(5), 0), 5);
    assert_eq!(poison.guard(Err("first".to_string()), 0), 0);
    poison.poison("second".to_string());
    match poison.check() {
        Err(NetworkError::Cuda(message)) => assert!(message.contains("first"), "{message}"),
        other => panic!("{other:?}"),
    }
    assert!(poison.check().is_ok());
}

#[test]
fn a_gradient_is_written_once_and_then_added_to() {
    let mut param = DeviceParam::new(3, 4, false);
    assert_eq!((param.rows(), param.cols()), (3, 4));
    assert_eq!(param.training_len(), 12);
    assert!(!param.has_grad());
    assert!(!param.grad_beta());
    assert!(param.grad_beta());
    assert!(param.has_grad());
    param.zero_grad();
    assert!(param.clear_grad());
    assert!(!param.clear_grad());
    let update = param.step(Optimizer::Adam, true).unwrap();
    assert_eq!(update, Some(Update { clear: false, rescale: true, optimizer: Optimizer::Adam }));
    let update = param.step(Optimizer::Sgd, false).unwrap();
    assert_eq!(update, Some(Update { clear: true, rescale: false, optimizer: Optimizer::Sgd }));
    assert!(matches!(
        param.step(Optimizer::Lion, false),
        Err(NetworkError::UnsupportedCuda(_))
    ));
    let mut frozen = DeviceParam::new(3, 4, true);
    assert!(frozen.is_frozen());
    assert_eq!(frozen.training_len(), 1);
    assert_eq!(frozen.step(Optimizer::Lion, false).unwrap(), None);
}

#[test]
fn precision_follows_the_operands() {
    let single = act_precision(false, false, false, false);
    assert_eq!((single.operand, single.compute), (Width::Single, Compute::Single));
    let fast = act_precision(false, false, false, true);
    assert_eq!(fast.compute, Compute::SingleFast);
    let brain = act_precision(true, true, false, true);
    assert_eq!((brain.operand, brain.result), (Width::Brain, Width::Brain));
    let half = act_precision(true, true, true, true);
    assert_eq!((half.compute, half.result), (Compute::Half, Width::Half));
    assert!(!half.tensor_hint);
}

#[test]
fn a_product_is_told_by_columns() {
    let product = Product {
        kind: Kind::RhsTransposed,
        factor: Factor::One,
        accumulate: false,
        m: 2,
        n: 3,
        k: 4,
        a: tile(Buffer::Input, 0, 4),
        b: tile(Buffer::QueryWeight, 0, 4),
        out: tile(Buffer::Output, 0, 3),
    };
    let config = blas_config(&product, 1);
    assert!(config.transa && !config.transb);
    assert_eq!((config.m, config.n, config.k), (3, 2, 4));
    assert_eq!((config.lda, config.ldb, config.ldc), (4, 4, 3));
    assert_eq!(head_offsets(&product, 2, 3), (0, 0, 0));

    let (a, b) = (GpuMatrix { rows: 2, cols: 4 }, GpuMatrix { rows: 4, cols: 3 });
    let plain = gpu_dot(a, b, GpuMatrix { rows: 2, cols: 3 });
    assert_eq!((plain.m, plain.n, plain.k), (3, 2, 4));
    assert_eq!((plain.lda, plain.ldb, plain.ldc), (3, 4, 3));
    assert!(!plain.transa && !plain.transb);
    assert!(a.allocation_failed("out of memory").contains("out of memory"));
}

#[test]
fn slots_are_grouped_by_expert() {
    let grouping = group_slots(&vec![2, 0, -1, -1, 0, 1], 3, 2);
    assert_eq!(grouping.counts, vec![2, 1, 1]);
    assert_eq!(grouping.offsets, vec![0, 2, 3]);
    assert_eq!(grouping.routed, 4);
    assert_eq!(grouping.token_of, vec![0, 2, 2, 0]);
    assert_eq!(grouping.slot_of, vec![1, 4, 5, 0]);
    assert_eq!(grouping.gates(&vec![10, 11, 12, 13, 14, 15], 0), vec![11, 14, 15, 10]);
    let nothing = group_slots(&vec![-1, -1], 3, 2);
    assert_eq!(nothing.routed, 0);
    assert_eq!(nothing.token_of, vec![0]);
    assert_eq!(nothing.gates(&vec![10, 11], 0), vec![0]);
}

#[test]
fn a_masked_row_sees_its_past_alone() {
    let scores = Matrix::from_vec(2, 4, vec![1, 2, 3, 4, 5, 6, 7, 8]);
    let masked = mask_rows(&scores, 1, 0, &|seen: Vec<i32>| {
        seen.iter().map(|v| v * 10).collect::<Vec<i32>>()
    });
    assert_eq!(masked.data, vec![10, 20, 0, 0, 50, 60, 70, 0]);
}

#[test]
fn a_fused_attention_is_one_launch() {
    let shape = AttentionShape {
        seq_len: 128,
        sequences: 2,
        d_model: 64,
        heads: 2,
        kv_heads: 1,
        head_dim: 32,
        fused: true,
    };
    let kernels = |steps: Vec<Step>| -> Vec<Kernel> {
        steps
            .iter()
            .filter_map(|step| match step {
                Step::Launch(launch) => Some(launch.kernel),
                _ => None,
            })
            .collect()
    };
    let fused = kernels(forward(&AttentionPlan::new(shape)));
    assert!(fused.contains(&Kernel::FusedAttention));
    assert!(!fused.contains(&Kernel::CausalSoftmaxLse));
    let plain = kernels(forward(&AttentionPlan::new(AttentionShape { fused: false, ..shape })));
    assert!(!plain.contains(&Kernel::FusedAttention));
    assert!(plain.contains(&Kernel::CausalSoftmaxLse));
}

#[test]
fn grids_are_capped_and_shared_memory_bounded() {
    assert_eq!(capped(0), 1);
    assert_eq!(capped(5), 5);
    assert_eq!(capped(1 << 40), 2048);
    assert_eq!(rmsnorm_smem(12_288), Some(49_152));
    assert_eq!(rmsnorm_smem(12_289), None);
    assert_eq!(rusting_brain::device::warp_per_row_grid(17), Grid::Blocks(3, 0));
}

// -- Stacks ----------------------------------------------------------------------

#[test]
fn an_encoder_runs_its_blocks_and_takes_them_back_in_reverse() {
    let plan = EncodePlan::new(2, 3, 2, 4, 5, 3, 3);
    let stages = encode_train_batch(&plan, 3);
    let order: Vec<Option<usize>> = stages.iter().map(|stage| stage.block).collect();
    assert_eq!(order, vec![None, Some(0), Some(1), Some(2), None]);
    assert_eq!(stages[0].steps, read_surface(&plan));
    assert_eq!(stages[4].steps, moments(&plan));

    let stages = encode_backward(&plan, 3);
    let order: Vec<Option<usize>> = stages.iter().map(|stage| stage.block).collect();
    assert_eq!(order, vec![None, Some(2), Some(1), Some(0), None]);
    // The gradients of a block's norms follow those of the blocks before it.
    let block = BlockPlan::new(2, 2, 4, 1, 3);
    assert_eq!((block.norm0, block.norm1), (12, 16));
    assert_eq!(stages[2].steps, block_backward(&block));
}

fn attention() -> AttentionPlan {
    AttentionPlan::new(AttentionShape {
        seq_len: 3,
        sequences: 2,
        d_model: 6,
        heads: 2,
        kv_heads: 1,
        head_dim: 4,
        fused: false,
    })
}

fn gated() -> FeedForward {
    FeedForward::SwiGlu(GatedPlan::new(
        6,
        6,
        5,
        Buffer::FeedForwardNormed,
        Buffer::Output,
        Buffer::GradOutput,
        Buffer::GradFeedForward,
    ))
}

#[test]
fn a_model_runs_stage_by_stage() {
    let stack = StackPlan::new(6, 6, 9, 2);
    let stages =
        forward_hidden(&batch(), 9, &stack, &attention(), 8, &vec![gated(), gated()]).unwrap();
    let order: Vec<Option<usize>> = stages.iter().map(|stage| stage.block).collect();
    assert_eq!(order, vec![None, Some(0), Some(1), None]);
    assert_eq!(stages[1].steps, stages[2].steps);

    let run = |vocab: usize, max: usize, layers: Vec<FeedForward>| {
        forward_hidden(&batch(), vocab, &stack, &attention(), max, &layers)
    };
    assert!(matches!(
        run(7, 2, vec![FeedForward::Gelu]),
        Err(NetworkError::TokenOutOfRange { id: 7, vocab_size: 7 })
    ));
    assert!(matches!(
        run(9, 2, vec![FeedForward::Gelu]),
        Err(NetworkError::SequenceTooLong { length: 3, max_seq_len: 2 })
    ));
    assert!(matches!(
        run(9, 8, vec![gated(), FeedForward::Gelu]),
        Err(NetworkError::UnsupportedCuda(_))
    ));
    assert_eq!(run(9, 2, vec![]).unwrap().len(), 2);
}

#[test]
fn a_model_is_taken_back_from_its_last_block() {
    let stack = StackPlan::new(6, 6, 9, 2);
    let pass = |feed_forward: FeedForward, kept: Kept| BlockPass {
        feed_forward,
        kept,
        grouping: group_slots(&Vec::new(), 1, 1),
        shared: None,
        balance: false,
    };
    let passes = vec![pass(gated(), Kept::Dense), pass(gated(), Kept::Dense)];
    let stages = backward_from_final(&stack, &attention(), &passes).unwrap();
    let order: Vec<Option<usize>> = stages.iter().map(|stage| stage.block).collect();
    assert_eq!(order, vec![None, Some(1), Some(0), None]);
    // The two blocks write the gradients of their norms to different slots.
    assert_ne!(stages[1].steps, stages[2].steps);

    // The last block's complaint comes first.
    let passes = vec![pass(FeedForward::Gelu, Kept::Dense), pass(gated(), Kept::Routed)];
    match backward_from_final(&stack, &attention(), &passes) {
        Err(NetworkError::Cuda(message)) => {
            assert_eq!(message, "the device cache does not match the layer that produced it")
        }
        other => panic!("{other:?}"),
    }
}

#[test]
fn sequences_share_their_queries_and_add_up_their_gradients() {
    let add = |a: i32, b: i32| a + b;
    assert_eq!(repeated(&vec![1, 2], 3), vec![1, 2, 1, 2, 1, 2]);
    let mut target = vec![10, 20];
    sum_sequences(&mut target, &vec![1, 2, 3, 4, 5, 6], 3, false, &add);
    assert_eq!(target, vec![19, 32]);
    sum_sequences(&mut target, &vec![1, 2, 3, 4, 5, 6], 3, true, &add);
    assert_eq!(target, vec![19, 32]);
    accumulate_host_grad(&mut target, &vec![1, 2, 3, 4, 5, 6], 4, &add);
    assert_eq!(target, vec![24, 38]);
    let mut rows = Matrix::new(3, 2, 0);
    add_slots(&mut rows, &Matrix::from_vec(2, 2, vec![1, 2, 3, 4]), &add);
    assert_eq!(rows.data, vec![1, 2, 3, 4, 1, 2]);
}

#[test]
fn the_distance_bias_shifts_every_distance_and_gathers_every_gradient() {
    let add = |a: f32, b: f32| a + b;
    assert_eq!(add_bias(&vec![1.0, -2.0, 0.5], 0.25, &add), vec![1.25, -1.75, 0.75]);
    assert_eq!(add_bias(&vec![], 0.25, &add), Vec::<f32>::new());
    let gradients = vec![1.0, 2.0, -0.5];
    assert_eq!(accumulate_bias(10.0, &gradients, false, 0.0, &add), 12.5);
    assert_eq!(accumulate_bias(10.0, &gradients, true, 0.0, &add), 10.0);
    assert_eq!(accumulate_bias(10.0, &vec![], false, 0.0, &add), 10.0);
}

#[test]
fn the_autoencoder_lists_its_encoder_before_its_decoder() {
    let params = ShapeParams {
        surface_in: vec![1],
        read_surface: vec![2, 3],
        blocks: vec![
            ShapeBlock { attention: vec![4], mlp: vec![5] },
            ShapeBlock { attention: vec![6], mlp: vec![7] },
        ],
        to_moments: vec![8],
        from_latent: vec![9],
        query_in: vec![10],
        read_latent: vec![11],
        decoder_mlp: vec![12],
        head: vec![13],
        color_head: vec![14],
    };
    assert_eq!(device_params(&params), (1..15).collect::<Vec<i32>>());
}
