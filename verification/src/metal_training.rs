//! Training a dense network on a Metal device: what such a session accepts,
//! which rows each batch holds, and the dispatches of a batch.
use crate::error::{Fault, NetworkError};
use crate::gpu_model::{chunks_from, head_chunks};
use crate::losses::{Activation, Loss};
use crate::text::{decimal, with_text, with_two_numbers};
use rand::rngs::StdRng;
use rand::seq::SliceRandom;
use rand::SeedableRng;
use vstd::prelude::*;

verus! {

/// Threads per threadgroup for the element-wise kernels.
pub const LANES: u64 = 256;

/// Tile edge for the matrix kernels.
pub const TILE: u64 = 16;

/// Bytes in a mebibyte.
pub const MIB: usize = 1048576;

// -- Failures ------------------------------------------------------------------

/// A failure that Metal reported at some stage.
pub fn metal_err(stage: &str, reported: &str) -> (error: NetworkError)
    ensures
        error@ == Fault::Metal(stage@ + " failed: "@ + reported@),
{
    NetworkError::Metal(with_text(stage, " failed: ", reported))
}

/// The device at an index of those there are.
pub fn open_device<T>(devices: Vec<T>, index: usize) -> (device: Result<T, NetworkError>)
    ensures
        match device {
            Ok(device) => index < devices@.len() && device == devices@[index as int],
            Err(error) => index >= devices@.len() && error@ == Fault::Metal(
                "no Metal device at index "@ + decimal(index as nat) + "; this machine reports "@
                    + decimal(devices@.len()) + " device(s)"@,
            ),
        },
{
    let count: usize = devices.len();
    if index >= count {
        return Err(
            NetworkError::Metal(
                with_two_numbers(
                    "no Metal device at index ",
                    index as u64,
                    "; this machine reports ",
                    count as u64,
                    " device(s)",
                ),
            ),
        );
    }
    let mut devices = devices;
    Ok(devices.swap_remove(index))
}

/// The code a kernel knows an activation by.
pub fn act(activation: Activation) -> (code: Result<i32, NetworkError>)
    ensures
        match code {
            Ok(code) => activation != Activation::Softmax && code == act_code(activation),
            Err(error) => activation == Activation::Softmax && error@ == Fault::UnsupportedMetal(
                "Softmax activation"@,
            ),
        },
{
    match activation {
        Activation::Linear => Ok(0),
        Activation::Relu => Ok(1),
        Activation::Sigmoid => Ok(2),
        Activation::Tanh => Ok(3),
        Activation::Softmax => Err(
            NetworkError::UnsupportedMetal("Softmax activation".to_string()),
        ),
    }
}

/// The code a kernel knows an activation by.
pub open spec fn act_code(activation: Activation) -> int {
    match activation {
        Activation::Linear => 0,
        Activation::Relu => 1,
        Activation::Sigmoid => 2,
        _ => 3,
    }
}

// -- Dispatches ----------------------------------------------------------------

/// The threadgroups that give each of so many elements a thread, if there are
/// any.
pub fn dispatch_1d(elements: u64) -> (groups: Option<u64>)
    ensures
        match groups {
            Some(groups) => elements > 0 && (groups - 1) * LANES < elements <= groups * LANES,
            None => elements == 0,
        },
{
    if elements == 0 {
        return None;
    }
    let whole: u64 = elements / LANES;
    if elements % LANES == 0 {
        Some(whole)
    } else {
        Some(whole + 1)
    }
}

/// The threadgroups, across and down, that give each entry of an `[m, n]`
/// matrix a thread, if it has any.
pub fn dispatch_tiles(m: u64, n: u64) -> (groups: Option<(u64, u64)>)
    ensures
        match groups {
            Some(groups) => {
                &&& m > 0 && n > 0
                &&& (groups.0 - 1) * TILE < n <= groups.0 * TILE
                &&& (groups.1 - 1) * TILE < m <= groups.1 * TILE
            },
            None => m == 0 || n == 0,
        },
{
    if m == 0 || n == 0 {
        return None;
    }
    let across: u64 = if n % TILE == 0 {
        n / TILE
    } else {
        n / TILE + 1
    };
    let down: u64 = if m % TILE == 0 {
        m / TILE
    } else {
        m / TILE + 1
    };
    Some((across, down))
}

// -- Memory --------------------------------------------------------------------

/// A layer of a dense network: its inputs, its outputs, and what it does to
/// its sums.
#[derive(Clone, Copy, Debug, PartialEq, Eq, Structural)]
pub struct DenseLayer {
    pub inputs: usize,
    pub units: usize,
    pub activation: Activation,
}

/// So many mebibytes in bytes, or as many as can be counted.
pub open spec fn mib_bytes(mib: int) -> int {
    if mib * 1048576 > usize::MAX {
        usize::MAX as int
    } else {
        mib * 1048576
    }
}

fn saturating_mib(mib: usize) -> (bytes: usize)
    ensures
        bytes == mib_bytes(mib as int),
{
    match mib.checked_mul(MIB) {
        Some(bytes) => bytes,
        None => usize::MAX,
    }
}

/// Whether a dataset fits beside the tensors of a batch.
pub fn is_resident(estimated_mib: usize, dataset_bytes: usize, budget_mib: usize) -> (resident: bool)
    ensures
        resident == (mib_bytes(estimated_mib as int) + dataset_bytes <= mib_bytes(
            budget_mib as int,
        ) || mib_bytes(budget_mib as int) == usize::MAX),
{
    let tensors: usize = saturating_mib(estimated_mib);
    let budget: usize = saturating_mib(budget_mib);
    match tensors.checked_add(dataset_bytes) {
        Some(total) => total <= budget,
        None => budget == usize::MAX,
    }
}

/// Whether a batch is what halving leads to, until its tensors fit the budget;
/// or why there is none.
pub open spec fn is_fitted<F: Fn(usize) -> Result<usize, NetworkError>>(
    estimate: F,
    budget_mib: usize,
    batch: usize,
    fitted: Result<usize, NetworkError>,
) -> bool
    decreases batch,
{
    exists|estimated: Result<usize, NetworkError>|
        {
            &&& #[trigger] call_ensures(estimate, (batch,), estimated)
            &&& match estimated {
                Err(error) => fitted == Err::<usize, NetworkError>(error),
                Ok(mib) => if mib <= budget_mib {
                    fitted == Ok::<usize, NetworkError>(batch)
                } else if batch <= 1 {
                    is_refused(estimate, budget_mib, fitted)
                } else {
                    is_fitted(estimate, budget_mib, ((batch + 1) / 2) as usize, fitted)
                },
            }
        }
}

/// Whether an error says that not even one row fits the budget.
pub open spec fn is_refused<F: Fn(usize) -> Result<usize, NetworkError>>(
    estimate: F,
    budget_mib: usize,
    fitted: Result<usize, NetworkError>,
) -> bool {
    exists|estimated: Result<usize, NetworkError>|
        {
            &&& #[trigger] call_ensures(estimate, (1usize,), estimated)
            &&& match estimated {
                Err(error) => fitted == Err::<usize, NetworkError>(error),
                Ok(mib) => fitted == Err::<usize, NetworkError>(
                    NetworkError::MetalMemoryBudget { estimated_mib: mib, budget_mib },
                ),
            }
        }
}

/// The rows of a batch: as many as asked for, halved until the tensors fit the
/// budget. `estimate` says how many mebibytes a batch's tensors take.
pub fn fit_batch<F: Fn(usize) -> Result<usize, NetworkError>>(
    asked: usize,
    budget_mib: usize,
    estimate: &F,
) -> (fitted: Result<usize, NetworkError>)
    requires
        asked > 0,
        forall|batch: usize| batch > 0 ==> #[trigger] call_requires(*estimate, (batch,)),
    ensures
        is_fitted(*estimate, budget_mib, asked, fitted),
        fitted is Ok ==> 0 < fitted->Ok_0 <= asked,
    decreases asked,
{
    match estimate(asked) {
        Err(error) => Err(error),
        Ok(mib) => {
            if mib <= budget_mib {
                return Ok(asked);
            }
            if asked == 1 {
                let refused = match estimate(1) {
                    Err(error) => Err(error),
                    Ok(mib) => Err(
                        NetworkError::MetalMemoryBudget { estimated_mib: mib, budget_mib },
                    ),
                };
                assert(is_refused(*estimate, budget_mib, refused));
                return refused;
            }
            let half: usize = if asked % 2 == 0 {
                asked / 2
            } else {
                asked / 2 + 1
            };
            assert(half == ((asked + 1) / 2) as usize);
            fit_batch(half, budget_mib, estimate)
        },
    }
}

/// The bytes of everything the first `k` layers keep on the device for batches
/// of so many rows: four buffers for each parameter, and two for each output.
pub open spec fn layer_bytes(layers: Seq<DenseLayer>, batch: int, k: int) -> int
    decreases k,
{
    if k <= 0 {
        0
    } else {
        layer_bytes(layers, batch, k - 1) + ((layers[k - 1].inputs * layers[k - 1].units
            + layers[k - 1].units) * 4 + batch * layers[k - 1].units * 2) * 4
    }
}

/// The bytes a session keeps on the device: its layers, a batch of inputs and
/// targets, the loss, and the dataset where it is resident.
pub open spec fn session_bytes(
    layers: Seq<DenseLayer>,
    batch: int,
    input_width: int,
    target_width: int,
    rows: int,
    resident: bool,
) -> int {
    layer_bytes(layers, batch, layers.len() as int) + (batch * input_width + batch * target_width
        + 1) * 4 + if resident {
        (rows * input_width + rows * target_width) * 4 + rows * 4
    } else {
        0
    }
}

/// The bytes a session keeps on the device.
pub fn allocated_bytes(
    layers: &Vec<DenseLayer>,
    batch: usize,
    input_width: usize,
    target_width: usize,
    rows: usize,
    resident: bool,
) -> (bytes: usize)
    requires
        session_bytes(
            layers@,
            batch as int,
            input_width as int,
            target_width as int,
            rows as int,
            resident,
        ) <= usize::MAX,
    ensures
        bytes == session_bytes(
            layers@,
            batch as int,
            input_width as int,
            target_width as int,
            rows as int,
            resident,
        ),
{
    proof {
        lemma_bytes_count(layers@, batch as int, layers@.len() as int);
        assert(0 <= batch * input_width && 0 <= batch * target_width && 0 <= rows * input_width
            && 0 <= rows * target_width) by (nonlinear_arith);
    }
    let mut bytes: usize = 0;
    let mut i: usize = 0;
    while i < layers.len()
        invariant
            i <= layers@.len(),
            bytes == layer_bytes(layers@, batch as int, i as int),
            layer_bytes(layers@, batch as int, layers@.len() as int) <= usize::MAX,
        decreases layers.len() - i,
    {
        let layer = layers[i];
        proof {
            lemma_bytes_grow(layers@, batch as int, i + 1, layers@.len() as int);
            let (n, u, b) = (layer.inputs as int, layer.units as int, batch as int);
            assert(0 <= n * u && 0 <= b * u) by (nonlinear_arith)
                requires
                    0 <= n,
                    0 <= u,
                    0 <= b,
            ;
            lemma_bytes_count(layers@, batch as int, i as int);
        }
        let parameters: usize = layer.inputs * layer.units + layer.units;
        bytes = bytes + (parameters * 4 + batch * layer.units * 2) * 4;
        i = i + 1;
    }
    let staged: usize = (batch * input_width + batch * target_width + 1) * 4;
    let dataset: usize = if resident {
        (rows * input_width + rows * target_width) * 4 + rows * 4
    } else {
        0
    };
    bytes + staged + dataset
}

/// The bytes of a checkpoint: the values of the first `k` layers' parameters
/// and their two moments.
pub open spec fn saved_bytes(layers: Seq<DenseLayer>, k: int) -> int
    decreases k,
{
    if k <= 0 {
        0
    } else {
        saved_bytes(layers, k - 1) + (layers[k - 1].inputs * layers[k - 1].units
            + layers[k - 1].units) * 12
    }
}

/// The bytes of a checkpoint.
pub fn checkpoint_bytes(layers: &Vec<DenseLayer>) -> (bytes: usize)
    requires
        saved_bytes(layers@, layers@.len() as int) <= usize::MAX,
    ensures
        bytes == saved_bytes(layers@, layers@.len() as int),
{
    let mut bytes: usize = 0;
    let mut i: usize = 0;
    while i < layers.len()
        invariant
            i <= layers@.len(),
            bytes == saved_bytes(layers@, i as int),
            saved_bytes(layers@, layers@.len() as int) <= usize::MAX,
        decreases layers.len() - i,
    {
        let layer = layers[i];
        proof {
            lemma_saved_grow(layers@, i + 1, layers@.len() as int);
            assert(0 <= layer.inputs * layer.units) by (nonlinear_arith);
        }
        bytes = bytes + (layer.inputs * layer.units + layer.units) * 12;
        i = i + 1;
    }
    bytes
}

proof fn lemma_saved_grow(layers: Seq<DenseLayer>, k: int, m: int)
    requires
        0 <= k <= m <= layers.len(),
    ensures
        saved_bytes(layers, k) <= saved_bytes(layers, m),
    decreases m - k,
{
    if k < m {
        lemma_saved_grow(layers, k, m - 1);
        assert(0 <= layers[m - 1].inputs * layers[m - 1].units) by (nonlinear_arith);
    }
}

proof fn lemma_bytes_count(layers: Seq<DenseLayer>, batch: int, k: int)
    requires
        0 <= batch,
        0 <= k <= layers.len(),
    ensures
        0 <= layer_bytes(layers, batch, k),
    decreases k,
{
    if k > 0 {
        lemma_bytes_count(layers, batch, k - 1);
        let (n, u) = (layers[k - 1].inputs as int, layers[k - 1].units as int);
        assert(0 <= n * u && 0 <= batch * u) by (nonlinear_arith)
            requires
                0 <= n,
                0 <= u,
                0 <= batch,
        ;
    }
}

proof fn lemma_bytes_grow(layers: Seq<DenseLayer>, batch: int, k: int, m: int)
    requires
        0 <= batch,
        0 <= k <= m <= layers.len(),
    ensures
        layer_bytes(layers, batch, k) <= layer_bytes(layers, batch, m),
    decreases m - k,
{
    if k < m {
        lemma_bytes_grow(layers, batch, k, m - 1);
        let (n, u) = (layers[m - 1].inputs as int, layers[m - 1].units as int);
        assert(0 <= n * u && 0 <= batch * u) by (nonlinear_arith)
            requires
                0 <= n,
                0 <= u,
                0 <= batch,
        ;
    }
}

// -- Sessions ------------------------------------------------------------------

/// The list that a shuffle seeded with a number leaves of a list.
pub uninterp spec fn shuffled(order: Seq<usize>, seed: u64) -> Seq<usize>;

/// `SliceRandom::shuffle` with a `StdRng` made by `seed_from_u64`. The list it
/// leaves is a function of the list and the seed, and holds what the list held.
#[verifier::external_body]
fn shuffle_seeded(order: &Vec<usize>, seed: u64) -> (result: Vec<usize>)
    ensures
        result@ == shuffled(order@, seed),
        result@.to_multiset() == order@.to_multiset(),
{
    let mut result = order.clone();
    result.shuffle(&mut StdRng::seed_from_u64(seed));
    result
}

/// `SliceRandom::shuffle` with the thread's own generator. The list it leaves
/// holds what the list held; in which order rests on chance.
#[verifier::external_body]
fn shuffle_by_chance(order: &Vec<usize>) -> (result: Vec<usize>)
    ensures
        result@.to_multiset() == order@.to_multiset(),
{
    let mut result = order.clone();
    result.shuffle(&mut rand::thread_rng());
    result
}

/// The rows as the dataset has them.
pub open spec fn in_order(rows: nat) -> Seq<usize> {
    Seq::new(rows, |i: int| i as usize)
}

/// The order of the rows after so many seeded epochs.
pub open spec fn order_after(rows: nat, seed: int, epochs: int) -> Seq<usize>
    decreases epochs,
{
    if epochs <= 0 {
        in_order(rows)
    } else {
        shuffled(order_after(rows, seed, epochs - 1), (seed + epochs - 1) as u64)
    }
}

/// A training session, as far as the host decides it: which rows come in which
/// order, in batches of what size, and how many epochs are done.
#[derive(Debug)]
pub struct MetalTrainingSession {
    pub rows: usize,
    pub order: Vec<usize>,
    pub shuffle: bool,
    pub seed: Option<u64>,
    pub batch_size: usize,
    pub epoch: usize,
    pub resident: bool,
}

/// Whether a list holds each of the first numbers once.
pub open spec fn is_arrangement(order: Seq<usize>, rows: nat) -> bool {
    order.to_multiset() == in_order(rows).to_multiset()
}

impl MetalTrainingSession {
    /// Whether the order is one of the rows there are.
    pub open spec fn wf(&self) -> bool {
        &&& self.rows > 0
        &&& 0 < self.batch_size <= self.rows
        &&& is_arrangement(self.order@, self.rows as nat)
    }

    /// Starts a session. `data` is the error of the first row that does not
    /// fit the network, if one does not; `estimate` says how many mebibytes
    /// the tensors of a batch take.
    pub fn new<F: Fn(usize) -> Result<usize, NetworkError>>(
        layers: &Vec<DenseLayer>,
        loss: Loss,
        data: Result<(), NetworkError>,
        rows: usize,
        widths: (usize, usize),
        batch_size: usize,
        shuffle: bool,
        seed: Option<u64>,
        budget_mib: usize,
        estimate: &F,
    ) -> (session: Result<MetalTrainingSession, NetworkError>)
        requires
            forall|batch: usize| batch > 0 ==> #[trigger] call_requires(*estimate, (batch,)),
            forall|batch: usize, resident: bool|
                0 < batch <= rows ==> #[trigger] session_bytes(
                    layers@,
                    batch as int,
                    widths.0 as int,
                    widths.1 as int,
                    rows as int,
                    resident,
                ) <= usize::MAX,
            (rows * widths.0 + rows * widths.1) * 4 + rows * 4 <= usize::MAX,
        ensures
            is_opened(
                layers@,
                loss,
                data,
                rows,
                widths,
                batch_size,
                shuffle,
                seed,
                budget_mib,
                *estimate,
                session,
            ),
            session is Ok ==> session->Ok_0.wf(),
    {
        if rows == 0 {
            return Err(NetworkError::EmptyDataset);
        }
        match loss {
            Loss::Mse => {},
            _ => return Err(
                NetworkError::UnsupportedMetal("only MSE loss is implemented".to_string()),
            ),
        }
        let mut i: usize = 0;
        while i < layers.len()
            invariant
                i <= layers@.len(),
                rows > 0,
                loss == Loss::Mse,
                forall|k: int|
                    0 <= k < i ==> (#[trigger] layers@[k]).activation != Activation::Softmax,
            decreases layers.len() - i,
        {
            match act(layers[i].activation) {
                Ok(_) => {},
                Err(error) => {
                    assert(layers@[i as int].activation == Activation::Softmax);
                    assert(has_softmax(layers@));
                    return Err(error);
                },
            }
            i = i + 1;
        }
        match data {
            Ok(()) => {},
            Err(error) => return Err(error),
        }
        let asked: usize = first_batch(batch_size, rows);
        let batch: usize = match fit_batch(asked, budget_mib, estimate) {
            Ok(batch) => batch,
            Err(error) => return Err(error),
        };
        let tensors: usize = match estimate(batch) {
            Ok(tensors) => tensors,
            Err(error) => return Err(error),
        };
        proof {
            assert(0 <= rows * widths.0 && 0 <= rows * widths.1) by (nonlinear_arith);
        }
        let bytes: usize = (rows * widths.0 + rows * widths.1) * 4 + rows * 4;
        let resident: bool = is_resident(tensors, bytes, budget_mib);
        assert(session_bytes(
            layers@,
            batch as int,
            widths.0 as int,
            widths.1 as int,
            rows as int,
            resident,
        ) <= usize::MAX);
        let peak: usize = allocated_bytes(layers, batch, widths.0, widths.1, rows, resident);
        if peak > saturating_mib(budget_mib) {
            let whole: usize = peak / MIB;
            let estimated_mib: usize = if peak % MIB == 0 {
                whole
            } else {
                whole + 1
            };
            return Err(NetworkError::MetalMemoryBudget { estimated_mib, budget_mib });
        }
        let order = first_order(rows);
        Ok(
            MetalTrainingSession {
                rows,
                order,
                shuffle,
                seed,
                batch_size: batch,
                epoch: 0,
                resident,
            },
        )
    }

    /// Restores a session after so many epochs: the order of the rows is
    /// brought to where those epochs left it.
    pub fn resume(self, completed_epochs: usize) -> (session: Result<
        MetalTrainingSession,
        NetworkError,
    >)
        requires
            self.wf(),
            self.order@ == in_order(self.rows as nat),
            self.shuffle && self.seed is Some ==> self.seed->Some_0 + completed_epochs <= u64::MAX,
        ensures
            match session {
                Ok(session) => {
                    &&& session.wf()
                    &&& !self.shuffle || self.seed is Some || completed_epochs == 0
                    &&& session.epoch == completed_epochs
                    &&& session.rows == self.rows
                    &&& session.shuffle == self.shuffle
                    &&& session.seed == self.seed
                    &&& session.batch_size == self.batch_size
                    &&& session.resident == self.resident
                    &&& session.order@ == if self.shuffle && self.seed is Some {
                        order_after(
                            self.rows as nat,
                            self.seed->Some_0 as int,
                            completed_epochs as int,
                        )
                    } else {
                        self.order@
                    }
                },
                Err(error) => {
                    &&& self.shuffle && self.seed is None && completed_epochs > 0
                    &&& error@ == Fault::InvalidCudaCheckpoint(
                        "cannot deterministically resume an unseeded shuffle"@,
                    )
                },
            },
    {
        let mut session = self;
        if session.shuffle && completed_epochs > 0 {
            let seed: u64 = match session.seed {
                Some(seed) => seed,
                None => return Err(
                    NetworkError::InvalidCudaCheckpoint(
                        "cannot deterministically resume an unseeded shuffle".to_string(),
                    ),
                ),
            };
            let mut epoch: usize = 0;
            while epoch < completed_epochs
                invariant
                    epoch <= completed_epochs,
                    seed + completed_epochs <= u64::MAX,
                    session.wf(),
                    session == (MetalTrainingSession { order: session.order, ..self }),
                    session.order@ == order_after(self.rows as nat, seed as int, epoch as int),
                decreases completed_epochs - epoch,
            {
                let order = shuffle_seeded(&session.order, seed + epoch as u64);
                session.order = order;
                epoch = epoch + 1;
            }
        }
        session.epoch = completed_epochs;
        Ok(session)
    }

    /// Starts an epoch: shuffles the rows where the session does, and gives
    /// the batches, each its first row and its length.
    pub fn begin_epoch(&mut self) -> (batches: Vec<(usize, usize)>)
        requires
            old(self).wf(),
            old(self).shuffle && old(self).seed is Some ==> old(self).seed->Some_0 + old(self).epoch
                <= u64::MAX,
        ensures
            final(self).wf(),
            *final(self) == (MetalTrainingSession { order: final(self).order, ..*old(self) }),
            !old(self).shuffle ==> final(self).order@ == old(self).order@,
            old(self).shuffle && old(self).seed is Some ==> final(self).order@ == shuffled(
                old(self).order@,
                (old(self).seed->Some_0 + old(self).epoch) as u64,
            ),
            batches@ == chunks_from(0, old(self).rows as int, old(self).batch_size as int),
    {
        if self.shuffle {
            let order = match self.seed {
                Some(seed) => shuffle_seeded(&self.order, seed + self.epoch as u64),
                None => shuffle_by_chance(&self.order),
            };
            self.order = order;
        }
        head_chunks(self.rows, self.batch_size)
    }

    /// Ends an epoch. One whose loss is not finite does not count.
    pub fn end_epoch(&mut self, finite: bool) -> (ended: Result<(), NetworkError>)
        requires
            old(self).wf(),
            old(self).epoch < usize::MAX,
        ensures
            match ended {
                Ok(()) => finite && *final(self) == (MetalTrainingSession {
                    epoch: (old(self).epoch + 1) as usize,
                    ..*old(self)
                }),
                Err(error) => !finite && *final(self) == *old(self) && error@ == Fault::Metal(
                    "numerical preflight failed: non-finite loss"@,
                ),
            },
    {
        if !finite {
            return Err(
                NetworkError::Metal("numerical preflight failed: non-finite loss".to_string()),
            );
        }
        self.epoch = self.epoch + 1;
        Ok(())
    }

    /// How many epochs are done.
    pub fn epoch(&self) -> (epoch: usize)
        ensures
            epoch == self.epoch,
    {
        self.epoch
    }

    /// The rows of a batch, one after another, out of a table of rows of
    /// `width` numbers each.
    pub fn stage_batch<T: Copy>(&self, start: usize, rows: usize, table: &Vec<T>, width: usize) -> (
    staged: Vec<T>)
        requires
            self.wf(),
            start + rows <= self.rows,
            table@.len() == self.rows * width,
        ensures
            staged@.len() == rows * width,
            forall|r: int, c: int|
                0 <= r < rows && 0 <= c < width ==> staged@[#[trigger] cell(width as int, r, c)]
                    == table@[cell(width as int, self.order@[start + r] as int, c)],
    {
        proof {
            lemma_arranged(self.order@, self.rows as nat);
        }
        let total: usize = table.len();
        let mut staged: Vec<T> = Vec::new();
        let mut r: usize = 0;
        assert(0 * width == 0);
        while r < rows
            invariant
                r <= rows,
                start + rows <= self.rows,
                self.order@.len() == self.rows,
                forall|i: int|
                    0 <= i < self.order@.len() ==> (#[trigger] self.order@[i]) < self.rows,
                total == table@.len() == self.rows * width,
                staged@.len() == r * width,
                forall|k: int, c: int|
                    0 <= k < r && 0 <= c < width ==> staged@[#[trigger] cell(width as int, k, c)]
                        == table@[cell(width as int, self.order@[start + k] as int, c)],
            decreases rows - r,
        {
            let row: usize = self.order[start + r];
            proof {
                let (i, n, w) = (row as int, self.rows as int, width as int);
                assert(0 <= i * w && i * w + w <= n * w) by (nonlinear_arith)
                    requires
                        0 <= i < n,
                        0 <= w,
                ;
            }
            let from: usize = row * width;
            let mut c: usize = 0;
            while c < width
                invariant
                    c <= width,
                    r < rows,
                    start + rows <= self.rows,
                    row == self.order@[start + r],
                    from == row * width,
                    from + width <= table@.len(),
                    table@.len() <= usize::MAX,
                    staged@.len() == r * width + c,
                    forall|k: int, d: int|
                        (0 <= k < r && 0 <= d < width) || (k == r && 0 <= d < c)
                            ==> staged@[#[trigger] cell(width as int, k, d)] == table@[cell(
                            width as int,
                            self.order@[start + k] as int,
                            d,
                        )],
                decreases width - c,
            {
                let ghost before = staged@;
                staged.push(table[from + c]);
                proof {
                    assert forall|k: int, d: int|
                        (0 <= k < r && 0 <= d < width) || (k == r && 0 <= d < c + 1) implies staged@[
                    #[trigger] cell(width as int, k, d)] == table@[cell(
                        width as int,
                        self.order@[start + k] as int,
                        d,
                    )] by {
                        let w = width as int;
                        if k < r {
                            assert(0 <= k * w && k * w + w <= r * w) by (nonlinear_arith)
                                requires
                                    0 <= k < r,
                                    0 <= w,
                            ;
                            assert(staged@[cell(w, k, d)] == before[cell(w, k, d)]);
                        } else if d < c {
                            assert(staged@[cell(w, k, d)] == before[cell(w, k, d)]);
                        }
                    }
                }
                c = c + 1;
            }
            assert((r + 1) * width == r * width + width) by (nonlinear_arith);
            r = r + 1;
        }
        staged
    }
}

/// Where an entry of a table stands.
pub open spec fn cell(width: int, r: int, c: int) -> int {
    r * width + c
}

/// The rows a session's first batch is asked to hold.
fn first_batch(batch_size: usize, rows: usize) -> (batch: usize)
    requires
        rows > 0,
    ensures
        batch == first_batch_rows(batch_size, rows),
        0 < batch <= rows,
{
    let batch: usize = if batch_size == 0 {
        1
    } else {
        batch_size
    };
    if batch > rows {
        rows
    } else {
        batch
    }
}

/// The rows a session's first batch is asked to hold: at least one, and no
/// more than there are.
pub open spec fn first_batch_rows(batch_size: usize, rows: usize) -> usize {
    let batch = if batch_size == 0 {
        1
    } else {
        batch_size
    };
    if batch > rows {
        rows
    } else {
        batch
    }
}

fn first_order(rows: usize) -> (order: Vec<usize>)
    ensures
        order@ == in_order(rows as nat),
{
    let mut order: Vec<usize> = Vec::new();
    let mut i: usize = 0;
    while i < rows
        invariant
            i <= rows,
            order@ == Seq::new(i as nat, |i: int| i as usize),
        decreases rows - i,
    {
        order.push(i);
        i = i + 1;
        assert(order@ =~= Seq::new(i as nat, |i: int| i as usize));
    }
    order
}

/// Whether a layer's activation has no kernel.
pub open spec fn has_softmax(layers: Seq<DenseLayer>) -> bool {
    exists|i: int| 0 <= i < layers.len() && (#[trigger] layers[i]).activation == Activation::Softmax
}

/// Whether a session was opened, or refused for the first reason there is.
pub open spec fn is_opened<F: Fn(usize) -> Result<usize, NetworkError>>(
    layers: Seq<DenseLayer>,
    loss: Loss,
    data: Result<(), NetworkError>,
    rows: usize,
    widths: (usize, usize),
    batch_size: usize,
    shuffle: bool,
    seed: Option<u64>,
    budget_mib: usize,
    estimate: F,
    session: Result<MetalTrainingSession, NetworkError>,
) -> bool {
    if rows == 0 {
        session is Err && session->Err_0@ == Fault::EmptyDataset
    } else if loss != Loss::Mse {
        session is Err && session->Err_0@ == Fault::UnsupportedMetal(
            "only MSE loss is implemented"@,
        )
    } else if has_softmax(layers) {
        session is Err && session->Err_0@ == Fault::UnsupportedMetal("Softmax activation"@)
    } else if data is Err {
        session is Err && session->Err_0 == data->Err_0
    } else {
        exists|fitted: Result<usize, NetworkError>|
            {
                &&& #[trigger] is_fitted(
                    estimate,
                    budget_mib,
                    first_batch_rows(batch_size, rows),
                    fitted,
                )
                &&& match fitted {
                    Err(error) => session is Err && session->Err_0 == error,
                    Ok(batch) => is_opened_with(
                        layers,
                        rows,
                        widths,
                        batch,
                        shuffle,
                        seed,
                        budget_mib,
                        estimate,
                        session,
                    ),
                }
            }
    }
}

/// Whether a session was opened with batches of so many rows, or refused.
pub open spec fn is_opened_with<F: Fn(usize) -> Result<usize, NetworkError>>(
    layers: Seq<DenseLayer>,
    rows: usize,
    widths: (usize, usize),
    batch: usize,
    shuffle: bool,
    seed: Option<u64>,
    budget_mib: usize,
    estimate: F,
    session: Result<MetalTrainingSession, NetworkError>,
) -> bool {
    exists|estimated: Result<usize, NetworkError>|
        {
            &&& #[trigger] call_ensures(estimate, (batch,), estimated)
            &&& match estimated {
                Err(error) => session is Err && session->Err_0 == error,
                Ok(mib) => {
                    let dataset = (rows * widths.0 + rows * widths.1) * 4 + rows * 4;
                    let resident = mib_bytes(mib as int) + dataset <= mib_bytes(budget_mib as int)
                        || mib_bytes(budget_mib as int) == usize::MAX;
                    let peak = session_bytes(
                        layers,
                        batch as int,
                        widths.0 as int,
                        widths.1 as int,
                        rows as int,
                        resident,
                    );
                    match session {
                        Ok(session) => {
                            &&& peak <= mib_bytes(budget_mib as int)
                            &&& session.rows == rows
                            &&& session.order@ == in_order(rows as nat)
                            &&& session.shuffle == shuffle
                            &&& session.seed == seed
                            &&& session.batch_size == batch
                            &&& session.epoch == 0
                            &&& session.resident == resident
                        },
                        Err(error) => {
                            &&& peak > mib_bytes(budget_mib as int)
                            &&& error@ == (Fault::MetalMemoryBudget {
                                estimated_mib: ((peak + 1048575) / 1048576) as usize,
                                budget_mib,
                            })
                        },
                    }
                },
            }
        }
}

/// An arrangement of the first numbers holds only those, and is as long.
pub proof fn lemma_arranged(order: Seq<usize>, rows: nat)
    requires
        is_arrangement(order, rows),
        rows <= usize::MAX + 1,
    ensures
        order.len() == rows,
        forall|i: int| 0 <= i < order.len() ==> (#[trigger] order[i]) < rows,
{
    broadcast use vstd::seq_lib::group_to_multiset_ensures;

    let first = in_order(rows);
    assert(order.to_multiset().len() == first.to_multiset().len());
    assert forall|i: int| 0 <= i < order.len() implies (#[trigger] order[i]) < rows by {
        assert(order.contains(order[i]));
        assert(first.to_multiset().count(order[i]) > 0);
        assert(first.contains(order[i]));
        let k = choose|k: int| 0 <= k < first.len() && first[k] == order[i];
        assert(first[k] == k as usize);
    }
}

/// A session that is resumed after some epochs goes on as one that was never
/// interrupted: its rows are in the order in which those epochs left them, and
/// the next epoch shuffles them as it would have.
pub proof fn law_resume_continues(rows: nat, seed: u64, epochs: int)
    requires
        0 <= epochs,
        seed + epochs <= u64::MAX,
    ensures
        shuffled(order_after(rows, seed as int, epochs), (seed + epochs) as u64) == order_after(
            rows,
            seed as int,
            epochs + 1,
        ),
{
}

/// Every row is trained on once an epoch: the batches follow one another over
/// all rows, and the order names each row once.
pub proof fn law_epoch_covers_rows(session: MetalTrainingSession)
    requires
        session.wf(),
    ensures
        session.order@.len() == session.rows,
        session.order@.no_duplicates(),
        forall|i: int|
            0 <= i < session.order@.len() ==> (#[trigger] session.order@[i]) < session.rows,
{
    broadcast use vstd::seq_lib::group_to_multiset_ensures;

    lemma_arranged(session.order@, session.rows as nat);
    let first = Seq::new(session.rows as nat, |i: int| i as usize);
    assert(first.no_duplicates());
    first.lemma_multiset_has_no_duplicates();
    session.order@.lemma_multiset_has_no_duplicates_conv();
}

} // verus!
