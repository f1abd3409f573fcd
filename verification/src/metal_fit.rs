//! Training for a number of epochs: what to do next, after each thing done.
//!
//! The network is written back once, after the last epoch; an epoch that fails
//! ends the training and leaves the network as it was.
use crate::error::NetworkError;
use vstd::prelude::*;

verus! {

/// A training in progress: how many epochs it takes, and the losses of those
/// that are done.
#[derive(Debug)]
pub struct Fit<L> {
    pub epochs: usize,
    pub losses: Vec<L>,
}

/// What happened last.
#[derive(Debug)]
pub enum Event<L> {
    /// An epoch ran to its loss, or failed.
    Trained(Result<L, NetworkError>),
    /// The network was written back, or could not be.
    Written(Result<(), NetworkError>),
}

/// What to do next.
#[derive(Debug)]
pub enum Action<L> {
    /// Train another epoch.
    Train(Fit<L>),
    /// Write the network back.
    Write(Fit<L>),
    /// Answer with the losses, or with what failed.
    Finish(Result<Vec<L>, NetworkError>),
}

/// Whether an action goes on with a training: another epoch while some are
/// left, and then the network.
pub open spec fn goes_on<L>(epochs: usize, losses: Seq<L>, action: Action<L>) -> bool {
    if losses.len() < epochs {
        action is Train && action->Train_0.epochs == epochs && action->Train_0.losses@ == losses
    } else {
        action is Write && action->Write_0.epochs == epochs && action->Write_0.losses@ == losses
    }
}

impl<L> Fit<L> {
    /// Begins a training of so many epochs.
    pub fn start(epochs: usize) -> (action: Action<L>)
        ensures
            goes_on(epochs, Seq::<L>::empty(), action),
    {
        Fit { epochs, losses: Vec::new() }.ask()
    }

    fn ask(self) -> (action: Action<L>)
        ensures
            goes_on(self.epochs, self.losses@, action),
    {
        if self.losses.len() < self.epochs {
            Action::Train(self)
        } else {
            Action::Write(self)
        }
    }

    /// What to do after an event: an epoch while some are left, and then the
    /// writing of the network.
    pub fn step(self, event: Event<L>) -> (action: Action<L>)
        requires
            event is Trained ==> self.losses@.len() < self.epochs,
            event is Written ==> self.losses@.len() >= self.epochs,
        ensures
            match event {
                Event::Trained(Ok(loss)) => goes_on(self.epochs, self.losses@.push(loss), action),
                Event::Trained(Err(error)) => action == Action::<L>::Finish(Err(error)),
                Event::Written(Ok(())) => action == Action::<L>::Finish(Ok(self.losses)),
                Event::Written(Err(error)) => action == Action::<L>::Finish(Err(error)),
            },
    {
        match event {
            Event::Trained(Ok(loss)) => {
                let mut fit = self;
                fit.losses.push(loss);
                fit.ask()
            },
            Event::Trained(Err(error)) => Action::Finish(Err(error)),
            Event::Written(Ok(())) => Action::Finish(Ok(self.losses)),
            Event::Written(Err(error)) => Action::Finish(Err(error)),
        }
    }
}

/// What a training asks for after some epochs ended in these losses.
pub open spec fn asked<L>(epochs: usize, losses: Seq<L>, k: int, action: Action<L>) -> bool
    decreases k,
{
    if k <= 0 {
        goes_on(epochs, Seq::<L>::empty(), action)
    } else {
        exists|earlier: Action<L>|
            asked(epochs, losses, k - 1, earlier) && #[trigger] follows(earlier, losses[k - 1], action)
    }
}

/// Whether an action is the answer to an epoch with the given loss, which the
/// action before it asked for.
pub open spec fn follows<L>(earlier: Action<L>, loss: L, action: Action<L>) -> bool {
    &&& earlier is Train
    &&& goes_on(
        earlier->Train_0.epochs,
        earlier->Train_0.losses@.push(loss),
        action,
    )
}

/// The network is written once every epoch has ended in a loss, and not
/// before; the losses that are answered are those of the epochs, in order.
pub proof fn law_network_is_written_last<L>(
    epochs: usize,
    losses: Seq<L>,
    k: int,
    action: Action<L>,
)
    requires
        0 <= k <= losses.len(),
        asked(epochs, losses, k, action),
    ensures
        k <= epochs,
        action is Write <==> k == epochs,
        goes_on(epochs, losses.take(k), action),
    decreases k,
{
    if k > 0 {
        let earlier = choose|earlier: Action<L>|
            asked(epochs, losses, k - 1, earlier) && #[trigger] follows(
                earlier,
                losses[k - 1],
                action,
            );
        law_network_is_written_last(epochs, losses, k - 1, earlier);
        assert(losses.take(k - 1).push(losses[k - 1]) =~= losses.take(k));
    } else {
        assert(losses.take(0) =~= Seq::empty());
    }
}

} // verus!
