//! The loading transition: the asynchronous steps that must all finish before the game starts.
use vstd::prelude::*;

use crate::promises::{poll_step, AsyncResult};

verus! {

/// One polling round over `before`: `after[i]` and `outs[i]` are the state of and the value
/// yielded by the `i`-th holder once polled.
pub open spec fn polled_round(
    before: Seq<AsyncResult<()>>,
    after: Seq<AsyncResult<()>>,
    outs: Seq<Option<Result<(), anyhow::Error>>>,
) -> bool {
    &&& after.len() == before.len()
    &&& outs.len() == before.len()
    &&& forall|i: int| 0 <= i < before.len() ==> poll_step(before[i], #[trigger] after[i], outs[i])
}

/// The polled holders that yielded nothing yet, in order.
pub open spec fn still_pending(after: Seq<AsyncResult<()>>, outs: Seq<Option<Result<(), anyhow::Error>>>) -> Seq<
    AsyncResult<()>,
>
    decreases after.len(),
{
    if after.len() == 0 || outs.len() != after.len() {
        Seq::empty()
    } else {
        let prev = still_pending(after.drop_last(), outs.drop_last());
        if outs.last() is None {
            prev.push(after.last())
        } else {
            prev
        }
    }
}

/// The errors the polled holders yielded, in order.
pub open spec fn failures(outs: Seq<Option<Result<(), anyhow::Error>>>) -> Seq<anyhow::Error>
    decreases outs.len(),
{
    if outs.len() == 0 {
        Seq::empty()
    } else {
        let prev = failures(outs.drop_last());
        match outs.last() {
            Some(Err(e)) => prev.push(e),
            _ => prev,
        }
    }
}

/// Polls every pending loading step once: finished steps are dropped (their errors are
/// returned, to be reported), unfinished ones are kept in order. Returns whether none remain,
/// at which point the game starts.
pub fn loading_game_transition_handler(promises: &mut Vec<AsyncResult<()>>) -> (r: (bool, Vec<anyhow::Error>))
    ensures
        exists|after: Seq<AsyncResult<()>>, outs: Seq<Option<Result<(), anyhow::Error>>>|
            #[trigger] polled_round(old(promises)@, after, outs)
            && final(promises)@ == still_pending(after, outs)
            && r.1@ == failures(outs),
        r.0 == (final(promises)@.len() == 0),
{
    let mut pending: Vec<AsyncResult<()>> = Vec::new();
    std::mem::swap(&mut pending, promises);
    let ghost before = pending@;
    let mut remaining: Vec<AsyncResult<()>> = Vec::new();
    let mut errors: Vec<anyhow::Error> = Vec::new();
    let ghost mut after: Seq<AsyncResult<()>> = Seq::empty();
    let ghost mut outs: Seq<Option<Result<(), anyhow::Error>>> = Seq::empty();
    let mut i: usize = 0;
    let n = pending.len();
    while pending.len() > 0
        invariant
            n == before.len(),
            i + pending@.len() == n,
            pending@ == before.subrange(i as int, n as int),
            polled_round(before.take(i as int), after, outs),
            remaining@ == still_pending(after, outs),
            errors@ == failures(outs),
        decreases pending@.len(),
    {
        let mut p = pending.remove(0);
        let ghost p_before = p;
        proof {
            assert(before[i as int] == p_before);
        }
        let polled = p.poll();
        let ghost out = crate::promises::deref_result(polled);
        let ready = polled.is_some();
        let ghost p_after = p;
        if ready {
            match p.blocking_wait() {
                Ok(()) => {},
                Err(e) => {
                    errors.push(e);
                },
            }
        } else {
            remaining.push(p);
        }
        proof {
            let a0 = after;
            let o0 = outs;
            after = after.push(p_after);
            outs = outs.push(out);
            assert(after.drop_last() =~= a0);
            assert(outs.drop_last() =~= o0);
            assert(before.take(i + 1) =~= before.take(i as int).push(before[i as int]));
            assert(pending@ =~= before.subrange(i + 1, n as int));
        }
        i = i + 1;
    }
    proof {
        assert(before.take(n as int) =~= before);
    }
    *promises = remaining;
    let done = promises.len() == 0;
    (done, errors)
}

/// Used to notify the loading state that the world bootstrap data has been acquired.
pub struct LoadingBootstrapPromiseResolver(pub tokio::sync::oneshot::Sender<Result<(), anyhow::Error>>);

/// Starts waiting for the world's bootstrap data: a new pending step is added, and the resolver
/// that completes it is returned.
pub fn kickoff_connected_game_transition(promises: &mut Vec<AsyncResult<()>>) -> (r: LoadingBootstrapPromiseResolver)
    ensures
        final(promises)@.len() == old(promises)@.len() + 1,
        final(promises)@.drop_last() == old(promises)@,
        final(promises)@.last() is Unresolved,
{
    let (world_bootstrapped, world_bootstrapped_tx) = AsyncResult::new_pair();
    let ghost p0 = promises@;
    promises.push(world_bootstrapped);
    proof {
        assert(promises@.drop_last() =~= p0);
    }
    LoadingBootstrapPromiseResolver(world_bootstrapped_tx)
}

/// Parameters for the next loading transition, with `M` the description of a savefile.
pub enum LoadingTransitionParams<M> {
    /// No queued transition.
    NoTransition,
    /// Unload the game and go to the main menu.
    GoToMainMenu,
    /// Begin a singleplayer game.
    SinglePlayer {
        /// The savefile to load.
        savefile_metadata: M,
    },
    /// Join a multiplayer game.
    MultiPlayer {
        /// The not-yet-resolved address to join.
        server_address_raw: String,
    },
}

/// Takes the queued transition parameters when the loading state is entered, leaving none
/// queued. Entering the loading state without parameters is a bug.
pub fn take_transition_params<M>(params: &mut LoadingTransitionParams<M>) -> (r: LoadingTransitionParams<M>)
    requires
        !(*old(params) is NoTransition),
    ensures
        r == *old(params),
        *final(params) is NoTransition,
{
    let mut taken = LoadingTransitionParams::NoTransition;
    std::mem::swap(&mut taken, params);
    taken
}

} // verus!
