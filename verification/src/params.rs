//! The lifecycle of the stored parameters of a circuit. Parameters are made
//! once by a randomized setup and kept in a file of a directory; afterwards
//! they are only read. The decisions are made here, one step at a time; the
//! caller probes and changes the store and reports what happened.

use crate::error::Error;
use vstd::prelude::*;

verus! {

/// Where the lifecycle stands.
#[derive(Clone, Copy, Debug, PartialEq, Eq, Structural)]
pub enum ParamState {
    /// Waiting to learn whether the directory exists.
    ProbingDirectory,
    /// Waiting for the directory to be created.
    CreatingDirectory,
    /// Waiting to learn whether the parameter file exists.
    ProbingFile,
    /// Waiting for the setup to produce parameters.
    Generating,
    /// Waiting for the parameters to be written.
    Writing,
    /// The parameters are in place.
    Ready,
    /// The lifecycle has failed.
    Failed(Error),
}

/// What the caller reports of the last action.
#[derive(Clone, Copy, Debug, PartialEq, Eq, Structural)]
pub enum ParamEvent {
    /// The probed directory or file exists.
    Present,
    /// The probed directory or file does not exist.
    Absent,
    /// The directory was created, the parameters were generated or written.
    Succeeded,
    /// The store could not be probed or changed, or the setup failed.
    Failed,
}

/// What the caller is to do next.
#[derive(Clone, Copy, Debug, PartialEq, Eq, Structural)]
pub enum ParamAction {
    /// Find out whether the parameter directory exists.
    ProbeDirectory,
    /// Create the parameter directory.
    CreateDirectory,
    /// Find out whether the parameter file exists.
    ProbeFile,
    /// Run the setup on the circuit with no amount known.
    Generate,
    /// Write the generated parameters to the parameter file.
    Write,
    /// Stop: the parameters are in place.
    Done,
    /// Stop with this error.
    Fail(Error),
}

/// The state is final.
pub open spec fn finished(state: ParamState) -> bool {
    state == ParamState::Ready || state is Failed
}

/// The action that a state waits on.
pub open spec fn action_of(state: ParamState) -> ParamAction {
    match state {
        ParamState::ProbingDirectory => ParamAction::ProbeDirectory,
        ParamState::CreatingDirectory => ParamAction::CreateDirectory,
        ParamState::ProbingFile => ParamAction::ProbeFile,
        ParamState::Generating => ParamAction::Generate,
        ParamState::Writing => ParamAction::Write,
        ParamState::Ready => ParamAction::Done,
        ParamState::Failed(e) => ParamAction::Fail(e),
    }
}

/// The state that follows an event. An existing directory or file is left
/// alone; a missing directory is created, and a missing file is generated and
/// written. A failed setup is a synthesis error, any other failure an error
/// of the store, and so is a report that does not answer the action. A final
/// state stays.
pub open spec fn next_state(state: ParamState, event: ParamEvent) -> ParamState {
    match (state, event) {
        (ParamState::ProbingDirectory, ParamEvent::Present) => ParamState::ProbingFile,
        (ParamState::ProbingDirectory, ParamEvent::Absent) => ParamState::CreatingDirectory,
        (ParamState::CreatingDirectory, ParamEvent::Succeeded) => ParamState::ProbingFile,
        (ParamState::ProbingFile, ParamEvent::Present) => ParamState::Ready,
        (ParamState::ProbingFile, ParamEvent::Absent) => ParamState::Generating,
        (ParamState::Generating, ParamEvent::Succeeded) => ParamState::Writing,
        (ParamState::Generating, ParamEvent::Failed) => ParamState::Failed(Error::Synthesis),
        (ParamState::Writing, ParamEvent::Succeeded) => ParamState::Ready,
        (ParamState::Ready, _) => ParamState::Ready,
        (ParamState::Failed(e), _) => ParamState::Failed(e),
        _ => ParamState::Failed(Error::ParamInit),
    }
}

/// The state in which the lifecycle starts; its action is to probe the
/// directory.
pub fn ensure_range_param_start() -> (r: (ParamState, ParamAction))
    ensures
        r.0 == ParamState::ProbingDirectory,
        r.1 == action_of(r.0),
{
    (ParamState::ProbingDirectory, ParamAction::ProbeDirectory)
}

/// One step of making sure that the parameters of the range circuit are
/// stored: from the state and the report of the last action to the next
/// state and the action it waits on.
pub fn ensure_range_param(state: ParamState, event: ParamEvent) -> (r: (ParamState, ParamAction))
    ensures
        r.0 == next_state(state, event),
        r.1 == action_of(r.0),
{
    let next = match state {
        ParamState::ProbingDirectory => match event {
            ParamEvent::Present => ParamState::ProbingFile,
            ParamEvent::Absent => ParamState::CreatingDirectory,
            _ => ParamState::Failed(Error::ParamInit),
        },
        ParamState::CreatingDirectory => match event {
            ParamEvent::Succeeded => ParamState::ProbingFile,
            _ => ParamState::Failed(Error::ParamInit),
        },
        ParamState::ProbingFile => match event {
            ParamEvent::Present => ParamState::Ready,
            ParamEvent::Absent => ParamState::Generating,
            _ => ParamState::Failed(Error::ParamInit),
        },
        ParamState::Generating => match event {
            ParamEvent::Succeeded => ParamState::Writing,
            ParamEvent::Failed => ParamState::Failed(Error::Synthesis),
            _ => ParamState::Failed(Error::ParamInit),
        },
        ParamState::Writing => match event {
            ParamEvent::Succeeded => ParamState::Ready,
            _ => ParamState::Failed(Error::ParamInit),
        },
        ParamState::Ready => ParamState::Ready,
        ParamState::Failed(e) => ParamState::Failed(e),
    };
    let action = match next {
        ParamState::ProbingDirectory => ParamAction::ProbeDirectory,
        ParamState::CreatingDirectory => ParamAction::CreateDirectory,
        ParamState::ProbingFile => ParamAction::ProbeFile,
        ParamState::Generating => ParamAction::Generate,
        ParamState::Writing => ParamAction::Write,
        ParamState::Ready => ParamAction::Done,
        ParamState::Failed(e) => ParamAction::Fail(e),
    };
    (next, action)
}

/// The state after a sequence of events.
pub open spec fn run(state: ParamState, events: Seq<ParamEvent>) -> ParamState
    decreases events.len(),
{
    if events.len() == 0 {
        state
    } else {
        next_state(run(state, events.drop_last()), events.last())
    }
}

/// The actions that a sequence of events brings, one for each event.
pub open spec fn actions(state: ParamState, events: Seq<ParamEvent>) -> Seq<ParamAction> {
    Seq::new(events.len(), |i: int| action_of(run(state, events.take(i + 1))))
}

/// Where directory and file exist, the lifecycle ends after the two probes
/// with the parameters in place, and no action changes the store: making
/// sure a second time leaves the file untouched.
pub proof fn lemma_present_is_untouched()
    ensures
        run(ParamState::ProbingDirectory, seq![ParamEvent::Present, ParamEvent::Present])
            == ParamState::Ready,
        actions(ParamState::ProbingDirectory, seq![ParamEvent::Present, ParamEvent::Present])
            == seq![ParamAction::ProbeFile, ParamAction::Done],
{
    let events = seq![ParamEvent::Present, ParamEvent::Present];
    let start = ParamState::ProbingDirectory;
    assert(events.drop_last() =~= seq![ParamEvent::Present]);
    assert(events.drop_last().drop_last() =~= Seq::<ParamEvent>::empty());
    assert(run(start, events.drop_last().drop_last()) == start);
    assert(run(start, events.drop_last()) == ParamState::ProbingFile);
    assert(run(start, events) == ParamState::Ready);
    assert(events.take(1) =~= events.drop_last());
    assert(events.take(2) =~= events);
    assert(actions(start, events) =~= seq![ParamAction::ProbeFile, ParamAction::Done]);
}

/// The store is changed only where something is missing: a directory is
/// created only after it was probed and found absent, and parameters are
/// written only after the file was found absent and the setup succeeded.
pub proof fn lemma_mutation_needs_absence(state: ParamState, event: ParamEvent)
    ensures
        action_of(next_state(state, event)) == ParamAction::CreateDirectory ==> state
            == ParamState::ProbingDirectory && event == ParamEvent::Absent,
        action_of(next_state(state, event)) == ParamAction::Generate ==> state
            == ParamState::ProbingFile && event == ParamEvent::Absent,
        action_of(next_state(state, event)) == ParamAction::Write ==> state
            == ParamState::Generating && event == ParamEvent::Succeeded,
{
}

/// A final state stays, whatever is reported.
pub proof fn lemma_final_stays(state: ParamState, event: ParamEvent)
    requires
        finished(state),
    ensures
        next_state(state, event) == state,
{
}

/// The parameter store as the lifecycle sees it: whether the directory
/// exists, and the bytes of the parameter file if there is one.
pub struct Store {
    pub directory: bool,
    pub file: Option<Seq<u8>>,
}

/// What a caller reports after it carried out the action on the store, where
/// nothing fails.
pub open spec fn report(action: ParamAction, store: Store) -> ParamEvent {
    match action {
        ParamAction::ProbeDirectory => if store.directory {
            ParamEvent::Present
        } else {
            ParamEvent::Absent
        },
        ParamAction::ProbeFile => if store.file.is_some() {
            ParamEvent::Present
        } else {
            ParamEvent::Absent
        },
        _ => ParamEvent::Succeeded,
    }
}

/// The store after the action, where the setup gives `generated`.
pub open spec fn effect(action: ParamAction, store: Store, generated: Seq<u8>) -> Store {
    match action {
        ParamAction::CreateDirectory => Store { directory: true, file: store.file },
        ParamAction::Write => Store { directory: store.directory, file: Some(generated) },
        _ => store,
    }
}

/// State and store after at most `steps` steps of the lifecycle on a store
/// where nothing fails.
pub open spec fn settle(state: ParamState, store: Store, generated: Seq<u8>, steps: nat) -> (
    ParamState,
    Store,
)
    decreases steps,
{
    if steps == 0 || finished(state) {
        (state, store)
    } else {
        let action = action_of(state);
        settle(
            next_state(state, report(action, store)),
            effect(action, store, generated),
            generated,
            (steps - 1) as nat,
        )
    }
}

/// The store after the lifecycle has run from its start: five steps end it.
pub open spec fn ensured(store: Store, generated: Seq<u8>) -> Store {
    settle(ParamState::ProbingDirectory, store, generated, 5).1
}

/// Making sure is idempotent. On a store where nothing fails the lifecycle
/// ends with directory and file in place; a parameter file that was there
/// is kept as it is; and a second run leaves the store of the first
/// unchanged, whatever its setup would have generated.
pub proof fn lemma_ensure_idempotent(store: Store, first: Seq<u8>, second: Seq<u8>)
    ensures
        settle(ParamState::ProbingDirectory, store, first, 5).0 == ParamState::Ready,
        ensured(store, first).directory,
        ensured(store, first).file.is_some(),
        store.file.is_some() ==> ensured(store, first).file == store.file,
        store.file.is_none() ==> ensured(store, first).file == Some(first),
        ensured(ensured(store, first), second) == ensured(store, first),
{
    reveal_with_fuel(settle, 6);
}

} // verus!
