//! Fixed sequences of steps, performed one after the other until one fails.

use std::time::SystemTime;
use vstd::prelude::*;

use crate::driver::Driver;
use crate::error::CallError;
use crate::gba::{DmaLane, FifoLane};
use crate::peripheral::Peripheral;
use crate::snapshot::CoreState;

verus! {

/// One thing to do to the emulator. Cores and drivers go by their index;
/// driver `i` is the one on core `i`'s port.
#[derive(Clone, Copy, PartialEq, Eq, Debug)]
pub enum Step<'a> {
    /// Create the coordinator that the drivers of the link share.
    NewCoordinator { peripheral: Peripheral },
    /// Create the next driver, on that coordinator.
    NewDriver { index: usize, driver: Driver },
    /// Create the next core.
    NewCore { core: usize },
    /// Give the core a video buffer.
    EnableVideoBuffer { core: usize },
    /// Load a ROM into the core.
    LoadRom { core: usize, rom: &'a Vec<u8> },
    /// Load a save into the core.
    LoadSave { core: usize, save: &'a Vec<u8> },
    /// Pin the core's cartridge clock.
    SetRtcFixed { core: usize, rtc: SystemTime },
    /// Plug the driver of this index into the core of this index.
    InstallDriver { index: usize },
    /// Reset the core.
    Reset { core: usize },
    /// Load a serialized state into the core.
    LoadState { core: usize, image: &'a Vec<u8> },
    /// Apply [`crate::gba::neutralize_sio`] to the core.
    NeutralizeSio { core: usize },
    /// Put an adapter session into the driver. The driver can refuse it.
    LoadAdapterState { index: usize, blob: &'a Vec<u8> },
    /// Load a snapshot's savestate into the core.
    RestoreState { core: usize, state: &'a CoreState },
    /// Apply [`crate::gba::restore_audio_fifos`] to the core.
    RestoreAudioFifos { core: usize, fifos: &'a [FifoLane; 2] },
    /// Apply [`crate::gba::restore_dmas`] to the core.
    RestoreDmas { core: usize, dmas: &'a [DmaLane; 4] },
    /// Put a snapshot's blob into the driver. The driver can refuse it.
    LoadDriverState { index: usize, blob: &'a Vec<u8> },
    /// Do nothing: the script fails when it comes here.
    Fail { error: CallError },
}

/// What came of a step.
#[derive(Clone, Copy, PartialEq, Eq, Debug, Structural)]
pub enum Reply {
    /// It was done.
    Done,
    /// The driver did not take what it was given.
    Refused,
    /// The emulator reported an error.
    Failed,
}

/// Why a script failed.
#[derive(Clone, Copy, PartialEq, Eq, Debug, Structural)]
pub enum Failure {
    /// A call failed.
    Call(CallError),
    /// The emulator reported an error, and whoever performed the step has it.
    Emulator,
}

/// What a script wants next.
#[derive(Clone, Copy, PartialEq, Eq, Debug)]
pub enum Next<'a> {
    /// Perform a step.
    Perform(Step<'a>),
    /// Nothing: every step was done.
    Finished,
    /// Nothing: the script has failed, and no further step is to be performed.
    Failed(Failure),
}

/// Where a script stands.
#[derive(Clone, Copy, PartialEq, Eq, Debug, Structural)]
pub enum Status {
    Running,
    Finished,
    Failed(Failure),
}

impl<'a> Step<'a> {
    /// Whether a driver may refuse what the step gives it.
    pub open spec fn refusable(self) -> bool {
        self is LoadAdapterState || self is LoadDriverState
    }

    /// The failure that a reply to the step amounts to, if any.
    pub open spec fn verdict(self, reply: Reply) -> Option<Failure> {
        match (reply, self) {
            (Reply::Failed, _) => Some(Failure::Emulator),
            (Reply::Refused, Step::LoadAdapterState { .. }) => Some(
                Failure::Call(CallError::AdapterState),
            ),
            (Reply::Refused, Step::LoadDriverState { .. }) => Some(
                Failure::Call(CallError::DriverState),
            ),
            _ => None,
        }
    }

    /// The failure that a reply to the step amounts to, if any.
    fn judge(self, reply: Reply) -> (failure: Option<Failure>)
        ensures
            failure == self.verdict(reply),
    {
        match (reply, self) {
            (Reply::Failed, _) => Some(Failure::Emulator),
            (Reply::Refused, Step::LoadAdapterState { .. }) => Some(
                Failure::Call(CallError::AdapterState),
            ),
            (Reply::Refused, Step::LoadDriverState { .. }) => Some(
                Failure::Call(CallError::DriverState),
            ),
            _ => None,
        }
    }
}

/// The state of a script: its steps, how many of them were handed out, and
/// whether it is over.
pub struct ScriptState<'a> {
    pub steps: Seq<Step<'a>>,
    pub at: nat,
    pub status: Status,
}

impl<'a> ScriptState<'a> {
    /// A script of which no step was handed out yet.
    pub open spec fn begin(steps: Seq<Step<'a>>) -> ScriptState<'a> {
        ScriptState { steps, at: 0, status: Status::Running }
    }

    /// What every script keeps.
    pub open spec fn valid(self) -> bool {
        self.at <= self.steps.len()
    }

    /// Whether the reply can be one to the step that was handed out last. Only
    /// a driver refuses anything.
    pub open spec fn accepts(self, reply: Reply) -> bool {
        reply is Refused ==> self.at > 0 && self.steps[self.at - 1].refusable()
    }

    /// The failure of the step that was handed out last, if it failed.
    pub open spec fn trouble(self, reply: Reply) -> Option<Failure> {
        if self.at > 0 {
            self.steps[self.at - 1].verdict(reply)
        } else {
            None
        }
    }

    /// The script after a reply to the step that was handed out last.
    pub open spec fn step(self, reply: Reply) -> ScriptState<'a> {
        if !(self.status is Running) {
            self
        } else if let Some(failure) = self.trouble(reply) {
            ScriptState { status: Status::Failed(failure), ..self }
        } else if self.at == self.steps.len() {
            ScriptState { status: Status::Finished, ..self }
        } else if let Step::Fail { error } = self.steps[self.at as int] {
            ScriptState { status: Status::Failed(Failure::Call(error)), ..self }
        } else {
            ScriptState { at: self.at + 1, ..self }
        }
    }

    /// What the script wants in this state, which it came into by a step.
    pub open spec fn next(self) -> Next<'a> {
        match self.status {
            Status::Running => Next::Perform(self.steps[self.at - 1]),
            Status::Finished => Next::Finished,
            Status::Failed(failure) => Next::Failed(failure),
        }
    }
}

/// A sequence of steps under way.
pub struct Script<'a> {
    steps: Vec<Step<'a>>,
    at: usize,
    status: Status,
}

impl<'a> View for Script<'a> {
    type V = ScriptState<'a>;

    closed spec fn view(&self) -> ScriptState<'a> {
        ScriptState { steps: self.steps@, at: self.at as nat, status: self.status }
    }
}

impl<'a> Script<'a> {
    /// A script of these steps.
    pub fn begin(steps: Vec<Step<'a>>) -> (script: Script<'a>)
        ensures
            script@ == ScriptState::begin(steps@),
            script@.valid(),
    {
        Script { steps, at: 0, status: Status::Running }
    }

    /// Tells the script what came of the step that it handed out last, and
    /// hands out the next. The first call has no step to speak of and takes
    /// [`Reply::Done`].
    pub fn advance(&mut self, reply: Reply) -> (next: Next<'a>)
        requires
            old(self)@.valid(),
            old(self)@.accepts(reply),
        ensures
            final(self)@ == old(self)@.step(reply),
            final(self)@.valid(),
            next == final(self)@.next(),
    {
        if let Status::Running = self.status {
            let trouble = if self.at > 0 {
                self.steps[self.at - 1].judge(reply)
            } else {
                None
            };
            if let Some(failure) = trouble {
                self.status = Status::Failed(failure);
            } else if self.at == self.steps.len() {
                self.status = Status::Finished;
            } else if let Step::Fail { error } = self.steps[self.at] {
                self.status = Status::Failed(Failure::Call(error));
            } else {
                self.at = self.at + 1;
            }
        }
        match self.status {
            Status::Running => Next::Perform(self.steps[self.at - 1]),
            Status::Finished => Next::Finished,
            Status::Failed(failure) => Next::Failed(failure),
        }
    }

    /// Where the script stands.
    pub fn status(&self) -> (status: Status)
        ensures
            status == self@.status,
    {
        self.status
    }
}

/// The state of a script of `steps` after its first `k` replies.
pub open spec fn script_at<'a>(steps: Seq<Step<'a>>, replies: Seq<Reply>, k: nat) -> ScriptState<
    'a,
>
    decreases k,
{
    if k == 0 {
        ScriptState::begin(steps)
    } else {
        script_at(steps, replies, (k - 1) as nat).step(replies[k - 1])
    }
}

/// Whether step `j` was performed and was done. The reply to it is the one
/// after the first, which has no step to speak of.
pub open spec fn done_well(steps: Seq<Step<'_>>, replies: Seq<Reply>, j: int) -> bool {
    !(steps[j] is Fail) && steps[j].verdict(replies[j + 1]) is None
}

/// While all goes well a script performs its steps in their order, each
/// once, and is finished when all were done.
pub proof fn law_script_performs_in_order<'a>(
    steps: Seq<Step<'a>>,
    replies: Seq<Reply>,
    k: nat,
)
    requires
        k <= steps.len(),
        forall|j: int| 0 <= j < k ==> #[trigger] done_well(steps, replies, j),
        k < steps.len() ==> !(steps[k as int] is Fail),
    ensures
        k < steps.len() ==> script_at(steps, replies, k + 1).next() == Next::Perform(
            steps[k as int],
        ),
        k == steps.len() ==> script_at(steps, replies, k + 1).next() == Next::<'a>::Finished,
        script_at(steps, replies, k + 1).at == (if k < steps.len() {
            k + 1
        } else {
            k
        }),
{
    lemma_running(steps, replies, k);
}

/// After `k` steps that went well the script is about to go on.
proof fn lemma_running<'a>(steps: Seq<Step<'a>>, replies: Seq<Reply>, k: nat)
    requires
        k <= steps.len(),
        forall|j: int| 0 <= j < k ==> #[trigger] done_well(steps, replies, j),
    ensures
        script_at(steps, replies, k) == (ScriptState { steps, at: k, status: Status::Running }),
        script_at(steps, replies, k).trouble(replies[k as int]) is None,
    decreases k,
{
    if k > 0 {
        assert(done_well(steps, replies, k - 1));
        lemma_running(steps, replies, (k - 1) as nat);
    }
}

/// A script stops at its first failure and says which it was: at a step that
/// can only fail, or after a step that the emulator or the driver did not do.
/// No later step is performed, whatever is told to it.
pub proof fn law_script_stops_at_failure<'a>(
    steps: Seq<Step<'a>>,
    replies: Seq<Reply>,
    k: nat,
    later: nat,
)
    requires
        k < steps.len(),
        forall|j: int| 0 <= j < k ==> #[trigger] done_well(steps, replies, j),
        !done_well(steps, replies, k as int),
        later >= k + 2,
    ensures
        script_at(steps, replies, later).next() == Next::<'a>::Failed(
            match steps[k as int] {
                Step::Fail { error } => Failure::Call(error),
                step => step.verdict(replies[(k + 1) as int])->0,
            },
        ),
        script_at(steps, replies, later).at == (if steps[k as int] is Fail {
            k
        } else {
            k + 1
        }),
    decreases later,
{
    lemma_running(steps, replies, k);
    assert(script_at(steps, replies, k + 1) == script_at(steps, replies, k).step(
        replies[k as int],
    ));
    assert(script_at(steps, replies, k + 2) == script_at(steps, replies, k + 1).step(
        replies[(k + 1) as int],
    ));
    if later > k + 2 {
        law_script_stops_at_failure(steps, replies, k, (later - 1) as nat);
    }
}

} // verus!
