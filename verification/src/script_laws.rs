//! What a script does, step by step and reply by reply.

use vstd::prelude::*;

use crate::error::CallError;
use crate::script::{Failure, Next, Reply, ScriptState, Status, Step};

verus! {

/// Whether a reply is one that a step can get: everything can be done or can
/// fail in the emulator, but only a driver that is handed a session or a blob
/// refuses it.
pub open spec fn can_get(step: Step<'_>, reply: Reply) -> bool {
    match reply {
        Reply::Done => true,
        Reply::Failed => true,
        Reply::Refused => step is LoadAdapterState || step is LoadDriverState,
    }
}

/// A script takes every reply that its last step can get, and no other; and
/// it takes the first reply, which there is no step to.
pub proof fn law_replies(state: ScriptState<'_>, reply: Reply)
    requires
        state.valid(),
    ensures
        state.at == 0 ==> (state.accepts(reply) <==> !(reply is Refused)),
        state.at > 0 ==> (state.accepts(reply) <==> can_get(state.steps[state.at - 1], reply)),
{
}

/// While every step is done a script hands out its steps in their order, each
/// once; it fails where it comes to a step that can only fail, with that
/// step's error, and it finishes when there is no step left, and not before.
pub proof fn law_script_goes_on<'a>(steps: Seq<Step<'a>>, replies: Seq<Reply>, k: nat)
    requires
        k <= steps.len(),
        forall|j: int| 0 <= j <= k ==> #[trigger] replies[j] == Reply::Done,
        forall|j: int| 0 <= j < k ==> !(#[trigger] steps[j] is Fail),
    ensures
        crate::script::script_at(steps, replies, k + 1).next() == (if k == steps.len() {
            Next::<'a>::Finished
        } else {
            match steps[k as int] {
                Step::Fail { error } => Next::Failed(Failure::Call(error)),
                step => Next::Perform(step),
            }
        }),
        crate::script::script_at(steps, replies, k + 1).status is Finished <==> k == steps.len(),
        crate::script::script_at(steps, replies, k + 1).status is Running <==> k < steps.len()
            && !(steps[k as int] is Fail),
{
    lemma_handed_out(steps, replies, k);
}

/// After `k` steps that were done, `k` steps were handed out.
proof fn lemma_handed_out<'a>(steps: Seq<Step<'a>>, replies: Seq<Reply>, k: nat)
    requires
        k <= steps.len(),
        forall|j: int| 0 <= j <= k ==> #[trigger] replies[j] == Reply::Done,
        forall|j: int| 0 <= j < k ==> !(#[trigger] steps[j] is Fail),
    ensures
        crate::script::script_at(steps, replies, k) == (ScriptState {
            steps,
            at: k,
            status: Status::Running,
        }),
        crate::script::script_at(steps, replies, k).step(replies[k as int])
            == crate::script::script_at(steps, replies, k + 1),
        crate::script::script_at(steps, replies, k).trouble(replies[k as int]) is None,
    decreases k,
{
    assert(replies[k as int] == Reply::Done);
    if k > 0 {
        let before = (k - 1) as nat;
        lemma_handed_out(steps, replies, before);
        assert(!(steps[before as int] is Fail));
    }
}

/// A step that is not done ends the script at once and for good: with the
/// emulator's own error where that failed, and otherwise with the error of
/// what the driver refused. No later reply changes that, and no further step
/// is handed out.
pub proof fn law_script_fails<'a>(
    steps: Seq<Step<'a>>,
    replies: Seq<Reply>,
    k: nat,
    later: nat,
)
    requires
        k < steps.len(),
        forall|j: int| 0 <= j <= k ==> #[trigger] replies[j] == Reply::Done,
        forall|j: int| 0 <= j <= k ==> !(#[trigger] steps[j] is Fail),
        replies[(k + 1) as int] != Reply::Done,
        can_get(steps[k as int], replies[(k + 1) as int]),
        later >= k + 2,
    ensures
        crate::script::script_at(steps, replies, later).next() == Next::<'a>::Failed(
            if replies[(k + 1) as int] == Reply::Failed {
                Failure::Emulator
            } else if steps[k as int] is LoadAdapterState {
                Failure::Call(CallError::AdapterState)
            } else {
                Failure::Call(CallError::DriverState)
            },
        ),
        crate::script::script_at(steps, replies, later).status is Failed,
    decreases later,
{
    if later == k + 2 {
        law_script_goes_on(steps, replies, k);
        lemma_handed_out(steps, replies, k);
        assert(crate::script::script_at(steps, replies, k + 2) == crate::script::script_at(
            steps,
            replies,
            k + 1,
        ).step(replies[(k + 1) as int]));
    } else {
        law_script_fails(steps, replies, k, (later - 1) as nat);
    }
}

/// A script that is over stays as it is, whatever it is told.
pub proof fn law_script_stays_over<'a>(
    steps: Seq<Step<'a>>,
    replies: Seq<Reply>,
    k: nat,
    later: nat,
)
    requires
        !(crate::script::script_at(steps, replies, k).next() is Perform),
        k <= later,
    ensures
        crate::script::script_at(steps, replies, later).next() == crate::script::script_at(
            steps,
            replies,
            k,
        ).next(),
    decreases later,
{
    if k < later {
        law_script_stays_over(steps, replies, k, (later - 1) as nat);
    }
}

} // verus!
