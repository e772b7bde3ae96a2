//! The capture controller's decision core: a two-state machine driven by
//! asynchronously delivered control messages.  The surrounding application
//! owns the background loop; once per iteration it drains the pending
//! control messages non-blockingly, hands them to `capture_step`, and
//! performs the action returned — sleeping briefly while idle, or sampling
//! the target and sleeping the full interval while running.

use vstd::prelude::*;

verus! {

/// A control message for the capture loop: begin capturing a named target,
/// or stop capturing.  Exactly these two.
pub enum ChannelMsg {
    StartCapture(String),
    StopCapture,
}

/// Whether the loop is idle or capturing.
#[derive(Debug, PartialEq, Eq, Structural)]
pub enum CaptureStatus {
    Idle,
    Running,
}

/// The capture loop's state: its status and the current target.  Stopping
/// keeps the target; starting overwrites it in place.
pub struct CaptureState {
    pub status: CaptureStatus,
    pub target: String,
}

/// What one loop tick does: wait out the short idle interval, wait out the
/// full sampling interval without sampling (running, but no target has ever
/// been set), or sample the target and then wait the full interval.
#[derive(Debug, PartialEq, Eq, Structural)]
pub enum CaptureAction {
    SleepShort,
    SleepLong,
    SampleThenSleepLong,
}

/// Model of a control message.
pub enum MsgModel {
    Start(Seq<char>),
    Stop,
}

/// Model of the loop state.
pub struct StateModel {
    pub running: bool,
    pub target: Seq<char>,
}

pub open spec fn msg_model(m: ChannelMsg) -> MsgModel {
    match m {
        ChannelMsg::StartCapture(t) => MsgModel::Start(t@),
        ChannelMsg::StopCapture => MsgModel::Stop,
    }
}

pub open spec fn state_model(s: CaptureState) -> StateModel {
    StateModel { running: s.status is Running, target: s.target@ }
}

/// One control message's effect: starting runs the loop on the new target,
/// stopping idles it and keeps the target.
pub open spec fn apply_msg(s: StateModel, m: MsgModel) -> StateModel {
    match m {
        MsgModel::Start(t) => StateModel { running: true, target: t },
        MsgModel::Stop => StateModel { running: false, ..s },
    }
}

/// The state after applying the drained messages from index `i` on, in
/// arrival order.
pub open spec fn apply_msgs(s: StateModel, ms: Seq<MsgModel>, i: int) -> StateModel
    decreases ms.len() - i when 0 <= i <= ms.len()
{
    if i >= ms.len() {
        s
    } else {
        apply_msgs(apply_msg(s, ms[i]), ms, i + 1)
    }
}

/// The action a state calls for: idle ticks sleep briefly; a running state
/// with an empty target sleeps the full interval without sampling; a
/// running state with a target samples it.
pub open spec fn action_of(s: StateModel) -> CaptureAction {
    if !s.running {
        CaptureAction::SleepShort
    } else if s.target.len() == 0 {
        CaptureAction::SleepLong
    } else {
        CaptureAction::SampleThenSleepLong
    }
}

impl CaptureState {
    /// The state at construction: idle, with no target ever set.
    pub fn new() -> (r: CaptureState)
        ensures
            state_model(r) == (StateModel { running: false, target: Seq::<char>::empty() }),
    {
        CaptureState { status: CaptureStatus::Idle, target: String::new() }
    }
}

/// One tick's control handling: applies this tick's drained messages to the
/// state, in arrival order, and returns the action the new state calls for.
pub fn capture_step(state: &mut CaptureState, msgs: &Vec<ChannelMsg>) -> (a: CaptureAction)
    ensures
        state_model(*final(state)) == apply_msgs(
            state_model(*old(state)),
            msgs@.map_values(|m: ChannelMsg| msg_model(m)),
            0,
        ),
        a == action_of(state_model(*final(state))),
{
    let ghost ms = msgs@.map_values(|m: ChannelMsg| msg_model(m));
    let mut i: usize = 0;
    while i < msgs.len()
        invariant
            i <= msgs.len(),
            ms == msgs@.map_values(|m: ChannelMsg| msg_model(m)),
            apply_msgs(state_model(*state), ms, i as int) == apply_msgs(
                state_model(*old(state)),
                ms,
                0,
            ),
        decreases msgs.len() - i,
    {
        let ghost pre = state_model(*state);
        match &msgs[i] {
            ChannelMsg::StartCapture(t) => {
                state.status = CaptureStatus::Running;
                state.target = t.clone();
            },
            ChannelMsg::StopCapture => {
                state.status = CaptureStatus::Idle;
            },
        }
        proof {
            assert(state_model(*state) == apply_msg(pre, ms[i as int]));
        }
        i += 1;
    }
    match state.status {
        CaptureStatus::Idle => CaptureAction::SleepShort,
        CaptureStatus::Running => {
            if state.target.as_str().is_empty() {
                CaptureAction::SleepLong
            } else {
                CaptureAction::SampleThenSleepLong
            }
        },
    }
}

/// Law: a start followed immediately by a stop, both drained before the
/// tick acts, leaves the loop idle — whatever the target was, the tick only
/// sleeps briefly and never samples.
pub proof fn lemma_stop_before_first_tick(s: StateModel, t: Seq<char>)
    ensures
        !apply_msgs(s, seq![MsgModel::Start(t), MsgModel::Stop], 0).running,
        action_of(apply_msgs(s, seq![MsgModel::Start(t), MsgModel::Stop], 0))
            == CaptureAction::SleepShort,
{
    let ms = seq![MsgModel::Start(t), MsgModel::Stop];
    assert(ms[0] == MsgModel::Start(t));
    assert(ms[1] == MsgModel::Stop);
    let s1 = apply_msg(s, ms[0]);
    let s2 = apply_msg(s1, ms[1]);
    assert(apply_msgs(s, ms, 0) == apply_msgs(s1, ms, 1));
    assert(apply_msgs(s1, ms, 1) == apply_msgs(s2, ms, 2));
    assert(apply_msgs(s2, ms, 2) == s2);
    assert(!s2.running);
}

} // verus!
