//! The decisions of the run loop: once per iteration the pending input events
//! are examined for a quit request, and the loop either advances the machine
//! by one step and shows a frame, or stops for good.

use vstd::prelude::*;

verus! {

/// An input event, as far as the loop tells events apart.
#[derive(Clone, Copy, Debug, PartialEq, Eq, Structural)]
pub enum InputEvent {
    /// The request to close the window or to quit.
    Quit,
    /// Any other event; it is read and discarded.
    Other,
}

/// The state of the loop.
#[derive(Clone, Copy, Debug, PartialEq, Eq, Structural)]
pub enum RunState {
    Running,
    Terminated,
}

/// What the driver of the loop does in one iteration.
#[derive(Clone, Copy, Debug, PartialEq, Eq, Structural)]
pub enum Action {
    /// Advance the machine by exactly one step, then clear, render its
    /// framebuffer and present, and come back for the next iteration.
    Advance,
    /// Leave the loop without a further step or frame.
    Halt,
}

/// Whether a quit request is among the events.
pub open spec fn quit_requested(events: Seq<InputEvent>) -> bool {
    exists|k: int| 0 <= k < events.len() && events[k] == InputEvent::Quit
}

/// The state of the loop after an iteration that polled `events`: a running
/// loop keeps running unless a quit was requested; a terminated loop stays
/// terminated.
pub open spec fn next_state(state: RunState, events: Seq<InputEvent>) -> RunState {
    if state == RunState::Running && !quit_requested(events) {
        RunState::Running
    } else {
        RunState::Terminated
    }
}

/// The action of an iteration that starts in `state` and polls `events`.
pub open spec fn action_for(state: RunState, events: Seq<InputEvent>) -> Action {
    if next_state(state, events) == RunState::Running {
        Action::Advance
    } else {
        Action::Halt
    }
}

/// Number of machine steps that an action stands for.
pub open spec fn core_steps(action: Action) -> nat {
    match action {
        Action::Advance => 1,
        Action::Halt => 0,
    }
}

/// Number of frames that an action renders and presents.
pub open spec fn frames(action: Action) -> nat {
    match action {
        Action::Advance => 1,
        Action::Halt => 0,
    }
}

/// Whether a quit request is among the events.
pub fn has_quit(events: &[InputEvent]) -> (found: bool)
    ensures
        found == quit_requested(events@),
{
    let mut k: usize = 0;
    while k < events.len()
        invariant
            k <= events@.len(),
            forall|j: int| 0 <= j < k ==> events@[j] != InputEvent::Quit,
        decreases events@.len() - k,
    {
        match events[k] {
            InputEvent::Quit => {
                return true;
            },
            InputEvent::Other => {},
        }
        k += 1;
    }
    false
}

/// The run loop's state, owned by whoever drives the loop. It starts running
/// and changes only through `iterate`.
#[derive(Debug)]
pub struct RunLoop {
    state: RunState,
}

impl RunLoop {
    /// The state of the loop.
    pub closed spec fn state(&self) -> RunState {
        self.state
    }

    /// A loop that is running.
    pub fn new() -> (run: RunLoop)
        ensures
            run.state() == RunState::Running,
    {
        RunLoop { state: RunState::Running }
    }

    /// The state of the loop.
    pub fn current_state(&self) -> (state: RunState)
        ensures
            state == self.state(),
    {
        self.state
    }

    /// Whether the loop has not terminated.
    pub fn is_running(&self) -> (running: bool)
        ensures
            running == (self.state() == RunState::Running),
    {
        match self.state {
            RunState::Running => true,
            RunState::Terminated => false,
        }
    }

    /// One iteration's decision, given all the events that were pending. A
    /// running loop without a quit request among the events stays running and
    /// advances; otherwise the loop is terminated, now and ever after, and the
    /// action is to halt.
    pub fn iterate(&mut self, events: &[InputEvent]) -> (action: Action)
        ensures
            final(self).state() == next_state(old(self).state(), events@),
            action == action_for(old(self).state(), events@),
    {
        let quit = has_quit(events);
        match self.state {
            RunState::Running => {
                if quit {
                    self.state = RunState::Terminated;
                    Action::Halt
                } else {
                    Action::Advance
                }
            },
            RunState::Terminated => Action::Halt,
        }
    }
}

/// The state of the loop after a run of iterations, given for each iteration
/// the events that it polled.
pub open spec fn state_after(state: RunState, polls: Seq<Seq<InputEvent>>) -> RunState
    decreases polls.len(),
{
    if polls.len() == 0 {
        state
    } else {
        next_state(state_after(state, polls.drop_last()), polls.last())
    }
}

/// The action of iteration `i` of a run that starts in `state`.
pub open spec fn action_at(state: RunState, polls: Seq<Seq<InputEvent>>, i: int) -> Action {
    action_for(state_after(state, polls.take(i)), polls[i])
}

/// Number of machine steps over a run of iterations.
pub open spec fn steps_taken(state: RunState, polls: Seq<Seq<InputEvent>>) -> nat
    decreases polls.len(),
{
    if polls.len() == 0 {
        0
    } else {
        steps_taken(state, polls.drop_last()) + core_steps(action_at(state, polls, polls.len() - 1))
    }
}

/// Number of frames rendered and presented over a run of iterations.
pub open spec fn frames_shown(state: RunState, polls: Seq<Seq<InputEvent>>) -> nat
    decreases polls.len(),
{
    if polls.len() == 0 {
        0
    } else {
        frames_shown(state, polls.drop_last()) + frames(action_at(state, polls, polls.len() - 1))
    }
}

/// Detecting a quit is idempotent: an iteration that polls the same events
/// again decides as the first did, and a terminated loop stays terminated
/// whatever it polls.
pub proof fn lemma_quit_detection_idempotent(state: RunState, events: Seq<InputEvent>, later: Seq<InputEvent>)
    ensures
        next_state(next_state(state, events), events) == next_state(state, events),
        next_state(RunState::Terminated, later) == RunState::Terminated,
        action_for(RunState::Terminated, later) == Action::Halt,
        quit_requested(events) ==> next_state(state, events) == RunState::Terminated && action_for(
            state,
            events,
        ) == Action::Halt,
{
}

/// A loop is still running after a run of iterations exactly when it started
/// running and no iteration polled a quit request.
pub proof fn lemma_running_means_no_quit(state: RunState, polls: Seq<Seq<InputEvent>>)
    ensures
        state_after(state, polls) == RunState::Running <==> state == RunState::Running && forall|i: int|
            0 <= i < polls.len() ==> !quit_requested(#[trigger] polls[i]),
    decreases polls.len(),
{
    if polls.len() > 0 {
        let earlier = polls.drop_last();
        lemma_running_means_no_quit(state, earlier);
        if state_after(state, polls) == RunState::Running {
            assert forall|i: int| 0 <= i < polls.len() implies !quit_requested(#[trigger] polls[i]) by {
                if i < earlier.len() {
                    assert(earlier[i] == polls[i]);
                }
            }
        } else if state == RunState::Running {
            if state_after(state, earlier) == RunState::Running {
                assert(quit_requested(polls[polls.len() - 1]));
            } else {
                let i = choose|i: int| 0 <= i < earlier.len() && quit_requested(#[trigger] earlier[i]);
                assert(quit_requested(polls[i]));
            }
        }
    }
}

/// Each iteration in which the loop does not terminate performs exactly one
/// machine step and shows exactly one frame; the iteration that detects the
/// quit, and every iteration of a terminated loop, performs none.
pub proof fn lemma_one_step_per_live_iteration(state: RunState, polls: Seq<Seq<InputEvent>>, i: int)
    requires
        0 <= i < polls.len(),
    ensures
        state_after(state, polls.take(i + 1)) == RunState::Running ==> core_steps(
            action_at(state, polls, i),
        ) == 1 && frames(action_at(state, polls, i)) == 1,
        state_after(state, polls.take(i + 1)) == RunState::Terminated ==> core_steps(
            action_at(state, polls, i),
        ) == 0 && frames(action_at(state, polls, i)) == 0,
{
    let upto = polls.take(i + 1);
    assert(upto.drop_last() == polls.take(i));
    assert(upto.last() == polls[i]);
}

/// Over a run of iterations a frame is shown for every machine step, and
/// there are no more steps than iterations.
pub proof fn lemma_steps_and_frames(state: RunState, polls: Seq<Seq<InputEvent>>)
    ensures
        frames_shown(state, polls) == steps_taken(state, polls),
        steps_taken(state, polls) <= polls.len(),
    decreases polls.len(),
{
    if polls.len() > 0 {
        lemma_steps_and_frames(state, polls.drop_last());
    }
}

/// A loop that is still running after a run of iterations has stepped the
/// machine once in each of them.
pub proof fn lemma_running_loop_stepped_each_time(state: RunState, polls: Seq<Seq<InputEvent>>)
    requires
        state_after(state, polls) == RunState::Running,
    ensures
        steps_taken(state, polls) == polls.len(),
    decreases polls.len(),
{
    if polls.len() > 0 {
        let earlier = polls.drop_last();
        assert(polls.take(polls.len() - 1) == earlier);
        lemma_running_loop_stepped_each_time(state, earlier);
    }
}

/// Termination is immediate and final: from the iteration that polls a quit
/// request on, every iteration halts and the loop is terminated, so that no
/// further step or frame occurs in that or any later iteration.
pub proof fn lemma_quit_is_final(state: RunState, polls: Seq<Seq<InputEvent>>, quit_at: int, i: int)
    requires
        0 <= quit_at <= i < polls.len(),
        quit_requested(polls[quit_at]),
    ensures
        action_at(state, polls, i) == Action::Halt,
        state_after(state, polls.take(i + 1)) == RunState::Terminated,
        core_steps(action_at(state, polls, i)) == 0,
        frames(action_at(state, polls, i)) == 0,
{
    let upto = polls.take(i + 1);
    assert(upto.drop_last() == polls.take(i));
    assert(upto.last() == polls[i]);
    lemma_running_means_no_quit(state, upto);
    assert(upto[quit_at] == polls[quit_at]);
}

/// The machine is stepped once for every iteration before the first quit
/// request and never after: a running loop whose first quit request comes in
/// iteration `quit_at` has taken `quit_at` steps, however many iterations
/// follow.
pub proof fn lemma_steps_stop_at_quit(polls: Seq<Seq<InputEvent>>, quit_at: int)
    requires
        0 <= quit_at < polls.len(),
        quit_requested(polls[quit_at]),
        forall|i: int| 0 <= i < quit_at ==> !quit_requested(#[trigger] polls[i]),
    ensures
        steps_taken(RunState::Running, polls) == quit_at,
        frames_shown(RunState::Running, polls) == quit_at,
    decreases polls.len(),
{
    let state = RunState::Running;
    let earlier = polls.drop_last();
    let last = polls.len() - 1;
    assert(polls.take(last) == earlier);
    lemma_steps_and_frames(state, polls);
    if quit_at == last {
        lemma_running_means_no_quit(state, earlier);
        assert forall|i: int| 0 <= i < earlier.len() implies !quit_requested(#[trigger] earlier[i]) by {
            assert(earlier[i] == polls[i]);
        }
        lemma_running_loop_stepped_each_time(state, earlier);
    } else {
        assert(earlier[quit_at] == polls[quit_at]);
        assert forall|i: int| 0 <= i < quit_at implies !quit_requested(#[trigger] earlier[i]) by {
            assert(earlier[i] == polls[i]);
        }
        lemma_steps_stop_at_quit(earlier, quit_at);
        lemma_quit_is_final(state, polls, quit_at, last);
    }
}

/// A terminated loop never steps the machine or shows a frame again.
pub proof fn lemma_terminated_loop_is_idle(polls: Seq<Seq<InputEvent>>)
    ensures
        state_after(RunState::Terminated, polls) == RunState::Terminated,
        steps_taken(RunState::Terminated, polls) == 0,
        frames_shown(RunState::Terminated, polls) == 0,
    decreases polls.len(),
{
    if polls.len() > 0 {
        let earlier = polls.drop_last();
        assert(polls.take(polls.len() - 1) == earlier);
        lemma_terminated_loop_is_idle(earlier);
    }
}

} // verus!
