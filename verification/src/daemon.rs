//! The life of the daemon: what it does on each signal, and how it keeps trying to reach the
//! server ahead of the next session.

use vstd::prelude::*;

verus! {

/// How long an activation waits for the connection that was opened ahead of it, in milliseconds.
pub const PRECONNECT_WAIT_MS: u64 = 50;

/// The pause after the first failed attempt to connect, in seconds.
pub const FIRST_DELAY_SECS: u64 = 2;

/// The longest pause between two attempts to connect, in seconds.
pub const MAX_DELAY_SECS: u64 = 30;

/// Where the daemon stands.
#[derive(Debug, Clone, Copy, PartialEq, Eq, Structural)]
pub enum Phase {
    /// No session is open.
    Inactive,
    /// A session is being opened.
    Activating,
    /// A session is open.
    Active,
    /// The session is being closed.
    Deactivating,
    /// The session is being closed and the daemon exits after it.
    Stopping,
    /// The daemon is through.
    Stopped,
}

/// What happens to the daemon.
#[derive(Debug, Clone, Copy, PartialEq, Eq, Structural)]
pub enum Event {
    /// The signal that switches dictation on and off (SIGUSR1).
    Toggle,
    /// The signal that only switches it off (SIGUSR2).
    Stop,
    /// A signal to shut down (SIGTERM or SIGINT).
    Terminate,
    /// The session was opened.
    Activated,
    /// The session could not be opened.
    ActivationFailed,
    /// The session was closed.
    Deactivated,
}

/// What the daemon does about it.
#[derive(Debug, Clone, Copy, PartialEq, Eq, Structural)]
pub enum Action {
    /// Wait for what happens next.
    Wait,
    /// Connect to the server in the background, for the next session.
    Preconnect,
    /// Open a session, on the connection that was opened ahead if it is ready.
    Activate,
    /// Close the session.
    Deactivate,
    /// Exit.
    Exit,
}

/// The phase after `event`.
pub open spec fn next_phase(phase: Phase, event: Event) -> Phase {
    match (phase, event) {
        (Phase::Inactive, Event::Toggle) => Phase::Activating,
        (Phase::Inactive, Event::Terminate) => Phase::Stopped,
        (Phase::Activating, Event::Activated) => Phase::Active,
        (Phase::Activating, Event::ActivationFailed) => Phase::Inactive,
        (Phase::Active, Event::Toggle) => Phase::Deactivating,
        (Phase::Active, Event::Stop) => Phase::Deactivating,
        (Phase::Active, Event::Terminate) => Phase::Stopping,
        (Phase::Deactivating, Event::Deactivated) => Phase::Inactive,
        (Phase::Stopping, Event::Deactivated) => Phase::Stopped,
        _ => phase,
    }
}

/// What is done on entering a phase.
pub open spec fn entry_action(phase: Phase) -> Action {
    match phase {
        Phase::Inactive => Action::Preconnect,
        Phase::Activating => Action::Activate,
        Phase::Active => Action::Wait,
        Phase::Deactivating => Action::Deactivate,
        Phase::Stopping => Action::Deactivate,
        Phase::Stopped => Action::Exit,
    }
}

/// What is done on `event`: what entering the new phase asks for, if it is a new one.
pub open spec fn action_on(phase: Phase, event: Event) -> Action {
    if next_phase(phase, event) == phase {
        Action::Wait
    } else {
        entry_action(next_phase(phase, event))
    }
}

/// The daemon between two events.
#[derive(Debug)]
pub struct Daemon {
    pub phase: Phase,
}

impl Daemon {
    /// Starts the daemon without a session, and tells what to do first: to connect ahead of the
    /// first one.
    pub fn start() -> (r: (Self, Action))
        ensures
            r.0.phase == Phase::Inactive,
            r.1 == Action::Preconnect,
    {
        (Daemon { phase: Phase::Inactive }, Action::Preconnect)
    }

    /// Takes in what happened and tells what to do about it.
    pub fn handle(&mut self, event: Event) -> (action: Action)
        ensures
            final(self).phase == next_phase(old(self).phase, event),
            action == action_on(old(self).phase, event),
    {
        let (phase, action) = match (self.phase, event) {
            (Phase::Inactive, Event::Toggle) => (Phase::Activating, Action::Activate),
            (Phase::Inactive, Event::Terminate) => (Phase::Stopped, Action::Exit),
            (Phase::Activating, Event::Activated) => (Phase::Active, Action::Wait),
            (Phase::Activating, Event::ActivationFailed) => (Phase::Inactive, Action::Preconnect),
            (Phase::Active, Event::Toggle) => (Phase::Deactivating, Action::Deactivate),
            (Phase::Active, Event::Stop) => (Phase::Deactivating, Action::Deactivate),
            (Phase::Active, Event::Terminate) => (Phase::Stopping, Action::Deactivate),
            (Phase::Deactivating, Event::Deactivated) => (Phase::Inactive, Action::Preconnect),
            (Phase::Stopping, Event::Deactivated) => (Phase::Stopped, Action::Exit),
            (phase, _) => (phase, Action::Wait),
        };
        self.phase = phase;
        action
    }
}

/// The phase after `signal`, once what it sets off is through; `opens` tells whether a session can
/// be opened.
pub open spec fn settled(phase: Phase, signal: Event, opens: bool) -> Phase {
    let next = next_phase(phase, signal);
    match next {
        Phase::Activating => next_phase(
            next,
            if opens {
                Event::Activated
            } else {
                Event::ActivationFailed
            },
        ),
        Phase::Deactivating => next_phase(next, Event::Deactivated),
        Phase::Stopping => next_phase(next, Event::Deactivated),
        _ => next,
    }
}

/// Whether the daemon waits for signals.
pub open spec fn resting(phase: Phase) -> bool {
    phase == Phase::Inactive || phase == Phase::Active
}

/// Each toggle flips between no session and a session, where one can be opened; two of them lead
/// back.
pub proof fn law_toggle_flips(phase: Phase)
    requires
        resting(phase),
    ensures
        resting(settled(phase, Event::Toggle, true)),
        settled(phase, Event::Toggle, true) != phase,
        settled(settled(phase, Event::Toggle, true), Event::Toggle, true) == phase,
{
}

/// A session that cannot be opened leaves the daemon without one, connecting ahead of the next.
pub proof fn law_failed_activation_leaves_inactive()
    ensures
        settled(Phase::Inactive, Event::Toggle, false) == Phase::Inactive,
        action_on(Phase::Activating, Event::ActivationFailed) == Action::Preconnect,
{
}

/// The stop signal leads to no session from anywhere, and does nothing where there is none.
pub proof fn law_stop_only_deactivates(phase: Phase, opens: bool)
    requires
        resting(phase),
    ensures
        settled(phase, Event::Stop, opens) == Phase::Inactive,
        phase == Phase::Inactive ==> action_on(phase, Event::Stop) == Action::Wait,
{
}

/// A signal to shut down always ends the daemon, and closes an open session first.
pub proof fn law_terminate_closes_the_session_and_exits(phase: Phase, opens: bool)
    requires
        resting(phase),
    ensures
        settled(phase, Event::Terminate, opens) == Phase::Stopped,
        phase == Phase::Active ==> action_on(phase, Event::Terminate) == Action::Deactivate
            && action_on(Phase::Stopping, Event::Deactivated) == Action::Exit,
        phase == Phase::Inactive ==> action_on(phase, Event::Terminate) == Action::Exit,
{
}

/// The daemon connects ahead exactly when it comes to have no session.
pub proof fn law_preconnects_whenever_inactive(phase: Phase, event: Event)
    ensures
        action_on(phase, event) == Action::Preconnect <==> phase != Phase::Inactive && next_phase(
            phase,
            event,
        ) == Phase::Inactive,
{
}

/// The pause that follows one of `secs` seconds.
pub open spec fn next_delay(secs: nat) -> nat {
    if 2 * secs <= MAX_DELAY_SECS {
        2 * secs
    } else {
        MAX_DELAY_SECS as nat
    }
}

/// The pause, in seconds, after one more failure than `failures`.
pub open spec fn delay_after(failures: nat) -> nat
    decreases failures,
{
    if failures == 0 {
        FIRST_DELAY_SECS as nat
    } else {
        next_delay(delay_after((failures - 1) as nat))
    }
}

/// The pauses between attempts to connect: each is twice as long as the one before, up to a limit.
#[derive(Debug)]
pub struct Backoff {
    pub delay_secs: u64,
}

impl Backoff {
    pub open spec fn well_formed(&self) -> bool {
        FIRST_DELAY_SECS <= self.delay_secs <= MAX_DELAY_SECS
    }

    pub fn new() -> (backoff: Self)
        ensures
            backoff.well_formed(),
            backoff.delay_secs == delay_after(0),
    {
        Backoff { delay_secs: FIRST_DELAY_SECS }
    }

    /// Takes in a failed attempt and returns how many seconds to pause before the next one.
    pub fn failed(&mut self) -> (secs: u64)
        requires
            old(self).well_formed(),
        ensures
            final(self).well_formed(),
            secs == old(self).delay_secs,
            final(self).delay_secs == next_delay(old(self).delay_secs as nat),
    {
        let secs = self.delay_secs;
        let doubled: u64 = 2 * secs;
        self.delay_secs = if doubled <= MAX_DELAY_SECS {
            doubled
        } else {
            MAX_DELAY_SECS
        };
        secs
    }
}

/// The pauses never shrink, and stay between the first and the longest one.
pub proof fn law_delays_grow_to_the_limit(failures: nat)
    ensures
        FIRST_DELAY_SECS <= delay_after(failures) <= delay_after(failures + 1) <= MAX_DELAY_SECS,
    decreases failures,
{
    if failures > 0 {
        law_delays_grow_to_the_limit((failures - 1) as nat);
    }
}

/// From the fifth failure on the pause is the longest one.
pub proof fn law_delays_reach_the_limit(failures: nat)
    requires
        failures >= 4,
    ensures
        delay_after(failures) == MAX_DELAY_SECS,
    decreases failures,
{
    if failures == 4 {
        reveal_with_fuel(delay_after, 5);
    } else {
        law_delays_reach_the_limit((failures - 1) as nat);
    }
}

/// The whole life of the daemon: a session is opened by a toggle and closed by a toggle, a stop or a
/// signal to shut down; what was begun ends as it is reported to; and any other event, at any time,
/// changes nothing and asks for nothing.
pub proof fn law_life_of_the_daemon(phase: Phase, event: Event)
    ensures
        ({
            let (next, action) = (next_phase(phase, event), action_on(phase, event));
            if phase == Phase::Inactive && event == Event::Toggle {
                next == Phase::Activating && action == Action::Activate
            } else if phase == Phase::Activating && event == Event::Activated {
                next == Phase::Active && action == Action::Wait
            } else if phase == Phase::Activating && event == Event::ActivationFailed {
                next == Phase::Inactive && action == Action::Preconnect
            } else if phase == Phase::Active && (event == Event::Toggle || event == Event::Stop) {
                next == Phase::Deactivating && action == Action::Deactivate
            } else if phase == Phase::Active && event == Event::Terminate {
                next == Phase::Stopping && action == Action::Deactivate
            } else if phase == Phase::Deactivating && event == Event::Deactivated {
                next == Phase::Inactive && action == Action::Preconnect
            } else if (phase == Phase::Stopping && event == Event::Deactivated) || (phase
                == Phase::Inactive && event == Event::Terminate) {
                next == Phase::Stopped && action == Action::Exit
            } else {
                next == phase && action == Action::Wait
            }
        }),
{
}

/// A pause is followed by one of twice its length, or of thirty seconds where that would be longer;
/// the first is of two seconds.
pub proof fn law_pauses_double_up_to_thirty_seconds(secs: nat, failures: nat)
    ensures
        2 * secs <= 30 ==> next_delay(secs) == 2 * secs,
        2 * secs > 30 ==> next_delay(secs) == 30,
        delay_after(0) == 2,
        delay_after(failures + 1) == next_delay(delay_after(failures)),
        PRECONNECT_WAIT_MS == 50,
{
}

} // verus!
