//! The status channel's vocabulary and the supervisor's decision policy:
//! which lifecycle events are connection-local (log and continue) and which
//! are service-fatal (log and terminate). The channel itself and the actual
//! waiting live with the caller; this module classifies and decides.

use vstd::prelude::*;

verus! {

/// A lifecycle event pushed by a long-running task onto the status channel.
/// This closed set of four kinds is the entire vocabulary the supervisor
/// understands.
#[derive(Clone, PartialEq, Eq, Debug)]
pub enum State {
    /// Normal periodic progress.
    Healthy(String),
    /// An inbound-session-accepting subsystem terminated.
    DownstreamShutdown(String),
    /// The upstream data source the service depends on became unreachable.
    TemplateProviderShutdown(String),
    /// One individual peer connection ended; not fatal to the process.
    DownstreamInstanceDropped(u32),
}

/// The level at which an event is logged.
#[derive(Clone, Copy, PartialEq, Eq, Structural, Debug)]
pub enum Severity {
    Info,
    Warn,
    Error,
}

/// Whether the supervisor keeps looping after an event.
#[derive(Clone, Copy, PartialEq, Eq, Structural, Debug)]
pub enum Disposition {
    Continue,
    Break,
}

/// What the supervisor waits on each iteration: the next status event, the
/// process-level interrupt, or the failure to listen for it at all.
#[derive(Clone, PartialEq, Eq, Debug)]
pub enum LoopInput {
    Status(State),
    Interrupt,
    InterruptUnavailable,
}

/// Why the supervisor loop ended.
#[derive(Clone, Copy, PartialEq, Eq, Structural, Debug)]
pub enum ExitReason {
    /// The interrupt signal arrived: log and wind down gracefully.
    Interrupted,
    /// Listening for the interrupt failed: halt at once, nonzero status.
    SignalListenFailed,
    /// A `TemplateProviderShutdown` event: the service cannot make forward
    /// progress without its upstream dependency.
    UpstreamShutdown,
}

/// The policy table: how each event kind is logged and whether the loop
/// survives it. A pure function of the event's kind alone — the payload
/// never matters.
pub open spec fn spec_classify(s: State) -> (Severity, Disposition) {
    match s {
        State::Healthy(_) => (Severity::Info, Disposition::Continue),
        State::DownstreamShutdown(_) => (Severity::Error, Disposition::Continue),
        State::TemplateProviderShutdown(_) => (Severity::Error, Disposition::Break),
        State::DownstreamInstanceDropped(_) => (Severity::Warn, Disposition::Continue),
    }
}

/// One supervisor iteration: the severity of the line it logs and the exit,
/// if this input ends the loop.
pub open spec fn spec_supervise_step(input: LoopInput) -> (Severity, Option<ExitReason>) {
    match input {
        LoopInput::Interrupt => (Severity::Info, Some(ExitReason::Interrupted)),
        LoopInput::InterruptUnavailable => (
            Severity::Error,
            Some(ExitReason::SignalListenFailed),
        ),
        LoopInput::Status(s) => {
            let c = spec_classify(s);
            (c.0, if c.1 is Break { Some(ExitReason::UpstreamShutdown) } else { None })
        },
    }
}

/// The supervisor loop over a script of inputs: the severities it logs, in
/// order, and how it ends. It processes inputs strictly in order and stops
/// at the first one whose step decides an exit; nothing after that point is
/// looked at. `None` means the script ran out with the loop still waiting.
pub open spec fn spec_supervise(inputs: Seq<LoopInput>) -> (Seq<Severity>, Option<ExitReason>)
    decreases inputs.len(),
{
    if inputs.len() == 0 {
        (Seq::<Severity>::empty(), None::<ExitReason>)
    } else {
        let st = spec_supervise_step(inputs[0]);
        if st.1 is Some {
            (seq![st.0], st.1)
        } else {
            let rest = spec_supervise(inputs.drop_first());
            (seq![st.0] + rest.0, rest.1)
        }
    }
}

/// Executable classification, exact to the policy table.
pub fn classify(s: &State) -> (r: (Severity, Disposition))
    ensures
        r == spec_classify(*s),
{
    match s {
        State::Healthy(_) => (Severity::Info, Disposition::Continue),
        State::DownstreamShutdown(_) => (Severity::Error, Disposition::Continue),
        State::TemplateProviderShutdown(_) => (Severity::Error, Disposition::Break),
        State::DownstreamInstanceDropped(_) => (Severity::Warn, Disposition::Continue),
    }
}

/// Decides one supervisor iteration for the caller that drives the real
/// channel: how to log the input and whether to exit.
pub fn supervise_step(input: &LoopInput) -> (r: (Severity, Option<ExitReason>))
    ensures
        r == spec_supervise_step(*input),
{
    match input {
        LoopInput::Interrupt => (Severity::Info, Some(ExitReason::Interrupted)),
        LoopInput::InterruptUnavailable => (
            Severity::Error,
            Some(ExitReason::SignalListenFailed),
        ),
        LoopInput::Status(s) => {
            let c = classify(s);
            let exit = if matches!(c.1, Disposition::Break) {
                Some(ExitReason::UpstreamShutdown)
            } else {
                None
            };
            (c.0, exit)
        },
    }
}

/// The process exit status an exit reason calls for: success for a graceful
/// wind-down, the distinguished nonzero status when the interrupt could not
/// even be listened for.
pub fn exit_status(reason: &ExitReason) -> (code: i32)
    ensures
        code == 0 <==> !(reason is SignalListenFailed),
        reason is SignalListenFailed ==> code == 1,
{
    match reason {
        ExitReason::Interrupted => 0,
        ExitReason::SignalListenFailed => 1,
        ExitReason::UpstreamShutdown => 0,
    }
}

/// Runs the supervisor loop over a script of inputs: logs (as severities, in
/// order) and the exit, `None` if the script ran out with the loop still
/// waiting on the channel.
pub fn run_supervisor(inputs: &Vec<LoopInput>) -> (r: (Vec<Severity>, Option<ExitReason>))
    ensures
        r.0@ == spec_supervise(inputs@).0,
        r.1 == spec_supervise(inputs@).1,
{
    let mut logs: Vec<Severity> = Vec::new();
    let mut exit: Option<ExitReason> = None;
    let mut i: usize = 0;
    proof {
        assert(inputs@.skip(0) =~= inputs@);
        assert(logs@ + spec_supervise(inputs@).0 =~= spec_supervise(inputs@).0);
    }
    while i < inputs.len() && exit.is_none()
        invariant
            i <= inputs@.len(),
            exit is None ==> logs@ + spec_supervise(inputs@.skip(i as int)).0 == spec_supervise(
                inputs@,
            ).0,
            exit is None ==> spec_supervise(inputs@.skip(i as int)).1 == spec_supervise(
                inputs@,
            ).1,
            exit matches Some(e) ==> logs@ == spec_supervise(inputs@).0 && spec_supervise(
                inputs@,
            ).1 == Some(e),
        decreases inputs@.len() - i,
    {
        let ghost pre = inputs@.skip(i as int);
        proof {
            assert(pre[0] == inputs@[i as int]);
            assert(pre.drop_first() =~= inputs@.skip(i + 1));
        }
        let ghost logs_pre = logs@;
        let step = supervise_step(&inputs[i]);
        logs.push(step.0);
        proof {
            assert(logs@ =~= logs_pre + seq![step.0]);
            assert(logs_pre + seq![step.0] + spec_supervise(inputs@.skip(i + 1)).0 =~= logs_pre + (
            seq![step.0] + spec_supervise(inputs@.skip(i + 1)).0));
        }
        if let Some(e) = step.1 {
            exit = Some(e);
        }
        i = i + 1;
    }
    proof {
        if exit is None {
            assert(inputs@.skip(i as int) =~= Seq::<LoopInput>::empty());
            assert(logs@ + Seq::<Severity>::empty() =~= logs@);
        }
    }
    (logs, exit)
}

/// Law: classification is idempotent — it depends on the event's kind alone,
/// so feeding the supervisor the same `Healthy` event any number of times
/// yields the same continue decision every time, and a whole script of
/// continue-classified events never terminates the loop: every one of them
/// is logged and the loop is still waiting afterwards.
pub proof fn lemma_benign_events_never_terminate(inputs: Seq<LoopInput>)
    requires
        forall|j: int|
            0 <= j < inputs.len() ==> (#[trigger] inputs[j] matches LoopInput::Status(s)
                && spec_classify(s).1 is Continue),
    ensures
        spec_supervise(inputs).1 is None,
        spec_supervise(inputs).0.len() == inputs.len(),
    decreases inputs.len(),
{
    if inputs.len() > 0 {
        assert(inputs[0] matches LoopInput::Status(s) && spec_classify(s).1 is Continue);
        lemma_benign_events_never_terminate(inputs.drop_first());
    }
}

/// Law: one `TemplateProviderShutdown` always terminates the loop, whatever
/// `Healthy` or `DownstreamInstanceDropped` traffic preceded it: exactly the
/// events up to and including it are logged, and the loop exits for the
/// upstream shutdown.
pub proof fn lemma_upstream_shutdown_terminates(inputs: Seq<LoopInput>, i: int)
    requires
        0 <= i < inputs.len(),
        inputs[i] matches LoopInput::Status(s) && s is TemplateProviderShutdown,
        forall|j: int|
            0 <= j < i ==> (#[trigger] inputs[j] matches LoopInput::Status(t) && (t is Healthy
                || t is DownstreamInstanceDropped)),
    ensures
        spec_supervise(inputs).1 == Some(ExitReason::UpstreamShutdown),
        spec_supervise(inputs).0.len() == i + 1,
    decreases i,
{
    if i == 0 {
    } else {
        assert(inputs[0] matches LoopInput::Status(t) && (t is Healthy
            || t is DownstreamInstanceDropped));
        let rest = inputs.drop_first();
        assert(rest[i - 1] == inputs[i]);
        assert forall|j: int| 0 <= j < i - 1 implies (#[trigger] rest[j] matches LoopInput::Status(
            t,
        ) && (t is Healthy || t is DownstreamInstanceDropped)) by {
            assert(rest[j] == inputs[j + 1]);
        }
        lemma_upstream_shutdown_terminates(rest, i - 1);
    }
}

} // verus!
