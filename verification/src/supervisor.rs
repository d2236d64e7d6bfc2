//! The supervisor's state and the decisions it takes.
//!
//! The host owns the child process and does the reading, the writing and
//! the waiting. Each time something happens it tells the supervisor, which
//! updates its state and says what the host has to do: wake the readers of
//! the port, release the shutdown wait, hand a line to the log, write the
//! shutdown command, wait, or kill the child.

use crate::framing::{
    complete_lines, decoded, lemma_cut_anywhere, line_text, lines_view, lossy_text, remainder,
    LineFramer,
};
use crate::parser::{classify, classify_spec, Level, ParsedLine, ParsedLineView};
use crate::port::{await_spec, publish_spec, AwaitStep, PortCell};
use crate::shutdown::{
    action_of, initial, kills_left, next_state, rank, requests_left, CoordinatorView,
    ShutdownAction, ShutdownCoordinator, ShutdownOp, ShutdownPhase, ShutdownSignal,
};
use vstd::prelude::*;

verus! {

/// What the host does about a line of the child's output.
#[derive(Debug, PartialEq, Eq)]
pub enum Effect {
    /// The port was just discovered: wake every reader that waits for it.
    PortDiscovered(u16),
    /// The shutdown signal just fired: release the shutdown wait.
    ShutdownSignalled,
    /// Hand the text to the log at this severity, with the child as source.
    Forward(Level, String),
    /// Log, as a warning, a port announcement that could not be read.
    Malformed(String),
}

/// [`Effect`] with its text as a sequence of characters.
pub enum EffectView {
    PortDiscovered(u16),
    ShutdownSignalled,
    Forward(Level, Seq<char>),
    Malformed(Seq<char>),
}

impl View for Effect {
    type V = EffectView;

    open spec fn view(&self) -> EffectView {
        match self {
            Effect::PortDiscovered(port) => EffectView::PortDiscovered(*port),
            Effect::ShutdownSignalled => EffectView::ShutdownSignalled,
            Effect::Forward(level, text) => EffectView::Forward(*level, text@),
            Effect::Malformed(text) => EffectView::Malformed(text@),
        }
    }
}

/// The effect, if there is one, as a value of [`EffectView`].
pub open spec fn effect_view(effect: Option<Effect>) -> Option<EffectView> {
    match effect {
        Some(e) => Some(e@),
        None => None,
    }
}

/// The effects as values of [`EffectView`].
pub open spec fn effects_view(effects: Seq<Effect>) -> Seq<EffectView> {
    Seq::new(effects.len(), |i: int| effects[i]@)
}

/// State of a supervisor.
pub struct SupervisorView {
    /// Bytes of the output line that no newline has ended yet.
    pub pending: Seq<u8>,
    /// The discovered port.
    pub port: Option<u16>,
    /// Whether the shutdown signal has fired.
    pub signalled: bool,
    /// Where the shutdown stands.
    pub shutdown: CoordinatorView,
}

/// The state of a supervisor whose child has just been started.
pub open spec fn started() -> SupervisorView {
    SupervisorView { pending: Seq::empty(), port: None, signalled: false, shutdown: initial() }
}

/// The state after a line: an announcement sets an unset port, an
/// acknowledgement fires the signal, any other line changes nothing.
pub open spec fn after_line(s: SupervisorView, line: Seq<char>) -> SupervisorView {
    match classify_spec(line) {
        ParsedLineView::PortAnnouncement(port) => SupervisorView {
            port: publish_spec(s.port, port),
            ..s
        },
        ParsedLineView::ShutdownAck => SupervisorView { signalled: true, ..s },
        _ => s,
    }
}

/// What the host does about a line: nothing for an announcement after the
/// first and for an acknowledgement after the signal has fired.
pub open spec fn effect_of_line(s: SupervisorView, line: Seq<char>) -> Option<EffectView> {
    match classify_spec(line) {
        ParsedLineView::PortAnnouncement(port) => if s.port is None {
            Some(EffectView::PortDiscovered(port))
        } else {
            None
        },
        ParsedLineView::ShutdownAck => if s.signalled {
            None
        } else {
            Some(EffectView::ShutdownSignalled)
        },
        ParsedLineView::Diagnostic(level, text) => Some(EffectView::Forward(level, text)),
        ParsedLineView::Unrecognized(text) => Some(EffectView::Malformed(text)),
    }
}

/// The state after the lines, in order.
pub open spec fn after_lines(s: SupervisorView, lines: Seq<Seq<char>>) -> SupervisorView
    decreases lines.len(),
{
    if lines.len() == 0 {
        s
    } else {
        after_line(after_lines(s, lines.drop_last()), lines.last())
    }
}

/// What the host does about the lines, in order.
pub open spec fn effects_of_lines(s: SupervisorView, lines: Seq<Seq<char>>) -> Seq<EffectView>
    decreases lines.len(),
{
    if lines.len() == 0 {
        Seq::empty()
    } else {
        let before = lines.drop_last();
        match effect_of_line(after_lines(s, before), lines.last()) {
            Some(effect) => effects_of_lines(s, before).push(effect),
            None => effects_of_lines(s, before),
        }
    }
}

/// The lines that a chunk of output completes, as text.
pub open spec fn lines_of_chunk(s: SupervisorView, chunk: Seq<u8>) -> Seq<Seq<char>> {
    decoded(complete_lines(s.pending + chunk))
}

/// The state after a chunk of output: the unfinished line is kept, and the
/// completed lines are taken in order.
pub open spec fn after_chunk(s: SupervisorView, chunk: Seq<u8>) -> SupervisorView {
    after_lines(
        SupervisorView { pending: remainder(s.pending + chunk), ..s },
        lines_of_chunk(s, chunk),
    )
}

/// What the host does about a chunk of output.
pub open spec fn effects_of_chunk(s: SupervisorView, chunk: Seq<u8>) -> Seq<EffectView> {
    effects_of_lines(s, lines_of_chunk(s, chunk))
}

/// The state after the child has exited: the signal has fired.
pub open spec fn after_exit(s: SupervisorView) -> SupervisorView {
    SupervisorView { signalled: true, ..s }
}

/// The state after the child's output has ended: the line that no newline
/// has ended is dropped.
pub open spec fn after_output_end(s: SupervisorView) -> SupervisorView {
    SupervisorView { pending: Seq::empty(), ..s }
}

/// The state after a call on the shutdown coordinator.
pub open spec fn after_shutdown_op(s: SupervisorView, op: ShutdownOp) -> SupervisorView {
    SupervisorView { shutdown: next_state(s.shutdown, op), ..s }
}

/// One thing that happens to a supervisor: each is one call of a method of
/// [`ProcessPortSupervisor`].
pub enum Event {
    /// A line of output, as text.
    Line(Seq<char>),
    /// A chunk of output.
    Output(Seq<u8>),
    /// The child's output has ended.
    OutputEnded,
    /// The child has exited.
    Exited,
    /// A shutdown is requested with this grace period in milliseconds.
    ShutdownRequested(u64),
    /// The shutdown wait is looked at after this many milliseconds.
    ShutdownPolled(u64),
    /// The child was killed and reaped.
    Reaped,
}

/// The call on the shutdown coordinator that an event makes, if it makes one.
pub open spec fn shutdown_op(s: SupervisorView, event: Event) -> Option<ShutdownOp> {
    match event {
        Event::ShutdownRequested(grace_ms) => Some(ShutdownOp::Request(grace_ms)),
        Event::ShutdownPolled(elapsed_ms) => Some(ShutdownOp::Poll(s.signalled, elapsed_ms)),
        Event::Reaped => Some(ShutdownOp::Reaped),
        _ => None,
    }
}

/// The state after an event.
pub open spec fn after_event(s: SupervisorView, event: Event) -> SupervisorView {
    match event {
        Event::Line(line) => after_line(s, line),
        Event::Output(chunk) => after_chunk(s, chunk),
        Event::OutputEnded => after_output_end(s),
        Event::Exited => after_exit(s),
        _ => after_shutdown_op(s, shutdown_op(s, event)->0),
    }
}

/// What an event tells the host to do about the shutdown.
pub open spec fn told_by_event(s: SupervisorView, event: Event) -> ShutdownAction {
    match shutdown_op(s, event) {
        Some(op) => action_of(s.shutdown, op),
        None => ShutdownAction::Nothing,
    }
}

/// The state after the events, in order.
pub open spec fn after_events(s: SupervisorView, events: Seq<Event>) -> SupervisorView
    decreases events.len(),
{
    if events.len() == 0 {
        s
    } else {
        after_event(after_events(s, events.drop_last()), events.last())
    }
}

/// How often the events, in order from `s`, tell the host `action`.
pub open spec fn times_told_by_events(
    s: SupervisorView,
    events: Seq<Event>,
    action: ShutdownAction,
) -> nat
    decreases events.len(),
{
    if events.len() == 0 {
        0
    } else {
        let before = events.drop_last();
        let told: nat = if told_by_event(after_events(s, before), events.last()) == action {
            1
        } else {
            0
        };
        times_told_by_events(s, before, action) + told
    }
}

/// What holds through every history, whatever happens in whatever order:
/// a known port never changes, a fired signal stays fired, the shutdown
/// never moves back, and the host is told to send the shutdown request
/// exactly when the shutdown starts and to kill exactly when its wait ends,
/// so each at most once.
pub proof fn lemma_history(s: SupervisorView, events: Seq<Event>)
    ensures
        s.port is Some ==> after_events(s, events).port == s.port,
        s.signalled ==> after_events(s, events).signalled,
        rank(s.shutdown.phase) <= rank(after_events(s, events).shutdown.phase),
        times_told_by_events(s, events, ShutdownAction::SendRequest) + requests_left(
            after_events(s, events).shutdown.phase,
        ) == requests_left(s.shutdown.phase),
        times_told_by_events(s, events, ShutdownAction::KillAndReap) + kills_left(
            after_events(s, events).shutdown.phase,
        ) == kills_left(s.shutdown.phase),
    decreases events.len(),
{
    if events.len() > 0 {
        let before = events.drop_last();
        lemma_history(s, before);
        let mid = after_events(s, before);
        match events.last() {
            Event::Output(chunk) => {
                let kept = SupervisorView { pending: remainder(mid.pending + chunk), ..mid };
                lemma_lines_keep_the_rest(kept, lines_of_chunk(mid, chunk));
            },
            _ => {},
        }
    }
}

/// A supervisor's whole life: from the start of the child, whatever
/// happens, the shutdown request is sent at most once and the child is
/// killed at most once, and exactly once each by the time the shutdown wait
/// has ended.
pub proof fn lemma_child_is_killed_once(events: Seq<Event>)
    ensures
        times_told_by_events(started(), events, ShutdownAction::SendRequest) <= 1,
        times_told_by_events(started(), events, ShutdownAction::KillAndReap) <= 1,
        rank(after_events(started(), events).shutdown.phase) >= 2 ==> times_told_by_events(
            started(),
            events,
            ShutdownAction::SendRequest,
        ) == 1 && times_told_by_events(started(), events, ShutdownAction::KillAndReap) == 1,
{
    lemma_history(started(), events);
}

/// Lines change neither the unfinished line nor the shutdown; they leave a
/// known port as it is and a fired signal fired.
pub proof fn lemma_lines_keep_the_rest(s: SupervisorView, lines: Seq<Seq<char>>)
    ensures
        after_lines(s, lines).pending == s.pending,
        after_lines(s, lines).shutdown == s.shutdown,
        s.port is Some ==> after_lines(s, lines).port == s.port,
        s.signalled ==> after_lines(s, lines).signalled,
    decreases lines.len(),
{
    if lines.len() > 0 {
        lemma_lines_keep_the_rest(s, lines.drop_last());
    }
}

/// What lines do depends on the port and the signal alone: two states that
/// agree on these are told the same and agree on them afterwards.
pub proof fn lemma_lines_ignore_the_rest(a: SupervisorView, b: SupervisorView, lines: Seq<Seq<char>>)
    requires
        a.port == b.port,
        a.signalled == b.signalled,
    ensures
        effects_of_lines(a, lines) == effects_of_lines(b, lines),
        after_lines(a, lines).port == after_lines(b, lines).port,
        after_lines(a, lines).signalled == after_lines(b, lines).signalled,
    decreases lines.len(),
{
    if lines.len() > 0 {
        lemma_lines_ignore_the_rest(a, b, lines.drop_last());
    }
}

/// Lines taken in two runs are lines taken in one.
pub proof fn lemma_lines_in_two_runs(s: SupervisorView, first: Seq<Seq<char>>, second: Seq<Seq<char>>)
    ensures
        after_lines(s, first + second) == after_lines(after_lines(s, first), second),
        effects_of_lines(s, first + second) == effects_of_lines(s, first) + effects_of_lines(
            after_lines(s, first),
            second,
        ),
    decreases second.len(),
{
    if second.len() == 0 {
        assert(first + second =~= first);
        assert(effects_of_lines(s, first) + Seq::<EffectView>::empty() =~= effects_of_lines(
            s,
            first,
        ));
    } else {
        let all = first + second;
        lemma_lines_in_two_runs(s, first, second.drop_last());
        assert(all.drop_last() =~= first + second.drop_last());
        assert(all.last() == second.last());
        let mid = after_lines(s, first);
        match effect_of_line(after_lines(mid, second.drop_last()), second.last()) {
            Some(effect) => {
                assert(effects_of_lines(s, first) + effects_of_lines(mid, second.drop_last()).push(
                    effect,
                ) =~= (effects_of_lines(s, first) + effects_of_lines(
                    mid,
                    second.drop_last(),
                )).push(effect));
            },
            None => {},
        }
    }
}

/// Where the child's output is cut makes no difference: two chunks taken
/// one after the other leave the state, and tell the host, what the two
/// taken as one chunk do.
pub proof fn lemma_output_cut_anywhere(s: SupervisorView, a: Seq<u8>, b: Seq<u8>)
    ensures
        after_chunk(after_chunk(s, a), b) == after_chunk(s, a + b),
        effects_of_chunk(s, a) + effects_of_chunk(after_chunk(s, a), b) == effects_of_chunk(
            s,
            a + b,
        ),
{
    let stream = s.pending + a;
    let whole = s.pending + (a + b);
    assert(whole =~= stream + b);
    lemma_cut_anywhere(stream, b);
    let first = decoded(complete_lines(stream));
    let second = decoded(complete_lines(remainder(stream) + b));
    assert(decoded(complete_lines(whole)) =~= first + second);
    let kept = SupervisorView { pending: remainder(stream), ..s };
    let mid = after_chunk(s, a);
    lemma_lines_keep_the_rest(kept, first);
    let kept_whole = SupervisorView { pending: remainder(whole), ..s };
    lemma_lines_in_two_runs(kept_whole, first, second);
    lemma_lines_in_two_runs(s, first, second);
    lemma_lines_ignore_the_rest(kept, kept_whole, first);
    lemma_lines_ignore_the_rest(s, kept_whole, first);
    lemma_lines_keep_the_rest(kept_whole, first);
    lemma_lines_ignore_the_rest(mid, after_lines(s, first), second);
}

/// A port announcement that cannot be read is harmless: it changes nothing,
/// so a later announcement is taken exactly as if the malformed one had
/// never come.
pub proof fn lemma_malformed_is_harmless(s: SupervisorView, malformed: Seq<char>, later: Seq<char>)
    requires
        classify_spec(malformed) is Unrecognized,
    ensures
        after_line(s, malformed) == s,
        effect_of_line(s, malformed) == Some(EffectView::Malformed(malformed)),
        after_line(after_line(s, malformed), later) == after_line(s, later),
        effect_of_line(after_line(s, malformed), later) == effect_of_line(s, later),
{
}

/// The first announcement decides the port: once a line has announced a
/// port to a supervisor that knew none, no later lines change it, and every
/// reader is handed it.
pub proof fn lemma_first_announcement_wins(
    s: SupervisorView,
    first: Seq<char>,
    later: Seq<Seq<char>>,
    elapsed_ms: u64,
    timeout_ms: u64,
)
    requires
        s.port is None,
        classify_spec(first) is PortAnnouncement,
    ensures
        after_lines(after_line(s, first), later).port == Some(classify_spec(first)->PortAnnouncement_0),
        await_spec(after_lines(after_line(s, first), later).port, elapsed_ms, timeout_ms)
            == AwaitStep::Ready(classify_spec(first)->PortAnnouncement_0),
{
    lemma_lines_keep_the_rest(after_line(s, first), later);
}

/// Supervisor of one child process: the state that the child's output and
/// the host's calls act on.
pub struct ProcessPortSupervisor {
    framer: LineFramer,
    port: PortCell,
    signal: ShutdownSignal,
    coordinator: ShutdownCoordinator,
}

impl View for ProcessPortSupervisor {
    type V = SupervisorView;

    closed spec fn view(&self) -> SupervisorView {
        SupervisorView {
            pending: self.framer@,
            port: self.port@,
            signalled: self.signal@,
            shutdown: self.coordinator@,
        }
    }
}

impl ProcessPortSupervisor {
    /// The supervisor of a child that has just been started.
    pub fn new() -> (supervisor: Self)
        ensures
            supervisor@ == started(),
    {
        ProcessPortSupervisor {
            framer: LineFramer::new(),
            port: PortCell::new(),
            signal: ShutdownSignal::new(),
            coordinator: ShutdownCoordinator::new(),
        }
    }

    /// Takes one line of the child's output, given as text without its
    /// newline, and returns what the host does about it.
    pub fn on_line(&mut self, line: &str) -> (effect: Option<Effect>)
        ensures
            final(self)@ == after_line(old(self)@, line@),
            effect_view(effect) == effect_of_line(old(self)@, line@),
    {
        match classify(line) {
            ParsedLine::PortAnnouncement(port) => {
                if self.port.publish(port) {
                    Some(Effect::PortDiscovered(port))
                } else {
                    None
                }
            },
            ParsedLine::ShutdownAck => {
                if self.signal.fire() {
                    Some(Effect::ShutdownSignalled)
                } else {
                    None
                }
            },
            ParsedLine::Diagnostic(level, text) => Some(Effect::Forward(level, text)),
            ParsedLine::Unrecognized(text) => Some(Effect::Malformed(text)),
        }
    }

    /// Takes the next chunk of the child's output, wherever the stream was
    /// cut, and returns what the host does about the lines that the chunk
    /// completes, in their order.
    pub fn on_stdout(&mut self, chunk: &[u8]) -> (effects: Vec<Effect>)
        ensures
            final(self)@ == after_chunk(old(self)@, chunk@),
            effects_view(effects@) == effects_of_chunk(old(self)@, chunk@),
    {
        let ghost before = self@;
        let lines = self.framer.push(chunk);
        let ghost kept = self@;
        let ghost texts = lines_of_chunk(before, chunk@);
        let mut effects: Vec<Effect> = Vec::new();
        let mut i: usize = 0;
        proof {
            assert(texts.take(0) =~= Seq::<Seq<char>>::empty());
            assert(effects_view(effects@) =~= Seq::<EffectView>::empty());
            assert(lines_view(lines@).len() == lines.len());
        }
        while i < lines.len()
            invariant
                i <= lines.len(),
                texts.len() == lines.len(),
                forall|k: int| 0 <= k < lines.len() ==> texts[k] == lossy_text(#[trigger] lines[k]@),
                kept == (SupervisorView { pending: remainder(before.pending + chunk@), ..before }),
                self@ == after_lines(kept, texts.take(i as int)),
                effects_view(effects@) == effects_of_lines(kept, texts.take(i as int)),
            decreases lines.len() - i,
        {
            let text = line_text(lines[i].as_slice());
            let ghost seen = texts.take(i as int);
            let ghost told = effects@;
            proof {
                assert(texts.take(i + 1).drop_last() =~= seen);
                assert(texts.take(i + 1).last() == text@);
            }
            match self.on_line(text.as_str()) {
                Some(effect) => {
                    effects.push(effect);
                    proof {
                        assert(effects_view(effects@) =~= effects_view(told).push(effect@));
                    }
                },
                None => {},
            }
            i += 1;
        }
        proof {
            assert(texts.take(lines.len() as int) =~= texts);
            lemma_lines_ignore_the_rest(before, kept, texts);
        }
        effects
    }

    /// Takes the end of the child's output. The line that no newline has
    /// ended is dropped without being looked at; the dropped bytes are
    /// returned.
    pub fn on_output_end(&mut self) -> (dropped: Vec<u8>)
        ensures
            final(self)@ == after_output_end(old(self)@),
            dropped@ == old(self)@.pending,
    {
        self.framer.finish()
    }

    /// Takes the child's exit: fires the shutdown signal. Returns whether
    /// this call fired the signal, so that the host releases the shutdown
    /// wait once.
    pub fn on_terminated(&mut self) -> (first: bool)
        ensures
            final(self)@ == after_exit(old(self)@),
            first == !old(self)@.signalled,
    {
        self.signal.fire()
    }

    /// The discovered port, if there is one.
    pub fn port(&self) -> (port: Option<u16>)
        ensures
            port == self@.port,
    {
        self.port.get()
    }

    /// Where the shutdown stands.
    pub fn phase(&self) -> (phase: ShutdownPhase)
        ensures
            phase == self@.shutdown.phase,
    {
        self.coordinator.phase()
    }

    /// Decides how a reader of the port that has waited `elapsed_ms` of its
    /// `timeout_ms` goes on. The state is not changed, so any number of
    /// readers are handed the same port.
    pub fn get_port(&self, elapsed_ms: u64, timeout_ms: u64) -> (step: AwaitStep)
        ensures
            step == await_spec(self@.port, elapsed_ms, timeout_ms),
    {
        self.port.await_step(elapsed_ms, timeout_ms)
    }

    /// Requests a shutdown with a grace period of `grace_ms` milliseconds.
    /// The first request tells the host to send the shutdown command; any
    /// later one tells it nothing.
    pub fn shutdown(&mut self, grace_ms: u64) -> (action: ShutdownAction)
        ensures
            final(self)@ == after_shutdown_op(old(self)@, ShutdownOp::Request(grace_ms)),
            action == action_of(old(self)@.shutdown, ShutdownOp::Request(grace_ms)),
    {
        self.coordinator.request(grace_ms)
    }

    /// Looks at the shutdown wait after `elapsed_ms` milliseconds: tells the
    /// host to kill and reap once the signal has fired or the grace period
    /// is over, and to go on waiting otherwise.
    pub fn poll_shutdown(&mut self, elapsed_ms: u64) -> (action: ShutdownAction)
        ensures
            final(self)@ == after_shutdown_op(
                old(self)@,
                ShutdownOp::Poll(old(self)@.signalled, elapsed_ms),
            ),
            action == action_of(
                old(self)@.shutdown,
                ShutdownOp::Poll(old(self)@.signalled, elapsed_ms),
            ),
    {
        let fired = self.signal.is_fired();
        self.coordinator.poll(fired, elapsed_ms)
    }

    /// Records that the child was killed and reaped.
    pub fn child_reaped(&mut self)
        ensures
            final(self)@ == after_shutdown_op(old(self)@, ShutdownOp::Reaped),
    {
        self.coordinator.reaped()
    }
}

} // verus!
