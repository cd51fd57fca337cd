use vstd::prelude::*;

verus! {

/// How the child ended, as the operating system reported it.
#[derive(Clone, Copy, Debug, PartialEq, Eq, Structural)]
pub enum ExitStatus {
    /// It exited with this code.
    Code(i32),
    /// A signal ended it.
    Signal(i32),
    /// The system gave neither a code nor a signal.
    Unknown,
}

/// What waiting on the child gave.
#[derive(Debug)]
pub enum WaitOutcome {
    Finished(ExitStatus),
    /// The system could not report the child's status.
    Failed(String),
}

/// What sending the kill signal gave.
#[derive(Clone, Copy, Debug, PartialEq, Eq, Structural)]
pub enum KillOutcome {
    Delivered,
    /// The child had already exited: nothing was left to kill.
    AlreadyExited,
    Refused(TerminationError),
}

/// Why a kill signal could not be delivered.
#[derive(Clone, Copy, Debug, PartialEq, Eq, Structural)]
pub enum TerminationError {
    PermissionDenied,
    /// The system refused with this error number.
    Os(i32),
    Other,
}

/// Where a supervised child stands.
#[derive(Clone, Copy, Debug, PartialEq, Eq, Structural)]
pub enum ProcState {
    Running,
    /// It ended on its own, with this status.
    Exited(ExitStatus),
    /// It ended after a kill that was asked for and delivered.
    Killed,
    /// Waiting on it failed; nothing more is known of it.
    WaitFailed,
}

/// What the host is told once the child is gone: the last line of its delivery channel.
#[derive(Debug)]
pub enum LifecycleEvent {
    Exited { code: i32 },
    Signalled { signal: i32 },
    /// It ended with a status that gave neither code nor signal.
    Ended,
    Killed,
    WaitFailed { reason: String },
}

/// What a request to terminate calls for.
#[derive(Clone, Copy, Debug)]
pub enum TerminateStep {
    /// Send the kill signal now, then hand its outcome to `kill_done`.
    SendKill,
    /// Send nothing; this is the answer for the caller.
    Answer(Result<(), TerminationError>),
}

/// The state of a supervisor: where the child stands, whether a kill was delivered, and
/// the answer that the first request to terminate got.
pub struct SupervisorView {
    pub process: ProcState,
    pub kill_sent: bool,
    pub report: Option<Result<(), TerminationError>>,
}

/// A supervisor just after its child was spawned.
pub open spec fn started() -> SupervisorView {
    SupervisorView { process: ProcState::Running, kill_sent: false, report: None }
}

/// Whether a request to terminate sends a kill: only the first one, while the child runs.
pub open spec fn needs_kill(s: SupervisorView) -> bool {
    s.report is None && s.process is Running
}

/// The answer that a kill outcome gives the caller: a child already gone counts as success.
pub open spec fn kill_answer(k: KillOutcome) -> Result<(), TerminationError> {
    match k {
        KillOutcome::Delivered => Ok(()),
        KillOutcome::AlreadyExited => Ok(()),
        KillOutcome::Refused(e) => Err(e),
    }
}

/// A request to terminate, with the outcome the kill would have if one is sent: the next
/// state and the answer. Later requests send nothing: while the child runs they repeat the
/// first answer, and once it is gone they answer success.
pub open spec fn terminate_spec(s: SupervisorView, k: KillOutcome) -> (SupervisorView, Result<(), TerminationError>) {
    match s.report {
        Some(r) => if s.process is Running {
            (s, r)
        } else {
            (s, Ok(()))
        },
        None => if s.process is Running {
            (
                SupervisorView {
                    kill_sent: k == KillOutcome::Delivered,
                    report: Some(kill_answer(k)),
                    ..s
                },
                kill_answer(k),
            )
        } else {
            (SupervisorView { report: Some(Ok(())), ..s }, Ok(()))
        },
    }
}

/// The event reported for a wait outcome: a failure as such; after a delivered kill, the
/// kill; else the status the system gave.
pub open spec fn exit_event(kill_sent: bool, w: WaitOutcome) -> LifecycleEvent {
    match w {
        WaitOutcome::Failed(reason) => LifecycleEvent::WaitFailed { reason },
        WaitOutcome::Finished(st) => if kill_sent {
            LifecycleEvent::Killed
        } else {
            match st {
                ExitStatus::Code(c) => LifecycleEvent::Exited { code: c },
                ExitStatus::Signal(g) => LifecycleEvent::Signalled { signal: g },
                ExitStatus::Unknown => LifecycleEvent::Ended,
            }
        },
    }
}

/// Where the child stands after a wait outcome.
pub open spec fn exit_state(kill_sent: bool, w: WaitOutcome) -> ProcState {
    match w {
        WaitOutcome::Failed(_) => ProcState::WaitFailed,
        WaitOutcome::Finished(st) => if kill_sent {
            ProcState::Killed
        } else {
            ProcState::Exited(st)
        },
    }
}

/// The child's end observed by the exit-wait task: the next state and the event reported.
pub open spec fn exit_spec(s: SupervisorView, w: WaitOutcome) -> (SupervisorView, LifecycleEvent) {
    (SupervisorView { process: exit_state(s.kill_sent, w), ..s }, exit_event(s.kill_sent, w))
}

/// The decisions around one supervised child, shared by the exit-wait task and the
/// lifecycle bridge under one lock, beside the child's handle.
pub struct Supervisor {
    process: ProcState,
    kill_sent: bool,
    report: Option<Result<(), TerminationError>>,
}

impl View for Supervisor {
    type V = SupervisorView;

    closed spec fn view(&self) -> SupervisorView {
        SupervisorView { process: self.process, kill_sent: self.kill_sent, report: self.report }
    }
}

impl Supervisor {
    /// The supervisor of a child that was just spawned.
    pub fn started() -> (r: Supervisor)
        ensures
            r@ == started(),
    {
        Supervisor { process: ProcState::Running, kill_sent: false, report: None }
    }

    /// Where the child stands.
    pub fn process(&self) -> (r: ProcState)
        ensures
            r == self@.process,
    {
        self.process
    }

    /// A request to terminate. While the child runs and no request came before, it calls
    /// for a kill and changes nothing yet; otherwise it answers at once: success where the
    /// child is already gone, else the first answer again.
    pub fn terminate(&mut self) -> (r: TerminateStep)
        ensures
            r is SendKill <==> needs_kill(old(self)@),
            r is SendKill ==> final(self)@ == old(self)@,
            r matches TerminateStep::Answer(a) ==> (final(self)@, a) == terminate_spec(
                old(self)@,
                KillOutcome::Delivered,
            ),
    {
        match self.report {
            Some(r) => match self.process {
                ProcState::Running => TerminateStep::Answer(r),
                _ => TerminateStep::Answer(Ok(())),
            },
            None => match self.process {
                ProcState::Running => TerminateStep::SendKill,
                _ => {
                    self.report = Some(Ok(()));
                    TerminateStep::Answer(Ok(()))
                },
            },
        }
    }

    /// Records the outcome of the kill that `terminate` called for, and gives the answer
    /// for the caller.
    pub fn kill_done(&mut self, k: KillOutcome) -> (r: Result<(), TerminationError>)
        requires
            needs_kill(old(self)@),
        ensures
            (final(self)@, r) == terminate_spec(old(self)@, k),
    {
        let answer = match k {
            KillOutcome::Delivered => Ok(()),
            KillOutcome::AlreadyExited => Ok(()),
            KillOutcome::Refused(e) => Err(e),
        };
        self.kill_sent = match k {
            KillOutcome::Delivered => true,
            _ => false,
        };
        self.report = Some(answer);
        answer
    }

    /// Records what waiting on the child gave, and returns the event to report: once per
    /// child, since the child is no longer running afterwards.
    pub fn record_exit(&mut self, w: WaitOutcome) -> (r: LifecycleEvent)
        requires
            old(self)@.process is Running,
        ensures
            (final(self)@, r) == exit_spec(old(self)@, w),
            !(final(self)@.process is Running),
    {
        match w {
            WaitOutcome::Failed(reason) => {
                self.process = ProcState::WaitFailed;
                LifecycleEvent::WaitFailed { reason }
            },
            WaitOutcome::Finished(st) => {
                if self.kill_sent {
                    self.process = ProcState::Killed;
                    LifecycleEvent::Killed
                } else {
                    self.process = ProcState::Exited(st);
                    match st {
                        ExitStatus::Code(c) => LifecycleEvent::Exited { code: c },
                        ExitStatus::Signal(g) => LifecycleEvent::Signalled { signal: g },
                        ExitStatus::Unknown => LifecycleEvent::Ended,
                    }
                }
            },
        }
    }
}


/// What reaches a supervisor over a child's life: requests to terminate (with the outcome
/// the kill would have if one is sent) and the end of the wait on the child.
pub enum Input {
    Terminate(KillOutcome),
    Exit(WaitOutcome),
}

/// What a supervisor hands out: answers to requests to terminate, and lifecycle events.
pub enum Notice {
    Answer(Result<(), TerminationError>),
    Event(LifecycleEvent),
}

pub open spec fn step(s: SupervisorView, i: Input) -> (SupervisorView, Notice) {
    match i {
        Input::Terminate(k) => (terminate_spec(s, k).0, Notice::Answer(terminate_spec(s, k).1)),
        Input::Exit(w) => (exit_spec(s, w).0, Notice::Event(exit_spec(s, w).1)),
    }
}

/// The wait on a child ends only while it runs.
pub open spec fn enabled(s: SupervisorView, i: Input) -> bool {
    i is Exit ==> s.process is Running
}

pub open spec fn valid_run(s: SupervisorView, ins: Seq<Input>) -> bool
    decreases ins.len(),
{
    ins.len() > 0 ==> enabled(s, ins[0]) && valid_run(step(s, ins[0]).0, ins.drop_first())
}

/// The state after a run of inputs.
pub open spec fn run_state(s: SupervisorView, ins: Seq<Input>) -> SupervisorView
    decreases ins.len(),
{
    if ins.len() == 0 {
        s
    } else {
        run_state(step(s, ins[0]).0, ins.drop_first())
    }
}

/// The notices handed out over a run of inputs, in order.
pub open spec fn notices(s: SupervisorView, ins: Seq<Input>) -> Seq<Notice>
    decreases ins.len(),
{
    if ins.len() == 0 {
        seq![]
    } else {
        seq![step(s, ins[0]).1] + notices(step(s, ins[0]).0, ins.drop_first())
    }
}

/// The lifecycle events among some notices, in order.
pub open spec fn events_of(ns: Seq<Notice>) -> Seq<LifecycleEvent>
    decreases ns.len(),
{
    if ns.len() == 0 {
        seq![]
    } else {
        match ns[0] {
            Notice::Event(e) => seq![e] + events_of(ns.drop_first()),
            Notice::Answer(_) => events_of(ns.drop_first()),
        }
    }
}

/// The answers to requests to terminate among some notices, in order.
pub open spec fn answers_of(ns: Seq<Notice>) -> Seq<Result<(), TerminationError>>
    decreases ns.len(),
{
    if ns.len() == 0 {
        seq![]
    } else {
        match ns[0] {
            Notice::Answer(a) => seq![a] + answers_of(ns.drop_first()),
            Notice::Event(_) => answers_of(ns.drop_first()),
        }
    }
}

pub open spec fn has_exit(ins: Seq<Input>) -> bool {
    exists|j: int| 0 <= j < ins.len() && (#[trigger] ins[j]) is Exit
}

proof fn lemma_has_exit_first(ins: Seq<Input>)
    requires
        ins.len() > 0,
    ensures
        has_exit(ins) <==> (ins[0] is Exit || has_exit(ins.drop_first())),
{
    if has_exit(ins) && !(ins[0] is Exit) {
        let j = choose|j: int| 0 <= j < ins.len() && (#[trigger] ins[j]) is Exit;
        assert(ins.drop_first()[j - 1] == ins[j]);
    }
    if has_exit(ins.drop_first()) {
        let j = choose|j: int| 0 <= j < ins.len() - 1 && (#[trigger] ins.drop_first()[j]) is Exit;
        assert(ins[j + 1] == ins.drop_first()[j]);
    }
}

/// Over any run, a supervisor reports at most one lifecycle event: exactly one while its
/// child was running and the wait on it ended, none once the child is gone. Output on the
/// child's streams plays no part in it.
pub proof fn lemma_one_event_per_child(s: SupervisorView, ins: Seq<Input>)
    requires
        valid_run(s, ins),
    ensures
        events_of(notices(s, ins)).len() == (if s.process is Running && has_exit(ins) {
            1int
        } else {
            0int
        }),
        !(s.process is Running) ==> !has_exit(ins),
    decreases ins.len(),
{
    if ins.len() > 0 {
        let t = step(s, ins[0]).0;
        let rest = ins.drop_first();
        lemma_one_event_per_child(t, rest);
        lemma_has_exit_first(ins);
        let ns = notices(s, ins);
        assert(ns[0] == step(s, ins[0]).1);
        assert(ns.drop_first() =~= notices(t, rest));
    }
}

/// Where the wait on a running child ends at position `j` of a run, the one event reported
/// is the one that the wait outcome and a kill delivered before it call for.
pub proof fn lemma_event_at_exit(s: SupervisorView, ins: Seq<Input>, j: int)
    requires
        valid_run(s, ins),
        s.process is Running,
        0 <= j < ins.len(),
        ins[j] is Exit,
    ensures
        events_of(notices(s, ins)) == seq![
            exit_event(run_state(s, ins.take(j)).kill_sent, ins[j]->Exit_0),
        ],
    decreases ins.len(),
{
    let t = step(s, ins[0]).0;
    let rest = ins.drop_first();
    let ns = notices(s, ins);
    assert(ns[0] == step(s, ins[0]).1);
    assert(ns.drop_first() =~= notices(t, rest));
    if j == 0 {
        lemma_one_event_per_child(t, rest);
        assert(ins.take(0) =~= Seq::<Input>::empty());
        assert(seq![exit_event(s.kill_sent, ins[0]->Exit_0)] + Seq::<LifecycleEvent>::empty()
            =~= seq![exit_event(s.kill_sent, ins[0]->Exit_0)]);
    } else {
        assert(rest[j - 1] == ins[j]);
        if ins[0] is Exit {
            lemma_one_event_per_child(t, rest);
        }
        lemma_event_at_exit(t, rest, j - 1);
        assert(ins.take(j).drop_first() =~= rest.take(j - 1));
        assert(ins.take(j)[0] == ins[0]);
    }
}

proof fn lemma_kill_sent_needs_delivery(s: SupervisorView, ins: Seq<Input>)
    requires
        !s.kill_sent,
        forall|i: int| 0 <= i < ins.len() ==> ins[i] != Input::Terminate(KillOutcome::Delivered),
    ensures
        !run_state(s, ins).kill_sent,
    decreases ins.len(),
{
    if ins.len() > 0 {
        let rest = ins.drop_first();
        assert forall|i: int| 0 <= i < rest.len() implies rest[i] != Input::Terminate(
            KillOutcome::Delivered,
        ) by {
            assert(rest[i] == ins[i + 1]);
        }
        lemma_kill_sent_needs_delivery(step(s, ins[0]).0, rest);
    }
}

proof fn lemma_kill_sent_stays(s: SupervisorView, ins: Seq<Input>)
    requires
        s.kill_sent,
        s.report is Some,
    ensures
        run_state(s, ins).kill_sent,
    decreases ins.len(),
{
    if ins.len() > 0 {
        lemma_kill_sent_stays(step(s, ins[0]).0, ins.drop_first());
    }
}

/// A child that exits with code `c`, no kill having been delivered before, is reported
/// exactly once, as an exit with code `c`.
pub proof fn lemma_normal_exit_reported(ins: Seq<Input>, j: int, c: i32)
    requires
        valid_run(started(), ins),
        0 <= j < ins.len(),
        ins[j] == Input::Exit(WaitOutcome::Finished(ExitStatus::Code(c))),
        forall|i: int| 0 <= i < j ==> ins[i] != Input::Terminate(KillOutcome::Delivered),
    ensures
        events_of(notices(started(), ins)) == seq![LifecycleEvent::Exited { code: c }],
{
    lemma_event_at_exit(started(), ins, j);
    lemma_kill_sent_needs_delivery(started(), ins.take(j));
}

/// A child whose first request to terminate delivered the kill is reported exactly once,
/// as killed, whatever status the system then gives; never as a normal exit.
pub proof fn lemma_kill_reported(ins: Seq<Input>, i: int, j: int)
    requires
        valid_run(started(), ins),
        0 <= i < j < ins.len(),
        ins[i] == Input::Terminate(KillOutcome::Delivered),
        forall|k: int| 0 <= k < i ==> !(#[trigger] ins[k] is Terminate),
        ins[j] matches Input::Exit(WaitOutcome::Finished(_)),
    ensures
        events_of(notices(started(), ins)) == seq![LifecycleEvent::Killed],
{
    lemma_event_at_exit(started(), ins, j);
    let after = step(started(), ins[0]).0;
    let rest = ins.drop_first();
    if i > 0 {
        // an earlier input would be an exit, after which no exit at `j` could come
        assert(!(ins[0] is Terminate));
        lemma_one_event_per_child(after, rest);
        assert(rest[j - 1] == ins[j]);
    }
    assert(after.kill_sent);
    assert(ins.take(j).drop_first() =~= rest.take(j - 1));
    assert(ins.take(j)[0] == ins[0]);
    lemma_kill_sent_stays(after, rest.take(j - 1));
}

/// Over a run, a request to terminate never gives a second, different failure: each answer
/// is the first one or success. Once an answer was given, each later one is it or success,
/// and once the child is gone every answer is success.
pub proof fn lemma_answers_repeat(s: SupervisorView, ins: Seq<Input>)
    ensures
        forall|k: int|
            0 <= k < answers_of(notices(s, ins)).len() ==> #[trigger] answers_of(notices(s, ins))[k]
                == answers_of(notices(s, ins))[0] || answers_of(notices(s, ins))[k] == Ok::<
                (),
                TerminationError,
            >(()),
        s.report matches Some(r) ==> forall|k: int|
            0 <= k < answers_of(notices(s, ins)).len() ==> #[trigger] answers_of(
                notices(s, ins),
            )[k] == r || answers_of(notices(s, ins))[k] == Ok::<(), TerminationError>(()),
        !(s.process is Running) ==> forall|k: int|
            0 <= k < answers_of(notices(s, ins)).len() ==> #[trigger] answers_of(
                notices(s, ins),
            )[k] == Ok::<(), TerminationError>(()),
    decreases ins.len(),
{
    if ins.len() > 0 {
        let t = step(s, ins[0]).0;
        let rest = ins.drop_first();
        lemma_answers_repeat(t, rest);
        let ns = notices(s, ins);
        assert(ns[0] == step(s, ins[0]).1);
        assert(ns.drop_first() =~= notices(t, rest));
        let tail = answers_of(notices(t, rest));
        match ins[0] {
            Input::Terminate(k) => {
                let a = terminate_spec(s, k).1;
                assert(t.process == s.process);
                assert(answers_of(ns) =~= seq![a] + tail);
                assert(answers_of(ns)[0] == a);
                assert forall|i: int| 0 <= i < answers_of(ns).len() implies #[trigger] answers_of(
                    ns,
                )[i] == a || answers_of(ns)[i] == Ok::<(), TerminationError>(()) by {
                    if i > 0 {
                        assert(answers_of(ns)[i] == tail[i - 1]);
                    }
                }
                assert forall|i: int| 0 <= i < answers_of(ns).len() && !(s.process is Running)
                    implies #[trigger] answers_of(ns)[i] == Ok::<(), TerminationError>(()) by {
                    if i > 0 {
                        assert(answers_of(ns)[i] == tail[i - 1]);
                    }
                }
                assert forall|i: int| 0 <= i < answers_of(ns).len() && s.report is Some
                    implies #[trigger] answers_of(ns)[i] == s.report->0 || answers_of(ns)[i] == Ok::<
                    (),
                    TerminationError,
                >(()) by {
                    if i > 0 {
                        assert(answers_of(ns)[i] == tail[i - 1]);
                    }
                }
            },
            Input::Exit(_) => {
                assert(t.report == s.report);
                assert(!(t.process is Running));
                assert(answers_of(ns) =~= tail);
            },
        }
    }
}

} // verus!
