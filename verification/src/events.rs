//! Event registry: handlers by event name, and the queue of fired events.
//!
//! Handlers are known by a number. Firing an event takes down the handlers
//! that it has at that moment; the queue is consumed in order.

use crate::data::Suite;
use crate::data::Test;
use crate::errors::ErrorView;
use crate::errors::KirkError;
use crate::results::SuiteResults;
use crate::results::TestResults;
use crate::text;
use vstd::prelude::*;
use vstd::string::*;

verus! {

/// Structured data carried by a fired event. Times are in seconds, as the
/// bits of an IEEE 754 double.
#[derive(Debug, Clone, PartialEq)]
pub enum EventPayload {
    /// No data.
    Empty,
    /// A single text: name, path, command, or message.
    Text(String),
    /// A session has started: number of suites and the temporary directory.
    SessionStarted(usize, String),
    /// A test has started.
    Test(Test),
    /// A test has completed.
    TestResults(TestResults),
    /// A test took longer than its timeout.
    TestTimedOut(Test, u64),
    /// A suite has started.
    Suite(Suite),
    /// A suite has completed, in the given time.
    SuiteCompleted(SuiteResults, u64),
    /// A suite took longer than its timeout.
    SuiteTimeout(Suite, u64),
    /// Suites selected for a dry run.
    Suites(Vec<Suite>),
    /// A session has completed.
    SessionCompleted(Vec<SuiteResults>),
    /// A command has ended: command, output, return code.
    RunCmdStop(String, String, i32),
    /// Output of the target: its name and the data.
    SutStdout(String, String),
    /// Output of a test: the test and the data.
    TestStdout(Test, String),
}

impl EventPayload {
    /// The payload as text, where it carries exactly one.
    pub fn as_text(&self) -> (r: Option<&str>)
        ensures
            text::opt_str(r) == (match *self {
                EventPayload::Text(t) => Some(t@),
                _ => None,
            }),
    {
        match self {
            EventPayload::Text(t) => Some(t.as_str()),
            _ => None,
        }
    }
}

/// Payload that carries an optional message.
pub open spec fn carries(payload: EventPayload, message: Option<Seq<char>>) -> bool {
    match message {
        Some(m) => payload matches EventPayload::Text(t) && t@ == m,
        None => payload is Empty,
    }
}

/// Arguments delivered to every handler of a fired event. For a failure,
/// `event` is the event whose handler failed.
#[derive(Debug, Clone, PartialEq)]
pub struct EventArgs {
    /// Event being handled, or the one whose handler failed.
    pub event: String,
    /// Data of the event, or the description of the failure.
    pub payload: EventPayload,
}

impl EventArgs {
    /// Message that the arguments carry, if any.
    pub fn message(&self) -> (r: Option<&str>)
        ensures
            text::opt_str(r) == (match self.payload {
                EventPayload::Text(t) => Some(t@),
                _ => None,
            }),
    {
        self.payload.as_text()
    }
}

/// Handlers of an event.
#[derive(Debug)]
struct EventEntry {
    name: String,
    handlers: Vec<u64>,
    ordered: bool,
}

/// What is registered for an event.
#[verifier::ext_equal]
pub struct EntryView {
    /// Handlers, in the order they were registered.
    pub handlers: Seq<u64>,
    /// Whether the handlers run one after the other.
    pub ordered: bool,
}

/// Handlers to run with arguments.
#[derive(Debug)]
pub struct Dispatch {
    /// Event that was fired.
    pub event: String,
    /// Handlers to run.
    pub handlers: Vec<u64>,
    /// Whether they run one after the other.
    pub ordered: bool,
    /// Arguments of the handlers.
    pub args: EventArgs,
}

/// What a dispatch is.
pub struct DispatchView {
    /// Event that was fired.
    pub event: Seq<char>,
    /// Handlers to run.
    pub handlers: Seq<u64>,
    /// Whether they run one after the other.
    pub ordered: bool,
    /// Event that the arguments name.
    pub about: Seq<char>,
    /// Data of the arguments.
    pub payload: EventPayload,
}

impl View for Dispatch {
    type V = DispatchView;

    open spec fn view(&self) -> DispatchView {
        DispatchView {
            event: self.event@,
            handlers: self.handlers@,
            ordered: self.ordered,
            about: self.args.event@,
            payload: self.args.payload,
        }
    }
}

#[derive(Debug)]
enum QueueItem {
    Run(Dispatch),
    Stop,
}

/// What stands in the queue.
pub enum QueueView {
    /// Handlers to run.
    Run(DispatchView),
    /// The end of the loop.
    Stop,
}

impl View for QueueItem {
    type V = QueueView;

    closed spec fn view(&self) -> QueueView {
        match *self {
            QueueItem::Run(d) => QueueView::Run(d@),
            QueueItem::Stop => QueueView::Stop,
        }
    }
}

/// How far the loop over the queue has come.
#[derive(Debug, Clone, Copy, PartialEq, Eq, Structural)]
pub enum Phase {
    /// It runs until it is stopped.
    Running,
    /// It was stopped, and runs what is left.
    Flushing,
    /// It has ended.
    Ended,
}

/// What the loop does next.
#[derive(Debug)]
pub enum Step {
    /// Run handlers.
    Run(Dispatch),
    /// Wait until something is fired.
    Wait,
    /// End.
    End,
}

/// What a step of the loop is.
#[verifier::ext_equal]
pub enum StepView {
    /// Run handlers.
    Run(DispatchView),
    /// Wait until something is fired.
    Wait,
    /// End.
    End,
}

impl View for Step {
    type V = StepView;

    open spec fn view(&self) -> StepView {
        match *self {
            Step::Run(d) => StepView::Run(d@),
            Step::Wait => StepView::Wait,
            Step::End => StepView::End,
        }
    }
}

/// Phase once the end of the loop was met in the queue.
pub open spec fn phase_after_stop(phase: Phase) -> Phase {
    if phase == Phase::Running {
        Phase::Flushing
    } else {
        Phase::Ended
    }
}

/// Next step of the loop, the phase it is then in, and the queue that is left:
/// what stood behind the dispatch that runs.
pub open spec fn loop_step(queue: Seq<QueueView>, phase: Phase) -> (
    StepView,
    Phase,
    Seq<QueueView>,
)
    decreases queue.len(),
{
    if phase == Phase::Ended {
        (StepView::End, Phase::Ended, queue)
    } else if queue.len() == 0 {
        if phase == Phase::Running {
            (StepView::Wait, Phase::Running, queue)
        } else {
            (StepView::End, Phase::Ended, queue)
        }
    } else {
        match queue[0] {
            QueueView::Run(d) => (StepView::Run(d), phase, queue.skip(1)),
            QueueView::Stop => loop_step(queue.skip(1), phase_after_stop(phase)),
        }
    }
}

/// A step that runs a dispatch takes it off the queue.
pub proof fn running_shortens(queue: Seq<QueueView>, phase: Phase)
    ensures
        loop_step(queue, phase).0 is Run ==> loop_step(queue, phase).2.len() < queue.len(),
    decreases queue.len(),
{
    if phase != Phase::Ended && queue.len() > 0 && queue[0] is Stop {
        running_shortens(queue.skip(1), phase_after_stop(phase));
    }
}

/// Dispatches that repeated steps of the loop run, where nothing more is
/// fired, and the step that comes after them.
pub open spec fn driven(queue: Seq<QueueView>, phase: Phase) -> (Seq<DispatchView>, StepView)
    decreases queue.len(),
{
    proof {
        running_shortens(queue, phase);
    }
    let (step, next, left) = loop_step(queue, phase);
    match step {
        StepView::Run(d) => (seq![d] + driven(left, next).0, driven(left, next).1),
        _ => (Seq::empty(), step),
    }
}

/// Where nothing more is fired, the loop runs what stands in the queue, and
/// then it ends if it was stopped, before or in the queue, and waits if not.
pub proof fn stopped_loop_ends(queue: Seq<QueueView>, phase: Phase)
    ensures
        driven(queue, phase).0 == runs(queue, phase),
        driven(queue, phase).1 == if phase != Phase::Running || queue.contains(QueueView::Stop) {
            StepView::End
        } else {
            StepView::Wait
        },
    decreases queue.len(),
{
    if phase != Phase::Ended && queue.len() > 0 {
        let rest = queue.skip(1);
        assert(queue =~= seq![queue[0]] + rest);
        if rest.contains(QueueView::Stop) {
            let k = choose|k: int| 0 <= k < rest.len() && rest[k] == QueueView::Stop;
            assert(queue[k + 1] == QueueView::Stop);
        }
        match queue[0] {
            QueueView::Run(d) => {
                stopped_loop_ends(rest, phase);
                if queue.contains(QueueView::Stop) {
                    let k = choose|k: int| 0 <= k < queue.len() && queue[k] == QueueView::Stop;
                    assert(rest[k - 1] == QueueView::Stop);
                }
            },
            QueueView::Stop => {
                stopped_loop_ends(rest, phase_after_stop(phase));
                assert(queue[0] == QueueView::Stop);
                assert(driven(queue, phase) == driven(rest, phase_after_stop(phase)));
            },
        }
    }
}

/// Events that were fired, and then one stop: the loop runs them all in the
/// order they were fired, with what was fired behind the stop, and ends.
pub proof fn one_stop_ends_the_loop(before: Seq<DispatchView>, after: Seq<DispatchView>)
    ensures
        driven(queued(before) + seq![QueueView::Stop] + queued(after), Phase::Running) == (
            before + after,
            StepView::End,
        ),
{
    let q = queued(before) + seq![QueueView::Stop] + queued(after);
    assert(q[before.len() as int] == QueueView::Stop);
    stopped_loop_ends(q, Phase::Running);
    nothing_is_lost(before, after);
}

/// Dispatches that the loop runs, in order, where nothing more is fired.
pub open spec fn runs(queue: Seq<QueueView>, phase: Phase) -> Seq<DispatchView>
    decreases queue.len(),
{
    if queue.len() == 0 || phase == Phase::Ended {
        Seq::empty()
    } else {
        match queue[0] {
            QueueView::Run(d) => seq![d] + runs(queue.skip(1), phase),
            QueueView::Stop => runs(queue.skip(1), phase_after_stop(phase)),
        }
    }
}

/// Queue of dispatches.
pub open spec fn queued(ds: Seq<DispatchView>) -> Seq<QueueView> {
    ds.map_values(|d: DispatchView| QueueView::Run(d))
}

/// Nothing that was fired before the loop is stopped is lost, nor what was
/// fired after that and before the loop sees it: all of it runs, in the order
/// it was fired.
pub proof fn nothing_is_lost(before: Seq<DispatchView>, after: Seq<DispatchView>)
    ensures
        runs(queued(before) + seq![QueueView::Stop] + queued(after), Phase::Running) == before
            + after,
    decreases before.len(),
{
    let q = queued(before) + seq![QueueView::Stop] + queued(after);
    if before.len() > 0 {
        nothing_is_lost(before.skip(1), after);
        assert(q.skip(1) =~= queued(before.skip(1)) + seq![QueueView::Stop] + queued(after));
        assert(seq![before[0]] + (before.skip(1) + after) =~= before + after);
    } else {
        assert(q.skip(1) =~= queued(after));
        flush_runs_all(after);
        assert(before + after =~= after);
    }
}

proof fn flush_runs_all(ds: Seq<DispatchView>)
    ensures
        runs(queued(ds), Phase::Flushing) == ds,
    decreases ds.len(),
{
    if ds.len() > 0 {
        flush_runs_all(ds.skip(1));
        assert(queued(ds).skip(1) =~= queued(ds.skip(1)));
        assert(seq![ds[0]] + ds.skip(1) =~= ds);
    } else {
        assert(runs(queued(ds), Phase::Flushing) =~= ds);
    }
}

/// Handlers of an event once one of them is removed.
pub open spec fn without(handlers: Seq<u64>, handler: u64) -> Seq<u64> {
    handlers.filter(|h: u64| h != handler)
}

/// Removing a handler removes it wherever it was registered, and no other;
/// removing one that was never registered changes nothing.
pub proof fn removal(handlers: Seq<u64>, handler: u64)
    ensures
        !without(handlers, handler).contains(handler),
        forall|h: u64|
            h != handler && handlers.contains(h) ==> #[trigger] without(handlers, handler).contains(
                h,
            ),
        !handlers.contains(handler) ==> without(handlers, handler) == handlers,
    decreases handlers.len(),
{
    reveal(Seq::filter);
    let r = without(handlers, handler);
    if handlers.len() > 0 {
        let front = handlers.drop_last();
        let last = handlers.last();
        removal(front, handler);
        assert(r == if last != handler {
            without(front, handler).push(last)
        } else {
            without(front, handler)
        });
        assert forall|h: u64| h != handler && handlers.contains(h) implies #[trigger] r.contains(
            h,
        ) by {
            let i = choose|i: int| 0 <= i < handlers.len() && handlers[i] == h;
            if i < front.len() {
                assert(front[i] == h);
                assert(without(front, handler).contains(h));
                let j = choose|j: int|
                    0 <= j < without(front, handler).len() && without(front, handler)[j] == h;
                assert(r[j] == h);
            } else {
                assert(r[r.len() - 1] == h);
            }
        }
        if r.contains(handler) {
            let j = choose|j: int| 0 <= j < r.len() && r[j] == handler;
            if j < without(front, handler).len() {
                assert(without(front, handler)[j] == handler);
            }
        }
        if !handlers.contains(handler) {
            assert(handlers[handlers.len() - 1] == last);
            if front.contains(handler) {
                let i = choose|i: int| 0 <= i < front.len() && front[i] == handler;
                assert(handlers[i] == handler);
            }
            assert(front.push(last) =~= handlers);
        }
    } else {
        assert(r =~= handlers);
    }
}

/// Event registry.
#[derive(Debug)]
pub struct EventRegistry {
    events: Vec<EventEntry>,
    queue: Vec<QueueItem>,
}

spec fn lookup(e: Seq<EventEntry>, name: Seq<char>) -> Option<EntryView>
    decreases e.len(),
{
    if e.len() == 0 {
        None
    } else if e.last().name@ == name {
        Some(EntryView { handlers: e.last().handlers@, ordered: e.last().ordered })
    } else {
        lookup(e.drop_last(), name)
    }
}

proof fn lookup_at(e: Seq<EventEntry>, name: Seq<char>, i: int)
    requires
        0 <= i < e.len(),
        e[i].name@ == name,
        forall|j: int| i < j < e.len() ==> (#[trigger] e[j]).name@ != name,
    ensures
        lookup(e, name) == Some(EntryView { handlers: e[i].handlers@, ordered: e[i].ordered }),
    decreases e.len(),
{
    if i < e.len() - 1 {
        lookup_at(e.drop_last(), name, i);
    }
}

proof fn lookup_none(e: Seq<EventEntry>, name: Seq<char>)
    requires
        forall|j: int| 0 <= j < e.len() ==> (#[trigger] e[j]).name@ != name,
    ensures
        lookup(e, name) is None,
    decreases e.len(),
{
    if e.len() > 0 {
        lookup_none(e.drop_last(), name);
    }
}

/// What other events have does not depend on an entry.
proof fn lookup_others(a: Seq<EventEntry>, b: Seq<EventEntry>, i: int, name: Seq<char>)
    requires
        a.len() == b.len(),
        0 <= i < a.len(),
        a[i].name@ != name,
        b[i].name@ != name,
        forall|j: int| 0 <= j < a.len() && j != i ==> a[j] == b[j],
    ensures
        lookup(a, name) == lookup(b, name),
    decreases a.len(),
{
    if i == a.len() - 1 {
        assert(a.drop_last() =~= b.drop_last());
    } else {
        assert(a.last() == b.last());
        lookup_others(a.drop_last(), b.drop_last(), i, name);
    }
}

spec fn queue_views(q: Seq<QueueItem>) -> Seq<QueueView> {
    q.map_values(|i: QueueItem| i@)
}

/// Error for an empty event name.
pub open spec fn empty_name() -> ErrorView {
    ErrorView::Framework("event_name is empty"@)
}

fn empty_name_error() -> (e: KirkError)
    ensures
        e@ == empty_name(),
{
    KirkError::Framework(text::owned("event_name is empty"))
}

/// Description of the failure of a handler that panicked, with the text of
/// the panic where it has one, or that was cancelled.
pub fn join_failure(panicked: bool, message: Option<&str>) -> (r: String)
    ensures
        r@ == (if !panicked {
            "event handler was cancelled"@
        } else {
            match text::opt_str(message) {
                Some(m) => m,
                None => "event handler panicked"@,
            }
        }),
{
    if !panicked {
        return text::owned("event handler was cancelled");
    }
    match message {
        Some(m) => m.to_owned(),
        None => text::owned("event handler panicked"),
    }
}

fn copy_handlers(v: &Vec<u64>) -> (r: Vec<u64>)
    ensures
        r@ == v@,
{
    let mut r: Vec<u64> = Vec::new();
    let mut i: usize = 0;
    while i < v.len()
        invariant
            i <= v@.len(),
            r@ == v@.take(i as int),
        decreases v@.len() - i,
    {
        r.push(v[i]);
        assert(v@.take(i + 1) =~= v@.take(i as int).push(v@[i as int]));
        i = i + 1;
    }
    assert(v@.take(v@.len() as int) =~= v@);
    r
}

fn without_handler(v: &Vec<u64>, handler: u64) -> (r: Vec<u64>)
    ensures
        r@ == without(v@, handler),
{
    let mut r: Vec<u64> = Vec::new();
    let mut i: usize = 0;
    proof {
        reveal(Seq::filter);
        assert(without(v@.take(0), handler) =~= Seq::<u64>::empty());
    }
    while i < v.len()
        invariant
            i <= v@.len(),
            r@ == without(v@.take(i as int), handler),
        decreases v@.len() - i,
    {
        proof {
            reveal(Seq::filter);
            assert(v@.take(i + 1).drop_last() =~= v@.take(i as int));
            assert(v@.take(i + 1).last() == v@[i as int]);
        }
        if v[i] != handler {
            r.push(v[i]);
        }
        i = i + 1;
    }
    assert(v@.take(v@.len() as int) =~= v@);
    r
}

impl EventRegistry {
    /// What is registered for an event.
    pub closed spec fn entry(self, name: Seq<char>) -> Option<EntryView> {
        lookup(self.events@, name)
    }

    /// What stands in the queue, in order.
    pub closed spec fn queue(self) -> Seq<QueueView> {
        queue_views(self.queue@)
    }

    /// Handlers of an event; none where it is unknown.
    pub open spec fn handlers(self, name: Seq<char>) -> Seq<u64> {
        match self.entry(name) {
            Some(e) => e.handlers,
            None => Seq::empty(),
        }
    }

    /// Build a registry without handlers. The event for failures is there
    /// from the start.
    pub fn new() -> (r: Self)
        ensures
            forall|name: Seq<char>| #[trigger]
                r.entry(name) == if name == "internal_error"@ {
                    Some(EntryView { handlers: Seq::empty(), ordered: false })
                } else {
                    None
                },
            r.queue() == Seq::<QueueView>::empty(),
    {
        let mut events: Vec<EventEntry> = Vec::new();
        events.push(
            EventEntry {
                name: text::owned("internal_error"),
                handlers: Vec::new(),
                ordered: false,
            },
        );
        let r = EventRegistry { events, queue: Vec::new() };
        assert(r.queue() =~= Seq::<QueueView>::empty());
        assert forall|name: Seq<char>| #[trigger] r.entry(name) == (if name == "internal_error"@ {
            Some(EntryView { handlers: Seq::empty(), ordered: false })
        } else {
            None
        }) by {
            if name == "internal_error"@ {
                assert(r.events@.last().handlers@ =~= Seq::<u64>::empty());
            } else {
                lookup_none(r.events@, name);
            }
        }
        r
    }

    fn find(&self, name: &str) -> (r: Option<usize>)
        ensures
            match r {
                Some(i) => {
                    &&& i < self.events@.len()
                    &&& self.events@[i as int].name@ == name@
                    &&& self.entry(name@) == Some(
                        EntryView {
                            handlers: self.events@[i as int].handlers@,
                            ordered: self.events@[i as int].ordered,
                        },
                    )
                    &&& forall|j: int|
                        i < j < self.events@.len() ==> (#[trigger] self.events@[j]).name@ != name@
                },
                None => self.entry(name@) is None,
            },
    {
        let mut i: usize = self.events.len();
        while i > 0
            invariant
                i <= self.events@.len(),
                forall|j: int|
                    i <= j < self.events@.len() ==> (#[trigger] self.events@[j]).name@ != name@,
            decreases i,
        {
            i = i - 1;
            if text::same(self.events[i].name.as_str(), name) {
                proof {
                    lookup_at(self.events@, name@, i as int);
                }
                return Some(i);
            }
        }
        proof {
            lookup_none(self.events@, name@);
        }
        None
    }

    /// Register a handler under a name. The first registration decides
    /// whether the handlers of the event run one after the other.
    pub fn register(&mut self, event_name: &str, handler: u64, ordered: bool) -> (r: Result<
        (),
        KirkError,
    >)
        ensures
            final(self).queue() == old(self).queue(),
            match r {
                Ok(_) => {
                    &&& event_name@.len() > 0
                    &&& forall|name: Seq<char>| #[trigger]
                        final(self).entry(name) == if name == event_name@ {
                            Some(
                                EntryView {
                                    handlers: old(self).handlers(name).push(handler),
                                    ordered: match old(self).entry(name) {
                                        Some(e) => e.ordered,
                                        None => ordered,
                                    },
                                },
                            )
                        } else {
                            old(self).entry(name)
                        }
                },
                Err(e) => {
                    &&& event_name@.len() == 0
                    &&& e@ == empty_name()
                    &&& forall|name: Seq<char>| #[trigger]
                        final(self).entry(name) == old(self).entry(name)
                },
            },
    {
        if event_name.is_empty() {
            return Err(empty_name_error());
        }
        let ghost before = self.events@;
        match self.find(event_name) {
            Some(i) => {
                let mut handlers = copy_handlers(&self.events[i].handlers);
                handlers.push(handler);
                let entry = EventEntry {
                    name: event_name.to_owned(),
                    handlers,
                    ordered: self.events[i].ordered,
                };
                self.events.set(i, entry);
                proof {
                    lookup_at(self.events@, event_name@, i as int);
                    assert forall|name: Seq<char>| name != event_name@ implies #[trigger] lookup(
                        self.events@,
                        name,
                    ) == lookup(before, name) by {
                        lookup_others(self.events@, before, i as int, name);
                    }
                }
            },
            None => {
                let mut handlers: Vec<u64> = Vec::new();
                handlers.push(handler);
                assert(handlers@ =~= Seq::<u64>::empty().push(handler));
                self.events.push(EventEntry { name: event_name.to_owned(), handlers, ordered });
                assert(self.events@.drop_last() =~= before);
            },
        }
        Ok(())
    }

    /// Remove one handler, or the whole event. Removing what is not there is
    /// no error.
    pub fn unregister(&mut self, event_name: &str, handler: Option<u64>) -> (r: Result<
        (),
        KirkError,
    >)
        ensures
            final(self).queue() == old(self).queue(),
            match r {
                Ok(_) => {
                    &&& event_name@.len() > 0
                    &&& forall|name: Seq<char>| #[trigger]
                        final(self).entry(name) == if name != event_name@ {
                            old(self).entry(name)
                        } else {
                            match (handler, old(self).entry(name)) {
                                (Some(h), Some(e)) => Some(
                                    EntryView {
                                        handlers: without(e.handlers, h),
                                        ordered: e.ordered,
                                    },
                                ),
                                _ => None,
                            }
                        }
                },
                Err(e) => {
                    &&& event_name@.len() == 0
                    &&& e@ == empty_name()
                    &&& forall|name: Seq<char>| #[trigger]
                        final(self).entry(name) == old(self).entry(name)
                },
            },
    {
        if event_name.is_empty() {
            return Err(empty_name_error());
        }
        let ghost before = self.events@;
        match handler {
            Some(h) => match self.find(event_name) {
                Some(i) => {
                    let handlers = without_handler(&self.events[i].handlers, h);
                    let entry = EventEntry {
                        name: event_name.to_owned(),
                        handlers,
                        ordered: self.events[i].ordered,
                    };
                    self.events.set(i, entry);
                    proof {
                        lookup_at(self.events@, event_name@, i as int);
                        assert forall|name: Seq<char>| name != event_name@ implies #[trigger] lookup(
                            self.events@,
                            name,
                        ) == lookup(before, name) by {
                            lookup_others(self.events@, before, i as int, name);
                        }
                    }
                },
                None => {},
            },
            None => {
                self.drop_event(event_name);
            },
        }
        Ok(())
    }

    fn drop_event(&mut self, event_name: &str)
        ensures
            final(self).queue() == old(self).queue(),
            forall|name: Seq<char>| #[trigger]
                final(self).entry(name) == if name == event_name@ {
                    None
                } else {
                    old(self).entry(name)
                },
    {
        let ghost before = self.events@;
        let mut events: Vec<EventEntry> = Vec::new();
        std::mem::swap(&mut events, &mut self.events);
        let mut i: usize = 0;
        let ghost queue = self.queue@;
        assert(before.take(0) =~= Seq::<EventEntry>::empty());
        while i < events.len()
            invariant
                i <= events@.len(),
                events@ == before,
                self.queue@ == queue,
                forall|name: Seq<char>| #[trigger]
                    lookup(self.events@, name) == if name == event_name@ {
                        None
                    } else {
                        lookup(before.take(i as int), name)
                    },
            decreases events@.len() - i,
        {
            let entry = &events[i];
            let ghost had = self.events@;
            if !text::same(entry.name.as_str(), event_name) {
                self.events.push(
                    EventEntry {
                        name: entry.name.clone(),
                        handlers: copy_handlers(&entry.handlers),
                        ordered: entry.ordered,
                    },
                );
                assert(self.events@.drop_last() =~= had);
            }
            proof {
                let upto = before.take(i + 1);
                assert(upto.drop_last() =~= before.take(i as int));
                assert(upto.last() == before[i as int]);
                assert forall|name: Seq<char>| #[trigger]
                    lookup(self.events@, name) == (if name == event_name@ {
                        None
                    } else {
                        lookup(upto, name)
                    }) by {
                    assert(lookup(had, name) == (if name == event_name@ {
                        None
                    } else {
                        lookup(before.take(i as int), name)
                    }));
                }
            }
            i = i + 1;
        }
        assert(before.take(before.len() as int) =~= before);
    }

    /// Report whether an event has at least one handler.
    pub fn is_registered(&self, event_name: &str) -> (r: Result<bool, KirkError>)
        ensures
            if event_name@.len() == 0 {
                r matches Err(e) && e@ == empty_name()
            } else {
                r == Ok::<bool, KirkError>(self.handlers(event_name@).len() > 0)
            },
    {
        if event_name.is_empty() {
            return Err(empty_name_error());
        }
        match self.find(event_name) {
            Some(i) => Ok(self.events[i].handlers.len() > 0),
            None => Ok(false),
        }
    }

    /// Clear all registrations, that of the event for failures among them.
    pub fn reset(&mut self)
        ensures
            final(self).queue() == old(self).queue(),
            forall|name: Seq<char>| #[trigger] final(self).entry(name) is None,
    {
        self.events = Vec::new();
        proof {
            assert forall|name: Seq<char>| #[trigger] self.entry(name) is None by {
                lookup_none(self.events@, name);
            }
        }
    }

    /// Fire an event that carries an optional message.
    pub fn fire(&mut self, event_name: &str, message: Option<String>) -> (r: Result<(), KirkError>)
        ensures
            forall|name: Seq<char>| #[trigger] final(self).entry(name) == old(self).entry(name),
            if event_name@.len() == 0 {
                &&& r matches Err(e)
                &&& e@ == empty_name()
                &&& final(self).queue() == old(self).queue()
            } else {
                &&& r is Ok
                &&& exists|payload: EventPayload| #[trigger]
                    carries(payload, text::opt_text(message)) && final(self).queue()
                        == old(self).queue_after(event_name@, payload)
            },
    {
        let payload = match message {
            Some(m) => EventPayload::Text(m),
            None => EventPayload::Empty,
        };
        assert(carries(payload, text::opt_text(message)));
        self.fire_payload(event_name, payload)
    }

    /// The queue after an event was fired: one dispatch more, to the handlers
    /// that the event has; none where it has none.
    pub open spec fn queue_after(self, name: Seq<char>, payload: EventPayload) -> Seq<QueueView> {
        if self.handlers(name).len() == 0 {
            self.queue()
        } else {
            self.queue().push(
                QueueView::Run(
                    DispatchView {
                        event: name,
                        handlers: self.handlers(name),
                        ordered: self.entry(name)->0.ordered,
                        about: name,
                        payload,
                    },
                ),
            )
        }
    }

    /// Fire an event: take down its handlers and enqueue them. Unknown events
    /// and events without handlers do nothing.
    pub fn fire_payload(&mut self, event_name: &str, payload: EventPayload) -> (r: Result<
        (),
        KirkError,
    >)
        ensures
            forall|name: Seq<char>| #[trigger] final(self).entry(name) == old(self).entry(name),
            if event_name@.len() == 0 {
                &&& r matches Err(e)
                &&& e@ == empty_name()
                &&& final(self).queue() == old(self).queue()
            } else {
                r is Ok && final(self).queue() == old(self).queue_after(event_name@, payload)
            },
    {
        if event_name.is_empty() {
            return Err(empty_name_error());
        }
        let ghost before = self.queue@;
        match self.find(event_name) {
            Some(i) => {
                if self.events[i].handlers.len() > 0 {
                    let handlers = copy_handlers(&self.events[i].handlers);
                    let ordered = self.events[i].ordered;
                    let args = EventArgs { event: event_name.to_owned(), payload };
                    let item = QueueItem::Run(
                        Dispatch { event: event_name.to_owned(), handlers, ordered, args },
                    );
                    self.queue.push(item);
                    assert(queue_views(self.queue@) =~= queue_views(before).push(item@));
                }
            },
            None => {},
        }
        Ok(())
    }

    /// Enqueue the end of the loop.
    pub fn stop(&mut self)
        ensures
            final(self).queue() == old(self).queue().push(QueueView::Stop),
            forall|name: Seq<char>| #[trigger] final(self).entry(name) == old(self).entry(name),
    {
        let ghost before = self.queue@;
        let item = QueueItem::Stop;
        self.queue.push(item);
        assert(queue_views(self.queue@) =~= queue_views(before).push(item@));
    }

    /// Go on with the loop: gives what to do next and the phase it is then in.
    pub fn start(&mut self, phase: Phase) -> (r: (Step, Phase))
        ensures
            forall|name: Seq<char>| #[trigger] final(self).entry(name) == old(self).entry(name),
            (r.0@, r.1, final(self).queue()) == loop_step(old(self).queue(), phase),
    {
        let mut now = phase;
        loop
            invariant
                loop_step(old(self).queue(), phase) == loop_step(self.queue(), now),
                self.events@ == old(self).events@,
            decreases self.queue@.len(),
        {
            if now == Phase::Ended {
                return (Step::End, Phase::Ended);
            }
            if self.queue.len() == 0 {
                if now == Phase::Running {
                    return (Step::Wait, Phase::Running);
                }
                return (Step::End, Phase::Ended);
            }
            let ghost full = self.queue@;
            let item = self.queue.remove(0);
            assert(queue_views(full).skip(1) =~= queue_views(self.queue@));
            assert(queue_views(full)[0] == item@);
            match item {
                QueueItem::Run(d) => {
                    return (Step::Run(d), now);
                },
                QueueItem::Stop => {
                    now = if now == Phase::Running {
                        Phase::Flushing
                    } else {
                        Phase::Ended
                    };
                },
            }
        }
    }

    /// Handlers that a failure is delivered to, with their arguments. A
    /// failure of a handler for failures is dropped, so that it cannot recur.
    pub fn report_error(&self, event: &str, error: &str) -> (r: Option<Dispatch>)
        ensures
            if event@ == "internal_error"@ || self.handlers("internal_error"@).len() == 0 {
                r is None
            } else {
                &&& r matches Some(d)
                &&& d@.event == "internal_error"@
                &&& d@.handlers == self.handlers("internal_error"@)
                &&& d@.ordered
                &&& d@.about == event@
                &&& carries(d@.payload, Some(error@))
            },
    {
        if text::same(event, "internal_error") {
            return None;
        }
        match self.find("internal_error") {
            None => None,
            Some(i) => {
                if self.events[i].handlers.len() == 0 {
                    return None;
                }
                Some(
                    Dispatch {
                        event: text::owned("internal_error"),
                        handlers: copy_handlers(&self.events[i].handlers),
                        ordered: true,
                        args: EventArgs {
                            event: event.to_owned(),
                            payload: EventPayload::Text(error.to_owned()),
                        },
                    },
                )
            },
        }
    }
}

impl Default for EventRegistry {
    fn default() -> (r: Self)
        ensures
            forall|name: Seq<char>| #[trigger]
                r.entry(name) == if name == "internal_error"@ {
                    Some(EntryView { handlers: Seq::empty(), ordered: false })
                } else {
                    None
                },
            r.queue() == Seq::<QueueView>::empty(),
    {
        EventRegistry::new()
    }
}

/// An event without handlers leaves the queue as it is; one with handlers is put
/// at its end, for exactly those handlers.
pub proof fn fired_events_are_queued(e: EventRegistry, name: Seq<char>, payload: EventPayload)
    ensures
        e.handlers(name).len() == 0 ==> e.queue_after(name, payload) == e.queue(),
        e.handlers(name).len() > 0 ==> {
            let q = e.queue_after(name, payload);
            &&& q.len() == e.queue().len() + 1
            &&& q.drop_last() == e.queue()
            &&& q.last() matches QueueView::Run(d) && d.event == name && d.handlers
                == e.handlers(name) && d.about == name && d.payload == payload
        },
{
    if e.handlers(name).len() > 0 {
        assert(e.queue_after(name, payload).drop_last() =~= e.queue());
    }
}

} // verus!
