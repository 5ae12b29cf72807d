use vstd::prelude::*;

use std::sync::mpsc::{Receiver, Sender};

use crate::order::{distinct_keys, has_key, key_index, lemma_key_index};
use crate::text::{chars_of, str_eq, string_from_chars, string_of, to_upper, upper_char};

verus! {

#[verifier::external_type_specification]
#[verifier::external_body]
#[verifier::reject_recursive_types(T)]
pub struct ExSender<T>(Sender<T>);

#[verifier::external_type_specification]
#[verifier::external_body]
#[verifier::reject_recursive_types(T)]
pub struct ExReceiver<T>(Receiver<T>);

/// The events sent so far through the sender `tx`, in order.
pub uninterp spec fn sent_through(tx: Sender<DebugEvent>) -> Seq<EventView>;

/// `tx` and `rx` are the two ends of one channel: `rx` receives what goes through `tx`.
pub uninterp spec fn same_channel(tx: Sender<DebugEvent>, rx: Receiver<DebugEvent>) -> bool;

/// Opens a channel of debugger events (`std::sync::mpsc::channel`). Claimed: the two
/// ends belong to one channel, and nothing has been sent through the sender yet.
#[verifier::external_body]
fn open_channel() -> (r: (Sender<DebugEvent>, Receiver<DebugEvent>))
    ensures
        same_channel(r.0, r.1),
        sent_through(r.0) == Seq::<EventView>::empty(),
{
    std::sync::mpsc::channel::<DebugEvent>()
}

/// Sends an event down a channel (`Sender::send`); a closed receiver is ignored.
/// Claimed: the event is added to what went through `tx`, and `tx` stays the sender of
/// the same channel. Not claimed: that a receiver still exists to take it.
#[verifier::external_body]
fn send_event(tx: &mut Sender<DebugEvent>, ev: DebugEvent)
    ensures
        sent_through(*final(tx)) == sent_through(*old(tx)).push(event_view(ev)),
        forall|rx: Receiver<DebugEvent>| same_channel(*old(tx), rx) ==> same_channel(*final(tx), rx),
{
    let _ = tx.send(ev);
}

/// How the program should stop after it is resumed.
#[derive(Clone, Copy, Debug, PartialEq, Eq, Structural)]
pub enum StepMode {
    Idle,
    In,
    Over { depth: usize },
    Out { target_depth: usize },
}

#[derive(Clone, Debug)]
pub struct Variable {
    pub name: String,
    pub value: String,
    pub value_type: String,
}

#[derive(Clone, Debug)]
pub struct Scope {
    pub name: String,
    pub vars: Vec<Variable>,
}

#[derive(Clone, Debug)]
pub struct FrameInfo {
    pub function: String,
    pub file: String,
    pub line: usize,
}

/// What the debugger tells its subscribers.
#[derive(Clone, Debug)]
pub enum DebugEvent {
    Started,
    StoppedBreakpoint { file: String, line: usize },
    Continued,
    Exited,
    Output(String),
}

/// The mathematical value of a `DebugEvent`.
pub enum EventView {
    Started,
    StoppedBreakpoint { file: Seq<char>, line: usize },
    Continued,
    Exited,
    Output(Seq<char>),
}

pub open spec fn event_view(e: DebugEvent) -> EventView {
    match e {
        DebugEvent::Started => EventView::Started,
        DebugEvent::StoppedBreakpoint { file, line } => EventView::StoppedBreakpoint { file: file@, line },
        DebugEvent::Continued => EventView::Continued,
        DebugEvent::Exited => EventView::Exited,
        DebugEvent::Output(s) => EventView::Output(s@),
    }
}

/// A copy of an event.
fn copy_event(e: &DebugEvent) -> (r: DebugEvent)
    ensures
        event_view(r) == event_view(*e),
{
    match e {
        DebugEvent::Started => DebugEvent::Started,
        DebugEvent::StoppedBreakpoint { file, line } => DebugEvent::StoppedBreakpoint { file: file.clone(), line: *line },
        DebugEvent::Continued => DebugEvent::Continued,
        DebugEvent::Exited => DebugEvent::Exited,
        DebugEvent::Output(s) => DebugEvent::Output(s.clone()),
    }
}

/// Every subscriber in `before` was sent `ev` once more, and is still the sender of
/// its channel; nobody was added or removed.
pub open spec fn told_all(before: Seq<Sender<DebugEvent>>, after: Seq<Sender<DebugEvent>>, ev: EventView) -> bool {
    &&& after.len() == before.len()
    &&& forall|i: int| 0 <= i < before.len() ==> #[trigger] sent_through(after[i]) == sent_through(before[i]).push(ev)
    &&& forall|i: int, rx: Receiver<DebugEvent>|
        0 <= i < before.len() && #[trigger] same_channel(before[i], rx) ==> same_channel(after[i], rx)
}

/// Whether the program is paused, how it steps, and who listens.
pub struct DebugState {
    pub paused: bool,
    pub step: StepMode,
    pub subscribers: Vec<Sender<DebugEvent>>,
}

impl DebugState {
    pub fn new() -> (s: Self)
        ensures
            !s.paused,
            s.step == StepMode::Idle,
            s.subscribers@.len() == 0,
    {
        DebugState { paused: false, step: StepMode::Idle, subscribers: Vec::new() }
    }
}

// ---------------------------------------------------------------------
// File names

pub open spec fn norm_char(c: char) -> char {
    upper_char(if c == '\\' { '/' } else { c })
}

/// A file name with back slashes made forward slashes and ASCII letters made
/// upper case, so that names compare as on a case-insensitive file system.
pub open spec fn norm_seq(s: Seq<char>) -> Seq<char> {
    s.map_values(|c: char| norm_char(c))
}

fn norm(p: &str) -> (r: String)
    ensures
        r@ == norm_seq(p@),
{
    let v = chars_of(p);
    let mut out: Vec<char> = Vec::new();
    let mut i: usize = 0;
    while i < v.len()
        invariant
            i <= v.len(),
            v@ == p@,
            out@ == norm_seq(v@.take(i as int)),
        decreases v.len() - i,
    {
        let c = v[i];
        let d = if c == '\\' { '/' } else { c };
        out.push(to_upper(d));
        assert(norm_seq(v@.take(i + 1)) =~= norm_seq(v@.take(i as int)).push(norm_char(c)));
        i += 1;
    }
    assert(v@.take(v.len() as int) =~= v@);
    string_from_chars(&out)
}

// ---------------------------------------------------------------------
// The breakpoint table: file name -> set of lines

/// Breakpoints by normalized file name.
pub struct BreakpointTable {
    files: Vec<String>,
    lines: Vec<Vec<usize>>,
}

impl BreakpointTable {
    pub closed spec fn wf(&self) -> bool {
        &&& self.files.len() == self.lines.len()
        &&& distinct_keys(self.files@)
    }

    /// The breakpoint lines of each file that has an entry.
    pub closed spec fn table(&self) -> Map<Seq<char>, Set<usize>> {
        Map::new(
            |k: Seq<char>| has_key(self.files@, k),
            |k: Seq<char>| self.lines@[key_index(self.files@, k)]@.to_set(),
        )
    }

    fn new() -> (t: Self)
        ensures
            t.wf(),
            t.table() == Map::<Seq<char>, Set<usize>>::empty(),
    {
        let t = BreakpointTable { files: Vec::new(), lines: Vec::new() };
        assert(t.table() =~= Map::<Seq<char>, Set<usize>>::empty());
        t
    }

    fn find(&self, key: &str) -> (r: Option<usize>)
        requires
            self.wf(),
        ensures
            match r {
                Some(i) => i < self.files.len() && self.files@[i as int]@ == key@ && self.table().dom().contains(key@)
                    && self.table()[key@] == self.lines@[i as int]@.to_set(),
                None => !self.table().dom().contains(key@),
            },
    {
        let mut i: usize = 0;
        while i < self.files.len()
            invariant
                self.wf(),
                i <= self.files.len(),
                forall|j: int| 0 <= j < i ==> self.files@[j]@ != key@,
            decreases self.files.len() - i,
        {
            if str_eq(self.files[i].as_str(), key) {
                proof { lemma_key_index(self.files@, i as int); }
                return Some(i);
            }
            i += 1;
        }
        None
    }

    fn lines_contain(ls: &Vec<usize>, line: usize) -> (r: bool)
        ensures
            r == ls@.to_set().contains(line),
    {
        let mut k: usize = 0;
        while k < ls.len()
            invariant
                k <= ls.len(),
                forall|j: int| 0 <= j < k ==> ls@[j] != line,
            decreases ls.len() - k,
        {
            if ls[k] == line {
                assert(ls@.contains(line));
                return true;
            }
            k += 1;
        }
        false
    }

    fn contains(&self, key: &str, line: usize) -> (r: bool)
        requires
            self.wf(),
        ensures
            r == (self.table().dom().contains(key@) && self.table()[key@].contains(line)),
    {
        match self.find(key) {
            Some(i) => Self::lines_contain(&self.lines[i], line),
            None => false,
        }
    }

    /// Replaces the lines of entry `i`.
    fn replace_lines(&mut self, i: usize, ls: Vec<usize>)
        requires
            old(self).wf(),
            i < old(self).files.len(),
        ensures
            final(self).wf(),
            final(self).files@ == old(self).files@,
            final(self).table() == old(self).table().insert(old(self).files@[i as int]@, ls@.to_set()),
    {
        let ghost before = self.table();
        let ghost key = self.files@[i as int]@;
        let ghost old_lines = self.lines@;
        let _ = self.lines.remove(i);
        self.lines.insert(i, ls);
        assert(self.lines@ =~= old_lines.update(i as int, ls));
        proof { lemma_key_index(self.files@, i as int); }
        assert forall|k: Seq<char>| #[trigger] self.table().dom().contains(k) == before.insert(key, ls@.to_set()).dom().contains(k)
            && (self.table().dom().contains(k) ==> self.table()[k] == before.insert(key, ls@.to_set())[k]) by {
            if k != key && has_key(self.files@, k) {
                let j = key_index(self.files@, k);
                assert(j != i);
            }
        }
        assert(self.table() =~= before.insert(key, ls@.to_set()));
    }

    fn insert(&mut self, key: String, line: usize)
        requires
            old(self).wf(),
        ensures
            final(self).wf(),
            final(self).table() == old(self).table().insert(
                key@,
                (if old(self).table().dom().contains(key@) {
                    old(self).table()[key@]
                } else {
                    Set::empty()
                }).insert(line),
            ),
    {
        let ghost before = self.table();
        match self.find(key.as_str()) {
            Some(i) => {
                let mut ls = copy_lines(&self.lines[i]);
                let ghost old_ls = ls@;
                ls.push(line);
                proof { old_ls.lemma_push_to_set_commute(line); }
                self.replace_lines(i, ls);
            },
            None => {
                let ghost old_files = self.files@;
                let ghost old_lines = self.lines@;
                let mut ls: Vec<usize> = Vec::new();
                ls.push(line);
                let ghost kv = key@;
                self.files.push(key);
                self.lines.push(ls);
                assert(distinct_keys(self.files@)) by {
                    assert forall|i: int, j: int| 0 <= i < j < self.files@.len() implies (#[trigger] self.files@[i])@
                        != (#[trigger] self.files@[j])@ by {
                        if j == old_files.len() {
                            assert(self.files@[i] == old_files[i]);
                        } else {
                            assert(self.files@[i] == old_files[i]);
                            assert(self.files@[j] == old_files[j]);
                        }
                    }
                }
                proof {
                    let e = Seq::<usize>::empty();
                    e.lemma_push_to_set_commute(line);
                    assert(e.to_set() =~= Set::<usize>::empty());
                    assert(ls@ =~= e.push(line));
                }
                proof { lemma_key_index(self.files@, old_files.len() as int); }
                let ghost want = before.insert(kv, Set::<usize>::empty().insert(line));
                assert forall|k: Seq<char>| #[trigger] self.table().dom().contains(k) == want.dom().contains(k)
                    && (self.table().dom().contains(k) ==> self.table()[k] == want[k]) by {
                    if k != kv {
                        if has_key(self.files@, k) {
                            let j = key_index(self.files@, k);
                            assert(j != old_files.len());
                            assert(self.files@[j] == old_files[j]);
                            assert(has_key(old_files, k));
                            lemma_key_index(old_files, j);
                            lemma_key_index(self.files@, j);
                        }
                        if has_key(old_files, k) {
                            let j = key_index(old_files, k);
                            assert(self.files@[j] == old_files[j]);
                        }
                    }
                }
                assert(self.table() =~= want);
            },
        }
    }

    fn remove_line(&mut self, key: &str, line: usize)
        requires
            old(self).wf(),
        ensures
            final(self).wf(),
            final(self).table() == (if old(self).table().dom().contains(key@) {
                old(self).table().insert(key@, old(self).table()[key@].remove(line))
            } else {
                old(self).table()
            }),
    {
        match self.find(key) {
            Some(i) => {
                let src = &self.lines[i];
                let mut ls: Vec<usize> = Vec::new();
                let mut k: usize = 0;
                while k < src.len()
                    invariant
                        k <= src.len(),
                        ls@.to_set() == src@.take(k as int).to_set().remove(line),
                    decreases src.len() - k,
                {
                    let ghost prev = ls@;
                    if src[k] != line {
                        ls.push(src[k]);
                        proof { prev.lemma_push_to_set_commute(src@[k as int]); }
                    }
                    proof { src@.take(k as int).lemma_push_to_set_commute(src@[k as int]); }
                    assert(src@.take(k + 1) =~= src@.take(k as int).push(src@[k as int]));
                    assert(ls@.to_set() =~= src@.take(k + 1).to_set().remove(line));
                    k += 1;
                }
                assert(src@.take(src.len() as int) =~= src@);
                self.replace_lines(i, ls);
            },
            None => {},
        }
    }

    fn clear(&mut self)
        ensures
            final(self).wf(),
            final(self).table() == Map::<Seq<char>, Set<usize>>::empty(),
    {
        *self = BreakpointTable::new();
    }
}

// ---------------------------------------------------------------------
// The debugger

/// The table after a breakpoint at `line` of `file` is set.
pub open spec fn after_set(t: Map<Seq<char>, Set<usize>>, file: Seq<char>, line: usize) -> Map<Seq<char>, Set<usize>> {
    let k = norm_seq(file);
    t.insert(k, (if t.dom().contains(k) { t[k] } else { Set::empty() }).insert(line))
}

/// The table after the breakpoint at `line` of `file` is cleared.
pub open spec fn after_clear(t: Map<Seq<char>, Set<usize>>, file: Seq<char>, line: usize) -> Map<Seq<char>, Set<usize>> {
    let k = norm_seq(file);
    if t.dom().contains(k) {
        t.insert(k, t[k].remove(line))
    } else {
        t
    }
}

/// The table holds a breakpoint at `line` of `file`.
pub open spec fn hits(t: Map<Seq<char>, Set<usize>>, file: Seq<char>, line: usize) -> bool {
    t.dom().contains(norm_seq(file)) && t[norm_seq(file)].contains(line)
}

/// What the debugger decides at a pause point.
#[derive(Clone, Copy, Debug, PartialEq, Eq, Structural)]
pub struct PauseDecision {
    /// The program stops here.
    pub pause: bool,
    /// The new `paused` flag.
    pub paused: bool,
    /// The new step mode.
    pub step: StepMode,
    /// Subscribers are told that the program stopped.
    pub notify: bool,
}

pub open spec fn stop_now() -> PauseDecision {
    PauseDecision { pause: true, paused: true, step: StepMode::Idle, notify: true }
}

/// The decision at a pause point, given whether the program is paused, its step mode,
/// whether a breakpoint is set on the line, and the current call depth.
pub open spec fn pause_spec(paused: bool, step: StepMode, hit: bool, depth: usize) -> PauseDecision {
    if paused {
        PauseDecision { pause: true, paused: true, step: step, notify: false }
    } else if hit {
        stop_now()
    } else {
        match step {
            StepMode::Idle => PauseDecision { pause: false, paused: false, step: step, notify: false },
            StepMode::In => stop_now(),
            StepMode::Over { depth: d } => if depth <= d {
                stop_now()
            } else {
                PauseDecision { pause: false, paused: false, step: step, notify: false }
            },
            StepMode::Out { target_depth: d } => if depth <= d {
                stop_now()
            } else {
                PauseDecision { pause: false, paused: false, step: step, notify: false }
            },
        }
    }
}

/// Decides what happens at a pause point.
pub fn decide_pause(paused: bool, step: StepMode, hit: bool, depth: usize) -> (d: PauseDecision)
    ensures
        d == pause_spec(paused, step, hit, depth),
{
    let stop = PauseDecision { pause: true, paused: true, step: StepMode::Idle, notify: true };
    if paused {
        return PauseDecision { pause: true, paused: true, step, notify: false };
    }
    if hit {
        return stop;
    }
    let go_on = PauseDecision { pause: false, paused: false, step, notify: false };
    match step {
        StepMode::Idle => go_on,
        StepMode::In => stop,
        StepMode::Over { depth: d } => if depth <= d { stop } else { go_on },
        StepMode::Out { target_depth: d } => if depth <= d { stop } else { go_on },
    }
}

/// Breakpoints, stepping state and subscribers of a debugged program.
pub struct Debugger {
    pub breakpoints: BreakpointTable,
    pub state: DebugState,
}

impl Debugger {
    pub open spec fn wf(&self) -> bool {
        self.breakpoints.wf()
    }

    /// The breakpoint lines by normalized file name.
    pub open spec fn table(&self) -> Map<Seq<char>, Set<usize>> {
        self.breakpoints.table()
    }

    pub fn new() -> (d: Self)
        ensures
            d.wf(),
            d.table() == Map::<Seq<char>, Set<usize>>::empty(),
            !d.state.paused,
            d.state.step == StepMode::Idle,
            d.state.subscribers@.len() == 0,
    {
        Debugger { breakpoints: BreakpointTable::new(), state: DebugState::new() }
    }

    /// Adds a subscriber and hands back the end on which it receives the events: the
    /// receiver of the channel whose sender is the new last subscriber.
    pub fn subscribe(&mut self) -> (rx: Receiver<DebugEvent>)
        requires
            old(self).wf(),
        ensures
            final(self).wf(),
            final(self).table() == old(self).table(),
            final(self).state.paused == old(self).state.paused,
            final(self).state.step == old(self).state.step,
            final(self).state.subscribers@.len() == old(self).state.subscribers@.len() + 1,
            final(self).state.subscribers@.take(old(self).state.subscribers@.len() as int) == old(self).state.subscribers@,
            same_channel(final(self).state.subscribers@.last(), rx),
            sent_through(final(self).state.subscribers@.last()) == Seq::<EventView>::empty(),
    {
        let (tx, rx) = open_channel();
        self.state.subscribers.push(tx);
        assert(self.state.subscribers@.take(old(self).state.subscribers@.len() as int) =~= old(self).state.subscribers@);
        rx
    }

    /// Sends a copy of `ev` to every subscriber, in order.
    pub fn emit(&mut self, ev: DebugEvent)
        ensures
            final(self).breakpoints == old(self).breakpoints,
            final(self).state.paused == old(self).state.paused,
            final(self).state.step == old(self).state.step,
            told_all(old(self).state.subscribers@, final(self).state.subscribers@, event_view(ev)),
    {
        let n = self.state.subscribers.len();
        let mut i: usize = 0;
        while i < n
            invariant
                i <= n,
                n == old(self).state.subscribers@.len(),
                self.state.subscribers@.len() == n,
                self.breakpoints == old(self).breakpoints,
                self.state.paused == old(self).state.paused,
                self.state.step == old(self).state.step,
                forall|j: int|
                    0 <= j < i ==> #[trigger] sent_through(self.state.subscribers@[j]) == sent_through(
                        old(self).state.subscribers@[j],
                    ).push(event_view(ev)),
                forall|j: int, rx: Receiver<DebugEvent>|
                    0 <= j < i && #[trigger] same_channel(old(self).state.subscribers@[j], rx) ==> same_channel(
                        self.state.subscribers@[j],
                        rx,
                    ),
                forall|j: int| i <= j < n ==> #[trigger] self.state.subscribers@[j] == old(self).state.subscribers@[j],
            decreases n - i,
        {
            let c = copy_event(&ev);
            send_event(&mut self.state.subscribers[i], c);
            i += 1;
        }
    }

    pub fn set_breakpoint(&mut self, file: String, line: usize)
        requires
            old(self).wf(),
        ensures
            final(self).wf(),
            final(self).table() == after_set(old(self).table(), file@, line),
            final(self).state == old(self).state,
    {
        let key = norm(file.as_str());
        self.breakpoints.insert(key, line);
    }

    pub fn clear_breakpoint(&mut self, file: String, line: usize)
        requires
            old(self).wf(),
        ensures
            final(self).wf(),
            final(self).table() == after_clear(old(self).table(), file@, line),
            final(self).state == old(self).state,
    {
        let key = norm(file.as_str());
        self.breakpoints.remove_line(key.as_str(), line);
    }

    pub fn clear_all(&mut self)
        ensures
            final(self).wf(),
            final(self).table() == Map::<Seq<char>, Set<usize>>::empty(),
            final(self).state == old(self).state,
    {
        self.breakpoints.clear();
    }

    pub fn pause(&mut self)
        ensures
            final(self).breakpoints == old(self).breakpoints,
            final(self).state.paused,
            final(self).state.step == StepMode::Idle,
            final(self).state.subscribers == old(self).state.subscribers,
    {
        self.state.paused = true;
        self.state.step = StepMode::Idle;
    }

    pub fn resume(&mut self)
        ensures
            final(self).breakpoints == old(self).breakpoints,
            !final(self).state.paused,
            final(self).state.step == StepMode::Idle,
            told_all(old(self).state.subscribers@, final(self).state.subscribers@, EventView::Continued),
    {
        self.state.paused = false;
        self.state.step = StepMode::Idle;
        self.emit(DebugEvent::Continued);
    }

    pub fn step_in(&mut self)
        ensures
            final(self).breakpoints == old(self).breakpoints,
            !final(self).state.paused,
            final(self).state.step == StepMode::In,
            told_all(old(self).state.subscribers@, final(self).state.subscribers@, EventView::Continued),
    {
        self.state.paused = false;
        self.state.step = StepMode::In;
        self.emit(DebugEvent::Continued);
    }

    pub fn step_over(&mut self, cur_depth: usize)
        ensures
            final(self).breakpoints == old(self).breakpoints,
            !final(self).state.paused,
            final(self).state.step == (StepMode::Over { depth: cur_depth }),
            told_all(old(self).state.subscribers@, final(self).state.subscribers@, EventView::Continued),
    {
        self.state.paused = false;
        self.state.step = StepMode::Over { depth: cur_depth };
        self.emit(DebugEvent::Continued);
    }

    pub fn step_out(&mut self, target_depth: usize)
        ensures
            final(self).breakpoints == old(self).breakpoints,
            !final(self).state.paused,
            final(self).state.step == (StepMode::Out { target_depth }),
            told_all(old(self).state.subscribers@, final(self).state.subscribers@, EventView::Continued),
    {
        self.state.paused = false;
        self.state.step = StepMode::Out { target_depth };
        self.emit(DebugEvent::Continued);
    }

    /// Called by the VM at each line and at call and return boundaries: whether the
    /// program stops here. Subscribers are told when it stops at a breakpoint or a step.
    pub fn check_pause_point(&mut self, file: &str, line: usize, cur_depth: usize) -> (r: bool)
        requires
            old(self).wf(),
        ensures
            final(self).wf(),
            final(self).breakpoints == old(self).breakpoints,
            ({
                let d = pause_spec(old(self).state.paused, old(self).state.step, hits(old(self).table(), file@, line), cur_depth);
                &&& r == d.pause
                &&& final(self).state.paused == d.paused
                &&& final(self).state.step == d.step
                &&& if d.notify {
                    told_all(
                        old(self).state.subscribers@,
                        final(self).state.subscribers@,
                        EventView::StoppedBreakpoint { file: file@, line },
                    )
                } else {
                    final(self).state.subscribers == old(self).state.subscribers
                }
            }),
    {
        let hit = if self.state.paused {
            false
        } else {
            let key = norm(file);
            self.breakpoints.contains(key.as_str(), line)
        };
        let d = decide_pause(self.state.paused, self.state.step, hit, cur_depth);
        self.state.paused = d.paused;
        self.state.step = d.step;
        if d.notify {
            self.emit(DebugEvent::StoppedBreakpoint { file: string_of(file), line });
        }
        d.pause
    }
}

// ---------------------------------------------------------------------
// Laws of the debugger

/// A breakpoint that was just set is hit at that file and line.
pub proof fn law_set_breakpoint_is_hit(t: Map<Seq<char>, Set<usize>>, file: Seq<char>, line: usize)
    ensures
        hits(after_set(t, file, line), file, line),
{
}

/// Setting a breakpoint adds exactly that breakpoint.
pub proof fn law_set_breakpoint_adds_only_it(
    t: Map<Seq<char>, Set<usize>>,
    file: Seq<char>,
    line: usize,
    other_file: Seq<char>,
    other_line: usize,
)
    ensures
        hits(after_set(t, file, line), other_file, other_line) == (hits(t, other_file, other_line) || (norm_seq(
            other_file,
        ) == norm_seq(file) && other_line == line)),
{
}

/// Clearing a breakpoint removes exactly that breakpoint, so it undoes setting it.
pub proof fn law_clear_breakpoint_removes_only_it(
    t: Map<Seq<char>, Set<usize>>,
    file: Seq<char>,
    line: usize,
    other_file: Seq<char>,
    other_line: usize,
)
    ensures
        !hits(after_clear(t, file, line), file, line),
        hits(after_clear(t, file, line), other_file, other_line) == (hits(t, other_file, other_line) && !(norm_seq(
            other_file,
        ) == norm_seq(file) && other_line == line)),
        !hits(after_clear(after_set(t, file, line), file, line), file, line),
{
}

/// File names are compared with back slashes read as slashes and without regard
/// to the case of ASCII letters.
pub proof fn law_file_names_compare_normalized(t: Map<Seq<char>, Set<usize>>, f1: Seq<char>, f2: Seq<char>, line: usize)
    requires
        f1.len() == f2.len(),
        forall|i: int| 0 <= i < f1.len() ==> norm_char(#[trigger] f1[i]) == norm_char(f2[i]),
    ensures
        hits(t, f1, line) == hits(t, f2, line),
{
    assert(norm_seq(f1) =~= norm_seq(f2));
}

/// A breakpoint stops a running program, tells the subscribers, and ends any stepping.
pub proof fn law_breakpoint_stops(step: StepMode, depth: usize)
    ensures
        pause_spec(false, step, true, depth) == stop_now(),
{
}

/// A paused program stays paused, and nobody is told again.
pub proof fn law_paused_stays_paused(step: StepMode, hit: bool, depth: usize)
    ensures
        pause_spec(true, step, hit, depth).pause,
        pause_spec(true, step, hit, depth).paused,
        !pause_spec(true, step, hit, depth).notify,
{
}

/// A resumed program runs on until a breakpoint.
pub proof fn law_resumed_runs_to_breakpoint(hit: bool, depth: usize)
    ensures
        pause_spec(false, StepMode::Idle, hit, depth).pause == hit,
{
}

/// Stepping in stops at the very next pause point.
pub proof fn law_step_in_stops_next(hit: bool, depth: usize)
    ensures
        pause_spec(false, StepMode::In, hit, depth) == stop_now(),
{
}

/// Stepping over (or out to) depth `d` stops at the first point at depth `d` or less,
/// and runs through deeper calls unless a breakpoint is hit there.
pub proof fn law_step_over_and_out(d: usize, hit: bool, depth: usize)
    ensures
        pause_spec(false, StepMode::Over { depth: d }, hit, depth).pause == (hit || depth <= d),
        pause_spec(false, StepMode::Out { target_depth: d }, hit, depth).pause == (hit || depth <= d),
{
}

/// Whenever a running program stops, it is paused, stepping ends, and subscribers are told.
pub proof fn law_stop_pauses_and_notifies(step: StepMode, hit: bool, depth: usize)
    ensures
        pause_spec(false, step, hit, depth).pause ==> pause_spec(false, step, hit, depth) == stop_now(),
        !pause_spec(false, step, hit, depth).pause ==> (!pause_spec(false, step, hit, depth).paused
            && pause_spec(false, step, hit, depth).step == step && !pause_spec(false, step, hit, depth).notify),
{
}

/// Two events told to all subscribers one after the other reach each subscriber's
/// channel in that order, and each sender stays the sender of its channel.
pub proof fn law_events_arrive_in_order(
    a: Seq<Sender<DebugEvent>>,
    b: Seq<Sender<DebugEvent>>,
    c: Seq<Sender<DebugEvent>>,
    e1: EventView,
    e2: EventView,
)
    requires
        told_all(a, b, e1),
        told_all(b, c, e2),
    ensures
        c.len() == a.len(),
        forall|i: int| 0 <= i < a.len() ==> #[trigger] sent_through(c[i]) == sent_through(a[i]).push(e1).push(e2),
        forall|i: int, rx: Receiver<DebugEvent>|
            0 <= i < a.len() && #[trigger] same_channel(a[i], rx) ==> same_channel(c[i], rx),
{
    assert forall|i: int| 0 <= i < a.len() implies #[trigger] sent_through(c[i]) == sent_through(a[i]).push(e1).push(e2) by {
        assert(sent_through(b[i]) == sent_through(a[i]).push(e1));
    }
    assert forall|i: int, rx: Receiver<DebugEvent>| 0 <= i < a.len() && #[trigger] same_channel(a[i], rx) implies same_channel(c[i], rx) by {
        assert(same_channel(b[i], rx));
    }
}

fn copy_lines(v: &Vec<usize>) -> (r: Vec<usize>)
    ensures
        r@ == v@,
{
    let mut r: Vec<usize> = Vec::new();
    let mut i: usize = 0;
    while i < v.len()
        invariant
            i <= v.len(),
            r@ == v@.take(i as int),
        decreases v.len() - i,
    {
        r.push(v[i]);
        assert(v@.take(i + 1) =~= v@.take(i as int).push(v@[i as int]));
        i += 1;
    }
    assert(v@.take(v.len() as int) =~= v@);
    r
}

} // verus!
