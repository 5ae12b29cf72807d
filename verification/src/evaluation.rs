use vstd::prelude::*;

use crate::ast::strings_view;
use crate::common::BasilError;
use crate::render::{arms_of, lemma_arms_of_push, lemma_trees_of_push, tree_of, trees_of, ForEachOrder, Node, Tree};
use crate::template::{template_error_message, wrap_tmpl_error};
use crate::text::{ascii_upper, chars_of, push_str, str_eq, string_of, trim, trimmed_string, upper_seq};
use crate::template::{
    args_scan, at_directive, ident_at, left_chars, left_seq, mid_chars, mid_seq, read_args_until_rparen, read_ident,
    right_chars, right_seq, skip_ws, skip_ws_end, split_scan, split_top_level_commas, starts_with2, starts_with_at,
};
use crate::render::{lemma_args_scan_bounds, lemma_ident_at_bounds, lemma_run_end_bounds};
use crate::text::occurs_at;

verus! {

// ---------------------------------------------------------------------
// Numeric loops

pub open spec fn abs_int(x: int) -> int {
    if x < 0 {
        -x
    } else {
        x
    }
}

/// The step of `@FOR(var = start TO end [STEP step])`: a step of 0 counts as 1, and
/// without one the loop counts by 1 toward `end`.
pub open spec fn for_step(start: i64, end: i64, step: Option<i64>) -> i64 {
    match step {
        Some(s) => if s == 0 {
            1
        } else {
            s
        },
        None => if end >= start {
            1i64
        } else {
            -1i64
        },
    }
}

/// How many times a loop from `start` to `end` by `step` runs its body.
pub open spec fn for_count(start: i64, end: i64, step: i64) -> int {
    if (step > 0 && start > end) || (step < 0 && start < end) {
        0
    } else {
        abs_int(end - start) / abs_int(step as int) + 1
    }
}

/// The step and the number of iterations of a numeric `@FOR`.
pub open spec fn for_plan_spec(start: i64, end: i64, step: Option<i64>) -> (i64, int) {
    let s = for_step(start, end, step);
    (s, for_count(start, end, s))
}

/// The plan is computed without overflow in 64-bit arithmetic: the distance, the
/// size of the step and the count all fit.
pub open spec fn for_plan_fits(start: i64, end: i64, step: Option<i64>) -> bool {
    let s = for_step(start, end, step);
    for_count(start, end, s) == 0 || (abs_int(end - start) <= i64::MAX && s != i64::MIN && for_count(start, end, s)
        <= i64::MAX)
}

/// The step and the number of iterations of `@FOR(var = start TO end [STEP step])`.
pub fn for_plan(start: i64, end: i64, step: Option<i64>) -> (r: (i64, i64))
    requires
        for_plan_fits(start, end, step),
    ensures
        r.0 == for_plan_spec(start, end, step).0,
        r.1 == for_plan_spec(start, end, step).1,
{
    let s: i64 = match step {
        Some(v) => if v == 0 {
            1
        } else {
            v
        },
        None => if end >= start {
            1
        } else {
            -1
        },
    };
    if (s > 0 && start > end) || (s < 0 && start < end) {
        (s, 0)
    } else {
        let d: i128 = end as i128 - start as i128;
        let dist: i128 = if d < 0 {
            -d
        } else {
            d
        };
        let m: i128 = if s < 0 {
            -(s as i128)
        } else {
            s as i128
        };
        assert(m >= 1);
        assert(dist / m <= dist) by (nonlinear_arith)
            requires
                m >= 1,
                dist >= 0,
        ;
        let c: i128 = dist / m + 1;
        (s, c as i64)
    }
}

/// The plan of a numeric `@FOR`, or `None` where the count does not fit in 64 bits.
pub fn for_plan_checked(start: i64, end: i64, step: Option<i64>) -> (r: Option<(i64, i64)>)
    ensures
        match r {
            Some((s, c)) => for_plan_fits(start, end, step) && s == for_plan_spec(start, end, step).0 && c
                == for_plan_spec(start, end, step).1,
            None => !for_plan_fits(start, end, step),
        },
{
    let s: i64 = match step {
        Some(v) => if v == 0 {
            1
        } else {
            v
        },
        None => if end >= start {
            1
        } else {
            -1
        },
    };
    if (s > 0 && start > end) || (s < 0 && start < end) {
        return Some(for_plan(start, end, step));
    }
    let d: i128 = end as i128 - start as i128;
    let dist: i128 = if d < 0 {
        -d
    } else {
        d
    };
    if dist > i64::MAX as i128 || s == i64::MIN {
        return None;
    }
    let m: i128 = if s < 0 {
        -(s as i128)
    } else {
        s as i128
    };
    assert(dist / m <= dist) by (nonlinear_arith)
        requires
            m >= 1,
            dist >= 0,
    ;
    if dist / m + 1 > i64::MAX as i128 {
        return None;
    }
    Some(for_plan(start, end, step))
}

/// The number of times `@TIMES(n)` runs its body: `n`, or none for a negative `n`.
pub open spec fn times_count(n: i64) -> i64 {
    if n < 0 {
        0
    } else {
        n
    }
}

// ---------------------------------------------------------------------
// Copies of template trees

pub fn copy_strings(v: &Vec<String>) -> (r: Vec<String>)
    ensures
        r@ == v@,
{
    let mut r: Vec<String> = Vec::new();
    let mut i: usize = 0;
    while i < v.len()
        invariant
            i <= v.len(),
            r@ == v@.take(i as int),
        decreases v.len() - i,
    {
        r.push(v[i].clone());
        assert(v@.take(i + 1) =~= v@.take(i as int).push(v@[i as int]));
        i += 1;
    }
    assert(v@.take(v.len() as int) =~= v@);
    r
}

pub fn copy_node(n: &Node) -> (r: Node)
    ensures
        tree_of(r) == tree_of(*n),
    decreases *n,
{
    match n {
        Node::Text(t) => Node::Text(t.clone()),
        Node::Interp { expr, pos } => Node::Interp { expr: expr.clone(), pos: *pos },
        Node::Call { name, args, pos } => {
            let a = copy_strings(args);
            Node::Call { name: name.clone(), args: a, pos: *pos }
        },
        Node::If { cond, then_part, else_part, pos } => {
            let t = copy_nodes(then_part);
            let e = copy_nodes(else_part);
            Node::If { cond: cond.clone(), then_part: t, else_part: e, pos: *pos }
        },
        Node::Case { arms, pos } => {
            let a = copy_arms(arms);
            Node::Case { arms: a, pos: *pos }
        },
        Node::ForEach { var, enumerable, body, else_part, order, pos } => {
            let b = copy_nodes(body);
            let e = copy_nodes(else_part);
            Node::ForEach {
                var: var.clone(),
                enumerable: enumerable.clone(),
                body: b,
                else_part: e,
                order: *order,
                pos: *pos,
            }
        },
        Node::Times { count, body, pos } => {
            let b = copy_nodes(body);
            Node::Times { count: count.clone(), body: b, pos: *pos }
        },
        Node::ForNum { var, start, end, step, body, pos } => {
            let b = copy_nodes(body);
            let st = match step {
                Some(x) => Some(x.clone()),
                None => None,
            };
            Node::ForNum { var: var.clone(), start: start.clone(), end: end.clone(), step: st, body: b, pos: *pos }
        },
        Node::While { cond, body, pos } => {
            let b = copy_nodes(body);
            Node::While { cond: cond.clone(), body: b, pos: *pos }
        },
        Node::Break { pos } => Node::Break { pos: *pos },
        Node::Continue { pos } => Node::Continue { pos: *pos },
    }
}

pub fn copy_nodes(v: &Vec<Node>) -> (r: Vec<Node>)
    ensures
        trees_of(r@) == trees_of(v@),
    decreases *v,
{
    let mut r: Vec<Node> = Vec::new();
    let mut i: usize = 0;
    while i < v.len()
        invariant
            i <= v.len(),
            trees_of(r@) == trees_of(v@.take(i as int)),
        decreases v.len() - i,
    {
        assert(decreases_to!(*v => v@[i as int]));
        let c = copy_node(&v[i]);
        proof {
            lemma_trees_of_push(r@, c);
            lemma_trees_of_push(v@.take(i as int), v@[i as int]);
            assert(v@.take(i + 1) =~= v@.take(i as int).push(v@[i as int]));
        }
        r.push(c);
        i += 1;
    }
    assert(v@.take(v.len() as int) =~= v@);
    r
}

pub fn copy_arms(v: &Vec<(String, Vec<Node>)>) -> (r: Vec<(String, Vec<Node>)>)
    ensures
        arms_of(r@) == arms_of(v@),
    decreases *v,
{
    let mut r: Vec<(String, Vec<Node>)> = Vec::new();
    let mut i: usize = 0;
    while i < v.len()
        invariant
            i <= v.len(),
            arms_of(r@) == arms_of(v@.take(i as int)),
        decreases v.len() - i,
    {
        assert(decreases_to!(*v => v@[i as int].1));
        let b = copy_nodes(&v[i].1);
        let a = (v[i].0.clone(), b);
        proof {
            lemma_arms_of_push(r@, a);
            lemma_arms_of_push(v@.take(i as int), v@[i as int]);
            assert(v@.take(i + 1) =~= v@.take(i as int).push(v@[i as int]));
        }
        r.push(a);
        i += 1;
    }
    assert(v@.take(v.len() as int) =~= v@);
    r
}

pub proof fn lemma_trees_of_index(v: Seq<Node>)
    ensures
        trees_of(v).len() == v.len(),
        forall|i: int| 0 <= i < v.len() ==> #[trigger] trees_of(v)[i] == tree_of(v[i]),
    decreases v.len(),
{
    if v.len() > 0 {
        lemma_trees_of_index(v.drop_last());
    }
}

pub proof fn lemma_arms_of_index(v: Seq<(String, Vec<Node>)>)
    ensures
        arms_of(v).len() == v.len(),
        forall|i: int| 0 <= i < v.len() ==> #[trigger] arms_of(v)[i] == (v[i].0@, trees_of(v[i].1@)),
    decreases v.len(),
{
    if v.len() > 0 {
        lemma_arms_of_index(v.drop_last());
    }
}

// ---------------------------------------------------------------------
// Evaluating a template, one decision at a time
//
// Evaluating a template alternates decisions (which branch runs, how often a loop
// runs, where a `@BREAK` lands) with work that only the virtual machine can do
// (evaluating an expression, calling a template function, binding a loop variable).
// `render_step` makes one decision: from the state and the reply to the last action
// it gives the next state and the next action.

/// The value a loop variable takes in an iteration: a number, or the item at an index
/// of the collection that the last `Enumerate` produced.
#[derive(Clone, Copy, Debug, PartialEq, Eq, Structural)]
pub enum LoopValue {
    Int(i64),
    Item(i64),
}

/// A running loop: its counters, and what it needs to start each iteration.
pub enum Loop {
    Times { idx: i64, total: i64 },
    ForNum { var: String, cur: i64, end: i64, step: i64, idx: i64, total: i64 },
    While { cond: String, pos: usize, idx: i64 },
    ForEach { var: String, idx: i64, total: i64 },
}

pub enum LoopView {
    Times { idx: i64, total: i64 },
    ForNum { var: Seq<char>, cur: i64, end: i64, step: i64, idx: i64, total: i64 },
    While { cond: Seq<char>, pos: usize, idx: i64 },
    ForEach { var: Seq<char>, idx: i64, total: i64 },
}

/// A sequence of nodes being evaluated (`next` is the node at hand); for a loop, also
/// the loop's body, of which `nodes` is the current iteration's copy.
pub struct Frame {
    pub nodes: Vec<Node>,
    pub next: usize,
    pub body: Vec<Node>,
    pub lp: Option<Loop>,
}

pub struct FrameView {
    pub nodes: Seq<Tree>,
    pub next: int,
    pub body: Seq<Tree>,
    pub lp: Option<LoopView>,
}

/// What the reply to the last action is for.
#[derive(Clone, Copy, Debug, PartialEq, Eq, Structural)]
pub enum Wait {
    /// Nothing is pending: go on with the node at hand.
    Go,
    Interp { pos: usize },
    CallText { pos: usize },
    IfCond { pos: usize },
    CaseCond { arm: usize, pos: usize },
    TimesCount { pos: usize },
    ForStart { pos: usize },
    ForEnd { pos: usize, start: i64 },
    ForStep { pos: usize, start: i64, end: i64 },
    /// The loop on top is ready to start an iteration.
    LoopReady,
    WhileCond { pos: usize },
    Items { pos: usize },
    /// An iteration of the loop on top has ended, by `@BREAK` when `broken`.
    Ended { broken: bool },
    /// A `@BREAK` or `@CONTINUE` at `pos` is leaving the blocks up to its loop.
    Unwinding { broken: bool, pos: usize },
    /// The loop on top has restored its variable.
    Unbound,
    Finished,
}

pub struct RenderState {
    /// The template text, for positions in error messages.
    pub template: String,
    pub frames: Vec<Frame>,
    /// The text rendered so far.
    pub out: String,
    pub wait: Wait,
}

pub struct StateView {
    pub template: Seq<char>,
    pub frames: Seq<FrameView>,
    pub out: Seq<char>,
    pub wait: Wait,
}

/// The reply to an action.
pub enum EvalEvent {
    /// The action was carried out (or needed nothing).
    Ack,
    /// An expression's value: whether it is true, as a whole number, and as text.
    Value { truthy: bool, whole: i64, text: String },
    /// The number of items of an enumerated collection.
    Items(i64),
    /// The text that a template function call gave.
    Text(String),
    Failed(BasilError),
}

pub enum EventView {
    Ack,
    Value { truthy: bool, whole: i64, text: Seq<char> },
    Items(i64),
    Text(Seq<char>),
    Failed(Seq<char>),
}

/// The next thing to do.
pub enum RenderAction {
    /// Nothing outside: reply `Ack`.
    Proceed,
    /// Evaluate a Basil expression (template calls in it expanded) and reply `Value`.
    Eval { expr: String, pos: usize },
    /// Evaluate an expression, list the items of the collection in the given order,
    /// keep them, and reply `Items`.
    Enumerate { expr: String, order: ForEachOrder, pos: usize },
    /// Call a template function and reply `Text`.
    Call { name: String, args: Vec<String>, pos: usize },
    /// Save the loop variable's value; a loop starts.
    Bind { var: String },
    /// Start an iteration: set the loop variable, if any, and the loop's index and
    /// count variables, saving their values.
    Iterate { var: Option<(String, LoopValue)>, index: i64, count: i64 },
    /// Restore what the last `Iterate` saved.
    EndIteration,
    /// Restore the loop variable saved by `Bind`; the loop is over.
    Unbind { var: String },
    /// The template is rendered.
    Done(String),
    Fail(BasilError),
}

pub enum ActionView {
    Proceed,
    Eval { expr: Seq<char>, pos: int },
    Enumerate { expr: Seq<char>, order: ForEachOrder, pos: int },
    Call { name: Seq<char>, args: Seq<Seq<char>>, pos: int },
    Bind { var: Seq<char> },
    Iterate { var: Option<(Seq<char>, LoopValue)>, index: i64, count: i64 },
    EndIteration,
    Unbind { var: Seq<char> },
    Done(Seq<char>),
    Fail(Seq<char>),
}

pub open spec fn loop_view(l: Loop) -> LoopView {
    match l {
        Loop::Times { idx, total } => LoopView::Times { idx, total },
        Loop::ForNum { var, cur, end, step, idx, total } => LoopView::ForNum { var: var@, cur, end, step, idx, total },
        Loop::While { cond, pos, idx } => LoopView::While { cond: cond@, pos, idx },
        Loop::ForEach { var, idx, total } => LoopView::ForEach { var: var@, idx, total },
    }
}

pub open spec fn frame_view(f: Frame) -> FrameView {
    FrameView {
        nodes: trees_of(f.nodes@),
        next: f.next as int,
        body: trees_of(f.body@),
        lp: match f.lp {
            Some(l) => Some(loop_view(l)),
            None => None,
        },
    }
}

pub open spec fn frames_view(s: Seq<Frame>) -> Seq<FrameView> {
    s.map_values(|f: Frame| frame_view(f))
}

pub open spec fn state_view(st: RenderState) -> StateView {
    StateView { template: st.template@, frames: frames_view(st.frames@), out: st.out@, wait: st.wait }
}

pub open spec fn event_view(e: EvalEvent) -> EventView {
    match e {
        EvalEvent::Ack => EventView::Ack,
        EvalEvent::Value { truthy, whole, text } => EventView::Value { truthy, whole, text: text@ },
        EvalEvent::Items(n) => EventView::Items(n),
        EvalEvent::Text(t) => EventView::Text(t@),
        EvalEvent::Failed(e) => EventView::Failed(e.0@),
    }
}

pub open spec fn action_view(a: RenderAction) -> ActionView {
    match a {
        RenderAction::Proceed => ActionView::Proceed,
        RenderAction::Eval { expr, pos } => ActionView::Eval { expr: expr@, pos: pos as int },
        RenderAction::Enumerate { expr, order, pos } => ActionView::Enumerate { expr: expr@, order, pos: pos as int },
        RenderAction::Call { name, args, pos } => ActionView::Call { name: name@, args: strings_view(args@), pos: pos as int },
        RenderAction::Bind { var } => ActionView::Bind { var: var@ },
        RenderAction::Iterate { var, index, count } => ActionView::Iterate {
            var: match var {
                Some((v, x)) => Some((v@, x)),
                None => None,
            },
            index,
            count,
        },
        RenderAction::EndIteration => ActionView::EndIteration,
        RenderAction::Unbind { var } => ActionView::Unbind { var: var@ },
        RenderAction::Done(s) => ActionView::Done(s@),
        RenderAction::Fail(e) => ActionView::Fail(e.0@),
    }
}

// ---------------------------------------------------------------------
// The decisions

pub open spec fn with_wait(st: StateView, w: Wait) -> StateView {
    StateView { wait: w, ..st }
}

pub open spec fn set_top(st: StateView, f: FrameView) -> StateView {
    StateView { frames: st.frames.update(st.frames.len() - 1, f), ..st }
}

pub open spec fn push_frame(st: StateView, f: FrameView) -> StateView {
    StateView { frames: st.frames.push(f), ..st }
}

pub open spec fn pop_frame(st: StateView) -> StateView {
    StateView { frames: st.frames.drop_last(), ..st }
}

pub open spec fn plain(nodes: Seq<Tree>) -> FrameView {
    FrameView { nodes, next: 0, body: seq![], lp: None }
}

pub open spec fn looping(body: Seq<Tree>, l: LoopView) -> FrameView {
    FrameView { nodes: seq![], next: 0, body, lp: Some(l) }
}

pub open spec fn advanced(f: FrameView) -> FrameView {
    FrameView { next: f.next + 1, ..f }
}

/// The state with the node at hand done.
pub open spec fn past_node(st: StateView) -> StateView {
    set_top(st, advanced(st.frames.last()))
}

/// The node at hand.
pub open spec fn at_hand(st: StateView) -> Option<Tree> {
    if st.frames.len() > 0 && 0 <= st.frames.last().next < st.frames.last().nodes.len() {
        Some(st.frames.last().nodes[st.frames.last().next])
    } else {
        None
    }
}

pub open spec fn fail(st: StateView, pos: int, msg: Seq<char>) -> (StateView, ActionView) {
    (with_wait(st, Wait::Finished), ActionView::Fail(template_error_message(st.template, pos, msg)))
}

pub open spec fn unexpected_reply_msg() -> Seq<char> {
    "RENDER$: unexpected reply"@
}

/// A reply that does not fit what was asked ends the evaluation.
pub open spec fn unexpected(st: StateView) -> (StateView, ActionView) {
    (with_wait(st, Wait::Finished), ActionView::Fail(unexpected_reply_msg()))
}

pub open spec fn proceed(st: StateView, w: Wait) -> (StateView, ActionView) {
    (with_wait(st, w), ActionView::Proceed)
}

pub open spec fn outside_loop_msg(broken: bool) -> Seq<char> {
    if broken {
        "RENDER$: @BREAK outside of loop"@
    } else {
        "RENDER$: @CONTINUE outside of loop"@
    }
}

pub open spec fn for_range_msg() -> Seq<char> {
    "RENDER$: @FOR range too large"@
}

/// One more, short of the largest 64-bit number.
pub open spec fn inc(i: i64) -> i64 {
    if i < i64::MAX {
        (i + 1) as i64
    } else {
        i
    }
}

/// Goes on with the node at hand, or ends the sequence on top.
pub open spec fn go(st: StateView) -> (StateView, ActionView) {
    if st.frames.len() == 0 {
        (with_wait(st, Wait::Finished), ActionView::Done(st.out))
    } else {
        let f = st.frames.last();
        match at_hand(st) {
            Some(n) => match n {
                Tree::Text(t) => proceed(StateView { out: st.out + t, ..past_node(st) }, Wait::Go),
                Tree::Interp { expr, pos } => (with_wait(st, Wait::Interp { pos: pos as usize }), ActionView::Eval { expr, pos }),
                Tree::Call { name, args, pos } => (
                    with_wait(st, Wait::CallText { pos: pos as usize }),
                    ActionView::Call { name, args, pos },
                ),
                Tree::If { cond, pos, .. } => (with_wait(st, Wait::IfCond { pos: pos as usize }), ActionView::Eval { expr: cond, pos }),
                Tree::Case { arms, pos } => if arms.len() == 0 {
                    proceed(past_node(st), Wait::Go)
                } else {
                    (with_wait(st, Wait::CaseCond { arm: 0, pos: pos as usize }), ActionView::Eval { expr: arms[0].0, pos })
                },
                Tree::ForEach { enumerable, order, pos, .. } => (
                    with_wait(st, Wait::Items { pos: pos as usize }),
                    ActionView::Enumerate { expr: enumerable, order, pos },
                ),
                Tree::Times { count, pos, .. } => (
                    with_wait(st, Wait::TimesCount { pos: pos as usize }),
                    ActionView::Eval { expr: count, pos },
                ),
                Tree::ForNum { start, pos, .. } => (
                    with_wait(st, Wait::ForStart { pos: pos as usize }),
                    ActionView::Eval { expr: start, pos },
                ),
                Tree::While { cond, body, pos } => proceed(
                    push_frame(past_node(st), looping(body, LoopView::While { cond, pos: pos as usize, idx: 0 })),
                    Wait::LoopReady,
                ),
                Tree::Break { pos } => proceed(st, Wait::Unwinding { broken: true, pos: pos as usize }),
                Tree::Continue { pos } => proceed(st, Wait::Unwinding { broken: false, pos: pos as usize }),
            },
            None => if f.lp is None {
                proceed(pop_frame(st), Wait::Go)
            } else {
                (with_wait(st, Wait::Ended { broken: false }), ActionView::EndIteration)
            },
        }
    }
}

/// A `@BREAK` or `@CONTINUE` leaves one block on its way to the loop it ends or goes on with.
pub open spec fn unwind(st: StateView, broken: bool, pos: usize) -> (StateView, ActionView) {
    if st.frames.len() == 0 {
        fail(st, pos as int, outside_loop_msg(broken))
    } else if st.frames.last().lp is Some {
        (with_wait(st, Wait::Ended { broken }), ActionView::EndIteration)
    } else {
        proceed(pop_frame(st), Wait::Unwinding { broken, pos })
    }
}

/// The loop on top is over.
pub open spec fn end_loop(st: StateView, l: LoopView) -> (StateView, ActionView) {
    match l {
        LoopView::ForNum { var, .. } => (with_wait(st, Wait::Unbound), ActionView::Unbind { var }),
        LoopView::ForEach { var, .. } => (with_wait(st, Wait::Unbound), ActionView::Unbind { var }),
        _ => proceed(pop_frame(st), Wait::Go),
    }
}

/// An iteration of the loop on top has ended.
pub open spec fn iteration_ended(st: StateView, broken: bool) -> (StateView, ActionView) {
    if st.frames.len() == 0 {
        unexpected(st)
    } else {
        let f = st.frames.last();
        match f.lp {
            None => unexpected(st),
            Some(l) => if broken {
                end_loop(st, l)
            } else {
                match l {
                    LoopView::Times { idx, total } => proceed(
                        set_top(st, FrameView { lp: Some(LoopView::Times { idx: inc(idx), total }), ..f }),
                        Wait::LoopReady,
                    ),
                    LoopView::ForNum { var, cur, end, step, idx, total } => if i64::MIN <= cur + step <= i64::MAX {
                        proceed(
                            set_top(
                                st,
                                FrameView {
                                    lp: Some(LoopView::ForNum { var, cur: (cur + step) as i64, end, step, idx: inc(idx), total }),
                                    ..f
                                },
                            ),
                            Wait::LoopReady,
                        )
                    } else {
                        end_loop(st, l)
                    },
                    LoopView::While { cond, pos, idx } => proceed(
                        set_top(st, FrameView { lp: Some(LoopView::While { cond, pos, idx: inc(idx) }), ..f }),
                        Wait::LoopReady,
                    ),
                    LoopView::ForEach { var, idx, total } => proceed(
                        set_top(st, FrameView { lp: Some(LoopView::ForEach { var, idx: inc(idx), total }), ..f }),
                        Wait::LoopReady,
                    ),
                }
            },
        }
    }
}

/// The loop on top with a fresh copy of its body at hand.
pub open spec fn fresh_iteration(st: StateView) -> StateView {
    set_top(st, FrameView { nodes: st.frames.last().body, next: 0, ..st.frames.last() })
}

/// Whether a numeric loop at `cur` goes on toward `end` by `step`.
pub open spec fn for_goes_on(cur: i64, end: i64, step: i64) -> bool {
    (step > 0 && cur <= end) || (step < 0 && cur >= end)
}

/// The loop on top starts an iteration, or ends.
pub open spec fn start_iteration(st: StateView) -> (StateView, ActionView) {
    if st.frames.len() == 0 {
        unexpected(st)
    } else {
        match st.frames.last().lp {
            None => unexpected(st),
            Some(l) => match l {
                LoopView::Times { idx, total } => if idx < total {
                    (
                        with_wait(fresh_iteration(st), Wait::Go),
                        ActionView::Iterate { var: None, index: idx, count: total },
                    )
                } else {
                    end_loop(st, l)
                },
                LoopView::ForNum { var, cur, end, step, idx, total } => if for_goes_on(cur, end, step) {
                    (
                        with_wait(fresh_iteration(st), Wait::Go),
                        ActionView::Iterate { var: Some((var, LoopValue::Int(cur))), index: idx, count: total },
                    )
                } else {
                    end_loop(st, l)
                },
                LoopView::ForEach { var, idx, total } => if idx < total {
                    (
                        with_wait(fresh_iteration(st), Wait::Go),
                        ActionView::Iterate { var: Some((var, LoopValue::Item(idx))), index: idx, count: total },
                    )
                } else {
                    end_loop(st, l)
                },
                LoopView::While { cond, pos, .. } => (
                    with_wait(st, Wait::WhileCond { pos }),
                    ActionView::Eval { expr: cond, pos: pos as int },
                ),
            },
        }
    }
}

/// A numeric loop over `start..end`, its step given or not, starts.
pub open spec fn plan_for(st: StateView, pos: usize, start: i64, end: i64, step: Option<i64>) -> (StateView, ActionView) {
    match at_hand(st) {
        Some(Tree::ForNum { var, body, .. }) => if !for_plan_fits(start, end, step) {
            fail(st, pos as int, for_range_msg())
        } else {
            let (s, c) = for_plan_spec(start, end, step);
            (
                with_wait(
                    push_frame(
                        past_node(st),
                        looping(body, LoopView::ForNum { var, cur: start, end, step: s, idx: 0, total: c as i64 }),
                    ),
                    Wait::LoopReady,
                ),
                ActionView::Bind { var },
            )
        },
        _ => unexpected(st),
    }
}

/// The next state and action, from the state and the reply to the last action.
pub open spec fn render_step_spec(st: StateView, ev: EventView) -> (StateView, ActionView) {
    match st.wait {
        Wait::Go => match ev {
            EventView::Ack => go(st),
            _ => unexpected(st),
        },
        Wait::Unwinding { broken, pos } => match ev {
            EventView::Ack => unwind(st, broken, pos),
            _ => unexpected(st),
        },
        Wait::Ended { broken } => match ev {
            EventView::Ack => iteration_ended(st, broken),
            _ => unexpected(st),
        },
        Wait::LoopReady => match ev {
            EventView::Ack => start_iteration(st),
            _ => unexpected(st),
        },
        Wait::Unbound => match ev {
            EventView::Ack => if st.frames.len() > 0 {
                proceed(pop_frame(st), Wait::Go)
            } else {
                unexpected(st)
            },
            _ => unexpected(st),
        },
        Wait::Interp { pos } => match ev {
            EventView::Value { text, .. } => if at_hand(st) is Some {
                proceed(StateView { out: st.out + text, ..past_node(st) }, Wait::Go)
            } else {
                unexpected(st)
            },
            EventView::Failed(m) => fail(st, pos as int, m),
            _ => unexpected(st),
        },
        Wait::CallText { pos } => match ev {
            EventView::Text(text) => if at_hand(st) is Some {
                proceed(StateView { out: st.out + text, ..past_node(st) }, Wait::Go)
            } else {
                unexpected(st)
            },
            EventView::Failed(m) => fail(st, pos as int, m),
            _ => unexpected(st),
        },
        Wait::IfCond { pos } => match ev {
            EventView::Value { truthy, .. } => match at_hand(st) {
                Some(Tree::If { then_part, else_part, .. }) => proceed(
                    push_frame(past_node(st), plain(if truthy { then_part } else { else_part })),
                    Wait::Go,
                ),
                _ => unexpected(st),
            },
            EventView::Failed(m) => fail(st, pos as int, m),
            _ => unexpected(st),
        },
        Wait::CaseCond { arm, pos } => match ev {
            EventView::Value { truthy, .. } => match at_hand(st) {
                Some(Tree::Case { arms, .. }) => if arm >= arms.len() {
                    unexpected(st)
                } else if truthy {
                    proceed(push_frame(past_node(st), plain(arms[arm as int].1)), Wait::Go)
                } else if arm + 1 < arms.len() {
                    (
                        with_wait(st, Wait::CaseCond { arm: (arm + 1) as usize, pos }),
                        ActionView::Eval { expr: arms[arm + 1].0, pos: pos as int },
                    )
                } else {
                    proceed(past_node(st), Wait::Go)
                },
                _ => unexpected(st),
            },
            EventView::Failed(m) => fail(st, pos as int, m),
            _ => unexpected(st),
        },
        Wait::TimesCount { pos } => match ev {
            EventView::Value { whole, .. } => match at_hand(st) {
                Some(Tree::Times { body, .. }) => proceed(
                    push_frame(past_node(st), looping(body, LoopView::Times { idx: 0, total: times_count(whole) })),
                    Wait::LoopReady,
                ),
                _ => unexpected(st),
            },
            EventView::Failed(m) => fail(st, pos as int, m),
            _ => unexpected(st),
        },
        Wait::ForStart { pos } => match ev {
            EventView::Value { whole, .. } => match at_hand(st) {
                Some(Tree::ForNum { end, .. }) => (
                    with_wait(st, Wait::ForEnd { pos, start: whole }),
                    ActionView::Eval { expr: end, pos: pos as int },
                ),
                _ => unexpected(st),
            },
            EventView::Failed(m) => fail(st, pos as int, m),
            _ => unexpected(st),
        },
        Wait::ForEnd { pos, start } => match ev {
            EventView::Value { whole, .. } => match at_hand(st) {
                Some(Tree::ForNum { step, .. }) => match step {
                    Some(e) => (
                        with_wait(st, Wait::ForStep { pos, start, end: whole }),
                        ActionView::Eval { expr: e, pos: pos as int },
                    ),
                    None => plan_for(st, pos, start, whole, None),
                },
                _ => unexpected(st),
            },
            EventView::Failed(m) => fail(st, pos as int, m),
            _ => unexpected(st),
        },
        Wait::ForStep { pos, start, end } => match ev {
            EventView::Value { whole, .. } => plan_for(st, pos, start, end, Some(whole)),
            EventView::Failed(m) => fail(st, pos as int, m),
            _ => unexpected(st),
        },
        Wait::WhileCond { pos } => match ev {
            EventView::Value { truthy, .. } => if st.frames.len() == 0 {
                unexpected(st)
            } else {
                match st.frames.last().lp {
                    Some(LoopView::While { idx, .. }) => if truthy {
                        (
                            with_wait(fresh_iteration(st), Wait::Go),
                            ActionView::Iterate { var: None, index: idx, count: inc(idx) },
                        )
                    } else {
                        proceed(pop_frame(st), Wait::Go)
                    },
                    _ => unexpected(st),
                }
            },
            EventView::Failed(m) => fail(st, pos as int, m),
            _ => unexpected(st),
        },
        Wait::Items { pos } => match ev {
            EventView::Items(n) => match at_hand(st) {
                Some(Tree::ForEach { var, body, else_part, .. }) => if n <= 0 {
                    proceed(push_frame(past_node(st), plain(else_part)), Wait::Go)
                } else {
                    (
                        with_wait(
                            push_frame(past_node(st), looping(body, LoopView::ForEach { var, idx: 0, total: n })),
                            Wait::LoopReady,
                        ),
                        ActionView::Bind { var },
                    )
                },
                _ => unexpected(st),
            },
            EventView::Failed(m) => fail(st, pos as int, m),
            _ => unexpected(st),
        },
        Wait::Finished => unexpected(st),
    }
}

// ---------------------------------------------------------------------
// The decisions, carried out

proof fn lemma_frames_push(s: Seq<Frame>, f: Frame)
    ensures
        frames_view(s.push(f)) == frames_view(s).push(frame_view(f)),
{
    assert(frames_view(s.push(f)) =~= frames_view(s).push(frame_view(f)));
}

proof fn lemma_frames_pop(s: Seq<Frame>)
    requires
        s.len() > 0,
    ensures
        frames_view(s.drop_last()) == frames_view(s).drop_last(),
        frames_view(s).last() == frame_view(s.last()),
        frames_view(s).len() == s.len(),
{
    assert(frames_view(s.drop_last()) =~= frames_view(s).drop_last());
}

proof fn lemma_frames_replace_top(s: Seq<Frame>, f: Frame)
    requires
        s.len() > 0,
    ensures
        frames_view(s.drop_last().push(f)) == frames_view(s).update(s.len() - 1, frame_view(f)),
{
    assert(frames_view(s.drop_last().push(f)) =~= frames_view(s).update(s.len() - 1, frame_view(f)));
}

impl RenderState {
    pub open spec fn wf(&self) -> bool {
        self.template@.len() <= isize::MAX
    }

    /// The state that starts to render `nodes`, parsed from `template`.
    pub fn new(template: String, nodes: Vec<Node>) -> (st: Self)
        requires
            template@.len() <= isize::MAX,
        ensures
            st.wf(),
            state_view(st) == (StateView {
                template: template@,
                frames: seq![plain(trees_of(nodes@))],
                out: seq![],
                wait: Wait::Go,
            }),
    {
        let mut frames: Vec<Frame> = Vec::new();
        frames.push(Frame { nodes, next: 0, body: Vec::new(), lp: None });
        let st = RenderState { template, frames, out: String::new(), wait: Wait::Go };
        proof {
            assert(trees_of(Seq::<Node>::empty()) =~= Seq::<Tree>::empty());
            assert(frames_view(st.frames@) =~= seq![plain(trees_of(nodes@))]);
        }
        st
    }
}

fn advance_top(st: &mut RenderState)
    requires
        old(st).frames@.len() > 0,
        old(st).frames@.last().next < old(st).frames@.last().nodes@.len(),
    ensures
        final(st).template == old(st).template,
        state_view(*final(st)) == past_node(state_view(*old(st))),
{
    let mut f = st.frames.pop().unwrap();
    assert(f == old(st).frames@.last());
    let n = f.nodes.len();
    assert(f.next < n);
    f.next = f.next + 1;
    proof {
        lemma_frames_replace_top(old(st).frames@, f);
        lemma_frames_pop(old(st).frames@);
    }
    st.frames.push(f);
    assert(frame_view(f) == advanced(state_view(*old(st)).frames.last()));
}

fn push_plain(st: &mut RenderState, nodes: Vec<Node>)
    ensures
        final(st).template == old(st).template,
        state_view(*final(st)) == push_frame(state_view(*old(st)), plain(trees_of(nodes@))),
{
    let f = Frame { nodes, next: 0, body: Vec::new(), lp: None };
    proof {
        lemma_frames_push(st.frames@, f);
        assert(trees_of(Seq::<Node>::empty()) =~= Seq::<Tree>::empty());
    }
    st.frames.push(f);
}

fn push_looping(st: &mut RenderState, body: Vec<Node>, l: Loop)
    ensures
        final(st).template == old(st).template,
        state_view(*final(st)) == push_frame(state_view(*old(st)), looping(trees_of(body@), loop_view(l))),
{
    let f = Frame { nodes: Vec::new(), next: 0, body, lp: Some(l) };
    proof {
        lemma_frames_push(st.frames@, f);
        assert(trees_of(Seq::<Node>::empty()) =~= Seq::<Tree>::empty());
    }
    st.frames.push(f);
}

fn drop_top(st: &mut RenderState)
    requires
        old(st).frames@.len() > 0,
    ensures
        final(st).template == old(st).template,
        state_view(*final(st)) == pop_frame(state_view(*old(st))),
{
    proof {
        lemma_frames_pop(st.frames@);
    }
    let _ = st.frames.pop();
}

fn set_loop(st: &mut RenderState, l: Loop)
    requires
        old(st).frames@.len() > 0,
    ensures
        final(st).template == old(st).template,
        state_view(*final(st)) == set_top(
            state_view(*old(st)),
            FrameView { lp: Some(loop_view(l)), ..state_view(*old(st)).frames.last() },
        ),
{
    let mut f = st.frames.pop().unwrap();
    f.lp = Some(l);
    proof {
        lemma_frames_replace_top(old(st).frames@, f);
        lemma_frames_pop(old(st).frames@);
    }
    st.frames.push(f);
}

fn refresh_top(st: &mut RenderState)
    requires
        old(st).frames@.len() > 0,
    ensures
        final(st).template == old(st).template,
        state_view(*final(st)) == fresh_iteration(state_view(*old(st))),
{
    let mut f = st.frames.pop().unwrap();
    f.nodes = copy_nodes(&f.body);
    f.next = 0;
    proof {
        lemma_frames_replace_top(old(st).frames@, f);
        lemma_frames_pop(old(st).frames@);
    }
    st.frames.push(f);
}

fn fail_at(st: RenderState, pos: usize, msg: &BasilError) -> (r: (RenderState, RenderAction))
    requires
        st.wf(),
    ensures
        r.0.wf(),
        (state_view(r.0), action_view(r.1)) == fail(state_view(st), pos as int, msg.0@),
{
    let mut st = st;
    let e = wrap_tmpl_error(st.template.as_str(), pos, msg);
    st.wait = Wait::Finished;
    (st, RenderAction::Fail(e))
}

fn unexpected_reply(st: RenderState) -> (r: (RenderState, RenderAction))
    requires
        st.wf(),
    ensures
        r.0.wf(),
        (state_view(r.0), action_view(r.1)) == unexpected(state_view(st)),
{
    let mut st = st;
    st.wait = Wait::Finished;
    (st, RenderAction::Fail(BasilError(string_of("RENDER$: unexpected reply"))))
}

fn proceed_with(st: RenderState, w: Wait) -> (r: (RenderState, RenderAction))
    requires
        st.wf(),
    ensures
        r.0.wf(),
        (state_view(r.0), action_view(r.1)) == proceed(state_view(st), w),
{
    let mut st = st;
    st.wait = w;
    (st, RenderAction::Proceed)
}

fn go_exec(st: RenderState) -> (r: (RenderState, RenderAction))
    requires
        st.wf(),
    ensures
        r.0.wf(),
        (state_view(r.0), action_view(r.1)) == go(state_view(st)),
{
    let mut st = st;
    let ghost sv = state_view(st);
    if st.frames.len() == 0 {
        let out = st.out.clone();
        st.wait = Wait::Finished;
        return (st, RenderAction::Done(out));
    }
    let last = st.frames.len() - 1;
    proof {
        lemma_frames_pop(st.frames@);
        lemma_trees_of_index(st.frames@[last as int].nodes@);
    }
    assert(sv.frames.last() == frame_view(st.frames@[last as int]));
    if st.frames[last].next < st.frames[last].nodes.len() {
        let i = st.frames[last].next;
        assert(at_hand(sv) == Some(tree_of(st.frames@[last as int].nodes@[i as int])));
        match &st.frames[last].nodes[i] {
            Node::Text(t) => {
                let t2 = t.clone();
                advance_top(&mut st);
                push_str(&mut st.out, t2.as_str());
                proceed_with(st, Wait::Go)
            },
            Node::Interp { expr, pos } => {
                let e = expr.clone();
                let p = *pos;
                st.wait = Wait::Interp { pos: p };
                (st, RenderAction::Eval { expr: e, pos: p })
            },
            Node::Call { name, args, pos } => {
                let nm = name.clone();
                let a = copy_strings(args);
                let p = *pos;
                st.wait = Wait::CallText { pos: p };
                (st, RenderAction::Call { name: nm, args: a, pos: p })
            },
            Node::If { cond, pos, .. } => {
                let e = cond.clone();
                let p = *pos;
                st.wait = Wait::IfCond { pos: p };
                (st, RenderAction::Eval { expr: e, pos: p })
            },
            Node::Case { arms, pos } => {
                let p = *pos;
                if arms.len() == 0 {
                    advance_top(&mut st);
                    proceed_with(st, Wait::Go)
                } else {
                    proof {
                        lemma_arms_of_index(arms@);
                    }
                    let e = arms[0].0.clone();
                    st.wait = Wait::CaseCond { arm: 0, pos: p };
                    (st, RenderAction::Eval { expr: e, pos: p })
                }
            },
            Node::ForEach { enumerable, order, pos, .. } => {
                let e = enumerable.clone();
                let o = *order;
                let p = *pos;
                st.wait = Wait::Items { pos: p };
                (st, RenderAction::Enumerate { expr: e, order: o, pos: p })
            },
            Node::Times { count, pos, .. } => {
                let e = count.clone();
                let p = *pos;
                st.wait = Wait::TimesCount { pos: p };
                (st, RenderAction::Eval { expr: e, pos: p })
            },
            Node::ForNum { start, pos, .. } => {
                let e = start.clone();
                let p = *pos;
                st.wait = Wait::ForStart { pos: p };
                (st, RenderAction::Eval { expr: e, pos: p })
            },
            Node::While { cond, body, pos } => {
                let c = cond.clone();
                let b = copy_nodes(body);
                let p = *pos;
                advance_top(&mut st);
                push_looping(&mut st, b, Loop::While { cond: c, pos: p, idx: 0 });
                proceed_with(st, Wait::LoopReady)
            },
            Node::Break { pos } => {
                let p = *pos;
                proceed_with(st, Wait::Unwinding { broken: true, pos: p })
            },
            Node::Continue { pos } => {
                let p = *pos;
                proceed_with(st, Wait::Unwinding { broken: false, pos: p })
            },
        }
    } else {
        assert(at_hand(sv) is None);
        if st.frames[last].lp.is_none() {
            drop_top(&mut st);
            proceed_with(st, Wait::Go)
        } else {
            st.wait = Wait::Ended { broken: false };
            (st, RenderAction::EndIteration)
        }
    }
}

fn unwind_exec(st: RenderState, broken: bool, pos: usize) -> (r: (RenderState, RenderAction))
    requires
        st.wf(),
    ensures
        r.0.wf(),
        (state_view(r.0), action_view(r.1)) == unwind(state_view(st), broken, pos),
{
    let mut st = st;
    if st.frames.len() == 0 {
        let m = if broken {
            string_of("RENDER$: @BREAK outside of loop")
        } else {
            string_of("RENDER$: @CONTINUE outside of loop")
        };
        return fail_at(st, pos, &BasilError(m));
    }
    let last = st.frames.len() - 1;
    proof {
        lemma_frames_pop(st.frames@);
    }
    if st.frames[last].lp.is_some() {
        st.wait = Wait::Ended { broken };
        (st, RenderAction::EndIteration)
    } else {
        drop_top(&mut st);
        proceed_with(st, Wait::Unwinding { broken, pos })
    }
}

fn end_loop_exec(st: RenderState) -> (r: (RenderState, RenderAction))
    requires
        st.wf(),
        st.frames@.len() > 0,
        st.frames@.last().lp is Some,
    ensures
        r.0.wf(),
        (state_view(r.0), action_view(r.1)) == end_loop(state_view(st), state_view(st).frames.last().lp->0),
{
    let mut st = st;
    let last = st.frames.len() - 1;
    proof {
        lemma_frames_pop(st.frames@);
    }
    let v = match &st.frames[last].lp {
        Some(Loop::ForNum { var, .. }) => Some(var.clone()),
        Some(Loop::ForEach { var, .. }) => Some(var.clone()),
        _ => None,
    };
    match v {
        Some(var) => {
            st.wait = Wait::Unbound;
            (st, RenderAction::Unbind { var })
        },
        None => {
            drop_top(&mut st);
            proceed_with(st, Wait::Go)
        },
    }
}

fn iteration_ended_exec(st: RenderState, broken: bool) -> (r: (RenderState, RenderAction))
    requires
        st.wf(),
    ensures
        r.0.wf(),
        (state_view(r.0), action_view(r.1)) == iteration_ended(state_view(st), broken),
{
    let mut st = st;
    if st.frames.len() == 0 {
        return unexpected_reply(st);
    }
    let last = st.frames.len() - 1;
    proof {
        lemma_frames_pop(st.frames@);
    }
    if st.frames[last].lp.is_none() {
        return unexpected_reply(st);
    }
    if broken {
        return end_loop_exec(st);
    }
    let next: Option<Loop> = match &st.frames[last].lp {
        Some(Loop::Times { idx, total }) => Some(Loop::Times { idx: if *idx < i64::MAX { *idx + 1 } else { *idx }, total: *total }),
        Some(Loop::ForNum { var, cur, end, step, idx, total }) => {
            let c = *cur as i128 + *step as i128;
            if i64::MIN as i128 <= c && c <= i64::MAX as i128 {
                Some(
                    Loop::ForNum {
                        var: var.clone(),
                        cur: c as i64,
                        end: *end,
                        step: *step,
                        idx: if *idx < i64::MAX { *idx + 1 } else { *idx },
                        total: *total,
                    },
                )
            } else {
                None
            }
        },
        Some(Loop::While { cond, pos, idx }) => Some(Loop::While { cond: cond.clone(), pos: *pos, idx: if *idx < i64::MAX { *idx + 1 } else { *idx } }),
        Some(Loop::ForEach { var, idx, total }) => Some(Loop::ForEach { var: var.clone(), idx: if *idx < i64::MAX { *idx + 1 } else { *idx }, total: *total }),
        None => None,
    };
    match next {
        Some(l) => {
            set_loop(&mut st, l);
            proceed_with(st, Wait::LoopReady)
        },
        None => end_loop_exec(st),
    }
}

fn start_iteration_exec(st: RenderState) -> (r: (RenderState, RenderAction))
    requires
        st.wf(),
    ensures
        r.0.wf(),
        (state_view(r.0), action_view(r.1)) == start_iteration(state_view(st)),
{
    let mut st = st;
    if st.frames.len() == 0 {
        return unexpected_reply(st);
    }
    let last = st.frames.len() - 1;
    proof {
        lemma_frames_pop(st.frames@);
    }
    match &st.frames[last].lp {
        None => unexpected_reply(st),
        Some(Loop::Times { idx, total }) => {
            let (i, t) = (*idx, *total);
            if i < t {
                refresh_top(&mut st);
                st.wait = Wait::Go;
                (st, RenderAction::Iterate { var: None, index: i, count: t })
            } else {
                end_loop_exec(st)
            }
        },
        Some(Loop::ForNum { var, cur, end, step, idx, total }) => {
            let (c, e, sp, i, t) = (*cur, *end, *step, *idx, *total);
            if (sp > 0 && c <= e) || (sp < 0 && c >= e) {
                let v = var.clone();
                refresh_top(&mut st);
                st.wait = Wait::Go;
                (st, RenderAction::Iterate { var: Some((v, LoopValue::Int(c))), index: i, count: t })
            } else {
                end_loop_exec(st)
            }
        },
        Some(Loop::ForEach { var, idx, total }) => {
            let (i, t) = (*idx, *total);
            if i < t {
                let v = var.clone();
                refresh_top(&mut st);
                st.wait = Wait::Go;
                (st, RenderAction::Iterate { var: Some((v, LoopValue::Item(i))), index: i, count: t })
            } else {
                end_loop_exec(st)
            }
        },
        Some(Loop::While { cond, pos, .. }) => {
            let c = cond.clone();
            let p = *pos;
            st.wait = Wait::WhileCond { pos: p };
            (st, RenderAction::Eval { expr: c, pos: p })
        },
    }
}

fn plan_for_exec(st: RenderState, pos: usize, start: i64, end: i64, step: Option<i64>) -> (r: (RenderState, RenderAction))
    requires
        st.wf(),
    ensures
        r.0.wf(),
        (state_view(r.0), action_view(r.1)) == plan_for(state_view(st), pos, start, end, step),
{
    let mut st = st;
    let ghost sv = state_view(st);
    if st.frames.len() == 0 {
        return unexpected_reply(st);
    }
    let last = st.frames.len() - 1;
    proof {
        lemma_frames_pop(st.frames@);
        lemma_trees_of_index(st.frames@[last as int].nodes@);
    }
    if st.frames[last].next >= st.frames[last].nodes.len() {
        return unexpected_reply(st);
    }
    let i = st.frames[last].next;
    assert(at_hand(sv) == Some(tree_of(st.frames@[last as int].nodes@[i as int])));
    let (var, body) = match &st.frames[last].nodes[i] {
        Node::ForNum { var, body, .. } => (var.clone(), copy_nodes(body)),
        _ => {
            return unexpected_reply(st);
        },
    };
    match for_plan_checked(start, end, step) {
        None => fail_at(st, pos, &BasilError(string_of("RENDER$: @FOR range too large"))),
        Some((s, c)) => {
            let v2 = var.clone();
            advance_top(&mut st);
            push_looping(&mut st, body, Loop::ForNum { var, cur: start, end, step: s, idx: 0, total: c });
            st.wait = Wait::LoopReady;
            (st, RenderAction::Bind { var: v2 })
        },
    }
}

/// One decision of template evaluation: the next state and the next action, from the
/// state and the reply to the last action (`Ack` to begin with).
pub fn render_step(st: RenderState, ev: EvalEvent) -> (r: (RenderState, RenderAction))
    requires
        st.wf(),
    ensures
        r.0.wf(),
        (state_view(r.0), action_view(r.1)) == render_step_spec(state_view(st), event_view(ev)),
{
    let mut st = st;
    let ghost sv = state_view(st);
    match st.wait {
        Wait::Go => match ev {
            EvalEvent::Ack => go_exec(st),
            _ => unexpected_reply(st),
        },
        Wait::Unwinding { broken, pos } => match ev {
            EvalEvent::Ack => unwind_exec(st, broken, pos),
            _ => unexpected_reply(st),
        },
        Wait::Ended { broken } => match ev {
            EvalEvent::Ack => iteration_ended_exec(st, broken),
            _ => unexpected_reply(st),
        },
        Wait::LoopReady => match ev {
            EvalEvent::Ack => start_iteration_exec(st),
            _ => unexpected_reply(st),
        },
        Wait::Unbound => match ev {
            EvalEvent::Ack => if st.frames.len() > 0 {
                drop_top(&mut st);
                proceed_with(st, Wait::Go)
            } else {
                unexpected_reply(st)
            },
            _ => unexpected_reply(st),
        },
        Wait::Interp { pos } => match ev {
            EvalEvent::Value { text, .. } => if has_node_at_hand(&st) {
                advance_top(&mut st);
                push_str(&mut st.out, text.as_str());
                proceed_with(st, Wait::Go)
            } else {
                unexpected_reply(st)
            },
            EvalEvent::Failed(e) => fail_at(st, pos, &e),
            _ => unexpected_reply(st),
        },
        Wait::CallText { pos } => match ev {
            EvalEvent::Text(text) => if has_node_at_hand(&st) {
                advance_top(&mut st);
                push_str(&mut st.out, text.as_str());
                proceed_with(st, Wait::Go)
            } else {
                unexpected_reply(st)
            },
            EvalEvent::Failed(e) => fail_at(st, pos, &e),
            _ => unexpected_reply(st),
        },
        Wait::IfCond { pos } => match ev {
            EvalEvent::Value { truthy, .. } => {
                if !has_node_at_hand(&st) {
                    return unexpected_reply(st);
                }
                let last = st.frames.len() - 1;
                let i = st.frames[last].next;
                proof {
                    lemma_frames_pop(st.frames@);
                    lemma_trees_of_index(st.frames@[last as int].nodes@);
                }
                assert(at_hand(sv) == Some(tree_of(st.frames@[last as int].nodes@[i as int])));
                let branch = match &st.frames[last].nodes[i] {
                    Node::If { then_part, else_part, .. } => if truthy {
                        copy_nodes(then_part)
                    } else {
                        copy_nodes(else_part)
                    },
                    _ => {
                        return unexpected_reply(st);
                    },
                };
                advance_top(&mut st);
                push_plain(&mut st, branch);
                proceed_with(st, Wait::Go)
            },
            EvalEvent::Failed(e) => fail_at(st, pos, &e),
            _ => unexpected_reply(st),
        },
        Wait::CaseCond { arm, pos } => match ev {
            EvalEvent::Value { truthy, .. } => {
                if !has_node_at_hand(&st) {
                    return unexpected_reply(st);
                }
                let last = st.frames.len() - 1;
                let i = st.frames[last].next;
                proof {
                    lemma_frames_pop(st.frames@);
                    lemma_trees_of_index(st.frames@[last as int].nodes@);
                }
                assert(at_hand(sv) == Some(tree_of(st.frames@[last as int].nodes@[i as int])));
                let step: Result<Vec<Node>, Option<String>> = match &st.frames[last].nodes[i] {
                    Node::Case { arms, .. } => {
                        proof {
                            lemma_arms_of_index(arms@);
                        }
                        if arm >= arms.len() {
                            return unexpected_reply(st);
                        } else if truthy {
                            Ok(copy_nodes(&arms[arm].1))
                        } else if arm + 1 < arms.len() {
                            Err(Some(arms[arm + 1].0.clone()))
                        } else {
                            Err(None)
                        }
                    },
                    _ => {
                        return unexpected_reply(st);
                    },
                };
                match step {
                    Ok(b) => {
                        advance_top(&mut st);
                        push_plain(&mut st, b);
                        proceed_with(st, Wait::Go)
                    },
                    Err(Some(e)) => {
                        st.wait = Wait::CaseCond { arm: arm + 1, pos };
                        (st, RenderAction::Eval { expr: e, pos })
                    },
                    Err(None) => {
                        advance_top(&mut st);
                        proceed_with(st, Wait::Go)
                    },
                }
            },
            EvalEvent::Failed(e) => fail_at(st, pos, &e),
            _ => unexpected_reply(st),
        },
        Wait::TimesCount { pos } => match ev {
            EvalEvent::Value { whole, .. } => {
                if !has_node_at_hand(&st) {
                    return unexpected_reply(st);
                }
                let last = st.frames.len() - 1;
                let i = st.frames[last].next;
                proof {
                    lemma_frames_pop(st.frames@);
                    lemma_trees_of_index(st.frames@[last as int].nodes@);
                }
                assert(at_hand(sv) == Some(tree_of(st.frames@[last as int].nodes@[i as int])));
                let body = match &st.frames[last].nodes[i] {
                    Node::Times { body, .. } => copy_nodes(body),
                    _ => {
                        return unexpected_reply(st);
                    },
                };
                let total = if whole < 0 {
                    0
                } else {
                    whole
                };
                advance_top(&mut st);
                push_looping(&mut st, body, Loop::Times { idx: 0, total });
                proceed_with(st, Wait::LoopReady)
            },
            EvalEvent::Failed(e) => fail_at(st, pos, &e),
            _ => unexpected_reply(st),
        },
        Wait::ForStart { pos } => match ev {
            EvalEvent::Value { whole, .. } => {
                if !has_node_at_hand(&st) {
                    return unexpected_reply(st);
                }
                let last = st.frames.len() - 1;
                let i = st.frames[last].next;
                proof {
                    lemma_frames_pop(st.frames@);
                    lemma_trees_of_index(st.frames@[last as int].nodes@);
                }
                assert(at_hand(sv) == Some(tree_of(st.frames@[last as int].nodes@[i as int])));
                let e = match &st.frames[last].nodes[i] {
                    Node::ForNum { end, .. } => end.clone(),
                    _ => {
                        return unexpected_reply(st);
                    },
                };
                st.wait = Wait::ForEnd { pos, start: whole };
                (st, RenderAction::Eval { expr: e, pos })
            },
            EvalEvent::Failed(e) => fail_at(st, pos, &e),
            _ => unexpected_reply(st),
        },
        Wait::ForEnd { pos, start } => match ev {
            EvalEvent::Value { whole, .. } => {
                if !has_node_at_hand(&st) {
                    return unexpected_reply(st);
                }
                let last = st.frames.len() - 1;
                let i = st.frames[last].next;
                proof {
                    lemma_frames_pop(st.frames@);
                    lemma_trees_of_index(st.frames@[last as int].nodes@);
                }
                assert(at_hand(sv) == Some(tree_of(st.frames@[last as int].nodes@[i as int])));
                let step = match &st.frames[last].nodes[i] {
                    Node::ForNum { step, .. } => match step {
                        Some(x) => Some(x.clone()),
                        None => None,
                    },
                    _ => {
                        return unexpected_reply(st);
                    },
                };
                match step {
                    Some(e) => {
                        st.wait = Wait::ForStep { pos, start, end: whole };
                        (st, RenderAction::Eval { expr: e, pos })
                    },
                    None => plan_for_exec(st, pos, start, whole, None),
                }
            },
            EvalEvent::Failed(e) => fail_at(st, pos, &e),
            _ => unexpected_reply(st),
        },
        Wait::ForStep { pos, start, end } => match ev {
            EvalEvent::Value { whole, .. } => plan_for_exec(st, pos, start, end, Some(whole)),
            EvalEvent::Failed(e) => fail_at(st, pos, &e),
            _ => unexpected_reply(st),
        },
        Wait::WhileCond { pos } => match ev {
            EvalEvent::Value { truthy, .. } => {
                if st.frames.len() == 0 {
                    return unexpected_reply(st);
                }
                let last = st.frames.len() - 1;
                proof {
                    lemma_frames_pop(st.frames@);
                }
                let idx = match &st.frames[last].lp {
                    Some(Loop::While { idx, .. }) => *idx,
                    _ => {
                        return unexpected_reply(st);
                    },
                };
                if truthy {
                    refresh_top(&mut st);
                    st.wait = Wait::Go;
                    let count = if idx < i64::MAX {
                        idx + 1
                    } else {
                        idx
                    };
                    (st, RenderAction::Iterate { var: None, index: idx, count })
                } else {
                    drop_top(&mut st);
                    proceed_with(st, Wait::Go)
                }
            },
            EvalEvent::Failed(e) => fail_at(st, pos, &e),
            _ => unexpected_reply(st),
        },
        Wait::Items { pos } => match ev {
            EvalEvent::Items(n) => {
                if !has_node_at_hand(&st) {
                    return unexpected_reply(st);
                }
                let last = st.frames.len() - 1;
                let i = st.frames[last].next;
                proof {
                    lemma_frames_pop(st.frames@);
                    lemma_trees_of_index(st.frames@[last as int].nodes@);
                }
                assert(at_hand(sv) == Some(tree_of(st.frames@[last as int].nodes@[i as int])));
                let (var, part) = match &st.frames[last].nodes[i] {
                    Node::ForEach { var, body, else_part, .. } => if n <= 0 {
                        (var.clone(), copy_nodes(else_part))
                    } else {
                        (var.clone(), copy_nodes(body))
                    },
                    _ => {
                        return unexpected_reply(st);
                    },
                };
                advance_top(&mut st);
                if n <= 0 {
                    push_plain(&mut st, part);
                    proceed_with(st, Wait::Go)
                } else {
                    let v2 = var.clone();
                    push_looping(&mut st, part, Loop::ForEach { var, idx: 0, total: n });
                    st.wait = Wait::LoopReady;
                    (st, RenderAction::Bind { var: v2 })
                }
            },
            EvalEvent::Failed(e) => fail_at(st, pos, &e),
            _ => unexpected_reply(st),
        },
        Wait::Finished => unexpected_reply(st),
    }
}

fn has_node_at_hand(st: &RenderState) -> (b: bool)
    ensures
        b == (at_hand(state_view(*st)) is Some),
        b ==> st.frames@.len() > 0 && st.frames@.last().next < st.frames@.last().nodes@.len(),
{
    if st.frames.len() == 0 {
        return false;
    }
    let last = st.frames.len() - 1;
    proof {
        lemma_frames_pop(st.frames@);
        lemma_trees_of_index(st.frames@[last as int].nodes@);
    }
    st.frames[last].next < st.frames[last].nodes.len()
}

// ---------------------------------------------------------------------
// Laws of evaluation

proof fn lemma_div_bound(k: int, d: int, m: int)
    requires
        m > 0,
        d >= 0,
        k >= 0,
    ensures
        (k <= d / m) <==> (k * m <= d),
{
    let q = d / m;
    let r = d % m;
    assert(d == m * q + r && 0 <= r < m) by (nonlinear_arith)
        requires
            m > 0,
            q == d / m,
            r == d % m,
    ;
    if k <= q {
        assert(k * m <= d) by (nonlinear_arith)
            requires
                k <= q,
                m > 0,
                d == m * q + r,
                r >= 0,
        ;
    } else {
        assert(k * m > d) by (nonlinear_arith)
            requires
                k >= q + 1,
                m > 0,
                d == m * q + r,
                r < m,
        ;
    }
}

/// The count of a numeric loop is the number of its iterations: the `k`-th value
/// `start + k * step` is still within the range exactly when `k` is below the count.
pub proof fn law_for_count_is_iterations(start: i64, end: i64, step: i64, k: int)
    requires
        step != 0,
        k >= 0,
    ensures
        (k < for_count(start, end, step)) <==> ((step > 0 && start + k * step <= end) || (step < 0 && start + k
            * step >= end)),
{
    if step > 0 {
        if start > end {
            assert(k * step >= 0) by (nonlinear_arith)
                requires
                    k >= 0,
                    step > 0,
            ;
        } else {
            lemma_div_bound(k, end - start, step as int);
        }
    } else {
        if start < end {
            assert(k * step <= 0) by (nonlinear_arith)
                requires
                    k >= 0,
                    step < 0,
            ;
        } else {
            lemma_div_bound(k, start - end, -step);
            assert(k * (-step) == -(k * step)) by (nonlinear_arith);
        }
    }
}

/// Every numeric loop steps: a given step of 0 counts as 1, and without a step the loop
/// counts by one toward its end.
pub proof fn law_for_step_never_zero(start: i64, end: i64, step: Option<i64>)
    ensures
        for_step(start, end, step) != 0,
        step is None ==> (for_step(start, end, step) == 1 || for_step(start, end, step) == -1),
        step is None ==> for_count(start, end, for_step(start, end, step)) == abs_int(end - start) + 1,
{
    let x = abs_int(end - start);
    assert(x / 1 == x);
}

// ---------------------------------------------------------------------
// Template functions

/// What a template call `@NAME(args)` does, by its name.
#[derive(Clone, Copy, Debug, PartialEq, Eq, Structural)]
pub enum TemplateCall {
    Left,
    Right,
    Mid,
    Trim,
    UrlEncode,
    Env,
    Server,
    Request,
    Session,
    Include,
    /// A Basil function of the program, called with the arguments as written.
    User,
}

/// The call named `u` (in upper case).
pub open spec fn call_of(u: Seq<char>) -> TemplateCall {
    if u == "LEFT"@ {
        TemplateCall::Left
    } else if u == "RIGHT"@ {
        TemplateCall::Right
    } else if u == "MID"@ {
        TemplateCall::Mid
    } else if u == "TRIM"@ {
        TemplateCall::Trim
    } else if u == "URLENCODE"@ {
        TemplateCall::UrlEncode
    } else if u == "ENV"@ {
        TemplateCall::Env
    } else if u == "SERVER"@ {
        TemplateCall::Server
    } else if u == "REQUEST"@ {
        TemplateCall::Request
    } else if u == "SESSION"@ {
        TemplateCall::Session
    } else if u == "INCLUDE"@ {
        TemplateCall::Include
    } else {
        TemplateCall::User
    }
}

/// Which template call `name` is, its case ignored.
pub fn template_call(name: &str) -> (r: TemplateCall)
    ensures
        r == call_of(upper_seq(name@)),
{
    let up = ascii_upper(name);
    let u = up.as_str();
    if str_eq(u, "LEFT") {
        TemplateCall::Left
    } else if str_eq(u, "RIGHT") {
        TemplateCall::Right
    } else if str_eq(u, "MID") {
        TemplateCall::Mid
    } else if str_eq(u, "TRIM") {
        TemplateCall::Trim
    } else if str_eq(u, "URLENCODE") {
        TemplateCall::UrlEncode
    } else if str_eq(u, "ENV") {
        TemplateCall::Env
    } else if str_eq(u, "SERVER") {
        TemplateCall::Server
    } else if str_eq(u, "REQUEST") {
        TemplateCall::Request
    } else if str_eq(u, "SESSION") {
        TemplateCall::Session
    } else if str_eq(u, "INCLUDE") {
        TemplateCall::Include
    } else {
        TemplateCall::User
    }
}

/// How many arguments a built-in call evaluates, in order; none for a user function,
/// whose arguments go to Basil as written.
pub open spec fn call_arity(k: TemplateCall) -> usize {
    match k {
        TemplateCall::Left => 2,
        TemplateCall::Right => 2,
        TemplateCall::Mid => 3,
        TemplateCall::User => 0,
        _ => 1,
    }
}

pub open spec fn missing_args_msg(k: TemplateCall) -> Seq<char> {
    match k {
        TemplateCall::Left => "LEFT expects 2 args"@,
        TemplateCall::Right => "RIGHT expects 2 args"@,
        TemplateCall::Mid => "MID expects 3 args"@,
        TemplateCall::Trim => "TRIM expects 1 arg"@,
        TemplateCall::UrlEncode => "URLENCODE expects 1 arg"@,
        TemplateCall::Env => "ENV expects 1 arg"@,
        TemplateCall::Server => "SERVER expects 1 arg"@,
        TemplateCall::Request => "REQUEST expects 1 arg"@,
        TemplateCall::Session => "SESSION expects 1 arg"@,
        TemplateCall::Include => "INCLUDE expects 1 arg"@,
        TemplateCall::User => seq![],
    }
}

/// Before the `i`-th argument of a call with `argc` arguments is evaluated: the error
/// when it is missing.
pub fn call_arg_check(k: TemplateCall, i: usize, argc: usize) -> (r: Result<(), BasilError>)
    ensures
        match r {
            Ok(()) => i < argc,
            Err(e) => i >= argc && e.0@ == missing_args_msg(k),
        },
{
    if i < argc {
        return Ok(());
    }
    let m = match k {
        TemplateCall::Left => string_of("LEFT expects 2 args"),
        TemplateCall::Right => string_of("RIGHT expects 2 args"),
        TemplateCall::Mid => string_of("MID expects 3 args"),
        TemplateCall::Trim => string_of("TRIM expects 1 arg"),
        TemplateCall::UrlEncode => string_of("URLENCODE expects 1 arg"),
        TemplateCall::Env => string_of("ENV expects 1 arg"),
        TemplateCall::Server => string_of("SERVER expects 1 arg"),
        TemplateCall::Request => string_of("REQUEST expects 1 arg"),
        TemplateCall::Session => string_of("SESSION expects 1 arg"),
        TemplateCall::Include => string_of("INCLUDE expects 1 arg"),
        TemplateCall::User => String::new(),
    };
    Err(BasilError(m))
}

/// An `@INCLUDE` at nesting depth `depth` may go deeper only below `max_depth`.
pub fn include_check(depth: usize, max_depth: usize) -> (r: Result<(), BasilError>)
    ensures
        match r {
            Ok(()) => depth < max_depth,
            Err(e) => depth >= max_depth && e.0@ == "RENDER$: include depth exceeded"@,
        },
{
    if depth >= max_depth {
        Err(BasilError(string_of("RENDER$: include depth exceeded")))
    } else {
        Ok(())
    }
}

/// The text of a string built-in (`LEFT`, `RIGHT`, `MID`, `TRIM`) on the evaluated
/// arguments: the text `s` and the numbers `a` and `b`.
pub open spec fn text_call(k: TemplateCall, s: Seq<char>, a: i64, b: i64) -> Option<Seq<char>> {
    match k {
        TemplateCall::Left => Some(left_seq(s, a as int)),
        TemplateCall::Right => Some(right_seq(s, a as int)),
        TemplateCall::Mid => Some(mid_seq(s, a as int, b as int)),
        TemplateCall::Trim => Some(trim(s)),
        _ => None,
    }
}

pub fn apply_text_call(k: TemplateCall, s: &str, a: i64, b: i64) -> (r: Option<String>)
    ensures
        match r {
            Some(t) => text_call(k, s@, a, b) == Some(t@),
            None => text_call(k, s@, a, b) is None,
        },
{
    match k {
        TemplateCall::Left => Some(left_chars(s, a)),
        TemplateCall::Right => Some(right_chars(s, a)),
        TemplateCall::Mid => Some(mid_chars(s, a, b)),
        TemplateCall::Trim => {
            let v = chars_of(s);
            let t = trimmed_string(&v, 0, v.len());
            assert(v@.subrange(0, v@.len() as int) =~= s@);
            Some(t)
        },
        _ => None,
    }
}

/// `n` more steps, each answered with `Ack`: the state and action after the last.
pub open spec fn steps_acked(st: StateView, n: nat) -> (StateView, ActionView)
    decreases n,
{
    let (s1, a1) = render_step_spec(st, EventView::Ack);
    if n == 0 {
        (s1, a1)
    } else {
        steps_acked(s1, (n - 1) as nat)
    }
}

/// A `@BREAK` or `@CONTINUE` with no loop around it fails with its own message at its
/// position, once the blocks around it are left.
pub proof fn law_signal_outside_loop_fails(st: StateView, broken: bool, pos: usize)
    requires
        st.wait == (Wait::Unwinding { broken, pos }),
        forall|i: int| 0 <= i < st.frames.len() ==> (#[trigger] st.frames[i]).lp is None,
    ensures
        steps_acked(st, st.frames.len()).1 == ActionView::Fail(
            template_error_message(st.template, pos as int, outside_loop_msg(broken)),
        ),
        steps_acked(st, st.frames.len()).0.wait == Wait::Finished,
    decreases st.frames.len(),
{
    if st.frames.len() == 0 {
        assert(steps_acked(st, 0) == render_step_spec(st, EventView::Ack));
    } else {
        let s1 = render_step_spec(st, EventView::Ack).0;
        assert(st.frames.last().lp is None);
        assert(s1 == with_wait(pop_frame(st), Wait::Unwinding { broken, pos }));
        assert forall|i: int| 0 <= i < s1.frames.len() implies (#[trigger] s1.frames[i]).lp is None by {
            assert(s1.frames[i] == st.frames[i]);
        }
        law_signal_outside_loop_fails(s1, broken, pos);
        assert(s1.frames.len() == st.frames.len() - 1);
        assert(steps_acked(st, st.frames.len()) == steps_acked(s1, s1.frames.len()));
    }
}

/// A `@BREAK` or `@CONTINUE` leaves the blocks inside the nearest loop around it and
/// ends that loop's iteration: broken for `@BREAK`, so the loop ends; not for
/// `@CONTINUE`, so the loop goes on with its next iteration.
pub proof fn law_signal_reaches_nearest_loop(st: StateView, broken: bool, pos: usize, k: int)
    requires
        st.wait == (Wait::Unwinding { broken, pos }),
        0 <= k < st.frames.len(),
        st.frames[k].lp is Some,
        forall|i: int| k < i < st.frames.len() ==> (#[trigger] st.frames[i]).lp is None,
    ensures
        steps_acked(st, (st.frames.len() - 1 - k) as nat) == (
        StateView { frames: st.frames.take(k + 1), wait: Wait::Ended { broken }, ..st },
        ActionView::EndIteration,
        ),
    decreases st.frames.len(),
{
    if st.frames.len() - 1 == k {
        assert(st.frames.take(k + 1) =~= st.frames);
        assert(steps_acked(st, 0) == render_step_spec(st, EventView::Ack));
    } else {
        let s1 = render_step_spec(st, EventView::Ack).0;
        assert(st.frames.last().lp is None);
        assert(s1 == with_wait(pop_frame(st), Wait::Unwinding { broken, pos }));
        assert forall|i: int| k < i < s1.frames.len() implies (#[trigger] s1.frames[i]).lp is None by {
            assert(s1.frames[i] == st.frames[i]);
        }
        assert(s1.frames[k] == st.frames[k]);
        law_signal_reaches_nearest_loop(s1, broken, pos, k);
        assert(s1.frames.take(k + 1) =~= st.frames.take(k + 1));
        assert(steps_acked(st, (st.frames.len() - 1 - k) as nat) == steps_acked(s1, (s1.frames.len() - 1 - k) as nat));
    }
}

// ---------------------------------------------------------------------
// Template calls inside expressions

/// A piece of an expression in which template calls are expanded: text kept as it is,
/// or a call whose text result goes in as a Basil string literal.
pub enum Piece {
    Text(String),
    Call { name: String, args: Vec<String> },
}

pub enum PieceView {
    Text(Seq<char>),
    Call { name: Seq<char>, args: Seq<Seq<char>> },
}

pub open spec fn piece_view(p: Piece) -> PieceView {
    match p {
        Piece::Text(t) => PieceView::Text(t@),
        Piece::Call { name, args } => PieceView::Call { name: name@, args: strings_view(args@) },
    }
}

pub open spec fn pieces_view(v: Seq<Piece>) -> Seq<PieceView> {
    v.map_values(|p: Piece| piece_view(p))
}

/// `t` in front of the pieces `ps`, joined to a leading text piece.
pub open spec fn text_before(t: Seq<char>, ps: Seq<PieceView>) -> Seq<PieceView> {
    if t.len() == 0 {
        ps
    } else if ps.len() > 0 && ps[0] is Text {
        seq![PieceView::Text(t + ps[0]->Text_0)] + ps.drop_first()
    } else {
        seq![PieceView::Text(t)] + ps
    }
}

pub open spec fn char_before(c: char, r: (Seq<PieceView>, Option<Seq<char>>)) -> (Seq<PieceView>, Option<Seq<char>>) {
    (text_before(seq![c], r.0), r.1)
}

/// The words after `@` that an expression keeps as they stand.
pub open spec fn kept_word(u: Seq<char>) -> bool {
    u == "IF"@ || u == "CASE"@ || u == "ELSE"@ || u == "ENDIF"@ || u == "ENDCASE"@
}

/// The pieces of `s` from `i` on: each `@NAME(args)` (outside the words kept as they
/// stand) is a call; the rest is text. An argument list that never closes ends the
/// pieces with its error, after the calls before it.
pub open spec fn expansion(s: Seq<char>, i: int) -> (Seq<PieceView>, Option<Seq<char>>)
    decreases s.len() - i,
{
    if i < 0 || i >= s.len() {
        (seq![], None)
    } else if at_directive(s, i) {
        let (nm, j) = ident_at(s, i + 1);
        let name = upper_seq(
            match nm {
                Some(n) => n,
                None => seq![],
            },
        );
        proof {
            lemma_ident_at_bounds(s, i + 1);
            lemma_run_end_bounds(s, j, crate::template::white_pred());
        }
        let k = skip_ws_end(s, j);
        if kept_word(name) || !occurs_at(s, "("@, k) {
            char_before(s[i], expansion(s, i + 1))
        } else {
            proof {
                lemma_args_scan_bounds(s, k + 1, 1);
            }
            match args_scan(s, k + 1, 1) {
                None => (seq![], Some("RENDER$: unclosed ')'"@)),
                Some((e, a)) => {
                    let rest = expansion(s, e);
                    (seq![PieceView::Call { name, args: split_scan(a, 0, 0, seq![]) }] + rest.0, rest.1)
                },
            }
        }
    } else {
        char_before(s[i], expansion(s, i + 1))
    }
}

/// What is known before `i`: the pieces `done`, then the text `cur` not yet ended.
pub open spec fn glue(done: Seq<PieceView>, cur: Seq<char>, r: (Seq<PieceView>, Option<Seq<char>>)) -> (
    Seq<PieceView>,
    Option<Seq<char>>,
) {
    (done + text_before(cur, r.0), r.1)
}

proof fn lemma_glue_char(done: Seq<PieceView>, cur: Seq<char>, c: char, r: (Seq<PieceView>, Option<Seq<char>>))
    ensures
        glue(done, cur, char_before(c, r)) == glue(done, cur.push(c), r),
{
    let ps = r.0;
    if ps.len() > 0 && ps[0] is Text {
        assert(text_before(seq![c], ps)[0] is Text);
        assert(seq![c] + ps[0]->Text_0 =~= seq![c] + ps[0]->Text_0);
        if cur.len() > 0 {
            assert(cur + (seq![c] + ps[0]->Text_0) =~= cur.push(c) + ps[0]->Text_0);
            assert(text_before(seq![c], ps).drop_first() =~= ps.drop_first());
        } else {
            assert(cur.push(c) =~= seq![c]);
        }
        assert(text_before(cur, text_before(seq![c], ps)) =~= text_before(cur.push(c), ps));
    } else {
        if cur.len() > 0 {
            assert(text_before(seq![c], ps)[0] == PieceView::Text(seq![c]));
            assert(cur + seq![c] =~= cur.push(c));
            assert(text_before(seq![c], ps).drop_first() =~= ps);
        } else {
            assert(cur.push(c) =~= seq![c]);
        }
        assert(text_before(cur, text_before(seq![c], ps)) =~= text_before(cur.push(c), ps));
    }
}

proof fn lemma_glue_call(done: Seq<PieceView>, cur: Seq<char>, p: PieceView, r: (Seq<PieceView>, Option<Seq<char>>))
    requires
        p is Call,
    ensures
        glue(done, cur, (seq![p] + r.0, r.1)) == glue(
            done + (if cur.len() == 0 { seq![] } else { seq![PieceView::Text(cur)] }) + seq![p],
            seq![],
            r,
        ),
{
    assert(text_before(Seq::<char>::empty(), r.0) == r.0);
    if cur.len() == 0 {
        assert(done + seq![p] + r.0 =~= done + (seq![p] + r.0));
    } else {
        assert((seq![p] + r.0)[0] == p);
        assert(done + seq![PieceView::Text(cur)] + seq![p] + r.0 =~= done + (seq![PieceView::Text(cur)] + (seq![p] + r.0)));
    }
}

fn flush_text(done: &mut Vec<Piece>, cur: &mut Vec<char>)
    ensures
        pieces_view(final(done)@) == pieces_view(old(done)@) + (if old(cur)@.len() == 0 {
            seq![]
        } else {
            seq![PieceView::Text(old(cur)@)]
        }),
        final(cur)@ == Seq::<char>::empty(),
{
    if cur.len() > 0 {
        let t = crate::text::string_from_chars(cur);
        let p = Piece::Text(t);
        let ghost d0 = done@;
        done.push(p);
        assert(pieces_view(done@) =~= pieces_view(d0) + seq![PieceView::Text(old(cur)@)]);
    } else {
        assert(pieces_view(done@) =~= pieces_view(done@) + Seq::<PieceView>::empty());
    }
    *cur = Vec::new();
}

/// The pieces of an expression in which template calls are expanded: the calls are
/// made, in order, by the caller, and each call's text goes into the expression as a
/// Basil string literal. The error, if any, comes after all the pieces.
pub fn expansion_pieces(src: &str) -> (r: (Vec<Piece>, Option<BasilError>))
    ensures
        pieces_view(r.0@) == expansion(src@, 0).0,
        match r.1 {
            Some(e) => expansion(src@, 0).1 == Some(e.0@),
            None => expansion(src@, 0).1 is None,
        },
{
    let s = chars_of(src);
    let mut done: Vec<Piece> = Vec::new();
    let mut cur: Vec<char> = Vec::new();
    let mut i: usize = 0;
    assert(pieces_view(done@) =~= Seq::<PieceView>::empty());
    assert(text_before(Seq::<char>::empty(), expansion(s@, 0).0) == expansion(s@, 0).0);
    assert(Seq::<PieceView>::empty() + expansion(s@, 0).0 =~= expansion(s@, 0).0);
    while i < s.len()
        invariant
            i <= s.len(),
            s@ == src@,
            expansion(s@, 0) == glue(pieces_view(done@), cur@, expansion(s@, i as int)),
        decreases s.len() - i,
    {
        if starts_with_at(&s, i) {
            let mut j = i + 1;
            let nm = read_ident(&s, &mut j);
            let nm_s = match nm {
                Some(n) => n,
                None => String::new(),
            };
            let up = ascii_upper(nm_s.as_str());
            let u = up.as_str();
            let ghost j0 = j;
            skip_ws(&s, &mut j);
            proof {
                lemma_ident_at_bounds(s@, i + 1);
            }
            let kept = str_eq(u, "IF") || str_eq(u, "CASE") || str_eq(u, "ELSE") || str_eq(u, "ENDIF") || str_eq(
                u,
                "ENDCASE",
            );
            if kept || !starts_with2(&s, j, "(") {
                proof {
                    lemma_glue_char(pieces_view(done@), cur@, s@[i as int], expansion(s@, i + 1));
                }
                cur.push(s[i]);
                i += 1;
            } else {
                proof {
                    reveal_strlit("(");
                }
                assert(j < s.len());
                j = j + 1;
                let ghost k1 = j;
                proof {
                    lemma_args_scan_bounds(s@, k1 as int, 1);
                }
                match read_args_until_rparen(&s, &mut j) {
                    Err(e) => {
                        proof {
                            assert(expansion(s@, i as int) == (Seq::<PieceView>::empty(), Some("RENDER$: unclosed ')'"@)));
                            assert(text_before(cur@, Seq::<PieceView>::empty()) =~= (if cur@.len() == 0 {
                                Seq::<PieceView>::empty()
                            } else {
                                seq![PieceView::Text(cur@)]
                            }));
                        }
                        flush_text(&mut done, &mut cur);
                        return (done, Some(e));
                    },
                    Ok(a) => {
                        let args = split_top_level_commas(a.as_str());
                        let p = Piece::Call { name: up.clone(), args };
                        let ghost rest = expansion(s@, j as int);
                        assert(expansion(s@, i as int) == (seq![piece_view(p)] + rest.0, rest.1));
                        proof {
                            lemma_glue_call(pieces_view(done@), cur@, piece_view(p), rest);
                        }
                        flush_text(&mut done, &mut cur);
                        let ghost d1 = done@;
                        done.push(p);
                        assert(pieces_view(done@) =~= pieces_view(d1) + seq![piece_view(p)]);
                        i = j;
                    },
                }
            }
        } else {
            proof {
                lemma_glue_char(pieces_view(done@), cur@, s@[i as int], expansion(s@, i + 1));
            }
            cur.push(s[i]);
            i += 1;
        }
    }
    assert(expansion(s@, i as int) == (Seq::<PieceView>::empty(), Option::<Seq<char>>::None));
    assert(text_before(cur@, Seq::<PieceView>::empty()) =~= (if cur@.len() == 0 {
        Seq::<PieceView>::empty()
    } else {
        seq![PieceView::Text(cur@)]
    }));
    flush_text(&mut done, &mut cur);
    (done, None)
}

/// How many of the pieces are calls.
pub open spec fn call_count(ps: Seq<PieceView>) -> nat
    decreases ps.len(),
{
    if ps.len() == 0 {
        0
    } else {
        call_count(ps.drop_first()) + if ps[0] is Call {
            1nat
        } else {
            0nat
        }
    }
}

/// The expression once each call's text, in order from `rs`, stands in its place as a
/// Basil string literal.
pub open spec fn assembled(ps: Seq<PieceView>, rs: Seq<Seq<char>>) -> Seq<char>
    decreases ps.len(),
{
    if ps.len() == 0 {
        seq![]
    } else {
        match ps[0] {
            PieceView::Text(t) => t + assembled(ps.drop_first(), rs),
            PieceView::Call { .. } => seq!['"'] + crate::template::escape_all(rs[0]) + seq!['"'] + assembled(
                ps.drop_first(),
                rs.drop_first(),
            ),
        }
    }
}

/// The expanded expression, from its pieces and the texts that its calls gave, in order.
pub fn assemble_expansion(pieces: &Vec<Piece>, results: &Vec<String>) -> (r: String)
    requires
        results@.len() == call_count(pieces_view(pieces@)),
    ensures
        r@ == assembled(pieces_view(pieces@), strings_view(results@)),
{
    let ghost ps = pieces_view(pieces@);
    let ghost rs = strings_view(results@);
    let mut out = String::new();
    let mut i: usize = 0;
    let mut k: usize = 0;
    assert(ps.skip(0) =~= ps);
    assert(rs.skip(0) =~= rs);
    assert(out@ + assembled(ps, rs) =~= assembled(ps, rs));
    while i < pieces.len()
        invariant
            i <= pieces.len(),
            ps == pieces_view(pieces@),
            rs == strings_view(results@),
            k <= results.len(),
            results@.len() - k == call_count(ps.skip(i as int)),
            out@ + assembled(ps.skip(i as int), rs.skip(k as int)) == assembled(ps, rs),
        decreases pieces.len() - i,
    {
        let ghost rest = ps.skip(i as int);
        assert(rest.drop_first() =~= ps.skip(i + 1));
        assert(rest[0] == piece_view(pieces@[i as int]));
        match &pieces[i] {
            Piece::Text(t) => {
                assert(out@ + t@ + assembled(ps.skip(i + 1), rs.skip(k as int)) =~= out@ + (t@ + assembled(
                    ps.skip(i + 1),
                    rs.skip(k as int),
                )));
                push_str(&mut out, t.as_str());
            },
            Piece::Call { .. } => {
                let lit = crate::template::basil_string_literal(results[k].as_str());
                assert(rs.skip(k as int)[0] == results@[k as int]@);
                assert(rs.skip(k as int).drop_first() =~= rs.skip(k + 1));
                assert(out@ + lit@ + assembled(ps.skip(i + 1), rs.skip(k + 1)) =~= out@ + (lit@ + assembled(
                    ps.skip(i + 1),
                    rs.skip(k + 1),
                )));
                push_str(&mut out, lit.as_str());
                k += 1;
            },
        }
        i += 1;
    }
    assert(ps.skip(i as int) =~= Seq::<PieceView>::empty());
    assert(out@ + Seq::<char>::empty() =~= out@);
    out
}

proof fn lemma_plain_expansion(s: Seq<char>, i: int)
    requires
        0 <= i <= s.len(),
        forall|j: int| 0 <= j < s.len() ==> s[j] != '@',
    ensures
        expansion(s, i) == (text_before(s.skip(i), seq![]), Option::<Seq<char>>::None),
    decreases s.len() - i,
{
    if i == s.len() {
        assert(s.skip(i) =~= Seq::<char>::empty());
    } else {
        lemma_plain_expansion(s, i + 1);
        assert(!at_directive(s, i));
        let rest = s.skip(i + 1);
        assert(s.skip(i) =~= seq![s[i]] + rest);
        if rest.len() == 0 {
            assert(text_before(seq![s[i]], Seq::<PieceView>::empty()) =~= seq![PieceView::Text(seq![s[i]])]);
        } else {
            assert(text_before(rest, Seq::<PieceView>::empty()) == seq![PieceView::Text(rest)]);
            assert(text_before(seq![s[i]], seq![PieceView::Text(rest)]) =~= seq![PieceView::Text(seq![s[i]] + rest)]);
        }
    }
}

/// An expression without `@` holds no template call: its expansion is the expression
/// itself.
pub proof fn law_expansion_keeps_plain_text(s: Seq<char>)
    requires
        forall|j: int| 0 <= j < s.len() ==> s[j] != '@',
    ensures
        expansion(s, 0).1 is None,
        call_count(expansion(s, 0).0) == 0,
        assembled(expansion(s, 0).0, seq![]) == s,
{
    lemma_plain_expansion(s, 0);
    assert(s.skip(0) =~= s);
    let ps = expansion(s, 0).0;
    if s.len() > 0 {
        assert(ps == seq![PieceView::Text(s)]);
        assert(ps.drop_first() =~= Seq::<PieceView>::empty());
        assert(assembled(ps, seq![]) == s + assembled(ps.drop_first(), seq![]));
        assert(s + Seq::<char>::empty() =~= s);
        assert(call_count(ps) == call_count(ps.drop_first()));
    } else {
        assert(ps =~= Seq::<PieceView>::empty());
    }
}

/// The texts joined, with `sep` between each two.
pub open spec fn joined(ts: Seq<Seq<char>>, sep: Seq<char>) -> Seq<char>
    decreases ts.len(),
{
    if ts.len() == 0 {
        seq![]
    } else if ts.len() == 1 {
        ts[0]
    } else {
        joined(ts.drop_last(), sep) + sep + ts.last()
    }
}

/// The Basil call that a template call of a program's own function stands for: the
/// name in upper case, then the arguments as written, between parentheses.
pub fn user_call_source(name: &str, args: &Vec<String>) -> (r: String)
    ensures
        r@ == upper_seq(name@) + "("@ + joined(strings_view(args@), ", "@) + ")"@,
{
    let mut out = ascii_upper(name);
    push_str(&mut out, "(");
    let ghost head = out@;
    let mut i: usize = 0;
    while i < args.len()
        invariant
            i <= args.len(),
            head == upper_seq(name@) + "("@,
            out@ == head + joined(strings_view(args@.take(i as int)), ", "@),
        decreases args.len() - i,
    {
        let ghost before = out@;
        if i > 0 {
            push_str(&mut out, ", ");
        }
        push_str(&mut out, args[i].as_str());
        proof {
            let t = strings_view(args@.take(i + 1));
            assert(t.drop_last() =~= strings_view(args@.take(i as int)));
            assert(t.last() == args@[i as int]@);
            if i == 0 {
                assert(t =~= seq![args@[0]@]);
                assert(strings_view(args@.take(0)) =~= Seq::<Seq<char>>::empty());
            }
        }
        i += 1;
    }
    assert(args@.take(args.len() as int) =~= args@);
    push_str(&mut out, ")");
    out
}

/// The string calls do what their names say, whatever the case of the name:
/// `LEFT(s, n)` keeps the first `n` characters, `RIGHT(s, n)` the last `n`,
/// `MID(s, a, b)` the middle from `a`, `TRIM(s)` drops the spaces around.
pub proof fn law_text_calls_by_name(name: Seq<char>, s: Seq<char>, a: i64, b: i64)
    ensures
        upper_seq(name) == "LEFT"@ ==> text_call(call_of(upper_seq(name)), s, a, b) == Some(left_seq(s, a as int)),
        upper_seq(name) == "RIGHT"@ ==> text_call(call_of(upper_seq(name)), s, a, b) == Some(right_seq(s, a as int)),
        upper_seq(name) == "MID"@ ==> text_call(call_of(upper_seq(name)), s, a, b) == Some(mid_seq(s, a as int, b as int)),
        upper_seq(name) == "TRIM"@ ==> text_call(call_of(upper_seq(name)), s, a, b) == Some(trim(s)),
{
    reveal_strlit("LEFT");
    reveal_strlit("RIGHT");
    reveal_strlit("MID");
    reveal_strlit("TRIM");
    assert("RIGHT"@ != "LEFT"@) by {
        assert("RIGHT"@.len() != "LEFT"@.len());
    }
    assert("MID"@ != "LEFT"@) by {
        assert("MID"@.len() != "LEFT"@.len());
    }
    assert("MID"@ != "RIGHT"@) by {
        assert("MID"@.len() != "RIGHT"@.len());
    }
    assert("TRIM"@ != "LEFT"@) by {
        assert("TRIM"@[0] != "LEFT"@[0]);
    }
    assert("TRIM"@ != "RIGHT"@) by {
        assert("TRIM"@.len() != "RIGHT"@.len());
    }
    assert("TRIM"@ != "MID"@) by {
        assert("TRIM"@.len() != "MID"@.len());
    }
}

/// Each built-in name selects its own call: the message for its missing
/// arguments begins with that very name, and it takes as many arguments as the
/// message says.
pub proof fn law_call_messages_name_the_call(u: Seq<char>)
    requires
        u == "LEFT"@ || u == "RIGHT"@ || u == "MID"@ || u == "TRIM"@ || u == "URLENCODE"@ || u == "ENV"@ || u
            == "SERVER"@ || u == "REQUEST"@ || u == "SESSION"@ || u == "INCLUDE"@,
    ensures
        missing_args_msg(call_of(u)) == u + " expects "@ + seq![(('0' as int) + call_arity(call_of(u))) as char]
            + (if call_arity(call_of(u)) == 1 { " arg"@ } else { " args"@ }),
{
    reveal_strlit("LEFT");
    reveal_strlit("RIGHT");
    reveal_strlit("MID");
    reveal_strlit("TRIM");
    reveal_strlit("URLENCODE");
    reveal_strlit("ENV");
    reveal_strlit("SERVER");
    reveal_strlit("REQUEST");
    reveal_strlit("SESSION");
    reveal_strlit("INCLUDE");
    reveal_strlit(" expects ");
    reveal_strlit(" arg");
    reveal_strlit(" args");
    reveal_strlit("LEFT expects 2 args");
    reveal_strlit("RIGHT expects 2 args");
    reveal_strlit("MID expects 3 args");
    reveal_strlit("TRIM expects 1 arg");
    reveal_strlit("URLENCODE expects 1 arg");
    reveal_strlit("ENV expects 1 arg");
    reveal_strlit("SERVER expects 1 arg");
    reveal_strlit("REQUEST expects 1 arg");
    reveal_strlit("SESSION expects 1 arg");
    reveal_strlit("INCLUDE expects 1 arg");
    assert(missing_args_msg(call_of(u)) =~= u + " expects "@ + seq![(('0' as int) + call_arity(call_of(u))) as char]
        + (if call_arity(call_of(u)) == 1 { " arg"@ } else { " args"@ }));
}

} // verus!
