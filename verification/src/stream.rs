//! The assistant's streamed answer as a state machine. The model's answer
//! arrives line by line; each line, and each outcome of the work around
//! the stream (a request that failed, a body that ended, a receiver that
//! is gone), moves the state on and says what is to be done next: which
//! events to hand on, which messages to add, which tools to run, and
//! whether to ask the model again.
use vstd::prelude::*;
use crate::ai::{
    after_round, call_view, call_views, copy_call, sse_line, CallView, RoundStep, SseLine, ToolCall,
    ToolCalls, MAX_TOOL_ROUNDS, apply_piece,
};
use crate::aitools::{note_spec, opt_str, tool_arguments, tool_note};
use crate::text::{starts_with, trim};
use serde_json::Value;

verus! {

/// The note sent when a round asks for tools after the last round.
pub const LIMIT_NOTE: &'static str = "工具调用已达轮数上限，不再继续";

/// Put before the error text when reading the answer fails.
pub const READ_FAILED: &'static str = "读取模型响应中断：";

/// One streamed piece of a tool call.
pub struct CallPiece {
    pub index: Option<u64>,
    pub id: Option<String>,
    pub name: Option<String>,
    pub arguments: Option<String>,
}

/// What the data of one stream line holds.
pub struct Delta {
    /// The data is JSON.
    pub parsed: bool,
    pub error: Option<String>,
    pub content: Option<String>,
    pub pieces: Vec<CallPiece>,
}

/// A call piece's index, id, name and arguments.
pub type PieceView = (Option<u64>, Option<Seq<char>>, Option<Seq<char>>, Option<Seq<char>>);

pub ghost struct DeltaView {
    pub parsed: bool,
    pub error: Option<Seq<char>>,
    pub content: Option<Seq<char>>,
    pub pieces: Seq<PieceView>,
}

pub open spec fn piece_view(p: CallPiece) -> PieceView {
    (p.index, opt_str(p.id), opt_str(p.name), opt_str(p.arguments))
}

pub open spec fn delta_view(d: Delta) -> DeltaView {
    DeltaView {
        parsed: d.parsed,
        error: opt_str(d.error),
        content: opt_str(d.content),
        pieces: d.pieces@.map_values(|p: CallPiece| piece_view(p)),
    }
}

/// What `serde_json` reads from the data of a stream line: whether it is
/// JSON; the string member `error`; the string at
/// `/choices/0/delta/content`; and, for each item of the array at
/// `/choices/0/delta/tool_calls`, its `index` as `u64` and its `id`,
/// `/function/name` and `/function/arguments` as strings, each absent
/// where it is missing or of another type.
pub uninterp spec fn stream_delta(data: Seq<char>) -> DeltaView;

/// Reads the data of a stream line with `serde_json::from_str`,
/// `Value::pointer` and indexing. The contract names the result.
#[verifier::external_body]
fn delta_of(data: &str) -> (r: Delta)
    ensures
        delta_view(r) == stream_delta(data@),
{
    let v: Value = match serde_json::from_str(data) {
        Ok(v) => v,
        Err(_) => return Delta { parsed: false, error: None, content: None, pieces: Vec::new() },
    };
    let s = |x: &Value, p| x.pointer(p).and_then(|y| y.as_str()).map(String::from);
    let items = v.pointer("/choices/0/delta/tool_calls").and_then(|t| t.as_array());
    let pieces = items.into_iter().flatten().map(|t| CallPiece {
        index: t["index"].as_u64(),
        id: s(t, "/id"),
        name: s(t, "/function/name"),
        arguments: s(t, "/function/arguments"),
    }).collect();
    Delta { parsed: true, error: s(&v, "/error"), content: s(&v, "/choices/0/delta/content"), pieces }
}

/// The state of a streamed answer.
pub ghost struct StreamView {
    pub tools: bool,
    pub round: int,
    pub text: Seq<char>,
    pub calls: Seq<CallView>,
    pub last: Seq<char>,
    pub reply: Option<Seq<char>>,
}

/// The state of a streamed answer.
pub struct StreamState {
    /// Tools may be run.
    pub tools: bool,
    /// The current round, counted from 1.
    pub round: usize,
    /// The text of the current round so far.
    pub text: String,
    /// The tool calls of the current round so far.
    pub calls: ToolCalls,
    /// The text of the last round that ended without error.
    pub last: String,
    /// Set once the answer is over: the reply of the turn.
    pub reply: Option<String>,
}

impl View for StreamState {
    type V = StreamView;

    open spec fn view(&self) -> StreamView {
        StreamView {
            tools: self.tools,
            round: self.round as int,
            text: self.text@,
            calls: self.calls.view(),
            last: self.last@,
            reply: opt_str(self.reply),
        }
    }
}

impl StreamState {
    /// The round lies between 1 and the limit.
    pub open spec fn wf(&self) -> bool {
        1 <= self.round <= MAX_TOOL_ROUNDS
    }
}

/// What happens in the stream, seen from outside the state.
pub enum StreamEvent {
    /// A line of the answer's body.
    Line(String),
    /// Reading the body failed, with the error's text.
    ReadFailed(String),
    /// The body ended.
    BodyEnd,
    /// The request failed, with the error's text.
    RequestFailed(String),
    /// A piece of text could not be handed on: nobody listens any more.
    Undelivered,
}

/// What is to be done next.
pub enum StreamAction {
    /// Hand on a piece of the answer.
    Delta(String),
    /// Hand on an error.
    Error(String),
    /// Hand on a note about the tools.
    Note(String),
    /// Add the round's assistant message: its text (absent when empty) and
    /// its tool calls, by index.
    Assistant(Option<String>, Vec<ToolCall>),
    /// Run the tool call and add its result as a tool message.
    RunTool(ToolCall),
    /// Ask the model again, with the messages so far.
    Request,
    /// Hand on the final event.
    Done,
}

pub ghost enum ActionView {
    Delta(Seq<char>),
    Error(Seq<char>),
    Note(Seq<char>),
    Assistant(Option<Seq<char>>, Seq<CallView>),
    RunTool(CallView),
    Request,
    Done,
}

pub open spec fn action_view(a: StreamAction) -> ActionView {
    match a {
        StreamAction::Delta(s) => ActionView::Delta(s@),
        StreamAction::Error(s) => ActionView::Error(s@),
        StreamAction::Note(s) => ActionView::Note(s@),
        StreamAction::Assistant(t, cs) => ActionView::Assistant(opt_str(t), call_views(cs@)),
        StreamAction::RunTool(c) => ActionView::RunTool(call_view(c)),
        StreamAction::Request => ActionView::Request,
        StreamAction::Done => ActionView::Done,
    }
}

pub open spec fn action_views(s: Seq<StreamAction>) -> Seq<ActionView> {
    s.map_values(|a: StreamAction| action_view(a))
}

/// The data of a stream line: none for a line that is no data line, else
/// the trimmed text after `data:`.
pub open spec fn line_data(line: Seq<char>) -> Option<Seq<char>> {
    let t = trim(line);
    if starts_with(t, "data:"@) {
        Some(trim(t.skip(5)))
    } else {
        None
    }
}

/// The calls after the pieces of one line, in order; a piece without an
/// index counts as index 0.
pub open spec fn apply_pieces(cs: Seq<CallView>, ps: Seq<PieceView>) -> Seq<CallView>
    decreases ps.len(),
{
    if ps.len() == 0 {
        cs
    } else {
        let p = ps.last();
        apply_piece(
            apply_pieces(cs, ps.drop_last()),
            match p.0 {
                Some(i) => i,
                None => 0,
            },
            p.1,
            p.2,
            p.3,
        )
    }
}

/// For each call, in index order: the note on it, then its run.
pub open spec fn tool_actions(cs: Seq<CallView>) -> Seq<ActionView>
    decreases cs.len(),
{
    if cs.len() == 0 {
        Seq::empty()
    } else {
        tool_actions(cs.drop_last()) + seq![
            ActionView::Note(note_spec(cs.last().2, tool_arguments(cs.last().3))),
            ActionView::RunTool(cs.last()),
        ]
    }
}

/// The end of a round, with the error that ended it if any. An error is
/// handed on and ends the answer with the round's text. Else the round's
/// text becomes the last; without tools or tool calls the answer is done;
/// with calls the assistant message is added, and at the round limit a
/// note ends the answer, else each call is announced and run in index
/// order and the model is asked again in the next round.
pub open spec fn end_round(s: StreamView, err: Option<Seq<char>>) -> (StreamView, Seq<ActionView>) {
    match err {
        Some(e) => (StreamView { reply: Some(s.text), ..s }, seq![ActionView::Error(e)]),
        None => {
            let said = if s.text.len() == 0 {
                None
            } else {
                Some(s.text)
            };
            if !s.tools || s.calls.len() == 0 {
                (StreamView { last: s.text, reply: Some(s.text), ..s }, seq![ActionView::Done])
            } else if s.round >= MAX_TOOL_ROUNDS {
                (
                    StreamView { last: s.text, reply: Some(s.text), ..s },
                    seq![
                        ActionView::Assistant(said, s.calls),
                        ActionView::Note(LIMIT_NOTE@),
                        ActionView::Done,
                    ],
                )
            } else {
                (
                    StreamView {
                        round: s.round + 1,
                        text: Seq::empty(),
                        calls: Seq::empty(),
                        last: s.text,
                        ..s
                    },
                    seq![ActionView::Assistant(said, s.calls)] + tool_actions(s.calls) + seq![
                        ActionView::Request,
                    ],
                )
            }
        },
    }
}

/// A data line: ignored when it is no JSON; an error ends the round;
/// else non-empty text is added and handed on, and the call pieces are
/// taken in.
pub open spec fn data_step(s: StreamView, d: DeltaView) -> (StreamView, Seq<ActionView>) {
    if !d.parsed {
        (s, Seq::empty())
    } else {
        match d.error {
            Some(e) => end_round(s, Some(e)),
            None => {
                let c = match d.content {
                    Some(c) => c,
                    None => Seq::empty(),
                };
                (
                    StreamView { text: s.text + c, calls: apply_pieces(s.calls, d.pieces), ..s },
                    if c.len() > 0 {
                        seq![ActionView::Delta(c)]
                    } else {
                        Seq::empty()
                    },
                )
            },
        }
    }
}

/// One step of the streamed answer. Once it is over nothing changes.
/// A line that is no data line is skipped; `[DONE]` ends the round; other
/// data goes by `data_step`. A failed read ends the round with an error, an
/// ended body ends it without. A failed request hands on its error and
/// ends the answer with the last round's text; text that could not be
/// handed on ends it with the current round's text.
pub open spec fn step_spec(s: StreamView, ev: StreamEvent) -> (StreamView, Seq<ActionView>) {
    if s.reply is Some {
        (s, Seq::empty())
    } else {
        match ev {
            StreamEvent::Line(l) => match line_data(l@) {
                None => (s, Seq::empty()),
                Some(d) => if d == "[DONE]"@ {
                    end_round(s, None)
                } else {
                    data_step(s, stream_delta(d))
                },
            },
            StreamEvent::ReadFailed(e) => end_round(s, Some(READ_FAILED@ + e@)),
            StreamEvent::BodyEnd => end_round(s, None),
            StreamEvent::RequestFailed(e) => (
                StreamView { reply: Some(s.last), ..s },
                seq![ActionView::Error(e@)],
            ),
            StreamEvent::Undelivered => (StreamView { reply: Some(s.text), ..s }, Seq::empty()),
        }
    }
}

/// How many actions ask the model again.
pub open spec fn requests(a: Seq<ActionView>) -> nat
    decreases a.len(),
{
    if a.len() == 0 {
        0
    } else {
        requests(a.drop_last()) + if a.last() is Request {
            1nat
        } else {
            0nat
        }
    }
}

/// How many actions end the answer: the final event or an error.
pub open spec fn finals(a: Seq<ActionView>) -> nat
    decreases a.len(),
{
    if a.len() == 0 {
        0
    } else {
        finals(a.drop_last()) + if a.last() is Done || a.last() is Error {
            1nat
        } else {
            0nat
        }
    }
}

/// The state and all actions after a sequence of events.
pub open spec fn run_spec(s: StreamView, evs: Seq<StreamEvent>) -> (StreamView, Seq<ActionView>)
    decreases evs.len(),
{
    if evs.len() == 0 {
        (s, Seq::empty())
    } else {
        let (t, a) = run_spec(s, evs.drop_last());
        let (u, b) = step_spec(t, evs.last());
        (u, a + b)
    }
}

proof fn lemma_counts_concat(a: Seq<ActionView>, b: Seq<ActionView>)
    ensures
        requests(a + b) == requests(a) + requests(b),
        finals(a + b) == finals(a) + finals(b),
    decreases b.len(),
{
    if b.len() == 0 {
        assert(a + b =~= a);
    } else {
        lemma_counts_concat(a, b.drop_last());
        assert((a + b).drop_last() =~= a + b.drop_last());
        assert((a + b).last() == b.last());
    }
}

proof fn lemma_counts_tool_actions(cs: Seq<CallView>)
    ensures
        requests(tool_actions(cs)) == 0,
        finals(tool_actions(cs)) == 0,
    decreases cs.len(),
{
    if cs.len() > 0 {
        let n = ActionView::Note(note_spec(cs.last().2, tool_arguments(cs.last().3)));
        let r = ActionView::RunTool(cs.last());
        lemma_counts_tool_actions(cs.drop_last());
        lemma_counts_concat(tool_actions(cs.drop_last()), seq![n, r]);
        lemma_counts_one(n);
        lemma_counts_one(r);
        lemma_counts_concat(seq![n], seq![r]);
        assert(seq![n] + seq![r] =~= seq![n, r]);
    }
}

proof fn lemma_counts_one(a: ActionView)
    ensures
        requests(seq![a]) == (if a is Request { 1nat } else { 0nat }),
        finals(seq![a]) == (if a is Done || a is Error { 1nat } else { 0nat }),
{
    let e = Seq::<ActionView>::empty();
    assert(seq![a].drop_last() =~= e);
    assert(seq![a].last() == a);
    assert(requests(e) == 0);
    assert(finals(e) == 0);
}

/// One step asks the model again at most once, and only below the round
/// limit, which moves it to the next round; otherwise the round stays.
/// The step hands on at most one final event or error, and only the step
/// that ends the answer does; once the answer is over, a step does nothing.
pub proof fn law_step_counts(s: StreamView, ev: StreamEvent)
    requires
        1 <= s.round <= MAX_TOOL_ROUNDS,
    ensures
        ({
            let (t, a) = step_spec(s, ev);
            &&& 1 <= t.round <= MAX_TOOL_ROUNDS
            &&& requests(a) == t.round - s.round
            &&& finals(a) <= 1
            &&& finals(a) == 1 ==> s.reply is None && t.reply is Some
            &&& s.reply is Some ==> t == s && a.len() == 0
        }),
{
    if s.reply is None {
        let said = if s.text.len() == 0 {
            None
        } else {
            Some(s.text)
        };
        let asst = ActionView::Assistant(said, s.calls);
        lemma_counts_one(ActionView::Done);
        lemma_counts_one(ActionView::Request);
        lemma_counts_one(asst);
        lemma_counts_one(ActionView::Note(LIMIT_NOTE@));
        lemma_counts_concat(seq![asst], seq![ActionView::Note(LIMIT_NOTE@)]);
        assert(seq![asst] + seq![ActionView::Note(LIMIT_NOTE@)] + seq![ActionView::Done] =~= seq![
            asst,
            ActionView::Note(LIMIT_NOTE@),
            ActionView::Done,
        ]);
        lemma_counts_concat(seq![asst] + seq![ActionView::Note(LIMIT_NOTE@)], seq![ActionView::Done]);
        lemma_counts_tool_actions(s.calls);
        lemma_counts_concat(seq![asst], tool_actions(s.calls));
        lemma_counts_concat(seq![asst] + tool_actions(s.calls), seq![ActionView::Request]);
        match ev {
            StreamEvent::ReadFailed(m) => lemma_counts_one(ActionView::Error(READ_FAILED@ + m@)),
            StreamEvent::RequestFailed(m) => lemma_counts_one(ActionView::Error(m@)),
            StreamEvent::Line(l) => {
                match line_data(l@) {
                    Some(d) => {
                        let dv = stream_delta(d);
                        match dv.error {
                            Some(m) => lemma_counts_one(ActionView::Error(m)),
                            None => {
                                let c = match dv.content {
                                    Some(c) => c,
                                    None => Seq::empty(),
                                };
                                lemma_counts_one(ActionView::Delta(c));
                            },
                        }
                    },
                    None => {},
                }
            },
            _ => {},
        }
    }
}

/// Over any events from a state inside the round limit, the model is asked
/// again once per round begun, at most one final event or error is handed
/// on, and it is handed on only once the answer is over. From the start
/// this means at most `MAX_TOOL_ROUNDS` requests in a turn, the first one
/// included.
pub proof fn law_run_counts(s: StreamView, evs: Seq<StreamEvent>)
    requires
        1 <= s.round <= MAX_TOOL_ROUNDS,
        s.reply is None,
    ensures
        ({
            let (t, a) = run_spec(s, evs);
            &&& 1 <= t.round <= MAX_TOOL_ROUNDS
            &&& requests(a) == t.round - s.round
            &&& 1 + requests(a) <= MAX_TOOL_ROUNDS - s.round + 1
            &&& finals(a) <= 1
            &&& t.reply is None ==> finals(a) == 0
        }),
    decreases evs.len(),
{
    if evs.len() == 0 {
        assert(requests(Seq::<ActionView>::empty()) == 0);
        assert(finals(Seq::<ActionView>::empty()) == 0);
    } else {
        law_run_counts(s, evs.drop_last());
        let (t, a) = run_spec(s, evs.drop_last());
        law_step_counts(t, evs.last());
        let (u, b) = step_spec(t, evs.last());
        lemma_counts_concat(a, b);
    }
}

/// The tool calls that the actions run, in order.
pub open spec fn runs(a: Seq<ActionView>) -> Seq<CallView>
    decreases a.len(),
{
    if a.len() == 0 {
        Seq::empty()
    } else {
        runs(a.drop_last()) + match a.last() {
            ActionView::RunTool(c) => seq![c],
            _ => Seq::empty(),
        }
    }
}

proof fn lemma_runs_concat(a: Seq<ActionView>, b: Seq<ActionView>)
    ensures
        runs(a + b) == runs(a) + runs(b),
    decreases b.len(),
{
    if b.len() == 0 {
        assert(a + b =~= a);
        assert(runs(a) + runs(b) =~= runs(a));
    } else {
        lemma_runs_concat(a, b.drop_last());
        assert((a + b).drop_last() =~= a + b.drop_last());
        assert((a + b).last() == b.last());
        assert(runs(a + b) =~= runs(a) + runs(b));
    }
}

proof fn lemma_runs_one(x: ActionView)
    ensures
        runs(seq![x]) == match x {
            ActionView::RunTool(c) => seq![c],
            _ => Seq::<CallView>::empty(),
        },
{
    assert(seq![x].drop_last() =~= Seq::<ActionView>::empty());
    assert(seq![x].last() == x);
    assert(runs(Seq::<ActionView>::empty()) == Seq::<CallView>::empty());
    match x {
        ActionView::RunTool(c) => assert(Seq::<CallView>::empty() + seq![c] =~= seq![c]),
        _ => assert(Seq::<CallView>::empty() + Seq::<CallView>::empty() =~= Seq::<CallView>::empty()),
    }
}

proof fn lemma_runs_tool_actions(cs: Seq<CallView>)
    ensures
        runs(tool_actions(cs)) == cs,
    decreases cs.len(),
{
    if cs.len() == 0 {
        assert(runs(Seq::<ActionView>::empty()) =~= cs);
    } else {
        let n = ActionView::Note(note_spec(cs.last().2, tool_arguments(cs.last().3)));
        let r = ActionView::RunTool(cs.last());
        lemma_runs_tool_actions(cs.drop_last());
        lemma_runs_concat(tool_actions(cs.drop_last()), seq![n, r]);
        lemma_runs_one(n);
        lemma_runs_one(r);
        lemma_runs_concat(seq![n], seq![r]);
        assert(seq![n] + seq![r] =~= seq![n, r]);
        assert(cs.drop_last() + seq![cs.last()] =~= cs);
    }
}

/// A step runs tools only when a new round begins, with tools at hand and
/// below the round limit; it then runs each call of the round once, in the
/// order of the calls (by index), and no other.
pub proof fn law_step_runs(s: StreamView, ev: StreamEvent)
    ensures
        ({
            let (t, a) = step_spec(s, ev);
            runs(a).len() == 0 || (runs(a) == s.calls && s.tools && s.reply is None && s.round
                < MAX_TOOL_ROUNDS && t.round == s.round + 1)
        }),
{
    let e = Seq::<ActionView>::empty();
    assert(runs(e) == Seq::<CallView>::empty());
    if s.reply is None {
        let said = if s.text.len() == 0 {
            None
        } else {
            Some(s.text)
        };
        let asst = ActionView::Assistant(said, s.calls);
        let note = ActionView::Note(LIMIT_NOTE@);
        lemma_runs_one(ActionView::Done);
        lemma_runs_one(ActionView::Request);
        lemma_runs_one(asst);
        lemma_runs_one(note);
        lemma_runs_concat(seq![asst], seq![note]);
        assert(seq![asst] + seq![note] + seq![ActionView::Done] =~= seq![asst, note, ActionView::Done]);
        lemma_runs_concat(seq![asst] + seq![note], seq![ActionView::Done]);
        lemma_runs_tool_actions(s.calls);
        lemma_runs_concat(seq![asst], tool_actions(s.calls));
        lemma_runs_concat(seq![asst] + tool_actions(s.calls), seq![ActionView::Request]);
        assert(Seq::<CallView>::empty() + s.calls + Seq::<CallView>::empty() =~= s.calls);
        match ev {
            StreamEvent::ReadFailed(m) => lemma_runs_one(ActionView::Error(READ_FAILED@ + m@)),
            StreamEvent::RequestFailed(m) => lemma_runs_one(ActionView::Error(m@)),
            StreamEvent::Line(l) => {
                match line_data(l@) {
                    Some(d) => {
                        let dv = stream_delta(d);
                        match dv.error {
                            Some(m) => lemma_runs_one(ActionView::Error(m)),
                            None => {
                                let c = match dv.content {
                                    Some(c) => c,
                                    None => Seq::empty(),
                                };
                                lemma_runs_one(ActionView::Delta(c));
                            },
                        }
                    },
                    None => {},
                }
            },
            _ => {},
        }
    }
}

/// The state before the first request.
pub fn stream_start(tools: bool) -> (s: StreamState)
    ensures
        s.wf(),
        s@ == (StreamView {
            tools,
            round: 1,
            text: Seq::empty(),
            calls: Seq::empty(),
            last: Seq::empty(),
            reply: None,
        }),
{
    let calls = ToolCalls::new();
    assert(calls.view() =~= Seq::<CallView>::empty());
    StreamState { tools, round: 1, text: String::new(), calls, last: String::new(), reply: None }
}

fn opt_copy(o: &Option<String>) -> (r: Option<String>)
    ensures
        opt_str(r) == opt_str(*o),
{
    match o {
        Some(s) => Some(s.clone()),
        None => None,
    }
}

fn is_empty_text(s: &String) -> (b: bool)
    ensures
        b == (s@.len() == 0),
{
    s.as_str().unicode_len() == 0
}

/// Announces and runs each call, in index order.
fn push_tool_steps(cs: &Vec<ToolCall>, acts: &mut Vec<StreamAction>)
    ensures
        action_views(final(acts)@) == action_views(old(acts)@) + tool_actions(call_views(cs@)),
{
    let ghost a0 = action_views(acts@);
    let ghost cv = call_views(cs@);
    let mut i: usize = 0;
    while i < cs.len()
        invariant
            i <= cs@.len(),
            cv == call_views(cs@),
            action_views(acts@) == a0 + tool_actions(cv.take(i as int)),
        decreases cs@.len() - i,
    {
        let c = &cs[i];
        let note = tool_note(c.name.as_str(), c.arguments.as_str());
        let ghost before = acts@;
        let run = copy_call(c);
        acts.push(StreamAction::Note(note));
        acts.push(StreamAction::RunTool(run));
        proof {
            let t = cv.take(i + 1);
            assert(t.drop_last() =~= cv.take(i as int));
            assert(t.last() == call_view(cs@[i as int]));
            assert(action_views(acts@) =~= action_views(before) + seq![
                ActionView::Note(note_spec(t.last().2, tool_arguments(t.last().3))),
                ActionView::RunTool(t.last()),
            ]);
        }
        i = i + 1;
    }
    assert(cv.take(i as int) =~= cv);
}

fn end_round_exec(s: StreamState, err: Option<String>) -> (r: (StreamState, Vec<StreamAction>))
    requires
        s.wf(),
        s.reply is None,
    ensures
        r.0.wf(),
        (r.0@, action_views(r.1@)) == end_round(s@, opt_str(err)),
{
    let ghost sv = s@;
    let StreamState { tools, round, text, calls, last, reply: _ } = s;
    let mut acts: Vec<StreamAction> = Vec::new();
    match err {
        Some(e) => {
            let st = StreamState { tools, round, text: text.clone(), calls, last, reply: Some(text) };
            acts.push(StreamAction::Error(e));
            assert(action_views(acts@) =~= seq![ActionView::Error(e@)]);
            assert(st@ == end_round(sv, Some(e@)).0);
            (st, acts)
        },
        None => {
            let said = if is_empty_text(&text) {
                None
            } else {
                Some(text.clone())
            };
            match after_round(tools, calls.len(), round) {
                RoundStep::Finish => {
                    let st = StreamState { tools, round, text: text.clone(), calls, last: text.clone(), reply: Some(text) };
                    acts.push(StreamAction::Done);
                    assert(action_views(acts@) =~= seq![ActionView::Done]);
                    assert(st@ == end_round(sv, None).0);
                    (st, acts)
                },
                RoundStep::Limit => {
                    let cs = calls.to_vec();
                    let st = StreamState { tools, round, text: text.clone(), calls, last: text.clone(), reply: Some(text) };
                    acts.push(StreamAction::Assistant(said, cs));
                    acts.push(StreamAction::Note(LIMIT_NOTE.to_owned()));
                    acts.push(StreamAction::Done);
                    assert(action_views(acts@) =~= seq![
                        ActionView::Assistant(opt_str(said), sv.calls),
                        ActionView::Note(LIMIT_NOTE@),
                        ActionView::Done,
                    ]);
                    assert(st@ == end_round(sv, None).0);
                    assert(action_views(acts@) == end_round(sv, None).1);
                    (st, acts)
                },
                RoundStep::RunTools => {
                    let cs = calls.to_vec();
                    acts.push(StreamAction::Assistant(said, calls.to_vec()));
                    assert(action_views(acts@) =~= seq![ActionView::Assistant(opt_str(said), sv.calls)]);
                    push_tool_steps(&cs, &mut acts);
                    let ghost mid = acts@;
                    acts.push(StreamAction::Request);
                    assert(action_views(acts@) =~= action_views(mid) + seq![ActionView::Request]);
                    let fresh = ToolCalls::new();
                    assert(fresh.view() =~= Seq::<CallView>::empty());
                    let st = StreamState { tools, round: round + 1, text: String::new(), calls: fresh, last: text, reply: None };
                    assert(st@ == end_round(sv, None).0);
                    assert(action_views(acts@) == end_round(sv, None).1);
                    (st, acts)
                },
            }
        },
    }
}

/// Takes in the data of one line, as read (see `data_step`).
pub fn apply_delta(s: StreamState, d: Delta) -> (r: (StreamState, Vec<StreamAction>))
    requires
        s.wf(),
        s.reply is None,
    ensures
        r.0.wf(),
        (r.0@, action_views(r.1@)) == data_step(s@, delta_view(d)),
{
    let ghost dv = delta_view(d);
    let mut acts: Vec<StreamAction> = Vec::new();
    if !d.parsed {
        assert(action_views(acts@) =~= Seq::<ActionView>::empty());
        return (s, acts);
    }
    let Delta { parsed: _, error, content, pieces } = d;
    match error {
        Some(e) => end_round_exec(s, Some(e)),
        None => {
            let StreamState { tools, round, mut text, mut calls, last, reply } = s;
            match content {
                Some(c) => {
                    if !is_empty_text(&c) {
                        text.append(c.as_str());
                        acts.push(StreamAction::Delta(c));
                    }
                },
                None => {},
            }
            let ghost c0 = calls.view();
            let ghost pv = dv.pieces;
            let mut i: usize = 0;
            while i < pieces.len()
                invariant
                    i <= pieces@.len(),
                    pv == pieces@.map_values(|p: CallPiece| piece_view(p)),
                    calls.view() == apply_pieces(c0, pv.take(i as int)),
                decreases pieces@.len() - i,
            {
                let p = &pieces[i];
                let index: u64 = match p.index {
                    Some(x) => x,
                    None => 0,
                };
                calls.apply(index, opt_copy(&p.id), opt_copy(&p.name), opt_copy(&p.arguments));
                proof {
                    let t = pv.take(i + 1);
                    assert(t.drop_last() =~= pv.take(i as int));
                    assert(t.last() == piece_view(pieces@[i as int]));
                }
                i = i + 1;
            }
            assert(pv.take(i as int) =~= pv);
            assert(action_views(acts@) =~= (if dv.content.unwrap_or(Seq::empty()).len() > 0 {
                seq![ActionView::Delta(dv.content.unwrap_or(Seq::empty()))]
            } else {
                Seq::empty()
            }));
            (StreamState { tools, round, text, calls, last, reply }, acts)
        },
    }
}

/// One step of the streamed answer (see `step_spec`). The first request
/// is sent at the start; after a step, a `Request` action sends the next,
/// and the body of the current request is read on until the state's reply
/// is set or a request is due.
pub fn stream_step(s: StreamState, ev: StreamEvent) -> (r: (StreamState, Vec<StreamAction>))
    requires
        s.wf(),
    ensures
        r.0.wf(),
        (r.0@, action_views(r.1@)) == step_spec(s@, ev),
{
    let mut acts: Vec<StreamAction> = Vec::new();
    if s.reply.is_some() {
        assert(action_views(acts@) =~= Seq::<ActionView>::empty());
        return (s, acts);
    }
    match ev {
        StreamEvent::Line(l) => match sse_line(l.as_str()) {
            SseLine::Skip => {
                assert(action_views(acts@) =~= Seq::<ActionView>::empty());
                (s, acts)
            },
            SseLine::Done => {
                proof {
                    reveal_strlit("[DONE]");
                }
                end_round_exec(s, None)
            },
            SseLine::Data(d) => apply_delta(s, delta_of(d.as_str())),
        },
        StreamEvent::ReadFailed(e) => {
            let mut m = READ_FAILED.to_owned();
            m.append(e.as_str());
            end_round_exec(s, Some(m))
        },
        StreamEvent::BodyEnd => end_round_exec(s, None),
        StreamEvent::RequestFailed(e) => {
            let StreamState { tools, round, text, calls, last, reply: _ } = s;
            acts.push(StreamAction::Error(e));
            assert(action_views(acts@) =~= seq![ActionView::Error(e@)]);
            (StreamState { tools, round, text, calls, last: last.clone(), reply: Some(last) }, acts)
        },
        StreamEvent::Undelivered => {
            let StreamState { tools, round, text, calls, last, reply: _ } = s;
            assert(action_views(acts@) =~= Seq::<ActionView>::empty());
            (StreamState { tools, round, text: text.clone(), calls, last, reply: Some(text) }, acts)
        },
    }
}

} // verus!
