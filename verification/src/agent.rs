//! The agent loop: reason, call tools, observe, repeat.
//!
//! The loop's decisions live here as a state machine; the caller streams the
//! model, runs the tools and forwards events, handing each result back:
//!   1. `start_turn` — a new model turn, unless the iteration cap is reached;
//!   2. `on_delta` for every streamed text fragment;
//!   3. `end_turn` with the turn's tool calls — it records the assistant
//!      message and decides: finish, retry a reasoning-only turn, give up on
//!      it, or run the tool calls;
//!   4. `plan_call` and `record_result` for each tool call.

use vstd::prelude::*;
use crate::model::{content_text, Content, FunctionCall, Message, Role, ToolCall};
use crate::stream::Usage;
use crate::text::{
    chars_of, concat, decimal, decimal_seq, find_first, find_from_exec, lemma_find_from, occurs_at, owned,
    push_str, string_from_range, trim, trim_seq,
};
use crate::tools::{position, Approval, Tool};

verus! {

/// How many times a turn with no visible answer (reasoning only) is retried.
pub const MAX_EMPTY_ANSWER_RETRIES: usize = 1;

/// The opening think tag.
pub open spec fn think_open() -> Seq<char> {
    seq!['<', 't', 'h', 'i', 'n', 'k', '>']
}

/// The closing think tag.
pub open spec fn think_close() -> Seq<char> {
    seq!['<', '/', 't', 'h', 'i', 'n', 'k', '>']
}

/// The text outside `<think>`…`</think>` blocks; the closing tag is looked
/// for after the opening one, and an unclosed block swallows the rest.
pub open spec fn outside_think(s: Seq<char>) -> Seq<char>
    decreases s.len(),
{
    match find_first(s, think_open()) {
        None => s,
        Some(i) => {
            let after = s.subrange(i + 7, s.len() as int);
            match find_first(after, think_close()) {
                None => s.take(i),
                Some(j) => {
                    proof {
                        crate::text::lemma_find_from(s, think_open(), 0);
                        crate::text::lemma_find_from(after, think_close(), 0);
                    }
                    s.take(i) + outside_think(after.subrange(j + 8, after.len() as int))
                },
            }
        },
    }
}

/// The part of a response the user reads: the text outside think blocks,
/// trimmed.
pub open spec fn visible(s: Seq<char>) -> Seq<char> {
    trim_seq(outside_think(s))
}

/// The part of a streamed response the user actually reads: everything
/// outside `<think>…</think>` blocks, trimmed. An unclosed trailing block
/// swallows the rest.
pub fn visible_answer(text: &str) -> (r: String)
    ensures
        r@ == visible(text@),
{
    let v = chars_of(text);
    let open = vec!['<', 't', 'h', 'i', 'n', 'k', '>'];
    let close = vec!['<', '/', 't', 'h', 'i', 'n', 'k', '>'];
    assert(open@ =~= think_open());
    assert(close@ =~= think_close());
    let n = v.len();
    let mut out = String::new();
    let mut pos: usize = 0;
    assert(v@.subrange(0, n as int) =~= v@);
    loop
        invariant
            n == v@.len(),
            v@ == text@,
            open@ == think_open(),
            close@ == think_close(),
            pos <= n,
            out@ + outside_think(v@.subrange(pos as int, n as int)) == outside_think(v@),
        decreases n - pos,
    {
        let rest = string_from_range(&v, pos, n);
        let rv = chars_of(rest.as_str());
        assert(rv@ == v@.subrange(pos as int, n as int));
        proof {
            lemma_find_from(rv@, open@, 0);
        }
        match find_from_exec(&rv, &open, 0) {
            None => {
                assert(find_first(rv@, think_open()) is None);
                assert(outside_think(rv@) == rv@);
                push_str(&mut out, rest.as_str());
                assert(out@ == outside_think(v@));
                let t = trim(out.as_str());
                return t;
            },
            Some(start) => {
                assert(occurs_at(rv@, open@, start as int));
                let after = string_from_range(&rv, start + 7, rv.len());
                let av = chars_of(after.as_str());
                proof {
                    lemma_find_from(av@, close@, 0);
                }
                let head = string_from_range(&rv, 0, start);
                assert(find_first(rv@, think_open()) == Some(start as int));
                assert(av@ == rv@.subrange(start + 7, rv@.len() as int));
                push_str(&mut out, head.as_str());
                match find_from_exec(&av, &close, 0) {
                    None => {
                        assert(find_first(av@, think_close()) is None);
                        assert(outside_think(rv@) == rv@.take(start as int));
                        assert(head@ =~= rv@.take(start as int));
                        assert(out@ == outside_think(v@));
                        let t = trim(out.as_str());
                        return t;
                    },
                    Some(end) => {
                        assert(occurs_at(av@, close@, end as int));
                        assert(find_first(av@, think_close()) == Some(end as int));
                        assert(head@ =~= rv@.take(start as int));
                        let next = pos + start + 7 + end + 8;
                        assert(av@.subrange(end + 8, av@.len() as int) =~= v@.subrange(next as int, n as int));
                        pos = next;
                    },
                }
            },
        }
    }
}

/// An incrementing counter for confirmation ids.
pub struct Counter {
    pub n: usize,
}

impl Counter {
    /// A counter at zero.
    pub fn new() -> (c: Counter)
        ensures
            c.n == 0,
    {
        Counter { n: 0 }
    }

    /// Advances the counter and returns its new value.
    pub fn next_val(&mut self) -> (r: usize)
        requires
            old(self).n < usize::MAX,
        ensures
            r == old(self).n + 1,
            final(self).n == r,
    {
        self.n += 1;
        self.n
    }
}

/// The corrective message sent after a reasoning-only turn.
pub open spec fn nudge_text() -> Seq<char> {
    "（系统提示：你上一轮只输出了思考过程，没有正式回答。请直接给出正式回答，不要再重复思考。）"@
}

/// The estimated token count of a turn: the provider's completion count
/// when it reported a positive one, else the output characters divided by
/// 1.5 and rounded; at least 1.
pub open spec fn token_estimate(usage: Option<Usage>, chars: nat) -> nat {
    let t = match usage {
        Some(u) => if u.completion_tokens > 0 {
            u.completion_tokens as nat
        } else {
            (2 * chars + 1) / 3
        },
        None => (2 * chars + 1) / 3,
    };
    if t >= 1 {
        t
    } else {
        1
    }
}

/// How a turn ended.
#[derive(Debug)]
pub enum TurnEnd {
    /// The model answered: the turn's token count and generation time.
    Finished { tokens: u64, gen_ms: u64 },
    /// The turn was reasoning only: it was dropped and a nudge added; run
    /// another turn.
    Retry,
    /// The turn was reasoning only and the retries are used up: report an
    /// error, no success.
    NoAnswer,
    /// Run these tool calls, in order.
    RunTools(Vec<ToolCall>),
}

/// What to do with one tool call.
#[derive(Debug)]
pub enum CallPlan {
    /// No tool has that name: report this message (it was also recorded as
    /// the call's result).
    Unknown(String),
    /// Run the tool at this index; when it needs a human's confirmation,
    /// ask with this confirmation id.
    Run { tool: usize, needs_confirm: bool, confirm_id: Option<String> },
}

/// The state of one agent turn loop.
pub struct AgentLoop {
    /// The conversation so far.
    pub messages: Vec<Message>,
    /// The most model turns allowed.
    pub max_iters: usize,
    /// Model turns started so far.
    pub iter: usize,
    /// Reasoning-only turns retried so far.
    pub empty_answer_retries: usize,
    /// Counter for confirmation ids.
    pub confirm_counter: Counter,
    /// Characters streamed over all turns, think blocks included.
    pub total_output_chars: usize,
    /// Text streamed in the current turn.
    pub text: String,
}

/// The confirmation id `c<n>`.
pub open spec fn confirm_id_of(n: nat) -> Seq<char> {
    seq!['c'] + decimal_seq(n)
}

/// The assistant message recorded for a turn: its text (none when empty)
/// and its tool calls (none when there are none).
pub open spec fn assistant_record(m: Message, text: Seq<char>, calls: Seq<ToolCall>) -> bool {
    &&& m.role == Role::Assistant
    &&& m.tool_call_id is None
    &&& (text.len() == 0 ==> m.content is None)
    &&& (text.len() > 0 ==> content_text(m.content) == Some(text))
    &&& (calls.len() == 0 ==> m.tool_calls is None)
    &&& (calls.len() > 0 ==> (m.tool_calls matches Some(cs) && cs@ == calls))
}

/// A copy of a tool call.
pub fn copy_call(c: &ToolCall) -> (r: ToolCall)
    ensures
        r == *c,
{
    ToolCall {
        id: c.id.clone(),
        call_type: c.call_type.clone(),
        function: FunctionCall { name: c.function.name.clone(), arguments: c.function.arguments.clone() },
    }
}

/// A copy of a list of tool calls.
pub fn copy_calls(v: &Vec<ToolCall>) -> (r: Vec<ToolCall>)
    ensures
        r@ == v@,
{
    let mut out: Vec<ToolCall> = Vec::new();
    let mut k: usize = 0;
    while k < v.len()
        invariant
            0 <= k <= v@.len(),
            out@ == v@.take(k as int),
        decreases v@.len() - k,
    {
        out.push(copy_call(&v[k]));
        assert(v@.take(k + 1) =~= v@.take(k as int).push(v@[k as int]));
        k += 1;
    }
    assert(v@.take(v@.len() as int) =~= v@);
    out
}

impl AgentLoop {
    /// The loop's invariant: the counters stay within their bounds.
    pub open spec fn wf(&self) -> bool {
        self.iter <= self.max_iters && self.empty_answer_retries <= MAX_EMPTY_ANSWER_RETRIES
    }

    /// A loop over a conversation, allowing `max_iters` model turns.
    pub fn new(messages: Vec<Message>, max_iters: usize) -> (l: AgentLoop)
        ensures
            l.wf(),
            l.messages@ == messages@,
            l.max_iters == max_iters,
            l.iter == 0,
            l.empty_answer_retries == 0,
            l.confirm_counter.n == 0,
            l.total_output_chars == 0,
            l.text@.len() == 0,
    {
        AgentLoop {
            messages,
            max_iters,
            iter: 0,
            empty_answer_retries: 0,
            confirm_counter: Counter::new(),
            total_output_chars: 0,
            text: String::new(),
        }
    }

    /// Starts a model turn unless the iteration cap is reached.
    pub fn start_turn(&mut self) -> (started: bool)
        requires
            old(self).wf(),
        ensures
            final(self).wf(),
            started == (old(self).iter < old(self).max_iters),
            started ==> final(self).iter == old(self).iter + 1 && final(self).text@.len() == 0,
            !started ==> final(self).iter == old(self).iter && final(self).text == old(self).text,
            final(self).messages == old(self).messages,
            final(self).max_iters == old(self).max_iters,
            final(self).empty_answer_retries == old(self).empty_answer_retries,
            final(self).confirm_counter == old(self).confirm_counter,
            final(self).total_output_chars == old(self).total_output_chars,
    {
        if self.iter < self.max_iters {
            self.iter += 1;
            self.text = String::new();
            true
        } else {
            false
        }
    }

    /// The error reported when the iteration cap is reached.
    pub fn max_iters_message(&self) -> (r: String)
        ensures
            r@ == "reached max iterations ("@ + decimal_seq(self.max_iters as nat) + ")"@,
    {
        let num = decimal(self.max_iters as u64);
        let head = concat("reached max iterations (", num.as_str());
        concat(head.as_str(), ")")
    }

    /// Records a streamed text fragment.
    pub fn on_delta(&mut self, chunk: &str)
        requires
            old(self).total_output_chars + chunk@.len() <= usize::MAX,
        ensures
            final(self).text@ == old(self).text@ + chunk@,
            final(self).total_output_chars == old(self).total_output_chars + chunk@.len(),
            final(self).messages == old(self).messages,
            final(self).max_iters == old(self).max_iters,
            final(self).iter == old(self).iter,
            final(self).empty_answer_retries == old(self).empty_answer_retries,
            final(self).confirm_counter == old(self).confirm_counter,
    {
        let v = chars_of(chunk);
        push_str(&mut self.text, chunk);
        self.total_output_chars = self.total_output_chars + v.len();
    }

    /// Ends a turn with the tool calls it made: records the assistant
    /// message, then finishes (no tool calls and a visible answer), retries
    /// a reasoning-only turn once with a corrective nudge in its place,
    /// gives up on a reasoning-only turn once retries are used up, or hands
    /// the tool calls back to be run.
    pub fn end_turn(&mut self, tool_calls: Vec<ToolCall>, usage: Option<Usage>, gen_ms: u64) -> (r: TurnEnd)
        requires
            old(self).wf(),
        ensures
            final(self).wf(),
            final(self).max_iters == old(self).max_iters,
            final(self).iter == old(self).iter,
            final(self).confirm_counter == old(self).confirm_counter,
            final(self).total_output_chars == old(self).total_output_chars,
            final(self).text@.len() == 0,
            tool_calls@.len() > 0 ==> {
                &&& (r matches TurnEnd::RunTools(cs) && cs@ == tool_calls@)
                &&& final(self).messages@ == old(self).messages@.push(final(self).messages@.last())
                &&& assistant_record(final(self).messages@.last(), old(self).text@, tool_calls@)
                &&& final(self).empty_answer_retries == old(self).empty_answer_retries
            },
            tool_calls@.len() == 0 && visible(old(self).text@).len() == 0 && old(self).empty_answer_retries
                < MAX_EMPTY_ANSWER_RETRIES ==> {
                &&& r is Retry
                &&& final(self).empty_answer_retries == old(self).empty_answer_retries + 1
                &&& final(self).messages@ == old(self).messages@.push(final(self).messages@.last())
                &&& final(self).messages@.last().role == Role::User
                &&& content_text(final(self).messages@.last().content) == Some(nudge_text())
            },
            tool_calls@.len() == 0 && visible(old(self).text@).len() == 0 && old(self).empty_answer_retries
                >= MAX_EMPTY_ANSWER_RETRIES ==> {
                &&& r is NoAnswer
                &&& final(self).messages@ == old(self).messages@.push(final(self).messages@.last())
                &&& assistant_record(final(self).messages@.last(), old(self).text@, tool_calls@)
                &&& final(self).empty_answer_retries == old(self).empty_answer_retries
            },
            tool_calls@.len() == 0 && visible(old(self).text@).len() > 0 ==> {
                &&& (r matches TurnEnd::Finished { tokens, gen_ms: g } && tokens == token_estimate(
                    usage,
                    old(self).total_output_chars as nat,
                ) && g == gen_ms)
                &&& final(self).messages@ == old(self).messages@.push(final(self).messages@.last())
                &&& assistant_record(final(self).messages@.last(), old(self).text@, tool_calls@)
                &&& final(self).empty_answer_retries == old(self).empty_answer_retries
            },
    {
        let answer = visible_answer(self.text.as_str());
        let answer_is_empty = answer.as_str().is_empty();
        let mut text = String::new();
        std::mem::swap(&mut text, &mut self.text);
        let content = if text.as_str().is_empty() {
            None
        } else {
            Some(Content::Text(text))
        };
        let has_calls = tool_calls.len() > 0;
        let recorded_calls = if has_calls {
            Some(copy_calls(&tool_calls))
        } else {
            None
        };
        self.messages.push(
            Message { role: Role::Assistant, content, tool_calls: recorded_calls, tool_call_id: None },
        );
        if has_calls {
            return TurnEnd::RunTools(tool_calls);
        }
        if answer_is_empty && self.empty_answer_retries < MAX_EMPTY_ANSWER_RETRIES {
            self.empty_answer_retries += 1;
            self.messages.pop();
            self.messages.push(
                Message::user(
                    "（系统提示：你上一轮只输出了思考过程，没有正式回答。请直接给出正式回答，不要再重复思考。）",
                ),
            );
            assert(self.messages@.drop_last() =~= old(self).messages@);
            return TurnEnd::Retry;
        }
        if answer_is_empty {
            return TurnEnd::NoAnswer;
        }
        let tokens = self.tokens_for(usage);
        TurnEnd::Finished { tokens, gen_ms }
    }

    /// The token count of the finished turn.
    fn tokens_for(&self, usage: Option<Usage>) -> (t: u64)
        ensures
            t == token_estimate(usage, self.total_output_chars as nat),
    {
        let estimate: u64 = ((2 * (self.total_output_chars as u128) + 1) / 3) as u64;
        assert(estimate == (2 * (self.total_output_chars as nat) + 1) / 3) by (nonlinear_arith)
            requires
                estimate == ((2 * (self.total_output_chars as u128) + 1) / 3) as u64,
                (2 * (self.total_output_chars as u128) + 1) / 3 <= u64::MAX,
        ;
        let t = match usage {
            Some(u) => if u.completion_tokens > 0 {
                u.completion_tokens
            } else {
                estimate
            },
            None => estimate,
        };
        if t >= 1 {
            t
        } else {
            1
        }
    }

    /// Plans one tool call: an unknown tool is answered with an error
    /// message recorded as its result; a known one runs, asking for
    /// confirmation (with a fresh id `c<n>`) when the tool needs it and a
    /// confirmer is present.
    pub fn plan_call(&mut self, call: &ToolCall, tools: &Vec<Tool>, has_confirm: bool) -> (r: CallPlan)
        requires
            old(self).confirm_counter.n < usize::MAX,
        ensures
            final(self).max_iters == old(self).max_iters,
            final(self).iter == old(self).iter,
            final(self).empty_answer_retries == old(self).empty_answer_retries,
            final(self).total_output_chars == old(self).total_output_chars,
            final(self).text == old(self).text,
            match r {
                CallPlan::Unknown(msg) => {
                    &&& msg@ == "unknown tool: "@ + call.function.name@
                    &&& forall|k: int| 0 <= k < tools@.len() ==> (#[trigger] tools@[k]).name@ != call.function.name@
                    &&& final(self).messages@ == old(self).messages@.push(final(self).messages@.last())
                    &&& final(self).messages@.last().role == Role::Tool
                    &&& content_text(final(self).messages@.last().content) == Some(msg@)
                    &&& final(self).messages@.last().tool_call_id matches Some(id) && id@ == call.id@
                    &&& final(self).messages@.last().tool_calls is None
                    &&& final(self).confirm_counter == old(self).confirm_counter
                },
                CallPlan::Run { tool, needs_confirm, confirm_id } => {
                    &&& tool < tools@.len()
                    &&& tools@[tool as int].name@ == call.function.name@
                    &&& forall|k: int| 0 <= k < tool ==> (#[trigger] tools@[k]).name@ != call.function.name@
                    &&& needs_confirm == (tools@[tool as int].approval == Approval::Confirm && has_confirm)
                    &&& final(self).messages == old(self).messages
                    &&& needs_confirm ==> final(self).confirm_counter.n == old(self).confirm_counter.n + 1
                    &&& needs_confirm ==> (confirm_id matches Some(id) && id@ == confirm_id_of(
                        final(self).confirm_counter.n as nat,
                    ))
                    &&& !needs_confirm ==> confirm_id is None
                    &&& !needs_confirm ==> final(self).confirm_counter == old(self).confirm_counter
                },
            },
    {
        match position(tools, call.function.name.as_str()) {
            None => {
                let msg = concat("unknown tool: ", call.function.name.as_str());
                self.messages.push(Message::tool_result(call.id.as_str(), msg.as_str()));
                assert(self.messages@.drop_last() =~= old(self).messages@);
                CallPlan::Unknown(msg)
            },
            Some(k) => {
                let needs_confirm = tools[k].approval == Approval::Confirm && has_confirm;
                let confirm_id = if needs_confirm {
                    let n = self.confirm_counter.next_val();
                    let num = decimal(n as u64);
                    Some(concat("c", num.as_str()))
                } else {
                    None
                };
                proof {
                    reveal_strlit("c");
                }
                CallPlan::Run { tool: k, needs_confirm, confirm_id }
            },
        }
    }

    /// Records a tool's result as the answer to its call.
    pub fn record_result(&mut self, call_id: &str, summary: &str)
        ensures
            final(self).messages@.len() == old(self).messages@.len() + 1,
            final(self).messages@.drop_last() == old(self).messages@,
            final(self).messages@.last().role == Role::Tool,
            content_text(final(self).messages@.last().content) == Some(summary@),
            final(self).messages@.last().tool_call_id matches Some(id) && id@ == call_id@,
            final(self).max_iters == old(self).max_iters,
            final(self).iter == old(self).iter,
            final(self).empty_answer_retries == old(self).empty_answer_retries,
            final(self).confirm_counter == old(self).confirm_counter,
            final(self).total_output_chars == old(self).total_output_chars,
            final(self).text == old(self).text,
    {
        self.messages.push(Message::tool_result(call_id, summary));
        assert(self.messages@.drop_last() =~= old(self).messages@);
    }
}

// ---------------------------------------------------------------------------
// Laws
// ---------------------------------------------------------------------------

/// Confirmation ids issued at different counter values differ: ids are
/// never reused within a loop.
pub proof fn lemma_confirm_ids_distinct(a: nat, b: nat)
    requires
        a != b,
    ensures
        confirm_id_of(a) != confirm_id_of(b),
{
    lemma_decimal_injective(a, b);
    if confirm_id_of(a) == confirm_id_of(b) {
        assert(confirm_id_of(a).drop_first() =~= decimal_seq(a));
        assert(confirm_id_of(b).drop_first() =~= decimal_seq(b));
    }
}

/// Different numbers have different decimal representations.
pub proof fn lemma_decimal_injective(a: nat, b: nat)
    requires
        a != b,
    ensures
        decimal_seq(a) != decimal_seq(b),
    decreases a + b,
{
    if decimal_seq(a) == decimal_seq(b) {
        let da = decimal_seq(a);
        if a < 10 && b < 10 {
            assert(da[0] == decimal_seq(b)[0]);
        } else if a < 10 {
            lemma_decimal_len(b / 10);
            assert(decimal_seq(b).len() >= 2);
        } else if b < 10 {
            lemma_decimal_len(a / 10);
            assert(decimal_seq(a).len() >= 2);
        } else {
            assert(decimal_seq(a).last() == decimal_seq(b).last());
            assert(decimal_seq(a).drop_last() =~= decimal_seq(a / 10));
            assert(decimal_seq(b).drop_last() =~= decimal_seq(b / 10));
            if a / 10 == b / 10 {
                assert(a % 10 != b % 10);
                assert(((('0' as u32) + a % 10) as char) != ((('0' as u32) + b % 10) as char));
            } else {
                lemma_decimal_injective(a / 10, b / 10);
            }
        }
    }
}

/// A decimal representation has at least one digit.
pub proof fn lemma_decimal_len(n: nat)
    ensures
        decimal_seq(n).len() >= 1,
    decreases n,
{
    if n >= 10 {
        lemma_decimal_len(n / 10);
    }
}

/// A conversation of visible text is its own answer, trimmed: text with no
/// `<think>` tag is shown as it is, without surrounding white space.
pub proof fn lemma_no_think_is_visible(s: Seq<char>)
    requires
        find_first(s, think_open()) is None,
    ensures
        visible(s) == trim_seq(s),
{
}

} // verus!
