//! Decoding a streamed completion into events.
//!
//! Two wire formats are decoded: the OpenAI-compatible server-sent events
//! (`data: {...}` frames separated by blank lines, ended by `data: [DONE]`)
//! and Ollama's native newline-delimited JSON. Decoding a frame's JSON is
//! left to the caller, which hands the decoded chunk back. Reasoning text is
//! wrapped in `<think>`…`</think>` so every consumer sees one shape, and
//! tool-call fragments are accumulated by index into complete calls.
//!
//! Each decoder is driven by `poll`: it hands out the queued events in
//! order, asks for the next frame or line to be fed back, or for more
//! bytes. A decoder is well formed when a `Done` can only stand last in its
//! queue; every step keeps it so, and the steps that queue events run only
//! on an empty queue of an unfinished decoder. So once `Done` is delivered
//! the decoder is finished with nothing queued, and every later poll reports
//! `Finished`, whatever bytes still arrive.

use vstd::prelude::*;
use crate::model::{FunctionCall, ToolCall};
use crate::text::{
    chars_of, concat, decimal, decimal_seq, decode_utf8, find_from, find_from_exec, has_prefix,
    lemma_find_from, owned, push_str, split_char, split_chars, string_from_range, string_views, trim,
    trim_seq, utf8_decode, views,
};

verus! {

/// Real token usage reported by the provider.
#[derive(Debug, Clone, Copy, PartialEq, Eq, Structural)]
pub struct Usage {
    pub prompt_tokens: u64,
    pub completion_tokens: u64,
}

/// What the model emits during a streamed completion.
#[derive(Debug)]
pub enum StreamEvent {
    /// A chunk of assistant text.
    Delta(String),
    /// The model finished, with the tool calls it made and its usage.
    Done { tool_calls: Vec<ToolCall>, usage: Option<Usage> },
}

/// A tool call as character sequences.
pub struct CallView {
    pub id: Seq<char>,
    pub call_type: Seq<char>,
    pub name: Seq<char>,
    pub arguments: Seq<char>,
}

/// An event as character sequences.
pub enum EventView {
    Delta(Seq<char>),
    Done(Seq<CallView>, Option<Usage>),
}

/// The view of a tool call.
pub open spec fn call_view(c: ToolCall) -> CallView {
    CallView { id: c.id@, call_type: c.call_type@, name: c.function.name@, arguments: c.function.arguments@ }
}

/// The views of tool calls.
pub open spec fn call_views(cs: Seq<ToolCall>) -> Seq<CallView> {
    cs.map_values(|c: ToolCall| call_view(c))
}

/// The view of an event.
pub open spec fn event_view(e: StreamEvent) -> EventView {
    match e {
        StreamEvent::Delta(s) => EventView::Delta(s@),
        StreamEvent::Done { tool_calls, usage } => EventView::Done(call_views(tool_calls@), usage),
    }
}

/// The views of events.
pub open spec fn event_views(es: Seq<StreamEvent>) -> Seq<EventView> {
    es.map_values(|e: StreamEvent| event_view(e))
}

/// The events that wrap a reasoning fragment and a content fragment: the
/// reasoning opens a `<think>` block if none is open, content closes it.
/// Returns the events and whether a block is open afterwards.
pub open spec fn wrap_events(open: bool, reasoning: Option<Seq<char>>, content: Option<Seq<char>>) -> (
    Seq<EventView>,
    bool,
) {
    let (e1, o1) = match reasoning {
        Some(r) => if r.len() > 0 {
            (
                if open {
                    seq![EventView::Delta(r)]
                } else {
                    seq![EventView::Delta("<think>"@), EventView::Delta(r)]
                },
                true,
            )
        } else {
            (Seq::empty(), open)
        },
        None => (Seq::empty(), open),
    };
    match content {
        Some(t) => if t.len() > 0 {
            (
                if o1 {
                    e1 + seq![EventView::Delta("</think>"@), EventView::Delta(t)]
                } else {
                    e1 + seq![EventView::Delta(t)]
                },
                false,
            )
        } else {
            (e1, o1)
        },
        None => (e1, o1),
    }
}

/// No event of `es` is a `Done`.
pub open spec fn no_done(es: Seq<EventView>) -> bool {
    forall|i: int| 0 <= i < es.len() ==> !(#[trigger] es[i] is Done)
}

/// A `Done` in `es` can only be its last event.
pub open spec fn done_last(es: Seq<EventView>) -> bool {
    forall|i: int| 0 <= i < es.len() - 1 ==> !(#[trigger] es[i] is Done)
}

/// The events that end a stream: the closing `</think>` when a block is
/// open, then the terminal `Done`.
pub open spec fn done_events(open: bool, calls: Seq<CallView>, usage: Option<Usage>) -> Seq<EventView> {
    if open {
        seq![EventView::Delta("</think>"@), EventView::Done(calls, usage)]
    } else {
        seq![EventView::Done(calls, usage)]
    }
}

/// Wrapping fragments only ever yields text events.
pub proof fn lemma_wrap_no_done(open: bool, reasoning: Option<Seq<char>>, content: Option<Seq<char>>)
    ensures
        no_done(wrap_events(open, reasoning, content).0),
{
}

/// Text events followed by the end of a stream keep `Done` last.
pub proof fn lemma_done_last_after_text(text: Seq<EventView>, open: bool, calls: Seq<CallView>, usage: Option<Usage>)
    requires
        no_done(text),
    ensures
        done_last(text + done_events(open, calls, usage)),
{
    let es = text + done_events(open, calls, usage);
    assert forall|i: int| 0 <= i < es.len() - 1 implies !(#[trigger] es[i] is Done) by {
        if i < text.len() {
            assert(es[i] == text[i]);
        }
    }
}

/// Taking the first event keeps `Done` last; when it is a `Done`, nothing
/// is left.
pub proof fn lemma_done_last_pop(es: Seq<EventView>)
    requires
        done_last(es),
        es.len() > 0,
    ensures
        done_last(es.drop_first()),
        es[0] is Done ==> es.len() == 1,
{
    assert forall|i: int| 0 <= i < es.drop_first().len() - 1 implies !(#[trigger] es.drop_first()[i] is Done) by {
        assert(es.drop_first()[i] == es[i + 1]);
    }
}

/// The view of an optional string.
pub open spec fn ostr(o: Option<String>) -> Option<Seq<char>> {
    match o {
        Some(s) => Some(s@),
        None => None,
    }
}

/// A queue of pending events and the open-think flag, shared by both
/// decoders.
pub struct EventQueue {
    pub pending: Vec<StreamEvent>,
    pub in_reasoning: bool,
}

impl EventQueue {
    /// An empty queue with no open think block.
    pub fn new() -> (q: EventQueue)
        ensures
            q.pending@.len() == 0,
            !q.in_reasoning,
    {
        EventQueue { pending: Vec::new(), in_reasoning: false }
    }

    /// Queues the events of a reasoning and a content fragment.
    pub fn wrap(&mut self, reasoning: Option<String>, content: Option<String>)
        ensures
            event_views(final(self).pending@) == event_views(old(self).pending@) + wrap_events(
                old(self).in_reasoning,
                ostr(reasoning),
                ostr(content),
            ).0,
            final(self).in_reasoning == wrap_events(old(self).in_reasoning, ostr(reasoning), ostr(content)).1,
    {
        let ghost p0 = event_views(self.pending@);
        match reasoning {
            Some(r) => {
                if !r.as_str().is_empty() {
                    if !self.in_reasoning {
                        self.pending.push(StreamEvent::Delta(owned("<think>")));
                        self.in_reasoning = true;
                    }
                    self.pending.push(StreamEvent::Delta(r));
                }
            },
            None => {},
        }
        let ghost p1 = event_views(self.pending@);
        assert(p1 == p0 + wrap_events(old(self).in_reasoning, ostr(reasoning), None).0);
        match content {
            Some(t) => {
                if !t.as_str().is_empty() {
                    if self.in_reasoning {
                        self.pending.push(StreamEvent::Delta(owned("</think>")));
                        self.in_reasoning = false;
                    }
                    self.pending.push(StreamEvent::Delta(t));
                }
            },
            None => {},
        }
        assert(event_views(self.pending@) =~= event_views(old(self).pending@) + wrap_events(
            old(self).in_reasoning,
            ostr(reasoning),
            ostr(content),
        ).0);
    }

    /// Closes any open think block and queues the terminal `Done`.
    pub fn queue_done(&mut self, calls: Vec<ToolCall>, usage: Option<Usage>)
        ensures
            event_views(final(self).pending@) == event_views(old(self).pending@) + (if old(self).in_reasoning {
                seq![EventView::Delta("</think>"@), EventView::Done(call_views(calls@), usage)]
            } else {
                seq![EventView::Done(call_views(calls@), usage)]
            }),
            !final(self).in_reasoning,
    {
        if self.in_reasoning {
            self.pending.push(StreamEvent::Delta(owned("</think>")));
            self.in_reasoning = false;
        }
        self.pending.push(StreamEvent::Done { tool_calls: calls, usage });
        assert(event_views(self.pending@) =~= event_views(old(self).pending@) + (if old(self).in_reasoning {
            seq![EventView::Delta("</think>"@), EventView::Done(call_views(calls@), usage)]
        } else {
            seq![EventView::Done(call_views(calls@), usage)]
        }));
    }

    /// Takes the next queued event, if any.
    pub fn pop(&mut self) -> (r: Option<StreamEvent>)
        ensures
            old(self).pending@.len() == 0 ==> r is None && *final(self) == *old(self),
            old(self).pending@.len() > 0 ==> r == Some(old(self).pending@[0]) && final(self).pending@ == old(
                self,
            ).pending@.drop_first(),
            final(self).in_reasoning == old(self).in_reasoning,
    {
        if self.pending.len() == 0 {
            None
        } else {
            let e = self.pending.remove(0);
            assert(self.pending@ =~= old(self).pending@.drop_first());
            Some(e)
        }
    }
}

/// Whether `<think>` blocks opened by a sequence of deltas are all closed,
/// starting from `open`: the flag after the sequence.
pub open spec fn open_after(open: bool, es: Seq<EventView>) -> bool
    decreases es.len(),
{
    if es.len() == 0 {
        open
    } else {
        let o = open_after(open, es.drop_last());
        match es.last() {
            EventView::Delta(t) => if t == "<think>"@ {
                true
            } else if t == "</think>"@ {
                false
            } else {
                o
            },
            EventView::Done(_, _) => o,
        }
    }
}

/// The wrapping keeps its flag in step with the markers it emits: a
/// `<think>` is emitted only when no block is open, a `</think>` only when
/// one is, and the flag afterwards is what the markers leave open. (Texts
/// equal to a marker are excluded.)
pub proof fn lemma_wrap_tracks_markers(open: bool, reasoning: Option<Seq<char>>, content: Option<Seq<char>>)
    requires
        reasoning matches Some(r) ==> r != "<think>"@ && r != "</think>"@,
        content matches Some(t) ==> t != "<think>"@ && t != "</think>"@,
    ensures
        open_after(open, wrap_events(open, reasoning, content).0) == wrap_events(open, reasoning, content).1,
{
    let (e, o) = wrap_events(open, reasoning, content);
    reveal_with_fuel(open_after, 5);
    if e.len() > 0 {
        assert(e.len() <= 4);
    }
    reveal_strlit("<think>");
    reveal_strlit("</think>");
    assert("<think>"@ != "</think>"@) by {
        assert("<think>"@.len() != "</think>"@.len());
    }
    let e1 = match reasoning {
        Some(r) => if r.len() > 0 {
            if open {
                seq![EventView::Delta(r)]
            } else {
                seq![EventView::Delta("<think>"@), EventView::Delta(r)]
            }
        } else {
            Seq::empty()
        },
        None => Seq::empty(),
    };
    let o1 = match reasoning {
        Some(r) => if r.len() > 0 { true } else { open },
        None => open,
    };
    assert(open_after(open, e1) == o1) by {
        if e1.len() == 2 {
            assert(e1.drop_last() =~= seq![EventView::Delta("<think>"@)]);
            assert(seq![EventView::Delta("<think>"@)].drop_last() =~= Seq::<EventView>::empty());
        } else if e1.len() == 1 {
            assert(e1.drop_last() =~= Seq::<EventView>::empty());
        }
    }
    match content {
        Some(t) => if t.len() > 0 {
            if o1 {
                let full = e1 + seq![EventView::Delta("</think>"@), EventView::Delta(t)];
                assert(full.drop_last() =~= e1 + seq![EventView::Delta("</think>"@)]);
                assert((e1 + seq![EventView::Delta("</think>"@)]).drop_last() =~= e1);
            } else {
                let full = e1 + seq![EventView::Delta(t)];
                assert(full.drop_last() =~= e1);
            }
        },
        None => {},
    }
}

/// The events of a whole stream of (reasoning, content) fragments, starting
/// with no block open, and whether a block is open at its end.
pub open spec fn stream_events(frags: Seq<(Option<Seq<char>>, Option<Seq<char>>)>) -> (Seq<EventView>, bool)
    decreases frags.len(),
{
    if frags.len() == 0 {
        (Seq::empty(), false)
    } else {
        let (e, o) = stream_events(frags.drop_last());
        let (e2, o2) = wrap_events(o, frags.last().0, frags.last().1);
        (e + e2, o2)
    }
}

/// The terminal events the decoders queue: a closing `</think>` when a
/// block is open, then `Done`.
pub open spec fn closing_events(open: bool, calls: Seq<CallView>, usage: Option<Usage>) -> Seq<EventView> {
    if open {
        seq![EventView::Delta("</think>"@), EventView::Done(calls, usage)]
    } else {
        seq![EventView::Done(calls, usage)]
    }
}

/// No fragment's text is a think marker itself.
pub open spec fn plain_fragments(frags: Seq<(Option<Seq<char>>, Option<Seq<char>>)>) -> bool {
    forall|k: int|
        0 <= k < frags.len() ==> ((#[trigger] frags[k]).0 matches Some(r) ==> r != "<think>"@ && r != "</think>"@)
            && (frags[k].1 matches Some(t) ==> t != "<think>"@ && t != "</think>"@)
}

proof fn lemma_open_after_concat(open: bool, a: Seq<EventView>, b: Seq<EventView>)
    ensures
        open_after(open, a + b) == open_after(open_after(open, a), b),
    decreases b.len(),
{
    if b.len() == 0 {
        assert(a + b =~= a);
    } else {
        lemma_open_after_concat(open, a, b.drop_last());
        assert((a + b).drop_last() =~= a + b.drop_last());
        assert((a + b).last() == b.last());
    }
}

/// Think blocks stay balanced over a whole stream: whatever reasoning and
/// content fragments arrive, the flag the decoder keeps is the block the
/// emitted markers leave open, and once the terminal events are queued no
/// block is left open.
pub proof fn lemma_stream_balanced(
    frags: Seq<(Option<Seq<char>>, Option<Seq<char>>)>,
    calls: Seq<CallView>,
    usage: Option<Usage>,
)
    requires
        plain_fragments(frags),
    ensures
        open_after(false, stream_events(frags).0) == stream_events(frags).1,
        !open_after(false, stream_events(frags).0 + closing_events(stream_events(frags).1, calls, usage)),
    decreases frags.len(),
{
    let (e, o) = stream_events(frags);
    if frags.len() > 0 {
        let f = frags.drop_last();
        assert(plain_fragments(f)) by {
            assert forall|k: int| 0 <= k < f.len() implies ((#[trigger] f[k]).0 matches Some(r) ==> r != "<think>"@
                && r != "</think>"@) && (f[k].1 matches Some(t) ==> t != "<think>"@ && t != "</think>"@) by {
                assert(f[k] == frags[k]);
            }
        }
        lemma_stream_balanced(f, calls, usage);
        let (e0, o0) = stream_events(f);
        let last = frags.last();
        assert(last == frags[frags.len() - 1]);
        lemma_wrap_tracks_markers(o0, last.0, last.1);
        lemma_open_after_concat(false, e0, wrap_events(o0, last.0, last.1).0);
    }
    let c = closing_events(o, calls, usage);
    lemma_open_after_concat(false, e, c);
    reveal_with_fuel(open_after, 3);
    reveal_strlit("<think>");
    reveal_strlit("</think>");
    assert("</think>"@ != "<think>"@) by {
        assert("</think>"@[1] != "<think>"@[1]);
    }
    if o {
        assert(c.drop_last() =~= seq![EventView::Delta("</think>"@)]);
        assert(seq![EventView::Delta("</think>"@)].drop_last() =~= Seq::<EventView>::empty());
    } else {
        assert(c.drop_last() =~= Seq::<EventView>::empty());
    }
}

// ---------------------------------------------------------------------------
// Tool-call accumulation
// ---------------------------------------------------------------------------

/// A tool call being assembled from fragments.
#[derive(Debug)]
pub struct ToolCallAccum {
    pub id: String,
    pub name: String,
    pub arguments: String,
}

/// The view of an accumulator: the call of type `function` it becomes.
pub open spec fn accum_view(a: ToolCallAccum) -> CallView {
    CallView { id: a.id@, call_type: "function"@, name: a.name@, arguments: a.arguments@ }
}

/// The views of accumulators.
pub open spec fn accum_views(v: Seq<ToolCallAccum>) -> Seq<CallView> {
    v.map_values(|a: ToolCallAccum| accum_view(a))
}

impl ToolCallAccum {
    /// Converts accumulators into complete tool calls of type `function`.
    pub fn finish_all(v: Vec<ToolCallAccum>) -> (r: Vec<ToolCall>)
        ensures
            call_views(r@) == accum_views(v@),
            forall|k: int| 0 <= k < r@.len() ==> (#[trigger] r@[k]).call_type@ == "function"@,
    {
        let ghost orig = v@;
        let mut src = v;
        let mut out: Vec<ToolCall> = Vec::new();
        let mut k: usize = 0;
        let n = src.len();
        assert(orig.subrange(0, orig.len() as int) =~= orig);
        while src.len() > 0
            invariant
                n == orig.len(),
                k + src@.len() == orig.len(),
                src@ == orig.subrange(k as int, orig.len() as int),
                call_views(out@) == accum_views(orig.take(k as int)),
                forall|j: int| 0 <= j < out@.len() ==> (#[trigger] out@[j]).call_type@ == "function"@,
            decreases src@.len(),
        {
            let a = src.remove(0);
            let ghost before = call_views(out@);
            out.push(ToolCall {
                id: a.id,
                call_type: owned("function"),
                function: FunctionCall { name: a.name, arguments: a.arguments },
            });
            assert(accum_views(orig.take(k + 1)) =~= accum_views(orig.take(k as int)).push(accum_view(orig[k as int])));
            assert(call_views(out@) =~= before.push(call_view(out@.last())));
            k += 1;
            assert(orig.subrange(k as int, orig.len() as int) =~= src@);
        }
        assert(orig.take(k as int) =~= orig);
        out
    }
}

/// One fragment of a tool call, as decoded from a chunk.
#[derive(Debug, Clone)]
pub struct DeltaToolCall {
    pub index: usize,
    pub id: Option<String>,
    pub name: Option<String>,
    pub arguments: Option<String>,
}

/// The empty call.
pub open spec fn empty_call() -> CallView {
    CallView { id: Seq::empty(), call_type: "function"@, name: Seq::empty(), arguments: Seq::empty() }
}

/// `accs` extended with empty calls to at least `n` entries.
pub open spec fn padded(accs: Seq<CallView>, n: nat) -> Seq<CallView> {
    if accs.len() >= n {
        accs
    } else {
        accs + Seq::new((n - accs.len()) as nat, |i: int| empty_call())
    }
}

/// One fragment applied: the id and name are replaced when present, the
/// argument text is appended.
pub open spec fn apply_fragment(accs: Seq<CallView>, d: DeltaToolCall) -> Seq<CallView> {
    let p = padded(accs, (d.index + 1) as nat);
    let a = p[d.index as int];
    p.update(
        d.index as int,
        CallView {
            id: match d.id {
                Some(i) => i@,
                None => a.id,
            },
            call_type: a.call_type,
            name: match d.name {
                Some(nm) => nm@,
                None => a.name,
            },
            arguments: match d.arguments {
                Some(x) => a.arguments + x@,
                None => a.arguments,
            },
        },
    )
}

/// A fragment only changes the call at its own index: the calls grow to
/// cover that index (new ones empty), every other call is left as it was,
/// and the call at the index takes the fragment's id and name when it has
/// them and appends its argument text.
pub proof fn lemma_fragment_at_its_index(accs: Seq<CallView>, d: DeltaToolCall)
    ensures
        ({
            let r = apply_fragment(accs, d);
            let i = d.index as int;
            let before = if i < accs.len() {
                accs[i]
            } else {
                CallView { id: Seq::empty(), call_type: "function"@, name: Seq::empty(), arguments: Seq::empty() }
            };
            &&& r.len() == (if i < accs.len() { accs.len() as int } else { i + 1 })
            &&& forall|j: int| 0 <= j < accs.len() && j != i ==> r[j] == accs[j]
            &&& forall|j: int|
                accs.len() <= j < r.len() && j != i ==> r[j].id.len() == 0 && r[j].name.len() == 0
                    && r[j].arguments.len() == 0
            &&& r[i].id == (match d.id {
                Some(x) => x@,
                None => before.id,
            })
            &&& r[i].name == (match d.name {
                Some(x) => x@,
                None => before.name,
            })
            &&& r[i].arguments == before.arguments + (match d.arguments {
                Some(x) => x@,
                None => Seq::empty(),
            })
            &&& r[i].call_type == before.call_type
        }),
{
    let i = d.index as int;
    let p = padded(accs, (d.index + 1) as nat);
    if accs.len() <= i {
        assert(p[i] == empty_call());
    }
    match d.arguments {
        Some(x) => {},
        None => {
            assert(p[i].arguments + Seq::<char>::empty() =~= p[i].arguments);
        },
    }
}

/// Fragments applied in order.
pub open spec fn apply_fragments(accs: Seq<CallView>, ds: Seq<DeltaToolCall>) -> Seq<CallView>
    decreases ds.len(),
{
    if ds.len() == 0 {
        accs
    } else {
        apply_fragment(apply_fragments(accs, ds.drop_last()), ds.last())
    }
}

/// Applies one tool-call fragment to the accumulators.
fn accumulate(accs: &mut Vec<ToolCallAccum>, d: DeltaToolCall)
    requires
        d.index < usize::MAX,
    ensures
        accum_views(final(accs)@) == apply_fragment(accum_views(old(accs)@), d),
{
    let ghost a0 = accum_views(accs@);
    if accs.len() <= d.index {
        while accs.len() <= d.index
            invariant
                d.index < usize::MAX,
                a0.len() <= accs@.len() <= d.index + 1,
                accum_views(accs@) == a0 + Seq::new((accs@.len() - a0.len()) as nat, |i: int| empty_call()),
            decreases d.index + 1 - accs@.len(),
        {
            let ghost before = accum_views(accs@);
            accs.push(ToolCallAccum { id: String::new(), name: String::new(), arguments: String::new() });
            assert(accum_views(accs@) =~= before.push(empty_call()));
            assert(accum_views(accs@) =~= a0 + Seq::new((accs@.len() - a0.len()) as nat, |i: int| empty_call()));
        }
        assert(accum_views(accs@) =~= padded(a0, (d.index + 1) as nat));
    } else {
        assert(accum_views(accs@) =~= padded(a0, (d.index + 1) as nat));
    }
    let i = d.index;
    let mut a = accs.remove(i);
    if let Some(id) = d.id {
        a.id = id;
    }
    if let Some(name) = d.name {
        a.name = name;
    }
    if let Some(args) = d.arguments {
        push_str(&mut a.arguments, args.as_str());
    }
    accs.insert(i, a);
    assert(accum_views(accs@) =~= apply_fragment(a0, d));
}

// ---------------------------------------------------------------------------
// Server-sent events
// ---------------------------------------------------------------------------

/// The delta of the first choice of a decoded `/v1` chunk.
#[derive(Debug, Clone)]
pub struct ChunkDelta {
    pub content: Option<String>,
    pub reasoning_content: Option<String>,
    pub reasoning: Option<String>,
    pub tool_calls: Vec<DeltaToolCall>,
}

/// A decoded `/v1` streaming chunk: its first choice's delta (none when the
/// choices are empty) and the usage it carries.
#[derive(Debug, Clone)]
pub struct Chunk {
    pub delta: Option<ChunkDelta>,
    pub usage: Option<Usage>,
}

/// What a frame holds.
#[derive(Debug, Clone, PartialEq, Eq)]
pub enum FrameData {
    /// No `data:` line: ignored.
    Empty,
    /// The `[DONE]` marker.
    Done,
    /// The JSON text of the `data:` lines, joined by newlines.
    Json(String),
}

/// The lines of a text as `str::lines` yields them: split at `\n`, one
/// trailing `\r` removed from each line that a `\n` ended, and no empty
/// last line.
pub open spec fn lines_of(s: Seq<char>) -> Seq<Seq<char>> {
    let pieces = split_char(s, '\n');
    let ended = pieces.drop_last().map_values(|p: Seq<char>| strip_cr(p));
    if pieces.last().len() == 0 {
        ended
    } else {
        ended.push(pieces.last())
    }
}

/// A line without one trailing `\r`.
pub open spec fn strip_cr(p: Seq<char>) -> Seq<char> {
    if p.len() > 0 && p.last() == '\r' {
        p.drop_last()
    } else {
        p
    }
}

/// The lines of a string (`str::lines`).
pub fn lines(s: &str) -> (r: Vec<String>)
    ensures
        string_views(r@) == lines_of(s@),
{
    let v = chars_of(s);
    let pieces = split_chars(&v, '\n');
    proof {
        crate::text::lemma_split_nonempty(v@, '\n');
    }
    let n = pieces.len();
    let mut out: Vec<String> = Vec::new();
    let mut k: usize = 0;
    while k + 1 < n
        invariant
            n == pieces@.len(),
            n >= 1,
            views(pieces@) == split_char(v@, '\n'),
            0 <= k <= n - 1,
            string_views(out@) == views(pieces@).take(k as int).map_values(|p: Seq<char>| strip_cr(p)),
        decreases n - k,
    {
        let p = &pieces[k];
        let m = p.len();
        let line = if m > 0 && p[m - 1] == '\r' {
            string_from_range(p, 0, m - 1)
        } else {
            string_from_range(p, 0, m)
        };
        assert(p@.subrange(0, m as int) =~= p@);
        assert(p@.drop_last() =~= p@.subrange(0, m - 1));
        let ghost before = string_views(out@);
        out.push(line);
        assert(views(pieces@).take(k + 1).map_values(|p: Seq<char>| strip_cr(p)) =~= before.push(strip_cr(pieces@[k as int]@)));
        assert(string_views(out@) =~= before.push(line@));
        k += 1;
    }
    assert(views(pieces@).take(k as int) =~= views(pieces@).drop_last());
    let last = &pieces[n - 1];
    if last.len() > 0 {
        let ghost before = string_views(out@);
        out.push(string_from_range(last, 0, last.len()));
        assert(last@.subrange(0, last@.len() as int) =~= last@);
        assert(string_views(out@) =~= before.push(last@));
    }
    out
}

/// The `data:` payloads of a frame's lines, each trimmed.
pub open spec fn data_lines(lines: Seq<Seq<char>>) -> Seq<Seq<char>>
    decreases lines.len(),
{
    if lines.len() == 0 {
        Seq::empty()
    } else {
        let prev = data_lines(lines.drop_last());
        let l = lines.last();
        if has_prefix(l, "data:"@) {
            prev.push(trim_seq(l.skip(5)))
        } else {
            prev
        }
    }
}

/// Pieces joined with a separator.
pub open spec fn joined(pieces: Seq<Seq<char>>, sep: Seq<char>) -> Seq<char>
    decreases pieces.len(),
{
    if pieces.len() == 0 {
        Seq::empty()
    } else if pieces.len() == 1 {
        pieces[0]
    } else {
        joined(pieces.drop_last(), sep) + sep + pieces.last()
    }
}

/// What a frame holds: nothing without `data:` lines, the end marker, or
/// the JSON of its `data:` lines joined by newlines.
pub open spec fn frame_data_of(frame: Seq<char>) -> FrameDataView {
    let ds = data_lines(lines_of(frame));
    if ds.len() == 0 {
        FrameDataView::Empty
    } else if joined(ds, seq!['\n']) == "[DONE]"@ {
        FrameDataView::Done
    } else {
        FrameDataView::Json(joined(ds, seq!['\n']))
    }
}

/// A frame's content as character sequences.
pub enum FrameDataView {
    Empty,
    Done,
    Json(Seq<char>),
}

/// The view of frame data.
pub open spec fn frame_data_view(d: FrameData) -> FrameDataView {
    match d {
        FrameData::Empty => FrameDataView::Empty,
        FrameData::Done => FrameDataView::Done,
        FrameData::Json(s) => FrameDataView::Json(s@),
    }
}

/// Joins strings with a separator.
pub fn join(pieces: &Vec<String>, sep: &str) -> (r: String)
    ensures
        r@ == joined(string_views(pieces@), sep@),
{
    let mut out = String::new();
    let mut k: usize = 0;
    while k < pieces.len()
        invariant
            0 <= k <= pieces@.len(),
            out@ == joined(string_views(pieces@).take(k as int), sep@),
        decreases pieces@.len() - k,
    {
        let ghost t = string_views(pieces@).take(k + 1);
        assert(t.drop_last() =~= string_views(pieces@).take(k as int));
        if k > 0 {
            push_str(&mut out, sep);
        }
        push_str(&mut out, pieces[k].as_str());
        proof {
            if k == 0 {
                assert(t.len() == 1);
            }
        }
        k += 1;
    }
    assert(string_views(pieces@).take(k as int) =~= string_views(pieces@));
    out
}

/// Reads what a frame holds.
pub fn frame_data(frame: &str) -> (r: FrameData)
    ensures
        frame_data_view(r) == frame_data_of(frame@),
{
    let ls = lines(frame);
    let mut data: Vec<String> = Vec::new();
    let mut k: usize = 0;
    while k < ls.len()
        invariant
            0 <= k <= ls@.len(),
            string_views(data@) == data_lines(string_views(ls@).take(k as int)),
        decreases ls@.len() - k,
    {
        assert(string_views(ls@).take(k + 1).drop_last() =~= string_views(ls@).take(k as int));
        let l = ls[k].as_str();
        proof {
            reveal_strlit("data:");
        }
        if crate::text::str_starts_with(l, "data:") {
            let lv = chars_of(l);
            let rest = string_from_range(&lv, 5, lv.len());
            assert(rest@ =~= l@.skip(5));
            let ghost before = string_views(data@);
            data.push(trim(rest.as_str()));
            assert(string_views(data@) =~= before.push(trim_seq(l@.skip(5))));
        }
        k += 1;
    }
    assert(string_views(ls@).take(k as int) =~= string_views(ls@));
    if data.len() == 0 {
        return FrameData::Empty;
    }
    let j = join(&data, "\n");
    proof {
        reveal_strlit("\n");
        assert("\n"@ =~= seq!['\n']);
    }
    if crate::text::str_eq(j.as_str(), "[DONE]") {
        FrameData::Done
    } else {
        FrameData::Json(j)
    }
}

/// What the caller should do after a frame.
#[derive(Debug, Clone, PartialEq, Eq)]
pub enum FrameStep {
    /// Nothing to decode; the frame was consumed.
    Ignore,
    /// The end marker: the terminal `Done` was queued.
    Done,
    /// Decode this JSON as a chunk and hand it to `apply_chunk`; when it does
    /// not decode, skip it.
    Decode(String),
}

/// What one poll of a server-sent-events decoder gives.
#[derive(Debug)]
pub enum SseStep {
    /// The next event to deliver.
    Event(StreamEvent),
    /// The stream is over: nothing more will be delivered.
    Finished,
    /// A complete frame, to be handed to `handle_frame`.
    Frame(String),
    /// More upstream bytes are needed (or the end of the upstream).
    NeedBytes,
}

/// The state of a server-sent-events decoder.
pub struct SseDecoder {
    /// Text received and not yet split into frames.
    pub buf: String,
    /// Tool calls accumulated by index.
    pub tool_calls: Vec<ToolCallAccum>,
    /// Usage from the chunk that carried it.
    pub usage: Option<Usage>,
    /// Events awaiting delivery and the open-think flag.
    pub queue: EventQueue,
    /// Set once the terminal `Done` was delivered or upstream ended.
    pub finished: bool,
}

/// The position of the first blank line (`\n\n`) in `s`.
pub open spec fn frame_end(s: Seq<char>) -> Option<int> {
    crate::text::find_first(s, seq!['\n', '\n'])
}

impl SseDecoder {
    /// A decoder in order: a `Done` can only stand last in its queue.
    pub open spec fn well_formed(&self) -> bool {
        done_last(event_views(self.queue.pending@))
    }

    /// A fresh decoder.
    pub fn new() -> (d: SseDecoder)
        ensures
            d.well_formed(),
            d.buf@.len() == 0,
            d.tool_calls@.len() == 0,
            d.usage is None,
            d.queue.pending@.len() == 0,
            !d.queue.in_reasoning,
            !d.finished,
    {
        SseDecoder { buf: String::new(), tool_calls: Vec::new(), usage: None, queue: EventQueue::new(), finished: false }
    }

    /// Appends received bytes (their UTF-8 text, nothing when they are not
    /// valid UTF-8).
    pub fn push_bytes(&mut self, bytes: &[u8])
        ensures
            final(self).buf@ == old(self).buf@ + match utf8_decode(bytes@) {
                Some(t) => t,
                None => Seq::empty(),
            },
            final(self).tool_calls == old(self).tool_calls,
            final(self).usage == old(self).usage,
            final(self).queue == old(self).queue,
            final(self).finished == old(self).finished,
    {
        match decode_utf8(bytes) {
            Some(t) => push_str(&mut self.buf, t.as_str()),
            None => {},
        }
    }

    /// Splits the next complete frame off the buffer, if there is one.
    pub fn next_frame(&mut self) -> (r: Option<String>)
        ensures
            match frame_end(old(self).buf@) {
                None => r is None && final(self).buf == old(self).buf,
                Some(i) => r matches Some(f) && f@ == old(self).buf@.take(i) && final(self).buf@ == old(
                    self,
                ).buf@.skip(i + 2),
            },
            final(self).tool_calls == old(self).tool_calls,
            final(self).usage == old(self).usage,
            final(self).queue == old(self).queue,
            final(self).finished == old(self).finished,
    {
        let v = chars_of(self.buf.as_str());
        let pat = vec!['\n', '\n'];
        assert(pat@ =~= seq!['\n', '\n']);
        proof {
            lemma_find_from(v@, pat@, 0);
        }
        let n = v.len();
        match find_from_exec(&v, &pat, 0) {
            None => None,
            Some(i) => {
                assert(crate::text::occurs_at(v@, pat@, i as int));
                let frame = string_from_range(&v, 0, i);
                self.buf = string_from_range(&v, i + 2, n);
                Some(frame)
            },
        }
    }

    /// Handles one frame: ignores frames without data, queues the terminal
    /// `Done` on the end marker, and asks for JSON to be decoded otherwise.
    pub fn handle_frame(&mut self, frame: &str) -> (r: FrameStep)
        requires
            old(self).queue.pending@.len() == 0,
            !old(self).finished,
        ensures
            final(self).well_formed(),
            match frame_data_of(frame@) {
                FrameDataView::Empty => r == FrameStep::Ignore && *final(self) == *old(self),
                FrameDataView::Done => r == FrameStep::Done && final(self).tool_calls@.len() == 0
                    && final(self).usage is None && event_views(final(self).queue.pending@) == event_views(
                    old(self).queue.pending@,
                ) + (if old(self).queue.in_reasoning {
                    seq![
                        EventView::Delta("</think>"@),
                        EventView::Done(accum_views(old(self).tool_calls@), old(self).usage),
                    ]
                } else {
                    seq![EventView::Done(accum_views(old(self).tool_calls@), old(self).usage)]
                }) && !final(self).queue.in_reasoning,
                FrameDataView::Json(j) => (r matches FrameStep::Decode(s) && s@ == j) && *final(self) == *old(self),
            },
            final(self).buf == old(self).buf,
            final(self).finished == old(self).finished,
    {
        match frame_data(frame) {
            FrameData::Empty => FrameStep::Ignore,
            FrameData::Json(j) => FrameStep::Decode(j),
            FrameData::Done => {
                let ghost open0 = self.queue.in_reasoning;
                let ghost calls0 = accum_views(self.tool_calls@);
                let ghost usage0 = self.usage;
                let mut calls: Vec<ToolCallAccum> = Vec::new();
                std::mem::swap(&mut calls, &mut self.tool_calls);
                let usage = self.usage;
                self.usage = None;
                let finished = ToolCallAccum::finish_all(calls);
                self.queue.queue_done(finished, usage);
                proof {
                    assert(event_views(old(self).queue.pending@) =~= Seq::<EventView>::empty());
                    lemma_done_last_after_text(Seq::empty(), open0, calls0, usage0);
                    assert(Seq::<EventView>::empty() + done_events(open0, calls0, usage0) =~= done_events(
                        open0,
                        calls0,
                        usage0,
                    ));
                }
                FrameStep::Done
            },
        }
    }

    /// Applies a decoded chunk: records its usage, accumulates its tool-call
    /// fragments, and queues its reasoning and content (reasoning wrapped in
    /// a think block).
    pub fn apply_chunk(&mut self, chunk: Chunk)
        requires
            old(self).queue.pending@.len() == 0,
            !old(self).finished,
            chunk.delta matches Some(d) ==> forall|k: int|
                0 <= k < d.tool_calls@.len() ==> (#[trigger] d.tool_calls@[k]).index < usize::MAX,
        ensures
            final(self).usage == (match chunk.usage {
                Some(u) => Some(u),
                None => old(self).usage,
            }),
            match chunk.delta {
                None => final(self).tool_calls == old(self).tool_calls && final(self).queue == old(self).queue,
                Some(d) => accum_views(final(self).tool_calls@) == apply_fragments(
                    accum_views(old(self).tool_calls@),
                    d.tool_calls@,
                ) && event_views(final(self).queue.pending@) == event_views(old(self).queue.pending@)
                    + wrap_events(
                    old(self).queue.in_reasoning,
                    match ostr(d.reasoning_content) {
                        Some(r) => Some(r),
                        None => ostr(d.reasoning),
                    },
                    ostr(d.content),
                ).0 && final(self).queue.in_reasoning == wrap_events(
                    old(self).queue.in_reasoning,
                    match ostr(d.reasoning_content) {
                        Some(r) => Some(r),
                        None => ostr(d.reasoning),
                    },
                    ostr(d.content),
                ).1,
            },
            final(self).buf == old(self).buf,
            final(self).finished == old(self).finished,
            no_done(event_views(final(self).queue.pending@)),
            final(self).well_formed(),
    {
        let new_usage = match chunk.usage {
            Some(u) => Some(u),
            None => self.usage,
        };
        self.usage = new_usage;
        assert(self.usage == (match chunk.usage {
            Some(u) => Some(u),
            None => old(self).usage,
        }));
        let d = match chunk.delta {
            None => {
                return;
            },
            Some(d) => d,
        };
        {
            {
                let ghost ds = d.tool_calls@;
                let mut frags = d.tool_calls;
                let mut k: usize = 0;
                let n = frags.len();
                assert(ds.subrange(0, ds.len() as int) =~= ds);
                while frags.len() > 0
                    invariant
                        n == ds.len(),
                        k + frags@.len() == ds.len(),
                        frags@ == ds.subrange(k as int, ds.len() as int),
                        forall|m: int| 0 <= m < ds.len() ==> (#[trigger] ds[m]).index < usize::MAX,
                        self.usage == new_usage,
                        self.queue == old(self).queue,
                        self.buf == old(self).buf,
                        self.finished == old(self).finished,
                        accum_views(self.tool_calls@) == apply_fragments(
                            accum_views(old(self).tool_calls@),
                            ds.take(k as int),
                        ),
                    decreases frags@.len(),
                {
                    let frag = frags.remove(0);
                    assert(ds.take(k + 1).drop_last() =~= ds.take(k as int));
                    assert(frag == ds[k as int]);
                    accumulate(&mut self.tool_calls, frag);
                    k += 1;
                    assert(ds.subrange(k as int, ds.len() as int) =~= frags@);
                }
                assert(ds.take(k as int) =~= ds);
                let reasoning = match d.reasoning_content {
                    Some(r) => Some(r),
                    None => d.reasoning,
                };
                self.queue.wrap(reasoning, d.content);
            }
        }
    }

    /// One poll: the next queued event (delivering the terminal `Done`
    /// finishes the decoder); once finished with nothing queued, `Finished`
    /// for good; else the next complete frame, or a request for bytes.
    /// While `Done` stands only last in the queue, delivering it leaves the
    /// decoder finished with nothing queued, so every later poll is
    /// `Finished` whatever bytes still arrive.
    pub fn poll(&mut self) -> (r: SseStep)
        requires
            old(self).well_formed(),
        ensures
            old(self).queue.pending@.len() > 0 ==> (r matches SseStep::Event(e) && e == old(self).queue.pending@[0]
                && final(self).finished == (old(self).finished || e is Done)) && final(self).queue.pending@ == old(
                self,
            ).queue.pending@.drop_first() && final(self).queue.in_reasoning == old(self).queue.in_reasoning
                && final(self).buf == old(self).buf && final(self).tool_calls == old(self).tool_calls
                && final(self).usage == old(self).usage,
            old(self).queue.pending@.len() == 0 && old(self).finished ==> r is Finished && *final(self) == *old(self),
            old(self).queue.pending@.len() == 0 && !old(self).finished ==> match frame_end(old(self).buf@) {
                None => r is NeedBytes && *final(self) == *old(self),
                Some(i) => (r matches SseStep::Frame(f) && f@ == old(self).buf@.take(i)) && final(self).buf@ == old(
                    self,
                ).buf@.skip(i + 2) && final(self).tool_calls == old(self).tool_calls && final(self).usage == old(
                    self,
                ).usage && final(self).queue == old(self).queue && final(self).finished == old(self).finished,
            },
            final(self).well_formed(),
            (r matches SseStep::Event(e) && e is Done) ==> final(self).finished && final(self).queue.pending@.len() == 0,
    {
        let ghost es = event_views(self.queue.pending@);
        match self.queue.pop() {
            Some(e) => {
                proof {
                    assert(es[0] == event_view(e));
                    assert(event_views(self.queue.pending@) =~= es.drop_first());
                    lemma_done_last_pop(es);
                }
                match &e {
                    StreamEvent::Done { .. } => {
                        self.finished = true;
                    },
                    _ => {},
                }
                SseStep::Event(e)
            },
            None => {
                if self.finished {
                    SseStep::Finished
                } else {
                    match self.next_frame() {
                        Some(f) => SseStep::Frame(f),
                        None => SseStep::NeedBytes,
                    }
                }
            },
        }
    }

    /// The upstream ended: queues the terminal `Done` (closing any open
    /// think block) and finishes. Any partial frame left is dropped.
    pub fn end_of_stream(&mut self)
        requires
            old(self).queue.pending@.len() == 0,
            !old(self).finished,
        ensures
            final(self).finished,
            final(self).well_formed(),
            final(self).tool_calls@.len() == 0,
            final(self).usage is None,
            !final(self).queue.in_reasoning,
            event_views(final(self).queue.pending@) == event_views(old(self).queue.pending@) + (if old(
                self,
            ).queue.in_reasoning {
                seq![
                    EventView::Delta("</think>"@),
                    EventView::Done(accum_views(old(self).tool_calls@), old(self).usage),
                ]
            } else {
                seq![EventView::Done(accum_views(old(self).tool_calls@), old(self).usage)]
            }),
    {
        let mut calls: Vec<ToolCallAccum> = Vec::new();
        std::mem::swap(&mut calls, &mut self.tool_calls);
        let usage = self.usage;
        self.usage = None;
        let finished = ToolCallAccum::finish_all(calls);
        self.queue.queue_done(finished, usage);
        self.finished = true;
    }
}


// ---------------------------------------------------------------------------
// Ollama's native newline-delimited JSON
// ---------------------------------------------------------------------------

/// A complete tool call in a native chunk: the function name and its
/// arguments encoded as JSON text.
#[derive(Debug, Clone)]
pub struct NativeCall {
    pub name: String,
    pub arguments: String,
}

/// The message of a native chunk.
#[derive(Debug, Clone)]
pub struct OllamaMessage {
    pub content: Option<String>,
    pub thinking: Option<String>,
    pub tool_calls: Option<Vec<NativeCall>>,
}

/// A decoded native chunk.
#[derive(Debug, Clone)]
pub struct OllamaChunk {
    pub message: Option<OllamaMessage>,
    pub done: bool,
    pub prompt_eval_count: Option<u64>,
    pub eval_count: Option<u64>,
}

/// The calls a native message adds after `existing` calls: each gets the
/// id `call_<n>`, `n` counting all calls so far, and the type `function`.
pub open spec fn native_calls(existing: nat, calls: Seq<NativeCall>) -> Seq<CallView>
    decreases calls.len(),
{
    if calls.len() == 0 {
        Seq::empty()
    } else {
        let prev = native_calls(existing, calls.drop_last());
        prev.push(
            CallView {
                id: "call_"@ + decimal_seq((existing + calls.len() - 1) as nat),
                call_type: "function"@,
                name: calls.last().name@,
                arguments: calls.last().arguments@,
            },
        )
    }
}

/// The usage a terminal native chunk reports, if it reports a count.
pub open spec fn native_usage(c: OllamaChunk) -> Option<Usage> {
    if c.prompt_eval_count is Some || c.eval_count is Some {
        Some(
            Usage {
                prompt_tokens: match c.prompt_eval_count {
                    Some(n) => n,
                    None => 0,
                },
                completion_tokens: match c.eval_count {
                    Some(n) => n,
                    None => 0,
                },
            },
        )
    } else {
        None
    }
}

/// The calls after a native message: the existing ones, then the message's.
pub open spec fn line_calls(existing: Seq<CallView>, m: Option<OllamaMessage>) -> Seq<CallView> {
    existing + match m {
        Some(msg) => match msg.tool_calls {
            Some(cs) => native_calls(existing.len(), cs@),
            None => Seq::empty(),
        },
        None => Seq::empty(),
    }
}

/// The events of a native message's thinking and content.
pub open spec fn line_wrap(open: bool, m: Option<OllamaMessage>) -> (Seq<EventView>, bool) {
    match m {
        Some(msg) => wrap_events(open, ostr(msg.thinking), ostr(msg.content)),
        None => (Seq::empty(), open),
    }
}

/// What one poll of a native decoder gives.
#[derive(Debug)]
pub enum OllamaStep {
    /// The next event to deliver.
    Event(StreamEvent),
    /// The stream is over: nothing more will be delivered.
    Finished,
    /// A complete line, to be decoded and handed to `feed_line`.
    Line(String),
    /// More upstream bytes are needed (or the end of the upstream).
    NeedBytes,
}

/// The state of a native-protocol decoder.
pub struct OllamaDecoder {
    /// Text received and not yet split into lines.
    pub buf: String,
    /// Complete tool calls received so far.
    pub tool_calls: Vec<ToolCall>,
    /// Usage from the terminal chunk.
    pub usage: Option<Usage>,
    /// Events awaiting delivery and the open-think flag.
    pub queue: EventQueue,
    /// Set once the terminal `Done` was delivered or upstream ended.
    pub finished: bool,
}

impl OllamaDecoder {
    /// A decoder in order: a `Done` can only stand last in its queue.
    pub open spec fn well_formed(&self) -> bool {
        done_last(event_views(self.queue.pending@))
    }

    /// A fresh decoder.
    pub fn new() -> (d: OllamaDecoder)
        ensures
            d.well_formed(),
            d.buf@.len() == 0,
            d.tool_calls@.len() == 0,
            d.usage is None,
            d.queue.pending@.len() == 0,
            !d.queue.in_reasoning,
            !d.finished,
    {
        OllamaDecoder { buf: String::new(), tool_calls: Vec::new(), usage: None, queue: EventQueue::new(), finished: false }
    }

    /// Appends received bytes (their UTF-8 text, nothing when they are not
    /// valid UTF-8).
    pub fn push_bytes(&mut self, bytes: &[u8])
        ensures
            final(self).buf@ == old(self).buf@ + match utf8_decode(bytes@) {
                Some(t) => t,
                None => Seq::empty(),
            },
            final(self).tool_calls == old(self).tool_calls,
            final(self).usage == old(self).usage,
            final(self).queue == old(self).queue,
            final(self).finished == old(self).finished,
    {
        match decode_utf8(bytes) {
            Some(t) => push_str(&mut self.buf, t.as_str()),
            None => {},
        }
    }

    /// Splits the next complete line off the buffer, if there is one.
    pub fn next_line(&mut self) -> (r: Option<String>)
        ensures
            match crate::text::find_first(old(self).buf@, seq!['\n']) {
                None => r is None && final(self).buf == old(self).buf,
                Some(i) => r matches Some(l) && l@ == old(self).buf@.take(i) && final(self).buf@ == old(
                    self,
                ).buf@.skip(i + 1),
            },
            final(self).tool_calls == old(self).tool_calls,
            final(self).usage == old(self).usage,
            final(self).queue == old(self).queue,
            final(self).finished == old(self).finished,
    {
        let v = chars_of(self.buf.as_str());
        let pat = vec!['\n'];
        assert(pat@ =~= seq!['\n']);
        proof {
            lemma_find_from(v@, pat@, 0);
        }
        let n = v.len();
        match find_from_exec(&v, &pat, 0) {
            None => None,
            Some(i) => {
                assert(crate::text::occurs_at(v@, pat@, i as int));
                let line = string_from_range(&v, 0, i);
                self.buf = string_from_range(&v, i + 1, n);
                Some(line)
            },
        }
    }

    /// Handles one decoded line: queues its thinking and content (thinking
    /// wrapped in a think block), records its tool calls, and on the
    /// terminal line records the usage. Returns whether it was the terminal
    /// line; queuing the terminal `Done` is then left to `queue_done`.
    /// The terminal line's own message is handled before it ends the stream.
    pub fn handle_ollama_line(&mut self, chunk: OllamaChunk) -> (done: bool)
        requires
            old(self).queue.pending@.len() == 0,
            !old(self).finished,
            old(self).tool_calls@.len() + match chunk.message {
                Some(m) => match m.tool_calls {
                    Some(cs) => cs@.len() as int,
                    None => 0,
                },
                None => 0,
            } <= u64::MAX,
        ensures
            done == chunk.done,
            final(self).buf == old(self).buf,
            final(self).finished == old(self).finished,
            event_views(final(self).queue.pending@) == event_views(old(self).queue.pending@) + line_wrap(
                old(self).queue.in_reasoning,
                chunk.message,
            ).0,
            final(self).queue.in_reasoning == line_wrap(old(self).queue.in_reasoning, chunk.message).1,
            call_views(final(self).tool_calls@) == line_calls(call_views(old(self).tool_calls@), chunk.message),
            no_done(event_views(final(self).queue.pending@)),
            final(self).well_formed(),
            final(self).usage == (if chunk.done && native_usage(chunk) is Some {
                native_usage(chunk)
            } else {
                old(self).usage
            }),
    {
        let ghost n0 = self.tool_calls@.len();
        let ghost c0 = call_views(self.tool_calls@);
        match chunk.message {
            Some(msg) => {
                self.queue.wrap(msg.thinking, msg.content);
                match msg.tool_calls {
                    Some(calls) => {
                        let ghost orig = calls@;
                        let mut src = calls;
                        let mut k: usize = 0;
                        let total = src.len();
                        assert(orig.subrange(0, orig.len() as int) =~= orig);
                        assert(native_calls(n0, orig.take(0)) =~= Seq::<CallView>::empty());
                        assert(c0 + native_calls(n0, orig.take(0)) =~= c0);
                        while src.len() > 0
                            invariant
                                n0 + orig.len() <= u64::MAX,
                                total == orig.len(),
                                k + src@.len() == orig.len(),
                                src@ == orig.subrange(k as int, orig.len() as int),
                                self.tool_calls@.len() == n0 + k,
                                call_views(self.tool_calls@) == c0 + native_calls(n0, orig.take(k as int)),
                                c0.len() == n0,
                                self.buf == old(self).buf,
                                self.finished == old(self).finished,
                                self.usage == old(self).usage,
                                event_views(self.queue.pending@) == event_views(old(self).queue.pending@)
                                    + line_wrap(old(self).queue.in_reasoning, chunk.message).0,
                                self.queue.in_reasoning == line_wrap(old(self).queue.in_reasoning, chunk.message).1,
                            decreases src@.len(),
                        {
                            let tc = src.remove(0);
                            let num = decimal(self.tool_calls.len() as u64);
                            let id = concat("call_", num.as_str());
                            let ghost before = call_views(self.tool_calls@);
                            assert(orig.take(k + 1).drop_last() =~= orig.take(k as int));
                            assert(tc == orig[k as int]);
                            self.tool_calls.push(
                                ToolCall {
                                    id,
                                    call_type: owned("function"),
                                    function: FunctionCall { name: tc.name, arguments: tc.arguments },
                                },
                            );
                            assert(call_views(self.tool_calls@) =~= before.push(call_view(self.tool_calls@.last())));
                            assert(c0 + native_calls(n0, orig.take(k + 1)) =~= (c0 + native_calls(n0, orig.take(k as int))).push(
                                call_view(self.tool_calls@.last()),
                            ));
                            k += 1;
                            assert(orig.subrange(k as int, orig.len() as int) =~= src@);
                        }
                        assert(orig.take(k as int) =~= orig);
                    },
                    None => {
                        assert(call_views(self.tool_calls@) =~= line_calls(c0, chunk.message));
                    },
                }
            },
            None => {
                assert(call_views(self.tool_calls@) =~= line_calls(c0, chunk.message));
            },
        }
        assert(call_views(self.tool_calls@) == line_calls(c0, chunk.message));
        if chunk.done {
            if chunk.prompt_eval_count.is_some() || chunk.eval_count.is_some() {
                let prompt_tokens = match chunk.prompt_eval_count {
                    Some(n) => n,
                    None => 0,
                };
                let completion_tokens = match chunk.eval_count {
                    Some(n) => n,
                    None => 0,
                };
                self.usage = Some(Usage { prompt_tokens, completion_tokens });
            }
            return true;
        }
        false
    }

    /// After the terminal line: closes any open think block and queues the
    /// terminal `Done` with the calls and usage recorded so far, which are
    /// then cleared.
    pub fn queue_done(&mut self)
        requires
            !old(self).finished,
            no_done(event_views(old(self).queue.pending@)),
        ensures
            final(self).well_formed(),
            event_views(final(self).queue.pending@) == event_views(old(self).queue.pending@) + done_events(
                old(self).queue.in_reasoning,
                call_views(old(self).tool_calls@),
                old(self).usage,
            ),
            !final(self).queue.in_reasoning,
            final(self).tool_calls@.len() == 0,
            final(self).usage is None,
            final(self).buf == old(self).buf,
            final(self).finished == old(self).finished,
    {
        let mut calls: Vec<ToolCall> = Vec::new();
        std::mem::swap(&mut calls, &mut self.tool_calls);
        let usage = self.usage;
        self.usage = None;
        let ghost text = event_views(self.queue.pending@);
        let ghost open0 = self.queue.in_reasoning;
        self.queue.queue_done(calls, usage);
        proof {
            lemma_done_last_after_text(text, open0, call_views(old(self).tool_calls@), old(self).usage);
        }
    }

    /// Feeds a line that `poll` split off: its decoded chunk, or nothing
    /// when the line is not one (keepalives, partial lines). A terminal
    /// line is followed by the terminal `Done`. Returns whether it was the
    /// terminal line.
    pub fn feed_line(&mut self, chunk: Option<OllamaChunk>) -> (done: bool)
        requires
            old(self).queue.pending@.len() == 0,
            !old(self).finished,
            chunk matches Some(c) ==> old(self).tool_calls@.len() + match c.message {
                Some(m) => match m.tool_calls {
                    Some(cs) => cs@.len() as int,
                    None => 0,
                },
                None => 0,
            } <= u64::MAX,
        ensures
            chunk is None ==> !done && *final(self) == *old(self),
            chunk matches Some(c) ==> {
                let (text, open) = line_wrap(old(self).queue.in_reasoning, c.message);
                let calls = line_calls(call_views(old(self).tool_calls@), c.message);
                &&& done == c.done
                &&& !c.done ==> event_views(final(self).queue.pending@) == text && final(self).queue.in_reasoning
                    == open && call_views(final(self).tool_calls@) == calls && final(self).usage == old(self).usage
                &&& c.done ==> event_views(final(self).queue.pending@) == text + done_events(
                    open,
                    calls,
                    if native_usage(c) is Some {
                        native_usage(c)
                    } else {
                        old(self).usage
                    },
                ) && !final(self).queue.in_reasoning && final(self).tool_calls@.len() == 0
                    && final(self).usage is None
            },
            final(self).buf == old(self).buf,
            !final(self).finished,
            final(self).well_formed(),
    {
        match chunk {
            None => false,
            Some(c) => {
                let ghost msg = c.message;
                let ghost open0 = self.queue.in_reasoning;
                let ghost c0 = c;
                proof {
                    assert(event_views(old(self).queue.pending@) =~= Seq::<EventView>::empty());
                    match msg {
                        Some(m) => lemma_wrap_no_done(open0, ostr(m.thinking), ostr(m.content)),
                        None => {},
                    }
                }
                let done = self.handle_ollama_line(c);
                let ghost text = event_views(self.queue.pending@);
                assert(text =~= line_wrap(open0, msg).0);
                if done {
                    self.queue_done();
                    proof {
                        lemma_done_last_after_text(text, line_wrap(open0, msg).1, line_calls(call_views(old(self).tool_calls@), msg), if native_usage(c0) is Some {
                            native_usage(c0)
                        } else {
                            old(self).usage
                        });
                    }
                } else {
                    proof {
                        assert forall|i: int| 0 <= i < text.len() - 1 implies !(#[trigger] text[i] is Done) by {}
                    }
                }
                done
            },
        }
    }

    /// One poll: the next queued event (delivering the terminal `Done`
    /// finishes the decoder); once finished with nothing queued, `Finished`
    /// for good; else the next complete line, or a request for bytes.
    /// While `Done` stands only last in the queue, delivering it leaves the
    /// decoder finished with nothing queued, so every later poll is
    /// `Finished` whatever bytes still arrive.
    pub fn poll(&mut self) -> (r: OllamaStep)
        requires
            old(self).well_formed(),
        ensures
            old(self).queue.pending@.len() > 0 ==> (r matches OllamaStep::Event(e) && e == old(self).queue.pending@[0]
                && final(self).finished == (old(self).finished || e is Done)) && final(self).queue.pending@ == old(
                self,
            ).queue.pending@.drop_first() && final(self).queue.in_reasoning == old(self).queue.in_reasoning
                && final(self).buf == old(self).buf && final(self).tool_calls == old(self).tool_calls
                && final(self).usage == old(self).usage,
            old(self).queue.pending@.len() == 0 && old(self).finished ==> r is Finished && *final(self) == *old(self),
            old(self).queue.pending@.len() == 0 && !old(self).finished ==> match crate::text::find_first(old(self).buf@, seq!['\n']) {
                None => r is NeedBytes && *final(self) == *old(self),
                Some(i) => (r matches OllamaStep::Line(f) && f@ == old(self).buf@.take(i)) && final(self).buf@ == old(
                    self,
                ).buf@.skip(i + 1) && final(self).tool_calls == old(self).tool_calls && final(self).usage == old(
                    self,
                ).usage && final(self).queue == old(self).queue && final(self).finished == old(self).finished,
            },
            final(self).well_formed(),
            (r matches OllamaStep::Event(e) && e is Done) ==> final(self).finished && final(self).queue.pending@.len() == 0,
    {
        let ghost es = event_views(self.queue.pending@);
        match self.queue.pop() {
            Some(e) => {
                proof {
                    assert(es[0] == event_view(e));
                    assert(event_views(self.queue.pending@) =~= es.drop_first());
                    lemma_done_last_pop(es);
                }
                match &e {
                    StreamEvent::Done { .. } => {
                        self.finished = true;
                    },
                    _ => {},
                }
                OllamaStep::Event(e)
            },
            None => {
                if self.finished {
                    OllamaStep::Finished
                } else {
                    match self.next_line() {
                        Some(f) => OllamaStep::Line(f),
                        None => OllamaStep::NeedBytes,
                    }
                }
            },
        }
    }

    /// The upstream ended: queues the terminal `Done` (closing any open
    /// think block) and finishes.
    pub fn end_of_stream(&mut self)
        requires
            old(self).queue.pending@.len() == 0,
            !old(self).finished,
        ensures
            final(self).finished,
            final(self).well_formed(),
            final(self).tool_calls@.len() == 0,
            final(self).usage is None,
            !final(self).queue.in_reasoning,
            event_views(final(self).queue.pending@) == event_views(old(self).queue.pending@) + (if old(
                self,
            ).queue.in_reasoning {
                seq![EventView::Delta("</think>"@), EventView::Done(call_views(old(self).tool_calls@), old(self).usage)]
            } else {
                seq![EventView::Done(call_views(old(self).tool_calls@), old(self).usage)]
            }),
    {
        let mut calls: Vec<ToolCall> = Vec::new();
        std::mem::swap(&mut calls, &mut self.tool_calls);
        let usage = self.usage;
        self.usage = None;
        self.queue.queue_done(calls, usage);
        self.finished = true;
    }
}

} // verus!
