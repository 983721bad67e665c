//! The streaming transcoder: a per-call state machine that turns backend delta chunks
//! into content-block events, opening and closing one block at a time.
use vstd::prelude::*;
use vstd::string::*;
use crate::transform::{stop_reason_of, stop_reason_text};

verus! {

/// Token counts as the backend reports them.
#[derive(Debug, Clone, PartialEq, Eq)]
pub struct TokenUsage {
    pub prompt_tokens: u64,
    pub completion_tokens: u64,
}

/// One fragment of a tool call, keyed by its position in the call list.
#[derive(Debug, Clone, PartialEq, Eq)]
pub struct ToolCallDelta {
    pub id: Option<String>,
    pub name: Option<String>,
    pub arguments: Option<String>,
}

/// What one choice of a chunk adds.
#[derive(Debug, Clone, PartialEq, Eq)]
pub struct ChoiceDelta {
    pub reasoning: Option<String>,
    pub content: Option<String>,
    pub tool_calls: Vec<ToolCallDelta>,
}

#[derive(Debug, Clone, PartialEq, Eq)]
pub struct ChunkChoice {
    pub delta: ChoiceDelta,
    pub finish_reason: Option<String>,
}

/// One delta chunk of the backend's stream.
#[derive(Debug, Clone, PartialEq, Eq)]
pub struct StreamChunk {
    pub id: String,
    pub model: String,
    pub choices: Vec<ChunkChoice>,
    pub usage: Option<TokenUsage>,
}

/// The kind of the content block that is open.
#[derive(Debug, Clone, Copy, PartialEq, Eq, Structural)]
pub enum BlockKind {
    Thinking,
    Text,
    ToolUse,
}

/// How a content block starts.
#[derive(Debug, Clone, PartialEq, Eq)]
pub enum BlockStart {
    Thinking,
    Text,
    ToolUse { id: String, name: String },
}

/// What a content-block delta carries.
#[derive(Debug, Clone, PartialEq, Eq)]
pub enum BlockDelta {
    Thinking(String),
    Text(String),
    InputJson(String),
}

/// One event of the client-facing stream.
#[derive(Debug, Clone, PartialEq, Eq)]
pub enum StreamEvent {
    MessageStart { id: String, model: String },
    ContentBlockStart { index: u64, block: BlockStart },
    ContentBlockDelta { index: u64, delta: BlockDelta },
    ContentBlockStop { index: u64 },
    MessageDelta { stop_reason: String, output_tokens: Option<u64> },
    MessageStop,
    Error { message: String },
}

pub ghost enum BlockView {
    Thinking,
    Text,
    ToolUse { id: Seq<char>, name: Seq<char> },
}

pub ghost enum DeltaView {
    Thinking(Seq<char>),
    Text(Seq<char>),
    InputJson(Seq<char>),
}

pub ghost enum EventView {
    MessageStart { id: Seq<char>, model: Seq<char> },
    BlockStart { index: nat, block: BlockView },
    BlockDelta { index: nat, delta: DeltaView },
    BlockStop { index: nat },
    MessageDelta { stop_reason: Seq<char>, output_tokens: Option<u64> },
    MessageStop,
    Error { message: Seq<char> },
}

impl View for BlockStart {
    type V = BlockView;

    open spec fn view(&self) -> BlockView {
        match self {
            BlockStart::Thinking => BlockView::Thinking,
            BlockStart::Text => BlockView::Text,
            BlockStart::ToolUse { id, name } => BlockView::ToolUse { id: id@, name: name@ },
        }
    }
}

impl View for BlockDelta {
    type V = DeltaView;

    open spec fn view(&self) -> DeltaView {
        match self {
            BlockDelta::Thinking(t) => DeltaView::Thinking(t@),
            BlockDelta::Text(t) => DeltaView::Text(t@),
            BlockDelta::InputJson(t) => DeltaView::InputJson(t@),
        }
    }
}

impl View for StreamEvent {
    type V = EventView;

    open spec fn view(&self) -> EventView {
        match self {
            StreamEvent::MessageStart { id, model } => EventView::MessageStart {
                id: id@,
                model: model@,
            },
            StreamEvent::ContentBlockStart { index, block } => EventView::BlockStart {
                index: *index as nat,
                block: block@,
            },
            StreamEvent::ContentBlockDelta { index, delta } => EventView::BlockDelta {
                index: *index as nat,
                delta: delta@,
            },
            StreamEvent::ContentBlockStop { index } => EventView::BlockStop { index: *index as nat },
            StreamEvent::MessageDelta { stop_reason, output_tokens } => EventView::MessageDelta {
                stop_reason: stop_reason@,
                output_tokens: *output_tokens,
            },
            StreamEvent::MessageStop => EventView::MessageStop,
            StreamEvent::Error { message } => EventView::Error { message: message@ },
        }
    }
}

pub open spec fn event_views(v: Seq<StreamEvent>) -> Seq<EventView> {
    v.map_values(|e: StreamEvent| e@)
}

pub open spec fn opt_view(o: Option<String>) -> Option<Seq<char>> {
    match o {
        Some(s) => Some(s@),
        None => None,
    }
}

pub open spec fn or_empty(o: Option<Seq<char>>) -> Seq<char> {
    match o {
        Some(s) => s,
        None => Seq::empty(),
    }
}

/// The state of one streaming call.
pub ghost struct StateView {
    pub message_id: Option<Seq<char>>,
    pub model: Option<Seq<char>>,
    pub open: Option<BlockKind>,
    /// The index of the open block, or of the next block when none is open.
    pub index: nat,
    pub tool_call_id: Option<Seq<char>>,
    pub started: bool,
}

pub open spec fn initial_state() -> StateView {
    StateView {
        message_id: None,
        model: None,
        open: None,
        index: 0,
        tool_call_id: None,
        started: false,
    }
}

/// Closes the open block, if any, and moves on to the next index.
pub open spec fn close_block(s: StateView) -> (StateView, Seq<EventView>) {
    if s.open is Some {
        (
            StateView { open: None, index: s.index + 1, ..s },
            seq![EventView::BlockStop { index: s.index }],
        )
    } else {
        (s, Seq::empty())
    }
}

/// Closes the open block, if any, and opens a block of the given kind.
pub open spec fn open_block(s: StateView, kind: BlockKind, block: BlockView) -> (
    StateView,
    Seq<EventView>,
) {
    let (a, ea) = close_block(s);
    (
        StateView { open: Some(kind), ..a },
        ea.push(EventView::BlockStart { index: a.index, block }),
    )
}

pub open spec fn reasoning_step(s: StateView, r: Seq<char>) -> (StateView, Seq<EventView>) {
    let (a, ea) = if s.open == Some(BlockKind::Thinking) {
        (s, Seq::empty())
    } else {
        open_block(s, BlockKind::Thinking, BlockView::Thinking)
    };
    (a, ea.push(EventView::BlockDelta { index: a.index, delta: DeltaView::Thinking(r) }))
}

pub open spec fn text_step(s: StateView, t: Seq<char>) -> (StateView, Seq<EventView>) {
    if t.len() == 0 {
        (s, Seq::empty())
    } else {
        let (a, ea) = if s.open == Some(BlockKind::Text) {
            (s, Seq::empty())
        } else {
            open_block(s, BlockKind::Text, BlockView::Text)
        };
        (a, ea.push(EventView::BlockDelta { index: a.index, delta: DeltaView::Text(t) }))
    }
}

pub open spec fn fragment_step(s: StateView, f: ToolCallDelta) -> (StateView, Seq<EventView>) {
    let (a, ea) = match f.id {
        Some(id) => {
            let (c, ec) = close_block(s);
            (StateView { tool_call_id: Some(id@), ..c }, ec)
        },
        None => (s, Seq::empty()),
    };
    let (b, eb) = match f.name {
        Some(name) => {
            let (c, ec) = open_block(
                a,
                BlockKind::ToolUse,
                BlockView::ToolUse { id: or_empty(a.tool_call_id), name: name@ },
            );
            (c, ea + ec)
        },
        None => (a, ea),
    };
    match f.arguments {
        Some(args) => (
            b,
            eb.push(EventView::BlockDelta { index: b.index, delta: DeltaView::InputJson(args@) }),
        ),
        None => (b, eb),
    }
}

pub open spec fn fragments_step(s: StateView, fs: Seq<ToolCallDelta>) -> (
    StateView,
    Seq<EventView>,
)
    decreases fs.len(),
{
    if fs.len() == 0 {
        (s, Seq::empty())
    } else {
        let (a, ea) = fragments_step(s, fs.drop_last());
        let (b, eb) = fragment_step(a, fs.last());
        (b, ea + eb)
    }
}

pub open spec fn usage_tokens(u: Option<TokenUsage>) -> Option<u64> {
    match u {
        Some(u) => Some(u.completion_tokens),
        None => None,
    }
}

pub open spec fn finish_step(s: StateView, finish: Option<String>, usage: Option<TokenUsage>) -> (
    StateView,
    Seq<EventView>,
) {
    match finish {
        Some(f) => {
            let (a, ea) = close_block(s);
            (
                a,
                ea.push(
                    EventView::MessageDelta {
                        stop_reason: stop_reason_of(f@),
                        output_tokens: usage_tokens(usage),
                    },
                ),
            )
        },
        None => (s, Seq::empty()),
    }
}

/// Remembers the first non-empty message id and model.
pub open spec fn freeze_ids(s: StateView, c: StreamChunk) -> StateView {
    StateView {
        message_id: if s.message_id is None && c.id@.len() > 0 {
            Some(c.id@)
        } else {
            s.message_id
        },
        model: if s.model is None && c.model@.len() > 0 {
            Some(c.model@)
        } else {
            s.model
        },
        ..s
    }
}

pub open spec fn start_step(s: StateView) -> (StateView, Seq<EventView>) {
    if s.started {
        (s, Seq::empty())
    } else {
        (
            StateView { started: true, ..s },
            seq![
                EventView::MessageStart {
                    id: or_empty(s.message_id),
                    model: or_empty(s.model),
                },
            ],
        )
    }
}

pub open spec fn opt_text_step(s: StateView, t: Option<String>) -> (StateView, Seq<EventView>) {
    match t {
        Some(t) => text_step(s, t@),
        None => (s, Seq::empty()),
    }
}

pub open spec fn opt_reasoning_step(s: StateView, r: Option<String>) -> (
    StateView,
    Seq<EventView>,
) {
    match r {
        Some(r) => reasoning_step(s, r@),
        None => (s, Seq::empty()),
    }
}

/// What one chunk does to the state, and the events that it gives, in order.
pub open spec fn chunk_step(s: StateView, c: StreamChunk) -> (StateView, Seq<EventView>) {
    let s0 = freeze_ids(s, c);
    if c.choices@.len() == 0 {
        (s0, Seq::empty())
    } else {
        let ch = c.choices@[0];
        let (s1, e1) = start_step(s0);
        let (s2, e2) = opt_reasoning_step(s1, ch.delta.reasoning);
        let (s3, e3) = opt_text_step(s2, ch.delta.content);
        let (s4, e4) = fragments_step(s3, ch.delta.tool_calls@);
        let (s5, e5) = finish_step(s4, ch.finish_reason, c.usage);
        (s5, e1 + e2 + e3 + e4 + e5)
    }
}

/// How many blocks one chunk may open at most.
pub open spec fn block_budget(c: StreamChunk) -> int {
    if c.choices@.len() == 0 {
        0
    } else {
        3 + c.choices@[0].delta.tool_calls@.len() as int
    }
}

fn text_or_empty(o: &Option<String>) -> (r: String)
    ensures
        r@ == or_empty(opt_view(*o)),
{
    match o {
        Some(s) => s.clone(),
        None => String::new(),
    }
}

/// The state of one streaming call: ids seen first, the open block and its index.
pub struct StreamState {
    message_id: Option<String>,
    model: Option<String>,
    open: Option<BlockKind>,
    index: u64,
    tool_call_id: Option<String>,
    started: bool,
}

impl View for StreamState {
    type V = StateView;

    closed spec fn view(&self) -> StateView {
        StateView {
            message_id: opt_view(self.message_id),
            model: opt_view(self.model),
            open: self.open,
            index: self.index as nat,
            tool_call_id: opt_view(self.tool_call_id),
            started: self.started,
        }
    }
}

/// Appends one event, keeping the views in step.
fn emit(out: &mut Vec<StreamEvent>, e: StreamEvent)
    ensures
        event_views(final(out)@) == event_views(old(out)@).push(e@),
{
    out.push(e);
    assert(event_views(out@) =~= event_views(old(out)@).push(e@));
}

impl StreamState {
    pub fn new() -> (r: StreamState)
        ensures
            r@ == initial_state(),
    {
        StreamState {
            message_id: None,
            model: None,
            open: None,
            index: 0,
            tool_call_id: None,
            started: false,
        }
    }

    /// Whether one more chunk fits before the block index runs out.
    pub fn has_room_for(&self, chunk: &StreamChunk) -> (r: bool)
        ensures
            r == (self@.index + block_budget(*chunk) <= u64::MAX),
    {
        if chunk.choices.len() == 0 {
            true
        } else {
            let n = chunk.choices[0].delta.tool_calls.len();
            self.index <= u64::MAX - 3 && (n as u64) <= u64::MAX - 3 - self.index
        }
    }

    fn close(&mut self, out: &mut Vec<StreamEvent>)
        requires
            old(self)@.open is None || old(self)@.index < u64::MAX,
        ensures
            final(self)@ == close_block(old(self)@).0,
            event_views(final(out)@) == event_views(old(out)@) + close_block(old(self)@).1,
    {
        if self.open.is_some() {
            emit(out, StreamEvent::ContentBlockStop { index: self.index });
            self.open = None;
            self.index = self.index + 1;
        }
        assert(event_views(out@) =~= event_views(old(out)@) + close_block(old(self)@).1);
    }

    fn open_with(&mut self, kind: BlockKind, block: BlockStart, out: &mut Vec<StreamEvent>)
        requires
            old(self)@.open is None || old(self)@.index < u64::MAX,
        ensures
            final(self)@ == open_block(old(self)@, kind, block@).0,
            event_views(final(out)@) == event_views(old(out)@) + open_block(
                old(self)@,
                kind,
                block@,
            ).1,
    {
        let ghost before = event_views(out@);
        self.close(out);
        self.open = Some(kind);
        emit(out, StreamEvent::ContentBlockStart { index: self.index, block });
        assert(event_views(out@) =~= before + open_block(old(self)@, kind, block@).1);
    }

    fn on_reasoning(&mut self, r: &String, out: &mut Vec<StreamEvent>)
        requires
            old(self)@.index < u64::MAX,
        ensures
            final(self)@ == reasoning_step(old(self)@, r@).0,
            event_views(final(out)@) == event_views(old(out)@) + reasoning_step(old(self)@, r@).1,
            final(self)@.index <= old(self)@.index + 1,
    {
        if self.open != Some(BlockKind::Thinking) {
            self.open_with(BlockKind::Thinking, BlockStart::Thinking, out);
        }
        emit(out, StreamEvent::ContentBlockDelta { index: self.index, delta: BlockDelta::Thinking(r.clone()) });
        assert(event_views(out@) =~= event_views(old(out)@) + reasoning_step(old(self)@, r@).1);
    }

    fn on_text(&mut self, t: &String, out: &mut Vec<StreamEvent>)
        requires
            old(self)@.index < u64::MAX,
        ensures
            final(self)@ == text_step(old(self)@, t@).0,
            event_views(final(out)@) == event_views(old(out)@) + text_step(old(self)@, t@).1,
            final(self)@.index <= old(self)@.index + 1,
    {
        if t.as_str().is_empty() {
            assert(event_views(out@) =~= event_views(old(out)@) + text_step(old(self)@, t@).1);
            return;
        }
        if self.open != Some(BlockKind::Text) {
            self.open_with(BlockKind::Text, BlockStart::Text, out);
        }
        emit(out, StreamEvent::ContentBlockDelta { index: self.index, delta: BlockDelta::Text(t.clone()) });
        assert(event_views(out@) =~= event_views(old(out)@) + text_step(old(self)@, t@).1);
    }

    fn on_fragment(&mut self, f: &ToolCallDelta, out: &mut Vec<StreamEvent>)
        requires
            old(self)@.index < u64::MAX,
        ensures
            final(self)@ == fragment_step(old(self)@, *f).0,
            event_views(final(out)@) == event_views(old(out)@) + fragment_step(old(self)@, *f).1,
            final(self)@.index <= old(self)@.index + 1,
    {
        let ghost before = event_views(out@);
        match &f.id {
            Some(id) => {
                self.close(out);
                self.tool_call_id = Some(id.clone());
            },
            None => {},
        }
        assert(event_views(out@) =~= before + fragment_step_a(old(self)@, *f).1);
        match &f.name {
            Some(name) => {
                let id = text_or_empty(&self.tool_call_id);
                self.open_with(BlockKind::ToolUse, BlockStart::ToolUse { id, name: name.clone() }, out);
            },
            None => {},
        }
        match &f.arguments {
            Some(args) => {
                emit(out, StreamEvent::ContentBlockDelta { index: self.index, delta: BlockDelta::InputJson(args.clone()) });
            },
            None => {},
        }
        assert(event_views(out@) =~= before + fragment_step(old(self)@, *f).1);
    }

    fn on_finish(&mut self, finish: &Option<String>, usage: &Option<TokenUsage>, out: &mut Vec<StreamEvent>)
        requires
            old(self)@.index < u64::MAX,
        ensures
            final(self)@ == finish_step(old(self)@, *finish, *usage).0,
            event_views(final(out)@) == event_views(old(out)@) + finish_step(old(self)@, *finish, *usage).1,
            final(self)@.index <= old(self)@.index + 1,
    {
        match finish {
            Some(f) => {
                self.close(out);
                let stop_reason = stop_reason_text(f.as_str());
                let output_tokens = match usage {
                    Some(u) => Some(u.completion_tokens),
                    None => None,
                };
                emit(out, StreamEvent::MessageDelta { stop_reason, output_tokens });
            },
            None => {},
        }
        assert(event_views(out@) =~= event_views(old(out)@) + finish_step(old(self)@, *finish, *usage).1);
    }

    /// Takes one delta chunk and returns the events that it gives, in order.
    pub fn on_chunk(&mut self, chunk: &StreamChunk) -> (out: Vec<StreamEvent>)
        requires
            old(self)@.index + block_budget(*chunk) <= u64::MAX,
        ensures
            (final(self)@, event_views(out@)) == chunk_step(old(self)@, *chunk),
    {
        let mut out: Vec<StreamEvent> = Vec::new();
        if self.message_id.is_none() && !chunk.id.as_str().is_empty() {
            self.message_id = Some(chunk.id.clone());
        }
        if self.model.is_none() && !chunk.model.as_str().is_empty() {
            self.model = Some(chunk.model.clone());
        }
        assert(self@ == freeze_ids(old(self)@, *chunk));
        if chunk.choices.len() == 0 {
            assert(event_views(out@) =~= Seq::<EventView>::empty());
            return out;
        }
        let choice = &chunk.choices[0];
        let ghost s0 = self@;
        if !self.started {
            let id = text_or_empty(&self.message_id);
            let model = text_or_empty(&self.model);
            emit(&mut out, StreamEvent::MessageStart { id, model });
            self.started = true;
        }
        let ghost s1 = self@;
        let ghost e1 = event_views(out@);
        assert(e1 =~= start_step(s0).1);
        match &choice.delta.reasoning {
            Some(r) => self.on_reasoning(r, &mut out),
            None => {},
        }
        let ghost s2 = self@;
        let ghost e2 = event_views(out@);
        assert(e2 =~= e1 + opt_reasoning_step(s1, choice.delta.reasoning).1);
        match &choice.delta.content {
            Some(t) => self.on_text(t, &mut out),
            None => {},
        }
        let ghost s3 = self@;
        let ghost e3 = event_views(out@);
        assert(e3 =~= e2 + opt_text_step(s2, choice.delta.content).1);
        let calls = &choice.delta.tool_calls;
        let n = calls.len();
        let mut i: usize = 0;
        while i < n
            invariant
                n == calls@.len(),
                i <= n,
                (self@, event_views(out@)) == ({
                    let (a, ea) = fragments_step(s3, calls@.take(i as int));
                    (a, e3 + ea)
                }),
                self@.index <= s3.index + i,
                s3.index + n + 1 <= u64::MAX,
            decreases n - i,
        {
            self.on_fragment(&calls[i], &mut out);
            proof {
                assert(calls@.take(i + 1).drop_last() =~= calls@.take(i as int));
                assert(calls@.take(i + 1).last() == calls@[i as int]);
                let (a, ea) = fragments_step(s3, calls@.take(i as int));
                assert(event_views(out@) =~= e3 + (ea + fragment_step(a, calls@[i as int]).1));
            }
            i = i + 1;
        }
        assert(calls@.take(n as int) =~= calls@);
        self.on_finish(&choice.finish_reason, &chunk.usage, &mut out);
        assert(event_views(out@) =~= chunk_step(old(self)@, *chunk).1);
        out
    }

    /// The events for the end-of-stream sentinel: the message stops; the state stays.
    pub fn on_done(&self) -> (out: Vec<StreamEvent>)
        ensures
            event_views(out@) == seq![EventView::MessageStop],
    {
        let mut out: Vec<StreamEvent> = Vec::new();
        emit(&mut out, StreamEvent::MessageStop);
        assert(event_views(out@) =~= seq![EventView::MessageStop]);
        out
    }
}

/// The terminal event for a failure of the backend's byte stream.
pub fn transport_error_event(message: &str) -> (r: StreamEvent)
    ensures
        r@ == (EventView::Error { message: "Stream error: "@ + message@ }),
{
    let mut m = String::from_str("Stream error: ");
    m.append(message);
    StreamEvent::Error { message: m }
}

pub open spec fn fragment_step_a(s: StateView, f: ToolCallDelta) -> (StateView, Seq<EventView>) {
    match f.id {
        Some(id) => {
            let (c, ec) = close_block(s);
            (StateView { tool_call_id: Some(id@), ..c }, ec)
        },
        None => (s, Seq::empty()),
    }
}

/// The state and events after a run of chunks.
pub open spec fn run(s: StateView, chunks: Seq<StreamChunk>) -> (StateView, Seq<EventView>)
    decreases chunks.len(),
{
    if chunks.len() == 0 {
        (s, Seq::empty())
    } else {
        let (a, ea) = run(s, chunks.drop_last());
        let (b, eb) = chunk_step(a, chunks.last());
        (b, ea + eb)
    }
}

/// The indices of the block starts, in the order in which they were emitted.
pub open spec fn start_indices(evs: Seq<EventView>) -> Seq<nat>
    decreases evs.len(),
{
    if evs.len() == 0 {
        Seq::empty()
    } else {
        match evs.last() {
            EventView::BlockStart { index, .. } => start_indices(evs.drop_last()).push(index),
            _ => start_indices(evs.drop_last()),
        }
    }
}

/// The indices of the block stops, in the order in which they were emitted.
pub open spec fn stop_indices(evs: Seq<EventView>) -> Seq<nat>
    decreases evs.len(),
{
    if evs.len() == 0 {
        Seq::empty()
    } else {
        match evs.last() {
            EventView::BlockStop { index } => stop_indices(evs.drop_last()).push(index),
            _ => stop_indices(evs.drop_last()),
        }
    }
}

pub open spec fn count_up(n: nat) -> Seq<nat> {
    Seq::new(n, |i: int| i as nat)
}

/// Blocks were started at 0, 1, 2, ... and stopped at 0, 1, 2, ..., and only the
/// open block, if any, has not been stopped.
pub open spec fn lifecycle_ok(s: StateView, evs: Seq<EventView>) -> bool {
    &&& start_indices(evs) == count_up(
        if s.open is Some {
            s.index + 1
        } else {
            s.index
        },
    )
    &&& stop_indices(evs) == count_up(s.index)
}

proof fn lemma_indices_concat(a: Seq<EventView>, b: Seq<EventView>)
    ensures
        start_indices(a + b) == start_indices(a) + start_indices(b),
        stop_indices(a + b) == stop_indices(a) + stop_indices(b),
    decreases b.len(),
{
    if b.len() == 0 {
        assert(a + b =~= a);
        assert(start_indices(a) + start_indices(b) =~= start_indices(a));
        assert(stop_indices(a) + stop_indices(b) =~= stop_indices(a));
    } else {
        lemma_indices_concat(a, b.drop_last());
        assert((a + b).drop_last() =~= a + b.drop_last());
        assert((a + b).last() == b.last());
        assert(start_indices(a + b) =~= start_indices(a) + start_indices(b));
        assert(stop_indices(a + b) =~= stop_indices(a) + stop_indices(b));
    }
}

proof fn lemma_single(e: EventView)
    ensures
        start_indices(seq![e]) == (match e {
            EventView::BlockStart { index, .. } => seq![index],
            _ => Seq::<nat>::empty(),
        }),
        stop_indices(seq![e]) == (match e {
            EventView::BlockStop { index } => seq![index],
            _ => Seq::<nat>::empty(),
        }),
{
    assert(seq![e].drop_last() =~= Seq::<EventView>::empty());
    assert(seq![e].last() == e);
    assert(start_indices(Seq::<EventView>::empty()) =~= Seq::<nat>::empty());
    assert(stop_indices(Seq::<EventView>::empty()) =~= Seq::<nat>::empty());
    assert(Seq::<nat>::empty().push(0nat) =~= seq![0nat]);
    assert(start_indices(seq![e]) =~= (match e {
        EventView::BlockStart { index, .. } => seq![index],
        _ => Seq::<nat>::empty(),
    }));
    assert(stop_indices(seq![e]) =~= (match e {
        EventView::BlockStop { index } => seq![index],
        _ => Seq::<nat>::empty(),
    }));
}

/// An event that neither starts nor stops a block keeps the lifecycle.
proof fn lemma_push_other(s: StateView, evs: Seq<EventView>, e: EventView)
    requires
        lifecycle_ok(s, evs),
        !(e is BlockStart),
        !(e is BlockStop),
    ensures
        lifecycle_ok(s, evs.push(e)),
{
    lemma_indices_concat(evs, seq![e]);
    lemma_single(e);
    assert(evs.push(e) =~= evs + seq![e]);
    assert(start_indices(evs.push(e)) =~= start_indices(evs));
    assert(stop_indices(evs.push(e)) =~= stop_indices(evs));
}

proof fn lemma_close(s: StateView, evs: Seq<EventView>)
    requires
        lifecycle_ok(s, evs),
    ensures
        lifecycle_ok(close_block(s).0, evs + close_block(s).1),
{
    if s.open is Some {
        let e = EventView::BlockStop { index: s.index };
        lemma_indices_concat(evs, seq![e]);
        lemma_single(e);
        assert(stop_indices(evs + seq![e]) =~= count_up(s.index + 1));
        assert(start_indices(evs + seq![e]) =~= count_up(s.index + 1));
    } else {
        assert(evs + close_block(s).1 =~= evs);
    }
}

proof fn lemma_open(s: StateView, evs: Seq<EventView>, kind: BlockKind, block: BlockView)
    requires
        lifecycle_ok(s, evs),
    ensures
        lifecycle_ok(open_block(s, kind, block).0, evs + open_block(s, kind, block).1),
{
    lemma_close(s, evs);
    let (a, ea) = close_block(s);
    let e = EventView::BlockStart { index: a.index, block };
    lemma_indices_concat(evs + ea, seq![e]);
    lemma_single(e);
    assert(evs + open_block(s, kind, block).1 =~= (evs + ea) + seq![e]);
    assert(start_indices((evs + ea) + seq![e]) =~= count_up(a.index + 1));
    assert(stop_indices((evs + ea) + seq![e]) =~= count_up(a.index));
}

proof fn lemma_reasoning(s: StateView, evs: Seq<EventView>, r: Seq<char>)
    requires
        lifecycle_ok(s, evs),
    ensures
        lifecycle_ok(reasoning_step(s, r).0, evs + reasoning_step(s, r).1),
{
    let (a, ea) = if s.open == Some(BlockKind::Thinking) {
        (s, Seq::<EventView>::empty())
    } else {
        open_block(s, BlockKind::Thinking, BlockView::Thinking)
    };
    if s.open == Some(BlockKind::Thinking) {
        assert(evs + ea =~= evs);
    } else {
        lemma_open(s, evs, BlockKind::Thinking, BlockView::Thinking);
    }
    let e = EventView::BlockDelta { index: a.index, delta: DeltaView::Thinking(r) };
    lemma_push_other(a, evs + ea, e);
    assert(evs + reasoning_step(s, r).1 =~= (evs + ea).push(e));
}

proof fn lemma_text(s: StateView, evs: Seq<EventView>, t: Seq<char>)
    requires
        lifecycle_ok(s, evs),
    ensures
        lifecycle_ok(text_step(s, t).0, evs + text_step(s, t).1),
{
    if t.len() == 0 {
        assert(evs + text_step(s, t).1 =~= evs);
    } else {
        let (a, ea) = if s.open == Some(BlockKind::Text) {
            (s, Seq::<EventView>::empty())
        } else {
            open_block(s, BlockKind::Text, BlockView::Text)
        };
        if s.open == Some(BlockKind::Text) {
            assert(evs + ea =~= evs);
        } else {
            lemma_open(s, evs, BlockKind::Text, BlockView::Text);
        }
        let e = EventView::BlockDelta { index: a.index, delta: DeltaView::Text(t) };
        lemma_push_other(a, evs + ea, e);
        assert(evs + text_step(s, t).1 =~= (evs + ea).push(e));
    }
}

proof fn lemma_fragment(s: StateView, evs: Seq<EventView>, f: ToolCallDelta)
    requires
        lifecycle_ok(s, evs),
    ensures
        lifecycle_ok(fragment_step(s, f).0, evs + fragment_step(s, f).1),
{
    let (a, ea) = fragment_step_a(s, f);
    if f.id is Some {
        lemma_close(s, evs);
    } else {
        assert(evs + ea =~= evs);
    }
    assert(lifecycle_ok(a, evs + ea));
    let (b, eb) = match f.name {
        Some(name) => {
            let (c, ec) = open_block(
                a,
                BlockKind::ToolUse,
                BlockView::ToolUse { id: or_empty(a.tool_call_id), name: name@ },
            );
            (c, ea + ec)
        },
        None => (a, ea),
    };
    match f.name {
        Some(name) => {
            let block = BlockView::ToolUse { id: or_empty(a.tool_call_id), name: name@ };
            lemma_open(a, evs + ea, BlockKind::ToolUse, block);
            assert(evs + eb =~= (evs + ea) + open_block(a, BlockKind::ToolUse, block).1);
        },
        None => {},
    }
    assert(lifecycle_ok(b, evs + eb));
    match f.arguments {
        Some(args) => {
            let e = EventView::BlockDelta { index: b.index, delta: DeltaView::InputJson(args@) };
            lemma_push_other(b, evs + eb, e);
            assert(evs + fragment_step(s, f).1 =~= (evs + eb).push(e));
        },
        None => {},
    }
}

proof fn lemma_fragments(s: StateView, evs: Seq<EventView>, fs: Seq<ToolCallDelta>)
    requires
        lifecycle_ok(s, evs),
    ensures
        lifecycle_ok(fragments_step(s, fs).0, evs + fragments_step(s, fs).1),
    decreases fs.len(),
{
    if fs.len() == 0 {
        assert(evs + fragments_step(s, fs).1 =~= evs);
    } else {
        lemma_fragments(s, evs, fs.drop_last());
        let (a, ea) = fragments_step(s, fs.drop_last());
        lemma_fragment(a, evs + ea, fs.last());
        assert(evs + fragments_step(s, fs).1 =~= (evs + ea) + fragment_step(a, fs.last()).1);
    }
}

proof fn lemma_start(s: StateView, evs: Seq<EventView>)
    requires
        lifecycle_ok(s, evs),
    ensures
        lifecycle_ok(start_step(s).0, evs + start_step(s).1),
{
    if !s.started {
        let e = EventView::MessageStart { id: or_empty(s.message_id), model: or_empty(s.model) };
        lemma_push_other(s, evs, e);
        assert(evs + start_step(s).1 =~= evs.push(e));
    } else {
        assert(evs + start_step(s).1 =~= evs);
    }
}

proof fn lemma_opt_reasoning(s: StateView, evs: Seq<EventView>, r: Option<String>)
    requires
        lifecycle_ok(s, evs),
    ensures
        lifecycle_ok(opt_reasoning_step(s, r).0, evs + opt_reasoning_step(s, r).1),
{
    match r {
        Some(r) => lemma_reasoning(s, evs, r@),
        None => {
            assert(evs + opt_reasoning_step(s, None).1 =~= evs);
        },
    }
}

proof fn lemma_opt_text(s: StateView, evs: Seq<EventView>, t: Option<String>)
    requires
        lifecycle_ok(s, evs),
    ensures
        lifecycle_ok(opt_text_step(s, t).0, evs + opt_text_step(s, t).1),
{
    match t {
        Some(t) => lemma_text(s, evs, t@),
        None => {
            assert(evs + opt_text_step(s, None).1 =~= evs);
        },
    }
}

proof fn lemma_finish(
    s: StateView,
    evs: Seq<EventView>,
    finish: Option<String>,
    usage: Option<TokenUsage>,
)
    requires
        lifecycle_ok(s, evs),
    ensures
        lifecycle_ok(finish_step(s, finish, usage).0, evs + finish_step(s, finish, usage).1),
        finish is Some ==> finish_step(s, finish, usage).0.open is None,
{
    match finish {
        Some(f) => {
            lemma_close(s, evs);
            let (a, ea) = close_block(s);
            let e = EventView::MessageDelta {
                stop_reason: stop_reason_of(f@),
                output_tokens: usage_tokens(usage),
            };
            lemma_push_other(a, evs + ea, e);
            assert(evs + finish_step(s, finish, usage).1 =~= (evs + ea).push(e));
        },
        None => {
            assert(evs + finish_step(s, finish, usage).1 =~= evs);
        },
    }
}

#[verifier::rlimit(60)]
proof fn lemma_chunk(s: StateView, evs: Seq<EventView>, c: StreamChunk)
    requires
        lifecycle_ok(s, evs),
    ensures
        lifecycle_ok(chunk_step(s, c).0, evs + chunk_step(s, c).1),
        c.choices@.len() > 0 && c.choices@[0].finish_reason is Some ==> chunk_step(s, c).0.open
            is None,
{
    let s0 = freeze_ids(s, c);
    if c.choices@.len() == 0 {
        assert(evs + chunk_step(s, c).1 =~= evs);
    } else {
        let ch = c.choices@[0];
        let (s1, e1) = start_step(s0);
        lemma_start(s0, evs);
        let v1 = evs + e1;
        let (s2, e2) = opt_reasoning_step(s1, ch.delta.reasoning);
        lemma_opt_reasoning(s1, v1, ch.delta.reasoning);
        let v2 = v1 + e2;
        let (s3, e3) = opt_text_step(s2, ch.delta.content);
        lemma_opt_text(s2, v2, ch.delta.content);
        let v3 = v2 + e3;
        let (s4, e4) = fragments_step(s3, ch.delta.tool_calls@);
        lemma_fragments(s3, v3, ch.delta.tool_calls@);
        let v4 = v3 + e4;
        let (s5, e5) = finish_step(s4, ch.finish_reason, c.usage);
        lemma_finish(s4, v4, ch.finish_reason, c.usage);
        assert(chunk_step(s, c) == (s5, e1 + e2 + e3 + e4 + e5));
        assert(evs + (e1 + e2 + e3 + e4 + e5) =~= v4 + e5);
    }
}

/// For every run of chunks from a fresh state, block starts carry the indices
/// 0, 1, 2, ... in order and block stops carry 0, 1, 2, ... in order; every block
/// but the open one has been stopped, so once a chunk with a finish reason has been
/// taken, as many blocks have stopped as have started.
pub proof fn lemma_block_lifecycle(chunks: Seq<StreamChunk>)
    ensures
        lifecycle_ok(run(initial_state(), chunks).0, run(initial_state(), chunks).1),
        chunks.len() > 0 && chunks.last().choices@.len() > 0
            && chunks.last().choices@[0].finish_reason is Some ==> ({
            let (s, evs) = run(initial_state(), chunks);
            &&& s.open is None
            &&& start_indices(evs) == stop_indices(evs)
        }),
    decreases chunks.len(),
{
    if chunks.len() == 0 {
        assert(start_indices(Seq::<EventView>::empty()) =~= count_up(0));
        assert(stop_indices(Seq::<EventView>::empty()) =~= count_up(0));
    } else {
        lemma_block_lifecycle(chunks.drop_last());
        let (a, ea) = run(initial_state(), chunks.drop_last());
        lemma_chunk(a, ea, chunks.last());
    }
}

} // verus!
