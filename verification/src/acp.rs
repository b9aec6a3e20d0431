//! Agent Client Protocol server: what a message means, what is answered, and
//! what is run.
//!
//! Reading lines, writing answers and running commands is left to the caller.
//! Each session runs one prompt at a time; a notification is never answered.

use vstd::prelude::*;

use crate::exec::{StreamChunk, StreamKind};
use crate::json::{
    entries_at, is_document, items_at, json_entries, json_items, json_part, json_text, json_valid,
    part_at, text_at,
};
use crate::recipe::EntryView;
use crate::spec::{
    copy_pairs, pair_texts, shell_named, ExecKind, ExecResult, ExecSpec, ResultView, Shell,
};
use crate::text::{
    chars_of, copy_text, is_empty_text, join, join_texts, law_join_of_lists, lower_ascii, opt_text,
    same_text, text_of, texts, trim, trimmed,
};
use crate::textmap::{deep, TextMap};

verus! {

broadcast use vstd::seq::group_seq_axioms;

/// The protocol version that is spoken.
pub const PROTOCOL_VERSION: u64 = 1;

/// The most characters of one streamed piece.
pub const MAX_CHUNK_CHARS: usize = 8_192;

/// A session is busy.
pub const ERR_SESSION: i64 = -32000;

/// There is no such session.
pub const ERR_UNKNOWN_SESSION: i64 = -32001;

/// A parameter is missing.
pub const ERR_INVALID_PARAMS: i64 = -32602;

/// There is no such method.
pub const ERR_METHOD_NOT_FOUND: i64 = -32601;

// ---------------------------------------------------------------------------
// Messages
// ---------------------------------------------------------------------------

/// A message as far as the server reads it.
pub struct AcpRequest {
    /// Empty where there is none.
    pub method: String,
    /// The request's id as JSON; a notification has none.
    pub id: Option<String>,
    pub cwd: Option<String>,
    /// Empty where there is none.
    pub session_id: String,
    /// The text of the prompt: its text blocks, one on each line.
    pub prompt: String,
    /// How many text blocks the prompt has.
    pub blocks: usize,
}

/// The view of a message.
#[verifier::ext_equal]
pub struct RequestView {
    pub method: Seq<char>,
    pub id: Option<Seq<char>>,
    pub cwd: Option<Seq<char>>,
    pub session_id: Seq<char>,
    pub prompt: Seq<char>,
    pub blocks: usize,
}

impl View for AcpRequest {
    type V = RequestView;

    open spec fn view(&self) -> RequestView {
        RequestView {
            method: self.method@,
            id: opt_text(self.id),
            cwd: opt_text(self.cwd),
            session_id: self.session_id@,
            prompt: self.prompt@,
            blocks: self.blocks,
        }
    }
}

/// The texts that are there, in order.
pub open spec fn present(blocks: Seq<Option<Seq<char>>>) -> Seq<Seq<char>>
    decreases blocks.len(),
{
    if blocks.len() == 0 {
        seq![]
    } else {
        match blocks.last() {
            Some(t) => present(blocks.drop_last()).push(t),
            None => present(blocks.drop_last()),
        }
    }
}

/// The views of optional texts.
pub open spec fn opt_texts(v: Seq<Option<String>>) -> Seq<Option<Seq<char>>> {
    v.map_values(|o: Option<String>| opt_text(o))
}

/// The texts that are there, in order.
pub fn present_texts(blocks: &Vec<Option<String>>) -> (r: Vec<String>)
    ensures
        texts(r@) == present(opt_texts(blocks@)),
{
    let mut out: Vec<String> = Vec::new();
    let mut i: usize = 0;
    proof {
        assert(texts(out@) =~= Seq::<Seq<char>>::empty());
    }
    while i < blocks.len()
        invariant
            i <= blocks.len(),
            texts(out@) == present(opt_texts(blocks@).take(i as int)),
        decreases blocks.len() - i,
    {
        proof {
            let next = opt_texts(blocks@).take(i + 1);
            assert(next.drop_last() =~= opt_texts(blocks@).take(i as int));
            assert(next.last() == opt_text(blocks@[i as int]));
        }
        if let Some(t) = &blocks[i] {
            let text = t.clone();
            proof {
                assert(texts(out@.push(text)) =~= texts(out@).push(text@));
            }
            out.push(text);
        }
        i += 1;
    }
    proof {
        assert(opt_texts(blocks@).take(blocks@.len() as int) =~= opt_texts(blocks@));
    }
    out
}

/// The texts of a prompt's blocks, one on each line; a block without text is
/// left out.
pub fn join_blocks(blocks: &Vec<Option<String>>) -> (r: String)
    ensures
        r@ == join(present(opt_texts(blocks@)), "\n"@),
{
    join_texts(&present_texts(blocks), "\n")
}

/// The text of a block of the given type: a block of any other type than
/// `text` has none.
pub open spec fn typed_text(kind: Option<Seq<char>>, text: Option<Seq<char>>) -> Option<Seq<char>> {
    if kind == Some("text"@) {
        text
    } else {
        None
    }
}

/// The text of a block of the given type.
pub fn text_block(kind: Option<String>, text: Option<String>) -> (r: Option<String>)
    ensures
        opt_text(r) == typed_text(opt_text(kind), opt_text(text)),
{
    match kind {
        Some(k) => {
            if same_text(k.as_str(), "text") {
                text
            } else {
                None
            }
        },
        None => None,
    }
}

/// The text of a block.
pub open spec fn block_text(block: Seq<char>) -> Option<Seq<char>> {
    typed_text(json_text(block, "/type"@), json_text(block, "/text"@))
}

/// The texts of the text blocks of the prompt among a message's parameters.
pub open spec fn blocks_of(params: Seq<char>) -> Seq<Seq<char>> {
    match json_items(params, "/prompt"@) {
        Some(items) => present(items.map_values(|i: Seq<char>| block_text(i))),
        None => seq![],
    }
}

/// The text of the prompt among a message's parameters.
pub open spec fn prompt_of(params: Seq<char>) -> Seq<char> {
    join(blocks_of(params), "\n"@)
}

/// The texts of the text blocks of the prompt among a message's parameters.
pub fn text_blocks(params: &str) -> (r: Vec<String>)
    ensures
        texts(r@) == blocks_of(params@),
{
    match items_at(params, "/prompt") {
        None => {
            let r: Vec<String> = Vec::new();
            proof {
                assert(texts(r@) =~= blocks_of(params@));
            }
            r
        },
        Some(items) => {
            let ghost f = |i: Seq<char>| block_text(i);
            let mut blocks: Vec<Option<String>> = Vec::new();
            let mut i: usize = 0;
            while i < items.len()
                invariant
                    i <= items.len(),
                    f == (|i: Seq<char>| block_text(i)),
                    opt_texts(blocks@) == texts(items@).take(i as int).map_values(f),
                decreases items.len() - i,
            {
                let kind = text_at(items[i].as_str(), "/type");
                let b = text_block(kind, text_at(items[i].as_str(), "/text"));
                proof {
                    let all = texts(items@);
                    assert(all[i as int] == items@[i as int]@);
                    assert(opt_texts(blocks@.push(b)) =~= opt_texts(blocks@).push(opt_text(b)));
                    assert(all.take(i + 1).map_values(f) =~= all.take(i as int).map_values(f).push(
                        opt_text(b),
                    ));
                }
                blocks.push(b);
                i += 1;
            }
            proof {
                let all = texts(items@);
                assert(all.take(all.len() as int) =~= all);
            }
            present_texts(&blocks)
        },
    }
}

/// Join the text of all text blocks of the prompt among a message's parameters.
pub fn prompt_text(params: &str) -> (r: String)
    ensures
        r@ == prompt_of(params@),
{
    join_texts(&text_blocks(params), "\n")
}

/// A text, or the empty one.
pub open spec fn or_empty(o: Option<Seq<char>>) -> Seq<char> {
    match o {
        Some(s) => s,
        None => seq![],
    }
}

/// The parameters of a message.
pub open spec fn params_of(line: Seq<char>) -> Seq<char> {
    match json_part(line, "/params"@) {
        Some(p) => p,
        None => "{}"@,
    }
}

/// What a line means; blank lines and lines that are no JSON mean nothing.
pub open spec fn request_of(line: Seq<char>) -> Option<RequestView> {
    if trim(line).len() == 0 || !json_valid(line) {
        None
    } else {
        let params = params_of(line);
        Some(
            RequestView {
                method: or_empty(json_text(line, "/method"@)),
                id: json_part(line, "/id"@),
                cwd: json_text(params, "/cwd"@),
                session_id: or_empty(json_text(params, "/sessionId"@)),
                prompt: prompt_of(params),
                blocks: blocks_of(params).len() as usize,
            },
        )
    }
}

pub(crate) fn text_or_empty(o: Option<String>) -> (r: String)
    ensures
        r@ == or_empty(opt_text(o)),
{
    match o {
        Some(s) => s,
        None => String::new(),
    }
}

/// Read a line.
pub fn parse_request(line: &str) -> (r: Option<AcpRequest>)
    ensures
        match r {
            Some(q) => request_of(line@) == Some(q@),
            None => request_of(line@) is None,
        },
{
    if is_empty_text(trimmed(line).as_str()) || !is_document(line) {
        return None;
    }
    let params = match part_at(line, "/params") {
        Some(p) => p,
        None => "{}".to_string(),
    };
    let blocks = text_blocks(params.as_str());
    proof {
        assert(blocks_of(params@).len() == blocks@.len());
    }
    Some(
        AcpRequest {
            method: text_or_empty(text_at(line, "/method")),
            id: part_at(line, "/id"),
            cwd: text_at(params.as_str(), "/cwd"),
            session_id: text_or_empty(text_at(params.as_str(), "/sessionId")),
            prompt: join_texts(&blocks, "\n"),
            blocks: blocks.len(),
        },
    )
}

// ---------------------------------------------------------------------------
// Sessions
// ---------------------------------------------------------------------------

/// A session of a client.
pub struct Session {
    pub cwd: String,
    /// The client asked to abort the prompt in flight.
    pub abort: bool,
    /// A prompt is in flight.
    pub busy: bool,
}

/// The view of a session.
#[verifier::ext_equal]
pub struct SessionEntry {
    pub cwd: Seq<char>,
    pub abort: bool,
    pub busy: bool,
}

impl View for Session {
    type V = SessionEntry;

    open spec fn view(&self) -> SessionEntry {
        SessionEntry { cwd: self.cwd@, abort: self.abort, busy: self.busy }
    }
}

/// What a request is answered.
pub enum Reply {
    /// What the server can do.
    Capabilities,
    /// The id of a new session.
    SessionCreated(String),
    /// An empty result.
    Done,
    /// A refusal.
    Error { code: i64, message: String },
}

/// What the caller is to do about a message.
pub enum AcpAction {
    /// Nothing.
    Ignore,
    /// Answer the request with this id.
    Answer { id: String, reply: Reply },
    /// Run a prompt, and answer the request with this id, where there is one,
    /// when it has ended.
    Start {
        session_id: String,
        cwd: String,
        prompt: String,
        blocks: usize,
        request: Option<String>,
    },
}

/// The view of an answer.
#[verifier::ext_equal]
pub enum ReplyView {
    Capabilities,
    SessionCreated(Seq<char>),
    Done,
    Error { code: i64, message: Seq<char> },
}

/// The view of an action.
#[verifier::ext_equal]
pub enum ActionView {
    Ignore,
    Answer { id: Seq<char>, reply: ReplyView },
    Start {
        session_id: Seq<char>,
        cwd: Seq<char>,
        prompt: Seq<char>,
        blocks: usize,
        request: Option<Seq<char>>,
    },
}

impl View for Reply {
    type V = ReplyView;

    open spec fn view(&self) -> ReplyView {
        match self {
            Reply::Capabilities => ReplyView::Capabilities,
            Reply::SessionCreated(s) => ReplyView::SessionCreated(s@),
            Reply::Done => ReplyView::Done,
            Reply::Error { code, message } => ReplyView::Error { code: *code, message: message@ },
        }
    }
}

impl View for AcpAction {
    type V = ActionView;

    open spec fn view(&self) -> ActionView {
        match self {
            AcpAction::Ignore => ActionView::Ignore,
            AcpAction::Answer { id, reply } => ActionView::Answer { id: id@, reply: reply@ },
            AcpAction::Start { session_id, cwd, prompt, blocks, request } => ActionView::Start {
                session_id: session_id@,
                cwd: cwd@,
                prompt: prompt@,
                blocks: *blocks,
                request: opt_text(*request),
            },
        }
    }
}

/// An answer where there is a request to answer.
pub open spec fn answer(id: Option<Seq<char>>, reply: ReplyView) -> ActionView {
    match id {
        Some(i) => ActionView::Answer { id: i, reply },
        None => ActionView::Ignore,
    }
}

/// What a prompt for a known session leads to.
pub open spec fn prompted(
    sessions: Map<Seq<char>, SessionEntry>,
    q: RequestView,
) -> (Map<Seq<char>, SessionEntry>, ActionView) {
    let s = sessions[q.session_id];
    if s.busy {
        (
            sessions,
            answer(
                q.id,
                ReplyView::Error {
                    code: ERR_SESSION,
                    message: "session `"@ + q.session_id + "` already has a prompt in flight"@,
                },
            ),
        )
    } else if trim(q.prompt).len() == 0 {
        (
            sessions.insert(q.session_id, SessionEntry { abort: false, ..s }),
            answer(
                q.id,
                ReplyView::Error {
                    code: ERR_INVALID_PARAMS,
                    message: "session/prompt: prompt has no text blocks"@,
                },
            ),
        )
    } else {
        (
            sessions.insert(q.session_id, SessionEntry { abort: false, busy: true, ..s }),
            ActionView::Start {
                session_id: q.session_id,
                cwd: s.cwd,
                prompt: q.prompt,
                blocks: q.blocks,
                request: q.id,
            },
        )
    }
}

/// What a message leads to. `fresh` is the id that a new session gets.
pub open spec fn handled(
    sessions: Map<Seq<char>, SessionEntry>,
    q: RequestView,
    fresh: Seq<char>,
) -> (Map<Seq<char>, SessionEntry>, ActionView) {
    if q.method == "initialize"@ {
        (sessions, answer(q.id, ReplyView::Capabilities))
    } else if q.method == "session/new"@ {
        match q.cwd {
            Some(cwd) => (
                sessions.insert(fresh, SessionEntry { cwd, abort: false, busy: false }),
                answer(q.id, ReplyView::SessionCreated(fresh)),
            ),
            None => (
                sessions,
                answer(
                    q.id,
                    ReplyView::Error {
                        code: ERR_INVALID_PARAMS,
                        message: "session/new: missing required `cwd`"@,
                    },
                ),
            ),
        }
    } else if q.method == "session/prompt"@ {
        if sessions.contains_key(q.session_id) {
            prompted(sessions, q)
        } else {
            (
                sessions,
                answer(
                    q.id,
                    ReplyView::Error {
                        code: ERR_UNKNOWN_SESSION,
                        message: "unknown session `"@ + q.session_id + "`"@,
                    },
                ),
            )
        }
    } else if q.method == "session/cancel"@ {
        (
            if sessions.contains_key(q.session_id) {
                sessions.insert(
                    q.session_id,
                    SessionEntry { abort: true, ..sessions[q.session_id] },
                )
            } else {
                sessions
            },
            answer(q.id, ReplyView::Done),
        )
    } else if q.method == "ping"@ {
        (sessions, answer(q.id, ReplyView::Done))
    } else {
        (
            sessions,
            answer(
                q.id,
                ReplyView::Error {
                    code: ERR_METHOD_NOT_FOUND,
                    message: "method not found: "@ + q.method,
                },
            ),
        )
    }
}

/// The sessions once a prompt has ended.
pub open spec fn settled(sessions: Map<Seq<char>, SessionEntry>, id: Seq<char>) -> Map<
    Seq<char>,
    SessionEntry,
> {
    if sessions.contains_key(id) {
        sessions.insert(id, SessionEntry { busy: false, ..sessions[id] })
    } else {
        sessions
    }
}

fn answer_of(id: &Option<String>, reply: Reply) -> (r: AcpAction)
    ensures
        r@ == answer(opt_text(*id), reply@),
{
    match id {
        Some(i) => AcpAction::Answer { id: i.clone(), reply },
        None => AcpAction::Ignore,
    }
}

fn message_with(before: &str, name: &str, after: &str) -> (r: String)
    ensures
        r@ == before@ + name@ + after@,
{
    let mut s = before.to_string();
    s.append(name);
    s.append(after);
    s
}

/// The sessions of a client.
pub struct AcpServer {
    sessions: TextMap<Session>,
}

impl View for AcpServer {
    type V = Map<Seq<char>, SessionEntry>;

    closed spec fn view(&self) -> Map<Seq<char>, SessionEntry> {
        deep(self.sessions@)
    }
}

impl AcpServer {
    /// A server without sessions.
    pub fn new() -> (r: AcpServer)
        ensures
            r@ == Map::<Seq<char>, SessionEntry>::empty(),
    {
        let r = AcpServer { sessions: TextMap::new() };
        proof {
            assert(r@ =~= Map::<Seq<char>, SessionEntry>::empty());
        }
        r
    }

    /// Whether there is a session with this id.
    pub fn knows(&self, id: &str) -> (r: bool)
        ensures
            r == self@.contains_key(id@),
    {
        self.sessions.get(id).is_some()
    }

    /// Whether the prompt in flight is to be aborted.
    pub fn is_aborted(&self, id: &str) -> (r: bool)
        ensures
            r == (self@.contains_key(id@) && self@[id@].abort),
    {
        match self.sessions.get(id) {
            Some(s) => s.abort,
            None => false,
        }
    }

    fn put(&mut self, id: &str, cwd: String, abort: bool, busy: bool)
        ensures
            final(self)@ == old(self)@.insert(id@, SessionEntry { cwd: cwd@, abort, busy }),
    {
        let ghost before = self.sessions@;
        let s = Session { cwd, abort, busy };
        let ghost v = s@;
        self.sessions.insert(id.to_string(), s);
        proof {
            assert(deep(self.sessions@) =~= deep(before).insert(id@, v));
        }
    }

    fn prompt(&mut self, q: &AcpRequest) -> (r: AcpAction)
        requires
            old(self)@.contains_key(q.session_id@),
        ensures
            (final(self)@, r@) == prompted(old(self)@, q@),
    {
        let id = q.session_id.as_str();
        let (cwd, busy) = match self.sessions.get(id) {
            Some(s) => (s.cwd.clone(), s.busy),
            None => (String::new(), false),
        };
        if busy {
            return answer_of(
                &q.id,
                Reply::Error {
                    code: ERR_SESSION,
                    message: message_with("session `", id, "` already has a prompt in flight"),
                },
            );
        }
        if is_empty_text(trimmed(q.prompt.as_str()).as_str()) {
            self.put(id, cwd, false, false);
            return answer_of(
                &q.id,
                Reply::Error {
                    code: ERR_INVALID_PARAMS,
                    message: "session/prompt: prompt has no text blocks".to_string(),
                },
            );
        }
        self.put(id, cwd.clone(), false, true);
        AcpAction::Start {
            session_id: q.session_id.clone(),
            cwd,
            prompt: q.prompt.clone(),
            blocks: q.blocks,
            request: copy_text(&q.id),
        }
    }

    /// Take in a message, and decide what to do. `fresh` is the id that a new
    /// session gets.
    pub fn handle(&mut self, q: &AcpRequest, fresh: &str) -> (r: AcpAction)
        ensures
            (final(self)@, r@) == handled(old(self)@, q@, fresh@),
    {
        let method = q.method.as_str();
        if same_text(method, "initialize") {
            answer_of(&q.id, Reply::Capabilities)
        } else if same_text(method, "session/new") {
            match &q.cwd {
                Some(cwd) => {
                    self.put(fresh, cwd.clone(), false, false);
                    answer_of(&q.id, Reply::SessionCreated(fresh.to_string()))
                },
                None => answer_of(
                    &q.id,
                    Reply::Error {
                        code: ERR_INVALID_PARAMS,
                        message: "session/new: missing required `cwd`".to_string(),
                    },
                ),
            }
        } else if same_text(method, "session/prompt") {
            if self.knows(q.session_id.as_str()) {
                self.prompt(q)
            } else {
                answer_of(
                    &q.id,
                    Reply::Error {
                        code: ERR_UNKNOWN_SESSION,
                        message: message_with("unknown session `", q.session_id.as_str(), "`"),
                    },
                )
            }
        } else if same_text(method, "session/cancel") {
            let id = q.session_id.as_str();
            let found = match self.sessions.get(id) {
                Some(s) => Some((s.cwd.clone(), s.busy)),
                None => None,
            };
            if let Some((cwd, busy)) = found {
                self.put(id, cwd, true, busy);
            }
            answer_of(&q.id, Reply::Done)
        } else if same_text(method, "ping") {
            answer_of(&q.id, Reply::Done)
        } else {
            let mut message = "method not found: ".to_string();
            message.append(method);
            answer_of(&q.id, Reply::Error { code: ERR_METHOD_NOT_FOUND, message })
        }
    }

    /// Take in a line, and decide what to do.
    pub fn handle_line(&mut self, line: &str, fresh: &str) -> (r: AcpAction)
        ensures
            match request_of(line@) {
                Some(q) => (final(self)@, r@) == handled(old(self)@, q, fresh@),
                None => final(self)@ == old(self)@ && r@ is Ignore,
            },
    {
        match parse_request(line) {
            Some(q) => self.handle(&q, fresh),
            None => AcpAction::Ignore,
        }
    }

    /// A prompt has ended: its session takes the next one.
    pub fn prompt_done(&mut self, id: &str)
        ensures
            final(self)@ == settled(old(self)@, id@),
    {
        let found = match self.sessions.get(id) {
            Some(s) => Some((s.cwd.clone(), s.abort)),
            None => None,
        };
        if let Some((cwd, abort)) = found {
            self.put(id, cwd, abort, false);
        }
    }
}

// ---------------------------------------------------------------------------
// From prompt to spec
// ---------------------------------------------------------------------------

/// The options that a JSON object gives for a run.
pub struct RunOptions {
    pub shell: Option<String>,
    /// Deadline in ms.
    pub timeout_ms: Option<u64>,
    pub workdir: Option<String>,
    pub env: Option<Vec<(String, String)>>,
}

/// The view of run options.
#[verifier::ext_equal]
pub struct OptionsView {
    pub shell: Option<Seq<char>>,
    pub timeout_ms: Option<u64>,
    pub workdir: Option<Seq<char>>,
    pub env: Option<Seq<(Seq<char>, Seq<char>)>>,
}

impl View for RunOptions {
    type V = OptionsView;

    open spec fn view(&self) -> OptionsView {
        OptionsView {
            shell: opt_text(self.shell),
            timeout_ms: self.timeout_ms,
            workdir: opt_text(self.workdir),
            env: match self.env {
                Some(e) => Some(pair_texts(e@)),
                None => None,
            },
        }
    }
}

/// Environment entries from an object: a value that is no string is empty.
pub open spec fn env_of(entries: Seq<(Seq<char>, Option<Seq<char>>)>) -> Seq<
    (Seq<char>, Seq<char>),
> {
    entries.map_values(|e: (Seq<char>, Option<Seq<char>>)| (e.0, or_empty(e.1)))
}

/// The options that stand in a JSON object. The deadline is a number of
/// seconds, which the caller reads.
pub open spec fn options_of(doc: Seq<char>, timeout_ms: Option<u64>) -> OptionsView {
    OptionsView {
        shell: json_text(doc, "/shell"@),
        timeout_ms,
        workdir: json_text(doc, "/workdir"@),
        env: match json_entries(doc, "/env"@) {
            Some(e) => Some(env_of(e)),
            None => None,
        },
    }
}

/// Environment entries from an object: a value that is no string is empty.
pub fn env_entries(entries: Vec<(String, Option<String>)>) -> (r: Vec<(String, String)>)
    ensures
        pair_texts(r@) == env_of(
            entries@.map_values(|p: (String, Option<String>)| (p.0@, opt_text(p.1))),
        ),
{
    let ghost all = entries@.map_values(|p: (String, Option<String>)| (p.0@, opt_text(p.1)));
    let mut out: Vec<(String, String)> = Vec::new();
    let mut i: usize = 0;
    while i < entries.len()
        invariant
            i <= entries.len(),
            all == entries@.map_values(|p: (String, Option<String>)| (p.0@, opt_text(p.1))),
            pair_texts(out@) == env_of(all.take(i as int)),
        decreases entries.len() - i,
    {
        let e = (entries[i].0.clone(), text_or_empty(copy_text(&entries[i].1)));
        proof {
            assert(pair_texts(out@.push(e)) =~= pair_texts(out@).push((e.0@, e.1@)));
            assert(env_of(all.take(i + 1)) =~= env_of(all.take(i as int)).push((e.0@, e.1@)));
        }
        out.push(e);
        i += 1;
    }
    proof {
        assert(all.take(all.len() as int) =~= all);
    }
    out
}

/// Read the options that stand in a JSON object.
pub fn read_options(doc: &str, timeout_ms: Option<u64>) -> (r: RunOptions)
    ensures
        r@ == options_of(doc@, timeout_ms),
{
    let env = match entries_at(doc, "/env") {
        Some(e) => Some(env_entries(e)),
        None => None,
    };
    RunOptions {
        shell: text_at(doc, "/shell"),
        timeout_ms,
        workdir: text_at(doc, "/workdir"),
        env,
    }
}

/// `after` is `before` with the options in place: each that is given takes the
/// place of what stood there.
pub open spec fn applied(before: ExecSpec, o: OptionsView, after: ExecSpec) -> bool {
    &&& after.command@ == before.command@
    &&& after.kind == before.kind
    &&& after.shell == match o.shell {
        Some(s) => shell_named(lower_ascii(s)),
        None => before.shell,
    }
    &&& after.timeout_ms == match o.timeout_ms {
        Some(t) => t,
        None => before.timeout_ms,
    }
    &&& opt_text(after.workdir) == match o.workdir {
        Some(d) => Some(d),
        None => opt_text(before.workdir),
    }
    &&& pair_texts(after.env@) == match o.env {
        Some(e) => e,
        None => pair_texts(before.env@),
    }
    &&& after.grace_ms == before.grace_ms
    &&& after.max_output_bytes == before.max_output_bytes
    &&& after.direct == before.direct
    &&& after.error_maps == before.error_maps
}

/// Put options in place.
pub fn apply_spec_json(spec: &mut ExecSpec, o: &RunOptions)
    ensures
        applied(*old(spec), o@, *final(spec)),
{
    if let Some(s) = &o.shell {
        spec.shell = Shell::from_name(s.as_str());
    }
    if let Some(t) = o.timeout_ms {
        spec.timeout_ms = t;
    }
    if let Some(d) = &o.workdir {
        spec.workdir = Some(d.clone());
    }
    if let Some(e) = &o.env {
        spec.env = copy_pairs(e);
    }
}

/// A spec that runs `command` in `cwd` and says nothing else.
pub open spec fn is_plain(
    spec: ExecSpec,
    command: Seq<char>,
    kind: ExecKind,
    cwd: Seq<char>,
) -> bool {
    &&& spec.command@ == command
    &&& spec.kind == kind
    &&& spec.shell is None
    &&& opt_text(spec.workdir) == Some(cwd)
    &&& spec.env@.len() == 0
    &&& spec.timeout_ms == 0
    &&& spec.grace_ms == 0
    &&& spec.max_output_bytes == 0
    &&& spec.direct is None
    &&& deep(spec.error_maps@) == Map::<Seq<char>, EntryView>::empty()
}

/// `spec` is what a prompt asks for, where `command` and `script` are the
/// strings that its JSON object holds under these names.
pub open spec fn asked_for(
    spec: ExecSpec,
    text: Seq<char>,
    cwd: Seq<char>,
    command: Option<Seq<char>>,
    script: Option<Seq<char>>,
    o: OptionsView,
) -> bool {
    match (command, script) {
        (Some(c), _) => exists|plain: ExecSpec|
            is_plain(plain, c, ExecKind::Run, cwd) && #[trigger] applied(plain, o, spec),
        (None, Some(s)) => exists|plain: ExecSpec|
            is_plain(plain, s, ExecKind::Script, cwd) && #[trigger] applied(plain, o, spec),
        (None, None) => is_plain(spec, trim(text), ExecKind::Run, cwd),
    }
}

/// A prompt as a spec, where `command` and `script` are the strings that its
/// JSON object holds under these names: a command or a script with options, or
/// a plain command line.
pub fn spec_from_parts(
    text: &str,
    cwd: &str,
    command: Option<String>,
    script: Option<String>,
    o: &RunOptions,
) -> (r: ExecSpec)
    ensures
        asked_for(r, text@, cwd@, opt_text(command), opt_text(script), o@),
{
    let mut spec = ExecSpec::default();
    spec.workdir = Some(cwd.to_string());
    match command {
        Some(c) => {
            spec.command = c;
        },
        None => match script {
            Some(s) => {
                spec.command = s;
                spec.kind = ExecKind::Script;
            },
            None => {
                spec.command = trimmed(text);
                return spec;
            },
        },
    }
    let ghost plain = spec;
    proof {
        assert(is_plain(plain, plain.command@, plain.kind, cwd@));
    }
    apply_spec_json(&mut spec, o);
    proof {
        assert(applied(plain, o@, spec));
    }
    spec
}

/// What stands under a name in the JSON object that a prompt is: only a prompt
/// of a single text block is read as one.
pub open spec fn prompt_member(text: Seq<char>, blocks: usize, pointer: Seq<char>) -> Option<
    Seq<char>,
> {
    if blocks == 1 {
        json_text(trim(text), pointer)
    } else {
        None
    }
}

/// A prompt as a spec: a JSON object with `command` or `script` and options, in
/// a single text block, or a plain command line. `blocks` is the number of text
/// blocks, `timeout_ms` the deadline that the object gives.
pub fn spec_from_prompt(text: &str, cwd: &str, blocks: usize, timeout_ms: Option<u64>) -> (r:
    ExecSpec)
    ensures
        asked_for(
            r,
            text@,
            cwd@,
            prompt_member(text@, blocks, "/command"@),
            prompt_member(text@, blocks, "/script"@),
            options_of(trim(text@), timeout_ms),
        ),
{
    let doc = trimmed(text);
    let o = read_options(doc.as_str(), timeout_ms);
    if blocks == 1 {
        let command = text_at(doc.as_str(), "/command");
        let script = text_at(doc.as_str(), "/script");
        spec_from_parts(text, cwd, command, script, &o)
    } else {
        spec_from_parts(text, cwd, None, None, &o)
    }
}

// ---------------------------------------------------------------------------
// Streaming
// ---------------------------------------------------------------------------

/// A text cut into pieces of `max` characters, the last one possibly shorter.
pub open spec fn pieces(s: Seq<char>, max: nat) -> Seq<Seq<char>>
    decreases s.len(),
{
    if s.len() <= max || max == 0 {
        seq![s]
    } else {
        seq![s.take(max as int)] + pieces(s.skip(max as int), max)
    }
}

/// The pieces that a text is streamed in: no piece is longer than `max`, or
/// than one character where `max` is zero; a text that fits is one piece.
pub open spec fn stream_pieces(s: Seq<char>, max: nat) -> Seq<Seq<char>> {
    if max == 0 && s.len() > 0 {
        pieces(s, 1)
    } else {
        pieces(s, max)
    }
}

/// Cut a text into pieces of `max` characters at most.
pub fn split_chars(text: &str, max: usize) -> (r: Vec<String>)
    ensures
        texts(r@) == stream_pieces(text@, max as nat),
{
    let v = chars_of(text);
    let mut out: Vec<String> = Vec::new();
    if v.len() <= max {
        out.push(text.to_string());
        proof {
            assert(texts(out@) =~= seq![text@]);
        }
        return out;
    }
    let step: usize = if max == 0 {
        1
    } else {
        max
    };
    let mut i: usize = 0;
    proof {
        assert(v@.skip(0) =~= v@);
        assert(texts(out@) + pieces(v@, step as nat) =~= pieces(v@, step as nat));
    }
    while v.len() - i > step
        invariant
            step > 0,
            i <= v.len(),
            v@ == text@,
            texts(out@) + pieces(v@.skip(i as int), step as nat) == pieces(v@, step as nat),
        decreases v.len() - i,
    {
        let piece = text_of(&v, i, i + step);
        proof {
            let rest = v@.skip(i as int);
            assert(rest.take(step as int) =~= piece@);
            assert(rest.skip(step as int) =~= v@.skip(i + step));
            let before = texts(out@);
            assert(texts(out@.push(piece)) =~= before.push(piece@));
            assert(before + (seq![piece@] + pieces(v@.skip(i + step), step as nat))
                =~= before.push(piece@) + pieces(v@.skip(i + step), step as nat));
        }
        out.push(piece);
        i += step;
    }
    let last = text_of(&v, i, v.len());
    proof {
        assert(v@.skip(i as int) =~= last@);
        assert(texts(out@.push(last)) =~= texts(out@) + seq![last@]);
    }
    out.push(last);
    out
}

/// The texts of the updates that a piece of output is streamed in.
pub open spec fn updates_of(stream: StreamKind, text: Seq<char>) -> Seq<Seq<char>> {
    stream_pieces(text, MAX_CHUNK_CHARS as nat).map_values(
        |p: Seq<char>|
            match stream {
                StreamKind::Stdout => p,
                StreamKind::Stderr => "[stderr] "@ + p,
            },
    )
}

/// The updates of stdout make up its text again, each short enough; those of stderr
/// are as many, and each bears the mark in front of its part of the text.
pub proof fn law_updates_make_up_the_output(text: Seq<char>, i: int)
    ensures
        crate::session::concatenated(updates_of(StreamKind::Stdout, text)) == text,
        updates_of(StreamKind::Stderr, text).len() == updates_of(StreamKind::Stdout, text).len(),
        0 <= i < updates_of(StreamKind::Stdout, text).len() ==> {
            &&& updates_of(StreamKind::Stdout, text)[i].len() <= 8_192
            &&& updates_of(StreamKind::Stderr, text)[i] == "[stderr] "@ + updates_of(
                StreamKind::Stdout,
                text,
            )[i]
        },
        text.len() <= 8_192 ==> updates_of(StreamKind::Stdout, text) == seq![text],
{
    law_pieces_rejoin(text, MAX_CHUNK_CHARS as nat);
    assert(updates_of(StreamKind::Stdout, text) =~= stream_pieces(text, MAX_CHUNK_CHARS as nat));
}

/// The texts of the updates that a piece of output is streamed in; those of
/// stderr are marked.
pub fn update_texts(chunk: &StreamChunk) -> (r: Vec<String>)
    ensures
        texts(r@) == updates_of(chunk.stream, chunk.text@),
        texts(r@) == stream_pieces(chunk.text@, MAX_CHUNK_CHARS as nat).map_values(
            |p: Seq<char>|
                match chunk.stream {
                    StreamKind::Stdout => p,
                    StreamKind::Stderr => "[stderr] "@ + p,
                },
        ),
{
    let parts = split_chars(chunk.text.as_str(), MAX_CHUNK_CHARS);
    let ghost all = texts(parts@);
    let ghost f = |p: Seq<char>|
        match chunk.stream {
            StreamKind::Stdout => p,
            StreamKind::Stderr => "[stderr] "@ + p,
        };
    let mut out: Vec<String> = Vec::new();
    let mut i: usize = 0;
    while i < parts.len()
        invariant
            i <= parts.len(),
            all == texts(parts@),
            f == (|p: Seq<char>|
                match chunk.stream {
                    StreamKind::Stdout => p,
                    StreamKind::Stderr => "[stderr] "@ + p,
                }),
            texts(out@) == all.take(i as int).map_values(f),
        decreases parts.len() - i,
    {
        let text = match chunk.stream {
            StreamKind::Stdout => parts[i].clone(),
            StreamKind::Stderr => {
                let mut t = "[stderr] ".to_string();
                t.append(parts[i].as_str());
                t
            },
        };
        proof {
            assert(all[i as int] == parts@[i as int]@);
            assert(texts(out@.push(text)) =~= texts(out@).push(text@));
            assert(all.take(i + 1).map_values(f) =~= all.take(i as int).map_values(f).push(text@));
        }
        out.push(text);
        i += 1;
    }
    proof {
        assert(all.take(all.len() as int) =~= all);
    }
    out
}

/// Why a prompt's turn ended.
pub open spec fn turn_end(r: ResultView) -> Seq<char> {
    if r.aborted {
        "cancelled"@
    } else {
        "end_turn"@
    }
}

/// A turn was cancelled exactly if its run was aborted; that it failed or ran out of
/// time ends it like any other.
pub proof fn law_only_aborted_turns_are_cancelled(r: ResultView)
    ensures
        turn_end(r) == "cancelled"@ <==> r.aborted,
        turn_end(r) == "end_turn"@ <==> !r.aborted,
{
    reveal_strlit("cancelled");
    reveal_strlit("end_turn");
    assert("cancelled"@[0] == 'c' && "end_turn"@[0] == 'e');
}

/// Why a prompt's turn ended.
pub fn stop_reason(result: &ExecResult) -> (r: &'static str)
    ensures
        r@ == turn_end(result@),
        r@ == if result.aborted {
            "cancelled"@
        } else {
            "end_turn"@
        },
{
    if result.aborted {
        "cancelled"
    } else {
        "end_turn"
    }
}

// ---------------------------------------------------------------------------
// Laws
// ---------------------------------------------------------------------------

/// A notification is never answered.
pub proof fn law_notifications_get_no_answer(
    sessions: Map<Seq<char>, SessionEntry>,
    q: RequestView,
    fresh: Seq<char>,
)
    requires
        q.id is None,
    ensures
        !(handled(sessions, q, fresh).1 is Answer),
{
}

/// A request is answered, at once or when the prompt that it starts has ended:
/// it is never ignored, and the answer carries its id.
pub proof fn law_requests_are_answered(
    sessions: Map<Seq<char>, SessionEntry>,
    q: RequestView,
    fresh: Seq<char>,
    id: Seq<char>,
)
    requires
        q.id == Some(id),
    ensures
        match handled(sessions, q, fresh).1 {
            ActionView::Ignore => false,
            ActionView::Answer { id: i, .. } => i == id,
            ActionView::Start { request, .. } => request == Some(id),
        },
{
}

/// A new session is known under the id it was given, in the directory that the
/// client named, with nothing in flight; without a directory there is none. No
/// other session is touched.
pub proof fn law_new_session_is_known(
    sessions: Map<Seq<char>, SessionEntry>,
    q: RequestView,
    fresh: Seq<char>,
    id: Seq<char>,
    other: Seq<char>,
)
    requires
        q.method == "session/new"@,
        q.id == Some(id),
    ensures
        q.cwd matches Some(cwd) ==> {
            &&& handled(sessions, q, fresh).0.contains_key(fresh)
            &&& handled(sessions, q, fresh).0[fresh].cwd == cwd
            &&& !handled(sessions, q, fresh).0[fresh].busy
            &&& !handled(sessions, q, fresh).0[fresh].abort
            &&& handled(sessions, q, fresh).1 == (ActionView::Answer {
                id,
                reply: ReplyView::SessionCreated(fresh),
            })
        },
        q.cwd is None ==> handled(sessions, q, fresh).0 == sessions && (handled(
            sessions,
            q,
            fresh,
        ).1 matches ActionView::Answer { id: _, reply: ReplyView::Error { code, message: _ } }
            && code == -32602),
        other != fresh ==> handled(sessions, q, fresh).0.contains_key(other)
            == sessions.contains_key(other) && handled(sessions, q, fresh).0[other]
            == sessions[other],
{
    lemma_methods_differ();
    reveal_strlit("session/new");
    reveal_strlit("initialize");
    assert("session/new"@[0] == 's' && "initialize"@[0] == 'i');
}

/// A prompt with text for a free session is run as it came, in the session's
/// directory; a blank one, and one for a session that nobody knows, is refused.
pub proof fn law_prompt_is_run_as_it_came(
    sessions: Map<Seq<char>, SessionEntry>,
    q: RequestView,
    fresh: Seq<char>,
    other: Seq<char>,
)
    requires
        q.method == "session/prompt"@,
    ensures
        sessions.contains_key(q.session_id) && !sessions[q.session_id].busy && trim(q.prompt).len()
            > 0 ==> {
            &&& handled(sessions, q, fresh).1 == (ActionView::Start {
                session_id: q.session_id,
                cwd: sessions[q.session_id].cwd,
                prompt: q.prompt,
                blocks: q.blocks,
                request: q.id,
            })
            &&& handled(sessions, q, fresh).0[q.session_id].cwd == sessions[q.session_id].cwd
        },
        sessions.contains_key(q.session_id) && !sessions[q.session_id].busy && trim(q.prompt).len()
            == 0 ==> {
            &&& !(handled(sessions, q, fresh).1 is Start)
            &&& !handled(sessions, q, fresh).0[q.session_id].busy
            &&& !handled(sessions, q, fresh).0[q.session_id].abort
            &&& handled(sessions, q, fresh).0[q.session_id].cwd == sessions[q.session_id].cwd
            &&& q.id is Some ==> (handled(sessions, q, fresh).1 matches ActionView::Answer {
                id: _,
                reply: ReplyView::Error { code, message: _ },
            } && code == -32602)
        },
        !sessions.contains_key(q.session_id) ==> {
            &&& handled(sessions, q, fresh).0 == sessions
            &&& !(handled(sessions, q, fresh).1 is Start)
            &&& q.id is Some ==> (handled(sessions, q, fresh).1 matches ActionView::Answer {
                id: _,
                reply: ReplyView::Error { code, message: _ },
            } && code == -32001)
        },
        other != q.session_id ==> handled(sessions, q, fresh).0.contains_key(other)
            == sessions.contains_key(other) && handled(sessions, q, fresh).0[other]
            == sessions[other],
{
    lemma_methods_differ();
}

/// The methods that touch no session: what the server can do, a sign of life, and
/// a refusal of what nobody knows.
pub proof fn law_other_methods_touch_no_session(
    sessions: Map<Seq<char>, SessionEntry>,
    q: RequestView,
    fresh: Seq<char>,
    id: Seq<char>,
)
    requires
        q.method != "session/new"@,
        q.method != "session/prompt"@,
        q.method != "session/cancel"@,
        q.id == Some(id),
    ensures
        handled(sessions, q, fresh).0 == sessions,
        q.method == "initialize"@ ==> handled(sessions, q, fresh).1 == (ActionView::Answer {
            id,
            reply: ReplyView::Capabilities,
        }),
        q.method == "ping"@ ==> handled(sessions, q, fresh).1 == (ActionView::Answer {
            id,
            reply: ReplyView::Done,
        }),
        q.method != "initialize"@ && q.method != "ping"@ ==> (handled(sessions, q, fresh).1 matches
            ActionView::Answer { id: _, reply: ReplyView::Error { code, message: _ } } && code
            == -32601),
{
    reveal_strlit("initialize");
    reveal_strlit("ping");
    assert("initialize"@[0] == 'i' && "ping"@[0] == 'p');
}

/// A prompt that is an object runs its command, or else its script, with the
/// options that it gives in place of the session's; any other prompt is a command
/// line, run as it stands in the session's directory.
pub proof fn law_prompt_becomes_its_spec(
    spec: ExecSpec,
    text: Seq<char>,
    cwd: Seq<char>,
    command: Option<Seq<char>>,
    script: Option<Seq<char>>,
    o: OptionsView,
)
    requires
        asked_for(spec, text, cwd, command, script, o),
    ensures
        command matches Some(c) ==> spec.command@ == c && spec.kind == ExecKind::Run,
        command is None ==> (script matches Some(s) ==> spec.command@ == s && spec.kind
            == ExecKind::Script),
        command is None && script is None ==> {
            &&& spec.command@ == trim(text)
            &&& spec.kind == ExecKind::Run
            &&& opt_text(spec.workdir) == Some(cwd)
            &&& spec.shell is None
            &&& spec.timeout_ms == 0
            &&& spec.env@.len() == 0
        },
        command is Some || script is Some ==> {
            &&& o.workdir matches Some(d) ==> opt_text(spec.workdir) == Some(d)
            &&& o.workdir is None ==> opt_text(spec.workdir) == Some(cwd)
            &&& o.timeout_ms matches Some(t) ==> spec.timeout_ms == t
            &&& o.timeout_ms is None ==> spec.timeout_ms == 0
            &&& o.shell matches Some(s) ==> spec.shell == shell_named(lower_ascii(s))
            &&& o.shell is None ==> spec.shell is None
            &&& o.env matches Some(e) ==> pair_texts(spec.env@) == e
            &&& o.env is None ==> pair_texts(spec.env@).len() == 0
        },
        spec.direct is None,
        spec.grace_ms == 0,
        spec.max_output_bytes == 0,
        deep(spec.error_maps@) == Map::<Seq<char>, EntryView>::empty(),
{
}

/// Only text blocks are part of a prompt, each as it stands and in its order.
pub proof fn law_text_blocks_stay_in_order(
    first: Seq<Option<Seq<char>>>,
    then: Seq<Option<Seq<char>>>,
    t: Seq<char>,
)
    ensures
        present(first + then) == present(first) + present(then),
        present(seq![Some(t)]) == seq![t],
        present(seq![None::<Seq<char>>]) == Seq::<Seq<char>>::empty(),
        typed_text(Some("text"@), Some(t)) == Some(t),
    decreases then.len(),
{
    reveal_with_fuel(present, 2);
    let one = seq![Some(t)];
    let none = seq![None::<Seq<char>>];
    assert(one.drop_last() =~= Seq::<Option<Seq<char>>>::empty());
    assert(none.drop_last() =~= Seq::<Option<Seq<char>>>::empty());
    assert(present(one) =~= seq![t]);
    assert(present(none) =~= Seq::<Seq<char>>::empty());
    let all = first + then;
    if then.len() == 0 {
        assert(all =~= first);
        assert(present(all) =~= present(first) + present(then));
    } else {
        law_text_blocks_stay_in_order(first, then.drop_last(), t);
        assert(all.drop_last() =~= first + then.drop_last());
        assert(all.last() == then.last());
        assert(present(all) =~= present(first) + present(then));
    }
}

/// A block of another type than text has no text, whatever it holds.
pub proof fn law_other_blocks_have_no_text(kind: Option<Seq<char>>, text: Option<Seq<char>>)
    ensures
        kind != Some("text"@) ==> typed_text(kind, text) is None,
        kind == Some("text"@) ==> typed_text(kind, text) == text,
{
}

/// Only a prompt of a single text block is read as an object.
pub proof fn law_several_blocks_are_no_object(text: Seq<char>, blocks: usize, pointer: Seq<char>)
    ensures
        blocks != 1 ==> prompt_member(text, blocks, pointer) is None,
        blocks == 1 ==> prompt_member(text, blocks, pointer) == json_text(trim(text), pointer),
{
}

/// One prompt at a time: a prompt starts only where none is in flight, and the
/// session is busy from then on.
pub proof fn law_one_prompt_at_a_time(
    sessions: Map<Seq<char>, SessionEntry>,
    q: RequestView,
    fresh: Seq<char>,
)
    ensures
        handled(sessions, q, fresh).1 matches ActionView::Start { session_id, .. } ==> {
            &&& sessions.contains_key(session_id)
            &&& !sessions[session_id].busy
            &&& handled(sessions, q, fresh).0[session_id].busy
            &&& !handled(sessions, q, fresh).0[session_id].abort
        },
{
}

/// A busy session stays busy until its prompt has ended, whatever arrives but
/// a new session under its id; a second prompt is refused.
pub proof fn law_busy_session_refuses(
    sessions: Map<Seq<char>, SessionEntry>,
    q: RequestView,
    fresh: Seq<char>,
    id: Seq<char>,
)
    requires
        sessions.contains_key(id),
        sessions[id].busy,
        fresh != id,
    ensures
        handled(sessions, q, fresh).0.contains_key(id),
        handled(sessions, q, fresh).0[id].busy,
        handled(sessions, q, fresh).1 matches ActionView::Start { session_id, .. } ==> session_id
            != id,
        q.method == "session/prompt"@ && q.session_id == id && q.id is Some ==> handled(
            sessions,
            q,
            fresh,
        ).1 == answer(
            q.id,
            ReplyView::Error {
                code: (-32000) as i64,
                message: "session `"@ + id + "` already has a prompt in flight"@,
            },
        ),
{
    lemma_methods_differ();
}

/// A cancellation asks to abort the prompt of its own session, and of no other.
pub proof fn law_cancel_aborts(
    sessions: Map<Seq<char>, SessionEntry>,
    q: RequestView,
    fresh: Seq<char>,
    other: Seq<char>,
)
    requires
        q.method == "session/cancel"@,
        sessions.contains_key(q.session_id),
    ensures
        handled(sessions, q, fresh).0[q.session_id].abort,
        handled(sessions, q, fresh).0[q.session_id].busy == sessions[q.session_id].busy,
        handled(sessions, q, fresh).0[q.session_id].cwd == sessions[q.session_id].cwd,
        q.id matches Some(id) ==> handled(sessions, q, fresh).1 == (ActionView::Answer {
            id,
            reply: ReplyView::Done,
        }),
        other != q.session_id ==> handled(sessions, q, fresh).0.contains_key(other)
            == sessions.contains_key(other) && handled(sessions, q, fresh).0[other]
            == sessions[other],
{
    lemma_methods_differ();
}

/// A cancellation of a session that is not known changes nothing and is answered.
pub proof fn law_unknown_cancel_changes_nothing(
    sessions: Map<Seq<char>, SessionEntry>,
    q: RequestView,
    fresh: Seq<char>,
)
    requires
        q.method == "session/cancel"@,
        !sessions.contains_key(q.session_id),
    ensures
        handled(sessions, q, fresh).0 == sessions,
        q.id matches Some(id) ==> handled(sessions, q, fresh).1 == (ActionView::Answer {
            id,
            reply: ReplyView::Done,
        }),
{
    lemma_methods_differ();
}

/// A request is read by the names of its members, those of its parameters among
/// them; a line that is blank or no JSON is no request.
pub proof fn law_request_is_read_by_its_members(line: Seq<char>)
    ensures
        trim(line).len() == 0 ==> request_of(line) is None,
        !json_valid(line) ==> request_of(line) is None,
        json_valid(line) && trim(line).len() > 0 ==> {
            &&& request_of(line) matches Some(q)
            &&& json_text(line, "/method"@) matches Some(m) ==> q.method == m
            &&& json_text(line, "/method"@) is None ==> q.method.len() == 0
            &&& q.id == json_part(line, "/id"@)
            &&& json_part(line, "/params"@) matches Some(p) ==> {
                &&& q.cwd == json_text(p, "/cwd"@)
                &&& json_text(p, "/sessionId"@) matches Some(s) ==> q.session_id == s
                &&& json_items(p, "/prompt"@) is None ==> q.prompt.len() == 0
                &&& q.prompt == prompt_of(p)
            }
            &&& json_part(line, "/params"@) is None ==> q.cwd == json_text("{}"@, "/cwd"@)
        },
{
    if json_valid(line) && trim(line).len() > 0 {
        if let Some(p) = json_part(line, "/params"@) {
            if json_items(p, "/prompt"@) is None {
                assert(blocks_of(p) =~= Seq::<Seq<char>>::empty());
            }
        }
    }
}

/// A prompt is the text of its text blocks, in their order, with a line feed between
/// two of them; blocks of other types do not count.
pub proof fn law_prompt_is_the_text_of_its_blocks(
    params: Seq<char>,
    first: Seq<char>,
    second: Seq<char>,
)
    requires
        json_items(params, "/prompt"@) == Some(seq![first, second]),
    ensures
        ({
            let a = json_text(first, "/text"@);
            let b = json_text(second, "/text"@);
            let a_counts = json_text(first, "/type"@) == Some("text"@) && a is Some;
            let b_counts = json_text(second, "/type"@) == Some("text"@) && b is Some;
            &&& a_counts && b_counts ==> prompt_of(params) == a->0 + seq!['\n'] + b->0
                && blocks_of(params).len() == 2
            &&& a_counts && !b_counts ==> prompt_of(params) == a->0 && blocks_of(params).len() == 1
            &&& !a_counts && b_counts ==> prompt_of(params) == b->0 && blocks_of(params).len() == 1
            &&& !a_counts && !b_counts ==> prompt_of(params).len() == 0
        }),
{
    reveal_strlit("\n");
    assert("\n"@ =~= seq!['\n']);
    let items = seq![first, second];
    let all = items.map_values(|i: Seq<char>| block_text(i));
    let (x, y) = (block_text(first), block_text(second));
    assert(all =~= seq![x] + seq![y]);
    law_text_blocks_stay_in_order(seq![x], seq![y], seq![]);
    if let Some(t) = x {
        law_text_blocks_stay_in_order(seq![x], seq![y], t);
    }
    if let Some(t) = y {
        law_text_blocks_stay_in_order(seq![x], seq![y], t);
    }
    let kept = present(all);
    assert(kept == present(seq![x]) + present(seq![y]));
    if x is Some && y is Some {
        assert(kept =~= seq![x->0] + seq![y->0]);
        law_join_of_lists(seq![x->0], seq![y->0], "\n"@);
        law_join_of_lists(seq![y->0], seq![y->0], "\n"@);
    } else if x is Some {
        assert(kept =~= seq![x->0]);
    } else if y is Some {
        assert(kept =~= seq![y->0]);
    } else {
        assert(kept =~= Seq::<Seq<char>>::empty());
    }
}

/// The options of a run are read by their names; an environment variable without a
/// text is empty.
pub proof fn law_options_are_read_by_their_names(
    doc: Seq<char>,
    timeout_ms: Option<u64>,
    entries: Seq<(Seq<char>, Option<Seq<char>>)>,
    i: int,
)
    ensures
        options_of(doc, timeout_ms).shell == json_text(doc, "/shell"@),
        options_of(doc, timeout_ms).workdir == json_text(doc, "/workdir"@),
        options_of(doc, timeout_ms).timeout_ms == timeout_ms,
        json_entries(doc, "/env"@) is None ==> options_of(doc, timeout_ms).env is None,
        json_entries(doc, "/env"@) matches Some(e) ==> options_of(doc, timeout_ms).env == Some(
            env_of(e),
        ),
        env_of(entries).len() == entries.len(),
        0 <= i < entries.len() ==> {
            &&& env_of(entries)[i].0 == entries[i].0
            &&& entries[i].1 matches Some(v) ==> env_of(entries)[i].1 == v
            &&& entries[i].1 is None ==> env_of(entries)[i].1.len() == 0
        },
{
}

/// When its prompt has ended, a session takes the next one.
pub proof fn law_settled_session_is_free(
    sessions: Map<Seq<char>, SessionEntry>,
    id: Seq<char>,
)
    requires
        sessions.contains_key(id),
    ensures
        !settled(sessions, id)[id].busy,
        settled(sessions, id)[id].cwd == sessions[id].cwd,
        settled(sessions, id)[id].abort == sessions[id].abort,
        forall|other: Seq<char>|
            other != id ==> (#[trigger] settled(sessions, id).contains_key(other))
                == sessions.contains_key(other) && settled(sessions, id)[other] == sessions[other],
{
}

proof fn lemma_methods_differ()
    ensures
        "session/cancel"@ != "initialize"@,
        "session/cancel"@ != "session/new"@,
        "session/cancel"@ != "session/prompt"@,
        "session/prompt"@ != "initialize"@,
        "session/prompt"@ != "session/new"@,
{
    reveal_strlit("session/cancel");
    reveal_strlit("session/prompt");
    reveal_strlit("session/new");
    reveal_strlit("initialize");
    assert("session/cancel"@[8] == 'c');
    assert("session/prompt"@[8] == 'p');
    assert("session/new"@[8] == 'n');
    assert("initialize"@[0] == 'i');
    assert("session/cancel"@[0] == 's' && "session/prompt"@[0] == 's');
}

/// Pieces put back together are the text, none is longer than allowed, and all but
/// the last are as long as allowed.
pub proof fn law_pieces_rejoin(s: Seq<char>, max: nat)
    ensures
        crate::session::concatenated(stream_pieces(s, max)) == s,
        forall|i: int|
            0 <= i < stream_pieces(s, max).len() ==> (#[trigger] stream_pieces(s, max)[i]).len()
                <= max || (max == 0 && stream_pieces(s, max)[i].len() <= 1),
        forall|i: int|
            0 <= i < stream_pieces(s, max).len() - 1 ==> (#[trigger] stream_pieces(s, max)[i]).len()
                == if max == 0 {
                1
            } else {
                max
            },
        s.len() <= max ==> stream_pieces(s, max) == seq![s],
{
    if max == 0 && s.len() > 0 {
        lemma_pieces(s, 1);
    } else {
        lemma_pieces(s, max);
    }
}

proof fn lemma_pieces(s: Seq<char>, max: nat)
    requires
        max > 0 || s.len() == 0,
    ensures
        crate::session::concatenated(pieces(s, max)) == s,
        forall|i: int|
            0 <= i < pieces(s, max).len() ==> (#[trigger] pieces(s, max)[i]).len() <= max,
        forall|i: int|
            0 <= i < pieces(s, max).len() - 1 ==> (#[trigger] pieces(s, max)[i]).len() == max,
    decreases s.len(),
{
    let p = pieces(s, max);
    if s.len() <= max || max == 0 {
        assert(p.drop_last() =~= Seq::<Seq<char>>::empty());
        assert(crate::session::concatenated(p.drop_last()) =~= Seq::<char>::empty());
        assert(crate::session::concatenated(p) =~= s);
    } else {
        let first = s.take(max as int);
        let rest = pieces(s.skip(max as int), max);
        lemma_pieces(s.skip(max as int), max);
        lemma_concatenated_cons(first, rest);
        assert(s =~= first + s.skip(max as int));
        assert forall|i: int| 0 <= i < p.len() implies (#[trigger] p[i]).len() <= max by {
            if i > 0 {
                assert(p[i] == rest[i - 1]);
            }
        }
        assert forall|i: int| 0 <= i < p.len() - 1 implies (#[trigger] p[i]).len() == max by {
            if i > 0 {
                assert(p[i] == rest[i - 1]);
            }
        }
    }
}

proof fn lemma_concatenated_cons(first: Seq<char>, rest: Seq<Seq<char>>)
    ensures
        crate::session::concatenated(seq![first] + rest) == first + crate::session::concatenated(
            rest,
        ),
    decreases rest.len(),
{
    let all = seq![first] + rest;
    if rest.len() == 0 {
        assert(all.drop_last() =~= Seq::<Seq<char>>::empty());
        assert(crate::session::concatenated(all.drop_last()) =~= Seq::<char>::empty());
        assert(crate::session::concatenated(all) =~= first + crate::session::concatenated(rest));
    } else {
        assert(all.drop_last() =~= seq![first] + rest.drop_last());
        lemma_concatenated_cons(first, rest.drop_last());
        assert(crate::session::concatenated(all) =~= first + crate::session::concatenated(rest));
    }
}

} // verus!
