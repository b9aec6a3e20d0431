//! Model Context Protocol server: what a message means, what is answered, and
//! which tool is called with what.

use vstd::prelude::*;

use crate::acp::{
    apply_spec_json, options_of, or_empty, read_options, text_or_empty, OptionsView, RunOptions,
};
use crate::cli::{
    label_of, recipe_cap, recipe_patterns, recipe_timeout, recipe_view, truncate_label,
    DEFAULT_TAIL, DEFAULT_WAIT_MS,
};
use crate::json::{
    is_document, json_number, json_part, json_text, json_valid, number_at, part_at, text_at,
};
use crate::recipe::{Recipe, RecipeView};
use crate::spec::{pair_texts, shell_named, ExecKind, ExecResult, ExecSpec, ResultView};
use crate::text::{
    copy_text, is_empty_text, lower_ascii, opt_text, same_text, trim, trimmed,
};
use crate::textmap::{deep, TextMap};

verus! {

broadcast use vstd::seq::group_seq_axioms;

/// There is no such method.
pub const ERR_METHOD_NOT_FOUND: i64 = -32601;

// ---------------------------------------------------------------------------
// Messages
// ---------------------------------------------------------------------------

/// A message as far as the server reads it.
pub struct McpRequest {
    pub method: Option<String>,
    /// The request's id as JSON; a notification has none.
    pub id: Option<String>,
    /// The name of the tool to call; empty where there is none.
    pub tool: String,
    /// The arguments of the tool as JSON.
    pub arguments: String,
}

/// The view of a message.
#[verifier::ext_equal]
pub struct McpView {
    pub method: Option<Seq<char>>,
    pub id: Option<Seq<char>>,
    pub tool: Seq<char>,
    pub arguments: Seq<char>,
}

impl View for McpRequest {
    type V = McpView;

    open spec fn view(&self) -> McpView {
        McpView {
            method: opt_text(self.method),
            id: opt_text(self.id),
            tool: self.tool@,
            arguments: self.arguments@,
        }
    }
}

/// What a line means; blank lines and lines that are no JSON mean nothing.
pub open spec fn message_of(line: Seq<char>) -> Option<McpView> {
    if trim(line).len() == 0 || !json_valid(line) {
        None
    } else {
        Some(
            McpView {
                method: json_text(line, "/method"@),
                id: json_part(line, "/id"@),
                tool: or_empty(json_text(line, "/params/name"@)),
                arguments: match json_part(line, "/params/arguments"@) {
                    Some(a) => a,
                    None => "{}"@,
                },
            },
        )
    }
}

/// Read a line.
pub fn parse_message(line: &str) -> (r: Option<McpRequest>)
    ensures
        match r {
            Some(q) => message_of(line@) == Some(q@),
            None => message_of(line@) is None,
        },
{
    if is_empty_text(trimmed(line).as_str()) || !is_document(line) {
        return None;
    }
    Some(
        McpRequest {
            method: text_at(line, "/method"),
            id: part_at(line, "/id"),
            tool: text_or_empty(text_at(line, "/params/name")),
            arguments: match part_at(line, "/params/arguments") {
                Some(a) => a,
                None => "{}".to_string(),
            },
        },
    )
}

/// What a request is answered without calling a tool.
pub enum McpReply {
    /// What the server can do.
    Capabilities,
    /// An empty result.
    Done,
    /// The tools there are.
    Tools,
    /// A refusal.
    Error { code: i64, message: String },
}

/// What the caller is to do about a message.
pub enum McpAction {
    /// Nothing.
    Ignore,
    /// Answer the request with this id.
    Answer { id: String, reply: McpReply },
    /// Call a tool, and answer the request with this id, where there is one.
    Call { request: Option<String>, tool: String, arguments: String },
}

/// The view of an answer.
#[verifier::ext_equal]
pub enum McpReplyView {
    Capabilities,
    Done,
    Tools,
    Error { code: i64, message: Seq<char> },
}

/// The view of an action.
#[verifier::ext_equal]
pub enum McpActionView {
    Ignore,
    Answer { id: Seq<char>, reply: McpReplyView },
    Call { request: Option<Seq<char>>, tool: Seq<char>, arguments: Seq<char> },
}

impl View for McpReply {
    type V = McpReplyView;

    open spec fn view(&self) -> McpReplyView {
        match self {
            McpReply::Capabilities => McpReplyView::Capabilities,
            McpReply::Done => McpReplyView::Done,
            McpReply::Tools => McpReplyView::Tools,
            McpReply::Error { code, message } => McpReplyView::Error {
                code: *code,
                message: message@,
            },
        }
    }
}

impl View for McpAction {
    type V = McpActionView;

    open spec fn view(&self) -> McpActionView {
        match self {
            McpAction::Ignore => McpActionView::Ignore,
            McpAction::Answer { id, reply } => McpActionView::Answer { id: id@, reply: reply@ },
            McpAction::Call { request, tool, arguments } => McpActionView::Call {
                request: opt_text(*request),
                tool: tool@,
                arguments: arguments@,
            },
        }
    }
}

/// An answer where there is a request to answer.
pub open spec fn answered(id: Option<Seq<char>>, reply: McpReplyView) -> McpActionView {
    match id {
        Some(i) => McpActionView::Answer { id: i, reply },
        None => McpActionView::Ignore,
    }
}

/// What a message leads to.
pub open spec fn routed(q: McpView) -> McpActionView {
    if q.method == Some("initialize"@) {
        answered(q.id, McpReplyView::Capabilities)
    } else if q.method == Some("notifications/initialized"@) || q.method == Some(
        "notifications/cancelled"@,
    ) {
        McpActionView::Ignore
    } else if q.method == Some("ping"@) {
        answered(q.id, McpReplyView::Done)
    } else if q.method == Some("tools/list"@) {
        answered(q.id, McpReplyView::Tools)
    } else if q.method == Some("tools/call"@) {
        McpActionView::Call { request: q.id, tool: q.tool, arguments: q.arguments }
    } else {
        answered(
            q.id,
            McpReplyView::Error {
                code: ERR_METHOD_NOT_FOUND,
                message: "method not found: "@ + match q.method {
                    Some(m) => m,
                    None => "?"@,
                },
            },
        )
    }
}

fn answer_with(id: &Option<String>, reply: McpReply) -> (r: McpAction)
    ensures
        r@ == answered(opt_text(*id), reply@),
{
    match id {
        Some(i) => McpAction::Answer { id: i.clone(), reply },
        None => McpAction::Ignore,
    }
}

fn is_method(q: &McpRequest, name: &str) -> (r: bool)
    ensures
        r == (q@.method == Some(name@)),
{
    match &q.method {
        Some(m) => same_text(m.as_str(), name),
        None => false,
    }
}

/// Decide what to do about a message.
pub fn route(q: &McpRequest) -> (r: McpAction)
    ensures
        r@ == routed(q@),
{
    if is_method(q, "initialize") {
        answer_with(&q.id, McpReply::Capabilities)
    } else if is_method(q, "notifications/initialized") || is_method(
        q,
        "notifications/cancelled",
    ) {
        McpAction::Ignore
    } else if is_method(q, "ping") {
        answer_with(&q.id, McpReply::Done)
    } else if is_method(q, "tools/list") {
        answer_with(&q.id, McpReply::Tools)
    } else if is_method(q, "tools/call") {
        McpAction::Call {
            request: copy_text(&q.id),
            tool: q.tool.clone(),
            arguments: q.arguments.clone(),
        }
    } else {
        let mut message = "method not found: ".to_string();
        match &q.method {
            Some(m) => message.append(m.as_str()),
            None => message.append("?"),
        }
        answer_with(&q.id, McpReply::Error { code: ERR_METHOD_NOT_FOUND, message })
    }
}

/// Decide what to do about a line.
pub fn route_line(line: &str) -> (r: McpAction)
    ensures
        match message_of(line@) {
            Some(q) => r@ == routed(q),
            None => r@ is Ignore,
        },
{
    match parse_message(line) {
        Some(q) => route(&q),
        None => McpAction::Ignore,
    }
}

// ---------------------------------------------------------------------------
// Tools
// ---------------------------------------------------------------------------

/// The deadline that a tool call names, in ms, or zero.
pub open spec fn given_ms(o: OptionsView) -> u64 {
    match o.timeout_ms {
        Some(t) => t,
        None => 0,
    }
}

/// `spec` runs a command with the options of a tool call under a project's
/// recipe, which gives the deadline where the call names none, the output cap and
/// the error patterns.
pub open spec fn tool_built(
    spec: ExecSpec,
    command: Seq<char>,
    kind: ExecKind,
    o: OptionsView,
    recipe: Option<RecipeView>,
) -> bool {
    &&& spec.command@ == command
    &&& spec.kind == kind
    &&& spec.shell == match o.shell {
        Some(s) => shell_named(lower_ascii(s)),
        None => None,
    }
    &&& opt_text(spec.workdir) == o.workdir
    &&& pair_texts(spec.env@) == match o.env {
        Some(e) => e,
        None => seq![],
    }
    &&& spec.timeout_ms == match (given_ms(o), recipe_timeout(recipe)) {
        (0, Some(t)) => t,
        (ms, _) => ms,
    }
    &&& spec.grace_ms == 0
    &&& spec.max_output_bytes == match recipe_cap(recipe) {
        Some(m) => m as usize,
        None => 0,
    }
    &&& spec.direct is None
    &&& deep(spec.error_maps@) == recipe_patterns(recipe)
}

/// Build the spec of a tool call.
pub fn spec_from_args(
    command: String,
    kind: ExecKind,
    o: &RunOptions,
    recipe: &Option<Recipe>,
) -> (r: ExecSpec)
    ensures
        tool_built(r, command@, kind, o@, recipe_view(*recipe)),
        r.command@ == command@,
        recipe matches Some(rec) ==> deep(r.error_maps@) == rec@.error_maps,
{
    let mut spec = ExecSpec::default();
    spec.command = command;
    spec.kind = kind;
    proof {
        assert(pair_texts(spec.env@) =~= Seq::<(Seq<char>, Seq<char>)>::empty());
    }
    apply_spec_json(&mut spec, o);
    if let Some(r) = recipe {
        if spec.timeout_ms == 0 {
            if let Some(t) = r.default_timeout_ms() {
                spec.timeout_ms = t;
            }
        }
        if let Some(m) = r.max_output_bytes() {
            spec.max_output_bytes = m as usize;
        }
        spec.error_maps = TextMap::merged(&TextMap::new(), &r.error_maps);
        proof {
            assert(deep(spec.error_maps@) =~= r@.error_maps);
        }
    }
    spec
}

/// A deadline that a tool call names counts before the recipe's, and the
/// recipe's before the built-in default.
pub proof fn law_call_beats_recipe(
    spec: ExecSpec,
    command: Seq<char>,
    kind: ExecKind,
    o: OptionsView,
    recipe: Option<RecipeView>,
)
    requires
        tool_built(spec, command, kind, o, recipe),
    ensures
        given_ms(o) > 0 ==> spec.timeout_ms == given_ms(o),
        given_ms(o) == 0 ==> (recipe_timeout(recipe) matches Some(t) ==> spec.timeout_ms == t),
        given_ms(o) == 0 && recipe_timeout(recipe) is None ==> spec.timeout_ms == 0,
{
}

/// A tool call runs what it names: the command or script, in the shell, the
/// directory and the environment that it gives; its deadline counts before the
/// recipe's, and the recipe's output cap and error patterns go along.
pub proof fn law_call_is_handed_on(
    spec: ExecSpec,
    command: Seq<char>,
    kind: ExecKind,
    o: OptionsView,
    recipe: Option<RecipeView>,
)
    requires
        tool_built(spec, command, kind, o, recipe),
    ensures
        spec.command@ == command,
        spec.kind == kind,
        spec.direct is None,
        spec.grace_ms == 0,
        opt_text(spec.workdir) == o.workdir,
        o.env matches Some(e) ==> pair_texts(spec.env@) == e,
        o.env is None ==> pair_texts(spec.env@).len() == 0,
        o.shell is None ==> spec.shell is None,
        o.shell matches Some(s) ==> spec.shell == shell_named(lower_ascii(s)),
        o.timeout_ms matches Some(t) ==> (t > 0 ==> spec.timeout_ms == t),
        o.timeout_ms is None ==> {
            &&& recipe is None ==> spec.timeout_ms == 0
            &&& recipe matches Some(r) ==> {
                &&& r.timeouts is None ==> spec.timeout_ms == 0
                &&& r.timeouts matches Some(t) ==> {
                    &&& t.default_ms matches Some(ms) ==> spec.timeout_ms == ms
                    &&& t.default_ms is None ==> spec.timeout_ms == 0
                }
            }
        },
        recipe matches Some(r) ==> {
            &&& r.conventions matches Some(c) ==> {
                &&& c.max_output_bytes matches Some(m) ==> (m <= usize::MAX
                    ==> spec.max_output_bytes == m)
                &&& c.max_output_bytes is None ==> spec.max_output_bytes == 0
            }
            &&& r.conventions is None ==> spec.max_output_bytes == 0
        },
{
}

/// Every error pattern of a recipe goes along with a tool call, with its class and
/// its hint, and no other pattern does.
pub proof fn law_patterns_go_along_with_the_call(
    spec: ExecSpec,
    command: Seq<char>,
    kind: ExecKind,
    o: OptionsView,
    recipe: RecipeView,
    pattern: Seq<char>,
)
    requires
        tool_built(spec, command, kind, o, Some(recipe)),
    ensures
        recipe.error_maps.contains_key(pattern) <==> deep(spec.error_maps@).contains_key(pattern),
        recipe.error_maps.contains_key(pattern) ==> deep(spec.error_maps@)[pattern].class
            == recipe.error_maps[pattern].class && deep(spec.error_maps@)[pattern].hint
            == recipe.error_maps[pattern].hint,
{
}

/// The arguments of a tool call as far as the tools read them.
pub struct ToolArgs {
    pub command: String,
    pub script: String,
    pub label: Option<String>,
    pub id: String,
    pub tail: Option<u64>,
    pub options: RunOptions,
}

/// The view of the arguments.
#[verifier::ext_equal]
pub struct ToolArgsView {
    pub command: Seq<char>,
    pub script: Seq<char>,
    pub label: Option<Seq<char>>,
    pub id: Seq<char>,
    pub tail: Option<u64>,
    pub options: OptionsView,
}

impl View for ToolArgs {
    type V = ToolArgsView;

    open spec fn view(&self) -> ToolArgsView {
        ToolArgsView {
            command: self.command@,
            script: self.script@,
            label: opt_text(self.label),
            id: self.id@,
            tail: self.tail,
            options: self.options@,
        }
    }
}

/// What stands in the arguments of a tool call. The deadline is a number of
/// seconds, which the caller reads.
pub open spec fn args_of(doc: Seq<char>, timeout_ms: Option<u64>) -> ToolArgsView {
    ToolArgsView {
        command: or_empty(json_text(doc, "/command"@)),
        script: or_empty(json_text(doc, "/script"@)),
        label: json_text(doc, "/label"@),
        id: or_empty(json_text(doc, "/id"@)),
        tail: json_number(doc, "/tail"@),
        options: options_of(doc, timeout_ms),
    }
}

/// Read the arguments of a tool call.
pub fn read_args(doc: &str, timeout_ms: Option<u64>) -> (r: ToolArgs)
    ensures
        r@ == args_of(doc@, timeout_ms),
{
    ToolArgs {
        command: text_or_empty(text_at(doc, "/command")),
        script: text_or_empty(text_at(doc, "/script")),
        label: text_at(doc, "/label"),
        id: text_or_empty(text_at(doc, "/id")),
        tail: number_at(doc, "/tail"),
        options: read_options(doc, timeout_ms),
    }
}

/// What a tool call asks for.
pub enum ToolCall {
    /// Run a command or a script.
    Run(ExecSpec),
    /// Take a snapshot of the host.
    Probe,
    /// Start a background session.
    Start { spec: ExecSpec, label: String },
    Status(String),
    Output { id: String, tail: usize },
    Kill(String),
    Wait { id: String, timeout_ms: u64 },
    List,
    /// The call is refused with this message.
    Refuse(String),
}

/// What is said where an argument is missing.
pub open spec fn argument_missing(tool: Seq<char>, argument: Seq<char>) -> Seq<char> {
    tool + ": missing required argument `"@ + argument + "`"@
}

/// `c` is what a tool call asks for.
pub open spec fn tool_asked(
    c: ToolCall,
    tool: Seq<char>,
    a: ToolArgsView,
    recipe: Option<RecipeView>,
) -> bool {
    if tool == "exec.run"@ {
        if a.command.len() == 0 {
            c matches ToolCall::Refuse(m) && m@ == argument_missing(tool, "command"@)
        } else {
            c matches ToolCall::Run(spec) && tool_built(
                spec,
                a.command,
                ExecKind::Run,
                a.options,
                recipe,
            )
        }
    } else if tool == "exec.script"@ {
        if a.script.len() == 0 {
            c matches ToolCall::Refuse(m) && m@ == argument_missing(tool, "script"@)
        } else {
            c matches ToolCall::Run(spec) && tool_built(
                spec,
                a.script,
                ExecKind::Script,
                a.options,
                recipe,
            )
        }
    } else if tool == "exec.probe"@ {
        c is Probe
    } else if tool == "session.start"@ {
        if a.command.len() == 0 {
            c matches ToolCall::Refuse(m) && m@ == argument_missing(tool, "command"@)
        } else {
            c matches ToolCall::Start { spec, label } && tool_built(
                spec,
                a.command,
                ExecKind::Run,
                a.options,
                None,
            ) && label@ == match a.label {
                Some(l) => l,
                None => label_of(a.command),
            }
        }
    } else if tool == "session.list"@ {
        c is List
    } else if tool == "session.status"@ || tool == "session.output"@ || tool == "session.kill"@
        || tool == "session.wait"@ {
        if a.id.len() == 0 {
            c matches ToolCall::Refuse(m) && m@ == argument_missing(tool, "id"@)
        } else if tool == "session.status"@ {
            c matches ToolCall::Status(id) && id@ == a.id
        } else if tool == "session.output"@ {
            c matches ToolCall::Output { id, tail } && id@ == a.id && tail == match a.tail {
                Some(t) => t as usize,
                None => DEFAULT_TAIL,
            }
        } else if tool == "session.kill"@ {
            c matches ToolCall::Kill(id) && id@ == a.id
        } else {
            c matches ToolCall::Wait { id, timeout_ms } && id@ == a.id && timeout_ms
                == match a.options.timeout_ms {
                Some(t) => t,
                None => DEFAULT_WAIT_MS,
            }
        }
    } else {
        c matches ToolCall::Refuse(m) && m@ == "unknown tool `"@ + tool + "`"@
    }
}

fn missing_argument(tool: &str, argument: &str) -> (r: ToolCall)
    ensures
        r matches ToolCall::Refuse(m) && m@ == argument_missing(tool@, argument@),
{
    let mut m = tool.to_string();
    m.append(": missing required argument `");
    m.append(argument);
    m.append("`");
    ToolCall::Refuse(m)
}

/// Decide what a tool call asks for.
pub fn call_tool(tool: &str, a: &ToolArgs, recipe: &Option<Recipe>) -> (c: ToolCall)
    ensures
        tool_asked(c, tool@, a@, recipe_view(*recipe)),
{
    if same_text(tool, "exec.run") {
        if is_empty_text(a.command.as_str()) {
            return missing_argument(tool, "command");
        }
        ToolCall::Run(spec_from_args(a.command.clone(), ExecKind::Run, &a.options, recipe))
    } else if same_text(tool, "exec.script") {
        if is_empty_text(a.script.as_str()) {
            return missing_argument(tool, "script");
        }
        ToolCall::Run(spec_from_args(a.script.clone(), ExecKind::Script, &a.options, recipe))
    } else if same_text(tool, "exec.probe") {
        ToolCall::Probe
    } else if same_text(tool, "session.start") {
        if is_empty_text(a.command.as_str()) {
            return missing_argument(tool, "command");
        }
        let label = match &a.label {
            Some(l) => l.clone(),
            None => truncate_label(a.command.as_str()),
        };
        let spec = spec_from_args(a.command.clone(), ExecKind::Run, &a.options, &None);
        ToolCall::Start { spec, label }
    } else if same_text(tool, "session.list") {
        ToolCall::List
    } else if same_text(tool, "session.status") || same_text(tool, "session.output") || same_text(
        tool,
        "session.kill",
    ) || same_text(tool, "session.wait") {
        if is_empty_text(a.id.as_str()) {
            return missing_argument(tool, "id");
        }
        let id = a.id.clone();
        if same_text(tool, "session.status") {
            ToolCall::Status(id)
        } else if same_text(tool, "session.output") {
            let tail: usize = match a.tail {
                Some(t) => t as usize,
                None => DEFAULT_TAIL,
            };
            ToolCall::Output { id, tail }
        } else if same_text(tool, "session.kill") {
            ToolCall::Kill(id)
        } else {
            let timeout_ms: u64 = match a.options.timeout_ms {
                Some(t) => t,
                None => DEFAULT_WAIT_MS,
            };
            ToolCall::Wait { id, timeout_ms }
        }
    } else {
        let mut m = "unknown tool `".to_string();
        m.append(tool);
        m.append("`");
        ToolCall::Refuse(m)
    }
}

/// Decide what a tool call with these arguments, as JSON, asks for.
pub fn call_tool_json(
    tool: &str,
    arguments: &str,
    timeout_ms: Option<u64>,
    recipe: &Option<Recipe>,
) -> (c: ToolCall)
    ensures
        tool_asked(c, tool@, args_of(arguments@, timeout_ms), recipe_view(*recipe)),
{
    let a = read_args(arguments, timeout_ms);
    call_tool(tool, &a, recipe)
}

/// A result is reported as an error.
pub open spec fn is_failure(r: ResultView) -> bool {
    r.error_class is Some || r.timed_out || r.aborted
}

/// What has a class, ran out of time or was stopped is an error; an exit code alone
/// is none.
pub proof fn law_failures_are_errors(r: ResultView, code: Option<i32>)
    ensures
        r.error_class is Some ==> is_failure(r),
        r.timed_out ==> is_failure(r),
        r.aborted ==> is_failure(r),
        r.error_class is None && !r.timed_out && !r.aborted ==> !is_failure(r),
        is_failure(ResultView { exit_code: code, ..r }) == is_failure(r),
{
}

/// Whether a result is reported as an error: it has a class, or was stopped.
pub fn is_error(r: &ExecResult) -> (e: bool)
    ensures
        e == is_failure(r@),
        e == (r.error_class is Some || r.timed_out || r.aborted),
{
    r.error_class.is_some() || r.timed_out || r.aborted
}

// ---------------------------------------------------------------------------
// Laws
// ---------------------------------------------------------------------------

/// A message is read by the names of its members; a line that is blank or no JSON
/// is no message.
pub proof fn law_message_is_read_by_its_members(line: Seq<char>)
    ensures
        trim(line).len() == 0 ==> message_of(line) is None,
        !json_valid(line) ==> message_of(line) is None,
        json_valid(line) && trim(line).len() > 0 ==> {
            &&& message_of(line) matches Some(q)
            &&& q.method == json_text(line, "/method"@)
            &&& q.id == json_part(line, "/id"@)
            &&& json_text(line, "/params/name"@) matches Some(t) ==> q.tool == t
            &&& json_text(line, "/params/name"@) is None ==> q.tool.len() == 0
            &&& json_part(line, "/params/arguments"@) matches Some(a) ==> q.arguments == a
            &&& json_part(line, "/params/arguments"@) is None ==> q.arguments == "{}"@
        },
{
}

/// The arguments of a tool are read by their names.
pub proof fn law_arguments_are_read_by_their_names(doc: Seq<char>, timeout_ms: Option<u64>)
    ensures
        ({
            let a = args_of(doc, timeout_ms);
            &&& json_text(doc, "/command"@) matches Some(c) ==> a.command == c
            &&& json_text(doc, "/command"@) is None ==> a.command.len() == 0
            &&& json_text(doc, "/script"@) matches Some(s) ==> a.script == s
            &&& json_text(doc, "/script"@) is None ==> a.script.len() == 0
            &&& json_text(doc, "/id"@) matches Some(i) ==> a.id == i
            &&& json_text(doc, "/id"@) is None ==> a.id.len() == 0
            &&& a.label == json_text(doc, "/label"@)
            &&& a.tail == json_number(doc, "/tail"@)
            &&& a.options.timeout_ms == timeout_ms
            &&& a.options.shell == json_text(doc, "/shell"@)
            &&& a.options.workdir == json_text(doc, "/workdir"@)
        }),
{
}

/// A notification is never answered.
pub proof fn law_notifications_get_no_answer(q: McpView)
    requires
        q.id is None,
    ensures
        !(routed(q) is Answer),
{
}

/// Each method leads to its own answer, a tool call to the tool with the arguments
/// as they came, and a method that nobody knows to a refusal that names it.
pub proof fn law_methods_have_their_answers(q: McpView, id: Seq<char>)
    requires
        q.id == Some(id),
    ensures
        q.method == Some("initialize"@) ==> routed(q) == (McpActionView::Answer {
            id,
            reply: McpReplyView::Capabilities,
        }),
        q.method == Some("ping"@) ==> routed(q) == (McpActionView::Answer {
            id,
            reply: McpReplyView::Done,
        }),
        q.method == Some("tools/list"@) ==> routed(q) == (McpActionView::Answer {
            id,
            reply: McpReplyView::Tools,
        }),
        q.method == Some("tools/call"@) ==> routed(q) == (McpActionView::Call {
            request: Some(id),
            tool: q.tool,
            arguments: q.arguments,
        }),
        q.method == Some("notifications/initialized"@) || q.method == Some(
            "notifications/cancelled"@,
        ) ==> routed(q) is Ignore,
        routed(q) matches McpActionView::Answer { id: _, reply: McpReplyView::Error { code, message }
        } ==> code == -32601 && (q.method matches Some(m) ==> m.is_suffix_of(message)),
{
    reveal_strlit("initialize");
    reveal_strlit("ping");
    reveal_strlit("tools/list");
    reveal_strlit("tools/call");
    reveal_strlit("notifications/initialized");
    reveal_strlit("notifications/cancelled");
    assert("initialize"@[0] == 'i' && "ping"@[0] == 'p');
    assert("tools/list"@[0] == 't' && "tools/list"@[6] == 'l');
    assert("tools/call"@[0] == 't' && "tools/call"@[6] == 'c');
    assert("notifications/initialized"@[0] == 'n' && "notifications/cancelled"@[0] == 'n');
    if let Some(m) = q.method {
        let message = "method not found: "@ + m;
        assert(message.subrange(message.len() - m.len(), message.len() as int) =~= m);
    }
}

/// Each tool does what its name says with the arguments it was given, and is
/// refused without those it needs.
pub proof fn law_tools_do_what_they_say(
    c: ToolCall,
    a: ToolArgsView,
    recipe: Option<RecipeView>,
)
    ensures
        a.command.len() > 0 && tool_asked(c, "exec.run"@, a, recipe) ==> (c matches ToolCall::Run(
            spec,
        ) && spec.command@ == a.command && spec.kind == ExecKind::Run),
        a.script.len() > 0 && tool_asked(c, "exec.script"@, a, recipe) ==> (c matches ToolCall::Run(
            spec,
        ) && spec.command@ == a.script && spec.kind == ExecKind::Script),
        tool_asked(c, "exec.probe"@, a, recipe) ==> c is Probe,
        a.command.len() > 0 && tool_asked(c, "session.start"@, a, recipe) ==> {
            &&& c matches ToolCall::Start { spec, label }
            &&& spec.command@ == a.command
            &&& spec.kind == ExecKind::Run
            &&& a.label matches Some(l) ==> label@ == l
            &&& a.label is None ==> label@ == label_of(a.command)
        },
        tool_asked(c, "session.list"@, a, recipe) ==> c is List,
        a.id.len() > 0 && tool_asked(c, "session.status"@, a, recipe) ==> (c matches
            ToolCall::Status(id) && id@ == a.id),
        a.id.len() > 0 && tool_asked(c, "session.kill"@, a, recipe) ==> (c matches ToolCall::Kill(
            id,
        ) && id@ == a.id),
        a.id.len() > 0 && tool_asked(c, "session.output"@, a, recipe) ==> {
            &&& c matches ToolCall::Output { id, tail }
            &&& id@ == a.id
            &&& a.tail matches Some(n) ==> (n <= usize::MAX ==> tail == n)
            &&& a.tail is None ==> tail == 65_536
        },
        a.id.len() > 0 && tool_asked(c, "session.wait"@, a, recipe) ==> {
            &&& c matches ToolCall::Wait { id, timeout_ms }
            &&& id@ == a.id
            &&& a.options.timeout_ms matches Some(t) ==> timeout_ms == t
            &&& a.options.timeout_ms is None ==> timeout_ms == 120_000
        },
        a.command.len() > 0 && tool_asked(c, "exec.run"@, a, recipe) ==> (c matches ToolCall::Run(
            spec,
        ) && tool_built(spec, a.command, ExecKind::Run, a.options, recipe)),
        a.script.len() > 0 && tool_asked(c, "exec.script"@, a, recipe) ==> (c matches ToolCall::Run(
            spec,
        ) && tool_built(spec, a.script, ExecKind::Script, a.options, recipe)),
        a.command.len() > 0 && tool_asked(c, "session.start"@, a, recipe) ==> (c matches
            ToolCall::Start { spec, label: _ } && tool_built(
            spec,
            a.command,
            ExecKind::Run,
            a.options,
            None,
        )),
        forall|tool: Seq<char>| #[trigger]
            tool_asked(c, tool, a, recipe) && tool != "exec.run"@ && tool != "exec.script"@ && tool
                != "exec.probe"@ && tool != "session.start"@ && tool != "session.list"@ && tool
                != "session.status"@ && tool != "session.output"@ && tool != "session.kill"@
                && tool != "session.wait"@ ==> (c matches ToolCall::Refuse(m) && m@
                == "unknown tool `"@ + tool + "`"@),
        a.command.len() == 0 && (tool_asked(c, "exec.run"@, a, recipe) || tool_asked(
            c,
            "session.start"@,
            a,
            recipe,
        )) ==> c is Refuse,
        a.script.len() == 0 && tool_asked(c, "exec.script"@, a, recipe) ==> c is Refuse,
        a.id.len() == 0 && (tool_asked(c, "session.status"@, a, recipe) || tool_asked(
            c,
            "session.output"@,
            a,
            recipe,
        ) || tool_asked(c, "session.kill"@, a, recipe) || tool_asked(
            c,
            "session.wait"@,
            a,
            recipe,
        )) ==> c is Refuse,
{
    reveal_strlit("exec.run");
    reveal_strlit("exec.script");
    reveal_strlit("exec.probe");
    reveal_strlit("session.start");
    reveal_strlit("session.list");
    reveal_strlit("session.status");
    reveal_strlit("session.output");
    reveal_strlit("session.kill");
    reveal_strlit("session.wait");
    assert("exec.run"@[0] == 'e' && "exec.run"@[5] == 'r');
    assert("exec.script"@[0] == 'e' && "exec.script"@[5] == 's');
    assert("exec.probe"@[0] == 'e' && "exec.probe"@[5] == 'p');
    assert("session.start"@[0] == 's' && "session.start"@[8] == 's' && "session.start"@.len()
        == 13);
    assert("session.status"@[0] == 's' && "session.status"@[8] == 's' && "session.status"@.len()
        == 14);
    assert("session.list"@[0] == 's' && "session.list"@[8] == 'l');
    assert("session.output"@[0] == 's' && "session.output"@[8] == 'o');
    assert("session.kill"@[0] == 's' && "session.kill"@[8] == 'k');
    assert("session.wait"@[0] == 's' && "session.wait"@[8] == 'w');
}

/// Every request but the two notifications is answered, at once or when its
/// tool has been called, under its own id.
pub proof fn law_requests_are_answered(q: McpView, id: Seq<char>)
    requires
        q.id == Some(id),
        q.method != Some("notifications/initialized"@),
        q.method != Some("notifications/cancelled"@),
    ensures
        match routed(q) {
            McpActionView::Ignore => false,
            McpActionView::Answer { id: i, .. } => i == id,
            McpActionView::Call { request, .. } => request == Some(id),
        },
{
}

} // verus!
