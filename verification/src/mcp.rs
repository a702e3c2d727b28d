//! The answers of the example MCP server: its resources, prompts, tools and
//! task list.
//!
//! The protocol plumbing (transports, the handler trait, the wire types)
//! belongs to the caller; this module computes what each request is
//! answered, as plain values.

use vstd::prelude::*;

use crate::text::{
    ascii_lowercase, ascii_lowercase_of, chars_of, concat2, contains_piece, decimal,
    decimal_string, find_char, index_of_char, push_all, str_contains, str_eq, string_of,
    strip_prefix, strip_prefix_at, to_lowercase, unicode_lowercase,
};

verus! {

broadcast use vstd::string::group_string_axioms;

// ---------------------------------------------------------------------------
// Argument types
// ---------------------------------------------------------------------------

/// Arguments for the `echo` prompt.
#[derive(Debug, Clone)]
pub struct EchoPromptArgs {
    /// The message to echo back.
    pub message: String,
}

/// Arguments for the `summarize` prompt.
#[derive(Debug, Clone)]
pub struct SummarizePromptArgs {
    /// The topic to summarize.
    pub topic: String,
    /// Number of bullet points to produce.
    pub bullet_count: u8,
    /// Optional tone: "neutral", "formal", "casual", etc.
    pub tone: Option<String>,
}

/// Arguments for the `slow_count` task-capable tool.
#[derive(Debug, Clone)]
pub struct SlowCountArgs {
    /// How high to count. Each tick sleeps for [`SLOW_COUNT_TICK_MS`].
    pub target: u8,
}

/// Sleep duration per `slow_count` tick, in milliseconds.
pub const SLOW_COUNT_TICK_MS: u64 = 100;

/// Arguments for the `ask_llm` (sampling) tool.
#[derive(Debug, Clone)]
pub struct AskLlmArgs {
    /// The question to ask the connected client's LLM.
    pub question: String,
}

/// Shape elicited from the user by the `greet_user` tool.
#[derive(Debug, Clone)]
pub struct UserNameInput {
    /// The user's preferred display name.
    pub name: String,
}

// ---------------------------------------------------------------------------
// Resources
// ---------------------------------------------------------------------------

/// URI of the static example resource.
pub const EXAMPLE_RESOURCE_URI: &'static str = "mem://example";
/// Name of the static example resource.
pub const EXAMPLE_RESOURCE_NAME: &'static str = "example";
/// Body of the static example resource.
pub const EXAMPLE_RESOURCE_BODY: &'static str = "Example in-memory resource served by the mcp-server skeleton.";
/// Scheme of the echo resources.
pub const ECHO_RESOURCE_SCHEME: &'static str = "echo://";
/// URI template of the echo resources.
pub const ECHO_RESOURCE_TEMPLATE: &'static str = "echo://{message}";
/// Scheme of the greeting resources.
pub const GREET_RESOURCE_SCHEME: &'static str = "greet://";
/// URI template of the greeting resources.
pub const GREET_RESOURCE_TEMPLATE: &'static str = "greet://{language}/{name}";

/// A listed resource.
#[derive(Debug, Clone)]
pub struct ResourceEntry {
    pub uri: String,
    pub name: String,
}

/// A listed resource template.
#[derive(Debug, Clone)]
pub struct ResourceTemplateEntry {
    pub uri_template: String,
    pub name: String,
    pub description: String,
    pub mime_type: String,
}

/// The text contents of a read resource, with the URI it was read at.
#[derive(Debug, Clone)]
pub struct ResourceText {
    pub text: String,
    pub uri: String,
}

/// Why a resource read was refused.
#[derive(Debug, Clone)]
pub enum ResourceError {
    /// The URI has a known scheme but a malformed payload.
    InvalidParams { message: String, uri: String },
    /// No resource has this URI.
    NotFound { uri: String },
}

/// Body of `resources/list`: the single static example resource.
pub fn list_resources() -> (r: Vec<ResourceEntry>)
    ensures
        r@.len() == 1,
        r@[0].uri@ == EXAMPLE_RESOURCE_URI@,
        r@[0].name@ == EXAMPLE_RESOURCE_NAME@,
{
    let mut r = Vec::new();
    r.push(
        ResourceEntry { uri: EXAMPLE_RESOURCE_URI.to_owned(), name: EXAMPLE_RESOURCE_NAME.to_owned() },
    );
    r
}

/// Body of `resources/templates/list`: the `echo://` and `greet://` templates.
pub fn list_resource_templates() -> (r: Vec<ResourceTemplateEntry>)
    ensures
        r@.len() == 2,
        r@[0].uri_template@ == ECHO_RESOURCE_TEMPLATE@,
        r@[0].name@ == "echo"@,
        r@[0].description@ == "Reads back whatever appears after `echo://` as plain text."@,
        r@[0].mime_type@ == "text/plain"@,
        r@[1].uri_template@ == GREET_RESOURCE_TEMPLATE@,
        r@[1].name@ == "greet"@,
        r@[1].description@
            == "Returns a localized greeting for the given language and name. Supported languages: en, ja, es, fr."@,
        r@[1].mime_type@ == "text/plain"@,
{
    let mut r = Vec::new();
    r.push(
        ResourceTemplateEntry {
            uri_template: ECHO_RESOURCE_TEMPLATE.to_owned(),
            name: "echo".to_owned(),
            description: "Reads back whatever appears after `echo://` as plain text.".to_owned(),
            mime_type: "text/plain".to_owned(),
        },
    );
    r.push(
        ResourceTemplateEntry {
            uri_template: GREET_RESOURCE_TEMPLATE.to_owned(),
            name: "greet".to_owned(),
            description: "Returns a localized greeting for the given language and name. Supported languages: en, ja, es, fr.".to_owned(),
            mime_type: "text/plain".to_owned(),
        },
    );
    r
}

/// The word of greeting for a language code, compared without ASCII case;
/// unknown languages are greeted in English.
pub open spec fn hello_word(lang_lower: Seq<char>) -> Seq<char> {
    if lang_lower == "en"@ {
        "Hello"@
    } else if lang_lower == "ja"@ {
        "こんにちは"@
    } else if lang_lower == "es"@ {
        "Hola"@
    } else if lang_lower == "fr"@ {
        "Bonjour"@
    } else {
        "Hello"@
    }
}

/// The greeting `<hello>, <name>!`.
pub open spec fn greeting_text(language: Seq<char>, name: Seq<char>) -> Seq<char> {
    hello_word(ascii_lowercase(language)) + ", "@ + name + "!"@
}

/// The outcome of reading a URI, as values.
pub enum ResourceReply {
    Text(Seq<char>),
    Invalid(Seq<char>),
    NotFound,
}

/// What reading `uri` answers: the static body for `mem://example`; for
/// `echo://<message>` the message, which must not be empty; for
/// `greet://<language>/<name>` (the name may hold further `/`) a greeting,
/// both parts non-empty; anything else is not found.
pub open spec fn resource_reply(uri: Seq<char>) -> ResourceReply {
    if uri == EXAMPLE_RESOURCE_URI@ {
        ResourceReply::Text(EXAMPLE_RESOURCE_BODY@)
    } else {
        match strip_prefix(uri, ECHO_RESOURCE_SCHEME@) {
            Some(message) => if message.len() == 0 {
                ResourceReply::Invalid("echo:// requires a non-empty message segment"@)
            } else {
                ResourceReply::Text(message)
            },
            None => match strip_prefix(uri, GREET_RESOURCE_SCHEME@) {
                Some(rest) => match index_of_char(rest, '/') {
                    Some(k) => if k > 0 && k + 1 < rest.len() {
                        ResourceReply::Text(
                            greeting_text(rest.subrange(0, k), rest.subrange(k + 1, rest.len() as int)),
                        )
                    } else {
                        ResourceReply::Invalid(
                            "greet:// requires both a language and a name segment"@,
                        )
                    },
                    None => ResourceReply::Invalid(
                        "greet:// requires both a language and a name segment"@,
                    ),
                },
                None => ResourceReply::NotFound,
            },
        }
    }
}

/// Whether a read result answers `uri` as [`resource_reply`] says.
pub open spec fn answers(r: Result<ResourceText, ResourceError>, uri: Seq<char>) -> bool {
    match resource_reply(uri) {
        ResourceReply::Text(t) => r is Ok && r->Ok_0.text@ == t && r->Ok_0.uri@ == uri,
        ResourceReply::Invalid(m) => r matches Err(ResourceError::InvalidParams { message, uri: u })
            && message@ == m && u@ == uri,
        ResourceReply::NotFound => r matches Err(ResourceError::NotFound { uri: u }) && u@ == uri,
    }
}

/// Reading `echo://<message>` gives the message back, verbatim (slashes
/// included), for every non-empty message.
pub proof fn lemma_echo_reads_back(message: Seq<char>)
    requires
        message.len() > 0,
    ensures
        resource_reply(ECHO_RESOURCE_SCHEME@ + message) == ResourceReply::Text(message),
{
    reveal_strlit("echo://");
    reveal_strlit("mem://example");
    let uri = ECHO_RESOURCE_SCHEME@ + message;
    assert(uri[0] == 'e');
    assert(uri != EXAMPLE_RESOURCE_URI@);
    assert(uri.subrange(0, 7) =~= ECHO_RESOURCE_SCHEME@);
    assert(uri.subrange(7, uri.len() as int) =~= message);
}

/// Reading `greet://<language>/<name>` gives the greeting of that name in
/// that language, for a non-empty language without `/` and a non-empty name.
pub proof fn lemma_greet_reads_back(language: Seq<char>, name: Seq<char>)
    requires
        language.len() > 0,
        name.len() > 0,
        !language.contains('/'),
    ensures
        resource_reply(GREET_RESOURCE_SCHEME@ + language + "/"@ + name) == ResourceReply::Text(
            greeting_text(language, name),
        ),
{
    reveal_strlit("greet://");
    reveal_strlit("echo://");
    reveal_strlit("mem://example");
    reveal_strlit("/");
    let uri = GREET_RESOURCE_SCHEME@ + language + "/"@ + name;
    assert(uri[0] == 'g');
    assert(uri != EXAMPLE_RESOURCE_URI@);
    assert(uri.subrange(0, 7) != ECHO_RESOURCE_SCHEME@) by {
        assert(uri.subrange(0, 7)[0] == 'g');
    }
    assert(uri.subrange(0, 8) =~= GREET_RESOURCE_SCHEME@);
    let rest = uri.subrange(8, uri.len() as int);
    assert(rest =~= language + "/"@ + name);
    lemma_index_after(language, name);
    assert(rest.subrange(0, language.len() as int) =~= language);
    assert(rest.subrange(language.len() as int + 1, rest.len() as int) =~= name);
}

/// The first `/` of `language + "/" + name` is the one after the language.
proof fn lemma_index_after(language: Seq<char>, name: Seq<char>)
    requires
        !language.contains('/'),
    ensures
        index_of_char(language + "/"@ + name, '/') == Some(language.len() as int),
    decreases language.len(),
{
    reveal_strlit("/");
    let s = language + "/"@ + name;
    if language.len() == 0 {
        assert(s[0] == '/');
    } else {
        assert(s[0] == language[0]);
        assert(!language.drop_first().contains('/')) by {
            if language.drop_first().contains('/') {
                let i = choose|i: int| 0 <= i < language.drop_first().len() && language.drop_first()[i] == '/';
                assert(language[i + 1] == '/');
            }
        }
        lemma_index_after(language.drop_first(), name);
        assert(s.drop_first() =~= language.drop_first() + "/"@ + name);
    }
}

/// The greeting for a language and a name.
fn render_greeting(v: &Vec<char>, la: usize, lb: usize, na: usize, nb: usize) -> (r: String)
    requires
        la <= lb <= v.len(),
        na <= nb <= v.len(),
    ensures
        r@ == greeting_text(v@.subrange(la as int, lb as int), v@.subrange(na as int, nb as int)),
{
    let lang = ascii_lowercase_of(v, la, lb);
    let hello = if str_eq(lang.as_str(), "en") {
        "Hello"
    } else if str_eq(lang.as_str(), "ja") {
        "こんにちは"
    } else if str_eq(lang.as_str(), "es") {
        "Hola"
    } else if str_eq(lang.as_str(), "fr") {
        "Bonjour"
    } else {
        "Hello"
    };
    let mut r = String::new();
    push_all(&mut r, hello);
    push_all(&mut r, ", ");
    let name = string_of(v, na, nb);
    push_all(&mut r, name.as_str());
    push_all(&mut r, "!");
    assert(Seq::<char>::empty() + hello@ =~= hello@);
    r
}

/// Body of `resources/read`: dispatches on the URI; see [`resource_reply`].
pub fn read_resource(uri: &str) -> (r: Result<ResourceText, ResourceError>)
    ensures
        answers(r, uri@),
{
    if str_eq(uri, EXAMPLE_RESOURCE_URI) {
        return Ok(ResourceText { text: EXAMPLE_RESOURCE_BODY.to_owned(), uri: uri.to_owned() });
    }
    let v = chars_of(uri);
    if let Some(k) = strip_prefix_at(&v, ECHO_RESOURCE_SCHEME) {
        if k == v.len() {
            return Err(
                ResourceError::InvalidParams {
                    message: "echo:// requires a non-empty message segment".to_owned(),
                    uri: uri.to_owned(),
                },
            );
        }
        return Ok(ResourceText { text: string_of(&v, k, v.len()), uri: uri.to_owned() });
    }
    if let Some(k) = strip_prefix_at(&v, GREET_RESOURCE_SCHEME) {
        let ghost rest = v@.subrange(k as int, v.len() as int);
        match find_char(&v, k, v.len(), '/') {
            Some(slash) => {
                if slash > k && slash + 1 < v.len() {
                    proof {
                        assert(rest.subrange(0, slash - k) =~= v@.subrange(k as int, slash as int));
                        assert(rest.subrange(slash - k + 1, rest.len() as int) =~= v@.subrange(
                            slash + 1,
                            v.len() as int,
                        ));
                    }
                    let greeting = render_greeting(&v, k, slash, slash + 1, v.len());
                    return Ok(ResourceText { text: greeting, uri: uri.to_owned() });
                }
            },
            None => {},
        }
        return Err(
            ResourceError::InvalidParams {
                message: "greet:// requires both a language and a name segment".to_owned(),
                uri: uri.to_owned(),
            },
        );
    }
    Err(ResourceError::NotFound { uri: uri.to_owned() })
}

// ---------------------------------------------------------------------------
// Prompts
// ---------------------------------------------------------------------------

/// Who speaks a prompt message.
#[derive(Debug, Clone, Copy, PartialEq, Eq)]
pub enum Role {
    User,
    Assistant,
}

/// The answer to `prompts/get`: a description and the messages.
#[derive(Debug, Clone)]
pub struct PromptReply {
    pub description: String,
    pub messages: Vec<(Role, String)>,
}

/// The value of the messages of a prompt.
pub open spec fn messages_view(ms: Seq<(Role, String)>) -> Seq<(Role, Seq<char>)> {
    ms.map_values(|m: (Role, String)| (m.0, m.1@))
}

/// Why a prompt was refused.
#[derive(Debug, Clone)]
pub enum PromptError {
    /// The arguments are out of range; holds the message and the offending count.
    InvalidParams { message: String, bullet_count: u8 },
}

/// The `greeting` prompt: a canned exchange.
pub fn greeting() -> (p: PromptReply)
    ensures
        p.description@ == "Canned greeting exchange."@,
        messages_view(p.messages@) == seq![
            (Role::User, "Hello! I'd like to start our conversation."@),
            (Role::Assistant, "Hello! I'm here to help. What would you like to discuss today?"@),
        ],
{
    let mut messages = Vec::new();
    messages.push((Role::User, "Hello! I'd like to start our conversation.".to_owned()));
    messages.push(
        (Role::Assistant, "Hello! I'm here to help. What would you like to discuss today?".to_owned()),
    );
    let p = PromptReply { description: "Canned greeting exchange.".to_owned(), messages };
    assert(messages_view(p.messages@) =~= seq![
        (Role::User, "Hello! I'd like to start our conversation."@),
        (Role::Assistant, "Hello! I'm here to help. What would you like to discuss today?"@),
    ]);
    p
}

/// The `echo` prompt: the message back as a user message.
pub fn echo(args: &EchoPromptArgs) -> (p: PromptReply)
    ensures
        p.description@ == "Echo of: "@ + args.message@,
        messages_view(p.messages@) == seq![(Role::User, args.message@)],
{
    let mut messages = Vec::new();
    messages.push((Role::User, args.message.clone()));
    let p = PromptReply {
        description: concat2("Echo of: ", args.message.as_str()),
        messages,
    };
    assert(messages_view(p.messages@) =~= seq![(Role::User, args.message@)]);
    p
}

/// The tone a summary is asked in: the given one, else `neutral`.
pub open spec fn tone_of(args: SummarizePromptArgs) -> Seq<char> {
    match args.tone {
        Some(t) => t@,
        None => "neutral"@,
    }
}

/// The instruction of a summary prompt.
pub open spec fn summary_system(tone: Seq<char>, count: nat) -> Seq<char> {
    "You are a concise writer. Respond in a "@ + tone + " tone using exactly "@ + decimal(count)
        + " bullet points."@
}

/// The description of a summary prompt.
pub open spec fn summary_description(tone: Seq<char>, count: nat, topic: Seq<char>) -> Seq<char> {
    decimal(count) + "-bullet "@ + tone + " summary of '"@ + topic + "'"@
}

/// The instruction of a summary names the requested tone: it is the fixed
/// opening, the tone given (`neutral` when none is), the bullet count in
/// decimal, and the fixed close. Two requests that differ only in the tone
/// they give get different instructions.
pub proof fn lemma_summary_instruction_names_tone(args: SummarizePromptArgs, other: SummarizePromptArgs)
    ensures
        summary_system(tone_of(args), args.bullet_count as nat) == "You are a concise writer. Respond in a "@
            + match args.tone {
            Some(t) => t@,
            None => "neutral"@,
        } + " tone using exactly "@ + decimal(args.bullet_count as nat) + " bullet points."@,
        (args.bullet_count == other.bullet_count && args.tone is Some && other.tone is Some
            && args.tone->0@ != other.tone->0@) ==> summary_system(
            tone_of(args),
            args.bullet_count as nat,
        ) != summary_system(tone_of(other), other.bullet_count as nat),
{
    let open = "You are a concise writer. Respond in a "@;
    let close = " tone using exactly "@ + decimal(args.bullet_count as nat) + " bullet points."@;
    if args.bullet_count == other.bullet_count && args.tone is Some && other.tone is Some
        && args.tone->0@ != other.tone->0@ {
        let x = summary_system(tone_of(args), args.bullet_count as nat);
        let y = summary_system(tone_of(other), other.bullet_count as nat);
        let t1 = args.tone->0@;
        let t2 = other.tone->0@;
        assert(x == open + t1 + close);
        assert(y == open + t2 + close);
        if x == y {
            assert(x.len() == y.len());
            assert(t1.len() == t2.len());
            assert forall|k: int| 0 <= k < t1.len() implies t1[k] == t2[k] by {
                assert(x[open.len() + k] == t1[k]);
                assert(y[open.len() + k] == t2[k]);
            }
            assert(t1 =~= t2);
        }
    }
}

/// The `summarize` prompt: asks for `bullet_count` bullet points on the topic,
/// in the given tone (`neutral` by default). A count of 0 is refused.
pub fn summarize(args: &SummarizePromptArgs) -> (r: Result<PromptReply, PromptError>)
    ensures
        args.bullet_count == 0 ==> (r matches Err(PromptError::InvalidParams { message, bullet_count })
            && message@ == "bullet_count must be at least 1"@ && bullet_count == 0),
        args.bullet_count > 0 ==> r is Ok && r->Ok_0.description@ == summary_description(
            tone_of(*args),
            args.bullet_count as nat,
            args.topic@,
        ) && messages_view(r->Ok_0.messages@) == seq![
            (Role::Assistant, summary_system(tone_of(*args), args.bullet_count as nat)),
            (Role::User, "Summarize the following topic: "@ + args.topic@),
        ],
{
    if args.bullet_count == 0 {
        return Err(
            PromptError::InvalidParams {
                message: "bullet_count must be at least 1".to_owned(),
                bullet_count: args.bullet_count,
            },
        );
    }
    let tone: &str = match &args.tone {
        Some(t) => t.as_str(),
        None => "neutral",
    };
    let count = decimal_string(args.bullet_count as u64);
    let mut system = String::new();
    push_all(&mut system, "You are a concise writer. Respond in a ");
    push_all(&mut system, tone);
    push_all(&mut system, " tone using exactly ");
    push_all(&mut system, count.as_str());
    push_all(&mut system, " bullet points.");
    let user = concat2("Summarize the following topic: ", args.topic.as_str());
    let mut description = String::new();
    push_all(&mut description, count.as_str());
    push_all(&mut description, "-bullet ");
    push_all(&mut description, tone);
    push_all(&mut description, " summary of '");
    push_all(&mut description, args.topic.as_str());
    push_all(&mut description, "'");
    let mut messages = Vec::new();
    messages.push((Role::Assistant, system));
    messages.push((Role::User, user));
    let p = PromptReply { description, messages };
    assert(Seq::<char>::empty() + count@ =~= count@);
    assert(messages_view(p.messages@) =~= seq![
        (Role::Assistant, summary_system(tone_of(*args), args.bullet_count as nat)),
        (Role::User, "Summarize the following topic: "@ + args.topic@),
    ]);
    Ok(p)
}

// ---------------------------------------------------------------------------
// Tools
// ---------------------------------------------------------------------------

/// The `ping` tool's text.
pub fn ping() -> (t: String)
    ensures
        t@ == "pong"@,
{
    "pong".to_owned()
}

/// The `slow_count` tool's text once it has counted to `target`: the target.
pub fn slow_count_result(args: &SlowCountArgs) -> (t: String)
    ensures
        t@ == decimal(args.target as nat),
{
    decimal_string(args.target as u64)
}

/// The text an `ask_llm` answer shows: the first text block of the reply,
/// else a placeholder.
pub fn ask_llm_answer(blocks: &Vec<Option<String>>) -> (t: String)
    ensures
        (exists|i: int| 0 <= i < blocks@.len() && (#[trigger] blocks@[i]) is Some) ==> exists|i: int|
            0 <= i < blocks@.len() && (#[trigger] blocks@[i]) is Some && t@ == blocks@[i]->0@
                && forall|j: int| 0 <= j < i ==> blocks@[j] is None,
        (forall|i: int| 0 <= i < blocks@.len() ==> (#[trigger] blocks@[i]) is None) ==> t@
            == "(no text response)"@,
{
    let mut i: usize = 0;
    while i < blocks.len()
        invariant
            i <= blocks.len(),
            forall|j: int| 0 <= j < i ==> (#[trigger] blocks@[j]) is None,
        decreases blocks.len() - i,
    {
        match &blocks[i] {
            Some(t) => {
                return t.clone();
            },
            None => {},
        }
        i = i + 1;
    }
    "(no text response)".to_owned()
}

/// How asking the user for their name ended.
#[derive(Debug, Clone)]
pub enum ElicitOutcome {
    /// The user gave a name.
    Provided(UserNameInput),
    /// The client answered without a value.
    NoInput,
    /// The user declined.
    Declined,
    /// The user dismissed the prompt.
    Cancelled,
    /// The client does not support elicitation.
    Unsupported,
    /// The request failed, with the reason.
    Failed(String),
}

/// The `greet_user` tool's result: a text for every user action or missing
/// capability, and an error only when the request itself failed.
pub open spec fn greet_user_text(o: ElicitOutcome) -> Result<Seq<char>, Seq<char>> {
    match o {
        ElicitOutcome::Provided(input) => Ok("Hello, "@ + input.name@ + "!"@),
        ElicitOutcome::NoInput => Ok("Greeting skipped — no name was provided."@),
        ElicitOutcome::Declined => Ok("Greeting skipped — the user declined to share their name."@),
        ElicitOutcome::Cancelled => Ok("Greeting cancelled — the user dismissed the prompt."@),
        ElicitOutcome::Unsupported => Ok(
            "This client does not support elicitation, so the user could not be prompted for a name."@,
        ),
        ElicitOutcome::Failed(e) => Err("elicitation failed: "@ + e@),
    }
}

/// The `greet_user` tool's result for an elicitation outcome.
pub fn greet_user(outcome: &ElicitOutcome) -> (r: Result<String, String>)
    ensures
        match r {
            Ok(t) => greet_user_text(*outcome) == Ok::<Seq<char>, Seq<char>>(t@),
            Err(e) => greet_user_text(*outcome) == Err::<Seq<char>, Seq<char>>(e@),
        },
{
    match outcome {
        ElicitOutcome::Provided(input) => {
            let mut t = concat2("Hello, ", input.name.as_str());
            push_all(&mut t, "!");
            Ok(t)
        },
        ElicitOutcome::NoInput => Ok("Greeting skipped — no name was provided.".to_owned()),
        ElicitOutcome::Declined => Ok(
            "Greeting skipped — the user declined to share their name.".to_owned(),
        ),
        ElicitOutcome::Cancelled => Ok("Greeting cancelled — the user dismissed the prompt.".to_owned()),
        ElicitOutcome::Unsupported => Ok(
            "This client does not support elicitation, so the user could not be prompted for a name.".to_owned(),
        ),
        ElicitOutcome::Failed(e) => Err(concat2("elicitation failed: ", e.as_str())),
    }
}

/// A workspace root: its optional name and its URI.
#[derive(Debug, Clone)]
pub struct WorkspaceRoot {
    pub name: Option<String>,
    pub uri: String,
}

/// The line for one root: `- name (uri)`, or `- uri` when it has no name.
pub open spec fn root_line(r: WorkspaceRoot) -> Seq<char> {
    match r.name {
        Some(n) => "- "@ + n@ + " ("@ + r.uri@ + ")"@,
        None => "- "@ + r.uri@,
    }
}

/// The lines of the roots, joined by line feeds.
pub open spec fn roots_lines(rs: Seq<WorkspaceRoot>) -> Seq<char>
    decreases rs.len(),
{
    if rs.len() == 0 {
        seq![]
    } else if rs.len() == 1 {
        root_line(rs[0])
    } else {
        roots_lines(rs.drop_last()) + "\n"@ + root_line(rs.last())
    }
}

/// The text of the `list_workspace_roots` tool.
pub open spec fn roots_text(rs: Seq<WorkspaceRoot>) -> Seq<char> {
    if rs.len() == 0 {
        "Client exposed no roots."@
    } else {
        roots_lines(rs)
    }
}

/// The `list_workspace_roots` tool's text: one line per root, or a note
/// that there are none.
pub fn list_workspace_roots(roots: &Vec<WorkspaceRoot>) -> (t: String)
    ensures
        t@ == roots_text(roots@),
{
    if roots.len() == 0 {
        return "Client exposed no roots.".to_owned();
    }
    let mut t = String::new();
    let mut i: usize = 0;
    assert(roots@.take(0) =~= Seq::<WorkspaceRoot>::empty());
    while i < roots.len()
        invariant
            0 < roots.len(),
            i <= roots.len(),
            t@ == roots_lines(roots@.take(i as int)),
        decreases roots.len() - i,
    {
        let ghost before = t@;
        if i > 0 {
            push_all(&mut t, "\n");
        }
        let root = &roots[i];
        push_all(&mut t, "- ");
        match &root.name {
            Some(n) => {
                push_all(&mut t, n.as_str());
                push_all(&mut t, " (");
                push_all(&mut t, root.uri.as_str());
                push_all(&mut t, ")");
            },
            None => {
                push_all(&mut t, root.uri.as_str());
            },
        }
        proof {
            assert(roots@.take(i + 1).drop_last() =~= roots@.take(i as int));
            if i == 0 {
                assert(Seq::<char>::empty() + root_line(roots@[0]) =~= root_line(roots@[0]));
            }
        }
        i = i + 1;
    }
    assert(roots@.take(roots.len() as int) =~= roots@);
    t
}

// ---------------------------------------------------------------------------
// Tasks
// ---------------------------------------------------------------------------

/// The status a task is listed with.
#[derive(Debug, Clone, Copy, PartialEq, Eq)]
pub enum TaskState {
    Working,
    Completed,
    Cancelled,
    Failed,
}

/// The status of a finished task: completed when it succeeded; cancelled
/// when its error, lowercased, mentions `cancelled`; failed otherwise
/// (timeouts included).
pub open spec fn finished_state(error: Option<Seq<char>>) -> TaskState {
    match error {
        None => TaskState::Completed,
        Some(e) => if contains_piece(unicode_lowercase(e), "cancelled"@) {
            TaskState::Cancelled
        } else {
            TaskState::Failed
        },
    }
}

/// The status of a finished task does not depend on the letter case of its
/// error: two errors with the same lowercase form get the same status; an
/// error whose lowercase form mentions `cancelled` is listed cancelled, any
/// other error failed, and no error completed.
pub proof fn lemma_finished_state_ignores_case(e1: Seq<char>, e2: Seq<char>)
    ensures
        unicode_lowercase(e1) == unicode_lowercase(e2) ==> finished_state(Some(e1)) == finished_state(
            Some(e2),
        ),
        contains_piece(unicode_lowercase(e1), "cancelled"@) ==> finished_state(Some(e1))
            == TaskState::Cancelled,
        !contains_piece(unicode_lowercase(e1), "cancelled"@) ==> finished_state(Some(e1))
            == TaskState::Failed,
        finished_state(None) == TaskState::Completed,
{
}

/// A finished task: its id and, when it failed, the rendered error.
#[derive(Debug, Clone)]
pub struct FinishedTask {
    pub id: String,
    pub error: Option<String>,
}

/// The status of a finished task.
pub fn finished_task_state(task: &FinishedTask) -> (s: TaskState)
    ensures
        s == finished_state(
            match task.error {
                Some(e) => Some(e@),
                None => None,
            },
        ),
{
    match &task.error {
        None => TaskState::Completed,
        Some(e) => {
            let lower = to_lowercase(e.as_str());
            if str_contains(lower.as_str(), "cancelled") {
                TaskState::Cancelled
            } else {
                TaskState::Failed
            }
        },
    }
}

/// Body of the `tasks/list` override: the running tasks as working, then the
/// finished ones with their status.
pub fn list_tasks(running: &Vec<String>, finished: &Vec<FinishedTask>) -> (r: Vec<(String, TaskState)>)
    ensures
        r@.len() == running@.len() + finished@.len(),
        forall|i: int|
            0 <= i < running@.len() ==> (#[trigger] r@[i]).0@ == running@[i]@ && r@[i].1
                == TaskState::Working,
        forall|i: int|
            0 <= i < finished@.len() ==> (#[trigger] r@[running@.len() + i]).0@ == finished@[i].id@
                && r@[running@.len() + i].1 == finished_state(
                match finished@[i].error {
                    Some(e) => Some(e@),
                    None => None,
                },
            ),
{
    let mut r: Vec<(String, TaskState)> = Vec::new();
    let mut i: usize = 0;
    while i < running.len()
        invariant
            i <= running.len(),
            r@.len() == i,
            forall|j: int|
                0 <= j < i ==> (#[trigger] r@[j]).0@ == running@[j]@ && r@[j].1 == TaskState::Working,
        decreases running.len() - i,
    {
        r.push((running[i].clone(), TaskState::Working));
        i = i + 1;
    }
    let mut k: usize = 0;
    while k < finished.len()
        invariant
            k <= finished.len(),
            r@.len() == running@.len() + k,
            forall|j: int|
                0 <= j < running@.len() ==> (#[trigger] r@[j]).0@ == running@[j]@ && r@[j].1
                    == TaskState::Working,
            forall|j: int|
                0 <= j < k ==> (#[trigger] r@[running@.len() + j]).0@ == finished@[j].id@
                    && r@[running@.len() + j].1 == finished_state(
                    match finished@[j].error {
                        Some(e) => Some(e@),
                        None => None,
                    },
                ),
        decreases finished.len() - k,
    {
        let state = finished_task_state(&finished[k]);
        r.push((finished[k].id.clone(), state));
        k = k + 1;
    }
    r
}

} // verus!
