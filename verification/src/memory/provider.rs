//! Calls of a language model: the key, the request, and what its reply means.
use crate::json::{self, is_text, str_value, Json};
use crate::assistant::{self, Assistant};
use crate::llm_config::ResolvedLlm;
use crate::paths;
use crate::text::{self, str_eq};
use vstd::prelude::*;

verus! {

/// Why a call gave no answer.
#[derive(Debug, Clone)]
pub enum ProviderError {
    /// A problem of configuration: it waits for the operator.
    Deferred(String),
    /// The network or the service failed.
    Upstream(String),
    /// The service cut the answer off at its output cap.
    Truncated(String),
}

impl ProviderError {
    pub open spec fn text(&self) -> Seq<char> {
        match self {
            ProviderError::Deferred(m) => "provider DEFERRED: "@ + m@,
            ProviderError::Upstream(m) => "provider upstream error: "@ + m@,
            ProviderError::Truncated(m) => "provider truncated: "@ + m@,
        }
    }

    /// The error in words.
    pub fn message(&self) -> (r: String)
        ensures
            r@ == self.text(),
    {
        match self {
            ProviderError::Deferred(m) => {
                let mut r = "provider DEFERRED: ".to_owned();
                r.append(m.as_str());
                r
            },
            ProviderError::Upstream(m) => {
                let mut r = "provider upstream error: ".to_owned();
                r.append(m.as_str());
                r
            },
            ProviderError::Truncated(m) => {
                let mut r = "provider truncated: ".to_owned();
                r.append(m.as_str());
                r
            },
        }
    }
}

/// The workspace: the setting, else `hex` below the home, else a fallback.
pub open spec fn root_of(hex_dir: Option<Seq<char>>, home: Option<Seq<char>>) -> Seq<char> {
    match hex_dir {
        Some(d) => d,
        None => match home {
            Some(h) => paths::joined(h, "hex"@),
            None => "/tmp/hex"@,
        },
    }
}

/// The text of an optional string slice.
pub open spec fn opt_str(s: Option<&str>) -> Option<Seq<char>> {
    match s {
        Some(x) => Some(x@),
        None => None,
    }
}

/// The workspace, from the settings `HEX_DIR` and `HOME`.
pub fn hex_root(hex_dir: Option<&str>, home: Option<&str>) -> (r: String)
    ensures
        r@ == root_of(opt_str(hex_dir), opt_str(home)),
{
    match hex_dir {
        Some(d) => d.to_owned(),
        None => match home {
            Some(h) => paths::join(h, "hex"),
            None => "/tmp/hex".to_owned(),
        },
    }
}

// ── The key ──────────────────────────────────────────────────────────────────
/// The name that an assignment line gives a value, `export` aside.
pub open spec fn line_key(k: Seq<char>) -> Seq<char> {
    text::trim(text::without_prefix(text::trim(k), "export "@))
}

/// The value that a line of the secrets file gives the key, unless it is empty.
pub open spec fn line_secret(line: Seq<char>) -> Option<Seq<char>> {
    match text::halves(line, '=') {
        Some((k, v)) => {
            let value = text::strip_end(text::strip_start(text::trim(v), '"'), '"');
            if line_key(k) == "OPENROUTER_API_KEY"@ && value.len() > 0 {
                Some(value)
            } else {
                None
            }
        },
        None => None,
    }
}

/// The first value for the key at or behind line `i`.
pub open spec fn secret_from(lines: Seq<Seq<char>>, i: int) -> Option<Seq<char>>
    decreases lines.len() - i,
{
    if i < 0 || i >= lines.len() {
        None
    } else {
        match line_secret(lines[i]) {
            Some(v) => Some(v),
            None => secret_from(lines, i + 1),
        }
    }
}

/// The key: the variable where it is set and not empty, else, for the default
/// variable only, the secrets file.
pub open spec fn api_key(
    api_key_env: Seq<char>,
    value: Option<Seq<char>>,
    secrets: Option<Seq<char>>,
) -> Option<Seq<char>> {
    if value is Some && value->0.len() > 0 {
        value
    } else if api_key_env == "OPENROUTER_API_KEY"@ && secrets is Some {
        secret_from(text::lines(secrets->0), 0)
    } else {
        None
    }
}

fn secret_of_line(line: &str) -> (r: Option<String>)
    ensures
        is_text(r, line_secret(line@)),
{
    match text::split_once(line, '=') {
        Some((k, v)) => {
            let key = text::trim_str(k.as_str());
            let key = text::strip_prefix_or_self(key.as_str(), "export ");
            let key = text::trim_str(key.as_str());
            let val = text::trim_str(v.as_str());
            let val = text::strip_char(val.as_str(), '"');
            if str_eq(key.as_str(), "OPENROUTER_API_KEY") && !val.as_str().is_empty() {
                Some(val)
            } else {
                None
            }
        },
        None => None,
    }
}

/// The key of the variable `api_key_env`: `value` is what the variable holds,
/// `secrets` the content of the secrets file of the workspace.
pub fn load_api_key(api_key_env: &str, value: Option<&str>, secrets: Option<&str>) -> (r: Option<
    String,
>)
    ensures
        is_text(r, api_key(api_key_env@, opt_str(value), opt_str(secrets))),
{
    if let Some(k) = value {
        if !k.is_empty() {
            return Some(k.to_owned());
        }
    }
    if !str_eq(api_key_env, "OPENROUTER_API_KEY") {
        return None;
    }
    match secrets {
        Some(content) => {
            let lines = text::split_lines(content);
            let ghost all = text::texts(lines@);
            let mut i: usize = 0;
            while i < lines.len()
                invariant
                    i <= lines@.len(),
                    all == text::texts(lines@),
                    all == text::lines(content@),
                    secrets == Some(content),
                    api_key_env@ == "OPENROUTER_API_KEY"@,
                    !(value is Some && value->0@.len() > 0),
                    secret_from(all, 0) == secret_from(all, i as int),
                decreases lines.len() - i,
            {
                proof {
                    assert(all[i as int] == lines@[i as int]@);
                }
                let found = secret_of_line(lines[i].as_str());
                if found.is_some() {
                    return found;
                }
                i += 1;
            }
            None
        },
        None => None,
    }
}

/// The default key.
pub fn load_openrouter_key(value: Option<&str>, secrets: Option<&str>) -> (r: Option<String>)
    ensures
        is_text(r, api_key("OPENROUTER_API_KEY"@, opt_str(value), opt_str(secrets))),
{
    load_api_key("OPENROUTER_API_KEY", value, secrets)
}

// ── The request ──────────────────────────────────────────────────────────────
/// `members` begins with the three members that every request has.
pub open spec fn is_plain_request(
    members: Seq<(String, Json)>,
    prompt: Seq<char>,
    model: Seq<char>,
    max_tokens: u32,
) -> bool {
    &&& members.len() >= 3
    &&& members[0].0@ == "model"@
    &&& json::text_of(members[0].1) == Some(model)
    &&& members[1].0@ == "messages"@
    &&& members[1].1 matches Json::Array(list)
    &&& list@.len() == 1
    &&& is_user_message(list@[0], prompt)
    &&& members[2].0@ == "max_tokens"@
    &&& members[2].1 == Json::Int(max_tokens as i64)
}

pub open spec fn is_user_message(v: Json, prompt: Seq<char>) -> bool {
    &&& v matches Json::Object(m)
    &&& m@.len() == 2
    &&& m@[0].0@ == "role"@
    &&& json::text_of(m@[0].1) == Some("user"@)
    &&& m@[1].0@ == "content"@
    &&& json::text_of(m@[1].1) == Some(prompt)
}

/// Routing that keeps the request on one provider.
pub open spec fn is_direct_routing(v: Json) -> bool {
    &&& v matches Json::Object(m)
    &&& m@.len() == 2
    &&& m@[0].0@ == "order"@
    &&& m@[0].1 matches Json::Array(list)
    &&& list@.len() == 1
    &&& json::text_of(list@[0]) == Some("anthropic"@)
    &&& m@[1].0@ == "allow_fallbacks"@
    &&& m@[1].1 == Json::Bool(false)
}

/// The body of a request; `routed` says whether it pins the provider.
pub open spec fn is_request(
    v: Json,
    prompt: Seq<char>,
    model: Seq<char>,
    max_tokens: u32,
    routed: bool,
) -> bool {
    &&& v matches Json::Object(m)
    &&& is_plain_request(m@, prompt, model, max_tokens)
    &&& m@.len() == if routed {
        4int
    } else {
        3
    }
    &&& routed ==> m@[3].0@ == "provider"@ && is_direct_routing(m@[3].1)
}

fn plain_members(prompt: &str, model: &str, max_tokens: u32) -> (m: Vec<(String, Json)>)
    ensures
        m@.len() == 3,
        is_plain_request(m@, prompt@, model@, max_tokens),
{
    let mut user: Vec<(String, Json)> = Vec::new();
    user.push(("role".to_owned(), str_value("user")));
    user.push(("content".to_owned(), str_value(prompt)));
    let mut list: Vec<Json> = Vec::new();
    list.push(Json::Object(user));
    let mut m: Vec<(String, Json)> = Vec::new();
    m.push(("model".to_owned(), str_value(model)));
    m.push(("messages".to_owned(), Json::Array(list)));
    m.push(("max_tokens".to_owned(), Json::Int(max_tokens as i64)));
    m
}

/// The body of a chat request to the router. A model of the `anthropic/`
/// family is routed to that provider directly.
pub fn build_request_body(prompt: &str, model: &str, max_tokens: u32) -> (v: Json)
    ensures
        is_request(
            v,
            prompt@,
            model@,
            max_tokens,
            text::starts_with(model@, "anthropic/"@),
        ),
{
    let mut m = plain_members(prompt, model, max_tokens);
    if text::starts_with_str(model, "anthropic/") {
        let mut order: Vec<Json> = Vec::new();
        order.push(str_value("anthropic"));
        let mut routing: Vec<(String, Json)> = Vec::new();
        routing.push(("order".to_owned(), Json::Array(order)));
        routing.push(("allow_fallbacks".to_owned(), Json::Bool(false)));
        m.push(("provider".to_owned(), Json::Object(routing)));
    }
    Json::Object(m)
}

/// A request that is ready to be sent.
#[derive(Debug)]
pub struct ChatRequest {
    pub use_case: String,
    pub model: String,
    pub url: String,
    pub key: String,
    pub body: Json,
}

/// What is missing when there is no key.
pub open spec fn no_key_message(api_key_env: Seq<char>) -> Seq<char> {
    if api_key_env == "OPENROUTER_API_KEY"@ {
        "OPENROUTER_API_KEY not set and .hex/secrets/openrouter.env missing or empty"@
    } else {
        "API key env var `"@ + api_key_env + "` not set (resolved from llm.toml)"@
    }
}

/// What a call is made with.
pub struct CallText {
    pub use_case: Seq<char>,
    pub prompt: Seq<char>,
    pub model: Seq<char>,
    pub max_tokens: u32,
    pub base_url: Seq<char>,
    pub api_key_env: Seq<char>,
}

/// The outcome of preparing a request: without a key it is deferred, else the
/// body pins the provider only on the router and for its own models.
pub open spec fn is_prepared(
    r: Result<ChatRequest, ProviderError>,
    call: CallText,
    key: Option<Seq<char>>,
) -> bool {
    match key {
        None => r matches Err(ProviderError::Deferred(m)) && m@ == no_key_message(call.api_key_env),
        Some(k) => r matches Ok(q) && q.use_case@ == call.use_case && q.model@ == call.model
            && q.url@ == call.base_url && q.key@ == k && is_request(
            q.body,
            call.prompt,
            call.model,
            call.max_tokens,
            text::contains(call.base_url, "openrouter.ai"@) && text::starts_with(
                call.model,
                "anthropic/"@,
            ),
        ),
    }
}

fn generate_inner(
    use_case: &str,
    prompt: &str,
    model: &str,
    max_tokens: u32,
    base_url: &str,
    api_key_env: &str,
    value: Option<&str>,
    secrets: Option<&str>,
) -> (r: Result<ChatRequest, ProviderError>)
    ensures
        is_prepared(
            r,
            (CallText {
                use_case: use_case@,
                prompt: prompt@,
                model: model@,
                max_tokens,
                base_url: base_url@,
                api_key_env: api_key_env@,
            }),
            api_key(api_key_env@, opt_str(value), opt_str(secrets)),
        ),
{
    let key = match load_api_key(api_key_env, value, secrets) {
        Some(k) => k,
        None => {
            if str_eq(api_key_env, "OPENROUTER_API_KEY") {
                return Err(
                    ProviderError::Deferred(
                        "OPENROUTER_API_KEY not set and .hex/secrets/openrouter.env missing or empty".to_owned(),
                    ),
                );
            }
            let mut m = "API key env var `".to_owned();
            m.append(api_key_env);
            m.append("` not set (resolved from llm.toml)");
            return Err(ProviderError::Deferred(m));
        },
    };
    let body = if text::contains_str(base_url, "openrouter.ai") {
        build_request_body(prompt, model, max_tokens)
    } else {
        Json::Object(plain_members(prompt, model, max_tokens))
    };
    Ok(
        ChatRequest {
            use_case: use_case.to_owned(),
            model: model.to_owned(),
            url: base_url.to_owned(),
            key,
            body,
        },
    )
}

/// Prepares a call of the default endpoint with the default key.
pub fn generate(
    prompt: &str,
    model: &str,
    max_tokens: u32,
    value: Option<&str>,
    secrets: Option<&str>,
) -> (r: Result<ChatRequest, ProviderError>)
    ensures
        is_prepared(
            r,
            (CallText {
                use_case: "generate"@,
                prompt: prompt@,
                model: model@,
                max_tokens,
                base_url: "https://openrouter.ai/api/v1/chat/completions"@,
                api_key_env: "OPENROUTER_API_KEY"@,
            }),
            api_key("OPENROUTER_API_KEY"@, opt_str(value), opt_str(secrets)),
        ),
{
    generate_inner(
        "generate",
        prompt,
        model,
        max_tokens,
        "https://openrouter.ai/api/v1/chat/completions",
        "OPENROUTER_API_KEY",
        value,
        secrets,
    )
}

/// A call that is ready to be made.
#[derive(Debug)]
pub enum Call {
    /// Over the network.
    Http(ChatRequest),
    /// Through a local command, which brings its own credentials.
    ClaudeCli {
        use_case: String,
        prompt: String,
        model: String,
        max_tokens: u32,
        settings_file: Option<String>,
    },
}

/// The outcome of preparing a call for a use case.
pub open spec fn is_call_for(
    r: Result<Call, ProviderError>,
    name: Seq<char>,
    use_case: Seq<char>,
    prompt: Seq<char>,
    config: Result<ResolvedLlm, String>,
    value: Option<Seq<char>>,
    secrets: Option<Seq<char>>,
) -> bool {
    match config {
        Err(e) => r matches Err(ProviderError::Deferred(m)) && m@ == "llm_config::resolve("@
            + use_case + "): "@ + e@,
        Ok(c) => if c.transport@ == assistant::cli(name) {
            r matches Ok(
                Call::ClaudeCli { use_case: u, prompt: p, model: m, max_tokens: n, settings_file: f },
            ) && u@ == use_case && p@ == prompt && m@ == c.model@ && n == c.max_tokens
                && crate::llm_config::opt_text(f) == crate::llm_config::opt_text(
                c.claude_settings_file,
            )
        } else {
            let call = CallText {
                use_case,
                prompt,
                model: c.model@,
                max_tokens: c.max_tokens,
                base_url: c.base_url@,
                api_key_env: c.api_key_env@,
            };
            let key = api_key(c.api_key_env@, value, secrets);
            match r {
                Ok(Call::Http(q)) => is_prepared(Ok(q), call, key),
                Ok(Call::ClaudeCli { .. }) => false,
                Err(e) => is_prepared(Err(e), call, key),
            }
        },
    }
}

/// Prepares a call for a use case. `config` is what resolving its settings
/// gave; `value` is what the variable of its key holds.
pub fn generate_for(
    assistant: &Assistant,
    use_case: &str,
    prompt: &str,
    config: &Result<ResolvedLlm, String>,
    value: Option<&str>,
    secrets: Option<&str>,
) -> (r: Result<Call, ProviderError>)
    ensures
        is_call_for(
            r,
            assistant.name@,
            use_case@,
            prompt@,
            *config,
            opt_str(value),
            opt_str(secrets),
        ),
{
    let cfg = match config {
        Ok(c) => c,
        Err(e) => {
            let mut m = "llm_config::resolve(".to_owned();
            m.append(use_case);
            m.append("): ");
            m.append(e.as_str());
            return Err(ProviderError::Deferred(m));
        },
    };
    let cli = assistant.cli_transport();
    if str_eq(cfg.transport.as_str(), cli.as_str()) {
        return Ok(
            Call::ClaudeCli {
                use_case: use_case.to_owned(),
                prompt: prompt.to_owned(),
                model: cfg.model.clone(),
                max_tokens: cfg.max_tokens,
                settings_file: match &cfg.claude_settings_file {
                    Some(f) => Some(f.clone()),
                    None => None,
                },
            },
        );
    }
    let r = generate_inner(
        use_case,
        prompt,
        cfg.model.as_str(),
        cfg.max_tokens,
        cfg.base_url.as_str(),
        cfg.api_key_env.as_str(),
        value,
        secrets,
    );
    match r {
        Ok(q) => Ok(Call::Http(q)),
        Err(e) => Err(e),
    }
}

/// Prepares the call that probes whether the service answers.
pub fn health_check(
    assistant: &Assistant,
    config: &Result<ResolvedLlm, String>,
    value: Option<&str>,
    secrets: Option<&str>,
) -> (r: Result<Call, ProviderError>)
    ensures
        is_call_for(
            r,
            assistant.name@,
            "health_check"@,
            "Respond with a single word: OK"@,
            *config,
            opt_str(value),
            opt_str(secrets),
        ),
{
    generate_for(
        assistant,
        "health_check",
        "Respond with a single word: OK",
        config,
        value,
        secrets,
    )
}

// ── The reply ────────────────────────────────────────────────────────────────
/// The first choice of a reply.
pub open spec fn first_choice(v: Json) -> Option<Json> {
    match json::member(v, "choices"@) {
        Some(c) => json::first_item(c),
        None => None,
    }
}

/// The text of the first choice.
pub open spec fn reply_content(v: Json) -> Option<Seq<char>> {
    match first_choice(v) {
        Some(c) => match json::member(c, "message"@) {
            Some(m) => json::text_member(m, "content"@),
            None => None,
        },
        None => None,
    }
}

/// The service says that it cut the first choice off.
pub open spec fn cut_off(v: Json) -> bool {
    first_choice(v) is Some && json::text_member(first_choice(v)->0, "finish_reason"@) == Some(
        "length"@,
    )
}

/// The answer in a reply, whose text is `rendered`. A reply that was cut off
/// is an error of its own, with or without content.
pub fn parse_chat_response(use_case: &str, reply: &Json, rendered: &str) -> (r: Result<
    String,
    ProviderError,
>)
    ensures
        match r {
            Ok(s) => !cut_off(*reply) && reply_content(*reply) == Some(s@),
            Err(ProviderError::Truncated(m)) => cut_off(*reply) && m@ == "response for use case `"@
                + use_case@ + "` was truncated (finish_reason=length)"@,
            Err(ProviderError::Upstream(m)) => !cut_off(*reply) && reply_content(*reply) is None
                && m@ == "no content in response: "@ + rendered@,
            Err(ProviderError::Deferred(_)) => false,
        },
{
    let choice = match reply.get("choices") {
        Some(c) => c.first(),
        None => None,
    };
    if let Some(c) = choice {
        if let Some(reason) = c.text_at("finish_reason") {
            if str_eq(reason.as_str(), "length") {
                let mut m = "response for use case `".to_owned();
                m.append(use_case);
                m.append("` was truncated (finish_reason=length)");
                return Err(ProviderError::Truncated(m));
            }
        }
        if let Some(message) = c.get("message") {
            if let Some(content) = message.text_at("content") {
                return Ok(content);
            }
        }
    }
    let mut m = "no content in response: ".to_owned();
    m.append(rendered);
    Err(ProviderError::Upstream(m))
}

/// A count in a reply: zero unless it is a non-negative integer.
pub open spec fn count_of(v: Option<Json>) -> int {
    match v {
        Some(Json::Int(n)) => if n >= 0 {
            n as int
        } else {
            0
        },
        Some(Json::Number(t)) => match text::parse_unsigned(t@) {
            Ok(n) => n,
            Err(_) => 0,
        },
        _ => 0,
    }
}

fn read_count(v: Option<&Json>) -> (n: u64)
    ensures
        n == count_of(
            match v {
                Some(j) => Some(*j),
                None => None,
            },
        ),
{
    match v {
        Some(Json::Int(n)) => if *n >= 0 {
            *n as u64
        } else {
            0
        },
        Some(Json::Number(t)) => match text::parse_u64(t.as_str()) {
            Ok(n) => n,
            Err(_) => 0,
        },
        _ => 0,
    }
}

/// What is said of a reply that reports no usage.
pub fn no_usage_warning(use_case: &str, model: &str) -> (r: String)
    ensures
        r@ == "provider: WARNING OpenRouter response for use_case="@ + use_case@ + " model="@
            + model@
            + " had no `usage` block — cost unrecordable, logging a zero-token marker row"@,
{
    let mut r = "provider: WARNING OpenRouter response for use_case=".to_owned();
    r.append(use_case);
    r.append(" model=");
    r.append(model);
    r.append(" had no `usage` block — cost unrecordable, logging a zero-token marker row");
    r
}

/// The input and output tokens that a reply reports, if it reports usage.
pub fn reported_usage(reply: &Json) -> (r: Option<(u64, u64)>)
    ensures
        match r {
            Some((i, o)) => json::member(*reply, "usage"@) is Some && i == count_of(
                json::member(json::member(*reply, "usage"@)->0, "prompt_tokens"@),
            ) && o == count_of(
                json::member(json::member(*reply, "usage"@)->0, "completion_tokens"@),
            ),
            None => json::member(*reply, "usage"@) is None,
        },
{
    match reply.get("usage") {
        Some(u) => Some((read_count(u.get("prompt_tokens")), read_count(u.get("completion_tokens")))),
        None => None,
    }
}

// ── Laws ─────────────────────────────────────────────────────────────────────
/// The key is the variable wherever it is set and not empty. Only the default variable
/// falls back on the secrets file: on the first line there that gives it a value.
pub proof fn law_api_key(env: Seq<char>, value: Option<Seq<char>>, secrets: Option<Seq<char>>)
    ensures
        value is Some && value->0.len() > 0 ==> api_key(env, value, secrets) == value,
        (value is None || value->0.len() == 0) && env != "OPENROUTER_API_KEY"@ ==> api_key(
            env,
            value,
            secrets,
        ) is None,
        (value is None || value->0.len() == 0) && secrets is None ==> api_key(
            env,
            value,
            secrets,
        ) is None,
        api_key(env, value, secrets) is Some ==> api_key(env, value, secrets)->0.len() > 0,
        (value is None || value->0.len() == 0) && env == "OPENROUTER_API_KEY"@ && secrets is Some
            ==> is_first_secret(text::lines(secrets->0), api_key(env, value, secrets)),
{
    if secrets is Some {
        lemma_secret_from(text::lines(secrets->0), 0);
    }
}

/// Whether that is what the first line with a value gives, or nothing where no line has
/// one.
pub open spec fn is_first_secret(lines: Seq<Seq<char>>, r: Option<Seq<char>>) -> bool {
    match r {
        Some(v) => exists|k: int|
            0 <= k < lines.len() && line_secret(#[trigger] lines[k]) == Some(v) && forall|j: int|
                0 <= j < k ==> line_secret(#[trigger] lines[j]) is None,
        None => forall|j: int| 0 <= j < lines.len() ==> line_secret(#[trigger] lines[j]) is None,
    }
}

proof fn lemma_secret_from(lines: Seq<Seq<char>>, i: int)
    requires
        0 <= i <= lines.len(),
    ensures
        match secret_from(lines, i) {
            Some(v) => v.len() > 0 && exists|k: int|
                i <= k < lines.len() && line_secret(#[trigger] lines[k]) == Some(v) && forall|j: int|
                    i <= j < k ==> line_secret(#[trigger] lines[j]) is None,
            None => forall|j: int| i <= j < lines.len() ==> line_secret(#[trigger] lines[j]) is None,
        },
    decreases lines.len() - i,
{
    if i < lines.len() {
        if line_secret(lines[i]) is None {
            lemma_secret_from(lines, i + 1);
            if secret_from(lines, i) is Some {
                let v = secret_from(lines, i)->0;
                let k = choose|k: int|
                    i + 1 <= k < lines.len() && line_secret(#[trigger] lines[k]) == Some(v)
                        && forall|j: int|
                        i + 1 <= j < k ==> line_secret(#[trigger] lines[j]) is None;
                assert(line_secret(lines[k]) == Some(v));
            }
        } else {
            assert(line_secret(lines[i]) == secret_from(lines, i));
        }
    }
}

/// A line gives the key the value behind its equals sign, quotes around it left out; a
/// line for another name, or without a value, gives none.
pub proof fn law_secret_lines(value: Seq<char>, name: Seq<char>)
    requires
        value.len() > 0,
        !text::is_space(value[0]) && !text::is_space(value.last()),
        value[0] != '"' && value.last() != '"',
        name.len() > 0,
        !name.contains('='),
        !text::is_space(name[0]) && !text::is_space(name.last()),
        !text::starts_with(name, "export "@),
    ensures
        line_secret("OPENROUTER_API_KEY"@.push('=') + value) == Some(value),
        line_secret("OPENROUTER_API_KEY"@.push('=') + (seq!['"'] + value + seq!['"'])) == Some(value),
        line_secret("OPENROUTER_API_KEY"@.push('=') + Seq::empty()) is None,
        line_secret(name.push('=') + value) is Some == (name == "OPENROUTER_API_KEY"@),
{
    let key = "OPENROUTER_API_KEY"@;
    reveal_strlit("OPENROUTER_API_KEY");
    reveal_strlit("export ");
    assert(!key.contains('='));
    text::lemma_trim_fixed(key);
    text::lemma_trim_fixed(name);
    text::lemma_trim_fixed(value);
    assert(!text::starts_with(key, "export "@)) by {
        if text::starts_with(key, "export "@) {
            assert(key.subrange(0, 7)[0] == "export "@[0]);
        }
    }
    assert(line_key(key) == key);
    assert(line_key(name) == name);
    text::law_halves(key, '=', value);
    text::law_halves(name, '=', value);
    let quoted = seq!['"'] + value + seq!['"'];
    text::lemma_trim_fixed(quoted);
    text::law_halves(key, '=', quoted);
    text::law_halves(key, '=', Seq::empty());
    let front = value + seq!['"'];
    assert(quoted.drop_first() =~= front);
    assert(front.drop_last() =~= value);
    assert(text::strip_start(front, '"') == front);
    assert(text::strip_start(quoted, '"') == front);
    assert(text::strip_end(value, '"') == value);
    assert(text::strip_end(front, '"') == value);
    assert(text::strip_start(value, '"') == value);
}

/// The workspace is the directory that is set, else `hex` below the home directory,
/// else one below `/tmp`.
pub proof fn law_root(hex_dir: Seq<char>, home: Option<Seq<char>>)
    ensures
        root_of(Some(hex_dir), home) == hex_dir,
        home is Some ==> root_of(None, home) == paths::joined(home->0, "hex"@),
        root_of(None, None) == "/tmp/hex"@,
{
}

/// A request is deferred if and only if there is no key; else it carries the key to the
/// address, and its body pins the provider if and only if the address is the router's
/// and the model one of that provider.
pub proof fn law_prepared(
    r: Result<ChatRequest, ProviderError>,
    call: CallText,
    key: Option<Seq<char>>,
)
    requires
        is_prepared(r, call, key),
    ensures
        (r is Ok) == (key is Some),
        r is Err ==> r->Err_0 is Deferred,
        r is Ok ==> r->Ok_0.key@ == key->0 && r->Ok_0.url@ == call.base_url && r->Ok_0.model@
            == call.model && r->Ok_0.body is Object,
        r is Ok ==> (exists|i: int|
            0 <= i < r->Ok_0.body->Object_0@.len() && (#[trigger] r->Ok_0.body->Object_0@[i]).0@
                == "provider"@) == (text::contains(call.base_url, "openrouter.ai"@)
            && text::starts_with(call.model, "anthropic/"@)),
{
    if r is Ok {
        let m = r->Ok_0.body->Object_0@;
        reveal_strlit("model");
        reveal_strlit("messages");
        reveal_strlit("max_tokens");
        reveal_strlit("provider");
        assert("model"@.len() == 5 && "max_tokens"@.len() == 10);
        assert("messages"@[0] == 'm' && "provider"@[0] == 'p' && "provider"@.len() == 8);
        if text::contains(call.base_url, "openrouter.ai"@) && text::starts_with(
            call.model,
            "anthropic/"@,
        ) {
            assert(m[3].0@ == "provider"@);
        } else {
            assert forall|i: int| 0 <= i < m.len() implies (#[trigger] m[i]).0@ != "provider"@ by {
                assert(i == 0 || i == 1 || i == 2);
            }
        }
    }
}

/// A count is the number that is there; one below zero, or none at all, is zero.
pub proof fn law_count(n: i64)
    ensures
        n >= 0 ==> count_of(Some(Json::Int(n))) == n,
        n < 0 ==> count_of(Some(Json::Int(n))) == 0,
        count_of(None) == 0,
        count_of(Some(Json::Null)) == 0,
{
}

/// The answer in a reply is the content of the message of its first choice; a reply is
/// cut off if and only if the reason that its first choice gives is its length.
pub proof fn law_reply(v: Json, choices: Vec<Json>)
    requires
        json::member(v, "choices"@) == Some(Json::Array(choices)),
    ensures
        choices@.len() == 0 ==> reply_content(v) is None && !cut_off(v),
        choices@.len() > 0 ==> ({
            let c = choices@[0];
            &&& cut_off(v) == (json::text_member(c, "finish_reason"@) == Some("length"@))
            &&& json::member(c, "message"@) is Some ==> reply_content(v) == json::text_member(
                json::member(c, "message"@)->0,
                "content"@,
            )
            &&& json::member(c, "message"@) is None ==> reply_content(v) is None
        }),
{
}

/// A request names its model and its limit, holds one message, of the user and with the
/// prompt, and pins its provider if and only if it is routed.
pub proof fn law_request(
    v: Json,
    prompt: Seq<char>,
    model: Seq<char>,
    max_tokens: u32,
    routed: bool,
)
    requires
        is_request(v, prompt, model, max_tokens, routed),
    ensures
        json::text_member(v, "model"@) == Some(model),
        json::member(v, "max_tokens"@) == Some(Json::Int(max_tokens as i64)),
        json::member(v, "messages"@) is Some,
        ({
            let first = json::first_item(json::member(v, "messages"@)->0);
            &&& first is Some
            &&& json::text_member(first->0, "role"@) == Some("user"@)
            &&& json::text_member(first->0, "content"@) == Some(prompt)
        }),
        (json::member(v, "provider"@) is Some) == routed,
        routed ==> json::member(json::member(v, "provider"@)->0, "allow_fallbacks"@) == Some(
            Json::Bool(false),
        ),
{
    reveal_strlit("model");
    reveal_strlit("messages");
    reveal_strlit("max_tokens");
    reveal_strlit("provider");
    reveal_strlit("role");
    reveal_strlit("content");
    reveal_strlit("order");
    reveal_strlit("allow_fallbacks");
    assert("model"@.len() == 5 && "messages"@[0] == 'm' && "messages"@.len() == 8);
    assert("max_tokens"@.len() == 10 && "provider"@[0] == 'p' && "provider"@.len() == 8);
    assert("role"@.len() == 4 && "content"@.len() == 7);
    assert("order"@.len() == 5 && "allow_fallbacks"@.len() == 15);
    reveal_with_fuel(json::member_index, 6);
}

/// A call goes through the local command if the transport is that of the assistant, and
/// over the network otherwise, and then only with a key; without a configuration or a key
/// it is deferred.
pub proof fn law_call(
    r: Result<Call, ProviderError>,
    name: Seq<char>,
    use_case: Seq<char>,
    prompt: Seq<char>,
    config: Result<ResolvedLlm, String>,
    value: Option<Seq<char>>,
    secrets: Option<Seq<char>>,
)
    requires
        is_call_for(r, name, use_case, prompt, config, value, secrets),
    ensures
        config is Err ==> r is Err && r->Err_0 is Deferred,
        r is Err ==> r->Err_0 is Deferred,
        config is Ok ==> ({
            let c = config->Ok_0;
            let local = c.transport@ == name + "-cli"@;
            let key = api_key(c.api_key_env@, value, secrets);
            &&& (r is Ok) == (local || key is Some)
            &&& r is Ok ==> (r->Ok_0 is ClaudeCli) == local
            &&& local ==> (r->Ok_0)->ClaudeCli_prompt@ == prompt && (r->Ok_0)->ClaudeCli_model@
                == c.model@ && (r->Ok_0)->ClaudeCli_max_tokens == c.max_tokens
            &&& !local && key is Some ==> (r->Ok_0)->Http_0.key@ == key->0
                && (r->Ok_0)->Http_0.url@ == c.base_url@ && (r->Ok_0)->Http_0.model@ == c.model@
                && json::member((r->Ok_0)->Http_0.body, "max_tokens"@) == Some(
                Json::Int(c.max_tokens as i64),
            )
        }),
{
    if config is Ok {
        let c = config->Ok_0;
        let key = api_key(c.api_key_env@, value, secrets);
        if c.transport@ != name + "-cli"@ && key is Some {
            let q = (r->Ok_0)->Http_0;
            law_request(
                q.body,
                prompt,
                c.model@,
                c.max_tokens,
                text::contains(c.base_url@, "openrouter.ai"@) && text::starts_with(
                    c.model@,
                    "anthropic/"@,
                ),
            );
        }
    }
}

} // verus!
