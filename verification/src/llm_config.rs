//! Which model, limits, endpoint and transport each use case of a language
//! model calls. The highest of these wins: environment, the table of the use
//! case, the defaults table, the built-in registry.
use crate::assistant::{self, Assistant};
use crate::memory::provider;
use crate::paths;
use crate::text::{self, str_eq};
use vstd::prelude::*;

verus! {

/// The settings that one use case calls with.
#[derive(Debug, Clone)]
pub struct ResolvedLlm {
    pub model: String,
    pub max_tokens: u32,
    pub base_url: String,
    pub api_key_env: String,
    /// Cap on the estimated input tokens of a call.
    pub max_input_tokens: Option<u32>,
    /// `"http"`, or the transport that runs the assistant as a command.
    pub transport: String,
    /// The settings file of that command.
    pub claude_settings_file: Option<String>,
}

pub const TRANSPORT_HTTP: &'static str = "http";

/// One table of the configuration file.
#[derive(Debug, Clone)]
pub struct SectionFields {
    pub model: Option<String>,
    pub max_tokens: Option<u32>,
    pub base_url: Option<String>,
    pub api_key_env: Option<String>,
    pub max_input_tokens: Option<u32>,
    pub transport: Option<String>,
    pub claude_settings_file: Option<String>,
}

/// The configuration file.
#[derive(Debug, Clone)]
pub struct LlmTomlFile {
    pub defaults: Option<SectionFields>,
    pub use_cases: Vec<(String, SectionFields)>,
}

/// The environment variables that bear on one use case.
#[derive(Debug, Clone)]
pub struct LlmEnv {
    /// `HEX_LLM_MODEL_<USE CASE>`
    pub model: Option<String>,
    /// `HEX_CONSOLIDATE_MODEL`
    pub consolidate_model: Option<String>,
    /// `HEX_LLM_TRANSPORT_<USE CASE>`
    pub transport: Option<String>,
}

/// What is built in for a use case.
pub struct BuiltIn {
    pub model: String,
    pub max_tokens: u32,
    pub max_input_tokens: Option<u32>,
}

pub open spec fn use_cases() -> Seq<Seq<char>> {
    seq!["memory_extract"@, "memory_judge"@, "consolidate_audit"@, "health_check"@]
}

pub open spec fn known_transport(name: Seq<char>, t: Seq<char>) -> bool {
    t == "http"@ || t == assistant::cli(name)
}

/// The model, output cap and input cap that are built in.
pub open spec fn built_in(name: Seq<char>, use_case: Seq<char>) -> Option<
    (Seq<char>, u32, Option<u32>),
> {
    if use_case == "memory_extract"@ {
        Some((assistant::model(name, "sonnet-5"@), 16384u32, Some(48_000u32)))
    } else if use_case == "memory_judge"@ {
        Some((assistant::model(name, "sonnet-5"@), 4096u32, None))
    } else if use_case == "consolidate_audit"@ {
        Some((assistant::model(name, "sonnet-5"@), 16384u32, None))
    } else if use_case == "health_check"@ {
        Some((assistant::model(name, "haiku-4.5"@), 64u32, None))
    } else {
        None
    }
}

/// The first of two settings that is given.
pub open spec fn or<T>(a: Option<T>, b: Option<T>) -> Option<T> {
    match a {
        Some(x) => Some(x),
        None => b,
    }
}

pub open spec fn or_value<T>(a: Option<T>, b: T) -> T {
    match a {
        Some(x) => x,
        None => b,
    }
}

/// The text of an optional string.
pub open spec fn opt_text(s: Option<String>) -> Option<Seq<char>> {
    match s {
        Some(x) => Some(x@),
        None => None,
    }
}

/// The text of an optional string that is not empty.
pub open spec fn set_text(s: Option<String>) -> Option<Seq<char>> {
    match s {
        Some(x) => if x@.len() > 0 {
            Some(x@)
        } else {
            None
        },
        None => None,
    }
}

/// The texts of one table.
pub struct SectionText {
    pub model: Option<Seq<char>>,
    pub max_tokens: Option<u32>,
    pub base_url: Option<Seq<char>>,
    pub api_key_env: Option<Seq<char>>,
    pub max_input_tokens: Option<u32>,
    pub transport: Option<Seq<char>>,
    pub claude_settings_file: Option<Seq<char>>,
}

impl View for SectionFields {
    type V = SectionText;

    open spec fn view(&self) -> SectionText {
        SectionText {
            model: opt_text(self.model),
            max_tokens: self.max_tokens,
            base_url: opt_text(self.base_url),
            api_key_env: opt_text(self.api_key_env),
            max_input_tokens: self.max_input_tokens,
            transport: opt_text(self.transport),
            claude_settings_file: opt_text(self.claude_settings_file),
        }
    }
}

/// A table that gives nothing.
pub open spec fn no_section() -> SectionText {
    SectionText {
        model: None,
        max_tokens: None,
        base_url: None,
        api_key_env: None,
        max_input_tokens: None,
        transport: None,
        claude_settings_file: None,
    }
}

pub open spec fn defaults_of(file: Option<LlmTomlFile>) -> SectionText {
    match file {
        Some(f) => match f.defaults {
            Some(d) => d@,
            None => no_section(),
        },
        None => no_section(),
    }
}

/// The position of the table of `use_case`.
pub open spec fn table_index(tables: Seq<(String, SectionFields)>, use_case: Seq<char>, i: int) -> Option<
    int,
>
    decreases tables.len() - i,
{
    if i < 0 || i >= tables.len() {
        None
    } else if tables[i].0@ == use_case {
        Some(i)
    } else {
        table_index(tables, use_case, i + 1)
    }
}

pub open spec fn table_of(file: Option<LlmTomlFile>, use_case: Seq<char>) -> SectionText {
    match file {
        Some(f) => match table_index(f.use_cases@, use_case, 0) {
            Some(i) => f.use_cases@[i].1@,
            None => no_section(),
        },
        None => no_section(),
    }
}

/// The model that the environment asks for.
pub open spec fn env_model(env: LlmEnv, use_case: Seq<char>) -> Option<Seq<char>> {
    or(
        set_text(env.model),
        if use_case == "consolidate_audit"@ {
            set_text(env.consolidate_model)
        } else {
            None
        },
    )
}

/// The transport that is asked for, with the name of the place that asks.
pub open spec fn wanted_transport(
    env: LlmEnv,
    file: Option<LlmTomlFile>,
    use_case: Seq<char>,
) -> Option<(Seq<char>, Seq<char>)> {
    match set_text(env.transport) {
        Some(t) => Some((t, "env HEX_LLM_TRANSPORT_"@ + text::uppercase(use_case))),
        None => match table_of(file, use_case).transport {
            Some(t) => Some((t, "[use_cases."@ + use_case + "].transport"@)),
            None => match defaults_of(file).transport {
                Some(t) => Some((t, "[defaults].transport"@)),
                None => None,
            },
        },
    }
}

pub open spec fn transport_error(name: Seq<char>, value: Seq<char>, source: Seq<char>) -> Seq<
    char,
> {
    "invalid transport `"@ + value + "` in "@ + source
        + " — known transports are: http, "@ + assistant::cli(name)
}

pub open spec fn unknown_use_case_error(use_case: Seq<char>) -> Seq<char> {
    "unknown LLM use case `"@ + use_case
        + "` — known: memory_extract, memory_judge, consolidate_audit, health_check"@
}

/// The texts of resolved settings.
pub struct ResolvedText {
    pub model: Seq<char>,
    pub max_tokens: u32,
    pub base_url: Seq<char>,
    pub api_key_env: Seq<char>,
    pub max_input_tokens: Option<u32>,
    pub transport: Seq<char>,
    pub claude_settings_file: Option<Seq<char>>,
}

impl View for ResolvedLlm {
    type V = ResolvedText;

    open spec fn view(&self) -> ResolvedText {
        ResolvedText {
            model: self.model@,
            max_tokens: self.max_tokens,
            base_url: self.base_url@,
            api_key_env: self.api_key_env@,
            max_input_tokens: self.max_input_tokens,
            transport: self.transport@,
            claude_settings_file: opt_text(self.claude_settings_file),
        }
    }
}

/// The settings of a use case, or why there are none.
pub open spec fn resolution(
    name: Seq<char>,
    use_case: Seq<char>,
    env: LlmEnv,
    file: Result<Option<LlmTomlFile>, String>,
) -> Result<ResolvedText, Seq<char>> {
    match built_in(name, use_case) {
        None => Err(unknown_use_case_error(use_case)),
        Some((model, max_tokens, max_input_tokens)) => match file {
            Err(e) => Err(e@),
            Ok(f) => {
                let uc = table_of(f, use_case);
                let defaults = defaults_of(f);
                let transport = wanted_transport(env, f, use_case);
                if transport is Some && !known_transport(name, (transport->0).0) {
                    Err(transport_error(name, (transport->0).0, (transport->0).1))
                } else {
                    Ok(
                        ResolvedText {
                            model: or_value(
                                or(env_model(env, use_case), or(uc.model, defaults.model)),
                                model,
                            ),
                            max_tokens: or_value(or(uc.max_tokens, defaults.max_tokens), max_tokens),
                            base_url: or_value(
                                or(uc.base_url, defaults.base_url),
                                "https://openrouter.ai/api/v1/chat/completions"@,
                            ),
                            api_key_env: or_value(
                                or(uc.api_key_env, defaults.api_key_env),
                                "OPENROUTER_API_KEY"@,
                            ),
                            max_input_tokens: or(
                                or(uc.max_input_tokens, defaults.max_input_tokens),
                                max_input_tokens,
                            ),
                            transport: match transport {
                                Some(t) => t.0,
                                None => "http"@,
                            },
                            claude_settings_file: or(
                                uc.claude_settings_file,
                                defaults.claude_settings_file,
                            ),
                        },
                    )
                }
            },
        },
    }
}

/// All known use cases.
pub fn known_use_cases() -> (r: [&'static str; 4])
    ensures
        r@.map_values(|s: &'static str| s@) == use_cases(),
{
    let r = ["memory_extract", "memory_judge", "consolidate_audit", "health_check"];
    proof {
        assert(r@.map_values(|s: &'static str| s@) =~= use_cases());
    }
    r
}

/// Whether a use case is a known one.
pub fn is_known_use_case(name: &str) -> (b: bool)
    ensures
        b == use_cases().contains(name@),
{
    let known = known_use_cases();
    let ghost all = use_cases();
    let mut i: usize = 0;
    proof {
        assert(all.len() == 4);
    }
    while i < 4
        invariant
            i <= 4,
            all == use_cases(),
            all.len() == 4,
            known@.map_values(|s: &'static str| s@) == all,
            forall|j: int| 0 <= j < i ==> all[j] != name@,
        decreases 4 - i,
    {
        proof {
            assert(all[i as int] == known@[i as int]@);
        }
        if str_eq(known[i], name) {
            return true;
        }
        i += 1;
    }
    false
}

pub open spec fn unknown_warning(name: Seq<char>) -> Seq<char> {
    "warning: llm.toml contains unknown [use_cases."@ + name
        + "] — known use cases are: memory_extract, memory_judge, consolidate_audit, health_check"@
}

/// What is said of the first `n` tables that no use case reads, in order.
pub open spec fn warnings_for(tables: Seq<(String, SectionFields)>, n: int) -> Seq<Seq<char>>
    decreases n,
{
    if n <= 0 {
        Seq::empty()
    } else if use_cases().contains(tables[n - 1].0@) {
        warnings_for(tables, n - 1)
    } else {
        warnings_for(tables, n - 1).push(unknown_warning(tables[n - 1].0@))
    }
}

/// What is said of the tables that no use case reads.
pub fn unknown_warnings(file: &LlmTomlFile) -> (r: Vec<String>)
    ensures
        text::texts(r@) == warnings_for(file.use_cases@, file.use_cases@.len() as int),
{
    let mut out: Vec<String> = Vec::new();
    let mut i: usize = 0;
    proof {
        assert(text::texts(out@) =~= Seq::<Seq<char>>::empty());
    }
    while i < file.use_cases.len()
        invariant
            i <= file.use_cases@.len(),
            text::texts(out@) == warnings_for(file.use_cases@, i as int),
        decreases file.use_cases.len() - i,
    {
        if !is_known_use_case(file.use_cases[i].0.as_str()) {
            let mut m = "warning: llm.toml contains unknown [use_cases.".to_owned();
            m.append(file.use_cases[i].0.as_str());
            m.append(
                "] — known use cases are: memory_extract, memory_judge, consolidate_audit, health_check",
            );
            proof {
                text::lemma_texts_push(out@, m);
            }
            out.push(m);
        }
        i += 1;
    }
    out
}

fn builtin(assistant: &Assistant, use_case: &str) -> (r: Option<BuiltIn>)
    ensures
        match r {
            Some(b) => built_in(assistant.name@, use_case@) == Some(
                (b.model@, b.max_tokens, b.max_input_tokens),
            ),
            None => built_in(assistant.name@, use_case@) is None,
        },
{
    if str_eq(use_case, "memory_extract") {
        Some(
            BuiltIn {
                model: assistant.model_name("sonnet-5"),
                max_tokens: 16384,
                max_input_tokens: Some(48_000),
            },
        )
    } else if str_eq(use_case, "memory_judge") {
        Some(
            BuiltIn {
                model: assistant.model_name("sonnet-5"),
                max_tokens: 4096,
                max_input_tokens: None,
            },
        )
    } else if str_eq(use_case, "consolidate_audit") {
        Some(
            BuiltIn {
                model: assistant.model_name("sonnet-5"),
                max_tokens: 16384,
                max_input_tokens: None,
            },
        )
    } else if str_eq(use_case, "health_check") {
        Some(
            BuiltIn {
                model: assistant.model_name("haiku-4.5"),
                max_tokens: 64,
                max_input_tokens: None,
            },
        )
    } else {
        None
    }
}

/// Fails, naming the place that the value comes from, unless the transport is
/// known.
pub fn validate_transport(assistant: &Assistant, value: &str, source: &str) -> (r: Result<
    (),
    String,
>)
    ensures
        (r is Ok) == known_transport(assistant.name@, value@),
        r is Err ==> r->Err_0@ == transport_error(assistant.name@, value@, source@),
{
    let cli = assistant.cli_transport();
    if str_eq(value, TRANSPORT_HTTP) || str_eq(value, cli.as_str()) {
        return Ok(());
    }
    let mut m = "invalid transport `".to_owned();
    m.append(value);
    m.append("` in ");
    m.append(source);
    m.append(" — known transports are: http, ");
    m.append(cli.as_str());
    Err(m)
}

/// The file of settings below the workspace that is named, else below `hex` in
/// the home directory, else below `hex` where the program runs.
pub open spec fn settings_path(hex_dir: Option<Seq<char>>, home: Option<Seq<char>>) -> Seq<char> {
    let workspace = match (hex_dir, home) {
        (Some(d), _) => d,
        (None, Some(h)) => paths::joined(h, "hex"@),
        (None, None) => paths::joined("."@, "hex"@),
    };
    paths::joined(workspace, ".hex/config/llm.toml"@)
}

/// Where the file of settings lies, from `HEX_DIR` and the home directory.
pub fn config_path(hex_dir: Option<&str>, home: Option<&str>) -> (r: String)
    ensures
        r@ == settings_path(provider::opt_str(hex_dir), provider::opt_str(home)),
{
    let workspace = match hex_dir {
        Some(d) => d.to_owned(),
        None => match home {
            Some(h) => paths::join(h, "hex"),
            None => paths::join(".", "hex"),
        },
    };
    paths::join(workspace.as_str(), ".hex/config/llm.toml")
}

/// The name of the environment variable that overrides the model of a use case.
pub fn model_env_key(use_case: &str) -> (r: String)
    ensures
        r@ == "HEX_LLM_MODEL_"@ + text::uppercase(use_case@),
{
    let mut k = "HEX_LLM_MODEL_".to_owned();
    k.append(text::to_uppercase(use_case).as_str());
    k
}

/// The name of the environment variable that overrides the transport of a use
/// case.
pub fn transport_env_key(use_case: &str) -> (r: String)
    ensures
        r@ == "HEX_LLM_TRANSPORT_"@ + text::uppercase(use_case@),
{
    let mut k = "HEX_LLM_TRANSPORT_".to_owned();
    k.append(text::to_uppercase(use_case).as_str());
    k
}

fn clone_opt(s: &Option<String>) -> (r: Option<String>)
    ensures
        opt_text(r) == opt_text(*s),
{
    match s {
        Some(x) => Some(x.clone()),
        None => None,
    }
}

fn clone_set(s: &Option<String>) -> (r: Option<String>)
    ensures
        opt_text(r) == set_text(*s),
{
    match s {
        Some(x) => if x.as_str().is_empty() {
            None
        } else {
            Some(x.clone())
        },
        None => None,
    }
}

fn clone_section(s: &SectionFields) -> (r: SectionFields)
    ensures
        r@ == s@,
{
    SectionFields {
        model: clone_opt(&s.model),
        max_tokens: s.max_tokens,
        base_url: clone_opt(&s.base_url),
        api_key_env: clone_opt(&s.api_key_env),
        max_input_tokens: s.max_input_tokens,
        transport: clone_opt(&s.transport),
        claude_settings_file: clone_opt(&s.claude_settings_file),
    }
}

impl Default for SectionFields {
    fn default() -> (r: SectionFields)
        ensures
            r@ == no_section(),
    {
        SectionFields {
            model: None,
            max_tokens: None,
            base_url: None,
            api_key_env: None,
            max_input_tokens: None,
            transport: None,
            claude_settings_file: None,
        }
    }
}

fn defaults_section(file: &Option<LlmTomlFile>) -> (r: SectionFields)
    ensures
        r@ == defaults_of(*file),
{
    match file {
        Some(f) => match &f.defaults {
            Some(d) => clone_section(d),
            None => SectionFields::default(),
        },
        None => SectionFields::default(),
    }
}

fn use_case_section(file: &Option<LlmTomlFile>, use_case: &str) -> (r: SectionFields)
    ensures
        r@ == table_of(*file, use_case@),
{
    match file {
        Some(f) => {
            let mut i: usize = 0;
            while i < f.use_cases.len()
                invariant
                    *file == Some(*f),
                    i <= f.use_cases@.len(),
                    table_index(f.use_cases@, use_case@, 0) == table_index(
                        f.use_cases@,
                        use_case@,
                        i as int,
                    ),
                decreases f.use_cases.len() - i,
            {
                if str_eq(f.use_cases[i].0.as_str(), use_case) {
                    return clone_section(&f.use_cases[i].1);
                }
                i += 1;
            }
            SectionFields::default()
        },
        None => SectionFields::default(),
    }
}

fn first_given(a: Option<String>, b: Option<String>) -> (r: Option<String>)
    ensures
        opt_text(r) == or(opt_text(a), opt_text(b)),
{
    match a {
        Some(x) => Some(x),
        None => b,
    }
}

fn first_number(a: Option<u32>, b: Option<u32>) -> (r: Option<u32>)
    ensures
        r == or(a, b),
{
    match a {
        Some(x) => Some(x),
        None => b,
    }
}

fn given_or(a: Option<String>, b: &str) -> (r: String)
    ensures
        r@ == or_value(opt_text(a), b@),
{
    match a {
        Some(x) => x,
        None => b.to_owned(),
    }
}

fn env_model_for(env: &LlmEnv, use_case: &str) -> (r: Option<String>)
    ensures
        opt_text(r) == env_model(*env, use_case@),
{
    let alias = if str_eq(use_case, "consolidate_audit") {
        clone_set(&env.consolidate_model)
    } else {
        None
    };
    first_given(clone_set(&env.model), alias)
}

/// The settings of `use_case`. `file` is what reading the configuration file
/// gave: nothing where there is none, and an error where it is malformed.
pub fn resolve(
    assistant: &Assistant,
    use_case: &str,
    env: &LlmEnv,
    file: &Result<Option<LlmTomlFile>, String>,
) -> (r: Result<ResolvedLlm, String>)
    ensures
        match r {
            Ok(c) => resolution(assistant.name@, use_case@, *env, *file) == Ok::<
                ResolvedText,
                Seq<char>,
            >(c@),
            Err(e) => resolution(assistant.name@, use_case@, *env, *file) == Err::<
                ResolvedText,
                Seq<char>,
            >(e@),
        },
{
    let bi = match builtin(assistant, use_case) {
        Some(b) => b,
        None => {
            let mut m = "unknown LLM use case `".to_owned();
            m.append(use_case);
            m.append("` — known: memory_extract, memory_judge, consolidate_audit, health_check");
            return Err(m);
        },
    };
    let file = match file {
        Ok(f) => f,
        Err(e) => {
            return Err(e.clone());
        },
    };
    let defaults = defaults_section(file);
    let uc = use_case_section(file, use_case);
    let env_transport = clone_set(&env.transport);
    let transport = match env_transport {
        Some(t) => {
            let mut source = "env HEX_LLM_TRANSPORT_".to_owned();
            source.append(text::to_uppercase(use_case).as_str());
            match validate_transport(assistant, t.as_str(), source.as_str()) {
                Ok(_) => {},
                Err(e) => {
                    return Err(e);
                },
            }
            t
        },
        None => match uc.transport {
            Some(t) => {
                let mut source = "[use_cases.".to_owned();
                source.append(use_case);
                source.append("].transport");
                match validate_transport(assistant, t.as_str(), source.as_str()) {
                    Ok(_) => {},
                    Err(e) => {
                        return Err(e);
                    },
                }
                t
            },
            None => match defaults.transport {
                Some(t) => {
                    match validate_transport(assistant, t.as_str(), "[defaults].transport") {
                        Ok(_) => {},
                        Err(e) => {
                            return Err(e);
                        },
                    }
                    t
                },
                None => TRANSPORT_HTTP.to_owned(),
            },
        },
    };
    let model = given_or(
        first_given(env_model_for(env, use_case), first_given(uc.model, defaults.model)),
        bi.model.as_str(),
    );
    let max_tokens: u32 = match first_number(uc.max_tokens, defaults.max_tokens) {
        Some(n) => n,
        None => bi.max_tokens,
    };
    Ok(
        ResolvedLlm {
            model,
            max_tokens,
            base_url: given_or(
                first_given(uc.base_url, defaults.base_url),
                "https://openrouter.ai/api/v1/chat/completions",
            ),
            api_key_env: given_or(
                first_given(uc.api_key_env, defaults.api_key_env),
                "OPENROUTER_API_KEY",
            ),
            max_input_tokens: first_number(
                first_number(uc.max_input_tokens, defaults.max_input_tokens),
                bi.max_input_tokens,
            ),
            transport,
            claude_settings_file: first_given(
                uc.claude_settings_file,
                defaults.claude_settings_file,
            ),
        },
    )
}

/// The environment has the last word on the model of every known use case,
/// and a use case without a file and without environment gets what is built in.
pub proof fn law_precedence(
    name: Seq<char>,
    use_case: Seq<char>,
    env: LlmEnv,
    file: Option<LlmTomlFile>,
    x: String,
)
    requires
        built_in(name, use_case) is Some,
    ensures
        env.model == Some(x) && x@.len() > 0 && resolution(name, use_case, env, Ok(file)) is Ok
            ==> resolution(name, use_case, env, Ok(file))->Ok_0.model == x@,
        env.model is None && env.consolidate_model is None && env.transport is None ==> ({
            let r = resolution(name, use_case, env, Ok(None));
            &&& r is Ok
            &&& r->Ok_0.model == (built_in(name, use_case)->0).0
            &&& r->Ok_0.max_tokens == (built_in(name, use_case)->0).1
            &&& r->Ok_0.max_input_tokens == (built_in(name, use_case)->0).2
            &&& r->Ok_0.transport == "http"@
        }),
{
}

/// Whatever is configured, the transport of resolved settings is a known one.
pub proof fn law_transport_known(
    name: Seq<char>,
    use_case: Seq<char>,
    env: LlmEnv,
    file: Result<Option<LlmTomlFile>, String>,
)
    ensures
        resolution(name, use_case, env, file) matches Ok(r) ==> known_transport(name, r.transport),
{
}

/// Where a field is written in three places, the environment wins over the table of the
/// use case, that over the defaults, and these over what is built in.
pub proof fn law_each_field_has_its_precedence(
    name: Seq<char>,
    use_case: Seq<char>,
    env: LlmEnv,
    file: LlmTomlFile,
    i: int,
)
    requires
        0 <= i < file.use_cases@.len(),
        file.use_cases@[i].0@ == use_case,
        forall|j: int| 0 <= j < i ==> (#[trigger] file.use_cases@[j]).0@ != use_case,
        file.defaults is Some,
        resolution(name, use_case, env, Ok(Some(file))) is Ok,
    ensures
        ({
            let r = resolution(name, use_case, env, Ok(Some(file)))->Ok_0;
            let t = file.use_cases@[i].1;
            let d = file.defaults->0;
            let set = env.model is Some && env.model->0@.len() > 0;
            let audit = use_case == "consolidate_audit"@ && env.consolidate_model is Some
                && env.consolidate_model->0@.len() > 0;
            &&& set ==> r.model == env.model->0@
            &&& !set && audit ==> r.model == env.consolidate_model->0@
            &&& !set && !audit && t.model is Some ==> r.model == t.model->0@
            &&& !set && !audit && t.model is None && d.model is Some ==> r.model == d.model->0@
            &&& !set && !audit && t.model is None && d.model is None ==> Some(r.model) == (match built_in(
                name,
                use_case,
            ) {
                Some(b) => Some(b.0),
                None => None,
            })
            &&& t.max_tokens is Some ==> r.max_tokens == t.max_tokens->0
            &&& t.max_tokens is None && d.max_tokens is Some ==> r.max_tokens == d.max_tokens->0
            &&& t.base_url is Some ==> r.base_url == t.base_url->0@
            &&& t.base_url is None && d.base_url is Some ==> r.base_url == d.base_url->0@
            &&& t.api_key_env is Some ==> r.api_key_env == t.api_key_env->0@
            &&& t.api_key_env is None && d.api_key_env is Some ==> r.api_key_env
                == d.api_key_env->0@
            &&& t.max_input_tokens is Some ==> r.max_input_tokens == t.max_input_tokens
            &&& t.max_input_tokens is None && d.max_input_tokens is Some ==> r.max_input_tokens
                == d.max_input_tokens
            &&& (env.transport is Some && env.transport->0@.len() > 0) ==> r.transport
                == env.transport->0@
            &&& (env.transport is None || env.transport->0@.len() == 0) && t.transport is Some
                ==> r.transport == t.transport->0@
            &&& (env.transport is None || env.transport->0@.len() == 0) && t.transport is None
                && d.transport is Some ==> r.transport == d.transport->0@
        }),
{
    lemma_table_index(file.use_cases@, use_case, 0, i);
}

proof fn lemma_table_index(
    tables: Seq<(String, SectionFields)>,
    use_case: Seq<char>,
    from: int,
    i: int,
)
    requires
        0 <= from <= i < tables.len(),
        tables[i].0@ == use_case,
        forall|j: int| from <= j < i ==> (#[trigger] tables[j]).0@ != use_case,
    ensures
        table_index(tables, use_case, from) == Some(i),
    decreases i - from,
{
    if from < i {
        assert(tables[from].0@ != use_case);
        lemma_table_index(tables, use_case, from + 1, i);
    }
}

/// Settings are refused where the use case is not known, where the file could not be
/// read and where the transport asked for is not known, and nowhere else.
pub proof fn law_what_is_refused(
    name: Seq<char>,
    use_case: Seq<char>,
    env: LlmEnv,
    file: Result<Option<LlmTomlFile>, String>,
)
    ensures
        use_case != "memory_extract"@ && use_case != "memory_judge"@ && use_case
            != "consolidate_audit"@ && use_case != "health_check"@ ==> resolution(
            name,
            use_case,
            env,
            file,
        ) is Err,
        (use_case == "memory_extract"@ || use_case == "memory_judge"@ || use_case
            == "consolidate_audit"@ || use_case == "health_check"@) && file is Err ==> resolution(
            name,
            use_case,
            env,
            file,
        ) == Err::<ResolvedText, Seq<char>>(file->Err_0@),
        env.transport is Some && env.transport->0@.len() > 0 && env.transport->0@ != "http"@
            && env.transport->0@ != assistant::cli(name) ==> resolution(name, use_case, env, file) is Err,
{
}

/// What is built in: the models, the caps on output and the one cap on input.
pub proof fn law_built_in(name: Seq<char>)
    ensures
        built_in(name, "memory_extract"@) == Some(
            (assistant::model(name, "sonnet-5"@), 16384u32, Some(48_000u32)),
        ),
        built_in(name, "memory_judge"@) == Some(
            (assistant::model(name, "sonnet-5"@), 4096u32, None::<u32>),
        ),
        built_in(name, "consolidate_audit"@) == Some(
            (assistant::model(name, "sonnet-5"@), 16384u32, None::<u32>),
        ),
        built_in(name, "health_check"@) == Some(
            (assistant::model(name, "haiku-4.5"@), 64u32, None::<u32>),
        ),
{
    reveal_strlit("memory_extract");
    reveal_strlit("memory_judge");
    reveal_strlit("consolidate_audit");
    reveal_strlit("health_check");
    assert("memory_extract"@.len() == 14 && "consolidate_audit"@.len() == 17);
    assert("memory_judge"@[0] == 'm' && "health_check"@[0] == 'h');
    assert("memory_judge"@.len() == 12 && "health_check"@.len() == 12);
}

/// There is a warning for each table that no use case reads, in order, and for no other.
pub proof fn law_unknown_tables(tables: Seq<(String, SectionFields)>, n: int)
    requires
        0 <= n <= tables.len(),
    ensures
        warnings_for(tables, n) == tables.take(n).filter(
            |t: (String, SectionFields)|
                t.0@ != "memory_extract"@ && t.0@ != "memory_judge"@ && t.0@ != "consolidate_audit"@
                    && t.0@ != "health_check"@,
        ).map_values(|t: (String, SectionFields)| unknown_warning(t.0@)),
    decreases n,
{
    reveal(Seq::filter);
    let keep = |t: (String, SectionFields)|
        t.0@ != "memory_extract"@ && t.0@ != "memory_judge"@ && t.0@ != "consolidate_audit"@ && t.0@
            != "health_check"@;
    let f = |t: (String, SectionFields)| unknown_warning(t.0@);
    if n > 0 {
        law_unknown_tables(tables, n - 1);
        assert(tables.take(n).drop_last() =~= tables.take(n - 1));
        let u = use_cases();
        assert(u[0] == "memory_extract"@ && u[1] == "memory_judge"@ && u[2] == "consolidate_audit"@
            && u[3] == "health_check"@);
        let front = tables.take(n - 1).filter(keep);
        assert(front.push(tables[n - 1]).map_values(f) =~= front.map_values(f).push(
            f(tables[n - 1]),
        ));
    } else {
        assert(tables.take(0).filter(keep).map_values(f) =~= Seq::<Seq<char>>::empty());
    }
}

/// The file of settings lies below the workspace: where that is set, else `hex` below
/// the home directory.
pub proof fn law_settings_path(hex_dir: Seq<char>, home: Seq<char>)
    ensures
        settings_path(Some(hex_dir), Some(home)) == paths::joined(hex_dir, ".hex/config/llm.toml"@),
        settings_path(None, Some(home)) == paths::joined(
            paths::joined(home, "hex"@),
            ".hex/config/llm.toml"@,
        ),
{
}

} // verus!
