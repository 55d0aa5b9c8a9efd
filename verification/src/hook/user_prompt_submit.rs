//! The hook on a submitted prompt: it adds what the workspace remembers, and
//! never blocks the prompt.
use crate::json::{self, Json, JsonText};
use crate::memory::provider;
use crate::text;
use vstd::prelude::*;

verus! {

/// What the hook does with its input.
#[derive(Debug, Clone)]
pub enum HookStep {
    /// Say something and do nothing else.
    Report(String),
    /// Look up what is remembered in a workspace about a prompt.
    Recall { root: String, prompt: String },
}

/// The line that the hook says something in.
pub open spec fn hook_line(what: Seq<char>) -> Seq<char> {
    "[hook/user-prompt-submit] "@ + what
}

fn report(what: &str, more: &str) -> (r: String)
    ensures
        r@ == hook_line(what@ + more@),
{
    let mut r = "[hook/user-prompt-submit] ".to_owned();
    r.append(what);
    r.append(more);
    proof {
        assert(r@ =~= hook_line(what@ + more@));
    }
    r
}

/// The workspace: the first of the two settings that is there.
pub open spec fn workspace(hex_dir: Option<Seq<char>>, project_dir: Option<Seq<char>>) -> Option<
    Seq<char>,
> {
    if hex_dir is Some {
        hex_dir
    } else {
        project_dir
    }
}

/// What the hook does with an input, read as JSON or not, in a workspace that
/// is known or not.
pub open spec fn is_plan(
    r: HookStep,
    input: Result<JsonText, Seq<char>>,
    root: Option<Seq<char>>,
) -> bool {
    match input {
        Err(e) => r is Report && r->Report_0@ == hook_line("parse hook input: "@ + e),
        Ok(v) => match json::text_in(v, "prompt"@) {
            None => r is Report && r->Report_0@ == hook_line("hook input has no string prompt"@),
            Some(p) => match root {
                None => r is Report && r->Report_0@ == hook_line(
                    "HEX_DIR/CLAUDE_PROJECT_DIR not set; memory injection disabled"@,
                ),
                Some(d) => r is Recall && r->root@ == d && r->prompt@ == p,
            },
        },
    }
}

/// What the hook does, from what was read of its input and the settings
/// `HEX_DIR` and `CLAUDE_PROJECT_DIR`.
pub fn plan(raw: Result<String, String>, hex_dir: Option<&str>, project_dir: Option<&str>) -> (r:
    HookStep)
    ensures
        match raw {
            Err(e) => r is Report && r->Report_0@ == hook_line("read hook input: "@ + e@),
            Ok(s) => is_plan(
                r,
                json::parsed(s@),
                workspace(provider::opt_str(hex_dir), provider::opt_str(project_dir)),
            ),
        },
{
    match raw {
        Err(e) => HookStep::Report(report("read hook input: ", e.as_str())),
        Ok(s) => plan_for(json::parse(s.as_str()), hex_dir, project_dir),
    }
}

/// What the hook does, from its input as JSON, or what is wrong with it, and
/// the two settings.
pub fn plan_for(
    input: Result<Json, String>,
    hex_dir: Option<&str>,
    project_dir: Option<&str>,
) -> (r: HookStep)
    ensures
        is_plan(
            r,
            json::result_text(input),
            workspace(provider::opt_str(hex_dir), provider::opt_str(project_dir)),
        ),
{
    let v = match input {
        Err(e) => {
            return HookStep::Report(report("parse hook input: ", e.as_str()));
        },
        Ok(v) => v,
    };
    proof {
        json::lemma_member(v, "prompt"@);
    }
    let prompt = match v.text_at("prompt") {
        Some(p) => p,
        None => {
            let none = String::new();
            let r = report("hook input has no string prompt", none.as_str());
            proof {
                assert("hook input has no string prompt"@ + none@
                    =~= "hook input has no string prompt"@);
            }
            return HookStep::Report(r);
        },
    };
    let root = match hex_dir {
        Some(d) => Some(d),
        None => project_dir,
    };
    match root {
        Some(d) => HookStep::Recall { root: d.to_owned(), prompt },
        None => {
            let none = String::new();
            let r = report(
                "HEX_DIR/CLAUDE_PROJECT_DIR not set; memory injection disabled",
                none.as_str(),
            );
            proof {
                assert("HEX_DIR/CLAUDE_PROJECT_DIR not set; memory injection disabled"@ + none@
                    =~= "HEX_DIR/CLAUDE_PROJECT_DIR not set; memory injection disabled"@);
            }
            HookStep::Report(r)
        },
    }
}

/// The output of the hook: its context.
pub open spec fn context_json(context: Seq<char>) -> JsonText {
    JsonText::Object(
        seq![
            (
                "hookSpecificOutput"@,
                JsonText::Object(
                    seq![
                        ("hookEventName"@, JsonText::Str("UserPromptSubmit"@)),
                        ("additionalContext"@, JsonText::Str(context)),
                    ],
                ),
            ),
        ],
    )
}

fn context_value(context: &str) -> (r: Json)
    ensures
        r@ == context_json(context@),
{
    let mut m: Vec<(String, Json)> = Vec::new();
    json::put(&mut m, "hookEventName", json::text_value("UserPromptSubmit"));
    json::put(&mut m, "additionalContext", json::text_value(context));
    proof {
        assert(json::member_texts(m@) =~= seq![
            ("hookEventName"@, JsonText::Str("UserPromptSubmit"@)),
            ("additionalContext"@, JsonText::Str(context@)),
        ]);
    }
    let mut out: Vec<(String, Json)> = Vec::new();
    json::put(&mut out, "hookSpecificOutput", json::object(m));
    proof {
        assert(json::member_texts(out@) =~= context_json(context@)->Object_0);
    }
    json::object(out)
}

/// What the hook puts out after the lookup: the context where there is one to
/// add, else nothing.
pub fn emit_context(injected: bool, context: &str) -> (r: Option<Json>)
    ensures
        match r {
            Some(v) => injected && v@ == context_json(context@),
            None => !injected,
        },
{
    if injected {
        Some(context_value(context))
    } else {
        None
    }
}

/// What is said where the output could not be written.
pub fn write_error(error: &str) -> (r: String)
    ensures
        r@ == hook_line("write hook output: "@ + error@),
{
    report("write hook output: ", error)
}

// ── Laws ─────────────────────────────────────────────────────────────────────
/// Something is looked up if and only if the input is JSON with a text for a prompt and
/// one of the two settings names a workspace; the prompt is that text, and the first of
/// the settings wins. Else the hook only says what is missing.
pub proof fn law_plan(
    r: HookStep,
    input: Result<JsonText, Seq<char>>,
    hex_dir: Option<Seq<char>>,
    project_dir: Option<Seq<char>>,
)
    requires
        is_plan(r, input, workspace(hex_dir, project_dir)),
    ensures
        (r is Recall) == (input is Ok && json::text_in(input->Ok_0, "prompt"@) is Some && (
        hex_dir is Some || project_dir is Some)),
        r is Recall ==> Some(r->prompt@) == json::text_in(input->Ok_0, "prompt"@),
        r is Recall && hex_dir is Some ==> r->root@ == hex_dir->0,
        r is Recall && hex_dir is None ==> r->root@ == project_dir->0,
        r is Report ==> text::starts_with(r->Report_0@, "[hook/user-prompt-submit] "@),
{
    if r is Report {
        let p = "[hook/user-prompt-submit] "@;
        assert(r->Report_0@.subrange(0, p.len() as int) =~= p);
    }
}

/// The context is put out for the event of a submitted prompt.
pub proof fn law_context(context: Seq<char>)
    ensures
        context_json(context)->Object_0.len() == 1,
        context_json(context)->Object_0[0].0 == "hookSpecificOutput"@,
        context_json(context)->Object_0[0].1->Object_0.contains(
            ("hookEventName"@, JsonText::Str("UserPromptSubmit"@)),
        ),
        context_json(context)->Object_0[0].1->Object_0.contains(
            ("additionalContext"@, JsonText::Str(context)),
        ),
{
    let o = context_json(context)->Object_0[0].1->Object_0;
    assert(o[0].0 == "hookEventName"@ && o[1].0 == "additionalContext"@);
}

} // verus!
