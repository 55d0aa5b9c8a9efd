//! The configuration of the language models.
use crate::assistant::{self, Assistant};
use crate::doctor::check::{self, Category, CheckResult, CheckText, Status};
use crate::json;
use crate::lists;
use crate::llm_config::{self, LlmTomlFile, SectionFields};
use crate::order;
use crate::paths;
use crate::text::{self, str_eq};
use vstd::prelude::*;

verus! {

#[derive(Debug, Clone, Copy)]
pub struct LlmConfigCheck;

/// The model that is built in for a use case.
pub open spec fn builtin(name: Seq<char>, use_case: Seq<char>) -> Seq<char> {
    if use_case == "memory_extract"@ || use_case == "memory_judge"@ || use_case
        == "consolidate_audit"@ {
        assistant::model(name, "sonnet-5"@)
    } else if use_case == "health_check"@ {
        assistant::model(name, "haiku-4.5"@)
    } else {
        "unknown"@
    }
}

fn builtin_model(assistant: &Assistant, use_case: &str) -> (r: String)
    ensures
        r@ == builtin(assistant.name@, use_case@),
{
    if str_eq(use_case, "memory_extract") || str_eq(use_case, "memory_judge") || str_eq(
        use_case,
        "consolidate_audit",
    ) {
        assistant.model_name("sonnet-5")
    } else if str_eq(use_case, "health_check") {
        assistant.model_name("haiku-4.5")
    } else {
        "unknown".to_owned()
    }
}

pub open spec fn named(use_case: Seq<char>) -> spec_fn((String, SectionFields)) -> bool {
    |t: (String, SectionFields)| t.0@ == use_case
}

/// The model of a use case: its own, else the default, else the built-in one.
pub open spec fn model_of(name: Seq<char>, file: LlmTomlFile, use_case: Seq<char>) -> Seq<char> {
    let own = match lists::first_from(file.use_cases@, named(use_case), 0) {
        Some(i) => json::opt_text(file.use_cases@[i].1.model),
        None => None,
    };
    let default = match file.defaults {
        Some(s) => json::opt_text(s.model),
        None => None,
    };
    match own {
        Some(m) => m,
        None => match default {
            Some(m) => m,
            None => builtin(name, use_case),
        },
    }
}

fn resolve_model(assistant: &Assistant, file: &LlmTomlFile, use_case: &str) -> (r: String)
    ensures
        r@ == model_of(assistant.name@, *file, use_case@),
{
    let ghost accepts = named(use_case@);
    let keep = |t: &(String, SectionFields)| -> (b: bool)
        ensures
            b == accepts(*t),
        { str_eq(t.0.as_str(), use_case) };
    match lists::position(&file.use_cases, keep, Ghost(accepts)) {
        Some(i) => {
            if let Some(m) = &file.use_cases[i].1.model {
                return m.as_str().to_owned();
            }
        },
        None => {},
    }
    if let Some(s) = &file.defaults {
        if let Some(m) = &s.model {
            return m.as_str().to_owned();
        }
    }
    builtin_model(assistant, use_case)
}

/// How the file was read.
#[derive(Debug, Clone)]
pub enum ConfigFile {
    Absent,
    Unreadable(String),
    Malformed(String),
    Parsed(LlmTomlFile),
}

/// The line of a use case.
pub open spec fn model_line(name: Seq<char>, file: LlmTomlFile, use_case: Seq<char>) -> Seq<char> {
    "  "@ + use_case + " → "@ + model_of(name, file, use_case)
}

pub open spec fn model_lines(name: Seq<char>, file: LlmTomlFile) -> Seq<Seq<char>> {
    llm_config::use_cases().map_values(|u: Seq<char>| model_line(name, file, u))
}

pub open spec fn is_unknown() -> spec_fn(Seq<char>) -> bool {
    |k: Seq<char>| !llm_config::use_cases().contains(k)
}

pub open spec fn table_names(file: LlmTomlFile) -> Seq<Seq<char>> {
    file.use_cases@.map_values(|t: (String, SectionFields)| t.0@)
}

/// The tables that no use case reads, in order.
pub open spec fn unknown_tables(file: LlmTomlFile) -> Seq<Seq<char>> {
    order::sorted(table_names(file).filter(is_unknown()), text::by_text())
}

pub open spec fn details_of(name: Seq<char>, file: LlmTomlFile) -> Seq<char> {
    let unknown = unknown_tables(file);
    text::join(
        model_lines(name, file) + if unknown.len() == 0 {
            Seq::empty()
        } else {
            seq!["  warning: unknown use_cases tables: "@ + text::join(unknown, ", "@)]
        },
        "\n"@,
    )
}

fn unknown_names(file: &LlmTomlFile) -> (r: Vec<String>)
    ensures
        text::texts(r@) == unknown_tables(*file),
{
    let ghost all = table_names(*file);
    let ghost keep = is_unknown();
    let mut out: Vec<String> = Vec::new();
    let mut i: usize = 0;
    proof {
        reveal(Seq::filter);
        assert(all.take(0) =~= Seq::<Seq<char>>::empty());
        assert(text::texts(out@) =~= all.take(0).filter(keep));
    }
    while i < file.use_cases.len()
        invariant
            i <= file.use_cases@.len(),
            all == table_names(*file),
            keep == is_unknown(),
            text::texts(out@) == all.take(i as int).filter(keep),
        decreases file.use_cases.len() - i,
    {
        proof {
            reveal(Seq::filter);
            assert(all.take(i + 1).drop_last() =~= all.take(i as int));
            assert(all.take(i + 1).last() == file.use_cases@[i as int].0@);
        }
        if !llm_config::is_known_use_case(file.use_cases[i].0.as_str()) {
            let s = file.use_cases[i].0.as_str().to_owned();
            proof {
                text::lemma_texts_push(out@, s);
            }
            out.push(s);
        }
        i += 1;
    }
    proof {
        assert(all.take(all.len() as int) =~= all);
    }
    text::sort_strings(out)
}

fn details(assistant: &Assistant, file: &LlmTomlFile) -> (r: String)
    ensures
        r@ == details_of(assistant.name@, *file),
{
    let known = llm_config::known_use_cases();
    let ghost all = llm_config::use_cases();
    let mut lines: Vec<String> = Vec::new();
    let mut i: usize = 0;
    proof {
        assert(all.len() == 4);
        assert(text::texts(lines@) =~= model_lines(assistant.name@, *file).take(0));
    }
    while i < 4
        invariant
            i <= 4,
            all == llm_config::use_cases(),
            all.len() == 4,
            known@.map_values(|s: &'static str| s@) == all,
            text::texts(lines@) == model_lines(assistant.name@, *file).take(i as int),
        decreases 4 - i,
    {
        proof {
            assert(all[i as int] == known@[i as int]@);
        }
        let mut line = "  ".to_owned();
        line.append(known[i]);
        line.append(" → ");
        let m = resolve_model(assistant, file, known[i]);
        line.append(m.as_str());
        proof {
            text::lemma_texts_push(lines@, line);
        }
        lines.push(line);
        proof {
            assert(text::texts(lines@) =~= model_lines(assistant.name@, *file).take(i + 1));
        }
        i += 1;
    }
    let unknown = unknown_names(file);
    proof {
        assert(model_lines(assistant.name@, *file).take(4) =~= model_lines(assistant.name@, *file));
        assert(text::texts(unknown@).len() == unknown@.len());
    }
    if unknown.len() > 0 {
        let mut line = "  warning: unknown use_cases tables: ".to_owned();
        let names = text::join_strings(&unknown, ", ");
        line.append(names.as_str());
        proof {
            text::lemma_texts_push(lines@, line);
        }
        lines.push(line);
    }
    proof {
        assert(text::texts(lines@) =~= model_lines(assistant.name@, *file) + if unknown_tables(*file).len() == 0 {
            Seq::empty()
        } else {
            seq![
                "  warning: unknown use_cases tables: "@ + text::join(
                    unknown_tables(*file),
                    ", "@,
                ),
            ]
        });
    }
    text::join_strings(&lines, "\n")
}

/// The file of a workspace.
pub open spec fn config_path(hex_dir: Seq<char>) -> Seq<char> {
    paths::joined(hex_dir, ".hex/config/llm.toml"@)
}

/// The result for a file: one that cannot be read or understood fails, an
/// absent one does not.
pub open spec fn verdict(name: Seq<char>, hex_dir: Seq<char>, file: ConfigFile) -> CheckText {
    let path = config_path(hex_dir);
    match file {
        ConfigFile::Absent => check::plain(
            Status::Pass,
            "llm.toml absent — built-in defaults will be used"@,
        ),
        ConfigFile::Unreadable(e) => check::plain(
            Status::Fail,
            "could not read "@ + path + ": "@ + e@,
        ),
        ConfigFile::Malformed(e) => check::plain(
            Status::Fail,
            "malformed llm.toml at "@ + path + ": "@ + e@,
        ),
        ConfigFile::Parsed(f) => CheckText {
            status: Status::Pass,
            message: "llm.toml parsed: "@ + path,
            details: Some(details_of(name, f)),
        },
    }
}

impl LlmConfigCheck {
    pub fn name(&self) -> (r: &'static str)
        ensures
            r@ == "llm-config"@,
    {
        "llm-config"
    }

    pub fn category(&self) -> (r: Category)
        ensures
            r == Category::Config,
    {
        Category::Config
    }

    /// The file of a workspace.
    pub fn path(&self, hex_dir: &str) -> (r: String)
        ensures
            r@ == config_path(hex_dir@),
    {
        paths::join(hex_dir, ".hex/config/llm.toml")
    }

    /// The result of the check, from how the file was read.
    pub fn run(&self, assistant: &Assistant, hex_dir: &str, file: &ConfigFile) -> (r: CheckResult)
        ensures
            r@ == verdict(assistant.name@, hex_dir@, *file),
    {
        let path = self.path(hex_dir);
        match file {
            ConfigFile::Absent => check::result(
                Status::Pass,
                "llm.toml absent — built-in defaults will be used",
            ),
            ConfigFile::Unreadable(e) => {
                let mut m = "could not read ".to_owned();
                m.append(path.as_str());
                m.append(": ");
                m.append(e.as_str());
                check::result(Status::Fail, m.as_str())
            },
            ConfigFile::Malformed(e) => {
                let mut m = "malformed llm.toml at ".to_owned();
                m.append(path.as_str());
                m.append(": ");
                m.append(e.as_str());
                check::result(Status::Fail, m.as_str())
            },
            ConfigFile::Parsed(f) => {
                let mut message = "llm.toml parsed: ".to_owned();
                message.append(path.as_str());
                CheckResult { status: Status::Pass, message, details: Some(details(assistant, f)) }
            },
        }
    }
}

/// Whether the file `.hex/llm-preference`, which nothing reads, is gone.
#[derive(Debug, Clone, Copy)]
pub struct StaleLlmPreferenceCheck;

pub open spec fn preference_path(hex_dir: Seq<char>) -> Seq<char> {
    paths::joined(hex_dir, ".hex/llm-preference"@)
}

/// The result; `removed` is whether the file could be removed where it was to
/// be.
pub open spec fn preference_verdict(
    hex_dir: Seq<char>,
    there: bool,
    fix: bool,
    removed: bool,
) -> CheckText {
    let path = preference_path(hex_dir);
    if !there {
        check::plain(Status::Pass, "no stale .hex/llm-preference"@)
    } else if fix && removed {
        check::plain(Status::Fixed, "removed stale "@ + path + " (no longer used)"@)
    } else {
        check::plain(Status::Warn, "stale "@ + path + " present — file is unused; remove it"@)
    }
}

impl StaleLlmPreferenceCheck {
    pub fn name(&self) -> (r: &'static str)
        ensures
            r@ == "stale-llm-preference"@,
    {
        "stale-llm-preference"
    }

    pub fn category(&self) -> (r: Category)
        ensures
            r == Category::Config,
    {
        Category::Config
    }

    /// The file of a workspace.
    pub fn path(&self, hex_dir: &str) -> (r: String)
        ensures
            r@ == preference_path(hex_dir@),
    {
        paths::join(hex_dir, ".hex/llm-preference")
    }

    /// The result of the check, from whether the file is there and whether it
    /// could be removed where it was to be.
    pub fn run(&self, hex_dir: &str, there: bool, fix: bool, removed: bool) -> (r: CheckResult)
        ensures
            r@ == preference_verdict(hex_dir@, there, fix, removed),
    {
        if !there {
            return check::result(Status::Pass, "no stale .hex/llm-preference");
        }
        let path = self.path(hex_dir);
        if fix && removed {
            let mut m = "removed stale ".to_owned();
            m.append(path.as_str());
            m.append(" (no longer used)");
            return check::result(Status::Fixed, m.as_str());
        }
        let mut m = "stale ".to_owned();
        m.append(path.as_str());
        m.append(" present — file is unused; remove it");
        check::result(Status::Warn, m.as_str())
    }
}

// ── Laws ─────────────────────────────────────────────────────────────────────
/// The model that the check tells is what a call would use: that of the table of the use
/// case, else the default, else the one that is built in.
pub proof fn law_told_model(name: Seq<char>, use_case: Seq<char>, file: LlmTomlFile, i: int)
    ensures
        llm_config::built_in(name, use_case) is Some ==> Some(builtin(name, use_case)) == (
        match llm_config::built_in(name, use_case) {
            Some(b) => Some(b.0),
            None => None,
        }),
        llm_config::built_in(name, use_case) is None ==> builtin(name, use_case) == "unknown"@,
        0 <= i < file.use_cases@.len() && file.use_cases@[i].0@ == use_case && (forall|j: int|
            0 <= j < i ==> (#[trigger] file.use_cases@[j]).0@ != use_case)
            && file.use_cases@[i].1.model is Some ==> model_of(name, file, use_case)
            == file.use_cases@[i].1.model->0@,
        (forall|j: int| 0 <= j < file.use_cases@.len() ==> (#[trigger] file.use_cases@[j]).0@
            != use_case) && file.defaults is Some && file.defaults->0.model is Some ==> model_of(
            name,
            file,
            use_case,
        ) == file.defaults->0.model->0@,
        (forall|j: int| 0 <= j < file.use_cases@.len() ==> (#[trigger] file.use_cases@[j]).0@
            != use_case) && file.defaults is None ==> model_of(name, file, use_case) == builtin(
            name,
            use_case,
        ),
{
    let t = file.use_cases@;
    lists::lemma_first_from(t, named(use_case), 0);
    match lists::first_from(t, named(use_case), 0) {
        Some(k) => {
            assert(named(use_case)(t[k]));
            if 0 <= i < t.len() && t[i].0@ == use_case && (forall|j: int|
                0 <= j < i ==> (#[trigger] t[j]).0@ != use_case) {
                assert(named(use_case)(t[i]));
                assert(k == i) by {
                    if k < i {
                        assert(t[k].0@ != use_case);
                    }
                    if i < k {
                        assert(!named(use_case)(t[i]));
                    }
                }
            }
        },
        None => {
            if 0 <= i < t.len() {
                assert(!named(use_case)(t[i]));
            }
        },
    }
}

/// A file that is not there or was understood passes, one that could not be read or
/// understood fails.
pub proof fn law_verdict(name: Seq<char>, hex_dir: Seq<char>, file: ConfigFile)
    ensures
        (verdict(name, hex_dir, file).status is Pass) == (file is Absent || file is Parsed),
        (verdict(name, hex_dir, file).status is Fail) == (file is Unreadable || file is Malformed),
        (verdict(name, hex_dir, file).details is Some) == (file is Parsed),
{
}

/// The tables that no use case reads are told, in the order of their names.
pub proof fn law_unknown_tables(file: LlmTomlFile, name: Seq<char>)
    ensures
        order::ascending(unknown_tables(file), text::by_text()),
        unknown_tables(file).contains(name) == (name != "memory_extract"@ && name != "memory_judge"@
            && name != "consolidate_audit"@ && name != "health_check"@ && exists|i: int|
            0 <= i < file.use_cases@.len() && (#[trigger] file.use_cases@[i]).0@ == name),
{
    let names = table_names(file);
    let kept = names.filter(is_unknown());
    text::lemma_by_text_total();
    order::lemma_sorted(kept, text::by_text());
    order::lemma_sorted_contains(kept, text::by_text(), name);
    let at = lists::lemma_filter_places(names, is_unknown());
    let u = llm_config::use_cases();
    assert(u[0] == "memory_extract"@ && u[1] == "memory_judge"@ && u[2] == "consolidate_audit"@
        && u[3] == "health_check"@);
    if kept.contains(name) {
        let k = choose|k: int| 0 <= k < kept.len() && kept[k] == name;
        assert(at.contains(at[k]));
        assert(names[at[k]] == name);
        assert(file.use_cases@[at[k]].0@ == name);
        assert(is_unknown()(name));
    }
    if is_unknown()(name) && exists|i: int|
        0 <= i < file.use_cases@.len() && (#[trigger] file.use_cases@[i]).0@ == name {
        let i = choose|i: int|
            0 <= i < file.use_cases@.len() && (#[trigger] file.use_cases@[i]).0@ == name;
        assert(names[i] == name);
        assert(at.contains(i));
        let k = choose|k: int| 0 <= k < at.len() && at[k] == i;
        assert(kept[k] == name);
    }
}

/// A stale preference is removed only where that is asked for, and told as fixed only
/// where it is gone.
pub proof fn law_preference(hex_dir: Seq<char>, there: bool, fix: bool, removed: bool)
    ensures
        (preference_verdict(hex_dir, there, fix, removed).status is Pass) == !there,
        (preference_verdict(hex_dir, there, fix, removed).status is Fixed) == (there && fix
            && removed),
        (preference_verdict(hex_dir, there, fix, removed).status is Warn) == (there && !(fix
            && removed)),
{
}

/// The details name every use case with its model, and the tables that no use case reads
/// if and only if there are some.
pub proof fn law_details(name: Seq<char>, file: LlmTomlFile)
    ensures
        ({
            let u = unknown_tables(file);
            let models = text::join(
                seq![
                    "  "@ + "memory_extract"@ + " → "@ + model_of(name, file, "memory_extract"@),
                    "  "@ + "memory_judge"@ + " → "@ + model_of(name, file, "memory_judge"@),
                    "  "@ + "consolidate_audit"@ + " → "@ + model_of(
                        name,
                        file,
                        "consolidate_audit"@,
                    ),
                    "  "@ + "health_check"@ + " → "@ + model_of(name, file, "health_check"@),
                ],
                "\n"@,
            );
            &&& u.len() == 0 ==> details_of(name, file) == models
            &&& u.len() > 0 ==> details_of(name, file) == models + "\n"@
                + ("  warning: unknown use_cases tables: "@ + text::join(u, ", "@))
        }),
{
    let u = unknown_tables(file);
    let m = model_lines(name, file);
    assert(m =~= seq![
        "  "@ + "memory_extract"@ + " → "@ + model_of(name, file, "memory_extract"@),
        "  "@ + "memory_judge"@ + " → "@ + model_of(name, file, "memory_judge"@),
        "  "@ + "consolidate_audit"@ + " → "@ + model_of(name, file, "consolidate_audit"@),
        "  "@ + "health_check"@ + " → "@ + model_of(name, file, "health_check"@),
    ]);
    if u.len() == 0 {
        assert(m + Seq::<Seq<char>>::empty() =~= m);
    } else {
        let w = "  warning: unknown use_cases tables: "@ + text::join(u, ", "@);
        text::law_join(m, seq![w], w, "\n"@);
    }
}

/// What is wrong with the file is told with its path and the reason; both files stand
/// below the directory `.hex` of the workspace.
pub proof fn law_messages(name: Seq<char>, dir: Seq<char>, e: String, f: LlmTomlFile)
    requires
        dir.len() > 0,
        dir.last() != '/',
    ensures
        config_path(dir) == dir + "/"@ + ".hex/config/llm.toml"@,
        preference_path(dir) == dir + "/"@ + ".hex/llm-preference"@,
        verdict(name, dir, ConfigFile::Unreadable(e)).message == "could not read "@ + config_path(
            dir,
        ) + ": "@ + e@,
        verdict(name, dir, ConfigFile::Malformed(e)).message == "malformed llm.toml at "@
            + config_path(dir) + ": "@ + e@,
        verdict(name, dir, ConfigFile::Parsed(f)).message == "llm.toml parsed: "@ + config_path(
            dir,
        ),
        verdict(name, dir, ConfigFile::Parsed(f)).details == Some(details_of(name, f)),
        verdict(name, dir, ConfigFile::Absent).message
            == "llm.toml absent — built-in defaults will be used"@,
        preference_verdict(dir, true, true, true).message == "removed stale "@ + preference_path(
            dir,
        ) + " (no longer used)"@,
        preference_verdict(dir, true, false, false).message == "stale "@ + preference_path(dir)
            + " present — file is unused; remove it"@,
        preference_verdict(dir, false, false, false).message == "no stale .hex/llm-preference"@,
{
    reveal_strlit("/");
    reveal_strlit(".hex/config/llm.toml");
    reveal_strlit(".hex/llm-preference");
    paths::law_joined(dir, ".hex/config/llm.toml"@);
    paths::law_joined(dir, ".hex/llm-preference"@);
    let a = ".hex/config/llm.toml"@;
    let b = ".hex/llm-preference"@;
    assert(a[0] == '.' && b[0] == '.');
    if text::starts_with(a, "/"@) {
        assert(a.subrange(0, 1)[0] == "/"@[0]);
    }
    if text::starts_with(b, "/"@) {
        assert(b.subrange(0, 1)[0] == "/"@[0]);
    }
}

} // verus!
