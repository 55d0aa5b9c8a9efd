//! The daemon for code intelligence: its early flags and its error line.
use crate::json::{self, Json, JsonText};
use crate::text::{self, str_eq};
use vstd::prelude::*;

verus! {

/// A flag that ends the program before the daemon starts.
#[derive(Debug, Clone, Copy, PartialEq, Eq, Structural)]
pub enum EarlyFlag {
    Version,
    Help,
}

/// Whether one of the arguments is `long` or `short`.
pub open spec fn asks(args: Seq<Seq<char>>, long: Seq<char>, short: Seq<char>) -> bool {
    args.contains(long) || args.contains(short)
}

/// The early flag in arguments; the version comes first where both are there.
pub open spec fn flag_in(args: Seq<Seq<char>>) -> Option<EarlyFlag> {
    if asks(args, "--version"@, "-V"@) {
        Some(EarlyFlag::Version)
    } else if asks(args, "--help"@, "-h"@) {
        Some(EarlyFlag::Help)
    } else {
        None
    }
}

/// The early flag in the arguments behind the program's name.
pub fn early_flag(args: &Vec<String>) -> (r: Option<EarlyFlag>)
    ensures
        r == flag_in(text::texts(args@)),
{
    if crate::memory::index::contains_text(args, "--version")
        || crate::memory::index::contains_text(args, "-V") {
        return Some(EarlyFlag::Version);
    }
    if crate::memory::index::contains_text(args, "--help") || crate::memory::index::contains_text(
        args,
        "-h",
    ) {
        return Some(EarlyFlag::Help);
    }
    None
}

/// What an early flag prints, for a version of the program.
pub fn early_line(flag: EarlyFlag, version: &str) -> (r: String)
    ensures
        r@ == match flag {
            EarlyFlag::Version => "scipd "@ + version@,
            EarlyFlag::Help =>
                "scipd — live code-intel daemon. Usage: scipd [--version|-V] [--help|-h]"@,
        },
{
    match flag {
        EarlyFlag::Version => {
            let mut r = "scipd ".to_owned();
            r.append(version);
            r
        },
        EarlyFlag::Help =>
            "scipd — live code-intel daemon. Usage: scipd [--version|-V] [--help|-h]".to_owned(),
    }
}

/// What is said of a failure.
pub open spec fn failure_json(code: Seq<char>, message: Seq<char>, hint: Seq<char>) -> JsonText {
    JsonText::Object(
        seq![
            (
                "error"@,
                JsonText::Object(
                    seq![
                        ("code"@, JsonText::Str(code)),
                        ("message"@, JsonText::Str(message)),
                        ("hint"@, JsonText::Str(hint)),
                    ],
                ),
            ),
        ],
    )
}

pub fn failure(code: &str, message: &str, hint: &str) -> (r: Json)
    ensures
        r@ == failure_json(code@, message@, hint@),
{
    let mut m: Vec<(String, Json)> = Vec::new();
    json::put(&mut m, "code", json::text_value(code));
    json::put(&mut m, "message", json::text_value(message));
    json::put(&mut m, "hint", json::text_value(hint));
    proof {
        assert(json::member_texts(m@) =~= seq![
            ("code"@, JsonText::Str(code@)),
            ("message"@, JsonText::Str(message@)),
            ("hint"@, JsonText::Str(hint@)),
        ]);
    }
    let mut out: Vec<(String, Json)> = Vec::new();
    json::put(&mut out, "error", json::object(m));
    proof {
        assert(json::member_texts(out@) =~= failure_json(code@, message@, hint@)->Object_0);
    }
    json::object(out)
}

/// An early flag is found wherever among the arguments it stands, long or short; to ask
/// for the version goes before asking for help, and other arguments ask for neither.
pub proof fn law_early_flag(args: Seq<Seq<char>>, i: int)
    ensures
        0 <= i < args.len() && (args[i] == "--version"@ || args[i] == "-V"@) ==> flag_in(args)
            == Some(EarlyFlag::Version),
        0 <= i < args.len() && (args[i] == "--help"@ || args[i] == "-h"@) ==> flag_in(args) is Some,
        flag_in(args) == Some(EarlyFlag::Help) ==> !args.contains("--version"@) && !args.contains(
            "-V"@,
        ) && (args.contains("--help"@) || args.contains("-h"@)),
        flag_in(args) is None ==> !args.contains("--help"@) && !args.contains("-h"@)
            && !args.contains("--version"@) && !args.contains("-V"@),
        flag_in(args) == Some(EarlyFlag::Version) ==> args.contains("--version"@) || args.contains(
            "-V"@,
        ),
{
}

/// A failure is told as one object with its code, its message and its hint.
pub proof fn law_failure(code: Seq<char>, message: Seq<char>, hint: Seq<char>)
    ensures
        json::member_of(failure_json(code, message, hint), "error"@) is Some,
        ({
            let e = json::member_of(failure_json(code, message, hint), "error"@)->0;
            &&& json::text_in(e, "code"@) == Some(code)
            &&& json::text_in(e, "message"@) == Some(message)
            &&& json::text_in(e, "hint"@) == Some(hint)
        }),
{
    reveal_strlit("code");
    reveal_strlit("message");
    reveal_strlit("hint");
    assert("code"@[0] == 'c' && "message"@[0] == 'm' && "hint"@[0] == 'h');
    reveal_with_fuel(json::member_place, 4);
}

} // verus!
