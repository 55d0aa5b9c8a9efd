//! The coding assistant that a workspace is made for, and the names that come
//! from its name.
use crate::text;
use vstd::prelude::*;

verus! {

/// The assistant, as the caller names it.
#[derive(Debug, Clone)]
pub struct Assistant {
    pub name: String,
    /// The file in which a workspace instructs the assistant.
    pub notes: String,
}

/// The directory in which the assistant keeps its own files.
pub open spec fn directory(name: Seq<char>) -> Seq<char> {
    "."@ + name
}

/// The transport that runs the assistant as a command.
pub open spec fn cli(name: Seq<char>) -> Seq<char> {
    name + "-cli"@
}

/// A model of the assistant's family, as the router names it.
pub open spec fn model(name: Seq<char>, variant: Seq<char>) -> Seq<char> {
    "anthropic/"@ + name + "-"@ + variant
}

impl Assistant {
    /// The assistant of that name: its notes are called by the name in capitals.
    pub fn named(name: &str) -> (r: Assistant)
        ensures
            r.name@ == name@,
            r.notes@ == text::uppercase(name@) + ".md"@,
    {
        let mut notes = text::to_uppercase(name);
        notes.append(".md");
        Assistant { name: name.to_owned(), notes }
    }

    /// The directory in which the assistant keeps its own files.
    pub fn own_directory(&self) -> (r: String)
        ensures
            r@ == directory(self.name@),
    {
        let mut r = ".".to_owned();
        r.append(self.name.as_str());
        r
    }

    /// The transport that runs the assistant as a command.
    pub fn cli_transport(&self) -> (r: String)
        ensures
            r@ == cli(self.name@),
    {
        let mut r = self.name.as_str().to_owned();
        r.append("-cli");
        r
    }

    /// A model of the assistant's family, as the router names it.
    pub fn model_name(&self, variant: &str) -> (r: String)
        ensures
            r@ == model(self.name@, variant@),
    {
        let mut r = "anthropic/".to_owned();
        r.append(self.name.as_str());
        r.append("-");
        r.append(variant);
        r
    }
}

/// The names that come from that of the assistant hold it: a hidden directory of that
/// name, a transport and a model of its family.
pub proof fn law_names(name: Seq<char>, variant: Seq<char>)
    ensures
        directory(name).len() == name.len() + 1 && directory(name)[0] == '.' && directory(name).skip(
            1,
        ) == name,
        text::starts_with(cli(name), name) && text::ends_with(cli(name), "-cli"@),
        text::starts_with(model(name, variant), "anthropic/"@ + name) && text::ends_with(
            model(name, variant),
            "-"@ + variant,
        ),
{
    reveal_strlit(".");
    assert(directory(name).skip(1) =~= name);
    assert(cli(name).subrange(0, name.len() as int) =~= name);
    let c = cli(name);
    assert(c.subrange(c.len() - "-cli"@.len(), c.len() as int) =~= "-cli"@);
    let s = model(name, variant);
    let p = "anthropic/"@ + name;
    let e = "-"@ + variant;
    assert(s.subrange(0, p.len() as int) =~= p);
    assert(s.subrange(s.len() - e.len(), s.len() as int) =~= e);
}

} // verus!
