//! Symbolic links of a workspace.
use crate::doctor::check::{self, Category, CheckResult, CheckText, Status};
use crate::lists;
use crate::text;
use vstd::prelude::*;

verus! {

/// Whether `.agents/skills` is a link to `.hex/skills`.
#[derive(Debug, Clone, Copy)]
pub struct AgentsSkillsSymlink;

/// What stands at the place of a link.
#[derive(Debug, Clone, Copy, PartialEq, Eq, Structural)]
pub enum LinkState {
    /// A link to something that is there.
    Good,
    /// A link to nothing.
    Broken,
    /// Something that is no link.
    NotALink,
    Missing,
}

/// What stands somewhere, from whether it is a link and whether what it leads
/// to is there.
pub fn link_state(is_symlink: bool, there: bool) -> (s: LinkState)
    ensures
        s == if is_symlink {
            if there {
                LinkState::Good
            } else {
                LinkState::Broken
            }
        } else if there {
            LinkState::NotALink
        } else {
            LinkState::Missing
        },
{
    if is_symlink {
        if there {
            LinkState::Good
        } else {
            LinkState::Broken
        }
    } else if there {
        LinkState::NotALink
    } else {
        LinkState::Missing
    }
}

/// A link is made only where it is asked for and there is none that works and
/// nothing else in its place.
pub open spec fn makes_link(state: LinkState, fix: bool) -> bool {
    fix && (state == LinkState::Broken || state == LinkState::Missing)
}

/// The result; `made` is whether a link could be made where one was to be.
pub open spec fn skills_verdict(state: LinkState, fix: bool, made: bool) -> CheckText {
    match state {
        LinkState::Good => check::plain(Status::Pass, ".agents/skills symlinked correctly"@),
        LinkState::Broken => if fix && made {
            check::plain(Status::Fixed, ".agents/skills symlink repaired"@)
        } else {
            check::plain(Status::Warn, ".agents/skills symlink is broken"@)
        },
        LinkState::NotALink => check::plain(
            Status::Warn,
            ".agents/skills exists but is not a symlink"@,
        ),
        LinkState::Missing => if fix && made {
            check::plain(Status::Fixed, ".agents/skills symlink created"@)
        } else {
            check::plain(
                Status::Fail,
                ".agents/skills symlink missing — run bootstrap to fix"@,
            )
        },
    }
}

impl AgentsSkillsSymlink {
    pub fn name(&self) -> (r: &'static str)
        ensures
            r@ == "agents-skills-symlink"@,
    {
        "agents-skills-symlink"
    }

    pub fn category(&self) -> (r: Category)
        ensures
            r == Category::Health,
    {
        Category::Health
    }

    /// Whether the link is to be made.
    pub fn needs_link(&self, state: LinkState, fix: bool) -> (b: bool)
        ensures
            b == makes_link(state, fix),
    {
        fix && (state == LinkState::Broken || state == LinkState::Missing)
    }

    /// The result of the check, from what was found and whether the link could
    /// be made where it was to be.
    pub fn run(&self, state: LinkState, fix: bool, made: bool) -> (r: CheckResult)
        ensures
            r@ == skills_verdict(state, fix, made),
    {
        match state {
            LinkState::Good => check::result(Status::Pass, ".agents/skills symlinked correctly"),
            LinkState::Broken => if fix && made {
                check::result(Status::Fixed, ".agents/skills symlink repaired")
            } else {
                check::result(Status::Warn, ".agents/skills symlink is broken")
            },
            LinkState::NotALink => check::result(
                Status::Warn,
                ".agents/skills exists but is not a symlink",
            ),
            LinkState::Missing => if fix && made {
                check::result(Status::Fixed, ".agents/skills symlink created")
            } else {
                check::result(Status::Fail, ".agents/skills symlink missing — run bootstrap to fix")
            },
        }
    }
}

/// Whether no link in a workspace leads to nothing.
#[derive(Debug, Clone, Copy)]
pub struct NoBrokenSymlinks;

/// A path in a directory that an upgrade has moved aside.
pub open spec fn residue(path: Seq<char>) -> bool {
    exists|i: int|
        0 <= i < text::split(path, '/').len() && text::starts_with(
            #[trigger] text::split(path, '/')[i],
            ".upgrade-cache.corrupt-"@,
        )
}

pub open spec fn is_real() -> spec_fn(String) -> bool {
    |p: String| !residue(p@)
}

/// Whether a path is in a directory that an upgrade has moved aside.
pub fn is_under_upgrade_residue(path: &str) -> (b: bool)
    ensures
        b == residue(path@),
{
    let parts = text::split_char(path, '/');
    let ghost all = text::split(path@, '/');
    let mut i: usize = 0;
    while i < parts.len()
        invariant
            i <= parts@.len(),
            all == text::split(path@, '/'),
            text::texts(parts@) == all,
            forall|k: int|
                0 <= k < i ==> !text::starts_with(
                    #[trigger] all[k],
                    ".upgrade-cache.corrupt-"@,
                ),
        decreases parts.len() - i,
    {
        proof {
            assert(all[i as int] == parts@[i as int]@);
            assert(all.len() == parts@.len());
        }
        if text::starts_with_str(parts[i].as_str(), ".upgrade-cache.corrupt-") {
            return true;
        }
        i += 1;
    }
    proof {
        assert(all.len() == parts@.len());
    }
    false
}

/// The links that count: those outside of what an upgrade has moved aside.
pub fn real_links(all_broken: Vec<String>) -> (r: Vec<String>)
    ensures
        r@ == all_broken@.filter(is_real()),
{
    let ghost accepts = is_real();
    let keep = |p: &String| -> (b: bool)
        ensures
            b == accepts(*p),
        { !is_under_upgrade_residue(p.as_str()) };
    lists::keep_if(all_broken, keep, Ghost(accepts))
}

/// What is said of links that do not count.
pub open spec fn ignored_note(n: int) -> Seq<char> {
    if n > 0 {
        " ("@ + text::numeral(n as nat) + " under upgrade residue ignored)"@
    } else {
        Seq::empty()
    }
}

/// The result for broken links, of which `ignored` do not count; `removed` is
/// how many of the others could be removed where they were to be.
pub open spec fn links_verdict(
    broken: Seq<Seq<char>>,
    ignored: int,
    fix: bool,
    removed: int,
) -> CheckText {
    let count = text::numeral(broken.len());
    let note = ignored_note(ignored);
    if broken.len() == 0 {
        check::plain(Status::Pass, "no broken symlinks found"@ + note)
    } else if fix {
        if removed == broken.len() {
            check::plain(Status::Fixed, "Removed "@ + count + " broken symlink(s)"@ + note)
        } else {
            check::plain(
                Status::Warn,
                "Removed "@ + text::numeral(removed as nat) + "/"@ + count + " broken symlink(s)"@
                    + note,
            )
        }
    } else {
        CheckText {
            status: Status::Fail,
            message: count + " broken symlink(s) found"@ + note,
            details: Some(text::join(broken, "\n"@)),
        }
    }
}

impl NoBrokenSymlinks {
    pub fn name(&self) -> (r: &'static str)
        ensures
            r@ == "no-broken-symlinks"@,
    {
        "no-broken-symlinks"
    }

    pub fn category(&self) -> (r: Category)
        ensures
            r == Category::Health,
    {
        Category::Health
    }

    /// The result of the check, from all broken links and how many of those
    /// that count could be removed where they were to be.
    pub fn run(&self, all_broken: Vec<String>, fix: bool, removed: usize) -> (r: CheckResult)
        ensures
            r@ == links_verdict(
                text::texts(all_broken@.filter(is_real())),
                all_broken@.len() - all_broken@.filter(is_real()).len(),
                fix,
                removed as int,
            ),
    {
        let total: usize = all_broken.len();
        let ghost all = all_broken@;
        let broken = real_links(all_broken);
        proof {
            all.lemma_filter_len(is_real());
            assert(text::texts(broken@).len() == broken@.len());
        }
        let ignored: usize = total - broken.len();
        let mut note = String::new();
        if ignored > 0 {
            note.append(" (");
            let n = text::decimal(ignored as u64);
            note.append(n.as_str());
            note.append(" under upgrade residue ignored)");
        }
        proof {
            assert(note@ =~= ignored_note(ignored as int));
        }
        if broken.len() == 0 {
            let mut m = "no broken symlinks found".to_owned();
            m.append(note.as_str());
            return check::result(Status::Pass, m.as_str());
        }
        let count = text::decimal(broken.len() as u64);
        if fix {
            let mut m = "Removed ".to_owned();
            if removed == broken.len() {
                m.append(count.as_str());
                m.append(" broken symlink(s)");
                m.append(note.as_str());
                return check::result(Status::Fixed, m.as_str());
            }
            let gone = text::decimal(removed as u64);
            m.append(gone.as_str());
            m.append("/");
            m.append(count.as_str());
            m.append(" broken symlink(s)");
            m.append(note.as_str());
            return check::result(Status::Warn, m.as_str());
        }
        let mut message = count;
        message.append(" broken symlink(s) found");
        message.append(note.as_str());
        let details = text::join_strings(&broken, "\n");
        CheckResult { status: Status::Fail, message, details: Some(details) }
    }
}

// ── Laws ─────────────────────────────────────────────────────────────────────
/// A good link passes; one that is broken or missing is made anew only where that is
/// asked for, and told as fixed only where it could be; what is no link is left alone.
pub proof fn law_skills(state: LinkState, fix: bool, made: bool)
    ensures
        makes_link(state, fix) == (fix && (state is Broken || state is Missing)),
        (skills_verdict(state, fix, made).status is Pass) == (state is Good),
        (skills_verdict(state, fix, made).status is Fixed) == (fix && made && (state is Broken
            || state is Missing)),
        (skills_verdict(state, fix, made).status is Fail) == (state is Missing && !(fix && made)),
        (skills_verdict(state, fix, made).status is Warn) == (state is NotALink || (state is Broken
            && !(fix && made))),
{
}

/// The check passes where there is no broken link that counts, fails where there is one,
/// and where it was to remove them it is fixed only if all are gone.
pub proof fn law_broken_links(broken: Seq<Seq<char>>, ignored: int, fix: bool, removed: int)
    ensures
        (links_verdict(broken, ignored, fix, removed).status is Pass) == (broken.len() == 0),
        (links_verdict(broken, ignored, fix, removed).status is Fail) == (broken.len() > 0 && !fix),
        (links_verdict(broken, ignored, fix, removed).status is Fixed) == (broken.len() > 0 && fix
            && removed == broken.len()),
        (links_verdict(broken, ignored, fix, removed).status is Warn) == (broken.len() > 0 && fix
            && removed != broken.len()),
        links_verdict(broken, ignored, fix, removed).details is Some ==> links_verdict(
            broken,
            ignored,
            fix,
            removed,
        ).details == Some(text::join(broken, "\n"@)),
{
}

/// The links that count are those of which no component of the path is one that an
/// upgrade has moved aside: all of them, in order.
pub proof fn law_links_that_count(all: Seq<String>)
    ensures
        lists::is_choice(
            all.filter(is_real()),
            all,
            |p: String|
                forall|from: int, to: int| #[trigger]
                    text::is_run(p@, text::is_char('/'), from, to) ==> !text::starts_with(
                        p@.subrange(from, to),
                        ".upgrade-cache.corrupt-"@,
                    ),
        ),
{
    let holds = |p: String|
        forall|from: int, to: int| #[trigger]
            text::is_run(p@, text::is_char('/'), from, to) ==> !text::starts_with(
                p@.subrange(from, to),
                ".upgrade-cache.corrupt-"@,
            );
    assert forall|i: int| 0 <= i < all.len() implies is_real()(#[trigger] all[i]) == holds(
        all[i],
    ) by {
        lemma_residue(all[i]@);
    }
    lists::lemma_filter_is_choice(all, is_real(), holds);
}

proof fn lemma_residue(path: Seq<char>)
    ensures
        residue(path) == exists|from: int, to: int| #[trigger]
            text::is_run(path, text::is_char('/'), from, to) && text::starts_with(
                path.subrange(from, to),
                ".upgrade-cache.corrupt-"@,
            ),
{
    let cut = text::is_char('/');
    let parts = text::split(path, '/');
    if residue(path) {
        let i = choose|i: int|
            0 <= i < parts.len() && text::starts_with(
                #[trigger] parts[i],
                ".upgrade-cache.corrupt-"@,
            );
        assert(parts.contains(parts[i]));
        text::law_pieces_are_the_runs(path, cut, parts[i]);
        let (from, to) = choose|from: int, to: int| #[trigger]
            text::is_run(path, cut, from, to) && path.subrange(from, to) == parts[i];
        assert(text::is_run(path, cut, from, to));
        assert(text::starts_with(path.subrange(from, to), ".upgrade-cache.corrupt-"@));
    }
    if exists|from: int, to: int| #[trigger]
        text::is_run(path, cut, from, to) && text::starts_with(
            path.subrange(from, to),
            ".upgrade-cache.corrupt-"@,
        ) {
        let (from, to) = choose|from: int, to: int| #[trigger]
            text::is_run(path, cut, from, to) && text::starts_with(
                path.subrange(from, to),
                ".upgrade-cache.corrupt-"@,
            );
        let w = path.subrange(from, to);
        text::law_pieces_are_the_runs(path, cut, w);
        let k = choose|k: int| 0 <= k < parts.len() && parts[k] == w;
        assert(text::starts_with(parts[k], ".upgrade-cache.corrupt-"@));
    }
}

/// The state of the link to the skills is told in words of its own.
pub proof fn law_skills_messages(fix: bool, made: bool)
    ensures
        skills_verdict(LinkState::Good, fix, made).message
            == ".agents/skills symlinked correctly"@,
        skills_verdict(LinkState::NotALink, fix, made).message
            == ".agents/skills exists but is not a symlink"@,
        skills_verdict(LinkState::Broken, fix, made).message == if fix && made {
            ".agents/skills symlink repaired"@
        } else {
            ".agents/skills symlink is broken"@
        },
        skills_verdict(LinkState::Missing, fix, made).message == if fix && made {
            ".agents/skills symlink created"@
        } else {
            ".agents/skills symlink missing — run bootstrap to fix"@
        },
{
}

/// Broken links are told with how many there are and how many are gone, and how many were
/// left out of account where some were.
pub proof fn law_links_messages(broken: Seq<Seq<char>>, ignored: int, removed: int)
    requires
        0 <= removed <= broken.len(),
    ensures
        ({
            let note = if ignored > 0 {
                " ("@ + text::numeral(ignored as nat) + " under upgrade residue ignored)"@
            } else {
                Seq::empty()
            };
            let n = text::numeral(broken.len());
            &&& broken.len() == 0 ==> links_verdict(broken, ignored, false, removed).message
                == "no broken symlinks found"@ + note
            &&& broken.len() > 0 ==> links_verdict(broken, ignored, false, removed).message == n
                + " broken symlink(s) found"@ + note && links_verdict(
                broken,
                ignored,
                false,
                removed,
            ).details is Some
            &&& broken.len() > 0 && removed == broken.len() ==> links_verdict(
                broken,
                ignored,
                true,
                removed,
            ).message == "Removed "@ + n + " broken symlink(s)"@ + note
            &&& removed < broken.len() ==> links_verdict(broken, ignored, true, removed).message
                == "Removed "@ + text::numeral(removed as nat) + "/"@ + n + " broken symlink(s)"@
                + note
        }),
{
}

} // verus!
