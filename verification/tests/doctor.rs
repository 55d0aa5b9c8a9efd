use hex_harness::assistant::Assistant;
use hex_harness::doctor::check::{Category, Status};
use hex_harness::doctor::checks::large_files::{
    files_over_limit, listed_paths, unignored_paths, LargeUnignoredFiles, LIMIT_BYTES,
};
use hex_harness::doctor::checks::llm_config::{ConfigFile, LlmConfigCheck, StaleLlmPreferenceCheck};
use hex_harness::doctor::checks::llm_provider::{classify, LlmProviderReachable};
use hex_harness::doctor::checks::symlinks::{
    is_under_upgrade_residue, link_state, real_links, AgentsSkillsSymlink, LinkState,
    NoBrokenSymlinks,
};
use hex_harness::doctor::consolidate::{
    broken_link, check_audit_freshness, extract_relative_links, find_stale_refs, link_target,
    links_of, normalize_path, orphan_project_issues, report, stale_ref_scan_targets, AuditFile, Findings, ProjectEntry,
    ProjectsDir, FRESH_WINDOW_SECS,
};
use hex_harness::llm_config::{LlmTomlFile, SectionFields};
use hex_harness::memory::provider::ProviderError;

fn s(v: &str) -> String {
    v.to_string()
}

fn scribe() -> Assistant {
    Assistant::named("scribe")
}

fn file(name: &str, size: u64) -> (String, u64) {
    (s(name), size)
}

// ── Large files ──────────────────────────────────────────────────────────────

#[test]
fn files_over_limit_keeps_only_entries_strictly_over_the_limit() {
    let limit = 100;
    let entries = vec![file("under.bin", limit - 1), file("at.bin", limit), file("over.bin", limit + 1)];
    let kept = files_over_limit(entries, limit);
    assert_eq!(kept, vec![file("over.bin", limit + 1)]);
}

#[test]
fn files_over_limit_sorts_largest_first() {
    let limit = 100;
    let entries = vec![
        file("small.bin", limit + 1),
        file("large.bin", limit + 100),
        file("medium.bin", limit + 50),
    ];
    let kept = files_over_limit(entries, limit);
    assert_eq!(
        kept,
        vec![file("large.bin", limit + 100), file("medium.bin", limit + 50), file("small.bin", limit + 1)]
    );
}

#[test]
fn files_of_one_size_keep_their_order() {
    let kept = files_over_limit(vec![file("b", 7), file("c", 9), file("a", 7)], 5);
    assert_eq!(kept, vec![file("c", 9), file("b", 7), file("a", 7)]);
}

#[test]
fn git_lists_paths_between_zero_bytes() {
    let listed = listed_paths(&b"a.txt\0dir/b.txt\0\0c".to_vec());
    assert_eq!(listed, vec![s("a.txt"), s("dir/b.txt"), s("c")]);
    assert!(listed_paths(&Vec::new()).is_empty());
    // A byte that is no text becomes the replacement character.
    assert_eq!(listed_paths(&vec![b'x', 0xff, 0]), vec![s("x\u{fffd}")]);
}

#[test]
fn git_failure_is_told_in_its_own_words() {
    let out = b"a\0".to_vec();
    let err = b"  fatal: no\n".to_vec();
    assert_eq!(unignored_paths(true, &out, &err), Ok(vec![s("a")]));
    assert_eq!(unignored_paths(false, &out, &err), Err(s("fatal: no")));
}

#[test]
fn large_files_check_reports_each_case() {
    let c = LargeUnignoredFiles;
    assert_eq!(c.name(), "large-unignored-files");
    assert_eq!(c.category(), Category::Health);
    let r = c.run(false, Err(s("unused")));
    assert_eq!((r.status, r.message.as_str()), (Status::Skip, "not a git repository; nothing to scan"));
    let r = c.run(true, Err(s("boom")));
    assert_eq!((r.status, r.message.as_str()), (Status::Warn, "could not list unignored files: boom"));
    let r = c.run(true, Ok(vec![file("at", LIMIT_BYTES)]));
    assert_eq!((r.status, r.message.as_str()), (Status::Pass, "no unignored file over 256 MB"));
    assert_eq!(r.details, None);
    let r = c.run(true, Ok(vec![file("a", LIMIT_BYTES + 1), file("b", 2 * LIMIT_BYTES)]));
    assert_eq!(r.status, Status::Fail);
    assert_eq!(r.message, "2 file(s) over 256 MB not ignored by git");
    assert_eq!(
        r.details,
        Some(s("b (512 MB)\na (256 MB)\nmove it out of the tree or add it to .gitignore"))
    );
}

// ── The configuration of the models ──────────────────────────────────────────

fn text_of(t: &toml::Value, key: &str) -> Option<String> {
    t.get(key).and_then(|v| v.as_str()).map(|v| v.to_string())
}

fn number_of(t: &toml::Value, key: &str) -> Option<u32> {
    t.get(key).and_then(|v| v.as_integer()).map(|v| v as u32)
}

fn section(t: &toml::Value) -> SectionFields {
    SectionFields {
        model: text_of(t, "model"),
        max_tokens: number_of(t, "max_tokens"),
        base_url: text_of(t, "base_url"),
        api_key_env: text_of(t, "api_key_env"),
        max_input_tokens: number_of(t, "max_input_tokens"),
        transport: text_of(t, "transport"),
        claude_settings_file: text_of(t, "claude_settings_file"),
    }
}

fn config(content: &str) -> ConfigFile {
    let parsed: Result<toml::Value, toml::de::Error> = toml::from_str(content);
    match parsed {
        Err(e) => ConfigFile::Malformed(e.to_string()),
        Ok(t) => {
            let mut use_cases = Vec::new();
            if let Some(table) = t.get("use_cases").and_then(|v| v.as_table()) {
                for (k, v) in table.iter() {
                    use_cases.push((k.clone(), section(v)));
                }
            }
            ConfigFile::Parsed(LlmTomlFile { defaults: t.get("defaults").map(section), use_cases })
        }
    }
}

#[test]
fn llm_config_check_name_and_category() {
    let c = LlmConfigCheck;
    assert_eq!(c.name(), "llm-config");
    assert_eq!(c.category(), Category::Config);
}

#[test]
fn passes_when_llm_toml_absent() {
    let r = LlmConfigCheck.run(&scribe(), "/hex", &ConfigFile::Absent);
    assert_eq!(r.status, Status::Pass, "missing llm.toml must pass: {:?}", r);
    assert_eq!(r.message, "llm.toml absent — built-in defaults will be used");
}

#[test]
fn fails_loudly_on_malformed_llm_toml() {
    let r = LlmConfigCheck.run(&scribe(), "/hex", &config("this is = = not valid toml [[["));
    assert_eq!(r.status, Status::Fail, "malformed llm.toml must fail loudly: {:?}", r);
    assert!(r.message.starts_with("malformed llm.toml at /hex/.hex/config/llm.toml: "));
    let r = LlmConfigCheck.run(&scribe(), "/hex", &ConfigFile::Unreadable(s("denied")));
    assert_eq!(
        (r.status, r.message.as_str()),
        (Status::Fail, "could not read /hex/.hex/config/llm.toml: denied")
    );
}

#[test]
fn passes_and_reports_resolved_model_when_valid() {
    let model = "anthropic/scribe-sonnet-5";
    let r = LlmConfigCheck.run(&scribe(), "/hex", &config(&format!("[defaults]\nmodel = \"{model}\"\n")));
    assert_eq!(r.status, Status::Pass, "valid llm.toml must pass: {:?}", r);
    let blob = format!("{} {}", r.message, r.details.clone().unwrap_or_default());
    assert!(blob.contains("memory_extract") || blob.contains("health_check"));
    assert_eq!(
        r.details,
        Some(format!(
            "  memory_extract → {model}\n  memory_judge → {model}\n  consolidate_audit → {model}\n  health_check → {model}"
        ))
    );
}

#[test]
fn passes_with_transport_and_claude_settings_fields() {
    let cli = "scribe-cli";
    let text = format!(
        "[use_cases.memory_extract]\ntransport = \"{cli}\"\n\n[use_cases.consolidate_audit]\ntransport = \"{cli}\"\nclaude_settings_file = \"/tmp/x.json\"\nmax_input_tokens = 100000\n"
    );
    let r = LlmConfigCheck.run(&scribe(), "/hex", &config(&text));
    assert_eq!(r.status, Status::Pass, "{:?}", r);
}

#[test]
fn unknown_use_cases_are_named_in_order() {
    let r = LlmConfigCheck.run(&scribe(), "/hex", &config("[use_cases.zeta]\n[use_cases.alpha]\n[use_cases.health_check]\nmodel = \"m\"\n"));
    let details = r.details.unwrap();
    assert!(details.contains("  health_check → m"));
    assert!(details.ends_with("\n  warning: unknown use_cases tables: alpha, zeta"));
    assert!(details.starts_with("  memory_extract → anthropic/scribe-sonnet-5"));
}

#[test]
fn stale_llm_preference_warns() {
    let c = StaleLlmPreferenceCheck;
    assert_eq!((c.name(), c.category()), ("stale-llm-preference", Category::Config));
    let r = c.run("/hex", true, false, false);
    assert_eq!(r.status, Status::Warn, "stale .hex/llm-preference must warn: {:?}", r);
    assert_eq!(r.message, "stale /hex/.hex/llm-preference present — file is unused; remove it");
    let r = c.run("/hex", true, true, true);
    assert_eq!((r.status, r.message.as_str()), (Status::Fixed, "removed stale /hex/.hex/llm-preference (no longer used)"));
    assert_eq!(c.run("/hex", true, true, false).status, Status::Warn);
    let r = c.run("/hex", false, true, true);
    assert_eq!((r.status, r.message.as_str()), (Status::Pass, "no stale .hex/llm-preference"));
}

// ── The service ──────────────────────────────────────────────────────────────

#[test]
fn classify_ok_passes() {
    let result = classify(Ok(s("all good")));
    assert_eq!(result.status, Status::Pass);
    assert_eq!(result.message, "LLM provider reachable");
    let c = LlmProviderReachable;
    assert_eq!((c.name(), c.category()), ("llm-provider", Category::Config));
    assert_eq!(c.run(Ok(s("all good"))).message, "LLM provider reachable");
}

#[test]
fn classify_deferred_skips_with_message() {
    let result = classify(Err(ProviderError::Deferred(s("no key configured"))));
    assert_eq!(result.status, Status::Skip);
    assert_eq!(result.message, "LLM provider not configured — no key configured");
}

#[test]
fn classify_upstream_warns_with_upstream_wording() {
    let result = classify(Err(ProviderError::Upstream(s("connection reset"))));
    assert_eq!(result.status, Status::Warn);
    assert_eq!(result.message, "LLM provider upstream error — connection reset");
}

#[test]
fn classify_truncated_warns_with_distinct_truncation_wording() {
    let result = classify(Err(ProviderError::Truncated(s("finish_reason=length"))));
    assert_eq!(result.status, Status::Warn);
    assert_eq!(result.message, "LLM provider truncated response — finish_reason=length");
}

// ── Links ────────────────────────────────────────────────────────────────────

#[test]
fn broken_symlink_under_upgrade_residue_is_ignored() {
    let link = s("/hex/.hex/.upgrade-cache.corrupt-0/SCRIBE.md");
    let result = NoBrokenSymlinks.run(vec![link], false, 0);
    assert_eq!(result.status, Status::Pass, "message was: {}", result.message);
    assert!(result.message.contains("1 under upgrade residue ignored"), "message was: {}", result.message);
}

#[test]
fn broken_symlink_elsewhere_still_fails() {
    let result = NoBrokenSymlinks.run(vec![s("/hex/.hex/skills/broken")], false, 0);
    assert_eq!(result.status, Status::Fail, "message was: {}", result.message);
    assert!(result.message.contains("1 broken symlink"), "message was: {}", result.message);
    assert!(!result.message.contains("upgrade residue"), "message was: {}", result.message);
    assert_eq!(result.details, Some(s("/hex/.hex/skills/broken")));
}

#[test]
fn real_failure_and_ignored_residue_both_reported() {
    let links = vec![
        s("/hex/.hex/.upgrade-cache.corrupt-0/SCRIBE.md"),
        s("/hex/.hex/skills/broken"),
    ];
    let result = NoBrokenSymlinks.run(links, false, 0);
    assert_eq!(result.status, Status::Fail, "message was: {}", result.message);
    assert!(result.message.contains("1 broken symlink"), "message was: {}", result.message);
    assert!(
        result.message.contains("1 under upgrade residue ignored"),
        "message was: {}",
        result.message
    );
}

#[test]
fn broken_links_are_removed_on_request() {
    let c = NoBrokenSymlinks;
    assert_eq!((c.name(), c.category()), ("no-broken-symlinks", Category::Health));
    let links = || vec![s("/a"), s("/b")];
    let r = c.run(links(), true, 2);
    assert_eq!((r.status, r.message.as_str()), (Status::Fixed, "Removed 2 broken symlink(s)"));
    let r = c.run(links(), true, 1);
    assert_eq!((r.status, r.message.as_str()), (Status::Warn, "Removed 1/2 broken symlink(s)"));
    let r = c.run(Vec::new(), true, 0);
    assert_eq!((r.status, r.message.as_str()), (Status::Pass, "no broken symlinks found"));
    assert!(!is_under_upgrade_residue("/x/upgrade-cache.corrupt-0/y"));
    assert_eq!(real_links(vec![s("/.upgrade-cache.corrupt-9/a"), s("/b")]), vec![s("/b")]);
}

#[test]
fn skills_link_is_judged_and_made() {
    let c = AgentsSkillsSymlink;
    assert_eq!((c.name(), c.category()), ("agents-skills-symlink", Category::Health));
    assert_eq!(link_state(true, true), LinkState::Good);
    assert_eq!(link_state(true, false), LinkState::Broken);
    assert_eq!(link_state(false, true), LinkState::NotALink);
    assert_eq!(link_state(false, false), LinkState::Missing);
    assert!(c.needs_link(LinkState::Broken, true));
    assert!(c.needs_link(LinkState::Missing, true));
    assert!(!c.needs_link(LinkState::Missing, false));
    assert!(!c.needs_link(LinkState::NotALink, true));
    assert_eq!(c.run(LinkState::Good, false, false).status, Status::Pass);
    assert_eq!(c.run(LinkState::Broken, false, false).status, Status::Warn);
    assert_eq!(c.run(LinkState::Broken, true, true).message, ".agents/skills symlink repaired");
    assert_eq!(c.run(LinkState::NotALink, true, false).message, ".agents/skills exists but is not a symlink");
    assert_eq!(c.run(LinkState::Missing, true, true).message, ".agents/skills symlink created");
    let r = c.run(LinkState::Missing, false, false);
    assert_eq!((r.status, r.message.as_str()), (Status::Fail, ".agents/skills symlink missing — run bootstrap to fix"));
}

// ── The consolidation ────────────────────────────────────────────────────────

fn project(name: &str, has_context: bool) -> ProjectEntry {
    ProjectEntry { name: s(name), is_dir: true, has_context }
}

#[test]
fn orphan_project_with_context_only_is_not_orphan() {
    let issues = orphan_project_issues(&ProjectsDir::Entries(vec![project("alpha", true)]));
    assert!(issues.is_empty(), "project with context.md only must not be ORPHAN: {issues:?}");
}

#[test]
fn orphan_project_with_neither_file_is_orphan() {
    let issues = orphan_project_issues(&ProjectsDir::Entries(vec![project("beta", false)]));
    assert_eq!(issues.len(), 1, "expected exactly one ORPHAN issue: {issues:?}");
    assert!(issues[0].contains("context.md"), "message must name context.md: {issues:?}");
    assert!(!issues[0].contains("checkpoint.md"), "message must not name checkpoint.md: {issues:?}");
    assert_eq!(issues[0], "ORPHAN: projects/beta missing context.md");
}

#[test]
fn orphan_archive_dir_is_skipped() {
    let issues = orphan_project_issues(&ProjectsDir::Entries(vec![project("_archive", false)]));
    assert!(issues.is_empty(), "_archive dir must be skipped even with no files: {issues:?}");
}

#[test]
fn projects_that_cannot_be_read_are_an_issue() {
    assert_eq!(orphan_project_issues(&ProjectsDir::Missing), vec![s("ISSUE: projects/ directory does not exist")]);
    assert_eq!(
        orphan_project_issues(&ProjectsDir::Unreadable(s("denied"))),
        vec![s("ISSUE: cannot read projects/ dir: denied")]
    );
}

#[test]
fn consolidate_prose_parens_not_extracted() {
    let links = extract_relative_links("git tag must match (enforced by release.sh) here");
    assert!(links.is_empty(), "prose parens should not be extracted: {links:?}");
}

#[test]
fn consolidate_real_link_is_extracted() {
    let links = extract_relative_links("See [the guide](docs/guide.md) for details.");
    assert_eq!(links, vec!["docs/guide.md"]);
}

#[test]
fn consolidate_https_url_is_skipped() {
    let links = extract_relative_links("See [external](https://example.com/page.md) link.");
    assert!(links.is_empty(), "https URLs should be skipped: {links:?}");
}

#[test]
fn consolidate_http_url_is_skipped() {
    let links = extract_relative_links("See [external](http://example.com/page.md) link.");
    assert!(links.is_empty(), "http URLs should be skipped: {links:?}");
}

#[test]
fn consolidate_anchor_only_is_skipped() {
    let links = extract_relative_links("See [section](#heading) here.");
    assert!(links.is_empty(), "anchor-only links should be skipped: {links:?}");
}

#[test]
fn links_are_resolved_from_their_file() {
    assert_eq!(normalize_path("/hex/a/./b/../c.md"), "/hex/a/c.md");
    assert_eq!(broken_link("me/me.md", "x.md"), "me/me.md: broken link to 'x.md'");
    let t = link_target("/hex/docs/a.md", "/hex", "../me/b.md");
    assert_eq!(t, "/hex/me/b.md");
    let links = links_of("/hex", "/hex/docs/a.md", "docs/a.md", "[x](b.md) [y](../me/c.md)");
    assert_eq!((links[0].target.as_str(), links[1].target.as_str()), ("/hex/docs/b.md", "/hex/me/c.md"));
    assert_eq!(
        find_stale_refs(&links, &vec![true, false]),
        vec![s("docs/a.md: broken link to '../me/c.md'")]
    );
    let targets = stale_ref_scan_targets(&scribe(), "/hex");
    assert_eq!(targets[0], "/hex/SCRIBE.md");
}

#[test]
fn audit_is_fresh_within_the_window() {
    let audit = |name: &str, modified: Option<u64>| AuditFile { name: s(name), modified };
    let now = 1_000_000;
    let fresh = vec![
        audit("consolidation-audit-1.md", Some(3)),
        audit("consolidation-audit-2.md", Some(now - FRESH_WINDOW_SECS)),
    ];
    assert_eq!(check_audit_freshness(&fresh, now), Ok(s("OK: LLM consolidation audit is fresh")));
    let stale = Err(s("LLM consolidation stale — run hex memory consolidate full"));
    assert_eq!(check_audit_freshness(&fresh, now + 1), stale);
    assert_eq!(check_audit_freshness(&Vec::new(), now), stale);
    let others = vec![
        audit("audit-1.md", Some(now)),
        audit("consolidation-audit-1.txt", Some(now)),
        audit("consolidation-audit-1.md", None),
    ];
    assert_eq!(check_audit_freshness(&others, now), stale);
    // A clock that runs behind does not make an audit stale.
    assert!(check_audit_freshness(&fresh, 5).is_ok());
}

#[test]
fn consolidation_report_counts_its_issues() {
    let clean = Findings {
        indexed: true,
        stale_refs: Vec::new(),
        observations: true,
        suggestions: true,
        changelog: true,
        projects: Vec::new(),
        audit: Ok(s("OK: LLM consolidation audit is fresh")),
    };
    let r = report(&clean, "now");
    assert_eq!((r.issues, r.exit_code), (0, 0));
    assert_eq!(
        r.text,
        "=== Consolidation Report — now ===\nOK: memory index rebuilt\nOK: no stale file references found\nOK: evolution/observations.md exists\nOK: evolution/suggestions.md exists\nOK: evolution/changelog.md exists\nOK: LLM consolidation audit is fresh\n\nIssues found: 0"
    );
    let bad = Findings {
        indexed: false,
        stale_refs: vec![s("a.md -> b.md")],
        observations: true,
        suggestions: false,
        changelog: true,
        projects: vec![s("ORPHAN: projects/beta missing context.md")],
        audit: Err(s("stale")),
    };
    let r = report(&bad, "now");
    assert_eq!((r.issues, r.exit_code), (4, 1));
    assert!(r.text.contains("\nmemory reindex: skipped (no native entry point)\nSTALE: a.md -> b.md\n"));
    assert!(r.text.contains("\nISSUE: missing evolution/suggestions.md\n"));
    assert!(r.text.ends_with("\nstale\n\nIssues found: 4"));
}
