//! The tables of the memory: what a database must have, and what is added.
use crate::harness;
use crate::json;
use crate::lists;
use crate::text::{self, str_eq};
use vstd::prelude::*;

verus! {

/// The version that is recorded once the authority columns are there.
pub const AUTHORITY_SCHEMA_VERSION: i64 = 5;

/// The version that is recorded once the tables of the facts are there.
pub const FACTS_SCHEMA_VERSION: i64 = 4;

/// A column of a table, as the database reports it.
#[derive(Debug, Clone)]
pub struct ColumnDefinition {
    pub name: String,
    pub declared_type: String,
    pub not_null: bool,
    pub default_value: Option<String>,
    pub primary_key: bool,
}

pub struct ColumnText {
    pub name: Seq<char>,
    pub declared_type: Seq<char>,
    pub not_null: bool,
    pub default_value: Option<Seq<char>>,
    pub primary_key: bool,
}

impl View for ColumnDefinition {
    type V = ColumnText;

    open spec fn view(&self) -> ColumnText {
        ColumnText {
            name: self.name@,
            declared_type: self.declared_type@,
            not_null: self.not_null,
            default_value: json::opt_text(self.default_value),
            primary_key: self.primary_key,
        }
    }
}

pub open spec fn column_texts(v: Seq<ColumnDefinition>) -> Seq<ColumnText> {
    v.map_values(|c: ColumnDefinition| c@)
}

/// The columns that hold the authority of a fact.
pub open spec fn authority_names() -> Seq<Seq<char>> {
    seq!["source_origin"@, "effective_date"@, "superseded_by"@, "authority_status"@]
}

/// The status of a fact is never absent and unknown unless it is said.
pub open spec fn status_declaration() -> Seq<char> {
    "TEXT COLLATE BINARY NOT NULL DEFAULT 'unknown' CHECK (authority_status COLLATE BINARY IN ('current','historical','unknown'))"@
}

pub open spec fn declaration(name: Seq<char>) -> Seq<char> {
    if name == "authority_status"@ {
        status_declaration()
    } else {
        "TEXT"@
    }
}

/// A column as its declaration makes it.
pub open spec fn declared(name: Seq<char>) -> ColumnText {
    ColumnText {
        name,
        declared_type: "TEXT"@,
        not_null: name == "authority_status"@,
        default_value: if name == "authority_status"@ {
            Some("'unknown'"@)
        } else {
            None
        },
        primary_key: false,
    }
}

/// Whether a column can hold what it is for.
pub open spec fn compatible(c: ColumnText) -> bool {
    let want = declared(c.name);
    &&& text::ascii_lowered(c.declared_type) == text::ascii_lowered("TEXT"@)
    &&& c.not_null == want.not_null
    &&& c.default_value == want.default_value
    &&& !c.primary_key
}

pub open spec fn called(name: Seq<char>) -> spec_fn(ColumnText) -> bool {
    |c: ColumnText| c.name == name
}

/// The first column of a name.
pub open spec fn column(columns: Seq<ColumnText>, name: Seq<char>) -> Option<ColumnText> {
    match lists::first_from(columns, called(name), 0) {
        Some(i) => Some(columns[i]),
        None => None,
    }
}

/// Whether one of the first `n` columns is missing, or the first of them that
/// does not fit.
pub open spec fn checked(columns: Seq<ColumnText>, n: int) -> Result<bool, ColumnText>
    decreases n,
{
    if n <= 0 {
        Ok(true)
    } else {
        match checked(columns, n - 1) {
            Err(c) => Err(c),
            Ok(complete) => match column(columns, authority_names()[n - 1]) {
                None => Ok(false),
                Some(c) => if compatible(c) {
                    Ok(complete)
                } else {
                    Err(c)
                },
            },
        }
    }
}

/// Whether all columns are there, or the first that does not fit.
pub open spec fn authority_check(columns: Seq<ColumnText>) -> Result<bool, ColumnText> {
    checked(columns, authority_names().len() as int)
}

/// The debug form of a yes or no.
pub open spec fn bool_text(b: bool) -> Seq<char> {
    if b {
        "true"@
    } else {
        "false"@
    }
}

/// The debug form of a column.
pub open spec fn column_debug(c: ColumnText) -> Seq<char> {
    "ColumnDefinition { name: "@ + harness::quoted(c.name) + ", declared_type: "@ + harness::quoted(
        c.declared_type,
    ) + ", not_null: "@ + bool_text(c.not_null) + ", default_value: "@ + (match c.default_value {
        Some(d) => "Some("@ + harness::quoted(d) + ")"@,
        None => "None"@,
    }) + ", primary_key: "@ + bool_text(c.primary_key) + " }"@
}

/// What is said of a column that does not fit.
pub open spec fn misfit(c: ColumnText) -> Seq<char> {
    "authority schema: incompatible column `"@ + c.name + "`: "@ + column_debug(c)
}

fn push_bool(out: &mut String, b: bool)
    ensures
        final(out)@ == old(out)@ + bool_text(b),
{
    if b {
        out.append("true");
    } else {
        out.append("false");
    }
}

fn misfit_message(c: &ColumnDefinition) -> (r: String)
    ensures
        r@ == misfit(c@),
{
    let mut r = "authority schema: incompatible column `".to_owned();
    r.append(c.name.as_str());
    r.append("`: ");
    let ghost head = r@;
    let mut d = "ColumnDefinition { name: ".to_owned();
    let name = harness::quote(c.name.as_str());
    d.append(name.as_str());
    d.append(", declared_type: ");
    let kind = harness::quote(c.declared_type.as_str());
    d.append(kind.as_str());
    d.append(", not_null: ");
    push_bool(&mut d, c.not_null);
    d.append(", default_value: ");
    let mut default: String;
    match &c.default_value {
        Some(x) => {
            default = "Some(".to_owned();
            let q = harness::quote(x.as_str());
            default.append(q.as_str());
            default.append(")");
        },
        None => {
            default = "None".to_owned();
        },
    }
    d.append(default.as_str());
    d.append(", primary_key: ");
    push_bool(&mut d, c.primary_key);
    d.append(" }");
    r.append(d.as_str());
    r
}

fn fits(c: &ColumnDefinition) -> (b: bool)
    ensures
        b == compatible(c@),
{
    let kind = text::to_ascii_lower(c.declared_type.as_str());
    let want = text::to_ascii_lower("TEXT");
    if !str_eq(kind.as_str(), want.as_str()) || c.primary_key {
        return false;
    }
    if str_eq(c.name.as_str(), "authority_status") {
        c.not_null && text::opt_eq(&c.default_value, "'unknown'")
    } else {
        !c.not_null && c.default_value.is_none()
    }
}

fn find_column(columns: &Vec<ColumnDefinition>, name: &str) -> (r: Option<usize>)
    ensures
        match r {
            Some(i) => i < columns@.len() && column(column_texts(columns@), name@) == Some(
                columns@[i as int]@,
            ),
            None => column(column_texts(columns@), name@) is None,
        },
{
    let ghost all = column_texts(columns@);
    let ghost p = called(name@);
    let mut i: usize = 0;
    while i < columns.len()
        invariant
            i <= columns@.len(),
            all == column_texts(columns@),
            p == called(name@),
            lists::first_from(all, p, 0) == lists::first_from(all, p, i as int),
        decreases columns.len() - i,
    {
        proof {
            assert(all[i as int] == columns@[i as int]@);
        }
        if str_eq(columns[i].name.as_str(), name) {
            return Some(i);
        }
        i += 1;
    }
    None
}

fn authority_name(i: usize) -> (r: &'static str)
    requires
        i < 4,
    ensures
        r@ == authority_names()[i as int],
{
    if i == 0 {
        "source_origin"
    } else if i == 1 {
        "effective_date"
    } else if i == 2 {
        "superseded_by"
    } else {
        "authority_status"
    }
}

/// Whether the authority columns are all there; an error where one of them
/// does not fit.
pub fn validate_columns(columns: &Vec<ColumnDefinition>) -> (r: Result<bool, String>)
    ensures
        match authority_check(column_texts(columns@)) {
            Ok(complete) => r == Ok::<bool, String>(complete),
            Err(c) => r is Err && r->Err_0@ == misfit(c),
        },
{
    let ghost all = column_texts(columns@);
    let mut complete = true;
    let mut n: usize = 0;
    while n < 4
        invariant
            n <= 4,
            all == column_texts(columns@),
            authority_names().len() == 4,
            checked(all, n as int) == Ok::<bool, ColumnText>(complete),
        decreases 4 - n,
    {
        let name = authority_name(n);
        match find_column(columns, name) {
            None => {
                complete = false;
            },
            Some(i) => {
                if !fits(&columns[i]) {
                    proof {
                        lemma_misfit_stays(all, n + 1, 4, columns@[i as int]@);
                    }
                    return Err(misfit_message(&columns[i]));
                }
            },
        }
        n += 1;
    }
    Ok(complete)
}

proof fn lemma_misfit_stays(columns: Seq<ColumnText>, n: int, m: int, c: ColumnText)
    requires
        n <= m,
        checked(columns, n) == Err::<bool, ColumnText>(c),
    ensures
        checked(columns, m) == Err::<bool, ColumnText>(c),
    decreases m - n,
{
    if n < m && m > 0 {
        lemma_misfit_stays(columns, n, m - 1, c);
    }
}

/// Whether stored statuses can be counted: only where there is a column.
pub fn has_status(columns: &Vec<ColumnDefinition>) -> (b: bool)
    ensures
        b == (column(column_texts(columns@), "authority_status"@) is Some),
{
    find_column(columns, "authority_status").is_some()
}

/// An error where stored statuses are none of the three.
pub fn status_error(invalid: i64) -> (r: Option<String>)
    ensures
        match r {
            Some(e) => invalid != 0 && e@ == "authority schema: authority_status contains "@
                + text::signed_numeral(invalid as int) + " invalid values"@,
            None => invalid == 0,
        },
{
    if invalid == 0 {
        return None;
    }
    let mut e = "authority schema: authority_status contains ".to_owned();
    let n = text::signed_decimal(invalid);
    e.append(n.as_str());
    e.append(" invalid values");
    Some(e)
}

/// The names of the columns among the first `n` that are missing.
pub open spec fn missing(columns: Seq<ColumnText>, n: int) -> Seq<Seq<char>>
    decreases n,
{
    if n <= 0 {
        Seq::empty()
    } else {
        let name = authority_names()[n - 1];
        if column(columns, name) is None {
            missing(columns, n - 1).push(name)
        } else {
            missing(columns, n - 1)
        }
    }
}

pub open spec fn add_statement(name: Seq<char>) -> Seq<char> {
    "ALTER TABLE facts ADD COLUMN "@ + name + " "@ + declaration(name)
}

/// The statements that add what is missing; nothing that is there changes.
pub fn additions(columns: &Vec<ColumnDefinition>) -> (r: Vec<String>)
    ensures
        text::texts(r@) == missing(
            column_texts(columns@),
            authority_names().len() as int,
        ).map_values(|n: Seq<char>| add_statement(n)),
{
    let ghost all = column_texts(columns@);
    let ghost f = |n: Seq<char>| add_statement(n);
    let mut out: Vec<String> = Vec::new();
    let mut n: usize = 0;
    proof {
        assert(text::texts(out@) =~= missing(all, 0).map_values(f));
    }
    while n < 4
        invariant
            n <= 4,
            all == column_texts(columns@),
            f == (|n: Seq<char>| add_statement(n)),
            authority_names().len() == 4,
            text::texts(out@) == missing(all, n as int).map_values(f),
        decreases 4 - n,
    {
        let name = authority_name(n);
        let ghost before = missing(all, n as int);
        if find_column(columns, name).is_none() {
            let mut s = "ALTER TABLE facts ADD COLUMN ".to_owned();
            s.append(name);
            s.append(" ");
            if str_eq(name, "authority_status") {
                s.append(
                    "TEXT COLLATE BINARY NOT NULL DEFAULT 'unknown' CHECK (authority_status COLLATE BINARY IN ('current','historical','unknown'))",
                );
            } else {
                s.append("TEXT");
            }
            proof {
                text::lemma_texts_push(out@, s);
                assert(before.push(name@).map_values(f) =~= before.map_values(f).push(s@));
            }
            out.push(s);
        }
        n += 1;
    }
    out
}

/// What a migration that left something missing ends in.
pub fn after_additions(complete: bool) -> (r: Result<(), String>)
    ensures
        match r {
            Ok(_) => complete,
            Err(e) => !complete && e@
                == "authority schema: required columns remain missing after migration"@,
        },
{
    if complete {
        Ok(())
    } else {
        Err("authority schema: required columns remain missing after migration".to_owned())
    }
}

/// What is said where a column that may be there already could not be added:
/// nothing where it is there.
pub fn backfill_note(error: &str) -> (r: Option<String>)
    ensures
        match r {
            Some(m) => !text::contains(error@, "duplicate column"@) && m@
                == "[schema] transcript_files.consecutive_failures backfill: "@ + error@,
            None => text::contains(error@, "duplicate column"@),
        },
{
    if text::contains_str(error, "duplicate column") {
        None
    } else {
        let mut m = "[schema] transcript_files.consecutive_failures backfill: ".to_owned();
        m.append(error);
        Some(m)
    }
}

/// Whether the index of the facts is the old one, over objects alone.
pub fn facts_fts_needs_widening(tables: i64, subject_columns: i64) -> (b: bool)
    ensures
        b == (tables != 0 && subject_columns == 0),
{
    tables != 0 && subject_columns == 0
}

// ── Laws ─────────────────────────────────────────────────────────────────────
/// A column that is there stays the first of its name, and one that is added
/// is found where there was none.
proof fn lemma_column_added(columns: Seq<ColumnText>, more: Seq<ColumnText>, name: Seq<char>)
    ensures
        column(columns, name) is Some ==> column(columns + more, name) == column(columns, name),
        column(columns, name) is None ==> column(columns + more, name) == column(more, name),
{
    let all = columns + more;
    let p = called(name);
    lists::lemma_first_from(columns, p, 0);
    lists::lemma_first_from(more, p, 0);
    lists::lemma_first_from(all, p, 0);
    match lists::first_from(columns, p, 0) {
        Some(i) => {
            assert(p(all[i]));
            let k = lists::first_from(all, p, 0)->0;
            if k < i {
                assert(!p(columns[k]));
            }
        },
        None => {
            match lists::first_from(all, p, 0) {
                Some(k) => {
                    if k < columns.len() {
                        assert(!p(columns[k]));
                    }
                    let j = k - columns.len();
                    assert(p(more[j]));
                    let m = lists::first_from(more, p, 0)->0;
                    if m < j {
                        assert(p(all[m + columns.len()]));
                    }
                },
                None => {
                    match lists::first_from(more, p, 0) {
                        Some(m) => {
                            assert(p(all[m + columns.len()]));
                        },
                        None => {},
                    }
                },
            }
        },
    }
}

pub open spec fn declared_columns(names: Seq<Seq<char>>) -> Seq<ColumnText> {
    names.map_values(|n: Seq<char>| declared(n))
}

proof fn lemma_missing_names(columns: Seq<ColumnText>, n: int, k: int)
    requires
        0 <= n <= 4,
        0 <= k < missing(columns, n).len(),
    ensures
        exists|i: int|
            0 <= i < n && #[trigger] authority_names()[i] == missing(columns, n)[k] && column(
                columns,
                authority_names()[i],
            ) is None,
    decreases n,
{
    if n > 0 {
        let name = authority_names()[n - 1];
        if column(columns, name) is None && k == missing(columns, n - 1).len() {
            assert(authority_names()[n - 1] == missing(columns, n)[k]);
        } else {
            lemma_missing_names(columns, n - 1, k);
            let i = choose|i: int|
                0 <= i < n - 1 && #[trigger] authority_names()[i] == missing(columns, n - 1)[k]
                    && column(columns, authority_names()[i]) is None;
            assert(authority_names()[i] == missing(columns, n)[k]);
        }
    }
}

proof fn lemma_missing_has(columns: Seq<ColumnText>, n: int, i: int) -> (k: int)
    requires
        0 <= i < n <= 4,
        column(columns, authority_names()[i]) is None,
    ensures
        0 <= k < missing(columns, n).len(),
        missing(columns, n)[k] == authority_names()[i],
    decreases n,
{
    if i == n - 1 {
        missing(columns, n - 1).len() as int
    } else {
        lemma_missing_has(columns, n - 1, i)
    }
}

proof fn lemma_added_fits(columns: Seq<ColumnText>, n: int)
    requires
        0 <= n <= 4,
        authority_check(columns) is Ok,
    ensures
        checked(columns + declared_columns(missing(columns, 4)), n) == Ok::<bool, ColumnText>(true),
    decreases n,
{
    if n > 0 {
        lemma_added_fits(columns, n - 1);
        let name = authority_names()[n - 1];
        let more = declared_columns(missing(columns, 4));
        lemma_column_added(columns, more, name);
        if column(columns, name) is Some {
            let c = column(columns, name)->0;
            lists::lemma_first_from(columns, called(name), 0);
            assert(c.name == name);
            assert(compatible(c)) by {
                if !compatible(c) {
                    if checked(columns, n - 1) is Err {
                        lemma_misfit_stays(columns, n - 1, 4, checked(columns, n - 1)->Err_0);
                    } else {
                        assert(checked(columns, n) == Err::<bool, ColumnText>(c));
                        lemma_misfit_stays(columns, n, 4, c);
                    }
                }
            }
        } else {
            let k = lemma_missing_has(columns, 4, n - 1);
            let p = called(name);
            lists::lemma_first_from(more, p, 0);
            assert(more[k] == declared(name));
            assert(p(more[k]));
            let m = lists::first_from(more, p, 0)->0;
            assert(more[m] == declared(missing(columns, 4)[m]));
            assert(more[m].name == name);
            assert(column(more, name) == Some(declared(name)));
            assert(compatible(declared(name)));
        }
    }
}

/// A database without a misfit has, once what is missing has been added as it
/// is declared, every authority column, and each that it had is as it was.
pub proof fn law_migration_completes(columns: Seq<ColumnText>, name: Seq<char>)
    requires
        authority_check(columns) is Ok,
    ensures
        ({
            let after = columns + declared_columns(missing(columns, 4));
            &&& authority_check(after) == Ok::<bool, ColumnText>(true)
            &&& missing(after, 4).len() == 0
            &&& column(columns, name) is Some ==> column(after, name) == column(columns, name)
        }),
{
    let more = declared_columns(missing(columns, 4));
    let after = columns + more;
    lemma_added_fits(columns, 4);
    lemma_column_added(columns, more, name);
    if missing(after, 4).len() > 0 {
        lemma_missing_names(after, 4, 0);
        let i = choose|i: int|
            0 <= i < 4 && #[trigger] authority_names()[i] == missing(after, 4)[0] && column(
                after,
                authority_names()[i],
            ) is None;
        lemma_not_complete(after, i + 1, i);
        lemma_incomplete_stays(after, i + 1, 4);
    }
}

proof fn lemma_not_complete(columns: Seq<ColumnText>, n: int, i: int)
    requires
        n == i + 1,
        0 <= i < 4,
        column(columns, authority_names()[i]) is None,
    ensures
        checked(columns, n) != Ok::<bool, ColumnText>(true),
{
}

proof fn lemma_incomplete_stays(columns: Seq<ColumnText>, n: int, m: int)
    requires
        0 < n <= m,
        checked(columns, n) != Ok::<bool, ColumnText>(true),
    ensures
        checked(columns, m) != Ok::<bool, ColumnText>(true),
    decreases m - n,
{
    if n < m {
        lemma_incomplete_stays(columns, n, m - 1);
    }
}

/// A column of the authority of a fact fits if and only if it is a text, letter case
/// aside, and no primary key; the status must be there and be unknown unless it is
/// said, the others may be absent and have no default.
pub proof fn law_fitting_columns(c: ColumnText)
    requires
        c.declared_type == "TEXT"@,
    ensures
        c.name == "authority_status"@ ==> compatible(c) == (c.not_null && c.default_value == Some(
            "'unknown'"@,
        ) && !c.primary_key),
        c.name != "authority_status"@ ==> compatible(c) == (!c.not_null && c.default_value is None
            && !c.primary_key),
{
}

/// What is missing are those of the four columns that no column is called like, and each
/// is added with its own declaration.
pub proof fn law_missing_columns(columns: Seq<ColumnText>, name: Seq<char>)
    ensures
        missing(columns, 4).contains(name) == ((name == "source_origin"@ || name
            == "effective_date"@ || name == "superseded_by"@ || name == "authority_status"@)
            && forall|i: int| 0 <= i < columns.len() ==> (#[trigger] columns[i]).name != name),
        add_statement("authority_status"@) == "ALTER TABLE facts ADD COLUMN "@
            + "authority_status"@ + " "@ + status_declaration(),
        name != "authority_status"@ ==> add_statement(name) == "ALTER TABLE facts ADD COLUMN "@
            + name + " "@ + "TEXT"@,
{
    let a = authority_names();
    assert(a[0] == "source_origin"@ && a[1] == "effective_date"@ && a[2] == "superseded_by"@ && a[3]
        == "authority_status"@);
    lists::lemma_first_from(columns, called(name), 0);
    assert((column(columns, name) is None) == (forall|i: int|
        0 <= i < columns.len() ==> (#[trigger] columns[i]).name != name)) by {
        if column(columns, name) is None {
            assert forall|i: int| 0 <= i < columns.len() implies (#[trigger] columns[i]).name
                != name by {
                assert(!called(name)(columns[i]));
            }
        } else {
            let i = lists::first_from(columns, called(name), 0)->0;
            assert(columns[i].name == name);
        }
    }
    lemma_missing_is(columns, 4, name);
}

proof fn lemma_missing_is(columns: Seq<ColumnText>, n: int, name: Seq<char>)
    requires
        0 <= n <= 4,
    ensures
        missing(columns, n).contains(name) == (column(columns, name) is None && exists|i: int|
            0 <= i < n && #[trigger] authority_names()[i] == name),
    decreases n,
{
    if n > 0 {
        lemma_missing_is(columns, n - 1, name);
        let front = missing(columns, n - 1);
        let all = missing(columns, n);
        let last = authority_names()[n - 1];
        if all.contains(name) {
            let k = choose|k: int| 0 <= k < all.len() && all[k] == name;
            if k < front.len() {
                assert(front[k] == name);
                let i = choose|i: int| 0 <= i < n - 1 && #[trigger] authority_names()[i] == name;
                assert(authority_names()[i] == name);
            } else {
                assert(authority_names()[n - 1] == name);
            }
        }
        if column(columns, name) is None && exists|i: int|
            0 <= i < n && #[trigger] authority_names()[i] == name {
            let i = choose|i: int| 0 <= i < n && #[trigger] authority_names()[i] == name;
            if i < n - 1 {
                assert(front.contains(name));
                let k = choose|k: int| 0 <= k < front.len() && front[k] == name;
                assert(all[k] == name);
            } else {
                assert(all[front.len() as int] == name);
            }
        }
    }
}

/// The columns are complete if and only if all four are there and fit; where one that
/// is there does not fit, they are refused.
pub proof fn law_authority_check(columns: Seq<ColumnText>)
    ensures
        (authority_check(columns) is Err) == (exists|i: int|
            0 <= i < 4 && column(columns, #[trigger] authority_names()[i]) is Some && !compatible(
                column(columns, authority_names()[i])->0,
            )),
        authority_check(columns) is Ok ==> authority_check(columns)->Ok_0 == (missing(
            columns,
            4,
        ).len() == 0),
{
    lemma_checked(columns, 4);
}

proof fn lemma_checked(columns: Seq<ColumnText>, n: int)
    requires
        0 <= n <= 4,
    ensures
        (checked(columns, n) is Err) == (exists|i: int|
            0 <= i < n && column(columns, #[trigger] authority_names()[i]) is Some && !compatible(
                column(columns, authority_names()[i])->0,
            )),
        checked(columns, n) is Ok ==> checked(columns, n)->Ok_0 == (missing(columns, n).len() == 0),
    decreases n,
{
    if n > 0 {
        lemma_checked(columns, n - 1);
        if checked(columns, n - 1) is Err {
            let i = choose|i: int|
                0 <= i < n - 1 && column(columns, #[trigger] authority_names()[i]) is Some
                    && !compatible(column(columns, authority_names()[i])->0);
            assert(column(columns, authority_names()[i]) is Some);
        } else {
            assert(column(columns, authority_names()[n - 1]) is Some || column(
                columns,
                authority_names()[n - 1],
            ) is None);
        }
    }
}

/// A column that does not fit is told by its name, with what it is.
pub proof fn law_misfit(c: ColumnText)
    ensures
        text::starts_with(misfit(c), "authority schema: incompatible column `"@ + c.name + "`: "@),
        text::ends_with(misfit(c), column_debug(c)),
        bool_text(true) == "true"@,
        bool_text(false) == "false"@,
{
    let s = misfit(c);
    let p = "authority schema: incompatible column `"@ + c.name + "`: "@;
    let e = column_debug(c);
    assert(s.subrange(0, p.len() as int) =~= p);
    assert(s.subrange(s.len() - e.len(), s.len() as int) =~= e);
}

} // verus!
