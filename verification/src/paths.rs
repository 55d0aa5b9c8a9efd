//! Paths as texts with `/` between components.
use crate::text;
use vstd::prelude::*;

verus! {

/// `rel` below `base`, as a path is joined: an absolute `rel` stands alone.
pub open spec fn joined(base: Seq<char>, rel: Seq<char>) -> Seq<char> {
    if text::starts_with(rel, "/"@) || base.len() == 0 {
        rel
    } else if text::ends_with(base, "/"@) {
        base + rel
    } else {
        base + "/"@ + rel
    }
}

pub fn join(base: &str, rel: &str) -> (r: String)
    ensures
        r@ == joined(base@, rel@),
{
    if text::starts_with_str(rel, "/") || base.is_empty() {
        return rel.to_owned();
    }
    let mut r = base.to_owned();
    if !text::ends_with_str(base, "/") {
        r.append("/");
    }
    r.append(rel);
    r
}

/// How many characters of `s`, of its first `n`, are left without separators
/// and components `.` at the end; the root stays.
pub open spec fn kept_len(s: Seq<char>, n: int) -> int
    decreases n,
{
    if n > 1 && s[n - 1] == '/' {
        kept_len(s, n - 1)
    } else if n > 1 && s[n - 1] == '.' && s[n - 2] == '/' {
        kept_len(s, n - 1)
    } else {
        n
    }
}

/// The last separator among the first `n` characters.
pub open spec fn last_slash(s: Seq<char>, n: int) -> Option<int>
    decreases n,
{
    if n <= 0 {
        None
    } else if s[n - 1] == '/' {
        Some(n - 1)
    } else {
        last_slash(s, n - 1)
    }
}

/// A path without its last component; nothing for the root and for no path.
pub open spec fn parent_of(path: Seq<char>) -> Option<Seq<char>> {
    let n = kept_len(path, path.len() as int);
    if n == 0 || (n == 1 && path[0] == '/') {
        None
    } else {
        match last_slash(path, n) {
            None => Some(Seq::empty()),
            Some(i) => Some(path.take(kept_len(path, i + 1))),
        }
    }
}

fn keep_len(s: &Vec<char>, n: usize) -> (m: usize)
    requires
        n <= s@.len(),
    ensures
        m == kept_len(s@, n as int),
        m <= n,
{
    let mut m: usize = n;
    while m > 1 && (s[m - 1] == '/' || (s[m - 1] == '.' && s[m - 2] == '/'))
        invariant
            m <= n <= s@.len(),
            kept_len(s@, n as int) == kept_len(s@, m as int),
        decreases m,
    {
        m -= 1;
    }
    m
}

/// A path without its last component, as `Path::parent` gives it.
pub fn parent(path: &str) -> (r: Option<String>)
    ensures
        crate::json::is_text(r, parent_of(path@)),
{
    let v = text::to_chars(path);
    let n: usize = keep_len(&v, v.len());
    if n == 0 || (n == 1 && v[0] == '/') {
        return None;
    }
    let mut i: usize = n;
    while i > 0
        invariant
            i <= n <= v@.len(),
            v@ == path@,
            n == kept_len(path@, path@.len() as int),
            n != 0 && !(n == 1 && path@[0] == '/'),
            last_slash(path@, n as int) == last_slash(path@, i as int),
        decreases i,
    {
        if v[i - 1] == '/' {
            let m: usize = keep_len(&v, i);
            let r = text::substring(v.as_slice(), 0, m);
            proof {
                assert(r@ =~= path@.take(m as int));
            }
            return Some(r);
        }
        i -= 1;
    }
    let r = String::new();
    proof {
        assert(r@ =~= Seq::<char>::empty());
    }
    Some(r)
}

// ── Laws ─────────────────────────────────────────────────────────────────────
/// A relative path below a directory begins with the directory and ends with itself,
/// with one separator between them; an absolute path stands alone.
pub proof fn law_joined(base: Seq<char>, rel: Seq<char>)
    requires
        base.len() > 0,
    ensures
        text::starts_with(rel, "/"@) ==> joined(base, rel) == rel,
        !text::starts_with(rel, "/"@) && base.last() != '/' ==> joined(base, rel) == base + "/"@
            + rel,
        !text::starts_with(rel, "/"@) && base.last() == '/' ==> joined(base, rel) == base + rel,
        joined(Seq::empty(), rel) == rel,
{
    reveal_strlit("/");
    let end = base.subrange(base.len() - 1, base.len() as int);
    if base.last() == '/' {
        assert(end =~= "/"@);
    } else if text::ends_with(base, "/"@) {
        assert(end[0] == "/"@[0]);
    }
}

/// The parent of a file in a directory is that directory, and a bare name has the empty
/// path as its parent; the root has none.
pub proof fn law_parent(dir: Seq<char>, name: Seq<char>)
    requires
        name.len() > 0,
        !name.contains('/'),
        name != "."@,
        dir.len() > 0,
        dir.last() != '/',
        dir.len() > 1 ==> !(dir.last() == '.' && dir[dir.len() - 2] == '/'),
    ensures
        parent_of(dir + "/"@ + name) == Some(dir),
        parent_of(name) == Some(Seq::<char>::empty()),
        parent_of("/"@) is None,
        parent_of(Seq::empty()) is None,
{
    reveal_strlit("/");
    reveal_strlit(".");
    let p = dir + "/"@ + name;
    let n = p.len() as int;
    let at = dir.len() as int;
    assert(p.last() == name.last());
    assert(name.contains(name[name.len() - 1]));
    assert(name.len() == 1 ==> name[0] != '.') by {
        if name.len() == 1 && name[0] == '.' {
            assert(name =~= "."@);
        }
    }
    assert(kept_len(p, n) == n) by {
        if name.len() > 1 {
            assert(p[n - 2] == name[name.len() - 2]);
            assert(name.contains(name[name.len() - 2]));
        }
    }
    assert forall|i: int| at < i < n implies #[trigger] p[i] != '/' by {
        assert(p[i] == name[i - at - 1]);
        assert(name.contains(name[i - at - 1]));
    }
    lemma_last_slash(p, n, at);
    assert(p[at] == '/');
    assert(p[at - 1] == dir.last());
    if at > 1 {
        assert(p[at - 2] == dir[at - 2]);
    }
    assert(kept_len(p, at) == at);
    assert(kept_len(p, at + 1) == at);
    assert(p.take(at) =~= dir);
    let m = name.len() as int;
    assert(kept_len(name, m) == m) by {
        if m > 1 {
            assert(name.contains(name[m - 2]));
        }
    }
    assert forall|i: int| 0 <= i < m implies #[trigger] name[i] != '/' by {
        assert(name.contains(name[i]));
    }
    lemma_no_slash(name, m);
}

proof fn lemma_last_slash(s: Seq<char>, n: int, at: int)
    requires
        0 <= at < n <= s.len(),
        s[at] == '/',
        forall|i: int| at < i < n ==> #[trigger] s[i] != '/',
    ensures
        last_slash(s, n) == Some(at),
    decreases n,
{
    if n - 1 > at {
        assert(s[n - 1] != '/');
        lemma_last_slash(s, n - 1, at);
    }
}

proof fn lemma_no_slash(s: Seq<char>, n: int)
    requires
        0 <= n <= s.len(),
        forall|i: int| 0 <= i < n ==> #[trigger] s[i] != '/',
    ensures
        last_slash(s, n) is None,
    decreases n,
{
    if n > 0 {
        assert(s[n - 1] != '/');
        lemma_no_slash(s, n - 1);
    }
}

} // verus!
