//! Paths: a directory joined with the rest of a path, placeholders expanded
//! against the data store, a path shown relative to a root.
//!
//! Neutral ground: tasks (landings) and workflows (checks) both use it.

use crate::text::{
    chars_of, contains, lemma_replace_absent, push_str, replace, replace_chars, starts_with, string_of,
};
use vstd::prelude::*;

verus! {

/// The directory with every run of slashes written as one slash.
pub open spec fn collapse_slashes(s: Seq<char>) -> Seq<char>
    decreases s.len(),
{
    if s.len() == 0 {
        s
    } else if s.last() == '/' && s.len() >= 2 && s[s.len() - 2] == '/' {
        collapse_slashes(s.drop_last())
    } else {
        collapse_slashes(s.drop_last()).push(s.last())
    }
}

/// Trailing slashes removed.
pub open spec fn trim_end_slashes(s: Seq<char>) -> Seq<char>
    decreases s.len(),
{
    if s.len() > 0 && s.last() == '/' {
        trim_end_slashes(s.drop_last())
    } else {
        s
    }
}

/// A directory joined with the rest of a path: repeated slashes in the
/// directory folded, trailing ones dropped, then one slash and the rest.
/// (`/` and the empty directory join the same way: at the root.)
pub open spec fn joined(dir: Seq<char>, rest: Seq<char>) -> Seq<char> {
    trim_end_slashes(collapse_slashes(dir)) + "/"@ + rest
}

/// The four placeholders a criterion may hold, expanded against the data
/// store: `{{artifacts}}`, then `{{report}}`, `{{journal}}` and `{{log}}`.
pub open spec fn expanded_against(value: Seq<char>, data: Seq<char>) -> Seq<char> {
    replace(
        replace(
            replace(
                replace(value, "{{artifacts}}"@, joined(data, "artifacts"@)),
                "{{report}}"@,
                joined(data, "artifacts/report"@),
            ),
            "{{journal}}"@,
            joined(data, "artifacts/journal"@),
        ),
        "{{log}}"@,
        joined(data, "tasks"@),
    )
}

/// A value that holds none of the four placeholders expands to itself,
/// whatever the data store.
pub proof fn lemma_expanded_without_placeholders(value: Seq<char>, data: Seq<char>)
    requires
        !contains(value, "{{artifacts}}"@),
        !contains(value, "{{report}}"@),
        !contains(value, "{{journal}}"@),
        !contains(value, "{{log}}"@),
    ensures
        expanded_against(value, data) == value,
{
    lemma_replace_absent(value, "{{artifacts}}"@, joined(data, "artifacts"@));
    lemma_replace_absent(value, "{{report}}"@, joined(data, "artifacts/report"@));
    lemma_replace_absent(value, "{{journal}}"@, joined(data, "artifacts/journal"@));
    lemma_replace_absent(value, "{{log}}"@, joined(data, "tasks"@));
}

/// A path shown relative to `root` when it lies under it; otherwise as is.
pub open spec fn shortened(root: Seq<char>, path: Seq<char>) -> Seq<char> {
    let prefix = if root.len() > 0 && root.last() == '/' {
        root
    } else {
        root + "/"@
    };
    if starts_with(path, prefix) {
        path.skip(prefix.len() as int)
    } else {
        path
    }
}

proof fn lemma_trim_end_slashes_take(s: Seq<char>, j: int)
    requires
        0 <= j <= s.len(),
        forall|k: int| j <= k < s.len() ==> #[trigger] s[k] == '/',
    ensures
        trim_end_slashes(s) == trim_end_slashes(s.take(j)),
    decreases s.len() - j,
{
    if j == s.len() {
        assert(s.take(j) =~= s);
    } else {
        let t = s.drop_last();
        assert forall|k: int| j <= k < t.len() implies #[trigger] t[k] == '/' by {
            assert(t[k] == s[k]);
        }
        lemma_trim_end_slashes_take(t, j);
        assert(t.take(j) =~= s.take(j));
    }
}

/// The characters of `dir` joined with `rest`.
pub fn join_chars(dir: &[char], rest: &str) -> (r: Vec<char>)
    ensures
        r@ == joined(dir@, rest@),
{
    let mut clean: Vec<char> = Vec::new();
    let mut last_was_slash = false;
    let mut i: usize = 0;
    while i < dir.len()
        invariant
            i <= dir.len(),
            clean@ == collapse_slashes(dir@.take(i as int)),
            last_was_slash == (i > 0 && dir@[i - 1] == '/'),
        decreases dir.len() - i,
    {
        let ch = dir[i];
        let ghost t = dir@.take(i + 1);
        assert(t.drop_last() =~= dir@.take(i as int));
        assert(t.last() == ch);
        if ch == '/' {
            if last_was_slash {
                assert(t[t.len() - 2] == dir@[i - 1]);
                i += 1;
                continue;
            }
            last_was_slash = true;
        } else {
            last_was_slash = false;
        }
        proof {
            if i > 0 {
                assert(t[t.len() - 2] == dir@[i - 1]);
            }
        }
        clean.push(ch);
        i += 1;
    }
    assert(dir@.take(dir.len() as int) =~= dir@);
    let mut j: usize = clean.len();
    while j > 0 && clean[j - 1] == '/'
        invariant
            j <= clean.len(),
            forall|k: int| j <= k < clean.len() ==> #[trigger] clean@[k] == '/',
        decreases j,
    {
        j -= 1;
    }
    proof {
        lemma_trim_end_slashes_take(clean@, j as int);
        let t = clean@.take(j as int);
        if j > 0 {
            assert(t.last() == clean@[j - 1]);
        }
        assert(trim_end_slashes(t) == t);
    }
    let mut out = crate::text::slice_of(&clean, 0, j);
    assert(out@ =~= clean@.take(j as int));
    push_str(&mut out, "/");
    push_str(&mut out, rest);
    out
}

/// A directory joined with the rest of a path: repeated slashes in the
/// directory are folded, trailing ones dropped, then one slash and the rest.
pub fn join(dir: &str, rest: &str) -> (r: String)
    ensures
        r@ == joined(dir@, rest@),
{
    let d = chars_of(dir);
    let r = join_chars(&d, rest);
    string_of(&r)
}

/// Replaces every `pattern` (given as a string) in `value` with `by`.
fn replace_with(value: &[char], pattern: &str, by: &[char]) -> (r: Vec<char>)
    requires
        pattern@.len() > 0,
    ensures
        r@ == replace(value@, pattern@, by@),
{
    let p = chars_of(pattern);
    replace_chars(value, &p, by)
}

/// The placeholders in a criterion expanded against the data store (enough
/// for checking a definition): `{{artifacts}}`, `{{report}}`, `{{journal}}`
/// and `{{log}}`, each replaced everywhere, in that order; other text is kept.
pub fn expand_placeholders(value: &str, data: &str) -> (r: String)
    ensures
        r@ == expanded_against(value@, data@),
{
    proof {
        reveal_strlit("{{artifacts}}");
        reveal_strlit("{{report}}");
        reveal_strlit("{{journal}}");
        reveal_strlit("{{log}}");
    }
    let d = chars_of(data);
    let v = chars_of(value);
    let a = join_chars(&d, "artifacts");
    let step1 = replace_with(&v, "{{artifacts}}", &a);
    let b = join_chars(&d, "artifacts/report");
    let step2 = replace_with(&step1, "{{report}}", &b);
    let c = join_chars(&d, "artifacts/journal");
    let step3 = replace_with(&step2, "{{journal}}", &c);
    let e = join_chars(&d, "tasks");
    let step4 = replace_with(&step3, "{{log}}", &e);
    string_of(&step4)
}

/// A path shown relative to `root` when it lies under it; otherwise as is.
pub fn short(root: &str, path: &str) -> (r: String)
    ensures
        r@ == shortened(root@, path@),
{
    let mut prefix = chars_of(root);
    if !(prefix.len() > 0 && prefix[prefix.len() - 1] == '/') {
        push_str(&mut prefix, "/");
    }
    let p = chars_of(path);
    if crate::text::matches_at(&p, &prefix, 0) {
        let rest = crate::text::slice_of(&p, prefix.len(), p.len());
        assert(rest@ =~= p@.skip(prefix.len() as int));
        string_of(&rest)
    } else {
        string_of(&p)
    }
}

} // verus!
