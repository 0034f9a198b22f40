use crate::alert::{replace_all, replaced};
use vstd::prelude::*;
use vstd::string::*;

verus! {

/// `s` without its leading slashes.
pub open spec fn trim_slashes(s: Seq<char>) -> Seq<char>
    decreases s.len(),
{
    if s.len() > 0 && s[0] == '/' {
        trim_slashes(s.drop_first())
    } else {
        s
    }
}

/// `s` starts with `p`.
pub open spec fn starts_with(s: Seq<char>, p: Seq<char>) -> bool {
    p.len() <= s.len() && s.subrange(0, p.len() as int) == p
}

/// Asset requested by a URL path: leading slashes dropped, a `static/`
/// prefix removed (with every other `static/` in it), and `index.html` for
/// the bare root.
pub open spec fn asset_path_of(p: Seq<char>) -> Seq<char> {
    let t = trim_slashes(p);
    let u = if starts_with(t, "static/"@) {
        replaced(t, "static/"@, ""@)
    } else {
        t
    };
    if u.len() == 0 {
        "index.html"@
    } else {
        u
    }
}

/// Number of leading slashes of `s` from position `i` on.
proof fn lemma_trim_from(s: Seq<char>, i: int)
    requires
        0 <= i <= s.len(),
        forall|j: int| 0 <= j < i ==> s[j] == '/',
    ensures
        trim_slashes(s) == trim_slashes(s.subrange(i, s.len() as int)),
    decreases i,
{
    if i > 0 {
        assert(s[0] == '/');
        assert(trim_slashes(s) == trim_slashes(s.drop_first()));
        assert(s.drop_first().subrange(i - 1, s.len() - 1) =~= s.subrange(i, s.len() as int));
        lemma_trim_from(s.drop_first(), i - 1);
    } else {
        assert(s.subrange(0, s.len() as int) =~= s);
    }
}

/// The asset file served for a request path.
pub fn asset_path(path: &str) -> (r: String)
    ensures
        r@ == asset_path_of(path@),
{
    let n = path.unicode_len();
    let mut i: usize = 0;
    while i < n && path.get_char(i) == '/'
        invariant
            n == path@.len(),
            0 <= i <= n,
            forall|j: int| 0 <= j < i ==> path@[j] == '/',
        decreases n - i,
    {
        i = i + 1;
    }
    proof {
        lemma_trim_from(path@, i as int);
        let rest = path@.subrange(i as int, n as int);
        if rest.len() > 0 {
            assert(rest[0] == path@[i as int]);
        }
    }
    let trimmed = path.substring_char(i, n);
    let t = trimmed.to_owned();
    proof {
        reveal_strlit("static/");
    }
    let u = if has_static_prefix(&t) {
        replace_all(t.as_str(), "static/", "")
    } else {
        t
    };
    if u.as_str().is_empty() {
        "index.html".to_owned()
    } else {
        u
    }
}

/// Whether `s` starts with `static/`.
fn has_static_prefix(s: &String) -> (r: bool)
    ensures
        r == starts_with(s@, "static/"@),
{
    proof {
        reveal_strlit("static/");
    }
    let pat = "static/";
    let text = s.as_str();
    let n = text.unicode_len();
    if n < 7 {
        return false;
    }
    let mut i: usize = 0;
    while i < 7
        invariant
            n == s@.len(),
            text@ == s@,
            n >= 7,
            pat@ == "static/"@,
            pat@.len() == 7,
            0 <= i <= 7,
            forall|j: int| 0 <= j < i ==> s@[j] == pat@[j],
        decreases 7 - i,
    {
        if text.get_char(i) != pat.get_char(i) {
            assert(s@.subrange(0, 7)[i as int] != pat@[i as int]);
            return false;
        }
        i = i + 1;
    }
    assert(s@.subrange(0, 7) =~= pat@);
    true
}

} // verus!
