//! The lines that let a Jupyter server's pages be framed, and whether a
//! configuration file still lacks them.
use vstd::prelude::*;
use crate::text::chars_of;

verus! {

/// The configuration lines that add a `Content-Security-Policy` header
/// allowing any frame ancestor.
pub const CSP_CONFIG: &'static str = "\nc.ServerApp.tornado_settings.setdefault(\"headers\", {})\nc.ServerApp.tornado_settings[\"headers\"][\"Content-Security-Policy\"] = \"frame-ancestors * 'self'\"\n";

/// Whether `pat` occurs in `s` at position `i`.
pub open spec fn occurs_at(s: Seq<char>, pat: Seq<char>, i: int) -> bool {
    0 <= i && i + pat.len() <= s.len() && s.subrange(i, i + pat.len()) == pat
}

/// Whether `pat` occurs anywhere in `s`.
pub open spec fn contains(s: Seq<char>, pat: Seq<char>) -> bool {
    exists|i: int| occurs_at(s, pat, i)
}

/// Whether `pat` occurs in `s` at position `i`.
fn matches_at(s: &Vec<char>, pat: &Vec<char>, i: usize) -> (r: bool)
    requires
        i + pat.len() <= s.len(),
    ensures
        r == occurs_at(s@, pat@, i as int),
{
    let mut k: usize = 0;
    while k < pat.len()
        invariant
            0 <= k <= pat.len(),
            i + pat.len() <= s.len(),
            forall|j: int| 0 <= j < k ==> s@[i + j] == pat@[j],
        decreases pat.len() - k,
    {
        if s[i + k] != pat[k] {
            assert(s@.subrange(i as int, i + pat.len())[k as int] != pat@[k as int]);
            return false;
        }
        k = k + 1;
    }
    assert(s@.subrange(i as int, i + pat.len()) =~= pat@);
    true
}

/// Whether a configuration file holding `content` still lacks `CSP_CONFIG`.
pub fn needs_csp_config(content: &str) -> (r: bool)
    ensures
        r == !contains(content@, CSP_CONFIG@),
{
    let s = chars_of(content);
    let pat = chars_of(CSP_CONFIG);
    if pat.len() > s.len() {
        return true;
    }
    if pat.len() == 0 {
        assert(s@.subrange(0, 0) =~= pat@);
        assert(occurs_at(s@, pat@, 0));
        return false;
    }
    let mut i: usize = 0;
    while i <= s.len() - pat.len()
        invariant
            0 < pat.len() <= s.len(),
            i <= s.len() - pat.len() + 1,
            s@ == content@,
            pat@ == CSP_CONFIG@,
            forall|j: int| 0 <= j < i ==> !occurs_at(s@, pat@, j),
        decreases s.len() - pat.len() + 1 - i,
    {
        if matches_at(&s, &pat, i) {
            return false;
        }
        i = i + 1;
    }
    true
}

} // verus!
