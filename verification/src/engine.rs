//! The sort engine's decisions: which rules act, and which files match.
//!
//! A sort pass walks the rules in order.  A disabled rule is skipped without
//! touching the filesystem; a rule whose input or output directory is not a
//! directory is skipped without error; otherwise the immediate entries of the
//! input directory are listed and every entry whose extension token — the
//! part of the name after the final `.` — equals the rule's extension,
//! case-sensitively and with no dot stripping, is copied to the output
//! directory under the same name.  A name without a `.` has no extension
//! token and never matches; a name like `c.tar.gz` only matches on `gz`,
//! never on `tar.gz`.  Per-file copy failures are recorded and the pass goes
//! on.
//!
//! The caller owns the filesystem traffic; it reports what it saw (directory
//! checks, listings) and this module decides.

use vstd::prelude::*;

use crate::rule::Rule;

verus! {

// ---------------------------------------------------------------------------
// Extension matching.
// ---------------------------------------------------------------------------
/// The extension token of a file name: the characters after the final `.`,
/// or nothing when the name holds no `.` at all.  `a.` has the empty token;
/// `a.tar.gz` has the token `gz`.
pub open spec fn ext_token(s: Seq<char>) -> Option<Seq<char>>
    decreases s.len(),
{
    if s.len() == 0 {
        None
    } else if s[s.len() - 1] == '.' {
        Some(Seq::<char>::empty())
    } else {
        match ext_token(s.drop_last()) {
            None => None,
            Some(t) => Some(t.push(s[s.len() - 1])),
        }
    }
}

/// Whether a file name matches a rule's extension: its extension token
/// exists and equals the extension literally.
pub open spec fn matches_ext(name: Seq<char>, ext: Seq<char>) -> bool {
    ext_token(name) == Some(ext)
}

/// A name without any `.` has no extension token.
proof fn lemma_ext_token_none(s: Seq<char>)
    requires
        forall|m: int| 0 <= m < s.len() ==> s[m] != '.',
    ensures
        ext_token(s) is None,
    decreases s.len(),
{
    if s.len() == 0 {
    } else {
        assert(forall|m: int| 0 <= m < s.drop_last().len() ==> s.drop_last()[m] != '.');
        lemma_ext_token_none(s.drop_last());
    }
}

/// When the final `.` of the name stands at `k`, the extension token is
/// everything after `k`.
proof fn lemma_ext_token_at(s: Seq<char>, k: int)
    requires
        0 <= k < s.len(),
        s[k] == '.',
        forall|m: int| k < m < s.len() ==> s[m] != '.',
    ensures
        ext_token(s) == Some(s.skip(k + 1)),
    decreases s.len(),
{
    if k == s.len() - 1 {
        assert(s.skip(k + 1) =~= Seq::<char>::empty());
    } else {
        let d = s.drop_last();
        assert(d[k] == '.');
        assert(forall|m: int| k < m < d.len() ==> d[m] != '.');
        lemma_ext_token_at(d, k);
        assert(d.skip(k + 1).push(s[s.len() - 1]) =~= s.skip(k + 1));
    }
}

/// Whether `name` matches `ext`, exactly as [`matches_ext`] says.
pub fn file_matches(name: &str, ext: &str) -> (b: bool)
    ensures
        b == matches_ext(name@, ext@),
{
    let s = crate::codec::to_chars(name);
    let e = crate::codec::to_chars(ext);
    let n: usize = s.len();
    let mut i: usize = 0;
    let mut dot: usize = 0;
    let mut has_dot = false;
    while i < n
        invariant
            n == s@.len(),
            i <= n,
            has_dot ==> dot < i && s@[dot as int] == '.' && (forall|m: int|
                dot < m < i ==> s@[m] != '.'),
            !has_dot ==> (forall|m: int| 0 <= m < i ==> s@[m] != '.'),
        decreases n - i,
    {
        if s[i] == '.' {
            dot = i;
            has_dot = true;
        }
        i = i + 1;
    }
    if !has_dot {
        proof {
            lemma_ext_token_none(s@);
        }
        return false;
    }
    proof {
        lemma_ext_token_at(s@, dot as int);
    }
    let suf_len: usize = n - dot - 1;
    proof {
        assert(s@.skip(dot + 1).len() == suf_len);
    }
    if suf_len != e.len() {
        return false;
    }
    let mut k: usize = 0;
    while k < suf_len
        invariant
            n == s@.len(),
            s@ == name@,
            e@ == ext@,
            dot < n,
            suf_len == n - dot - 1,
            suf_len == e@.len(),
            k <= suf_len,
            ext_token(s@) == Some(s@.skip(dot + 1)),
            forall|m: int| 0 <= m < k ==> s@[dot + 1 + m] == e@[m],
        decreases suf_len - k,
    {
        if s[dot + 1 + k] != e[k] {
            proof {
                let suf = s@.skip(dot + 1);
                if suf == e@ {
                    assert(suf[k as int] == e@[k as int]);
                    assert(suf[k as int] == s@[dot + 1 + k]);
                    assert(false);
                }
                assert(!matches_ext(name@, ext@));
            }
            return false;
        }
        k = k + 1;
    }
    proof {
        assert(s@.skip(dot + 1) =~= e@);
    }
    true
}

// ---------------------------------------------------------------------------
// Per-rule decision.
// ---------------------------------------------------------------------------
/// What a sort pass does with one rule.
#[derive(Clone, Copy, Debug, PartialEq, Eq, Structural)]
pub enum RuleDecision {
    /// The rule is disabled: nothing is listed, nothing is copied.
    SkipDisabled,
    /// An end directory is missing: nothing is copied, and this is no error.
    SkipMissingDir,
    /// Both directories exist and the rule is enabled: list and copy.
    Scan,
}

/// The decision for a rule, given whether each of its directories exists as
/// a directory: a disabled rule is skipped first; then a rule with a missing
/// directory; only an enabled rule with both directories present is scanned.
pub open spec fn decision_of(enabled: bool, input_ok: bool, output_ok: bool) -> RuleDecision {
    if !enabled {
        RuleDecision::SkipDisabled
    } else if !input_ok || !output_ok {
        RuleDecision::SkipMissingDir
    } else {
        RuleDecision::Scan
    }
}

/// A disabled rule is inert: whatever the caller would have reported about
/// the two directories, the decision is to skip without listing or copying
/// anything — so the caller never needs to touch the filesystem for it.
pub proof fn lemma_disabled_rule_inert(input_ok: bool, output_ok: bool)
    ensures
        decision_of(false, input_ok, output_ok) == RuleDecision::SkipDisabled,
{
}

/// An enabled rule with a missing input or output directory is skipped, and
/// the skip is not an error: no scan, no copies, the pass goes on.
pub proof fn lemma_missing_dir_skips_without_error(input_ok: bool, output_ok: bool)
    requires
        !input_ok || !output_ok,
    ensures
        decision_of(true, input_ok, output_ok) == RuleDecision::SkipMissingDir,
{
}

/// Decides what the pass does with `rule`.  The caller reports whether the
/// rule's input and output paths denote directories; it need not have looked
/// (and must not list anything) when the rule is disabled — the decision
/// ignores both reports in that case, as [`decision_of`] shows.
pub fn decide(rule: &Rule, input_ok: bool, output_ok: bool) -> (d: RuleDecision)
    ensures
        d == decision_of(rule@.enabled, input_ok, output_ok),
{
    if !rule.enabled {
        RuleDecision::SkipDisabled
    } else if !input_ok || !output_ok {
        RuleDecision::SkipMissingDir
    } else {
        RuleDecision::Scan
    }
}

// ---------------------------------------------------------------------------
// Selecting the files of a listing.
// ---------------------------------------------------------------------------
/// The views of a sequence of strings, element by element.
pub open spec fn str_views(ss: Seq<String>) -> Seq<Seq<char>> {
    ss.map_values(|s: String| s@)
}

/// The names of a listing that match the extension, in listing order.
pub open spec fn selected(names: Seq<Seq<char>>, ext: Seq<char>) -> Seq<Seq<char>>
    decreases names.len(),
{
    if names.len() == 0 {
        Seq::<Seq<char>>::empty()
    } else {
        let rest = selected(names.drop_first(), ext);
        if matches_ext(names[0], ext) {
            seq![names[0]] + rest
        } else {
            rest
        }
    }
}

/// Selection distributes over appending one name at the end.
proof fn lemma_selected_push(names: Seq<Seq<char>>, x: Seq<char>, ext: Seq<char>)
    ensures
        selected(names.push(x), ext) == selected(names, ext) + if matches_ext(x, ext) {
            seq![x]
        } else {
            Seq::<Seq<char>>::empty()
        },
    decreases names.len(),
{
    if names.len() == 0 {
        assert(names.push(x)[0] == x);
        assert(names.push(x).drop_first() =~= Seq::<Seq<char>>::empty());
        assert(selected(Seq::<Seq<char>>::empty(), ext) =~= Seq::<Seq<char>>::empty());
        if matches_ext(x, ext) {
            assert(selected(names.push(x), ext) =~= selected(names, ext) + seq![x]);
        } else {
            assert(selected(names.push(x), ext) =~= selected(names, ext));
            assert(selected(names, ext) =~= selected(names, ext) + Seq::<Seq<char>>::empty());
        }
    } else {
        assert(names.push(x)[0] == names[0]);
        assert(names.push(x).drop_first() =~= names.drop_first().push(x));
        lemma_selected_push(names.drop_first(), x, ext);
        if matches_ext(x, ext) {
            assert(selected(names.push(x), ext) =~= selected(names, ext) + seq![x]);
        } else {
            assert(selected(names.push(x), ext) =~= selected(names, ext));
            assert(selected(names, ext) =~= selected(names, ext) + Seq::<Seq<char>>::empty());
        }
    }
}

/// The entries of `names` that match `ext`, in order — exactly the names a
/// scan of a directory with those entries copies.
pub fn select_files(names: &Vec<String>, ext: &str) -> (r: Vec<String>)
    ensures
        str_views(r@) == selected(str_views(names@), ext@),
{
    let mut r: Vec<String> = Vec::new();
    let mut i: usize = 0;
    proof {
        assert(str_views(r@) =~= selected(str_views(names@).take(0), ext@));
    }
    while i < names.len()
        invariant
            i <= names@.len(),
            str_views(r@) == selected(str_views(names@).take(i as int), ext@),
        decreases names@.len() - i,
    {
        let ghost pre = str_views(names@).take(i as int);
        if file_matches(names[i].as_str(), ext) {
            r.push(names[i].clone());
            proof {
                assert(str_views(r@) =~= selected(pre, ext@) + seq![names@[i as int]@]);
            }
        } else {
            proof {
                assert(str_views(r@) =~= selected(pre, ext@) + Seq::<Seq<char>>::empty());
            }
        }
        proof {
            lemma_selected_push(pre, names@[i as int]@, ext@);
            assert(str_views(names@).take(i + 1) =~= pre.push(names@[i as int]@));
        }
        i = i + 1;
    }
    proof {
        assert(str_views(names@).take(names@.len() as int) =~= str_views(names@));
    }
    r
}

} // verus!
