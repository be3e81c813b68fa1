//! The persistence codec for the rule file.
//!
//! The rule sequence is persisted as one structured document: a bracketed
//! list of records, each record an object with the five rule fields in a
//! fixed order, string values quoted with backslash escapes and the enabled
//! flag written as a bare boolean.  The writer emits exactly the canonical
//! compact form described by [`doc_json`], and the reader accepts exactly the
//! documents generated by that grammar — anything else is malformed and is
//! rejected as a whole, never silently skipped or truncated.  Record
//! boundaries come from the grammar itself (braces, quotes, escapes), so
//! names and paths may hold any characters, including `,`, `}`, `[` and `]`.
//!
//! The module proves the round-trip law: parsing a written document gives
//! back the very rule sequence that was written.

use vstd::prelude::*;

use crate::rule::{Rule, RuleView};

verus! {

// ---------------------------------------------------------------------------
// The written form, as spec functions over character sequences.
// ---------------------------------------------------------------------------
/// The escaped form of one character inside a quoted string: quote,
/// backslash, newline, tab and carriage return take a two-character escape,
/// every other character stands for itself.
pub open spec fn esc_char(c: char) -> Seq<char> {
    if c == '"' {
        seq!['\\', '"']
    } else if c == '\\' {
        seq!['\\', '\\']
    } else if c == '\n' {
        seq!['\\', 'n']
    } else if c == '\t' {
        seq!['\\', 't']
    } else if c == '\r' {
        seq!['\\', 'r']
    } else {
        seq![c]
    }
}

/// The escaped form of a whole string: the escaped forms of its characters,
/// in order.
pub open spec fn esc_str(s: Seq<char>) -> Seq<char>
    decreases s.len(),
{
    if s.len() == 0 {
        Seq::<char>::empty()
    } else {
        esc_char(s[0]) + esc_str(s.drop_first())
    }
}

/// A quoted string value: the escaped body between two quote characters.
pub open spec fn quoted(s: Seq<char>) -> Seq<char> {
    seq!['"'] + esc_str(s) + seq!['"']
}

/// The written form of the enabled flag.
pub open spec fn bool_text(b: bool) -> Seq<char> {
    if b {
        seq!['t', 'r', 'u', 'e']
    } else {
        seq!['f', 'a', 'l', 's', 'e']
    }
}

/// Record opener together with the first key: `{"name":`.
pub open spec fn key_name() -> Seq<char> {
    seq!['{', '"', 'n', 'a', 'm', 'e', '"', ':']
}

/// Separator and second key: `,"input_dir":`.
pub open spec fn key_input() -> Seq<char> {
    seq![',', '"', 'i', 'n', 'p', 'u', 't', '_', 'd', 'i', 'r', '"', ':']
}

/// Separator and third key: `,"output_dir":`.
pub open spec fn key_output() -> Seq<char> {
    seq![',', '"', 'o', 'u', 't', 'p', 'u', 't', '_', 'd', 'i', 'r', '"', ':']
}

/// Separator and fourth key: `,"ext":`.
pub open spec fn key_ext() -> Seq<char> {
    seq![',', '"', 'e', 'x', 't', '"', ':']
}

/// Separator and fifth key: `,"enabled":`.
pub open spec fn key_enabled() -> Seq<char> {
    seq![',', '"', 'e', 'n', 'a', 'b', 'l', 'e', 'd', '"', ':']
}

/// The written form of one rule record.
pub open spec fn rule_json(r: RuleView) -> Seq<char> {
    key_name() + quoted(r.name) + key_input() + quoted(r.input_dir) + key_output() + quoted(
        r.output_dir,
    ) + key_ext() + quoted(r.ext) + key_enabled() + bool_text(r.enabled) + seq!['}']
}

/// The written forms of a non-empty rule sequence, comma-separated.
pub open spec fn rules_body(rs: Seq<RuleView>) -> Seq<char>
    decreases rs.len(),
{
    if rs.len() == 0 {
        Seq::<char>::empty()
    } else if rs.len() == 1 {
        rule_json(rs[0])
    } else {
        rule_json(rs[0]) + seq![','] + rules_body(rs.drop_first())
    }
}

/// The written form of a whole document: the bracketed record list.
pub open spec fn doc_json(rs: Seq<RuleView>) -> Seq<char> {
    seq!['['] + rules_body(rs) + seq![']']
}

// ---------------------------------------------------------------------------
// Lemmas about the written form.
// ---------------------------------------------------------------------------
/// Escaping distributes over appending one character at the end.
proof fn lemma_esc_str_push(s: Seq<char>, c: char)
    ensures
        esc_str(s.push(c)) == esc_str(s) + esc_char(c),
    decreases s.len(),
{
    if s.len() == 0 {
        assert(s.push(c)[0] == c);
        assert(s.push(c).drop_first() =~= Seq::<char>::empty());
        assert(esc_str(Seq::<char>::empty()) =~= Seq::<char>::empty());
        assert(esc_str(s.push(c)) =~= esc_char(c) + esc_str(Seq::<char>::empty()));
        assert(esc_str(s.push(c)) =~= esc_char(c));
        assert(esc_str(s) + esc_char(c) =~= esc_char(c));
    } else {
        assert(s.push(c).drop_first() =~= s.drop_first().push(c));
        lemma_esc_str_push(s.drop_first(), c);
        assert(esc_str(s.push(c)) =~= esc_str(s) + esc_char(c));
    }
}

/// The record list grows at the right by a comma (when non-empty) and one
/// more record.
proof fn lemma_rules_body_push(rs: Seq<RuleView>, r: RuleView)
    ensures
        rules_body(rs.push(r)) == if rs.len() == 0 {
            rule_json(r)
        } else {
            rules_body(rs) + seq![','] + rule_json(r)
        },
    decreases rs.len(),
{
    if rs.len() == 0 {
        assert(rs.push(r)[0] == r);
        assert(rules_body(rs.push(r)) == rule_json(r));
    } else {
        assert(rs.push(r).drop_first() =~= rs.drop_first().push(r));
        lemma_rules_body_push(rs.drop_first(), r);
        assert(rules_body(rs.push(r)) =~= rules_body(rs) + seq![','] + rule_json(r));
    }
}

// ---------------------------------------------------------------------------
// The writer.
// ---------------------------------------------------------------------------
/// Relies on `String::push` of std: it appends the given character at the
/// end of the string and changes nothing else.
#[verifier::external_body]
fn push_char(out: &mut String, c: char)
    ensures
        final (out)@ == old(out)@.push(c),
{
    out.push(c);
}

/// Appends the escaped form of `s` to `out`.
fn append_escaped(out: &mut String, s: &String)
    ensures
        final (out)@ == old(out)@ + esc_str(s@),
{
    let n: usize = s.as_str().unicode_len();
    let mut i: usize = 0;
    proof {
        assert(out@ =~= old(out)@ + esc_str(s@.take(0)));
    }
    while i < n
        invariant
            n == s@.len(),
            i <= n,
            out@ == old(out)@ + esc_str(s@.take(i as int)),
        decreases n - i,
    {
        let c = s.as_str().get_char(i);
        if c == '"' {
            out.append("\\\"");
            proof {
                reveal_strlit("\\\"");
                assert("\\\""@ =~= esc_char(c));
            }
        } else if c == '\\' {
            out.append("\\\\");
            proof {
                reveal_strlit("\\\\");
                assert("\\\\"@ =~= esc_char(c));
            }
        } else if c == '\n' {
            out.append("\\n");
            proof {
                reveal_strlit("\\n");
                assert("\\n"@ =~= esc_char(c));
            }
        } else if c == '\t' {
            out.append("\\t");
            proof {
                reveal_strlit("\\t");
                assert("\\t"@ =~= esc_char(c));
            }
        } else if c == '\r' {
            out.append("\\r");
            proof {
                reveal_strlit("\\r");
                assert("\\r"@ =~= esc_char(c));
            }
        } else {
            push_char(out, c);
            proof {
                assert(seq![c] =~= esc_char(c));
            }
        }
        proof {
            lemma_esc_str_push(s@.take(i as int), s@[i as int]);
            assert(s@.take(i + 1) =~= s@.take(i as int).push(s@[i as int]));
            assert(out@ =~= old(out)@ + esc_str(s@.take(i + 1)));
        }
        i = i + 1;
    }
    proof {
        assert(s@.take(n as int) =~= s@);
    }
}

/// Appends the quoted form of `s` to `out`.
fn append_quoted(out: &mut String, s: &String)
    ensures
        final (out)@ == old(out)@ + quoted(s@),
{
    out.append("\"");
    proof {
        reveal_strlit("\"");
        assert("\""@ =~= seq!['"']);
    }
    append_escaped(out, s);
    out.append("\"");
    proof {
        assert(out@ =~= old(out)@ + quoted(s@));
    }
}

/// Appends the written form of one rule record to `out`.
fn append_rule(out: &mut String, r: &Rule)
    ensures
        final (out)@ == old(out)@ + rule_json(r@),
{
    out.append("{\"name\":");
    proof {
        reveal_strlit("{\"name\":");
        assert("{\"name\":"@ =~= key_name());
    }
    append_quoted(out, &r.name);
    out.append(",\"input_dir\":");
    proof {
        reveal_strlit(",\"input_dir\":");
        assert(",\"input_dir\":"@ =~= key_input());
    }
    append_quoted(out, &r.input_dir);
    out.append(",\"output_dir\":");
    proof {
        reveal_strlit(",\"output_dir\":");
        assert(",\"output_dir\":"@ =~= key_output());
    }
    append_quoted(out, &r.output_dir);
    out.append(",\"ext\":");
    proof {
        reveal_strlit(",\"ext\":");
        assert(",\"ext\":"@ =~= key_ext());
    }
    append_quoted(out, &r.ext);
    out.append(",\"enabled\":");
    proof {
        reveal_strlit(",\"enabled\":");
        assert(",\"enabled\":"@ =~= key_enabled());
    }
    if r.enabled {
        out.append("true");
        proof {
            reveal_strlit("true");
            assert("true"@ =~= bool_text(r.enabled));
        }
    } else {
        out.append("false");
        proof {
            reveal_strlit("false");
            assert("false"@ =~= bool_text(r.enabled));
        }
    }
    out.append("}");
    proof {
        reveal_strlit("}");
        assert("}"@ =~= seq!['}']);
        assert(out@ =~= old(out)@ + rule_json(r@));
    }
}

/// Writes the whole rule sequence as one canonical document.
pub fn write_doc(rules: &Vec<Rule>) -> (out: String)
    ensures
        out@ == doc_json(crate::rule::views_of(rules@)),
{
    let ghost vs = crate::rule::views_of(rules@);
    let mut out = String::new();
    out.append("[");
    proof {
        reveal_strlit("[");
        assert("["@ =~= seq!['[']);
        assert(out@ =~= seq!['['] + rules_body(vs.take(0)));
    }
    let mut i: usize = 0;
    while i < rules.len()
        invariant
            rules@.len() == vs.len(),
            forall|k: int| 0 <= k < vs.len() ==> vs[k] == rules@[k]@,
            i <= vs.len(),
            out@ == seq!['['] + rules_body(vs.take(i as int)),
        decreases vs.len() - i,
    {
        if i > 0 {
            out.append(",");
            proof {
                reveal_strlit(",");
                assert(","@ =~= seq![',']);
            }
        }
        append_rule(&mut out, &rules[i]);
        proof {
            lemma_rules_body_push(vs.take(i as int), vs[i as int]);
            assert(vs.take(i + 1) =~= vs.take(i as int).push(vs[i as int]));
            assert(out@ =~= seq!['['] + rules_body(vs.take(i + 1)));
        }
        i = i + 1;
    }
    out.append("]");
    proof {
        reveal_strlit("]");
        assert("]"@ =~= seq![']']);
        assert(vs.take(vs.len() as int) =~= vs);
        assert(out@ =~= doc_json(vs));
    }
    out
}

// ---------------------------------------------------------------------------
// The reading grammar, as spec functions that consume from the front and
// return the value read together with the unread remainder.
// ---------------------------------------------------------------------------
/// The character a two-character escape stands for, if the second character
/// is a recognised escape letter.
pub open spec fn unesc(c: char) -> Option<char> {
    if c == '"' {
        Some('"')
    } else if c == '\\' {
        Some('\\')
    } else if c == 'n' {
        Some('\n')
    } else if c == 't' {
        Some('\t')
    } else if c == 'r' {
        Some('\r')
    } else {
        None
    }
}

/// A character that may stand for itself inside a quoted string.
pub open spec fn is_raw(c: char) -> bool {
    c != '"' && c != '\\' && c != '\n' && c != '\t' && c != '\r'
}

/// Reads a string body up to and including the closing quote; yields the
/// unescaped value and the remainder after the quote.
pub open spec fn sp_str_body(s: Seq<char>) -> Option<(Seq<char>, Seq<char>)>
    decreases s.len(),
{
    if s.len() == 0 {
        None
    } else if s[0] == '"' {
        Some((Seq::<char>::empty(), s.drop_first()))
    } else if s[0] == '\\' {
        if s.len() < 2 {
            None
        } else {
            match unesc(s[1]) {
                None => None,
                Some(c) => match sp_str_body(s.skip(2)) {
                    None => None,
                    Some(p) => Some((seq![c] + p.0, p.1)),
                },
            }
        }
    } else if is_raw(s[0]) {
        match sp_str_body(s.drop_first()) {
            None => None,
            Some(p) => Some((seq![s[0]] + p.0, p.1)),
        }
    } else {
        None
    }
}

/// Reads a quoted string value.
pub open spec fn sp_string(s: Seq<char>) -> Option<(Seq<char>, Seq<char>)> {
    if s.len() > 0 && s[0] == '"' {
        sp_str_body(s.drop_first())
    } else {
        None
    }
}

/// Whether `pre` is a prefix of `s`.
pub open spec fn is_prefix(s: Seq<char>, pre: Seq<char>) -> bool {
    pre.len() <= s.len() && s.take(pre.len() as int) == pre
}

/// Reads an exact literal; yields the remainder.
pub open spec fn sp_lit(s: Seq<char>, lit: Seq<char>) -> Option<Seq<char>> {
    if is_prefix(s, lit) {
        Some(s.skip(lit.len() as int))
    } else {
        None
    }
}

/// Reads a bare boolean.
pub open spec fn sp_bool(s: Seq<char>) -> Option<(bool, Seq<char>)> {
    if is_prefix(s, bool_text(true)) {
        Some((true, s.skip(4)))
    } else if is_prefix(s, bool_text(false)) {
        Some((false, s.skip(5)))
    } else {
        None
    }
}

/// Reads one rule record: the five keys in their fixed order with their
/// values, between braces.
pub open spec fn sp_rule(s: Seq<char>) -> Option<(RuleView, Seq<char>)> {
    match sp_lit(s, key_name()) {
        None => None,
        Some(s1) => match sp_string(s1) {
            None => None,
            Some((name, s2)) => match sp_lit(s2, key_input()) {
                None => None,
                Some(s3) => match sp_string(s3) {
                    None => None,
                    Some((input_dir, s4)) => match sp_lit(s4, key_output()) {
                        None => None,
                        Some(s5) => match sp_string(s5) {
                            None => None,
                            Some((output_dir, s6)) => match sp_lit(s6, key_ext()) {
                                None => None,
                                Some(s7) => match sp_string(s7) {
                                    None => None,
                                    Some((ext, s8)) => match sp_lit(s8, key_enabled()) {
                                        None => None,
                                        Some(s9) => match sp_bool(s9) {
                                            None => None,
                                            Some((enabled, s10)) => match sp_lit(
                                                s10,
                                                seq!['}'],
                                            ) {
                                                None => None,
                                                Some(s11) => Some(
                                                    (
                                                        RuleView {
                                                            name,
                                                            input_dir,
                                                            output_dir,
                                                            ext,
                                                            enabled,
                                                        },
                                                        s11,
                                                    ),
                                                ),
                                            },
                                        },
                                    },
                                },
                            },
                        },
                    },
                },
            },
        },
    }
}

/// Reads a comma-separated record list of at most `n` records (the fuel `n`
/// only bounds the recursion; any document of length `n` holds fewer
/// records).
pub open spec fn sp_rules(s: Seq<char>, n: nat) -> Option<(Seq<RuleView>, Seq<char>)>
    decreases n,
{
    if n == 0 {
        None
    } else {
        match sp_rule(s) {
            None => None,
            Some((r, rest)) => if rest.len() > 0 && rest[0] == ',' {
                match sp_rules(rest.drop_first(), (n - 1) as nat) {
                    None => None,
                    Some((rs, rest2)) => Some((seq![r] + rs, rest2)),
                }
            } else {
                Some((seq![r], rest))
            },
        }
    }
}

/// Reads a whole document: the bracketed record list with nothing after it.
pub open spec fn sp_doc(s: Seq<char>) -> Option<Seq<RuleView>> {
    if s.len() >= 1 && s[0] == '[' {
        let t = s.drop_first();
        if t == seq![']'] {
            Some(Seq::<RuleView>::empty())
        } else {
            match sp_rules(t, t.len()) {
                None => None,
                Some((rs, rest)) => if rest == seq![']'] {
                    Some(rs)
                } else {
                    None
                },
            }
        }
    } else {
        None
    }
}

// ---------------------------------------------------------------------------
// The reader.
// ---------------------------------------------------------------------------
/// The characters of `s`, in order, as a vector.
pub(crate) fn to_chars(s: &str) -> (v: Vec<char>)
    ensures
        v@ == s@,
{
    let n: usize = s.unicode_len();
    let mut v: Vec<char> = Vec::new();
    let mut i: usize = 0;
    while i < n
        invariant
            n == s@.len(),
            i <= n,
            v@ == s@.take(i as int),
        decreases n - i,
    {
        v.push(s.get_char(i));
        proof {
            assert(s@.take(i + 1) =~= s@.take(i as int).push(s@[i as int]));
        }
        i = i + 1;
    }
    proof {
        assert(s@.take(n as int) =~= s@);
    }
    v
}

/// Executable mirror of [`unesc`].
fn unesc_exec(c: char) -> (r: Option<char>)
    ensures
        r == unesc(c),
{
    if c == '"' {
        Some('"')
    } else if c == '\\' {
        Some('\\')
    } else if c == 'n' {
        Some('\n')
    } else if c == 't' {
        Some('\t')
    } else if c == 'r' {
        Some('\r')
    } else {
        None
    }
}

/// Reads a string body starting at `i` (just after the opening quote).
fn p_str_body(s: &Vec<char>, i: usize) -> (r: Option<(String, usize)>)
    requires
        i <= s@.len(),
    ensures
        ({
            match sp_str_body(s@.skip(i as int)) {
                None => r is None,
                Some(p) => r is Some && r.unwrap().0@ == p.0 && r.unwrap().1 <= s@.len() && s@.skip(
                    r.unwrap().1 as int,
                ) == p.1,
            }
        }),
{
    let ghost whole = sp_str_body(s@.skip(i as int));
    let mut j: usize = i;
    let mut acc = String::new();
    while j < s.len()
        invariant
            i <= j <= s@.len(),
            whole == sp_str_body(s@.skip(i as int)),
            ({
                match sp_str_body(s@.skip(j as int)) {
                    None => whole is None,
                    Some(p) => whole == Some((acc@ + p.0, p.1)),
                }
            }),
        decreases s@.len() - j,
    {
        let c = s[j];
        proof {
            assert(s@.skip(j as int)[0] == s@[j as int]);
        }
        if c == '"' {
            proof {
                assert(s@.skip(j as int).drop_first() =~= s@.skip(j + 1));
                assert(sp_str_body(s@.skip(j as int)) == Some(
                    (Seq::<char>::empty(), s@.skip(j + 1)),
                ));
                assert(acc@ + Seq::<char>::empty() =~= acc@);
            }
            return Some((acc, j + 1));
        } else if c == '\\' {
            if j + 1 >= s.len() {
                proof {
                    assert(s@.skip(j as int).len() < 2);
                }
                return None;
            }
            let e = s[j + 1];
            proof {
                assert(s@.skip(j as int)[1] == s@[j + 1]);
            }
            match unesc_exec(e) {
                None => {
                    return None;
                },
                Some(u) => {
                    push_char(&mut acc, u);
                    proof {
                        assert(s@.skip(j as int).skip(2) =~= s@.skip(j + 2));
                        match sp_str_body(s@.skip(j + 2)) {
                            None => {},
                            Some(p) => {
                                assert(acc@ =~= acc@.drop_last().push(u));
                                assert(acc@.drop_last() + (seq![u] + p.0) =~= acc@ + p.0);
                            },
                        }
                    }
                    j = j + 2;
                },
            }
        } else if c == '\n' || c == '\t' || c == '\r' {
            proof {
                assert(!is_raw(s@.skip(j as int)[0]));
            }
            return None;
        } else {
            push_char(&mut acc, c);
            proof {
                assert(s@.skip(j as int).drop_first() =~= s@.skip(j + 1));
                match sp_str_body(s@.skip(j + 1)) {
                    None => {},
                    Some(p) => {
                        assert(acc@ =~= acc@.drop_last().push(c));
                        assert(acc@.drop_last() + (seq![c] + p.0) =~= acc@ + p.0);
                    },
                }
            }
            j = j + 1;
        }
    }
    proof {
        assert(s@.skip(j as int).len() == 0);
    }
    None
}

/// Reads a quoted string value starting at `i`.
fn p_string(s: &Vec<char>, i: usize) -> (r: Option<(String, usize)>)
    requires
        i <= s@.len(),
    ensures
        ({
            match sp_string(s@.skip(i as int)) {
                None => r is None,
                Some(p) => r is Some && r.unwrap().0@ == p.0 && r.unwrap().1 <= s@.len() && s@.skip(
                    r.unwrap().1 as int,
                ) == p.1,
            }
        }),
{
    if i < s.len() {
        let c = s[i];
        proof {
            assert(s@.skip(i as int)[0] == s@[i as int]);
        }
        if c == '"' {
            proof {
                assert(s@.skip(i as int).drop_first() =~= s@.skip(i + 1));
            }
            p_str_body(s, i + 1)
        } else {
            None
        }
    } else {
        None
    }
}

/// Reads the exact literal `lit` starting at `i`.
fn p_lit(s: &Vec<char>, i: usize, lit: &Vec<char>) -> (r: Option<usize>)
    requires
        i <= s@.len(),
    ensures
        ({
            match sp_lit(s@.skip(i as int), lit@) {
                None => r is None,
                Some(rest) => r is Some && r.unwrap() <= s@.len() && s@.skip(r.unwrap() as int)
                    == rest,
            }
        }),
{
    let n: usize = s.len();
    if n - i < lit.len() {
        proof {
            assert(s@.skip(i as int).len() < lit@.len());
        }
        return None;
    }
    let mut k: usize = 0;
    while k < lit.len()
        invariant
            n == s@.len(),
            i <= n,
            lit@.len() <= n - i,
            k <= lit@.len(),
            forall|m: int| 0 <= m < k ==> s@[i + m] == lit@[m],
        decreases lit@.len() - k,
    {
        if s[i + k] != lit[k] {
            proof {
                let t = s@.skip(i as int).take(lit@.len() as int);
                if t == lit@ {
                    assert(t[k as int] == lit@[k as int]);
                    assert(t[k as int] == s@[i + k]);
                }
            }
            return None;
        }
        k = k + 1;
    }
    proof {
        assert(s@.skip(i as int).take(lit@.len() as int) =~= lit@);
        assert(s@.skip(i as int).skip(lit@.len() as int) =~= s@.skip(i + lit@.len()));
    }
    Some(i + lit.len())
}

/// Reads a bare boolean starting at `i`.
fn p_bool(s: &Vec<char>, i: usize) -> (r: Option<(bool, usize)>)
    requires
        i <= s@.len(),
    ensures
        ({
            match sp_bool(s@.skip(i as int)) {
                None => r is None,
                Some(p) => r is Some && r.unwrap().0 == p.0 && r.unwrap().1 <= s@.len() && s@.skip(
                    r.unwrap().1 as int,
                ) == p.1,
            }
        }),
{
    let t = to_chars("true");
    let f = to_chars("false");
    proof {
        reveal_strlit("true");
        reveal_strlit("false");
        assert("true"@ =~= bool_text(true));
        assert("false"@ =~= bool_text(false));
    }
    match p_lit(s, i, &t) {
        Some(j) => Some((true, j)),
        None => {
            match p_lit(s, i, &f) {
                Some(j) => Some((false, j)),
                None => None,
            }
        },
    }
}

/// Reads one rule record starting at `i`.
fn p_rule(s: &Vec<char>, i: usize) -> (r: Option<(Rule, usize)>)
    requires
        i <= s@.len(),
    ensures
        ({
            match sp_rule(s@.skip(i as int)) {
                None => r is None,
                Some(p) => r is Some && r.unwrap().0@ == p.0 && r.unwrap().1 <= s@.len() && s@.skip(
                    r.unwrap().1 as int,
                ) == p.1,
            }
        }),
{
    let lit_name = to_chars("{\"name\":");
    let lit_input = to_chars(",\"input_dir\":");
    let lit_output = to_chars(",\"output_dir\":");
    let lit_ext = to_chars(",\"ext\":");
    let lit_enabled = to_chars(",\"enabled\":");
    let lit_close = to_chars("}");
    proof {
        reveal_strlit("{\"name\":");
        reveal_strlit(",\"input_dir\":");
        reveal_strlit(",\"output_dir\":");
        reveal_strlit(",\"ext\":");
        reveal_strlit(",\"enabled\":");
        reveal_strlit("}");
        assert("{\"name\":"@ =~= key_name());
        assert(",\"input_dir\":"@ =~= key_input());
        assert(",\"output_dir\":"@ =~= key_output());
        assert(",\"ext\":"@ =~= key_ext());
        assert(",\"enabled\":"@ =~= key_enabled());
        assert("}"@ =~= seq!['}']);
    }
    let j1 = match p_lit(s, i, &lit_name) {
        None => {
            return None;
        },
        Some(j) => j,
    };
    let (name, j2) = match p_string(s, j1) {
        None => {
            return None;
        },
        Some(p) => p,
    };
    let j3 = match p_lit(s, j2, &lit_input) {
        None => {
            return None;
        },
        Some(j) => j,
    };
    let (input_dir, j4) = match p_string(s, j3) {
        None => {
            return None;
        },
        Some(p) => p,
    };
    let j5 = match p_lit(s, j4, &lit_output) {
        None => {
            return None;
        },
        Some(j) => j,
    };
    let (output_dir, j6) = match p_string(s, j5) {
        None => {
            return None;
        },
        Some(p) => p,
    };
    let j7 = match p_lit(s, j6, &lit_ext) {
        None => {
            return None;
        },
        Some(j) => j,
    };
    let (ext, j8) = match p_string(s, j7) {
        None => {
            return None;
        },
        Some(p) => p,
    };
    let j9 = match p_lit(s, j8, &lit_enabled) {
        None => {
            return None;
        },
        Some(j) => j,
    };
    let (enabled, j10) = match p_bool(s, j9) {
        None => {
            return None;
        },
        Some(p) => p,
    };
    let j11 = match p_lit(s, j10, &lit_close) {
        None => {
            return None;
        },
        Some(j) => j,
    };
    let rule = Rule { name, input_dir, output_dir, ext, enabled };
    proof {
        let p = sp_rule(s@.skip(i as int)).unwrap();
        assert(rule@ =~= p.0);
    }
    Some((rule, j11))
}

/// Reads a comma-separated record list of at most `n` records starting at
/// `i`.
fn p_rules(s: &Vec<char>, i: usize, n: usize) -> (r: Option<(Vec<Rule>, usize)>)
    requires
        i <= s@.len(),
    ensures
        ({
            match sp_rules(s@.skip(i as int), n as nat) {
                None => r is None,
                Some(p) => r is Some && crate::rule::views_of(r.unwrap().0@) == p.0 && r.unwrap().1
                    <= s@.len() && s@.skip(r.unwrap().1 as int) == p.1,
            }
        }),
    decreases n,
{
    if n == 0 {
        return None;
    }
    let (rule, j) = match p_rule(s, i) {
        None => {
            return None;
        },
        Some(p) => p,
    };
    let comma = if j < s.len() {
        let c = s[j];
        proof {
            assert(s@.skip(j as int)[0] == s@[j as int]);
        }
        c == ','
    } else {
        false
    };
    if comma {
        proof {
            assert(s@.skip(j as int).drop_first() =~= s@.skip(j + 1));
        }
        match p_rules(s, j + 1, n - 1) {
            None => None,
            Some((mut rules, j2)) => {
                rules.insert(0, rule);
                proof {
                    let p = sp_rules(s@.skip(i as int), n as nat).unwrap();
                    assert(crate::rule::views_of(rules@) =~= p.0);
                }
                Some((rules, j2))
            },
        }
    } else {
        let rules = vec![rule];
        proof {
            let p = sp_rules(s@.skip(i as int), n as nat).unwrap();
            assert(crate::rule::views_of(rules@) =~= p.0);
        }
        Some((rules, j))
    }
}

/// Reads a whole document, as [`sp_doc`] describes it: the rules it holds
/// when it is well formed, and nothing when it is malformed.
pub fn parse_doc(text: &str) -> (r: Option<Vec<Rule>>)
    ensures
        ({
            match sp_doc(text@) {
                None => r is None,
                Some(rs) => r is Some && crate::rule::views_of(r.unwrap()@) == rs,
            }
        }),
{
    let s = to_chars(text);
    if s.len() == 0 {
        return None;
    }
    let c0 = s[0];
    proof {
        assert(s@[0] == text@[0]);
    }
    if c0 != '[' {
        return None;
    }
    let ghost t = text@.drop_first();
    let is_empty_doc = s.len() == 2 && s[1] == ']';
    if is_empty_doc {
        proof {
            assert(t =~= seq![']']);
        }
        return Some(Vec::new());
    }
    proof {
        assert(t =~= text@.skip(1));
        if t == seq![']'] {
            assert(t.len() == 1);
            assert(text@.skip(1)[0] == text@[1]);
            assert(false);
        }
        assert(s@.skip(1) =~= t);
    }
    match p_rules(&s, 1, s.len() - 1) {
        None => None,
        Some((rules, j)) => {
            let last_ok = if j < s.len() {
                let c = s[j];
                proof {
                    assert(s@.skip(j as int)[0] == s@[j as int]);
                }
                c == ']' && j + 1 == s.len()
            } else {
                false
            };
            proof {
                let p = sp_rules(t, t.len() as nat).unwrap();
                if last_ok {
                    assert(s@.skip(j as int) =~= seq![']']);
                } else {
                    if p.1 == seq![']'] {
                        assert(s@.skip(j as int).len() == 1);
                        assert(s@.skip(j as int)[0] == ']');
                    }
                }
            }
            if last_ok {
                Some(rules)
            } else {
                None
            }
        },
    }
}

// ---------------------------------------------------------------------------
// The round-trip law: reading a written document gives back what was
// written.
// ---------------------------------------------------------------------------
/// A written string body followed by its closing quote reads back as the
/// original string, leaving `rest` unread.
proof fn lemma_str_body_rt(v: Seq<char>, rest: Seq<char>)
    ensures
        sp_str_body(esc_str(v) + seq!['"'] + rest) == Some((v, rest)),
    decreases v.len(),
{
    let s = esc_str(v) + seq!['"'] + rest;
    if v.len() == 0 {
        assert(s =~= seq!['"'] + rest);
        assert(s[0] == '"');
        assert(s.drop_first() =~= rest);
        assert(v =~= Seq::<char>::empty());
    } else {
        let c = v[0];
        let v2 = v.drop_first();
        let tail = esc_str(v2) + seq!['"'] + rest;
        lemma_str_body_rt(v2, rest);
        assert(s =~= esc_char(c) + tail);
        if c == '"' || c == '\\' || c == '\n' || c == '\t' || c == '\r' {
            assert(esc_char(c).len() == 2);
            assert(s[0] == '\\');
            assert(s.len() >= 2);
            assert(unesc(s[1]) == Some(c));
            assert(s.skip(2) =~= tail);
            assert(seq![c] + v2 =~= v);
        } else {
            assert(esc_char(c) =~= seq![c]);
            assert(s[0] == c);
            assert(is_raw(c));
            assert(s.drop_first() =~= tail);
            assert(seq![c] + v2 =~= v);
        }
    }
}

/// A written quoted string reads back as the original string.
proof fn lemma_string_rt(v: Seq<char>, rest: Seq<char>)
    ensures
        sp_string(quoted(v) + rest) == Some((v, rest)),
{
    let s = quoted(v) + rest;
    assert(s[0] == '"');
    assert(s.drop_first() =~= esc_str(v) + seq!['"'] + rest);
    lemma_str_body_rt(v, rest);
}

/// A literal followed by anything reads back as that literal.
proof fn lemma_lit_rt(lit: Seq<char>, rest: Seq<char>)
    ensures
        sp_lit(lit + rest, lit) == Some(rest),
{
    let s = lit + rest;
    assert(s.take(lit.len() as int) =~= lit);
    assert(s.skip(lit.len() as int) =~= rest);
}

/// A written boolean reads back as the original flag.
proof fn lemma_bool_rt(b: bool, rest: Seq<char>)
    ensures
        sp_bool(bool_text(b) + rest) == Some((b, rest)),
{
    let s = bool_text(b) + rest;
    if b {
        assert(s.take(4) =~= bool_text(true));
        assert(s.skip(4) =~= rest);
    } else {
        if is_prefix(s, bool_text(true)) {
            assert(s.take(4)[0] == s[0]);
            assert(false);
        }
        assert(s.take(5) =~= bool_text(false));
        assert(s.skip(5) =~= rest);
    }
}

/// A written rule record reads back as the original rule.
proof fn lemma_rule_rt(r: RuleView, rest: Seq<char>)
    ensures
        sp_rule(rule_json(r) + rest) == Some((r, rest)),
{
    let e10 = rest;
    let e9 = seq!['}'] + e10;
    let e8 = bool_text(r.enabled) + e9;
    let e7 = key_enabled() + e8;
    let e6 = quoted(r.ext) + e7;
    let e5 = key_ext() + e6;
    let e4b = quoted(r.output_dir) + e5;
    let e4 = key_output() + e4b;
    let e3 = quoted(r.input_dir) + e4;
    let e2 = key_input() + e3;
    let e1 = quoted(r.name) + e2;
    let s = key_name() + e1;
    assert(rule_json(r) + rest =~= s);
    lemma_lit_rt(key_name(), e1);
    lemma_string_rt(r.name, e2);
    lemma_lit_rt(key_input(), e3);
    lemma_string_rt(r.input_dir, e4);
    lemma_lit_rt(key_output(), e4b);
    lemma_string_rt(r.output_dir, e5);
    lemma_lit_rt(key_ext(), e6);
    lemma_string_rt(r.ext, e7);
    lemma_lit_rt(key_enabled(), e8);
    lemma_bool_rt(r.enabled, e9);
    lemma_lit_rt(seq!['}'], e10);
    assert(sp_rule(s) == Some(
        (
            RuleView {
                name: r.name,
                input_dir: r.input_dir,
                output_dir: r.output_dir,
                ext: r.ext,
                enabled: r.enabled,
            },
            rest,
        ),
    ));
    assert(RuleView {
        name: r.name,
        input_dir: r.input_dir,
        output_dir: r.output_dir,
        ext: r.ext,
        enabled: r.enabled,
    } =~= r);
}

/// A written record list reads back as the original rules, for any fuel at
/// least the number of rules, provided nothing unread starts with a comma.
#[verifier::rlimit(100)]
proof fn lemma_rules_rt(rs: Seq<RuleView>, rest: Seq<char>, n: nat)
    requires
        1 <= rs.len() <= n,
        rest.len() == 0 || rest[0] != ',',
    ensures
        sp_rules(rules_body(rs) + rest, n) == Some((rs, rest)),
    decreases rs.len(),
{
    let s = rules_body(rs) + rest;
    if rs.len() == 1 {
        assert(rules_body(rs) == rule_json(rs[0]));
        lemma_rule_rt(rs[0], rest);
        assert(seq![rs[0]] =~= rs);
    } else {
        let rs2 = rs.drop_first();
        let rest1 = seq![','] + (rules_body(rs2) + rest);
        assert(s =~= rule_json(rs[0]) + rest1);
        lemma_rule_rt(rs[0], rest1);
        assert(rest1[0] == ',');
        assert(rest1.drop_first() =~= rules_body(rs2) + rest);
        lemma_rules_rt(rs2, rest, (n - 1) as nat);
        assert(seq![rs[0]] + rs2 =~= rs);
    }
}

/// A non-empty record list is written at least as many characters long as it
/// has records.
proof fn lemma_rules_body_len(rs: Seq<RuleView>)
    requires
        rs.len() >= 1,
    ensures
        rules_body(rs).len() >= rs.len(),
    decreases rs.len(),
{
    if rs.len() == 1 {
        assert(rule_json(rs[0]).len() >= 1);
    } else {
        lemma_rules_body_len(rs.drop_first());
        assert(rule_json(rs[0]).len() >= 1);
    }
}

/// The round-trip law: a rule sequence written with [`doc_json`] (which is
/// exactly what [`write_doc`] emits) reads back, with [`sp_doc`] (which is
/// exactly what [`parse_doc`] computes), as the very same sequence — for
/// every sequence, including the empty one and ones whose strings hold
/// characters such as `}`, `,`, `[` and `]`.
pub proof fn lemma_doc_round_trip(rs: Seq<RuleView>)
    ensures
        sp_doc(doc_json(rs)) == Some(rs),
{
    let s = doc_json(rs);
    assert(s[0] == '[');
    let t = s.drop_first();
    assert(t =~= rules_body(rs) + seq![']']);
    if rs.len() == 0 {
        assert(rules_body(rs) =~= Seq::<char>::empty());
        assert(t =~= seq![']']);
        assert(rs =~= Seq::<RuleView>::empty());
    } else {
        lemma_rules_body_len(rs);
        assert(t.len() >= 2);
        assert(t != seq![']']) by {
            if t == seq![']'] {
                assert(t.len() == 1);
            }
        }
        lemma_rules_rt(rs, seq![']'], t.len() as nat);
        assert(t.len() >= rs.len());
    }
}

} // verus!
