//! Reading the rule source: each line, split at its commas, is a permission
//! rule (`p`) or a role assignment (`g`).

use vstd::prelude::*;
use vstd::string::is_ascii_spec_bytes;
use vstd::std_specs::iter::IteratorSpec;
use crate::identity::opt_view;
use crate::policy::{Matcher, PolicyEngine, PolicyLoadError, PolicyRule, RoleRule, safe_pattern};

verus! {

broadcast use vstd::string::group_string_axioms;

/// One line of the rule source.
pub enum Rule {
    Permission(PolicyRule),
    Grouping(RoleRule),
}

/// The characters of each field.
pub open spec fn field_views(fields: Seq<String>) -> Seq<Seq<char>> {
    fields.map_values(|f: String| f@)
}

/// The permission rule that a line's fields give, if they give one:
/// `p, subject, object, action` or `p, subject, domain, object, action`.
pub open spec fn permission_fields(fs: Seq<Seq<char>>) -> bool {
    fs.len() >= 1 && fs[0] == seq!['p'] && (fs.len() == 4 || fs.len() == 5)
}

/// The role assignment that a line's fields give, if they give one:
/// `g, member, role` or `g, member, role, domain`.
pub open spec fn grouping_fields(fs: Seq<Seq<char>>) -> bool {
    fs.len() >= 1 && fs[0] == seq!['g'] && (fs.len() == 3 || fs.len() == 4)
}

/// `r` is the rule that the fields `fs` describe.
pub open spec fn rule_matches_fields(r: Rule, fs: Seq<Seq<char>>) -> bool {
    match r {
        Rule::Permission(p) => permission_fields(fs) && p.subject@ == fs[1] && if fs.len() == 4 {
            p.domain is None && p.object@ == fs[2] && p.action@ == fs[3]
        } else {
            opt_view(p.domain) == Some(fs[2]) && p.object@ == fs[3] && p.action@ == fs[4]
        },
        Rule::Grouping(g) => grouping_fields(fs) && g.member@ == fs[1] && g.role@ == fs[2] && if fs.len()
            == 3 {
            g.domain is None
        } else {
            opt_view(g.domain) == Some(fs[3])
        },
    }
}

fn is_letter(s: &String, c: char) -> (r: bool)
    requires
        '\0' <= c <= '\u{7f}',
    ensures
        r == (s@ == seq![c]),
{
    let t = s.as_str();
    if !t.is_ascii() {
        assert(s@ != seq![c]) by {
            if s@ == seq![c] {
                assert(vstd::string::is_ascii(t));
            }
        }
        return false;
    }
    let b = t.as_bytes();
    proof {
        broadcast use is_ascii_spec_bytes;

        assert(b@ =~= Seq::new(s@.len(), |i| s@[i] as u8));
    }
    if b.len() != 1 {
        return false;
    }
    let r = b[0] == c as u8;
    assert('\0' <= s@[0] <= '\u{7f}');
    assert(r == (s@[0] == c));
    assert(r ==> s@ =~= seq![c]);
    r
}

/// Reads one line of the rule source, already split at its commas and
/// trimmed: a `p` line gives a permission rule, a `g` line a role
/// assignment, anything else is malformed.
pub fn rule_from_fields(fields: &Vec<String>) -> (r: Result<Rule, PolicyLoadError>)
    ensures
        r is Ok <==> permission_fields(field_views(fields@)) || grouping_fields(
            field_views(fields@),
        ),
        r matches Ok(rule) ==> rule_matches_fields(rule, field_views(fields@)),
        r is Err ==> r == Err::<Rule, _>(PolicyLoadError::MalformedRule),
{
    let ghost fs = field_views(fields@);
    let n = fields.len();
    if n == 0 {
        return Err(PolicyLoadError::MalformedRule);
    }
    assert(fs[0] == fields@[0]@);
    if is_letter(&fields[0], 'p') && (n == 4 || n == 5) {
        let subject = fields[1].clone();
        let (domain, object, action) = if n == 4 {
            (None, fields[2].clone(), fields[3].clone())
        } else {
            (Some(fields[2].clone()), fields[3].clone(), fields[4].clone())
        };
        let rule = Rule::Permission(PolicyRule { subject, domain, object, action });
        assert(fs[1] == fields@[1]@ && fs[2] == fields@[2]@ && fs[3] == fields@[3]@);
        assert(n == 5 ==> fs[4] == fields@[4]@);
        Ok(rule)
    } else if is_letter(&fields[0], 'g') && (n == 3 || n == 4) {
        let member = fields[1].clone();
        let role = fields[2].clone();
        let domain = if n == 3 {
            None
        } else {
            Some(fields[3].clone())
        };
        assert(fs[1] == fields@[1]@ && fs[2] == fields@[2]@);
        assert(n == 4 ==> fs[3] == fields@[3]@);
        Ok(Rule::Grouping(RoleRule { member, role, domain }))
    } else {
        assert(seq!['p'] != seq!['g']) by {
            assert(seq!['p'][0] != seq!['g'][0]);
        }
        Err(PolicyLoadError::MalformedRule)
    }
}


/// `s` cut at every `sep`: as many pieces as separators, plus one.
pub open spec fn split_at_sep(s: Seq<char>, sep: char) -> Seq<Seq<char>>
    decreases s.len(),
{
    if s.len() == 0 {
        seq![Seq::empty()]
    } else {
        let prev = split_at_sep(s.drop_last(), sep);
        if s.last() == sep {
            prev.push(Seq::empty())
        } else {
            prev.update(prev.len() - 1, prev.last().push(s.last()))
        }
    }
}

pub open spec fn is_blank(c: char) -> bool {
    c == ' ' || c == '\t' || c == '\r'
}

pub open spec fn trim_start(s: Seq<char>) -> Seq<char>
    decreases s.len(),
{
    if s.len() > 0 && is_blank(s[0]) {
        trim_start(s.drop_first())
    } else {
        s
    }
}

pub open spec fn trim_end(s: Seq<char>) -> Seq<char>
    decreases s.len(),
{
    if s.len() > 0 && is_blank(s.last()) {
        trim_end(s.drop_last())
    } else {
        s
    }
}

/// `s` without blanks (space, tab, carriage return) at either end.
pub open spec fn trim(s: Seq<char>) -> Seq<char> {
    trim_end(trim_start(s))
}

/// A line that holds no rule: blank, or a comment starting with `#`.
pub open spec fn skipped(line: Seq<char>) -> bool {
    trim(line).len() == 0 || trim(line)[0] == '#'
}

/// The trimmed comma-separated fields of a line.
pub open spec fn line_fields(line: Seq<char>) -> Seq<Seq<char>> {
    split_at_sep(line, ',').map_values(|f: Seq<char>| trim(f))
}

/// The fields of the lines that hold rules, in order.
pub open spec fn kept_fields(lines: Seq<Seq<char>>) -> Seq<Seq<Seq<char>>>
    decreases lines.len(),
{
    if lines.len() == 0 {
        Seq::empty()
    } else {
        let prev = kept_fields(lines.drop_last());
        if skipped(lines.last()) {
            prev
        } else {
            prev.push(line_fields(lines.last()))
        }
    }
}

/// The fields of each line of the rule source that holds a rule.
pub open spec fn source_fields(source: Seq<char>) -> Seq<Seq<Seq<char>>> {
    kept_fields(split_at_sep(source, '\n'))
}

/// The lines among `k` that are permission rules, in order.
pub open spec fn permission_lines(k: Seq<Seq<Seq<char>>>) -> Seq<Seq<Seq<char>>>
    decreases k.len(),
{
    if k.len() == 0 {
        Seq::empty()
    } else if permission_fields(k.last()) {
        permission_lines(k.drop_last()).push(k.last())
    } else {
        permission_lines(k.drop_last())
    }
}

/// The lines among `k` that are role assignments, in order.
pub open spec fn grouping_lines(k: Seq<Seq<Seq<char>>>) -> Seq<Seq<Seq<char>>>
    decreases k.len(),
{
    if k.len() == 0 {
        Seq::empty()
    } else if grouping_fields(k.last()) {
        grouping_lines(k.drop_last()).push(k.last())
    } else {
        grouping_lines(k.drop_last())
    }
}

/// The object field of a permission line.
pub open spec fn object_field(fs: Seq<Seq<char>>) -> Seq<char> {
    if fs.len() == 4 {
        fs[2]
    } else {
        fs[3]
    }
}

pub open spec fn well_shaped(fs: Seq<Seq<char>>) -> bool {
    permission_fields(fs) || grouping_fields(fs)
}

/// The permission rules are those of the lines `ls`, in order.
pub open spec fn policies_from(ps: Seq<PolicyRule>, ls: Seq<Seq<Seq<char>>>) -> bool {
    ps.len() == ls.len() && forall|j: int|
        0 <= j < ps.len() ==> rule_matches_fields(Rule::Permission(#[trigger] ps[j]), ls[j])
}

/// The role assignments are those of the lines `ls`, in order.
pub open spec fn groupings_from(gs: Seq<RoleRule>, ls: Seq<Seq<Seq<char>>>) -> bool {
    gs.len() == ls.len() && forall|j: int|
        0 <= j < gs.len() ==> rule_matches_fields(Rule::Grouping(#[trigger] gs[j]), ls[j])
}

proof fn lemma_split_nonempty(s: Seq<char>, sep: char)
    ensures
        split_at_sep(s, sep).len() >= 1,
    decreases s.len(),
{
    if s.len() > 0 {
        lemma_split_nonempty(s.drop_last(), sep);
    }
}

/// Relies on String::push, which appends the character to the string.
#[verifier::external_body]
fn push_char(s: &mut String, c: char)
    ensures
        final(s)@ == old(s)@.push(c),
{
    s.push(c);
}

fn chars_of(s: &str) -> (r: Vec<char>)
    ensures
        r@ == s@,
{
    let mut it = s.chars();
    let mut v: Vec<char> = Vec::new();
    loop
        invariant_except_break
            v@ + it.remaining() == s@,
        ensures
            v@ == s@,
        decreases s@.len() - v@.len(),
    {
        let ghost before = it.remaining();
        match it.next() {
            Some(c) => {
                v.push(c);
                assert(v@ + it.remaining() =~= s@) by {
                    assert(before =~= seq![c] + it.remaining());
                }
            },
            None => {
                assert(v@ =~= s@);
                break ;
            },
        }
    }
    v
}

fn string_of(v: &Vec<char>, lo: usize, hi: usize) -> (r: String)
    requires
        lo <= hi <= v@.len(),
    ensures
        r@ == v@.subrange(lo as int, hi as int),
{
    let mut r = String::new();
    let mut i = lo;
    while i < hi
        invariant
            lo <= i <= hi <= v@.len(),
            r@ == v@.subrange(lo as int, i as int),
        decreases hi - i,
    {
        push_char(&mut r, v[i]);
        assert(r@ =~= v@.subrange(lo as int, i + 1));
        i = i + 1;
    }
    r
}

pub open spec fn views(s: Seq<Vec<char>>) -> Seq<Seq<char>> {
    s.map_values(|x: Vec<char>| x@)
}

fn split_chars(v: &Vec<char>, sep: char) -> (r: Vec<Vec<char>>)
    ensures
        views(r@) == split_at_sep(v@, sep),
{
    let mut parts: Vec<Vec<char>> = Vec::new();
    let mut cur: Vec<char> = Vec::new();
    let mut i: usize = 0;
    assert(v@.subrange(0, 0) =~= Seq::<char>::empty());
    assert(views(parts@).push(cur@) =~= split_at_sep(v@.subrange(0, 0), sep));
    while i < v.len()
        invariant
            0 <= i <= v@.len(),
            views(parts@).push(cur@) == split_at_sep(v@.subrange(0, i as int), sep),
        decreases v@.len() - i,
    {
        let c = v[i];
        let ghost pre = v@.subrange(0, i as int);
        let ghost next = v@.subrange(0, i + 1);
        assert(next.drop_last() =~= pre);
        assert(next.last() == c);
        proof {
            lemma_split_nonempty(pre, sep);
        }
        if c == sep {
            let done = cur;
            parts.push(done);
            cur = Vec::new();
            assert(views(parts@).push(cur@) =~= split_at_sep(next, sep));
        } else {
            let ghost old_parts = views(parts@);
            let ghost old_cur = cur@;
            cur.push(c);
            assert(views(parts@).push(cur@) =~= split_at_sep(next, sep)) by {
                assert(split_at_sep(pre, sep) == old_parts.push(old_cur));
            }
        }
        i = i + 1;
    }
    assert(v@.subrange(0, v@.len() as int) =~= v@);
    parts.push(cur);
    assert(views(parts@) =~= split_at_sep(v@, sep));
    parts
}


fn blank(c: char) -> (r: bool)
    ensures
        r == is_blank(c),
{
    c == ' ' || c == '\t' || c == '\r'
}

fn trimmed(v: &Vec<char>) -> (r: String)
    ensures
        r@ == trim(v@),
{
    let n = v.len();
    let mut lo: usize = 0;
    assert(v@.subrange(0, n as int) =~= v@);
    while lo < n && blank(v[lo])
        invariant
            0 <= lo <= n == v@.len(),
            trim_start(v@) == trim_start(v@.subrange(lo as int, n as int)),
        decreases n - lo,
    {
        assert(v@.subrange(lo as int, n as int).drop_first() =~= v@.subrange(lo + 1, n as int));
        lo = lo + 1;
    }
    assert(trim_start(v@) == v@.subrange(lo as int, n as int));
    let mut hi: usize = n;
    while hi > lo && blank(v[hi - 1])
        invariant
            lo <= hi <= n == v@.len(),
            trim(v@) == trim_end(v@.subrange(lo as int, hi as int)),
        decreases hi - lo,
    {
        assert(v@.subrange(lo as int, hi as int).drop_last() =~= v@.subrange(lo as int, hi - 1));
        hi = hi - 1;
    }
    string_of(v, lo, hi)
}

/// Every line that holds a rule is a `p` or `g` line of a known length.
pub open spec fn all_shaped(k: Seq<Seq<Seq<char>>>) -> bool {
    forall|j: int| 0 <= j < k.len() ==> well_shaped(#[trigger] k[j])
}

/// Every permission line's object is a safe pattern.
pub open spec fn all_objects_safe(k: Seq<Seq<Seq<char>>>) -> bool {
    forall|j: int|
        0 <= j < permission_lines(k).len() ==> safe_pattern(
            object_field(#[trigger] permission_lines(k)[j]),
        )
}

proof fn lemma_kept_prefix(lines: Seq<Seq<char>>, i: int)
    requires
        0 <= i <= lines.len(),
    ensures
        kept_fields(lines.subrange(0, i)).len() <= kept_fields(lines).len(),
        forall|j: int|
            0 <= j < kept_fields(lines.subrange(0, i)).len() ==> #[trigger] kept_fields(
                lines.subrange(0, i),
            )[j] == kept_fields(lines)[j],
    decreases lines.len() - i,
{
    if i < lines.len() {
        lemma_kept_prefix(lines, i + 1);
        assert(lines.subrange(0, i + 1).drop_last() =~= lines.subrange(0, i));
    } else {
        assert(lines.subrange(0, i) =~= lines);
    }
}

/// Reads the whole rule source: one rule per line, fields separated by
/// commas and trimmed, blank lines and `#` comments skipped. The rules are
/// loaded in order, then the pattern matcher is chosen. A line of another
/// shape gives `MalformedRule`; otherwise an object that is not a safe
/// pattern gives `UnsafePattern`.
pub fn load_rules(source: &str) -> (r: Result<PolicyEngine, PolicyLoadError>)
    ensures
        r is Ok <==> all_shaped(source_fields(source@)) && all_objects_safe(source_fields(source@)),
        r == Err::<PolicyEngine, _>(PolicyLoadError::MalformedRule) <==> !all_shaped(
            source_fields(source@),
        ),
        r is Err ==> r == Err::<PolicyEngine, _>(PolicyLoadError::MalformedRule) || r == Err::<
            PolicyEngine,
            _,
        >(PolicyLoadError::UnsafePattern),
        r matches Ok(e) ==> {
            &&& e.wf()
            &&& e.matcher() == Matcher::KeyMatch2
            &&& policies_from(e.policies(), permission_lines(source_fields(source@)))
            &&& groupings_from(e.groupings(), grouping_lines(source_fields(source@)))
        },
{
    let text = chars_of(source);
    let lines = split_chars(&text, '\n');
    let ghost lv = views(lines@);
    let ghost k = source_fields(source@);
    assert(lv == split_at_sep(source@, '\n'));
    let mut engine = PolicyEngine::new(Vec::new(), Vec::new());
    let mut i: usize = 0;
    assert(lv.subrange(0, 0) =~= Seq::<Seq<char>>::empty());
    while i < lines.len()
        invariant
            0 <= i <= lines@.len() == lv.len(),
            lv == views(lines@),
            lv == split_at_sep(source@, '\n'),
            k == kept_fields(lv),
            k == source_fields(source@),
            engine.wf(),
            engine.matcher() == Matcher::Exact,
            all_shaped(kept_fields(lv.subrange(0, i as int))),
            policies_from(engine.policies(), permission_lines(kept_fields(lv.subrange(0, i as int)))),
            groupings_from(engine.groupings(), grouping_lines(kept_fields(lv.subrange(0, i as int)))),
        decreases lines@.len() - i,
    {
        let ghost pre = lv.subrange(0, i as int);
        let ghost next = lv.subrange(0, i + 1);
        assert(next.drop_last() =~= pre);
        assert(next.last() == lines@[i as int]@);
        let line = &lines[i];
        let t = trimmed(line);
        let tc = chars_of(t.as_str());
        let skip = tc.len() == 0 || tc[0] == '#';
        if !skip {
            let parts = split_chars(line, ',');
            let mut fields: Vec<String> = Vec::new();
            let mut j: usize = 0;
            while j < parts.len()
                invariant
                    0 <= j <= parts@.len(),
                    fields@.len() == j,
                    forall|t: int| 0 <= t < j ==> (#[trigger] fields@[t])@ == trim(parts@[t]@),
                decreases parts@.len() - j,
            {
                fields.push(trimmed(&parts[j]));
                j = j + 1;
            }
            let ghost fs = line_fields(line@);
            assert(field_views(fields@) =~= fs) by {
                assert(views(parts@) == split_at_sep(line@, ','));
                assert forall|t: int| 0 <= t < fields@.len() implies field_views(fields@)[t]
                    == fs[t] by {
                    assert(views(parts@)[t] == parts@[t]@);
                }
            }
            assert(kept_fields(next) == kept_fields(pre).push(fs));
            match rule_from_fields(&fields) {
                Err(e) => {
                    proof {
                        lemma_kept_prefix(lv, i + 1);
                        let last = kept_fields(pre).len() as int;
                        assert(kept_fields(next)[last] == fs);
                        assert(!well_shaped(k[last]));
                        assert(!all_shaped(k));
                    }
                    return Err(e);
                },
                Ok(rule) => {
                    let ghost e0 = engine;
                    assert(seq!['p'] != seq!['g']) by {
                        assert(seq!['p'][0] != seq!['g'][0]);
                    }
                    let _ = engine.add_rule(rule);
                    let ghost kp = kept_fields(pre);
                    let ghost kn = kept_fields(next);
                    assert(kn.drop_last() =~= kp);
                    assert(all_shaped(kn)) by {
                        assert forall|t: int| 0 <= t < kn.len() implies well_shaped(#[trigger] kn[t]) by {
                            if t < kp.len() {
                                assert(kn[t] == kp[t]);
                            }
                        }
                    }
                    assert(policies_from(engine.policies(), permission_lines(kn))) by {
                        if permission_fields(fs) {
                            assert(permission_lines(kn) == permission_lines(kp).push(fs));
                            assert forall|t: int| 0 <= t < engine.policies().len() implies rule_matches_fields(
                                Rule::Permission(#[trigger] engine.policies()[t]),
                                permission_lines(kn)[t],
                            ) by {
                                if t < e0.policies().len() {
                                    assert(engine.policies()[t] == e0.policies()[t]);
                                }
                            }
                        } else {
                            assert(permission_lines(kn) == permission_lines(kp));
                        }
                    }
                    assert(groupings_from(engine.groupings(), grouping_lines(kn))) by {
                        if grouping_fields(fs) {
                            assert(grouping_lines(kn) == grouping_lines(kp).push(fs));
                            assert forall|t: int| 0 <= t < engine.groupings().len() implies rule_matches_fields(
                                Rule::Grouping(#[trigger] engine.groupings()[t]),
                                grouping_lines(kn)[t],
                            ) by {
                                if t < e0.groupings().len() {
                                    assert(engine.groupings()[t] == e0.groupings()[t]);
                                }
                            }
                        } else {
                            assert(grouping_lines(kn) == grouping_lines(kp));
                        }
                    }
                },
            }
        } else {
            assert(tc@ == trim(line@));
            assert(kept_fields(next) == kept_fields(pre));
        }
        i = i + 1;
    }
    assert(lv.subrange(0, lv.len() as int) =~= lv);
    let ghost pl = permission_lines(k);
    let ghost ps = engine.policies();
    assert(crate::policy::all_safe(ps) <==> all_objects_safe(k)) by {
        assert forall|j: int| 0 <= j < ps.len() implies ps[j].object@ == object_field(pl[j]) by {
            assert(rule_matches_fields(Rule::Permission(ps[j]), pl[j]));
        }
        if crate::policy::all_safe(ps) {
            assert forall|j: int| 0 <= j < pl.len() implies safe_pattern(
                object_field(#[trigger] pl[j]),
            ) by {
                assert(ps[j].object@ == object_field(pl[j]));
                assert(safe_pattern(ps[j].object@));
            }
        }
        if all_objects_safe(k) {
            assert forall|j: int| 0 <= j < ps.len() implies safe_pattern(#[trigger] ps[j].object@) by {
                assert(safe_pattern(object_field(pl[j])));
            }
        }
    }
    match engine.set_matcher(Matcher::KeyMatch2) {
        Ok(()) => Ok(engine),
        Err(e) => Err(e),
    }
}

} // verus!
