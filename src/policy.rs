use vstd::prelude::*;
use vstd::string::is_ascii_spec_bytes;
use crate::identity::opt_view;
use crate::rule_source::Rule;

verus! {

/// How a request's object is compared with a rule's object.
#[derive(PartialEq, Eq, Structural, Clone, Copy, Debug)]
pub enum Matcher {
    /// The two objects are the same string.
    Exact,
    /// The rule's object is a path pattern in casbin's `keyMatch2` form:
    /// `/*` stands for any rest of the path and `:name` for one segment.
    KeyMatch2,
}

/// What casbin's `key_match2` answers for a request object and a rule pattern.
pub uninterp spec fn key_match2_of(key: Seq<char>, pattern: Seq<char>) -> bool;

/// Characters that a path pattern may hold anywhere.
pub open spec fn plain_pattern_char(c: char) -> bool {
    ('a' <= c <= 'z') || ('A' <= c <= 'Z') || ('0' <= c <= '9') || c == '/' || c == ':'
        || c == '-' || c == '_' || c == '.' || c == '~' || c == '%' || c == '@' || c == '='
        || c == '&' || c == ',' || c == ';'
}

/// The longest pattern handed to the pattern matcher. The regular
/// expression built from a pattern must stay within the regex crate's size
/// limit on compiled programs, and each character adds to that size.
pub const MAX_PATTERN_LEN: usize = 4096;

/// A pattern that casbin turns into a valid regular expression of bounded
/// size: at most `MAX_PATTERN_LEN` plain characters, and `*` only right
/// after a `/`.
pub open spec fn safe_pattern(p: Seq<char>) -> bool {
    &&& p.len() <= MAX_PATTERN_LEN
    &&& forall|i: int|
        0 <= i < p.len() ==> plain_pattern_char(#[trigger] p[i]) || (p[i] == '*' && i > 0 && p[i
            - 1] == '/')
}

/// Relies on casbin::function_map::key_match2, which rewrites the pattern
/// into an anchored regular expression, compiles it and panics where that
/// fails. A safe pattern gives a well-formed expression, short enough to
/// stay within the regex crate's size limit.
#[verifier::external_body]
fn key_match2(key: &str, pattern: &str) -> (r: bool)
    requires
        safe_pattern(pattern@),
    ensures
        r == key_match2_of(key@, pattern@),
{
    casbin::function_map::key_match2(key, pattern)
}

fn plain_pattern_byte(b: u8) -> (r: bool)
    ensures
        r == plain_pattern_char(b as char),
{
    ('a' as u8 <= b && b <= 'z' as u8) || ('A' as u8 <= b && b <= 'Z' as u8) || ('0' as u8 <= b
        && b <= '9' as u8) || b == '/' as u8 || b == ':' as u8 || b == '-' as u8 || b == '_' as u8
        || b == '.' as u8 || b == '~' as u8 || b == '%' as u8 || b == '@' as u8 || b == '=' as u8
        || b == '&' as u8 || b == ',' as u8 || b == ';' as u8
}

/// Tells whether a pattern is safe to hand to the pattern matcher.
pub fn is_safe_pattern(p: &String) -> (r: bool)
    ensures
        r == safe_pattern(p@),
{
    let s = p.as_str();
    if !s.is_ascii() {
        assert(!safe_pattern(p@)) by {
            let i = choose|i: int| 0 <= i < p@.len() && !('\0' <= #[trigger] p@[i] <= '\u{7f}');
            assert(!plain_pattern_char(p@[i]));
        }
        return false;
    }
    let b = s.as_bytes();
    proof {
        broadcast use is_ascii_spec_bytes;
        assert(b@ =~= Seq::new(p@.len(), |i| p@[i] as u8));
    }
    let n = b.len();
    if n > MAX_PATTERN_LEN {
        return false;
    }
    let mut i: usize = 0;
    while i < n
        invariant
            n == b@.len() == p@.len(),
            n <= MAX_PATTERN_LEN,
            b@ =~= Seq::new(p@.len(), |i| p@[i] as u8),
            vstd::string::is_ascii(s),
            s@ == p@,
            0 <= i <= n,
            forall|j: int|
                0 <= j < i ==> plain_pattern_char(#[trigger] p@[j]) || (p@[j] == '*' && j > 0
                    && p@[j - 1] == '/'),
        decreases n - i,
    {
        let c = b[i];
        assert('\0' <= p@[i as int] <= '\u{7f}');
        assert(c as char == p@[i as int]);
        proof {
            if i > 0 {
                assert('\0' <= p@[i - 1] <= '\u{7f}');
                assert(b[i - 1] as char == p@[i - 1]);
            }
        }
        let ok = plain_pattern_byte(c) || (c == '*' as u8 && i > 0 && b[i - 1] == '/' as u8);
        if !ok {
            return false;
        }
        i = i + 1;
    }
    true
}


/// A permission rule (`p`): the subject or role, its optional domain, the
/// object or object pattern, and the action.
#[derive(Clone)]
pub struct PolicyRule {
    pub subject: String,
    pub domain: Option<String>,
    pub object: String,
    pub action: String,
}

/// A role assignment (`g`): `member` holds `role`, in `domain` if one is given.
#[derive(Clone)]
pub struct RoleRule {
    pub member: String,
    pub role: String,
    pub domain: Option<String>,
}

/// A rule scoped to a domain applies only to requests of that domain; an
/// unscoped rule applies to every request.
pub open spec fn in_scope(rule_domain: Option<Seq<char>>, domain: Option<Seq<char>>) -> bool {
    rule_domain is None || rule_domain == domain
}

/// Role assignment `i` leads from `from` to `to` for a request of `domain`.
pub open spec fn role_edge(
    g: Seq<RoleRule>,
    domain: Option<Seq<char>>,
    i: int,
    from: Seq<char>,
    to: Seq<char>,
) -> bool {
    0 <= i < g.len() && in_scope(opt_view(g[i].domain), domain) && g[i].member@ == from
        && g[i].role@ == to
}

/// `name` is `subject` itself or a role reached from it through at most `n`
/// role assignments.
pub open spec fn reaches(
    g: Seq<RoleRule>,
    domain: Option<Seq<char>>,
    subject: Seq<char>,
    name: Seq<char>,
    n: nat,
) -> bool
    decreases n,
{
    if n == 0 {
        name == subject
    } else {
        reaches(g, domain, subject, name, (n - 1) as nat) || exists|i: int, m: Seq<char>|
            #[trigger] role_edge(g, domain, i, m, name) && reaches(
                g,
                domain,
                subject,
                m,
                (n - 1) as nat,
            )
    }
}

/// `name` is `subject` or one of its roles, directly or transitively. As
/// many steps as there are assignments reach every role that any number of
/// steps reaches (`roles::lemma_reach_saturates`).
pub open spec fn has_role(
    g: Seq<RoleRule>,
    domain: Option<Seq<char>>,
    subject: Seq<char>,
    name: Seq<char>,
) -> bool {
    reaches(g, domain, subject, name, g.len())
}

/// Some entry of `v` has the characters `s`.
pub open spec fn holds(v: Seq<String>, s: Seq<char>) -> bool {
    exists|j: int| 0 <= j < v.len() && (#[trigger] v[j])@ == s
}

fn contains(v: &Vec<String>, s: &String) -> (r: bool)
    ensures
        r == holds(v@, s@),
{
    let mut j: usize = 0;
    while j < v.len()
        invariant
            0 <= j <= v@.len(),
            forall|k: int| 0 <= k < j ==> (#[trigger] v@[k])@ != s@,
        decreases v@.len() - j,
    {
        if v[j] == *s {
            return true;
        }
        j = j + 1;
    }
    false
}

fn domain_in_scope(rule_domain: &Option<String>, domain: &Option<String>) -> (r: bool)
    ensures
        r == in_scope(opt_view(*rule_domain), opt_view(*domain)),
{
    match rule_domain {
        None => true,
        Some(d) => match domain {
            Some(e) => *d == *e,
            None => false,
        },
    }
}

/// The subject and every role it holds for a request of `domain`.
pub fn roles_of(g: &Vec<RoleRule>, subject: &String, domain: &Option<String>) -> (r: Vec<String>)
    ensures
        forall|x: Seq<char>| holds(r@, x) <==> has_role(g@, opt_view(*domain), subject@, x),
{
    let ghost dom = opt_view(*domain);
    let mut known: Vec<String> = Vec::new();
    known.push(subject.clone());
    assert(known@[0]@ == subject@);
    assert forall|x: Seq<char>| holds(known@, x) <==> reaches(g@, dom, subject@, x, 0) by {
        if x == subject@ {
            assert(known@[0]@ == x);
        }
    }
    let mut k: usize = 0;
    while k < g.len()
        invariant
            0 <= k <= g@.len(),
            dom == opt_view(*domain),
            forall|x: Seq<char>| holds(known@, x) <==> reaches(g@, dom, subject@, x, k as nat),
        decreases g@.len() - k,
    {
        let mut next: Vec<String> = Vec::new();
        let mut j: usize = 0;
        while j < known.len()
            invariant
                0 <= j <= known@.len(),
                dom == opt_view(*domain),
                forall|x: Seq<char>| holds(known@, x) <==> reaches(g@, dom, subject@, x, k as nat),
                next@.len() == j,
                forall|t: int| 0 <= t < j ==> (#[trigger] next@[t])@ == known@[t]@,
            decreases known@.len() - j,
        {
            next.push(known[j].clone());
            j = j + 1;
        }
        assert forall|x: Seq<char>| holds(next@, x) <==> holds(known@, x) by {
            if holds(known@, x) {
                let t = choose|t: int| 0 <= t < known@.len() && (#[trigger] known@[t])@ == x;
                assert(next@[t]@ == x);
            }
        }
        let mut i: usize = 0;
        while i < g.len()
            invariant
                0 <= i <= g@.len(),
                0 <= k < g@.len(),
                dom == opt_view(*domain),
                forall|x: Seq<char>| holds(known@, x) <==> reaches(g@, dom, subject@, x, k as nat),
                forall|x: Seq<char>|
                    holds(next@, x) <==> (holds(known@, x) || exists|e: int, m: Seq<char>|
                        0 <= e < i && #[trigger] role_edge(g@, dom, e, m, x) && holds(known@, m)),
            decreases g@.len() - i,
        {
            let edge = &g[i];
            let scoped = domain_in_scope(&edge.domain, domain);
            let from_known = contains(&known, &edge.member);
            let fresh = !contains(&next, &edge.role);
            assert(scoped == in_scope(opt_view(g@[i as int].domain), dom));
            if scoped && from_known && fresh {
                let ghost before = next@;
                next.push(edge.role.clone());
                assert(next@.len() == before.len() + 1);
                assert(next@[before.len() as int] == g@[i as int].role);
                assert(forall|t: int| 0 <= t < before.len() ==> next@[t] == before[t]);
                assert forall|x: Seq<char>|
                    holds(next@, x) <==> (holds(known@, x) || exists|e: int, m: Seq<char>|
                        0 <= e < i + 1 && #[trigger] role_edge(g@, dom, e, m, x) && holds(
                            known@,
                            m,
                        )) by {
                    if holds(next@, x) && !holds(before, x) {
                        let t = choose|t: int| 0 <= t < next@.len() && (#[trigger] next@[t])@ == x;
                        if t < before.len() {
                            assert(before[t] == next@[t]);
                        } else {
                            assert(x == g@[i as int].role@);
                            assert(role_edge(g@, dom, i as int, g@[i as int].member@, x));
                        }
                    }
                    if holds(before, x) {
                        let t = choose|t: int| 0 <= t < before.len() && (#[trigger] before[t])@ == x;
                        assert(next@[t] == before[t]);
                    }
                    if x == g@[i as int].role@ {
                        assert(next@[before.len() as int]@ == x);
                    }
                }
            } else {
                assert forall|x: Seq<char>|
                    holds(next@, x) <==> (holds(known@, x) || exists|e: int, m: Seq<char>|
                        0 <= e < i + 1 && #[trigger] role_edge(g@, dom, e, m, x) && holds(
                            known@,
                            m,
                        )) by {
                    if exists|e: int, m: Seq<char>|
                        0 <= e < i + 1 && #[trigger] role_edge(g@, dom, e, m, x) && holds(known@, m) {
                        let (e, m) = choose|e: int, m: Seq<char>|
                            0 <= e < i + 1 && #[trigger] role_edge(g@, dom, e, m, x) && holds(
                                known@,
                                m,
                            );
                        if e == i {
                            assert(m == g@[i as int].member@);
                            assert(x == g@[i as int].role@);
                            assert(in_scope(opt_view(g@[i as int].domain), dom));
                            assert(holds(next@, x));
                        }
                    }
                }
            }
            i = i + 1;
        }
        assert forall|x: Seq<char>|
            holds(next@, x) <==> reaches(g@, dom, subject@, x, (k + 1) as nat) by {
            if exists|e: int, m: Seq<char>| #[trigger] role_edge(g@, dom, e, m, x) && reaches(
                g@,
                dom,
                subject@,
                m,
                k as nat,
            ) {
                let (e, m) = choose|e: int, m: Seq<char>| #[trigger] role_edge(g@, dom, e, m, x)
                    && reaches(g@, dom, subject@, m, k as nat);
                assert(holds(known@, m));
            }
        }
        known = next;
        k = k + 1;
    }
    known
}


/// Why a policy could not be set up.
#[derive(PartialEq, Eq, Structural, Clone, Copy, Debug)]
pub enum PolicyLoadError {
    /// A rule's object cannot serve as a pattern for the pattern matcher.
    UnsafePattern,
    /// A line of the rule source is neither a `p` nor a `g` rule of a known
    /// number of fields.
    MalformedRule,
}

/// How the matcher compares a request's object with a rule's object.
pub open spec fn object_matches(m: Matcher, object: Seq<char>, pattern: Seq<char>) -> bool {
    match m {
        Matcher::Exact => object == pattern,
        Matcher::KeyMatch2 => key_match2_of(object, pattern),
    }
}

/// Permission rule `p` allows the request (`subject`, `domain`, `object`, `action`).
pub open spec fn rule_permits(
    p: PolicyRule,
    g: Seq<RoleRule>,
    m: Matcher,
    subject: Seq<char>,
    domain: Option<Seq<char>>,
    object: Seq<char>,
    action: Seq<char>,
) -> bool {
    &&& has_role(g, domain, subject, p.subject@)
    &&& in_scope(opt_view(p.domain), domain)
    &&& object_matches(m, object, p.object@)
    &&& p.action@ == action
}

/// Every rule object is a safe pattern.
pub open spec fn all_safe(ps: Seq<PolicyRule>) -> bool {
    forall|i: int| 0 <= i < ps.len() ==> safe_pattern(#[trigger] ps[i].object@)
}

fn all_patterns_safe(ps: &Vec<PolicyRule>) -> (r: bool)
    ensures
        r == all_safe(ps@),
{
    let mut i: usize = 0;
    while i < ps.len()
        invariant
            0 <= i <= ps@.len(),
            forall|j: int| 0 <= j < i ==> safe_pattern(#[trigger] ps@[j].object@),
        decreases ps@.len() - i,
    {
        if !is_safe_pattern(&ps[i].object) {
            return false;
        }
        i = i + 1;
    }
    true
}

/// The policy decision point: permission rules, role assignments and the
/// object matcher. A request is allowed when some permission rule allows it,
/// and denied otherwise.
#[derive(Clone)]
pub struct PolicyEngine {
    policies: Vec<PolicyRule>,
    groupings: Vec<RoleRule>,
    matcher: Matcher,
}

impl PolicyEngine {
    pub closed spec fn policies(&self) -> Seq<PolicyRule> {
        self.policies@
    }

    pub closed spec fn groupings(&self) -> Seq<RoleRule> {
        self.groupings@
    }

    pub closed spec fn matcher(&self) -> Matcher {
        self.matcher
    }

    /// Under the pattern matcher every rule object is a safe pattern.
    pub open spec fn wf(&self) -> bool {
        self.matcher() == Matcher::KeyMatch2 ==> all_safe(self.policies())
    }

    /// The verdict on a request under the current rules.
    pub open spec fn permits(
        &self,
        subject: Seq<char>,
        domain: Option<Seq<char>>,
        object: Seq<char>,
        action: Seq<char>,
    ) -> bool {
        exists|i: int|
            0 <= i < self.policies().len() && rule_permits(
                #[trigger] self.policies()[i],
                self.groupings(),
                self.matcher(),
                subject,
                domain,
                object,
                action,
            )
    }

    /// An engine over the given rules that compares objects exactly.
    pub fn new(policies: Vec<PolicyRule>, groupings: Vec<RoleRule>) -> (r: PolicyEngine)
        ensures
            r.wf(),
            r.policies() == policies@,
            r.groupings() == groupings@,
            r.matcher() == Matcher::Exact,
    {
        PolicyEngine { policies, groupings, matcher: Matcher::Exact }
    }

    /// Chooses how objects are compared. Meant for start-up, before any
    /// request is served. The pattern matcher is refused while a rule object
    /// is not a safe pattern, and nothing changes then. The matcher applies to
    /// objects only: role names in assignments are always compared exactly,
    /// so role expansion is the same under either matcher.
    pub fn set_matcher(&mut self, m: Matcher) -> (r: Result<(), PolicyLoadError>)
        requires
            old(self).wf(),
        ensures
            final(self).wf(),
            final(self).policies() == old(self).policies(),
            final(self).groupings() == old(self).groupings(),
            r is Ok <==> (m == Matcher::Exact || all_safe(old(self).policies())),
            r is Ok ==> final(self).matcher() == m,
            r is Err ==> final(self).matcher() == old(self).matcher() && r == Err::<(), _>(
                PolicyLoadError::UnsafePattern,
            ),
    {
        if m == Matcher::KeyMatch2 && !all_patterns_safe(&self.policies) {
            return Err(PolicyLoadError::UnsafePattern);
        }
        self.matcher = m;
        Ok(())
    }

    /// Adds a permission rule; under the pattern matcher its object must be a
    /// safe pattern, else nothing changes.
    pub fn add_policy(&mut self, p: PolicyRule) -> (r: Result<(), PolicyLoadError>)
        requires
            old(self).wf(),
        ensures
            final(self).wf(),
            final(self).groupings() == old(self).groupings(),
            final(self).matcher() == old(self).matcher(),
            r is Ok <==> (old(self).matcher() == Matcher::Exact || safe_pattern(p.object@)),
            r is Ok ==> final(self).policies() == old(self).policies().push(p),
            r is Err ==> final(self).policies() == old(self).policies() && r == Err::<(), _>(
                PolicyLoadError::UnsafePattern,
            ),
    {
        if self.matcher == Matcher::KeyMatch2 && !is_safe_pattern(&p.object) {
            return Err(PolicyLoadError::UnsafePattern);
        }
        self.policies.push(p);
        proof {
            assert forall|i: int| 0 <= i < self.policies@.len() && self.matcher
                == Matcher::KeyMatch2 implies safe_pattern(#[trigger] self.policies@[i].object@) by {
                if i < self.policies@.len() - 1 {
                    assert(self.policies@[i] == old(self).policies@[i]);
                }
            }
        }
        Ok(())
    }

    /// Adds a rule read from the rule source.
    pub fn add_rule(&mut self, rule: Rule) -> (r: Result<(), PolicyLoadError>)
        requires
            old(self).wf(),
        ensures
            final(self).wf(),
            final(self).matcher() == old(self).matcher(),
            match rule {
                Rule::Permission(p) => {
                    &&& final(self).groupings() == old(self).groupings()
                    &&& r is Ok <==> (old(self).matcher() == Matcher::Exact || safe_pattern(
                        p.object@,
                    ))
                    &&& r is Ok ==> final(self).policies() == old(self).policies().push(p)
                    &&& r is Err ==> final(self).policies() == old(self).policies() && r
                        == Err::<(), _>(PolicyLoadError::UnsafePattern)
                },
                Rule::Grouping(g) => {
                    &&& r is Ok
                    &&& final(self).policies() == old(self).policies()
                    &&& final(self).groupings() == old(self).groupings().push(g)
                },
            },
    {
        match rule {
            Rule::Permission(p) => self.add_policy(p),
            Rule::Grouping(g) => {
                self.add_grouping(g);
                Ok(())
            },
        }
    }

    /// Adds a role assignment.
    pub fn add_grouping(&mut self, g: RoleRule)
        requires
            old(self).wf(),
        ensures
            final(self).wf(),
            final(self).policies() == old(self).policies(),
            final(self).groupings() == old(self).groupings().push(g),
            final(self).matcher() == old(self).matcher(),
    {
        self.groupings.push(g);
    }

    fn object_match(&self, object: &String, pattern: &String) -> (r: bool)
        requires
            self.matcher() == Matcher::KeyMatch2 ==> safe_pattern(pattern@),
        ensures
            r == object_matches(self.matcher(), object@, pattern@),
    {
        match self.matcher {
            Matcher::Exact => *object == *pattern,
            Matcher::KeyMatch2 => key_match2(object.as_str(), pattern.as_str()),
        }
    }

    /// Decides a request: `true` exactly when some permission rule allows it.
    /// No matching rule is a denial, not an error.
    pub fn enforce(
        &self,
        subject: &String,
        domain: &Option<String>,
        object: &String,
        action: &String,
    ) -> (r: bool)
        requires
            self.wf(),
        ensures
            r == self.permits(subject@, opt_view(*domain), object@, action@),
    {
        let roles = roles_of(&self.groupings, subject, domain);
        let mut i: usize = 0;
        while i < self.policies.len()
            invariant
                self.wf(),
                0 <= i <= self.policies@.len(),
                forall|x: Seq<char>|
                    holds(roles@, x) <==> has_role(self.groupings@, opt_view(*domain), subject@, x),
                forall|j: int|
                    0 <= j < i ==> !rule_permits(
                        #[trigger] self.policies@[j],
                        self.groupings@,
                        self.matcher,
                        subject@,
                        opt_view(*domain),
                        object@,
                        action@,
                    ),
            decreases self.policies@.len() - i,
        {
            let p = &self.policies[i];
            proof {
                if self.matcher == Matcher::KeyMatch2 {
                    assert(safe_pattern(self.policies@[i as int].object@));
                }
            }
            let ok = contains(&roles, &p.subject) && domain_in_scope(&p.domain, domain)
                && self.object_match(object, &p.object) && p.action == *action;
            if ok {
                assert(self.policies()[i as int] == self.policies@[i as int]);
                assert(rule_permits(
                    self.policies()[i as int],
                    self.groupings(),
                    self.matcher(),
                    subject@,
                    opt_view(*domain),
                    object@,
                    action@,
                ));
                return true;
            }
            i = i + 1;
        }
        false
    }
}


/// A role reached within `n` steps is still reached within any larger number.
pub proof fn lemma_reaches_monotone(
    g: Seq<RoleRule>,
    domain: Option<Seq<char>>,
    subject: Seq<char>,
    name: Seq<char>,
    n: nat,
    k: nat,
)
    requires
        reaches(g, domain, subject, name, n),
        n <= k,
    ensures
        reaches(g, domain, subject, name, k),
    decreases k - n,
{
    if n < k {
        lemma_reaches_monotone(g, domain, subject, name, n, (k - 1) as nat);
    }
}

/// Role chains compose: when `a` is reached from `subject` within `n` steps
/// and `b` from `a` within `m`, then `b` is reached from `subject` within
/// `n + m`.
pub proof fn lemma_role_chain(
    g: Seq<RoleRule>,
    domain: Option<Seq<char>>,
    subject: Seq<char>,
    a: Seq<char>,
    b: Seq<char>,
    n: nat,
    m: nat,
)
    requires
        reaches(g, domain, subject, a, n),
        reaches(g, domain, a, b, m),
    ensures
        reaches(g, domain, subject, b, n + m),
    decreases m,
{
    if m > 0 {
        if reaches(g, domain, a, b, (m - 1) as nat) {
            lemma_role_chain(g, domain, subject, a, b, n, (m - 1) as nat);
        } else {
            let (e, mid) = choose|e: int, mid: Seq<char>|
                #[trigger] role_edge(g, domain, e, mid, b) && reaches(
                    g,
                    domain,
                    a,
                    mid,
                    (m - 1) as nat,
                );
            lemma_role_chain(g, domain, subject, a, mid, n, (m - 1) as nat);
            assert(role_edge(g, domain, e, mid, b));
        }
    }
}

/// The verdict depends on the rules, the role assignments and the matcher
/// alone: under an unchanged rule set a repeated request gets the same verdict.
pub proof fn lemma_verdict_deterministic(
    e1: PolicyEngine,
    e2: PolicyEngine,
    subject: Seq<char>,
    domain: Option<Seq<char>>,
    object: Seq<char>,
    action: Seq<char>,
)
    requires
        e1.policies() == e2.policies(),
        e1.groupings() == e2.groupings(),
        e1.matcher() == e2.matcher(),
    ensures
        e1.permits(subject, domain, object, action) == e2.permits(subject, domain, object, action),
{
}

} // verus!
