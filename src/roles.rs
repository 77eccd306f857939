//! Why a bounded number of steps finds every role: the roles reached within
//! `k` steps grow with `k` until they stop changing, and they can grow only
//! as often as there are distinct roles.

use vstd::prelude::*;
use vstd::seq_lib::seq_to_set_is_finite;
use vstd::set_lib::lemma_len_subset;
use crate::policy::{has_role, lemma_reaches_monotone, lemma_role_chain, reaches, role_edge, RoleRule};

verus! {

/// The names reached from `subject` within `k` steps.
pub open spec fn reach_set(
    g: Seq<RoleRule>,
    domain: Option<Seq<char>>,
    subject: Seq<char>,
    k: nat,
) -> Set<Seq<char>> {
    Set::new(|x: Seq<char>| reaches(g, domain, subject, x, k))
}

/// The subject and every role that some assignment names.
pub open spec fn role_names(g: Seq<RoleRule>, subject: Seq<char>) -> Set<Seq<char>> {
    g.map_values(|r: RoleRule| r.role@).to_set().insert(subject)
}

proof fn lemma_names_bounded(g: Seq<RoleRule>, subject: Seq<char>)
    ensures
        role_names(g, subject).finite(),
        role_names(g, subject).len() <= g.len() + 1,
{
    broadcast use seq_to_set_is_finite;

    let q = g.map_values(|r: RoleRule| r.role@);
    q.lemma_cardinality_of_set();
    vstd::set::axiom_set_insert_len(q.to_set(), subject);
}

proof fn lemma_reached_are_names(
    g: Seq<RoleRule>,
    domain: Option<Seq<char>>,
    subject: Seq<char>,
    k: nat,
)
    ensures
        reach_set(g, domain, subject, k).subset_of(role_names(g, subject)),
    decreases k,
{
    let q = g.map_values(|r: RoleRule| r.role@);
    assert forall|x: Seq<char>| reach_set(g, domain, subject, k).contains(x) implies role_names(
        g,
        subject,
    ).contains(x) by {
        if k > 0 {
            if reaches(g, domain, subject, x, (k - 1) as nat) {
                lemma_reached_are_names(g, domain, subject, (k - 1) as nat);
                assert(reach_set(g, domain, subject, (k - 1) as nat).contains(x));
            } else {
                let (e, m) = choose|e: int, m: Seq<char>|
                    #[trigger] role_edge(g, domain, e, m, x) && reaches(
                        g,
                        domain,
                        subject,
                        m,
                        (k - 1) as nat,
                    );
                assert(q[e] == x);
                assert(q.contains(x));
            }
        }
    }
}

proof fn lemma_fixpoint_stays(
    g: Seq<RoleRule>,
    domain: Option<Seq<char>>,
    subject: Seq<char>,
    k: nat,
    j: nat,
)
    requires
        reach_set(g, domain, subject, k + 1) == reach_set(g, domain, subject, k),
        k <= j,
    ensures
        reach_set(g, domain, subject, j) == reach_set(g, domain, subject, k),
    decreases j - k,
{
    if j > k {
        lemma_fixpoint_stays(g, domain, subject, k, (j - 1) as nat);
        assert forall|m: Seq<char>|
            reaches(g, domain, subject, m, (j - 1) as nat) == reaches(
                g,
                domain,
                subject,
                m,
                k,
            ) by {
            assert(reach_set(g, domain, subject, (j - 1) as nat).contains(m) == reach_set(
                g,
                domain,
                subject,
                k,
            ).contains(m));
        }
        assert forall|x: Seq<char>|
            reaches(g, domain, subject, x, j) == reaches(g, domain, subject, x, k + 1) by {
            let jp = (j - 1) as nat;
            if reaches(g, domain, subject, x, j) && !reaches(g, domain, subject, x, jp) {
                let (e, m) = choose|e: int, m: Seq<char>|
                    #[trigger] role_edge(g, domain, e, m, x) && reaches(g, domain, subject, m, jp);
                assert(reaches(g, domain, subject, m, k));
                assert(role_edge(g, domain, e, m, x));
            }
            if reaches(g, domain, subject, x, k + 1) && !reaches(g, domain, subject, x, k) {
                let (e, m) = choose|e: int, m: Seq<char>|
                    #[trigger] role_edge(g, domain, e, m, x) && reaches(g, domain, subject, m, k);
                assert(reaches(g, domain, subject, m, jp));
                assert(role_edge(g, domain, e, m, x));
            }
            if reaches(g, domain, subject, x, jp) {
                assert(reaches(g, domain, subject, x, k));
            }
            if reaches(g, domain, subject, x, k) {
                assert(reaches(g, domain, subject, x, jp));
            }
            assert(reach_set(g, domain, subject, k + 1).contains(x) == reach_set(
                g,
                domain,
                subject,
                k,
            ).contains(x));
        }
        assert(reach_set(g, domain, subject, j) =~= reach_set(g, domain, subject, k + 1));
    }
}

proof fn lemma_growth(g: Seq<RoleRule>, domain: Option<Seq<char>>, subject: Seq<char>, n: nat)
    requires
        forall|k: nat|
            k < n ==> #[trigger] reach_set(g, domain, subject, k + 1) != reach_set(
                g,
                domain,
                subject,
                k,
            ),
    ensures
        reach_set(g, domain, subject, n).finite(),
        reach_set(g, domain, subject, n).len() >= n + 1,
    decreases n,
{
    let r = reach_set(g, domain, subject, n);
    lemma_reached_are_names(g, domain, subject, n);
    lemma_names_bounded(g, subject);
    lemma_len_subset(r, role_names(g, subject));
    if n == 0 {
        assert(r =~= set![subject]);
        assert(set![subject].len() == 1) by {
            broadcast use vstd::set::group_set_axioms;

        }
    } else {
        let p = reach_set(g, domain, subject, (n - 1) as nat);
        lemma_growth(g, domain, subject, (n - 1) as nat);
        assert(reach_set(g, domain, subject, ((n - 1) as nat + 1) as nat) != p);
        assert(p.subset_of(r));
        assert(exists|x: Seq<char>| r.contains(x) && !p.contains(x)) by {
            if forall|x: Seq<char>| r.contains(x) ==> p.contains(x) {
                assert(p =~= r);
            }
        }
        let x = choose|x: Seq<char>| r.contains(x) && !p.contains(x);
        assert(p.subset_of(r.remove(x)));
        vstd::set::axiom_set_remove_len(r, x);
        lemma_len_subset(p, r.remove(x));
    }
}

/// Whatever a subject reaches through any number of role assignments it
/// reaches within as many steps as there are assignments: `has_role` is the
/// full transitive closure.
pub proof fn lemma_reach_saturates(
    g: Seq<RoleRule>,
    domain: Option<Seq<char>>,
    subject: Seq<char>,
    name: Seq<char>,
    n: nat,
)
    requires
        reaches(g, domain, subject, name, n),
    ensures
        has_role(g, domain, subject, name),
{
    if n <= g.len() {
        lemma_reaches_monotone(g, domain, subject, name, n, g.len());
    } else if forall|k: nat|
        k < g.len() + 1 ==> #[trigger] reach_set(g, domain, subject, k + 1) != reach_set(
            g,
            domain,
            subject,
            k,
        ) {
        lemma_growth(g, domain, subject, g.len() + 1);
        lemma_reached_are_names(g, domain, subject, g.len() + 1);
        lemma_names_bounded(g, subject);
        lemma_len_subset(reach_set(g, domain, subject, g.len() + 1), role_names(g, subject));
    } else {
        let k = choose|k: nat|
            k < g.len() + 1 && #[trigger] reach_set(g, domain, subject, k + 1) == reach_set(
                g,
                domain,
                subject,
                k,
            );
        lemma_fixpoint_stays(g, domain, subject, k, n);
        assert(reach_set(g, domain, subject, n).contains(name));
        assert(reaches(g, domain, subject, name, k));
        lemma_reaches_monotone(g, domain, subject, name, k, g.len());
    }
}

/// Roles are transitive: a role of a role of a subject is a role of the
/// subject.
pub proof fn lemma_role_transitive(
    g: Seq<RoleRule>,
    domain: Option<Seq<char>>,
    subject: Seq<char>,
    a: Seq<char>,
    b: Seq<char>,
)
    requires
        has_role(g, domain, subject, a),
        has_role(g, domain, a, b),
    ensures
        has_role(g, domain, subject, b),
{
    lemma_role_chain(g, domain, subject, a, b, g.len(), g.len());
    lemma_reach_saturates(g, domain, subject, b, g.len() + g.len());
}

} // verus!
