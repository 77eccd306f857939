use vstd::prelude::*;
use crate::extract::{
    credentials_view, extract, header_subject, identity_from_checked_credentials, subject_of,
};
use crate::identity::{clone_opt, opt_view, RequestContext};
use crate::policy::{has_role, in_scope, object_matches, PolicyEngine};

verus! {

/// How the middleware ends a request.
#[derive(PartialEq, Eq, Structural, Clone, Copy, Debug)]
pub enum Decision {
    /// No identity could be extracted: answer 401, consult nothing further.
    Unauthorized,
    /// The identity may not perform the action on the object: answer 403.
    Forbidden,
    /// Hand the request to the downstream endpoint, once.
    Permitted,
}

impl Decision {
    /// The status code of a denial; a permitted request gets its status from
    /// the downstream endpoint.
    pub fn denial_status(&self) -> (r: Option<u16>)
        ensures
            *self == Decision::Unauthorized ==> r == Some(401u16),
            *self == Decision::Forbidden ==> r == Some(403u16),
            *self == Decision::Permitted ==> r is None,
    {
        match self {
            Decision::Unauthorized => Some(401),
            Decision::Forbidden => Some(403),
            Decision::Permitted => None,
        }
    }
}

/// The header value, as characters.
pub open spec fn header_view(header: Option<&str>) -> Option<Seq<char>> {
    match header {
        Some(h) => Some(h@),
        None => None,
    }
}

/// The decision on a request: 401 without a subject, else the engine's
/// verdict on (subject, no domain, object, action).
pub open spec fn decision_of(
    engine: PolicyEngine,
    header: Option<Seq<char>>,
    object: Seq<char>,
    action: Seq<char>,
) -> Decision {
    match header_subject(header) {
        None => Decision::Unauthorized,
        Some(s) => if engine.permits(s, None, object, action) {
            Decision::Permitted
        } else {
            Decision::Forbidden
        },
    }
}

/// The decision on a request whose credentials a verifier has judged: 401
/// without an accepted subject, else the engine's verdict.
pub open spec fn checked_decision_of(
    engine: PolicyEngine,
    credentials: Option<(Seq<char>, Seq<char>)>,
    accepted: bool,
    object: Seq<char>,
    action: Seq<char>,
) -> Decision {
    match subject_of(credentials) {
        Some(s) if accepted => if engine.permits(s, None, object, action) {
            Decision::Permitted
        } else {
            Decision::Forbidden
        },
        _ => Decision::Unauthorized,
    }
}

/// The middleware: it holds the policy engine that every request it wraps
/// is checked against.
pub struct BasicAuth {
    engine: PolicyEngine,
}

impl BasicAuth {
    pub closed spec fn engine(&self) -> PolicyEngine {
        self.engine
    }

    pub fn new(engine: PolicyEngine) -> (r: BasicAuth)
        requires
            engine.wf(),
        ensures
            r.engine() == engine,
    {
        BasicAuth { engine }
    }

    /// Wraps a downstream endpoint.
    pub fn transform<E>(self, ep: E) -> (r: BasicAuthEndpoint<E>)
        requires
            self.engine().wf(),
        ensures
            r.engine() == self.engine(),
            r.inner() == ep,
    {
        BasicAuthEndpoint { ep, engine: self.engine }
    }
}

/// A downstream endpoint wrapped by the middleware.
pub struct BasicAuthEndpoint<E> {
    ep: E,
    engine: PolicyEngine,
}

impl<E> BasicAuthEndpoint<E> {
    pub closed spec fn engine(&self) -> PolicyEngine {
        self.engine
    }

    pub closed spec fn inner(&self) -> E {
        self.ep
    }

    /// The downstream endpoint, to be called only on `Decision::Permitted`.
    pub fn endpoint(&self) -> (r: &E)
        ensures
            *r == self.inner(),
    {
        &self.ep
    }

    /// Runs the pipeline on one request whose credentials were decoded and
    /// judged by a credential verifier (`accepted`): build the identity,
    /// attach it to the request's context, then ask the engine about the
    /// object (the path) and the action (the method). The context is
    /// untouched when no identity results.
    pub fn call_checked(
        &self,
        ctx: &mut RequestContext,
        credentials: Option<(String, String)>,
        accepted: bool,
        object: &String,
        action: &String,
    ) -> (r: Decision)
        requires
            self.engine().wf(),
        ensures
            r == checked_decision_of(
                self.engine(),
                credentials_view(credentials),
                accepted,
                object@,
                action@,
            ),
            !accepted ==> r == Decision::Unauthorized,
            r == Decision::Unauthorized ==> final(ctx).held() == old(ctx).held(),
            r != Decision::Unauthorized ==> (final(ctx).held() matches Some(v) && v.wf() && Some(
                v.subject@,
            ) == subject_of(credentials_view(credentials)) && v.domain is None),
    {
        match identity_from_checked_credentials(credentials, accepted) {
            Err(_) => Decision::Unauthorized,
            Ok(identity) => {
                let subject = identity.subject.clone();
                let domain = clone_opt(&identity.domain);
                ctx.attach(identity);
                if self.engine.enforce(&subject, &domain, object, action) {
                    Decision::Permitted
                } else {
                    Decision::Forbidden
                }
            },
        }
    }

    /// Runs the pipeline on one request, under a verifier that accepts
    /// every password, in order: extract the identity from
    /// the `Authorization` header value, attach it to the request's context,
    /// then ask the engine about the object (the path) and the action (the
    /// method). The context is untouched when extraction fails.
    pub fn call(
        &self,
        ctx: &mut RequestContext,
        header: Option<&str>,
        object: &String,
        action: &String,
    ) -> (r: Decision)
        requires
            self.engine().wf(),
        ensures
            r == decision_of(self.engine(), header_view(header), object@, action@),
            header is None ==> r == Decision::Unauthorized,
            r == Decision::Unauthorized ==> final(ctx).held() == old(ctx).held(),
            r != Decision::Unauthorized ==> (final(ctx).held() matches Some(v) && v.wf() && Some(
                v.subject@,
            ) == header_subject(header_view(header)) && v.domain is None),
    {
        match extract(header) {
            Err(_) => Decision::Unauthorized,
            Ok(identity) => {
                let subject = identity.subject.clone();
                let domain = clone_opt(&identity.domain);
                ctx.attach(identity);
                if self.engine.enforce(&subject, &domain, object, action) {
                    Decision::Permitted
                } else {
                    Decision::Forbidden
                }
            },
        }
    }
}


/// A request without a credential header is answered 401, whatever the
/// rules, so the downstream endpoint is never reached.
pub proof fn lemma_no_credentials_unauthorized(
    engine: PolicyEngine,
    object: Seq<char>,
    action: Seq<char>,
)
    ensures
        decision_of(engine, None, object, action) == Decision::Unauthorized,
{
}

/// A request whose credentials name a subject that no rule permits is
/// answered 403, so the downstream endpoint is never reached.
pub proof fn lemma_unpermitted_subject_forbidden(
    engine: PolicyEngine,
    header: Seq<char>,
    object: Seq<char>,
    action: Seq<char>,
)
    requires
        header_subject(Some(header)) matches Some(s) && !engine.permits(s, None, object, action),
    ensures
        decision_of(engine, Some(header), object, action) == Decision::Forbidden,
{
}

/// A subject that holds a role, directly or through a chain of role
/// assignments, is allowed what a rule grants that role, and its request is
/// handed to the downstream endpoint.
pub proof fn lemma_inherited_permission(
    engine: PolicyEngine,
    header: Seq<char>,
    role: Seq<char>,
    i: int,
    object: Seq<char>,
    action: Seq<char>,
)
    requires
        header_subject(Some(header)) matches Some(s) && has_role(
            engine.groupings(),
            None,
            s,
            role,
        ),
        0 <= i < engine.policies().len(),
        engine.policies()[i].subject@ == role,
        in_scope(opt_view(engine.policies()[i].domain), None),
        object_matches(engine.matcher(), object, engine.policies()[i].object@),
        engine.policies()[i].action@ == action,
    ensures
        engine.permits(header_subject(Some(header))->Some_0, None, object, action),
        decision_of(engine, Some(header), object, action) == Decision::Permitted,
{
    let s = header_subject(Some(header))->Some_0;
    assert(crate::policy::rule_permits(
        engine.policies()[i],
        engine.groupings(),
        engine.matcher(),
        s,
        None,
        object,
        action,
    ));
}

} // verus!
