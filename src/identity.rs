use vstd::prelude::*;

verus! {

/// The authenticated principal of a request, with its optional tenancy domain.
pub struct CasbinVals {
    pub subject: String,
    pub domain: Option<String>,
}

/// The value of an optional string as a sequence of characters.
pub open spec fn opt_view(o: Option<String>) -> Option<Seq<char>> {
    match o {
        Some(s) => Some(s@),
        None => None,
    }
}

impl CasbinVals {
    /// An identity exists only with a subject that is not empty.
    pub open spec fn wf(&self) -> bool {
        self.subject@.len() > 0
    }

    pub open spec fn domain_view(&self) -> Option<Seq<char>> {
        opt_view(self.domain)
    }

    /// Builds an identity; an empty subject gives none.
    pub fn new(subject: String, domain: Option<String>) -> (r: Option<CasbinVals>)
        ensures
            r is Some <==> subject@.len() > 0,
            r matches Some(v) ==> v.wf() && v.subject@ == subject@ && v.domain_view()
                == opt_view(domain),
    {
        if subject.as_str().is_empty() {
            None
        } else {
            Some(CasbinVals { subject, domain })
        }
    }
}

pub fn clone_opt(o: &Option<String>) -> (r: Option<String>)
    ensures
        opt_view(r) == opt_view(*o),
{
    match o {
        Some(s) => Some(s.clone()),
        None => None,
    }
}

impl Clone for CasbinVals {
    fn clone(&self) -> (r: CasbinVals)
        ensures
            r.subject@ == self.subject@,
            r.domain_view() == self.domain_view(),
    {
        CasbinVals { subject: self.subject.clone(), domain: clone_opt(&self.domain) }
    }
}

/// Per-request attachment of the resolved identity. Each request owns one;
/// a fresh one holds nothing, so nothing of an earlier request can be read.
pub struct RequestContext {
    identity: Option<CasbinVals>,
}

impl RequestContext {
    pub closed spec fn held(&self) -> Option<CasbinVals> {
        self.identity
    }

    pub fn new() -> (r: RequestContext)
        ensures
            r.held() is None,
    {
        RequestContext { identity: None }
    }

    /// Publishes the identity for the later stages of the same request.
    pub fn attach(&mut self, identity: CasbinVals)
        ensures
            final(self).held() == Some(identity),
    {
        self.identity = Some(identity);
    }

    /// The identity attached so far, if any.
    pub fn read(&self) -> (r: Option<&CasbinVals>)
        ensures
            r matches Some(v) ==> self.held() == Some(*v),
            r is None <==> self.held() is None,
    {
        match &self.identity {
            Some(v) => Some(v),
            None => None,
        }
    }
}

} // verus!
