use vstd::prelude::*;
use crate::identity::CasbinVals;
use poem::web::headers::authorization::Basic;
use poem::web::headers::{Authorization, Header};

verus! {

/// Why no identity could be taken from a request.
#[derive(PartialEq, Eq, Structural, Clone, Copy, Debug)]
pub enum AuthError {
    /// The credential header is absent, malformed, of another scheme, or
    /// names an empty user.
    MissingOrInvalidCredentials,
}

/// What the `Basic` credential decoding of the `headers` crate makes of an
/// `Authorization` header value: the user and the password, or nothing.
pub uninterp spec fn basic_credentials_of(header: Seq<char>) -> Option<(Seq<char>, Seq<char>)>;

/// Relies on `Authorization<Basic>` of the `headers` crate (as poem exports
/// it): the value must be a valid header value that starts with the scheme
/// `Basic` and a space, followed by base64 of `user:password`.
#[verifier::external_body]
fn decode_basic(header: &str) -> (r: Option<(String, String)>)
    ensures
        match r {
            Some((u, p)) => basic_credentials_of(header@) == Some((u@, p@)),
            None => basic_credentials_of(header@) is None,
        },
{
    let value = poem::http::HeaderValue::from_str(header).ok()?;
    let auth = <Authorization<Basic> as Header>::decode(&mut std::iter::once(&value)).ok()?;
    Some((auth.username().to_string(), auth.password().to_string()))
}

/// The subject that decoded credentials give: the user, when it is not empty.
pub open spec fn subject_of(credentials: Option<(Seq<char>, Seq<char>)>) -> Option<Seq<char>> {
    match credentials {
        Some((u, _)) => if u.len() > 0 {
            Some(u)
        } else {
            None
        },
        None => None,
    }
}

/// The subject that a request's credential header gives, if any.
pub open spec fn header_subject(header: Option<Seq<char>>) -> Option<Seq<char>> {
    match header {
        Some(h) => subject_of(basic_credentials_of(h)),
        None => None,
    }
}

/// Decoded credentials, as characters.
pub open spec fn credentials_view(c: Option<(String, String)>) -> Option<(Seq<char>, Seq<char>)> {
    match c {
        Some((u, p)) => Some((u@, p@)),
        None => None,
    }
}

/// What a request's credential header decodes to, if anything.
pub open spec fn header_credentials(header: Option<Seq<char>>) -> Option<(Seq<char>, Seq<char>)> {
    match header {
        Some(h) => basic_credentials_of(h),
        None => None,
    }
}

/// Decodes the user and password of a request's `Authorization` header value,
/// for a credential verifier to judge.
pub fn credentials_of(header: Option<&str>) -> (r: Option<(String, String)>)
    ensures
        credentials_view(r) == header_credentials(
            match header {
                Some(h) => Some(h@),
                None => None,
            },
        ),
{
    match header {
        Some(h) => decode_basic(h),
        None => None,
    }
}

/// Builds the identity from decoded credentials and the credential
/// verifier's answer on them: there is one exactly when the verifier
/// accepted and the user is not empty.
pub fn identity_from_checked_credentials(
    credentials: Option<(String, String)>,
    accepted: bool,
) -> (r: Result<CasbinVals, AuthError>)
    ensures
        r is Ok <==> accepted && subject_of(credentials_view(credentials)) is Some,
        r matches Ok(v) ==> v.wf() && v.domain is None && subject_of(credentials_view(credentials))
            == Some(v.subject@),
        r is Err ==> r == Err::<CasbinVals, _>(AuthError::MissingOrInvalidCredentials),
{
    if !accepted {
        return Err(AuthError::MissingOrInvalidCredentials);
    }
    match credentials {
        Some((user, _password)) => match CasbinVals::new(user, None) {
            Some(v) => Ok(v),
            None => Err(AuthError::MissingOrInvalidCredentials),
        },
        None => Err(AuthError::MissingOrInvalidCredentials),
    }
}

/// Builds the identity from decoded credentials under a verifier that
/// accepts every password.
pub fn identity_from_credentials(credentials: Option<(String, String)>) -> (r: Result<
    CasbinVals,
    AuthError,
>)
    ensures
        r is Ok <==> subject_of(credentials_view(credentials)) is Some,
        r matches Ok(v) ==> v.wf() && v.domain is None && subject_of(credentials_view(credentials))
            == Some(v.subject@),
        r is Err ==> r == Err::<CasbinVals, _>(AuthError::MissingOrInvalidCredentials),
{
    identity_from_checked_credentials(credentials, true)
}

/// Takes the identity from a request's `Authorization` header value, under a
/// verifier that accepts every password.
pub fn extract(header: Option<&str>) -> (r: Result<CasbinVals, AuthError>)
    ensures
        r is Ok <==> header_subject(
            match header {
                Some(h) => Some(h@),
                None => None,
            },
        ) is Some,
        r matches Ok(v) ==> v.wf() && v.domain is None && header_subject(
            match header {
                Some(h) => Some(h@),
                None => None,
            },
        ) == Some(v.subject@),
        r is Err ==> r == Err::<CasbinVals, _>(AuthError::MissingOrInvalidCredentials),
        header is None ==> r is Err,
{
    identity_from_credentials(credentials_of(header))
}

} // verus!
