//! Context for errors.
//!
//! An error that leaves the service carries a correlation id, the time, the
//! request and the user that it happened for, and optionally a stack trace.

use vstd::prelude::*;

use crate::clock::{utc_now, wall_clock_shows, Time};
use crate::ids::{is_new_id, new_id};
use crate::text::{
    is_blank, name_option, split, split_text, text_option, texts, trim, trimmed,
};

verus! {

/// The older header that carries the id of a request.
pub const CORRELATION_ID_HEADER: &'static str = "x-correlation-id";

/// The header that carries the id of a request.
pub const REQUEST_ID_HEADER: &'static str = "x-request-id";

/// The id of a request.
#[derive(Debug, Clone, PartialEq, Eq)]
pub struct RequestId(pub String);

impl RequestId {
    /// The id as a text.
    pub fn as_str(&self) -> (r: &str)
        ensures
            r@ == self.0@,
    {
        self.0.as_str()
    }
}

/// The id that the headers of a request give: that of the request id header,
/// or, where that is absent, of the correlation id header. A blank one is
/// none.
pub open spec fn given_id(
    request_id: Option<Seq<char>>,
    correlation_id: Option<Seq<char>>,
) -> Option<Seq<char>> {
    let chosen = match request_id {
        Some(id) => Some(id),
        None => correlation_id,
    };
    match chosen {
        Some(id) => if trimmed(id).len() == 0 {
            None
        } else {
            Some(id)
        },
        None => None,
    }
}

/// The id that the headers of a request give, if they give one.
pub fn supplied_request_id(request_id: Option<&str>, correlation_id: Option<&str>) -> (r: Option<
    String,
>)
    ensures
        text_option(r) == given_id(name_option(request_id), name_option(correlation_id)),
{
    let chosen = match request_id {
        Some(id) => Some(id),
        None => correlation_id,
    };
    match chosen {
        Some(id) => {
            if is_blank(id) {
                None
            } else {
                Some(id.to_owned())
            }
        },
        None => None,
    }
}

/// The id of a request: the one that its headers give, or a new one.
pub fn resolve_request_id(request_id: Option<&str>, correlation_id: Option<&str>) -> (r: String)
    ensures
        match given_id(name_option(request_id), name_option(correlation_id)) {
            Some(id) => r@ == id,
            None => is_new_id(r@),
        },
{
    match supplied_request_id(request_id, correlation_id) {
        Some(id) => id,
        None => new_id(),
    }
}

/// The request that an error happened for.
#[derive(Debug, Clone)]
pub struct RequestContext {
    pub method: String,
    pub path: String,
    pub query: Option<String>,
}

impl RequestContext {
    /// The context of a request.
    pub fn from_parts(method: &str, path: &str, query: Option<&str>) -> (r: Self)
        ensures
            r.method@ == method@,
            r.path@ == path@,
            text_option(r.query) == name_option(query),
    {
        RequestContext {
            method: method.to_owned(),
            path: path.to_owned(),
            query: owned(query),
        }
    }
}

/// An optional text of its own.
fn owned(s: Option<&str>) -> (r: Option<String>)
    ensures
        text_option(r) == name_option(s),
{
    match s {
        Some(text) => Some(text.to_owned()),
        None => None,
    }
}

/// The user that an error happened for.
#[derive(Debug, Clone)]
pub struct UserContext {
    pub user_id: Option<String>,
    pub tenant_id: Option<String>,
    pub roles: Vec<String>,
}

impl Default for UserContext {
    /// Nobody who is known.
    fn default() -> (r: Self)
        ensures
            r.user_id is None,
            r.tenant_id is None,
            r.roles@ == Seq::<String>::empty(),
    {
        UserContext { user_id: None, tenant_id: None, roles: Vec::new() }
    }
}

/// The roles that a header lists: its parts between commas, without the white
/// space around them.
pub open spec fn listed_roles(header: Option<Seq<char>>) -> Seq<Seq<char>> {
    match header {
        Some(text) => split(text, ',').map_values(|part: Seq<char>| trimmed(part)),
        None => Seq::empty(),
    }
}

impl UserContext {
    /// The user that the headers of a request name.
    pub fn from_headers(user_id: Option<&str>, tenant_id: Option<&str>, roles: Option<&str>) -> (r:
        Self)
        ensures
            text_option(r.user_id) == name_option(user_id),
            text_option(r.tenant_id) == name_option(tenant_id),
            texts(r.roles@) == listed_roles(name_option(roles)),
    {
        let mut list: Vec<String> = Vec::new();
        match roles {
            Some(text) => {
                let parts = split_text(text, ',');
                let ghost all = texts(parts@);
                let ghost wanted = all.map_values(|part: Seq<char>| trimmed(part));
                let mut i: usize = 0;
                while i < parts.len()
                    invariant
                        i <= parts.len(),
                        all == texts(parts@),
                        wanted == all.map_values(|part: Seq<char>| trimmed(part)),
                        texts(list@) =~= wanted.take(i as int),
                    decreases parts.len() - i,
                {
                    let ghost earlier = texts(list@);
                    let role = trim(parts[i].as_str());
                    let ghost text = role@;
                    list.push(role);
                    assert(texts(list@) =~= earlier.push(text));
                    assert(all[i as int] == parts@[i as int]@);
                    assert(wanted[i as int] == text);
                    assert(wanted.take(i + 1) =~= wanted.take(i as int).push(text));
                    i = i + 1;
                }
                assert(wanted.take(i as int) =~= wanted);
            },
            None => {},
        }
        assert(texts(list@) =~= listed_roles(name_option(roles)));
        UserContext { user_id: owned(user_id), tenant_id: owned(tenant_id), roles: list }
    }
}

/// The id is the one for a request: the one that was resolved already, or else the one
/// that its headers give, or else a new one.
pub open spec fn is_id_for(
    id: Seq<char>,
    resolved: Option<Seq<char>>,
    request_id: Option<Seq<char>>,
    correlation_id: Option<Seq<char>>,
) -> bool {
    match resolved {
        Some(known) => id == known,
        None => match given_id(request_id, correlation_id) {
            Some(given) => id == given,
            None => is_new_id(id),
        },
    }
}

/// The context of an error.
#[derive(Debug)]
pub struct ErrorContext {
    pub correlation_id: String,
    pub timestamp: Time,
    pub request: Option<RequestContext>,
    pub user: Option<UserContext>,
    pub stack_trace: Option<String>,
}

impl Default for ErrorContext {
    /// A context with a new id, at the present moment.
    fn default() -> (r: Self)
        ensures
            is_new_id(r.correlation_id@),
            wall_clock_shows(r.timestamp),
            r.request is None,
            r.user is None,
            r.stack_trace is None,
    {
        Self::new()
    }
}

impl ErrorContext {
    /// A context with a new id, at the present moment.
    pub fn new() -> (r: Self)
        ensures
            is_new_id(r.correlation_id@),
            wall_clock_shows(r.timestamp),
            r.request is None,
            r.user is None,
            r.stack_trace is None,
    {
        ErrorContext {
            correlation_id: new_id(),
            timestamp: utc_now(),
            request: None,
            user: None,
            stack_trace: None,
        }
    }

    /// The context with the given id.
    pub fn with_correlation_id(self, id: &str) -> (r: Self)
        ensures
            r.correlation_id@ == id@,
            r == (ErrorContext { correlation_id: r.correlation_id, ..self }),
    {
        ErrorContext { correlation_id: id.to_owned(), ..self }
    }

    /// The context with the given request.
    pub fn with_request(self, request: RequestContext) -> (r: Self)
        ensures
            r == (ErrorContext { request: Some(request), ..self }),
    {
        ErrorContext { request: Some(request), ..self }
    }

    /// The context with the given user.
    pub fn with_user(self, user: UserContext) -> (r: Self)
        ensures
            r == (ErrorContext { user: Some(user), ..self }),
    {
        ErrorContext { user: Some(user), ..self }
    }

    /// The context with the given stack trace.
    pub fn with_stack_trace(self, trace: String) -> (r: Self)
        ensures
            r == (ErrorContext { stack_trace: Some(trace), ..self }),
    {
        ErrorContext { stack_trace: Some(trace), ..self }
    }

    /// The context of a request: its id is the one that was resolved for it
    /// already, or else the one that its headers give, or else a new one.
    pub fn from_request(
        resolved: Option<&RequestId>,
        headers: &RequestHeaders,
        method: &str,
        path: &str,
        query: Option<&str>,
    ) -> (r: Self)
        ensures
            is_id_for(
                r.correlation_id@,
                match resolved {
                    Some(id) => Some(id.0@),
                    None => None,
                },
                text_option(headers.request_id),
                text_option(headers.correlation_id),
            ),
            r.request is Some,
            r.request->0.method@ == method@,
            r.request->0.path@ == path@,
            text_option(r.request->0.query) == name_option(query),
            r.user is Some,
            text_option(r.user->0.user_id) == text_option(headers.user_id),
            text_option(r.user->0.tenant_id) == text_option(headers.tenant_id),
            texts(r.user->0.roles@) == listed_roles(text_option(headers.roles)),
            r.stack_trace is None,
    {
        let correlation_id = match resolved {
            Some(id) => id.as_str().to_owned(),
            None => resolve_request_id(
                borrowed(&headers.request_id),
                borrowed(&headers.correlation_id),
            ),
        };
        Self::new().with_correlation_id(correlation_id.as_str()).with_request(
            RequestContext::from_parts(method, path, query),
        ).with_user(
            UserContext::from_headers(
                borrowed(&headers.user_id),
                borrowed(&headers.tenant_id),
                borrowed(&headers.roles),
            ),
        )
    }
}

/// The headers of a request that an error's context is made of.
pub struct RequestHeaders {
    pub request_id: Option<String>,
    pub correlation_id: Option<String>,
    pub user_id: Option<String>,
    pub tenant_id: Option<String>,
    pub roles: Option<String>,
}

/// An optional text, borrowed.
fn borrowed(s: &Option<String>) -> (r: Option<&str>)
    ensures
        name_option(r) == text_option(*s),
{
    match s {
        Some(text) => Some(text.as_str()),
        None => None,
    }
}

/// An error of the service.
#[derive(Debug)]
pub enum AppError {
    NotFound,
    InvalidInput(String),
    Db(String),
    DatabaseError,
    TwoFactorRequired,
    TwoFactorNotEnabled,
    /// An error that carries a status and a code of its own.
    Api { status: u16, code: String },
}

impl AppError {
    /// The HTTP status of the error.
    pub open spec fn status_spec(&self) -> u16 {
        match self {
            AppError::NotFound => 404,
            AppError::InvalidInput(_) => 422,
            AppError::Db(_) => 500,
            AppError::DatabaseError => 500,
            AppError::TwoFactorRequired => 401,
            AppError::TwoFactorNotEnabled => 400,
            AppError::Api { status, code: _ } => *status,
        }
    }

    /// The code of the error.
    pub open spec fn code_spec(&self) -> Seq<char> {
        match self {
            AppError::NotFound => "not_found"@,
            AppError::InvalidInput(_) => "invalid_input"@,
            AppError::Db(_) => "internal_error"@,
            AppError::DatabaseError => "internal_error"@,
            AppError::TwoFactorRequired => "two_factor_required"@,
            AppError::TwoFactorNotEnabled => "two_factor_not_enabled"@,
            AppError::Api { status: _, code } => code@,
        }
    }
}

/// The HTTP status and the code of an error.
pub fn classify(error: &AppError) -> (r: (u16, String))
    ensures
        r.0 == error.status_spec(),
        r.1@ == error.code_spec(),
{
    match error {
        AppError::NotFound => (404, "not_found".to_owned()),
        AppError::InvalidInput(_) => (422, "invalid_input".to_owned()),
        AppError::Db(_) => (500, "internal_error".to_owned()),
        AppError::DatabaseError => (500, "internal_error".to_owned()),
        AppError::TwoFactorRequired => (401, "two_factor_required".to_owned()),
        AppError::TwoFactorNotEnabled => (400, "two_factor_not_enabled".to_owned()),
        AppError::Api { status, code } => (*status, code.clone()),
    }
}

/// An error with its context.
#[derive(Debug)]
pub struct EnrichedError {
    pub code: String,
    pub message: String,
    pub context: ErrorContext,
    pub status: u16,
}

impl EnrichedError {
    /// An error with its context; `message` is the error in words.
    pub fn new(error: AppError, message: String, context: ErrorContext) -> (r: Self)
        ensures
            r.status == error.status_spec(),
            r.code@ == error.code_spec(),
            r.message == message,
            r.context == context,
    {
        let (status, code) = classify(&error);
        EnrichedError { code, message, context, status }
    }
}

/// Attaches a context to an error.
pub trait EnrichExt {
    /// The error's HTTP status.
    spec fn enriched_status(&self) -> u16;

    /// The error's code.
    spec fn enriched_code(&self) -> Seq<char>;

    /// The error with the given words and context.
    fn enrich(self, message: String, context: ErrorContext) -> (r: EnrichedError) where Self: Sized
        ensures
            r.status == self.enriched_status(),
            r.code@ == self.enriched_code(),
            r.message == message,
            r.context == context,
    ;
}

impl EnrichExt for AppError {
    open spec fn enriched_status(&self) -> u16 {
        self.status_spec()
    }

    open spec fn enriched_code(&self) -> Seq<char> {
        self.code_spec()
    }

    fn enrich(self, message: String, context: ErrorContext) -> (r: EnrichedError) {
        EnrichedError::new(self, message, context)
    }
}

/// An id that a request brings is kept: resolving it again gives the same.
pub proof fn resolved_ids_are_stable(
    request_id: Option<Seq<char>>,
    correlation_id: Option<Seq<char>>,
)
    ensures
        given_id(request_id, correlation_id) matches Some(id) ==> given_id(Some(id), Some(id))
            == Some(id),
{
}

/// The details of a database failure do not show: every such error has the
/// same status and code.
pub proof fn database_errors_look_alike(reason: String)
    ensures
        AppError::Db(reason).status_spec() == AppError::DatabaseError.status_spec(),
        AppError::Db(reason).code_spec() == AppError::DatabaseError.code_spec(),
{
}

/// The id in the request id header is taken; that of the other header only where the
/// first is absent. A blank id counts as none, and no other is changed.
pub proof fn request_ids_come_first(
    request_id: Option<Seq<char>>,
    correlation_id: Option<Seq<char>>,
)
    ensures
        request_id matches Some(id) ==> given_id(request_id, correlation_id) == if trimmed(id).len()
            > 0 {
            Some(id)
        } else {
            None
        },
        request_id is None && correlation_id is None ==> given_id(request_id, correlation_id) is None,
        request_id is None ==> given_id(request_id, correlation_id) == given_id(
            correlation_id,
            None,
        ),
{
}

/// Errors of the caller have a status from 400 to 499 and those of the service 500, each
/// with a code of its own; an error with a status of its own keeps it.
pub proof fn errors_keep_their_status(reason: String, status: u16, code: String)
    ensures
        AppError::NotFound.status_spec() == 404,
        AppError::InvalidInput(reason).status_spec() == 422,
        AppError::TwoFactorRequired.status_spec() == 401,
        AppError::TwoFactorNotEnabled.status_spec() == 400,
        AppError::Db(reason).status_spec() == 500,
        (AppError::Api { status, code }).status_spec() == status,
        (AppError::Api { status, code }).code_spec() == code@,
        AppError::NotFound.code_spec() == "not_found"@,
        AppError::InvalidInput(reason).code_spec() == "invalid_input"@,
        AppError::TwoFactorRequired.code_spec() == "two_factor_required"@,
        AppError::TwoFactorNotEnabled.code_spec() == "two_factor_not_enabled"@,
        AppError::Db(reason).code_spec() == "internal_error"@,
{
}

/// The roles are the parts of the header between its commas.
pub proof fn roles_are_the_parts_of_the_header(roles: Seq<Seq<char>>)
    requires
        roles.len() > 0,
        forall|i: int| 0 <= i < roles.len() ==> !(#[trigger] roles[i]).contains(','),
    ensures
        listed_roles(Some(crate::text::join(roles, seq![',']))) == roles.map_values(
            |role: Seq<char>| trimmed(role),
        ),
        listed_roles(None).len() == 0,
{
    crate::text::splitting_inverts_joining(roles, ',');
}

/// A request keeps one id: the one that was resolved for it comes before what its headers
/// say, a header with an id comes before a new one, and a new one is drawn only where
/// neither gives any.
pub proof fn requests_keep_their_id(
    id: Seq<char>,
    resolved: Option<Seq<char>>,
    request_id: Option<Seq<char>>,
    correlation_id: Option<Seq<char>>,
)
    requires
        is_id_for(id, resolved, request_id, correlation_id),
    ensures
        resolved matches Some(known) ==> id == known,
        resolved is None ==> (request_id matches Some(given) ==> (trimmed(given).len() > 0 ==> id
            == given)),
        resolved is None && request_id is None ==> (correlation_id matches Some(given) ==> (trimmed(
            given,
        ).len() > 0 ==> id == given)),
        resolved is None && request_id is None && correlation_id is None ==> is_new_id(id),
{
}

} // verus!
