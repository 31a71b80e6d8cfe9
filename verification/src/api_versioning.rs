//! The versions of the service's interface.

use vstd::prelude::*;

use crate::json::{JsonModel, JsonValue};
use crate::text::{contains_text, occurs, same};

verus! {

/// A version of the interface.
#[derive(Debug, Clone, Copy, PartialEq, Eq, Structural)]
pub enum ApiVersion {
    V1,
    V2,
}

/// Whether a version is to be given up, and when.
#[derive(Debug, Clone)]
pub struct VersionInfo {
    pub deprecated: bool,
    pub sunset_date: Option<String>,
}

/// The version that a text names: the second one where "v2" stands in it, the
/// first one otherwise.
pub open spec fn version_in(text: Seq<char>) -> ApiVersion {
    if occurs("v2"@, text) {
        ApiVersion::V2
    } else {
        ApiVersion::V1
    }
}

/// Finds versions and their handlers.
pub struct VersionRouter;

impl Default for VersionRouter {
    fn default() -> (r: Self) {
        VersionRouter
    }
}

impl VersionRouter {
    /// A router.
    pub fn new() -> (r: Self) {
        VersionRouter
    }

    /// The name of the handler of a version.
    pub fn get_handler(&self, version: &ApiVersion) -> (r: Option<String>)
        ensures
            r is Some,
            r->0@ == match *version {
                ApiVersion::V1 => "v1_handler"@,
                ApiVersion::V2 => "v2_handler"@,
            },
    {
        match version {
            ApiVersion::V1 => Some("v1_handler".to_owned()),
            ApiVersion::V2 => Some("v2_handler".to_owned()),
        }
    }

    /// The version that a header is: the first one where it is neither.
    pub fn detect_version_from_header(&self, header: &str) -> (r: ApiVersion)
        ensures
            r == if header@ == "v2"@ {
                ApiVersion::V2
            } else {
                ApiVersion::V1
            },
    {
        if same(header, "v2") {
            ApiVersion::V2
        } else {
            ApiVersion::V1
        }
    }

    /// All versions.
    pub fn get_supported_versions(&self) -> (r: Vec<ApiVersion>)
        ensures
            r@ == seq![ApiVersion::V1, ApiVersion::V2],
    {
        let r = vec![ApiVersion::V1, ApiVersion::V2];
        assert(r@ =~= seq![ApiVersion::V1, ApiVersion::V2]);
        r
    }

    /// The content type of a version's answers.
    pub fn get_content_type(&self, _version: &ApiVersion) -> (r: &'static str)
        ensures
            r@ == "application/json"@,
    {
        "application/json"
    }

    /// The path under which an endpoint is reached: its own.
    pub fn route_endpoint(&self, path: &str) -> (r: String)
        ensures
            r@ == path@,
    {
        path.to_owned()
    }

    /// An error as a version words it: unchanged.
    pub fn format_error(&self, _version: &ApiVersion, error: &str) -> (r: String)
        ensures
            r@ == error@,
    {
        error.to_owned()
    }

    /// The version that a path names, with the path.
    pub fn parse_versioned_path(&self, path: &str) -> (r: ParsedPath)
        ensures
            r.version == version_in(path@),
            r.path@ == path@,
    {
        ParsedPath { version: self.parse_version_header(path), path: path.to_owned() }
    }

    /// The version that a header names.
    pub fn parse_version_header(&self, header: &str) -> (r: ApiVersion)
        ensures
            r == version_in(header@),
    {
        if contains_text(header, "v2") {
            ApiVersion::V2
        } else {
            ApiVersion::V1
        }
    }
}

/// A path and its version.
pub struct ParsedPath {
    pub version: ApiVersion,
    pub path: String,
}

/// The request has the fields that every version asks for.
pub open spec fn has_required_fields(request: JsonModel) -> bool {
    request.field("user_id"@) is Some && request.field("action"@) is Some
}

/// Converts between the versions.
pub struct VersionCompatibility;

impl Default for VersionCompatibility {
    fn default() -> (r: Self) {
        VersionCompatibility
    }
}

impl VersionCompatibility {
    /// A converter.
    pub fn new() -> (r: Self) {
        VersionCompatibility
    }

    /// A response of the first version as one of the second.
    pub fn convert_v1_to_v2(&self, response: &JsonValue) -> (r: JsonValue)
        ensures
            r@ == response@,
    {
        response.copy()
    }

    /// A response of the second version as one of the first.
    pub fn convert_v2_to_v1(&self, response: &JsonValue) -> (r: JsonValue)
        ensures
            r@ == response@,
    {
        response.copy()
    }

    /// Whether the first version takes a request.
    pub fn is_v1_compatible(&self, request: &JsonValue) -> (r: bool)
        ensures
            r == has_required_fields(request@),
    {
        request.get("user_id").is_some() && request.get("action").is_some()
    }

    /// Whether the second version takes a request.
    pub fn is_v2_compatible(&self, request: &JsonValue) -> (r: bool)
        ensures
            r == has_required_fields(request@),
    {
        request.get("user_id").is_some() && request.get("action").is_some()
    }

    /// A response as a version gives it.
    pub fn format_response(&self, response: &JsonValue, _version: &ApiVersion) -> (r: JsonValue)
        ensures
            r@ == response@,
    {
        response.copy()
    }

    /// The data of the first version with the field names of the second.
    pub fn map_v1_to_v2_fields(&self, v1_data: &JsonValue) -> (r: JsonValue)
        ensures
            r@ == v1_data@,
    {
        v1_data.copy()
    }
}

/// When versions are given up.
pub struct DeprecationSchedule;

/// The notice that an old version is to be given up.
pub const DEPRECATION_NOTICE: &'static str = "This API version is deprecated";

impl DeprecationSchedule {
    /// The schedule.
    pub fn new() -> (r: Self) {
        DeprecationSchedule
    }

    /// Whether a version is to be given up, and when: the first one is, at the
    /// end of 2024.
    pub fn get_deprecation_info(&self, version: &ApiVersion) -> (r: Option<VersionInfo>)
        ensures
            r is Some,
            r->0.deprecated == (*version == ApiVersion::V1),
            match *version {
                ApiVersion::V1 => r->0.sunset_date is Some && r->0.sunset_date->0@
                    == "2024-12-31"@,
                ApiVersion::V2 => r->0.sunset_date is None,
            },
    {
        match version {
            ApiVersion::V1 => Some(
                VersionInfo { deprecated: true, sunset_date: Some("2024-12-31".to_owned()) },
            ),
            ApiVersion::V2 => Some(VersionInfo { deprecated: false, sunset_date: None }),
        }
    }

    /// The headers that warn of the end of a version.
    pub fn get_warning_headers(&self, _version: &ApiVersion) -> (r: Vec<(String, String)>)
        ensures
            r@.len() == 1,
            r@[0].0@ == "deprecation"@,
            r@[0].1@ == "true"@,
    {
        vec![("deprecation".to_owned(), "true".to_owned())]
    }

    /// How to change to another version.
    pub fn get_migration_guide(&self, _version: &ApiVersion) -> (r: Option<String>)
        ensures
            r is Some,
            r->0@ == "Migration guide text"@,
    {
        Some("Migration guide text".to_owned())
    }

    /// Adds a notice to a response that is an object.
    pub fn add_deprecation_notice(&self, response: &mut JsonValue, _version: &ApiVersion)
        ensures
            final(response)@ == old(response)@.with_field(
                "_deprecation_notice"@,
                JsonModel::Text(DEPRECATION_NOTICE@),
            ),
    {
        response.set("_deprecation_notice", JsonValue::Text(DEPRECATION_NOTICE.to_owned()));
    }
}

/// The versions have different handlers.
pub proof fn handlers_differ()
    ensures
        "v1_handler"@ != "v2_handler"@,
{
    reveal_strlit("v1_handler");
    reveal_strlit("v2_handler");
    assert("v1_handler"@[1] != "v2_handler"@[1]);
}

/// A text names the second version exactly where "v2" stands in it, and the first one in
/// any other case.
pub proof fn texts_name_a_version(before: Seq<char>, after: Seq<char>, text: Seq<char>)
    ensures
        version_in(before + "v2"@ + after) == ApiVersion::V2,
        version_in(text) == ApiVersion::V1 <==> !occurs("v2"@, text),
        text.len() < 2 ==> version_in(text) == ApiVersion::V1,
{
    crate::text::lemma_occurs_between(before, "v2"@, after);
    reveal_strlit("v2");
    crate::text::patterns_stay_in_longer_texts("v2"@, text, text);
}

/// A request is taken exactly where it has a user and an action.
pub proof fn requests_need_a_user_and_an_action(request: JsonModel, value: JsonModel)
    requires
        request is Object,
    ensures
        has_required_fields(
            request.with_field("user_id"@, value).with_field("action"@, value),
        ),
        request.field("user_id"@) is None ==> !has_required_fields(request),
        request.field("action"@) is None ==> !has_required_fields(request),
{
    reveal_strlit("user_id");
    reveal_strlit("action");
    assert("user_id"@.len() != "action"@.len());
    crate::json::field_after_set(request, "user_id"@, value, "action"@);
    crate::json::field_after_set(
        request.with_field("user_id"@, value),
        "action"@,
        value,
        "user_id"@,
    );
}

} // verus!
