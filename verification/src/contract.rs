//! Contract registry: descriptor types derived from an OpenAPI document,
//! the rules that derive them, and the normalization of the document.
//!
//! Every rule is stated as a spec function over the document's mathematical
//! value (`Json`); errors are stated by their message text.
use vstd::prelude::*;

use crate::document::{
    as_array, as_object, as_str, bool_member, json_view, members_view, str_member, array_of,
    bool_member_of, member, object_of, str_member_of, str_of, items_view, Json, JsonMember,
    JsonValue, clone_json, put_member, set_member, lemma_array_view, lemma_object_view,
    lemma_put_member_other, lemma_put_member_same, lemma_put_member_unchanged,
};
use crate::json::{parse_json, parsed_json, pretty_json_text, write_pretty_json};
use vstd::string::StringSliceAdditionalSpecFns;
use crate::maps::{
    entries_view, insert_entry, lemma_sorted_insert_lookup, lemma_sorted_insert_other, lookup, sorted_insert,
    strings_view,
};
use crate::text::{
    chars_lt, chars_of, ends_with, has_prefix, has_suffix, opt_view, push_str, starts_with, str_equal,
    string_of,
};

verus! {

/// Errors raised while normalizing or generating contract artifacts.
#[derive(Debug)]
pub enum ContractError {
    /// JSON parsing or serialization failed.
    Json(serde_json::Error),
    /// The OpenAPI document is structurally invalid for this generator.
    InvalidDocument(String),
}

/// The outcome of a rule: a value, or the message of an invalid document.
pub type Outcome<T> = Result<T, Seq<char>>;

/// Whether `r` is the exec form of `expected`, values compared by `view`.
pub open spec fn outcome_is<T, V>(r: Result<T, ContractError>, expected: Outcome<V>, view: spec_fn(T) -> V) -> bool {
    match r {
        Ok(v) => expected == Ok::<V, Seq<char>>(view(v)),
        Err(ContractError::InvalidDocument(m)) => expected == Err::<V, Seq<char>>(m@),
        Err(ContractError::Json(_)) => false,
    }
}

/// A message made of three parts.
pub fn message3(a: &str, b: &str, c: &str) -> (r: String)
    ensures
        r@ == a@ + b@ + c@,
{
    let mut cs: Vec<char> = Vec::new();
    push_str(&mut cs, a);
    push_str(&mut cs, b);
    push_str(&mut cs, c);
    string_of(cs.as_slice())
}

fn invalid(m: &str) -> (e: ContractError)
    ensures
        e matches ContractError::InvalidDocument(t) && t@ == m@,
{
    ContractError::InvalidDocument(m.to_owned())
}

/// Supported OpenAPI parameter locations during registry generation.
#[derive(Clone, Copy, Debug, PartialEq, Eq, Structural, PartialOrd, Ord)]
pub enum ParameterLocationSeed {
    /// Header parameter.
    Header,
    /// Path parameter.
    Path,
    /// Query parameter.
    Query,
}

/// Parameter descriptor seed.
#[derive(Clone, Debug, PartialEq, Eq)]
pub struct ParameterDescriptorSeed {
    /// Parameter location in the HTTP request.
    pub location: ParameterLocationSeed,
    /// Parameter name from the OpenAPI document.
    pub name: String,
    /// Whether the parameter is required.
    pub required: bool,
    /// Parameter description from the OpenAPI document.
    pub description: Option<String>,
}

/// Request-body descriptor seed.
#[derive(Clone, Debug, PartialEq, Eq)]
pub struct RequestBodyDescriptorSeed {
    /// Preferred request content type.
    pub content_type: Option<String>,
    /// Whether the request body is nullable.
    pub nullable: bool,
    /// Whether the request body is required.
    pub required: bool,
    /// Referenced schema name when present.
    pub schema_name: Option<String>,
}

/// Response descriptor seed.
#[derive(Clone, Debug, PartialEq, Eq)]
pub struct ResponseDescriptorSeed {
    /// Preferred response content type.
    pub content_type: Option<String>,
    /// Whether the response represents an error status.
    pub is_error: bool,
    /// Referenced schema name when present.
    pub schema_name: Option<String>,
    /// HTTP status code documented for the response.
    pub status: u16,
}

/// Operation descriptor seed.
#[derive(Clone, Debug, PartialEq, Eq)]
pub struct OperationDescriptorSeed {
    /// Whether the operation accepts a request body.
    pub has_request_body: bool,
    /// HTTP method.
    pub method: String,
    /// Unique operation identifier.
    pub operation_id: String,
    /// Parameter descriptors for the operation.
    pub parameters: Vec<ParameterDescriptorSeed>,
    /// Path template from the contract.
    pub path: String,
    /// Primary success response schema when present.
    pub primary_response_schema: Option<String>,
    /// Primary success status code.
    pub primary_success_status: u16,
    /// Request-body descriptor when present.
    pub request_body: Option<RequestBodyDescriptorSeed>,
    /// Whether the operation requires authorization.
    pub requires_auth: bool,
    /// Documented response descriptors.
    pub responses: Vec<ResponseDescriptorSeed>,
    /// Primary API tag.
    pub tag: String,
    /// Short summary from the OpenAPI document.
    pub summary: Option<String>,
    /// Detailed description from the OpenAPI document.
    pub description: Option<String>,
}

/// Normalized contract registry used by code generation and verification tests.
#[derive(Clone, Debug, PartialEq, Eq)]
pub struct ContractRegistry {
    /// Number of documented operations.
    pub operation_count: usize,
    /// Generated operation descriptors.
    pub operations: Vec<OperationDescriptorSeed>,
    /// Number of documented paths.
    pub path_count: usize,
    /// Number of documented schemas.
    pub schema_count: usize,
    /// Generated schema names.
    pub schemas: Vec<String>,
    /// Generated tag names.
    pub tags: Vec<String>,
}


// ---------------------------------------------------------------------------
// Field access rules.
// ---------------------------------------------------------------------------

/// The member `field` of the document's root object, which must be an object.
pub open spec fn top_level_object_spec(doc: Json, field: Seq<char>) -> Outcome<Seq<(Seq<char>, Json)>> {
    match as_object(doc) {
        None => Err("OpenAPI document must be a JSON object"@),
        Some(root) => match lookup(root, field) {
            None => Err("missing top-level field: "@ + field + ""@),
            Some(v) => match as_object(v) {
                None => Err("top-level field "@ + field + " must be an object"@),
                Some(o) => Ok(o),
            },
        },
    }
}

/// The string member `field` of an object.
pub open spec fn string_field_spec(obj: Seq<(Seq<char>, Json)>, field: Seq<char>) -> Outcome<Seq<char>> {
    match lookup(obj, field) {
        None => Err("missing required string field: "@ + field + ""@),
        Some(v) => match as_str(v) {
            None => Err("field "@ + field + " must be a string"@),
            Some(t) => Ok(t),
        },
    }
}

/// The first tag of an operation, which must be a string.
pub open spec fn first_operation_tag_spec(op: Seq<(Seq<char>, Json)>) -> Outcome<Seq<char>> {
    match lookup(op, "tags"@) {
        None => Err("operation tags are required"@),
        Some(v) => match as_array(v) {
            None => Err("operation tags must be an array"@),
            Some(items) => if items.len() > 0 && as_str(items[0]) is Some {
                Ok(as_str(items[0])->0)
            } else {
                Err("operation tag list must contain a string"@)
            },
        },
    }
}

fn top_level_object<'a>(doc: &'a JsonValue, field: &str) -> (r: Result<&'a Vec<JsonMember>, ContractError>)
    ensures
        outcome_is(r, top_level_object_spec(json_view(*doc), field@), |ms: &'a Vec<JsonMember>| members_view(ms@)),
{
    let root = match object_of(doc) {
        Some(root) => root,
        None => return Err(invalid("OpenAPI document must be a JSON object")),
    };
    let value = match member(root, field) {
        Some(v) => v,
        None => return Err(ContractError::InvalidDocument(message3("missing top-level field: ", field, ""))),
    };
    match object_of(value) {
        Some(o) => Ok(o),
        None => Err(ContractError::InvalidDocument(message3("top-level field ", field, " must be an object"))),
    }
}

fn string_field(obj: &Vec<JsonMember>, field: &str) -> (r: Result<String, ContractError>)
    ensures
        outcome_is(r, string_field_spec(members_view(obj@), field@), |t: String| t@),
{
    let value = match member(obj, field) {
        Some(v) => v,
        None => return Err(ContractError::InvalidDocument(message3("missing required string field: ", field, ""))),
    };
    match str_of(value) {
        Some(t) => Ok(t.clone()),
        None => Err(ContractError::InvalidDocument(message3("field ", field, " must be a string"))),
    }
}

fn first_operation_tag(op: &Vec<JsonMember>) -> (r: Result<String, ContractError>)
    ensures
        outcome_is(r, first_operation_tag_spec(members_view(op@)), |t: String| t@),
{
    let value = match member(op, "tags") {
        Some(v) => v,
        None => return Err(invalid("operation tags are required")),
    };
    let items = match array_of(value) {
        Some(items) => items,
        None => return Err(invalid("operation tags must be an array")),
    };
    if items.len() > 0 {
        if let Some(t) = str_of(&items[0]) {
            return Ok(t.clone());
        }
    }
    Err(invalid("operation tag list must contain a string"))
}

// ---------------------------------------------------------------------------
// Descriptor models.
// ---------------------------------------------------------------------------

/// The value of a parameter descriptor.
pub struct ParameterModel {
    pub location: ParameterLocationSeed,
    pub name: Seq<char>,
    pub required: bool,
    pub description: Option<Seq<char>>,
}

/// The value of a request-body descriptor.
pub struct RequestBodyModel {
    pub content_type: Option<Seq<char>>,
    pub nullable: bool,
    pub required: bool,
    pub schema_name: Option<Seq<char>>,
}

/// The value of a response descriptor.
pub struct ResponseModel {
    pub content_type: Option<Seq<char>>,
    pub is_error: bool,
    pub schema_name: Option<Seq<char>>,
    pub status: u16,
}

/// The value of an operation descriptor.
pub struct OperationModel {
    pub has_request_body: bool,
    pub method: Seq<char>,
    pub operation_id: Seq<char>,
    pub parameters: Seq<ParameterModel>,
    pub path: Seq<char>,
    pub primary_response_schema: Option<Seq<char>>,
    pub primary_success_status: u16,
    pub request_body: Option<RequestBodyModel>,
    pub requires_auth: bool,
    pub responses: Seq<ResponseModel>,
    pub tag: Seq<char>,
    pub summary: Option<Seq<char>>,
    pub description: Option<Seq<char>>,
}

/// The value of a contract registry.
pub struct RegistryModel {
    pub operation_count: nat,
    pub operations: Seq<OperationModel>,
    pub path_count: nat,
    pub schema_count: nat,
    pub schemas: Seq<Seq<char>>,
    pub tags: Seq<Seq<char>>,
}

impl View for ParameterDescriptorSeed {
    type V = ParameterModel;

    open spec fn view(&self) -> ParameterModel {
        ParameterModel {
            location: self.location,
            name: self.name@,
            required: self.required,
            description: opt_view(self.description),
        }
    }
}

impl View for RequestBodyDescriptorSeed {
    type V = RequestBodyModel;

    open spec fn view(&self) -> RequestBodyModel {
        RequestBodyModel {
            content_type: opt_view(self.content_type),
            nullable: self.nullable,
            required: self.required,
            schema_name: opt_view(self.schema_name),
        }
    }
}

impl View for ResponseDescriptorSeed {
    type V = ResponseModel;

    open spec fn view(&self) -> ResponseModel {
        ResponseModel {
            content_type: opt_view(self.content_type),
            is_error: self.is_error,
            schema_name: opt_view(self.schema_name),
            status: self.status,
        }
    }
}

/// The values of a list of parameter descriptors.
pub open spec fn parameters_view(s: Seq<ParameterDescriptorSeed>) -> Seq<ParameterModel> {
    Seq::new(s.len(), |i: int| s[i]@)
}

/// The values of a list of response descriptors.
pub open spec fn responses_view(s: Seq<ResponseDescriptorSeed>) -> Seq<ResponseModel> {
    Seq::new(s.len(), |i: int| s[i]@)
}

pub open spec fn request_body_view(b: Option<RequestBodyDescriptorSeed>) -> Option<RequestBodyModel> {
    match b {
        Some(b) => Some(b@),
        None => None,
    }
}

impl View for OperationDescriptorSeed {
    type V = OperationModel;

    open spec fn view(&self) -> OperationModel {
        OperationModel {
            has_request_body: self.has_request_body,
            method: self.method@,
            operation_id: self.operation_id@,
            parameters: parameters_view(self.parameters@),
            path: self.path@,
            primary_response_schema: opt_view(self.primary_response_schema),
            primary_success_status: self.primary_success_status,
            request_body: request_body_view(self.request_body),
            requires_auth: self.requires_auth,
            responses: responses_view(self.responses@),
            tag: self.tag@,
            summary: opt_view(self.summary),
            description: opt_view(self.description),
        }
    }
}

/// The values of a list of operation descriptors.
pub open spec fn operations_view(s: Seq<OperationDescriptorSeed>) -> Seq<OperationModel> {
    Seq::new(s.len(), |i: int| s[i]@)
}

impl View for ContractRegistry {
    type V = RegistryModel;

    open spec fn view(&self) -> RegistryModel {
        RegistryModel {
            operation_count: self.operation_count as nat,
            operations: operations_view(self.operations@),
            path_count: self.path_count as nat,
            schema_count: self.schema_count as nat,
            schemas: crate::maps::strings_view(self.schemas),
            tags: crate::maps::strings_view(self.tags),
        }
    }
}

// ---------------------------------------------------------------------------
// Parameters.
// ---------------------------------------------------------------------------

/// The location named by an `in` field.
pub open spec fn location_spec(t: Seq<char>) -> Outcome<ParameterLocationSeed> {
    if t == "header"@ {
        Ok(ParameterLocationSeed::Header)
    } else if t == "path"@ {
        Ok(ParameterLocationSeed::Path)
    } else if t == "query"@ {
        Ok(ParameterLocationSeed::Query)
    } else {
        Err("unsupported parameter location: "@ + t + ""@)
    }
}

/// A character that orders locations as the locations themselves are ordered.
pub open spec fn location_char(l: ParameterLocationSeed) -> char {
    match l {
        ParameterLocationSeed::Header => 'h',
        ParameterLocationSeed::Path => 'p',
        ParameterLocationSeed::Query => 'q',
    }
}

/// Parameters are keyed by location, then name.
pub open spec fn parameter_key(l: ParameterLocationSeed, name: Seq<char>) -> Seq<char> {
    seq![location_char(l)] + name
}

/// One entry of a `parameters` array.
pub open spec fn parameter_entry_spec(p: Json) -> Outcome<ParameterModel> {
    match as_object(p) {
        None => Err("parameter entry must be an object"@),
        Some(o) => match string_field_spec(o, "name"@) {
            Err(e) => Err(e),
            Ok(name) => match string_field_spec(o, "in"@) {
                Err(e) => Err(e),
                Ok(place) => match location_spec(place) {
                    Err(e) => Err(e),
                    Ok(location) => Ok(
                        ParameterModel {
                            location,
                            name,
                            required: if location == ParameterLocationSeed::Path {
                                true
                            } else {
                                bool_member(o, "required"@) == Some(true)
                            },
                            description: str_member(o, "description"@),
                        },
                    ),
                },
            },
        },
    }
}

/// Adds the entries of a `parameters` array, in order, to `acc`; a later
/// parameter with the same location and name replaces an earlier one.
pub open spec fn insert_parameters(acc: Seq<(Seq<char>, ParameterModel)>, entries: Seq<Json>) -> Outcome<Seq<(Seq<char>, ParameterModel)>>
    decreases entries.len(),
{
    if entries.len() == 0 {
        Ok(acc)
    } else {
        match parameter_entry_spec(entries[0]) {
            Err(e) => Err(e),
            Ok(p) => insert_parameters(sorted_insert(acc, parameter_key(p.location, p.name), p), entries.drop_first()),
        }
    }
}

/// Adds the parameters of an optional `parameters` member.
pub open spec fn parameter_source_spec(acc: Seq<(Seq<char>, ParameterModel)>, v: Option<Json>) -> Outcome<Seq<(Seq<char>, ParameterModel)>> {
    match v {
        None => Ok(acc),
        Some(j) => match as_array(j) {
            None => Err("operation parameters must be an array"@),
            Some(items) => insert_parameters(acc, items),
        },
    }
}

pub open spec fn entry_values<V>(s: Seq<(Seq<char>, V)>) -> Seq<V> {
    Seq::new(s.len(), |i: int| s[i].1)
}

/// The parameters of an operation: those of its path item, then its own,
/// ordered by location and name.
pub open spec fn parameters_spec(item: Seq<(Seq<char>, Json)>, op: Seq<(Seq<char>, Json)>) -> Outcome<Seq<ParameterModel>> {
    match parameter_source_spec(seq![], lookup(item, "parameters"@)) {
        Err(e) => Err(e),
        Ok(a) => match parameter_source_spec(a, lookup(op, "parameters"@)) {
            Err(e) => Err(e),
            Ok(b) => Ok(entry_values(b)),
        },
    }
}

fn parse_parameter_location(t: &str) -> (r: Result<ParameterLocationSeed, ContractError>)
    ensures
        outcome_is(r, location_spec(t@), |l: ParameterLocationSeed| l),
{
    if str_equal(t, "header") {
        Ok(ParameterLocationSeed::Header)
    } else if str_equal(t, "path") {
        Ok(ParameterLocationSeed::Path)
    } else if str_equal(t, "query") {
        Ok(ParameterLocationSeed::Query)
    } else {
        Err(ContractError::InvalidDocument(message3("unsupported parameter location: ", t, "")))
    }
}

fn location_key(l: ParameterLocationSeed, name: &str) -> (r: String)
    ensures
        r@ == parameter_key(l, name@),
{
    let mut cs: Vec<char> = Vec::new();
    match l {
        ParameterLocationSeed::Header => cs.push('h'),
        ParameterLocationSeed::Path => cs.push('p'),
        ParameterLocationSeed::Query => cs.push('q'),
    }
    push_str(&mut cs, name);
    string_of(cs.as_slice())
}

fn parameter_entry(p: &JsonValue) -> (r: Result<ParameterDescriptorSeed, ContractError>)
    ensures
        outcome_is(r, parameter_entry_spec(json_view(*p)), |d: ParameterDescriptorSeed| d@),
{
    let o = match object_of(p) {
        Some(o) => o,
        None => return Err(invalid("parameter entry must be an object")),
    };
    let name = match string_field(o, "name") {
        Ok(n) => n,
        Err(e) => return Err(e),
    };
    let place = match string_field(o, "in") {
        Ok(t) => t,
        Err(e) => return Err(e),
    };
    let location = match parse_parameter_location(place.as_str()) {
        Ok(l) => l,
        Err(e) => return Err(e),
    };
    let required = match location {
        ParameterLocationSeed::Path => true,
        _ => match bool_member_of(o, "required") {
            Some(b) => b,
            None => false,
        },
    };
    let description = match str_member_of(o, "description") {
        Some(d) => Some(d.clone()),
        None => None,
    };
    Ok(ParameterDescriptorSeed { location, name, required, description })
}

fn insert_parameter_entries(acc: &mut Vec<(String, ParameterDescriptorSeed)>, entries: &Vec<JsonValue>) -> (r: Result<(), ContractError>)
    ensures
        outcome_is(r, insert_parameters(entries_view(old(acc)@), items_view(entries@)), |u: ()| entries_view(final(acc)@)),
{
    let ghost start = entries_view(acc@);
    let ghost items = items_view(entries@);
    let mut i: usize = 0;
    assert(items.skip(0) =~= items);
    while i < entries.len()
        invariant
            items == items_view(entries@),
            start == entries_view(old(acc)@),
            i <= items.len(),
            insert_parameters(start, items) == insert_parameters(entries_view(acc@), items.skip(i as int)),
        decreases items.len() - i,
    {
        assert(items.skip(i as int).drop_first() =~= items.skip(i + 1));
        assert(items.skip(i as int)[0] == items[i as int]);
        let p = match parameter_entry(&entries[i]) {
            Ok(p) => p,
            Err(e) => {
                assert(items.skip(i as int)[0] == items[i as int]);
                return Err(e);
            },
        };
        let key = location_key(p.location, p.name.as_str());
        insert_entry(acc, key, p);
        i = i + 1;
    }
    Ok(())
}

fn insert_parameter_source(acc: &mut Vec<(String, ParameterDescriptorSeed)>, source: Option<&JsonValue>) -> (r: Result<(), ContractError>)
    ensures
        outcome_is(
            r,
            parameter_source_spec(entries_view(old(acc)@), match source { Some(v) => Some(json_view(*v)), None => None }),
            |u: ()| entries_view(final(acc)@),
        ),
{
    match source {
        None => Ok(()),
        Some(v) => match array_of(v) {
            None => Err(invalid("operation parameters must be an array")),
            Some(items) => insert_parameter_entries(acc, items),
        },
    }
}

fn collect_parameter_descriptors(item: &Vec<JsonMember>, op: &Vec<JsonMember>) -> (r: Result<Vec<ParameterDescriptorSeed>, ContractError>)
    ensures
        outcome_is(r, parameters_spec(members_view(item@), members_view(op@)), |ps: Vec<ParameterDescriptorSeed>| parameters_view(ps@)),
{
    let mut acc: Vec<(String, ParameterDescriptorSeed)> = Vec::new();
    assert(entries_view(acc@) =~= seq![]);
    match insert_parameter_source(&mut acc, member(item, "parameters")) {
        Ok(()) => {},
        Err(e) => return Err(e),
    }
    match insert_parameter_source(&mut acc, member(op, "parameters")) {
        Ok(()) => {},
        Err(e) => return Err(e),
    }
    let ghost b = entries_view(acc@);
    let mut out: Vec<ParameterDescriptorSeed> = Vec::new();
    while acc.len() > 0
        invariant
            out@.len() + acc@.len() == b.len(),
            forall|j: int| 0 <= j < out@.len() ==> (#[trigger] out@[j])@ == b[j].1,
            forall|j: int| 0 <= j < acc@.len() ==> (#[trigger] acc@[j]).1@ == b[out@.len() + j].1,
        decreases acc@.len(),
    {
        let (_, p) = acc.remove(0);
        out.push(p);
    }
    assert(parameters_view(out@) =~= entry_values(b));
    Ok(out)
}

// ---------------------------------------------------------------------------
// Media types and schemas.
// ---------------------------------------------------------------------------

/// Whether a content type is JSON.
pub open spec fn is_json_content_type(ct: Seq<char>) -> bool {
    ct == "application/json"@ || has_suffix(ct, "+json"@)
}

/// The first member whose key is a JSON content type.
pub open spec fn first_json_member(ms: Seq<(Seq<char>, Json)>) -> Option<(Seq<char>, Json)>
    decreases ms.len(),
{
    if ms.len() == 0 {
        None
    } else if is_json_content_type(ms[0].0) {
        Some(ms[0])
    } else {
        first_json_member(ms.drop_first())
    }
}

/// The preferred media type of a `content` object: the first JSON one, else
/// the first one; it counts only when its value is an object.
pub open spec fn preferred_media_type_spec(ms: Seq<(Seq<char>, Json)>) -> Option<(Seq<char>, Seq<(Seq<char>, Json)>)> {
    let chosen = match first_json_member(ms) {
        Some(e) => Some(e),
        None => if ms.len() > 0 { Some(ms[0]) } else { None },
    };
    match chosen {
        None => None,
        Some(e) => match as_object(e.1) {
            Some(o) => Some((e.0, o)),
            None => None,
        },
    }
}

/// Whether some element of `items` is the string `t`.
pub open spec fn has_string(items: Seq<Json>, t: Seq<char>) -> bool {
    exists|i: int| 0 <= i < items.len() && #[trigger] as_str(items[i]) == Some(t)
}

/// Whether the schema of a media type admits `null`.
pub open spec fn schema_nullable_spec(media: Seq<(Seq<char>, Json)>) -> Outcome<bool> {
    match lookup(media, "schema"@) {
        None => Ok(false),
        Some(sc) => match as_object(sc) {
            None => Err("schema must be an object"@),
            Some(so) => if bool_member(so, "nullable"@) == Some(true) {
                Ok(true)
            } else {
                match lookup(so, "type"@) {
                    Some(Json::Array(items)) => Ok(has_string(items, "null"@)),
                    _ => Ok(false),
                }
            },
        },
    }
}

/// The schema name a media type references.
pub open spec fn schema_name_spec(media: Seq<(Seq<char>, Json)>) -> Outcome<Option<Seq<char>>> {
    match lookup(media, "schema"@) {
        None => Ok(None),
        Some(sc) => match as_object(sc) {
            None => Err("schema must be an object"@),
            Some(so) => match str_member(so, "$ref"@) {
                None => Ok(None),
                Some(r) => if has_prefix(r, "#/components/schemas/"@) {
                    Ok(Some(r.skip("#/components/schemas/"@.len() as int)))
                } else {
                    Ok(None)
                },
            },
        },
    }
}

fn is_json_content(ct: &str) -> (r: bool)
    ensures
        r == is_json_content_type(ct@),
{
    if str_equal(ct, "application/json") {
        return true;
    }
    let cs = chars_of(ct);
    let suffix = chars_of("+json");
    ends_with(cs.as_slice(), suffix.as_slice())
}

fn preferred_media_type(content: &Vec<JsonMember>) -> (r: Option<(&String, &Vec<JsonMember>)>)
    ensures
        match r {
            Some((ct, media)) => preferred_media_type_spec(members_view(content@)) == Some((ct@, members_view(media@))),
            None => preferred_media_type_spec(members_view(content@)) is None,
        },
{
    let ghost ms = members_view(content@);
    let mut i: usize = 0;
    assert(ms.skip(0) =~= ms);
    while i < content.len()
        invariant
            ms == members_view(content@),
            i <= ms.len(),
            first_json_member(ms) == first_json_member(ms.skip(i as int)),
        decreases ms.len() - i,
    {
        assert(ms.skip(i as int).drop_first() =~= ms.skip(i + 1));
        assert(ms.skip(i as int)[0] == ms[i as int]);
        if is_json_content(content[i].key.as_str()) {
            return match object_of(&content[i].value) {
                Some(o) => Some((&content[i].key, o)),
                None => None,
            };
        }
        i = i + 1;
    }
    assert(ms.skip(i as int).len() == 0);
    if content.len() == 0 {
        return None;
    }
    match object_of(&content[0].value) {
        Some(o) => Some((&content[0].key, o)),
        None => None,
    }
}

/// Whether some element of `items` is the string `t`.
fn contains_string(items: &Vec<JsonValue>, t: &str) -> (r: bool)
    ensures
        r == has_string(items_view(items@), t@),
{
    let ghost iv = items_view(items@);
    let mut i: usize = 0;
    while i < items.len()
        invariant
            iv == items_view(items@),
            i <= iv.len(),
            forall|j: int| 0 <= j < i ==> #[trigger] as_str(iv[j]) != Some(t@),
        decreases iv.len() - i,
    {
        match str_of(&items[i]) {
            Some(x) => {
                if str_equal(x.as_str(), t) {
                    assert(as_str(iv[i as int]) == Some(t@));
                    return true;
                }
            },
            None => {},
        }
        i = i + 1;
    }
    false
}

fn schema_nullable(media: &Vec<JsonMember>) -> (r: Result<bool, ContractError>)
    ensures
        outcome_is(r, schema_nullable_spec(members_view(media@)), |b: bool| b),
{
    let schema = match member(media, "schema") {
        None => return Ok(false),
        Some(v) => v,
    };
    let so = match object_of(schema) {
        None => return Err(invalid("schema must be an object")),
        Some(o) => o,
    };
    if bool_member_of(so, "nullable") == Some(true) {
        return Ok(true);
    }
    match member(so, "type") {
        Some(t) => match t {
            JsonValue::Array(items) => {
                proof {
                    crate::document::lemma_array_view(*items);
                }
                Ok(contains_string(items, "null"))
            },
            _ => Ok(false),
        },
        None => Ok(false),
    }
}

fn schema_name_from_media_type(media: &Vec<JsonMember>) -> (r: Result<Option<String>, ContractError>)
    ensures
        outcome_is(r, schema_name_spec(members_view(media@)), |n: Option<String>| opt_view(n)),
{
    let schema = match member(media, "schema") {
        None => return Ok(None),
        Some(v) => v,
    };
    let so = match object_of(schema) {
        None => return Err(invalid("schema must be an object")),
        Some(o) => o,
    };
    let reference = match str_member_of(so, "$ref") {
        None => return Ok(None),
        Some(r) => r,
    };
    let cs = chars_of(reference.as_str());
    let prefix = chars_of("#/components/schemas/");
    if starts_with(cs.as_slice(), prefix.as_slice()) {
        let rest = crate::text::chars_from(cs.as_slice(), prefix.len());
        Ok(Some(string_of(rest.as_slice())))
    } else {
        Ok(None)
    }
}

// ---------------------------------------------------------------------------
// Request bodies and responses.
// ---------------------------------------------------------------------------

/// The request-body descriptor of an operation.
pub open spec fn request_body_spec(op: Seq<(Seq<char>, Json)>) -> Outcome<Option<RequestBodyModel>> {
    match lookup(op, "requestBody"@) {
        None => Ok(None),
        Some(rb) => match as_object(rb) {
            None => Err("requestBody must be an object"@),
            Some(ro) => {
                let content = match lookup(ro, "content"@) {
                    Some(c) => as_object(c),
                    None => None,
                };
                match content {
                    None => Err("requestBody.content must be an object"@),
                    Some(c) => match preferred_media_type_spec(c) {
                        None => Err("requestBody.content cannot be empty"@),
                        Some(chosen) => match schema_nullable_spec(chosen.1) {
                            Err(e) => Err(e),
                            Ok(nullable) => match schema_name_spec(chosen.1) {
                                Err(e) => Err(e),
                                Ok(schema_name) => Ok(
                                    Some(
                                        RequestBodyModel {
                                            content_type: Some(chosen.0),
                                            nullable,
                                            required: bool_member(ro, "required"@) == Some(true),
                                            schema_name,
                                        },
                                    ),
                                ),
                            },
                        },
                    },
                }
            },
        },
    }
}

fn request_body_descriptor(op: &Vec<JsonMember>) -> (r: Result<Option<RequestBodyDescriptorSeed>, ContractError>)
    ensures
        outcome_is(r, request_body_spec(members_view(op@)), |b: Option<RequestBodyDescriptorSeed>| request_body_view(b)),
{
    let rb = match member(op, "requestBody") {
        None => return Ok(None),
        Some(v) => v,
    };
    let ro = match object_of(rb) {
        None => return Err(invalid("requestBody must be an object")),
        Some(o) => o,
    };
    let content = match member(ro, "content") {
        Some(c) => object_of(c),
        None => None,
    };
    let content = match content {
        None => return Err(invalid("requestBody.content must be an object")),
        Some(c) => c,
    };
    let (content_type, media) = match preferred_media_type(content) {
        None => return Err(invalid("requestBody.content cannot be empty")),
        Some(chosen) => chosen,
    };
    let nullable = match schema_nullable(media) {
        Ok(b) => b,
        Err(e) => return Err(e),
    };
    let required = match bool_member_of(ro, "required") {
        Some(b) => b,
        None => false,
    };
    let schema_name = match schema_name_from_media_type(media) {
        Ok(n) => n,
        Err(e) => return Err(e),
    };
    Ok(Some(RequestBodyDescriptorSeed { content_type: Some(content_type.clone()), nullable, required, schema_name }))
}

/// The value of a decimal digit.
pub open spec fn digit_value(c: char) -> int {
    if c == '0' { 0 } else if c == '1' { 1 } else if c == '2' { 2 } else if c == '3' { 3 } else if c == '4' { 4 }
    else if c == '5' { 5 } else if c == '6' { 6 } else if c == '7' { 7 } else if c == '8' { 8 } else { 9 }
}

/// The number a run of decimal digits denotes.
pub open spec fn digits_value(d: Seq<char>) -> int
    decreases d.len(),
{
    if d.len() == 0 {
        0
    } else {
        digits_value(d.drop_last()) * 10 + digit_value(d.last())
    }
}

/// The status code a response key denotes, as `u16::from_str` reads it: an
/// optional `+`, then one or more decimal digits, with a value below 65536.
pub open spec fn parse_status_spec(s: Seq<char>) -> Option<u16> {
    let d = status_digits(s);
    if d.len() > 0 && all_digits(d) && digits_value(d) < 65536 {
        Some(digits_value(d) as u16)
    } else {
        None
    }
}

/// A status key without its optional leading `+`.
pub open spec fn status_digits(s: Seq<char>) -> Seq<char> {
    if s.len() > 0 && s[0] == '+' {
        s.drop_first()
    } else {
        s
    }
}

pub open spec fn all_digits(d: Seq<char>) -> bool {
    forall|i: int| 0 <= i < d.len() ==> crate::text::is_ascii_digit(#[trigger] d[i])
}

fn digit_of(c: char) -> (r: u32)
    requires
        crate::text::is_ascii_digit(c),
    ensures
        r == digit_value(c),
{
    if c == '0' { 0 } else if c == '1' { 1 } else if c == '2' { 2 } else if c == '3' { 3 } else if c == '4' { 4 }
    else if c == '5' { 5 } else if c == '6' { 6 } else if c == '7' { 7 } else if c == '8' { 8 } else { 9 }
}

proof fn lemma_digits_value_nonneg(d: Seq<char>)
    ensures
        digits_value(d) >= 0,
    decreases d.len(),
{
    if d.len() > 0 {
        lemma_digits_value_nonneg(d.drop_last());
    }
}

/// Once a prefix of digits is too large, so is every longer run.
proof fn lemma_digits_value_grows(d: Seq<char>, k: int)
    requires
        0 <= k <= d.len(),
    ensures
        digits_value(d.take(k)) <= digits_value(d),
    decreases d.len() - k,
{
    if k < d.len() {
        lemma_digits_value_grows(d, k + 1);
        let t = d.take(k + 1);
        assert(t.drop_last() =~= d.take(k));
        lemma_digits_value_nonneg(d.take(k));
        assert(digits_value(t) == digits_value(t.drop_last()) * 10 + digit_value(t.last()));
        assert(digit_value(t.last()) >= 0);
    } else {
        assert(d.take(k) =~= d);
    }
}

/// Reads a response key as a status code.
fn parse_status(key: &str) -> (r: Option<u16>)
    ensures
        r == parse_status_spec(key@),
{
    let cs = chars_of(key);
    let start: usize = if cs.len() > 0 && cs[0] == '+' { 1 } else { 0 };
    let ghost d = status_digits(cs@);
    assert(d =~= cs@.skip(start as int));
    if start >= cs.len() {
        return None;
    }
    let mut value: u32 = 0;
    let mut i: usize = start;
    while i < cs.len()
        invariant
            d =~= cs@.skip(start as int),
            cs@ == key@,
            d == status_digits(key@),
            start <= i <= cs@.len(),
            value == digits_value(d.take(i - start)),
            value < 65536,
            forall|j: int| 0 <= j < i - start ==> crate::text::is_ascii_digit(#[trigger] d[j]),
        decreases cs@.len() - i,
    {
        let c = cs[i];
        if !('0' <= c && c <= '9') {
            assert(!crate::text::is_ascii_digit(d[i - start]));
            return None;
        }
        let next = value * 10 + digit_of(c);
        assert(d.take(i + 1 - start).drop_last() =~= d.take(i - start));
        assert(d.take(i + 1 - start).last() == c);
        if next >= 65536 {
            proof {
                lemma_digits_value_grows(d, i + 1 - start);
            }
            return None;
        }
        value = next;
        i = i + 1;
    }
    assert(d.take(d.len() as int) =~= d);
    Some(value as u16)
}

/// One documented response.
pub open spec fn response_entry_spec(status: u16, r: Json) -> Outcome<ResponseModel> {
    match as_object(r) {
        None => Err("response entry must be an object"@),
        Some(ro) => {
            let media = match lookup(ro, "content"@) {
                Some(c) => as_object(c),
                None => None,
            };
            let chosen = match media {
                Some(c) => preferred_media_type_spec(c),
                None => None,
            };
            match chosen {
                None => Ok(ResponseModel { content_type: None, is_error: status >= 400, schema_name: None, status }),
                Some(chosen) => match schema_name_spec(chosen.1) {
                    Err(e) => Err(e),
                    Ok(schema_name) => Ok(
                        ResponseModel { content_type: Some(chosen.0), is_error: status >= 400, schema_name, status },
                    ),
                },
            }
        },
    }
}

/// The responses whose keys are status codes, in member order, after `acc`.
pub open spec fn collect_responses(acc: Seq<ResponseModel>, ms: Seq<(Seq<char>, Json)>) -> Outcome<Seq<ResponseModel>>
    decreases ms.len(),
{
    if ms.len() == 0 {
        Ok(acc)
    } else {
        match parse_status_spec(ms[0].0) {
            None => collect_responses(acc, ms.drop_first()),
            Some(status) => match response_entry_spec(status, ms[0].1) {
                Err(e) => Err(e),
                Ok(r) => collect_responses(acc.push(r), ms.drop_first()),
            },
        }
    }
}

/// Inserts `r` after every response whose status is not above its own.
pub open spec fn insert_by_status(s: Seq<ResponseModel>, r: ResponseModel) -> Seq<ResponseModel>
    decreases s.len(),
{
    if s.len() == 0 {
        seq![r]
    } else if r.status < s[0].status {
        seq![r] + s
    } else {
        seq![s[0]] + insert_by_status(s.drop_first(), r)
    }
}

/// A stable sort of responses by status.
pub open spec fn sort_by_status(s: Seq<ResponseModel>) -> Seq<ResponseModel>
    decreases s.len(),
{
    if s.len() == 0 {
        s
    } else {
        insert_by_status(sort_by_status(s.drop_last()), s.last())
    }
}

/// The response descriptors of an operation, ordered by status.
pub open spec fn responses_spec(op: Seq<(Seq<char>, Json)>) -> Outcome<Seq<ResponseModel>> {
    match lookup(op, "responses"@) {
        None => Err("operation responses are required"@),
        Some(v) => match as_object(v) {
            None => Err("operation responses must be an object"@),
            Some(rs) => match collect_responses(seq![], rs) {
                Err(e) => Err(e),
                Ok(list) => Ok(sort_by_status(list)),
            },
        },
    }
}

proof fn lemma_insert_by_status_at(s: Seq<ResponseModel>, r: ResponseModel, j: int)
    requires
        0 <= j <= s.len(),
        forall|k: int| 0 <= k < j ==> !(r.status < #[trigger] s[k].status),
        j < s.len() ==> r.status < s[j].status,
    ensures
        insert_by_status(s, r) == s.insert(j, r),
    decreases j,
{
    if j == 0 {
        if s.len() > 0 {
            assert(seq![r] + s =~= s.insert(0, r));
        } else {
            assert(seq![r] =~= s.insert(0, r));
        }
    } else {
        let t = s.drop_first();
        assert forall|k: int| 0 <= k < j - 1 implies !(r.status < #[trigger] t[k].status) by {
            assert(t[k] == s[k + 1]);
        }
        lemma_insert_by_status_at(t, r, j - 1);
        assert(seq![s[0]] + t.insert(j - 1, r) =~= s.insert(j, r));
    }
}

fn response_entry(status: u16, r: &JsonValue) -> (out: Result<ResponseDescriptorSeed, ContractError>)
    ensures
        outcome_is(out, response_entry_spec(status, json_view(*r)), |d: ResponseDescriptorSeed| d@),
{
    let ro = match object_of(r) {
        None => return Err(invalid("response entry must be an object")),
        Some(o) => o,
    };
    let media = match member(ro, "content") {
        Some(c) => object_of(c),
        None => None,
    };
    let chosen = match media {
        Some(c) => preferred_media_type(c),
        None => None,
    };
    match chosen {
        None => Ok(ResponseDescriptorSeed { content_type: None, is_error: status >= 400, schema_name: None, status }),
        Some((content_type, media_type)) => match schema_name_from_media_type(media_type) {
            Err(e) => Err(e),
            Ok(schema_name) => Ok(
                ResponseDescriptorSeed {
                    content_type: Some(content_type.clone()),
                    is_error: status >= 400,
                    schema_name,
                    status,
                },
            ),
        },
    }
}

fn sort_responses(list: Vec<ResponseDescriptorSeed>) -> (r: Vec<ResponseDescriptorSeed>)
    ensures
        responses_view(r@) == sort_by_status(responses_view(list@)),
{
    let ghost all = responses_view(list@);
    let mut rest = list;
    let mut out: Vec<ResponseDescriptorSeed> = Vec::new();
    let ghost mut k: int = 0;
    assert(all.take(0) =~= seq![]);
    assert(responses_view(out@) =~= sort_by_status(all.take(0)));
    while rest.len() > 0
        invariant
            0 <= k <= all.len(),
            responses_view(rest@) =~= all.skip(k),
            responses_view(out@) == sort_by_status(all.take(k)),
        decreases rest@.len(),
    {
        proof {
            let rv = responses_view(rest@);
            assert(rv.len() == rest@.len());
            assert(rv.len() > 0);
            assert(rv == all.skip(k));
            assert(rv[0] == all[k]);
        }
        let ghost rest_before = rest@;
        let item = rest.remove(0);
        assert(rest@ =~= rest_before.drop_first());
        assert forall|m: int| 0 <= m < rest@.len() implies #[trigger] responses_view(rest@)[m] == all.skip(k + 1)[m] by {
            assert(rest@[m] == rest_before[m + 1]);
            assert(responses_view(rest_before)[m + 1] == all.skip(k)[m + 1]);
        }
        assert(responses_view(rest@) =~= all.skip(k + 1));
        let ghost iv = item@;
        assert(iv == all[k]);
        let mut j: usize = 0;
        while j < out.len() && !(item.status < out[j].status)
            invariant
                iv.status == item.status,
                j <= out@.len(),
                forall|m: int| 0 <= m < j ==> !(iv.status < #[trigger] responses_view(out@)[m].status),
            decreases out@.len() - j,
        {
            j = j + 1;
        }
        proof {
            lemma_insert_by_status_at(responses_view(out@), iv, j as int);
            assert(all.take(k + 1).drop_last() =~= all.take(k));
            assert(all.take(k + 1).last() == iv);
        }
        let ghost before = responses_view(out@);
        out.insert(j, item);
        assert(responses_view(out@) =~= before.insert(j as int, iv));
        proof {
            k = k + 1;
        }
    }
    assert(all.take(k) =~= all);
    out
}

fn response_descriptors(op: &Vec<JsonMember>) -> (r: Result<Vec<ResponseDescriptorSeed>, ContractError>)
    ensures
        outcome_is(r, responses_spec(members_view(op@)), |v: Vec<ResponseDescriptorSeed>| responses_view(v@)),
{
    let v = match member(op, "responses") {
        None => return Err(invalid("operation responses are required")),
        Some(v) => v,
    };
    let rs = match object_of(v) {
        None => return Err(invalid("operation responses must be an object")),
        Some(o) => o,
    };
    let ghost ms = members_view(rs@);
    let mut list: Vec<ResponseDescriptorSeed> = Vec::new();
    let mut i: usize = 0;
    assert(ms.skip(0) =~= ms);
    assert(responses_view(list@) =~= seq![]);
    while i < rs.len()
        invariant
            lookup(members_view(op@), "responses"@) == Some(json_view(*v)),
            as_object(json_view(*v)) == Some(ms),
            ms == members_view(rs@),
            i <= ms.len(),
            collect_responses(seq![], ms) == collect_responses(responses_view(list@), ms.skip(i as int)),
        decreases ms.len() - i,
    {
        assert(ms.skip(i as int).drop_first() =~= ms.skip(i + 1));
        assert(ms.skip(i as int)[0] == ms[i as int]);
        match parse_status(rs[i].key.as_str()) {
            None => {},
            Some(status) => {
                let d = match response_entry(status, &rs[i].value) {
                    Ok(d) => d,
                    Err(e) => return Err(e),
                };
                let ghost before = responses_view(list@);
                list.push(d);
                assert(responses_view(list@) =~= before.push(d@));
            },
        }
        i = i + 1;
    }
    Ok(sort_responses(list))
}

/// The status of the first success response, else of the first response.
pub open spec fn first_success(rs: Seq<ResponseModel>) -> Option<u16>
    decreases rs.len(),
{
    if rs.len() == 0 {
        None
    } else if 200 <= rs[0].status < 300 {
        Some(rs[0].status)
    } else {
        first_success(rs.drop_first())
    }
}

pub open spec fn primary_status_spec(rs: Seq<ResponseModel>) -> Outcome<u16> {
    match first_success(rs) {
        Some(s) => Ok(s),
        None => if rs.len() > 0 {
            Ok(rs[0].status)
        } else {
            Err("operation responses must contain at least one numeric status code"@)
        },
    }
}

/// The schema name of the first response with status `st`.
pub open spec fn schema_for_status(rs: Seq<ResponseModel>, st: u16) -> Option<Seq<char>>
    decreases rs.len(),
{
    if rs.len() == 0 {
        None
    } else if rs[0].status == st {
        rs[0].schema_name
    } else {
        schema_for_status(rs.drop_first(), st)
    }
}

fn primary_success_status(rs: &Vec<ResponseDescriptorSeed>) -> (r: Result<u16, ContractError>)
    ensures
        outcome_is(r, primary_status_spec(responses_view(rs@)), |s: u16| s),
{
    let ghost v = responses_view(rs@);
    let mut i: usize = 0;
    assert(v.skip(0) =~= v);
    while i < rs.len()
        invariant
            v == responses_view(rs@),
            i <= v.len(),
            first_success(v) == first_success(v.skip(i as int)),
        decreases v.len() - i,
    {
        assert(v.skip(i as int).drop_first() =~= v.skip(i + 1));
        assert(v.skip(i as int)[0] == v[i as int]);
        if 200 <= rs[i].status && rs[i].status < 300 {
            return Ok(rs[i].status);
        }
        i = i + 1;
    }
    if rs.len() > 0 {
        Ok(rs[0].status)
    } else {
        Err(invalid("operation responses must contain at least one numeric status code"))
    }
}

fn primary_response_schema(rs: &Vec<ResponseDescriptorSeed>, st: u16) -> (r: Option<String>)
    ensures
        opt_view(r) == schema_for_status(responses_view(rs@), st),
{
    let ghost v = responses_view(rs@);
    let mut i: usize = 0;
    assert(v.skip(0) =~= v);
    while i < rs.len()
        invariant
            v == responses_view(rs@),
            i <= v.len(),
            schema_for_status(v, st) == schema_for_status(v.skip(i as int), st),
        decreases v.len() - i,
    {
        assert(v.skip(i as int).drop_first() =~= v.skip(i + 1));
        assert(v.skip(i as int)[0] == v[i as int]);
        if rs[i].status == st {
            return crate::text::clone_opt_string(&rs[i].schema_name);
        }
        i = i + 1;
    }
    None
}

// ---------------------------------------------------------------------------
// Authorization.
// ---------------------------------------------------------------------------

/// Whether one security requirement asks for the bearer scope of the
/// `Authorization` scheme.
pub open spec fn entry_auth_spec(e: Json) -> Outcome<bool> {
    match as_object(e) {
        None => Err("security entry must be an object"@),
        Some(eo) => match lookup(eo, "Authorization"@) {
            None => Ok(false),
            Some(sc) => match as_array(sc) {
                None => Err("security scheme scopes must be an array"@),
                Some(scopes) => Ok(has_string(scopes, "Bearer"@)),
            },
        },
    }
}

/// The requirements are read in order until one asks for the bearer scope.
pub open spec fn any_auth_spec(entries: Seq<Json>) -> Outcome<bool>
    decreases entries.len(),
{
    if entries.len() == 0 {
        Ok(false)
    } else {
        match entry_auth_spec(entries[0]) {
            Err(e) => Err(e),
            Ok(true) => Ok(true),
            Ok(false) => any_auth_spec(entries.drop_first()),
        }
    }
}

/// Whether an operation requires bearer authorization.
pub open spec fn operation_auth_spec(op: Seq<(Seq<char>, Json)>) -> Outcome<bool> {
    match lookup(op, "security"@) {
        None => Ok(false),
        Some(v) => match as_array(v) {
            None => Err("operation security must be an array"@),
            Some(entries) => any_auth_spec(entries),
        },
    }
}

fn operation_has_authorization(op: &Vec<JsonMember>) -> (r: Result<bool, ContractError>)
    ensures
        outcome_is(r, operation_auth_spec(members_view(op@)), |b: bool| b),
{
    let v = match member(op, "security") {
        None => return Ok(false),
        Some(v) => v,
    };
    let entries = match array_of(v) {
        None => return Err(invalid("operation security must be an array")),
        Some(a) => a,
    };
    let ghost ev = items_view(entries@);
    let mut i: usize = 0;
    assert(ev.skip(0) =~= ev);
    while i < entries.len()
        invariant
            lookup(members_view(op@), "security"@) == Some(json_view(*v)),
            as_array(json_view(*v)) == Some(ev),
            ev == items_view(entries@),
            i <= ev.len(),
            any_auth_spec(ev) == any_auth_spec(ev.skip(i as int)),
        decreases ev.len() - i,
    {
        assert(ev.skip(i as int).drop_first() =~= ev.skip(i + 1));
        assert(ev.skip(i as int)[0] == ev[i as int]);
        let eo = match object_of(&entries[i]) {
            None => return Err(invalid("security entry must be an object")),
            Some(o) => o,
        };
        match member(eo, "Authorization") {
            None => {},
            Some(sc) => {
                let scopes = match array_of(sc) {
                    None => return Err(invalid("security scheme scopes must be an array")),
                    Some(a) => a,
                };
                if contains_string(scopes, "Bearer") {
                    return Ok(true);
                }
            },
        }
        i = i + 1;
    }
    Ok(false)
}

// ---------------------------------------------------------------------------
// Operations, tags, schemas and the registry.
// ---------------------------------------------------------------------------

/// The HTTP methods an operation may sit under, in the order they are read.
pub open spec fn http_methods() -> Seq<Seq<char>> {
    seq!["delete"@, "get"@, "head"@, "options"@, "patch"@, "post"@, "put"@, "trace"@]
}

/// The method names as descriptors carry them.
pub open spec fn method_labels() -> Seq<Seq<char>> {
    seq!["DELETE"@, "GET"@, "HEAD"@, "OPTIONS"@, "PATCH"@, "POST"@, "PUT"@, "TRACE"@]
}

fn method_at(i: usize) -> (r: (&'static str, &'static str))
    requires
        i < 8,
    ensures
        r.0@ == http_methods()[i as int],
        r.1@ == method_labels()[i as int],
{
    if i == 0 {
        ("delete", "DELETE")
    } else if i == 1 {
        ("get", "GET")
    } else if i == 2 {
        ("head", "HEAD")
    } else if i == 3 {
        ("options", "OPTIONS")
    } else if i == 4 {
        ("patch", "PATCH")
    } else if i == 5 {
        ("post", "POST")
    } else if i == 6 {
        ("put", "PUT")
    } else {
        ("trace", "TRACE")
    }
}

/// The descriptor of the operation under method `m` of path `path`.
pub open spec fn operation_spec(path: Seq<char>, m: int, item: Seq<(Seq<char>, Json)>, opj: Json) -> Outcome<OperationModel> {
    match as_object(opj) {
        None => Err("operation "@ + http_methods()[m] + " "@ + path + " must be an object"@),
        Some(op) => match string_field_spec(op, "operationId"@) {
            Err(e) => Err(e),
            Ok(operation_id) => match first_operation_tag_spec(op) {
                Err(e) => Err(e),
                Ok(tag) => match parameters_spec(item, op) {
                    Err(e) => Err(e),
                    Ok(parameters) => match request_body_spec(op) {
                        Err(e) => Err(e),
                        Ok(request_body) => match responses_spec(op) {
                            Err(e) => Err(e),
                            Ok(responses) => match primary_status_spec(responses) {
                                Err(e) => Err(e),
                                Ok(primary) => match operation_auth_spec(op) {
                                    Err(e) => Err(e),
                                    Ok(requires_auth) => Ok(
                                        OperationModel {
                                            has_request_body: request_body is Some,
                                            method: method_labels()[m],
                                            operation_id,
                                            parameters,
                                            path,
                                            primary_response_schema: schema_for_status(responses, primary),
                                            primary_success_status: primary,
                                            request_body,
                                            requires_auth,
                                            responses,
                                            tag,
                                            summary: str_member(op, "summary"@),
                                            description: str_member(op, "description"@),
                                        },
                                    ),
                                },
                            },
                        },
                    },
                },
            },
        },
    }
}

/// The operations of one path item, methods from `m` on, after `acc`.
pub open spec fn method_operations(acc: Seq<OperationModel>, path: Seq<char>, item: Seq<(Seq<char>, Json)>, m: nat) -> Outcome<Seq<OperationModel>>
    decreases 8 - m,
{
    if m >= 8 {
        Ok(acc)
    } else {
        match lookup(item, http_methods()[m as int]) {
            None => method_operations(acc, path, item, m + 1),
            Some(opj) => match operation_spec(path, m as int, item, opj) {
                Err(e) => Err(e),
                Ok(o) => method_operations(acc.push(o), path, item, m + 1),
            },
        }
    }
}

/// The operations of the paths, in path then method order, after `acc`.
pub open spec fn path_operations(acc: Seq<OperationModel>, paths: Seq<(Seq<char>, Json)>) -> Outcome<Seq<OperationModel>>
    decreases paths.len(),
{
    if paths.len() == 0 {
        Ok(acc)
    } else {
        match as_object(paths[0].1) {
            None => Err("path item for "@ + paths[0].0 + " must be an object"@),
            Some(item) => match method_operations(acc, paths[0].0, item, 0) {
                Err(e) => Err(e),
                Ok(a) => path_operations(a, paths.drop_first()),
            },
        }
    }
}

/// Inserts `o` after every operation whose identifier is not above its own.
pub open spec fn insert_by_id(s: Seq<OperationModel>, o: OperationModel) -> Seq<OperationModel>
    decreases s.len(),
{
    if s.len() == 0 {
        seq![o]
    } else if chars_lt(o.operation_id, s[0].operation_id) {
        seq![o] + s
    } else {
        seq![s[0]] + insert_by_id(s.drop_first(), o)
    }
}

/// A stable sort of operations by identifier.
pub open spec fn sort_by_id(s: Seq<OperationModel>) -> Seq<OperationModel>
    decreases s.len(),
{
    if s.len() == 0 {
        s
    } else {
        insert_by_id(sort_by_id(s.drop_last()), s.last())
    }
}

/// Adds `t` to an ascending list of distinct names.
pub open spec fn insert_name(s: Seq<Seq<char>>, t: Seq<char>) -> Seq<Seq<char>>
    decreases s.len(),
{
    if s.len() == 0 {
        seq![t]
    } else if s[0] == t {
        s
    } else if chars_lt(t, s[0]) {
        seq![t] + s
    } else {
        seq![s[0]] + insert_name(s.drop_first(), t)
    }
}

/// The first tags of one path item's operations, methods from `m` on, added to `acc`.
pub open spec fn method_tags(acc: Seq<Seq<char>>, item: Seq<(Seq<char>, Json)>, m: nat) -> Outcome<Seq<Seq<char>>>
    decreases 8 - m,
{
    if m >= 8 {
        Ok(acc)
    } else {
        match lookup(item, http_methods()[m as int]) {
            None => method_tags(acc, item, m + 1),
            Some(opj) => match as_object(opj) {
                None => Err("operation must be an object"@),
                Some(op) => match first_operation_tag_spec(op) {
                    Err(e) => Err(e),
                    Ok(t) => method_tags(insert_name(acc, t), item, m + 1),
                },
            },
        }
    }
}

/// The first tags of every operation, added to `acc`.
pub open spec fn path_tags(acc: Seq<Seq<char>>, paths: Seq<(Seq<char>, Json)>) -> Outcome<Seq<Seq<char>>>
    decreases paths.len(),
{
    if paths.len() == 0 {
        Ok(acc)
    } else {
        match as_object(paths[0].1) {
            None => Err("path item must be an object"@),
            Some(item) => match method_tags(acc, item, 0) {
                Err(e) => Err(e),
                Ok(a) => path_tags(a, paths.drop_first()),
            },
        }
    }
}

/// The distinct first tags of the document's operations, in ascending order.
pub open spec fn operation_tags_spec(doc: Json) -> Outcome<Seq<Seq<char>>> {
    match top_level_object_spec(doc, "paths"@) {
        Err(e) => Err(e),
        Ok(paths) => path_tags(seq![], paths),
    }
}

/// Inserts `t` after every name not above it.
pub open spec fn insert_sorted_name(s: Seq<Seq<char>>, t: Seq<char>) -> Seq<Seq<char>>
    decreases s.len(),
{
    if s.len() == 0 {
        seq![t]
    } else if chars_lt(t, s[0]) {
        seq![t] + s
    } else {
        seq![s[0]] + insert_sorted_name(s.drop_first(), t)
    }
}

/// Names in ascending order.
pub open spec fn sort_names(s: Seq<Seq<char>>) -> Seq<Seq<char>>
    decreases s.len(),
{
    if s.len() == 0 {
        s
    } else {
        insert_sorted_name(sort_names(s.drop_last()), s.last())
    }
}

pub open spec fn keys_of<V>(s: Seq<(Seq<char>, V)>) -> Seq<Seq<char>> {
    Seq::new(s.len(), |i: int| s[i].0)
}

/// The schema names of `components.schemas`, in ascending order.
pub open spec fn schema_names_spec(doc: Json) -> Outcome<Seq<Seq<char>>> {
    match top_level_object_spec(doc, "components"@) {
        Err(e) => Err(e),
        Ok(c) => match lookup(c, "schemas"@) {
            None => Err("components.schemas is required"@),
            Some(v) => match as_object(v) {
                None => Err("components.schemas must be an object"@),
                Some(so) => Ok(sort_names(keys_of(so))),
            },
        },
    }
}

/// The registry of a document.
pub open spec fn registry_spec(doc: Json) -> Outcome<RegistryModel> {
    match top_level_object_spec(doc, "paths"@) {
        Err(e) => Err(e),
        Ok(paths) => match schema_names_spec(doc) {
            Err(e) => Err(e),
            Ok(schemas) => match operation_tags_spec(doc) {
                Err(e) => Err(e),
                Ok(tags) => match path_operations(seq![], paths) {
                    Err(e) => Err(e),
                    Ok(ops) => Ok(
                        RegistryModel {
                            operation_count: sort_by_id(ops).len(),
                            operations: sort_by_id(ops),
                            path_count: paths.len(),
                            schema_count: schemas.len(),
                            schemas,
                            tags,
                        },
                    ),
                },
            },
        },
    }
}

/// A message made of five parts.
pub fn message5(a: &str, b: &str, c: &str, d: &str, e: &str) -> (r: String)
    ensures
        r@ == a@ + b@ + c@ + d@ + e@,
{
    let mut cs: Vec<char> = Vec::new();
    push_str(&mut cs, a);
    push_str(&mut cs, b);
    push_str(&mut cs, c);
    push_str(&mut cs, d);
    push_str(&mut cs, e);
    string_of(cs.as_slice())
}

fn clone_str_member(ms: &Vec<JsonMember>, key: &str) -> (r: Option<String>)
    ensures
        opt_view(r) == str_member(members_view(ms@), key@),
{
    match str_member_of(ms, key) {
        Some(t) => Some(t.clone()),
        None => None,
    }
}

fn operation_descriptor(path: &String, m: usize, item: &Vec<JsonMember>, opj: &JsonValue) -> (r: Result<OperationDescriptorSeed, ContractError>)
    requires
        m < 8,
    ensures
        outcome_is(r, operation_spec(path@, m as int, members_view(item@), json_view(*opj)), |d: OperationDescriptorSeed| d@),
{
    let (name, label) = method_at(m);
    let op = match object_of(opj) {
        None => return Err(
            ContractError::InvalidDocument(message5("operation ", name, " ", path.as_str(), " must be an object")),
        ),
        Some(o) => o,
    };
    let operation_id = match string_field(op, "operationId") {
        Ok(t) => t,
        Err(e) => return Err(e),
    };
    let tag = match first_operation_tag(op) {
        Ok(t) => t,
        Err(e) => return Err(e),
    };
    let parameters = match collect_parameter_descriptors(item, op) {
        Ok(p) => p,
        Err(e) => return Err(e),
    };
    let request_body = match request_body_descriptor(op) {
        Ok(b) => b,
        Err(e) => return Err(e),
    };
    let responses = match response_descriptors(op) {
        Ok(rs) => rs,
        Err(e) => return Err(e),
    };
    let primary = match primary_success_status(&responses) {
        Ok(p) => p,
        Err(e) => return Err(e),
    };
    let primary_response_schema = primary_response_schema(&responses, primary);
    let requires_auth = match operation_has_authorization(op) {
        Ok(b) => b,
        Err(e) => return Err(e),
    };
    let summary = clone_str_member(op, "summary");
    let description = clone_str_member(op, "description");
    Ok(
        OperationDescriptorSeed {
            has_request_body: request_body.is_some(),
            method: label.to_owned(),
            operation_id,
            parameters,
            path: path.clone(),
            primary_response_schema,
            primary_success_status: primary,
            request_body,
            requires_auth,
            responses,
            tag,
            summary,
            description,
        },
    )
}

fn collect_method_operations(acc: &mut Vec<OperationDescriptorSeed>, path: &String, item: &Vec<JsonMember>) -> (r: Result<(), ContractError>)
    ensures
        outcome_is(
            r,
            method_operations(operations_view(old(acc)@), path@, members_view(item@), 0),
            |u: ()| operations_view(final(acc)@),
        ),
{
    let ghost iv = members_view(item@);
    let ghost start = operations_view(acc@);
    let mut m: usize = 0;
    while m < 8
        invariant
            iv == members_view(item@),
            start == operations_view(old(acc)@),
            m <= 8,
            method_operations(start, path@, iv, 0) == method_operations(operations_view(acc@), path@, iv, m as nat),
        decreases 8 - m,
    {
        let (name, _) = method_at(m);
        match member(item, name) {
            None => {},
            Some(opj) => {
                let d = match operation_descriptor(path, m, item, opj) {
                    Ok(d) => d,
                    Err(e) => return Err(e),
                };
                let ghost before = operations_view(acc@);
                acc.push(d);
                assert(operations_view(acc@) =~= before.push(d@));
            },
        }
        m = m + 1;
    }
    Ok(())
}

fn collect_operations(paths: &Vec<JsonMember>) -> (r: Result<Vec<OperationDescriptorSeed>, ContractError>)
    ensures
        outcome_is(r, path_operations(seq![], members_view(paths@)), |v: Vec<OperationDescriptorSeed>| operations_view(v@)),
{
    let ghost pv = members_view(paths@);
    let mut acc: Vec<OperationDescriptorSeed> = Vec::new();
    let mut i: usize = 0;
    assert(pv.skip(0) =~= pv);
    assert(operations_view(acc@) =~= seq![]);
    while i < paths.len()
        invariant
            pv == members_view(paths@),
            i <= pv.len(),
            path_operations(seq![], pv) == path_operations(operations_view(acc@), pv.skip(i as int)),
        decreases pv.len() - i,
    {
        assert(pv.skip(i as int).drop_first() =~= pv.skip(i + 1));
        assert(pv.skip(i as int)[0] == pv[i as int]);
        let item = match object_of(&paths[i].value) {
            None => return Err(
                ContractError::InvalidDocument(message3("path item for ", paths[i].key.as_str(), " must be an object")),
            ),
            Some(o) => o,
        };
        match collect_method_operations(&mut acc, &paths[i].key, item) {
            Ok(()) => {},
            Err(e) => return Err(e),
        }
        i = i + 1;
    }
    Ok(acc)
}

proof fn lemma_insert_by_id_at(s: Seq<OperationModel>, o: OperationModel, j: int)
    requires
        0 <= j <= s.len(),
        forall|k: int| 0 <= k < j ==> !chars_lt(o.operation_id, #[trigger] s[k].operation_id),
        j < s.len() ==> chars_lt(o.operation_id, s[j].operation_id),
    ensures
        insert_by_id(s, o) == s.insert(j, o),
    decreases j,
{
    if j == 0 {
        if s.len() > 0 {
            assert(seq![o] + s =~= s.insert(0, o));
        } else {
            assert(seq![o] =~= s.insert(0, o));
        }
    } else {
        let t = s.drop_first();
        assert forall|k: int| 0 <= k < j - 1 implies !chars_lt(o.operation_id, #[trigger] t[k].operation_id) by {
            assert(t[k] == s[k + 1]);
        }
        lemma_insert_by_id_at(t, o, j - 1);
        assert(seq![s[0]] + t.insert(j - 1, o) =~= s.insert(j, o));
    }
}

fn sort_operations(list: Vec<OperationDescriptorSeed>) -> (r: Vec<OperationDescriptorSeed>)
    ensures
        operations_view(r@) == sort_by_id(operations_view(list@)),
{
    let ghost all = operations_view(list@);
    let mut rest = list;
    let mut out: Vec<OperationDescriptorSeed> = Vec::new();
    let ghost mut k: int = 0;
    assert(all.take(0) =~= seq![]);
    assert(operations_view(out@) =~= sort_by_id(all.take(0)));
    while rest.len() > 0
        invariant
            0 <= k <= all.len(),
            operations_view(rest@) =~= all.skip(k),
            operations_view(out@) == sort_by_id(all.take(k)),
        decreases rest@.len(),
    {
        proof {
            let rv = operations_view(rest@);
            assert(rv.len() == rest@.len());
            assert(rv == all.skip(k));
            assert(rv[0] == all[k]);
        }
        let ghost rest_before = rest@;
        let item = rest.remove(0);
        assert(rest@ =~= rest_before.drop_first());
        assert forall|m: int| 0 <= m < rest@.len() implies #[trigger] operations_view(rest@)[m] == all.skip(k + 1)[m] by {
            assert(rest@[m] == rest_before[m + 1]);
            assert(operations_view(rest_before)[m + 1] == all.skip(k)[m + 1]);
        }
        assert(operations_view(rest@) =~= all.skip(k + 1));
        let ghost iv = item@;
        assert(iv == all[k]);
        let mut j: usize = 0;
        while j < out.len() && !crate::text::str_less(item.operation_id.as_str(), out[j].operation_id.as_str())
            invariant
                iv.operation_id == item.operation_id@,
                j <= out@.len(),
                forall|m: int| 0 <= m < j ==> !chars_lt(iv.operation_id, #[trigger] operations_view(out@)[m].operation_id),
            decreases out@.len() - j,
        {
            j = j + 1;
        }
        proof {
            lemma_insert_by_id_at(operations_view(out@), iv, j as int);
            assert(all.take(k + 1).drop_last() =~= all.take(k));
            assert(all.take(k + 1).last() == iv);
        }
        let ghost before = operations_view(out@);
        out.insert(j, item);
        assert(operations_view(out@) =~= before.insert(j as int, iv));
        proof {
            k = k + 1;
        }
    }
    assert(all.take(k) =~= all);
    out
}

proof fn lemma_insert_name_at(s: Seq<Seq<char>>, t: Seq<char>, i: int)
    requires
        0 <= i <= s.len(),
        forall|j: int| 0 <= j < i ==> chars_lt(#[trigger] s[j], t),
        i < s.len() ==> !chars_lt(s[i], t),
    ensures
        i < s.len() && s[i] == t ==> insert_name(s, t) == s,
        !(i < s.len() && s[i] == t) ==> insert_name(s, t) == s.insert(i, t),
    decreases i,
{
    if i == 0 {
        if s.len() > 0 {
            if s[0] != t {
                crate::text::lemma_chars_lt_total(t, s[0]);
                assert(seq![t] + s =~= s.insert(0, t));
            }
        } else {
            assert(seq![t] =~= s.insert(0, t));
        }
    } else {
        let r = s.drop_first();
        crate::text::lemma_chars_lt_irreflexive(t);
        crate::text::lemma_chars_lt_asymmetric(s[0], t);
        assert forall|j: int| 0 <= j < i - 1 implies chars_lt(#[trigger] r[j], t) by {
            assert(r[j] == s[j + 1]);
        }
        lemma_insert_name_at(r, t, i - 1);
        if i < s.len() && s[i] == t {
            assert(seq![s[0]] + r =~= s);
        } else {
            assert(seq![s[0]] + r.insert(i - 1, t) =~= s.insert(i, t));
        }
    }
}

fn insert_tag(tags: &mut Vec<String>, t: String)
    ensures
        strings_view(*final(tags)) == insert_name(strings_view(*old(tags)), t@),
{
    let ghost s = strings_view(*tags);
    let ghost tv = t@;
    let mut i: usize = 0;
    while i < tags.len() && crate::text::str_less(tags[i].as_str(), t.as_str())
        invariant
            s == strings_view(*tags),
            i <= s.len(),
            forall|j: int| 0 <= j < i ==> chars_lt(#[trigger] s[j], t@),
        decreases s.len() - i,
    {
        i = i + 1;
    }
    proof {
        lemma_insert_name_at(s, tv, i as int);
    }
    if i < tags.len() && str_equal(tags[i].as_str(), t.as_str()) {
        return;
    }
    tags.insert(i, t);
    assert(strings_view(*tags) =~= s.insert(i as int, tv));
}

fn collect_method_tags(acc: &mut Vec<String>, item: &Vec<JsonMember>) -> (r: Result<(), ContractError>)
    ensures
        outcome_is(r, method_tags(strings_view(*old(acc)), members_view(item@), 0), |u: ()| strings_view(*final(acc))),
{
    let ghost iv = members_view(item@);
    let ghost start = strings_view(*acc);
    let mut m: usize = 0;
    while m < 8
        invariant
            iv == members_view(item@),
            start == strings_view(*old(acc)),
            m <= 8,
            method_tags(start, iv, 0) == method_tags(strings_view(*acc), iv, m as nat),
        decreases 8 - m,
    {
        let (name, _) = method_at(m);
        match member(item, name) {
            None => {},
            Some(opj) => {
                let op = match object_of(opj) {
                    None => return Err(invalid("operation must be an object")),
                    Some(o) => o,
                };
                let t = match first_operation_tag(op) {
                    Ok(t) => t,
                    Err(e) => return Err(e),
                };
                insert_tag(acc, t);
            },
        }
        m = m + 1;
    }
    Ok(())
}

fn collect_operation_tags(doc: &JsonValue) -> (r: Result<Vec<String>, ContractError>)
    ensures
        outcome_is(r, operation_tags_spec(json_view(*doc)), |v: Vec<String>| strings_view(v)),
{
    let paths = match top_level_object(doc, "paths") {
        Ok(p) => p,
        Err(e) => return Err(e),
    };
    let ghost pv = members_view(paths@);
    let mut acc: Vec<String> = Vec::new();
    let mut i: usize = 0;
    assert(pv.skip(0) =~= pv);
    assert(strings_view(acc) =~= seq![]);
    while i < paths.len()
        invariant
            top_level_object_spec(json_view(*doc), "paths"@) == Ok::<Seq<(Seq<char>, Json)>, Seq<char>>(pv),
            pv == members_view(paths@),
            i <= pv.len(),
            path_tags(seq![], pv) == path_tags(strings_view(acc), pv.skip(i as int)),
        decreases pv.len() - i,
    {
        assert(pv.skip(i as int).drop_first() =~= pv.skip(i + 1));
        assert(pv.skip(i as int)[0] == pv[i as int]);
        let item = match object_of(&paths[i].value) {
            None => return Err(invalid("path item must be an object")),
            Some(o) => o,
        };
        match collect_method_tags(&mut acc, item) {
            Ok(()) => {},
            Err(e) => return Err(e),
        }
        i = i + 1;
    }
    Ok(acc)
}

proof fn lemma_insert_sorted_name_at(s: Seq<Seq<char>>, t: Seq<char>, j: int)
    requires
        0 <= j <= s.len(),
        forall|k: int| 0 <= k < j ==> !chars_lt(t, #[trigger] s[k]),
        j < s.len() ==> chars_lt(t, s[j]),
    ensures
        insert_sorted_name(s, t) == s.insert(j, t),
    decreases j,
{
    if j == 0 {
        if s.len() > 0 {
            assert(seq![t] + s =~= s.insert(0, t));
        } else {
            assert(seq![t] =~= s.insert(0, t));
        }
    } else {
        let r = s.drop_first();
        assert forall|k: int| 0 <= k < j - 1 implies !chars_lt(t, #[trigger] r[k]) by {
            assert(r[k] == s[k + 1]);
        }
        lemma_insert_sorted_name_at(r, t, j - 1);
        assert(seq![s[0]] + r.insert(j - 1, t) =~= s.insert(j, t));
    }
}

fn schema_names(doc: &JsonValue) -> (r: Result<Vec<String>, ContractError>)
    ensures
        outcome_is(r, schema_names_spec(json_view(*doc)), |v: Vec<String>| strings_view(v)),
{
    let components = match top_level_object(doc, "components") {
        Ok(c) => c,
        Err(e) => return Err(e),
    };
    let schemas = match member(components, "schemas") {
        None => return Err(invalid("components.schemas is required")),
        Some(v) => v,
    };
    let so = match object_of(schemas) {
        None => return Err(invalid("components.schemas must be an object")),
        Some(o) => o,
    };
    let ghost keys = keys_of(members_view(so@));
    let mut out: Vec<String> = Vec::new();
    let mut i: usize = 0;
    assert(keys.take(0) =~= seq![]);
    assert(strings_view(out) =~= sort_names(keys.take(0)));
    while i < so.len()
        invariant
            keys == keys_of(members_view(so@)),
            i <= keys.len(),
            strings_view(out) == sort_names(keys.take(i as int)),
        decreases keys.len() - i,
    {
        let t = so[i].key.clone();
        let mut j: usize = 0;
        while j < out.len() && !crate::text::str_less(t.as_str(), out[j].as_str())
            invariant
                j <= out@.len(),
                forall|m: int| 0 <= m < j ==> !chars_lt(t@, #[trigger] strings_view(out)[m]),
            decreases out@.len() - j,
        {
            j = j + 1;
        }
        proof {
            lemma_insert_sorted_name_at(strings_view(out), t@, j as int);
            assert(keys.take(i + 1).drop_last() =~= keys.take(i as int));
            assert(keys.take(i + 1).last() == t@);
        }
        let ghost before = strings_view(out);
        let ghost tv = t@;
        out.insert(j, t);
        assert(strings_view(out) =~= before.insert(j as int, tv));
        i = i + 1;
    }
    assert(keys.take(keys.len() as int) =~= keys);
    Ok(out)
}

/// Builds the contract registry of a document: its operations sorted by
/// identifier, its distinct operation tags and its schema names.
pub fn build_registry(document: &JsonValue) -> (r: Result<ContractRegistry, ContractError>)
    ensures
        outcome_is(r, registry_spec(json_view(*document)), |g: ContractRegistry| g@),
{
    let paths = match top_level_object(document, "paths") {
        Ok(p) => p,
        Err(e) => return Err(e),
    };
    let schemas = match schema_names(document) {
        Ok(s) => s,
        Err(e) => return Err(e),
    };
    let tags = match collect_operation_tags(document) {
        Ok(t) => t,
        Err(e) => return Err(e),
    };
    let operations = match collect_operations(paths) {
        Ok(o) => o,
        Err(e) => return Err(e),
    };
    let operations = sort_operations(operations);
    Ok(
        ContractRegistry {
            operation_count: operations.len(),
            operations,
            path_count: paths.len(),
            schema_count: schemas.len(),
            schemas,
            tags,
        },
    )
}

// ---------------------------------------------------------------------------
// Normalization.
// ---------------------------------------------------------------------------

/// Whether any operation of one path item requires authorization, methods
/// from `m` on; the first one that does ends the search.
pub open spec fn method_auth_spec(item: Seq<(Seq<char>, Json)>, m: nat) -> Outcome<bool>
    decreases 8 - m,
{
    if m >= 8 {
        Ok(false)
    } else {
        match lookup(item, http_methods()[m as int]) {
            None => method_auth_spec(item, m + 1),
            Some(opj) => match as_object(opj) {
                None => Err("operation must be an object"@),
                Some(op) => match operation_auth_spec(op) {
                    Err(e) => Err(e),
                    Ok(true) => Ok(true),
                    Ok(false) => method_auth_spec(item, m + 1),
                },
            },
        }
    }
}

/// Whether any operation requires authorization, paths read in order.
pub open spec fn paths_auth_spec(paths: Seq<(Seq<char>, Json)>) -> Outcome<bool>
    decreases paths.len(),
{
    if paths.len() == 0 {
        Ok(false)
    } else {
        match as_object(paths[0].1) {
            None => Err("path item must be an object"@),
            Some(item) => match method_auth_spec(item, 0) {
                Err(e) => Err(e),
                Ok(true) => Ok(true),
                Ok(false) => paths_auth_spec(paths.drop_first()),
            },
        }
    }
}

/// Whether any operation of the document requires authorization.
pub open spec fn requires_auth_spec(doc: Json) -> Outcome<bool> {
    match top_level_object_spec(doc, "paths"@) {
        Err(e) => Err(e),
        Ok(paths) => paths_auth_spec(paths),
    }
}

/// The server list given to a document that has none.
pub open spec fn synthetic_servers() -> Json {
    Json::Array(seq![Json::Object(seq![("url"@, Json::Str("http://127.0.0.1:4010"@))])])
}

/// Whether the root object has no server list, or an empty one.
pub open spec fn lacks_servers(root: Seq<(Seq<char>, Json)>) -> bool {
    match lookup(root, "servers"@) {
        None => true,
        Some(Json::Array(items)) => items.len() == 0,
        Some(_) => false,
    }
}

/// The root object with a server list when it had none or an empty one.
pub open spec fn servers_spec(root: Seq<(Seq<char>, Json)>) -> Seq<(Seq<char>, Json)> {
    if lacks_servers(root) {
        put_member(root, "servers"@, synthetic_servers())
    } else {
        root
    }
}

/// The root tag entries by name; a later entry with the same name wins.
pub open spec fn tag_entries_spec(acc: Seq<(Seq<char>, Json)>, entries: Seq<Json>) -> Outcome<Seq<(Seq<char>, Json)>>
    decreases entries.len(),
{
    if entries.len() == 0 {
        Ok(acc)
    } else {
        match as_object(entries[0]) {
            None => Err("tag entry must be an object"@),
            Some(o) => match string_field_spec(o, "name"@) {
                Err(e) => Err(e),
                Ok(name) => tag_entries_spec(sorted_insert(acc, name, entries[0]), entries.drop_first()),
            },
        }
    }
}

pub open spec fn existing_tags_spec(root: Seq<(Seq<char>, Json)>) -> Outcome<Seq<(Seq<char>, Json)>> {
    match lookup(root, "tags"@) {
        None => Ok(seq![]),
        Some(v) => match as_array(v) {
            None => Err("top-level tags must be an array"@),
            Some(entries) => tag_entries_spec(seq![], entries),
        },
    }
}

/// A tag entry holding only a name.
pub open spec fn tag_object(t: Seq<char>) -> Json {
    Json::Object(seq![("name"@, Json::Str(t))])
}

/// The root entry for tag `t`: the existing one, else a new one.
pub open spec fn root_tag(existing: Seq<(Seq<char>, Json)>, t: Seq<char>) -> Json {
    match lookup(existing, t) {
        Some(e) => e,
        None => tag_object(t),
    }
}

pub open spec fn root_tag_list(existing: Seq<(Seq<char>, Json)>, tags: Seq<Seq<char>>) -> Seq<Json> {
    Seq::new(tags.len(), |i: int| root_tag(existing, tags[i]))
}

/// The root object whose `tags` list has one entry per operation tag, in
/// order.
pub open spec fn root_tags_spec(root: Seq<(Seq<char>, Json)>, tags: Seq<Seq<char>>) -> Outcome<Seq<(Seq<char>, Json)>> {
    match existing_tags_spec(root) {
        Err(e) => Err(e),
        Ok(existing) => Ok(put_member(root, "tags"@, Json::Array(root_tag_list(existing, tags)))),
    }
}

/// The bearer security scheme a document gets when it has none.
pub open spec fn bearer_scheme() -> Json {
    Json::Object(seq![("bearerFormat"@, Json::Str("JWT"@)), ("scheme"@, Json::Str("bearer"@)), ("type"@, Json::Str("http"@))])
}

/// The root object with an `Authorization` security scheme.
pub open spec fn security_spec(root: Seq<(Seq<char>, Json)>) -> Outcome<Seq<(Seq<char>, Json)>> {
    let components = match lookup(root, "components"@) {
        Some(c) => c,
        None => Json::Object(seq![]),
    };
    match as_object(components) {
        None => Err("components must be an object"@),
        Some(co) => {
            let schemes = match lookup(co, "securitySchemes"@) {
                Some(x) => x,
                None => Json::Object(seq![]),
            };
            match as_object(schemes) {
                None => Err("components.securitySchemes must be an object"@),
                Some(so) => {
                    let so2 = if lookup(so, "Authorization"@) is Some {
                        so
                    } else {
                        put_member(so, "Authorization"@, bearer_scheme())
                    };
                    Ok(put_member(root, "components"@, Json::Object(put_member(co, "securitySchemes"@, Json::Object(so2)))))
                },
            }
        },
    }
}

/// The normalized document.
pub open spec fn normalize_spec(doc: Json) -> Outcome<Json> {
    match operation_tags_spec(doc) {
        Err(e) => Err(e),
        Ok(tags) => match requires_auth_spec(doc) {
            Err(e) => Err(e),
            Ok(auth) => match as_object(doc) {
                None => Err("OpenAPI document must be a JSON object"@),
                Some(root) => match root_tags_spec(servers_spec(root), tags) {
                    Err(e) => Err(e),
                    Ok(r2) => if auth {
                        match security_spec(r2) {
                            Err(e) => Err(e),
                            Ok(r3) => Ok(Json::Object(r3)),
                        }
                    } else {
                        Ok(Json::Object(r2))
                    },
                },
            },
        },
    }
}

fn method_requires_authorization(item: &Vec<JsonMember>) -> (r: Result<bool, ContractError>)
    ensures
        outcome_is(r, method_auth_spec(members_view(item@), 0), |b: bool| b),
{
    let ghost iv = members_view(item@);
    let mut m: usize = 0;
    while m < 8
        invariant
            iv == members_view(item@),
            m <= 8,
            method_auth_spec(iv, 0) == method_auth_spec(iv, m as nat),
        decreases 8 - m,
    {
        let (name, _) = method_at(m);
        match member(item, name) {
            None => {},
            Some(opj) => {
                let op = match object_of(opj) {
                    None => return Err(invalid("operation must be an object")),
                    Some(o) => o,
                };
                match operation_has_authorization(op) {
                    Ok(true) => return Ok(true),
                    Ok(false) => {},
                    Err(e) => return Err(e),
                }
            },
        }
        m = m + 1;
    }
    Ok(false)
}

fn operation_requires_authorization(doc: &JsonValue) -> (r: Result<bool, ContractError>)
    ensures
        outcome_is(r, requires_auth_spec(json_view(*doc)), |b: bool| b),
{
    let paths = match top_level_object(doc, "paths") {
        Ok(p) => p,
        Err(e) => return Err(e),
    };
    let ghost pv = members_view(paths@);
    let mut i: usize = 0;
    assert(pv.skip(0) =~= pv);
    while i < paths.len()
        invariant
            top_level_object_spec(json_view(*doc), "paths"@) == Ok::<Seq<(Seq<char>, Json)>, Seq<char>>(pv),
            pv == members_view(paths@),
            i <= pv.len(),
            paths_auth_spec(pv) == paths_auth_spec(pv.skip(i as int)),
        decreases pv.len() - i,
    {
        assert(pv.skip(i as int).drop_first() =~= pv.skip(i + 1));
        assert(pv.skip(i as int)[0] == pv[i as int]);
        let item = match object_of(&paths[i].value) {
            None => return Err(invalid("path item must be an object")),
            Some(o) => o,
        };
        match method_requires_authorization(item) {
            Ok(true) => return Ok(true),
            Ok(false) => {},
            Err(e) => return Err(e),
        }
        i = i + 1;
    }
    Ok(false)
}

fn synthetic_servers_value() -> (r: JsonValue)
    ensures
        json_view(r) == synthetic_servers(),
{
    let url = JsonMember { key: "url".to_owned(), value: JsonValue::String("http://127.0.0.1:4010".to_owned()) };
    let server_members = vec![url];
    proof {
        lemma_object_view(server_members);
        assert(members_view(server_members@) =~= seq![("url"@, Json::Str("http://127.0.0.1:4010"@))]);
    }
    let items = vec![JsonValue::Object(server_members)];
    proof {
        lemma_array_view(items);
        assert(items_view(items@) =~= seq![Json::Object(seq![("url"@, Json::Str("http://127.0.0.1:4010"@))])]);
    }
    JsonValue::Array(items)
}

fn ensure_servers(root: &mut Vec<JsonMember>)
    ensures
        members_view(final(root)@) == servers_spec(members_view(old(root)@)),
{
    let needs = match member(root, "servers") {
        None => true,
        Some(v) => match v {
            JsonValue::Array(items) => {
                proof {
                    lemma_array_view(*items);
                }
                items.len() == 0
            },
            _ => false,
        },
    };
    if needs {
        set_member(root, "servers", synthetic_servers_value());
    }
}

fn tag_object_value(t: &String) -> (r: JsonValue)
    ensures
        json_view(r) == tag_object(t@),
{
    let ms = vec![JsonMember { key: "name".to_owned(), value: JsonValue::String(t.clone()) }];
    proof {
        lemma_object_view(ms);
        assert(members_view(ms@) =~= seq![("name"@, Json::Str(t@))]);
    }
    JsonValue::Object(ms)
}

fn existing_tags(root: &Vec<JsonMember>) -> (r: Result<Vec<(String, JsonValue)>, ContractError>)
    ensures
        outcome_is(r, existing_tags_spec(members_view(root@)), |v: Vec<(String, JsonValue)>| entries_view(v@)),
{
    let mut acc: Vec<(String, JsonValue)> = Vec::new();
    assert(entries_view(acc@) =~= seq![]);
    let v = match member(root, "tags") {
        None => return Ok(acc),
        Some(v) => v,
    };
    let entries = match array_of(v) {
        None => return Err(invalid("top-level tags must be an array")),
        Some(a) => a,
    };
    let ghost ev = items_view(entries@);
    let mut i: usize = 0;
    assert(ev.skip(0) =~= ev);
    while i < entries.len()
        invariant
            lookup(members_view(root@), "tags"@) == Some(json_view(*v)),
            as_array(json_view(*v)) == Some(ev),
            ev == items_view(entries@),
            i <= ev.len(),
            tag_entries_spec(seq![], ev) == tag_entries_spec(entries_view(acc@), ev.skip(i as int)),
        decreases ev.len() - i,
    {
        assert(ev.skip(i as int).drop_first() =~= ev.skip(i + 1));
        assert(ev.skip(i as int)[0] == ev[i as int]);
        let o = match object_of(&entries[i]) {
            None => return Err(invalid("tag entry must be an object")),
            Some(o) => o,
        };
        let name = match string_field(o, "name") {
            Ok(n) => n,
            Err(e) => return Err(e),
        };
        let copy = clone_json(&entries[i]);
        insert_entry(&mut acc, name, copy);
        i = i + 1;
    }
    Ok(acc)
}

fn find_entry<'a>(entries: &'a Vec<(String, JsonValue)>, key: &str) -> (r: Option<&'a JsonValue>)
    ensures
        match r {
            Some(v) => lookup(entries_view(entries@), key@) == Some(json_view(*v)),
            None => lookup(entries_view(entries@), key@) is None,
        },
{
    let ghost ev = entries_view(entries@);
    let mut i: usize = 0;
    while i < entries.len()
        invariant
            ev == entries_view(entries@),
            i <= ev.len(),
            forall|j: int| 0 <= j < i ==> (#[trigger] ev[j]).0 != key@,
        decreases ev.len() - i,
    {
        if str_equal(entries[i].0.as_str(), key) {
            proof {
                crate::maps::lemma_lookup_index(ev, key@, i as int);
            }
            return Some(&entries[i].1);
        }
        i = i + 1;
    }
    proof {
        crate::maps::lemma_lookup_absent(ev, key@);
    }
    None
}

fn ensure_complete_root_tags(root: &mut Vec<JsonMember>, tags: &Vec<String>) -> (r: Result<(), ContractError>)
    ensures
        outcome_is(r, root_tags_spec(members_view(old(root)@), strings_view(*tags)), |u: ()| members_view(final(root)@)),
{
    let existing = match existing_tags(root) {
        Ok(e) => e,
        Err(e) => return Err(e),
    };
    let ghost ex = entries_view(existing@);
    let ghost tv = strings_view(*tags);
    let mut list: Vec<JsonValue> = Vec::new();
    let mut i: usize = 0;
    while i < tags.len()
        invariant
            ex == entries_view(existing@),
            tv == strings_view(*tags),
            i <= tv.len(),
            list@.len() == i,
            forall|j: int| 0 <= j < i ==> json_view(#[trigger] list@[j]) == root_tag(ex, tv[j]),
        decreases tv.len() - i,
    {
        let entry = match find_entry(&existing, tags[i].as_str()) {
            Some(e) => clone_json(e),
            None => tag_object_value(&tags[i]),
        };
        list.push(entry);
        i = i + 1;
    }
    proof {
        lemma_array_view(list);
        assert(items_view(list@) =~= root_tag_list(ex, tv));
    }
    set_member(root, "tags", JsonValue::Array(list));
    Ok(())
}

fn bearer_scheme_value() -> (r: JsonValue)
    ensures
        json_view(r) == bearer_scheme(),
{
    let ms = vec![
        JsonMember { key: "bearerFormat".to_owned(), value: JsonValue::String("JWT".to_owned()) },
        JsonMember { key: "scheme".to_owned(), value: JsonValue::String("bearer".to_owned()) },
        JsonMember { key: "type".to_owned(), value: JsonValue::String("http".to_owned()) },
    ];
    proof {
        lemma_object_view(ms);
        assert(members_view(ms@) =~= seq![
            ("bearerFormat"@, Json::Str("JWT"@)),
            ("scheme"@, Json::Str("bearer"@)),
            ("type"@, Json::Str("http"@)),
        ]);
    }
    JsonValue::Object(ms)
}

/// The members of a copy of member `key`, or of an empty object when there
/// is no such member; `None` when the member is not an object.
fn object_member_or_empty(ms: &Vec<JsonMember>, key: &str) -> (r: Option<Vec<JsonMember>>)
    ensures
        match r {
            Some(o) => as_object(
                match lookup(members_view(ms@), key@) {
                    Some(c) => c,
                    None => Json::Object(seq![]),
                },
            ) == Some(members_view(o@)),
            None => as_object(
                match lookup(members_view(ms@), key@) {
                    Some(c) => c,
                    None => Json::Object(seq![]),
                },
            ) is None,
        },
{
    match member(ms, key) {
        None => {
            let empty: Vec<JsonMember> = Vec::new();
            assert(members_view(empty@) =~= seq![]);
            Some(empty)
        },
        Some(v) => match clone_json(v) {
            JsonValue::Object(o) => {
                proof {
                    lemma_object_view(o);
                }
                Some(o)
            },
            _ => None,
        },
    }
}

fn ensure_authorization_security_scheme(root: &mut Vec<JsonMember>) -> (r: Result<(), ContractError>)
    ensures
        outcome_is(r, security_spec(members_view(old(root)@)), |u: ()| members_view(final(root)@)),
{
    let mut co = match object_member_or_empty(root, "components") {
        None => return Err(invalid("components must be an object")),
        Some(o) => o,
    };
    let mut so = match object_member_or_empty(&co, "securitySchemes") {
        None => return Err(invalid("components.securitySchemes must be an object")),
        Some(o) => o,
    };
    if member(&so, "Authorization").is_none() {
        set_member(&mut so, "Authorization", bearer_scheme_value());
    }
    let ghost sv = members_view(so@);
    proof {
        lemma_object_view(so);
    }
    set_member(&mut co, "securitySchemes", JsonValue::Object(so));
    let ghost cv = members_view(co@);
    proof {
        lemma_object_view(co);
    }
    set_member(root, "components", JsonValue::Object(co));
    Ok(())
}

/// Normalizes a contract document: adds a server when it has none, lists
/// every operation tag at the root, and declares the bearer security scheme
/// when an operation requires authorization.
pub fn normalize_contract(source: &JsonValue) -> (r: Result<JsonValue, ContractError>)
    ensures
        outcome_is(r, normalize_spec(json_view(*source)), |d: JsonValue| json_view(d)),
{
    let tags = match collect_operation_tags(source) {
        Ok(t) => t,
        Err(e) => return Err(e),
    };
    let auth = match operation_requires_authorization(source) {
        Ok(b) => b,
        Err(e) => return Err(e),
    };
    let mut root = match clone_json(source) {
        JsonValue::Object(ms) => {
            proof {
                lemma_object_view(ms);
            }
            ms
        },
        _ => return Err(invalid("OpenAPI document must be a JSON object")),
    };
    ensure_servers(&mut root);
    match ensure_complete_root_tags(&mut root, &tags) {
        Ok(()) => {},
        Err(e) => return Err(e),
    }
    if auth {
        match ensure_authorization_security_scheme(&mut root) {
            Ok(()) => {},
            Err(e) => return Err(e),
        }
    }
    proof {
        lemma_object_view(root);
    }
    Ok(JsonValue::Object(root))
}

// ---------------------------------------------------------------------------
// Artifacts.
// ---------------------------------------------------------------------------

/// Build-time artifacts produced from the normalized contract.
#[derive(Clone, Debug)]
pub struct GeneratedArtifacts {
    /// Pretty-printed normalized contract JSON.
    pub normalized_json: String,
    /// Generated contract registry metadata.
    pub registry: ContractRegistry,
}

/// A relative path joined onto `base`, as `Path::join` joins a relative path:
/// with a `/` between them unless `base` is empty or already ends with one.
pub open spec fn join_path_spec(base: Seq<char>, rel: Seq<char>) -> Seq<char> {
    if base.len() == 0 {
        rel
    } else if base.last() == '/' {
        base + rel
    } else {
        base + seq!['/'] + rel
    }
}

fn join_path(base: &str, rel: &str) -> (r: String)
    ensures
        r@ == join_path_spec(base@, rel@),
{
    let mut cs = chars_of(base);
    if cs.len() > 0 && cs[cs.len() - 1] != '/' {
        cs.push('/');
    }
    push_str(&mut cs, rel);
    assert(cs@ =~= join_path_spec(base@, rel@));
    string_of(cs.as_slice())
}

/// The source contract path, from a crate manifest directory.
pub fn source_contract_path(manifest_dir: &str) -> (r: String)
    ensures
        r@ == join_path_spec(manifest_dir@, "../../docs/openai.json"@),
{
    join_path(manifest_dir, "../../docs/openai.json")
}

/// The normalized contract path, from a crate manifest directory.
pub fn normalized_contract_path(manifest_dir: &str) -> (r: String)
    ensures
        r@ == join_path_spec(manifest_dir@, "../../target/prism/openai.prism.json"@),
{
    join_path(manifest_dir, "../../target/prism/openai.prism.json")
}

/// Normalizes a source document and builds the registry of the normalized
/// document.
pub fn normalize_and_build(source: &JsonValue) -> (r: Result<(JsonValue, ContractRegistry), ContractError>)
    ensures
        match r {
            Ok((n, reg)) => normalize_spec(json_view(*source)) == Ok::<Json, Seq<char>>(json_view(n)) && registry_spec(
                json_view(n),
            ) == Ok::<RegistryModel, Seq<char>>(reg@),
            Err(ContractError::InvalidDocument(m)) => match normalize_spec(json_view(*source)) {
                Err(e) => e == m@,
                Ok(n) => registry_spec(n) == Err::<RegistryModel, Seq<char>>(m@),
            },
            Err(ContractError::Json(_)) => false,
        },
{
    let normalized = match normalize_contract(source) {
        Ok(n) => n,
        Err(e) => return Err(e),
    };
    match build_registry(&normalized) {
        Ok(reg) => Ok((normalized, reg)),
        Err(e) => Err(e),
    }
}

/// Parses a contract document from its text.
pub fn parse_document(text: &str) -> (r: Result<JsonValue, ContractError>)
    ensures
        match r {
            Ok(d) => parsed_json(text.spec_bytes()) == Some(json_view(d)),
            Err(ContractError::Json(_)) => parsed_json(text.spec_bytes()) is None,
            Err(ContractError::InvalidDocument(_)) => false,
        },
{
    match parse_json(text.as_bytes()) {
        Ok(d) => Ok(d),
        Err(e) => Err(ContractError::Json(e)),
    }
}

/// The indented JSON text of a document.
pub fn normalized_json_text(doc: &JsonValue) -> (r: Result<String, ContractError>)
    ensures
        match r {
            Ok(t) => pretty_json_text(json_view(*doc)) == Some(t@),
            Err(ContractError::Json(_)) => pretty_json_text(json_view(*doc)) is None,
            Err(ContractError::InvalidDocument(_)) => false,
        },
{
    match write_pretty_json(doc) {
        Ok(t) => Ok(t),
        Err(e) => Err(ContractError::Json(e)),
    }
}

/// What generating artifacts from a source text yields, by cases: the text
/// must parse, the document normalize, the normalized document give a
/// registry, and the normalized document be written out.
pub open spec fn artifacts_result_is(r: Result<GeneratedArtifacts, ContractError>, source: Seq<u8>) -> bool {
    match parsed_json(source) {
        None => r matches Err(ContractError::Json(_)),
        Some(d) => match normalize_spec(d) {
            Err(m) => r matches Err(ContractError::InvalidDocument(t)) && t@ == m,
            Ok(n) => match registry_spec(n) {
                Err(m) => r matches Err(ContractError::InvalidDocument(t)) && t@ == m,
                Ok(reg) => match pretty_json_text(n) {
                    None => r matches Err(ContractError::Json(_)),
                    Some(text) => r matches Ok(a) && a.normalized_json@ == text && a.registry@ == reg,
                },
            },
        },
    }
}

/// Generates the artifacts of a source contract text: the normalized
/// document as indented JSON text, and the registry of the normalized
/// document.
pub fn generate_artifacts(source_text: &str) -> (r: Result<GeneratedArtifacts, ContractError>)
    ensures
        artifacts_result_is(r, source_text.spec_bytes()),
{
    let source = match parse_document(source_text) {
        Ok(d) => d,
        Err(e) => return Err(e),
    };
    let (normalized, registry) = match normalize_and_build(&source) {
        Ok(pair) => pair,
        Err(e) => return Err(e),
    };
    let normalized_json = match normalized_json_text(&normalized) {
        Ok(t) => t,
        Err(e) => return Err(e),
    };
    Ok(GeneratedArtifacts { normalized_json, registry })
}

// ---------------------------------------------------------------------------
// Laws.
// ---------------------------------------------------------------------------

proof fn lemma_member_names_distinct()
    ensures
        "paths"@ != "servers"@,
        "paths"@ != "tags"@,
        "paths"@ != "components"@,
        "components"@ != "servers"@,
        "components"@ != "tags"@,
        "servers"@ != "tags"@,
        "schemas"@ != "securitySchemes"@,
{
    reveal_strlit("paths");
    reveal_strlit("servers");
    reveal_strlit("tags");
    reveal_strlit("components");
    reveal_strlit("schemas");
    reveal_strlit("securitySchemes");
    assert("paths"@.len() == 5);
    assert("servers"@.len() == 7);
    assert("tags"@.len() == 4);
    assert("components"@.len() == 10);
    assert("schemas"@.len() == 7);
    assert("securitySchemes"@.len() == 15);
}

/// Normalization changes nothing but the root's `servers`, `tags` and
/// `components` members; inside `components` it changes nothing but
/// `securitySchemes`, and inside that nothing but `Authorization`. Every
/// other member keeps its value.
pub proof fn law_normalize_changes_only_servers_tags_and_schemes(doc: Json)
    requires
        normalize_spec(doc) is Ok,
    ensures
        as_object(doc) is Some,
        as_object(normalize_spec(doc)->Ok_0) is Some,
        forall|k: Seq<char>|
            k != "servers"@ && k != "tags"@ && k != "components"@ ==> #[trigger] lookup(
                as_object(normalize_spec(doc)->Ok_0)->0,
                k,
            ) == lookup(as_object(doc)->0, k),
        forall|co: Seq<(Seq<char>, Json)>, k: Seq<char>|
            lookup(as_object(doc)->0, "components"@) == Some(Json::Object(co)) && k != "securitySchemes"@ ==> (
            #[trigger] lookup(as_object(normalize_spec(doc)->Ok_0)->0, "components"@) matches Some(Json::Object(cn))
                && lookup(cn, k) == #[trigger] lookup(co, k)),
        forall|co: Seq<(Seq<char>, Json)>, so: Seq<(Seq<char>, Json)>, k: Seq<char>|
            lookup(as_object(doc)->0, "components"@) == Some(Json::Object(co)) && #[trigger] lookup(co, "securitySchemes"@)
                == Some(Json::Object(so)) && k != "Authorization"@ ==> (lookup(
                as_object(normalize_spec(doc)->Ok_0)->0,
                "components"@,
            ) matches Some(Json::Object(cn)) && lookup(cn, "securitySchemes"@) matches Some(Json::Object(sn)) && lookup(
                sn,
                k,
            ) == #[trigger] lookup(so, k)),
{
    lemma_member_names_distinct();
    let root = as_object(doc)->0;
    let tags = operation_tags_spec(doc)->Ok_0;
    let auth = requires_auth_spec(doc)->Ok_0;
    let r1 = servers_spec(root);
    let ex = existing_tags_spec(r1)->Ok_0;
    let tag_list = Json::Array(root_tag_list(ex, tags));
    let r2 = root_tags_spec(r1, tags)->Ok_0;
    assert(r2 == put_member(r1, "tags"@, tag_list));
    assert forall|k: Seq<char>| k != "servers"@ && k != "tags"@ implies #[trigger] lookup(r2, k) == lookup(root, k) by {
        lemma_put_member_other(root, "servers"@, synthetic_servers(), k);
        lemma_put_member_other(r1, "tags"@, tag_list, k);
    }
    if auth {
        let components = match lookup(r2, "components"@) {
            Some(c) => c,
            None => Json::Object(seq![]),
        };
        let co = as_object(components)->0;
        let schemes = match lookup(co, "securitySchemes"@) {
            Some(x) => x,
            None => Json::Object(seq![]),
        };
        let so = as_object(schemes)->0;
        let so2 = if lookup(so, "Authorization"@) is Some {
            so
        } else {
            put_member(so, "Authorization"@, bearer_scheme())
        };
        let cn = put_member(co, "securitySchemes"@, Json::Object(so2));
        let rn = put_member(r2, "components"@, Json::Object(cn));
        assert(normalize_spec(doc) == Ok::<Json, Seq<char>>(Json::Object(rn)));
        assert forall|k: Seq<char>| k != "servers"@ && k != "tags"@ && k != "components"@ implies #[trigger] lookup(rn, k)
            == lookup(root, k) by {
            lemma_put_member_other(r2, "components"@, Json::Object(cn), k);
            assert(lookup(r2, k) == lookup(root, k));
        }
        lemma_put_member_same(r2, "components"@, Json::Object(cn));
        assert(lookup(r2, "components"@) == lookup(root, "components"@));
        assert forall|co0: Seq<(Seq<char>, Json)>, k: Seq<char>|
            lookup(root, "components"@) == Some(Json::Object(co0)) && k != "securitySchemes"@ implies (
            #[trigger] lookup(rn, "components"@) matches Some(Json::Object(c1)) && lookup(c1, k) == #[trigger] lookup(co0, k)) by {
            lemma_put_member_other(co, "securitySchemes"@, Json::Object(so2), k);
        }
        lemma_put_member_same(co, "securitySchemes"@, Json::Object(so2));
        assert forall|co0: Seq<(Seq<char>, Json)>, so0: Seq<(Seq<char>, Json)>, k: Seq<char>|
            lookup(root, "components"@) == Some(Json::Object(co0)) && #[trigger] lookup(co0, "securitySchemes"@)
                == Some(Json::Object(so0)) && k != "Authorization"@ implies (lookup(rn, "components"@) matches Some(
            Json::Object(c1),
        ) && lookup(c1, "securitySchemes"@) matches Some(Json::Object(s1)) && lookup(s1, k) == #[trigger] lookup(
            so0,
            k,
        )) by {
            lemma_put_member_other(so, "Authorization"@, bearer_scheme(), k);
        }
    } else {
        assert(normalize_spec(doc) == Ok::<Json, Seq<char>>(Json::Object(r2)));
        assert(lookup(r2, "components"@) == lookup(root, "components"@));
    }
}

/// Normalizing a document whose registry can be built leaves the registry
/// unchanged: the same operations, tags, schemas and counts.
pub proof fn law_normalize_keeps_registry(doc: Json)
    requires
        registry_spec(doc) is Ok,
        normalize_spec(doc) is Ok,
    ensures
        registry_spec(normalize_spec(doc)->Ok_0) == registry_spec(doc),
{
    lemma_member_names_distinct();
    law_normalize_changes_only_servers_tags_and_schemes(doc);
    let n = normalize_spec(doc)->Ok_0;
    let root = as_object(doc)->0;
    let rn = as_object(n)->0;
    assert(lookup(rn, "paths"@) == lookup(root, "paths"@));
    assert(top_level_object_spec(n, "paths"@) == top_level_object_spec(doc, "paths"@));
    assert(operation_tags_spec(n) == operation_tags_spec(doc));
    let co = as_object(lookup(root, "components"@)->0)->0;
    assert(lookup(root, "components"@) == Some(Json::Object(co)));
    assert(lookup(co, "schemas"@) == lookup(co, "schemas"@));
    let cn = as_object(lookup(rn, "components"@)->0)->0;
    assert(lookup(cn, "schemas"@) == lookup(co, "schemas"@));
    assert(schema_names_spec(n) == schema_names_spec(doc));
}

/// Names strictly ascending, hence distinct.
pub open spec fn names_ascend(s: Seq<Seq<char>>) -> bool {
    forall|i: int, j: int| 0 <= i < j < s.len() ==> chars_lt(#[trigger] s[i], #[trigger] s[j])
}

proof fn lemma_insert_name(s: Seq<Seq<char>>, t: Seq<char>)
    requires
        names_ascend(s),
    ensures
        names_ascend(insert_name(s, t)),
        forall|x: Seq<char>| #[trigger] insert_name(s, t).contains(x) <==> (s.contains(x) || x == t),
    decreases s.len(),
{
    let r = insert_name(s, t);
    if s.len() == 0 {
        assert(r == seq![t]);
        assert forall|x: Seq<char>| #[trigger] r.contains(x) <==> (s.contains(x) || x == t) by {
            if r.contains(x) {
                let i = choose|i: int| 0 <= i < r.len() && r[i] == x;
                assert(i == 0);
            }
            if x == t {
                assert(r[0] == t);
            }
        }
    } else if s[0] == t {
        assert forall|x: Seq<char>| #[trigger] r.contains(x) <==> (s.contains(x) || x == t) by {
            if x == t {
                assert(s[0] == t);
            }
        }
    } else if chars_lt(t, s[0]) {
        assert(r =~= seq![t] + s);
        assert forall|i: int, j: int| 0 <= i < j < r.len() implies chars_lt(#[trigger] r[i], #[trigger] r[j]) by {
            if i == 0 {
                assert(r[j] == s[j - 1]);
                if j - 1 > 0 {
                    crate::text::lemma_chars_lt_transitive(t, s[0], s[j - 1]);
                }
            } else {
                assert(r[i] == s[i - 1]);
                assert(r[j] == s[j - 1]);
            }
        }
        assert forall|x: Seq<char>| #[trigger] r.contains(x) <==> (s.contains(x) || x == t) by {
            if r.contains(x) {
                let i = choose|i: int| 0 <= i < r.len() && r[i] == x;
                if i > 0 {
                    assert(s[i - 1] == x);
                }
            }
            if s.contains(x) {
                let i = choose|i: int| 0 <= i < s.len() && s[i] == x;
                assert(r[i + 1] == x);
            }
            if x == t {
                assert(r[0] == t);
            }
        }
    } else {
        let rest = s.drop_first();
        assert(names_ascend(rest)) by {
            assert forall|i: int, j: int| 0 <= i < j < rest.len() implies chars_lt(#[trigger] rest[i], #[trigger] rest[j]) by {
                assert(rest[i] == s[i + 1]);
                assert(rest[j] == s[j + 1]);
            }
        }
        lemma_insert_name(rest, t);
        let rr = insert_name(rest, t);
        assert(r =~= seq![s[0]] + rr);
        crate::text::lemma_chars_lt_total(t, s[0]);
        assert forall|j: int| 0 <= j < rr.len() implies chars_lt(s[0], #[trigger] rr[j]) by {
            assert(rr.contains(rr[j]));
            if rest.contains(rr[j]) {
                let m = choose|m: int| 0 <= m < rest.len() && rest[m] == rr[j];
                assert(s[m + 1] == rr[j]);
            }
        }
        assert forall|i: int, j: int| 0 <= i < j < r.len() implies chars_lt(#[trigger] r[i], #[trigger] r[j]) by {
            assert(r[j] == rr[j - 1]);
            if i > 0 {
                assert(r[i] == rr[i - 1]);
            }
        }
        assert forall|x: Seq<char>| #[trigger] r.contains(x) <==> (s.contains(x) || x == t) by {
            if r.contains(x) {
                let i = choose|i: int| 0 <= i < r.len() && r[i] == x;
                if i > 0 {
                    assert(rr[i - 1] == x);
                    assert(rr.contains(x));
                    if rest.contains(x) {
                        let m = choose|m: int| 0 <= m < rest.len() && rest[m] == x;
                        assert(s[m + 1] == x);
                    }
                }
            }
            if s.contains(x) {
                let i = choose|i: int| 0 <= i < s.len() && s[i] == x;
                if i > 0 {
                    assert(rest[i - 1] == x);
                    assert(rest.contains(x));
                    assert(rr.contains(x));
                    let m = choose|m: int| 0 <= m < rr.len() && rr[m] == x;
                    assert(r[m + 1] == x);
                } else {
                    assert(r[0] == x);
                }
            }
            if x == t {
                assert(rr.contains(t));
                let m = choose|m: int| 0 <= m < rr.len() && rr[m] == t;
                assert(r[m + 1] == t);
            }
        }
    }
}

proof fn lemma_method_tags(acc: Seq<Seq<char>>, item: Seq<(Seq<char>, Json)>, m: nat)
    requires
        names_ascend(acc),
        method_tags(acc, item, m) is Ok,
    ensures
        names_ascend(method_tags(acc, item, m)->Ok_0),
        forall|x: Seq<char>| acc.contains(x) ==> #[trigger] method_tags(acc, item, m)->Ok_0.contains(x),
    decreases 8 - m,
{
    if m < 8 {
        match lookup(item, http_methods()[m as int]) {
            None => {
                lemma_method_tags(acc, item, m + 1);
            },
            Some(opj) => {
                let op = as_object(opj)->0;
                let t = first_operation_tag_spec(op)->Ok_0;
                lemma_insert_name(acc, t);
                lemma_method_tags(insert_name(acc, t), item, m + 1);
            },
        }
    }
}

proof fn lemma_path_tags(acc: Seq<Seq<char>>, paths: Seq<(Seq<char>, Json)>)
    requires
        names_ascend(acc),
        path_tags(acc, paths) is Ok,
    ensures
        names_ascend(path_tags(acc, paths)->Ok_0),
        forall|x: Seq<char>| acc.contains(x) ==> #[trigger] path_tags(acc, paths)->Ok_0.contains(x),
    decreases paths.len(),
{
    if paths.len() > 0 {
        let item = as_object(paths[0].1)->0;
        lemma_method_tags(acc, item, 0);
        lemma_path_tags(method_tags(acc, item, 0)->Ok_0, paths.drop_first());
    }
}

/// The registry's tags are distinct and in ascending order.
pub proof fn law_registry_tags_ascend(doc: Json)
    requires
        registry_spec(doc) is Ok,
    ensures
        names_ascend(registry_spec(doc)->Ok_0.tags),
{
    let paths = top_level_object_spec(doc, "paths"@)->Ok_0;
    lemma_path_tags(seq![], paths);
}

/// Whether `e` is a tag entry named `k`.
pub open spec fn named(e: Json, k: Seq<char>) -> bool {
    as_object(e) is Some && string_field_spec(as_object(e)->0, "name"@) == Ok::<Seq<char>, Seq<char>>(k)
}

pub open spec fn entries_named(m: Seq<(Seq<char>, Json)>) -> bool {
    forall|k: Seq<char>| #[trigger] lookup(m, k) is Some ==> named(lookup(m, k)->0, k)
}

proof fn lemma_tag_entries_valid(acc: Seq<(Seq<char>, Json)>, entries: Seq<Json>)
    requires
        entries_named(acc),
        tag_entries_spec(acc, entries) is Ok,
    ensures
        entries_named(tag_entries_spec(acc, entries)->Ok_0),
    decreases entries.len(),
{
    if entries.len() > 0 {
        let o = as_object(entries[0])->0;
        let n = string_field_spec(o, "name"@)->Ok_0;
        let acc1 = sorted_insert(acc, n, entries[0]);
        assert forall|k: Seq<char>| #[trigger] lookup(acc1, k) is Some implies named(lookup(acc1, k)->0, k) by {
            if k == n {
                lemma_sorted_insert_lookup(acc, n, entries[0]);
            } else {
                lemma_sorted_insert_other(acc, n, entries[0], k);
            }
        }
        lemma_tag_entries_valid(acc1, entries.drop_first());
    }
}

proof fn lemma_root_tag_named(ex: Seq<(Seq<char>, Json)>, t: Seq<char>)
    requires
        entries_named(ex),
    ensures
        named(root_tag(ex, t), t),
{
    if lookup(ex, t) is None {
        let ms = seq![("name"@, Json::Str(t))];
        assert(lookup(ms, "name"@) == Some(Json::Str(t)));
    }
}

proof fn lemma_tag_entries_named(acc: Seq<(Seq<char>, Json)>, entries: Seq<Json>, names: Seq<Seq<char>>)
    requires
        entries.len() == names.len(),
        forall|i: int| 0 <= i < entries.len() ==> named(#[trigger] entries[i], names[i]),
        names_ascend(names),
    ensures
        tag_entries_spec(acc, entries) is Ok,
        forall|i: int| 0 <= i < entries.len() ==> lookup(tag_entries_spec(acc, entries)->Ok_0, #[trigger] names[i]) == Some(entries[i]),
        forall|k: Seq<char>| !names.contains(k) ==> #[trigger] lookup(tag_entries_spec(acc, entries)->Ok_0, k) == lookup(acc, k),
    decreases entries.len(),
{
    if entries.len() > 0 {
        assert(named(entries[0], names[0]));
        let acc1 = sorted_insert(acc, names[0], entries[0]);
        let rest_e = entries.drop_first();
        let rest_n = names.drop_first();
        assert forall|i: int| 0 <= i < rest_e.len() implies named(#[trigger] rest_e[i], rest_n[i]) by {
            assert(named(entries[i + 1], names[i + 1]));
        }
        assert forall|i: int, j: int| 0 <= i < j < rest_n.len() implies chars_lt(#[trigger] rest_n[i], #[trigger] rest_n[j]) by {
            assert(chars_lt(names[i + 1], names[j + 1]));
        }
        lemma_tag_entries_named(acc1, rest_e, rest_n);
        let r = tag_entries_spec(acc, entries)->Ok_0;
        assert(tag_entries_spec(acc, entries) == tag_entries_spec(acc1, rest_e));
        assert(!rest_n.contains(names[0])) by {
            if rest_n.contains(names[0]) {
                let j = choose|j: int| 0 <= j < rest_n.len() && rest_n[j] == names[0];
                assert(chars_lt(names[0], names[j + 1]));
                crate::text::lemma_chars_lt_irreflexive(names[0]);
            }
        }
        lemma_sorted_insert_lookup(acc, names[0], entries[0]);
        assert forall|i: int| 0 <= i < entries.len() implies lookup(r, #[trigger] names[i]) == Some(entries[i]) by {
            if i > 0 {
                assert(names[i] == rest_n[i - 1]);
                assert(entries[i] == rest_e[i - 1]);
            }
        }
        assert forall|k: Seq<char>| !names.contains(k) implies #[trigger] lookup(r, k) == lookup(acc, k) by {
            if rest_n.contains(k) {
                let j = choose|j: int| 0 <= j < rest_n.len() && rest_n[j] == k;
                assert(names[j + 1] == k);
            }
            assert(k != names[0]);
            lemma_sorted_insert_other(acc, names[0], entries[0], k);
        }
    }
}

/// Normalizing twice gives what normalizing once gives.
pub proof fn law_normalize_idempotent(doc: Json)
    requires
        normalize_spec(doc) is Ok,
    ensures
        normalize_spec(normalize_spec(doc)->Ok_0) == normalize_spec(doc),
{
    lemma_member_names_distinct();
    law_normalize_changes_only_servers_tags_and_schemes(doc);
    let n = normalize_spec(doc)->Ok_0;
    let root = as_object(doc)->0;
    let paths = top_level_object_spec(doc, "paths"@)->Ok_0;
    let tags = operation_tags_spec(doc)->Ok_0;
    let auth = requires_auth_spec(doc)->Ok_0;
    let r1 = servers_spec(root);
    let ex = existing_tags_spec(r1)->Ok_0;
    let list1 = root_tag_list(ex, tags);
    let r2 = put_member(r1, "tags"@, Json::Array(list1));
    assert(root_tags_spec(r1, tags) == Ok::<Seq<(Seq<char>, Json)>, Seq<char>>(r2));
    let rn = as_object(n)->0;
    assert(lookup(rn, "paths"@) == lookup(root, "paths"@));
    assert(top_level_object_spec(n, "paths"@) == top_level_object_spec(doc, "paths"@));
    assert(operation_tags_spec(n) == operation_tags_spec(doc));
    assert(requires_auth_spec(n) == requires_auth_spec(doc));
    // The server list is already there.
    lemma_put_member_same(root, "servers"@, synthetic_servers());
    lemma_put_member_other(r1, "tags"@, Json::Array(list1), "servers"@);
    lemma_put_member_same(r1, "tags"@, Json::Array(list1));
    if auth {
        assert(lookup(rn, "servers"@) == lookup(r2, "servers"@) && lookup(rn, "tags"@) == lookup(r2, "tags"@)) by {
            let components = match lookup(r2, "components"@) {
                Some(c) => c,
                None => Json::Object(seq![]),
            };
            let co = as_object(components)->0;
            let schemes = match lookup(co, "securitySchemes"@) {
                Some(x) => x,
                None => Json::Object(seq![]),
            };
            let so = as_object(schemes)->0;
            let so2 = if lookup(so, "Authorization"@) is Some {
                so
            } else {
                put_member(so, "Authorization"@, bearer_scheme())
            };
            let cn = put_member(co, "securitySchemes"@, Json::Object(so2));
            lemma_put_member_other(r2, "components"@, Json::Object(cn), "servers"@);
            lemma_put_member_other(r2, "components"@, Json::Object(cn), "tags"@);
        }
    }
    assert(lookup(rn, "servers"@) == lookup(r1, "servers"@));
    assert(servers_spec(rn) == rn);
    // The root tag list is already complete.
    assert(entries_named(ex)) by {
        match lookup(r1, "tags"@) {
            None => {},
            Some(v) => {
                lemma_tag_entries_valid(seq![], as_array(v)->0);
            },
        }
    }
    lemma_path_tags(seq![], paths);
    assert forall|i: int| 0 <= i < list1.len() implies named(#[trigger] list1[i], tags[i]) by {
        lemma_root_tag_named(ex, tags[i]);
    }
    lemma_tag_entries_named(seq![], list1, tags);
    let ex2 = tag_entries_spec(seq![], list1)->Ok_0;
    assert(existing_tags_spec(rn) == Ok::<Seq<(Seq<char>, Json)>, Seq<char>>(ex2));
    assert(root_tag_list(ex2, tags) =~= list1);
    lemma_put_member_unchanged(rn, "tags"@, Json::Array(list1));
    assert(root_tags_spec(servers_spec(rn), tags) == Ok::<Seq<(Seq<char>, Json)>, Seq<char>>(rn));
    if auth {
        let components = match lookup(r2, "components"@) {
            Some(c) => c,
            None => Json::Object(seq![]),
        };
        let co = as_object(components)->0;
        let schemes = match lookup(co, "securitySchemes"@) {
            Some(x) => x,
            None => Json::Object(seq![]),
        };
        let so = as_object(schemes)->0;
        let so2 = if lookup(so, "Authorization"@) is Some {
            so
        } else {
            put_member(so, "Authorization"@, bearer_scheme())
        };
        let cn = put_member(co, "securitySchemes"@, Json::Object(so2));
        assert(rn == put_member(r2, "components"@, Json::Object(cn)));
        lemma_put_member_same(r2, "components"@, Json::Object(cn));
        lemma_put_member_same(co, "securitySchemes"@, Json::Object(so2));
        lemma_put_member_same(so, "Authorization"@, bearer_scheme());
        assert(lookup(so2, "Authorization"@) is Some);
        lemma_put_member_unchanged(cn, "securitySchemes"@, Json::Object(so2));
        lemma_put_member_unchanged(rn, "components"@, Json::Object(cn));
        assert(security_spec(rn) == Ok::<Seq<(Seq<char>, Json)>, Seq<char>>(rn));
    }
}

/// Operations in ascending order of identifier.
pub open spec fn ids_ordered(s: Seq<OperationModel>) -> bool {
    forall|i: int, j: int| 0 <= i < j < s.len() ==> !chars_lt(#[trigger] s[j].operation_id, #[trigger] s[i].operation_id)
}

/// Responses in ascending order of status.
pub open spec fn statuses_ordered(s: Seq<ResponseModel>) -> bool {
    forall|i: int, j: int| 0 <= i < j < s.len() ==> (#[trigger] s[i]).status <= (#[trigger] s[j]).status
}

/// Names in ascending order.
pub open spec fn names_ordered(s: Seq<Seq<char>>) -> bool {
    forall|i: int, j: int| 0 <= i < j < s.len() ==> !chars_lt(#[trigger] s[j], #[trigger] s[i])
}

proof fn lemma_insert_by_id(s: Seq<OperationModel>, o: OperationModel)
    requires
        ids_ordered(s),
    ensures
        ids_ordered(insert_by_id(s, o)),
        forall|x: OperationModel| #[trigger] insert_by_id(s, o).contains(x) ==> s.contains(x) || x == o,
    decreases s.len(),
{
    let r = insert_by_id(s, o);
    if s.len() == 0 {
        assert forall|x: OperationModel| #[trigger] r.contains(x) implies s.contains(x) || x == o by {
            let i = choose|i: int| 0 <= i < r.len() && r[i] == x;
        }
    } else if chars_lt(o.operation_id, s[0].operation_id) {
        assert(r =~= seq![o] + s);
        assert forall|i: int, j: int| 0 <= i < j < r.len() implies !chars_lt(#[trigger] r[j].operation_id, #[trigger] r[i].operation_id) by {
            if i == 0 {
                assert(r[j] == s[j - 1]);
                if chars_lt(s[j - 1].operation_id, o.operation_id) {
                    crate::text::lemma_chars_lt_transitive(s[j - 1].operation_id, o.operation_id, s[0].operation_id);
                    if j - 1 == 0 {
                        crate::text::lemma_chars_lt_irreflexive(s[0].operation_id);
                    }
                }
            } else {
                assert(r[i] == s[i - 1]);
                assert(r[j] == s[j - 1]);
            }
        }
        assert forall|x: OperationModel| #[trigger] r.contains(x) implies s.contains(x) || x == o by {
            let i = choose|i: int| 0 <= i < r.len() && r[i] == x;
            if i > 0 {
                assert(s[i - 1] == x);
            }
        }
    } else {
        let rest = s.drop_first();
        assert(ids_ordered(rest)) by {
            assert forall|i: int, j: int| 0 <= i < j < rest.len() implies !chars_lt(#[trigger] rest[j].operation_id, #[trigger] rest[i].operation_id) by {
                assert(rest[i] == s[i + 1]);
                assert(rest[j] == s[j + 1]);
            }
        }
        lemma_insert_by_id(rest, o);
        let rr = insert_by_id(rest, o);
        assert(r =~= seq![s[0]] + rr);
        assert forall|j: int| 0 <= j < rr.len() implies !chars_lt(#[trigger] rr[j].operation_id, s[0].operation_id) by {
            assert(rr.contains(rr[j]));
            if rest.contains(rr[j]) {
                let m = choose|m: int| 0 <= m < rest.len() && rest[m] == rr[j];
                assert(s[m + 1] == rr[j]);
            }
        }
        assert forall|i: int, j: int| 0 <= i < j < r.len() implies !chars_lt(#[trigger] r[j].operation_id, #[trigger] r[i].operation_id) by {
            assert(r[j] == rr[j - 1]);
            if i > 0 {
                assert(r[i] == rr[i - 1]);
            }
        }
        assert forall|x: OperationModel| #[trigger] r.contains(x) implies s.contains(x) || x == o by {
            let i = choose|i: int| 0 <= i < r.len() && r[i] == x;
            if i > 0 {
                assert(rr[i - 1] == x);
                assert(rr.contains(x));
                if rest.contains(x) {
                    let m = choose|m: int| 0 <= m < rest.len() && rest[m] == x;
                    assert(s[m + 1] == x);
                }
            }
        }
    }
}

proof fn lemma_sort_by_id(s: Seq<OperationModel>)
    ensures
        ids_ordered(sort_by_id(s)),
        forall|x: OperationModel| #[trigger] sort_by_id(s).contains(x) ==> s.contains(x),
        sort_by_id(s).len() == s.len(),
    decreases s.len(),
{
    if s.len() > 0 {
        lemma_sort_by_id(s.drop_last());
        lemma_insert_by_id(sort_by_id(s.drop_last()), s.last());
        lemma_insert_by_id_len(sort_by_id(s.drop_last()), s.last());
        assert forall|x: OperationModel| #[trigger] sort_by_id(s).contains(x) implies s.contains(x) by {
            if sort_by_id(s.drop_last()).contains(x) {
                assert(s.drop_last().contains(x));
                let m = choose|m: int| 0 <= m < s.drop_last().len() && s.drop_last()[m] == x;
                assert(s[m] == x);
            } else {
                assert(s[s.len() - 1] == x);
            }
        }
    }
}

proof fn lemma_insert_by_id_len(s: Seq<OperationModel>, o: OperationModel)
    ensures
        insert_by_id(s, o).len() == s.len() + 1,
    decreases s.len(),
{
    if s.len() > 0 && !chars_lt(o.operation_id, s[0].operation_id) {
        lemma_insert_by_id_len(s.drop_first(), o);
    }
}

proof fn lemma_insert_by_status(s: Seq<ResponseModel>, r: ResponseModel)
    requires
        statuses_ordered(s),
    ensures
        statuses_ordered(insert_by_status(s, r)),
        forall|x: ResponseModel| #[trigger] insert_by_status(s, r).contains(x) ==> s.contains(x) || x == r,
    decreases s.len(),
{
    let out = insert_by_status(s, r);
    if s.len() == 0 {
        assert forall|x: ResponseModel| #[trigger] out.contains(x) implies s.contains(x) || x == r by {
            let i = choose|i: int| 0 <= i < out.len() && out[i] == x;
        }
    } else if r.status < s[0].status {
        assert(out =~= seq![r] + s);
        assert forall|i: int, j: int| 0 <= i < j < out.len() implies (#[trigger] out[i]).status <= (#[trigger] out[j]).status by {
            if i == 0 {
                assert(out[j] == s[j - 1]);
                assert(s[0].status <= s[j - 1].status);
            } else {
                assert(out[i] == s[i - 1]);
                assert(out[j] == s[j - 1]);
            }
        }
        assert forall|x: ResponseModel| #[trigger] out.contains(x) implies s.contains(x) || x == r by {
            let i = choose|i: int| 0 <= i < out.len() && out[i] == x;
            if i > 0 {
                assert(s[i - 1] == x);
            }
        }
    } else {
        let rest = s.drop_first();
        assert(statuses_ordered(rest)) by {
            assert forall|i: int, j: int| 0 <= i < j < rest.len() implies (#[trigger] rest[i]).status <= (#[trigger] rest[j]).status by {
                assert(rest[i] == s[i + 1]);
                assert(rest[j] == s[j + 1]);
            }
        }
        lemma_insert_by_status(rest, r);
        let rr = insert_by_status(rest, r);
        assert(out =~= seq![s[0]] + rr);
        assert forall|j: int| 0 <= j < rr.len() implies s[0].status <= (#[trigger] rr[j]).status by {
            assert(rr.contains(rr[j]));
            if rest.contains(rr[j]) {
                let m = choose|m: int| 0 <= m < rest.len() && rest[m] == rr[j];
                assert(s[m + 1] == rr[j]);
            }
        }
        assert forall|i: int, j: int| 0 <= i < j < out.len() implies (#[trigger] out[i]).status <= (#[trigger] out[j]).status by {
            assert(out[j] == rr[j - 1]);
            if i > 0 {
                assert(out[i] == rr[i - 1]);
            }
        }
        assert forall|x: ResponseModel| #[trigger] out.contains(x) implies s.contains(x) || x == r by {
            let i = choose|i: int| 0 <= i < out.len() && out[i] == x;
            if i > 0 {
                assert(rr[i - 1] == x);
                assert(rr.contains(x));
                if rest.contains(x) {
                    let m = choose|m: int| 0 <= m < rest.len() && rest[m] == x;
                    assert(s[m + 1] == x);
                }
            }
        }
    }
}

proof fn lemma_sort_by_status(s: Seq<ResponseModel>)
    ensures
        statuses_ordered(sort_by_status(s)),
    decreases s.len(),
{
    if s.len() > 0 {
        lemma_sort_by_status(s.drop_last());
        lemma_insert_by_status(sort_by_status(s.drop_last()), s.last());
    }
}

proof fn lemma_insert_sorted_name(s: Seq<Seq<char>>, t: Seq<char>)
    requires
        names_ordered(s),
    ensures
        names_ordered(insert_sorted_name(s, t)),
        forall|x: Seq<char>| #[trigger] insert_sorted_name(s, t).contains(x) ==> s.contains(x) || x == t,
    decreases s.len(),
{
    let r = insert_sorted_name(s, t);
    if s.len() == 0 {
        assert forall|x: Seq<char>| #[trigger] r.contains(x) implies s.contains(x) || x == t by {
            let i = choose|i: int| 0 <= i < r.len() && r[i] == x;
        }
    } else if chars_lt(t, s[0]) {
        assert(r =~= seq![t] + s);
        assert forall|i: int, j: int| 0 <= i < j < r.len() implies !chars_lt(#[trigger] r[j], #[trigger] r[i]) by {
            if i == 0 {
                assert(r[j] == s[j - 1]);
                if chars_lt(s[j - 1], t) {
                    crate::text::lemma_chars_lt_transitive(s[j - 1], t, s[0]);
                    if j - 1 == 0 {
                        crate::text::lemma_chars_lt_irreflexive(s[0]);
                    }
                }
            } else {
                assert(r[i] == s[i - 1]);
                assert(r[j] == s[j - 1]);
            }
        }
        assert forall|x: Seq<char>| #[trigger] r.contains(x) implies s.contains(x) || x == t by {
            let i = choose|i: int| 0 <= i < r.len() && r[i] == x;
            if i > 0 {
                assert(s[i - 1] == x);
            }
        }
    } else {
        let rest = s.drop_first();
        assert(names_ordered(rest)) by {
            assert forall|i: int, j: int| 0 <= i < j < rest.len() implies !chars_lt(#[trigger] rest[j], #[trigger] rest[i]) by {
                assert(rest[i] == s[i + 1]);
                assert(rest[j] == s[j + 1]);
            }
        }
        lemma_insert_sorted_name(rest, t);
        let rr = insert_sorted_name(rest, t);
        assert(r =~= seq![s[0]] + rr);
        assert forall|j: int| 0 <= j < rr.len() implies !chars_lt(#[trigger] rr[j], s[0]) by {
            assert(rr.contains(rr[j]));
            if rest.contains(rr[j]) {
                let m = choose|m: int| 0 <= m < rest.len() && rest[m] == rr[j];
                assert(s[m + 1] == rr[j]);
            }
        }
        assert forall|i: int, j: int| 0 <= i < j < r.len() implies !chars_lt(#[trigger] r[j], #[trigger] r[i]) by {
            assert(r[j] == rr[j - 1]);
            if i > 0 {
                assert(r[i] == rr[i - 1]);
            }
        }
        assert forall|x: Seq<char>| #[trigger] r.contains(x) implies s.contains(x) || x == t by {
            let i = choose|i: int| 0 <= i < r.len() && r[i] == x;
            if i > 0 {
                assert(rr[i - 1] == x);
                assert(rr.contains(x));
                if rest.contains(x) {
                    let m = choose|m: int| 0 <= m < rest.len() && rest[m] == x;
                    assert(s[m + 1] == x);
                }
            }
        }
    }
}

proof fn lemma_sort_names(s: Seq<Seq<char>>)
    ensures
        names_ordered(sort_names(s)),
    decreases s.len(),
{
    if s.len() > 0 {
        lemma_sort_names(s.drop_last());
        lemma_insert_sorted_name(sort_names(s.drop_last()), s.last());
    }
}

/// Parameters in ascending order of location, then name; no two share both.
pub open spec fn params_ordered(ps: Seq<ParameterModel>) -> bool {
    forall|i: int, j: int|
        0 <= i < j < ps.len() ==> chars_lt(
            parameter_key((#[trigger] ps[i]).location, ps[i].name),
            parameter_key((#[trigger] ps[j]).location, ps[j].name),
        )
}

/// Every entry is stored under its own parameter key.
pub open spec fn keyed(acc: Seq<(Seq<char>, ParameterModel)>) -> bool {
    forall|i: int| 0 <= i < acc.len() ==> (#[trigger] acc[i]).0 == parameter_key(acc[i].1.location, acc[i].1.name)
}

proof fn lemma_sorted_insert_members<V>(s: Seq<(Seq<char>, V)>, k: Seq<char>, v: V)
    ensures
        forall|x: (Seq<char>, V)| #[trigger] sorted_insert(s, k, v).contains(x) ==> s.contains(x) || x == (k, v),
    decreases s.len(),
{
    let r = sorted_insert(s, k, v);
    if s.len() == 0 {
        assert forall|x: (Seq<char>, V)| #[trigger] r.contains(x) implies s.contains(x) || x == (k, v) by {
            let i = choose|i: int| 0 <= i < r.len() && r[i] == x;
        }
    } else if s[0].0 == k {
        assert forall|x: (Seq<char>, V)| #[trigger] r.contains(x) implies s.contains(x) || x == (k, v) by {
            let i = choose|i: int| 0 <= i < r.len() && r[i] == x;
            if i > 0 {
                assert(s[i] == x);
            }
        }
    } else if chars_lt(k, s[0].0) {
        assert forall|x: (Seq<char>, V)| #[trigger] r.contains(x) implies s.contains(x) || x == (k, v) by {
            let i = choose|i: int| 0 <= i < r.len() && r[i] == x;
            if i > 0 {
                assert(s[i - 1] == x);
            }
        }
    } else {
        let rest = s.drop_first();
        lemma_sorted_insert_members(rest, k, v);
        let rr = sorted_insert(rest, k, v);
        assert(r == seq![s[0]] + rr);
        assert forall|x: (Seq<char>, V)| #[trigger] r.contains(x) implies s.contains(x) || x == (k, v) by {
            let i = choose|i: int| 0 <= i < r.len() && r[i] == x;
            if i > 0 {
                assert(rr[i - 1] == x);
                assert(rr.contains(x));
                if rest.contains(x) {
                    let m = choose|m: int| 0 <= m < rest.len() && rest[m] == x;
                    assert(s[m + 1] == x);
                }
            }
        }
    }
}

proof fn lemma_insert_parameters(acc: Seq<(Seq<char>, ParameterModel)>, entries: Seq<Json>)
    requires
        crate::maps::keys_ascend(acc),
        keyed(acc),
        insert_parameters(acc, entries) is Ok,
    ensures
        crate::maps::keys_ascend(insert_parameters(acc, entries)->Ok_0),
        keyed(insert_parameters(acc, entries)->Ok_0),
    decreases entries.len(),
{
    if entries.len() > 0 {
        let p = parameter_entry_spec(entries[0])->Ok_0;
        let k = parameter_key(p.location, p.name);
        let acc1 = sorted_insert(acc, k, p);
        crate::maps::lemma_sorted_insert_ascends(acc, k, p);
        lemma_sorted_insert_members(acc, k, p);
        assert forall|i: int| 0 <= i < acc1.len() implies (#[trigger] acc1[i]).0 == parameter_key(
            acc1[i].1.location,
            acc1[i].1.name,
        ) by {
            assert(acc1.contains(acc1[i]));
            if acc.contains(acc1[i]) {
                let m = choose|m: int| 0 <= m < acc.len() && acc[m] == acc1[i];
            }
        }
        lemma_insert_parameters(acc1, entries.drop_first());
    }
}

proof fn lemma_parameters_ordered(item: Seq<(Seq<char>, Json)>, op: Seq<(Seq<char>, Json)>)
    requires
        parameters_spec(item, op) is Ok,
    ensures
        params_ordered(parameters_spec(item, op)->Ok_0),
{
    let empty = Seq::<(Seq<char>, ParameterModel)>::empty();
    let a = parameter_source_spec(empty, lookup(item, "parameters"@))->Ok_0;
    match lookup(item, "parameters"@) {
        Some(j) => {
            lemma_insert_parameters(empty, as_array(j)->0);
        },
        None => {},
    }
    let b = parameter_source_spec(a, lookup(op, "parameters"@))->Ok_0;
    match lookup(op, "parameters"@) {
        Some(j) => {
            lemma_insert_parameters(a, as_array(j)->0);
        },
        None => {},
    }
    let ps = entry_values(b);
    assert forall|i: int, j: int| 0 <= i < j < ps.len() implies chars_lt(
        parameter_key((#[trigger] ps[i]).location, ps[i].name),
        parameter_key((#[trigger] ps[j]).location, ps[j].name),
    ) by {
        assert(ps[i] == b[i].1);
        assert(ps[j] == b[j].1);
        assert(b[i].0 == parameter_key(b[i].1.location, b[i].1.name));
        assert(b[j].0 == parameter_key(b[j].1.location, b[j].1.name));
    }
}

/// What every operation of a registry satisfies: responses ordered by
/// status, parameters ordered by location and name.
pub open spec fn operation_well_formed(o: OperationModel) -> bool {
    statuses_ordered(o.responses) && params_ordered(o.parameters) && errors_marked(o.responses)
}

/// Every response with a status of 400 or above, and no other, is marked an
/// error.
pub open spec fn errors_marked(s: Seq<ResponseModel>) -> bool {
    forall|i: int| 0 <= i < s.len() ==> (#[trigger] s[i]).is_error == (s[i].status >= 400)
}

proof fn lemma_response_entry_marked(status: u16, r: Json)
    requires
        response_entry_spec(status, r) is Ok,
    ensures
        response_entry_spec(status, r)->Ok_0.is_error == (status >= 400),
        response_entry_spec(status, r)->Ok_0.status == status,
{
}

proof fn lemma_collect_responses_marked(acc: Seq<ResponseModel>, ms: Seq<(Seq<char>, Json)>)
    requires
        errors_marked(acc),
        collect_responses(acc, ms) is Ok,
    ensures
        errors_marked(collect_responses(acc, ms)->Ok_0),
    decreases ms.len(),
{
    if ms.len() > 0 {
        match parse_status_spec(ms[0].0) {
            None => lemma_collect_responses_marked(acc, ms.drop_first()),
            Some(status) => {
                lemma_response_entry_marked(status, ms[0].1);
                let r = response_entry_spec(status, ms[0].1)->Ok_0;
                assert(errors_marked(acc.push(r))) by {
                    assert forall|i: int| 0 <= i < acc.push(r).len() implies (#[trigger] acc.push(r)[i]).is_error == (
                    acc.push(r)[i].status >= 400) by {
                        if i < acc.len() {
                            assert(acc.push(r)[i] == acc[i]);
                        }
                    }
                }
                lemma_collect_responses_marked(acc.push(r), ms.drop_first());
            },
        }
    }
}

proof fn lemma_insert_by_status_marked(s: Seq<ResponseModel>, r: ResponseModel)
    requires
        errors_marked(s),
        r.is_error == (r.status >= 400),
    ensures
        errors_marked(insert_by_status(s, r)),
    decreases s.len(),
{
    let out = insert_by_status(s, r);
    if s.len() == 0 {
    } else if r.status < s[0].status {
        assert forall|i: int| 0 <= i < out.len() implies (#[trigger] out[i]).is_error == (out[i].status >= 400) by {
            if i > 0 {
                assert(out[i] == s[i - 1]);
            }
        }
    } else {
        let rest = s.drop_first();
        assert(errors_marked(rest)) by {
            assert forall|i: int| 0 <= i < rest.len() implies (#[trigger] rest[i]).is_error == (rest[i].status >= 400) by {
                assert(rest[i] == s[i + 1]);
            }
        }
        lemma_insert_by_status_marked(rest, r);
        let tail = insert_by_status(rest, r);
        assert forall|i: int| 0 <= i < out.len() implies (#[trigger] out[i]).is_error == (out[i].status >= 400) by {
            if i > 0 {
                assert(out[i] == tail[i - 1]);
            }
        }
    }
}

proof fn lemma_sort_by_status_marked(s: Seq<ResponseModel>)
    requires
        errors_marked(s),
    ensures
        errors_marked(sort_by_status(s)),
    decreases s.len(),
{
    if s.len() > 0 {
        let init = s.drop_last();
        assert(errors_marked(init)) by {
            assert forall|i: int| 0 <= i < init.len() implies (#[trigger] init[i]).is_error == (init[i].status >= 400) by {
                assert(init[i] == s[i]);
            }
        }
        lemma_sort_by_status_marked(init);
        assert(s.last() == s[s.len() - 1]);
        lemma_insert_by_status_marked(sort_by_status(init), s.last());
    }
}

/// Every operation of one path item has its responses ordered by status and
/// its tag among the tags collected from that item.
proof fn lemma_method_operations(
    acc: Seq<OperationModel>,
    path: Seq<char>,
    item: Seq<(Seq<char>, Json)>,
    m: nat,
    tags: Seq<Seq<char>>,
)
    requires
        method_operations(acc, path, item, m) is Ok,
        method_tags(tags, item, m) is Ok,
        names_ascend(tags),
    ensures
        forall|o: OperationModel| #[trigger] method_operations(acc, path, item, m)->Ok_0.contains(o) ==> acc.contains(o) || (
        method_tags(tags, item, m)->Ok_0.contains(o.tag) && operation_well_formed(o)),
    decreases 8 - m,
{
    if m < 8 {
        match lookup(item, http_methods()[m as int]) {
            None => {
                lemma_method_operations(acc, path, item, m + 1, tags);
            },
            Some(opj) => {
                let o = operation_spec(path, m as int, item, opj)->Ok_0;
                let op = as_object(opj)->0;
                let t = first_operation_tag_spec(op)->Ok_0;
                lemma_insert_name(tags, t);
                lemma_method_operations(acc.push(o), path, item, m + 1, insert_name(tags, t));
                lemma_method_tags(insert_name(tags, t), item, m + 1);
                let rs = responses_spec(op)->Ok_0;
                let list = collect_responses(seq![], as_object(lookup(op, "responses"@)->0)->0)->Ok_0;
                lemma_sort_by_status(list);
                lemma_collect_responses_marked(seq![], as_object(lookup(op, "responses"@)->0)->0);
                lemma_sort_by_status_marked(list);
                assert(o.responses == rs);
                lemma_parameters_ordered(item, op);
                assert(insert_name(tags, t).contains(t));
                let result = method_operations(acc, path, item, m)->Ok_0;
                assert forall|x: OperationModel| #[trigger] result.contains(x) implies acc.contains(x) || (
                method_tags(tags, item, m)->Ok_0.contains(x.tag) && operation_well_formed(x)) by {
                    if acc.push(o).contains(x) && !acc.contains(x) {
                        let i = choose|i: int| 0 <= i < acc.push(o).len() && acc.push(o)[i] == x;
                        if i < acc.len() {
                            assert(acc[i] == x);
                        }
                        assert(x == o);
                    }
                }
            },
        }
    }
}

proof fn lemma_path_operations(acc: Seq<OperationModel>, paths: Seq<(Seq<char>, Json)>, tags: Seq<Seq<char>>)
    requires
        path_operations(acc, paths) is Ok,
        path_tags(tags, paths) is Ok,
        names_ascend(tags),
    ensures
        forall|o: OperationModel| #[trigger] path_operations(acc, paths)->Ok_0.contains(o) ==> acc.contains(o) || (
        path_tags(tags, paths)->Ok_0.contains(o.tag) && operation_well_formed(o)),
    decreases paths.len(),
{
    if paths.len() > 0 {
        let item = as_object(paths[0].1)->0;
        let a = method_operations(acc, paths[0].0, item, 0)->Ok_0;
        let t = method_tags(tags, item, 0)->Ok_0;
        lemma_method_operations(acc, paths[0].0, item, 0, tags);
        lemma_method_tags(tags, item, 0);
        lemma_path_operations(a, paths.drop_first(), t);
        lemma_path_tags(t, paths.drop_first());
    }
}

/// The registry lists its operations in ascending order of identifier and
/// counts them; each operation lists its responses in ascending order of
/// status and its parameters in ascending order of location and name (so no
/// two share both), and its tag is one of the registry's tags; schema names
/// ascend.
pub proof fn law_registry_ordered(doc: Json)
    requires
        registry_spec(doc) is Ok,
    ensures
        ids_ordered(registry_spec(doc)->Ok_0.operations),
        registry_spec(doc)->Ok_0.operation_count == registry_spec(doc)->Ok_0.operations.len(),
        names_ordered(registry_spec(doc)->Ok_0.schemas),
        forall|i: int| 0 <= i < registry_spec(doc)->Ok_0.operations.len() ==> operation_well_formed(
            #[trigger] registry_spec(doc)->Ok_0.operations[i],
        ) && registry_spec(doc)->Ok_0.tags.contains(registry_spec(doc)->Ok_0.operations[i].tag),
{
    let reg = registry_spec(doc)->Ok_0;
    let paths = top_level_object_spec(doc, "paths"@)->Ok_0;
    let ops = path_operations(seq![], paths)->Ok_0;
    lemma_sort_by_id(ops);
    let co = top_level_object_spec(doc, "components"@)->Ok_0;
    lemma_sort_names(keys_of(as_object(lookup(co, "schemas"@)->0)->0));
    lemma_path_operations(seq![], paths, seq![]);
    assert forall|i: int| 0 <= i < reg.operations.len() implies operation_well_formed(#[trigger] reg.operations[i])
        && reg.tags.contains(reg.operations[i].tag) by {
        assert(sort_by_id(ops).contains(reg.operations[i]));
        assert(ops.contains(reg.operations[i]));
    }
}

/// Every documented response in the registry is an error exactly when its
/// status is 400 or above: a documented `400 Bad Request` is an error, a
/// `399` is not.
pub proof fn law_error_responses_are_those_from_400(doc: Json)
    requires
        registry_spec(doc) is Ok,
    ensures
        forall|i: int, j: int|
            0 <= i < registry_spec(doc)->Ok_0.operations.len() && 0 <= j
                < registry_spec(doc)->Ok_0.operations[i].responses.len() ==> (#[trigger] registry_spec(
                doc,
            )->Ok_0.operations[i].responses[j]).is_error == (registry_spec(doc)->Ok_0.operations[i].responses[j].status
                >= 400),
{
    law_registry_ordered(doc);
    let reg = registry_spec(doc)->Ok_0;
    assert forall|i: int, j: int|
        0 <= i < reg.operations.len() && 0 <= j < reg.operations[i].responses.len() implies (
        #[trigger] reg.operations[i].responses[j]).is_error == (reg.operations[i].responses[j].status >= 400) by {
        assert(operation_well_formed(reg.operations[i]));
    }
}

/// The `Authorization` security scheme a root object declares, if any.
pub open spec fn declared_authorization(root: Seq<(Seq<char>, Json)>) -> Option<Json> {
    match lookup(root, "components"@) {
        Some(Json::Object(co)) => match lookup(co, "securitySchemes"@) {
            Some(Json::Object(so)) => lookup(so, "Authorization"@),
            _ => None,
        },
        _ => None,
    }
}

/// Normalization never replaces a declared `Authorization` security scheme.
/// When an operation requires authorization and none is declared, it adds
/// the HTTP bearer scheme with JWT format; when no operation requires
/// authorization, the declared scheme (or its absence) stays as it was.
pub proof fn law_authorization_scheme_kept_or_added(doc: Json)
    requires
        normalize_spec(doc) is Ok,
    ensures
        declared_authorization(as_object(doc)->0) is Some ==> declared_authorization(
            as_object(normalize_spec(doc)->Ok_0)->0,
        ) == declared_authorization(as_object(doc)->0),
        declared_authorization(as_object(doc)->0) is None && requires_auth_spec(doc) == Ok::<bool, Seq<char>>(true)
            ==> declared_authorization(as_object(normalize_spec(doc)->Ok_0)->0) == Some(
            Json::Object(
                seq![
                    ("bearerFormat"@, Json::Str("JWT"@)),
                    ("scheme"@, Json::Str("bearer"@)),
                    ("type"@, Json::Str("http"@)),
                ],
            ),
        ),
        requires_auth_spec(doc) == Ok::<bool, Seq<char>>(false) ==> declared_authorization(
            as_object(normalize_spec(doc)->Ok_0)->0,
        ) == declared_authorization(as_object(doc)->0),
{
    lemma_member_names_distinct();
    let root = as_object(doc)->0;
    let tags = operation_tags_spec(doc)->Ok_0;
    let auth = requires_auth_spec(doc)->Ok_0;
    let r1 = servers_spec(root);
    let ex = existing_tags_spec(r1)->Ok_0;
    let tag_list = Json::Array(root_tag_list(ex, tags));
    let r2 = root_tags_spec(r1, tags)->Ok_0;
    assert(r2 == put_member(r1, "tags"@, tag_list));
    lemma_put_member_other(root, "servers"@, synthetic_servers(), "components"@);
    lemma_put_member_other(r1, "tags"@, tag_list, "components"@);
    assert(lookup(r2, "components"@) == lookup(root, "components"@));
    assert(declared_authorization(r2) == declared_authorization(root));
    if auth {
        let components = match lookup(r2, "components"@) {
            Some(c) => c,
            None => Json::Object(seq![]),
        };
        let co = as_object(components)->0;
        let schemes = match lookup(co, "securitySchemes"@) {
            Some(x) => x,
            None => Json::Object(seq![]),
        };
        let so = as_object(schemes)->0;
        let so2 = if lookup(so, "Authorization"@) is Some {
            so
        } else {
            put_member(so, "Authorization"@, bearer_scheme())
        };
        let cn = put_member(co, "securitySchemes"@, Json::Object(so2));
        let rn = put_member(r2, "components"@, Json::Object(cn));
        assert(normalize_spec(doc) == Ok::<Json, Seq<char>>(Json::Object(rn)));
        lemma_put_member_same(r2, "components"@, Json::Object(cn));
        lemma_put_member_same(co, "securitySchemes"@, Json::Object(so2));
        lemma_put_member_same(so, "Authorization"@, bearer_scheme());
        assert(declared_authorization(rn) == lookup(so2, "Authorization"@));
        if declared_authorization(root) is Some {
            assert(components == Json::Object(co));
            assert(schemes == Json::Object(so));
            assert(lookup(so, "Authorization"@) == declared_authorization(root));
        } else {
            assert(lookup(so, "Authorization"@) is None) by {
                if lookup(so, "Authorization"@) is Some {
                    assert(components == Json::Object(co));
                    assert(schemes == Json::Object(so));
                }
            }
        }
    } else {
        assert(normalize_spec(doc) == Ok::<Json, Seq<char>>(Json::Object(r2)));
    }
}

/// A normalized document has a non-empty server list: the one it had, or
/// the local mock server where it had none or an empty one (a non-list
/// value is kept); a root tag entry named after each operation tag in tag
/// order, the tags distinct and ascending, and, when an operation requires
/// authorization, an `Authorization` security scheme.
pub proof fn law_normalized_document(doc: Json)
    requires
        normalize_spec(doc) is Ok,
    ensures
        names_ascend(operation_tags_spec(doc)->Ok_0),
        as_object(normalize_spec(doc)->Ok_0) is Some,
        lookup(as_object(normalize_spec(doc)->Ok_0)->0, "servers"@) is Some,
        lookup(as_object(normalize_spec(doc)->Ok_0)->0, "servers"@) matches Some(Json::Array(servers)) ==> servers.len() > 0,
        lacks_servers(as_object(doc)->0) ==> lookup(as_object(normalize_spec(doc)->Ok_0)->0, "servers"@) == Some(
            synthetic_servers(),
        ),
        !lacks_servers(as_object(doc)->0) ==> lookup(as_object(normalize_spec(doc)->Ok_0)->0, "servers"@) == lookup(
            as_object(doc)->0,
            "servers"@,
        ),
        lookup(as_object(normalize_spec(doc)->Ok_0)->0, "tags"@) matches Some(Json::Array(list)) && list.len()
            == operation_tags_spec(doc)->Ok_0.len() && forall|i: int|
            0 <= i < list.len() ==> named(#[trigger] list[i], operation_tags_spec(doc)->Ok_0[i]),
        requires_auth_spec(doc) == Ok::<bool, Seq<char>>(true) ==> (lookup(
            as_object(normalize_spec(doc)->Ok_0)->0,
            "components"@,
        ) matches Some(Json::Object(cn)) && lookup(cn, "securitySchemes"@) matches Some(Json::Object(sn)) && lookup(
            sn,
            "Authorization"@,
        ) is Some),
{
    lemma_member_names_distinct();
    let root = as_object(doc)->0;
    let tags = operation_tags_spec(doc)->Ok_0;
    let auth = requires_auth_spec(doc)->Ok_0;
    let r1 = servers_spec(root);
    let ex = existing_tags_spec(r1)->Ok_0;
    let list1 = root_tag_list(ex, tags);
    let r2 = put_member(r1, "tags"@, Json::Array(list1));
    lemma_put_member_same(root, "servers"@, synthetic_servers());
    lemma_put_member_other(r1, "tags"@, Json::Array(list1), "servers"@);
    lemma_put_member_same(r1, "tags"@, Json::Array(list1));
    lemma_path_tags(seq![], top_level_object_spec(doc, "paths"@)->Ok_0);
    assert(entries_named(ex)) by {
        match lookup(r1, "tags"@) {
            None => {},
            Some(v) => {
                lemma_tag_entries_valid(seq![], as_array(v)->0);
            },
        }
    }
    assert forall|i: int| 0 <= i < list1.len() implies named(#[trigger] list1[i], tags[i]) by {
        lemma_root_tag_named(ex, tags[i]);
    }
    if auth {
        let components = match lookup(r2, "components"@) {
            Some(c) => c,
            None => Json::Object(seq![]),
        };
        let co = as_object(components)->0;
        let schemes = match lookup(co, "securitySchemes"@) {
            Some(x) => x,
            None => Json::Object(seq![]),
        };
        let so = as_object(schemes)->0;
        let so2 = if lookup(so, "Authorization"@) is Some {
            so
        } else {
            put_member(so, "Authorization"@, bearer_scheme())
        };
        let cn = put_member(co, "securitySchemes"@, Json::Object(so2));
        lemma_put_member_other(r2, "components"@, Json::Object(cn), "servers"@);
        lemma_put_member_other(r2, "components"@, Json::Object(cn), "tags"@);
        lemma_put_member_same(r2, "components"@, Json::Object(cn));
        lemma_put_member_same(co, "securitySchemes"@, Json::Object(so2));
        lemma_put_member_same(so, "Authorization"@, bearer_scheme());
    }
}

} // verus!
