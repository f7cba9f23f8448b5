//! Descriptor-driven request encoding and response decoding.
use vstd::prelude::*;
use vstd::utf8::encode_utf8;

use crate::client::{InputParts, OperationInput};
use crate::error::SdkError;
use crate::generated::{
    GeneratedOperationDescriptor, GeneratedParameterDescriptor,
    GeneratedResponseDescriptor, ParameterLocation,
};
use crate::document::{json_view, JsonValue};
use crate::json::{parse_json, parsed_json};
use crate::maps::{lookup, sorted_insert, strings_view, MultiValueMap, StringMap};
use crate::text::{
    chars_of, clone_opt_string, contains_char, ends_with, has_suffix, join, opt_view, push_all,
    push_str, replace_chars, replace_all, str_equal, string_of,
};
use crate::transport::{body_view, SdkRequest, SdkResponse};

verus! {

// ---------------------------------------------------------------------------
// Percent-encoding of path and query components
// ---------------------------------------------------------------------------

/// Upper-case hexadecimal digit for `0 <= n < 16`.
pub open spec fn hex_digit(n: int) -> char {
    if n < 10 {
        (48 + n) as char
    } else {
        (55 + n) as char
    }
}

/// ASCII letters and digits, as bytes.
pub open spec fn is_alnum_byte(b: u8) -> bool {
    (48 <= b <= 57) || (65 <= b <= 90) || (97 <= b <= 122)
}

/// One byte under the `NON_ALPHANUMERIC` set: ASCII letters and digits stay,
/// every other byte becomes `%` and two upper-case hexadecimal digits.
pub open spec fn percent_encode_byte(b: u8) -> Seq<char> {
    if is_alnum_byte(b) {
        seq![b as char]
    } else {
        seq!['%', hex_digit(b as int / 16), hex_digit(b as int % 16)]
    }
}

pub open spec fn percent_encode_bytes(bs: Seq<u8>) -> Seq<char>
    decreases bs.len(),
{
    if bs.len() == 0 {
        seq![]
    } else {
        percent_encode_byte(bs[0]) + percent_encode_bytes(bs.drop_first())
    }
}

/// The percent-encoding of the UTF-8 bytes of `s`.
pub open spec fn encoded_component(s: Seq<char>) -> Seq<char> {
    percent_encode_bytes(encode_utf8(s))
}

/// Characters that can appear in an encoded component.
pub open spec fn is_encoded_char(c: char) -> bool {
    ('0' <= c && c <= '9') || ('A' <= c && c <= 'Z') || ('a' <= c && c <= 'z') || c == '%'
}

pub proof fn lemma_percent_encode_bytes_chars(bs: Seq<u8>)
    ensures
        forall|i: int|
            0 <= i < percent_encode_bytes(bs).len() ==> is_encoded_char(
                #[trigger] percent_encode_bytes(bs)[i],
            ),
    decreases bs.len(),
{
    if bs.len() > 0 {
        lemma_percent_encode_bytes_chars(bs.drop_first());
        let head = percent_encode_byte(bs[0]);
        let tail = percent_encode_bytes(bs.drop_first());
        assert forall|i: int| 0 <= i < head.len() implies is_encoded_char(#[trigger] head[i]) by {
            if !is_alnum_byte(bs[0]) {
                let hi = bs[0] as int / 16;
                let lo = bs[0] as int % 16;
                assert(0 <= hi < 16 && 0 <= lo < 16);
            }
        }
        assert forall|i: int| 0 <= i < (head + tail).len() implies is_encoded_char(
            #[trigger] (head + tail)[i],
        ) by {
            if i < head.len() {
                assert((head + tail)[i] == head[i]);
            } else {
                assert((head + tail)[i] == tail[i - head.len()]);
            }
        }
    }
}

/// Encoded components consist of ASCII letters, digits and `%`.
pub proof fn lemma_encoded_component_chars(s: Seq<char>)
    ensures
        forall|i: int|
            0 <= i < encoded_component(s).len() ==> is_encoded_char(
                #[trigger] encoded_component(s)[i],
            ),
{
    lemma_percent_encode_bytes_chars(encode_utf8(s));
}

/// Percent-encodes `value` with `percent_encoding::utf8_percent_encode` and
/// the `NON_ALPHANUMERIC` set, rendered to a `String`.
///
/// The contract states the documented encoding in full: the UTF-8 bytes of
/// `value` are visited in order; ASCII letters and digits are kept and every
/// other byte is written as `%` followed by two upper-case hex digits.
#[verifier::external_body]
pub(crate) fn encode_component(value: &str) -> (res: String)
    ensures
        res@ == encoded_component(value@),
{
    percent_encoding::utf8_percent_encode(value, percent_encoding::NON_ALPHANUMERIC).to_string()
}

// ---------------------------------------------------------------------------
// Specification of request encoding
// ---------------------------------------------------------------------------

/// The name of a parameter location as reported in errors.
pub open spec fn location_name(location: ParameterLocation) -> Seq<char> {
    match location {
        ParameterLocation::Header => "header"@,
        ParameterLocation::Path => "path"@,
        ParameterLocation::Query => "query"@,
    }
}

/// The template placeholder of a path parameter: `{name}`.
pub open spec fn placeholder(name: Seq<char>) -> Seq<char> {
    seq!['{'] + name + seq!['}']
}

pub open spec fn has_brace(s: Seq<char>) -> bool {
    s.contains('{') || s.contains('}')
}

/// Outcome of substituting path parameters into a path template.
pub enum PathOutcome {
    /// The fully substituted path.
    Encoded(Seq<char>),
    /// A path parameter of this name has no value.
    Missing(Seq<char>),
    /// Braces remain after substitution.
    Unresolved,
}

/// Substitutes, in descriptor order from index `i`, every path parameter's
/// encoded value for all occurrences of its placeholder.
pub open spec fn substitute_path(
    path: Seq<char>,
    params: Seq<GeneratedParameterDescriptor>,
    values: Seq<(Seq<char>, Seq<char>)>,
    i: int,
) -> PathOutcome
    decreases params.len() - i,
{
    if i < 0 || i >= params.len() {
        if has_brace(path) {
            PathOutcome::Unresolved
        } else {
            PathOutcome::Encoded(path)
        }
    } else if params[i].location != ParameterLocation::Path {
        substitute_path(path, params, values, i + 1)
    } else {
        match lookup(values, params[i].name@) {
            None => PathOutcome::Missing(params[i].name@),
            Some(v) => substitute_path(
                replace_all(path, placeholder(params[i].name@), encoded_component(v)),
                params,
                values,
                i + 1,
            ),
        }
    }
}

/// `name=value`, both components encoded.
pub open spec fn query_pair(name: Seq<char>, value: Seq<char>) -> Seq<char> {
    encoded_component(name) + seq!['='] + encoded_component(value)
}

/// One pair per value, in order.
pub open spec fn query_pairs(name: Seq<char>, values: Seq<Seq<char>>) -> Seq<Seq<char>> {
    Seq::new(values.len(), |k: int| query_pair(name, values[k]))
}

/// Outcome of encoding the descriptor's query parameters.
pub enum QueryOutcome {
    /// Encoded `name=value` pairs, in order.
    Pairs(Seq<Seq<char>>),
    /// A required query parameter of this name is absent.
    Missing(Seq<char>),
}

/// Pairs for the descriptor's query parameters from index `i`, in descriptor
/// order; the first required one without values is reported missing.
pub open spec fn declared_query_pairs(
    params: Seq<GeneratedParameterDescriptor>,
    values: Seq<(Seq<char>, Seq<Seq<char>>)>,
    i: int,
) -> QueryOutcome
    decreases params.len() - i,
{
    if i < 0 || i >= params.len() {
        QueryOutcome::Pairs(seq![])
    } else if params[i].location != ParameterLocation::Query {
        declared_query_pairs(params, values, i + 1)
    } else if params[i].required && lookup(values, params[i].name@) is None {
        QueryOutcome::Missing(params[i].name@)
    } else {
        let here = match lookup(values, params[i].name@) {
            Some(vs) => query_pairs(params[i].name@, vs),
            None => seq![],
        };
        match declared_query_pairs(params, values, i + 1) {
            QueryOutcome::Missing(n) => QueryOutcome::Missing(n),
            QueryOutcome::Pairs(rest) => QueryOutcome::Pairs(here + rest),
        }
    }
}

/// Whether the descriptor declares a query parameter called `name`.
pub open spec fn declares_query(params: Seq<GeneratedParameterDescriptor>, name: Seq<char>) -> bool {
    exists|k: int|
        0 <= k < params.len() && (#[trigger] params[k]).location == ParameterLocation::Query
            && params[k].name@ == name
}

/// Pairs for the supplied query parameters the descriptor does not declare,
/// in key order, from entry `j`.
pub open spec fn extra_query_pairs(
    params: Seq<GeneratedParameterDescriptor>,
    values: Seq<(Seq<char>, Seq<Seq<char>>)>,
    j: int,
) -> Seq<Seq<char>>
    decreases values.len() - j,
{
    if j < 0 || j >= values.len() {
        seq![]
    } else if declares_query(params, values[j].0) {
        extra_query_pairs(params, values, j + 1)
    } else {
        query_pairs(values[j].0, values[j].1) + extra_query_pairs(params, values, j + 1)
    }
}

/// All query pairs: declared parameters first, then the others.
pub open spec fn all_query_pairs(
    params: Seq<GeneratedParameterDescriptor>,
    values: Seq<(Seq<char>, Seq<Seq<char>>)>,
) -> QueryOutcome {
    match declared_query_pairs(params, values, 0) {
        QueryOutcome::Missing(n) => QueryOutcome::Missing(n),
        QueryOutcome::Pairs(declared) => QueryOutcome::Pairs(
            declared + extra_query_pairs(params, values, 0),
        ),
    }
}

/// `path`, followed by `?` and the `&`-joined pairs when there are any.
pub open spec fn with_query(path: Seq<char>, pairs: Seq<Seq<char>>) -> Seq<char> {
    if pairs.len() == 0 {
        path
    } else {
        path + seq!['?'] + join(pairs, seq!['&'])
    }
}

/// The first required header parameter, from index `i`, absent from `headers`.
pub open spec fn missing_header(
    params: Seq<GeneratedParameterDescriptor>,
    headers: Seq<(Seq<char>, Seq<char>)>,
    i: int,
) -> Option<Seq<char>>
    decreases params.len() - i,
{
    if i < 0 || i >= params.len() {
        None
    } else if params[i].location == ParameterLocation::Header && params[i].required && lookup(
        headers,
        params[i].name@,
    ) is None {
        Some(params[i].name@)
    } else {
        missing_header(params, headers, i + 1)
    }
}

/// Whether the descriptor's body rules reject a missing body.
pub open spec fn body_missing(d: GeneratedOperationDescriptor, body: Option<Seq<u8>>) -> bool {
    match d.request_body {
        Some(rb) => body is None && rb.required && !rb.nullable,
        None => false,
    }
}

/// The body sent for the operation: none when the operation takes no body.
pub open spec fn sent_body(d: GeneratedOperationDescriptor, body: Option<Seq<u8>>) -> Option<Seq<u8>> {
    match d.request_body {
        Some(_) => body,
        None => None,
    }
}

/// Headers after the body's content type is added when it is not set yet.
pub open spec fn headers_with_content_type(
    d: GeneratedOperationDescriptor,
    body: Option<Seq<u8>>,
    headers: Seq<(Seq<char>, Seq<char>)>,
) -> Seq<(Seq<char>, Seq<char>)> {
    match d.request_body {
        Some(rb) => match rb.content_type {
            Some(ct) => if body is Some && lookup(headers, "content-type"@) is None {
                sorted_insert(headers, "content-type"@, ct@)
            } else {
                headers
            },
            None => headers,
        },
        None => headers,
    }
}

/// Outcome of encoding an operation input into a request.
pub enum RequestOutcome {
    /// The request that is sent.
    Request {
        body: Option<Seq<u8>>,
        headers: Seq<(Seq<char>, Seq<char>)>,
        method: Seq<char>,
        path: Seq<char>,
        requires_auth: bool,
    },
    /// A required request body is missing.
    MissingBody,
    /// A required parameter is missing.
    MissingParameter { location: ParameterLocation, name: Seq<char> },
    /// The path template keeps a placeholder.
    UnresolvedPath,
}

/// The request that an input encodes to for a descriptor. Checks run in
/// order: body, path, query, headers.
pub open spec fn encode_request_spec(
    d: GeneratedOperationDescriptor,
    input: InputParts,
) -> RequestOutcome {
    if body_missing(d, input.body) {
        RequestOutcome::MissingBody
    } else {
        let headers = headers_with_content_type(d, input.body, input.headers);
        match substitute_path(d.path@, d.parameters@, input.path_params, 0) {
            PathOutcome::Missing(n) => RequestOutcome::MissingParameter {
                location: ParameterLocation::Path,
                name: n,
            },
            PathOutcome::Unresolved => RequestOutcome::UnresolvedPath,
            PathOutcome::Encoded(path) => match all_query_pairs(d.parameters@, input.query_params) {
                QueryOutcome::Missing(n) => RequestOutcome::MissingParameter {
                    location: ParameterLocation::Query,
                    name: n,
                },
                QueryOutcome::Pairs(pairs) => match missing_header(d.parameters@, headers, 0) {
                    Some(n) => RequestOutcome::MissingParameter {
                        location: ParameterLocation::Header,
                        name: n,
                    },
                    None => RequestOutcome::Request {
                        body: sent_body(d, input.body),
                        headers,
                        method: d.method@,
                        path: with_query(path, pairs),
                        requires_auth: d.requires_auth,
                    },
                },
            },
        }
    }
}

/// Whether an executable result is the given encoding outcome.
pub open spec fn request_result_is(
    res: Result<SdkRequest, SdkError>,
    d: GeneratedOperationDescriptor,
    outcome: RequestOutcome,
) -> bool {
    match outcome {
        RequestOutcome::Request { body, headers, method, path, requires_auth } => res matches Ok(
            r,
        ) && body_view(r.body) == body && r.headers@ == headers && r.method@ == method && r.path@
            == path && r.requires_auth == requires_auth,
        RequestOutcome::MissingBody => res matches Err(SdkError::MissingRequestBody { operation_id })
            && operation_id@ == d.operation_id@,
        RequestOutcome::MissingParameter { location, name } => res matches Err(
            SdkError::MissingParameter { location: l, name: n, operation_id },
        ) && l@ == location_name(location) && n@ == name && operation_id@ == d.operation_id@,
        RequestOutcome::UnresolvedPath => res matches Err(
            SdkError::InvalidPathTemplate { operation_id, path_template },
        ) && operation_id@ == d.operation_id@ && path_template@ == d.path@,
    }
}

// ---------------------------------------------------------------------------
// Request encoding
// ---------------------------------------------------------------------------

/// Encodes an operation input into a canonical SDK request.
pub fn encode_request(descriptor: &GeneratedOperationDescriptor, input: OperationInput) -> (res:
    Result<SdkRequest, SdkError>)
    ensures
        request_result_is(res, *descriptor, encode_request_spec(*descriptor, input@)),
{
    let ghost iv = input@;
    let mut headers = input.headers;
    let body = match encode_body(descriptor, input.body, &mut headers) {
        Ok(b) => b,
        Err(e) => return Err(e),
    };
    let path = match encode_path(descriptor, &input.path_params) {
        Ok(p) => p,
        Err(e) => return Err(e),
    };
    let path = match encode_query(descriptor, &path, &input.query_params) {
        Ok(p) => p,
        Err(e) => return Err(e),
    };
    match validate_required_headers(descriptor, &headers) {
        Ok(()) => {},
        Err(e) => return Err(e),
    }
    Ok(SdkRequest {
        body,
        headers,
        method: descriptor.method.clone(),
        path,
        requires_auth: descriptor.requires_auth,
    })
}

fn encode_body(
    descriptor: &GeneratedOperationDescriptor,
    body: Option<Vec<u8>>,
    headers: &mut StringMap,
) -> (res: Result<Option<Vec<u8>>, SdkError>)
    ensures
        body_missing(*descriptor, body_view(body)) ==> (res matches Err(
            SdkError::MissingRequestBody { operation_id },
        ) && operation_id@ == descriptor.operation_id@ && final(headers)@ == old(headers)@),
        !body_missing(*descriptor, body_view(body)) ==> (res matches Ok(b) && body_view(b)
            == sent_body(*descriptor, body_view(body)) && final(headers)@
            == headers_with_content_type(*descriptor, body_view(body), old(headers)@)),
{
    let request_body = match &descriptor.request_body {
        Some(rb) => rb,
        None => return Ok(None),
    };
    if body.is_none() && request_body.required && !request_body.nullable {
        return Err(SdkError::MissingRequestBody { operation_id: descriptor.operation_id.clone() });
    }
    if body.is_some() {
        match &request_body.content_type {
            Some(content_type) => {
                headers.insert_if_absent("content-type".to_owned(), content_type.clone());
            },
            None => {},
        }
    }
    Ok(body)
}

fn missing_parameter(
    descriptor: &GeneratedOperationDescriptor,
    parameter: &GeneratedParameterDescriptor,
) -> (e: SdkError)
    ensures
        e matches SdkError::MissingParameter { location, name, operation_id } && location@
            == location_name(parameter.location) && name@ == parameter.name@ && operation_id@
            == descriptor.operation_id@,
{
    let location: &'static str = match parameter.location {
        ParameterLocation::Header => "header",
        ParameterLocation::Path => "path",
        ParameterLocation::Query => "query",
    };
    SdkError::MissingParameter {
        location,
        name: parameter.name.clone(),
        operation_id: descriptor.operation_id.clone(),
    }
}

fn encode_path(descriptor: &GeneratedOperationDescriptor, path_params: &StringMap) -> (res: Result<
    String,
    SdkError,
>)
    ensures
        match substitute_path(descriptor.path@, descriptor.parameters@, path_params@, 0) {
            PathOutcome::Encoded(p) => res matches Ok(s) && s@ == p,
            PathOutcome::Missing(n) => res matches Err(
                SdkError::MissingParameter { location, name, operation_id },
            ) && location@ == "path"@ && name@ == n && operation_id@ == descriptor.operation_id@,
            PathOutcome::Unresolved => res matches Err(
                SdkError::InvalidPathTemplate { operation_id, path_template },
            ) && operation_id@ == descriptor.operation_id@ && path_template@ == descriptor.path@,
        },
{
    let ghost params = descriptor.parameters@;
    let ghost values = path_params@;
    let mut encoded: Vec<char> = chars_of(descriptor.path.as_str());
    let mut i: usize = 0;
    while i < descriptor.parameters.len()
        invariant
            params == descriptor.parameters@,
            values == path_params@,
            i <= params.len(),
            substitute_path(encoded@, params, values, i as int) == substitute_path(
                descriptor.path@,
                params,
                values,
                0,
            ),
        decreases params.len() - i,
    {
        let parameter = &descriptor.parameters[i];
        if parameter.location == ParameterLocation::Path {
            let value = match path_params.get(parameter.name.as_str()) {
                Some(v) => v,
                None => return Err(missing_parameter(descriptor, parameter)),
            };
            let mut pattern: Vec<char> = Vec::new();
            pattern.push('{');
            push_str(&mut pattern, parameter.name.as_str());
            pattern.push('}');
            assert(pattern@ =~= placeholder(parameter.name@));
            let replacement = chars_of(encode_component(value.as_str()).as_str());
            encoded = replace_chars(encoded.as_slice(), pattern.as_slice(), replacement.as_slice());
        }
        i = i + 1;
    }
    if contains_char(encoded.as_slice(), '{') || contains_char(encoded.as_slice(), '}') {
        return Err(SdkError::InvalidPathTemplate {
            operation_id: descriptor.operation_id.clone(),
            path_template: descriptor.path.clone(),
        });
    }
    Ok(string_of(encoded.as_slice()))
}

/// The character sequences of a list of character vectors.
pub open spec fn char_lists(v: Seq<Vec<char>>) -> Seq<Seq<char>> {
    Seq::new(v.len(), |i: int| v[i]@)
}

/// Appends `name=value` for each value to `pairs`.
fn push_pairs(pairs: &mut Vec<Vec<char>>, name: &str, values: &Vec<String>)
    ensures
        char_lists(final(pairs)@) == char_lists(old(pairs)@) + query_pairs(
            name@,
            strings_view(*values),
        ),
{
    let encoded_name = encode_component(name);
    let ghost start = char_lists(old(pairs)@);
    let ghost qp = query_pairs(name@, strings_view(*values));
    let mut k: usize = 0;
    while k < values.len()
        invariant
            k <= values@.len(),
            qp == query_pairs(name@, strings_view(*values)),
            encoded_name@ == encoded_component(name@),
            pairs@.len() == start.len() + k,
            char_lists(pairs@) == start + qp.subrange(0, k as int),
        decreases values@.len() - k,
    {
        let mut pair = chars_of(encoded_name.as_str());
        pair.push('=');
        let encoded_value = encode_component(values[k].as_str());
        push_str(&mut pair, encoded_value.as_str());
        assert(pair@ =~= query_pair(name@, strings_view(*values)[k as int]));
        let ghost prev = pairs@;
        pairs.push(pair);
        proof {
            assert forall|m: int| 0 <= m < pairs@.len() implies #[trigger] char_lists(pairs@)[m]
                == (start + qp.subrange(0, k + 1))[m] by {
                if m < prev.len() {
                    assert(char_lists(prev)[m] == (start + qp.subrange(0, k as int))[m]);
                    assert(pairs@[m] == prev[m]);
                }
            }
            assert(char_lists(pairs@) =~= start + qp.subrange(0, k + 1));
        }
        k = k + 1;
    }
    assert(qp.subrange(0, k as int) =~= qp);
}

/// Whether the descriptor declares a query parameter called `name`.
fn is_declared_query(descriptor: &GeneratedOperationDescriptor, name: &str) -> (r: bool)
    ensures
        r == declares_query(descriptor.parameters@, name@),
{
    let mut i: usize = 0;
    while i < descriptor.parameters.len()
        invariant
            i <= descriptor.parameters@.len(),
            forall|k: int|
                0 <= k < i ==> !((#[trigger] descriptor.parameters@[k]).location
                    == ParameterLocation::Query && descriptor.parameters@[k].name@ == name@),
        decreases descriptor.parameters@.len() - i,
    {
        let parameter = &descriptor.parameters[i];
        if parameter.location == ParameterLocation::Query && str_equal(
            parameter.name.as_str(),
            name,
        ) {
            return true;
        }
        i = i + 1;
    }
    false
}

/// The path followed by `?` and the `&`-joined pairs, when there are any.
fn append_query(path: &str, pairs: &Vec<Vec<char>>) -> (r: String)
    ensures
        r@ == with_query(path@, char_lists(pairs@)),
{
    let ghost ps = char_lists(pairs@);
    if pairs.len() == 0 {
        return string_of(chars_of(path).as_slice());
    }
    let mut out = chars_of(path);
    out.push('?');
    let ghost head = out@;
    let mut k: usize = 0;
    while k < pairs.len()
        invariant
            ps == char_lists(pairs@),
            k <= pairs@.len(),
            out@ == head + join(ps.subrange(0, k as int), seq!['&']),
        decreases pairs@.len() - k,
    {
        if k > 0 {
            out.push('&');
        }
        push_all(&mut out, pairs[k].as_slice());
        proof {
            let sub = ps.subrange(0, k + 1);
            assert(sub.drop_last() =~= ps.subrange(0, k as int));
            assert(sub.last() == pairs@[k as int]@);
            if k == 0 {
                assert(join(ps.subrange(0, 0), seq!['&']) =~= Seq::<char>::empty());
            }
        }
        k = k + 1;
    }
    assert(ps.subrange(0, k as int) =~= ps);
    string_of(out.as_slice())
}

fn encode_query(
    descriptor: &GeneratedOperationDescriptor,
    path: &String,
    query_params: &MultiValueMap,
) -> (res: Result<String, SdkError>)
    ensures
        match all_query_pairs(descriptor.parameters@, query_params@) {
            QueryOutcome::Pairs(pairs) => res matches Ok(s) && s@ == with_query(path@, pairs),
            QueryOutcome::Missing(n) => res matches Err(
                SdkError::MissingParameter { location, name, operation_id },
            ) && location@ == "query"@ && name@ == n && operation_id@ == descriptor.operation_id@,
        },
{
    let ghost params = descriptor.parameters@;
    let ghost values = query_params@;
    let mut pairs: Vec<Vec<char>> = Vec::new();
    let mut i: usize = 0;
    while i < descriptor.parameters.len()
        invariant
            params == descriptor.parameters@,
            values == query_params@,
            i <= params.len(),
            match declared_query_pairs(params, values, 0) {
                QueryOutcome::Missing(n) => declared_query_pairs(params, values, i as int)
                    == QueryOutcome::Missing(n),
                QueryOutcome::Pairs(all) => declared_query_pairs(params, values, i as int) matches QueryOutcome::Pairs(rest)
                    && all == char_lists(pairs@) + rest,
            },
        decreases params.len() - i,
    {
        let parameter = &descriptor.parameters[i];
        if parameter.location == ParameterLocation::Query {
            let found = query_params.get(parameter.name.as_str());
            if parameter.required && found.is_none() {
                return Err(missing_parameter(descriptor, parameter));
            }
            match found {
                Some(values_here) => {
                    push_pairs(&mut pairs, parameter.name.as_str(), values_here);
                },
                None => {},
            }
        }
        i = i + 1;
    }
    let ghost declared = char_lists(pairs@);
    assert(declared_query_pairs(params, values, 0) == QueryOutcome::Pairs(declared)) by {
        assert(declared + Seq::<Seq<char>>::empty() =~= declared);
    }
    let mut j: usize = 0;
    while j < query_params.len()
        invariant
            params == descriptor.parameters@,
            values == query_params@,
            j <= values.len(),
            char_lists(pairs@) + extra_query_pairs(params, values, j as int)
                == declared + extra_query_pairs(params, values, 0),
        decreases values.len() - j,
    {
        let name = query_params.key_at(j);
        if !is_declared_query(descriptor, name.as_str()) {
            let ghost before = char_lists(pairs@);
            push_pairs(&mut pairs, name.as_str(), query_params.values_at(j));
            assert(before + query_pairs(values[j as int].0, values[j as int].1) + extra_query_pairs(
                params,
                values,
                j + 1,
            ) =~= before + extra_query_pairs(params, values, j as int));
        }
        j = j + 1;
    }
    assert(char_lists(pairs@) + Seq::<Seq<char>>::empty() =~= char_lists(pairs@));
    Ok(append_query(path.as_str(), &pairs))
}

fn validate_required_headers(descriptor: &GeneratedOperationDescriptor, headers: &StringMap) -> (res:
    Result<(), SdkError>)
    ensures
        match missing_header(descriptor.parameters@, headers@, 0) {
            None => res is Ok,
            Some(n) => res matches Err(SdkError::MissingParameter { location, name, operation_id })
                && location@ == "header"@ && name@ == n && operation_id@ == descriptor.operation_id@,
        },
{
    let ghost params = descriptor.parameters@;
    let mut i: usize = 0;
    while i < descriptor.parameters.len()
        invariant
            params == descriptor.parameters@,
            i <= params.len(),
            missing_header(params, headers@, i as int) == missing_header(params, headers@, 0),
        decreases params.len() - i,
    {
        let parameter = &descriptor.parameters[i];
        if parameter.location == ParameterLocation::Header && parameter.required
            && !headers.contains_key(parameter.name.as_str()) {
            return Err(missing_parameter(descriptor, parameter));
        }
        i = i + 1;
    }
    Ok(())
}

// ---------------------------------------------------------------------------
// Response decoding
// ---------------------------------------------------------------------------

/// Decoded response payload returned by the generic SDK pipeline.
#[derive(Debug, PartialEq, Eq)]
pub struct DecodedResponse {
    /// Response headers preserved as UTF-8 strings when possible.
    pub headers: StringMap,
    /// Parsed JSON body when the documented response content type is JSON.
    pub json_body: Option<JsonValue>,
    /// Raw response body bytes.
    pub raw_body: Vec<u8>,
    /// Matched response schema name when documented.
    pub schema_name: Option<String>,
    /// HTTP status code returned by the server.
    pub status: u16,
}

impl DecodedResponse {
    /// Access the decoded JSON body when present.
    pub fn json_body(&self) -> (r: Option<&JsonValue>)
        ensures
            r is Some <==> self.json_body is Some,
            r matches Some(v) ==> self.json_body == Some(*v),
    {
        match &self.json_body {
            Some(v) => Some(v),
            None => None,
        }
    }
}

/// Index of the first documented response with `status`, from index `i`.
pub open spec fn first_response_with_status(
    responses: Seq<GeneratedResponseDescriptor>,
    status: u16,
    i: int,
) -> Option<int>
    decreases responses.len() - i,
{
    if i < 0 || i >= responses.len() {
        None
    } else if responses[i].status == status {
        Some(i)
    } else {
        first_response_with_status(responses, status, i + 1)
    }
}

/// Whether a documented response carries JSON: by its content type when it
/// has one, otherwise by having a schema.
pub open spec fn expects_json(r: GeneratedResponseDescriptor) -> bool {
    match r.content_type {
        Some(ct) => ct@ == "application/json"@ || has_suffix(ct@, "+json"@),
        None => r.schema_name is Some,
    }
}

/// Whether the body of a response matched to `r` is parsed as JSON.
pub open spec fn parses_body(r: GeneratedResponseDescriptor, body: Seq<u8>) -> bool {
    body.len() > 0 && expects_json(r)
}

/// What decoding a response yields, by cases.
pub open spec fn decode_result_is(
    res: Result<DecodedResponse, SdkError>,
    d: GeneratedOperationDescriptor,
    response: SdkResponse,
) -> bool {
    match first_response_with_status(d.responses@, response.status, 0) {
        None => res matches Err(SdkError::UnexpectedStatus { expected, actual }) && expected
            == d.primary_success_status && actual == response.status,
        Some(i) => {
            let r = d.responses@[i];
            if parses_body(r, response.body@) && parsed_json(response.body@) is None {
                res matches Err(SdkError::Decode(_))
            } else if r.is_error {
                res matches Err(SdkError::ApiResponse { body, operation_id, schema_name, status })
                    && (body is Some <==> parses_body(r, response.body@)) && (body matches Some(v)
                    ==> parsed_json(response.body@) == Some(json_view(v))) && operation_id@
                    == d.operation_id@ && opt_view(schema_name) == opt_view(r.schema_name)
                    && status == r.status
            } else {
                res matches Ok(decoded) && decoded.headers@ == response.headers@
                    && decoded.raw_body@ == response.body@ && (decoded.json_body is Some
                    <==> parses_body(r, response.body@)) && (decoded.json_body matches Some(v)
                    ==> parsed_json(response.body@) == Some(json_view(v))) && opt_view(decoded.schema_name)
                    == opt_view(r.schema_name) && decoded.status == r.status
            }
        },
    }
}

/// Matches a response to the descriptor's documented responses and decodes it.
pub fn decode_response(descriptor: &GeneratedOperationDescriptor, response: SdkResponse) -> (res:
    Result<DecodedResponse, SdkError>)
    ensures
        decode_result_is(res, *descriptor, response),
{
    let matched = match match_response(descriptor, response.status) {
        Ok(m) => m,
        Err(e) => return Err(e),
    };
    let json_body = match decode_json_body(matched, &response.body) {
        Ok(j) => j,
        Err(e) => return Err(e),
    };
    if matched.is_error {
        return Err(SdkError::ApiResponse {
            body: json_body,
            operation_id: descriptor.operation_id.clone(),
            schema_name: clone_opt_string(&matched.schema_name),
            status: matched.status,
        });
    }
    Ok(DecodedResponse {
        headers: response.headers,
        json_body,
        raw_body: response.body,
        schema_name: clone_opt_string(&matched.schema_name),
        status: matched.status,
    })
}

fn match_response(descriptor: &GeneratedOperationDescriptor, status: u16) -> (res: Result<
    &GeneratedResponseDescriptor,
    SdkError,
>)
    ensures
        match first_response_with_status(descriptor.responses@, status, 0) {
            None => res matches Err(SdkError::UnexpectedStatus { expected, actual }) && expected
                == descriptor.primary_success_status && actual == status,
            Some(i) => res matches Ok(r) && *r == descriptor.responses@[i],
        },
{
    let ghost rs = descriptor.responses@;
    let mut i: usize = 0;
    while i < descriptor.responses.len()
        invariant
            rs == descriptor.responses@,
            i <= rs.len(),
            first_response_with_status(rs, status, i as int) == first_response_with_status(
                rs,
                status,
                0,
            ),
        decreases rs.len() - i,
    {
        if descriptor.responses[i].status == status {
            return Ok(&descriptor.responses[i]);
        }
        i = i + 1;
    }
    Err(SdkError::UnexpectedStatus { actual: status, expected: descriptor.primary_success_status })
}

fn expects_json_body(response: &GeneratedResponseDescriptor) -> (r: bool)
    ensures
        r == expects_json(*response),
{
    match &response.content_type {
        Some(content_type) => {
            let ct = chars_of(content_type.as_str());
            str_equal(content_type.as_str(), "application/json") || ends_with(
                ct.as_slice(),
                chars_of("+json").as_slice(),
            )
        },
        None => response.schema_name.is_some(),
    }
}

fn decode_json_body(response: &GeneratedResponseDescriptor, body: &Vec<u8>) -> (res: Result<
    Option<JsonValue>,
    SdkError,
>)
    ensures
        !parses_body(*response, body@) ==> (res matches Ok(None)),
        parses_body(*response, body@) && parsed_json(body@) is Some ==> (res matches Ok(Some(v))
            && parsed_json(body@) == Some(json_view(v))),
        parses_body(*response, body@) && parsed_json(body@) is None ==> (res matches Err(
            SdkError::Decode(_),
        )),
{
    if body.len() == 0 {
        return Ok(None);
    }
    if !expects_json_body(response) {
        return Ok(None);
    }
    match parse_json(body.as_slice()) {
        Ok(v) => Ok(Some(v)),
        Err(e) => Err(SdkError::Decode(e)),
    }
}

// ---------------------------------------------------------------------------
// Laws
// ---------------------------------------------------------------------------

proof fn lemma_substituted_path_has_no_brace(
    path: Seq<char>,
    params: Seq<GeneratedParameterDescriptor>,
    values: Seq<(Seq<char>, Seq<char>)>,
    i: int,
)
    ensures
        substitute_path(path, params, values, i) matches PathOutcome::Encoded(p) ==> !has_brace(p),
    decreases params.len() - i,
{
    if 0 <= i < params.len() {
        if params[i].location != ParameterLocation::Path {
            lemma_substituted_path_has_no_brace(path, params, values, i + 1);
        } else {
            match lookup(values, params[i].name@) {
                None => {},
                Some(v) => {
                    lemma_substituted_path_has_no_brace(
                        replace_all(path, placeholder(params[i].name@), encoded_component(v)),
                        params,
                        values,
                        i + 1,
                    );
                },
            }
        }
    }
}

/// Characters of an encoded `name=value` pair.
pub open spec fn is_pair_char(c: char) -> bool {
    is_encoded_char(c) || c == '='
}

pub open spec fn pair_chars(ps: Seq<Seq<char>>) -> bool {
    forall|k: int, m: int| 0 <= k < ps.len() && 0 <= m < ps[k].len() ==> is_pair_char(#[trigger] ps[k][m])
}

proof fn lemma_query_pair_chars(name: Seq<char>, value: Seq<char>)
    ensures
        forall|m: int| 0 <= m < query_pair(name, value).len() ==> is_pair_char(#[trigger] query_pair(name, value)[m]),
{
    lemma_encoded_component_chars(name);
    lemma_encoded_component_chars(value);
    let a = encoded_component(name);
    let b = encoded_component(value);
    assert forall|m: int| 0 <= m < query_pair(name, value).len() implies is_pair_char(#[trigger] query_pair(name, value)[m]) by {
        if m < a.len() {
            assert(query_pair(name, value)[m] == a[m]);
        } else if m > a.len() {
            assert(query_pair(name, value)[m] == b[m - a.len() - 1]);
        }
    }
}

proof fn lemma_query_pairs_chars(name: Seq<char>, values: Seq<Seq<char>>)
    ensures
        pair_chars(query_pairs(name, values)),
{
    assert forall|k: int, m: int| 0 <= k < query_pairs(name, values).len() && 0 <= m < query_pairs(name, values)[k].len()
        implies is_pair_char(#[trigger] query_pairs(name, values)[k][m]) by {
        lemma_query_pair_chars(name, values[k]);
    }
}

proof fn lemma_concat_pair_chars(a: Seq<Seq<char>>, b: Seq<Seq<char>>)
    requires
        pair_chars(a),
        pair_chars(b),
    ensures
        pair_chars(a + b),
{
    assert forall|k: int, m: int| 0 <= k < (a + b).len() && 0 <= m < (a + b)[k].len() implies is_pair_char(#[trigger] (a + b)[k][m]) by {
        if k < a.len() {
            assert((a + b)[k] == a[k]);
        } else {
            assert((a + b)[k] == b[k - a.len()]);
        }
    }
}

proof fn lemma_declared_pairs_chars(
    params: Seq<GeneratedParameterDescriptor>,
    values: Seq<(Seq<char>, Seq<Seq<char>>)>,
    i: int,
)
    ensures
        declared_query_pairs(params, values, i) matches QueryOutcome::Pairs(ps) ==> pair_chars(ps),
    decreases params.len() - i,
{
    if 0 <= i < params.len() {
        lemma_declared_pairs_chars(params, values, i + 1);
        if params[i].location == ParameterLocation::Query {
            match lookup(values, params[i].name@) {
                Some(vs) => {
                    lemma_query_pairs_chars(params[i].name@, vs);
                    match declared_query_pairs(params, values, i + 1) {
                        QueryOutcome::Pairs(rest) => {
                            lemma_concat_pair_chars(query_pairs(params[i].name@, vs), rest);
                        },
                        QueryOutcome::Missing(_) => {},
                    }
                },
                None => {
                    match declared_query_pairs(params, values, i + 1) {
                        QueryOutcome::Pairs(rest) => {
                            assert(Seq::<Seq<char>>::empty() + rest =~= rest);
                        },
                        QueryOutcome::Missing(_) => {},
                    }
                },
            }
        }
    }
}

proof fn lemma_extra_pairs_chars(
    params: Seq<GeneratedParameterDescriptor>,
    values: Seq<(Seq<char>, Seq<Seq<char>>)>,
    j: int,
)
    ensures
        pair_chars(extra_query_pairs(params, values, j)),
    decreases values.len() - j,
{
    if 0 <= j < values.len() {
        lemma_extra_pairs_chars(params, values, j + 1);
        if !declares_query(params, values[j].0) {
            lemma_query_pairs_chars(values[j].0, values[j].1);
            lemma_concat_pair_chars(query_pairs(values[j].0, values[j].1), extra_query_pairs(params, values, j + 1));
        }
    }
}

proof fn lemma_join_chars(ps: Seq<Seq<char>>)
    requires
        pair_chars(ps),
    ensures
        forall|m: int| 0 <= m < join(ps, seq!['&']).len() ==> is_pair_char(#[trigger] join(ps, seq!['&'])[m])
            || join(ps, seq!['&'])[m] == '&',
    decreases ps.len(),
{
    if ps.len() > 1 {
        let init = ps.drop_last();
        assert(pair_chars(init)) by {
            assert forall|k: int, m: int| 0 <= k < init.len() && 0 <= m < init[k].len() implies is_pair_char(#[trigger] init[k][m]) by {
                assert(init[k] == ps[k]);
            }
        }
        lemma_join_chars(init);
        let j = join(init, seq!['&']);
        let last = ps.last();
        assert forall|m: int| 0 <= m < join(ps, seq!['&']).len() implies is_pair_char(#[trigger] join(ps, seq!['&'])[m])
            || join(ps, seq!['&'])[m] == '&' by {
            assert(join(ps, seq!['&']) == j + seq!['&'] + last);
            if m < j.len() {
                assert(join(ps, seq!['&'])[m] == j[m]);
            } else if m > j.len() {
                assert(join(ps, seq!['&'])[m] == last[m - j.len() - 1]);
                assert(is_pair_char(ps[ps.len() - 1][m - j.len() - 1]));
            }
        }
    } else if ps.len() == 1 {
        assert forall|m: int| 0 <= m < join(ps, seq!['&']).len() implies is_pair_char(#[trigger] join(ps, seq!['&'])[m]) by {
            assert(is_pair_char(ps[0][m]));
        }
    }
}

/// An encoded request's path holds no `{` or `}`: every placeholder was
/// substituted, and the query is made of encoded components.
pub proof fn law_encoded_path_has_no_brace(d: GeneratedOperationDescriptor, input: InputParts)
    requires
        encode_request_spec(d, input) is Request,
    ensures
        !has_brace(encode_request_spec(d, input)->Request_path),
{
    let path = encode_request_spec(d, input)->Request_path;
    lemma_substituted_path_has_no_brace(d.path@, d.parameters@, input.path_params, 0);
    let p = substitute_path(d.path@, d.parameters@, input.path_params, 0)->Encoded_0;
    let pairs = all_query_pairs(d.parameters@, input.query_params)->Pairs_0;
    lemma_declared_pairs_chars(d.parameters@, input.query_params, 0);
    lemma_extra_pairs_chars(d.parameters@, input.query_params, 0);
    let declared = declared_query_pairs(d.parameters@, input.query_params, 0)->Pairs_0;
    lemma_concat_pair_chars(declared, extra_query_pairs(d.parameters@, input.query_params, 0));
    assert(path == with_query(p, pairs));
    if pairs.len() > 0 {
        lemma_join_chars(pairs);
        let j = join(pairs, seq!['&']);
        assert(path == p + seq!['?'] + j);
        assert forall|m: int| 0 <= m < path.len() implies path[m] != '{' && path[m] != '}' by {
            if m < p.len() {
                assert(path[m] == p[m]);
                assert(p.contains(p[m]));
            } else if m > p.len() {
                assert(path[m] == j[m - p.len() - 1]);
            }
        }
    }
}

/// Whether no query value is given: every listed name has no value.
pub open spec fn no_query_values(values: Seq<(Seq<char>, Seq<Seq<char>>)>) -> bool {
    forall|j: int| 0 <= j < values.len() ==> (#[trigger] values[j]).1.len() == 0
}

proof fn lemma_lookup_no_values(values: Seq<(Seq<char>, Seq<Seq<char>>)>, k: Seq<char>)
    requires
        no_query_values(values),
    ensures
        lookup(values, k) matches Some(vs) ==> vs.len() == 0,
    decreases values.len(),
{
    if values.len() > 0 && values[0].0 != k {
        let rest = values.drop_first();
        assert forall|j: int| 0 <= j < rest.len() implies (#[trigger] rest[j]).1.len() == 0 by {
            assert(rest[j] == values[j + 1]);
        }
        lemma_lookup_no_values(rest, k);
    } else if values.len() > 0 {
        assert(values[0].1.len() == 0);
    }
}

proof fn lemma_declared_pairs_none(
    params: Seq<GeneratedParameterDescriptor>,
    values: Seq<(Seq<char>, Seq<Seq<char>>)>,
    i: int,
)
    requires
        no_query_values(values),
    ensures
        declared_query_pairs(params, values, i) matches QueryOutcome::Pairs(ps) ==> ps.len() == 0,
    decreases params.len() - i,
{
    if 0 <= i < params.len() {
        lemma_declared_pairs_none(params, values, i + 1);
        lemma_lookup_no_values(values, params[i].name@);
    }
}

proof fn lemma_extra_pairs_none(
    params: Seq<GeneratedParameterDescriptor>,
    values: Seq<(Seq<char>, Seq<Seq<char>>)>,
    j: int,
)
    requires
        no_query_values(values),
    ensures
        extra_query_pairs(params, values, j).len() == 0,
    decreases values.len() - j,
{
    if 0 <= j < values.len() {
        lemma_extra_pairs_none(params, values, j + 1);
        assert(values[j].1.len() == 0);
    }
}

proof fn lemma_replace_all_keeps_out(s: Seq<char>, pat: Seq<char>, rep: Seq<char>, c: char)
    requires
        !s.contains(c),
        !rep.contains(c),
    ensures
        !replace_all(s, pat, rep).contains(c),
    decreases s.len(),
{
    if !(pat.len() == 0 || s.len() < pat.len()) {
        if s.subrange(0, pat.len() as int) == pat {
            let rest = s.skip(pat.len() as int);
            assert(!rest.contains(c)) by {
                if rest.contains(c) {
                    let m = choose|m: int| 0 <= m < rest.len() && rest[m] == c;
                    assert(s[m + pat.len()] == c);
                }
            }
            lemma_replace_all_keeps_out(rest, pat, rep, c);
            let r = replace_all(rest, pat, rep);
            assert(!(rep + r).contains(c)) by {
                if (rep + r).contains(c) {
                    let m = choose|m: int| 0 <= m < (rep + r).len() && (rep + r)[m] == c;
                    if m < rep.len() {
                        assert(rep[m] == c);
                    } else {
                        assert(r[m - rep.len()] == c);
                    }
                }
            }
        } else {
            let rest = s.skip(1);
            assert(!rest.contains(c)) by {
                if rest.contains(c) {
                    let m = choose|m: int| 0 <= m < rest.len() && rest[m] == c;
                    assert(s[m + 1] == c);
                }
            }
            lemma_replace_all_keeps_out(rest, pat, rep, c);
            let r = replace_all(rest, pat, rep);
            assert(!(seq![s[0]] + r).contains(c)) by {
                if (seq![s[0]] + r).contains(c) {
                    let m = choose|m: int| 0 <= m < (seq![s[0]] + r).len() && (seq![s[0]] + r)[m] == c;
                    if m == 0 {
                        assert(s[0] == c);
                    } else {
                        assert(r[m - 1] == c);
                    }
                }
            }
        }
    }
}

proof fn lemma_substituted_path_no_question_mark(
    path: Seq<char>,
    params: Seq<GeneratedParameterDescriptor>,
    values: Seq<(Seq<char>, Seq<char>)>,
    i: int,
)
    requires
        !path.contains('?'),
    ensures
        substitute_path(path, params, values, i) matches PathOutcome::Encoded(p) ==> !p.contains('?'),
    decreases params.len() - i,
{
    if 0 <= i < params.len() {
        if params[i].location != ParameterLocation::Path {
            lemma_substituted_path_no_question_mark(path, params, values, i + 1);
        } else {
            match lookup(values, params[i].name@) {
                None => {},
                Some(v) => {
                    let e = encoded_component(v);
                    lemma_encoded_component_chars(v);
                    assert(!e.contains('?')) by {
                        if e.contains('?') {
                            let m = choose|m: int| 0 <= m < e.len() && e[m] == '?';
                            assert(is_encoded_char(e[m]));
                        }
                    }
                    lemma_replace_all_keeps_out(path, placeholder(params[i].name@), e, '?');
                    lemma_substituted_path_no_question_mark(
                        replace_all(path, placeholder(params[i].name@), e),
                        params,
                        values,
                        i + 1,
                    );
                },
            }
        }
    }
}

/// With no query value given, an encoded request carries no query string:
/// its path is the substituted template, and holds no `?` when the
/// template holds none.
pub proof fn law_no_query_without_values(d: GeneratedOperationDescriptor, input: InputParts)
    requires
        encode_request_spec(d, input) is Request,
        no_query_values(input.query_params),
    ensures
        encode_request_spec(d, input)->Request_path == substitute_path(d.path@, d.parameters@, input.path_params, 0)->Encoded_0,
        !d.path@.contains('?') ==> !encode_request_spec(d, input)->Request_path.contains('?'),
{
    lemma_declared_pairs_none(d.parameters@, input.query_params, 0);
    lemma_extra_pairs_none(d.parameters@, input.query_params, 0);
    let declared = declared_query_pairs(d.parameters@, input.query_params, 0)->Pairs_0;
    let pairs = all_query_pairs(d.parameters@, input.query_params)->Pairs_0;
    assert(pairs.len() == 0);
    if !d.path@.contains('?') {
        lemma_substituted_path_no_question_mark(d.path@, d.parameters@, input.path_params, 0);
    }
}

/// The number of values listed under names satisfying `p`.
pub open spec fn values_under(values: Seq<(Seq<char>, Seq<Seq<char>>)>, p: spec_fn(Seq<char>) -> bool) -> nat
    decreases values.len(),
{
    if values.len() == 0 {
        0
    } else {
        (if p(values[0].0) {
            values[0].1.len()
        } else {
            0
        }) + values_under(values.drop_first(), p)
    }
}

/// The number of query values given.
pub open spec fn value_count(values: Seq<(Seq<char>, Seq<Seq<char>>)>) -> nat {
    values_under(values, |k: Seq<char>| true)
}

/// No two entries share a name.
pub open spec fn names_distinct(values: Seq<(Seq<char>, Seq<Seq<char>>)>) -> bool {
    forall|a: int, b: int| 0 <= a < b < values.len() ==> (#[trigger] values[a]).0 != (#[trigger] values[b]).0
}

/// No two query parameters of the descriptor share a name.
pub open spec fn query_names_distinct(params: Seq<GeneratedParameterDescriptor>) -> bool {
    forall|a: int, b: int|
        0 <= a < b < params.len() && (#[trigger] params[a]).location == ParameterLocation::Query
            && (#[trigger] params[b]).location == ParameterLocation::Query ==> params[a].name@ != params[b].name@
}

/// Whether a query parameter from index `i` on is called `name`.
pub open spec fn declares_query_from(params: Seq<GeneratedParameterDescriptor>, name: Seq<char>, i: int) -> bool {
    exists|m: int|
        i <= m < params.len() && (#[trigger] params[m]).location == ParameterLocation::Query && params[m].name@ == name
}

proof fn lemma_values_under_congruent(
    values: Seq<(Seq<char>, Seq<Seq<char>>)>,
    p: spec_fn(Seq<char>) -> bool,
    q: spec_fn(Seq<char>) -> bool,
)
    requires
        forall|k: Seq<char>| #[trigger] p(k) == q(k),
    ensures
        values_under(values, p) == values_under(values, q),
    decreases values.len(),
{
    if values.len() > 0 {
        lemma_values_under_congruent(values.drop_first(), p, q);
    }
}

proof fn lemma_values_under_split(
    values: Seq<(Seq<char>, Seq<Seq<char>>)>,
    p: spec_fn(Seq<char>) -> bool,
    q: spec_fn(Seq<char>) -> bool,
    r: spec_fn(Seq<char>) -> bool,
)
    requires
        forall|k: Seq<char>| #[trigger] r(k) == (p(k) || q(k)),
        forall|k: Seq<char>| !(#[trigger] p(k) && q(k)),
    ensures
        values_under(values, r) == values_under(values, p) + values_under(values, q),
    decreases values.len(),
{
    if values.len() > 0 {
        lemma_values_under_split(values.drop_first(), p, q, r);
        let k = values[0].0;
        assert(r(k) == (p(k) || q(k)));
        assert(!(p(k) && q(k)));
    }
}

proof fn lemma_values_under_one(values: Seq<(Seq<char>, Seq<Seq<char>>)>, n: Seq<char>)
    requires
        names_distinct(values),
    ensures
        values_under(values, |k: Seq<char>| k == n) == match lookup(values, n) {
            Some(vs) => vs.len(),
            None => 0,
        },
    decreases values.len(),
{
    let rest = values.drop_first();
    if values.len() > 0 {
        assert(names_distinct(rest)) by {
            assert forall|a: int, b: int| 0 <= a < b < rest.len() implies (#[trigger] rest[a]).0 != (#[trigger] rest[b]).0 by {
                assert(rest[a] == values[a + 1]);
                assert(rest[b] == values[b + 1]);
            }
        }
        lemma_values_under_one(rest, n);
        if values[0].0 == n {
            assert forall|m: int| 0 <= m < rest.len() implies rest[m].0 != n by {
                assert(rest[m] == values[m + 1]);
                assert(values[0].0 != values[m + 1].0);
            }
            crate::maps::lemma_lookup_absent(rest, n);
        }
    }
}

proof fn lemma_extra_pairs_count(
    params: Seq<GeneratedParameterDescriptor>,
    values: Seq<(Seq<char>, Seq<Seq<char>>)>,
    j: int,
)
    requires
        0 <= j <= values.len(),
    ensures
        extra_query_pairs(params, values, j).len() == values_under(
            values.skip(j),
            |k: Seq<char>| !declares_query(params, k),
        ),
    decreases values.len() - j,
{
    if j < values.len() {
        lemma_extra_pairs_count(params, values, j + 1);
        assert(values.skip(j).drop_first() =~= values.skip(j + 1));
        assert(values.skip(j)[0] == values[j]);
    } else {
        assert(values.skip(j).len() == 0);
    }
}

proof fn lemma_declared_pairs_count(
    params: Seq<GeneratedParameterDescriptor>,
    values: Seq<(Seq<char>, Seq<Seq<char>>)>,
    i: int,
)
    requires
        0 <= i <= params.len(),
        names_distinct(values),
        query_names_distinct(params),
    ensures
        declared_query_pairs(params, values, i) matches QueryOutcome::Pairs(ps) ==> ps.len() == values_under(
            values,
            |k: Seq<char>| declares_query_from(params, k, i),
        ),
    decreases params.len() - i,
{
    let here_p = |k: Seq<char>| declares_query_from(params, k, i);
    if i == params.len() {
        lemma_values_under_congruent(values, here_p, |k: Seq<char>| false);
        lemma_values_under_zero(values);
    } else {
        lemma_declared_pairs_count(params, values, i + 1);
        let next_p = |k: Seq<char>| declares_query_from(params, k, i + 1);
        if params[i].location != ParameterLocation::Query {
            assert forall|k: Seq<char>| #[trigger] here_p(k) == next_p(k) by {
                if here_p(k) {
                    let m = choose|m: int|
                        i <= m < params.len() && (#[trigger] params[m]).location == ParameterLocation::Query
                            && params[m].name@ == k;
                    assert(m != i);
                }
            }
            lemma_values_under_congruent(values, here_p, next_p);
        } else {
            let n = params[i].name@;
            let one = |k: Seq<char>| k == n;
            assert forall|k: Seq<char>| #[trigger] here_p(k) == (next_p(k) || one(k)) by {
                if here_p(k) && k != n {
                    let m = choose|m: int|
                        i <= m < params.len() && (#[trigger] params[m]).location == ParameterLocation::Query
                            && params[m].name@ == k;
                    assert(m != i);
                }
                if next_p(k) {
                    let m = choose|m: int|
                        i + 1 <= m < params.len() && (#[trigger] params[m]).location == ParameterLocation::Query
                            && params[m].name@ == k;
                    assert(i <= m);
                }
                if one(k) {
                    assert(params[i].location == ParameterLocation::Query);
                }
            }
            assert forall|k: Seq<char>| !(#[trigger] next_p(k) && one(k)) by {
                if next_p(k) && one(k) {
                    let m = choose|m: int|
                        i + 1 <= m < params.len() && (#[trigger] params[m]).location == ParameterLocation::Query
                            && params[m].name@ == k;
                    assert(params[i].name@ != params[m].name@);
                }
            }
            lemma_values_under_split(values, next_p, one, here_p);
            lemma_values_under_one(values, n);
        }
    }
}

proof fn lemma_values_under_zero(values: Seq<(Seq<char>, Seq<Seq<char>>)>)
    ensures
        values_under(values, |k: Seq<char>| false) == 0,
    decreases values.len(),
{
    if values.len() > 0 {
        lemma_values_under_zero(values.drop_first());
    }
}

/// An encoded request carries one `name=value` query pair per query value
/// given, for declared and undeclared names alike, when the descriptor
/// declares each query name once.
pub proof fn law_one_query_pair_per_value(d: GeneratedOperationDescriptor, input: InputParts)
    requires
        encode_request_spec(d, input) is Request,
        names_distinct(input.query_params),
        query_names_distinct(d.parameters@),
    ensures
        all_query_pairs(d.parameters@, input.query_params) matches QueryOutcome::Pairs(pairs) && pairs.len()
            == value_count(input.query_params),
        encode_request_spec(d, input)->Request_path == with_query(
            substitute_path(d.path@, d.parameters@, input.path_params, 0)->Encoded_0,
            all_query_pairs(d.parameters@, input.query_params)->Pairs_0,
        ),
{
    let params = d.parameters@;
    let values = input.query_params;
    lemma_declared_pairs_count(params, values, 0);
    lemma_extra_pairs_count(params, values, 0);
    assert(values.skip(0) =~= values);
    let dp = |k: Seq<char>| declares_query_from(params, k, 0);
    let xp = |k: Seq<char>| !declares_query(params, k);
    let all = |k: Seq<char>| true;
    assert forall|k: Seq<char>| #[trigger] dp(k) == declares_query(params, k) by {
        if dp(k) {
            let m = choose|m: int|
                0 <= m < params.len() && (#[trigger] params[m]).location == ParameterLocation::Query && params[m].name@ == k;
            assert(params[m].location == ParameterLocation::Query);
        }
        if declares_query(params, k) {
            let m = choose|m: int|
                0 <= m < params.len() && (#[trigger] params[m]).location == ParameterLocation::Query && params[m].name@ == k;
            assert(params[m].location == ParameterLocation::Query);
        }
    }
    assert forall|k: Seq<char>| #[trigger] all(k) == (dp(k) || xp(k)) by {}
    assert forall|k: Seq<char>| !(#[trigger] dp(k) && xp(k)) by {}
    lemma_values_under_split(values, dp, xp, all);
}

/// A JSON media type: `application/json` itself or a structured `+json`
/// type such as `application/problem+json`.
pub open spec fn is_json_media_type(ct: Seq<char>) -> bool {
    ct == "application/json"@ || has_suffix(ct, "+json"@)
}

/// A non-empty response body matched to a documented response with a JSON
/// media type is read as JSON: a success carries the parsed value, a
/// documented error carries it as its body, and a body that does not parse
/// is a decode error. A body matched to another media type is never read as
/// JSON: a success carries no JSON value and an error no body.
pub proof fn law_json_media_types_are_parsed(
    res: Result<DecodedResponse, SdkError>,
    d: GeneratedOperationDescriptor,
    response: SdkResponse,
    i: int,
)
    requires
        decode_result_is(res, d, response),
        first_response_with_status(d.responses@, response.status, 0) == Some(i),
        response.body@.len() > 0,
    ensures
        forall|ct: String|
            #![trigger is_json_media_type(ct@)]
            d.responses@[i].content_type == Some(ct) && is_json_media_type(ct@) ==> match parsed_json(response.body@) {
                None => res matches Err(SdkError::Decode(_)),
                Some(j) => if d.responses@[i].is_error {
                    res matches Err(SdkError::ApiResponse { body: Some(v), .. }) && json_view(v) == j
                } else {
                    res matches Ok(dec) && dec.json_body matches Some(v) && json_view(v) == j
                },
            },
        forall|ct: String|
            #![trigger is_json_media_type(ct@)]
            d.responses@[i].content_type == Some(ct) && !is_json_media_type(ct@) ==> !(res matches Err(
                SdkError::Decode(_),
            )) && (res matches Ok(dec) ==> dec.json_body is None) && (res matches Err(
                SdkError::ApiResponse { body, .. },
            ) ==> body is None),
{
}

/// A request body may be left out unless the operation requires it and
/// does not accept null: encoding reports a missing body exactly when no
/// body is given for a required, non-nullable request body.
pub proof fn law_missing_body_only_when_required_and_not_nullable(d: GeneratedOperationDescriptor, input: InputParts)
    ensures
        (encode_request_spec(d, input) is MissingBody) <==> (input.body is None && d.request_body is Some
            && d.request_body->0.required && !d.request_body->0.nullable),
{
}

} // verus!
