//! SDK client entrypoint and request preparation helpers.
use vstd::prelude::*;

use crate::config::{AuthStrategy, ConfigParts, SdkConfig};
use crate::encoding::{encode_request, encode_request_spec, request_result_is};
use crate::error::SdkError;
use crate::generated::GeneratedOperationDescriptor;
use crate::maps::{sorted_insert, strings_view, MultiValueMap, StringMap};
use crate::text::{
    chars_of, has_prefix, push_all, starts_with, str_equal, string_of, trim_end, trim_end_char,
    trim_start, trim_start_char,
};
use crate::transport::{body_view, SdkRequest};

verus! {

/// Caller-provided request input for an operation.
#[derive(Clone, Debug, PartialEq, Eq)]
pub struct OperationInput {
    /// Optional raw request body.
    pub body: Option<Vec<u8>>,
    /// Additional headers to apply to the generated request.
    pub headers: StringMap,
    /// Path parameters keyed by their template name.
    pub path_params: StringMap,
    /// Query parameters keyed by name and preserving repeated values.
    pub query_params: MultiValueMap,
}

/// The parts of an operation input.
pub struct InputParts {
    pub body: Option<Seq<u8>>,
    pub headers: Seq<(Seq<char>, Seq<char>)>,
    pub path_params: Seq<(Seq<char>, Seq<char>)>,
    pub query_params: Seq<(Seq<char>, Seq<Seq<char>>)>,
}

impl View for OperationInput {
    type V = InputParts;

    open spec fn view(&self) -> InputParts {
        InputParts {
            body: body_view(self.body),
            headers: self.headers@,
            path_params: self.path_params@,
            query_params: self.query_params@,
        }
    }
}

/// An input with no body, headers or parameters.
pub open spec fn empty_input() -> InputParts {
    InputParts {
        body: None,
        headers: Seq::empty(),
        path_params: Seq::empty(),
        query_params: Seq::empty(),
    }
}

impl OperationInput {
    /// Create a new empty operation input.
    pub fn new() -> (r: Self)
        ensures
            r@ == empty_input(),
    {
        OperationInput {
            body: None,
            headers: StringMap::new(),
            path_params: StringMap::new(),
            query_params: MultiValueMap::new(),
        }
    }

    /// Create a fluent builder for operation input.
    pub fn builder() -> (b: OperationInputBuilder)
        ensures
            b@ == empty_input(),
    {
        OperationInputBuilder {
            body: None,
            headers: StringMap::new(),
            path_params: StringMap::new(),
            query_params: MultiValueMap::new(),
        }
    }
}

impl Default for OperationInput {
    /// An empty operation input.
    fn default() -> (r: Self)
        ensures
            r@ == empty_input(),
    {
        OperationInput::new()
    }
}

/// Fluent builder for [`OperationInput`].
#[derive(Debug)]
pub struct OperationInputBuilder {
    body: Option<Vec<u8>>,
    headers: StringMap,
    path_params: StringMap,
    query_params: MultiValueMap,
}

impl View for OperationInputBuilder {
    type V = InputParts;

    closed spec fn view(&self) -> InputParts {
        InputParts {
            body: body_view(self.body),
            headers: self.headers@,
            path_params: self.path_params@,
            query_params: self.query_params@,
        }
    }
}

impl Default for OperationInputBuilder {
    /// A builder for an empty input.
    fn default() -> (b: Self)
        ensures
            b@ == empty_input(),
    {
        OperationInput::builder()
    }
}

impl OperationInputBuilder {
    /// Set the request body.
    pub fn body(self, body: Vec<u8>) -> (r: Self)
        ensures
            r@ == (InputParts { body: Some(body@), ..self@ }),
    {
        OperationInputBuilder { body: Some(body), ..self }
    }

    /// Add a header.
    pub fn header(self, name: &str, value: &str) -> (r: Self)
        ensures
            r@ == (InputParts { headers: sorted_insert(self@.headers, name@, value@), ..self@ }),
    {
        let mut headers = self.headers;
        headers.insert(name.to_owned(), value.to_owned());
        OperationInputBuilder { headers, ..self }
    }

    /// Add a path parameter.
    pub fn path_param(self, name: &str, value: &str) -> (r: Self)
        ensures
            r@ == (InputParts {
                path_params: sorted_insert(self@.path_params, name@, value@),
                ..self@
            }),
    {
        let mut path_params = self.path_params;
        path_params.insert(name.to_owned(), value.to_owned());
        OperationInputBuilder { path_params, ..self }
    }

    /// Add a query parameter with a single value.
    pub fn query_param_single(self, name: &str, value: &str) -> (r: Self)
        ensures
            r@ == (InputParts {
                query_params: sorted_insert(self@.query_params, name@, seq![value@]),
                ..self@
            }),
    {
        let mut query_params = self.query_params;
        let mut values: Vec<String> = Vec::new();
        values.push(value.to_owned());
        assert(strings_view(values) =~= seq![value@]);
        query_params.insert(name.to_owned(), values);
        OperationInputBuilder { query_params, ..self }
    }

    /// Add a query parameter with multiple values.
    pub fn query_param(self, name: &str, values: Vec<String>) -> (r: Self)
        ensures
            r@ == (InputParts {
                query_params: sorted_insert(self@.query_params, name@, strings_view(values)),
                ..self@
            }),
    {
        let mut query_params = self.query_params;
        query_params.insert(name.to_owned(), values);
        OperationInputBuilder { query_params, ..self }
    }

    /// Build the operation input.
    pub fn build(self) -> (r: OperationInput)
        ensures
            r@ == self@,
    {
        OperationInput {
            body: self.body,
            headers: self.headers,
            path_params: self.path_params,
            query_params: self.query_params,
        }
    }
}

// ---------------------------------------------------------------------------
// TypeState markers for FerriskeySdkBuilder
// ---------------------------------------------------------------------------

/// TypeState: transport has not been configured yet.
#[derive(Debug, Clone, Copy)]
pub struct Unconfigured;

/// TypeState: transport has been configured.
#[derive(Debug)]
pub struct Configured<T>(std::marker::PhantomData<T>);

// ---------------------------------------------------------------------------
// Operation lookup
// ---------------------------------------------------------------------------

/// Index of the first descriptor, from index `i`, with operation ID `id`.
pub open spec fn first_operation(ops: Seq<GeneratedOperationDescriptor>, id: Seq<char>, i: int) -> Option<int>
    decreases ops.len() - i,
{
    if i < 0 || i >= ops.len() {
        None
    } else if ops[i].operation_id@ == id {
        Some(i)
    } else {
        first_operation(ops, id, i + 1)
    }
}

/// Index of the first descriptor, from index `i`, with tag `tag` and operation ID `id`.
pub open spec fn first_tagged_operation(
    ops: Seq<GeneratedOperationDescriptor>,
    tag: Seq<char>,
    id: Seq<char>,
    i: int,
) -> Option<int>
    decreases ops.len() - i,
{
    if i < 0 || i >= ops.len() {
        None
    } else if ops[i].tag@ == tag && ops[i].operation_id@ == id {
        Some(i)
    } else {
        first_tagged_operation(ops, tag, id, i + 1)
    }
}

/// The descriptors carrying `tag`, in registry order, from index `i`.
pub open spec fn tagged(ops: Seq<GeneratedOperationDescriptor>, tag: Seq<char>, i: int) -> Seq<
    GeneratedOperationDescriptor,
>
    decreases ops.len() - i,
{
    if i < 0 || i >= ops.len() {
        seq![]
    } else if ops[i].tag@ == tag {
        seq![ops[i]] + tagged(ops, tag, i + 1)
    } else {
        tagged(ops, tag, i + 1)
    }
}

// ---------------------------------------------------------------------------
// OperationCall - Bound operation
// ---------------------------------------------------------------------------

/// An operation descriptor bound to a specific SDK instance.
#[derive(Debug)]
pub struct OperationCall<'sdk, T> {
    descriptor: &'sdk GeneratedOperationDescriptor,
    sdk: &'sdk FerriskeySdk<T>,
}

impl<'sdk, T> OperationCall<'sdk, T> {
    /// The bound descriptor.
    pub closed spec fn target(&self) -> GeneratedOperationDescriptor {
        *self.descriptor
    }

    /// The SDK instance the operation is bound to.
    pub closed spec fn owner(&self) -> FerriskeySdk<T> {
        *self.sdk
    }

    /// Access the descriptor for this operation.
    pub fn descriptor(&self) -> (d: &'sdk GeneratedOperationDescriptor)
        ensures
            *d == self.target(),
    {
        self.descriptor
    }

    /// The SDK instance that executes this operation.
    pub fn sdk(&self) -> (s: &'sdk FerriskeySdk<T>)
        ensures
            *s == self.owner(),
    {
        self.sdk
    }

    /// Build a canonical SDK request for this operation.
    pub fn to_request(&self, input: OperationInput) -> (res: Result<SdkRequest, SdkError>)
        ensures
            request_result_is(res, self.target(), encode_request_spec(self.target(), input@)),
    {
        encode_request(self.descriptor, input)
    }
}

// ---------------------------------------------------------------------------
// TagClient - Tag-scoped view
// ---------------------------------------------------------------------------

/// Tag-scoped SDK view over the operation registry.
#[derive(Debug)]
pub struct TagClient<'sdk, T> {
    sdk: &'sdk FerriskeySdk<T>,
    tag: &'sdk str,
}

impl<'sdk, T> TagClient<'sdk, T> {
    /// The tag of this view.
    pub closed spec fn tag_name(&self) -> Seq<char> {
        self.tag@
    }

    /// The SDK instance this view belongs to.
    pub closed spec fn owner(&self) -> FerriskeySdk<T> {
        *self.sdk
    }

    /// Access the tag name associated with this client.
    pub fn tag(&self) -> (t: &'sdk str)
        ensures
            t@ == self.tag_name(),
    {
        self.tag
    }

    /// The descriptors assigned to this tag, in registry order.
    pub fn descriptors(&self) -> (ds: Vec<&'sdk GeneratedOperationDescriptor>)
        ensures
            ds@.len() == tagged(self.owner().registry(), self.tag_name(), 0).len(),
            forall|k: int|
                0 <= k < ds@.len() ==> *(#[trigger] ds@[k]) == tagged(
                    self.owner().registry(),
                    self.tag_name(),
                    0,
                )[k],
    {
        let ghost ops = self.sdk.operations@;
        let mut out: Vec<&'sdk GeneratedOperationDescriptor> = Vec::new();
        let mut i: usize = 0;
        while i < self.sdk.operations.len()
            invariant
                ops == self.sdk.operations@,
                i <= ops.len(),
                out@.len() + tagged(ops, self.tag@, i as int).len() == tagged(ops, self.tag@, 0).len(),
                forall|k: int| 0 <= k < out@.len() ==> *(#[trigger] out@[k]) == tagged(ops, self.tag@, 0)[k],
                forall|k: int|
                    0 <= k < tagged(ops, self.tag@, i as int).len() ==> tagged(ops, self.tag@, 0)[out@.len() + k]
                        == #[trigger] tagged(ops, self.tag@, i as int)[k],
            decreases ops.len() - i,
        {
            let descriptor = &self.sdk.operations[i];
            if str_equal(descriptor.tag.as_str(), self.tag) {
                proof {
                    let rest = tagged(ops, self.tag@, i + 1);
                    assert(tagged(ops, self.tag@, i as int) == seq![ops[i as int]] + rest);
                    assert(tagged(ops, self.tag@, i as int)[0] == ops[i as int]);
                    assert forall|k: int| 0 <= k < rest.len() implies tagged(ops, self.tag@, 0)[out@.len() + 1 + k]
                        == #[trigger] rest[k] by {
                        assert(tagged(ops, self.tag@, i as int)[k + 1] == rest[k]);
                    }
                }
                out.push(descriptor);
            }
            i = i + 1;
        }
        out
    }

    /// Resolve an operation within this tag-scoped view.
    pub fn operation(&self, operation_id: &str) -> (r: Option<OperationCall<'sdk, T>>)
        ensures
            match first_tagged_operation(self.owner().registry(), self.tag_name(), operation_id@, 0) {
                None => r is None,
                Some(k) => r matches Some(c) && c.target() == self.owner().registry()[k]
                    && c.owner() == self.owner(),
            },
    {
        let ghost ops = self.sdk.operations@;
        let mut i: usize = 0;
        while i < self.sdk.operations.len()
            invariant
                ops == self.sdk.operations@,
                i <= ops.len(),
                first_tagged_operation(ops, self.tag@, operation_id@, i as int)
                    == first_tagged_operation(ops, self.tag@, operation_id@, 0),
            decreases ops.len() - i,
        {
            let descriptor = &self.sdk.operations[i];
            if str_equal(descriptor.tag.as_str(), self.tag) && str_equal(
                descriptor.operation_id.as_str(),
                operation_id,
            ) {
                return Some(OperationCall { descriptor, sdk: self.sdk });
            }
            i = i + 1;
        }
        None
    }
}

// ---------------------------------------------------------------------------
// FerriskeySdk - Main SDK type
// ---------------------------------------------------------------------------

/// FerrisKey SDK entrypoint parameterized by a transport implementation.
///
/// The SDK holds its configuration, its transport and the operation registry
/// that requests are encoded from.
#[derive(Clone, Debug)]
pub struct FerriskeySdk<T> {
    config: SdkConfig,
    transport: T,
    operations: Vec<GeneratedOperationDescriptor>,
}

/// Resolution of a request path against a base URL: absolute URLs pass
/// through; otherwise the base without trailing `/` and the path without
/// leading `/` are joined by one `/`, and neither may be empty.
pub open spec fn resolve_url_spec(base_url: Seq<char>, path: Seq<char>) -> Option<Seq<char>> {
    if has_prefix(path, "http://"@) || has_prefix(path, "https://"@) {
        Some(path)
    } else {
        let b = trim_end_char(base_url, '/');
        let p = trim_start_char(path, '/');
        if b.len() == 0 || p.len() == 0 {
            None
        } else {
            Some(b + seq!['/'] + p)
        }
    }
}

/// An absolute `http://` or `https://` request path is kept as it is,
/// whatever the base URL: preparing such a request never reports an invalid
/// URL, and the prepared request goes to the path unchanged.
pub proof fn law_absolute_urls_pass_through(res: Result<SdkRequest, SdkError>, config: ConfigParts, request: SdkRequest)
    requires
        prepared_result_is(res, config, request),
        has_prefix(request.path@, "http://"@) || has_prefix(request.path@, "https://"@),
    ensures
        !(res matches Err(SdkError::InvalidUrl { .. })),
        res matches Ok(r) ==> r.path@ == request.path@,
{
}

/// A relative request path is joined to the base URL with exactly one `/`
/// between them: the prepared path starts with the base URL without its
/// trailing slashes, then `/`, then the path without its leading slashes.
pub proof fn law_relative_paths_join_the_base(res: Result<SdkRequest, SdkError>, config: ConfigParts, request: SdkRequest)
    requires
        prepared_result_is(res, config, request),
        !has_prefix(request.path@, "http://"@),
        !has_prefix(request.path@, "https://"@),
    ensures
        res matches Ok(r) ==> r.path@ == trim_end_char(config.base_url, '/') + seq!['/'] + trim_start_char(
            request.path@,
            '/',
        ),
        (trim_end_char(config.base_url, '/').len() == 0 || trim_start_char(request.path@, '/').len() == 0) <==> (
        res matches Err(SdkError::InvalidUrl { .. })),
{
}

/// The `authorization` header value for a bearer token.
pub open spec fn bearer_header(token: Seq<char>) -> Seq<char> {
    "Bearer "@ + token
}

/// What preparing a request yields, by cases: URL resolution first, then
/// the bearer header for requests that require authentication.
pub open spec fn prepared_result_is(
    res: Result<SdkRequest, SdkError>,
    config: ConfigParts,
    request: SdkRequest,
) -> bool {
    match resolve_url_spec(config.base_url, request.path@) {
        None => res matches Err(SdkError::InvalidUrl { base_url, path }) && base_url@
            == config.base_url && path@ == request.path@,
        Some(url) => if request.requires_auth && config.token is None {
            res matches Err(SdkError::MissingAuth)
        } else {
            res matches Ok(r) && r.path@ == url && r.method@ == request.method@ && body_view(r.body)
                == body_view(request.body) && r.requires_auth == request.requires_auth && r.headers@
                == (if request.requires_auth {
                sorted_insert(request.headers@, "authorization"@, bearer_header(config.token->0))
            } else {
                request.headers@
            })
        },
    }
}

impl<T> FerriskeySdk<T> {
    /// The configuration of this SDK.
    pub closed spec fn settings(&self) -> ConfigParts {
        self.config@
    }

    /// The operation registry of this SDK.
    pub closed spec fn registry(&self) -> Seq<GeneratedOperationDescriptor> {
        self.operations@
    }

    /// The transport of this SDK.
    pub closed spec fn carrier(&self) -> T {
        self.transport
    }

    /// Construct a new SDK instance directly.
    pub fn new(config: SdkConfig, transport: T, operations: Vec<GeneratedOperationDescriptor>) -> (r:
        Self)
        ensures
            r.settings() == config@,
            r.carrier() == transport,
            r.registry() == operations@,
    {
        FerriskeySdk { config, transport, operations }
    }

    /// Create a typed builder with the required configuration and registry.
    pub fn builder(config: SdkConfig, operations: Vec<GeneratedOperationDescriptor>) -> (b:
        FerriskeySdkBuilder<T, Unconfigured>)
        ensures
            b.settings() == config@,
            b.registry() == operations@,
            b.carrier() is None,
    {
        FerriskeySdkBuilder {
            config,
            transport: None,
            operations,
            _state: std::marker::PhantomData,
        }
    }

    /// Access the SDK configuration.
    pub fn config(&self) -> (r: &SdkConfig)
        ensures
            r@ == self.settings(),
    {
        &self.config
    }

    /// Access the underlying transport.
    pub fn transport(&self) -> (r: &T)
        ensures
            *r == self.carrier(),
    {
        &self.transport
    }

    /// Access the full operation registry.
    pub fn operations(&self) -> (r: &[GeneratedOperationDescriptor])
        ensures
            r@ == self.registry(),
    {
        self.operations.as_slice()
    }

    /// Access a tag-scoped SDK view.
    pub fn tag<'a>(&'a self, tag: &'a str) -> (r: TagClient<'a, T>)
        ensures
            r.tag_name() == tag@,
            r.owner() == *self,
    {
        TagClient { sdk: self, tag }
    }

    /// Resolve an operation by its operation ID.
    pub fn operation(&self, operation_id: &str) -> (r: Option<OperationCall<'_, T>>)
        ensures
            match first_operation(self.registry(), operation_id@, 0) {
                None => r is None,
                Some(k) => r matches Some(c) && c.target() == self.registry()[k] && c.owner()
                    == *self,
            },
    {
        let ghost ops = self.operations@;
        let mut i: usize = 0;
        while i < self.operations.len()
            invariant
                ops == self.operations@,
                i <= ops.len(),
                first_operation(ops, operation_id@, i as int) == first_operation(ops, operation_id@, 0),
            decreases ops.len() - i,
        {
            if str_equal(self.operations[i].operation_id.as_str(), operation_id) {
                return Some(OperationCall { descriptor: &self.operations[i], sdk: self });
            }
            i = i + 1;
        }
        None
    }

    /// Resolve an operation by its operation ID, or report it unknown.
    pub fn require_operation(&self, operation_id: &str) -> (r: Result<OperationCall<'_, T>, SdkError>)
        ensures
            match first_operation(self.registry(), operation_id@, 0) {
                None => r matches Err(SdkError::UnknownOperation { operation_id: o }) && o@ == operation_id@,
                Some(k) => r matches Ok(c) && c.target() == self.registry()[k] && c.owner() == *self,
            },
    {
        match self.operation(operation_id) {
            Some(c) => Ok(c),
            None => Err(SdkError::UnknownOperation { operation_id: operation_id.to_owned() }),
        }
    }

    /// Prepare a request by resolving its URL and applying auth.
    pub fn prepare_request(&self, request: SdkRequest) -> (res: Result<SdkRequest, SdkError>)
        ensures
            prepared_result_is(res, self.settings(), request),
    {
        let mut request = request;
        let resolved = match resolve_url(self.config.base_url(), request.path.as_str()) {
            Ok(p) => p,
            Err(e) => return Err(e),
        };
        request.path = resolved;
        if request.requires_auth {
            match self.config.auth() {
                AuthStrategy::Bearer(token) => {
                    let mut value: String = "Bearer ".to_owned();
                    value.append(token.as_str());
                    request.headers.insert("authorization".to_owned(), value);
                },
                AuthStrategy::NoAuth => return Err(SdkError::MissingAuth),
            }
        }
        Ok(request)
    }
}

// ---------------------------------------------------------------------------
// FerriskeySdkBuilder - Type-safe builder
// ---------------------------------------------------------------------------

/// Typed builder for [`FerriskeySdk`].
#[derive(Debug)]
pub struct FerriskeySdkBuilder<T, S> {
    config: SdkConfig,
    transport: Option<T>,
    operations: Vec<GeneratedOperationDescriptor>,
    _state: std::marker::PhantomData<S>,
}

impl<T, S> FerriskeySdkBuilder<T, S> {
    /// The configuration being built with.
    pub closed spec fn settings(&self) -> ConfigParts {
        self.config@
    }

    /// The registry being built with.
    pub closed spec fn registry(&self) -> Seq<GeneratedOperationDescriptor> {
        self.operations@
    }

    /// The transport set so far.
    pub closed spec fn carrier(&self) -> Option<T> {
        self.transport
    }
}

impl<T> FerriskeySdkBuilder<T, Unconfigured> {
    /// Set the transport. Transitions to `Configured` state.
    pub fn transport(self, transport: T) -> (r: FerriskeySdkBuilder<T, Configured<T>>)
        ensures
            r.settings() == self.settings(),
            r.registry() == self.registry(),
            r.carrier() == Some(transport),
    {
        FerriskeySdkBuilder {
            config: self.config,
            transport: Some(transport),
            operations: self.operations,
            _state: std::marker::PhantomData,
        }
    }
}

impl<T> FerriskeySdkBuilder<T, Configured<T>> {
    /// Build the SDK instance; the transport set in the configured state is used.
    pub fn build(self) -> (r: FerriskeySdk<T>)
        requires
            self.carrier() is Some,
        ensures
            r.settings() == self.settings(),
            r.registry() == self.registry(),
            r.carrier() == self.carrier()->0,
    {
        FerriskeySdk {
            config: self.config,
            transport: self.transport.unwrap(),
            operations: self.operations,
        }
    }
}

/// Extension trait for convenient SDK construction.
pub trait SdkExt: Sized {
    /// The transport type for this SDK.
    type Transport;

    /// Create an SDK with a fluent one-liner.
    fn with_transport(
        config: SdkConfig,
        transport: Self::Transport,
        operations: Vec<GeneratedOperationDescriptor>,
    ) -> FerriskeySdk<Self::Transport>;
}

impl<T> SdkExt for FerriskeySdk<T> {
    type Transport = T;

    fn with_transport(config: SdkConfig, transport: T, operations: Vec<GeneratedOperationDescriptor>) -> (r:
        Self)
        ensures
            r.settings() == config@,
            r.carrier() == transport,
            r.registry() == operations@,
    {
        Self::new(config, transport, operations)
    }
}

// ---------------------------------------------------------------------------
// URL resolution
// ---------------------------------------------------------------------------

/// Resolve a URL from base and path components.
fn resolve_url(base_url: &str, path: &str) -> (res: Result<String, SdkError>)
    ensures
        match resolve_url_spec(base_url@, path@) {
            Some(url) => res matches Ok(s) && s@ == url,
            None => res matches Err(SdkError::InvalidUrl { base_url: b, path: p }) && b@ == base_url@
                && p@ == path@,
        },
{
    let path_chars = chars_of(path);
    if starts_with(path_chars.as_slice(), chars_of("http://").as_slice()) || starts_with(
        path_chars.as_slice(),
        chars_of("https://").as_slice(),
    ) {
        return Ok(path.to_owned());
    }
    let trimmed_base = trim_end(chars_of(base_url).as_slice(), '/');
    let trimmed_path = trim_start(path_chars.as_slice(), '/');
    if trimmed_base.len() == 0 || trimmed_path.len() == 0 {
        return Err(SdkError::InvalidUrl { base_url: base_url.to_owned(), path: path.to_owned() });
    }
    let mut joined = trimmed_base;
    joined.push('/');
    push_all(&mut joined, trimmed_path.as_slice());
    Ok(string_of(joined.as_slice()))
}

/// The status test made before a response body is decoded as the caller's type:
/// the status must be the expected one.
pub fn check_status(response: &crate::transport::SdkResponse, expected: u16) -> (r: Result<(), SdkError>)
    ensures
        response.status == expected ==> r is Ok,
        response.status != expected ==> (r matches Err(SdkError::UnexpectedStatus { expected: e, actual: a })
            && e == expected && a == response.status),
{
    if response.status != expected {
        return Err(SdkError::UnexpectedStatus { expected, actual: response.status });
    }
    Ok(())
}

proof fn lemma_first_operation_found(ops: Seq<GeneratedOperationDescriptor>, id: Seq<char>, i: int, k: int)
    requires
        0 <= i <= k < ops.len(),
        ops[k].operation_id@ == id,
    ensures
        first_operation(ops, id, i) matches Some(j) && i <= j <= k && ops[j].operation_id@ == id,
    decreases k - i,
{
    if ops[i].operation_id@ != id {
        lemma_first_operation_found(ops, id, i + 1, k);
    }
}

/// Every operation of the registry is reachable by its identifier: the
/// lookup finds an operation with that identifier, and when identifiers are
/// distinct it finds that very operation.
pub proof fn law_every_operation_reachable(ops: Seq<GeneratedOperationDescriptor>, k: int)
    requires
        0 <= k < ops.len(),
    ensures
        first_operation(ops, ops[k].operation_id@, 0) matches Some(j) && j <= k && ops[j].operation_id@
            == ops[k].operation_id@,
        (forall|a: int, b: int|
            0 <= a < b < ops.len() ==> (#[trigger] ops[a]).operation_id@ != (#[trigger] ops[b]).operation_id@)
            ==> first_operation(ops, ops[k].operation_id@, 0) == Some(k),
{
    lemma_first_operation_found(ops, ops[k].operation_id@, 0, k);
}

} // verus!
