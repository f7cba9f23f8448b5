//! The descriptor-driven command line: the command tree built from the
//! registry, and the normalization of parsed arguments into an SDK request.
//!
//! Argument parsing itself belongs to the binary; this module describes the
//! tree the parser is built from and turns the parser's plain results into
//! an invocation.
use vstd::prelude::*;

use crate::client::{empty_input, InputParts, OperationInput};
use crate::document::{clone_json, json_view, lemma_object_view, members_view, Json, JsonMember, JsonValue};
use crate::encoding::DecodedResponse;
use crate::json::{compact_json_text, pretty_json_text, write_compact_json, write_pretty_json};
use crate::render::{decimal, push_decimal};
use crate::transport::body_view;
use crate::config::{AuthStrategy, ConfigParts, SdkConfig};
use crate::contract::{OperationModel, ParameterLocationSeed, ParameterModel, RequestBodyModel, operations_view};
use crate::error::SdkError;
use crate::generated::{GeneratedOperationDescriptor, ParameterLocation};
use crate::login::{LoginInvocation, SavedCredentials};
use crate::maps::{lookup, sorted_insert, strings_view, MultiValueMap, StringMap};
use crate::text::{chars_of, opt_view, str_equal, string_of};
use vstd::string::StringSliceAdditionalSpecFns;

verus! {

/// Errors raised while normalizing CLI requests.
#[derive(Debug)]
pub enum CliError {
    /// A required argument was not supplied; the message names it.
    MissingRequiredArgument(String),
    /// A tag or operation subcommand was not supplied.
    MissingSubcommand(String),
    /// The requested CLI command did not resolve to a generated operation.
    UnknownOperation {
        /// Operation identifier requested by the CLI.
        operation_id: String,
    },
    /// The SDK execution path failed.
    Sdk(SdkError),
    /// Rendering structured CLI output failed.
    Output(serde_json::Error),
}

/// Output rendering mode for CLI responses.
#[derive(Clone, Copy, Debug, PartialEq, Eq, Structural)]
pub enum OutputFormat {
    /// Compact JSON output.
    Json,
    /// Indented JSON output.
    Pretty,
}

impl OutputFormat {
    /// Parse output format from string: `pretty` is indented output, anything
    /// else compact output.
    pub fn from_str(s: &str) -> (r: Self)
        ensures
            r == (if s@ == "pretty"@ { OutputFormat::Pretty } else { OutputFormat::Json }),
    {
        if str_equal(s, "pretty") {
            OutputFormat::Pretty
        } else {
            OutputFormat::Json
        }
    }
}

/// CLI runtime configuration resolved from the command line.
#[derive(Clone, Debug, PartialEq, Eq)]
pub struct CliConfig {
    /// Base URL used to resolve generated request paths.
    pub base_url: String,
    /// Optional bearer token applied to secured operations.
    pub bearer_token: Option<String>,
    /// Output mode for structured CLI responses.
    pub output_format: OutputFormat,
}

/// The value of a CLI configuration.
pub struct CliConfigModel {
    pub base_url: Seq<char>,
    pub bearer_token: Option<Seq<char>>,
    pub output_format: OutputFormat,
}

impl View for CliConfig {
    type V = CliConfigModel;

    open spec fn view(&self) -> CliConfigModel {
        CliConfigModel {
            base_url: self.base_url@,
            bearer_token: opt_view(self.bearer_token),
            output_format: self.output_format,
        }
    }
}

impl CliConfig {
    /// Convert CLI config to SDK config: the same base URL, bearer
    /// authentication when a token was given.
    pub fn to_sdk_config(&self) -> (r: SdkConfig)
        ensures
            r@ == (ConfigParts {
                base_url: self.base_url@,
                token: opt_view(self.bearer_token),
                timeout: None,
                user_agent: None,
            }),
    {
        let auth = match &self.bearer_token {
            Some(t) => AuthStrategy::Bearer(t.clone()),
            None => AuthStrategy::NoAuth,
        };
        SdkConfig::new(self.base_url.as_str(), auth)
    }
}

/// Parsed CLI invocation normalized into the shared SDK request shape.
#[derive(Clone, Debug, PartialEq, Eq)]
pub struct CliInvocation {
    /// Runtime configuration resolved from global CLI arguments.
    pub config: CliConfig,
    /// Generated operation identifier selected by the CLI subcommand tree.
    pub operation_id: String,
    /// Canonical SDK request input assembled from CLI arguments.
    pub input: OperationInput,
}

// ---------------------------------------------------------------------------
// Names and help texts.
// ---------------------------------------------------------------------------

/// `s` with every `from` replaced by `to`.
pub open spec fn map_char(s: Seq<char>, from: char, to: char) -> Seq<char> {
    Seq::new(s.len(), |i: int| if s[i] == from { to } else { s[i] })
}

fn swap_char(s: &str, from: char, to: char) -> (r: String)
    ensures
        r@ == map_char(s@, from, to),
{
    let cs = chars_of(s);
    let mut out: Vec<char> = Vec::new();
    let mut i: usize = 0;
    while i < cs.len()
        invariant
            i <= cs@.len(),
            out@.len() == i,
            forall|j: int| 0 <= j < i ==> out@[j] == (if cs@[j] == from { to } else { cs@[j] }),
        decreases cs@.len() - i,
    {
        if cs[i] == from {
            out.push(to);
        } else {
            out.push(cs[i]);
        }
        i = i + 1;
    }
    assert(out@ =~= map_char(s@, from, to));
    string_of(out.as_slice())
}

/// The subcommand name of an operation: its identifier with `-` for `_`.
pub fn command_name(operation_id: &str) -> (r: String)
    ensures
        r@ == map_char(operation_id@, '_', '-'),
{
    swap_char(operation_id, '_', '-')
}

/// The help text of a parameter argument.
pub open spec fn parameter_help_spec(location: ParameterLocation) -> Seq<char> {
    match location {
        ParameterLocationSeed::Header => "Header parameter"@,
        ParameterLocationSeed::Path => "Path parameter"@,
        ParameterLocationSeed::Query => "Query parameter"@,
    }
}

/// The help text of a parameter argument.
pub fn parameter_help(location: ParameterLocation) -> (r: &'static str)
    ensures
        r@ == parameter_help_spec(location),
{
    match location {
        ParameterLocationSeed::Header => "Header parameter",
        ParameterLocationSeed::Path => "Path parameter",
        ParameterLocationSeed::Query => "Query parameter",
    }
}

// ---------------------------------------------------------------------------
// The command tree.
// ---------------------------------------------------------------------------

/// One command-line argument.
#[derive(Clone, Debug, PartialEq, Eq)]
pub struct ArgSpec {
    /// Identifier the parsed value is found under.
    pub id: String,
    /// Long flag name, without the leading dashes.
    pub long: String,
    /// Placeholder shown for the value.
    pub value_name: String,
    /// Whether the argument must be given.
    pub required: bool,
    /// Help text.
    pub help: String,
    /// Whether repeated occurrences collect several values.
    pub append: bool,
    /// Whether the argument is accepted after subcommands too.
    pub global: bool,
    /// Value used when the argument is absent.
    pub default_value: Option<String>,
    /// The accepted values, when restricted.
    pub possible_values: Vec<String>,
}

/// The value of an argument.
pub struct ArgModel {
    pub id: Seq<char>,
    pub long: Seq<char>,
    pub value_name: Seq<char>,
    pub required: bool,
    pub help: Seq<char>,
    pub append: bool,
    pub global: bool,
    pub default_value: Option<Seq<char>>,
    pub possible_values: Seq<Seq<char>>,
}

impl View for ArgSpec {
    type V = ArgModel;

    open spec fn view(&self) -> ArgModel {
        ArgModel {
            id: self.id@,
            long: self.long@,
            value_name: self.value_name@,
            required: self.required,
            help: self.help@,
            append: self.append,
            global: self.global,
            default_value: opt_view(self.default_value),
            possible_values: strings_view(self.possible_values),
        }
    }
}

pub open spec fn args_view(s: Seq<ArgSpec>) -> Seq<ArgModel> {
    Seq::new(s.len(), |i: int| s[i]@)
}

/// The subcommand of one operation.
#[derive(Clone, Debug, PartialEq, Eq)]
pub struct OperationCommand {
    pub name: String,
    pub args: Vec<ArgSpec>,
}

pub struct OperationCommandModel {
    pub name: Seq<char>,
    pub args: Seq<ArgModel>,
}

impl View for OperationCommand {
    type V = OperationCommandModel;

    open spec fn view(&self) -> OperationCommandModel {
        OperationCommandModel { name: self.name@, args: args_view(self.args@) }
    }
}

/// The subcommand of one tag, grouping its operations.
#[derive(Clone, Debug, PartialEq, Eq)]
pub struct TagCommand {
    pub name: String,
    pub operations: Vec<OperationCommand>,
}

pub struct TagCommandModel {
    pub name: Seq<char>,
    pub operations: Seq<OperationCommandModel>,
}

pub open spec fn operation_commands_view(s: Seq<OperationCommand>) -> Seq<OperationCommandModel> {
    Seq::new(s.len(), |i: int| s[i]@)
}

impl View for TagCommand {
    type V = TagCommandModel;

    open spec fn view(&self) -> TagCommandModel {
        TagCommandModel { name: self.name@, operations: operation_commands_view(self.operations@) }
    }
}

/// The whole command tree: global arguments, the `login` subcommand and one
/// subcommand per tag.
#[derive(Clone, Debug, PartialEq, Eq)]
pub struct CliCommand {
    pub name: String,
    pub about: String,
    pub args: Vec<ArgSpec>,
    pub login: OperationCommand,
    pub tags: Vec<TagCommand>,
}

pub struct CliCommandModel {
    pub name: Seq<char>,
    pub about: Seq<char>,
    pub args: Seq<ArgModel>,
    pub login: OperationCommandModel,
    pub tags: Seq<TagCommandModel>,
}

pub open spec fn tag_commands_view(s: Seq<TagCommand>) -> Seq<TagCommandModel> {
    Seq::new(s.len(), |i: int| s[i]@)
}

impl View for CliCommand {
    type V = CliCommandModel;

    open spec fn view(&self) -> CliCommandModel {
        CliCommandModel {
            name: self.name@,
            about: self.about@,
            args: args_view(self.args@),
            login: self.login@,
            tags: tag_commands_view(self.tags@),
        }
    }
}

/// The argument of a parameter: named after it, with `-` for `_` in the
/// flag; query parameters may repeat.
pub open spec fn parameter_arg(p: ParameterModel) -> ArgModel {
    ArgModel {
        id: p.name,
        long: map_char(p.name, '_', '-'),
        value_name: p.name,
        required: p.required,
        help: parameter_help_spec(p.location),
        append: p.location == ParameterLocationSeed::Query,
        global: false,
        default_value: None,
        possible_values: seq![],
    }
}

/// The `--body` argument, required when the body is required and not
/// nullable.
pub open spec fn body_arg(b: RequestBodyModel) -> ArgModel {
    ArgModel {
        id: "body"@,
        long: "body"@,
        value_name: "JSON_OR_@FILE"@,
        required: b.required && !b.nullable,
        help: "Request body as inline JSON or @path/to/file.json"@,
        append: false,
        global: false,
        default_value: None,
        possible_values: seq![],
    }
}

pub open spec fn parameter_args(ps: Seq<ParameterModel>) -> Seq<ArgModel> {
    Seq::new(ps.len(), |i: int| parameter_arg(ps[i]))
}

/// The subcommand of an operation.
pub open spec fn operation_command_spec(d: OperationModel) -> OperationCommandModel {
    OperationCommandModel {
        name: map_char(d.operation_id, '_', '-'),
        args: parameter_args(d.parameters) + match d.request_body {
            Some(b) => seq![body_arg(b)],
            None => seq![],
        },
    }
}

fn string_vec_empty() -> (r: Vec<String>)
    ensures
        strings_view(r) == Seq::<Seq<char>>::empty(),
{
    let r: Vec<String> = Vec::new();
    assert(strings_view(r) =~= Seq::<Seq<char>>::empty());
    r
}

/// The subcommand of an operation, with one argument per parameter and a
/// `--body` argument when the operation takes a body.
pub fn operation_command(descriptor: &GeneratedOperationDescriptor) -> (r: OperationCommand)
    ensures
        r@ == operation_command_spec(descriptor@),
{
    let ghost d = descriptor@;
    let mut args: Vec<ArgSpec> = Vec::new();
    let mut i: usize = 0;
    while i < descriptor.parameters.len()
        invariant
            d == descriptor@,
            i <= d.parameters.len(),
            args_view(args@) =~= parameter_args(d.parameters).take(i as int),
        decreases d.parameters.len() - i,
    {
        let p = &descriptor.parameters[i];
        let ghost pv = p@;
        assert(pv == d.parameters[i as int]);
        let arg = ArgSpec {
            id: p.name.clone(),
            long: swap_char(p.name.as_str(), '_', '-'),
            value_name: p.name.clone(),
            required: p.required,
            help: parameter_help(p.location).to_owned(),
            append: p.location == ParameterLocationSeed::Query,
            global: false,
            default_value: None,
            possible_values: string_vec_empty(),
        };
        assert(arg@ == parameter_arg(pv));
        let ghost before = args_view(args@);
        args.push(arg);
        assert(args_view(args@) =~= before.push(parameter_arg(pv)));
        assert(parameter_args(d.parameters).take(i + 1) =~= parameter_args(d.parameters).take(i as int).push(parameter_arg(pv)));
        i = i + 1;
    }
    assert(parameter_args(d.parameters).take(i as int) =~= parameter_args(d.parameters));
    match &descriptor.request_body {
        Some(b) => {
            let arg = ArgSpec {
                id: "body".to_owned(),
                long: "body".to_owned(),
                value_name: "JSON_OR_@FILE".to_owned(),
                required: b.required && !b.nullable,
                help: "Request body as inline JSON or @path/to/file.json".to_owned(),
                append: false,
                global: false,
                default_value: None,
                possible_values: string_vec_empty(),
            };
            let ghost before = args_view(args@);
            args.push(arg);
            assert(args_view(args@) =~= before + seq![body_arg(b@)]);
        },
        None => {
            assert(args_view(args@) =~= args_view(args@) + Seq::<ArgModel>::empty());
        },
    }
    OperationCommand { name: command_name(descriptor.operation_id.as_str()), args }
}

/// The operations whose tag is `t`, in order.
pub open spec fn tagged_operations(ops: Seq<OperationModel>, t: Seq<char>) -> Seq<OperationModel>
    decreases ops.len(),
{
    if ops.len() == 0 {
        ops
    } else if ops.last().tag == t {
        tagged_operations(ops.drop_last(), t).push(ops.last())
    } else {
        tagged_operations(ops.drop_last(), t)
    }
}

pub open spec fn operation_commands_spec(ops: Seq<OperationModel>) -> Seq<OperationCommandModel> {
    Seq::new(ops.len(), |i: int| operation_command_spec(ops[i]))
}

/// The subcommand of tag `t`.
pub open spec fn tag_command_spec(ops: Seq<OperationModel>, t: Seq<char>) -> TagCommandModel {
    TagCommandModel { name: t, operations: operation_commands_spec(tagged_operations(ops, t)) }
}

pub open spec fn tag_commands_spec(ops: Seq<OperationModel>, tags: Seq<Seq<char>>) -> Seq<TagCommandModel> {
    Seq::new(tags.len(), |i: int| tag_command_spec(ops, tags[i]))
}

/// The global arguments: `--base-url`, `--bearer-token` and `--output`. The
/// base URL may come from saved credentials instead, so it is not required
/// here.
pub open spec fn global_args() -> Seq<ArgModel> {
    seq![
        ArgModel {
            id: "base-url"@,
            long: "base-url"@,
            value_name: "URL"@,
            required: false,
            help: "Base URL for the FerrisKey API"@,
            append: false,
            global: true,
            default_value: None,
            possible_values: seq![],
        },
        ArgModel {
            id: "bearer-token"@,
            long: "bearer-token"@,
            value_name: "TOKEN"@,
            required: false,
            help: "Optional bearer token for secured operations"@,
            append: false,
            global: true,
            default_value: None,
            possible_values: seq![],
        },
        ArgModel {
            id: "output"@,
            long: "output"@,
            value_name: "FORMAT"@,
            required: false,
            help: "Structured output mode"@,
            append: false,
            global: true,
            default_value: Some("json"@),
            possible_values: seq!["json"@, "pretty"@],
        },
    ]
}

/// The `login` subcommand: `--username` and `--password` are required,
/// `--realm-name` defaults to `master`.
pub open spec fn login_command_spec() -> OperationCommandModel {
    OperationCommandModel {
        name: "login"@,
        args: seq![
            ArgModel {
                id: "username"@,
                long: "username"@,
                value_name: "USERNAME"@,
                required: true,
                help: "User name to authenticate with"@,
                append: false,
                global: false,
                default_value: None,
                possible_values: seq![],
            },
            ArgModel {
                id: "password"@,
                long: "password"@,
                value_name: "PASSWORD"@,
                required: true,
                help: "Password to authenticate with"@,
                append: false,
                global: false,
                default_value: None,
                possible_values: seq![],
            },
            ArgModel {
                id: "realm-name"@,
                long: "realm-name"@,
                value_name: "REALM"@,
                required: false,
                help: "Realm to authenticate against"@,
                append: false,
                global: false,
                default_value: Some("master"@),
                possible_values: seq![],
            },
        ],
    }
}

fn login_command() -> (r: OperationCommand)
    ensures
        r@ == login_command_spec(),
{
    let mut args: Vec<ArgSpec> = Vec::new();
    args.push(global_arg("username", "USERNAME", true, "User name to authenticate with", false));
    args.push(global_arg("password", "PASSWORD", true, "Password to authenticate with", false));
    args.push(
        ArgSpec {
            id: "realm-name".to_owned(),
            long: "realm-name".to_owned(),
            value_name: "REALM".to_owned(),
            required: false,
            help: "Realm to authenticate against".to_owned(),
            append: false,
            global: false,
            default_value: Some("master".to_owned()),
            possible_values: string_vec_empty(),
        },
    );
    assert(args_view(args@) =~= login_command_spec().args);
    OperationCommand { name: "login".to_owned(), args }
}

fn tag_command(operations: &Vec<GeneratedOperationDescriptor>, tag: &String) -> (r: TagCommand)
    ensures
        r@ == tag_command_spec(operations_view(operations@), tag@),
{
    let ghost ops = operations_view(operations@);
    let mut commands: Vec<OperationCommand> = Vec::new();
    let mut i: usize = 0;
    while i < operations.len()
        invariant
            ops == operations_view(operations@),
            i <= ops.len(),
            operation_commands_view(commands@) =~= operation_commands_spec(tagged_operations(ops.take(i as int), tag@)),
        decreases ops.len() - i,
    {
        assert(ops.take(i + 1).drop_last() =~= ops.take(i as int));
        assert(ops.take(i + 1).last() == operations@[i as int]@);
        if str_equal(operations[i].tag.as_str(), tag.as_str()) {
            let c = operation_command(&operations[i]);
            let ghost before = operation_commands_view(commands@);
            commands.push(c);
            assert(operation_commands_view(commands@) =~= before.push(c@));
        }
        i = i + 1;
    }
    assert(ops.take(i as int) =~= ops);
    TagCommand { name: tag.clone(), operations: commands }
}

fn global_arg(id: &str, value_name: &str, required: bool, help: &str, global: bool) -> (r: ArgSpec)
    ensures
        r@ == (ArgModel {
            id: id@,
            long: id@,
            value_name: value_name@,
            required,
            help: help@,
            append: false,
            global,
            default_value: None,
            possible_values: seq![],
        }),
{
    ArgSpec {
        id: id.to_owned(),
        long: id.to_owned(),
        value_name: value_name.to_owned(),
        required,
        help: help.to_owned(),
        append: false,
        global,
        default_value: None,
        possible_values: string_vec_empty(),
    }
}

/// The command tree: the global arguments, the `login` subcommand, then one
/// subcommand per tag, each holding the subcommands of the operations with
/// that tag.
pub fn build_command(operations: &Vec<GeneratedOperationDescriptor>, tags: &Vec<String>) -> (r: CliCommand)
    ensures
        r@ == (CliCommandModel {
            name: "ferriskey-cli"@,
            about: "FerrisKey CLI"@,
            args: global_args(),
            login: login_command_spec(),
            tags: tag_commands_spec(operations_view(operations@), strings_view(*tags)),
        }),
{
    let mut args: Vec<ArgSpec> = Vec::new();
    args.push(global_arg("base-url", "URL", false, "Base URL for the FerrisKey API", true));
    args.push(global_arg("bearer-token", "TOKEN", false, "Optional bearer token for secured operations", true));
    let mut possible: Vec<String> = Vec::new();
    possible.push("json".to_owned());
    possible.push("pretty".to_owned());
    assert(strings_view(possible) =~= seq!["json"@, "pretty"@]);
    args.push(
        ArgSpec {
            id: "output".to_owned(),
            long: "output".to_owned(),
            value_name: "FORMAT".to_owned(),
            required: false,
            help: "Structured output mode".to_owned(),
            append: false,
            global: true,
            default_value: Some("json".to_owned()),
            possible_values: possible,
        },
    );
    assert(args_view(args@) =~= global_args());
    let ghost ops = operations_view(operations@);
    let ghost tv = strings_view(*tags);
    let mut tag_commands: Vec<TagCommand> = Vec::new();
    let mut i: usize = 0;
    while i < tags.len()
        invariant
            ops == operations_view(operations@),
            tv == strings_view(*tags),
            i <= tv.len(),
            tag_commands@.len() == i,
            forall|j: int| 0 <= j < i ==> (#[trigger] tag_commands@[j])@ == tag_command_spec(ops, tv[j]),
        decreases tv.len() - i,
    {
        let c = tag_command(operations, &tags[i]);
        tag_commands.push(c);
        i = i + 1;
    }
    assert(tag_commands_view(tag_commands@) =~= tag_commands_spec(ops, tv));
    CliCommand {
        name: "ferriskey-cli".to_owned(),
        about: "FerrisKey CLI".to_owned(),
        args,
        login: login_command(),
        tags: tag_commands,
    }
}

// ---------------------------------------------------------------------------
// Parsed arguments.
// ---------------------------------------------------------------------------

/// What the argument parser found: the global arguments, the chosen tag and
/// operation subcommands, the operation's argument values by identifier,
/// and the request body bytes.
#[derive(Debug)]
pub struct MatchedArgs {
    pub base_url: Option<String>,
    pub bearer_token: Option<String>,
    pub output: Option<String>,
    pub tag: Option<String>,
    pub operation: Option<String>,
    pub values: MultiValueMap,
    pub body: Option<Vec<u8>>,
}

/// The values given for argument `name`.
pub open spec fn values_for(values: Seq<(Seq<char>, Seq<Seq<char>>)>, name: Seq<char>) -> Seq<Seq<char>> {
    match lookup(values, name) {
        Some(v) => v,
        None => seq![],
    }
}

/// Adds the values of one parameter: its first value for a header or path
/// parameter, all of them for a query parameter; nothing when none is given.
pub open spec fn apply_parameter(acc: InputParts, p: ParameterModel, vs: Seq<Seq<char>>) -> InputParts {
    if vs.len() == 0 {
        acc
    } else {
        match p.location {
            ParameterLocationSeed::Header => InputParts { headers: sorted_insert(acc.headers, p.name, vs[0]), ..acc },
            ParameterLocationSeed::Path => InputParts { path_params: sorted_insert(acc.path_params, p.name, vs[0]), ..acc },
            ParameterLocationSeed::Query => InputParts { query_params: sorted_insert(acc.query_params, p.name, vs), ..acc },
        }
    }
}

pub open spec fn apply_parameters(acc: InputParts, ps: Seq<ParameterModel>, values: Seq<(Seq<char>, Seq<Seq<char>>)>) -> InputParts
    decreases ps.len(),
{
    if ps.len() == 0 {
        acc
    } else {
        apply_parameters(apply_parameter(acc, ps[0], values_for(values, ps[0].name)), ps.drop_first(), values)
    }
}

/// The request input of an operation: its parameters' values, and the body
/// when the operation takes one.
pub open spec fn operation_input_spec(d: OperationModel, values: Seq<(Seq<char>, Seq<Seq<char>>)>, body: Option<Seq<u8>>) -> InputParts {
    InputParts {
        body: if d.request_body is Some { body } else { None },
        ..apply_parameters(empty_input(), d.parameters, values)
    }
}

/// Assembles the request input of an operation from the parsed values.
pub fn parse_operation_input(descriptor: &GeneratedOperationDescriptor, values: &MultiValueMap, body: Option<Vec<u8>>) -> (r: OperationInput)
    ensures
        r@ == operation_input_spec(descriptor@, values@, body_view(body)),
{
    let ghost ps = descriptor@.parameters;
    let mut headers = StringMap::new();
    let mut path_params = StringMap::new();
    let mut query_params = MultiValueMap::new();
    let mut i: usize = 0;
    assert(ps.skip(0) =~= ps);
    while i < descriptor.parameters.len()
        invariant
            ps == descriptor@.parameters,
            i <= ps.len(),
            apply_parameters(empty_input(), ps, values@) == apply_parameters(
                InputParts { body: None, headers: headers@, path_params: path_params@, query_params: query_params@ },
                ps.skip(i as int),
                values@,
            ),
        decreases ps.len() - i,
    {
        let p = &descriptor.parameters[i];
        assert(ps.skip(i as int).drop_first() =~= ps.skip(i + 1));
        assert(ps.skip(i as int)[0] == p@);
        match values.get(p.name.as_str()) {
            None => {},
            Some(vs) => {
                if vs.len() > 0 {
                    match p.location {
                        ParameterLocationSeed::Header => {
                            headers.insert(p.name.clone(), vs[0].clone());
                        },
                        ParameterLocationSeed::Path => {
                            path_params.insert(p.name.clone(), vs[0].clone());
                        },
                        ParameterLocationSeed::Query => {
                            query_params.insert(p.name.clone(), crate::maps::clone_strings(vs));
                        },
                    }
                }
            },
        }
        i = i + 1;
    }
    let body = if descriptor.request_body.is_some() {
        body
    } else {
        None
    };
    OperationInput { body, headers, path_params, query_params }
}

/// Index of the first operation, from index `i`, whose subcommand is `name`.
pub open spec fn find_by_command(ops: Seq<OperationModel>, name: Seq<char>, i: int) -> Option<int>
    decreases ops.len() - i,
{
    if i < 0 || i >= ops.len() {
        None
    } else if map_char(ops[i].operation_id, '_', '-') == name {
        Some(i)
    } else {
        find_by_command(ops, name, i + 1)
    }
}

/// The base URL: the one given on the command line, else the saved one.
pub open spec fn resolved_base_url(given: Option<String>, saved: Option<SavedCredentials>) -> Option<String> {
    match given {
        Some(b) => Some(b),
        None => match saved {
            Some(c) => Some(c.base_url),
            None => None,
        },
    }
}

/// The bearer token: the one given on the command line, else the saved one.
pub open spec fn resolved_token(given: Option<String>, saved: Option<SavedCredentials>) -> Option<String> {
    match given {
        Some(t) => Some(t),
        None => match saved {
            Some(c) => c.bearer_token,
            None => None,
        },
    }
}

/// What normalizing parsed arguments yields, by cases; saved credentials
/// supply what the command line leaves out.
pub open spec fn parse_result_is(
    r: Result<CliInvocation, CliError>,
    m: MatchedArgs,
    saved: Option<SavedCredentials>,
    ops: Seq<GeneratedOperationDescriptor>,
) -> bool {
    match resolved_base_url(m.base_url, saved) {
        None => r matches Err(CliError::MissingRequiredArgument(msg)) && msg@ == "missing required argument --base-url"@,
        Some(base) => match m.output {
            None => r matches Err(CliError::MissingRequiredArgument(msg)) && msg@ == "missing required argument --output"@,
            Some(out) => match m.tag {
                None => r matches Err(CliError::MissingSubcommand(msg)) && msg@ == "an API tag is required"@,
                Some(_) => match m.operation {
                    None => r matches Err(CliError::MissingSubcommand(msg)) && msg@ == "an operation is required"@,
                    Some(name) => match find_by_command(operations_view(ops), name@, 0) {
                        None => r matches Err(CliError::UnknownOperation { operation_id }) && operation_id@ == map_char(
                            name@,
                            '-',
                            '_',
                        ),
                        Some(i) => r matches Ok(inv) && inv.config@ == (CliConfigModel {
                            base_url: base@,
                            bearer_token: opt_view(resolved_token(m.bearer_token, saved)),
                            output_format: if out@ == "pretty"@ {
                                OutputFormat::Pretty
                            } else {
                                OutputFormat::Json
                            },
                        }) && inv.operation_id@ == ops[i].operation_id@ && inv.input@ == operation_input_spec(
                            ops[i]@,
                            m.values@,
                            body_view(m.body),
                        ),
                    },
                },
            },
        },
    }
}

fn find_operation(operations: &Vec<GeneratedOperationDescriptor>, name: &str) -> (r: Option<usize>)
    ensures
        match r {
            Some(i) => i < operations@.len() && find_by_command(operations_view(operations@), name@, 0) == Some(i as int),
            None => find_by_command(operations_view(operations@), name@, 0) is None,
        },
{
    let ghost ops = operations_view(operations@);
    let mut i: usize = 0;
    while i < operations.len()
        invariant
            ops == operations_view(operations@),
            i <= ops.len(),
            find_by_command(ops, name@, 0) == find_by_command(ops, name@, i as int),
        decreases ops.len() - i,
    {
        let candidate = command_name(operations[i].operation_id.as_str());
        if str_equal(candidate.as_str(), name) {
            return Some(i);
        }
        i = i + 1;
    }
    None
}

fn resolve_base_url(given: Option<String>, saved: &Option<SavedCredentials>) -> (r: Option<String>)
    ensures
        opt_view(r) == opt_view(resolved_base_url(given, *saved)),
{
    match given {
        Some(b) => Some(b),
        None => match saved {
            Some(c) => Some(c.base_url.clone()),
            None => None,
        },
    }
}

fn resolve_token(given: Option<String>, saved: &Option<SavedCredentials>) -> (r: Option<String>)
    ensures
        opt_view(r) == opt_view(resolved_token(given, *saved)),
{
    match given {
        Some(t) => Some(t),
        None => match saved {
            Some(c) => crate::text::clone_opt_string(&c.bearer_token),
            None => None,
        },
    }
}

/// Normalizes parsed arguments into an invocation of the operation whose
/// subcommand was chosen; saved credentials supply the base URL and the
/// bearer token when the command line does not give them.
pub fn parse_matches(
    matches: MatchedArgs,
    saved: &Option<SavedCredentials>,
    operations: &Vec<GeneratedOperationDescriptor>,
) -> (r: Result<CliInvocation, CliError>)
    ensures
        parse_result_is(r, matches, *saved, operations@),
{
    let ghost m = matches;
    let MatchedArgs { base_url, bearer_token, output, tag, operation, values, body } = matches;
    let base_url = match resolve_base_url(base_url, saved) {
        Some(b) => b,
        None => return Err(CliError::MissingRequiredArgument("missing required argument --base-url".to_owned())),
    };
    let bearer_token = resolve_token(bearer_token, saved);
    let output = match output {
        Some(o) => o,
        None => return Err(CliError::MissingRequiredArgument("missing required argument --output".to_owned())),
    };
    let config = CliConfig { base_url, bearer_token, output_format: OutputFormat::from_str(output.as_str()) };
    if tag.is_none() {
        return Err(CliError::MissingSubcommand("an API tag is required".to_owned()));
    }
    let name = match operation {
        Some(n) => n,
        None => return Err(CliError::MissingSubcommand("an operation is required".to_owned())),
    };
    let i = match find_operation(operations, name.as_str()) {
        Some(i) => i,
        None => return Err(CliError::UnknownOperation { operation_id: swap_char(name.as_str(), '-', '_') }),
    };
    let input = parse_operation_input(&operations[i], &values, body);
    Ok(CliInvocation { config, operation_id: operations[i].operation_id.clone(), input })
}

/// What a command line asks for: an operation, or a login.
#[derive(Clone, Debug, PartialEq, Eq)]
pub enum ParsedCommand {
    Invoke(CliInvocation),
    Login(LoginInvocation),
}

/// The first value given for argument `name`.
pub open spec fn first_value(values: Seq<(Seq<char>, Seq<Seq<char>>)>, name: Seq<char>) -> Option<Seq<char>> {
    let vs = values_for(values, name);
    if vs.len() > 0 {
        Some(vs[0])
    } else {
        None
    }
}

/// What reading the `login` subcommand yields: the base URL as for any
/// command, the user name and password that must be given, and the realm,
/// `master` when none is given.
pub open spec fn login_result_is(r: Result<LoginInvocation, CliError>, m: MatchedArgs, saved: Option<SavedCredentials>) -> bool {
    match resolved_base_url(m.base_url, saved) {
        None => r matches Err(CliError::MissingRequiredArgument(msg)) && msg@ == "missing required argument --base-url"@,
        Some(base) => match first_value(m.values@, "username"@) {
            None => r matches Err(CliError::MissingRequiredArgument(msg)) && msg@ == "missing required argument --username"@,
            Some(user) => match first_value(m.values@, "password"@) {
                None => r matches Err(CliError::MissingRequiredArgument(msg)) && msg@
                    == "missing required argument --password"@,
                Some(password) => r matches Ok(l) && l.base_url@ == base@ && l.username@ == user && l.password@
                    == password && l.realm_name@ == match first_value(m.values@, "realm-name"@) {
                    Some(realm) => realm,
                    None => "master"@,
                },
            },
        },
    }
}

fn first_value_of(values: &MultiValueMap, name: &str) -> (r: Option<String>)
    ensures
        opt_view(r) == first_value(values@, name@),
{
    match values.get(name) {
        Some(vs) => {
            if vs.len() > 0 {
                Some(vs[0].clone())
            } else {
                None
            }
        },
        None => None,
    }
}

/// Reads the arguments of the `login` subcommand.
pub fn parse_login(matches: &MatchedArgs, saved: &Option<SavedCredentials>) -> (r: Result<LoginInvocation, CliError>)
    ensures
        login_result_is(r, *matches, *saved),
{
    let base_url = match resolve_base_url(crate::text::clone_opt_string(&matches.base_url), saved) {
        Some(b) => b,
        None => return Err(CliError::MissingRequiredArgument("missing required argument --base-url".to_owned())),
    };
    let username = match first_value_of(&matches.values, "username") {
        Some(u) => u,
        None => return Err(CliError::MissingRequiredArgument("missing required argument --username".to_owned())),
    };
    let password = match first_value_of(&matches.values, "password") {
        Some(p) => p,
        None => return Err(CliError::MissingRequiredArgument("missing required argument --password".to_owned())),
    };
    let realm_name = match first_value_of(&matches.values, "realm-name") {
        Some(r) => r,
        None => "master".to_owned(),
    };
    Ok(LoginInvocation { base_url, username, password, realm_name })
}

/// Whether the chosen subcommand is `login`.
pub open spec fn is_login(m: MatchedArgs) -> bool {
    m.tag matches Some(t) && t@ == "login"@
}

/// What a command line yields: a login when the `login` subcommand was
/// chosen, else the invocation of an operation.
pub open spec fn command_result_is(
    r: Result<ParsedCommand, CliError>,
    m: MatchedArgs,
    saved: Option<SavedCredentials>,
    ops: Seq<GeneratedOperationDescriptor>,
) -> bool {
    if is_login(m) {
        match r {
            Ok(ParsedCommand::Login(l)) => login_result_is(Ok(l), m, saved),
            Ok(ParsedCommand::Invoke(_)) => false,
            Err(e) => login_result_is(Err(e), m, saved),
        }
    } else {
        match r {
            Ok(ParsedCommand::Invoke(i)) => parse_result_is(Ok(i), m, saved, ops),
            Ok(ParsedCommand::Login(_)) => false,
            Err(e) => parse_result_is(Err(e), m, saved, ops),
        }
    }
}

/// Reads a whole command line: the `login` subcommand, or an operation.
pub fn parse_command(
    matches: MatchedArgs,
    saved: &Option<SavedCredentials>,
    operations: &Vec<GeneratedOperationDescriptor>,
) -> (r: Result<ParsedCommand, CliError>)
    ensures
        command_result_is(r, matches, *saved, operations@),
{
    let login = match &matches.tag {
        Some(t) => str_equal(t.as_str(), "login"),
        None => false,
    };
    if login {
        let l = parse_login(&matches, saved);
        match l {
            Ok(li) => Ok(ParsedCommand::Login(li)),
            Err(e) => Err(e),
        }
    } else {
        let i = parse_matches(matches, saved, operations);
        match i {
            Ok(inv) => Ok(ParsedCommand::Invoke(inv)),
            Err(e) => Err(e),
        }
    }
}

/// Where a `--body` value comes from: `@path` names a file, anything else is
/// the body itself.
#[derive(Debug, PartialEq, Eq)]
pub enum BodySource {
    File(String),
    Inline(Vec<u8>),
}

/// Reads a `--body` value.
pub fn body_source(value: &str) -> (r: BodySource)
    ensures
        value@.len() > 0 && value@[0] == '@' ==> (r matches BodySource::File(p) && p@ == value@.drop_first()),
        !(value@.len() > 0 && value@[0] == '@') ==> (r matches BodySource::Inline(b) && b@ == value.spec_bytes()),
{
    let cs = chars_of(value);
    if cs.len() > 0 && cs[0] == '@' {
        let rest = crate::text::chars_from(cs.as_slice(), 1);
        assert(cs@.skip(1) =~= value@.drop_first());
        return BodySource::File(string_of(rest.as_slice()));
    }
    let bytes = value.as_bytes();
    let mut out: Vec<u8> = Vec::new();
    let mut i: usize = 0;
    while i < bytes.len()
        invariant
            i <= bytes@.len(),
            out@ == bytes@.subrange(0, i as int),
        decreases bytes@.len() - i,
    {
        out.push(bytes[i]);
        i = i + 1;
        assert(out@ =~= bytes@.subrange(0, i as int));
    }
    assert(out@ =~= bytes@);
    BodySource::Inline(out)
}

/// The characters `String::from_utf8_lossy` reads from `bytes`.
pub uninterp spec fn utf8_lossy(bytes: Seq<u8>) -> Seq<char>;

/// Calls `String::from_utf8_lossy`; the contract claims the characters it
/// returns are a function of the bytes alone and, as std documents, that
/// valid UTF-8 comes back as the text it encodes.
#[verifier::external_body]
fn lossy_text(bytes: &[u8]) -> (r: String)
    ensures
        r@ == utf8_lossy(bytes@),
        vstd::utf8::valid_utf8(bytes@) ==> r@ == vstd::utf8::decode_utf8(bytes@),
{
    String::from_utf8_lossy(bytes).into_owned()
}

/// What a rendered response shows as its payload.
#[derive(Debug, PartialEq, Eq)]
pub enum ResponsePayload {
    /// The decoded JSON body.
    Json,
    /// No body.
    Null,
    /// The raw body read as text.
    Text(String),
}

/// The payload of a rendered response: the decoded JSON body, else nothing
/// for an empty body, else the body as text.
pub fn response_payload(response: &DecodedResponse) -> (r: ResponsePayload)
    ensures
        response.json_body is Some ==> r == ResponsePayload::Json,
        response.json_body is None && response.raw_body@.len() == 0 ==> r == ResponsePayload::Null,
        response.json_body is None && response.raw_body@.len() > 0 ==> (r matches ResponsePayload::Text(t) && t@
            == utf8_lossy(response.raw_body@)),
        response.json_body is None && response.raw_body@.len() > 0 && vstd::utf8::valid_utf8(response.raw_body@) ==> (
        r matches ResponsePayload::Text(t) && t@ == vstd::utf8::decode_utf8(response.raw_body@)),
{
    if response.json_body().is_some() {
        ResponsePayload::Json
    } else if response.raw_body.len() == 0 {
        ResponsePayload::Null
    } else {
        ResponsePayload::Text(lossy_text(response.raw_body.as_slice()))
    }
}

proof fn lemma_find_by_command_found(ops: Seq<OperationModel>, name: Seq<char>, i: int, k: int)
    requires
        0 <= i <= k < ops.len(),
        map_char(ops[k].operation_id, '_', '-') == name,
    ensures
        find_by_command(ops, name, i) matches Some(j) && i <= j <= k && map_char(ops[j].operation_id, '_', '-') == name,
    decreases k - i,
{
    if map_char(ops[i].operation_id, '_', '-') != name {
        lemma_find_by_command_found(ops, name, i + 1, k);
    }
}

/// Every operation is reachable through its subcommand name: the lookup
/// finds an operation with that subcommand name, and when subcommand names
/// are distinct it finds that very operation.
pub proof fn law_every_operation_has_a_command(ops: Seq<OperationModel>, k: int)
    requires
        0 <= k < ops.len(),
    ensures
        find_by_command(ops, map_char(ops[k].operation_id, '_', '-'), 0) matches Some(j) && j <= k && map_char(
            ops[j].operation_id,
            '_',
            '-',
        ) == map_char(ops[k].operation_id, '_', '-'),
        (forall|a: int, b: int|
            0 <= a < b < ops.len() ==> map_char((#[trigger] ops[a]).operation_id, '_', '-') != map_char(
                (#[trigger] ops[b]).operation_id,
                '_',
                '-',
            )) ==> find_by_command(ops, map_char(ops[k].operation_id, '_', '-'), 0) == Some(k),
{
    lemma_find_by_command_found(ops, map_char(ops[k].operation_id, '_', '-'), 0, k);
}

/// The payload of a rendered response: the decoded JSON body, else `null`
/// for an empty body, else the body read as text.
pub open spec fn payload_json(response: DecodedResponse) -> Json {
    match response.json_body {
        Some(v) => json_view(v),
        None => if response.raw_body@.len() == 0 {
            Json::Null
        } else {
            Json::Str(utf8_lossy(response.raw_body@))
        },
    }
}

/// The structured output of an invocation: operation identifier, response
/// payload, schema name and status.
pub open spec fn output_document(operation_id: Seq<char>, response: DecodedResponse) -> Json {
    Json::Object(
        seq![
            ("operation_id"@, Json::Str(operation_id)),
            ("response"@, payload_json(response)),
            ("schema_name"@, match response.schema_name {
                Some(s) => Json::Str(s@),
                None => Json::Null,
            }),
            ("status"@, Json::Number(decimal(response.status as nat))),
        ],
    )
}

/// The structured output of an invocation as JSON text, compact or indented.
pub fn render_output(operation_id: &str, response: &DecodedResponse, output_format: OutputFormat) -> (r: Result<String, CliError>)
    ensures
        ({
            let text = match output_format {
                OutputFormat::Json => compact_json_text(output_document(operation_id@, *response)),
                OutputFormat::Pretty => pretty_json_text(output_document(operation_id@, *response)),
            };
            match text {
                Some(t) => r matches Ok(s) && s@ == t,
                None => r matches Err(CliError::Output(_)),
            }
        }),
{
    let payload = match &response.json_body {
        Some(v) => clone_json(v),
        None => if response.raw_body.len() == 0 {
            JsonValue::Null
        } else {
            JsonValue::String(lossy_text(response.raw_body.as_slice()))
        },
    };
    let schema = match &response.schema_name {
        Some(s) => JsonValue::String(s.clone()),
        None => JsonValue::Null,
    };
    let mut digits: Vec<char> = Vec::new();
    push_decimal(&mut digits, response.status as usize);
    assert(digits@ =~= decimal(response.status as nat));
    let members = vec![
        JsonMember { key: "operation_id".to_owned(), value: JsonValue::String(operation_id.to_owned()) },
        JsonMember { key: "response".to_owned(), value: payload },
        JsonMember { key: "schema_name".to_owned(), value: schema },
        JsonMember { key: "status".to_owned(), value: JsonValue::Number(string_of(digits.as_slice())) },
    ];
    proof {
        lemma_object_view(members);
        assert(members_view(members@) =~= match output_document(operation_id@, *response) {
            Json::Object(ms) => ms,
            _ => seq![],
        });
    }
    let doc = JsonValue::Object(members);
    let written = match output_format {
        OutputFormat::Json => write_compact_json(&doc),
        OutputFormat::Pretty => write_pretty_json(&doc),
    };
    match written {
        Ok(s) => Ok(s),
        Err(e) => Err(CliError::Output(e)),
    }
}

} // verus!
