//! Rendering the contract registry as a Rust metadata module, and the
//! identifier rules that rendering uses.
use vstd::prelude::*;

use crate::contract::{
    operations_view, parameters_view, request_body_view, responses_view, ContractRegistry,
    OperationDescriptorSeed, OperationModel, ParameterDescriptorSeed, ParameterLocationSeed,
    ParameterModel, RegistryModel, RequestBodyDescriptorSeed, RequestBodyModel, ResponseDescriptorSeed,
    ResponseModel,
};
use crate::maps::strings_view;
use crate::text::{
    ascii_lower, ascii_upper, chars_of, is_ascii_alnum, is_ascii_alphanumeric, is_ascii_digit,
    is_ascii_upper, join, lower_all, opt_view, push_all, push_str, str_equal, string_of, to_lower,
    to_upper, trim_end_char,
};

verus! {

// ---------------------------------------------------------------------------
// Identifiers.
// ---------------------------------------------------------------------------

/// The maximal runs of ASCII letters and digits of `s`, after the runs
/// already in `acc` and the run `cur` in progress.
pub open spec fn split_runs(s: Seq<char>, cur: Seq<char>, acc: Seq<Seq<char>>) -> Seq<Seq<char>>
    decreases s.len(),
{
    if s.len() == 0 {
        if cur.len() > 0 {
            acc.push(cur)
        } else {
            acc
        }
    } else if is_ascii_alnum(s[0]) {
        split_runs(s.drop_first(), cur.push(s[0]), acc)
    } else {
        split_runs(s.drop_first(), seq![], if cur.len() > 0 { acc.push(cur) } else { acc })
    }
}

/// The words of an identifier: its maximal runs of ASCII letters and digits.
pub open spec fn segments(s: Seq<char>) -> Seq<Seq<char>> {
    split_runs(s, seq![], seq![])
}

/// A word with its first character upper-cased and the rest lower-cased.
pub open spec fn capitalized(w: Seq<char>) -> Seq<char> {
    if w.len() == 0 {
        w
    } else {
        seq![to_upper(w[0])] + lower_all(w.drop_first())
    }
}

/// The words capitalized and concatenated.
pub open spec fn join_capitalized(ws: Seq<Seq<char>>) -> Seq<char>
    decreases ws.len(),
{
    if ws.len() == 0 {
        seq![]
    } else {
        join_capitalized(ws.drop_last()) + capitalized(ws.last())
    }
}

/// An identifier that starts with a digit gets a leading `_`.
pub open spec fn guard_digit(id: Seq<char>) -> Seq<char> {
    if id.len() > 0 && is_ascii_digit(id[0]) {
        seq!['_'] + id
    } else {
        id
    }
}

/// The identifier made of the words of `raw`: `PascalCase` or `camelCase`.
pub open spec fn sanitize_spec(raw: Seq<char>, pascal_case: bool) -> Seq<char> {
    let ws = segments(raw);
    if ws.len() == 0 {
        if pascal_case {
            "GeneratedValue"@
        } else {
            "generated_value"@
        }
    } else if pascal_case {
        guard_digit(join_capitalized(ws))
    } else {
        guard_digit(lower_all(ws[0]) + join_capitalized(ws.drop_first()))
    }
}

fn lower_chars(s: &[char]) -> (r: Vec<char>)
    ensures
        r@ == lower_all(s@),
{
    let mut out: Vec<char> = Vec::new();
    let mut i: usize = 0;
    while i < s.len()
        invariant
            i <= s@.len(),
            out@.len() == i,
            forall|j: int| 0 <= j < i ==> out@[j] == to_lower(s@[j]),
        decreases s@.len() - i,
    {
        out.push(ascii_lower(s[i]));
        i = i + 1;
    }
    assert(out@ =~= lower_all(s@));
    out
}

fn push_capitalized(out: &mut Vec<char>, w: &[char])
    ensures
        final(out)@ == old(out)@ + capitalized(w@),
{
    if w.len() == 0 {
        assert(old(out)@ + capitalized(w@) =~= old(out)@);
        return;
    }
    out.push(ascii_upper(w[0]));
    let rest = crate::text::chars_from(w, 1);
    assert(rest@ =~= w@.drop_first());
    let lowered = lower_chars(rest.as_slice());
    push_all(out, lowered.as_slice());
    assert(out@ =~= old(out)@ + capitalized(w@));
}

fn guard_leading_digit(id: Vec<char>) -> (r: Vec<char>)
    ensures
        r@ == guard_digit(id@),
{
    if id.len() > 0 && is_ascii_digit_char(id[0]) {
        let mut out: Vec<char> = Vec::new();
        out.push('_');
        push_all(&mut out, id.as_slice());
        assert(out@ =~= seq!['_'] + id@);
        out
    } else {
        id
    }
}

fn is_ascii_digit_char(c: char) -> (r: bool)
    ensures
        r == is_ascii_digit(c),
{
    crate::text::is_ascii_digit_char(c)
}

/// The words of `raw`.
fn split_segments(raw: &str) -> (r: Vec<Vec<char>>)
    ensures
        r@.len() == segments(raw@).len(),
        forall|i: int| 0 <= i < r@.len() ==> (#[trigger] r@[i])@ == segments(raw@)[i],
{
    let cs = chars_of(raw);
    let mut acc: Vec<Vec<char>> = Vec::new();
    let mut cur: Vec<char> = Vec::new();
    let mut i: usize = 0;
    let ghost words = Seq::new(acc@.len(), |j: int| acc@[j]@);
    assert(cs@.skip(0) =~= cs@);
    assert(words =~= seq![]);
    while i < cs.len()
        invariant
            cs@ == raw@,
            i <= cs@.len(),
            split_runs(raw@, seq![], seq![]) == split_runs(
                cs@.skip(i as int),
                cur@,
                Seq::new(acc@.len(), |j: int| acc@[j]@),
            ),
        decreases cs@.len() - i,
    {
        assert(cs@.skip(i as int).drop_first() =~= cs@.skip(i + 1));
        assert(cs@.skip(i as int)[0] == cs@[i as int]);
        let ghost before = Seq::new(acc@.len(), |j: int| acc@[j]@);
        if is_ascii_alphanumeric(cs[i]) {
            cur.push(cs[i]);
        } else {
            if cur.len() > 0 {
                let word = cur;
                cur = Vec::new();
                let ghost wv = word@;
                acc.push(word);
                assert(Seq::new(acc@.len(), |j: int| acc@[j]@) =~= before.push(wv));
            } else {
                cur = Vec::new();
            }
            assert(cur@ =~= seq![]);
        }
        i = i + 1;
    }
    assert(cs@.skip(i as int) =~= seq![]);
    if cur.len() > 0 {
        let ghost before = Seq::new(acc@.len(), |j: int| acc@[j]@);
        let ghost wv = cur@;
        acc.push(cur);
        assert(Seq::new(acc@.len(), |j: int| acc@[j]@) =~= before.push(wv));
    }
    acc
}

/// A Rust identifier from a schema or tag name: the words of `raw`
/// (maximal runs of ASCII letters and digits) joined in `PascalCase` or
/// `camelCase`, with a leading `_` before a digit, or a placeholder name when
/// `raw` has no word.
pub fn sanitize_identifier(raw: &str, pascal_case: bool) -> (r: String)
    ensures
        r@ == sanitize_spec(raw@, pascal_case),
{
    let words = split_segments(raw);
    let ghost ws = segments(raw@);
    if words.len() == 0 {
        return if pascal_case {
            "GeneratedValue".to_owned()
        } else {
            "generated_value".to_owned()
        };
    }
    let mut id: Vec<char> = Vec::new();
    let mut i: usize = 0;
    if !pascal_case {
        id = lower_chars(words[0].as_slice());
        i = 1;
    }
    let ghost start: int = i as int;
    assert(ws.skip(start).take(0) =~= seq![]);
    let ghost prefix = id@;
    while i < words.len()
        invariant
            words@.len() == ws.len(),
            forall|j: int| 0 <= j < words@.len() ==> (#[trigger] words@[j])@ == ws[j],
            0 <= start <= i <= ws.len(),
            id@ == prefix + join_capitalized(ws.skip(start).take(i - start)),
        decreases ws.len() - i,
    {
        assert(ws.skip(start).take(i + 1 - start).drop_last() =~= ws.skip(start).take(i - start));
        assert(ws.skip(start).take(i + 1 - start).last() == ws[i as int]);
        push_capitalized(&mut id, words[i].as_slice());
        i = i + 1;
    }
    assert(ws.skip(start).take(ws.len() - start) =~= ws.skip(start));
    if pascal_case {
        assert(ws.skip(0) =~= ws);
        assert(prefix =~= seq![]);
    } else {
        assert(ws.skip(1) =~= ws.drop_first());
    }
    let id = guard_leading_digit(id);
    string_of(id.as_slice())
}

/// One step of the module-name rule over character `c`: letters and digits
/// are lower-cased, an upper-case letter after another word character
/// starts a new `_`-separated word, and a run of other characters becomes
/// one `_`.
pub open spec fn module_step(id: Seq<char>, prev_sep: bool, c: char) -> (Seq<char>, bool) {
    if !is_ascii_alnum(c) {
        (if id.len() > 0 && id.last() != '_' { id.push('_') } else { id }, true)
    } else {
        let id1 = if is_ascii_upper(c) && !prev_sep && !(id.len() > 0 && id.last() == '_') {
            id.push('_')
        } else {
            id
        };
        (id1.push(to_lower(c)), false)
    }
}

/// The module-name rule over all of `s`, from a state.
pub open spec fn module_run(id: Seq<char>, prev_sep: bool, s: Seq<char>) -> Seq<char>
    decreases s.len(),
{
    if s.len() == 0 {
        id
    } else {
        let next = module_step(id, prev_sep, s[0]);
        module_run(next.0, next.1, s.drop_first())
    }
}

/// A `snake_case` module name from a tag.
pub open spec fn module_identifier_spec(raw: Seq<char>) -> Seq<char> {
    let id = trim_end_char(module_run(seq![], true, raw), '_');
    if id.len() == 0 {
        "generated_value"@
    } else {
        guard_digit(id)
    }
}

/// A `snake_case` Rust module name from a tag name.
pub fn sanitize_module_identifier(raw: &str) -> (r: String)
    ensures
        r@ == module_identifier_spec(raw@),
{
    let cs = chars_of(raw);
    let mut id: Vec<char> = Vec::new();
    let mut prev_sep = true;
    let mut i: usize = 0;
    assert(cs@.skip(0) =~= cs@);
    while i < cs.len()
        invariant
            cs@ == raw@,
            i <= cs@.len(),
            module_run(seq![], true, raw@) == module_run(id@, prev_sep, cs@.skip(i as int)),
        decreases cs@.len() - i,
    {
        assert(cs@.skip(i as int).drop_first() =~= cs@.skip(i + 1));
        assert(cs@.skip(i as int)[0] == cs@[i as int]);
        let c = cs[i];
        let ends_with_sep = id.len() > 0 && id[id.len() - 1] == '_';
        if !is_ascii_alphanumeric(c) {
            if id.len() > 0 && !ends_with_sep {
                id.push('_');
            }
            prev_sep = true;
        } else {
            if ('A' <= c && c <= 'Z') && !prev_sep && !ends_with_sep {
                id.push('_');
            }
            id.push(ascii_lower(c));
            prev_sep = false;
        }
        i = i + 1;
    }
    assert(cs@.skip(i as int) =~= seq![]);
    let trimmed = crate::text::trim_end(id.as_slice(), '_');
    if trimmed.len() == 0 {
        return "generated_value".to_owned();
    }
    let guarded = guard_leading_digit(trimmed);
    string_of(guarded.as_slice())
}

// ---------------------------------------------------------------------------
// The metadata module.
// ---------------------------------------------------------------------------

/// The text `format!("{:?}", s)` gives for a string: its Rust debug form.
pub uninterp spec fn debug_quoted(s: Seq<char>) -> Seq<char>;

/// Formats `s` with `{:?}`; the contract claims the text is a function of
/// the characters of `s` alone.
#[verifier::external_body]
fn debug_text(s: &str) -> (r: String)
    ensures
        r@ == debug_quoted(s@),
{
    format!("{:?}", s)
}

/// The decimal digit of a value below ten.
pub open spec fn digit_char(d: nat) -> char {
    if d == 0 { '0' } else if d == 1 { '1' } else if d == 2 { '2' } else if d == 3 { '3' } else if d == 4 { '4' }
    else if d == 5 { '5' } else if d == 6 { '6' } else if d == 7 { '7' } else if d == 8 { '8' } else { '9' }
}

/// The decimal text of a number, without leading zeros.
pub open spec fn decimal(n: nat) -> Seq<char>
    decreases n,
{
    if n < 10 {
        seq![digit_char(n)]
    } else {
        decimal(n / 10).push(digit_char(n % 10))
    }
}

fn digit_of_value(d: usize) -> (c: char)
    requires
        d < 10,
    ensures
        c == digit_char(d as nat),
{
    if d == 0 { '0' } else if d == 1 { '1' } else if d == 2 { '2' } else if d == 3 { '3' } else if d == 4 { '4' }
    else if d == 5 { '5' } else if d == 6 { '6' } else if d == 7 { '7' } else if d == 8 { '8' } else { '9' }
}

pub(crate) fn push_decimal(out: &mut Vec<char>, n: usize)
    ensures
        final(out)@ == old(out)@ + decimal(n as nat),
    decreases n,
{
    if n >= 10 {
        push_decimal(out, n / 10);
    }
    out.push(digit_of_value(n % 10));
    assert(out@ =~= old(out)@ + decimal(n as nat));
}

/// The text of a boolean.
pub open spec fn bool_text(b: bool) -> Seq<char> {
    if b {
        "true"@
    } else {
        "false"@
    }
}

fn push_bool(out: &mut Vec<char>, b: bool)
    ensures
        final(out)@ == old(out)@ + bool_text(b),
{
    if b {
        push_str(out, "true");
    } else {
        push_str(out, "false");
    }
}

fn push_debug(out: &mut Vec<char>, s: &str)
    ensures
        final(out)@ == old(out)@ + debug_quoted(s@),
{
    let t = debug_text(s);
    push_str(out, t.as_str());
}

/// An optional string as Rust source.
pub open spec fn option_text(o: Option<Seq<char>>) -> Seq<char> {
    match o {
        Some(v) => "Some("@ + debug_quoted(v) + ")"@,
        None => "None"@,
    }
}

fn push_option(out: &mut Vec<char>, o: &Option<String>)
    ensures
        final(out)@ == old(out)@ + option_text(opt_view(*o)),
{
    match o {
        Some(v) => {
            push_str(out, "Some(");
            push_debug(out, v.as_str());
            push_str(out, ")");
        },
        None => push_str(out, "None"),
    }
}

/// The variant name of a parameter location.
pub open spec fn location_text(l: ParameterLocationSeed) -> Seq<char> {
    match l {
        ParameterLocationSeed::Header => "Header"@,
        ParameterLocationSeed::Path => "Path"@,
        ParameterLocationSeed::Query => "Query"@,
    }
}

/// The variant name of a parameter location.
pub fn render_parameter_location(l: ParameterLocationSeed) -> (r: &'static str)
    ensures
        r@ == location_text(l),
{
    match l {
        ParameterLocationSeed::Header => "Header",
        ParameterLocationSeed::Path => "Path",
        ParameterLocationSeed::Query => "Query",
    }
}

/// Joins strings with a separator.
pub fn join_strings(parts: &Vec<String>, sep: &str) -> (r: String)
    ensures
        r@ == join(strings_view(*parts), sep@),
{
    let ghost ps = strings_view(*parts);
    let mut out: Vec<char> = Vec::new();
    if parts.len() == 0 {
        return string_of(out.as_slice());
    }
    push_str(&mut out, parts[0].as_str());
    assert(ps.take(1).drop_last().len() == 0);
    assert(out@ == join(ps.take(1), sep@));
    let mut i: usize = 1;
    while i < parts.len()
        invariant
            ps == strings_view(*parts),
            1 <= i <= ps.len(),
            out@ == join(ps.take(i as int), sep@),
        decreases ps.len() - i,
    {
        assert(ps.take(i + 1).drop_last() =~= ps.take(i as int));
        assert(ps.take(i + 1).last() == ps[i as int]);
        push_str(&mut out, sep);
        push_str(&mut out, parts[i].as_str());
        i = i + 1;
    }
    assert(ps.take(i as int) =~= ps);
    string_of(out.as_slice())
}

/// One parameter descriptor as Rust source.
pub open spec fn parameter_text(p: ParameterModel) -> Seq<char> {
    "GeneratedParameterDescriptor { location: ParameterLocation::"@ + location_text(p.location) + ", name: "@
        + debug_quoted(p.name) + ", required: "@ + bool_text(p.required) + ", description: "@ + option_text(
        p.description,
    ) + " }"@
}

pub open spec fn parameter_texts(ps: Seq<ParameterModel>) -> Seq<Seq<char>> {
    Seq::new(ps.len(), |i: int| parameter_text(ps[i]))
}

/// The parameter descriptors as Rust source, separated by `, `.
pub fn render_parameter_descriptors(parameters: &Vec<ParameterDescriptorSeed>) -> (r: String)
    ensures
        r@ == join(parameter_texts(parameters_view(parameters@)), ", "@),
{
    let ghost ps = parameters_view(parameters@);
    let mut items: Vec<String> = Vec::new();
    let mut i: usize = 0;
    while i < parameters.len()
        invariant
            ps == parameters_view(parameters@),
            i <= ps.len(),
            items@.len() == i,
            forall|j: int| 0 <= j < i ==> (#[trigger] items@[j])@ == parameter_text(ps[j]),
        decreases ps.len() - i,
    {
        let p = &parameters[i];
        let mut out: Vec<char> = Vec::new();
        push_str(&mut out, "GeneratedParameterDescriptor { location: ParameterLocation::");
        push_str(&mut out, render_parameter_location(p.location));
        push_str(&mut out, ", name: ");
        push_debug(&mut out, p.name.as_str());
        push_str(&mut out, ", required: ");
        push_bool(&mut out, p.required);
        push_str(&mut out, ", description: ");
        push_option(&mut out, &p.description);
        push_str(&mut out, " }");
        items.push(string_of(out.as_slice()));
        i = i + 1;
    }
    assert(strings_view(items) =~= parameter_texts(ps));
    join_strings(&items, ", ")
}

/// A request-body descriptor as Rust source.
pub open spec fn request_body_text(b: Option<RequestBodyModel>) -> Seq<char> {
    match b {
        Some(b) => "Some(GeneratedRequestBodyDescriptor { content_type: "@ + option_text(b.content_type)
            + ", nullable: "@ + bool_text(b.nullable) + ", required: "@ + bool_text(b.required)
            + ", schema_name: "@ + option_text(b.schema_name) + " })"@,
        None => "None"@,
    }
}

/// A request-body descriptor as Rust source.
pub fn render_request_body_descriptor(request_body: &Option<RequestBodyDescriptorSeed>) -> (r: String)
    ensures
        r@ == request_body_text(request_body_view(*request_body)),
{
    let mut out: Vec<char> = Vec::new();
    match request_body {
        Some(b) => {
            push_str(&mut out, "Some(GeneratedRequestBodyDescriptor { content_type: ");
            push_option(&mut out, &b.content_type);
            push_str(&mut out, ", nullable: ");
            push_bool(&mut out, b.nullable);
            push_str(&mut out, ", required: ");
            push_bool(&mut out, b.required);
            push_str(&mut out, ", schema_name: ");
            push_option(&mut out, &b.schema_name);
            push_str(&mut out, " })");
        },
        None => push_str(&mut out, "None"),
    }
    string_of(out.as_slice())
}

/// One response descriptor as Rust source.
pub open spec fn response_text(r: ResponseModel) -> Seq<char> {
    "GeneratedResponseDescriptor { content_type: "@ + option_text(r.content_type) + ", is_error: "@ + bool_text(
        r.is_error,
    ) + ", schema_name: "@ + option_text(r.schema_name) + ", status: "@ + decimal(r.status as nat) + " }"@
}

pub open spec fn response_texts(rs: Seq<ResponseModel>) -> Seq<Seq<char>> {
    Seq::new(rs.len(), |i: int| response_text(rs[i]))
}

/// The response descriptors as Rust source, separated by `, `.
pub fn render_response_descriptors(responses: &Vec<ResponseDescriptorSeed>) -> (r: String)
    ensures
        r@ == join(response_texts(responses_view(responses@)), ", "@),
{
    let ghost rs = responses_view(responses@);
    let mut items: Vec<String> = Vec::new();
    let mut i: usize = 0;
    while i < responses.len()
        invariant
            rs == responses_view(responses@),
            i <= rs.len(),
            items@.len() == i,
            forall|j: int| 0 <= j < i ==> (#[trigger] items@[j])@ == response_text(rs[j]),
        decreases rs.len() - i,
    {
        let d = &responses[i];
        let mut out: Vec<char> = Vec::new();
        push_str(&mut out, "GeneratedResponseDescriptor { content_type: ");
        push_option(&mut out, &d.content_type);
        push_str(&mut out, ", is_error: ");
        push_bool(&mut out, d.is_error);
        push_str(&mut out, ", schema_name: ");
        push_option(&mut out, &d.schema_name);
        push_str(&mut out, ", status: ");
        push_decimal(&mut out, d.status as usize);
        push_str(&mut out, " }");
        items.push(string_of(out.as_slice()));
        i = i + 1;
    }
    assert(strings_view(items) =~= response_texts(rs));
    join_strings(&items, ", ")
}

/// One operation descriptor as Rust source.
pub open spec fn operation_text(o: OperationModel) -> Seq<char> {
    "    GeneratedOperationDescriptor { operation_id: "@ + debug_quoted(o.operation_id) + ", method: "@
        + debug_quoted(o.method) + ", path: "@ + debug_quoted(o.path) + ", tag: "@ + debug_quoted(o.tag)
        + ", has_request_body: "@ + bool_text(o.has_request_body) + ", summary: "@ + option_text(o.summary)
        + ", description: "@ + option_text(o.description) + ", primary_response_schema: "@ + option_text(
        o.primary_response_schema,
    ) + ", primary_success_status: "@ + decimal(o.primary_success_status as nat) + ", parameters: &["@ + join(
        parameter_texts(o.parameters),
        ", "@,
    ) + "], request_body: "@ + request_body_text(o.request_body) + ", requires_auth: "@ + bool_text(
        o.requires_auth,
    ) + ", responses: &["@ + join(response_texts(o.responses), ", "@) + "] }"@
}

/// One operation descriptor as Rust source.
pub fn render_operation_descriptor(operation: &OperationDescriptorSeed) -> (r: String)
    ensures
        r@ == operation_text(operation@),
{
    let mut out: Vec<char> = Vec::new();
    push_str(&mut out, "    GeneratedOperationDescriptor { operation_id: ");
    push_debug(&mut out, operation.operation_id.as_str());
    push_str(&mut out, ", method: ");
    push_debug(&mut out, operation.method.as_str());
    push_str(&mut out, ", path: ");
    push_debug(&mut out, operation.path.as_str());
    push_str(&mut out, ", tag: ");
    push_debug(&mut out, operation.tag.as_str());
    push_str(&mut out, ", has_request_body: ");
    push_bool(&mut out, operation.has_request_body);
    push_str(&mut out, ", summary: ");
    push_option(&mut out, &operation.summary);
    push_str(&mut out, ", description: ");
    push_option(&mut out, &operation.description);
    push_str(&mut out, ", primary_response_schema: ");
    push_option(&mut out, &operation.primary_response_schema);
    push_str(&mut out, ", primary_success_status: ");
    push_decimal(&mut out, operation.primary_success_status as usize);
    push_str(&mut out, ", parameters: &[");
    let ps = render_parameter_descriptors(&operation.parameters);
    push_str(&mut out, ps.as_str());
    push_str(&mut out, "], request_body: ");
    let rb = render_request_body_descriptor(&operation.request_body);
    push_str(&mut out, rb.as_str());
    push_str(&mut out, ", requires_auth: ");
    push_bool(&mut out, operation.requires_auth);
    push_str(&mut out, ", responses: &[");
    let rs = render_response_descriptors(&operation.responses);
    push_str(&mut out, rs.as_str());
    push_str(&mut out, "] }");
    string_of(out.as_slice())
}

pub const MODULE_PREAMBLE: &'static str = "/// Generated parameter location metadata.\n#[derive(Clone, Copy, Debug, Eq, PartialEq)]\npub enum ParameterLocation {\n    /// Header-bound parameter.\n    Header,\n    /// Path-bound parameter.\n    Path,\n    /// Query-bound parameter.\n    Query,\n}\n\n/// Generated parameter descriptor metadata.\n#[derive(Clone, Copy, Debug, Eq, PartialEq)]\npub struct GeneratedParameterDescriptor {\n    /// Parameter location in the HTTP request.\n    pub location: ParameterLocation,\n    /// Parameter name from the contract.\n    pub name: &'static str,\n    /// Whether the parameter is required by the contract.\n    pub required: bool,\n    /// Parameter description from the contract.\n    pub description: Option<&'static str>,\n}\n\n/// Generated request-body descriptor metadata.\n#[derive(Clone, Copy, Debug, Eq, PartialEq)]\npub struct GeneratedRequestBodyDescriptor {\n    /// Preferred request content type.\n    pub content_type: Option<&'static str>,\n    /// Whether the request body is nullable.\n    pub nullable: bool,\n    /// Whether the request body is required.\n    pub required: bool,\n    /// Referenced schema name when present.\n    pub schema_name: Option<&'static str>,\n}\n\n/// Generated response descriptor metadata.\n#[derive(Clone, Copy, Debug, Eq, PartialEq)]\npub struct GeneratedResponseDescriptor {\n    /// Preferred response content type.\n    pub content_type: Option<&'static str>,\n    /// Whether the response represents an error status.\n    pub is_error: bool,\n    /// Referenced schema name when present.\n    pub schema_name: Option<&'static str>,\n    /// HTTP status code documented for the response.\n    pub status: u16,\n}\n\n/// Generated operation descriptor metadata.\n#[derive(Clone, Copy, Debug, Eq, PartialEq)]\npub struct GeneratedOperationDescriptor {\n    /// Unique operation identifier.\n    pub operation_id: &'static str,\n    /// HTTP method.\n    pub method: &'static str,\n    /// Path template from the contract.\n    pub path: &'static str,\n    /// Primary API tag.\n    pub tag: &'static str,\n    /// Whether the operation accepts a request body.\n    pub has_request_body: bool,\n    /// Short summary from the contract.\n    pub summary: Option<&'static str>,\n    /// Detailed description from the contract.\n    pub description: Option<&'static str>,\n    /// Schema name for the primary success response when present.\n    pub primary_response_schema: Option<&'static str>,\n    /// Primary success status code.\n    pub primary_success_status: u16,\n    /// Contract parameter descriptors.\n    pub parameters: &'static [GeneratedParameterDescriptor],\n    /// Contract request-body descriptor.\n    pub request_body: Option<GeneratedRequestBodyDescriptor>,\n    /// Whether the operation requires authorization.\n    pub requires_auth: bool,\n    /// Documented response descriptors.\n    pub responses: &'static [GeneratedResponseDescriptor],\n}\n\n/// Number of documented paths in the normalized contract.\npub const PATH_COUNT: usize = ";

pub const MODULE_AFTER_PATH_COUNT: &'static str = ";\n/// Number of documented operations in the normalized contract.\npub const OPERATION_COUNT: usize = ";

pub const MODULE_AFTER_OPERATION_COUNT: &'static str = ";\n/// Number of documented schemas in the normalized contract.\npub const SCHEMA_COUNT: usize = ";

pub const MODULE_AFTER_SCHEMA_COUNT: &'static str = ";\n/// Ordered tag names derived from the normalized contract.\npub const TAG_NAMES: &[&str] = &[\n";

pub const MODULE_AFTER_TAG_NAMES: &'static str = "\n];\n/// Generated operation descriptors derived from the normalized contract.\npub const OPERATION_DESCRIPTORS: &[GeneratedOperationDescriptor] = &[\n";

pub const MODULE_AFTER_DESCRIPTORS: &'static str = "\n];\n\n/// Generated schema aliases derived from the normalized contract.\npub mod models {\n    /// Ordered schema names derived from the normalized contract.\n    pub const SCHEMA_NAMES: &[&str] = &[\n";

pub const MODULE_AFTER_SCHEMA_NAMES: &'static str = "\n    ];\n\n";

pub const MODULE_AFTER_ALIASES: &'static str = "\n}\n\n/// Generated tag groupings derived from the normalized contract.\npub mod tags {\n";

pub const MODULE_END: &'static str = "\n}\n";

/// The entries of a list of names, each indented and quoted.
pub open spec fn quoted_items(names: Seq<Seq<char>>, indent: Seq<char>) -> Seq<Seq<char>> {
    Seq::new(names.len(), |i: int| indent + debug_quoted(names[i]))
}

fn quoted_lines(names: &Vec<String>, indent: &str) -> (r: String)
    ensures
        r@ == join(quoted_items(strings_view(*names), indent@), ",\n"@),
{
    let ghost ns = strings_view(*names);
    let mut items: Vec<String> = Vec::new();
    let mut i: usize = 0;
    while i < names.len()
        invariant
            ns == strings_view(*names),
            i <= ns.len(),
            items@.len() == i,
            forall|j: int| 0 <= j < i ==> (#[trigger] items@[j])@ == indent@ + debug_quoted(ns[j]),
        decreases ns.len() - i,
    {
        let mut out: Vec<char> = Vec::new();
        push_str(&mut out, indent);
        push_debug(&mut out, names[i].as_str());
        items.push(string_of(out.as_slice()));
        i = i + 1;
    }
    assert(strings_view(items) =~= quoted_items(ns, indent@));
    join_strings(&items, ",\n")
}

/// The identifiers of the operations with tag `t`, one quoted line each.
pub open spec fn tag_operation_ids(ops: Seq<OperationModel>, t: Seq<char>) -> Seq<Seq<char>> {
    let tagged = crate::cli::tagged_operations(ops, t);
    Seq::new(tagged.len(), |i: int| "            "@ + debug_quoted(tagged[i].operation_id))
}

/// The module of one tag.
pub open spec fn tag_module_text(ops: Seq<OperationModel>, t: Seq<char>) -> Seq<char> {
    "    #[doc = \"Generated operation identifiers for this FerrisKey API tag.\"]\n    pub mod "@
        + module_identifier_spec(t)
        + " {\n        /// Operation identifiers grouped under this API tag.\n        pub const OPERATION_IDS: &[&str] = &[\n"@
        + join(tag_operation_ids(ops, t), ",\n"@) + "\n        ];\n    }"@
}

pub open spec fn tag_module_texts(ops: Seq<OperationModel>, tags: Seq<Seq<char>>) -> Seq<Seq<char>> {
    Seq::new(tags.len(), |i: int| tag_module_text(ops, tags[i]))
}

fn tag_module(operations: &Vec<OperationDescriptorSeed>, tag: &String) -> (r: String)
    ensures
        r@ == tag_module_text(operations_view(operations@), tag@),
{
    let ghost ops = operations_view(operations@);
    let mut ids: Vec<String> = Vec::new();
    let mut i: usize = 0;
    while i < operations.len()
        invariant
            ops == operations_view(operations@),
            i <= ops.len(),
            strings_view(ids) =~= tag_operation_ids(ops.take(i as int), tag@),
        decreases ops.len() - i,
    {
        assert(ops.take(i + 1).drop_last() =~= ops.take(i as int));
        assert(ops.take(i + 1).last() == operations@[i as int]@);
        if str_equal(operations[i].tag.as_str(), tag.as_str()) {
            let mut out: Vec<char> = Vec::new();
            push_str(&mut out, "            ");
            push_debug(&mut out, operations[i].operation_id.as_str());
            let ghost before = strings_view(ids);
            let line = string_of(out.as_slice());
            let ghost lv = line@;
            ids.push(line);
            assert(strings_view(ids) =~= before.push(lv));
        }
        i = i + 1;
    }
    assert(ops.take(i as int) =~= ops);
    let joined = join_strings(&ids, ",\n");
    let mut out: Vec<char> = Vec::new();
    push_str(&mut out, "    #[doc = \"Generated operation identifiers for this FerrisKey API tag.\"]\n    pub mod ");
    let name = sanitize_module_identifier(tag.as_str());
    push_str(&mut out, name.as_str());
    push_str(
        &mut out,
        " {\n        /// Operation identifiers grouped under this API tag.\n        pub const OPERATION_IDS: &[&str] = &[\n",
    );
    push_str(&mut out, joined.as_str());
    push_str(&mut out, "\n        ];\n    }");
    string_of(out.as_slice())
}

/// The alias of one schema.
pub open spec fn schema_alias_text(s: Seq<char>) -> Seq<char> {
    "    #[doc = \"Generated schema alias from the FerrisKey OpenAPI document.\"]\n    pub type "@ + sanitize_spec(
        s,
        true,
    ) + " = serde_json::Value;"@
}

pub open spec fn schema_alias_texts(ss: Seq<Seq<char>>) -> Seq<Seq<char>> {
    Seq::new(ss.len(), |i: int| schema_alias_text(ss[i]))
}

pub open spec fn operation_texts(ops: Seq<OperationModel>) -> Seq<Seq<char>> {
    Seq::new(ops.len(), |i: int| operation_text(ops[i]))
}

/// The metadata module of a registry as Rust source.
pub open spec fn module_text(r: RegistryModel) -> Seq<char> {
    MODULE_PREAMBLE@ + decimal(r.path_count) + MODULE_AFTER_PATH_COUNT@ + decimal(r.operation_count)
        + MODULE_AFTER_OPERATION_COUNT@ + decimal(r.schema_count) + MODULE_AFTER_SCHEMA_COUNT@ + join(
        quoted_items(r.tags, "    "@),
        ",\n"@,
    ) + MODULE_AFTER_TAG_NAMES@ + join(operation_texts(r.operations), ",\n"@) + MODULE_AFTER_DESCRIPTORS@ + join(
        quoted_items(r.schemas, "        "@),
        ",\n"@,
    ) + MODULE_AFTER_SCHEMA_NAMES@ + join(schema_alias_texts(r.schemas), "\n"@) + MODULE_AFTER_ALIASES@ + join(
        tag_module_texts(r.operations, r.tags),
        "\n\n"@,
    ) + MODULE_END@
}

/// Renders the metadata module of a registry: its counts, tag names,
/// operation descriptors, schema names and aliases, and one module of
/// operation identifiers per tag.
pub fn render_generated_module(registry: &ContractRegistry) -> (r: String)
    ensures
        r@ == module_text(registry@),
{
    let ghost reg = registry@;
    let tag_names = quoted_lines(&registry.tags, "    ");
    let schema_names = quoted_lines(&registry.schemas, "        ");
    let mut descriptors: Vec<String> = Vec::new();
    let mut i: usize = 0;
    while i < registry.operations.len()
        invariant
            reg == registry@,
            i <= reg.operations.len(),
            descriptors@.len() == i,
            forall|j: int| 0 <= j < i ==> (#[trigger] descriptors@[j])@ == operation_text(reg.operations[j]),
        decreases reg.operations.len() - i,
    {
        descriptors.push(render_operation_descriptor(&registry.operations[i]));
        i = i + 1;
    }
    assert(strings_view(descriptors) =~= operation_texts(reg.operations));
    let descriptor_text = join_strings(&descriptors, ",\n");
    let mut aliases: Vec<String> = Vec::new();
    let mut k: usize = 0;
    while k < registry.schemas.len()
        invariant
            reg == registry@,
            k <= reg.schemas.len(),
            aliases@.len() == k,
            forall|j: int| 0 <= j < k ==> (#[trigger] aliases@[j])@ == schema_alias_text(reg.schemas[j]),
        decreases reg.schemas.len() - k,
    {
        let mut out: Vec<char> = Vec::new();
        push_str(&mut out, "    #[doc = \"Generated schema alias from the FerrisKey OpenAPI document.\"]\n    pub type ");
        let name = sanitize_identifier(registry.schemas[k].as_str(), true);
        push_str(&mut out, name.as_str());
        push_str(&mut out, " = serde_json::Value;");
        aliases.push(string_of(out.as_slice()));
        k = k + 1;
    }
    assert(strings_view(aliases) =~= schema_alias_texts(reg.schemas));
    let alias_text = join_strings(&aliases, "\n");
    let mut modules: Vec<String> = Vec::new();
    let mut t: usize = 0;
    while t < registry.tags.len()
        invariant
            reg == registry@,
            t <= reg.tags.len(),
            modules@.len() == t,
            forall|j: int| 0 <= j < t ==> (#[trigger] modules@[j])@ == tag_module_text(reg.operations, reg.tags[j]),
        decreases reg.tags.len() - t,
    {
        modules.push(tag_module(&registry.operations, &registry.tags[t]));
        t = t + 1;
    }
    assert(strings_view(modules) =~= tag_module_texts(reg.operations, reg.tags));
    let module_text_all = join_strings(&modules, "\n\n");
    let mut out: Vec<char> = Vec::new();
    push_str(&mut out, MODULE_PREAMBLE);
    push_decimal(&mut out, registry.path_count);
    push_str(&mut out, MODULE_AFTER_PATH_COUNT);
    push_decimal(&mut out, registry.operation_count);
    push_str(&mut out, MODULE_AFTER_OPERATION_COUNT);
    push_decimal(&mut out, registry.schema_count);
    push_str(&mut out, MODULE_AFTER_SCHEMA_COUNT);
    push_str(&mut out, tag_names.as_str());
    push_str(&mut out, MODULE_AFTER_TAG_NAMES);
    push_str(&mut out, descriptor_text.as_str());
    push_str(&mut out, MODULE_AFTER_DESCRIPTORS);
    push_str(&mut out, schema_names.as_str());
    push_str(&mut out, MODULE_AFTER_SCHEMA_NAMES);
    push_str(&mut out, alias_text.as_str());
    push_str(&mut out, MODULE_AFTER_ALIASES);
    push_str(&mut out, module_text_all.as_str());
    push_str(&mut out, MODULE_END);
    string_of(out.as_slice())
}

} // verus!
