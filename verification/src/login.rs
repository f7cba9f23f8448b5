//! Logging in and saved credentials: the token request a login sends, the
//! token read from the answer, and the text of the credentials file.
use vstd::prelude::*;

use crate::document::{as_object, str_member, JsonValue, member, object_of, str_of};
use crate::encoding::{encode_component, encoded_component};
use crate::json::{parse_json, parsed_json};
use crate::maps::StringMap;
use crate::text::{chars_of, opt_view, push_all, push_str, string_of, trim_end_char};
use crate::transport::SdkResponse;

verus! {

/// Credentials saved by a login and read by later commands.
#[derive(Clone, Debug, PartialEq, Eq)]
pub struct SavedCredentials {
    /// Base URL of the server logged in to.
    pub base_url: String,
    /// Bearer token obtained at login.
    pub bearer_token: Option<String>,
}

/// The value of saved credentials.
pub struct CredentialsModel {
    pub base_url: Seq<char>,
    pub bearer_token: Option<Seq<char>>,
}

impl View for SavedCredentials {
    type V = CredentialsModel;

    open spec fn view(&self) -> CredentialsModel {
        CredentialsModel { base_url: self.base_url@, bearer_token: opt_view(self.bearer_token) }
    }
}

/// A login invocation.
#[derive(Clone, Debug, PartialEq, Eq)]
pub struct LoginInvocation {
    /// Server to authenticate against.
    pub base_url: String,
    /// User name.
    pub username: String,
    /// Password.
    pub password: String,
    /// Realm to authenticate in.
    pub realm_name: String,
}

// ---------------------------------------------------------------------------
// The token request.
// ---------------------------------------------------------------------------

/// The token endpoint of a realm.
pub open spec fn login_path(l: LoginInvocation) -> Seq<char> {
    trim_end_char(l.base_url@, '/') + "/realms/"@ + encoded_component(l.realm_name@)
        + "/protocol/openid-connect/token"@
}

/// The form of a password grant.
pub open spec fn login_form(l: LoginInvocation) -> Seq<char> {
    "grant_type=password&client_id=admin-cli&username="@ + encoded_component(l.username@) + "&password="@
        + encoded_component(l.password@)
}

/// The UTF-8 bytes of `s`.
pub fn bytes_of(s: &str) -> (r: Vec<u8>)
    ensures
        r@ == vstd::utf8::encode_utf8(s@),
{
    let bytes = s.as_bytes();
    let mut out: Vec<u8> = Vec::new();
    let mut i: usize = 0;
    while i < bytes.len()
        invariant
            i <= bytes@.len(),
            out@ == bytes@.subrange(0, i as int),
        decreases bytes@.len() - i,
    {
        out.push(bytes[i]);
        i = i + 1;
        assert(out@ =~= bytes@.subrange(0, i as int));
    }
    assert(out@ =~= bytes@);
    out
}

/// The request a login sends: a password grant posted as a form to the
/// realm's token endpoint.
pub fn login_request(login: &LoginInvocation) -> (r: crate::transport::SdkRequest)
    ensures
        r.method@ == "POST"@,
        r.path@ == login_path(*login),
        r.headers@ == seq![("content-type"@, "application/x-www-form-urlencoded"@)],
        r.body matches Some(b) && b@ == vstd::utf8::encode_utf8(login_form(*login)),
        !r.requires_auth,
{
    let base = chars_of(login.base_url.as_str());
    let mut path = crate::text::trim_end(base.as_slice(), '/');
    push_str(&mut path, "/realms/");
    let realm = encode_component(login.realm_name.as_str());
    push_str(&mut path, realm.as_str());
    push_str(&mut path, "/protocol/openid-connect/token");
    let mut form: Vec<char> = Vec::new();
    push_str(&mut form, "grant_type=password&client_id=admin-cli&username=");
    let user = encode_component(login.username.as_str());
    push_str(&mut form, user.as_str());
    push_str(&mut form, "&password=");
    let pass = encode_component(login.password.as_str());
    push_str(&mut form, pass.as_str());
    let form_text = string_of(form.as_slice());
    let mut headers = StringMap::new();
    headers.insert("content-type".to_owned(), "application/x-www-form-urlencoded".to_owned());
    crate::transport::SdkRequest {
        body: Some(bytes_of(form_text.as_str())),
        requires_auth: false,
        headers,
        method: "POST".to_owned(),
        path: string_of(path.as_slice()),
    }
}

/// The access token in a login answer: a `200` answer whose body is a JSON
/// object with a string member `access_token`.
pub open spec fn login_token_spec(status: u16, body: Seq<u8>) -> Option<Seq<char>> {
    if status != 200 {
        None
    } else {
        match parsed_json(body) {
            Some(doc) => match as_object(doc) {
                Some(ms) => str_member(ms, "access_token"@),
                None => None,
            },
            None => None,
        }
    }
}

/// Reads the access token from a login answer; `None` when the login was
/// refused or the answer holds no token.
pub fn login_token(response: &SdkResponse) -> (r: Option<String>)
    ensures
        opt_view(r) == login_token_spec(response.status, response.body@),
{
    if response.status != 200 {
        return None;
    }
    let doc = match parse_json(response.body.as_slice()) {
        Ok(d) => d,
        Err(_) => return None,
    };
    match object_of(&doc) {
        Some(ms) => match crate::document::str_member_of(ms, "access_token") {
            Some(t) => Some(t.clone()),
            None => None,
        },
        None => None,
    }
}

// ---------------------------------------------------------------------------
// The credentials file.
// ---------------------------------------------------------------------------

/// A value written inside a quoted string: `\`, `"` and line breaks escaped.
pub open spec fn escaped(s: Seq<char>) -> Seq<char>
    decreases s.len(),
{
    if s.len() == 0 {
        s
    } else {
        escaped(s.drop_last()) + escape_char(s.last())
    }
}

pub open spec fn escape_char(c: char) -> Seq<char> {
    if c == '\\' {
        seq!['\\', '\\']
    } else if c == '"' {
        seq!['\\', '"']
    } else if c == '\n' {
        seq!['\\', 'n']
    } else {
        seq![c]
    }
}

/// One `key = "value"` line.
pub open spec fn setting_line(key: Seq<char>, value: Seq<char>) -> Seq<char> {
    key + " = \""@ + escaped(value) + "\"\n"@
}

/// The text of the credentials file.
pub open spec fn credentials_text(c: CredentialsModel) -> Seq<char> {
    setting_line("base_url"@, c.base_url) + match c.bearer_token {
        Some(t) => setting_line("bearer_token"@, t),
        None => seq![],
    }
}

fn push_escaped(out: &mut Vec<char>, s: &str)
    ensures
        final(out)@ == old(out)@ + escaped(s@),
{
    let cs = chars_of(s);
    let mut i: usize = 0;
    assert(cs@.take(0) =~= seq![]);
    while i < cs.len()
        invariant
            cs@ == s@,
            i <= cs@.len(),
            out@ == old(out)@ + escaped(cs@.take(i as int)),
        decreases cs@.len() - i,
    {
        assert(cs@.take(i + 1).drop_last() =~= cs@.take(i as int));
        assert(cs@.take(i + 1).last() == cs@[i as int]);
        let c = cs[i];
        if c == '\\' {
            out.push('\\');
            out.push('\\');
        } else if c == '"' {
            out.push('\\');
            out.push('"');
        } else if c == '\n' {
            out.push('\\');
            out.push('n');
        } else {
            out.push(c);
        }
        assert(out@ =~= old(out)@ + escaped(cs@.take(i + 1)));
        i = i + 1;
    }
    assert(cs@.take(i as int) =~= s@);
}

fn push_setting(out: &mut Vec<char>, key: &str, value: &str)
    ensures
        final(out)@ == old(out)@ + setting_line(key@, value@),
{
    push_str(out, key);
    push_str(out, " = \"");
    push_escaped(out, value);
    push_str(out, "\"\n");
    assert(out@ =~= old(out)@ + setting_line(key@, value@));
}

/// The text of the credentials file: a `base_url` line and, when there is a
/// token, a `bearer_token` line, each `key = "value"` with the value escaped.
pub fn render_credentials(c: &SavedCredentials) -> (r: String)
    ensures
        r@ == credentials_text(c@),
{
    let mut out: Vec<char> = Vec::new();
    push_setting(&mut out, "base_url", c.base_url.as_str());
    match &c.bearer_token {
        Some(t) => push_setting(&mut out, "bearer_token", t.as_str()),
        None => {},
    }
    assert(out@ =~= credentials_text(c@));
    string_of(out.as_slice())
}

/// The lines of a text, split at line breaks, after the lines in `acc` and
/// the line `cur` in progress.
pub open spec fn lines_from(s: Seq<char>, cur: Seq<char>, acc: Seq<Seq<char>>) -> Seq<Seq<char>>
    decreases s.len(),
{
    if s.len() == 0 {
        acc.push(cur)
    } else if s[0] == '\n' {
        lines_from(s.drop_first(), seq![], acc.push(cur))
    } else {
        lines_from(s.drop_first(), cur.push(s[0]), acc)
    }
}

/// The characters an escaped value stands for; `None` for a bad escape or a
/// bare quote.
pub open spec fn unescaped(s: Seq<char>) -> Option<Seq<char>>
    decreases s.len(),
{
    if s.len() == 0 {
        Some(s)
    } else if s[0] == '"' {
        None
    } else if s[0] == '\\' {
        if s.len() >= 2 && (s[1] == '\\' || s[1] == '"' || s[1] == 'n') {
            match unescaped(s.skip(2)) {
                Some(rest) => Some(seq![if s[1] == 'n' { '\n' } else { s[1] }] + rest),
                None => None,
            }
        } else {
            None
        }
    } else {
        match unescaped(s.drop_first()) {
            Some(rest) => Some(seq![s[0]] + rest),
            None => None,
        }
    }
}

/// The value a line gives `key`: the line is `key = "…"` and what stands
/// between the quotes is a well-escaped value.
pub open spec fn setting_value(line: Seq<char>, key: Seq<char>) -> Option<Seq<char>> {
    let p = key + " = \""@;
    if has_prefix_spec(line, p) && line.len() >= p.len() + 1 && line.last() == '"' {
        unescaped(line.subrange(p.len() as int, line.len() - 1))
    } else {
        None
    }
}

pub open spec fn has_prefix_spec(s: Seq<char>, p: Seq<char>) -> bool {
    crate::text::has_prefix(s, p)
}

/// The value of `key` on the first line, from line `i`, that gives one.
pub open spec fn first_setting(lines: Seq<Seq<char>>, key: Seq<char>, i: int) -> Option<Seq<char>>
    decreases lines.len() - i,
{
    if i < 0 || i >= lines.len() {
        None
    } else if setting_value(lines[i], key) is Some {
        setting_value(lines[i], key)
    } else {
        first_setting(lines, key, i + 1)
    }
}

/// The credentials a file holds: its first `base_url` line is required, its
/// first `bearer_token` line is optional; other lines are ignored.
pub open spec fn parse_credentials_spec(text: Seq<char>) -> Option<CredentialsModel> {
    let lines = lines_from(text, seq![], seq![]);
    match first_setting(lines, "base_url"@, 0) {
        None => None,
        Some(b) => Some(CredentialsModel { base_url: b, bearer_token: first_setting(lines, "bearer_token"@, 0) }),
    }
}

fn split_lines(text: &str) -> (r: Vec<Vec<char>>)
    ensures
        r@.len() == lines_from(text@, seq![], seq![]).len(),
        forall|i: int| 0 <= i < r@.len() ==> (#[trigger] r@[i])@ == lines_from(text@, seq![], seq![])[i],
{
    let cs = chars_of(text);
    let mut acc: Vec<Vec<char>> = Vec::new();
    let mut cur: Vec<char> = Vec::new();
    let mut i: usize = 0;
    assert(cs@.skip(0) =~= cs@);
    assert(Seq::new(acc@.len(), |j: int| acc@[j]@) =~= seq![]);
    while i < cs.len()
        invariant
            cs@ == text@,
            i <= cs@.len(),
            lines_from(text@, seq![], seq![]) == lines_from(
                cs@.skip(i as int),
                cur@,
                Seq::new(acc@.len(), |j: int| acc@[j]@),
            ),
        decreases cs@.len() - i,
    {
        assert(cs@.skip(i as int).drop_first() =~= cs@.skip(i + 1));
        assert(cs@.skip(i as int)[0] == cs@[i as int]);
        let ghost before = Seq::new(acc@.len(), |j: int| acc@[j]@);
        if cs[i] == '\n' {
            let line = cur;
            cur = Vec::new();
            let ghost lv = line@;
            acc.push(line);
            assert(Seq::new(acc@.len(), |j: int| acc@[j]@) =~= before.push(lv));
            assert(cur@ =~= seq![]);
        } else {
            cur.push(cs[i]);
        }
        i = i + 1;
    }
    assert(cs@.skip(i as int) =~= seq![]);
    let ghost before = Seq::new(acc@.len(), |j: int| acc@[j]@);
    let ghost cv = cur@;
    acc.push(cur);
    assert(Seq::new(acc@.len(), |j: int| acc@[j]@) =~= before.push(cv));
    acc
}

fn unescape(s: &[char]) -> (r: Option<Vec<char>>)
    ensures
        match r {
            Some(v) => unescaped(s@) == Some(v@),
            None => unescaped(s@) is None,
        },
{
    let mut out: Vec<char> = Vec::new();
    let mut i: usize = 0;
    assert(s@.skip(0) =~= s@);
    while i < s.len()
        invariant
            i <= s@.len(),
            unescaped(s@) == match unescaped(s@.skip(i as int)) {
                Some(rest) => Some(out@ + rest),
                None => None::<Seq<char>>,
            },
        decreases s@.len() - i,
    {
        let ghost t = s@.skip(i as int);
        assert(t[0] == s@[i as int]);
        if s[i] == '"' {
            return None;
        }
        if s[i] == '\\' {
            if i + 1 < s.len() && (s[i + 1] == '\\' || s[i + 1] == '"' || s[i + 1] == 'n') {
                assert(t[1] == s@[i + 1]);
                assert(t.skip(2) =~= s@.skip(i + 2));
                let c = if s[i + 1] == 'n' { '\n' } else { s[i + 1] };
                let ghost before = out@;
                out.push(c);
                proof {
                    match unescaped(s@.skip(i + 2)) {
                        Some(rest) => {
                            assert(before + (seq![c] + rest) =~= out@ + rest);
                        },
                        None => {},
                    }
                }
                i = i + 2;
            } else {
                return None;
            }
        } else {
            assert(t.drop_first() =~= s@.skip(i + 1));
            let ghost before = out@;
            out.push(s[i]);
            proof {
                match unescaped(s@.skip(i + 1)) {
                    Some(rest) => {
                        assert(before + (seq![s@[i as int]] + rest) =~= out@ + rest);
                    },
                    None => {},
                }
            }
            i = i + 1;
        }
    }
    assert(s@.skip(i as int) =~= seq![]);
    assert(out@ + seq![] =~= out@);
    Some(out)
}

fn line_value(line: &Vec<char>, key: &str) -> (r: Option<Vec<char>>)
    ensures
        match r {
            Some(v) => setting_value(line@, key@) == Some(v@),
            None => setting_value(line@, key@) is None,
        },
{
    let mut p = chars_of(key);
    push_str(&mut p, " = \"");
    if !crate::text::starts_with(line.as_slice(), p.as_slice()) {
        return None;
    }
    if line.len() <= p.len() || line[line.len() - 1] != '"' {
        return None;
    }
    let mut middle: Vec<char> = Vec::new();
    let mut i: usize = p.len();
    while i < line.len() - 1
        invariant
            p@.len() <= i <= line@.len() - 1,
            line@.len() >= p@.len() + 1,
            middle@ == line@.subrange(p@.len() as int, i as int),
        decreases line@.len() - i,
    {
        middle.push(line[i]);
        i = i + 1;
        assert(middle@ =~= line@.subrange(p@.len() as int, i as int));
    }
    unescape(middle.as_slice())
}

fn find_setting(lines: &Vec<Vec<char>>, key: &str) -> (r: Option<Vec<char>>)
    ensures
        match r {
            Some(v) => first_setting(Seq::new(lines@.len(), |j: int| lines@[j]@), key@, 0) == Some(v@),
            None => first_setting(Seq::new(lines@.len(), |j: int| lines@[j]@), key@, 0) is None,
        },
{
    let ghost ls = Seq::new(lines@.len(), |j: int| lines@[j]@);
    let mut i: usize = 0;
    while i < lines.len()
        invariant
            ls == Seq::new(lines@.len(), |j: int| lines@[j]@),
            i <= lines@.len(),
            first_setting(ls, key@, 0) == first_setting(ls, key@, i as int),
        decreases lines@.len() - i,
    {
        match line_value(&lines[i], key) {
            Some(v) => return Some(v),
            None => {},
        }
        i = i + 1;
    }
    None
}

/// Reads the credentials file text.
pub fn parse_credentials(text: &str) -> (r: Option<SavedCredentials>)
    ensures
        match r {
            Some(c) => parse_credentials_spec(text@) == Some(c@),
            None => parse_credentials_spec(text@) is None,
        },
{
    let lines = split_lines(text);
    let ghost ls = lines_from(text@, seq![], seq![]);
    assert(Seq::new(lines@.len(), |j: int| lines@[j]@) =~= ls);
    let base = match find_setting(&lines, "base_url") {
        Some(b) => b,
        None => return None,
    };
    let token = match find_setting(&lines, "bearer_token") {
        Some(t) => Some(string_of(t.as_slice())),
        None => None,
    };
    Some(SavedCredentials { base_url: string_of(base.as_slice()), bearer_token: token })
}

// ---------------------------------------------------------------------------
// Reading back what was written.
// ---------------------------------------------------------------------------

proof fn lemma_concat_lacks(a: Seq<char>, b: Seq<char>, c: char)
    requires
        !a.contains(c),
        !b.contains(c),
    ensures
        !(a + b).contains(c),
{
    if (a + b).contains(c) {
        let m = choose|m: int| 0 <= m < (a + b).len() && (a + b)[m] == c;
        if m < a.len() {
            assert(a[m] == (a + b)[m]);
        } else {
            assert(b[m - a.len()] == (a + b)[m]);
        }
    }
}

proof fn lemma_escaped_prepend(c: char, t: Seq<char>)
    ensures
        escaped(seq![c] + t) == escape_char(c) + escaped(t),
    decreases t.len(),
{
    let u = seq![c] + t;
    if t.len() == 0 {
        assert(u.drop_last() =~= Seq::<char>::empty());
        assert(escaped(u) =~= escape_char(c) + escaped(t));
    } else {
        assert(u.drop_last() =~= seq![c] + t.drop_last());
        assert(u.last() == t.last());
        lemma_escaped_prepend(c, t.drop_last());
        assert(escaped(u) == escaped(u.drop_last()) + escape_char(u.last()));
        assert(escaped(u.drop_last()) == escape_char(c) + escaped(t.drop_last()));
        assert(escaped(t) == escaped(t.drop_last()) + escape_char(t.last()));
        assert(escaped(u) =~= escape_char(c) + escaped(t));
    }
}

proof fn lemma_unescape_escaped(v: Seq<char>)
    ensures
        unescaped(escaped(v)) == Some(v),
    decreases v.len(),
{
    if v.len() > 0 {
        let c = v[0];
        let t = v.drop_first();
        assert(v =~= seq![c] + t);
        lemma_escaped_prepend(c, t);
        lemma_unescape_escaped(t);
        let e = escape_char(c) + escaped(t);
        if c == '\\' || c == '"' || c == '\n' {
            assert(e.skip(2) =~= escaped(t));
        } else {
            assert(e.drop_first() =~= escaped(t));
        }
        assert(seq![c] + t =~= v);
    }
}

proof fn lemma_escaped_no_line_break(v: Seq<char>)
    ensures
        !escaped(v).contains('\n'),
    decreases v.len(),
{
    if v.len() > 0 {
        lemma_escaped_no_line_break(v.drop_last());
        let b = escape_char(v.last());
        assert(!b.contains('\n')) by {
            if b.contains('\n') {
                let m = choose|m: int| 0 <= m < b.len() && b[m] == '\n';
            }
        }
        lemma_concat_lacks(escaped(v.drop_last()), b, '\n');
    }
}

proof fn lemma_lines_through(x: Seq<char>, y: Seq<char>, cur: Seq<char>, acc: Seq<Seq<char>>)
    requires
        !x.contains('\n'),
    ensures
        lines_from(x + seq!['\n'] + y, cur, acc) == lines_from(y, seq![], acc.push(cur + x)),
    decreases x.len(),
{
    let s = x + seq!['\n'] + y;
    if x.len() == 0 {
        assert(s[0] == '\n');
        assert(s.drop_first() =~= y);
        assert(cur + x =~= cur);
    } else {
        assert(x[0] != '\n') by {
            if x[0] == '\n' {
                assert(x.contains(x[0]));
            }
        }
        assert(s[0] == x[0]);
        assert(s.drop_first() =~= x.drop_first() + seq!['\n'] + y);
        assert(!x.drop_first().contains('\n')) by {
            if x.drop_first().contains('\n') {
                let m = choose|m: int| 0 <= m < x.drop_first().len() && x.drop_first()[m] == '\n';
                assert(x[m + 1] == '\n');
            }
        }
        lemma_lines_through(x.drop_first(), y, cur.push(x[0]), acc);
        assert(cur.push(x[0]) + x.drop_first() =~= cur + x);
    }
}

/// The text of a setting line up to its line break.
pub open spec fn setting_body(key: Seq<char>, value: Seq<char>) -> Seq<char> {
    key + " = \""@ + escaped(value) + seq!['"']
}

proof fn lemma_setting_line(key: Seq<char>, value: Seq<char>)
    requires
        !key.contains('\n'),
    ensures
        setting_line(key, value) == setting_body(key, value) + seq!['\n'],
        !setting_body(key, value).contains('\n'),
        setting_value(setting_body(key, value), key) == Some(value),
{
    reveal_strlit(" = \"");
    reveal_strlit("\"\n");
    let body = setting_body(key, value);
    assert(setting_line(key, value) =~= body + seq!['\n']);
    let sep = " = \""@;
    assert(!sep.contains('\n')) by {
        if sep.contains('\n') {
            let m = choose|m: int| 0 <= m < sep.len() && sep[m] == '\n';
        }
    }
    assert(!seq!['"'].contains('\n')) by {
        if seq!['"'].contains('\n') {
            let m = choose|m: int| 0 <= m < 1 && seq!['"'][m] == '\n';
        }
    }
    lemma_escaped_no_line_break(value);
    lemma_concat_lacks(key, sep, '\n');
    lemma_concat_lacks(key + sep, escaped(value), '\n');
    lemma_concat_lacks(key + sep + escaped(value), seq!['"'], '\n');
    let p = key + sep;
    assert(body.subrange(0, p.len() as int) =~= p);
    assert(body.last() == '"');
    assert(body.subrange(p.len() as int, body.len() - 1) =~= escaped(value));
    lemma_unescape_escaped(value);
}

/// Credentials written to the file are read back as they were.
pub proof fn law_saved_credentials_read_back(c: CredentialsModel)
    ensures
        parse_credentials_spec(credentials_text(c)) == Some(c),
{
    reveal_strlit("base_url");
    reveal_strlit("bearer_token");
    reveal_strlit(" = \"");
    let k1 = "base_url"@;
    let k2 = "bearer_token"@;
    assert(!k1.contains('\n')) by {
        if k1.contains('\n') {
            let m = choose|m: int| 0 <= m < k1.len() && k1[m] == '\n';
        }
    }
    assert(!k2.contains('\n')) by {
        if k2.contains('\n') {
            let m = choose|m: int| 0 <= m < k2.len() && k2[m] == '\n';
        }
    }
    lemma_setting_line(k1, c.base_url);
    let b1 = setting_body(k1, c.base_url);
    // The base URL line gives no bearer token: the keys differ in their
    // second character.
    assert(setting_value(b1, k2) is None) by {
        let p2 = k2 + " = \""@;
        if p2.len() <= b1.len() {
            assert(b1[1] == 'a');
            assert(p2[1] == 'e');
            assert(b1.subrange(0, p2.len() as int)[1] == b1[1]);
        }
    }
    assert(setting_value(seq![], k1) is None);
    assert(setting_value(seq![], k2) is None);
    match c.bearer_token {
        Some(t) => {
            lemma_setting_line(k2, t);
            let b2 = setting_body(k2, t);
            let text = credentials_text(c);
            assert(text =~= b1 + seq!['\n'] + (b2 + seq!['\n'] + seq![]));
            lemma_lines_through(b1, b2 + seq!['\n'] + seq![], seq![], seq![]);
            lemma_lines_through(b2, seq![], seq![], seq![].push(seq![] + b1));
            assert(seq![] + b1 =~= b1);
            assert(seq![] + b2 =~= b2);
            let lines = lines_from(text, seq![], seq![]);
            assert(lines =~= seq![b1, b2, seq![]]);
            assert(first_setting(lines, k1, 0) == Some(c.base_url));
            assert(first_setting(lines, k2, 1) == Some(t));
            assert(first_setting(lines, k2, 0) == Some(t));
        },
        None => {
            let text = credentials_text(c);
            assert(text =~= b1 + seq!['\n'] + seq![]);
            lemma_lines_through(b1, seq![], seq![], seq![]);
            assert(seq![] + b1 =~= b1);
            let lines = lines_from(text, seq![], seq![]);
            assert(lines =~= seq![b1, seq![]]);
            assert(first_setting(lines, k1, 0) == Some(c.base_url));
            assert(first_setting(lines, k2, 2) is None);
            assert(first_setting(lines, k2, 1) is None);
            assert(first_setting(lines, k2, 0) is None);
        },
    }
}

} // verus!
