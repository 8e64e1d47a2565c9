//! Provider and connection manifests: validation, conflict-free merging,
//! and the connection values that a project configures.
use vstd::prelude::*;

use crate::graph::FrameType;
use crate::registry::{is_unicode_whitespace, str_equal};
use crate::string_set::{sorted_strings, StringSet};

verus! {

/// The provider manifest format this library reads.
pub open spec fn provider_format() -> Seq<char> {
    "muxiva.provider/v1"@
}

/// The data of one connection field.
pub struct FieldView {
    pub name: Seq<char>,
    pub label: Seq<char>,
    pub environment: Seq<char>,
    pub secret: bool,
    pub required: bool,
    pub client_exposed: bool,
    pub default: Seq<char>,
    pub help: Seq<char>,
    pub acquire_url: Seq<char>,
}

/// One configurable value of a connection.
#[derive(Clone, Debug)]
pub struct ConnectionFieldManifest {
    pub name: String,
    pub label: String,
    pub environment: String,
    pub secret: bool,
    pub required: bool,
    pub client_exposed: bool,
    pub default: String,
    pub help: String,
    pub acquire_url: String,
}

impl View for ConnectionFieldManifest {
    type V = FieldView;

    open spec fn view(&self) -> FieldView {
        FieldView {
            name: self.name@,
            label: self.label@,
            environment: self.environment@,
            secret: self.secret,
            required: self.required,
            client_exposed: self.client_exposed,
            default: self.default@,
            help: self.help@,
            acquire_url: self.acquire_url@,
        }
    }
}

/// The data of one connection.
pub struct ConnectionView {
    pub id: Seq<char>,
    pub display_name: Seq<char>,
    pub description: Seq<char>,
    pub fields: Seq<FieldView>,
}

/// A named set of credentials a provider needs.
#[derive(Clone, Debug)]
pub struct ConnectionManifest {
    pub id: String,
    pub display_name: String,
    pub description: String,
    pub fields: Vec<ConnectionFieldManifest>,
}

/// The views of a sequence of fields.
pub open spec fn field_views(fields: Seq<ConnectionFieldManifest>) -> Seq<FieldView> {
    fields.map_values(|f: ConnectionFieldManifest| f@)
}

impl View for ConnectionManifest {
    type V = ConnectionView;

    open spec fn view(&self) -> ConnectionView {
        ConnectionView {
            id: self.id@,
            display_name: self.display_name@,
            description: self.description@,
            fields: field_views(self.fields@),
        }
    }
}

/// The data of a provider's SDK.
pub struct SdkView {
    pub name: Seq<char>,
    pub version: Seq<char>,
}

/// The SDK a provider is built on.
#[derive(Clone, Debug)]
pub struct ProviderSdkManifest {
    pub name: String,
    pub version: String,
}

impl View for ProviderSdkManifest {
    type V = SdkView;

    open spec fn view(&self) -> SdkView {
        SdkView { name: self.name@, version: self.version@ }
    }
}

/// The data of a provider manifest.
pub struct ProviderView {
    pub format: Seq<char>,
    pub provider_id: Seq<char>,
    pub display_name: Seq<char>,
    pub category: Seq<char>,
    pub summary: Seq<char>,
    pub vendor: Seq<char>,
    pub homepage: Seq<char>,
    pub documentation: Seq<char>,
    pub license: Seq<char>,
    pub sdk: SdkView,
    pub connections: Seq<ConnectionView>,
}

/// A provider package's manifest.
#[derive(Clone, Debug)]
pub struct ProviderManifest {
    pub format: String,
    pub provider_id: String,
    pub display_name: String,
    pub category: String,
    pub summary: String,
    pub vendor: String,
    pub homepage: String,
    pub documentation: String,
    pub license: String,
    pub sdk: ProviderSdkManifest,
    pub connections: Vec<ConnectionManifest>,
}

/// The views of a sequence of connections.
pub open spec fn connection_views(connections: Seq<ConnectionManifest>) -> Seq<ConnectionView> {
    connections.map_values(|c: ConnectionManifest| c@)
}

impl View for ProviderManifest {
    type V = ProviderView;

    open spec fn view(&self) -> ProviderView {
        ProviderView {
            format: self.format@,
            provider_id: self.provider_id@,
            display_name: self.display_name@,
            category: self.category@,
            summary: self.summary@,
            vendor: self.vendor@,
            homepage: self.homepage@,
            documentation: self.documentation@,
            license: self.license@,
            sdk: self.sdk@,
            connections: connection_views(self.connections@),
        }
    }
}

/// A copy of a field manifest with the same content.
pub fn copy_field(f: &ConnectionFieldManifest) -> (r: ConnectionFieldManifest)
    ensures
        r@ == f@,
{
    ConnectionFieldManifest {
        name: f.name.clone(),
        label: f.label.clone(),
        environment: f.environment.clone(),
        secret: f.secret,
        required: f.required,
        client_exposed: f.client_exposed,
        default: f.default.clone(),
        help: f.help.clone(),
        acquire_url: f.acquire_url.clone(),
    }
}

/// A copy of a connection manifest with the same content.
pub fn copy_connection(c: &ConnectionManifest) -> (r: ConnectionManifest)
    ensures
        r@ == c@,
{
    let mut fields: Vec<ConnectionFieldManifest> = Vec::new();
    let mut i: usize = 0;
    while i < c.fields.len()
        invariant
            0 <= i <= c.fields@.len(),
            field_views(fields@) == field_views(c.fields@).take(i as int),
        decreases c.fields@.len() - i,
    {
        let f = copy_field(&c.fields[i]);
        proof {
            assert(field_views(c.fields@)[i as int] == c.fields@[i as int]@);
            assert(field_views(fields@.push(f)) =~= field_views(fields@).push(f@));
            assert(field_views(fields@.push(f)) =~= field_views(c.fields@).take(i + 1));
        }
        fields.push(f);
        i = i + 1;
    }
    proof {
        assert(field_views(c.fields@).take(c.fields@.len() as int) =~= field_views(c.fields@));
    }
    ConnectionManifest {
        id: c.id.clone(),
        display_name: c.display_name.clone(),
        description: c.description.clone(),
        fields,
    }
}

fn same_text(a: &String, b: &String) -> (r: bool)
    ensures
        r == (a@ == b@),
{
    str_equal(a.as_str(), b.as_str())
}

fn same_field(a: &ConnectionFieldManifest, b: &ConnectionFieldManifest) -> (r: bool)
    ensures
        r == (a@ == b@),
{
    same_text(&a.name, &b.name) && same_text(&a.label, &b.label) && same_text(&a.environment, &b.environment)
        && a.secret == b.secret && a.required == b.required && a.client_exposed == b.client_exposed
        && same_text(&a.default, &b.default) && same_text(&a.help, &b.help) && same_text(
        &a.acquire_url,
        &b.acquire_url,
    )
}

fn same_connection(a: &ConnectionManifest, b: &ConnectionManifest) -> (r: bool)
    ensures
        r == (a@ == b@),
{
    if !same_text(&a.id, &b.id) || !same_text(&a.display_name, &b.display_name) || !same_text(
        &a.description,
        &b.description,
    ) || a.fields.len() != b.fields.len() {
        proof {
            if a.fields.len() != b.fields.len() {
                assert(a@.fields.len() != b@.fields.len());
            }
        }
        return false;
    }
    let mut i: usize = 0;
    while i < a.fields.len()
        invariant
            a.fields@.len() == b.fields@.len(),
            0 <= i <= a.fields@.len(),
            forall|j: int| 0 <= j < i ==> #[trigger] a.fields@[j]@ == b.fields@[j]@,
        decreases a.fields@.len() - i,
    {
        if !same_field(&a.fields[i], &b.fields[i]) {
            proof {
                assert(a@.fields[i as int] != b@.fields[i as int]);
            }
            return false;
        }
        i = i + 1;
    }
    proof {
        assert(a@.fields =~= b@.fields);
    }
    true
}

fn same_provider(a: &ProviderManifest, b: &ProviderManifest) -> (r: bool)
    ensures
        r == (a@ == b@),
{
    if !(same_text(&a.format, &b.format) && same_text(&a.provider_id, &b.provider_id) && same_text(
        &a.display_name,
        &b.display_name,
    ) && same_text(&a.category, &b.category) && same_text(&a.summary, &b.summary) && same_text(
        &a.vendor,
        &b.vendor,
    ) && same_text(&a.homepage, &b.homepage) && same_text(&a.documentation, &b.documentation)
        && same_text(&a.license, &b.license) && same_text(&a.sdk.name, &b.sdk.name) && same_text(
        &a.sdk.version,
        &b.sdk.version,
    )) || a.connections.len() != b.connections.len() {
        proof {
            if a.connections.len() != b.connections.len() {
                assert(a@.connections.len() != b@.connections.len());
            }
        }
        return false;
    }
    let mut i: usize = 0;
    while i < a.connections.len()
        invariant
            a.connections@.len() == b.connections@.len(),
            0 <= i <= a.connections@.len(),
            forall|j: int| 0 <= j < i ==> #[trigger] a.connections@[j]@ == b.connections@[j]@,
        decreases a.connections@.len() - i,
    {
        if !same_connection(&a.connections[i], &b.connections[i]) {
            proof {
                assert(a@.connections[i as int] != b@.connections[i as int]);
            }
            return false;
        }
        i = i + 1;
    }
    proof {
        assert(a@.connections =~= b@.connections);
    }
    true
}


/// A byte allowed in a stable identifier: lowercase ASCII letter, digit,
/// `-` or `_`.
pub open spec fn is_id_byte(b: u8) -> bool {
    ||| 0x61 <= b <= 0x7a
    ||| 0x30 <= b <= 0x39
    ||| b == 0x2d
    ||| b == 0x5f
}

/// A byte allowed in an environment variable name: uppercase ASCII letter,
/// digit or `_`.
pub open spec fn is_env_byte(b: u8) -> bool {
    ||| 0x41 <= b <= 0x5a
    ||| 0x30 <= b <= 0x39
    ||| b == 0x5f
}

/// A stable identifier: 1 through 64 bytes, each an identifier byte.
pub open spec fn valid_id(v: Seq<char>) -> bool {
    let b = vstd::utf8::encode_utf8(v);
    &&& 0 < b.len() <= 64
    &&& forall|i: int| 0 <= i < b.len() ==> is_id_byte(#[trigger] b[i])
}

/// Whether a text is a stable identifier.
pub fn valid_package_id(value: &str) -> (r: bool)
    ensures
        r == valid_id(value@),
{
    let b = value.as_bytes();
    if b.len() == 0 || b.len() > 64 {
        return false;
    }
    let mut i: usize = 0;
    while i < b.len()
        invariant
            b@ == vstd::utf8::encode_utf8(value@),
            0 < b@.len() <= 64,
            0 <= i <= b@.len(),
            forall|k: int| 0 <= k < i ==> is_id_byte(#[trigger] b@[k]),
        decreases b@.len() - i,
    {
        let x = b[i];
        if !((0x61 <= x && x <= 0x7a) || (0x30 <= x && x <= 0x39) || x == 0x2d || x == 0x5f) {
            return false;
        }
        i = i + 1;
    }
    true
}

/// The provider categories.
pub open spec fn valid_category_spec(v: Seq<char>) -> bool {
    ||| v == "transport"@
    ||| v == "algorithm"@
    ||| v == "media"@
    ||| v == "control"@
    ||| v == "utility"@
}

/// Whether a text names a provider category.
pub fn valid_category(value: &str) -> (r: bool)
    ensures
        r == valid_category_spec(value@),
{
    str_equal(value, "transport") || str_equal(value, "algorithm") || str_equal(value, "media") || str_equal(
        value,
        "control",
    ) || str_equal(value, "utility")
}

/// The dot-separated parts of `b`, given `run` bytes of the current part
/// already read, are non-empty identifiers of at most 64 bytes.
pub open spec fn parts_ok(b: Seq<u8>, run: int) -> bool
    decreases b.len(),
{
    if b.len() == 0 {
        0 < run <= 64
    } else if b[0] == 0x2e {
        0 < run <= 64 && parts_ok(b.drop_first(), 0)
    } else {
        is_id_byte(b[0]) && parts_ok(b.drop_first(), run + 1)
    }
}

/// A capability: 1 through 100 bytes of dot-separated stable identifiers.
pub open spec fn valid_capability_spec(v: Seq<char>) -> bool {
    let b = vstd::utf8::encode_utf8(v);
    &&& 0 < b.len() <= 100
    &&& parts_ok(b, 0)
}

/// Whether a text is a capability name.
pub fn valid_capability(value: &str) -> (r: bool)
    ensures
        r == valid_capability_spec(value@),
{
    let b = value.as_bytes();
    if b.len() == 0 || b.len() > 100 {
        return false;
    }
    let mut i: usize = 0;
    let mut run: usize = 0;
    proof {
        assert(b@.subrange(0, b@.len() as int) =~= b@);
    }
    while i < b.len()
        invariant
            b@ == vstd::utf8::encode_utf8(value@),
            0 < b@.len(),
            0 <= i <= b@.len() <= 100,
            run <= i,
            parts_ok(b@, 0) == parts_ok(b@.subrange(i as int, b@.len() as int), run as int),
        decreases b@.len() - i,
    {
        let x = b[i];
        let ghost rest = b@.subrange(i as int, b@.len() as int);
        proof {
            assert(rest[0] == x);
            assert(rest.drop_first() =~= b@.subrange(i + 1, b@.len() as int));
        }
        if x == 0x2e {
            if run == 0 || run > 64 {
                return false;
            }
            run = 0;
        } else {
            if !((0x61 <= x && x <= 0x7a) || (0x30 <= x && x <= 0x39) || x == 0x2d || x == 0x5f) {
                return false;
            }
            run = run + 1;
        }
        i = i + 1;
    }
    proof {
        assert(b@.subrange(i as int, b@.len() as int) =~= Seq::<u8>::empty());
    }
    run > 0 && run <= 64
}

/// Every character is whitespace, so the trimmed text is empty.
pub open spec fn blank(v: Seq<char>) -> bool {
    forall|i: int| 0 <= i < v.len() ==> is_unicode_whitespace(#[trigger] v[i])
}

pub fn is_blank(value: &str) -> (r: bool)
    ensures
        r == blank(value@),
{
    let n = value.unicode_len();
    let mut i: usize = 0;
    while i < n
        invariant
            n == value@.len(),
            0 <= i <= n,
            forall|k: int| 0 <= k < i ==> is_unicode_whitespace(#[trigger] value@[k]),
        decreases n - i,
    {
        let c = value.get_char(i);
        if !(('\u{9}' <= c && c <= '\u{d}') || c == ' ' || c == '\u{85}' || c == '\u{a0}' || c == '\u{1680}' || (
        '\u{2000}' <= c && c <= '\u{200a}') || c == '\u{2028}' || c == '\u{2029}' || c == '\u{202f}' || c
            == '\u{205f}' || c == '\u{3000}') {
            return false;
        }
        i = i + 1;
    }
    true
}

/// An environment variable name: non-empty, uppercase letters, digits and `_`.
pub open spec fn valid_env_name(v: Seq<char>) -> bool {
    let b = vstd::utf8::encode_utf8(v);
    &&& b.len() > 0
    &&& forall|i: int| 0 <= i < b.len() ==> is_env_byte(#[trigger] b[i])
}

fn is_env_name(value: &str) -> (r: bool)
    ensures
        r == valid_env_name(value@),
{
    let b = value.as_bytes();
    if b.len() == 0 {
        return false;
    }
    let mut i: usize = 0;
    while i < b.len()
        invariant
            b@ == vstd::utf8::encode_utf8(value@),
            0 < b@.len(),
            0 <= i <= b@.len(),
            forall|k: int| 0 <= k < i ==> is_env_byte(#[trigger] b@[k]),
        decreases b@.len() - i,
    {
        let x = b[i];
        if !((0x41 <= x && x <= 0x5a) || (0x30 <= x && x <= 0x39) || x == 0x5f) {
            return false;
        }
        i = i + 1;
    }
    true
}

/// Why saving a package failed.
#[derive(Clone, Debug, PartialEq, Eq)]
pub enum SaveError {
    /// The package is invalid; the text says why.
    Invalid(String),
    /// Reading or writing failed; the text is the system's message.
    Io(String),
}

/// The message for a bad connection identifier.
pub open spec fn bad_connection_id_message() -> Seq<char> {
    "connection id must use 1-64 lowercase letters, digits, '-' or '_'"@
}

/// The message for a connection without a name or fields.
pub open spec fn empty_connection_message() -> Seq<char> {
    "connection requires a display name and at least one field"@
}

/// The message for a bad or repeated field name.
pub open spec fn bad_field_name_message() -> Seq<char> {
    "connection field names must be unique stable identifiers"@
}

/// The message for a field without label or with a bad environment name.
pub open spec fn bad_field_message() -> Seq<char> {
    "connection fields require labels and uppercase environment names"@
}

/// The problem of field `i` of a connection, if any.
pub open spec fn field_problem(fields: Seq<FieldView>, i: int) -> Option<Seq<char>> {
    let f = fields[i];
    if !valid_id(f.name) || exists|j: int| 0 <= j < i && #[trigger] fields[j].name == f.name {
        Some(bad_field_name_message())
    } else if blank(f.label) || !valid_env_name(f.environment) {
        Some(bad_field_message())
    } else {
        None
    }
}

/// The first problem among the first `n` fields.
pub open spec fn first_field_problem(fields: Seq<FieldView>, n: int) -> Option<Seq<char>>
    decreases n,
{
    if n <= 0 {
        None
    } else {
        match first_field_problem(fields, n - 1) {
            Some(m) => Some(m),
            None => field_problem(fields, n - 1),
        }
    }
}

proof fn lemma_first_field_problem_stable(fields: Seq<FieldView>, m: int, n: int)
    requires
        0 <= m <= n,
        first_field_problem(fields, m) is Some,
    ensures
        first_field_problem(fields, n) == first_field_problem(fields, m),
    decreases n - m,
{
    if m < n {
        lemma_first_field_problem_stable(fields, m, n - 1);
    }
}

/// Why a connection manifest is invalid, if it is.
pub open spec fn connection_problem(c: ConnectionView) -> Option<Seq<char>> {
    if !valid_id(c.id) {
        Some(bad_connection_id_message())
    } else if blank(c.display_name) || c.fields.len() == 0 {
        Some(empty_connection_message())
    } else {
        first_field_problem(c.fields, c.fields.len() as int)
    }
}

/// Validates a connection manifest: its identifier, its name, and each
/// field's name, label and environment variable.
pub fn validate_connection(connection: &ConnectionManifest) -> (r: Result<(), SaveError>)
    ensures
        match connection_problem(connection@) {
            None => r is Ok,
            Some(m) => r matches Err(SaveError::Invalid(s)) && s@ == m,
        },
{
    if !valid_package_id(connection.id.as_str()) {
        return Err(SaveError::Invalid("connection id must use 1-64 lowercase letters, digits, '-' or '_'".to_owned()));
    }
    if is_blank(connection.display_name.as_str()) || connection.fields.len() == 0 {
        return Err(SaveError::Invalid("connection requires a display name and at least one field".to_owned()));
    }
    let ghost fv = connection@.fields;
    let mut i: usize = 0;
    while i < connection.fields.len()
        invariant
            fv == connection@.fields,
            fv.len() == connection.fields@.len(),
            valid_id(connection@.id),
            !blank(connection@.display_name),
            fv.len() > 0,
            0 <= i <= fv.len(),
            first_field_problem(fv, i as int) is None,
        decreases fv.len() - i,
    {
        let field = &connection.fields[i];
        proof {
            assert(fv[i as int] == field@);
        }
        let mut repeated = false;
        if valid_package_id(field.name.as_str()) {
            let mut j: usize = 0;
            while j < i
                invariant
                    fv == connection@.fields,
                    fv.len() == connection.fields@.len(),
                    0 <= j <= i < fv.len(),
                    fv[i as int] == field@,
                    repeated == exists|k: int| 0 <= k < j && #[trigger] fv[k].name == field@.name,
                decreases i - j,
            {
                let other = &connection.fields[j];
                proof {
                    assert(fv[j as int] == other@);
                    assert(fv[j as int].name == other.name@);
                }
                if same_text(&other.name, &field.name) {
                    repeated = true;
                }
                j = j + 1;
            }
        }
        if !valid_package_id(field.name.as_str()) || repeated {
            proof {
                assert(field_problem(fv, i as int) == Some(bad_field_name_message()));
                lemma_first_field_problem_stable(fv, i + 1, fv.len() as int);
            }
            return Err(SaveError::Invalid("connection field names must be unique stable identifiers".to_owned()));
        }
        if is_blank(field.label.as_str()) || !is_env_name(field.environment.as_str()) {
            proof {
                lemma_first_field_problem_stable(fv, i + 1, fv.len() as int);
            }
            return Err(SaveError::Invalid("connection fields require labels and uppercase environment names".to_owned()));
        }
        i = i + 1;
    }
    Ok(())
}

/// The message of an invalid provider manifest, checked in this order:
/// format, identifier, category, names, then each connection in turn.
pub open spec fn provider_problem(p: ProviderView) -> Option<Seq<char>> {
    if p.format != provider_format() {
        Some("unsupported Provider Manifest format `"@ + p.format + "`"@)
    } else if !valid_id(p.provider_id) {
        Some("Provider ID must be a filesystem-safe identifier"@)
    } else if !valid_category_spec(p.category) {
        Some("unsupported Provider category `"@ + p.category + "`"@)
    } else if blank(p.display_name) || blank(p.summary) || blank(p.vendor) {
        Some("Provider display_name, summary and vendor must not be empty"@)
    } else {
        first_connection_problem(p.connections, p.connections.len() as int)
    }
}

/// The problem of connection `i` of a provider, if any.
pub open spec fn provider_connection_problem(cs: Seq<ConnectionView>, i: int) -> Option<Seq<char>> {
    match connection_problem(cs[i]) {
        Some(m) => Some(m),
        None => if exists|j: int| 0 <= j < i && #[trigger] cs[j].id == cs[i].id {
            Some("duplicate Provider connection `"@ + cs[i].id + "`"@)
        } else {
            None
        },
    }
}

/// The first problem among the first `n` connections of a provider.
pub open spec fn first_connection_problem(cs: Seq<ConnectionView>, n: int) -> Option<Seq<char>>
    decreases n,
{
    if n <= 0 {
        None
    } else {
        match first_connection_problem(cs, n - 1) {
            Some(m) => Some(m),
            None => provider_connection_problem(cs, n - 1),
        }
    }
}

proof fn lemma_first_connection_problem_stable(cs: Seq<ConnectionView>, m: int, n: int)
    requires
        0 <= m <= n,
        first_connection_problem(cs, m) is Some,
    ensures
        first_connection_problem(cs, n) == first_connection_problem(cs, m),
    decreases n - m,
{
    if m < n {
        lemma_first_connection_problem_stable(cs, m, n - 1);
    }
}

/// Validates a provider manifest; the error is the reason as text.
pub fn validate_provider_manifest(provider: &ProviderManifest) -> (r: Result<(), String>)
    ensures
        match provider_problem(provider@) {
            None => r is Ok,
            Some(m) => r matches Err(s) && s@ == m,
        },
{
    if !str_equal(provider.format.as_str(), "muxiva.provider/v1") {
        let mut text = "unsupported Provider Manifest format `".to_owned();
        text.append(provider.format.as_str());
        text.append("`");
        return Err(text);
    }
    if !valid_package_id(provider.provider_id.as_str()) {
        return Err("Provider ID must be a filesystem-safe identifier".to_owned());
    }
    if !valid_category(provider.category.as_str()) {
        let mut text = "unsupported Provider category `".to_owned();
        text.append(provider.category.as_str());
        text.append("`");
        return Err(text);
    }
    if is_blank(provider.display_name.as_str()) || is_blank(provider.summary.as_str()) || is_blank(
        provider.vendor.as_str(),
    ) {
        return Err("Provider display_name, summary and vendor must not be empty".to_owned());
    }
    let ghost cv = provider@.connections;
    let mut i: usize = 0;
    while i < provider.connections.len()
        invariant
            cv == provider@.connections,
            cv.len() == provider.connections@.len(),
            provider@.format == provider_format(),
            valid_id(provider@.provider_id),
            valid_category_spec(provider@.category),
            !(blank(provider@.display_name) || blank(provider@.summary) || blank(provider@.vendor)),
            0 <= i <= cv.len(),
            first_connection_problem(cv, i as int) is None,
        decreases cv.len() - i,
    {
        let connection = &provider.connections[i];
        proof {
            assert(cv[i as int] == connection@);
        }
        match validate_connection(connection) {
            Ok(()) => {},
            Err(SaveError::Invalid(message)) => {
                proof {
                    lemma_first_connection_problem_stable(cv, i + 1, cv.len() as int);
                }
                return Err(message);
            },
            Err(SaveError::Io(message)) => {
                return Err(message);
            },
        }
        let mut j: usize = 0;
        let mut repeated = false;
        while j < i
            invariant
                cv == provider@.connections,
                cv.len() == provider.connections@.len(),
                0 <= j <= i < cv.len(),
                cv[i as int] == connection@,
                repeated == exists|k: int| 0 <= k < j && #[trigger] cv[k].id == connection@.id,
            decreases i - j,
        {
            let other = &provider.connections[j];
            proof {
                assert(cv[j as int] == other@);
                assert(cv[j as int].id == other.id@);
            }
            if same_text(&other.id, &connection.id) {
                repeated = true;
            }
            j = j + 1;
        }
        if repeated {
            proof {
                lemma_first_connection_problem_stable(cv, i + 1, cv.len() as int);
            }
            let mut text = "duplicate Provider connection `".to_owned();
            text.append(connection.id.as_str());
            text.append("`");
            return Err(text);
        }
        i = i + 1;
    }
    Ok(())
}

/// The source file name of a node written in `language`.
pub open spec fn source_filename_spec(language: Seq<char>) -> Seq<char> {
    if language == "python"@ {
        "node.py"@
    } else if language == "typescript"@ {
        "node.ts"@
    } else if language == "rust"@ {
        "node.rs"@
    } else if language == "cpp"@ {
        "node.cpp"@
    } else {
        "node.txt"@
    }
}

/// Returns the source file name of a node written in `language`.
pub fn source_filename(language: &str) -> (r: &'static str)
    ensures
        r@ == source_filename_spec(language@),
{
    if str_equal(language, "python") {
        "node.py"
    } else if str_equal(language, "typescript") {
        "node.ts"
    } else if str_equal(language, "rust") {
        "node.rs"
    } else if str_equal(language, "cpp") {
        "node.cpp"
    } else {
        "node.txt"
    }
}

/// The frame type a manifest names, if it names one.
pub open spec fn frame_type_named(v: Seq<char>) -> Option<FrameType> {
    if v == "audio"@ {
        Some(FrameType::Audio)
    } else if v == "video"@ {
        Some(FrameType::Video)
    } else if v == "text"@ {
        Some(FrameType::Text)
    } else if v == "byte"@ {
        Some(FrameType::Byte)
    } else if v == "signal"@ {
        Some(FrameType::Signal)
    } else if v == "event"@ {
        Some(FrameType::Event)
    } else {
        None
    }
}

/// Parses a manifest's frame type name.
pub fn parse_frame_type(value: &str) -> (r: Result<FrameType, String>)
    ensures
        match frame_type_named(value@) {
            Some(t) => r == Ok::<FrameType, String>(t),
            None => r matches Err(s) && s@ == "unsupported Frame type `"@ + value@ + "`"@,
        },
{
    if str_equal(value, "audio") {
        Ok(FrameType::Audio)
    } else if str_equal(value, "video") {
        Ok(FrameType::Video)
    } else if str_equal(value, "text") {
        Ok(FrameType::Text)
    } else if str_equal(value, "byte") {
        Ok(FrameType::Byte)
    } else if str_equal(value, "signal") {
        Ok(FrameType::Signal)
    } else if str_equal(value, "event") {
        Ok(FrameType::Event)
    } else {
        let mut text = "unsupported Frame type `".to_owned();
        text.append(value);
        text.append("`");
        Err(text)
    }
}


/// The first of the first `n` items whose key is `k`.
pub open spec fn first_with_key<V>(items: Seq<V>, key: spec_fn(V) -> Seq<char>, k: Seq<char>, n: int) -> Option<int>
    decreases n,
{
    if n <= 0 {
        None
    } else {
        match first_with_key(items, key, k, n - 1) {
            Some(j) => Some(j),
            None => if key(items[n - 1]) == k {
                Some(n - 1)
            } else {
                None
            },
        }
    }
}

/// Item `i` differs from the first earlier item with its key.
pub open spec fn conflicts_at<V>(items: Seq<V>, key: spec_fn(V) -> Seq<char>, i: int) -> bool {
    match first_with_key(items, key, key(items[i]), i) {
        Some(j) => items[j] != items[i],
        None => false,
    }
}

/// The first of the first `n` items that conflicts with an earlier one.
pub open spec fn first_conflict<V>(items: Seq<V>, key: spec_fn(V) -> Seq<char>, n: int) -> Option<int>
    decreases n,
{
    if n <= 0 {
        None
    } else {
        match first_conflict(items, key, n - 1) {
            Some(j) => Some(j),
            None => if conflicts_at(items, key, n - 1) {
                Some(n - 1)
            } else {
                None
            },
        }
    }
}

/// `table` holds, sorted by key, exactly the first item of each key among
/// the first `n` items.
pub open spec fn merged_prefix<V>(items: Seq<V>, key: spec_fn(V) -> Seq<char>, n: int, table: Seq<V>) -> bool {
    &&& sorted_strings(table.map_values(key))
    &&& forall|t: int| 0 <= t < table.len() ==> (#[trigger] first_with_key(items, key, key(table[t]), n) matches Some(j)
        && items[j] == table[t])
    &&& forall|j: int| 0 <= j < n ==> exists|t: int| 0 <= t < table.len() && #[trigger] key(table[t]) == #[trigger] key(items[j])
}

proof fn lemma_first_with_key_stable<V>(items: Seq<V>, key: spec_fn(V) -> Seq<char>, k: Seq<char>, m: int, n: int)
    requires
        0 <= m <= n,
        first_with_key(items, key, k, m) is Some,
    ensures
        first_with_key(items, key, k, n) == first_with_key(items, key, k, m),
    decreases n - m,
{
    if m < n {
        lemma_first_with_key_stable(items, key, k, m, n - 1);
    }
}

proof fn lemma_first_with_key_found<V>(items: Seq<V>, key: spec_fn(V) -> Seq<char>, k: Seq<char>, n: int)
    requires
        first_with_key(items, key, k, n) is Some,
    ensures
        (first_with_key(items, key, k, n) matches Some(j) && 0 <= j < n && key(items[j]) == k),
    decreases n,
{
    if n > 0 && first_with_key(items, key, k, n - 1) is Some {
        lemma_first_with_key_found(items, key, k, n - 1);
    }
}

proof fn lemma_first_with_key_none<V>(items: Seq<V>, key: spec_fn(V) -> Seq<char>, k: Seq<char>, n: int)
    requires
        0 <= n <= items.len(),
        first_with_key(items, key, k, n) is None,
    ensures
        forall|j: int| 0 <= j < n ==> key(#[trigger] items[j]) != k,
    decreases n,
{
    if n > 0 {
        lemma_first_with_key_none(items, key, k, n - 1);
    }
}

proof fn lemma_first_conflict_stable<V>(items: Seq<V>, key: spec_fn(V) -> Seq<char>, m: int, n: int)
    requires
        0 <= m <= n,
        first_conflict(items, key, m) is Some,
    ensures
        first_conflict(items, key, n) == first_conflict(items, key, m),
    decreases n - m,
{
    if m < n {
        lemma_first_conflict_stable(items, key, m, n - 1);
    }
}

/// The key of a connection.
pub open spec fn connection_key() -> spec_fn(ConnectionView) -> Seq<char> {
    |c: ConnectionView| c.id
}

/// The key of a provider.
pub open spec fn provider_key() -> spec_fn(ProviderView) -> Seq<char> {
    |p: ProviderView| p.provider_id
}

/// The message for two different connections under one identifier.
pub open spec fn connection_conflict_message(id: Seq<char>) -> Seq<char> {
    "Provider packages declare conflicting connection `"@ + id + "`"@
}

/// The message for two different providers under one identifier.
pub open spec fn provider_conflict_message(id: Seq<char>) -> Seq<char> {
    "conflicting Provider Manifests for `"@ + id + "`"@
}

/// Merges the connections that packages declare, in package order: the
/// first connection of each identifier is kept, a different one under the
/// same identifier is a conflict. The result is sorted by identifier.
pub fn merge_connections(connections: Vec<ConnectionManifest>) -> (r: Result<Vec<ConnectionManifest>, String>)
    ensures
        match first_conflict(connection_views(connections@), connection_key(), connections@.len() as int) {
            Some(i) => r matches Err(s) && s@ == connection_conflict_message(connections@[i]@.id),
            None => r matches Ok(t) && merged_prefix(
                connection_views(connections@),
                connection_key(),
                connections@.len() as int,
                connection_views(t@),
            ),
        },
{
    let ghost items = connection_views(connections@);
    let ghost key = connection_key();
    let n = connections.len();
    let mut rest = connections;
    let mut keys = StringSet::new();
    let mut table: Vec<ConnectionManifest> = Vec::new();
    let mut i: usize = 0;
    proof {
        assert(rest@.subrange(0, n as int) =~= rest@);
        assert(keys@ =~= connection_views(table@).map_values(key));
    }
    while i < n
        invariant
            items == connection_views(connections@),
            items.len() == n,
            key == connection_key(),
            0 <= i <= n,
            rest@.len() == n - i,
            forall|q: int| 0 <= q < rest@.len() ==> #[trigger] rest@[q]@ == items[i + q],
            keys@ == connection_views(table@).map_values(key),
            first_conflict(items, key, i as int) is None,
            merged_prefix(items, key, i as int, connection_views(table@)),
        decreases n - i,
    {
        let c = rest.remove(0);
        let ghost tv = connection_views(table@);
        proof {
            assert(c@ == items[i as int]);
        }
        let (pos, found) = keys.locate(c.id.as_str());
        if found {
            proof {
                assert(keys@[pos as int] == tv[pos as int].id);
            }
            if !same_connection(&table[pos], &c) {
                proof {
                    assert(table@[pos as int]@ == tv[pos as int]);
                    let j = first_with_key(items, key, key(tv[pos as int]), i as int).unwrap();
                    assert(first_with_key(items, key, key(items[i as int]), i as int) == Some(j));
                    assert(conflicts_at(items, key, i as int));
                    lemma_first_conflict_stable(items, key, i + 1, n as int);
                }
                let mut text = "Provider packages declare conflicting connection `".to_owned();
                text.append(c.id.as_str());
                text.append("`");
                proof {
                    assert(text@ == connection_conflict_message(items[i as int].id));
                    assert(first_conflict(items, key, n as int) == Some(i as int));
                }
                return Err(text);
            }
            proof {
                assert(table@[pos as int]@ == tv[pos as int]);
                let j = first_with_key(items, key, key(tv[pos as int]), i as int).unwrap();
                assert(first_with_key(items, key, key(items[i as int]), i as int) == Some(j));
                assert(!conflicts_at(items, key, i as int));
                assert forall|t: int| 0 <= t < tv.len() implies (#[trigger] first_with_key(items, key, key(tv[t]), i + 1) matches Some(x)
                    && items[x] == tv[t]) by {
                    assert(first_with_key(items, key, key(tv[t]), i as int) is Some);
                    lemma_first_with_key_stable(items, key, key(tv[t]), i as int, i + 1);
                }
                assert forall|x: int| 0 <= x < i + 1 implies exists|t: int| 0 <= t < tv.len() && #[trigger] key(tv[t]) == #[trigger] key(items[x]) by {
                    if x == i {
                        assert(key(tv[pos as int]) == key(items[x]));
                    }
                }
            }
        } else {
            proof {
                crate::bytes_order::lemma_lex_irreflexive(crate::string_set::utf8(c@.id));
                if first_with_key(items, key, c@.id, i as int) is Some {
                    lemma_first_with_key_found(items, key, c@.id, i as int);
                    let j = first_with_key(items, key, c@.id, i as int).unwrap();
                    let t = choose|t: int| 0 <= t < tv.len() && #[trigger] key(tv[t]) == #[trigger] key(items[j]);
                    assert(keys@[t] == c@.id);
                    if t < pos {
                        assert(crate::bytes_order::lex_lt(crate::string_set::utf8(keys@[t]), crate::string_set::utf8(c@.id)));
                    } else {
                        assert(crate::bytes_order::lex_lt(crate::string_set::utf8(c@.id), crate::string_set::utf8(keys@[t])));
                    }
                }
                assert(first_with_key(items, key, key(items[i as int]), i as int) is None);
                assert(!conflicts_at(items, key, i as int));
            }
            let id = c.id.clone();
            keys.insert_at(pos, id);
            table.insert(pos, c);
            proof {
                let tv2 = connection_views(table@);
                assert(tv2 =~= tv.insert(pos as int, items[i as int]));
                assert(keys@ =~= tv2.map_values(key));
                assert forall|t: int| 0 <= t < tv2.len() implies (#[trigger] first_with_key(items, key, key(tv2[t]), i + 1) matches Some(x)
                    && items[x] == tv2[t]) by {
                    if t == pos {
                        assert(tv2[t] == items[i as int]);
                    } else {
                        let t0 = if t < pos { t } else { t - 1 };
                        assert(tv2[t] == tv[t0]);
                        assert(first_with_key(items, key, key(tv[t0]), i as int) is Some);
                        lemma_first_with_key_stable(items, key, key(tv[t0]), i as int, i + 1);
                    }
                }
                assert forall|x: int| 0 <= x < i + 1 implies exists|t: int| 0 <= t < tv2.len() && #[trigger] key(tv2[t]) == #[trigger] key(items[x]) by {
                    if x == i {
                        assert(key(tv2[pos as int]) == key(items[x]));
                    } else {
                        let t = choose|t: int| 0 <= t < tv.len() && #[trigger] key(tv[t]) == #[trigger] key(items[x]);
                        if t < pos {
                            assert(tv2[t] == tv[t]);
                        } else {
                            assert(tv2[t + 1] == tv[t]);
                        }
                    }
                }
            }
        }
        proof {
            assert forall|q: int| 0 <= q < rest@.len() implies #[trigger] rest@[q]@ == items[i + 1 + q] by {
            }
        }
        i = i + 1;
    }
    Ok(table)
}


/// The views of a sequence of providers.
pub open spec fn provider_views(providers: Seq<ProviderManifest>) -> Seq<ProviderView> {
    providers.map_values(|p: ProviderManifest| p@)
}

/// The provider catalog: the providers that packages declare, in package
/// order; the first provider of each identifier is kept, a different one
/// under the same identifier is a conflict. The result is sorted by
/// identifier.
pub fn provider_catalog(providers: Vec<ProviderManifest>) -> (r: Result<Vec<ProviderManifest>, String>)
    ensures
        match first_conflict(provider_views(providers@), provider_key(), providers@.len() as int) {
            Some(i) => r matches Err(s) && s@ == provider_conflict_message(providers@[i]@.provider_id),
            None => r matches Ok(t) && merged_prefix(
                provider_views(providers@),
                provider_key(),
                providers@.len() as int,
                provider_views(t@),
            ),
        },
{
    let ghost items = provider_views(providers@);
    let ghost key = provider_key();
    let n = providers.len();
    let mut rest = providers;
    let mut keys = StringSet::new();
    let mut table: Vec<ProviderManifest> = Vec::new();
    let mut i: usize = 0;
    proof {
        assert(rest@.subrange(0, n as int) =~= rest@);
        assert(keys@ =~= provider_views(table@).map_values(key));
    }
    while i < n
        invariant
            items == provider_views(providers@),
            items.len() == n,
            key == provider_key(),
            0 <= i <= n,
            rest@.len() == n - i,
            forall|q: int| 0 <= q < rest@.len() ==> #[trigger] rest@[q]@ == items[i + q],
            keys@ == provider_views(table@).map_values(key),
            first_conflict(items, key, i as int) is None,
            merged_prefix(items, key, i as int, provider_views(table@)),
        decreases n - i,
    {
        let c = rest.remove(0);
        let ghost tv = provider_views(table@);
        proof {
            assert(c@ == items[i as int]);
        }
        let (pos, found) = keys.locate(c.provider_id.as_str());
        if found {
            proof {
                assert(keys@[pos as int] == tv[pos as int].provider_id);
            }
            if !same_provider(&table[pos], &c) {
                proof {
                    assert(table@[pos as int]@ == tv[pos as int]);
                    let j = first_with_key(items, key, key(tv[pos as int]), i as int).unwrap();
                    assert(first_with_key(items, key, key(items[i as int]), i as int) == Some(j));
                    assert(conflicts_at(items, key, i as int));
                    lemma_first_conflict_stable(items, key, i + 1, n as int);
                }
                let mut text = "conflicting Provider Manifests for `".to_owned();
                text.append(c.provider_id.as_str());
                text.append("`");
                proof {
                    assert(text@ == provider_conflict_message(items[i as int].provider_id));
                    assert(first_conflict(items, key, n as int) == Some(i as int));
                }
                return Err(text);
            }
            proof {
                assert(table@[pos as int]@ == tv[pos as int]);
                let j = first_with_key(items, key, key(tv[pos as int]), i as int).unwrap();
                assert(first_with_key(items, key, key(items[i as int]), i as int) == Some(j));
                assert(!conflicts_at(items, key, i as int));
                assert forall|t: int| 0 <= t < tv.len() implies (#[trigger] first_with_key(items, key, key(tv[t]), i + 1) matches Some(x)
                    && items[x] == tv[t]) by {
                    assert(first_with_key(items, key, key(tv[t]), i as int) is Some);
                    lemma_first_with_key_stable(items, key, key(tv[t]), i as int, i + 1);
                }
                assert forall|x: int| 0 <= x < i + 1 implies exists|t: int| 0 <= t < tv.len() && #[trigger] key(tv[t]) == #[trigger] key(items[x]) by {
                    if x == i {
                        assert(key(tv[pos as int]) == key(items[x]));
                    }
                }
            }
        } else {
            proof {
                crate::bytes_order::lemma_lex_irreflexive(crate::string_set::utf8(c@.provider_id));
                if first_with_key(items, key, c@.provider_id, i as int) is Some {
                    lemma_first_with_key_found(items, key, c@.provider_id, i as int);
                    let j = first_with_key(items, key, c@.provider_id, i as int).unwrap();
                    let t = choose|t: int| 0 <= t < tv.len() && #[trigger] key(tv[t]) == #[trigger] key(items[j]);
                    assert(keys@[t] == c@.provider_id);
                    if t < pos {
                        assert(crate::bytes_order::lex_lt(crate::string_set::utf8(keys@[t]), crate::string_set::utf8(c@.provider_id)));
                    } else {
                        assert(crate::bytes_order::lex_lt(crate::string_set::utf8(c@.provider_id), crate::string_set::utf8(keys@[t])));
                    }
                }
                assert(first_with_key(items, key, key(items[i as int]), i as int) is None);
                assert(!conflicts_at(items, key, i as int));
            }
            let id = c.provider_id.clone();
            keys.insert_at(pos, id);
            table.insert(pos, c);
            proof {
                let tv2 = provider_views(table@);
                assert(tv2 =~= tv.insert(pos as int, items[i as int]));
                assert(keys@ =~= tv2.map_values(key));
                assert forall|t: int| 0 <= t < tv2.len() implies (#[trigger] first_with_key(items, key, key(tv2[t]), i + 1) matches Some(x)
                    && items[x] == tv2[t]) by {
                    if t == pos {
                        assert(tv2[t] == items[i as int]);
                    } else {
                        let t0 = if t < pos { t } else { t - 1 };
                        assert(tv2[t] == tv[t0]);
                        assert(first_with_key(items, key, key(tv[t0]), i as int) is Some);
                        lemma_first_with_key_stable(items, key, key(tv[t0]), i as int, i + 1);
                    }
                }
                assert forall|x: int| 0 <= x < i + 1 implies exists|t: int| 0 <= t < tv2.len() && #[trigger] key(tv2[t]) == #[trigger] key(items[x]) by {
                    if x == i {
                        assert(key(tv2[pos as int]) == key(items[x]));
                    } else {
                        let t = choose|t: int| 0 <= t < tv.len() && #[trigger] key(tv[t]) == #[trigger] key(items[x]);
                        if t < pos {
                            assert(tv2[t] == tv[t]);
                        } else {
                            assert(tv2[t + 1] == tv[t]);
                        }
                    }
                }
            }
        }
        proof {
            assert forall|q: int| 0 <= q < rest@.len() implies #[trigger] rest@[q]@ == items[i + 1 + q] by {
            }
        }
        i = i + 1;
    }
    Ok(table)
}


/// The index of the first non-whitespace character at or after `i`.
pub open spec fn trim_start_index(s: Seq<char>, i: int) -> int
    decreases s.len() - i,
{
    if i >= s.len() || i < 0 {
        i
    } else if is_unicode_whitespace(s[i]) {
        trim_start_index(s, i + 1)
    } else {
        i
    }
}

/// The end of the text before the trailing whitespace at or before `j`.
pub open spec fn trim_end_index(s: Seq<char>, j: int) -> int
    decreases j,
{
    if j <= 0 {
        0
    } else if is_unicode_whitespace(s[j - 1]) {
        trim_end_index(s, j - 1)
    } else {
        j
    }
}

/// The text without leading and trailing whitespace, as `str::trim`.
pub open spec fn trimmed(s: Seq<char>) -> Seq<char> {
    let a = trim_start_index(s, 0);
    let b = trim_end_index(s, s.len() as int);
    if a >= b {
        Seq::empty()
    } else {
        s.subrange(a, b)
    }
}

/// Removes leading and trailing whitespace.
pub fn trim_text(value: &str) -> (r: String)
    ensures
        r@ == trimmed(value@),
{
    let n = value.unicode_len();
    let mut a: usize = 0;
    while a < n && crate::registry::is_whitespace_char(value.get_char(a))
        invariant
            n == value@.len(),
            0 <= a <= n,
            trim_start_index(value@, 0) == trim_start_index(value@, a as int),
        decreases n - a,
    {
        a = a + 1;
    }
    let mut b: usize = n;
    while b > 0 && crate::registry::is_whitespace_char(value.get_char(b - 1))
        invariant
            n == value@.len(),
            0 <= b <= n,
            trim_end_index(value@, n as int) == trim_end_index(value@, b as int),
        decreases b,
    {
        b = b - 1;
    }
    if a >= b {
        String::new()
    } else {
        value.substring_char(a, b).to_owned()
    }
}

/// The most bytes one connection value may hold.
pub const MAX_CONNECTION_VALUE_BYTES: usize = 16384;

/// The data of a connection store: the merged manifests and the stored
/// values, each keyed by connection and field.
pub struct StoreView {
    pub manifests: Seq<ConnectionView>,
    pub values: Seq<(Seq<char>, Seq<char>, Seq<char>)>,
}

/// The first stored value among the first `n` entries for a connection
/// field.
pub open spec fn stored_value(
    values: Seq<(Seq<char>, Seq<char>, Seq<char>)>,
    connection_id: Seq<char>,
    field: Seq<char>,
    n: int,
) -> Option<Seq<char>>
    decreases n,
{
    if n <= 0 {
        None
    } else {
        match stored_value(values, connection_id, field, n - 1) {
            Some(v) => Some(v),
            None => if values[n - 1].0 == connection_id && values[n - 1].1 == field {
                Some(values[n - 1].2)
            } else {
                None
            },
        }
    }
}

/// The value stored for a connection field, if any.
pub open spec fn value_of(s: StoreView, connection_id: Seq<char>, field: Seq<char>) -> Option<Seq<char>> {
    stored_value(s.values, connection_id, field, s.values.len() as int)
}

/// A field is configured when it holds a non-empty value.
pub open spec fn field_configured(s: StoreView, connection_id: Seq<char>, field: Seq<char>) -> bool {
    value_of(s, connection_id, field) matches Some(v) && v.len() > 0
}

/// Storing `v` for a connection field: every later lookup of that field
/// reads `v`, every other field reads what it read before.
pub open spec fn stores(before: StoreView, after: StoreView, connection_id: Seq<char>, field: Seq<char>, v: Seq<char>) -> bool {
    &&& after.manifests == before.manifests
    &&& value_of(after, connection_id, field) == Some(v)
    &&& forall|c: Seq<char>, f: Seq<char>| !(c == connection_id && f == field) ==> #[trigger] value_of(after, c, f)
        == value_of(before, c, f)
}

/// The manifests a project uses and the values configured for them.
#[derive(Debug)]
pub struct ConnectionStore {
    manifests: Vec<ConnectionManifest>,
    values: Vec<(String, String, String)>,
}

/// The views of stored values.
pub open spec fn value_views(values: Seq<(String, String, String)>) -> Seq<(Seq<char>, Seq<char>, Seq<char>)> {
    values.map_values(|e: (String, String, String)| (e.0@, e.1@, e.2@))
}

impl View for ConnectionStore {
    type V = StoreView;

    closed spec fn view(&self) -> StoreView {
        StoreView { manifests: connection_views(self.manifests@), values: value_views(self.values@) }
    }
}

proof fn lemma_stored_value_push(
    values: Seq<(Seq<char>, Seq<char>, Seq<char>)>,
    e: (Seq<char>, Seq<char>, Seq<char>),
    c: Seq<char>,
    f: Seq<char>,
    n: int,
)
    requires
        0 <= n <= values.len(),
    ensures
        stored_value(values.push(e), c, f, n) == stored_value(values, c, f, n),
    decreases n,
{
    if n > 0 {
        lemma_stored_value_push(values, e, c, f, n - 1);
    }
}

proof fn lemma_stored_value_update(
    values: Seq<(Seq<char>, Seq<char>, Seq<char>)>,
    k: int,
    e: (Seq<char>, Seq<char>, Seq<char>),
    c: Seq<char>,
    f: Seq<char>,
    n: int,
)
    requires
        0 <= k < values.len(),
        0 <= n <= values.len(),
        e.0 == values[k].0 && e.1 == values[k].1,
        stored_value(values, values[k].0, values[k].1, k) is None,
    ensures
        !(c == e.0 && f == e.1) ==> stored_value(values.update(k, e), c, f, n) == stored_value(values, c, f, n),
        (c == e.0 && f == e.1 && n > k) ==> stored_value(values.update(k, e), c, f, n) == Some(e.2),
    decreases n,
{
    if n > 0 {
        lemma_stored_value_update(values, k, e, c, f, n - 1);
        if c == e.0 && f == e.1 && n - 1 > k {
            assert(stored_value(values.update(k, e), c, f, n - 1) == Some(e.2));
        }
        if c == e.0 && f == e.1 && n - 1 == k {
            lemma_stored_value_prefix(values, k, e, c, f, k);
        }
    }
}

proof fn lemma_stored_value_prefix(
    values: Seq<(Seq<char>, Seq<char>, Seq<char>)>,
    k: int,
    e: (Seq<char>, Seq<char>, Seq<char>),
    c: Seq<char>,
    f: Seq<char>,
    m: int,
)
    requires
        0 <= m <= k < values.len(),
    ensures
        stored_value(values.update(k, e), c, f, m) == stored_value(values, c, f, m),
    decreases m,
{
    if m > 0 {
        lemma_stored_value_prefix(values, k, e, c, f, m - 1);
    }
}

proof fn lemma_stored_value_first(
    values: Seq<(Seq<char>, Seq<char>, Seq<char>)>,
    c: Seq<char>,
    f: Seq<char>,
    m: int,
    n: int,
)
    requires
        0 <= m <= n,
        stored_value(values, c, f, m) is Some,
    ensures
        stored_value(values, c, f, n) == stored_value(values, c, f, m),
    decreases n - m,
{
    if m < n {
        lemma_stored_value_first(values, c, f, m, n - 1);
    }
}

proof fn lemma_stored_value_none(
    values: Seq<(Seq<char>, Seq<char>, Seq<char>)>,
    c: Seq<char>,
    f: Seq<char>,
    n: int,
)
    requires
        0 <= n <= values.len(),
        forall|k: int| 0 <= k < n ==> !(#[trigger] values[k].0 == c && values[k].1 == f),
    ensures
        stored_value(values, c, f, n) is None,
    decreases n,
{
    if n > 0 {
        lemma_stored_value_none(values, c, f, n - 1);
    }
}

/// The message of an update to a connection nobody declared.
pub open spec fn unknown_connection_message(id: Seq<char>) -> Seq<char> {
    "unknown connection `"@ + id + "`"@
}

/// The message for a request field whose value is not a string: the
/// problem of a field that names nothing declared, else the type error.
pub open spec fn not_string_message(problem: Option<Seq<char>>, id: Seq<char>, name: Seq<char>) -> Seq<char> {
    match problem {
        Some(m) => m,
        None => "field `"@ + id + "."@ + name + "` must be a string"@,
    }
}

/// The message of an update to a field the connection does not declare.
pub open spec fn unknown_field_message(id: Seq<char>, name: Seq<char>) -> Seq<char> {
    "unknown field `"@ + id + "."@ + name + "`"@
}

/// The message of a value that is too long.
pub open spec fn too_long_message(id: Seq<char>, name: Seq<char>) -> Seq<char> {
    "field `"@ + id + "."@ + name + "` exceeds 16 KiB"@
}

/// The message of a value with a NUL or a line break.
pub open spec fn bad_value_message(id: Seq<char>, name: Seq<char>) -> Seq<char> {
    "field `"@ + id + "."@ + name + "` cannot contain NUL or a line break"@
}

/// The first connection with identifier `id`, if any.
pub open spec fn connection_named(ms: Seq<ConnectionView>, id: Seq<char>) -> Option<int> {
    first_with_key(ms, connection_key(), id, ms.len() as int)
}

/// The key of a field.
pub open spec fn field_key() -> spec_fn(FieldView) -> Seq<char> {
    |f: FieldView| f.name
}

/// The outcome of updating one field: the rejection, or the value stored,
/// or `None` when a blank secret leaves the field as it was.
pub enum UpdateOutcome {
    Rejected(Seq<char>),
    Stored(Seq<char>),
    Kept,
}

/// What an update of `connection_id.name` to `value` does.
pub open spec fn update_spec(s: StoreView, connection_id: Seq<char>, name: Seq<char>, value: Seq<char>) -> UpdateOutcome {
    match connection_named(s.manifests, connection_id) {
        None => UpdateOutcome::Rejected(unknown_connection_message(connection_id)),
        Some(ci) => {
            let fields = s.manifests[ci].fields;
            match first_with_key(fields, field_key(), name, fields.len() as int) {
                None => UpdateOutcome::Rejected(unknown_field_message(connection_id, name)),
                Some(fi) => if vstd::utf8::encode_utf8(value).len() > MAX_CONNECTION_VALUE_BYTES {
                    UpdateOutcome::Rejected(too_long_message(connection_id, name))
                } else if value.contains('\0') || value.contains('\n') || value.contains('\r') {
                    UpdateOutcome::Rejected(bad_value_message(connection_id, name))
                } else if fields[fi].secret && value.len() == 0 {
                    UpdateOutcome::Kept
                } else {
                    UpdateOutcome::Stored(trimmed(value))
                },
            }
        },
    }
}


fn has_nul_or_break(value: &str) -> (r: bool)
    ensures
        r == (value@.contains('\0') || value@.contains('\n') || value@.contains('\r')),
{
    broadcast use vstd::string::group_string_axioms;

    let mut found = false;
    for c in iter: value.chars()
        invariant
            iter.seq() == value@,
            found == exists|k: int| 0 <= k < iter.index() && (value@[k] == '\0' || value@[k] == '\n' || value@[k] == '\r'),
    {
        if c == '\0' || c == '\n' || c == '\r' {
            found = true;
        }
    }
    found
}

/// The missing required fields of connection `c`, among its first `n`
/// fields, as `<connection> / <label> (<environment>)`.
pub open spec fn missing_fields(s: StoreView, c: ConnectionView, n: int) -> Seq<Seq<char>>
    decreases n,
{
    if n <= 0 {
        Seq::empty()
    } else {
        let f = c.fields[n - 1];
        let earlier = missing_fields(s, c, n - 1);
        if f.required && !field_configured(s, c.id, f.name) {
            earlier.push(c.display_name + " / "@ + f.label + " ("@ + f.environment + ")"@)
        } else {
            earlier
        }
    }
}

/// The missing required fields of the first `n` connections whose
/// identifier is in `ids`, in manifest and field order.
pub open spec fn missing_required(s: StoreView, ids: Set<Seq<char>>, n: int) -> Seq<Seq<char>>
    decreases n,
{
    if n <= 0 {
        Seq::empty()
    } else {
        let c = s.manifests[n - 1];
        if ids.contains(c.id) {
            missing_required(s, ids, n - 1) + missing_fields(s, c, c.fields.len() as int)
        } else {
            missing_required(s, ids, n - 1)
        }
    }
}

/// The `(environment variable, value)` pairs of the first `n` fields of
/// connection `c` that hold a value, in field order.
pub open spec fn field_assignments(s: StoreView, c: ConnectionView, n: int) -> Seq<(Seq<char>, Seq<char>)>
    decreases n,
{
    if n <= 0 {
        Seq::empty()
    } else {
        let f = c.fields[n - 1];
        match value_of(s, c.id, f.name) {
            Some(v) => field_assignments(s, c, n - 1).push((f.environment, v)),
            None => field_assignments(s, c, n - 1),
        }
    }
}

/// The environment assignments of the first `n` connections, in manifest
/// and field order.
pub open spec fn environment_assignments(s: StoreView, n: int) -> Seq<(Seq<char>, Seq<char>)>
    decreases n,
{
    if n <= 0 {
        Seq::empty()
    } else {
        let c = s.manifests[n - 1];
        environment_assignments(s, n - 1) + field_assignments(s, c, c.fields.len() as int)
    }
}

/// The `(field, value)` pairs of the first `n` fields of connection `c`
/// that a browser client may see and that hold a value.
pub open spec fn client_fields(s: StoreView, c: ConnectionView, n: int) -> Seq<(Seq<char>, Seq<char>)>
    decreases n,
{
    if n <= 0 {
        Seq::empty()
    } else {
        let f = c.fields[n - 1];
        match value_of(s, c.id, f.name) {
            Some(v) => if f.client_exposed {
                client_fields(s, c, n - 1).push((f.name, v))
            } else {
                client_fields(s, c, n - 1)
            },
            None => client_fields(s, c, n - 1),
        }
    }
}

/// The client-visible values of the first `n` connections, each with at
/// least one value, as `(connection, fields)`.
pub open spec fn client_connections(s: StoreView, n: int) -> Seq<(Seq<char>, Seq<(Seq<char>, Seq<char>)>)>
    decreases n,
{
    if n <= 0 {
        Seq::empty()
    } else {
        let c = s.manifests[n - 1];
        let fields = client_fields(s, c, c.fields.len() as int);
        if fields.len() > 0 {
            client_connections(s, n - 1).push((c.id, fields))
        } else {
            client_connections(s, n - 1)
        }
    }
}

/// The views of text pairs.
pub open spec fn text_pairs(ps: Seq<(String, String)>) -> Seq<(Seq<char>, Seq<char>)> {
    ps.map_values(|p: (String, String)| (p.0@, p.1@))
}

/// The views of client connection values.
pub open spec fn client_views(cs: Seq<(String, Vec<(String, String)>)>) -> Seq<(Seq<char>, Seq<(Seq<char>, Seq<char>)>)> {
    cs.map_values(|c: (String, Vec<(String, String)>)| (c.0@, text_pairs(c.1@)))
}

impl ConnectionStore {
    /// A store of the merged manifests with no values.
    pub fn new(connections: Vec<ConnectionManifest>) -> (r: Result<Self, String>)
        ensures
            match first_conflict(connection_views(connections@), connection_key(), connections@.len() as int) {
                Some(i) => r matches Err(s) && s@ == connection_conflict_message(connections@[i]@.id),
                None => r matches Ok(store) && merged_prefix(
                    connection_views(connections@),
                    connection_key(),
                    connections@.len() as int,
                    store@.manifests,
                ) && store@.values.len() == 0,
            },
    {
        match merge_connections(connections) {
            Ok(manifests) => {
                let store = ConnectionStore { manifests, values: Vec::new() };
                proof {
                    assert(store@.values =~= Seq::<(Seq<char>, Seq<char>, Seq<char>)>::empty());
                }
                Ok(store)
            },
            Err(message) => Err(message),
        }
    }

    /// The merged manifests, sorted by identifier.
    pub fn manifests(&self) -> (r: &[ConnectionManifest])
        ensures
            connection_views(r@) == self@.manifests,
    {
        self.manifests.as_slice()
    }

    /// The value stored for a connection field.
    pub fn value(&self, connection_id: &str, field: &str) -> (r: Option<&str>)
        ensures
            match r {
                Some(v) => value_of(self@, connection_id@, field@) == Some(v@),
                None => value_of(self@, connection_id@, field@) is None,
            },
    {
        let ghost vv = self@.values;
        let mut k: usize = 0;
        while k < self.values.len()
            invariant
                vv == self@.values,
                vv.len() == self.values@.len(),
                0 <= k <= vv.len(),
                stored_value(vv, connection_id@, field@, k as int) is None,
            decreases vv.len() - k,
        {
            let e = &self.values[k];
            proof {
                assert(vv[k as int] == (e.0@, e.1@, e.2@));
            }
            if str_equal(e.0.as_str(), connection_id) && str_equal(e.1.as_str(), field) {
                proof {
                    lemma_stored_value_first(vv, connection_id@, field@, k + 1, vv.len() as int);
                }
                return Some(e.2.as_str());
            }
            k = k + 1;
        }
        None
    }

    fn set_value(&mut self, connection_id: String, field: String, value: String)
        ensures
            stores(old(self)@, final(self)@, connection_id@, field@, value@),
    {
        let ghost before = self@;
        let ghost vv = self@.values;
        let mut k: usize = 0;
        while k < self.values.len()
            invariant
                vv == self@.values,
                vv == before.values,
                before == old(self)@,
                self@.manifests == before.manifests,
                vv.len() == self.values@.len(),
                0 <= k <= vv.len(),
                forall|x: int| 0 <= x < k ==> !(#[trigger] vv[x].0 == connection_id@ && vv[x].1 == field@),
            decreases vv.len() - k,
        {
            let e = &self.values[k];
            proof {
                assert(vv[k as int] == (e.0@, e.1@, e.2@));
            }
            if str_equal(e.0.as_str(), connection_id.as_str()) && str_equal(e.1.as_str(), field.as_str()) {
                let ghost entry = (connection_id@, field@, value@);
                proof {
                    lemma_stored_value_none(vv, connection_id@, field@, k as int);
                }
                self.values.set(k, (connection_id, field, value));
                proof {
                    assert(self@.manifests =~= before.manifests);
                    assert(self@.values =~= vv.update(k as int, entry));
                    assert forall|c: Seq<char>, f: Seq<char>| !(c == entry.0 && f == entry.1) implies #[trigger] value_of(self@, c, f)
                        == value_of(before, c, f) by {
                        lemma_stored_value_update(vv, k as int, entry, c, f, vv.len() as int);
                    }
                    lemma_stored_value_update(vv, k as int, entry, entry.0, entry.1, vv.len() as int);
                }
                return;
            }
            k = k + 1;
        }
        let ghost entry = (connection_id@, field@, value@);
        self.values.push((connection_id, field, value));
        proof {
            assert(self@.manifests =~= before.manifests);
            assert(self@.values =~= vv.push(entry));
            lemma_stored_value_none(vv, entry.0, entry.1, vv.len() as int);
            assert forall|c: Seq<char>, f: Seq<char>| !(c == entry.0 && f == entry.1) implies #[trigger] value_of(self@, c, f)
                == value_of(before, c, f) by {
                lemma_stored_value_push(vv, entry, c, f, vv.len() as int);
            }
            lemma_stored_value_push(vv, entry, entry.0, entry.1, vv.len() as int);
        }
    }

    /// Records a value resolved when the project loads; an empty value is
    /// not stored.
    pub fn load_value(&mut self, connection_id: String, field: String, value: String)
        ensures
            value@.len() == 0 ==> final(self)@ == old(self)@,
            value@.len() > 0 ==> stores(old(self)@, final(self)@, connection_id@, field@, value@),
    {
        if value.as_str().unicode_len() > 0 {
            self.set_value(connection_id, field, value);
        }
    }

    fn find_connection(&self, connection_id: &str) -> (r: Option<usize>)
        ensures
            match connection_named(self@.manifests, connection_id@) {
                Some(i) => r is Some && r.unwrap() == i && i < self@.manifests.len(),
                None => r is None,
            },
    {
        let ghost ms = self@.manifests;
        let mut i: usize = 0;
        while i < self.manifests.len()
            invariant
                ms == self@.manifests,
                ms.len() == self.manifests@.len(),
                0 <= i <= ms.len(),
                first_with_key(ms, connection_key(), connection_id@, i as int) is None,
            decreases ms.len() - i,
        {
            proof {
                assert(ms[i as int] == self.manifests@[i as int]@);
            }
            if str_equal(self.manifests[i].id.as_str(), connection_id) {
                proof {
                    lemma_first_with_key_stable(ms, connection_key(), connection_id@, i + 1, ms.len() as int);
                }
                return Some(i);
            }
            i = i + 1;
        }
        None
    }

    /// Why a field of a configuration request names nothing declared: an
    /// unknown connection, then a field the connection does not declare.
    pub open spec fn spec_declared_problem(&self, connection_id: Seq<char>, name: Seq<char>) -> Option<Seq<char>> {
        match update_spec(self@, connection_id, name, Seq::empty()) {
            UpdateOutcome::Rejected(m) => if m == unknown_connection_message(connection_id) || m == unknown_field_message(
                connection_id,
                name,
            ) {
                Some(m)
            } else {
                None
            },
            _ => None,
        }
    }

    /// Checks one connection of a configuration request before its fields:
    /// it must be declared, and its update must be an object.
    pub fn check_connection_update(&self, connection_id: &str, is_object: bool) -> (r: Result<(), String>)
        ensures
            connection_named(self@.manifests, connection_id@) is None ==> (r matches Err(m) && m@
                == unknown_connection_message(connection_id@)),
            connection_named(self@.manifests, connection_id@) is Some && !is_object ==> (r matches Err(m) && m@
                == "connection `"@ + connection_id@ + "` must be an object"@),
            connection_named(self@.manifests, connection_id@) is Some && is_object ==> r is Ok,
    {
        match self.find_connection(connection_id) {
            None => {
                let mut text = "unknown connection `".to_owned();
                text.append(connection_id);
                text.append("`");
                Err(text)
            },
            Some(_) => if is_object {
                Ok(())
            } else {
                let mut text = "connection `".to_owned();
                text.append(connection_id);
                text.append("` must be an object");
                Err(text)
            },
        }
    }

    /// Applies one field of a configuration request whose value is `value`
    /// when it is a string: a field that is not declared is refused as
    /// `update_field` refuses it, then a value that is not a string is
    /// refused; a string value is applied by `update_field`.
    pub fn update_field_value(&mut self, connection_id: &str, name: &str, value: Option<&str>) -> (r: Result<(), String>)
        ensures
            match value {
                Some(v) => match update_spec(old(self)@, connection_id@, name@, v@) {
                    UpdateOutcome::Rejected(m) => r matches Err(s) && s@ == m && final(self)@ == old(self)@,
                    UpdateOutcome::Kept => r is Ok && final(self)@ == old(self)@,
                    UpdateOutcome::Stored(x) => r is Ok && stores(old(self)@, final(self)@, connection_id@, name@, x),
                },
                None => final(self)@ == old(self)@ && (r matches Err(s) && s@ == not_string_message(
                    old(self).spec_declared_problem(connection_id@, name@),
                    connection_id@,
                    name@,
                )),
            },
    {
        match value {
            Some(v) => self.update_field(connection_id, name, v),
            None => {
                let ci = match self.find_connection(connection_id) {
                    Some(ci) => ci,
                    None => {
                        let mut text = "unknown connection `".to_owned();
                        text.append(connection_id);
                        text.append("`");
                        return Err(text);
                    },
                };
                let ghost fields = self@.manifests[ci as int].fields;
                let connection = &self.manifests[ci];
                proof {
                    assert(self@.manifests[ci as int] == connection@);
                }
                let mut fi: usize = 0;
                let mut found = false;
                while fi < connection.fields.len() && !found
                    invariant
                        fields == connection@.fields,
                        fields.len() == connection.fields@.len(),
                        0 <= fi <= fields.len(),
                        !found ==> first_with_key(fields, field_key(), name@, fi as int) is None,
                        found ==> fi < fields.len() && first_with_key(fields, field_key(), name@, fields.len() as int)
                            == Some(fi as int),
                    decreases fields.len() - fi + if found { 0int } else { 1int },
                {
                    proof {
                        assert(fields[fi as int] == connection.fields@[fi as int]@);
                    }
                    if str_equal(connection.fields[fi].name.as_str(), name) {
                        proof {
                            lemma_first_with_key_stable(fields, field_key(), name@, fi + 1, fields.len() as int);
                        }
                        found = true;
                    } else {
                        fi = fi + 1;
                    }
                }
                let mut text = if found {
                    "field `".to_owned()
                } else {
                    "unknown field `".to_owned()
                };
                text.append(connection_id);
                text.append(".");
                text.append(name);
                if found {
                    text.append("` must be a string");
                } else {
                    text.append("`");
                }
                proof {
                    if found {
                        let m = update_spec(self@, connection_id@, name@, Seq::empty());
                        assert(m matches UpdateOutcome::Kept || m matches UpdateOutcome::Stored(_));
                    } else {
                        let m = unknown_field_message(connection_id@, name@);
                        assert(update_spec(self@, connection_id@, name@, Seq::empty()) == UpdateOutcome::Rejected(m));
                    }
                }
                Err(text)
            },
        }
    }

    /// Updates one field from a configuration request: the connection and
    /// field must be declared, the value at most 16 KiB and free of NUL and
    /// line breaks; a blank secret keeps the stored secret; otherwise the
    /// trimmed value is stored.
    pub fn update_field(&mut self, connection_id: &str, name: &str, value: &str) -> (r: Result<(), String>)
        ensures
            match update_spec(old(self)@, connection_id@, name@, value@) {
                UpdateOutcome::Rejected(m) => r matches Err(s) && s@ == m && final(self)@ == old(self)@,
                UpdateOutcome::Kept => r is Ok && final(self)@ == old(self)@,
                UpdateOutcome::Stored(v) => r is Ok && stores(old(self)@, final(self)@, connection_id@, name@, v),
            },
    {
        let ci = match self.find_connection(connection_id) {
            Some(ci) => ci,
            None => {
                let mut text = "unknown connection `".to_owned();
                text.append(connection_id);
                text.append("`");
                return Err(text);
            },
        };
        let ghost fields = self@.manifests[ci as int].fields;
        let connection = &self.manifests[ci];
        proof {
            assert(self@.manifests[ci as int] == connection@);
        }
        let mut fi: usize = 0;
        let mut found = false;
        while fi < connection.fields.len() && !found
            invariant
                fields == connection@.fields,
                fields.len() == connection.fields@.len(),
                0 <= fi <= fields.len(),
                !found ==> first_with_key(fields, field_key(), name@, fi as int) is None,
                found ==> fi < fields.len() && first_with_key(fields, field_key(), name@, fields.len() as int) == Some(
                    fi as int,
                ),
            decreases fields.len() - fi + if found { 0int } else { 1int },
        {
            proof {
                assert(fields[fi as int] == connection.fields@[fi as int]@);
            }
            if str_equal(connection.fields[fi].name.as_str(), name) {
                proof {
                    lemma_first_with_key_stable(fields, field_key(), name@, fi + 1, fields.len() as int);
                }
                found = true;
            } else {
                fi = fi + 1;
            }
        }
        if !found {
            let mut text = "unknown field `".to_owned();
            text.append(connection_id);
            text.append(".");
            text.append(name);
            text.append("`");
            return Err(text);
        }
        if value.as_bytes().len() > MAX_CONNECTION_VALUE_BYTES {
            let mut text = "field `".to_owned();
            text.append(connection_id);
            text.append(".");
            text.append(name);
            text.append("` exceeds 16 KiB");
            return Err(text);
        }
        if has_nul_or_break(value) {
            let mut text = "field `".to_owned();
            text.append(connection_id);
            text.append(".");
            text.append(name);
            text.append("` cannot contain NUL or a line break");
            return Err(text);
        }
        proof {
            assert(fields[fi as int] == connection.fields@[fi as int]@);
        }
        if connection.fields[fi].secret && value.unicode_len() == 0 {
            return Ok(());
        }
        let trimmed_value = trim_text(value);
        self.set_value(connection_id.to_owned(), name.to_owned(), trimmed_value);
        Ok(())
    }

    /// The values the fields of `connection` hold, with their environment
    /// variables, in field order: what a node process of that connection
    /// receives in its environment.
    pub fn connection_values(&self, connection: &ConnectionManifest) -> (r: Vec<(String, String)>)
        ensures
            text_pairs(r@) == field_assignments(self@, connection@, connection@.fields.len() as int),
    {
        let ghost c = connection@;
        let mut out: Vec<(String, String)> = Vec::new();
        proof {
            assert(text_pairs(out@) =~= Seq::<(Seq<char>, Seq<char>)>::empty());
        }
        let mut k: usize = 0;
        while k < connection.fields.len()
            invariant
                c == connection@,
                c.fields.len() == connection.fields@.len(),
                0 <= k <= c.fields.len(),
                text_pairs(out@) == field_assignments(self@, c, k as int),
            decreases c.fields.len() - k,
        {
            let field = &connection.fields[k];
            proof {
                assert(c.fields[k as int] == field@);
            }
            match self.value(connection.id.as_str(), field.name.as_str()) {
                Some(v) => {
                    let pair = (field.environment.clone(), v.to_owned());
                    proof {
                        assert(text_pairs(out@.push(pair)) =~= text_pairs(out@).push((pair.0@, pair.1@)));
                    }
                    out.push(pair);
                },
                None => {},
            }
            k = k + 1;
        }
        out
    }

    /// Every stored value with its environment variable, in manifest and
    /// field order: what the project's `.env` file and the process
    /// environment receive.
    pub fn environment_values(&self) -> (r: Vec<(String, String)>)
        ensures
            text_pairs(r@) == environment_assignments(self@, self@.manifests.len() as int),
    {
        let mut out: Vec<(String, String)> = Vec::new();
        proof {
            assert(text_pairs(out@) =~= Seq::<(Seq<char>, Seq<char>)>::empty());
        }
        let mut i: usize = 0;
        while i < self.manifests.len()
            invariant
                self@.manifests.len() == self.manifests@.len(),
                0 <= i <= self.manifests@.len(),
                text_pairs(out@) == environment_assignments(self@, i as int),
            decreases self.manifests@.len() - i,
        {
            let connection = &self.manifests[i];
            proof {
                assert(self@.manifests[i as int] == connection@);
            }
            let mut part = self.connection_values(connection);
            let ghost before = out@;
            let ghost added = part@;
            out.append(&mut part);
            proof {
                assert(text_pairs(out@) =~= text_pairs(before) + text_pairs(added));
            }
            i = i + 1;
        }
        out
    }

    /// The values a browser client may see, by connection: only fields
    /// marked client-exposed that hold a value, and only connections with
    /// at least one such field.
    pub fn client_values(&self) -> (r: Vec<(String, Vec<(String, String)>)>)
        ensures
            client_views(r@) == client_connections(self@, self@.manifests.len() as int),
    {
        let mut out: Vec<(String, Vec<(String, String)>)> = Vec::new();
        proof {
            assert(client_views(out@) =~= Seq::<(Seq<char>, Seq<(Seq<char>, Seq<char>)>)>::empty());
        }
        let mut i: usize = 0;
        while i < self.manifests.len()
            invariant
                self@.manifests.len() == self.manifests@.len(),
                0 <= i <= self.manifests@.len(),
                client_views(out@) == client_connections(self@, i as int),
            decreases self.manifests@.len() - i,
        {
            let connection = &self.manifests[i];
            let ghost c = self@.manifests[i as int];
            proof {
                assert(c == connection@);
            }
            let mut fields: Vec<(String, String)> = Vec::new();
            proof {
                assert(text_pairs(fields@) =~= Seq::<(Seq<char>, Seq<char>)>::empty());
            }
            let mut k: usize = 0;
            while k < connection.fields.len()
                invariant
                    c == connection@,
                    c.fields.len() == connection.fields@.len(),
                    0 <= k <= c.fields.len(),
                    text_pairs(fields@) == client_fields(self@, c, k as int),
                decreases c.fields.len() - k,
            {
                let field = &connection.fields[k];
                proof {
                    assert(c.fields[k as int] == field@);
                }
                if field.client_exposed {
                    match self.value(connection.id.as_str(), field.name.as_str()) {
                        Some(v) => {
                            let pair = (field.name.clone(), v.to_owned());
                            proof {
                                assert(text_pairs(fields@.push(pair)) =~= text_pairs(fields@).push(
                                    (pair.0@, pair.1@),
                                ));
                            }
                            fields.push(pair);
                        },
                        None => {},
                    }
                }
                k = k + 1;
            }
            if fields.len() > 0 {
                let entry = (connection.id.clone(), fields);
                proof {
                    assert(client_views(out@.push(entry)) =~= client_views(out@).push((entry.0@, text_pairs(entry.1@))));
                }
                out.push(entry);
            }
            i = i + 1;
        }
        out
    }

    /// Whether every required field of connection `index` holds a value.
    pub fn is_configured(&self, index: usize) -> (r: bool)
        requires
            index < self@.manifests.len(),
        ensures
            r == forall|k: int| 0 <= k < self@.manifests[index as int].fields.len() ==> (#[trigger] self@.manifests[
                index as int].fields[k].required ==> field_configured(
                self@,
                self@.manifests[index as int].id,
                self@.manifests[index as int].fields[k].name,
            )),
    {
        let connection = &self.manifests[index];
        let ghost c = self@.manifests[index as int];
        proof {
            assert(c == connection@);
        }
        let mut k: usize = 0;
        while k < connection.fields.len()
            invariant
                c == connection@,
                c == self@.manifests[index as int],
                c.fields.len() == connection.fields@.len(),
                0 <= k <= c.fields.len(),
                forall|x: int| 0 <= x < k ==> (#[trigger] c.fields[x].required ==> field_configured(self@, c.id, c.fields[x].name)),
            decreases c.fields.len() - k,
        {
            let field = &connection.fields[k];
            proof {
                assert(c.fields[k as int] == field@);
            }
            if field.required {
                let set = match self.value(connection.id.as_str(), field.name.as_str()) {
                    Some(v) => v.unicode_len() > 0,
                    None => false,
                };
                if !set {
                    proof {
                        assert(c.fields[k as int].required && !field_configured(self@, c.id, c.fields[k as int].name));
                    }
                    return false;
                }
            }
            k = k + 1;
        }
        true
    }

    /// The required fields still missing for the given connections, as
    /// `<connection> / <label> (<environment>)`, in manifest and field
    /// order.
    pub fn missing_required_for(&self, connection_ids: &StringSet) -> (r: Vec<String>)
        ensures
            r@.map_values(|s: String| s@) == missing_required(self@, connection_ids@.to_set(), self@.manifests.len() as int),
    {
        let ghost ids = connection_ids@.to_set();
        let mut out: Vec<String> = Vec::new();
        let mut i: usize = 0;
        while i < self.manifests.len()
            invariant
                ids == connection_ids@.to_set(),
                self@.manifests.len() == self.manifests@.len(),
                0 <= i <= self.manifests@.len(),
                out@.map_values(|s: String| s@) == missing_required(self@, ids, i as int),
            decreases self.manifests@.len() - i,
        {
            let connection = &self.manifests[i];
            let ghost c = self@.manifests[i as int];
            proof {
                assert(c == connection@);
            }
            if connection_ids.contains(connection.id.as_str()) {
                let ghost base = out@.map_values(|s: String| s@);
                let mut k: usize = 0;
                while k < connection.fields.len()
                    invariant
                        c == connection@,
                        c.fields.len() == connection.fields@.len(),
                        0 <= k <= c.fields.len(),
                        out@.map_values(|s: String| s@) == base + missing_fields(self@, c, k as int),
                    decreases c.fields.len() - k,
                {
                    let field = &connection.fields[k];
                    proof {
                        assert(c.fields[k as int] == field@);
                    }
                    if field.required {
                        let set = match self.value(connection.id.as_str(), field.name.as_str()) {
                            Some(v) => v.unicode_len() > 0,
                            None => false,
                        };
                        if !set {
                            let ghost prev = out@.map_values(|s: String| s@);
                            let mut text = connection.display_name.clone();
                            text.append(" / ");
                            text.append(field.label.as_str());
                            text.append(" (");
                            text.append(field.environment.as_str());
                            text.append(")");
                            out.push(text);
                            proof {
                                assert(out@.map_values(|s: String| s@) =~= prev.push(text@));
                                assert(base + missing_fields(self@, c, k + 1) =~= (base + missing_fields(self@, c, k as int)).push(
                                    text@,
                                ));
                            }
                        }
                    }
                    k = k + 1;
                }
            }
            i = i + 1;
        }
        out
    }
}

} // verus!
