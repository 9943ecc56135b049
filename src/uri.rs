//! The `eml:///` URI scheme.

use vstd::prelude::*;
use regex::Regex;

verus! {

pub open spec fn dataspace_pattern() -> Seq<char> {
    r"^eml:\/\/\/(?:dataspace\('?(?<dataspace>[^']*?(?:''[^']*?)*)'?\))?$"@
}

pub open spec fn uuid_pattern() -> Seq<char> {
    r"[0-9a-fA-F]{8}-[0-9a-fA-F]{4}-[0-9a-fA-F]{4}-[0-9a-fA-F]{4}-[0-9a-fA-F]{12}"@
}

pub open spec fn domain_names_pattern() -> Seq<char> {
    r"witsml|resqml|prodml|eml"@
}

pub open spec fn data_object_uri_pattern() -> Seq<char> {
    r"^eml:///(?:dataspace\('(?P<dataspace>[^']*?(?:''[^']*?)*)'\)/?)?(?:(?P<object>(?P<domain>witsml|resqml|prodml|eml)(?P<domainVersion>[1-9]\d)\.(?P<objectType>\w+)\((?:(?P<uuid>[0-9a-fA-F]{8}-[0-9a-fA-F]{4}-[0-9a-fA-F]{4}-[0-9a-fA-F]{4}-[0-9a-fA-F]{12})|uuid=(?P<uuid2>[0-9a-fA-F]{8}-[0-9a-fA-F]{4}-[0-9a-fA-F]{4}-[0-9a-fA-F]{4}-[0-9a-fA-F]{12}),version='(?P<version>[^']*?(?:''[^']*?)*)')\))?(?P<request>(?:(?:(?:(/(?P<collectionDomain>witsml|resqml|prodml|eml)(?P<collectionDomainVersion>[1-9]\d)\.(?P<collectionType>\w+))?)|(?P<subPath>(/[\w]+)+))?(?:\?(?P<query>[^#\n]+))?))?)?$"@
}

/// The pattern of a URI that names a dataspace only.
pub fn canonical_dataspace_uris_regex() -> (r: String)
    ensures
        r@ == dataspace_pattern(),
{
    String::from_str(r"^eml:\/\/\/(?:dataspace\('?(?<dataspace>[^']*?(?:''[^']*?)*)'?\))?$")
}

/// The pattern of a UUID in canonical 8-4-4-4-12 hexadecimal form.
pub fn uuid_regex() -> (r: String)
    ensures
        r@ == uuid_pattern(),
{
    String::from_str(
        r"[0-9a-fA-F]{8}-[0-9a-fA-F]{4}-[0-9a-fA-F]{4}-[0-9a-fA-F]{4}-[0-9a-fA-F]{12}",
    )
}

/// The pattern of the four recognised domains.
pub fn domain_names_regex() -> (r: String)
    ensures
        r@ == domain_names_pattern(),
{
    String::from_str(r"witsml|resqml|prodml|eml")
}

/// The canonical pattern of an `eml:///` URI, with its named groups.
pub fn canonical_data_object_uris() -> (r: String)
    ensures
        r@ == data_object_uri_pattern(),
{
    String::from_str(
        r"^eml:///(?:dataspace\('(?P<dataspace>[^']*?(?:''[^']*?)*)'\)/?)?(?:(?P<object>(?P<domain>witsml|resqml|prodml|eml)(?P<domainVersion>[1-9]\d)\.(?P<objectType>\w+)\((?:(?P<uuid>[0-9a-fA-F]{8}-[0-9a-fA-F]{4}-[0-9a-fA-F]{4}-[0-9a-fA-F]{4}-[0-9a-fA-F]{12})|uuid=(?P<uuid2>[0-9a-fA-F]{8}-[0-9a-fA-F]{4}-[0-9a-fA-F]{4}-[0-9a-fA-F]{4}-[0-9a-fA-F]{12}),version='(?P<version>[^']*?(?:''[^']*?)*)')\))?(?P<request>(?:(?:(?:(/(?P<collectionDomain>witsml|resqml|prodml|eml)(?P<collectionDomainVersion>[1-9]\d)\.(?P<collectionType>\w+))?)|(?P<subPath>(/[\w]+)+))?(?:\?(?P<query>[^#\n]+))?))?)?$",
    )
}

/// The text of the group named `group` in the first match of `pattern` in
/// `text`; `None` where the pattern does not compile, does not match, or the
/// group takes no part in the match.
pub uninterp spec fn regex_group(pattern: Seq<char>, text: Seq<char>, group: Seq<char>) -> Option<
    Seq<char>,
>;

/// Relies on regex's `Regex::new`, `Regex::captures` and `Captures::name`.
#[verifier::external_body]
fn capture_group(pattern: &str, text: &str, group: &str) -> (r: Option<String>)
    ensures
        r is None <==> regex_group(pattern@, text@, group@) is None,
        r matches Some(g) ==> regex_group(pattern@, text@, group@) == Some(g@),
{
    let re = Regex::new(pattern).ok()?;
    let caps = re.captures(text)?;
    caps.name(group).map(|m| m.as_str().to_string())
}

pub open spec fn is_hex_digit(c: char) -> bool {
    ('0' <= c <= '9') || ('a' <= c <= 'f') || ('A' <= c <= 'F')
}

/// Hexadecimal digits in groups of 8, 4, 4, 4 and 12, joined by hyphens.
pub open spec fn is_uuid_text(s: Seq<char>) -> bool {
    &&& s.len() == 36
    &&& forall|i: int|
        0 <= i < 36 ==> if i == 8 || i == 13 || i == 18 || i == 23 {
            s[i] == '-'
        } else {
            is_hex_digit(#[trigger] s[i])
        }
}

/// Whether a UUID starts at index `i` of `text`.
pub open spec fn uuid_at(text: Seq<char>, i: int) -> bool {
    0 <= i && i + 36 <= text.len() && is_uuid_text(text.subrange(i, i + 36))
}

/// The leftmost UUID in `text`, if any.
pub open spec fn first_uuid(text: Seq<char>) -> Option<Seq<char>> {
    if exists|i: int| uuid_at(text, i) {
        let i = choose|i: int| uuid_at(text, i) && forall|j: int| 0 <= j < i ==> !uuid_at(text, j);
        Some(text.subrange(i, i + 36))
    } else {
        None
    }
}

/// Relies on regex's `Regex::new` and `Regex::find`: for the UUID pattern,
/// a fixed-length pattern, the leftmost match is the leftmost UUID.
#[verifier::external_body]
fn find_first(pattern: &str, text: &str) -> (r: Option<String>)
    requires
        pattern@ == uuid_pattern(),
    ensures
        r is None <==> first_uuid(text@) is None,
        r matches Some(m) ==> first_uuid(text@) == Some(m@),
{
    let re = Regex::new(pattern).ok()?;
    re.find(text).map(|m| m.as_str().to_string())
}

/// The leftmost UUID in `input`, if there is one.
pub fn find_uuid(input: &str) -> (r: Option<String>)
    ensures
        r is None <==> first_uuid(input@) is None,
        r matches Some(m) ==> first_uuid(input@) == Some(m@),
{
    let pattern = uuid_regex();
    find_first(pattern.as_str(), input)
}

/// Why a string is not a URI of the scheme.
#[derive(Debug, PartialEq, Eq, Structural, Clone, Copy)]
pub enum UriError {
    /// It does not start with `eml:///`.
    NotEml,
}

/// A parsed `eml:///` URI. `raw` is the text parsed; a field that the text
/// does not give is `None`.
#[derive(Debug)]
pub struct Uri {
    pub raw: String,
    pub dataspace: Option<String>,
    pub domain: Option<String>,
    pub domain_version: Option<String>,
    pub object_type: Option<String>,
    pub object_uuid: Option<String>,
    pub object_version: Option<String>,
    pub collection_domain: Option<String>,
    pub collection_domain_version: Option<String>,
    pub collection_type: Option<String>,
    pub sub_path: Option<String>,
    pub query: Option<String>,
}

pub open spec fn text_of(o: Option<String>) -> Option<Seq<char>> {
    match o {
        Some(s) => Some(s@),
        None => None,
    }
}

/// The group `name` of the canonical pattern in `uri`.
pub open spec fn uri_group(uri: Seq<char>, name: Seq<char>) -> Option<Seq<char>> {
    regex_group(data_object_uri_pattern(), uri, name)
}

/// Whether `u` holds what the canonical pattern finds in `uri`.
pub open spec fn uri_fields(u: Uri, uri: Seq<char>) -> bool {
    &&& u.raw@ == uri
    &&& text_of(u.dataspace) == uri_group(uri, "dataspace"@)
    &&& text_of(u.domain) == uri_group(uri, "domain"@)
    &&& text_of(u.domain_version) == uri_group(uri, "domainVersion"@)
    &&& text_of(u.object_type) == uri_group(uri, "objectType"@)
    &&& text_of(u.object_uuid) == match uri_group(uri, "uuid"@) {
        Some(g) => Some(g),
        None => uri_group(uri, "uuid2"@),
    }
    &&& text_of(u.object_version) == uri_group(uri, "version"@)
    &&& text_of(u.collection_domain) == uri_group(uri, "collectionDomain"@)
    &&& text_of(u.collection_domain_version) == uri_group(uri, "collectionDomainVersion"@)
    &&& text_of(u.collection_type) == uri_group(uri, "collectionType"@)
    &&& text_of(u.sub_path) == uri_group(uri, "subPath"@)
    &&& text_of(u.query) == uri_group(uri, "query"@)
}

/// The characters `eml:///`.
pub open spec fn eml_prefix() -> Seq<char> {
    seq!['e', 'm', 'l', ':', '/', '/', '/']
}

pub open spec fn has_eml_prefix(s: Seq<char>) -> bool {
    eml_prefix().is_prefix_of(s)
}

/// Whether `s` starts with `eml:///`.
pub fn starts_with_eml(s: &str) -> (r: bool)
    ensures
        r == has_eml_prefix(s@),
{
    let prefix: [char; 7] = ['e', 'm', 'l', ':', '/', '/', '/'];
    assert(prefix@ =~= eml_prefix());
    let n = s.unicode_len();
    if n < 7 {
        return false;
    }
    let mut i: usize = 0;
    while i < 7
        invariant
            i <= 7,
            n == s@.len(),
            n >= 7,
            prefix@ == eml_prefix(),
            forall|j: int| 0 <= j < i ==> s@[j] == eml_prefix()[j],
        decreases 7 - i,
    {
        if s.get_char(i) != prefix[i] {
            assert(s@.subrange(0, 7)[i as int] != eml_prefix()[i as int]);
            return false;
        }
        i = i + 1;
    }
    assert(s@.subrange(0, 7) =~= eml_prefix());
    true
}

/// The text of group `name` of the canonical pattern in `uri`.
fn group(pattern: &String, uri: &str, name: &str) -> (r: Option<String>)
    requires
        pattern@ == data_object_uri_pattern(),
    ensures
        text_of(r) == uri_group(uri@, name@),
{
    capture_group(pattern.as_str(), uri, name)
}

impl Uri {
    /// Parses `uri`: an error where it does not start with `eml:///`, else
    /// the fields that the canonical pattern finds in it (none where it
    /// does not match).
    pub fn parse(uri: &str) -> (r: Result<Uri, UriError>)
        ensures
            r is Err <==> !has_eml_prefix(uri@),
            r matches Ok(u) ==> uri_fields(u, uri@),
    {
        if !starts_with_eml(uri) {
            return Err(UriError::NotEml);
        }
        let p = canonical_data_object_uris();
        let object_uuid = match group(&p, uri, "uuid") {
            Some(g) => Some(g),
            None => group(&p, uri, "uuid2"),
        };
        Ok(
            Uri {
                raw: String::from_str(uri),
                dataspace: group(&p, uri, "dataspace"),
                domain: group(&p, uri, "domain"),
                domain_version: group(&p, uri, "domainVersion"),
                object_type: group(&p, uri, "objectType"),
                object_uuid,
                object_version: group(&p, uri, "version"),
                collection_domain: group(&p, uri, "collectionDomain"),
                collection_domain_version: group(&p, uri, "collectionDomainVersion"),
                collection_type: group(&p, uri, "collectionType"),
                sub_path: group(&p, uri, "subPath"),
                query: group(&p, uri, "query"),
            },
        )
    }

    /// The URI as it was given.
    pub fn to_string(&self) -> (r: String)
        ensures
            r@ == self.raw@,
    {
        self.raw.clone()
    }
}

} // verus!
