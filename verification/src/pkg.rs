//! The package value: identity, content source, entry table and module
//! map, plus manifest parsing/validation and the registry endpoint
//! configuration read from `.npmrc`.

use vstd::prelude::*;
use crate::contents::PkgContents;
use crate::entries::PkgEntries;
use crate::jsonval::{JsonVal, JsonView, json_view, json_of, parse_json, spec_obj_get};
use crate::strutil::{
    split_char, spec_split, trim_start, spec_trim_start, starts_with, spec_starts_with,
    strip_prefix,
};
use crate::walker::ModuleMap;

verus! {

/// A configuration fault.
#[derive(Debug)]
pub enum PkgError {
    /// The manifest is not valid JSON.
    InvalidJson,
    /// The manifest lacks a string `name` or `version`.
    InvalidManifestField,
    /// A registry URL did not parse.
    InvalidUrl(String),
}

pub enum PkgErrView {
    InvalidJson,
    InvalidManifestField,
    InvalidUrl(Seq<char>),
}

impl View for PkgError {
    type V = PkgErrView;

    open spec fn view(&self) -> PkgErrView {
        match self {
            PkgError::InvalidJson => PkgErrView::InvalidJson,
            PkgError::InvalidManifestField => PkgErrView::InvalidManifestField,
            PkgError::InvalidUrl(s) => PkgErrView::InvalidUrl(s@),
        }
    }
}

/// What `url::Url::parse` yields on a text: its normalized serialization,
/// `None` for an invalid URL.
pub uninterp spec fn url_norm_of(s: Seq<char>) -> Option<Seq<char>>;

/// Relies on `url::Url::parse` (and `Url`'s serialization): a text parses
/// to the same normalized URL on every call, `None` exactly on invalid
/// input.
#[verifier::external_body]
pub fn parse_url(s: &str) -> (r: Option<String>)
    ensures
        (r matches Option::Some(u) ==> url_norm_of(s@) == Option::Some(u@)),
        (r is None) ==> (url_norm_of(s@) is None),
{
    match url::Url::parse(s) {
        Ok(u) => Some(u.as_str().to_string()),
        Err(_) => None,
    }
}

/// A manifest is valid when it is a JSON object whose `name` and `version`
/// members are strings.
pub open spec fn spec_manifest_ok(v: JsonView) -> bool {
    &&& v is Obj
    &&& spec_obj_get(v->Obj_0, "name"@) matches Option::Some(n) && n is Str
    &&& spec_obj_get(v->Obj_0, "version"@) matches Option::Some(n) && n is Str
}

/// Parse a manifest document and validate its `name` and `version`.
pub fn parse_config_as_json(data: &str) -> (r: Result<JsonVal, PkgError>)
    ensures
        (r matches Ok(v) ==> json_of(data@) == Option::Some(json_view(v)) && spec_manifest_ok(
            json_view(v),
        )),
        (r matches Err(e) ==> e@ is InvalidJson || e@ is InvalidManifestField),
        (r matches Err(e) && e@ is InvalidJson <==> (json_of(data@) is None)),
        (r matches Err(e) && e@ is InvalidManifestField ==> (json_of(data@) matches Option::Some(
            w,
        ) && !spec_manifest_ok(w))),
{
    let parsed = match parse_json(data) {
        Option::Some(v) => v,
        Option::None => {
            return Result::Err(PkgError::InvalidJson);
        },
    };
    let name_ok = match parsed.obj_get("name") {
        Option::Some(n) => n.is_string(),
        Option::None => false,
    };
    let version_ok = match parsed.obj_get("version") {
        Option::Some(n) => n.is_string(),
        Option::None => false,
    };
    if !parsed.is_object() || !name_ok || !version_ok {
        return Result::Err(PkgError::InvalidManifestField);
    }
    Result::Ok(parsed)
}

/// The default public registry endpoint.
pub open spec fn default_registry_text() -> Seq<char> {
    "https://registry.npmjs.org/"@
}

/// The registry URL text an `.npmrc` body configures: everything after
/// the `registry=` prefix of the first line whose trimmed start carries
/// it; the public default when no such line (or no body) exists.
pub open spec fn spec_registry_text(npmrc: Option<Seq<char>>) -> Seq<char> {
    match npmrc {
        Option::Some(body) => first_registry_line(spec_split(body, '\n')),
        Option::None => default_registry_text(),
    }
}

pub open spec fn first_registry_line(lines: Seq<Seq<char>>) -> Seq<char>
    decreases lines.len(),
{
    if lines.len() == 0 {
        default_registry_text()
    } else if spec_starts_with(spec_trim_start(lines.first()), "registry="@) {
        spec_trim_start(lines.first()).skip("registry="@.len() as int)
    } else {
        first_registry_line(lines.drop_first())
    }
}

/// The registry endpoint for a package directory, from an `.npmrc` body
/// when one exists, else the public default; the chosen text must be a
/// valid URL.
#[verifier::loop_isolation(false)]
pub fn get_registry_url(npmrc: Option<&str>) -> (r: Result<String, PkgError>)
    ensures
        (r matches Ok(u) ==> url_norm_of(
            spec_registry_text(crate::globs::opt_text(npmrc)),
        ) == Option::Some(u@)),
        (r matches Err(e) ==> e@ == PkgErrView::InvalidUrl(
            spec_registry_text(crate::globs::opt_text(npmrc)),
        ) && (url_norm_of(spec_registry_text(crate::globs::opt_text(npmrc))) is None)),
{
    let ghost chosen = spec_registry_text(crate::globs::opt_text(npmrc));
    let text: String = match npmrc {
        Option::Some(body) => {
            let lines = split_char(body, '\n');
            let ghost lineviews = lines@.map_values(|s: String| s@);
            let mut i: usize = 0;
            let mut found: Option<String> = Option::None;
            proof {
                assert(lineviews.skip(0) =~= lineviews);
            }
            while i < lines.len() && found.is_none()
                invariant
                    i <= lines@.len(),
                    lineviews == lines@.map_values(|s: String| s@),
                    found is None ==> first_registry_line(lineviews) == first_registry_line(
                        lineviews.skip(i as int),
                    ),
                    found matches Option::Some(u) ==> u@ == first_registry_line(lineviews),
                decreases lines@.len() - i,
            {
                let line = &lines[i];
                proof {
                    assert(lineviews.skip(i as int).first() == lineviews[i as int]);
                    assert(lineviews.skip(i as int).drop_first() =~= lineviews.skip(i + 1));
                }
                let t = trim_start(line.as_str());
                if starts_with(t, "registry=") {
                    found = Option::Some(String::from_str(strip_prefix(t, "registry=")));
                }
                i = i + 1;
            }
            match found {
                Option::Some(u) => u,
                Option::None => {
                    proof {
                        assert(lineviews.skip(i as int) =~= Seq::<Seq<char>>::empty());
                    }
                    String::from_str("https://registry.npmjs.org/")
                },
            }
        },
        Option::None => String::from_str("https://registry.npmjs.org/"),
    };
    proof {
        assert(text@ == chosen);
    }
    match parse_url(text.as_str()) {
        Option::Some(u) => Result::Ok(u),
        Option::None => Result::Err(PkgError::InvalidUrl(text)),
    }
}

/// A package: identity, directory, registry endpoint, content source,
/// entry table, and the parsed modules of its shipped sources.
pub struct Pkg {
    pub name: String,
    pub version: String,
    pub dir: String,
    pub registry_url: String,
    pub contents: PkgContents,
    pub entries: PkgEntries,
    pub modules: ModuleMap,
}

/// The text of a string member of a JSON object, empty when absent or not
/// a string.
pub open spec fn spec_str_member(v: JsonView, k: Seq<char>) -> Seq<char> {
    if v is Obj {
        match spec_obj_get(v->Obj_0, k) {
            Option::Some(n) => if n is Str {
                n->Str_0
            } else {
                Seq::empty()
            },
            Option::None => Seq::empty(),
        }
    } else {
        Seq::empty()
    }
}

impl Pkg {
    /// Assemble a package from its parts, taking identity from the
    /// validated manifest.
    pub fn new(
        dir: String,
        config: &JsonVal,
        registry_url: String,
        contents: PkgContents,
        entries: PkgEntries,
        modules: ModuleMap,
    ) -> (r: Pkg)
        ensures
            r.name@ == spec_str_member(json_view(*config), "name"@),
            r.version@ == spec_str_member(json_view(*config), "version"@),
            r.dir == dir,
            r.registry_url == registry_url,
            r.contents == contents,
            r.entries == entries,
            r.modules == modules,
    {
        let name = str_member(config, "name");
        let version = str_member(config, "version");
        Pkg { name, version, dir, registry_url, contents, entries, modules }
    }
}

/// The text of a string member of a manifest object, empty when absent.
pub fn str_member(config: &JsonVal, k: &str) -> (r: String)
    ensures
        r@ == spec_str_member(json_view(*config), k@),
{
    let is_obj = config.is_object();
    match config.obj_get(k) {
        Option::Some(v) => match v.str_value() {
            Option::Some(s) => String::from_str(s.as_str()),
            Option::None => crate::ecma::empty_string(),
        },
        Option::None => crate::ecma::empty_string(),
    }
}

} // verus!
