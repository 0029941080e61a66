//! Release archives and their integrity: subresource-integrity parsing,
//! SHA-512 verification, gzip and tar decoding into a file inventory, and
//! the registry metadata that locates a published tarball. Hashing,
//! base64, gzip and tar reading are outside crates' work behind trusted
//! wrappers; everything deciding with their results is verified.

use vstd::prelude::*;
use crate::jsonval::{JsonVal, JsonView, json_view, spec_obj_get};
use crate::paths::{normalize_path, spec_normalize};
use crate::pkg::{url_norm_of, parse_url};
use crate::strmap::StrMap;
use crate::strutil::{spec_split, split_char, str_eq, spec_starts_with, starts_with, strip_prefix};
use base64::Engine;

verus! {

/// The SHA-512 digest of a byte string, as `hmac_sha512::Hash` computes
/// it: a function of the input alone.
pub uninterp spec fn sha512_of(data: Seq<u8>) -> Seq<u8>;

/// What standard base64 decoding yields on a text, `None` on invalid
/// input.
pub uninterp spec fn base64_decode_of(s: Seq<char>) -> Option<Seq<u8>>;

/// What gzip decompression yields on a byte string, `None` on a malformed
/// stream.
pub uninterp spec fn gunzip_of(data: Seq<u8>) -> Option<Seq<u8>>;

/// The member paths and contents of a tar archive held in bytes, in
/// archive order; `None` on a malformed archive.
pub uninterp spec fn tar_entries_of(data: Seq<u8>) -> Option<Seq<(Seq<char>, Seq<u8>)>>;

/// Relies on `hmac_sha512::Hash::hash`: the SHA-512 digest, 64 bytes, a
/// function of the input bytes alone.
#[verifier::external_body]
pub fn sha512(data: &Vec<u8>) -> (r: Vec<u8>)
    ensures
        r@ == sha512_of(data@),
        r@.len() == 64,
{
    hmac_sha512::Hash::hash(data.as_slice()).to_vec()
}

/// Relies on the `base64` crate's standard-alphabet engine: decoding is a
/// function of the text alone, `None` exactly on invalid base64.
#[verifier::external_body]
pub fn base64_decode(s: &str) -> (r: Option<Vec<u8>>)
    ensures
        (r matches Option::Some(b) ==> base64_decode_of(s@) == Option::Some(b@)),
        (r is None) ==> (base64_decode_of(s@) is None),
{
    base64::engine::general_purpose::STANDARD.decode(s).ok()
}

/// Relies on `flate2`'s gzip decoder: decompression is a function of the
/// bytes alone, `None` exactly on a malformed stream.
#[verifier::external_body]
pub fn gunzip(data: &Vec<u8>) -> (r: Option<Vec<u8>>)
    ensures
        (r matches Option::Some(b) ==> gunzip_of(data@) == Option::Some(b@)),
        (r is None) ==> (gunzip_of(data@) is None),
{
    let mut out: Vec<u8> = Vec::new();
    let mut decoder = flate2::bufread::GzDecoder::new(&data[..]);
    match std::io::Read::read_to_end(&mut decoder, &mut out) {
        Ok(_) => Some(out),
        Err(_) => None,
    }
}

/// Relies on the `tar` crate's `Archive` over in-memory bytes: member
/// paths and contents in archive order, `None` on a malformed archive.
#[verifier::external_body]
pub fn tar_entries(data: &Vec<u8>) -> (r: Option<Vec<(String, Vec<u8>)>>)
    ensures
        (r matches Option::Some(es) ==> tar_entries_of(data@) == Option::Some(
            es@.map_values(|e: (String, Vec<u8>)| (e.0@, e.1@)),
        )),
        (r is None) ==> (tar_entries_of(data@) is None),
{
    let mut archive = tar::Archive::new(&data[..]);
    let mut out: Vec<(String, Vec<u8>)> = Vec::new();
    for entry in archive.entries().ok()? {
        let mut entry = entry.ok()?;
        let path = entry.path().ok()?.to_string_lossy().into_owned();
        let mut buf: Vec<u8> = Vec::new();
        std::io::Read::read_to_end(&mut entry, &mut buf).ok()?;
        out.push((path, buf));
    }
    Some(out)
}

/// A fault of archive handling or registry metadata.
#[derive(Debug)]
pub enum TarballError {
    /// The integrity string is not `<algo>-<base64>`.
    Validation,
    /// The integrity algorithm is not SHA-512.
    UnsupportedIntegrity,
    /// The integrity payload is not valid base64.
    Base64Decode,
    /// A tarball URL did not parse.
    Url,
    /// The registry payload lacks a field the client needs.
    MalformedRegistryPayload,
    /// The gzip stream did not decode.
    GzipMalformed,
    /// The tar archive did not decode, or a member escapes the
    /// conventional `package/` prefix.
    TarMalformed,
}

/// Parsing an `<algo>-<base64>` integrity string into the expected
/// digest: exactly one `-`, the algorithm `sha512`, a decodable payload.
pub open spec fn spec_parse_integrity(s: Seq<char>) -> Result<Seq<u8>, TarballError> {
    let parts = spec_split(s, '-');
    if parts.len() != 2 {
        Result::Err(TarballError::Validation)
    } else if parts[0] != "sha512"@ {
        Result::Err(TarballError::UnsupportedIntegrity)
    } else {
        match base64_decode_of(parts[1]) {
            Option::Some(b) => Result::Ok(b),
            Option::None => Result::Err(TarballError::Base64Decode),
        }
    }
}

/// Parse an integrity string into the digest it promises.
pub fn parse_integrity(integrity: &str) -> (r: Result<Vec<u8>, TarballError>)
    ensures
        (r matches Ok(b) ==> spec_parse_integrity(integrity@) == Result::<
            Seq<u8>,
            TarballError,
        >::Ok(b@)),
        (r matches Err(e) ==> spec_parse_integrity(integrity@) == Result::<
            Seq<u8>,
            TarballError,
        >::Err(e)),
{
    let parts = split_char(integrity, '-');
    proof {
        assert(parts@.map_values(|x: String| x@)[0] == parts@[0]@);
        if parts@.len() > 1 {
            assert(parts@.map_values(|x: String| x@)[1] == parts@[1]@);
        }
    }
    if parts.len() != 2 {
        return Result::Err(TarballError::Validation);
    }
    if !str_eq(parts[0].as_str(), "sha512") {
        return Result::Err(TarballError::UnsupportedIntegrity);
    }
    match base64_decode(parts[1].as_str()) {
        Option::Some(b) => Result::Ok(b),
        Option::None => Result::Err(TarballError::Base64Decode),
    }
}

/// A published tarball's location and expected digest.
pub struct Tarball {
    pub url: String,
    pub checksum: Vec<u8>,
}

impl Tarball {
    /// Validate a tarball URL and integrity string.
    pub fn new(url: &str, integrity: &str) -> (r: Result<Tarball, TarballError>)
        ensures
            (r matches Ok(t) ==> spec_parse_integrity(integrity@) == Result::<
                Seq<u8>,
                TarballError,
            >::Ok(t.checksum@) && url_norm_of(url@) == Option::Some(t.url@)),
            (r matches Err(e) ==> spec_parse_integrity(integrity@) == Result::<
                Seq<u8>,
                TarballError,
            >::Err(e) || (spec_parse_integrity(integrity@) is Ok && e == TarballError::Url && (
            url_norm_of(url@) is None))),
    {
        let checksum = match parse_integrity(integrity) {
            Result::Ok(b) => b,
            Result::Err(e) => {
                return Result::Err(e);
            },
        };
        let parsed = match parse_url(url) {
            Option::Some(u) => u,
            Option::None => {
                return Result::Err(TarballError::Url);
            },
        };
        Result::Ok(Tarball { url: parsed, checksum })
    }
}

/// Whether a byte string's SHA-512 digest equals the expected checksum.
#[verifier::loop_isolation(false)]
pub fn is_integrity_ok(checksum: &Vec<u8>, data: &Vec<u8>) -> (r: bool)
    ensures
        r == (sha512_of(data@) == checksum@),
{
    let digest = sha512(data);
    if digest.len() != checksum.len() {
        proof {
            assert(digest@ != checksum@);
        }
        return false;
    }
    let mut i: usize = 0;
    while i < digest.len()
        invariant
            i <= digest@.len(),
            digest@.len() == checksum@.len(),
            forall|j: int| 0 <= j < i ==> digest@[j] == checksum@[j],
        decreases digest@.len() - i,
    {
        if digest[i] != checksum[i] {
            proof {
                assert(digest@ != checksum@);
            }
            return false;
        }
        i = i + 1;
    }
    proof {
        assert(digest@ =~= checksum@);
    }
    true
}

/// The archive members with the conventional leading `package/` component
/// stripped; `None` when a member does not carry it.
pub open spec fn spec_strip_package(entries: Seq<(Seq<char>, Seq<u8>)>) -> Option<
    Seq<(Seq<char>, Seq<u8>)>,
>
    decreases entries.len(),
{
    if entries.len() == 0 {
        Option::Some(Seq::empty())
    } else {
        match spec_strip_package(entries.drop_last()) {
            Option::Some(rest) => if spec_starts_with(entries.last().0, "package/"@) {
                Option::Some(
                    rest.push((entries.last().0.skip("package/"@.len() as int), entries.last().1)),
                )
            } else {
                Option::None
            },
            Option::None => Option::None,
        }
    }
}

/// The file inventory an entry list describes, later members overwriting
/// earlier ones of the same path (an archive that repeats a member path
/// thus yields its last occurrence, matching what extracting the archive
/// to disk would leave).
pub open spec fn spec_entries_map(entries: Seq<(Seq<char>, Seq<u8>)>) -> Map<Seq<char>, Seq<u8>>
    decreases entries.len(),
{
    if entries.len() == 0 {
        Map::empty()
    } else {
        spec_entries_map(entries.drop_last()).insert(entries.last().0, entries.last().1)
    }
}

/// The file inventory of a gzipped tarball: gunzip, read the members,
/// strip `package/`, and key the contents by path.
pub open spec fn spec_tarball_files(data: Seq<u8>) -> Result<Map<Seq<char>, Seq<u8>>, TarballError> {
    match gunzip_of(data) {
        Option::None => Result::Err(TarballError::GzipMalformed),
        Option::Some(raw) => match tar_entries_of(raw) {
            Option::None => Result::Err(TarballError::TarMalformed),
            Option::Some(entries) => match spec_strip_package(entries) {
                Option::None => Result::Err(TarballError::TarMalformed),
                Option::Some(stripped) => Result::Ok(spec_entries_map(stripped)),
            },
        },
    }
}

/// Decode a gzipped tarball into its file inventory.
#[verifier::loop_isolation(false)]
pub fn tarball_files(data: &Vec<u8>) -> (r: Result<StrMap<Vec<u8>>, TarballError>)
    ensures
        (r matches Ok(files) ==> spec_tarball_files(data@) == Result::<
            Map<Seq<char>, Seq<u8>>,
            TarballError,
        >::Ok(files@)),
        (r matches Err(e) ==> spec_tarball_files(data@) == Result::<
            Map<Seq<char>, Seq<u8>>,
            TarballError,
        >::Err(e)),
{
    let raw = match gunzip(data) {
        Option::Some(b) => b,
        Option::None => {
            return Result::Err(TarballError::GzipMalformed);
        },
    };
    let entries = match tar_entries(&raw) {
        Option::Some(es) => es,
        Option::None => {
            return Result::Err(TarballError::TarMalformed);
        },
    };
    let ghost eviews = entries@.map_values(|e: (String, Vec<u8>)| (e.0@, e.1@));
    let mut files: StrMap<Vec<u8>> = StrMap::new();
    let ghost stripped0 = Seq::<(Seq<char>, Seq<u8>)>::empty();
    let mut i: usize = 0;
    proof {
        assert(eviews.take(0) =~= Seq::<(Seq<char>, Seq<u8>)>::empty());
        assert(spec_strip_package(eviews.take(0)) == Option::Some(stripped0));
    }
    let ghost mut stripped_so_far = stripped0;
    while i < entries.len()
        invariant
            i <= entries@.len(),
            eviews == entries@.map_values(|e: (String, Vec<u8>)| (e.0@, e.1@)),
            spec_strip_package(eviews.take(i as int)) == Option::Some(stripped_so_far),
            files@ == spec_entries_map(stripped_so_far),
        decreases entries@.len() - i,
    {
        proof {
            assert(eviews.take(i + 1).drop_last() =~= eviews.take(i as int));
            assert(eviews.take(i + 1).last() == eviews[i as int]);
            assert(eviews[i as int] == (entries@[i as int].0@, entries@[i as int].1@));
        }
        let path = &entries[i].0;
        if !starts_with(path.as_str(), "package/") {
            proof {
                assert(spec_strip_package(eviews.take(i + 1)) is None);
                lemma_strip_err_persists(eviews, i + 1);
            }
            return Result::Err(TarballError::TarMalformed);
        }
        let rel = strip_prefix(path.as_str(), "package/");
        let mut content: Vec<u8> = Vec::new();
        let src = &entries[i].1;
        let mut b: usize = 0;
        while b < src.len()
            invariant
                b <= src@.len(),
                content@ =~= src@.take(b as int),
            decreases src@.len() - b,
        {
            content.push(src[b]);
            proof {
                assert(content@ =~= src@.take(b + 1));
            }
            b = b + 1;
        }
        proof {
            assert(src@.take(src@.len() as int) =~= src@);
        }
        files.insert(String::from_str(rel), content);
        proof {
            stripped_so_far = stripped_so_far.push(
                (eviews[i as int].0.skip("package/"@.len() as int), eviews[i as int].1),
            );
            assert(spec_strip_package(eviews.take(i + 1)) == Option::Some(stripped_so_far));
            assert(stripped_so_far.drop_last() =~= spec_strip_package(
                eviews.take(i as int),
            )->Some_0);
            assert(files@ == spec_entries_map(stripped_so_far));
        }
        i = i + 1;
    }
    proof {
        assert(eviews.take(entries@.len() as int) =~= eviews);
    }
    Result::Ok(files)
}

proof fn lemma_strip_err_persists(entries: Seq<(Seq<char>, Seq<u8>)>, k: int)
    requires
        0 <= k <= entries.len(),
        spec_strip_package(entries.take(k)) is None,
    ensures
        spec_strip_package(entries) is None,
    decreases entries.len() - k,
{
    if k < entries.len() {
        assert(entries.take(k + 1).drop_last() =~= entries.take(k));
        lemma_strip_err_persists(entries, k + 1);
    } else {
        assert(entries.take(k) =~= entries);
    }
}

/// A downloaded (or to-be-downloaded) release tarball: its cache file
/// name, cache directory, source URL, expected digest, and, once decoded,
/// its file inventory.
pub struct PkgTarball {
    pub name: String,
    pub dir: String,
    pub source_url: String,
    pub checksum: Vec<u8>,
    pub files: Option<StrMap<Vec<u8>>>,
}

impl PkgTarball {
    pub fn new(name: String, dir: String, source_url: String, checksum: Vec<u8>) -> (r: PkgTarball)
        ensures
            r.name == name,
            r.dir == dir,
            r.source_url == source_url,
            r.checksum == checksum,
            r.files is None,
    {
        PkgTarball { name, dir, source_url, checksum, files: Option::None }
    }

    /// Whether a candidate byte string is the tarball this descriptor
    /// promises.
    pub fn is_integrity_ok(&self, data: &Vec<u8>) -> (r: bool)
        ensures
            r == (sha512_of(data@) == self.checksum@),
    {
        is_integrity_ok(&self.checksum, data)
    }

    /// Decode verified tarball bytes and hold the file inventory.
    pub fn decode_and_store_data(&mut self, data: &Vec<u8>) -> (r: Result<(), TarballError>)
        ensures
            (r is Ok ==> spec_tarball_files(data@) is Ok && (final(self).files matches
                Option::Some(files) && files@ == spec_tarball_files(data@)->Ok_0)),
            (r matches Err(e) ==> spec_tarball_files(data@) == Result::<
                Map<Seq<char>, Seq<u8>>,
                TarballError,
            >::Err(e) && (final(self).files is None)),
            final(self).name == old(self).name,
            final(self).dir == old(self).dir,
            final(self).source_url == old(self).source_url,
            final(self).checksum == old(self).checksum,
    {
        match tarball_files(data) {
            Result::Ok(files) => {
                self.files = Option::Some(files);
                Result::Ok(())
            },
            Result::Err(e) => {
                self.files = Option::None;
                Result::Err(e)
            },
        }
    }

    /// The decoded file paths.
    pub fn get_files(&self) -> (r: Vec<String>)
        ensures
            self.files matches Option::Some(files) ==> (forall|i: int|
                0 <= i < r@.len() ==> files@.contains_key(#[trigger] r@[i]@)) && (forall|
                k: Seq<char>,
            |
                files@.contains_key(k) ==> r@.map_values(|s: String| s@).contains(k)),
            (self.files is None) ==> r@.len() == 0,
    {
        match &self.files {
            Option::Some(files) => {
                files.correspond();
                let n = files.len();
                let mut out: Vec<String> = Vec::new();
                let mut i: usize = 0;
                while i < n
                    invariant
                        i <= n,
                        n == files.spec_len(),
                        out@.len() == i,
                        forall|a: int|
                            0 <= a < out@.len() ==> (#[trigger] out@[a]@) == files.key_at(a),
                    decreases n - i,
                {
                    out.push(String::from_str(files.key_ref(i).as_str()));
                    i = i + 1;
                }
                proof {
                    assert forall|a: int|
                        0 <= a < out@.len() implies files@.contains_key(
                        #[trigger] out@[a]@,
                    ) by {}
                    assert forall|k: Seq<char>|
                        files@.contains_key(k) implies out@.map_values(|s: String| s@).contains(
                        k,
                    ) by {
                        let j = choose|j: int|
                            0 <= j < files.spec_len() && #[trigger] files.key_at(j) == k;
                        assert(out@.map_values(|s: String| s@)[j] == k);
                    }
                }
                out
            },
            Option::None => Vec::new(),
        }
    }

    /// The bytes of the member at `path` (normalized), when the archive
    /// holds one.
    pub fn load_file_by_path(&self, path: &str) -> (r: Option<&Vec<u8>>)
        ensures
            self.files matches Option::Some(files) ==> (match r {
                Option::Some(b) => files@.contains_key(spec_normalize(path@)) && files@.index(
                    spec_normalize(path@),
                ) == b@,
                Option::None => !files@.contains_key(spec_normalize(path@)),
            }),
            (self.files is None) ==> (r is None),
    {
        match &self.files {
            Option::Some(files) => {
                let norm = normalize_path(path);
                files.get(norm.as_str())
            },
            Option::None => Option::None,
        }
    }
}

/// The tarball descriptor a registry `dist` object locates: its `tarball`
/// URL and `integrity` digest.
pub open spec fn spec_tarball_from_dist(
    name: Seq<char>,
    dir: Seq<char>,
    dist: JsonView,
) -> Result<(Seq<char>, Seq<u8>), TarballError> {
    let turl = if dist is Obj {
        spec_obj_get(dist->Obj_0, "tarball"@)
    } else {
        Option::None
    };
    let tint = if dist is Obj {
        spec_obj_get(dist->Obj_0, "integrity"@)
    } else {
        Option::None
    };
    match (turl, tint) {
        (Option::Some(u), Option::Some(s)) => if !(u is Str) || !(s is Str) {
            Result::Err(TarballError::MalformedRegistryPayload)
        } else {
            match spec_parse_integrity(s->Str_0) {
                Result::Ok(b) => match url_norm_of(u->Str_0) {
                    Option::Some(nu) => Result::Ok((nu, b)),
                    Option::None => Result::Err(TarballError::Url),
                },
                Result::Err(e) => Result::Err(e),
            }
        },
        _ => Result::Err(TarballError::MalformedRegistryPayload),
    }
}

/// Build the tarball descriptor a registry `dist` object locates.
pub fn get_pkg_tarball_from_dist(name: String, dir: String, dist: &JsonVal) -> (r: Result<
    PkgTarball,
    TarballError,
>)
    ensures
        (r matches Ok(t) ==> spec_tarball_from_dist(name@, dir@, json_view(*dist)) == Result::<
            (Seq<char>, Seq<u8>),
            TarballError,
        >::Ok((t.source_url@, t.checksum@)) && t.name == name && t.dir == dir && t.files is None),
        (r matches Err(e) ==> spec_tarball_from_dist(name@, dir@, json_view(*dist)) == Result::<
            (Seq<char>, Seq<u8>),
            TarballError,
        >::Err(e)),
{
    let turl = match dist.obj_get("tarball") {
        Option::Some(v) => v,
        Option::None => {
            return Result::Err(TarballError::MalformedRegistryPayload);
        },
    };
    let tint = match dist.obj_get("integrity") {
        Option::Some(v) => v,
        Option::None => {
            return Result::Err(TarballError::MalformedRegistryPayload);
        },
    };
    let url_text = match turl.str_value() {
        Option::Some(s) => s,
        Option::None => {
            return Result::Err(TarballError::MalformedRegistryPayload);
        },
    };
    let int_text = match tint.str_value() {
        Option::Some(s) => s,
        Option::None => {
            return Result::Err(TarballError::MalformedRegistryPayload);
        },
    };
    let checksum = match parse_integrity(int_text.as_str()) {
        Result::Ok(b) => b,
        Result::Err(e) => {
            return Result::Err(e);
        },
    };
    let url = match parse_url(url_text.as_str()) {
        Option::Some(u) => u,
        Option::None => {
            return Result::Err(TarballError::Url);
        },
    };
    Result::Ok(PkgTarball::new(name, dir, url, checksum))
}


/// The `dist` object of the latest published version in a registry
/// metadata document, with that version's text; the fault names what is
/// missing or ill-typed.
pub open spec fn spec_latest_dist(meta: JsonView) -> Result<(Seq<char>, JsonView), TarballError> {
    let tags = if meta is Obj {
        spec_obj_get(meta->Obj_0, "dist-tags"@)
    } else {
        Option::None
    };
    match tags {
        Option::Some(t) => {
            let latest = if t is Obj {
                spec_obj_get(t->Obj_0, "latest"@)
            } else {
                Option::None
            };
            match latest {
                Option::Some(l) => if !(l is Str) {
                    Result::Err(TarballError::MalformedRegistryPayload)
                } else {
                    let versions = spec_obj_get(meta->Obj_0, "versions"@);
                    match versions {
                        Option::Some(vs) => {
                            let entry = if vs is Obj {
                                spec_obj_get(vs->Obj_0, l->Str_0)
                            } else {
                                Option::None
                            };
                            match entry {
                                Option::Some(e) => {
                                    let dist = if e is Obj {
                                        spec_obj_get(e->Obj_0, "dist"@)
                                    } else {
                                        Option::None
                                    };
                                    match dist {
                                        Option::Some(d) => Result::Ok((l->Str_0, d)),
                                        Option::None => Result::Err(
                                            TarballError::MalformedRegistryPayload,
                                        ),
                                    }
                                },
                                Option::None => Result::Err(
                                    TarballError::MalformedRegistryPayload,
                                ),
                            }
                        },
                        Option::None => Result::Err(TarballError::MalformedRegistryPayload),
                    }
                },
                Option::None => Result::Err(TarballError::MalformedRegistryPayload),
            }
        },
        Option::None => Result::Err(TarballError::MalformedRegistryPayload),
    }
}

/// The cache file name of a published tarball: `<name>-<version>.tar.gz`.
pub open spec fn spec_tarball_name(name: Seq<char>, version: Seq<char>) -> Seq<char> {
    name + "-"@ + version + ".tar.gz"@
}

/// Locate the latest published tarball of a package in its registry
/// metadata: its cache file name, cache directory, source URL and
/// expected digest.
pub fn fetch_last_published_tarball_of(pkg_name: &str, cache_dir: String, meta: &JsonVal) -> (r:
    Result<PkgTarball, TarballError>)
    ensures
        (r matches Ok(t) ==> spec_latest_dist(json_view(*meta)) matches Ok(ld)
            && spec_tarball_from_dist(t.name@, t.dir@, ld.1) == Result::<
            (Seq<char>, Seq<u8>),
            TarballError,
        >::Ok((t.source_url@, t.checksum@)) && t.name@ == spec_tarball_name(pkg_name@, ld.0)
            && t.dir == cache_dir && (t.files is None)),
        (r matches Err(e) ==> spec_latest_dist(json_view(*meta)) == Result::<
            (Seq<char>, JsonView),
            TarballError,
        >::Err(e) || (spec_latest_dist(json_view(*meta)) matches Ok(ld)
            && spec_tarball_from_dist(
            spec_tarball_name(pkg_name@, ld.0),
            cache_dir@,
            ld.1,
        ) == Result::<(Seq<char>, Seq<u8>), TarballError>::Err(e))),
{
    let tags = match meta.obj_get("dist-tags") {
        Option::Some(v) => v,
        Option::None => {
            return Result::Err(TarballError::MalformedRegistryPayload);
        },
    };
    let latest = match tags.obj_get("latest") {
        Option::Some(v) => v,
        Option::None => {
            return Result::Err(TarballError::MalformedRegistryPayload);
        },
    };
    let version = match latest.str_value() {
        Option::Some(s) => s,
        Option::None => {
            return Result::Err(TarballError::MalformedRegistryPayload);
        },
    };
    let versions = match meta.obj_get("versions") {
        Option::Some(v) => v,
        Option::None => {
            return Result::Err(TarballError::MalformedRegistryPayload);
        },
    };
    let entry = match versions.obj_get(version.as_str()) {
        Option::Some(v) => v,
        Option::None => {
            return Result::Err(TarballError::MalformedRegistryPayload);
        },
    };
    let dist = match entry.obj_get("dist") {
        Option::Some(v) => v,
        Option::None => {
            return Result::Err(TarballError::MalformedRegistryPayload);
        },
    };
    let mut tarball_name = String::from_str(pkg_name);
    tarball_name.append("-");
    tarball_name.append(version.as_str());
    tarball_name.append(".tar.gz");
    proof {
        assert(tarball_name@ =~= spec_tarball_name(pkg_name@, version@));
    }
    get_pkg_tarball_from_dist(tarball_name, cache_dir, dist)
}

} // verus!
