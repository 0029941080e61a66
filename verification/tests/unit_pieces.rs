//! Unit checks of the smaller pieces: extensions, paths, manifest and
//! registry configuration, globs, integrity, and the archive pipeline.

use breakpoint::contents::PkgContents;
use breakpoint::files::FileExt;
use breakpoint::globs::{path_matches_a_pattern_in, GlobPat};
use breakpoint::jsonval::{parse_json, JsonVal};
use breakpoint::paths::{normalize_path, parent_dir, path_join};
use breakpoint::pkg::{get_registry_url, parse_config_as_json, parse_url, PkgError};
use breakpoint::strmap::StrMap;
use breakpoint::entries::{resolve_string_or_object_entries, EntriesError, PkgEntry};
use breakpoint::tarball::{
    is_integrity_ok, parse_integrity, sha512, tarball_files, base64_decode, gunzip,
    fetch_last_published_tarball_of, PkgTarball, Tarball, TarballError,
};

#[test]
fn file_extensions_classify() {
    assert!(matches!(FileExt::from("a/b/c.js"), FileExt::Js));
    assert!(matches!(FileExt::from("x.tsx"), FileExt::Tsx));
    assert!(matches!(FileExt::from("x.mts"), FileExt::Mts));
    assert!(matches!(FileExt::from("logo.png"), FileExt::Other(_)));
    assert!(matches!(FileExt::from("LICENSE"), FileExt::NoExt));
    assert!(matches!(FileExt::from(".npmrc"), FileExt::NoExt));
    assert!(FileExt::from("m.cts").is_ts());
    assert!(!FileExt::from("m.cjs").is_ts());
    assert!(FileExt::from("a.png").is_other());
    assert!(FileExt::from("a.jsx").is_source());
    assert!(!FileExt::from("a.png").is_source());
    assert_eq!(FileExt::from("a.png").to_value(), "png");
    assert_eq!(FileExt::from("a.mjs").to_value(), "mjs");
}

#[test]
fn paths_join_and_normalize() {
    assert_eq!(normalize_path("./impl"), "impl");
    assert_eq!(normalize_path("a/./b//c"), "a/b/c");
    assert_eq!(normalize_path("a/../b"), "b");
    assert_eq!(path_join("src", "./util.js"), "src/util.js");
    assert_eq!(path_join("", "./impl"), "impl");
    assert_eq!(path_join("src/nested", "../lib.js"), "src/lib.js");
    assert_eq!(parent_dir("src/index.js"), "src");
    assert_eq!(parent_dir("index.js"), "");
}

#[test]
fn manifest_validation() {
    assert!(matches!(parse_config_as_json("not json"), Err(PkgError::InvalidJson)));
    assert!(matches!(
        parse_config_as_json("{\"name\": \"x\"}"),
        Err(PkgError::InvalidManifestField)
    ));
    assert!(matches!(
        parse_config_as_json("{\"name\": \"x\", \"version\": 3}"),
        Err(PkgError::InvalidManifestField)
    ));
    let v = parse_config_as_json("{\"name\": \"x\", \"version\": \"1.2.3\"}").expect("valid");
    let name = v.obj_get("name").expect("name").str_value().expect("string");
    assert_eq!(name, "x");
}

#[test]
fn parsed_json_values_classify() {
    let v = parse_json("{\"a\": [1, true, null, \"s\"]}").expect("valid json");
    let arr = v.obj_get("a").expect("member");
    assert_eq!(arr.arr_len(), 4);
    assert!(!arr.arr_at(0).is_string());
    assert_eq!(arr.arr_at(1).as_bool(), Some(true));
    assert!(arr.arr_at(3).is_string());
    assert!(parse_json("{").is_none());
}

#[test]
fn registry_url_from_npmrc() {
    let u = get_registry_url(Some("  registry=https://mirror.example.com/npm/\nother=1"))
        .expect("valid");
    assert_eq!(u, "https://mirror.example.com/npm/");
    let q = get_registry_url(Some("registry=https://mirror.example.com/npm/?scope=a=b"))
        .expect("valid with query");
    assert_eq!(q, "https://mirror.example.com/npm/?scope=a=b");
    let d = get_registry_url(None).expect("default parses");
    assert_eq!(d, "https://registry.npmjs.org/");
    let skip = get_registry_url(Some("# comment\nnothing=here")).expect("falls back");
    assert_eq!(skip, "https://registry.npmjs.org/");
    assert!(matches!(
        get_registry_url(Some("registry=::not a url::")),
        Err(PkgError::InvalidUrl(_))
    ));
}

#[test]
fn url_parsing_normalizes() {
    assert_eq!(parse_url("HTTPS://EXAMPLE.COM").expect("valid"), "https://example.com/");
    assert!(parse_url("not a url").is_none());
}

#[test]
fn glob_matching_and_publish_rules() {
    let pat = GlobPat::compile("**/*.js".to_string()).expect("valid glob");
    assert!(pat.matches("src/a.js"));
    assert!(!pat.matches("src/a.ts"));
    assert!(path_matches_a_pattern_in("src/a.js", &vec![pat]));
    assert!(GlobPat::compile("[".to_string()).is_none());

    let mut files: StrMap<Vec<u8>> = StrMap::new();
    for p in ["index.js", "README.md", "node_modules/dep/x.txt", "notes.orig", "data.bin"] {
        files.insert(p.to_string(), vec![1u8]);
    }
    let contents = PkgContents::new(files, &JsonVal::Null, None, false).expect("globs build");
    let assets = contents.asset_list();
    assert!(assets.contains(&"README.md".to_string()));
    assert!(assets.contains(&"data.bin".to_string()));
    assert!(!assets.contains(&"index.js".to_string()));
    assert!(!assets.iter().any(|p| p.starts_with("node_modules")));
    assert!(!assets.contains(&"notes.orig".to_string()));
}

#[test]
fn npmignore_adds_excludes_and_negations() {
    let mut files: StrMap<Vec<u8>> = StrMap::new();
    for p in ["docs/a.md", "docs/keep.md", "README.md"] {
        files.insert(p.to_string(), vec![1u8]);
    }
    let ignore = "# comment\n\ndocs/*\n!docs/keep.md\n";
    let contents = PkgContents::new(files, &JsonVal::Null, Some(ignore), false)
        .expect("globs build");
    let assets = contents.asset_list();
    assert!(!assets.contains(&"docs/a.md".to_string()));
    assert!(assets.contains(&"docs/keep.md".to_string()));
    assert!(assets.contains(&"README.md".to_string()));
}

#[test]
fn inventory_keys_are_normalized() {
    let mut files: StrMap<Vec<u8>> = StrMap::new();
    files.insert("./logo.png".to_string(), b"img".to_vec());
    files.insert("docs/../NOTICE.txt".to_string(), b"txt".to_vec());
    let contents = PkgContents::new(files, &JsonVal::Null, None, false).expect("globs build");
    let assets = contents.asset_list();
    assert!(assets.contains(&"logo.png".to_string()));
    assert!(assets.contains(&"NOTICE.txt".to_string()));
    assert!(contents.load_file("logo.png").is_some());
    assert!(contents.load_file("./logo.png").is_none());
}

#[test]
fn every_listed_asset_loads() {
    let mut files: StrMap<Vec<u8>> = StrMap::new();
    for p in ["README.md", "assets/logo.png", "index.js"] {
        files.insert(p.to_string(), b"data".to_vec());
    }
    let contents = PkgContents::new(files, &JsonVal::Null, None, false).expect("globs build");
    for p in contents.asset_list() {
        assert!(contents.load_file(&p).is_some());
    }
    assert!(contents.load_file("absent.txt").is_none());
}

#[test]
fn integrity_strings_parse() {
    assert!(matches!(parse_integrity("sha512-aGVsbG8="), Ok(b) if b == b"hello".to_vec()));
    assert!(matches!(parse_integrity("sha1-aGVsbG8="), Err(TarballError::UnsupportedIntegrity)));
    assert!(matches!(parse_integrity("nodashes"), Err(TarballError::Validation)));
    assert!(matches!(parse_integrity("sha512-!!!"), Err(TarballError::Base64Decode)));
    let t = Tarball::new("https://example.com/p.tgz", "sha512-aGVsbG8=").expect("valid");
    assert_eq!(t.url, "https://example.com/p.tgz");
    assert_eq!(t.checksum, b"hello".to_vec());
}

#[test]
fn sha512_digest_matches_known_vector() {
    let empty: Vec<u8> = Vec::new();
    let digest = sha512(&empty);
    assert_eq!(digest.len(), 64);
    let expected: Vec<u8> = vec![
        0xcf, 0x83, 0xe1, 0x35, 0x7e, 0xef, 0xb8, 0xbd, 0xf1, 0x54, 0x28, 0x50, 0xd6, 0x6d,
        0x80, 0x07, 0xd6, 0x20, 0xe4, 0x05, 0x0b, 0x57, 0x15, 0xdc, 0x83, 0xf4, 0xa9, 0x21,
        0xd3, 0x6c, 0xe9, 0xce, 0x47, 0xd0, 0xd1, 0x3c, 0x5d, 0x85, 0xf2, 0xb0, 0xff, 0x83,
        0x18, 0xd2, 0x87, 0x7e, 0xec, 0x2f, 0x63, 0xb9, 0x31, 0xbd, 0x47, 0x41, 0x7a, 0x81,
        0xa5, 0x38, 0x32, 0x7a, 0xf9, 0x27, 0xda, 0x3e,
    ];
    assert_eq!(digest, expected);
    assert!(is_integrity_ok(&expected, &empty));
    assert!(!is_integrity_ok(&expected, &b"x".to_vec()));
}

#[test]
fn base64_and_gzip_round_trip() {
    assert_eq!(base64_decode("aGk=").expect("valid"), b"hi".to_vec());
    assert!(base64_decode("!!").is_none());
    let mut gz = flate2::write::GzEncoder::new(Vec::new(), flate2::Compression::default());
    std::io::Write::write_all(&mut gz, b"payload").expect("write");
    let compressed = gz.finish().expect("finish");
    assert_eq!(gunzip(&compressed).expect("valid gzip"), b"payload".to_vec());
    assert!(gunzip(&b"junk".to_vec()).is_none());
}

fn build_tarball(members: &[(&str, &[u8])]) -> Vec<u8> {
    let mut builder = tar::Builder::new(Vec::new());
    for (path, data) in members {
        let mut header = tar::Header::new_gnu();
        header.set_size(data.len() as u64);
        header.set_mode(0o644);
        header.set_cksum();
        builder.append_data(&mut header, path, *data).expect("append");
    }
    let raw = builder.into_inner().expect("tar bytes");
    let mut gz = flate2::write::GzEncoder::new(Vec::new(), flate2::Compression::default());
    std::io::Write::write_all(&mut gz, &raw).expect("write");
    gz.finish().expect("finish")
}

#[test]
fn tarball_decodes_into_an_inventory() {
    let data = build_tarball(&[
        ("package/package.json", b"{}"),
        ("package/index.js", b"exports"),
    ]);
    let files = tarball_files(&data).expect("decodes");
    assert!(files.get("package.json").is_some());
    assert!(files.get("index.js").is_some());
    assert!(files.get("missing").is_none());

    let mut t = PkgTarball::new(
        "p-1.0.0.tar.gz".to_string(),
        ".tmp".to_string(),
        "https://example.com/p.tgz".to_string(),
        sha512(&data),
    );
    assert!(t.is_integrity_ok(&data));
    assert!(!t.is_integrity_ok(&b"tampered".to_vec()));
    t.decode_and_store_data(&data).expect("decodes");
    let listed = t.get_files();
    assert!(listed.contains(&"package.json".to_string()));
    assert_eq!(t.load_file_by_path("./index.js").expect("loads"), &b"exports".to_vec());
    assert!(t.load_file_by_path("nope").is_none());
}

#[test]
fn malformed_archives_are_rejected() {
    assert!(matches!(tarball_files(&b"junk".to_vec()), Err(TarballError::GzipMalformed)));
    let stray = build_tarball(&[("loose.txt", b"x")]);
    assert!(matches!(tarball_files(&stray), Err(TarballError::TarMalformed)));
}

#[test]
fn registry_metadata_locates_the_latest_tarball() {
    let meta = parse_json(
        "{\"dist-tags\": {\"latest\": \"2.0.0\"}, \"versions\": {\"2.0.0\": {\"dist\": \
         {\"tarball\": \"https://example.com/p-2.0.0.tgz\", \"integrity\": \"sha512-aGk=\"}}}}",
    )
    .expect("valid json");
    let t = fetch_last_published_tarball_of("p", ".tmp".to_string(), &meta).expect("locates");
    assert_eq!(t.name, "p-2.0.0.tar.gz");
    assert_eq!(t.dir, ".tmp");
    assert_eq!(t.source_url, "https://example.com/p-2.0.0.tgz");
    assert_eq!(t.checksum, b"hi".to_vec());
    let bad = parse_json("{\"dist-tags\": {}}").expect("valid json");
    assert!(matches!(
        fetch_last_published_tarball_of("p", ".tmp".to_string(), &bad),
        Err(TarballError::MalformedRegistryPayload)
    ));
}

#[test]
fn entry_validation_rejects_bad_entries() {
    let mut files: StrMap<Vec<u8>> = StrMap::new();
    files.insert("index.js".to_string(), vec![1u8]);
    let contents = PkgContents::new(files, &JsonVal::Null, None, false).expect("globs build");
    let entry = PkgEntry::new("main".to_string(), "index.js".to_string(), &contents)
        .expect("valid entry");
    assert_eq!(entry.dir_path(), "");
    assert!(entry.load_file(&contents).is_some());
    assert!(matches!(
        PkgEntry::new("main".to_string(), "style.css".to_string(), &contents),
        Err(EntriesError::InvalidEntryExtension(_))
    ));
    assert!(matches!(
        PkgEntry::new("main".to_string(), "gone.js".to_string(), &contents),
        Err(EntriesError::EntryMissing(_))
    ));
}

#[test]
fn browser_overrides_validate() {
    let mut files: StrMap<Vec<u8>> = StrMap::new();
    files.insert("a.js".to_string(), vec![1u8]);
    let contents = PkgContents::new(files, &JsonVal::Null, None, false).expect("globs build");
    let good = JsonVal::Obj(vec![(
        "browser".to_string(),
        JsonVal::Obj(vec![
            ("./a.js".to_string(), JsonVal::Str("./a.js".to_string())),
            ("fs".to_string(), JsonVal::Bool(false)),
        ]),
    )]);
    let m = resolve_string_or_object_entries("browser", &good, &contents).expect("resolves");
    assert!(m.get("./a.js").is_some());
    assert!(m.get("fs").is_none());
    let bad = JsonVal::Obj(vec![(
        "browser".to_string(),
        JsonVal::Obj(vec![("x".to_string(), JsonVal::Bool(true))]),
    )]);
    assert!(matches!(
        resolve_string_or_object_entries("browser", &bad, &contents),
        Err(EntriesError::InvalidBrowserOverride(_))
    ));
}
