use staticfilemap::codec::{compress, decompress, Algorithm};
use staticfilemap::config::{resolve, BuildError, EnvMap};
use staticfilemap::emit::build_map;
use staticfilemap::map::StaticMap;
use std::io::Read;

fn readme_bytes() -> Vec<u8> {
    b"# staticfilemap\n\nEmbed static files in the compiled artifact.\n".to_vec()
}

fn license_bytes() -> Vec<u8> {
    let mut out = b"Copyright (c) 2021 example authors\n\n".to_vec();
    for _ in 0..8 {
        out.extend_from_slice(
            b"Permission is hereby granted, free of charge, to any person.\n",
        );
    }
    out
}

fn build(
    names: &str,
    files: &str,
    level: u32,
    algorithm: &str,
    contents: Vec<Option<Vec<u8>>>,
) -> StaticMap {
    let env = EnvMap::new();
    let config = resolve("string", names, files, level, algorithm, &env).unwrap();
    build_map(config, contents).unwrap()
}

fn two_asset_contents() -> Vec<Option<Vec<u8>>> {
    vec![Some(readme_bytes()), Some(license_bytes())]
}

#[test]
fn simple() {
    let map = build(
        "readme;license",
        "README.md;LICENSE",
        0,
        "zstd",
        two_asset_contents(),
    );
    let content = map.get("license").unwrap();
    let string = String::from_utf8_lossy(&content[..10]);
    assert!(&string == "Copyright ");
}

#[test]
fn get_match() {
    let map = build(
        "readme;license",
        "README.md;LICENSE",
        0,
        "zstd",
        two_asset_contents(),
    );
    let content = map.get_match("lic").unwrap();
    let string = String::from_utf8_lossy(&content[..10]);
    assert!(&string == "Copyright ");
}

#[test]
fn compression_lz4() {
    let map = build(
        "readme;license",
        "README.md;LICENSE",
        1,
        "lz4",
        two_asset_contents(),
    );
    let compressed = map.get("license").unwrap();

    let mut content = Vec::new();
    let mut decoder = minilz4::Decoder::new(compressed.as_slice()).unwrap();
    decoder.read_to_end(&mut content).unwrap();

    let string = String::from_utf8_lossy(&content[..10]);
    assert!(&string == "Copyright ");
}

#[test]
fn compression_zstd() {
    let map = build(
        "readme;license",
        "README.md;LICENSE",
        1,
        "zstd",
        two_asset_contents(),
    );
    let compressed = map.get("license").unwrap();
    let content = zstd::decode_all(compressed.as_slice()).unwrap();

    let string = String::from_utf8_lossy(&content[..10]);
    assert!(&string == "Copyright ");
}

#[test]
fn parse_env() {
    let mut env = EnvMap::new();
    env.insert("CARGO_PKG_NAME".to_string(), "staticfilemap".to_string());
    env.insert("CARGO_PKG_LICENSE_FILE".to_string(), "LICENSE".to_string());

    let config = resolve(
        "env",
        "CARGO_PKG_NAME",
        "CARGO_PKG_LICENSE_FILE",
        0,
        "zstd",
        &env,
    )
    .unwrap();
    let map = build_map(config, vec![Some(license_bytes())]).unwrap();
    let _ = map.get("staticfilemap").unwrap();
}

#[test]
fn keys() {
    let map = build(
        "readme;license",
        "README.md;LICENSE",
        0,
        "zstd",
        two_asset_contents(),
    );
    let keys = map.keys();
    assert_eq!(keys.len(), 2);
    assert_eq!(keys[0], "readme");
    assert_eq!(keys[1], "license");
}

#[test]
fn types() {
    let map = build(
        "readme;license",
        "README.md;LICENSE",
        0,
        "zstd",
        two_asset_contents(),
    );
    let _: &Vec<u8> = map.get("readme").unwrap();
    let _: &Vec<String> = map.keys();
}

#[test]
fn implicit_names() {
    let map = build("", "README.md;LICENSE", 0, "zstd", two_asset_contents());
    let content = map.get("LICENSE").unwrap();
    let string = String::from_utf8_lossy(&content[..10]);
    assert!(&string == "Copyright ");
}

#[test]
fn iter() {
    let map = build("", "README.md;LICENSE", 0, "zstd", two_asset_contents());
    let mut cursor = map.iter();
    let mut data: Vec<(String, Vec<u8>)> = Vec::new();
    while let Some((name, payload)) = cursor.next() {
        data.push((name.clone(), payload.clone()));
    }
    assert!(data[1].0 == "LICENSE");
    let string = String::from_utf8_lossy(&data[1].1);
    assert!(&string[..10] == "Copyright ");
}

#[test]
fn parallel_lengths() {
    let map = build(
        "readme;license",
        "README.md;LICENSE",
        0,
        "zstd",
        two_asset_contents(),
    );
    assert_eq!(map.keys().len(), 2);
    assert_eq!(map.data().len(), 2);
}

#[test]
fn uncompressed_payloads_are_raw() {
    let map = build(
        "readme;license",
        "README.md;LICENSE",
        0,
        "zstd",
        two_asset_contents(),
    );
    assert_eq!(map.get("readme").unwrap(), &readme_bytes());
    assert_eq!(map.get("license").unwrap(), &license_bytes());
}

#[test]
fn exact_lookup_absence() {
    let map = build(
        "readme;license",
        "README.md;LICENSE",
        0,
        "zstd",
        two_asset_contents(),
    );
    assert!(map.get("nonexistent").is_none());
}

#[test]
fn ambiguous_match_is_absence() {
    let map = build(
        "readme;license",
        "README.md;LICENSE",
        0,
        "zstd",
        two_asset_contents(),
    );
    // "e" occurs in both keys, so disambiguation refuses to choose.
    assert!(map.get_match("e").is_none());
    assert!(map.get_match_index("e").is_none());
    assert_eq!(map.get_match_index("lic"), Some(1));
}

#[test]
fn positional_access() {
    let map = build(
        "readme;license",
        "README.md;LICENSE",
        0,
        "zstd",
        two_asset_contents(),
    );
    assert_eq!(map.get_index(0), &readme_bytes());
    assert_eq!(map.get_index(1), &license_bytes());
}

#[test]
fn iteration_restarts_and_exhausts() {
    let map = build(
        "readme;license",
        "README.md;LICENSE",
        0,
        "zstd",
        two_asset_contents(),
    );
    let mut cursor = map.iter();
    assert_eq!(cursor.remaining(), 2);
    let first = cursor.next().unwrap();
    assert_eq!(first.0, "readme");
    assert_eq!(cursor.remaining(), 1);
    let second = cursor.next().unwrap();
    assert_eq!(second.0, "license");
    assert_eq!(cursor.remaining(), 0);
    assert!(cursor.next().is_none());
    assert!(cursor.next().is_none());

    let mut fresh = map.iter();
    let restarted = fresh.next().unwrap();
    assert_eq!(restarted.0, "readme");
}

#[test]
fn env_indirection_matches_literal() {
    let mut env = EnvMap::new();
    env.insert("ASSET_NAMES".to_string(), "readme;license".to_string());
    env.insert("ASSET_FILES".to_string(), "README.md;LICENSE".to_string());

    let indirect = resolve("env", "ASSET_NAMES", "ASSET_FILES", 0, "zstd", &env).unwrap();
    let literal = resolve(
        "string",
        "readme;license",
        "README.md;LICENSE",
        0,
        "zstd",
        &env,
    )
    .unwrap();
    assert_eq!(indirect.names, literal.names);
    assert_eq!(indirect.files, literal.files);

    let from_env = build_map(indirect, two_asset_contents()).unwrap();
    let from_literal = build_map(literal, two_asset_contents()).unwrap();
    assert_eq!(from_env.keys(), from_literal.keys());
    assert_eq!(from_env.data(), from_literal.data());
}

#[test]
fn mode_and_algorithm_are_case_insensitive() {
    let env = EnvMap::new();
    let config = resolve("String", "a", "x", 3, "ZsTd", &env).unwrap();
    assert_eq!(config.compression_level, 3);
    assert_eq!(config.algorithm, Algorithm::Zstd);
    let config = resolve("STRING", "a", "x", 1, "LZ4", &env).unwrap();
    assert_eq!(config.algorithm, Algorithm::Lz4);
}

#[test]
fn invalid_mode_is_fatal() {
    let env = EnvMap::new();
    match resolve("file", "a", "x", 0, "zstd", &env) {
        Err(BuildError::InvalidMode(value)) => assert_eq!(value, "file"),
        other => panic!("expected an invalid-mode error, got {:?}", other.map(|c| c.names)),
    }
}

#[test]
fn invalid_algorithm_is_fatal() {
    let env = EnvMap::new();
    match resolve("string", "a", "x", 0, "brotli", &env) {
        Err(BuildError::InvalidAlgorithm(value)) => assert_eq!(value, "brotli"),
        other => panic!(
            "expected an invalid-algorithm error, got {:?}",
            other.map(|c| c.names)
        ),
    }
}

#[test]
fn missing_env_var_is_fatal() {
    let env = EnvMap::new();
    match resolve("env", "", "NO_SUCH_VARIABLE", 0, "zstd", &env) {
        Err(BuildError::MissingEnvVar(name)) => assert_eq!(name, "NO_SUCH_VARIABLE"),
        other => panic!(
            "expected a missing-variable error, got {:?}",
            other.map(|c| c.names)
        ),
    }
}

#[test]
fn mismatched_counts_are_fatal() {
    let env = EnvMap::new();
    match resolve("string", "only", "x;y", 0, "zstd", &env) {
        Err(BuildError::CountMismatch(names, files)) => {
            assert_eq!(names, 1);
            assert_eq!(files, 2);
        },
        other => panic!(
            "expected a count-mismatch error, got {:?}",
            other.map(|c| c.names)
        ),
    }
}

#[test]
fn empty_file_list_is_fatal() {
    let env = EnvMap::new();
    match resolve("string", "", "", 0, "zstd", &env) {
        Err(BuildError::NoFiles) => {},
        other => panic!("expected a no-files error, got {:?}", other.map(|c| c.names)),
    }
}

#[test]
fn missing_file_aborts_build() {
    let env = EnvMap::new();
    let config = resolve("string", "", "README.md;LICENSE", 0, "zstd", &env).unwrap();
    match build_map(config, vec![Some(readme_bytes()), None]) {
        Err(BuildError::MissingFile(path)) => assert_eq!(path, "LICENSE"),
        _ => panic!("expected a missing-file error"),
    }
}

#[test]
fn empty_segments_are_discarded() {
    let env = EnvMap::new();
    let config = resolve("string", ";a;;b;", ";x;;y;", 0, "zstd", &env).unwrap();
    assert_eq!(config.names, vec!["a".to_string(), "b".to_string()]);
    assert_eq!(config.files, vec!["x".to_string(), "y".to_string()]);
}

#[test]
fn default_names_are_basenames() {
    let env = EnvMap::new();
    let config = resolve(
        "string",
        "",
        "docs/guide/README.md;assets/logo.png",
        0,
        "zstd",
        &env,
    )
    .unwrap();
    assert_eq!(
        config.names,
        vec!["README.md".to_string(), "logo.png".to_string()]
    );
}

#[test]
fn duplicate_names_first_match_wins() {
    let map = build(
        "entry;entry",
        "a.txt;b.txt",
        0,
        "zstd",
        vec![Some(b"first".to_vec()), Some(b"second".to_vec())],
    );
    assert_eq!(map.get("entry").unwrap(), &b"first".to_vec());
}

#[test]
fn lz4_round_trip_through_library() {
    let raw = license_bytes();
    let compressed = compress(&raw, 9, Algorithm::Lz4).unwrap();
    assert_ne!(compressed, raw);
    let decoded = decompress(&compressed, Algorithm::Lz4).unwrap();
    assert_eq!(decoded, raw);
}

#[test]
fn zstd_round_trip_through_library() {
    let raw = license_bytes();
    let compressed = compress(&raw, 19, Algorithm::Zstd).unwrap();
    assert_ne!(compressed, raw);
    let decoded = decompress(&compressed, Algorithm::Zstd).unwrap();
    assert_eq!(decoded, raw);
}

#[test]
fn level_zero_stores_bytes_unchanged() {
    let raw = readme_bytes();
    let payload = compress(&raw, 0, Algorithm::Lz4).unwrap();
    assert_eq!(payload, raw);
}
