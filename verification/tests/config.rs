use engram::launch::{
    build_config, default_kind_from_env, default_manifest_path, describe_mode, manifest_candidates,
    migrated_line, started_line, status_lines,
};
use engram::storage::config::{
    config_from_repo_layout, endpoint, EnvSettings, MemoryStoreConfig, StoreKind,
};
use engram::storage::error::{Error, MigrationResult};
use engram::storage::manifest::Manifest;

fn env(url: Option<&str>, path: Option<&str>) -> EnvSettings {
    EnvSettings {
        surreal_url: url.map(String::from),
        surreal_user: None,
        surreal_pass: None,
        embedded_path: path.map(String::from),
        migration_strict: None,
    }
}

fn manifest() -> Manifest {
    Manifest { version: 1, engram_version_min: "0.1.0".to_string(), applied_migrations: vec![] }
}

#[test]
fn embedded_default_when_no_env() {
    let c = MemoryStoreConfig::new(
        "0.1.0",
        "engram",
        "main",
        "/tmp/manifest.toml",
        StoreKind::Embedded { path: None },
    );
    assert!(matches!(c.kind(), StoreKind::Embedded { path: None }));
}

#[test]
fn service_overrides_embedded() {
    let mut c = MemoryStoreConfig::new(
        "0.1.0",
        "engram",
        "main",
        "/tmp/manifest.toml",
        StoreKind::Embedded { path: Some("/tmp/data".into()) },
    );
    c.kind = StoreKind::Service {
        url: "http://localhost:8000".into(),
        user: "root".into(),
        pass: "root".into(),
    };
    assert!(matches!(c.kind(), StoreKind::Service { .. }));
}

#[test]
fn the_environment_selects_the_store() {
    let config = |e: &EnvSettings| MemoryStoreConfig::from_env("1.2.3", "ns", "db", "m.toml", e);
    let c = config(&env(None, None));
    assert!(matches!(c.kind, StoreKind::Embedded { path: None }));
    assert_eq!((c.engram_version.as_str(), c.namespace.as_str()), ("1.2.3", "ns"));
    assert_eq!((c.database.as_str(), c.manifest_path.as_str()), ("db", "m.toml"));
    assert!(!c.strict);
    let c = config(&env(Some(""), Some("/data")));
    assert!(matches!(&c.kind, StoreKind::Embedded { path: Some(p) } if p == "/data"));
    let both = env(Some("http://db:8000"), Some("/data"));
    assert!(both.has_conflict());
    let c = config(&both);
    assert!(matches!(
        &c.kind,
        StoreKind::Service { url, user, pass }
            if url == "http://db:8000" && user == "root" && pass == "root"
    ));
    let mut named = env(Some("http://db"), None);
    named.surreal_user = Some("ada".to_string());
    named.surreal_pass = Some(String::new());
    assert!(matches!(
        config(&named).kind,
        StoreKind::Service { user, pass, .. } if user == "ada" && pass == "root"
    ));
}

#[test]
fn the_strict_flag_is_read() {
    for (text, strict) in [("1", true), ("true", true), ("yes", true), ("0", false), ("TRUE", false)]
    {
        let mut e = env(None, None);
        e.migration_strict = Some(text.to_string());
        assert_eq!(MemoryStoreConfig::from_env("0", "n", "d", "m", &e).strict, strict, "{text}");
    }
    let mut c = MemoryStoreConfig::from_env("0", "n", "d", "m", &env(None, None));
    c.strict = true;
    c.apply_env_overrides(&env(None, None));
    assert!(c.strict);
}

#[test]
fn a_service_is_kept_where_only_a_path_is_given() {
    let mut c = MemoryStoreConfig::from_env("0", "n", "d", "m", &env(Some("http://db"), None));
    c.apply_env_overrides(&env(None, Some("/data")));
    assert!(matches!(c.kind, StoreKind::Service { .. }));
}

#[test]
fn a_manifest_configures_the_store() {
    let c = config_from_repo_layout(Ok(manifest()), "schema/manifest.toml", "n", "d", &env(None, None))
        .unwrap();
    assert_eq!(c.engram_version, "0.1.0");
    assert_eq!(c.manifest_path, "schema/manifest.toml");
    let e = MemoryStoreConfig::from_manifest(
        Err(Error::Manifest("unreadable".to_string())),
        "m",
        "n",
        "d",
        &env(None, None),
    )
    .unwrap_err();
    assert_eq!(e.message(), "manifest error: unreadable");
}

#[test]
fn endpoints_lose_their_scheme() {
    assert_eq!(endpoint("http://localhost:8000"), "localhost:8000");
    assert_eq!(endpoint("https://db.example"), "db.example");
    assert_eq!(endpoint("http://http://https://x"), "x");
    assert_eq!(endpoint("ws://x"), "ws://x");
}

#[test]
fn the_command_line_selects_the_same_store() {
    for e in [
        env(None, None),
        env(None, Some("/data")),
        env(Some("http://db"), None),
        env(Some("http://db"), Some("/data")),
        env(Some(""), Some("")),
    ] {
        let by_env = MemoryStoreConfig::from_env("0", "n", "d", "m", &e);
        assert_eq!(describe_mode(&default_kind_from_env(&e)), describe_mode(by_env.kind()));
    }
    let mut strict = env(None, None);
    strict.migration_strict = Some("1".to_string());
    assert!(!build_config("0", "n", "d", "m", &strict).strict);
}

#[test]
fn the_manifest_is_looked_for_upwards() {
    let places = manifest_candidates("/a/b");
    assert_eq!(
        places,
        vec!["/a/b/schema/manifest.toml", "/a/schema/manifest.toml", "/schema/manifest.toml"]
    );
    assert_eq!(default_manifest_path(&places, &vec![false, true, true]), "/a/schema/manifest.toml");
    assert_eq!(default_manifest_path(&places, &vec![false, false, false]), "schema/manifest.toml");
    assert_eq!(
        manifest_candidates("."),
        vec!["./schema/manifest.toml", "schema/manifest.toml"]
    );
}

#[test]
fn the_commands_report() {
    let c = build_config("0.1.0", "engram", "main", "m", &env(None, Some("/data")));
    assert_eq!(started_line(&c, 3), "engram started: namespace=engram, database=main, schema_version=3");
    assert_eq!(
        status_lines(&c, 12),
        vec![
            "namespace:  engram",
            "database:   main",
            "schema:     v12",
            "mode:       embedded (file: /data)",
        ]
    );
    assert_eq!(describe_mode(&StoreKind::Embedded { path: None }), "embedded (in-memory)");
    let service = default_kind_from_env(&env(Some("http://db"), None));
    assert_eq!(describe_mode(&service), "service (http://db)");
    let mut result = MigrationResult::default();
    result.skipped = vec![1, 2];
    result.current_version = 2;
    assert_eq!(
        migrated_line(&result),
        "migrations complete: applied=0, skipped=2, version=2, warnings=0"
    );
}
