use std::collections::BTreeMap;

use airouter_proxy::config::{
    asks_debug, check_url, env_value, load_cfg, parse_file_cfg, validate_upstream, Cfg, CfgError,
    ConfigFile, EnvRead, EnvReads, EnvVar, FileCfg, UrlParts,
};
use airouter_proxy::json::{parse_json, Json, JsonShape};
use serde_json::value::RawValue;

type Sections = BTreeMap<String, Box<RawValue>>;

fn section(fields: &Sections, key: &str) -> Result<Json, String> {
    match fields.get(key) {
        Some(raw) => parse_json(raw.get()),
        None => Ok(JsonShape::Null),
    }
}

fn text<'a>(fields: &'a Sections, key: &str) -> &'a str {
    fields.get(key).map_or("null", |raw| raw.get())
}

fn read_fields(config: &str) -> Result<FileCfg, String> {
    let fields: Sections = serde_json::from_str(config).map_err(|e| e.to_string())?;
    let fault = |e: serde_json::Error| e.to_string();
    Ok(FileCfg {
        port: serde_json::from_str(text(&fields, "port")).map_err(fault)?,
        upstream: serde_json::from_str(text(&fields, "upstream")).map_err(fault)?,
        concurrency: serde_json::from_str(text(&fields, "concurrency")).map_err(fault)?,
        queue_timeout: serde_json::from_str(text(&fields, "queue_timeout")).map_err(fault)?,
        patch: section(&fields, "patch")?,
        rename: section(&fields, "rename")?,
        api_key: serde_json::from_str(text(&fields, "api_key")).map_err(fault)?,
    })
}

fn file(config: &str) -> ConfigFile {
    ConfigFile::Read(read_fields(config))
}

fn read(value: Option<&str>) -> EnvRead {
    match value {
        Some(value) => EnvRead::Value(value.to_string()),
        None => EnvRead::Absent,
    }
}

fn no_env() -> EnvReads {
    EnvReads {
        port: EnvRead::Absent,
        upstream: EnvRead::Absent,
        api_key: EnvRead::Absent,
        concurrency: EnvRead::Absent,
        queue_timeout: EnvRead::Absent,
    }
}

fn upstream_env(upstream: &str) -> EnvReads {
    let mut env = no_env();
    env.upstream = read(Some(upstream));
    env
}

fn load(file: ConfigFile, env: EnvReads) -> Result<Cfg, CfgError> {
    load_cfg(file, env, &vec!["airouter-proxy".to_string()])
}

fn message(file: ConfigFile, env: EnvReads) -> String {
    load(file, env).unwrap_err().message()
}

#[test]
fn invalid_config_is_rejected() {
    for config in [
        "{",
        r#"{"port":0}"#,
        r#"{"port":70000}"#,
        r#"{"patch":[]}"#,
        r#"{"rename":{"old":1}}"#,
        r#"{"api_key":""}"#,
    ] {
        assert!(
            parse_file_cfg(read_fields(config)).is_err(),
            "accepted {config}"
        );
    }
    assert!(validate_upstream("ftp://example.com").is_err());
    assert!(validate_upstream("https://example.com?token=x").is_err());
}

#[test]
fn each_fault_of_the_file_has_its_message() {
    for (config, expected) in [
        (
            "{",
            "invalid config.json: EOF while parsing an object at line 1 column 1",
        ),
        (
            r#"{"port":0}"#,
            "invalid config.json port: expected 1..=65535",
        ),
        (
            r#"{"concurrency":0}"#,
            "invalid config.json concurrency: expected at least 1",
        ),
        (
            r#"{"upstream":""}"#,
            "config.json upstream must not be empty",
        ),
        (
            r#"{"patch":"x"}"#,
            "config.json patch must be an object or null",
        ),
        (
            r#"{"rename":[]}"#,
            "config.json rename must be an object or null",
        ),
        (
            r#"{"rename":{"a":"b","c":null}}"#,
            "config.json rename values must be strings",
        ),
        (r#"{"api_key":""}"#, "config.json api_key must not be empty"),
    ] {
        let error = parse_file_cfg(read_fields(config)).unwrap_err();
        assert_eq!(error.message(), expected);
    }
    assert_eq!(
        message(ConfigFile::Unreadable("denied".to_string()), no_env()),
        "cannot read config.json: denied"
    );
    assert_eq!(
        CfgError::Client("oops".to_string()).message(),
        "cannot build http client: oops; missing system CA certificates? install ca-certificates"
    );
}

#[test]
fn an_accepted_file_is_unchanged() {
    let cfg = parse_file_cfg(read_fields(
        r#"{"port":9,"upstream":"http://u","concurrency":2,"queue_timeout":7,"api_key":"k"}"#,
    ))
    .unwrap();
    assert_eq!(cfg.port, Some(9));
    assert_eq!(cfg.upstream.as_deref(), Some("http://u"));
    assert_eq!(cfg.concurrency, Some(2));
    assert_eq!(cfg.queue_timeout, Some(7));
    assert_eq!(cfg.api_key.as_deref(), Some("k"));
    assert!(matches!(cfg.patch, JsonShape::Null));
    assert!(matches!(cfg.rename, JsonShape::Null));
}

#[test]
fn each_fault_of_the_environment_has_its_message() {
    let address = "http://u";
    let mut env = upstream_env(address);
    env.port = read(Some("0"));
    assert_eq!(
        message(ConfigFile::Missing, env),
        "invalid PORT \"0\": expected 1..=65535"
    );
    let mut env = upstream_env(address);
    env.port = read(Some("a\"b"));
    assert_eq!(
        message(ConfigFile::Missing, env),
        "invalid PORT \"a\\\"b\": expected 1..=65535"
    );
    let mut env = upstream_env(address);
    env.port = read(Some("65536"));
    assert_eq!(
        message(ConfigFile::Missing, env),
        "invalid PORT \"65536\": expected 1..=65535"
    );
    for value in ["0", "4294967296", "-1", ""] {
        let mut env = upstream_env(address);
        env.concurrency = read(Some(value));
        assert_eq!(
            message(ConfigFile::Missing, env),
            format!("invalid CONCURRENCY {value:?}: expected at least 1")
        );
    }
    let mut env = upstream_env(address);
    env.queue_timeout = read(Some("1s"));
    assert_eq!(
        message(ConfigFile::Missing, env),
        "invalid QUEUE_TIMEOUT \"1s\": expected seconds"
    );
    let mut env = upstream_env(address);
    env.queue_timeout = read(Some("1"));
    assert_eq!(
        message(ConfigFile::Missing, env),
        "queue_timeout/QUEUE_TIMEOUT needs concurrency/CONCURRENCY to be set"
    );
    let mut env = upstream_env(address);
    env.api_key = read(Some(""));
    assert_eq!(
        message(ConfigFile::Missing, env),
        "api_key/API_KEY must not be empty"
    );
    let mut env = upstream_env(address);
    env.concurrency = EnvRead::Invalid("not unicode".to_string());
    assert_eq!(
        message(ConfigFile::Missing, env),
        "invalid CONCURRENCY: not unicode"
    );
    assert_eq!(
        message(ConfigFile::Missing, no_env()),
        "missing upstream: set config.json upstream or UPSTREAM"
    );
}

#[test]
fn the_first_fault_is_reported() {
    let mut env = no_env();
    env.port = read(Some("x"));
    env.upstream = EnvRead::Invalid("bad".to_string());
    assert!(matches!(load(ConfigFile::Missing, env), Err(CfgError::Port(_))));
    let mut env = upstream_env("ftp://u");
    env.api_key = read(Some(""));
    assert!(matches!(
        load(ConfigFile::Missing, env),
        Err(CfgError::UpstreamScheme)
    ));
}

#[test]
fn upstream_addresses_are_checked() {
    assert!(validate_upstream("http://example.com").is_ok());
    assert!(validate_upstream("https://example.com:8443/base").is_ok());
    assert_eq!(
        validate_upstream("example.com").unwrap_err().message(),
        "invalid upstream URL: relative URL without a base"
    );
    assert_eq!(
        validate_upstream("ftp://example.com").unwrap_err().message(),
        "upstream must be an absolute http:// or https:// URL"
    );
    for address in ["http://example.com?x=1", "http://example.com/#top", "http://example.com/?"] {
        assert_eq!(
            validate_upstream(address).unwrap_err().message(),
            "upstream must not contain a query or fragment"
        );
    }
}

#[test]
fn url_parts_decide() {
    let parts = |scheme: &str, host: Option<&str>, query: Option<&str>, fragment: Option<&str>| {
        Ok(UrlParts {
            scheme: scheme.to_string(),
            host: host.map(str::to_string),
            query: query.map(str::to_string),
            fragment: fragment.map(str::to_string),
        })
    };
    assert!(check_url(parts("http", Some("h"), None, None)).is_ok());
    assert!(check_url(parts("https", Some("h"), None, None)).is_ok());
    assert!(matches!(
        check_url(parts("http", None, None, None)),
        Err(CfgError::UpstreamScheme)
    ));
    assert!(matches!(
        check_url(parts("HTTP", Some("h"), None, None)),
        Err(CfgError::UpstreamScheme)
    ));
    assert!(matches!(
        check_url(parts("http", Some("h"), Some(""), None)),
        Err(CfgError::UpstreamSuffix)
    ));
    assert!(matches!(
        check_url(parts("http", Some("h"), None, Some("f"))),
        Err(CfgError::UpstreamSuffix)
    ));
    assert!(matches!(
        check_url(Err("no".to_string())),
        Err(CfgError::UpstreamUrl(_))
    ));
}

#[test]
fn defaults_hold_without_a_file() {
    let cfg = load(ConfigFile::Missing, upstream_env("https://api.example.com///")).unwrap();
    assert_eq!(cfg.port, 8080);
    assert_eq!(cfg.upstream, "https://api.example.com");
    assert!(cfg.rename.is_empty());
    assert!(cfg.patch.is_empty());
    assert!(!cfg.debug);
    assert_eq!(cfg.api_key, None);
    assert_eq!(cfg.limit, None);
    assert_eq!(cfg.queue_timeout, 30);
}

#[test]
fn the_environment_overrides_the_file() {
    let config = r#"{"port":9000,"upstream":"http://file","api_key":"file-key","concurrency":4,
        "queue_timeout":9,"patch":{"stream":null},"rename":{"a":"b"}}"#;
    let cfg = load(file(config), no_env()).unwrap();
    assert_eq!(cfg.port, 9000);
    assert_eq!(cfg.upstream, "http://file");
    assert_eq!(cfg.api_key.as_deref(), Some("file-key"));
    assert_eq!(cfg.limit, Some(4));
    assert_eq!(cfg.queue_timeout, 9);
    assert_eq!(cfg.rename, vec![("a".to_string(), "b".to_string())]);
    assert_eq!(cfg.patch.len(), 1);
    assert!(cfg.patch[0].0 == "stream" && cfg.patch[0].1.is_none());
    let env = EnvReads {
        port: read(Some("+8081")),
        upstream: read(Some("http://env/")),
        api_key: read(Some("env-key")),
        concurrency: read(Some("2")),
        queue_timeout: read(Some("0")),
    };
    let cfg = load_cfg(
        file(config),
        env,
        &vec!["airouter-proxy".to_string(), "--debug".to_string()],
    )
    .unwrap();
    assert_eq!(cfg.port, 8081);
    assert_eq!(cfg.upstream, "http://env");
    assert_eq!(cfg.api_key.as_deref(), Some("env-key"));
    assert_eq!(cfg.limit, Some(2));
    assert_eq!(cfg.queue_timeout, 0);
    assert!(cfg.debug);
}

#[test]
fn variables_have_their_names() {
    assert_eq!(EnvVar::Port.name(), "PORT");
    assert_eq!(EnvVar::Upstream.name(), "UPSTREAM");
    assert_eq!(EnvVar::ApiKey.name(), "API_KEY");
    assert_eq!(EnvVar::Concurrency.name(), "CONCURRENCY");
    assert_eq!(EnvVar::QueueTimeout.name(), "QUEUE_TIMEOUT");
    assert!(matches!(env_value(EnvVar::Port, EnvRead::Absent), Ok(None)));
    assert!(matches!(
        env_value(EnvVar::Port, read(Some("1"))),
        Ok(Some(value)) if value == "1"
    ));
    assert!(asks_debug(&vec!["--debug".to_string()]));
    assert!(!asks_debug(&vec!["--debugging".to_string()]));
}
