//! Tests of the command line, the environment and the configuration of providers.

use ai_proxy::config::{
    default_mode, default_providers, env_flag, env_port, help, load, merge_providers, parse_args,
    parse_flag, parse_port, parse_port_range, program_text, read_providers, ApiConfig, Cli,
    Environment, OauthConfig, PortRange, Provider,
};
use ai_proxy::json::{parse_json, Json};

fn empty() -> Environment {
    Environment {
        admin_port: None,
        oauth_port: None,
        host: None,
        public_host: None,
        db: None,
        request_log: None,
        log_bodies: None,
        config: None,
        port_range: None,
        provider: None,
    }
}

fn args(list: &[&str]) -> Result<Cli, String> {
    let list: Vec<String> = list.iter().map(|text| text.to_string()).collect();
    parse_args(&list, &empty(), "/work")
}

fn provider_of(id: &str, document: &Json) -> Provider {
    let text = |outer: &str, inner: &str| document.str_at2(outer, inner).unwrap_or("").to_owned();
    let own = document.str_at("id").unwrap_or("");
    Provider {
        id: if own.is_empty() { id.to_owned() } else { own.to_owned() },
        label: document.str_at("label").unwrap_or("").to_owned(),
        mode: document.str_at("mode").unwrap_or("responses-adapter").to_owned(),
        oauth: OauthConfig { redirect_path: text("oauth", "redirectPath"), ..OauthConfig::default() },
        api: ApiConfig { models_path: text("api", "modelsPath"), ..ApiConfig::default() },
    }
}

fn test_cli(config_path: &str) -> Cli {
    Cli {
        admin_port: 17800,
        oauth_port: 1455,
        host: "127.0.0.1".into(),
        public_host: "localhost".into(),
        db_path: "/data/db.json".into(),
        request_log_path: None,
        log_bodies: false,
        purge_bodies: false,
        config_path: config_path.into(),
        port_range: PortRange { start: 18001, end: 18100 },
        provider: "chatgpt".into(),
        help: false,
    }
}

fn loaded(cli: &Cli, text: Option<&str>) -> Result<ai_proxy::config::Config, String> {
    let mut typed = Vec::new();
    for (id, document) in read_providers(&cli.config_path, text)? {
        let provider = provider_of(&id, &document);
        typed.push((id, provider));
    }
    load(cli, typed)
}

#[test]
fn default_models_path_uses_current_client_version() {
    let path = default_providers()
        .to_value()
        .pointer("/chatgpt/api/modelsPath")
        .and_then(serde_json::Value::as_str)
        .unwrap_or_default()
        .to_owned();
    assert_eq!(path, "/models?client_version=0.153.0");
}

#[test]
fn config_file_override_still_wins() {
    let config = loaded(
        &test_cli("override.json"),
        Some(r#"{"providers":{"chatgpt":{"api":{"modelsPath":"/models?client_version=9.9.9"}}}}"#),
    )
    .unwrap();
    assert_eq!(
        config.find_provider("chatgpt").unwrap().api.models_path,
        "/models?client_version=9.9.9"
    );
}

#[test]
fn missing_config_file_keeps_defaults() {
    let config = loaded(&test_cli("absent.json"), None).unwrap();
    assert_eq!(
        config.find_provider("chatgpt").unwrap().api.models_path,
        "/models?client_version=0.153.0"
    );
}

#[test]
fn defaults_are_those_of_the_help() {
    let cli = args(&[]).unwrap();
    assert_eq!(cli.admin_port, 17800);
    assert_eq!(cli.oauth_port, 1455);
    assert_eq!(cli.host, "127.0.0.1");
    assert_eq!(cli.public_host, "localhost");
    assert_eq!(cli.db_path, "/work/orche-proxy.db.json");
    assert_eq!(cli.request_log_path, None);
    assert_eq!(cli.config_path, "/work/orche-proxy.config.json");
    assert_eq!(cli.port_range.start, 18001);
    assert_eq!(cli.port_range.end, 18100);
    assert_eq!(cli.provider, "chatgpt");
    assert!(!cli.log_bodies && !cli.purge_bodies && !cli.help);
    assert!(help().starts_with("Usage: ai_proxy [options]\n\nOptions:\n  --admin-port <port>"));
    assert!(help().ends_with("Environment variables use the ORCHE_PROXY_* equivalents.\n"));
}

#[test]
fn options_are_read() {
    let cli = args(&[
        "--admin-port", "1", "--oauth-port", "65535", "--host", "::", "--public-host", "me", "--db",
        "x.json", "--request-log", "/log", "--config", "c", "--port-range", " 5-6 ", "--provider",
        "p", "--log-bodies", "--purge-bodies", "No", "-h",
    ])
    .unwrap();
    assert_eq!(cli.admin_port, 1);
    assert_eq!(cli.oauth_port, 65535);
    assert_eq!(cli.host, "::");
    assert_eq!(cli.public_host, "me");
    assert_eq!(cli.db_path, "/work/x.json");
    assert_eq!(cli.request_log_path, Some("/log".to_owned()));
    assert_eq!(cli.config_path, "/work/c");
    assert_eq!((cli.port_range.start, cli.port_range.end), (5, 6));
    assert_eq!(cli.provider, "p");
    assert!(cli.log_bodies);
    assert!(!cli.purge_bodies);
    assert!(cli.help);
    assert_eq!(
        args(&["--sqlite", "log", "--request-log", "other"]).unwrap().request_log_path,
        Some("/work/other".to_owned())
    );
}

#[test]
fn wrong_options_are_refused() {
    assert_eq!(args(&["--host"]).unwrap_err(), "Missing value for --host");
    assert_eq!(args(&["--host", "--db", "x"]).unwrap_err(), "Missing value for --host");
    assert_eq!(args(&["--nope", "x"]).unwrap_err(), "Unknown argument: --nope");
    assert_eq!(args(&["--log-bodies", "maybe"]).unwrap_err(), "--log-bodies expects true or false");
    assert_eq!(
        args(&["--admin-port", "0"]).unwrap_err(),
        "--admin-port must be a TCP port between 1 and 65535"
    );
    assert_eq!(
        args(&["--port-range", "7"]).unwrap_err(),
        "Invalid port range: 7. Expected START-END."
    );
}

#[test]
fn the_environment_is_read() {
    let env = Environment {
        admin_port: Some("80".to_owned()),
        oauth_port: Some("81".to_owned()),
        host: Some("h".to_owned()),
        public_host: Some("p".to_owned()),
        db: Some("d".to_owned()),
        request_log: Some("/r".to_owned()),
        log_bodies: Some("YES".to_owned()),
        config: Some("c".to_owned()),
        port_range: Some("1-2".to_owned()),
        provider: Some("q".to_owned()),
    };
    let cli = parse_args(&vec!["--host".to_owned(), "arg".to_owned()], &env, "/w").unwrap();
    assert_eq!((cli.admin_port, cli.oauth_port), (80, 81));
    assert_eq!(cli.host, "arg");
    assert_eq!(cli.public_host, "p");
    assert_eq!(cli.db_path, "/w/d");
    assert_eq!(cli.request_log_path, Some("/r".to_owned()));
    assert!(cli.log_bodies);
    assert_eq!(cli.config_path, "/w/c");
    assert_eq!((cli.port_range.start, cli.port_range.end), (1, 2));
    assert_eq!(cli.provider, "q");
    assert!(env_flag(Some("1")) && env_flag(Some("True")) && !env_flag(Some("on")) && !env_flag(None));
    assert_eq!(
        env_port(&Some("x".to_owned()), "ORCHE_PROXY_ADMIN_PORT", 5).unwrap_err(),
        "ORCHE_PROXY_ADMIN_PORT must be a TCP port between 1 and 65535"
    );
    assert_eq!(env_port(&None, "ORCHE_PROXY_ADMIN_PORT", 5), Ok(5));
}

#[test]
fn ports_are_numbers_of_sixteen_bits() {
    for text in ["1", "65535", "0", "65536", "", "+", "-1", "+7", "007", "1a", " 1", "99999999999999999999999"] {
        let expected = text.parse::<u16>().ok().filter(|port| *port > 0);
        assert_eq!(parse_port(text, "p").ok(), expected, "{text}");
    }
    assert_eq!(parse_port("", "p").unwrap_err(), "p must be a TCP port between 1 and 65535");
    assert_eq!(parse_port_range("9-8").unwrap_err(), "Port range end must be >= start");
    assert_eq!(
        parse_port_range("x-8").unwrap_err(),
        "port range start must be a TCP port between 1 and 65535"
    );
    assert_eq!(
        parse_port_range("8-").unwrap_err(),
        "port range end must be a TCP port between 1 and 65535"
    );
    assert_eq!(parse_flag("FALSE", "f"), Ok(false));
    assert_eq!(parse_flag("0", "f"), Ok(false));
    assert_eq!(parse_flag("yes", "f"), Ok(true));
}

#[test]
fn providers_are_merged() {
    let file = parse_json("{\"providers\":{\"other\":{\"label\":\"O\"},\"chatgpt\":{\"label\":\"Mine\"}}}").unwrap();
    let merged = merge_providers(Some(&file)).to_value();
    assert_eq!(merged["other"]["label"], "O");
    assert_eq!(merged["chatgpt"]["label"], "Mine");
    assert_eq!(merged["chatgpt"]["oauth"]["clientId"], "app_EMoamEEZ73f0CkXaXp7hrann");
    assert_eq!(merged["chatgpt"]["api"]["userAgent"], "ai_proxy/0.1.0");
    assert_eq!(program_text(), "ai_proxy/0.1.0");
    assert_eq!(default_mode(), "responses-adapter");
    let names: Vec<String> = read_providers("p", Some("{\"providers\":{\"a\":{}}}"))
        .unwrap()
        .into_iter()
        .map(|entry| entry.0)
        .collect();
    assert_eq!(names, vec!["a", "chatgpt"]);
}

#[test]
fn wrong_configurations_are_refused() {
    let error = read_providers("/etc/p.json", Some("{")).unwrap_err();
    assert!(error.starts_with("Invalid config /etc/p.json: EOF while parsing"));
    assert_eq!(
        read_providers("p", Some("{\"providers\":[]}")).unwrap_err(),
        "providers must be an object"
    );
    let mut cli = test_cli("absent.json");
    cli.provider = "nobody".to_owned();
    assert_eq!(loaded(&cli, None).unwrap_err(), "Default provider nobody is not configured");
}

#[test]
fn the_log_is_next_to_the_database() {
    let mut cli = test_cli("absent.json");
    assert_eq!(loaded(&cli, None).unwrap().request_log_path, "/data/ai_proxy.sqlite3");
    cli.request_log_path = Some("/elsewhere".to_owned());
    let config = loaded(&cli, None).unwrap();
    assert_eq!(config.request_log_path, "/elsewhere");
    assert_eq!(config.db_path, "/data/db.json");
    assert_eq!(config.default_provider, "chatgpt");
    assert_eq!(config.find_provider("chatgpt").unwrap().id, "chatgpt");
    assert!(config.find_provider("nobody").is_none());
}
