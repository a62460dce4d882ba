use hydra_services::config::{
    default_max_db_connections, App, AppConfig, Cli, ConfigError, ConfigFile, Provider,
    ProviderConfig, ProviderKind, ProviderType,
};
use hydra_services::secret::SecretText;
use hydra_services::state::{Connecting, State, StateError};

fn text(table: &toml::Table, key: &str) -> Option<String> {
    table.get(key).map(|value| value.as_str().unwrap().to_string())
}

fn provider_config(table: &toml::Table) -> ProviderConfig {
    ProviderConfig {
        r_type: match table["type"].as_str().unwrap() {
            "Github" | "GitHub" => ProviderType::Github,
            "oidc" => ProviderType::Oidc,
            "ldap" => ProviderType::Ldap,
            "saml" => ProviderType::Saml,
            other => panic!("unknown provider type {other}"),
        },
        name: text(table, "name"),
        hydra_login_text: text(table, "hydraLoginText"),
        client_id: text(table, "clientId"),
        client_secret: text(table, "clientSecret").map(SecretText::new),
        client_secret_path: text(table, "clientSecretPath").map(|path| path.into()),
        token_path: text(table, "tokenPath").map(|path| path.into()),
    }
}

/// Reads the fields that a configuration file can have.
fn read(toml: String) -> Result<AppConfig, toml::de::Error> {
    let table = toml::from_str::<toml::Table>(&toml)?;
    Ok(AppConfig {
        db_url: SecretText::new(text(&table, "dbUrl").expect("dbUrl is required")),
        max_db_connections: match table.get("maxDbConnections") {
            Some(n) => n.as_integer().unwrap().try_into().unwrap(),
            None => default_max_db_connections(),
        },
        providers: table["providers"]
            .as_table()
            .unwrap()
            .iter()
            .map(|(key, value)| (key.clone(), provider_config(value.as_table().unwrap())))
            .collect(),
    })
}

fn parse(toml: &str) -> App {
    App::init("auth.toml", ConfigFile::Content(toml.to_string()), read, None)
        .expect("failed to parse config")
}

fn syntax_error() -> toml::de::Error {
    toml::from_str::<toml::Table>("= nonsense").unwrap_err()
}

#[test]
fn parses_repo_config() {
    let app = parse(
        r#"
dbUrl = ""

[providers.github]
name = "Github"
type = "Github"
clientId = ""
clientSecret = ""
"#,
    );
    assert_eq!(app.max_db_connections, 4);
    let gh = app.providers.get("github").unwrap();
    assert_eq!(gh.name, "Github");
    assert_eq!(gh.login_text, "Login with Github");
    let ProviderKind::Github(g) = &gh.kind;
    assert_eq!(g.client_id, "");
    assert!(g.client_secret.is_some());
}

#[test]
fn parses_module_style_config() {
    let app = parse(
        r#"
dbUrl = "postgres://localhost/hydra"
maxDbConnections = 8

[providers.github]
type = "GitHub"
clientId = "abc"
clientSecretPath = "/run/secrets/gh"
"#,
    );
    assert_eq!(app.max_db_connections, 8);
    let gh = app.providers.get("github").unwrap();
    assert_eq!(gh.name, "github");
    assert_eq!(gh.login_text, "Login with github");
    let ProviderKind::Github(g) = &gh.kind;
    assert_eq!(g.client_id, "abc");
    assert!(g.client_secret.is_none());
    assert_eq!(g.client_secret_path, Some("/run/secrets/gh".into()));
    assert_eq!(app.db_url.expose_secret(), "postgres://localhost/hydra");
}

fn config(keys: &[&str]) -> AppConfig {
    AppConfig {
        db_url: SecretText::new("configured".to_string()),
        max_db_connections: 3,
        providers: keys.iter().map(|key| (key.to_string(), github(None, None))).collect(),
    }
}

fn github(name: Option<&str>, login: Option<&str>) -> ProviderConfig {
    ProviderConfig {
        r_type: ProviderType::Github,
        name: name.map(|s| s.to_string()),
        hydra_login_text: login.map(|s| s.to_string()),
        client_id: None,
        client_secret: Some(SecretText::new("s3cret".to_string())),
        client_secret_path: None,
        token_path: Some("/token".into()),
    }
}

#[test]
fn environment_database_url_wins() {
    let app = App::from_config(config(&[]), Some("from env".to_string()));
    assert_eq!(app.db_url.expose_secret(), "from env");
    let app = App::from_config(config(&[]), None);
    assert_eq!(app.db_url.expose_secret(), "configured");
    assert_eq!(app.max_db_connections, 3);
    assert_eq!(app.providers.len(), 0);
}

#[test]
fn providers_keep_their_keys_in_any_order() {
    for keys in [["a", "b", "c"], ["c", "a", "b"]] {
        let app = App::from_config(config(&keys), None);
        assert_eq!(app.providers.len(), 3);
        for key in keys {
            assert_eq!(app.providers.get(key).unwrap().name, key);
        }
        assert!(app.providers.get("d").is_none());
    }
}

#[test]
fn provider_texts() {
    let key = "key".to_string();
    let p = Provider::from_config(&key, github(Some("Name"), Some("Enter")));
    assert_eq!((p.name.as_str(), p.login_text.as_str()), ("Name", "Enter"));
    let p = Provider::from_config(&key, github(None, Some("Enter")));
    assert_eq!((p.name.as_str(), p.login_text.as_str()), ("key", "Enter"));
    let p = Provider::from_config(&key, github(Some(""), None));
    assert_eq!((p.name.as_str(), p.login_text.as_str()), ("", "Login with "));
    let ProviderKind::Github(g) = p.kind;
    assert_eq!(g.client_id, "");
    assert_eq!(g.client_secret.unwrap().expose_secret(), "s3cret");
    assert_eq!(g.token_path, Some("/token".into()));
    assert_eq!(g.client_secret_path, None);
}

#[test]
fn only_github_is_supported() {
    assert!(config(&["a"]).supported());
    for r_type in [ProviderType::Oidc, ProviderType::Ldap, ProviderType::Saml] {
        let mut config = config(&["a", "b"]);
        config.providers[1].1.r_type = r_type;
        assert!(!config.supported());
    }
}

#[test]
fn refused_file_is_reported_with_its_path() {
    let res = App::init(
        "/etc/auth.toml",
        ConfigFile::Content("= nonsense".to_string()),
        read,
        None,
    );
    match res {
        Err(ConfigError::ParseToml { path, source }) => {
            assert_eq!(path, "/etc/auth.toml");
            assert_eq!(source, syntax_error());
        }
        _ => panic!("the text is no TOML"),
    }
}

#[test]
fn missing_file_means_the_default_config() {
    let mut seen = None;
    let res = App::init(
        "auth.toml",
        ConfigFile::NotFound,
        |text| {
            seen = Some(text);
            Err(syntax_error())
        },
        None,
    );
    assert!(matches!(res, Err(ConfigError::ParseDefault(e)) if e == syntax_error()));
    assert_eq!(seen, Some(String::new()));

    let res = App::init("auth.toml", ConfigFile::NotFound, |_| Ok(config(&["x"])), None);
    assert!(matches!(res, Ok(app) if app.providers.len() == 1));
}

#[test]
fn unreadable_file_is_reported_with_its_path() {
    let denied = std::io::Error::from(std::io::ErrorKind::PermissionDenied);
    let res = App::init("/etc/auth.toml", ConfigFile::Unreadable(denied), read, None);
    match res {
        Err(ConfigError::Read { path, source }) => {
            assert_eq!(path, "/etc/auth.toml");
            assert_eq!(source.kind(), std::io::ErrorKind::PermissionDenied);
        }
        _ => panic!("the file cannot be read"),
    }
}

#[test]
fn config_path_has_a_default() {
    assert_eq!(Cli::new(None).config_path, "auth.toml");
    assert_eq!(Cli::new(Some("x.toml".to_string())).config_path, "x.toml");
}

#[test]
fn four_connections_by_default() {
    assert_eq!(default_max_db_connections(), 4);
}

#[test]
fn secrets_are_redacted_but_kept() {
    let secret = SecretText::new("hunter2".to_string());
    assert_eq!(secret.expose_secret(), "hunter2");
    assert!(!format!("{secret:?}").contains("hunter2"));
}

#[test]
fn state_connects_to_the_configured_database() {
    let app = App::from_config(config(&[]), None);
    let connecting = match Connecting::new::<String>(Cli::new(None), Ok(app)) {
        Ok(connecting) => connecting,
        Err(e) => panic!("{e:?}"),
    };
    assert_eq!(connecting.database(), ("configured", 3));
    match State::new::<String>(connecting, Ok(42)) {
        Ok(state) => {
            assert_eq!(state.db, 42);
            assert_eq!(state.cli.config_path, "auth.toml");
            assert_eq!(state.config.max_db_connections, 3);
        }
        Err(e) => panic!("{e:?}"),
    }
}

#[test]
fn state_errors() {
    let failed = Err(ConfigError::ParseDefault(syntax_error()));
    assert!(matches!(
        Connecting::new::<String>(Cli::new(None), failed),
        Err(StateError::Config(ConfigError::ParseDefault(_)))
    ));
    let app = App::from_config(config(&[]), None);
    match Connecting::new::<String>(Cli::new(None), Ok(app)) {
        Ok(connecting) => {
            let res = State::<u8>::new(connecting, Err("no database".to_string()));
            assert!(matches!(res, Err(StateError::Database(e)) if e == "no database"));
        }
        Err(e) => panic!("{e:?}"),
    }
}
