//! The configuration of Hydra's authentication backend.

use crate::pairs::{
    distinct_keys, law_map_of_ignores_order, law_map_of_last_pair_counts, lemma_map_of_keys, map_of,
};
use crate::secret::SecretText;
use vstd::hash_map::StringHashMap;
use vstd::prelude::*;

verus! {

/// `std::path::PathBuf`: carried from the configuration to whoever reads the
/// files. Nothing is claimed of it.
#[verifier::external_type_specification]
#[verifier::external_body]
pub struct ExPathBuf(std::path::PathBuf);

/// `toml::de::Error`: what a TOML text is refused with, carried to whoever
/// reports it. Nothing is claimed of it.
#[verifier::external_type_specification]
#[verifier::external_body]
pub struct ExTomlError(toml::de::Error);

/// `std::io::Error`: what reading a file failed with, carried to whoever
/// reports it. Nothing is claimed of it.
#[verifier::external_type_specification]
#[verifier::external_body]
pub struct ExIoError(std::io::Error);

/// The config path that is used where none is given.
pub const DEFAULT_CONFIG_PATH: &'static str = "auth.toml";

/// The environment variable whose value takes the place of the configured
/// database URL.
pub const DATABASE_URL_VARIABLE: &'static str = "HYDRA_DATABASE_URL";

/// The arguments of the program.
#[derive(Debug)]
pub struct Cli {
    /// Config path
    pub config_path: String,
}

impl Cli {
    /// The arguments with the config path that was given on the command line,
    /// if one was.
    #[must_use]
    pub fn new(config_path: Option<String>) -> (cli: Cli)
        ensures
            match config_path {
                Some(path) => cli.config_path == path,
                None => cli.config_path@ == "auth.toml"@,
            },
    {
        match config_path {
            Some(config_path) => Cli { config_path },
            None => Cli { config_path: DEFAULT_CONFIG_PATH.to_owned() },
        }
    }
}

/// The kinds of provider that a configuration can name.
#[derive(Debug, Clone, Copy, PartialEq, Eq, Structural)]
pub enum ProviderType {
    Github,
    Oidc,
    Ldap,
    Saml,
}

/// A provider, as it is configured.
#[derive(Debug)]
pub struct ProviderConfig {
    pub r_type: ProviderType,
    pub name: Option<String>,
    pub hydra_login_text: Option<String>,
    pub client_id: Option<String>,
    pub client_secret: Option<SecretText>,
    pub client_secret_path: Option<std::path::PathBuf>,
    pub token_path: Option<std::path::PathBuf>,
}

/// A provider to log in with.
#[derive(Debug)]
pub struct Provider {
    pub name: String,
    pub login_text: String,
    pub kind: ProviderKind,
}

/// What a provider needs to be talked to.
#[derive(Debug)]
pub enum ProviderKind {
    Github(Github),
}

/// A GitHub application.
#[derive(Debug)]
pub struct Github {
    pub client_id: String,
    pub client_secret: Option<SecretText>,
    pub client_secret_path: Option<std::path::PathBuf>,
    pub token_path: Option<std::path::PathBuf>,
}

/// The configuration, as it is written down.
#[derive(Debug)]
pub struct AppConfig {
    pub db_url: SecretText,
    pub max_db_connections: u32,
    /// The providers by key, in any order.
    pub providers: Vec<(String, ProviderConfig)>,
}

/// How many database connections are used where the configuration does not say.
pub fn default_max_db_connections() -> (n: u32)
    ensures
        n == 4,
{
    4
}

/// The configuration, ready for use.
pub struct App {
    pub db_url: SecretText,
    pub max_db_connections: u32,
    pub providers: StringHashMap<Provider>,
}

/// The text, if there is one, and else `default`.
pub open spec fn text_or(text: Option<String>, default: Seq<char>) -> Seq<char> {
    match text {
        Some(text) => text@,
        None => default,
    }
}

impl Provider {
    /// Whether this is the provider that `config` makes of `key`: it is named
    /// after its key and logged in with by its name, unless the configuration
    /// says otherwise.
    pub open spec fn configured(self, key: Seq<char>, config: ProviderConfig) -> bool {
        &&& self.name@ == text_or(config.name, key)
        &&& self.login_text@ == text_or(config.hydra_login_text, "Login with "@ + self.name@)
        &&& config.r_type == ProviderType::Github
        &&& self.kind matches ProviderKind::Github(github) && {
            &&& github.client_id@ == text_or(config.client_id, Seq::empty())
            &&& github.client_secret == config.client_secret
            &&& github.client_secret_path == config.client_secret_path
            &&& github.token_path == config.token_path
        }
    }

    /// The provider that `config` makes of `key`. There is no provider but
    /// GitHub yet.
    pub fn from_config(key: &String, config: ProviderConfig) -> (provider: Provider)
        requires
            config.r_type == ProviderType::Github,
        ensures
            provider.configured(key@, config),
    {
        let name: String = match config.name {
            Some(name) => name,
            None => key.clone(),
        };
        let login_text: String = match config.hydra_login_text {
            Some(text) => text,
            None => {
                let mut text = "Login with ".to_owned();
                text.append(name.as_str());
                text
            },
        };
        let client_id: String = match config.client_id {
            Some(id) => id,
            None => {
                let id = String::new();
                assert(id@ =~= Seq::empty());
                id
            },
        };
        let github = Github {
            client_id,
            client_secret: config.client_secret,
            client_secret_path: config.client_secret_path,
            token_path: config.token_path,
        };
        Provider { name, login_text, kind: ProviderKind::Github(github) }
    }
}

/// The providers of a configuration with their keys as texts.
pub open spec fn provider_pairs(providers: Seq<(String, ProviderConfig)>) -> Seq<
    (Seq<char>, ProviderConfig),
> {
    Seq::new(providers.len(), |i: int| (providers[i].0@, providers[i].1))
}

impl AppConfig {
    /// The configured providers by key.
    pub open spec fn provider_map(self) -> Map<Seq<char>, ProviderConfig> {
        map_of(provider_pairs(self.providers@))
    }

    /// Whether every provider is of a kind that can be logged in with.
    pub open spec fn all_supported(self) -> bool {
        forall|i: int|
            0 <= i < self.providers@.len() ==> (#[trigger] self.providers@[i]).1.r_type
                == ProviderType::Github
    }

    /// Whether every provider is of a kind that can be logged in with.
    pub fn supported(&self) -> (res: bool)
        ensures
            res == self.all_supported(),
    {
        let mut i: usize = 0;
        while i < self.providers.len()
            invariant
                i <= self.providers.len(),
                forall|j: int|
                    0 <= j < i ==> (#[trigger] self.providers@[j]).1.r_type
                        == ProviderType::Github,
            decreases self.providers.len() - i,
        {
            if self.providers[i].1.r_type != ProviderType::Github {
                return false;
            }
            i += 1;
        }
        true
    }
}

/// What came of reading the configuration file.
#[derive(Debug)]
pub enum ConfigFile {
    /// The file holds this text.
    Content(String),
    /// There is no such file.
    NotFound,
    /// The file cannot be read.
    Unreadable(std::io::Error),
}

/// Why there is no configuration.
#[allow(inconsistent_fields)]
#[derive(Debug)]
pub enum ConfigError {
    /// The text of the file at `path` was refused.
    ParseToml { path: String, source: toml::de::Error },
    /// The default configuration was refused.
    ParseDefault(toml::de::Error),
    /// The file at `path` cannot be read.
    Read { path: String, source: std::io::Error },
}

impl App {
    /// Whether this is what `config` makes, with the database URL of the
    /// environment, where it has one, in place of the configured one.
    pub open spec fn configured(self, config: AppConfig, env_db_url: Option<String>) -> bool {
        &&& self.db_url@ == text_or(env_db_url, config.db_url@)
        &&& self.max_db_connections == config.max_db_connections
        &&& self.providers@.dom() == config.provider_map().dom()
        &&& forall|key: Seq<char>| #[trigger]
            config.provider_map().contains_key(key) ==> self.providers@[key].configured(
                key,
                config.provider_map()[key],
            )
    }

    /// The configuration that `config` makes. `env_db_url` is the value of the
    /// variable [`DATABASE_URL_VARIABLE`].
    pub fn from_config(config: AppConfig, env_db_url: Option<String>) -> (app: App)
        requires
            config.all_supported(),
        ensures
            app.configured(config, env_db_url),
    {
        let ghost entries = config.providers@;
        let ghost pairs = provider_pairs(entries);
        let mut providers: StringHashMap<Provider> = StringHashMap::new();
        assert(pairs.take(0) =~= Seq::empty());
        for entry in it: config.providers
            invariant
                it.seq() == entries,
                pairs == provider_pairs(entries),
                forall|i: int|
                    0 <= i < entries.len() ==> (#[trigger] entries[i]).1.r_type
                        == ProviderType::Github,
                providers@.dom() == map_of(pairs.take(it.index() as int)).dom(),
                forall|key: Seq<char>| #[trigger]
                    map_of(pairs.take(it.index() as int)).contains_key(key)
                        ==> providers@[key].configured(
                        key,
                        map_of(pairs.take(it.index() as int))[key],
                    ),
        {
            let ghost i = it.index() as int;
            let ghost before = map_of(pairs.take(i));
            let ghost after = map_of(pairs.take(i + 1));
            let (key, value) = entry;
            proof {
                assert(entries[i] == (key, value));
                assert(pairs.take(i + 1).drop_last() =~= pairs.take(i));
                assert(pairs.take(i + 1).last() == (key@, value));
                assert(after == before.insert(key@, value));
            }
            let provider = Provider::from_config(&key, value);
            providers.insert(key, provider);
            proof {
                assert(providers@.dom() =~= after.dom());
                assert forall|k: Seq<char>| #[trigger] after.contains_key(
                    k,
                ) implies providers@[k].configured(k, after[k]) by {
                    if k != key@ {
                        assert(before.contains_key(k));
                    }
                }
            }
        }
        assert(pairs.take(pairs.len() as int) =~= pairs);
        let db_url: SecretText = match env_db_url {
            Some(url) => SecretText::new(url),
            None => config.db_url,
        };
        App { db_url, max_db_connections: config.max_db_connections, providers }
    }

    /// Whether `res` is what becomes of the text of the file at `filepath`,
    /// once it was parsed.
    pub open spec fn loaded_from_file(
        filepath: Seq<char>,
        parsed: Result<AppConfig, toml::de::Error>,
        env_db_url: Option<String>,
        res: Result<App, ConfigError>,
    ) -> bool {
        match parsed {
            Ok(config) => res matches Ok(app) && app.configured(config, env_db_url),
            Err(e) => res matches Err(ConfigError::ParseToml { path, source }) && path@ == filepath
                && source == e,
        }
    }

    /// Whether `res` is what becomes of the default configuration, once it was
    /// parsed.
    pub open spec fn loaded_from_default(
        parsed: Result<AppConfig, toml::de::Error>,
        env_db_url: Option<String>,
        res: Result<App, ConfigError>,
    ) -> bool {
        match parsed {
            Ok(config) => res matches Ok(app) && app.configured(config, env_db_url),
            Err(e) => res == Err::<App, ConfigError>(ConfigError::ParseDefault(e)),
        }
    }

    /// The configuration of the file at `filepath`, whose text was parsed to
    /// `parsed`.
    pub fn from_file(
        filepath: &str,
        parsed: Result<AppConfig, toml::de::Error>,
        env_db_url: Option<String>,
    ) -> (res: Result<App, ConfigError>)
        requires
            parsed matches Ok(config) ==> config.all_supported(),
        ensures
            Self::loaded_from_file(filepath@, parsed, env_db_url, res),
    {
        match parsed {
            Ok(config) => Ok(App::from_config(config, env_db_url)),
            Err(source) => Err(ConfigError::ParseToml { path: filepath.to_owned(), source }),
        }
    }

    /// The default configuration, whose text was parsed to `parsed`.
    pub fn from_default(
        parsed: Result<AppConfig, toml::de::Error>,
        env_db_url: Option<String>,
    ) -> (res: Result<App, ConfigError>)
        requires
            parsed matches Ok(config) ==> config.all_supported(),
        ensures
            Self::loaded_from_default(parsed, env_db_url, res),
    {
        match parsed {
            Ok(config) => Ok(App::from_config(config, env_db_url)),
            Err(source) => Err(ConfigError::ParseDefault(source)),
        }
    }

    /// Loads the configuration at `filepath`. `file` is what came of reading
    /// it, `parse` the parser of TOML texts, and `env_db_url` the value of the
    /// variable [`DATABASE_URL_VARIABLE`]. Where there is no file, the default
    /// configuration is an empty text.
    pub fn init<P>(filepath: &str, file: ConfigFile, parse: P, env_db_url: Option<String>) -> (res:
        Result<App, ConfigError>) where P: FnOnce(String) -> Result<AppConfig, toml::de::Error>
        requires
            forall|text: String| #[trigger] parse.requires((text,)),
            forall|text: String, config: AppConfig| #[trigger]
                parse.ensures((text,), Ok::<AppConfig, toml::de::Error>(config))
                    ==> config.all_supported(),
        ensures
            match file {
                ConfigFile::Content(text) => exists|parsed: Result<AppConfig, toml::de::Error>|
                    #[trigger] parse.ensures((text,), parsed) && Self::loaded_from_file(
                        filepath@,
                        parsed,
                        env_db_url,
                        res,
                    ),
                ConfigFile::NotFound => exists|
                    text: String,
                    parsed: Result<AppConfig, toml::de::Error>,
                | #[trigger]
                    parse.ensures((text,), parsed) && text@ == Seq::<char>::empty()
                        && Self::loaded_from_default(parsed, env_db_url, res),
                ConfigFile::Unreadable(e) => res matches Err(ConfigError::Read { path, source })
                    && path@ == filepath@ && source == e,
            },
    {
        match file {
            ConfigFile::Content(text) => App::from_file(filepath, parse(text), env_db_url),
            ConfigFile::NotFound => {
                let text = String::new();
                assert(text@ =~= Seq::<char>::empty());
                App::from_default(parse(text), env_db_url)
            },
            ConfigFile::Unreadable(source) => {
                Err(ConfigError::Read { path: filepath.to_owned(), source })
            },
        }
    }
}

/// The database URL of the environment takes the place of the configured one,
/// which counts only where the environment has none.
pub proof fn law_environment_database_url_wins(
    config: AppConfig,
    env_db_url: Option<String>,
    app: App,
)
    requires
        app.configured(config, env_db_url),
    ensures
        env_db_url matches Some(url) ==> app.db_url@ == url@,
        env_db_url is None ==> app.db_url@ == config.db_url@,
{
}

/// A provider without a name is named after its key, and one without a login
/// text is logged in with by its name.
pub proof fn law_provider_defaults(key: Seq<char>, config: ProviderConfig, provider: Provider)
    requires
        provider.configured(key, config),
        config.hydra_login_text is None,
    ensures
        provider.login_text@ == "Login with "@ + provider.name@,
        config.name is None ==> provider.name@ == key,
{
}

/// The providers of a configuration may be walked in any order: two
/// configurations that differ in that alone make the same of everything.
pub proof fn law_provider_order_is_irrelevant(
    a: AppConfig,
    b: AppConfig,
    env_db_url: Option<String>,
    app: App,
)
    requires
        a.db_url == b.db_url,
        a.max_db_connections == b.max_db_connections,
        distinct_keys(provider_pairs(a.providers@)),
        distinct_keys(provider_pairs(b.providers@)),
        forall|pair: (Seq<char>, ProviderConfig)|
            provider_pairs(a.providers@).contains(pair) <==> provider_pairs(
                b.providers@,
            ).contains(pair),
    ensures
        app.configured(a, env_db_url) <==> app.configured(b, env_db_url),
{
    law_map_of_ignores_order(provider_pairs(a.providers@), provider_pairs(b.providers@));
}

impl Provider {
    /// Whether each value that `config` gives is kept, whatever the others are,
    /// and each that it does not give has its default.
    pub open spec fn keeps(self, key: Seq<char>, config: ProviderConfig) -> bool {
        &&& config.name matches Some(name) ==> self.name@ == name@
        &&& config.name is None ==> self.name@ == key
        &&& config.hydra_login_text matches Some(text) ==> self.login_text@ == text@
        &&& config.hydra_login_text is None && config.name is None ==> self.login_text@
            == "Login with "@ + key
        &&& config.hydra_login_text is None ==> (config.name matches Some(name)
            ==> self.login_text@ == "Login with "@ + name@)
        &&& self.kind matches ProviderKind::Github(github) && {
            &&& config.client_id matches Some(id) ==> github.client_id@ == id@
            &&& config.client_id is None ==> github.client_id@.len() == 0
            &&& config.client_secret matches Some(secret) ==> github.client_secret == Some(secret)
            &&& config.client_secret is None ==> github.client_secret is None
            &&& config.client_secret_path matches Some(path) ==> github.client_secret_path == Some(
                path,
            )
            &&& config.client_secret_path is None ==> github.client_secret_path is None
            &&& config.token_path matches Some(path) ==> github.token_path == Some(path)
            &&& config.token_path is None ==> github.token_path is None
        }
    }
}

/// A configured value is kept whatever the other values are: the name, the
/// login text, the client id, the secret and the two paths. Where one is not
/// configured, it has its default, and it has it only then.
pub proof fn law_configured_values_are_kept(key: &String, config: ProviderConfig, provider: Provider)
    requires
        call_ensures(Provider::from_config, (key, config), provider),
    ensures
        provider.keeps(key@, config),
{
}

/// Only GitHub providers are supported, and one other is enough for a
/// configuration not to be.
pub proof fn law_supported_is_github_only(config: &AppConfig, res: bool)
    requires
        call_ensures(AppConfig::supported, (config,), res),
    ensures
        res ==> forall|i: int|
            0 <= i < config.providers@.len() ==> (#[trigger] config.providers@[i]).1.r_type
                is Github,
        !res ==> exists|i: int|
            0 <= i < config.providers@.len() && !((#[trigger] config.providers@[i]).1.r_type
                is Github),
{
}

/// Whether the entry at `i` is the last one with its key.
pub open spec fn last_of_its_key(providers: Seq<(String, ProviderConfig)>, i: int) -> bool {
    &&& 0 <= i < providers.len()
    &&& forall|j: int| i < j < providers.len() ==> (#[trigger] providers[j]).0@ != providers[i].0@
}

/// Whether some entry has the key `key`.
pub open spec fn has_key(providers: Seq<(String, ProviderConfig)>, key: Seq<char>) -> bool {
    exists|i: int| 0 <= i < providers.len() && (#[trigger] providers[i]).0@ == key
}

impl App {
    /// Whether everything that `config` gives is here: the number of
    /// connections, a provider for each key and for no other, and the database
    /// URL, unless the environment has one.
    pub open spec fn keeps(self, config: AppConfig, env_db_url: Option<String>) -> bool {
        &&& env_db_url matches Some(url) ==> self.db_url@ == url@
        &&& env_db_url is None ==> self.db_url@ == config.db_url@
        &&& self.max_db_connections == config.max_db_connections
        &&& forall|key: Seq<char>| #[trigger]
            self.providers@.contains_key(key) <==> has_key(config.providers@, key)
        &&& forall|i: int| #[trigger]
            last_of_its_key(config.providers@, i)
                ==> self.providers@[config.providers@[i].0@].keeps(
                config.providers@[i].0@,
                config.providers@[i].1,
            )
    }
}

proof fn lemma_configured_keeps(config: AppConfig, env_db_url: Option<String>, app: App)
    requires
        app.configured(config, env_db_url),
    ensures
        app.keeps(config, env_db_url),
{
    let entries = config.providers@;
    let pairs = provider_pairs(entries);
    assert forall|key: Seq<char>| #[trigger] app.providers@.contains_key(key) <==> has_key(
        entries,
        key,
    ) by {
        lemma_map_of_keys(pairs, key);
        assert(app.providers@.contains_key(key) <==> config.provider_map().contains_key(key));
        if has_key(entries, key) {
            let i = choose|i: int| 0 <= i < entries.len() && (#[trigger] entries[i]).0@ == key;
            assert(pairs[i].0 == key);
        }
        if config.provider_map().contains_key(key) {
            let i = choose|i: int| 0 <= i < pairs.len() && (#[trigger] pairs[i]).0 == key;
            assert(entries[i].0@ == key);
        }
    }
    assert forall|i: int| #[trigger] last_of_its_key(entries, i) implies app.providers@[entries[i].0@].keeps(
        entries[i].0@,
        entries[i].1,
    ) by {
        assert forall|j: int| i < j < pairs.len() implies (#[trigger] pairs[j]).0 != pairs[i].0 by {
            assert(entries[j].0@ != entries[i].0@);
        }
        law_map_of_last_pair_counts(pairs, i);
        assert(config.provider_map().contains_key(entries[i].0@));
    }
}

/// What is configured is kept.
pub proof fn law_configuration_is_kept(config: AppConfig, env_db_url: Option<String>, app: App)
    requires
        call_ensures(App::from_config, (config, env_db_url), app),
    ensures
        app.keeps(config, env_db_url),
{
    lemma_configured_keeps(config, env_db_url, app);
}

/// A text that was parsed makes the configuration that it was parsed to, be it
/// that of a file or the default one, and one that was refused makes an error
/// that carries the refusal, and the path of the file.
pub proof fn law_parsed_configuration_is_kept(
    filepath: &str,
    parsed: Result<AppConfig, toml::de::Error>,
    env_db_url: Option<String>,
    of_file: Result<App, ConfigError>,
    of_default: Result<App, ConfigError>,
)
    requires
        call_ensures(App::from_file, (filepath, parsed, env_db_url), of_file),
        call_ensures(App::from_default, (parsed, env_db_url), of_default),
    ensures
        parsed matches Ok(config) ==> {
            &&& of_file matches Ok(app) && app.keeps(config, env_db_url)
            &&& of_default matches Ok(app) && app.keeps(config, env_db_url)
        },
        parsed matches Err(e) ==> {
            &&& of_file matches Err(ConfigError::ParseToml { path, source }) && path@ == filepath@
                && source == e
            &&& of_default matches Err(ConfigError::ParseDefault(source)) && source == e
        },
{
    if let Ok(config) = parsed {
        lemma_configured_keeps(config, env_db_url, of_file->Ok_0);
        lemma_configured_keeps(config, env_db_url, of_default->Ok_0);
    }
}

/// Where the environment has a database URL, a configuration that was loaded
/// has that one, whatever came of the file and whatever the parser made of it.
pub proof fn law_environment_database_url_is_loaded<P>(
    filepath: &str,
    file: ConfigFile,
    parse: P,
    url: String,
    res: Result<App, ConfigError>,
) where P: FnOnce(String) -> Result<AppConfig, toml::de::Error>
    requires
        call_ensures(App::init::<P>, (filepath, file, parse, Some(url)), res),
    ensures
        res matches Ok(app) ==> app.db_url@ == url@,
{
}

/// A file that the parser takes makes the configuration that it was parsed to,
/// and one that it refuses makes an error with the path and the refusal.
pub proof fn law_file_is_loaded<P>(
    filepath: &str,
    text: String,
    parse: P,
    parsed: Result<AppConfig, toml::de::Error>,
    env_db_url: Option<String>,
    res: Result<App, ConfigError>,
) where P: FnOnce(String) -> Result<AppConfig, toml::de::Error>
    requires
        forall|other: Result<AppConfig, toml::de::Error>| #[trigger]
            parse.ensures((text,), other) ==> other == parsed,
        call_ensures(
            App::init::<P>,
            (filepath, ConfigFile::Content(text), parse, env_db_url),
            res,
        ),
    ensures
        parsed matches Ok(config) ==> (res matches Ok(app) && app.keeps(config, env_db_url)),
        parsed matches Err(e) ==> (res matches Err(ConfigError::ParseToml { path, source }) && path@
            == filepath@ && source == e),
{
    if let Ok(config) = parsed {
        lemma_configured_keeps(config, env_db_url, res->Ok_0);
    }
}

/// Without a file, the configuration is what the parser makes of an empty text.
pub proof fn law_default_is_loaded<P>(
    filepath: &str,
    parse: P,
    parsed: Result<AppConfig, toml::de::Error>,
    env_db_url: Option<String>,
    res: Result<App, ConfigError>,
) where P: FnOnce(String) -> Result<AppConfig, toml::de::Error>
    requires
        forall|text: String, other: Result<AppConfig, toml::de::Error>| #[trigger]
            parse.ensures((text,), other) && text@.len() == 0 ==> other == parsed,
        call_ensures(App::init::<P>, (filepath, ConfigFile::NotFound, parse, env_db_url), res),
    ensures
        parsed matches Ok(config) ==> (res matches Ok(app) && app.keeps(config, env_db_url)),
        parsed matches Err(e) ==> (res matches Err(ConfigError::ParseDefault(source)) && source
            == e),
{
    if let Ok(config) = parsed {
        lemma_configured_keeps(config, env_db_url, res->Ok_0);
    }
}

/// A file that cannot be read is an error with the path and the reason: the
/// default configuration does not take its place.
pub proof fn law_unreadable_file_is_an_error<P>(
    filepath: &str,
    error: std::io::Error,
    parse: P,
    env_db_url: Option<String>,
    res: Result<App, ConfigError>,
) where P: FnOnce(String) -> Result<AppConfig, toml::de::Error>
    requires
        call_ensures(
            App::init::<P>,
            (filepath, ConfigFile::Unreadable(error), parse, env_db_url),
            res,
        ),
    ensures
        res matches Err(ConfigError::Read { path, source }) && path@ == filepath@ && source
            == error,
{
}

/// A config path that was given is the one that is used, and `auth.toml` is
/// used only where none was.
pub proof fn law_given_config_path_is_used(config_path: Option<String>, cli: Cli)
    requires
        call_ensures(Cli::new, (config_path,), cli),
    ensures
        config_path matches Some(path) ==> cli.config_path@ == path@,
        config_path is None ==> cli.config_path@ == "auth.toml"@,
{
}

} // verus!
