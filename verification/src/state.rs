//! What the authentication backend holds while it runs.

use crate::config::{App, AppConfig, Cli, ConfigError, ConfigFile};
use vstd::prelude::*;

verus! {

/// Why the backend does not run. `E` is the error of the database.
#[derive(Debug)]
pub enum StateError<E> {
    /// There is no configuration.
    Config(ConfigError),
    /// The database cannot be connected to.
    Database(E),
}

/// A backend whose database is still to be connected to.
pub struct Connecting {
    pub cli: Cli,
    pub config: App,
}

/// A running backend. `D` is the type of database connections.
pub struct State<D> {
    pub cli: Cli,
    pub config: App,
    pub db: D,
}

impl Connecting {
    /// A backend with what came of loading the configuration.
    pub fn new<E>(cli: Cli, config: Result<App, ConfigError>) -> (res: Result<
        Connecting,
        StateError<E>,
    >)
        ensures
            res == (match config {
                Ok(config) => Ok(Connecting { cli, config }),
                Err(e) => Err(StateError::<E>::Config(e)),
            }),
    {
        match config {
            Ok(config) => Ok(Connecting { cli, config }),
            Err(e) => Err(StateError::Config(e)),
        }
    }

    /// The URL of the database to connect to, and how many connections to keep
    /// at most.
    pub fn database(&self) -> (target: (&str, u32))
        ensures
            target.0@ == self.config.db_url@,
            target.1 == self.config.max_db_connections,
    {
        (self.config.db_url.expose_secret(), self.config.max_db_connections)
    }
}

impl<D> State<D> {
    /// A backend with what came of connecting to its database.
    pub fn new<E>(connecting: Connecting, db: Result<D, E>) -> (res: Result<State<D>, StateError<E>>)
        ensures
            res == (match db {
                Ok(db) => Ok(State { cli: connecting.cli, config: connecting.config, db }),
                Err(e) => Err(StateError::<E>::Database(e)),
            }),
    {
        match db {
            Ok(db) => Ok(State { cli: connecting.cli, config: connecting.config, db }),
            Err(e) => Err(StateError::Database(e)),
        }
    }
}

/// The database that is connected to is the one that the configuration names,
/// and what was loaded is what the running backend holds.
pub proof fn law_backend_runs_on_its_configuration<D, E>(
    cli: Cli,
    config: App,
    db: D,
    started: Result<Connecting, StateError<E>>,
    connecting: &Connecting,
    target: (&str, u32),
    res: Result<State<D>, StateError<E>>,
)
    requires
        call_ensures(Connecting::new::<E>, (cli, Ok(config)), started),
        started == Ok::<Connecting, StateError<E>>(*connecting),
        call_ensures(Connecting::database, (connecting,), target),
        call_ensures(State::<D>::new::<E>, (*connecting, Ok(db)), res),
    ensures
        target.0@ == config.db_url@,
        target.1 == config.max_db_connections,
        res matches Ok(state) && state.cli == cli && state.config == config && state.db == db,
{
}

/// A configuration that cannot be loaded and a database that cannot be
/// connected to are told apart, each with its error.
pub proof fn law_backend_does_not_run_on_an_error<D, E>(
    cli: Cli,
    config_error: ConfigError,
    started: Result<Connecting, StateError<E>>,
    connecting: Connecting,
    db_error: E,
    res: Result<State<D>, StateError<E>>,
)
    requires
        call_ensures(Connecting::new::<E>, (cli, Err(config_error)), started),
        call_ensures(State::<D>::new::<E>, (connecting, Err(db_error)), res),
    ensures
        started matches Err(StateError::Config(e)) && e == config_error,
        res matches Err(StateError::Database(e)) && e == db_error,
{
}

/// The backend connects to the database that the environment names, where it
/// names one, whatever the configuration file says.
pub proof fn law_environment_database_is_connected_to<P, E>(
    cli: Cli,
    filepath: &str,
    file: ConfigFile,
    parse: P,
    url: String,
    config: Result<App, ConfigError>,
    started: Result<Connecting, StateError<E>>,
    connecting: &Connecting,
    target: (&str, u32),
) where P: FnOnce(String) -> Result<AppConfig, toml::de::Error>
    requires
        call_ensures(App::init::<P>, (filepath, file, parse, Some(url)), config),
        call_ensures(Connecting::new::<E>, (cli, config), started),
        started == Ok::<Connecting, StateError<E>>(*connecting),
        call_ensures(Connecting::database, (connecting,), target),
    ensures
        target.0@ == url@,
{
}

} // verus!
