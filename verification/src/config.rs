use vstd::prelude::*;

use crate::keymgr::MasterKeySource;

verus! {

/// The shape of the on-disk configuration file; every setting optional.
pub struct ConfigFile {
    pub database: DatabaseConfig,
    pub keyring: KeyringConfig,
    pub logging: LoggingConfig,
}

pub struct DatabaseConfig {
    pub path: Option<String>,
}

pub struct KeyringConfig {
    pub service: Option<String>,
    pub account: Option<String>,
}

pub struct LoggingConfig {
    pub level: Option<String>,
}

/// The resolved runtime configuration.
pub struct Config {
    pub db_path: String,
    pub master_key_source: MasterKeySource,
    pub keyring_service: String,
    pub keyring_account: String,
}

/// The first present value wins, else the default.
pub open spec fn first_some(
    a: Option<Seq<char>>,
    b: Option<Seq<char>>,
    c: Option<Seq<char>>,
    d: Seq<char>,
) -> Seq<char> {
    match a {
        Some(x) => x,
        None => match b {
            Some(x) => x,
            None => match c {
                Some(x) => x,
                None => d,
            },
        },
    }
}

/// Take the first present setting, else the default.
fn pick(a: Option<String>, b: Option<String>, c: Option<String>, d: String) -> (r: String)
    ensures
        r@ == first_some(a.deep_view(), b.deep_view(), c.deep_view(), d@),
{
    match a {
        Some(x) => x,
        None => match b {
            Some(x) => x,
            None => match c {
                Some(x) => x,
                None => d,
            },
        },
    }
}

impl Config {
    /// Merge the configuration sources. Priority for each setting: the
    /// command line, then the environment, then the configuration file, then
    /// the built-in default. The caller reads the command line, environment
    /// and file; this owns the precedence.
    pub fn build(
        cli_db_path: Option<String>,
        env_db_path: Option<String>,
        env_service: Option<String>,
        env_account: Option<String>,
        file: ConfigFile,
        master_key_source: MasterKeySource,
        default_db_path: String,
    ) -> (r: Config)
        ensures
            r.db_path@ == first_some(
                cli_db_path.deep_view(),
                env_db_path.deep_view(),
                file.database.path.deep_view(),
                default_db_path@,
            ),
            r.keyring_service@ == first_some(
                env_service.deep_view(),
                file.keyring.service.deep_view(),
                None::<Seq<char>>,
                "devinventory"@,
            ),
            r.keyring_account@ == first_some(
                env_account.deep_view(),
                file.keyring.account.deep_view(),
                None::<Seq<char>>,
                "dmk"@,
            ),
            r.master_key_source.allow_keyring == master_key_source.allow_keyring,
            r.master_key_source.base64_inline.deep_view()
                == master_key_source.base64_inline.deep_view(),
    {
        let db_path = pick(cli_db_path, env_db_path, file.database.path, default_db_path);
        let keyring_service = pick(env_service, file.keyring.service, None, "devinventory".to_owned());
        let keyring_account = pick(env_account, file.keyring.account, None, "dmk".to_owned());
        Config { db_path, master_key_source, keyring_service, keyring_account }
    }
}

} // verus!
