//! The client configuration: the token and where it came from, plus the
//! per-invocation knobs taken from the command line. Reading and writing
//! the on-disk config file stays with the caller, which also resolves the
//! config path and hands it in.

use vstd::prelude::*;

use crate::cli::Cli;
use crate::json::Json;
use crate::json::Jv;

verus! {

/// Where the API token came from.
#[derive(Clone)]
pub enum TokenSource {
    Env,
    Config,
    Cli,
    Unset,
}

impl Default for TokenSource {
    /// With nothing loaded, no token source is known.
    fn default() -> (r: TokenSource)
        ensures
            r is Unset,
    {
        TokenSource::Unset
    }
}

/// The client configuration.
#[derive(Clone)]
pub struct Config {
    pub token: Option<String>,
    pub token_source: Option<TokenSource>,
    pub host: Option<String>,
    pub timeout_secs: u64,
    pub locale: Option<String>,
    pub max_retries: u32,
    pub retry_after: Option<u64>,
    /// The resolved config file path, handed in by the caller.
    pub config_path: String,
}

impl Default for Config {
    /// The empty configuration.
    fn default() -> (r: Config)
        ensures
            r.token is None,
            r.token_source is None,
            r.host is None,
            r.timeout_secs == 0,
            r.locale is None,
            r.max_retries == 0,
            r.retry_after is None,
            r.config_path@ == Seq::<char>::empty(),
    {
        Config {
            token: None,
            token_source: None,
            host: None,
            timeout_secs: 0,
            locale: None,
            max_retries: 0,
            retry_after: None,
            config_path: String::new(),
        }
    }
}

/// The display name of a token source.
pub open spec fn spec_source_name(ts: TokenSource) -> Seq<char> {
    match ts {
        TokenSource::Env => "env"@,
        TokenSource::Config => "config"@,
        TokenSource::Cli => "cli"@,
        TokenSource::Unset => "none"@,
    }
}

impl Config {
    /// The config file path this configuration was loaded from.
    pub fn path(&self) -> (r: String)
        ensures
            r@ == self.config_path@,
    {
        self.config_path.clone()
    }

    /// Takes the per-invocation knobs over from the command line; the host
    /// and locale only where given.
    pub fn apply_cli(&mut self, cli: &Cli)
        ensures
            final(self).timeout_secs == cli.timeout,
            final(self).max_retries == cli.max_retries,
            final(self).retry_after == cli.retry_after,
            cli.host is Some ==> (final(self).host matches Some(h) && h@ == cli.host->Some_0@),
            cli.host is None ==> final(self).host == old(self).host,
            cli.locale is Some ==> (final(self).locale matches Some(l) && l@
                == cli.locale->Some_0@),
            cli.locale is None ==> final(self).locale == old(self).locale,
            final(self).token == old(self).token,
            final(self).token_source == old(self).token_source,
            final(self).config_path == old(self).config_path,
    {
        self.timeout_secs = cli.timeout;
        self.max_retries = cli.max_retries;
        self.retry_after = cli.retry_after;
        match &cli.host {
            Some(h) => {
                self.host = Some(h.clone());
            },
            None => {},
        }
        match &cli.locale {
            Some(l) => {
                self.locale = Some(l.clone());
            },
            None => {},
        }
    }

    /// The token source's display name, and whether a non-empty token is
    /// present. An unset source reads as `none`.
    pub fn token_source_with_presence(&self) -> (r: (String, bool))
        ensures
            r.0@ == spec_source_name(
                match self.token_source {
                    Some(ts) => ts,
                    None => TokenSource::Unset,
                },
            ),
            r.1 == match self.token {
                Some(ref t) => t@.len() > 0,
                None => false,
            },
    {
        let present = match &self.token {
            Some(t) => t.as_str().unicode_len() > 0,
            None => false,
        };
        let src: &str = match &self.token_source {
            Some(TokenSource::Env) => "env",
            Some(TokenSource::Config) => "config",
            Some(TokenSource::Cli) => "cli",
            Some(TokenSource::Unset) => "none",
            None => "none",
        };
        (src.to_owned(), present)
    }
}

/// What `util inspect` reports: the effective host, timeout, locale and
/// retry budget.
pub open spec fn spec_inspect_info(cfg: Config) -> Jv {
    Jv::Obj(
        seq![
            (
                "host"@,
                Jv::Str(
                    match cfg.host {
                        Some(h) => h@,
                        None => "https://api.pexels.com"@,
                    },
                ),
            ),
            ("timeout"@, Jv::Int(cfg.timeout_secs as i64)),
            (
                "locale"@,
                match cfg.locale {
                    Some(l) => Jv::Str(l@),
                    None => Jv::Null,
                },
            ),
            ("max_retries"@, Jv::Int(cfg.max_retries as i64)),
        ],
    )
}

/// Builds the `util inspect` payload for a configuration.
pub fn inspect_info(cfg: &Config) -> (r: Json)
    ensures
        r.jv() == spec_inspect_info(*cfg),
{
    broadcast use crate::json::lemma_jv_obj;

    let mut out: Vec<(String, Json)> = Vec::new();
    let host: String = match &cfg.host {
        Some(h) => h.clone(),
        None => "https://api.pexels.com".to_owned(),
    };
    out.push(("host".to_owned(), Json::Str(host)));
    out.push(("timeout".to_owned(), Json::Int(cfg.timeout_secs as i64)));
    let locale: Json = match &cfg.locale {
        Some(l) => Json::Str(l.clone()),
        None => Json::Null,
    };
    out.push(("locale".to_owned(), locale));
    out.push(("max_retries".to_owned(), Json::Int(cfg.max_retries as i64)));
    proof {
        assert(out.deep_view() =~~= spec_inspect_info(*cfg)->Obj_0);
    }
    Json::Obj(out)
}

} // verus!
