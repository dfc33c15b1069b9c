use vstd::prelude::*;
use vstd::string::StringExecFns;

verus! {

/// Prefix of the environment variables read by this server.
pub const ENV_PREFIX: &'static str = "BE";

/// What lower-casing a string gives.
pub uninterp spec fn lower_of(s: Seq<char>) -> Seq<char>;

/// Relies on `str::to_lowercase`: its result depends on the characters alone.
#[verifier::external_body]
fn lowercase(s: &str) -> (r: String)
    ensures
        r@ == lower_of(s@),
{
    s.to_lowercase()
}

/// The name of the environment variable `<prefix>__<suffix>`.
pub fn prefixed_env(suffix: &str) -> (r: String)
    ensures
        r@ == ENV_PREFIX@ + "__"@ + suffix@,
{
    String::from_str(ENV_PREFIX).concat("__").concat(suffix)
}

/// Where the server runs.
#[derive(Clone, Copy, Debug, PartialEq, Eq, Structural)]
pub enum Env {
    Local,
    Prod,
}

/// The environment a lower-case name denotes.
pub open spec fn env_named(s: Seq<char>) -> Option<Env> {
    if s == "local"@ {
        Some(Env::Local)
    } else if s == "prod"@ {
        Some(Env::Prod)
    } else {
        None
    }
}

/// The name an environment is chosen by: the executable's own variable if set, else the
/// shared one, else `local`.
pub open spec fn chosen_name(shared: Option<Seq<char>>, own: Option<Seq<char>>) -> Seq<char> {
    match own {
        Some(s) => s,
        None => match shared {
            Some(s) => s,
            None => "local"@,
        },
    }
}

pub open spec fn opt_view(o: Option<String>) -> Option<Seq<char>> {
    match o {
        Some(s) => Some(s@),
        None => None,
    }
}

impl Env {
    pub fn local(&self) -> (r: bool)
        ensures
            r == (*self == Env::Local),
    {
        match self {
            Env::Local => true,
            Env::Prod => false,
        }
    }

    pub fn prod(&self) -> (r: bool)
        ensures
            r == (*self == Env::Prod),
    {
        match self {
            Env::Local => false,
            Env::Prod => true,
        }
    }

    pub fn as_str(&self) -> (r: &'static str)
        ensures
            env_named(r@) == Some(*self),
    {
        proof {
            reveal_strlit("local");
            reveal_strlit("prod");
            assert("prod"@.len() != "local"@.len());
        }
        match self {
            Env::Local => "local",
            Env::Prod => "prod",
        }
    }

    /// The environment named by an already lower-cased name; any other name is refused
    /// with a message that quotes it.
    pub fn from_lowercase(s: &str) -> (r: Result<Env, String>)
        ensures
            env_named(s@) matches Some(e) ==> r == Ok::<Env, String>(e),
            env_named(s@) is None ==> (r matches Err(m) && m@ == s@
                + " is not a supported environment. Use either `local` or `prod`."@),
    {
        let owned = String::from_str(s);
        let local = String::from_str("local");
        let prod = String::from_str("prod");
        if owned == local {
            Ok(Env::Local)
        } else if owned == prod {
            Ok(Env::Prod)
        } else {
            Err(owned.concat(" is not a supported environment. Use either `local` or `prod`."))
        }
    }

    /// The environment a name denotes, in any case.
    pub fn try_from_str(s: &str) -> (r: Result<Env, String>)
        ensures
            env_named(lower_of(s@)) matches Some(e) ==> r == Ok::<Env, String>(e),
            env_named(lower_of(s@)) is None ==> r is Err,
    {
        let lower = lowercase(s);
        Env::from_lowercase(lower.as_str())
    }

    /// The environment chosen by the values of the shared variable (`HORT_ENV`) and of
    /// this executable's own (`BE__ENV`), as read by the caller.
    pub fn current(shared: Option<String>, own: Option<String>) -> (r: Result<Env, String>)
        ensures
            env_named(lower_of(chosen_name(opt_view(shared), opt_view(own)))) matches Some(e) ==> r
                == Ok::<Env, String>(e),
            env_named(lower_of(chosen_name(opt_view(shared), opt_view(own)))) is None ==> r is Err,
    {
        let name = match own {
            Some(s) => s,
            None => match shared {
                Some(s) => s,
                None => String::from_str("local"),
            },
        };
        Env::try_from_str(name.as_str())
    }
}

#[derive(Debug)]
pub struct Log {
    pub pretty: bool,
}

/// The settings read from configuration files and the environment.
#[derive(Debug)]
pub struct EnvConf {
    pub port: u16,
    pub host: String,
    pub log: Log,
}

impl EnvConf {
    /// Settings for tests: any free port on the loopback address, plain logs.
    pub fn test_default() -> (r: EnvConf)
        ensures
            r.port == 0,
            r.host@ == "127.0.0.1"@,
            !r.log.pretty,
    {
        EnvConf { port: 0, host: String::from_str("127.0.0.1"), log: Log { pretty: false } }
    }
}

#[derive(Debug)]
pub struct Conf {
    pub env_conf: EnvConf,
    pub env: Env,
}

} // verus!
