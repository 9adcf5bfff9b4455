//! Registered-server configuration: the transport kind and target of each
//! server, the default-server rule, and environment-variable interpolation
//! over a caller-supplied environment. The configuration file itself is
//! read and written by the unverified shell.

use vstd::prelude::*;
use vstd::string::*;
use crate::assoc::assoc_wf;
use crate::error::RelayError;
use crate::text::has_prefix;

verus! {

/// How to reach a server: a spawned subprocess or an HTTP endpoint.
pub enum TransportConfig {
    Stdio { command: String },
    Http { url: String },
}

/// One registered server: its transport and environment overlay.
pub struct ServerConfig {
    pub transport: TransportConfig,
    pub env: Vec<(String, String)>,
}

/// All registered servers and the default among them.
pub struct Config {
    pub servers: Vec<(String, ServerConfig)>,
    pub default_server: Option<String>,
}

pub enum TransportConfigV {
    Stdio { command: Seq<char> },
    Http { url: Seq<char> },
}

pub struct ServerConfigV {
    pub transport: TransportConfigV,
    pub env: Seq<(Seq<char>, Seq<char>)>,
}

impl View for TransportConfig {
    type V = TransportConfigV;

    open spec fn view(&self) -> TransportConfigV {
        match self {
            TransportConfig::Stdio { command } => TransportConfigV::Stdio { command: command@ },
            TransportConfig::Http { url } => TransportConfigV::Http { url: url@ },
        }
    }
}

impl View for ServerConfig {
    type V = ServerConfigV;

    open spec fn view(&self) -> ServerConfigV {
        ServerConfigV {
            transport: self.transport@,
            env: Seq::new(self.env@.len(), |i: int| (self.env@[i].0@, self.env@[i].1@)),
        }
    }
}

impl Config {
    /// Unique server names.
    pub open spec fn wf(&self) -> bool {
        assoc_wf(self.servers@)
    }

    /// The empty configuration: what loading a missing file yields.
    pub fn new() -> (r: Config)
        ensures
            r.servers@.len() == 0,
            r.default_server is None,
            r.wf(),
    {
        Config { servers: Vec::new(), default_server: None }
    }
}

impl Default for Config {
    /// The empty configuration.
    fn default() -> (r: Config)
        ensures
            r.servers@.len() == 0,
            r.default_server is None,
            r.wf(),
    {
        Config::new()
    }
}

/// A handle on one configuration file path.
pub struct ConfigStore {
    pub path: String,
}

impl ConfigStore {
    /// A store reading and writing the given path.
    pub fn with_path(path: String) -> (r: ConfigStore)
        ensures
            r.path == path,
    {
        ConfigStore { path }
    }

    /// The path this store reads and writes.
    pub fn path(&self) -> (r: &String)
        ensures
            r == &self.path,
    {
        &self.path
    }
}

/// Resolves the server to use: the named one, else the configured
/// default, else the no-default fault.
pub fn resolve_server_name(config: &Config, server: Option<String>) -> (r: Result<
    String,
    RelayError,
>)
    ensures
        match server {
            Some(name) => r matches Ok(n) && n == name,
            None => match config.default_server {
                Some(d) => r matches Ok(n) && n@ == d@,
                None => r matches Err(RelayError::NoDefaultServer),
            },
        },
{
    match server {
        Some(name) => Ok(name),
        None => match &config.default_server {
            Some(d) => Ok(d.clone()),
            None => Err(RelayError::NoDefaultServer),
        },
    }
}

/// Splits a `KEY=value` argument at the first equals sign.
pub fn parse_env_var(s: &str) -> (r: Result<(String, String), String>)
    ensures
        ({
            let e = crate::oauth::char_end(s@, 0, '=');
            if e < s@.len() {
                r matches Ok((k, v)) && k@ == s@.take(e) && v@ == s@.skip(e + 1)
            } else {
                r is Err
            }
        }),
{
    let cs = crate::text::chars_of(s);
    let mut i: usize = 0;
    while i < cs.len() && cs[i] != '='
        invariant
            i <= cs@.len(),
            crate::oauth::char_end(cs@, 0, '=') == crate::oauth::char_end(cs@, i as int, '='),
        decreases cs@.len() - i,
    {
        i += 1;
    }
    if i >= cs.len() {
        let mut m = "invalid KEY=value: no `=` found in `".to_owned();
        m.append(s);
        m.append("`");
        return Err(m);
    }
    let key = crate::transport::copy_range(&cs, 0, i);
    let val = crate::transport::copy_range(&cs, i + 1, cs.len());
    proof {
        assert(key@ =~= cs@.take(i as int));
        assert(val@ =~= cs@.skip(i as int + 1));
    }
    Ok((crate::text::string_of(&key), crate::text::string_of(&val)))
}

/// Interpolation of `${env:NAME}` references against an environment, left
/// to right, one pass: a reference to a defined variable becomes its
/// value; an unclosed or undefined reference is kept verbatim.
pub open spec fn interp_from(s: Seq<char>, i: int, env: Seq<(Seq<char>, Seq<char>)>) -> Seq<char>
    decreases s.len() - i,
{
    if !(0 <= i < s.len()) {
        Seq::empty()
    } else if has_prefix(s.skip(i), "${env:"@) {
        let close = crate::oauth::char_end(s, i + 6, '}');
        if close >= s.len() || close < i + 6 {
            s.skip(i)
        } else {
            let name = s.subrange(i + 6, close);
            match env_lookup(env, name) {
                Some(v) => if close + 1 <= s.len() {
                    v + interp_from(s, close + 1, env)
                } else {
                    v
                },
                None => if close + 1 <= s.len() {
                    s.subrange(i, close + 1) + interp_from(s, close + 1, env)
                } else {
                    s.skip(i)
                },
            }
        }
    } else {
        seq![s[i]] + interp_from(s, i + 1, env)
    }
}

/// The value bound to `name`, by first match.
pub open spec fn env_lookup(env: Seq<(Seq<char>, Seq<char>)>, name: Seq<char>) -> Option<
    Seq<char>,
>
    decreases env.len(),
{
    if env.len() == 0 {
        None
    } else if env[0].0 == name {
        Some(env[0].1)
    } else {
        env_lookup(env.drop_first(), name)
    }
}

/// The views of an environment.
pub open spec fn env_views(env: Seq<(String, String)>) -> Seq<(Seq<char>, Seq<char>)> {
    Seq::new(env.len(), |i: int| (env[i].0@, env[i].1@))
}

fn env_get(env: &Vec<(String, String)>, name: &Vec<char>) -> (r: Option<String>)
    ensures
        match r {
            Some(v) => env_lookup(env_views(env@), name@) == Some(v@),
            None => env_lookup(env_views(env@), name@) is None,
        },
{
    proof {
        assert(env_views(env@).skip(0) =~= env_views(env@));
    }
    env_get_at(env, name, 0)
}

fn env_get_at(env: &Vec<(String, String)>, name: &Vec<char>, i: usize) -> (r: Option<String>)
    requires
        i <= env@.len(),
    ensures
        match r {
            Some(v) => env_lookup(env_views(env@).skip(i as int), name@) == Some(v@),
            None => env_lookup(env_views(env@).skip(i as int), name@) is None,
        },
    decreases env@.len() - i,
{
    if i >= env.len() {
        proof {
            assert(env_views(env@).skip(i as int) =~= Seq::<(Seq<char>, Seq<char>)>::empty());
        }
        None
    } else {
        proof {
            assert(env_views(env@).skip(i as int)[0] == (env@[i as int].0@, env@[i as int].1@));
            assert(env_views(env@).skip(i as int).drop_first() =~= env_views(env@).skip(
                i as int + 1,
            ));
        }
        let name_text = crate::text::string_of(name);
        if crate::text::str_eq(env[i].0.as_str(), name_text.as_str()) {
            Some(env[i].1.clone())
        } else {
            env_get_at(env, name, i + 1)
        }
    }
}

fn env_marker_at(s: &Vec<char>, i: usize) -> (r: bool)
    requires
        i <= s@.len(),
    ensures
        r == has_prefix(s@.skip(i as int), "${env:"@),
        r ==> i + 6 <= s@.len(),
{
    proof {
        reveal_strlit("${env:");
    }
    if s.len() - i < 6 {
        return false;
    }
    let r = s[i] == '$' && s[i + 1] == '{' && s[i + 2] == 'e' && s[i + 3] == 'n' && s[i + 4] == 'v'
        && s[i + 5] == ':';
    proof {
        let suff = s@.skip(i as int);
        if r {
            assert(suff.subrange(0, 6) =~= "${env:"@);
        } else {
            if has_prefix(suff, "${env:"@) {
                assert(suff.subrange(0, 6)[0] == '$' && suff.subrange(0, 6)[1] == '{'
                    && suff.subrange(0, 6)[2] == 'e' && suff.subrange(0, 6)[3] == 'n'
                    && suff.subrange(0, 6)[4] == 'v' && suff.subrange(0, 6)[5] == ':');
                assert(suff[0] == s@[i as int] && suff[1] == s@[i as int + 1] && suff[2] == s@[
                    i as int + 2] && suff[3] == s@[i as int + 3] && suff[4] == s@[i as int + 4]
                    && suff[5] == s@[i as int + 5]);
            }
        }
    }
    r
}

fn interp_exec(s: &Vec<char>, i: usize, env: &Vec<(String, String)>) -> (r: Vec<char>)
    requires
        i <= s@.len(),
    ensures
        r@ == interp_from(s@, i as int, env_views(env@)),
    decreases s@.len() - i,
{
    let n = s.len();
    if i >= n {
        Vec::new()
    } else if env_marker_at(s, i) {
        assert(i + 6 <= n);
        let close = find_close(s, i + 6);
        if close >= s.len() {
            let rest = crate::transport::copy_range(s, i, s.len());
            proof {
                assert(rest@ =~= s@.skip(i as int));
            }
            rest
        } else {
            let name = crate::transport::copy_range(s, i + 6, close);
            proof {
                assert(name@ =~= s@.subrange(i as int + 6, close as int));
            }
            match env_get(env, &name) {
                Some(v) => {
                    let mut out = crate::text::chars_of(v.as_str());
                    let rest = interp_exec(s, close + 1, env);
                    let ghost pre = out@;
                    let mut k: usize = 0;
                    while k < rest.len()
                        invariant
                            k <= rest@.len(),
                            out@ == pre + rest@.take(k as int),
                        decreases rest@.len() - k,
                    {
                        out.push(rest[k]);
                        assert(out@ =~= pre + rest@.take(k as int + 1));
                        k += 1;
                    }
                    proof {
                        assert(out@ =~= pre + rest@);
                    }
                    out
                },
                None => {
                    let mut out = crate::transport::copy_range(s, i, close + 1);
                    let rest = interp_exec(s, close + 1, env);
                    let ghost pre = out@;
                    let mut k: usize = 0;
                    while k < rest.len()
                        invariant
                            k <= rest@.len(),
                            out@ == pre + rest@.take(k as int),
                        decreases rest@.len() - k,
                    {
                        out.push(rest[k]);
                        assert(out@ =~= pre + rest@.take(k as int + 1));
                        k += 1;
                    }
                    proof {
                        assert(out@ =~= pre + rest@);
                        assert(pre =~= s@.subrange(i as int, close as int + 1));
                    }
                    out
                },
            }
        }
    } else {
        let mut rest = interp_exec(s, i + 1, env);
        rest.insert(0, s[i]);
        proof {
            assert(rest@ =~= seq![s@[i as int]] + rest@.drop_first());
        }
        rest
    }
}

fn find_close(s: &Vec<char>, i: usize) -> (r: usize)
    requires
        i <= s@.len(),
    ensures
        r == crate::oauth::char_end(s@, i as int, '}'),
        i <= r <= s@.len(),
{
    let mut j = i;
    while j < s.len() && s[j] != '}'
        invariant
            i <= j <= s@.len(),
            crate::oauth::char_end(s@, i as int, '}') == crate::oauth::char_end(s@, j as int, '}'),
        decreases s@.len() - j,
    {
        j += 1;
    }
    j
}

/// Interpolates `${env:NAME}` references in one value.
pub fn interpolate_env(value: &str, env: &Vec<(String, String)>) -> (r: String)
    ensures
        r@ == interp_from(value@, 0, env_views(env@)),
{
    let cs = crate::text::chars_of(value);
    let out = interp_exec(&cs, 0, env);
    crate::text::string_of(&out)
}

/// Interpolates every value of an environment overlay, keeping keys and
/// order.
pub fn interpolate_env_map(env: &Vec<(String, String)>, vars: &Vec<(String, String)>) -> (r: Vec<
    (String, String),
>)
    ensures
        r@.len() == env@.len(),
        forall|i: int|
            0 <= i < env@.len() ==> (#[trigger] r@[i]).0@ == env@[i].0@ && r@[i].1@ == interp_from(
                env@[i].1@,
                0,
                env_views(vars@),
            ),
{
    let mut out: Vec<(String, String)> = Vec::new();
    let mut i: usize = 0;
    while i < env.len()
        invariant
            i <= env@.len(),
            out@.len() == i,
            forall|k: int|
                0 <= k < out@.len() ==> (#[trigger] out@[k]).0@ == env@[k].0@ && out@[k].1@
                    == interp_from(env@[k].1@, 0, env_views(vars@)),
        decreases env@.len() - i,
    {
        let key = env[i].0.clone();
        let val = interpolate_env(env[i].1.as_str(), vars);
        out.push((key, val));
        i += 1;
    }
    out
}

} // verus!
