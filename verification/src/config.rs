//! Service configuration: the listening port, TLS settings, the registry of
//! spool directories, and the user table, with the operations the
//! configuration commands perform on them.

use vstd::prelude::*;
use vstd::string::*;
use crate::strutil::{all_digits, digits_val, str_chars, digit_run_end, parse_u64_range, str_eq};

verus! {

/// The port the server listens on when none is configured.
pub const DEFAULT_PORT: u16 = 7000;

/// TLS settings: whether TLS is on, and the certificate and key files.
pub struct TlsConfig {
    pub enabled: bool,
    pub certificate: String,
    pub key: String,
}

impl Default for TlsConfig {
    /// TLS off, with the conventional certificate and key file names.
    fn default() -> (r: Self)
        ensures
            !r.enabled,
            r.certificate@ == "cert.pem"@,
            r.key@ == "key.pem"@,
    {
        TlsConfig {
            enabled: false,
            certificate: String::from_str("cert.pem"),
            key: String::from_str("key.pem"),
        }
    }
}

/// One named spool: the directory its capture files rotate in, and an
/// optional filename prefix that its files carry.
pub struct SpoolConfig {
    pub name: String,
    pub directory: String,
    pub prefix: Option<String>,
}

/// The whole service configuration.
pub struct Config {
    pub port: Option<u16>,
    pub tls: TlsConfig,
    pub spools: Vec<SpoolConfig>,
    pub users: Vec<(String, String)>,
}

impl Default for Config {
    /// The default port, default TLS settings, and no spools or users.
    fn default() -> (r: Self)
        ensures
            r.port == Some(7000u16),
            !r.tls.enabled,
            r.spools@.len() == 0,
            r.users@.len() == 0,
    {
        Config { port: Some(7000), tls: TlsConfig::default(), spools: Vec::new(), users: Vec::new() }
    }
}

/// The first configured spool with this name.
pub open spec fn spec_find_spool(spools: Seq<SpoolConfig>, name: Seq<char>) -> Option<SpoolConfig>
    decreases spools.len(),
{
    if spools.len() == 0 {
        Option::None
    } else if spools.first().name@ == name {
        Option::Some(spools.first())
    } else {
        spec_find_spool(spools.drop_first(), name)
    }
}

/// Looks a spool up by name; the first match wins.
pub fn get_spool_config<'a>(config: &'a Config, name: &str) -> (r: Option<&'a SpoolConfig>)
    ensures
        match r {
            Some(sc) => spec_find_spool(config.spools@, name@) == Some(*sc),
            None => spec_find_spool(config.spools@, name@) is None,
        },
{
    let n = config.spools.len();
    let mut i: usize = 0;
    assert(config.spools@.skip(0) =~= config.spools@);
    while i < n
        invariant
            i <= n,
            n == config.spools@.len(),
            spec_find_spool(config.spools@, name@) == spec_find_spool(
                config.spools@.skip(i as int),
                name@,
            ),
        decreases n - i,
    {
        let ghost pre = config.spools@.skip(i as int);
        assert(pre.first() == config.spools@[i as int]);
        assert(pre.drop_first() =~= config.spools@.skip(i + 1));
        if str_eq(config.spools[i].name.as_str(), name) {
            return Some(&config.spools[i]);
        }
        i = i + 1;
    }
    assert(config.spools@.skip(n as int).len() == 0);
    None
}

/// The names of the configured spools, in order.
pub fn spool_names(config: &Config) -> (r: Vec<String>)
    ensures
        r@.len() == config.spools@.len(),
        forall|i: int| 0 <= i < r@.len() ==> (#[trigger] r@[i])@ == config.spools@[i].name@,
{
    let n = config.spools.len();
    let mut out: Vec<String> = Vec::new();
    let mut i: usize = 0;
    while i < n
        invariant
            i <= n,
            n == config.spools@.len(),
            out@.len() == i,
            forall|j: int| 0 <= j < i ==> (#[trigger] out@[j])@ == config.spools@[j].name@,
        decreases n - i,
    {
        out.push(config.spools[i].name.clone());
        i = i + 1;
    }
    out
}

/// A numeric port value: decimal digits only, within `u16`.
pub open spec fn spec_parse_u16(s: Seq<char>) -> Option<u16> {
    if s.len() > 0 && all_digits(s) && digits_val(s) <= u16::MAX {
        Option::Some(digits_val(s) as u16)
    } else {
        Option::None
    }
}

/// A boolean value: exactly `true` or `false`.
pub open spec fn spec_parse_bool(s: Seq<char>) -> Option<bool> {
    if s == "true"@ {
        Option::Some(true)
    } else if s == "false"@ {
        Option::Some(false)
    } else {
        Option::None
    }
}

fn parse_u16_str(s: &str) -> (r: Option<u16>)
    ensures
        r == spec_parse_u16(s@),
{
    let v = str_chars(s);
    let n = v.len();
    if n == 0 {
        return None;
    }
    let e = digit_run_end(&v, 0);
    if e < n {
        assert(!all_digits(v@));
        return None;
    }
    assert(all_digits(v@)) by {
        assert(v@.subrange(0, n as int) =~= v@);
    }
    assert(v@.subrange(0, n as int) =~= v@);
    match parse_u64_range(&v, 0, n) {
        Some(x) => {
            if x <= 65535 {
                Some(x as u16)
            } else {
                None
            }
        },
        None => None,
    }
}

fn parse_bool_str(s: &str) -> (r: Option<bool>)
    ensures
        r == spec_parse_bool(s@),
{
    if str_eq(s, "true") {
        Some(true)
    } else if str_eq(s, "false") {
        Some(false)
    } else {
        None
    }
}

/// Why a configuration command was refused.
#[derive(Debug)]
pub enum ConfigError {
    UnknownKey,
    InvalidValue,
}

/// Sets one configuration value by key: the port, the TLS switch, or the
/// TLS certificate or key file; any other key is unknown. A value that does
/// not parse leaves the configuration unchanged.
pub fn config_set(config: &mut Config, key: String, val: String) -> (r: Result<(), ConfigError>)
    ensures
        ({
            let c0 = *old(config);
            let c1 = *final(config);
            &&& (key@ == "port"@ ==> match spec_parse_u16(val@) {
                Option::Some(p) => r is Ok && c1.port == Some(p) && c1.tls == c0.tls && c1.spools
                    == c0.spools && c1.users == c0.users,
                Option::None => r == Result::<(), ConfigError>::Err(ConfigError::InvalidValue)
                    && c1 == c0,
            })
            &&& (key@ == "tls.enabled"@ ==> match spec_parse_bool(val@) {
                Option::Some(b) => r is Ok && c1.tls.enabled == b && c1.port == c0.port
                    && c1.tls.certificate == c0.tls.certificate && c1.tls.key == c0.tls.key
                    && c1.spools == c0.spools && c1.users == c0.users,
                Option::None => r == Result::<(), ConfigError>::Err(ConfigError::InvalidValue)
                    && c1 == c0,
            })
            &&& (key@ == "tls.cert"@ ==> r is Ok && c1.tls.certificate == val && c1.port == c0.port
                && c1.tls.enabled == c0.tls.enabled && c1.tls.key == c0.tls.key && c1.spools
                == c0.spools && c1.users == c0.users)
            &&& (key@ == "tls.key"@ ==> r is Ok && c1.tls.key == val && c1.port == c0.port
                && c1.tls.enabled == c0.tls.enabled && c1.tls.certificate == c0.tls.certificate
                && c1.spools == c0.spools && c1.users == c0.users)
            &&& (key@ != "port"@ && key@ != "tls.enabled"@ && key@ != "tls.cert"@ && key@
                != "tls.key"@ ==> r == Result::<(), ConfigError>::Err(ConfigError::UnknownKey)
                && c1 == c0)
        }),
{
    proof {
        broadcast use vstd::string::group_string_axioms;

        reveal_strlit("port");
        reveal_strlit("tls.enabled");
        reveal_strlit("tls.cert");
        reveal_strlit("tls.key");
        assert("port"@.len() == 4);
        assert("tls.enabled"@.len() == 11);
        assert("tls.cert"@.len() == 8);
        assert("tls.key"@.len() == 7);
    }
    if str_eq(key.as_str(), "port") {
        match parse_u16_str(val.as_str()) {
            Some(p) => {
                config.port = Some(p);
                Ok(())
            },
            None => Err(ConfigError::InvalidValue),
        }
    } else if str_eq(key.as_str(), "tls.enabled") {
        match parse_bool_str(val.as_str()) {
            Some(b) => {
                config.tls.enabled = b;
                Ok(())
            },
            None => Err(ConfigError::InvalidValue),
        }
    } else if str_eq(key.as_str(), "tls.cert") {
        config.tls.certificate = val;
        Ok(())
    } else if str_eq(key.as_str(), "tls.key") {
        config.tls.key = val;
        Ok(())
    } else {
        Err(ConfigError::UnknownKey)
    }
}

/// The spools left after removing every one with this name.
pub open spec fn spec_remove_spool(spools: Seq<SpoolConfig>, name: Seq<char>) -> Seq<SpoolConfig>
    decreases spools.len(),
{
    if spools.len() == 0 {
        Seq::empty()
    } else {
        let rest = spec_remove_spool(spools.drop_last(), name);
        if spools.last().name@ == name {
            rest
        } else {
            rest.push(spools.last())
        }
    }
}

/// Some spool carries this name.
pub open spec fn spec_has_spool(spools: Seq<SpoolConfig>, name: Seq<char>) -> bool {
    exists|i: int| 0 <= i < spools.len() && (#[trigger] spools[i]).name@ == name
}

/// Removes every spool with this name; reports whether any was found.
pub fn spool_remove(config: &mut Config, name: &str) -> (removed: bool)
    ensures
        final(config).spools@ == spec_remove_spool(old(config).spools@, name@),
        removed == spec_has_spool(old(config).spools@, name@),
        final(config).port == old(config).port,
        final(config).tls == old(config).tls,
        final(config).users == old(config).users,
{
    let n = config.spools.len();
    let mut kept: Vec<SpoolConfig> = Vec::new();
    let mut removed = false;
    let mut i: usize = 0;
    while i < n
        invariant
            i <= n,
            n == config.spools@.len(),
            kept@ == spec_remove_spool(config.spools@.subrange(0, i as int), name@),
            removed == spec_has_spool(config.spools@.subrange(0, i as int), name@),
        decreases n - i,
    {
        let ghost pre = config.spools@.subrange(0, i as int);
        assert(config.spools@.subrange(0, i + 1).drop_last() =~= pre);
        assert(config.spools@.subrange(0, i + 1).last() == config.spools@[i as int]);
        if str_eq(config.spools[i].name.as_str(), name) {
            removed = true;
            assert(spec_has_spool(config.spools@.subrange(0, i + 1), name@)) by {
                assert(config.spools@.subrange(0, i + 1)[i as int].name@ == name@);
            }
        } else {
            let sc = SpoolConfig {
                name: config.spools[i].name.clone(),
                directory: config.spools[i].directory.clone(),
                prefix: match &config.spools[i].prefix {
                    Some(p) => Some(p.clone()),
                    None => None,
                },
            };
            assert(sc == config.spools@[i as int]);
            kept.push(sc);
            proof {
                if spec_has_spool(config.spools@.subrange(0, i + 1), name@) && !spec_has_spool(
                    pre,
                    name@,
                ) {
                    let w = choose|k: int|
                        0 <= k < i + 1 && (#[trigger] config.spools@.subrange(
                            0,
                            i + 1,
                        )[k]).name@ == name@;
                    assert(w == i);
                    assert(false);
                }
            }
        }
        proof {
            if spec_has_spool(pre, name@) {
                let w = choose|k: int| 0 <= k < i && (#[trigger] pre[k]).name@ == name@;
                assert(config.spools@.subrange(0, i + 1)[w].name@ == name@);
            }
        }
        i = i + 1;
    }
    assert(config.spools@.subrange(0, n as int) =~= config.spools@);
    config.spools = kept;
    removed
}

/// Adds a spool to the registry.
pub fn spool_add(config: &mut Config, name: String, directory: String, prefix: Option<String>)
    ensures
        final(config).spools@ == old(config).spools@.push(
            SpoolConfig { name, directory, prefix },
        ),
        final(config).port == old(config).port,
        final(config).tls == old(config).tls,
        final(config).users == old(config).users,
{
    config.spools.push(SpoolConfig { name, directory, prefix });
}

/// The user table after storing a password hash: the first entry with this
/// name is replaced, or a new entry is appended.
pub open spec fn spec_set_user(
    users: Seq<(String, String)>,
    username: String,
    hashed: String,
) -> Seq<(String, String)>
    decreases users.len(),
{
    if users.len() == 0 {
        seq![(username, hashed)]
    } else if users.first().0@ == username@ {
        users.update(0, (users.first().0, hashed))
    } else {
        seq![users.first()] + spec_set_user(users.drop_first(), username, hashed)
    }
}

/// Some user carries this name.
pub open spec fn spec_has_user(users: Seq<(String, String)>, name: Seq<char>) -> bool {
    exists|i: int| 0 <= i < users.len() && (#[trigger] users[i]).0@ == name
}

/// Stores a password hash for a user; reports whether the user existed.
pub fn passwd_set(config: &mut Config, username: &String, hashed: String) -> (existed: bool)
    ensures
        final(config).users@ == spec_set_user(old(config).users@, *username, hashed),
        existed == spec_has_user(old(config).users@, username@),
        final(config).port == old(config).port,
        final(config).tls == old(config).tls,
        final(config).spools == old(config).spools,
{
    let ghost users0 = config.users@;
    let n = config.users.len();
    let mut i: usize = 0;
    while i < n
        invariant
            i <= n,
            n == users0.len(),
            users0 == old(config).users@,
            *config == *old(config),
            forall|j: int| 0 <= j < i ==> (#[trigger] users0[j]).0@ != username@,
        decreases n - i,
    {
        if str_eq(config.users[i].0.as_str(), username.as_str()) {
            let ghost hv = hashed;
            let entry = config.users.remove(i);
            config.users.insert(i, (entry.0, hashed));
            proof {
                lemma_set_user_at(users0, *username, hv, i as int);
                assert(config.users@ =~= users0.update(i as int, (users0[i as int].0, hv)));
                assert(spec_has_user(users0, username@)) by {
                    assert((users0[i as int]).0@ == username@);
                }
            }
            return true;
        }
        i = i + 1;
    }
    let ghost hv = hashed;
    let u = username.clone();
    config.users.push((u, hashed));
    proof {
        lemma_set_user_absent(users0, *username, hv);
        assert(config.users@ =~= users0 + seq![(*username, hv)]);
        if spec_has_user(users0, username@) {
            let w = choose|k: int|
                0 <= k < users0.len() && (#[trigger] users0[k]).0@ == username@;
            assert(false);
        }
    }
    false
}

proof fn lemma_set_user_at(users: Seq<(String, String)>, username: String, hashed: String, i: int)
    requires
        0 <= i < users.len(),
        users[i].0@ == username@,
        forall|j: int| 0 <= j < i ==> (#[trigger] users[j]).0@ != username@,
    ensures
        spec_set_user(users, username, hashed) == users.update(i, (users[i].0, hashed)),
    decreases users.len(),
{
    if i == 0 {
        assert(users.first() == users[0]);
    } else {
        let rest = users.drop_first();
        assert(forall|j: int| 0 <= j < i - 1 ==> (#[trigger] rest[j]).0@ != username@);
        lemma_set_user_at(rest, username, hashed, i - 1);
        assert(seq![users.first()] + rest.update(i - 1, (rest[i - 1].0, hashed)) =~= users.update(
            i,
            (users[i].0, hashed),
        ));
    }
}

proof fn lemma_set_user_absent(users: Seq<(String, String)>, username: String, hashed: String)
    requires
        forall|j: int| 0 <= j < users.len() ==> (#[trigger] users[j]).0@ != username@,
    ensures
        spec_set_user(users, username, hashed) == users + seq![(username, hashed)],
    decreases users.len(),
{
    if users.len() == 0 {
        assert(spec_set_user(users, username, hashed) =~= users + seq![(username, hashed)]);
    } else {
        let rest = users.drop_first();
        lemma_set_user_absent(rest, username, hashed);
        assert(seq![users.first()] + (rest + seq![(username, hashed)]) =~= users + seq![
            (username, hashed)
        ]);
    }
}

/// Why no password could be stored.
#[derive(Debug)]
pub enum PasswdError {
    EmptyUsername,
    EmptyPassword,
    HashFailed,
}

/// Relies on `bcrypt::hash` with the crate's default cost: the salt is drawn
/// from the operating system's randomness, so nothing is promised of the
/// result.
#[verifier::external_body]
fn bcrypt_hash(password: &String) -> (r: Option<String>) {
    bcrypt::hash(password.as_str(), bcrypt::DEFAULT_COST).ok()
}

/// Stores a user's password as a fresh salted hash: empty names and empty
/// passwords are refused, and the user table is updated with whatever hash
/// the credential library produced.
pub fn passwd(config: &mut Config, username: &String, password: &String) -> (r: Result<
    bool,
    PasswdError,
>)
    ensures
        username@.len() == 0 ==> r == Result::<bool, PasswdError>::Err(PasswdError::EmptyUsername)
            && *final(config) == *old(config),
        username@.len() > 0 && password@.len() == 0 ==> r == Result::<bool, PasswdError>::Err(
            PasswdError::EmptyPassword,
        ) && *final(config) == *old(config),
        r == Result::<bool, PasswdError>::Err(PasswdError::HashFailed) ==> *final(config) == *old(
            config,
        ),
        match r {
            Ok(existed) => exists|h: String|
                final(config).users@ == spec_set_user(old(config).users@, *username, h) && existed
                    == spec_has_user(old(config).users@, username@),
            Err(_) => true,
        },
        r is Ok ==> final(config).port == old(config).port && final(config).tls == old(config).tls
            && final(config).spools == old(config).spools,

{
    if username.as_str().is_empty() {
        return Err(PasswdError::EmptyUsername);
    }
    if password.as_str().is_empty() {
        return Err(PasswdError::EmptyPassword);
    }
    match bcrypt_hash(password) {
        Some(h) => {
            let ghost hv = h;
            let existed = passwd_set(config, username, h);
            assert(final(config).users@ == spec_set_user(old(config).users@, *username, hv));
            Ok(existed)
        },
        None => Err(PasswdError::HashFailed),
    }
}

} // verus!
