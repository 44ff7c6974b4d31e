//! Where files lie, by the XDG rules. Paths are the bytes that the system sees.

use vstd::prelude::*;
use vstd::string::*;

verus! {

/// The part of the environment that says where files lie.
#[derive(Debug)]
pub struct Environment {
    /// `HOME`.
    pub home: Option<Vec<u8>>,
    /// `XDG_CONFIG_HOME`.
    pub config_home: Option<Vec<u8>>,
    /// `XDG_RUNTIME_DIR`.
    pub runtime_dir: Option<Vec<u8>>,
}

/// The path begins at the root.
pub open spec fn absolute(p: Seq<u8>) -> bool {
    p.len() > 0 && p[0] == 0x2f
}

/// A relative path below another one.
pub open spec fn below(base: Seq<u8>, part: Seq<u8>) -> Seq<u8> {
    if base.len() == 0 || base.last() == 0x2f {
        base + part
    } else {
        base.push(0x2f) + part
    }
}

/// The home directory; empty where it is not set.
pub open spec fn home_of(env: Environment) -> Seq<u8> {
    match env.home {
        Some(p) => p@,
        None => seq![],
    }
}

/// The value as an absolute path; a relative one counts as not set.
pub open spec fn absolute_value(v: Option<Vec<u8>>) -> Option<Seq<u8>> {
    match v {
        Some(p) => if absolute(p@) {
            Some(p@)
        } else {
            None
        },
        None => None,
    }
}

/// The configuration directory.
pub open spec fn config_of(env: Environment) -> Seq<u8> {
    let base = match absolute_value(env.config_home) {
        Some(p) => p,
        None => below(home_of(env), ".config".spec_bytes()),
    };
    below(base, "adtune".spec_bytes())
}

/// The directory of what need not outlive the session.
pub open spec fn runtime_of(env: Environment) -> Seq<u8> {
    match absolute_value(env.runtime_dir) {
        Some(p) => below(p, "adtune".spec_bytes()),
        None => below(config_of(env), "runtime".spec_bytes()),
    }
}

pub(crate) fn push_bytes(r: &mut Vec<u8>, b: &[u8])
    ensures
        final(r)@ == old(r)@ + b@,
{
    let ghost head = r@;
    assert(head + b@.take(0) =~= head);
    for i in 0..b.len()
        invariant
            r@ =~= head + b@.take(i as int),
    {
        r.push(b[i]);
    }
    assert(b@.take(b@.len() as int) =~= b@);
}

pub(crate) fn copy_bytes(b: &Vec<u8>) -> (r: Vec<u8>)
    ensures
        r@ == b@,
{
    let mut r: Vec<u8> = Vec::new();
    push_bytes(&mut r, b.as_slice());
    assert(r@ =~= b@);
    r
}

pub(crate) fn join(base: Vec<u8>, part: &str) -> (r: Vec<u8>)
    ensures
        r@ == below(base@, part.spec_bytes()),
{
    let mut r: Vec<u8> = base;
    if r.len() > 0 && r[r.len() - 1] != 0x2f {
        r.push(0x2f);
    }
    push_bytes(&mut r, part.as_bytes());
    r
}

/// The value as an absolute path; a relative one counts as not set.
fn env_abs(v: &Option<Vec<u8>>) -> (r: Option<Vec<u8>>)
    ensures
        absolute_value(*v) == match r {
            Some(p) => Some(p@),
            None => None,
        },
{
    match v {
        Some(p) => if p.len() > 0 && p[0] == 0x2f {
            Some(copy_bytes(p))
        } else {
            None
        },
        None => None,
    }
}

/// The home directory; empty where it is not set.
pub fn home(env: &Environment) -> (r: Vec<u8>)
    ensures
        r@ == home_of(*env),
{
    match &env.home {
        Some(p) => copy_bytes(p),
        None => {
            let none: Vec<u8> = Vec::new();
            assert(none@ =~= seq![]);
            none
        },
    }
}

/// Fails where the home directory is not an absolute path: the other directories
/// would be relative ones, which every process would take for something else.
pub fn require_home(env: &Environment) -> (r: Result<(), String>)
    ensures
        r is Ok <==> absolute(home_of(*env)),
        r matches Err(e) ==> e@
            == "HOME is not set to an absolute path; cannot locate the ADtune config directory."@,
{
    let h: Vec<u8> = home(env);
    if h.len() > 0 && h[0] == 0x2f {
        Ok(())
    } else {
        Err(
            "HOME is not set to an absolute path; cannot locate the ADtune config directory.".to_owned(),
        )
    }
}

/// The configuration directory: `$XDG_CONFIG_HOME/adtune`, or `~/.config/adtune`.
pub fn config_dir(env: &Environment) -> (r: Vec<u8>)
    ensures
        r@ == config_of(*env),
{
    let base: Vec<u8> = match env_abs(&env.config_home) {
        Some(p) => p,
        None => join(home(env), ".config"),
    };
    join(base, "adtune")
}

/// The directory of what need not outlive the session: `$XDG_RUNTIME_DIR/adtune`, or
/// `runtime` below the configuration directory.
pub fn runtime_dir(env: &Environment) -> (r: Vec<u8>)
    ensures
        r@ == runtime_of(*env),
{
    match env_abs(&env.runtime_dir) {
        Some(p) => join(p, "adtune"),
        None => join(config_dir(env), "runtime"),
    }
}

/// The file that says what calibration should be.
pub fn desired_path(env: &Environment) -> (r: Vec<u8>)
    ensures
        r@ == below(config_of(*env), "desired.json".spec_bytes()),
{
    join(config_dir(env), "desired.json")
}

/// The file that says what calibration is.
pub fn status_path(env: &Environment) -> (r: Vec<u8>)
    ensures
        r@ == below(runtime_of(*env), "status.json".spec_bytes()),
{
    join(runtime_dir(env), "status.json")
}

/// The file that a running service holds locked.
pub fn lock_path(env: &Environment) -> (r: Vec<u8>)
    ensures
        r@ == below(runtime_of(*env), "service.lock".spec_bytes()),
{
    join(runtime_dir(env), "service.lock")
}

/// The library of saved profiles.
pub fn profiles_dir(env: &Environment) -> (r: Vec<u8>)
    ensures
        r@ == below(config_of(*env), "profiles".spec_bytes()),
{
    join(config_dir(env), "profiles")
}

/// The state file of old versions.
pub fn legacy_state_path(env: &Environment) -> (r: Vec<u8>)
    ensures
        r@ == below(config_of(*env), "state.json".spec_bytes()),
{
    join(config_dir(env), "state.json")
}

/// The graph description of old versions.
pub fn legacy_filter_conf_path(env: &Environment) -> (r: Vec<u8>)
    ensures
        r@ == below(config_of(*env), "adtune-filter.conf".spec_bytes()),
{
    join(config_dir(env), "adtune-filter.conf")
}

/// The systemd unit of old versions, which wrote it below the home directory whatever
/// the XDG variables said.
pub fn legacy_unit_path(env: &Environment) -> (r: Vec<u8>)
    ensures
        r@ == below(home_of(*env), ".config/systemd/user/adtune.service".spec_bytes()),
{
    join(home(env), ".config/systemd/user/adtune.service")
}

/// With an absolute home directory every path is absolute.
pub proof fn law_paths_absolute(env: Environment)
    requires
        absolute(home_of(env)),
    ensures
        absolute(config_of(env)),
        absolute(runtime_of(env)),
        forall|part: Seq<u8>| absolute(#[trigger] below(config_of(env), part)),
        forall|part: Seq<u8>| absolute(#[trigger] below(runtime_of(env), part)),
{
}

} // verus!
