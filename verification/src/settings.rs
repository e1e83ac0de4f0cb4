//! The handful of knobs the bridge, the relay and `exec` all have to agree on.

use vstd::prelude::*;

use crate::forward;
use crate::path;
use crate::path::joined;
use crate::text;
use crate::text::{decimal, u16_value};

verus! {

/// Loopback port the host bridge publishes herdr's socket on.
pub const DEFAULT_PORT: u16 = 47100;

/// Fallback only, not the path that `exec` uses: its bootstrap script resolves `$HOME`
/// inside the container and passes the result as `HERDR_SOCKET_PATH`, since the remote
/// user isn't always `vscode`. It matters for a relay run by hand with no
/// `HERDR_SOCKET_PATH` in the environment.
pub const CONTAINER_SOCKET: &'static str = "/home/vscode/.herdr/herdr.sock";

/// Docker Desktop forwards this to the host's 127.0.0.1.
pub const RELAY_HOST: &'static str = "host.docker.internal";

/// Address the host bridge binds. Loopback by default and deliberately: the herdr
/// control socket is unauthenticated, so whatever can reach this port can drive herdr.
pub const DEFAULT_BIND: &'static str = "127.0.0.1";

/// The environment variables that the settings are read from; `None` for one that is
/// not set.
#[derive(Debug, PartialEq)]
pub struct Environment {
    /// `HERDR_RELAY_PORT`
    pub relay_port: Option<String>,
    /// `HERDR_RELAY_HOST`
    pub relay_host: Option<String>,
    /// `HERDR_BRIDGE_BIND`
    pub bridge_bind: Option<String>,
    /// `HERDR_SOCKET_PATH`
    pub socket_path: Option<String>,
    /// `HOME`
    pub home: Option<String>,
    /// `TMPDIR`
    pub tmpdir: Option<String>,
}

/// The value of a variable that counts as unset when it is empty.
pub open spec fn non_empty_or(variable: Option<Seq<char>>, default: Seq<char>) -> Seq<char> {
    match variable {
        Some(value) => if value.len() > 0 {
            value
        } else {
            default
        },
        None => default,
    }
}

/// Each setting is what its own variable says, and its default where that is not set or,
/// for an address or a socket, empty; a port that is no number is the default port.
pub proof fn law_each_setting_follows_its_variable(env: Environment)
    ensures
        ({
            let host = env.relay_host.deep_view();
            let bind = env.bridge_bind.deep_view();
            let socket = env.socket_path.deep_view();
            &&& host matches Some(v) ==> v.len() > 0 ==> env.spec_relay_host() == v
            &&& host is None || host == Some(Seq::<char>::empty()) ==> env.spec_relay_host()
                == RELAY_HOST@
            &&& bind matches Some(v) ==> v.len() > 0 ==> env.spec_bridge_bind() == v
            &&& bind is None || bind == Some(Seq::<char>::empty()) ==> env.spec_bridge_bind()
                == DEFAULT_BIND@
            &&& socket matches Some(v) ==> v.len() > 0 ==> env.spec_host_socket() == v
                && env.spec_relay_socket() == v
            &&& socket is None || socket == Some(Seq::<char>::empty()) ==> {
                &&& env.spec_relay_socket() == CONTAINER_SOCKET@
                &&& env.spec_host_socket() == joined(
                    env.spec_home(),
                    ".config/herdr/herdr.sock"@,
                )
            }
            &&& env.home.deep_view() matches Some(v) ==> env.spec_home() == v
            &&& env.home is None ==> env.spec_home() == "/"@
            &&& env.tmpdir.deep_view() matches Some(v) ==> env.spec_runtime_dir() == v
            &&& env.tmpdir is None ==> env.spec_runtime_dir() == "/tmp"@
            &&& env.relay_port is None ==> env.spec_port() == DEFAULT_PORT
            &&& env.relay_port.deep_view() matches Some(v) ==> match u16_value(v) {
                Some(port) => env.spec_port() == port,
                None => env.spec_port() == DEFAULT_PORT,
            }
        }),
{
}

/// The value of a variable, or `default` when it is not set.
pub open spec fn value_or(variable: Option<Seq<char>>, default: Seq<char>) -> Seq<char> {
    match variable {
        Some(value) => value,
        None => default,
    }
}

/// The port that a variable names, or the default when it names none.
pub open spec fn port_of(variable: Option<Seq<char>>) -> u16 {
    match variable {
        Some(value) => match u16_value(value) {
            Some(port) => port,
            None => DEFAULT_PORT,
        },
        None => DEFAULT_PORT,
    }
}

/// The views of the settings that an environment gives.
impl Environment {
    pub open spec fn spec_port(&self) -> u16 {
        port_of(self.relay_port.deep_view())
    }

    pub open spec fn spec_relay_host(&self) -> Seq<char> {
        non_empty_or(self.relay_host.deep_view(), RELAY_HOST@)
    }

    pub open spec fn spec_bridge_bind(&self) -> Seq<char> {
        non_empty_or(self.bridge_bind.deep_view(), DEFAULT_BIND@)
    }

    pub open spec fn spec_home(&self) -> Seq<char> {
        value_or(self.home.deep_view(), "/"@)
    }

    pub open spec fn spec_host_socket(&self) -> Seq<char> {
        non_empty_or(
            self.socket_path.deep_view(),
            joined(self.spec_home(), ".config/herdr/herdr.sock"@),
        )
    }

    pub open spec fn spec_relay_socket(&self) -> Seq<char> {
        non_empty_or(self.socket_path.deep_view(), CONTAINER_SOCKET@)
    }

    pub open spec fn spec_runtime_dir(&self) -> Seq<char> {
        value_or(self.tmpdir.deep_view(), "/tmp"@)
    }
}

/// A port written into the environment in decimal is the port that is read from it, so
/// the end that passes it on and the end that reads it agree.
pub proof fn law_port_survives_the_environment(port: u16)
    ensures
        port_of(Some(decimal(port as nat))) == port,
{
    text::law_decimal_reads_back(port as nat);
}

/// A socket that is passed on through the environment is the one that is listened on,
/// wherever the default would be.
pub proof fn law_socket_survives_the_environment(env: Environment, socket: Seq<char>)
    requires
        env.socket_path.deep_view() == Some(socket),
        socket.len() > 0,
    ensures
        env.spec_relay_socket() == socket,
        env.spec_host_socket() == socket,
{
}

/// The two ends are separate knobs: what one variable says changes nothing about the
/// end that the other one is for.
pub proof fn law_the_two_ends_are_separate_knobs(a: Environment, b: Environment)
    ensures
        a.relay_host == b.relay_host ==> a.spec_relay_host() == b.spec_relay_host(),
        a.bridge_bind == b.bridge_bind ==> a.spec_bridge_bind() == b.spec_bridge_bind(),
        a.relay_host is None ==> a.spec_relay_host() == RELAY_HOST@,
        a.bridge_bind is None ==> a.spec_bridge_bind() == DEFAULT_BIND@,
{
}

fn owned_or(variable: &Option<String>, default: &str) -> (r: String)
    ensures
        r@ == value_or(variable.deep_view(), default@),
{
    match variable {
        Some(value) => value.clone(),
        None => default.to_owned(),
    }
}

/// The value of a variable that counts as unset when it is empty.
pub fn owned_non_empty_or(variable: &Option<String>, default: &str) -> (r: String)
    ensures
        r@ == non_empty_or(variable.deep_view(), default@),
{
    match variable {
        Some(value) => {
            if value.as_str().is_empty() {
                default.to_owned()
            } else {
                value.clone()
            }
        },
        None => default.to_owned(),
    }
}

/// The bridge port.
pub fn port(env: &Environment) -> (r: u16)
    ensures
        r == env.spec_port(),
{
    match &env.relay_port {
        Some(value) => match text::parse_u16(value.as_str()) {
            Some(port) => port,
            None => DEFAULT_PORT,
        },
        None => DEFAULT_PORT,
    }
}

/// The host that the container dials.
pub fn relay_host(env: &Environment) -> (r: String)
    ensures
        r@ == env.spec_relay_host(),
{
    owned_non_empty_or(&env.relay_host, RELAY_HOST)
}

/// Mirror of `relay_host` for the host end: where the bridge listens, rather than where
/// the container dials. Native Linux Docker needs both moved off their Docker Desktop
/// defaults, and moving only one is worse than moving neither.
pub fn bridge_bind(env: &Environment) -> (r: String)
    ensures
        r@ == env.spec_bridge_bind(),
{
    owned_non_empty_or(&env.bridge_bind, DEFAULT_BIND)
}

/// The home directory.
pub fn home(env: &Environment) -> (r: String)
    ensures
        r@ == env.spec_home(),
{
    owned_or(&env.home, "/")
}

/// The herdr API socket on the host: herdr exports `HERDR_SOCKET_PATH` into each pane,
/// and the default is where the server puts it.
pub fn host_socket(env: &Environment) -> (r: String)
    ensures
        r@ == env.spec_host_socket(),
{
    let fallback = path::join(home(env).as_str(), ".config/herdr/herdr.sock");
    forward::socket_path(env, fallback.as_str())
}

/// Where the relay listens, read from the same variable. In the container that's what
/// `exec` passed in.
pub fn relay_socket(env: &Environment) -> (r: String)
    ensures
        r@ == env.spec_relay_socket(),
{
    forward::socket_path(env, CONTAINER_SOCKET)
}

/// Pidfiles and logs for the host bridge. `TMPDIR` on macOS is per-user.
pub fn runtime_dir(env: &Environment) -> (r: String)
    ensures
        r@ == env.spec_runtime_dir(),
{
    owned_or(&env.tmpdir, "/tmp")
}

} // verus!
