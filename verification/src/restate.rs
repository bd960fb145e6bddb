//! Where the Restate server runs (locally, started by Soma, or remotely) and how
//! to reach and start it.
use vstd::prelude::*;
use crate::error::SomaError;
use crate::paths::{join_path, path_join};
use crate::text::{chars_of, decimal, decimal_chars, extend_chars, string_of};

verus! {

/// What `url::Url::parse` makes of `s`: the URL's serialization when `s` parses,
/// `None` when it does not.
pub uninterp spec fn url_serialization(s: Seq<char>) -> Option<Seq<char>>;

pub open spec fn opt_view(o: Option<String>) -> Option<Seq<char>> {
    match o {
        Some(s) => Some(s@),
        None => None,
    }
}

/// Calls `url::Url::parse` and serializes the URL it gives (`Url::to_string`).
/// The result is named by `url_serialization`: what parsing accepts and how it
/// normalises is the url crate's, and is not restated here.
#[verifier::external_body]
fn parse_url(s: &str) -> (r: Option<String>)
    ensures
        opt_view(r) == url_serialization(s@),
{
    match url::Url::parse(s) {
        Ok(u) => Some(u.to_string()),
        Err(_) => None,
    }
}

/// The parameters of a Restate server that Soma starts on this machine.
#[derive(Clone)]
pub struct RestateServerLocalParams {
    pub project_dir: String,
    pub ingress_port: u16,
    pub admin_port: u16,
    pub advertised_node_port: u16,
}

/// The addresses of a Restate server that runs elsewhere (serialized URLs).
#[derive(Clone)]
pub struct RestateServerRemoteParams {
    pub admin_address: String,
    pub ingress_address: String,
    pub admin_token: Option<String>,
}

/// Where the Restate server runs.
#[derive(Clone)]
pub enum RestateServerParams {
    Local(RestateServerLocalParams),
    Remote(RestateServerRemoteParams),
}

/// The remote Restate options of the command line; they come all or none.
#[derive(Clone)]
pub struct RemoteRestateParams {
    pub admin_url: Option<String>,
    pub ingress_url: Option<String>,
    pub admin_token: Option<String>,
}

/// The Restate services of a local server.
#[derive(Debug, PartialEq, Eq)]
pub enum RestatePort {
    Ingress,
    Admin,
    AdvertisedNode,
}

/// Errors about the Restate server.
#[derive(Debug)]
pub enum RestateError {
    /// Remote Restate needs both an admin and an ingress URL.
    MissingRemoteAddress,
    /// The address built for a local server is not a URL.
    InvalidAddress,
    /// A port that the local server needs is taken.
    PortInUse { service: RestatePort, port: u16 },
    /// Checking a port failed.
    PortCheck(SomaError),
}

/// `http://127.0.0.1:<port>`.
pub open spec fn local_http_address(port: u16) -> Seq<char> {
    "http://127.0.0.1:"@ + decimal(port as nat)
}

fn local_http_address_of(port: u16) -> (r: String)
    ensures
        r@ == local_http_address(port),
{
    let mut v = chars_of("http://127.0.0.1:");
    let d = decimal_chars(port as u64);
    extend_chars(&mut v, d.as_slice());
    string_of(v.as_slice())
}

/// The address that a parsed URL gives: its serialization, or an error when
/// the text did not parse.
pub fn address_from_parsed(parsed: Option<String>) -> (r: Result<String, RestateError>)
    ensures
        match parsed {
            Some(u) => r matches Ok(a) && a@ == u@,
            None => r matches Err(RestateError::InvalidAddress),
        },
{
    match parsed {
        Some(u) => Ok(u),
        None => Err(RestateError::InvalidAddress),
    }
}

/// The address a service of a local server listens on, as a URL.
pub open spec fn local_address(port: u16) -> Option<Seq<char>> {
    url_serialization(local_http_address(port))
}

impl RestateServerParams {
    /// The admin API address: `http://127.0.0.1:<admin port>` for a local server,
    /// the given address for a remote one.
    pub fn get_admin_address(&self) -> (r: Result<String, RestateError>)
        ensures
            match self {
                RestateServerParams::Local(p) => match local_address(p.admin_port) {
                    Some(a) => r matches Ok(s) && s@ == a,
                    None => r matches Err(RestateError::InvalidAddress),
                },
                RestateServerParams::Remote(p) => r matches Ok(s) && s@ == p.admin_address@,
            },
    {
        match self {
            RestateServerParams::Local(p) => {
                let text = local_http_address_of(p.admin_port);
                address_from_parsed(parse_url(text.as_str()))
            },
            RestateServerParams::Remote(p) => Ok(p.admin_address.clone()),
        }
    }

    /// The ingress address: `http://127.0.0.1:<ingress port>` for a local server,
    /// the given address for a remote one.
    pub fn get_ingress_address(&self) -> (r: Result<String, RestateError>)
        ensures
            match self {
                RestateServerParams::Local(p) => match local_address(p.ingress_port) {
                    Some(a) => r matches Ok(s) && s@ == a,
                    None => r matches Err(RestateError::InvalidAddress),
                },
                RestateServerParams::Remote(p) => r matches Ok(s) && s@ == p.ingress_address@,
            },
    {
        match self {
            RestateServerParams::Local(p) => {
                let text = local_http_address_of(p.ingress_port);
                address_from_parsed(parse_url(text.as_str()))
            },
            RestateServerParams::Remote(p) => Ok(p.ingress_address.clone()),
        }
    }

    /// The admin token: none for a local server, the given one for a remote one.
    pub fn get_admin_token(&self) -> (r: Option<String>)
        ensures
            match self {
                RestateServerParams::Local(_) => r is None,
                RestateServerParams::Remote(p) => opt_view(r) == opt_view(p.admin_token),
            },
    {
        match self {
            RestateServerParams::Local(_) => None,
            RestateServerParams::Remote(p) => match &p.admin_token {
                Some(t) => Some(t.clone()),
                None => None,
            },
        }
    }

    /// Deployments are never registered as private.
    pub fn get_private(&self) -> (r: bool)
        ensures
            !r,
    {
        match self {
            RestateServerParams::Local(_) => false,
            RestateServerParams::Remote(_) => false,
        }
    }

    /// A local server is reached without TLS checks; a remote one with them.
    pub fn get_insecure(&self) -> (r: bool)
        ensures
            r == (self is Local),
    {
        match self {
            RestateServerParams::Local(_) => true,
            RestateServerParams::Remote(_) => false,
        }
    }

    /// Deployments are always registered with force.
    pub fn get_force(&self) -> (r: bool)
        ensures
            r,
    {
        match self {
            RestateServerParams::Local(_) => true,
            RestateServerParams::Remote(_) => true,
        }
    }
}

/// Remote Restate parameters from the command-line options: both URLs are needed.
pub fn remote_restate_params(params: RemoteRestateParams) -> (r: Result<
    RestateServerParams,
    RestateError,
>)
    ensures
        params.admin_url is None || params.ingress_url is None ==> r matches Err(
            RestateError::MissingRemoteAddress,
        ),
        params.admin_url matches Some(a) ==> params.ingress_url matches Some(i) ==> r matches Ok(
            RestateServerParams::Remote(p),
        ) && p.admin_address@ == a@ && p.ingress_address@ == i@ && opt_view(p.admin_token)
            == opt_view(params.admin_token),
{
    match (params.admin_url, params.ingress_url) {
        (Some(admin_address), Some(ingress_address)) => Ok(
            RestateServerParams::Remote(
                RestateServerRemoteParams {
                    admin_address,
                    ingress_address,
                    admin_token: params.admin_token,
                },
            ),
        ),
        _ => Err(RestateError::MissingRemoteAddress),
    }
}

/// A program to run, with its arguments, added environment variables and the
/// directory to run it in (the current one when `None`).
pub struct CommandPlan {
    pub program: String,
    pub args: Vec<String>,
    pub envs: Vec<(String, String)>,
    pub cwd: Option<String>,
}

/// `127.0.0.1:<port>`.
pub open spec fn loopback_bind(port: u16) -> Seq<char> {
    "127.0.0.1:"@ + decimal(port as nat)
}

fn loopback_bind_of(port: u16) -> (r: String)
    ensures
        r@ == loopback_bind(port),
{
    let mut v = chars_of("127.0.0.1:");
    let d = decimal_chars(port as u64);
    extend_chars(&mut v, d.as_slice());
    string_of(v.as_slice())
}

fn owned(s: &str) -> (r: String)
    ensures
        r@ == s@,
{
    string_of(chars_of(s).as_slice())
}

/// The command that starts a local Restate server: `restate-server` logging at
/// `warn`, keeping its data under `.soma/restate-data` of the project, and
/// binding ingress, admin and advertised addresses to the loopback ports.
pub fn local_restate_command(params: &RestateServerLocalParams) -> (r: CommandPlan)
    ensures
        r.program@ == "restate-server"@,
        r.cwd is None,
        r.args@.map_values(|a: String| a@) == seq![
            "--log-filter"@,
            "warn"@,
            "--tracing-filter"@,
            "warn"@,
            "--base-dir"@,
            path_join(params.project_dir@, ".soma/restate-data"@),
        ],
        r.envs@.map_values(|e: (String, String)| (e.0@, e.1@)) == seq![
            ("RESTATE__INGRESS__BIND_ADDRESS"@, loopback_bind(params.ingress_port)),
            ("RESTATE__ADMIN__BIND_ADDRESS"@, loopback_bind(params.admin_port)),
            ("RESTATE__ADVERTISED_ADDRESS"@, loopback_bind(params.advertised_node_port)),
        ],
{
    let mut args: Vec<String> = Vec::new();
    args.push(owned("--log-filter"));
    args.push(owned("warn"));
    args.push(owned("--tracing-filter"));
    args.push(owned("warn"));
    args.push(owned("--base-dir"));
    args.push(join_path(params.project_dir.as_str(), ".soma/restate-data"));
    let mut envs: Vec<(String, String)> = Vec::new();
    envs.push((owned("RESTATE__INGRESS__BIND_ADDRESS"), loopback_bind_of(params.ingress_port)));
    envs.push((owned("RESTATE__ADMIN__BIND_ADDRESS"), loopback_bind_of(params.admin_port)));
    envs.push((owned("RESTATE__ADVERTISED_ADDRESS"), loopback_bind_of(params.advertised_node_port)));
    let r = CommandPlan { program: owned("restate-server"), args, envs, cwd: None };
    assert(r.args@.map_values(|a: String| a@) =~= seq![
        "--log-filter"@,
        "warn"@,
        "--tracing-filter"@,
        "warn"@,
        "--base-dir"@,
        path_join(params.project_dir@, ".soma/restate-data"@),
    ]);
    assert(r.envs@.map_values(|e: (String, String)| (e.0@, e.1@)) =~= seq![
        ("RESTATE__INGRESS__BIND_ADDRESS"@, loopback_bind(params.ingress_port)),
        ("RESTATE__ADMIN__BIND_ADDRESS"@, loopback_bind(params.admin_port)),
        ("RESTATE__ADVERTISED_ADDRESS"@, loopback_bind(params.advertised_node_port)),
    ]);
    r
}

/// The ports of a local server, in the order they are checked.
pub open spec fn local_ports(params: RestateServerLocalParams) -> Seq<(RestatePort, u16)> {
    seq![
        (RestatePort::Ingress, params.ingress_port),
        (RestatePort::Admin, params.admin_port),
        (RestatePort::AdvertisedNode, params.advertised_node_port),
    ]
}

/// `port_in_use` reported each of the first `k` ports of the local server free.
pub open spec fn free_before<F: Fn(u16) -> Result<bool, SomaError>>(
    params: RestateServerLocalParams,
    port_in_use: F,
    k: int,
) -> bool {
    forall|j: int|
        0 <= j < k ==> call_ensures(
            port_in_use,
            (#[trigger] local_ports(params)[j].1,),
            Ok::<bool, SomaError>(false),
        )
}

/// Checks that the ports of a local server are free, in the order ingress,
/// admin, advertised node, with `port_in_use`; the first taken port (or the
/// first failed check) is the error.
pub fn check_local_ports<F: Fn(u16) -> Result<bool, SomaError>>(
    params: &RestateServerLocalParams,
    port_in_use: &F,
) -> (r: Result<(), RestateError>)
    requires
        forall|p: u16| call_requires(*port_in_use, (p,)),
    ensures
        r is Ok ==> free_before(*params, *port_in_use, 3),
        r matches Err(RestateError::PortInUse { service, port }) ==> exists|i: int|
            0 <= i < 3 && #[trigger] local_ports(*params)[i] == (service, port) && free_before(
                *params,
                *port_in_use,
                i,
            ) && call_ensures(*port_in_use, (port,), Ok::<bool, SomaError>(true)),
        r matches Err(RestateError::PortCheck(e)) ==> exists|i: int|
            0 <= i < 3 && free_before(*params, *port_in_use, i) && call_ensures(
                *port_in_use,
                (#[trigger] local_ports(*params)[i].1,),
                Err::<bool, SomaError>(e),
            ),
        r is Err ==> r matches Err(RestateError::PortInUse { .. }) || r matches Err(
            RestateError::PortCheck(_),
        ),
{
    let ports: [(RestatePort, u16); 3] = [
        (RestatePort::Ingress, params.ingress_port),
        (RestatePort::Admin, params.admin_port),
        (RestatePort::AdvertisedNode, params.advertised_node_port),
    ];
    assert(ports@ =~= local_ports(*params));
    let mut i: usize = 0;
    while i < 3
        invariant
            i <= 3,
            ports@ == local_ports(*params),
            forall|p: u16| call_requires(*port_in_use, (p,)),
            free_before(*params, *port_in_use, i as int),
        decreases 3 - i,
    {
        let port = ports[i].1;
        match port_in_use(port) {
            Ok(true) => {
                let service = match ports[i].0 {
                    RestatePort::Ingress => RestatePort::Ingress,
                    RestatePort::Admin => RestatePort::Admin,
                    RestatePort::AdvertisedNode => RestatePort::AdvertisedNode,
                };
                assert(local_ports(*params)[i as int] == (service, port));
                return Err(RestateError::PortInUse { service, port });
            },
            Ok(false) => {},
            Err(e) => {
                return Err(RestateError::PortCheck(e));
            },
        }
        i = i + 1;
    }
    Ok(())
}

} // verus!
