//! Who a benchmark participant is and how it reaches the server.
use vstd::prelude::*;
use vstd::string::StringSliceAdditionalSpecFns;

verus! {

/// Directory on the server under which every path is taken.
pub const FS_PATH: &'static str = "/dev/shm/";

/// Socket path of the local-domain binding.
pub const UDS_PATH: &'static str = "/dev/shm/uds";

/// Whether `a` and `b` hold the same bytes.
pub fn bytes_eq(a: &[u8], b: &[u8]) -> (r: bool)
    ensures
        r == (a@ == b@),
{
    if a.len() != b.len() {
        return false;
    }
    let mut i: usize = 0;
    while i < a.len()
        invariant
            i <= a@.len() == b@.len(),
            a@.take(i as int) == b@.take(i as int),
        decreases a@.len() - i,
    {
        if a[i] != b[i] {
            assert(a@[i as int] != b@[i as int]);
            return false;
        }
        assert(a@.take(i + 1) =~= a@.take(i as int).push(a@[i as int]));
        assert(b@.take(i + 1) =~= b@.take(i as int).push(b@[i as int]));
        i = i + 1;
    }
    assert(a@ =~= a@.take(a@.len() as int));
    assert(b@ =~= b@.take(b@.len() as int));
    true
}

/// Whether `a` and `b` are the same text.
pub fn str_eq(a: &str, b: &str) -> (r: bool)
    ensures
        r == (a@ == b@),
{
    let eq = bytes_eq(a.as_bytes(), b.as_bytes());
    proof {
        vstd::utf8::encode_utf8_decode_utf8(a@);
        vstd::utf8::encode_utf8_decode_utf8(b@);
    }
    eq
}

/// Where benchmark rows go.
#[derive(PartialEq, Eq, Structural, Clone, Copy, Debug)]
pub enum LogMode {
    CSV,
    STDOUT,
}

/// How a client reaches the server.
#[derive(PartialEq, Eq, Structural, Clone, Copy, Debug)]
pub enum ConnType {
    TcpLocal,
    TcpRemote,
    UDS,
}

impl ConnType {
    pub open spec fn spec_name(&self) -> &'static str {
        match self {
            ConnType::TcpLocal => "tcplocal",
            ConnType::TcpRemote => "tcpremote",
            ConnType::UDS => "uds",
        }
    }

    /// The name of the binding, as given on a command line.
    pub fn name(&self) -> (r: &'static str)
        ensures
            r == self.spec_name(),
    {
        match self {
            ConnType::TcpLocal => "tcplocal",
            ConnType::TcpRemote => "tcpremote",
            ConnType::UDS => "uds",
        }
    }

    /// The binding named `s`, if any.
    pub fn parse(s: &str) -> (r: Option<ConnType>)
        ensures
            match r {
                Some(c) => s.spec_bytes() == c.spec_name().spec_bytes(),
                None => s.spec_bytes() != "tcplocal".spec_bytes() && s.spec_bytes()
                    != "tcpremote".spec_bytes() && s.spec_bytes() != "uds".spec_bytes(),
            },
    {
        let b = s.as_bytes();
        if bytes_eq(b, "tcplocal".as_bytes()) {
            Some(ConnType::TcpLocal)
        } else if bytes_eq(b, "tcpremote".as_bytes()) {
            Some(ConnType::TcpRemote)
        } else if bytes_eq(b, "uds".as_bytes()) {
            Some(ConnType::UDS)
        } else {
            None
        }
    }
}

/// Which RPC mechanism carries the calls.
#[derive(PartialEq, Eq, Structural, Clone, Copy, Debug)]
pub enum RPCType {
    DRPC,
    GRPC,
}

impl RPCType {
    pub open spec fn spec_name(&self) -> &'static str {
        match self {
            RPCType::DRPC => "drpc",
            RPCType::GRPC => "grpc",
        }
    }

    /// The name of the mechanism, as given on a command line.
    pub fn name(&self) -> (r: &'static str)
        ensures
            r == self.spec_name(),
    {
        match self {
            RPCType::DRPC => "drpc",
            RPCType::GRPC => "grpc",
        }
    }

    /// The mechanism named `s`, if any.
    pub fn parse(s: &str) -> (r: Option<RPCType>)
        ensures
            match r {
                Some(t) => s.spec_bytes() == t.spec_name().spec_bytes(),
                None => s.spec_bytes() != "drpc".spec_bytes() && s.spec_bytes() != "grpc".spec_bytes(),
            },
    {
        let b = s.as_bytes();
        if bytes_eq(b, "drpc".as_bytes()) {
            Some(RPCType::DRPC)
        } else if bytes_eq(b, "grpc".as_bytes()) {
            Some(RPCType::GRPC)
        } else {
            None
        }
    }
}

/// The identity of one benchmark participant process.
#[derive(PartialEq, Eq, Structural, Clone, Copy, Debug)]
pub struct ClientParams {
    pub cid: usize,
    pub nclients: usize,
    pub ccores: usize,
    pub log_mode: LogMode,
    pub conn_type: ConnType,
    pub rpc_type: RPCType,
}

impl ClientParams {
    /// The parameters of a participant. A local TCP client is the only
    /// client (id 0 of 1), uses half of the `host_cores` and logs to CSV; any
    /// other must be given its id, the number of clients and its core count,
    /// and logs to stdout. `None` when one of those is missing.
    pub fn resolve(
        conn_type: ConnType,
        rpc_type: RPCType,
        cid: Option<usize>,
        nclients: Option<usize>,
        ccores: Option<usize>,
        host_cores: usize,
    ) -> (r: Option<ClientParams>)
        ensures
            conn_type == ConnType::TcpLocal ==> r == Some(
                ClientParams {
                    cid: 0,
                    nclients: 1,
                    ccores: host_cores / 2,
                    log_mode: LogMode::CSV,
                    conn_type,
                    rpc_type,
                },
            ),
            conn_type != ConnType::TcpLocal ==> r == (if cid is Some && nclients is Some && ccores is Some {
                Some(
                    ClientParams {
                        cid: cid->Some_0,
                        nclients: nclients->Some_0,
                        ccores: ccores->Some_0,
                        log_mode: LogMode::STDOUT,
                        conn_type,
                        rpc_type,
                    },
                )
            } else {
                None
            }),
    {
        if conn_type == ConnType::TcpLocal {
            return Some(
                ClientParams {
                    cid: 0,
                    nclients: 1,
                    ccores: host_cores / 2,
                    log_mode: LogMode::CSV,
                    conn_type,
                    rpc_type,
                },
            );
        }
        match (cid, nclients, ccores) {
            (Some(cid), Some(nclients), Some(ccores)) => Some(
                ClientParams { cid, nclients, ccores, log_mode: LogMode::STDOUT, conn_type, rpc_type },
            ),
            _ => None,
        }
    }
}

/// Where a server listens and its clients connect: an IPv4 address (most
/// significant byte first) and port, or the socket at `UDS_PATH`.
#[derive(PartialEq, Eq, Structural, Clone, Copy, Debug)]
pub enum Endpoint {
    Tcp { ipv4: u32, port: u16 },
    Uds,
}

/// The endpoint of binding `conn_type`.
pub fn endpoint(conn_type: ConnType, port: u16) -> (r: Endpoint)
    ensures
        r == (match conn_type {
            ConnType::TcpLocal => Endpoint::Tcp { ipv4: 0x7F00_0001, port },
            ConnType::TcpRemote => Endpoint::Tcp { ipv4: 0xAC1F_0001, port },
            ConnType::UDS => Endpoint::Uds,
        }),
{
    match conn_type {
        ConnType::TcpLocal => Endpoint::Tcp { ipv4: 0x7F00_0001, port },
        ConnType::TcpRemote => Endpoint::Tcp { ipv4: 0xAC1F_0001, port },
        ConnType::UDS => Endpoint::Uds,
    }
}

} // verus!
