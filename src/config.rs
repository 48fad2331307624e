use vstd::prelude::*;

verus! {

/// The largest TCP port number.
pub const MAX_PORT: u16 = 65535;

/// The first port of a scan when none is given.
pub const DEFAULT_START_PORT: u16 = 1;

/// The end of a scan when none is given (exclusive, so the last port is
/// never scanned).
pub const DEFAULT_END_PORT: u16 = 65535;

/// An IP address as the octets (IPv4) or the 16-bit segments (IPv6) it is
/// written with.
#[derive(Clone, Copy, Debug)]
pub enum IpAddress {
    V4([u8; 4]),
    V6([u16; 8]),
}

impl IpAddress {
    /// The loopback address `127.0.0.1`, which a scan targets when no
    /// address is given.
    pub fn loopback() -> (r: IpAddress)
        ensures
            r matches IpAddress::V4(o) && o@ == seq![127u8, 0, 0, 1],
    {
        IpAddress::V4([127, 0, 0, 1])
    }
}

/// Why a scan configuration was rejected.
#[derive(Clone, Copy, Debug, PartialEq, Eq, Structural)]
pub enum ArgumentError {
    /// The first port is 0.
    StartPortZero,
    /// The end port given is 65535 (a given end must be strictly less).
    EndPortTooLarge,
}

/// Whether `input` may serve as the first port of a scan: port 0 is never scanned.
pub fn start_port_guard(input: &u16) -> (r: bool)
    ensures
        r == (*input > 0),
{
    *input > 0
}

/// Whether `input` may serve as the (exclusive) end of a scan: it must be
/// below the largest port number.
pub fn end_port_guard(input: &u16) -> (r: bool)
    ensures
        r == (*input < MAX_PORT),
{
    *input < MAX_PORT
}

/// The ports `[start, end)` in ascending order; empty when `start >= end`.
pub open spec fn port_range_seq(start: u16, end: u16) -> Seq<u16> {
    Seq::new(
        if start < end { (end - start) as nat } else { 0 },
        |i: int| (start + i) as u16,
    )
}

/// A scan configuration: the target and the half-open port range
/// `[start_port, end_port)`.
#[derive(Clone, Copy, Debug)]
pub struct Arguments {
    pub address: IpAddress,
    pub start_port: u16,
    pub end_port: u16,
}

impl Arguments {
    /// The configuration is one that validation can produce: port 0 is
    /// never scanned. (Any `u16` end is at most the largest port.)
    pub open spec fn wf(&self) -> bool {
        self.start_port > 0
    }

    /// The ports that a scan with this configuration probes.
    pub open spec fn spec_ports(&self) -> Seq<u16> {
        port_range_seq(self.start_port, self.end_port)
    }

    /// Builds a configuration from the values given on the command line.
    /// A value that is given must pass its guard, the start port's first; a
    /// value that is absent takes its default (`1` and `65535`) unchecked.
    pub fn new(address: IpAddress, start_port: Option<u16>, end_port: Option<u16>) -> (r: Result<
        Arguments,
        ArgumentError,
    >)
        ensures
            start_port == Some(0u16) ==> r == Err::<Arguments, ArgumentError>(
                ArgumentError::StartPortZero,
            ),
            start_port != Some(0u16) && end_port == Some(MAX_PORT) ==> r == Err::<
                Arguments,
                ArgumentError,
            >(ArgumentError::EndPortTooLarge),
            r is Ok <==> start_port != Some(0u16) && end_port != Some(MAX_PORT),
            r matches Ok(a) ==> {
                &&& a.wf()
                &&& a.address == address
                &&& a.start_port == match start_port {
                    Some(p) => p,
                    None => DEFAULT_START_PORT,
                }
                &&& a.end_port == match end_port {
                    Some(p) => p,
                    None => DEFAULT_END_PORT,
                }
            },
    {
        let start = match start_port {
            Some(p) => {
                if !start_port_guard(&p) {
                    return Err(ArgumentError::StartPortZero);
                }
                p
            },
            None => DEFAULT_START_PORT,
        };
        let end = match end_port {
            Some(p) => {
                if !end_port_guard(&p) {
                    return Err(ArgumentError::EndPortTooLarge);
                }
                p
            },
            None => DEFAULT_END_PORT,
        };
        Ok(Arguments { address, start_port: start, end_port: end })
    }

    /// The ports to probe, one per port of `[start_port, end_port)`, in
    /// ascending order.
    pub fn probe_ports(&self) -> (r: Vec<u16>)
        ensures
            r@ == self.spec_ports(),
    {
        let mut ports: Vec<u16> = Vec::new();
        let mut p: u16 = self.start_port;
        while p < self.end_port
            invariant
                self.start_port <= p,
                self.start_port < self.end_port ==> p <= self.end_port,
                self.start_port >= self.end_port ==> p == self.start_port,
                ports@ == port_range_seq(self.start_port, p),
            decreases self.end_port - p,
        {
            ports.push(p);
            proof {
                assert(ports@ =~= port_range_seq(self.start_port, (p + 1) as u16));
            }
            p = p + 1;
        }
        proof {
            assert(ports@ =~= self.spec_ports());
        }
        ports
    }
}

} // verus!
