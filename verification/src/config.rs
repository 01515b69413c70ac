use vstd::prelude::*;

use crate::cores::{lemma_parsed_cores_nonempty, parse_cores, spec_parse_cores, CoresError};
use vstd::string::StringSliceAdditionalSpecFns;

verus! {

/// Size in bytes of every packet that the client sends and the server echoes.
pub const PACKET_SIZE: usize = 1024;

/// How many times per second the client flushes its counters and refills
/// its request budget.
pub const COUNT_GRAIN_PRE_SEC: u32 = 20;

/// The time between two grains, in nanoseconds: a second split into
/// `COUNT_GRAIN_PRE_SEC` equal parts.
pub fn grain_period_nanos() -> (r: u64)
    ensures
        r == 1_000_000_000nat / (COUNT_GRAIN_PRE_SEC as nat),
{
    1_000_000_000u64 / (COUNT_GRAIN_PRE_SEC as u64)
}

/// What every server reads from its command line.
pub struct ServerConfig {
    /// The CPU cores to serve on, in the order given.
    pub cores: Vec<u16>,
    /// The address to listen on, such as `0.0.0.0:40000`.
    pub bind: String,
}

/// What the client reads from its command line.
pub struct ClientConfig {
    /// The CPU cores to run connections on, in the order given.
    pub cores: Vec<u16>,
    /// How many connections each core opens.
    pub conns_per_core: usize,
    /// Requests per second that each core may send; `None` for no limit.
    pub qps_per_core: Option<usize>,
    /// The server address to connect to.
    pub target: String,
}

impl ServerConfig {
    /// A server configuration from the text of its core list and its
    /// listening address.
    pub fn new(cores: &str, bind: String) -> (r: Result<ServerConfig, CoresError>)
        ensures
            match r {
                Ok(cfg) => spec_parse_cores(cores.spec_bytes()) == Ok::<Seq<u16>, CoresError>(
                    cfg.cores@,
                ) && cfg.bind@ == bind@ && cfg.cores@.len() > 0,
                Err(e) => spec_parse_cores(cores.spec_bytes()) == Err::<Seq<u16>, CoresError>(e),
            },
    {
        proof {
            lemma_parsed_cores_nonempty(cores.spec_bytes());
        }
        match parse_cores(cores) {
            Ok(list) => Ok(ServerConfig { cores: list, bind }),
            Err(e) => Err(e),
        }
    }

    /// The CPU ids that the thread-per-core servers pin one thread to each,
    /// in the order of the core list.
    pub fn worker_cpus(&self) -> (r: Vec<usize>)
        ensures
            r@.len() == self.cores@.len(),
            forall|i: int| 0 <= i < r@.len() ==> #[trigger] r@[i] == self.cores@[i] as usize,
    {
        cpu_ids(&self.cores)
    }

    /// Whether the server runs on the calling thread alone: one core given.
    pub fn single_core(&self) -> (r: bool)
        ensures
            r == (self.cores@.len() == 1),
    {
        self.cores.len() == 1
    }
}

/// Each core id widened to a CPU index.
pub fn cpu_ids(cores: &Vec<u16>) -> (r: Vec<usize>)
    ensures
        r@.len() == cores@.len(),
        forall|i: int| 0 <= i < r@.len() ==> #[trigger] r@[i] == cores@[i] as usize,
{
    let mut out: Vec<usize> = Vec::new();
    let mut i: usize = 0;
    while i < cores.len()
        invariant
            i <= cores@.len(),
            out@.len() == i,
            forall|j: int| 0 <= j < i ==> #[trigger] out@[j] == cores@[j] as usize,
        decreases cores@.len() - i,
    {
        out.push(cores[i] as usize);
        i = i + 1;
    }
    out
}

/// Why a client configuration is refused.
#[derive(Clone, Copy, Debug, PartialEq, Eq, Structural)]
pub enum ClientConfigError {
    /// The per-core request limit is below one request per grain.
    QpsBelowGrain,
}

/// The figures the client derives from its configuration before it starts.
#[derive(Clone, Copy, Debug, PartialEq, Eq, Structural)]
pub struct ClientPlan {
    /// Connections per core.
    pub conns_per_core: usize,
    /// Connections over all cores.
    pub global_conns: usize,
    /// Request limit per core, `0` when there is none.
    pub qps_per_core: usize,
    /// Request limit over all cores, `0` when there is none.
    pub global_qps: usize,
    /// Permits added to a core's budget at every grain; `None` when there is
    /// no limit and so no budget.
    pub permits_per_grain: Option<usize>,
}

/// Number of request permits that one grain adds to a core's budget when
/// the core is limited to `qps_per_core` requests per second.
pub open spec fn spec_permits_per_grain(qps_per_core: nat) -> nat {
    qps_per_core / (COUNT_GRAIN_PRE_SEC as nat)
}

/// A limit is accepted when it is absent or allows at least one request
/// per grain.
pub open spec fn qps_accepted(qps_per_core: Option<usize>) -> bool {
    match qps_per_core {
        None => true,
        Some(q) => q >= COUNT_GRAIN_PRE_SEC,
    }
}

pub open spec fn qps_or_zero(qps_per_core: Option<usize>) -> nat {
    match qps_per_core {
        None => 0,
        Some(q) => q as nat,
    }
}

/// The budget added per grain: `None` when the client runs unlimited.
pub fn permits_per_grain(qps_per_core: Option<usize>) -> (r: Option<usize>)
    ensures
        match qps_per_core {
            None => r is None,
            Some(q) => r == Some(spec_permits_per_grain(q as nat) as usize),
        },
        qps_per_core matches Some(q) ==> (r matches Some(g) && g * COUNT_GRAIN_PRE_SEC <= q && q
            < g * COUNT_GRAIN_PRE_SEC + COUNT_GRAIN_PRE_SEC),
{
    proof {
        if let Some(q) = qps_per_core {
            lemma_budget_per_second_within_limit(q as nat);
        }
    }
    match qps_per_core {
        None => None,
        Some(q) => Some(q / (COUNT_GRAIN_PRE_SEC as usize)),
    }
}

impl ClientConfig {
    /// A client configuration from the text of its core list and the other
    /// command-line values.
    pub fn new(cores: &str, conns_per_core: usize, qps_per_core: Option<usize>, target: String) -> (r:
        Result<ClientConfig, CoresError>)
        ensures
            match r {
                Ok(cfg) => spec_parse_cores(cores.spec_bytes()) == Ok::<Seq<u16>, CoresError>(
                    cfg.cores@,
                ) && cfg.conns_per_core == conns_per_core && cfg.qps_per_core == qps_per_core
                    && cfg.target@ == target@ && cfg.cores@.len() > 0,
                Err(e) => spec_parse_cores(cores.spec_bytes()) == Err::<Seq<u16>, CoresError>(e),
            },
    {
        proof {
            lemma_parsed_cores_nonempty(cores.spec_bytes());
        }
        match parse_cores(cores) {
            Ok(list) => Ok(ClientConfig { cores: list, conns_per_core, qps_per_core, target }),
            Err(e) => Err(e),
        }
    }

    /// The start-up figures, whether or not the request limit is accepted.
    pub fn figures(&self) -> (p: ClientPlan)
        requires
            self.conns_per_core * self.cores@.len() <= usize::MAX,
            qps_or_zero(self.qps_per_core) * self.cores@.len() <= usize::MAX,
        ensures
            p.conns_per_core == self.conns_per_core,
            p.global_conns == self.conns_per_core * self.cores@.len(),
            p.qps_per_core == qps_or_zero(self.qps_per_core),
            p.global_qps == qps_or_zero(self.qps_per_core) * self.cores@.len(),
            match self.qps_per_core {
                None => p.permits_per_grain is None,
                Some(q) => p.permits_per_grain == Some(spec_permits_per_grain(q as nat) as usize),
            },
            self.qps_per_core is None ==> p.qps_per_core == 0 && p.global_qps == 0
                && p.permits_per_grain is None,
            self.qps_per_core matches Some(q) ==> p.qps_per_core == q && p.global_qps == q
                * self.cores@.len() && (p.permits_per_grain matches Some(g) && g
                * COUNT_GRAIN_PRE_SEC <= q && q < g * COUNT_GRAIN_PRE_SEC + COUNT_GRAIN_PRE_SEC),
    {
        let n = self.cores.len();
        let qps = match self.qps_per_core {
            None => 0,
            Some(q) => q,
        };
        ClientPlan {
            conns_per_core: self.conns_per_core,
            global_conns: self.conns_per_core * n,
            qps_per_core: qps,
            global_qps: qps * n,
            permits_per_grain: permits_per_grain(self.qps_per_core),
        }
    }

    /// Checks the request limit and derives the start-up figures.
    pub fn plan(&self) -> (r: Result<ClientPlan, ClientConfigError>)
        requires
            self.conns_per_core * self.cores@.len() <= usize::MAX,
            qps_or_zero(self.qps_per_core) * self.cores@.len() <= usize::MAX,
        ensures
            r is Ok <==> qps_accepted(self.qps_per_core),
            self.qps_per_core is None ==> r is Ok,
            self.qps_per_core matches Some(q) ==> (r is Ok <==> q >= COUNT_GRAIN_PRE_SEC),
            r matches Ok(p) ==> {
                &&& p.global_conns == self.conns_per_core * self.cores@.len()
                &&& self.qps_per_core is None ==> p.qps_per_core == 0 && p.global_qps == 0
                    && p.permits_per_grain is None
                &&& self.qps_per_core matches Some(q) ==> p.qps_per_core == q && p.global_qps == q
                    * self.cores@.len() && (p.permits_per_grain matches Some(g) && g
                    * COUNT_GRAIN_PRE_SEC <= q && q < g * COUNT_GRAIN_PRE_SEC
                    + COUNT_GRAIN_PRE_SEC)
            },
            r is Err ==> r == Err::<ClientPlan, ClientConfigError>(
                ClientConfigError::QpsBelowGrain,
            ),
            r matches Ok(p) ==> {
                &&& p.conns_per_core == self.conns_per_core
                &&& p.global_conns == self.conns_per_core * self.cores@.len()
                &&& p.qps_per_core == qps_or_zero(self.qps_per_core)
                &&& p.global_qps == qps_or_zero(self.qps_per_core) * self.cores@.len()
                &&& match self.qps_per_core {
                    None => p.permits_per_grain is None,
                    Some(q) => p.permits_per_grain == Some(
                        spec_permits_per_grain(q as nat) as usize,
                    ),
                }
            },
    {
        match self.qps_per_core {
            Some(q) => {
                if q < COUNT_GRAIN_PRE_SEC as usize {
                    return Err(ClientConfigError::QpsBelowGrain);
                }
            },
            None => {},
        }
        Ok(self.figures())
    }
}

/// Over one second, that is `COUNT_GRAIN_PRE_SEC` grains, a limited core's
/// budget grows by at most its per-second limit, and by less than one grain's
/// worth below it.
pub proof fn lemma_budget_per_second_within_limit(qps_per_core: nat)
    ensures
        spec_permits_per_grain(qps_per_core) * (COUNT_GRAIN_PRE_SEC as nat) <= qps_per_core,
        qps_per_core < spec_permits_per_grain(qps_per_core) * (COUNT_GRAIN_PRE_SEC as nat)
            + COUNT_GRAIN_PRE_SEC as nat,
{
    let g = COUNT_GRAIN_PRE_SEC as nat;
    assert(g == 20);
    vstd::arithmetic::div_mod::lemma_fundamental_div_mod(qps_per_core as int, g as int);
}

/// The client accepts a request limit exactly when it is absent or at least
/// one request per grain, and then gives each grain the whole number of
/// permits that fit: `g * 20 <= q < (g + 1) * 20`.
pub proof fn lemma_qps_acceptance(q: usize)
    ensures
        qps_accepted(Some(q)) <==> q >= COUNT_GRAIN_PRE_SEC,
        qps_accepted(None::<usize>),
        spec_permits_per_grain(q as nat) * COUNT_GRAIN_PRE_SEC <= q,
        q < spec_permits_per_grain(q as nat) * COUNT_GRAIN_PRE_SEC + COUNT_GRAIN_PRE_SEC,
{
    lemma_budget_per_second_within_limit(q as nat);
}

} // verus!
