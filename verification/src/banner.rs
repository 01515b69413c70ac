use vstd::prelude::*;

use crate::config::{ClientConfig, ClientPlan, ServerConfig, PACKET_SIZE};
use crate::cores::{format_cores, spec_format_cores};
use crate::text::{decimal, push_decimal};

verus! {

/// How a server's start-up banner reports its cores.
#[derive(Clone, Copy, Debug, PartialEq, Eq, Structural)]
pub enum CoreReport {
    /// The list of cores, for servers that pin one thread to each.
    Slots,
    /// The number of cores, for servers that size a worker pool by it.
    Count,
    /// Nothing about cores.
    Omitted,
}

pub open spec fn spec_core_report(report: CoreReport, cores: Seq<u16>) -> Seq<char> {
    match report {
        CoreReport::Slots => "\nCPU slot: "@ + spec_format_cores(cores),
        CoreReport::Count => "\nCPU count: "@ + decimal(cores.len()),
        CoreReport::Omitted => Seq::<char>::empty(),
    }
}

/// The banner a server prints before it starts serving.
pub open spec fn spec_server_banner(
    runtime: Seq<char>,
    bind: Seq<char>,
    cores: Seq<u16>,
    report: CoreReport,
) -> Seq<char> {
    "Running ping pong server with "@ + runtime + ".\nPacket size: "@ + decimal(
        PACKET_SIZE as nat,
    ) + "\nListen "@ + bind + spec_core_report(report, cores)
}

/// The banner of a server built on the runtime named `runtime`.
pub fn server_banner(runtime: &str, cfg: &ServerConfig, report: CoreReport) -> (r: String)
    ensures
        r@ == spec_server_banner(runtime@, cfg.bind@, cfg.cores@, report),
        report == CoreReport::Count ==> r@ == "Running ping pong server with "@ + runtime@
            + ".\nPacket size: "@ + decimal(PACKET_SIZE as nat) + "\nListen "@ + cfg.bind@
            + "\nCPU count: "@ + decimal(cfg.cores@.len()),
        report == CoreReport::Slots ==> r@ == "Running ping pong server with "@ + runtime@
            + ".\nPacket size: "@ + decimal(PACKET_SIZE as nat) + "\nListen "@ + cfg.bind@
            + "\nCPU slot: "@ + spec_format_cores(cfg.cores@),
        report == CoreReport::Omitted ==> r@ == "Running ping pong server with "@ + runtime@
            + ".\nPacket size: "@ + decimal(PACKET_SIZE as nat) + "\nListen "@ + cfg.bind@,
{
    let mut s = String::new();
    s.append("Running ping pong server with ");
    s.append(runtime);
    s.append(".\nPacket size: ");
    push_decimal(&mut s, PACKET_SIZE as u64);
    s.append("\nListen ");
    s.append(cfg.bind.as_str());
    let ghost head = s@;
    match report {
        CoreReport::Slots => {
            s.append("\nCPU slot: ");
            let list = format_cores(cfg.cores.as_slice());
            s.append(list.as_str());
        },
        CoreReport::Count => {
            s.append("\nCPU count: ");
            push_decimal(&mut s, cfg.cores.len() as u64);
        },
        CoreReport::Omitted => {},
    }
    assert(s@ =~= spec_server_banner(runtime@, cfg.bind@, cfg.cores@, report));
    s
}

/// The banner the client prints before it connects.
pub open spec fn spec_client_banner(target: Seq<char>, cores: Seq<u16>, plan: ClientPlan) -> Seq<
    char,
> {
    "Running ping pong client.\nPacket size: "@ + decimal(PACKET_SIZE as nat)
        + "\nConnection count per core: "@ + decimal(plan.conns_per_core as nat)
        + "; Global connection count: "@ + decimal(plan.global_conns as nat)
        + "\nQPS limit per core: "@ + decimal(plan.qps_per_core as nat) + "; Global QPS limit: "@
        + decimal(plan.global_qps as nat) + "\nTarget: "@ + target + "\nCPU slot: "@
        + spec_format_cores(cores)
}

/// The client's banner for its configuration and the figures derived from it.
pub fn client_banner(cfg: &ClientConfig, plan: &ClientPlan) -> (r: String)
    ensures
        r@ == spec_client_banner(cfg.target@, cfg.cores@, *plan),
        r@ == "Running ping pong client.\nPacket size: "@ + decimal(PACKET_SIZE as nat)
            + "\nConnection count per core: "@ + decimal(plan.conns_per_core as nat)
            + "; Global connection count: "@ + decimal(plan.global_conns as nat)
            + "\nQPS limit per core: "@ + decimal(plan.qps_per_core as nat)
            + "; Global QPS limit: "@ + decimal(plan.global_qps as nat) + "\nTarget: "@
            + cfg.target@ + "\nCPU slot: "@ + spec_format_cores(cfg.cores@),
        plan.global_conns == cfg.conns_per_core * cfg.cores@.len() ==> r@ == "Running ping pong client.\nPacket size: "@
            + decimal(PACKET_SIZE as nat) + "\nConnection count per core: "@ + decimal(
            plan.conns_per_core as nat,
        ) + "; Global connection count: "@ + decimal((cfg.conns_per_core * cfg.cores@.len()) as nat)
            + "\nQPS limit per core: "@ + decimal(plan.qps_per_core as nat)
            + "; Global QPS limit: "@ + decimal(plan.global_qps as nat) + "\nTarget: "@
            + cfg.target@ + "\nCPU slot: "@ + spec_format_cores(cfg.cores@),
{
    let mut s = String::new();
    s.append("Running ping pong client.\nPacket size: ");
    push_decimal(&mut s, PACKET_SIZE as u64);
    s.append("\nConnection count per core: ");
    push_decimal(&mut s, plan.conns_per_core as u64);
    s.append("; Global connection count: ");
    push_decimal(&mut s, plan.global_conns as u64);
    s.append("\nQPS limit per core: ");
    push_decimal(&mut s, plan.qps_per_core as u64);
    s.append("; Global QPS limit: ");
    push_decimal(&mut s, plan.global_qps as u64);
    s.append("\nTarget: ");
    s.append(cfg.target.as_str());
    s.append("\nCPU slot: ");
    let list = format_cores(cfg.cores.as_slice());
    s.append(list.as_str());
    assert(s@ =~= spec_client_banner(cfg.target@, cfg.cores@, *plan));
    s
}

/// What a server's banner says of its cores: the list of core ids, the
/// number of cores, or nothing.
pub proof fn lemma_core_report(cores: Seq<u16>)
    ensures
        spec_core_report(CoreReport::Count, cores) == "\nCPU count: "@ + decimal(cores.len()),
        spec_core_report(CoreReport::Slots, cores) == "\nCPU slot: "@ + spec_format_cores(cores),
        spec_core_report(CoreReport::Omitted, cores) == Seq::<char>::empty(),
{
}

} // verus!
