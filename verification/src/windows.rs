//! Network sharing on Windows: the report is read from the registry query
//! and `netstat`; sharing itself is not offered there.
use vstd::prelude::*;
use crate::report::{SystemReport, text_or_empty, skip_n, reads_one, text_reads_one, lines_after};
use crate::text::{views, lines};

verus! {

/// The notice that stands in for the connection list on Windows.
pub open spec fn connections_notice() -> Seq<char> {
    "Windows support is in progress..."@
}

/// The report built from the output of the `IPEnableRouter` registry query
/// and of `netstat -ano` (`None` where a command could not be started).
pub fn report_from_outputs(ip_enable_router: Option<String>, netstat: Option<String>) -> (res:
    SystemReport)
    ensures
        res.ip_forward_enabled == (ip_enable_router is Some && reads_one(text_or_empty(ip_enable_router))),
        res.nat_masquerade@.len() == 0,
        res.port_forwards@.len() == 0,
        views(res.listening_ports@) == match netstat {
            Some(out) => skip_n(lines(out@), 4),
            None => seq![],
        },
        views(res.active_connections@) == seq![connections_notice()],
        !res.iptables_failed,
{
    let ip_forward_enabled = match &ip_enable_router {
        Some(out) => text_reads_one(out.as_str()),
        None => false,
    };
    let listening_ports = match &netstat {
        Some(out) => lines_after(out.as_str(), 4),
        None => Vec::new(),
    };
    let mut active_connections: Vec<String> = Vec::new();
    active_connections.push(String::from_str("Windows support is in progress..."));
    proof {
        assert(views(active_connections@) =~= seq![connections_notice()]);
        assert(views(Seq::<String>::empty()) =~= Seq::<Seq<char>>::empty());
    }
    SystemReport {
        ip_forward_enabled,
        nat_masquerade: Vec::new(),
        port_forwards: Vec::new(),
        listening_ports,
        active_connections,
        iptables_failed: false,
    }
}

/// On Windows the forwarding state is the registry switch alone; no
/// outgoing interfaces are read and detection never counts as failed.
pub fn detect_system_forward_status(report: &SystemReport) -> (res: (bool, Vec<String>, bool))
    ensures
        res.0 == report.ip_forward_enabled,
        res.1@.len() == 0,
        !res.2,
{
    (report.ip_forward_enabled, Vec::new(), false)
}

/// The refusal given for starting a share on Windows.
pub open spec fn unsupported_notice() -> Seq<char> {
    "System forwarding is not yet fully supported on Windows. Please use Port Forwarders instead."@
}

/// Starting a share is refused on Windows, whatever is asked.
pub fn start_system_forwarding(wan_ifs: Vec<String>, lan_if: &str, host_ip: &str, mask: &str) -> (res:
    Result<(), String>)
    ensures
        res matches Err(e) && e@ == unsupported_notice(),
{
    Err(
        String::from_str(
            "System forwarding is not yet fully supported on Windows. Please use Port Forwarders instead.",
        ),
    )
}

/// Stopping a share on Windows has nothing to undo and succeeds.
pub fn stop_system_forwarding(wan_ifs: Vec<String>, lan_if: &str) -> (res: Result<(), String>)
    ensures
        res is Ok,
{
    Ok(())
}

} // verus!
