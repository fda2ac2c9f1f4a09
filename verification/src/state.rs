//! The application's state and how each message changes it. Work that
//! leaves the process (probing the host, running root commands, moving
//! traffic, picking files) is handed back as an `Action` for the caller to
//! perform; what it finds comes back as a message.
use vstd::prelude::*;
use crate::i18n::{Language, text_for};
use crate::ids::{fresh_id, has_uuid_v4_shape};
use crate::port::{parse_port, parse_u16};
use crate::report::{InterfaceInfo, SystemReport};
use crate::text::{has_prefix, str_eq, str_starts_with, views, lemma_views_push};

verus! {

/// The pages of the window.
#[derive(Debug, Clone, Copy, PartialEq, Eq, Structural)]
pub enum Page {
    SystemForward,
    PortForward,
    SystemMonitor,
    About,
}

/// The transport that a port forwarder relays.
#[derive(Debug, Clone, Copy, PartialEq, Eq, Structural)]
pub enum Protocol {
    TCP,
    UDP,
}

impl Protocol {
    /// Every protocol, in the order the picker lists them.
    pub fn all() -> (res: [Protocol; 2])
        ensures
            res@ == seq![Protocol::TCP, Protocol::UDP],
    {
        let res = [Protocol::TCP, Protocol::UDP];
        assert(res@ =~= seq![Protocol::TCP, Protocol::UDP]);
        res
    }

    /// The name shown for the protocol.
    pub fn label(&self) -> (res: &'static str)
        ensures
            res@ == protocol_label(*self),
    {
        match self {
            Protocol::TCP => "TCP",
            Protocol::UDP => "UDP",
        }
    }
}

pub open spec fn protocol_label(p: Protocol) -> Seq<char> {
    match p {
        Protocol::TCP => "TCP"@,
        Protocol::UDP => "UDP"@,
    }
}

/// A port forwarder as it is saved and loaded: the ports are kept as typed.
#[derive(Debug, Clone)]
pub struct PortForwarderConfig {
    pub protocol: Protocol,
    pub src_addr: String,
    pub src_port: String,
    pub dst_addr: String,
    pub dst_port: String,
}

/// A port forwarder in the list. Whether a relay is running for it is
/// `is_active`; the handle that stops a running relay is kept by the caller,
/// under `id`.
#[derive(Debug)]
pub struct PortForwarder {
    pub id: u128,
    pub protocol: Protocol,
    pub src_addr: String,
    pub src_port: String,
    pub dst_addr: String,
    pub dst_port: String,
    pub is_active: bool,
    pub status: String,
}

/// The whole application state.
#[derive(Debug)]
pub struct ForwarderApp {
    pub current_page: Page,
    pub language: Language,
    pub interfaces: Vec<String>,
    pub selected_wans: Vec<String>,
    pub lan_interface: Option<String>,
    pub host_ip: String,
    pub subnet_mask: String,
    pub sys_active: bool,
    pub sys_status: String,
    pub system_report: Option<SystemReport>,
    pub refresh_interval: u64,
    pub port_forwarders: Vec<PortForwarder>,
}

/// What can happen to the application: the user's input, and what the
/// caller found when it performed an action.
#[derive(Debug)]
pub enum Message {
    SwitchPage(Page),
    WanToggled(String, bool),
    LanSelected(String),
    HostIpChanged(String),
    SubnetMaskChanged(String),
    ToggleSysForwarding,
    SysForwardingResult(bool, Result<(), String>),
    DetectSystemForward,
    SystemForwardDetected(bool, Vec<String>, bool),
    RefreshInterfaces,
    InterfacesListed(Vec<InterfaceInfo>),
    RefreshSystemReport,
    SystemReportRead(SystemReport),
    SetRefreshInterval(u64),
    AddForwarder,
    RemoveForwarder(u128),
    ProtocolChanged(u128, Protocol),
    SrcAddrChanged(u128, String),
    SrcPortChanged(u128, String),
    DstAddrChanged(u128, String),
    DstPortChanged(u128, String),
    TogglePortForwarding(u128),
    PortForwardingResult(u128, Result<(), String>),
    ImportConfig,
    ConfigsLoaded(Vec<PortForwarderConfig>),
    ExportConfig,
    LanguageChanged(Language),
}

fn clone_outcome(r: &Result<(), String>) -> (res: Result<(), String>)
    ensures
        res == *r,
{
    match r {
        Ok(u) => Ok(*u),
        Err(e) => Err(e.clone()),
    }
}

/// Two reports with the same flags and the same lines in each list.
pub open spec fn same_report(a: SystemReport, b: SystemReport) -> bool {
    &&& a.ip_forward_enabled == b.ip_forward_enabled
    &&& a.nat_masquerade@ == b.nat_masquerade@
    &&& a.port_forwards@ == b.port_forwards@
    &&& a.listening_ports@ == b.listening_ports@
    &&& a.active_connections@ == b.active_connections@
    &&& a.iptables_failed == b.iptables_failed
}

/// `b` is a copy of `a`: the same variant with equal values, lists holding
/// the same entries.
pub open spec fn is_copy(a: Message, b: Message) -> bool {
    match a {
        Message::SwitchPage(p) => b == Message::SwitchPage(p),
        Message::WanToggled(n, on) => b == Message::WanToggled(n, on),
        Message::LanSelected(n) => b == Message::LanSelected(n),
        Message::HostIpChanged(v) => b == Message::HostIpChanged(v),
        Message::SubnetMaskChanged(v) => b == Message::SubnetMaskChanged(v),
        Message::ToggleSysForwarding => b == Message::ToggleSysForwarding,
        Message::SysForwardingResult(t, r) => b == Message::SysForwardingResult(t, r),
        Message::DetectSystemForward => b == Message::DetectSystemForward,
        Message::SystemForwardDetected(act, w, f) => b matches Message::SystemForwardDetected(act2, w2, f2)
            && act2 == act && w2@ == w@ && f2 == f,
        Message::RefreshInterfaces => b == Message::RefreshInterfaces,
        Message::InterfacesListed(i) => b matches Message::InterfacesListed(i2) && i2@ == i@,
        Message::RefreshSystemReport => b == Message::RefreshSystemReport,
        Message::SystemReportRead(r) => b matches Message::SystemReportRead(r2) && same_report(r, r2),
        Message::SetRefreshInterval(n) => b == Message::SetRefreshInterval(n),
        Message::AddForwarder => b == Message::AddForwarder,
        Message::RemoveForwarder(id) => b == Message::RemoveForwarder(id),
        Message::ProtocolChanged(id, p) => b == Message::ProtocolChanged(id, p),
        Message::SrcAddrChanged(id, v) => b == Message::SrcAddrChanged(id, v),
        Message::SrcPortChanged(id, v) => b == Message::SrcPortChanged(id, v),
        Message::DstAddrChanged(id, v) => b == Message::DstAddrChanged(id, v),
        Message::DstPortChanged(id, v) => b == Message::DstPortChanged(id, v),
        Message::TogglePortForwarding(id) => b == Message::TogglePortForwarding(id),
        Message::PortForwardingResult(id, r) => b == Message::PortForwardingResult(id, r),
        Message::ImportConfig => b == Message::ImportConfig,
        Message::ConfigsLoaded(c) => b matches Message::ConfigsLoaded(c2) && c2@ == c@,
        Message::ExportConfig => b == Message::ExportConfig,
        Message::LanguageChanged(l) => b == Message::LanguageChanged(l),
    }
}

/// A copy of a report.
fn copy_report(r: &SystemReport) -> (res: SystemReport)
    ensures
        same_report(*r, res),
{
    SystemReport {
        ip_forward_enabled: r.ip_forward_enabled,
        nat_masquerade: clone_strings(&r.nat_masquerade),
        port_forwards: clone_strings(&r.port_forwards),
        listening_ports: clone_strings(&r.listening_ports),
        active_connections: clone_strings(&r.active_connections),
        iptables_failed: r.iptables_failed,
    }
}

/// A copy of a list of interfaces.
fn copy_infos(v: &Vec<InterfaceInfo>) -> (res: Vec<InterfaceInfo>)
    ensures
        res@ == v@,
{
    let mut out: Vec<InterfaceInfo> = Vec::new();
    for i in 0..v.len()
        invariant
            out@ == v@.take(i as int),
    {
        out.push(InterfaceInfo { name: v[i].name.clone() });
        assert(out@ =~= v@.take(i + 1));
    }
    assert(v@.take(v@.len() as int) =~= v@);
    out
}

/// A copy of a list of saved forwarders.
fn copy_configs(v: &Vec<PortForwarderConfig>) -> (res: Vec<PortForwarderConfig>)
    ensures
        res@ == v@,
{
    let mut out: Vec<PortForwarderConfig> = Vec::new();
    for i in 0..v.len()
        invariant
            out@ == v@.take(i as int),
    {
        let c = &v[i];
        out.push(
            PortForwarderConfig {
                protocol: c.protocol,
                src_addr: c.src_addr.clone(),
                src_port: c.src_port.clone(),
                dst_addr: c.dst_addr.clone(),
                dst_port: c.dst_port.clone(),
            },
        );
        assert(out@ =~= v@.take(i + 1));
    }
    assert(v@.take(v@.len() as int) =~= v@);
    out
}

impl Clone for Message {
    fn clone(&self) -> (res: Self)
        ensures
            is_copy(*self, res),
    {
        match self {
            Message::SwitchPage(p) => Message::SwitchPage(*p),
            Message::WanToggled(n, on) => Message::WanToggled(n.clone(), *on),
            Message::LanSelected(n) => Message::LanSelected(n.clone()),
            Message::HostIpChanged(v) => Message::HostIpChanged(v.clone()),
            Message::SubnetMaskChanged(v) => Message::SubnetMaskChanged(v.clone()),
            Message::ToggleSysForwarding => Message::ToggleSysForwarding,
            Message::SysForwardingResult(t, r) => Message::SysForwardingResult(*t, clone_outcome(r)),
            Message::DetectSystemForward => Message::DetectSystemForward,
            Message::SystemForwardDetected(a, w, f) => {
                let w2 = clone_strings(w);
                Message::SystemForwardDetected(*a, w2, *f)
            },
            Message::RefreshInterfaces => Message::RefreshInterfaces,
            Message::InterfacesListed(i) => Message::InterfacesListed(copy_infos(i)),
            Message::RefreshSystemReport => Message::RefreshSystemReport,
            Message::SystemReportRead(r) => Message::SystemReportRead(copy_report(r)),
            Message::SetRefreshInterval(n) => Message::SetRefreshInterval(*n),
            Message::AddForwarder => Message::AddForwarder,
            Message::RemoveForwarder(id) => Message::RemoveForwarder(*id),
            Message::ProtocolChanged(id, p) => Message::ProtocolChanged(*id, *p),
            Message::SrcAddrChanged(id, v) => Message::SrcAddrChanged(*id, v.clone()),
            Message::SrcPortChanged(id, v) => Message::SrcPortChanged(*id, v.clone()),
            Message::DstAddrChanged(id, v) => Message::DstAddrChanged(*id, v.clone()),
            Message::DstPortChanged(id, v) => Message::DstPortChanged(*id, v.clone()),
            Message::TogglePortForwarding(id) => Message::TogglePortForwarding(*id),
            Message::PortForwardingResult(id, r) => Message::PortForwardingResult(*id, clone_outcome(r)),
            Message::ImportConfig => Message::ImportConfig,
            Message::ConfigsLoaded(c) => Message::ConfigsLoaded(copy_configs(c)),
            Message::ExportConfig => Message::ExportConfig,
            Message::LanguageChanged(l) => Message::LanguageChanged(*l),
        }
    }
}

/// What the caller is asked to do after a message.
#[derive(Debug)]
pub enum Action {
    /// Nothing to do.
    Nothing,
    /// List the host's interfaces and answer `InterfacesListed`.
    ListInterfaces,
    /// Read the system report and answer `SystemReportRead`.
    ReadSystemReport,
    /// Detect the sharing state and answer `SystemForwardDetected`.
    DetectSystemForward,
    /// Start sharing `wans` with `lan`, addressed `host_ip/mask`; answer
    /// `SysForwardingResult(true, ..)`.
    StartSystemForwarding { wans: Vec<String>, lan: String, host_ip: String, mask: String },
    /// Stop sharing `wans` with `lan`; answer `SysForwardingResult(false, ..)`.
    StopSystemForwarding { wans: Vec<String>, lan: String },
    /// Start relaying for forwarder `id`, keep its stop handle under `id`,
    /// and answer `PortForwardingResult(id, ..)` when the relay ends.
    StartPortForward {
        id: u128,
        protocol: Protocol,
        src_addr: String,
        src_port: u16,
        dst_addr: String,
        dst_port: u16,
    },
    /// Take the stop handle kept under `id`, if there is one, and signal it.
    StopPortForward(u128),
    /// Let the user pick a file to import and answer `ConfigsLoaded`.
    PickImportFile,
    /// Let the user pick a file to write `export_configs` to.
    PickExportFile,
}

/// Whether an interface is offered for sharing: loopback, virtual ethernet
/// pairs, docker and bridge interfaces are not.
pub open spec fn is_offered_interface(name: Seq<char>) -> bool {
    &&& name != "lo"@
    &&& !has_prefix(name, "veth"@)
    &&& !has_prefix(name, "docker"@)
    &&& !has_prefix(name, "br-"@)
}

/// The names of the interfaces that are offered, in order.
pub open spec fn offered_interfaces(names: Seq<Seq<char>>) -> Seq<Seq<char>>
    decreases names.len(),
{
    if names.len() == 0 {
        seq![]
    } else if is_offered_interface(names.last()) {
        offered_interfaces(names.drop_last()).push(names.last())
    } else {
        offered_interfaces(names.drop_last())
    }
}

pub open spec fn interface_names(infos: Seq<InterfaceInfo>) -> Seq<Seq<char>> {
    infos.map_values(|i: InterfaceInfo| i.name@)
}

/// Whether the interface is one that can be shared.
pub fn is_shareable_interface(name: &str) -> (res: bool)
    ensures
        res == is_offered_interface(name@),
{
    !str_eq(name, "lo") && !str_starts_with(name, "veth") && !str_starts_with(name, "docker")
        && !str_starts_with(name, "br-")
}

/// The names of the interfaces that can be shared, in the order listed.
pub fn filter_interfaces(infos: Vec<InterfaceInfo>) -> (res: Vec<String>)
    ensures
        views(res@) == offered_interfaces(interface_names(infos@)),
{
    let ghost ns = interface_names(infos@);
    let mut out: Vec<String> = Vec::new();
    for i in 0..infos.len()
        invariant
            ns == interface_names(infos@),
            views(out@) == offered_interfaces(ns.take(i as int)),
    {
        proof {
            assert(ns.take(i + 1).drop_last() =~= ns.take(i as int));
            assert(ns[i as int] == infos@[i as int].name@);
        }
        if is_shareable_interface(infos[i].name.as_str()) {
            let name = infos[i].name.clone();
            proof {
                lemma_views_push(out@, name);
            }
            out.push(name);
        }
    }
    assert(ns.take(infos@.len() as int) =~= ns);
    out
}

/// The interfaces offered as outgoing: all but the one chosen as LAN.
pub open spec fn wan_candidates(interfaces: Seq<Seq<char>>, lan: Option<Seq<char>>) -> Seq<Seq<char>>
    decreases interfaces.len(),
{
    if interfaces.len() == 0 {
        seq![]
    } else if lan == Some(interfaces.last()) {
        wan_candidates(interfaces.drop_last(), lan)
    } else {
        wan_candidates(interfaces.drop_last(), lan).push(interfaces.last())
    }
}

pub open spec fn opt_view(o: Option<String>) -> Option<Seq<char>> {
    match o {
        Some(s) => Some(s@),
        None => None,
    }
}

/// The text of `key` in the language of the moment.
pub open spec fn status_text(lang: Language, key: Seq<char>) -> Seq<char> {
    text_for(lang, key)
}

/// `names` with every entry equal to `name` removed.
pub open spec fn without(names: Seq<Seq<char>>, name: Seq<char>) -> Seq<Seq<char>>
    decreases names.len(),
{
    if names.len() == 0 {
        seq![]
    } else if names.last() == name {
        without(names.drop_last(), name)
    } else {
        without(names.drop_last(), name).push(names.last())
    }
}

/// Index of the first forwarder with identifier `id`.
pub open spec fn forwarder_index(fs: Seq<PortForwarder>, id: u128) -> Option<int>
    decreases fs.len(),
{
    if fs.len() == 0 {
        None
    } else {
        match forwarder_index(fs.drop_last(), id) {
            Some(k) => Some(k),
            None => if fs.last().id == id {
                Some(fs.len() - 1)
            } else {
                None
            },
        }
    }
}

proof fn lemma_forwarder_index_prefix(fs: Seq<PortForwarder>, id: u128, n: int)
    requires
        0 <= n <= fs.len(),
        forwarder_index(fs.take(n), id) is Some,
    ensures
        forwarder_index(fs, id) == forwarder_index(fs.take(n), id),
    decreases fs.len() - n,
{
    if n == fs.len() {
        assert(fs.take(n) =~= fs);
    } else {
        assert(fs.take(n + 1).drop_last() =~= fs.take(n));
        lemma_forwarder_index_prefix(fs, id, n + 1);
    }
}

/// The index is a position that holds `id`, and no earlier one does.
proof fn lemma_forwarder_index_is_first(fs: Seq<PortForwarder>, id: u128)
    ensures
        match forwarder_index(fs, id) {
            Some(k) => 0 <= k < fs.len() && fs[k].id == id && forall|m: int|
                0 <= m < k ==> (#[trigger] fs[m]).id != id,
            None => forall|m: int| 0 <= m < fs.len() ==> (#[trigger] fs[m]).id != id,
        },
    decreases fs.len(),
{
    if fs.len() > 0 {
        let init = fs.drop_last();
        lemma_forwarder_index_is_first(init, id);
        assert forall|m: int| 0 <= m < init.len() implies init[m] == fs[m] by {}
    }
}

/// Two forwarders agree in identifier, protocol, addresses and ports.
pub open spec fn same_forwarder_except_status(a: PortForwarder, b: PortForwarder) -> bool {
    &&& a.id == b.id
    &&& a.protocol == b.protocol
    &&& a.src_addr@ == b.src_addr@
    &&& a.src_port@ == b.src_port@
    &&& a.dst_addr@ == b.dst_addr@
    &&& a.dst_port@ == b.dst_port@
}

impl ForwarderApp {
    /// The starting state: the shareable interfaces, the sharing state that
    /// was detected, and the report that was read; Chinese, on the sharing page.
    pub fn new(interfaces: Vec<InterfaceInfo>, detected: (bool, Vec<String>, bool), report: SystemReport) -> (res: Self)
        ensures
            views(res.interfaces@) == offered_interfaces(interface_names(interfaces@)),
            res.current_page == Page::SystemForward,
            res.language == Language::Chinese,
            res.selected_wans == detected.1,
            res.lan_interface is None,
            res.host_ip@ == "192.168.10.1"@,
            res.subnet_mask@ == "24"@,
            res.sys_active == detected.0,
            res.sys_status@ == status_text(
                Language::Chinese,
                if detected.0 {
                    "status_active"@
                } else {
                    "status_ready"@
                },
            ),
            res.system_report == Some(report),
            res.refresh_interval == 1,
            res.port_forwarders@.len() == 0,
    {
        let ifaces = filter_interfaces(interfaces);
        let (sys_active, active_wans, _) = detected;
        let key = if sys_active {
            "status_active"
        } else {
            "status_ready"
        };
        let sys_status = String::from_str(Language::Chinese.get(key));
        ForwarderApp {
            current_page: Page::SystemForward,
            language: Language::Chinese,
            interfaces: ifaces,
            selected_wans: active_wans,
            lan_interface: None,
            host_ip: String::from_str("192.168.10.1"),
            subnet_mask: String::from_str("24"),
            sys_active,
            sys_status,
            system_report: Some(report),
            refresh_interval: 1,
            port_forwarders: Vec::new(),
        }
    }

    /// The window title.
    pub fn title(&self) -> (res: String)
        ensures
            res@ == "Conduit"@,
    {
        String::from_str("Conduit")
    }

    /// The refresh period, in seconds, while the monitor page is shown;
    /// none on the other pages.
    pub fn subscription(&self) -> (res: Option<u64>)
        ensures
            res == if self.current_page == Page::SystemMonitor {
                Some(self.refresh_interval)
            } else {
                None
            },
    {
        if self.current_page == Page::SystemMonitor {
            Some(self.refresh_interval)
        } else {
            None
        }
    }

    /// The interfaces offered as outgoing ones: all but the chosen LAN.
    pub fn wan_choices(&self) -> (res: Vec<String>)
        ensures
            views(res@) == wan_candidates(views(self.interfaces@), opt_view(self.lan_interface)),
    {
        let ghost ns = views(self.interfaces@);
        let mut out: Vec<String> = Vec::new();
        for i in 0..self.interfaces.len()
            invariant
                ns == views(self.interfaces@),
                views(out@) == wan_candidates(ns.take(i as int), opt_view(self.lan_interface)),
        {
            proof {
                assert(ns.take(i + 1).drop_last() =~= ns.take(i as int));
                assert(ns[i as int] == self.interfaces@[i as int]@);
            }
            let is_lan = match &self.lan_interface {
                Some(l) => str_eq(l.as_str(), self.interfaces[i].as_str()),
                None => false,
            };
            if !is_lan {
                let name = self.interfaces[i].clone();
                proof {
                    lemma_views_push(out@, name);
                }
                out.push(name);
            }
        }
        assert(ns.take(self.interfaces@.len() as int) =~= ns);
        out
    }

    /// The forwarders as they are saved, in list order.
    pub fn export_configs(&self) -> (res: Vec<PortForwarderConfig>)
        ensures
            res@.len() == self.port_forwarders@.len(),
            forall|i: int|
                0 <= i < res@.len() ==> {
                    let c = #[trigger] res@[i];
                    let f = self.port_forwarders@[i];
                    &&& c.protocol == f.protocol
                    &&& c.src_addr@ == f.src_addr@
                    &&& c.src_port@ == f.src_port@
                    &&& c.dst_addr@ == f.dst_addr@
                    &&& c.dst_port@ == f.dst_port@
                },
    {
        let mut out: Vec<PortForwarderConfig> = Vec::new();
        for i in 0..self.port_forwarders.len()
            invariant
                out@.len() == i,
                forall|k: int|
                    0 <= k < i ==> {
                        let c = #[trigger] out@[k];
                        let f = self.port_forwarders@[k];
                        &&& c.protocol == f.protocol
                        &&& c.src_addr@ == f.src_addr@
                        &&& c.src_port@ == f.src_port@
                        &&& c.dst_addr@ == f.dst_addr@
                        &&& c.dst_port@ == f.dst_port@
                    },
        {
            let f = &self.port_forwarders[i];
            out.push(
                PortForwarderConfig {
                    protocol: f.protocol,
                    src_addr: f.src_addr.clone(),
                    src_port: f.src_port.clone(),
                    dst_addr: f.dst_addr.clone(),
                    dst_port: f.dst_port.clone(),
                },
            );
        }
        out
    }
}


/// What each message does: the state after it, and the action asked for.
pub open spec fn stepped(old: ForwarderApp, msg: Message, new: ForwarderApp, action: Action) -> bool {
    match msg {
        Message::SwitchPage(page) => new == (ForwarderApp { current_page: page, ..old }) && action
            == Action::Nothing,
        Message::LanguageChanged(lang) => new == (ForwarderApp { language: lang, ..old }) && action
            == Action::Nothing,
        Message::LanSelected(name) => new == (ForwarderApp { lan_interface: Some(name), ..old })
            && action == Action::Nothing,
        Message::HostIpChanged(ip) => new == (ForwarderApp { host_ip: ip, ..old }) && action
            == Action::Nothing,
        Message::SubnetMaskChanged(mask) => new == (ForwarderApp { subnet_mask: mask, ..old })
            && action == Action::Nothing,
        Message::SetRefreshInterval(secs) => new == (ForwarderApp { refresh_interval: secs, ..old })
            && action == Action::Nothing,
        Message::SystemReportRead(report) => new == (ForwarderApp {
            system_report: Some(report),
            ..old
        }) && action == Action::Nothing,
        Message::RefreshInterfaces => new == old && action == Action::ListInterfaces,
        Message::RefreshSystemReport => new == old && action == Action::ReadSystemReport,
        Message::DetectSystemForward => new == old && action == Action::DetectSystemForward,
        Message::ImportConfig => new == old && action == Action::PickImportFile,
        Message::ExportConfig => new == old && action == Action::PickExportFile,
        Message::InterfacesListed(infos) => new == (ForwarderApp {
            interfaces: new.interfaces,
            ..old
        }) && views(new.interfaces@) == offered_interfaces(interface_names(infos@)) && action
            == Action::Nothing,
        Message::WanToggled(name, on) => wan_toggled(old, name, on, new) && action == Action::Nothing,
        Message::ToggleSysForwarding => sys_toggled(old, new, action),
        Message::SysForwardingResult(target, res) => sys_result(old, target, res, new) && action
            == Action::Nothing,
        Message::SystemForwardDetected(active, wans, failed) => detected(
            old,
            active,
            wans,
            failed,
            new,
        ) && action == Action::Nothing,
        Message::AddForwarder => forwarder_added(old, new) && action == Action::Nothing,
        Message::RemoveForwarder(id) => forwarder_removed(old, id, new, action),
        Message::ProtocolChanged(id, _) => edited(old, id, new, msg) && action == Action::Nothing,
        Message::SrcAddrChanged(id, _) => edited(old, id, new, msg) && action == Action::Nothing,
        Message::SrcPortChanged(id, _) => edited(old, id, new, msg) && action == Action::Nothing,
        Message::DstAddrChanged(id, _) => edited(old, id, new, msg) && action == Action::Nothing,
        Message::DstPortChanged(id, _) => edited(old, id, new, msg) && action == Action::Nothing,
        Message::TogglePortForwarding(id) => forwarder_toggled(old, id, new, action),
        Message::PortForwardingResult(id, res) => forwarder_result(old, id, res, new) && action
            == Action::Nothing,
        Message::ConfigsLoaded(cfgs) => configs_loaded(old, cfgs, new) && action == Action::Nothing,
    }
}

/// Selecting an outgoing interface appends it; deselecting removes every
/// entry of that name.
pub open spec fn wan_toggled(old: ForwarderApp, name: String, on: bool, new: ForwarderApp) -> bool {
    &&& new == (ForwarderApp { selected_wans: new.selected_wans, ..old })
    &&& if on {
        new.selected_wans@ == old.selected_wans@.push(name)
    } else {
        views(new.selected_wans@) == without(views(old.selected_wans@), name@)
    }
}

/// Starting or stopping the share: it needs a LAN interface and at least
/// one outgoing interface; otherwise only the status line says what is missing.
pub open spec fn sys_toggled(old: ForwarderApp, new: ForwarderApp, action: Action) -> bool {
    &&& new == (ForwarderApp { sys_status: new.sys_status, ..old })
    &&& match old.lan_interface {
        None => new.sys_status@ == "Select LAN interface"@ && action == Action::Nothing,
        Some(lan) => if old.selected_wans@.len() == 0 {
            new.sys_status@ == "Select at least one WAN"@ && action == Action::Nothing
        } else if old.sys_active {
            &&& new.sys_status@ == "Stopping..."@
            &&& action matches Action::StopSystemForwarding { wans, lan: l } && wans@ == old.selected_wans@ && l
                == lan
        } else {
            &&& new.sys_status@ == "Starting..."@
            &&& action matches Action::StartSystemForwarding { wans, lan: l, host_ip, mask } && wans@
                == old.selected_wans@ && l == lan && host_ip == old.host_ip && mask == old.subnet_mask
        },
    }
}

/// The outcome of starting (`target`) or stopping the share.
pub open spec fn sys_result(old: ForwarderApp, target: bool, res: Result<(), String>, new: ForwarderApp) -> bool {
    match res {
        Ok(_) => {
            &&& new == (ForwarderApp { sys_active: target, sys_status: new.sys_status, ..old })
            &&& new.sys_status@ == if target {
                "Active!"@
            } else {
                "Stopped"@
            }
        },
        Err(e) => {
            &&& new == (ForwarderApp { sys_status: new.sys_status, ..old })
            &&& new.sys_status@ == "Error: "@ + e@
        },
    }
}

/// A detection that failed (usually for want of permission) leaves the
/// sharing state and the selection as they were and says so; otherwise the
/// detected state is taken, with the detected interfaces when it is active
/// and names some.
pub open spec fn detected(old: ForwarderApp, active: bool, wans: Vec<String>, failed: bool, new: ForwarderApp) -> bool {
    if failed {
        &&& new == (ForwarderApp { sys_status: new.sys_status, ..old })
        &&& new.sys_status@ == status_text(old.language, "msg_det_failed"@)
    } else {
        &&& new == (ForwarderApp {
            sys_active: active,
            selected_wans: new.selected_wans,
            sys_status: new.sys_status,
            ..old
        })
        &&& new.selected_wans == if active && wans@.len() > 0 {
            wans
        } else {
            old.selected_wans
        }
        &&& new.sys_status@ == status_text(
            old.language,
            if active {
                "status_active"@
            } else {
                "status_ready"@
            },
        )
    }
}

/// A new forwarder is appended: TCP from `0.0.0.0` to `127.0.0.1`, no
/// ports yet, stopped, with a fresh random identifier shaped as a UUID v4.
pub open spec fn forwarder_added(old: ForwarderApp, new: ForwarderApp) -> bool {
    let fs = new.port_forwarders@;
    &&& new == (ForwarderApp { port_forwarders: new.port_forwarders, ..old })
    &&& fs.len() == old.port_forwarders@.len() + 1
    &&& fs.drop_last() == old.port_forwarders@
    &&& fs.last().protocol == Protocol::TCP
    &&& fs.last().src_addr@ == "0.0.0.0"@
    &&& fs.last().src_port@ == ""@
    &&& fs.last().dst_addr@ == "127.0.0.1"@
    &&& fs.last().dst_port@ == ""@
    &&& !fs.last().is_active
    &&& fs.last().status@ == status_text(old.language, "status_ready"@)
    &&& has_uuid_v4_shape(fs.last().id)
}

/// The first forwarder with `id` leaves the list; a running one is stopped.
pub open spec fn forwarder_removed(old: ForwarderApp, id: u128, new: ForwarderApp, action: Action) -> bool {
    match forwarder_index(old.port_forwarders@, id) {
        Some(k) => {
            &&& new == (ForwarderApp { port_forwarders: new.port_forwarders, ..old })
            &&& new.port_forwarders@ == old.port_forwarders@.remove(k)
            &&& action == if old.port_forwarders@[k].is_active {
                Action::StopPortForward(id)
            } else {
                Action::Nothing
            }
        },
        None => new == old && action == Action::Nothing,
    }
}

/// The field that an editing message sets, set on `f`.
pub open spec fn apply_edit(f: PortForwarder, msg: Message) -> PortForwarder {
    match msg {
        Message::ProtocolChanged(_, p) => PortForwarder { protocol: p, ..f },
        Message::SrcAddrChanged(_, v) => PortForwarder { src_addr: v, ..f },
        Message::SrcPortChanged(_, v) => PortForwarder { src_port: v, ..f },
        Message::DstAddrChanged(_, v) => PortForwarder { dst_addr: v, ..f },
        Message::DstPortChanged(_, v) => PortForwarder { dst_port: v, ..f },
        _ => f,
    }
}

/// The first forwarder with `id` gets the edited field; nothing else changes.
pub open spec fn edited(old: ForwarderApp, id: u128, new: ForwarderApp, msg: Message) -> bool {
    match forwarder_index(old.port_forwarders@, id) {
        Some(k) => {
            &&& new == (ForwarderApp { port_forwarders: new.port_forwarders, ..old })
            &&& new.port_forwarders@ == old.port_forwarders@.update(k, apply_edit(old.port_forwarders@[k], msg))
        },
        None => new == old,
    }
}

/// Starting or stopping the first forwarder with `id`: a running one is
/// stopped; a stopped one starts when both ports read as port numbers,
/// otherwise its status says that a port is invalid.
pub open spec fn forwarder_toggled(old: ForwarderApp, id: u128, new: ForwarderApp, action: Action) -> bool {
    match forwarder_index(old.port_forwarders@, id) {
        Some(k) => {
            let f = old.port_forwarders@[k];
            let g = new.port_forwarders@[k];
            &&& new == (ForwarderApp { port_forwarders: new.port_forwarders, ..old })
            &&& new.port_forwarders@ == old.port_forwarders@.update(
                k,
                PortForwarder { is_active: g.is_active, status: g.status, ..f },
            )
            &&& if f.is_active {
                &&& !g.is_active
                &&& g.status@ == "Stopped"@
                &&& action == Action::StopPortForward(id)
            } else {
                match (parse_u16(f.src_port@), parse_u16(f.dst_port@)) {
                    (Some(sp), Some(dp)) => {
                        &&& g.is_active
                        &&& g.status@ == "Running"@
                        &&& action == Action::StartPortForward {
                            id,
                            protocol: f.protocol,
                            src_addr: f.src_addr,
                            src_port: sp,
                            dst_addr: f.dst_addr,
                            dst_port: dp,
                        }
                    },
                    _ => {
                        &&& !g.is_active
                        &&& g.status@ == "Invalid port"@
                        &&& action == Action::Nothing
                    },
                }
            }
        },
        None => new == old && action == Action::Nothing,
    }
}

/// A relay that ended in an error leaves its forwarder stopped, with the error.
pub open spec fn forwarder_result(old: ForwarderApp, id: u128, res: Result<(), String>, new: ForwarderApp) -> bool {
    match (forwarder_index(old.port_forwarders@, id), res) {
        (Some(k), Err(e)) => {
            let f = old.port_forwarders@[k];
            let g = new.port_forwarders@[k];
            &&& new == (ForwarderApp { port_forwarders: new.port_forwarders, ..old })
            &&& new.port_forwarders@ == old.port_forwarders@.update(
                k,
                PortForwarder { is_active: false, status: g.status, ..f },
            )
            &&& g.status@ == "Error: "@ + e@
        },
        _ => new == old,
    }
}

/// Loaded forwarders are appended in file order, stopped, with fresh random
/// identifiers shaped as UUID v4 values and a status that marks them as imported.
pub open spec fn configs_loaded(old: ForwarderApp, cfgs: Vec<PortForwarderConfig>, new: ForwarderApp) -> bool {
    let n = old.port_forwarders@.len();
    let fs = new.port_forwarders@;
    &&& new == (ForwarderApp { port_forwarders: new.port_forwarders, ..old })
    &&& fs.len() == n + cfgs@.len()
    &&& fs.take(n as int) == old.port_forwarders@
    &&& forall|j: int|
        0 <= j < cfgs@.len() ==> {
            let f = #[trigger] fs[n + j];
            let c = cfgs@[j];
            &&& f.protocol == c.protocol
            &&& f.src_addr == c.src_addr
            &&& f.src_port == c.src_port
            &&& f.dst_addr == c.dst_addr
            &&& f.dst_port == c.dst_port
            &&& !f.is_active
            &&& f.status@ == status_text(old.language, "status_ready"@) + " (Imported)"@
            &&& has_uuid_v4_shape(f.id)
        }
}


/// A copy of a list of strings.
fn clone_strings(v: &Vec<String>) -> (res: Vec<String>)
    ensures
        res@ == v@,
{
    let mut out: Vec<String> = Vec::new();
    for i in 0..v.len()
        invariant
            out@ == v@.take(i as int),
    {
        out.push(v[i].clone());
        assert(out@ =~= v@.take(i + 1));
    }
    assert(v@.take(v@.len() as int) =~= v@);
    out
}

/// `names` without the entries equal to `name`.
fn remove_all(names: &Vec<String>, name: &String) -> (res: Vec<String>)
    ensures
        views(res@) == without(views(names@), name@),
{
    let ghost ns = views(names@);
    let mut out: Vec<String> = Vec::new();
    for i in 0..names.len()
        invariant
            ns == views(names@),
            views(out@) == without(ns.take(i as int), name@),
    {
        proof {
            assert(ns.take(i + 1).drop_last() =~= ns.take(i as int));
            assert(ns[i as int] == names@[i as int]@);
        }
        if names[i] != *name {
            let n = names[i].clone();
            proof {
                lemma_views_push(out@, n);
            }
            out.push(n);
        }
    }
    assert(ns.take(names@.len() as int) =~= ns);
    out
}

/// `"Error: "` followed by the message.
fn error_status(e: &String) -> (res: String)
    ensures
        res@ == "Error: "@ + e@,
{
    let mut s = String::from_str("Error: ");
    s.append(e.as_str());
    s
}

impl ForwarderApp {
    /// The position of the first forwarder with identifier `id`.
    pub fn find_forwarder(&self, id: u128) -> (res: Option<usize>)
        ensures
            match res {
                Some(k) => k < self.port_forwarders@.len() && forwarder_index(self.port_forwarders@, id)
                    == Some(k as int),
                None => forwarder_index(self.port_forwarders@, id) is None,
            },
    {
        let ghost fs = self.port_forwarders@;
        let mut i: usize = 0;
        while i < self.port_forwarders.len()
            invariant
                fs == self.port_forwarders@,
                0 <= i <= fs.len(),
                forwarder_index(fs.take(i as int), id) is None,
            decreases fs.len() - i,
        {
            assert(fs.take(i + 1).drop_last() =~= fs.take(i as int));
            if self.port_forwarders[i].id == id {
                proof {
                    lemma_forwarder_index_prefix(fs, id, i + 1);
                }
                return Some(i);
            }
            i = i + 1;
        }
        assert(fs.take(i as int) =~= fs);
        None
    }

    fn toggle_wan(&mut self, name: String, on: bool)
        ensures
            wan_toggled(*old(self), name, on, *final(self)),
    {
        if on {
            self.selected_wans.push(name);
        } else {
            let kept = remove_all(&self.selected_wans, &name);
            self.selected_wans = kept;
        }
    }

    fn toggle_sys_forwarding(&mut self) -> (action: Action)
        ensures
            sys_toggled(*old(self), *final(self), action),
    {
        match &self.lan_interface {
            Some(l) => {
                let lan = l.clone();
                if self.selected_wans.len() == 0 {
                    self.sys_status = String::from_str("Select at least one WAN");
                    return Action::Nothing;
                }
                let wans = clone_strings(&self.selected_wans);
                if self.sys_active {
                    self.sys_status = String::from_str("Stopping...");
                    Action::StopSystemForwarding { wans, lan }
                } else {
                    self.sys_status = String::from_str("Starting...");
                    Action::StartSystemForwarding {
                        wans,
                        lan,
                        host_ip: self.host_ip.clone(),
                        mask: self.subnet_mask.clone(),
                    }
                }
            },
            None => {
                self.sys_status = String::from_str("Select LAN interface");
                Action::Nothing
            },
        }
    }

    fn take_sys_result(&mut self, target: bool, res: Result<(), String>)
        ensures
            sys_result(*old(self), target, res, *final(self)),
    {
        match &res {
            Ok(_) => {
                self.sys_active = target;
                self.sys_status = if target {
                    String::from_str("Active!")
                } else {
                    String::from_str("Stopped")
                };
            },
            Err(e) => {
                self.sys_status = error_status(e);
            },
        }
    }

    fn take_detection(&mut self, active: bool, wans: Vec<String>, failed: bool)
        ensures
            detected(*old(self), active, wans, failed, *final(self)),
    {
        if failed {
            self.sys_status = String::from_str(self.language.get("msg_det_failed"));
        } else {
            self.sys_active = active;
            if active && wans.len() > 0 {
                self.selected_wans = wans;
            }
            let key = if active {
                "status_active"
            } else {
                "status_ready"
            };
            self.sys_status = String::from_str(self.language.get(key));
        }
    }

    fn add_forwarder(&mut self)
        ensures
            forwarder_added(*old(self), *final(self)),
    {
        let f = PortForwarder {
            id: fresh_id(),
            protocol: Protocol::TCP,
            src_addr: String::from_str("0.0.0.0"),
            src_port: String::from_str(""),
            dst_addr: String::from_str("127.0.0.1"),
            dst_port: String::from_str(""),
            is_active: false,
            status: String::from_str(self.language.get("status_ready")),
        };
        self.port_forwarders.push(f);
        assert(self.port_forwarders@.drop_last() =~= old(self).port_forwarders@);
    }

    fn remove_forwarder(&mut self, id: u128) -> (action: Action)
        ensures
            forwarder_removed(*old(self), id, *final(self), action),
    {
        match self.find_forwarder(id) {
            Some(k) => {
                let f = self.port_forwarders.remove(k);
                if f.is_active {
                    Action::StopPortForward(id)
                } else {
                    Action::Nothing
                }
            },
            None => Action::Nothing,
        }
    }

    fn toggle_forwarder(&mut self, id: u128) -> (action: Action)
        ensures
            forwarder_toggled(*old(self), id, *final(self), action),
    {
        match self.find_forwarder(id) {
            Some(k) => {
                if self.port_forwarders[k].is_active {
                    self.port_forwarders[k].is_active = false;
                    self.port_forwarders[k].status = String::from_str("Stopped");
                    assert(self.port_forwarders@ =~= old(self).port_forwarders@.update(
                        k as int,
                        self.port_forwarders@[k as int],
                    ));
                    Action::StopPortForward(id)
                } else {
                    let sp = parse_port(self.port_forwarders[k].src_port.as_str());
                    let dp = parse_port(self.port_forwarders[k].dst_port.as_str());
                    match (sp, dp) {
                        (Some(sp), Some(dp)) => {
                            self.port_forwarders[k].is_active = true;
                            self.port_forwarders[k].status = String::from_str("Running");
                            assert(self.port_forwarders@ =~= old(self).port_forwarders@.update(
                                k as int,
                                self.port_forwarders@[k as int],
                            ));
                            Action::StartPortForward {
                                id,
                                protocol: self.port_forwarders[k].protocol,
                                src_addr: self.port_forwarders[k].src_addr.clone(),
                                src_port: sp,
                                dst_addr: self.port_forwarders[k].dst_addr.clone(),
                                dst_port: dp,
                            }
                        },
                        _ => {
                            self.port_forwarders[k].status = String::from_str("Invalid port");
                            assert(self.port_forwarders@ =~= old(self).port_forwarders@.update(
                                k as int,
                                self.port_forwarders@[k as int],
                            ));
                            Action::Nothing
                        },
                    }
                }
            },
            None => Action::Nothing,
        }
    }

    fn take_forward_result(&mut self, id: u128, res: Result<(), String>)
        ensures
            forwarder_result(*old(self), id, res, *final(self)),
    {
        if let Some(k) = self.find_forwarder(id) {
            if let Err(e) = &res {
                self.port_forwarders[k].is_active = false;
                self.port_forwarders[k].status = error_status(e);
                assert(self.port_forwarders@ =~= old(self).port_forwarders@.update(
                    k as int,
                    self.port_forwarders@[k as int],
                ));
            }
        }
    }

    fn load_configs(&mut self, cfgs: Vec<PortForwarderConfig>)
        ensures
            configs_loaded(*old(self), cfgs, *final(self)),
    {
        let ghost all = cfgs@;
        let ghost n = self.port_forwarders@.len();
        let mut rest = cfgs;
        let total = rest.len();
        let mut j: usize = 0;
        while rest.len() > 0
            invariant
                rest@ == all.skip(j as int),
                total == all.len(),
                j <= total,
                self.port_forwarders@.len() == n + j,
                self.port_forwarders@.take(n as int) == old(self).port_forwarders@,
                n == old(self).port_forwarders@.len(),
                *self == (ForwarderApp { port_forwarders: self.port_forwarders, ..*old(self) }),
                forall|i: int|
                    0 <= i < j ==> {
                        let f = #[trigger] self.port_forwarders@[n + i];
                        let c = all[i];
                        &&& f.protocol == c.protocol
                        &&& f.src_addr == c.src_addr
                        &&& f.src_port == c.src_port
                        &&& f.dst_addr == c.dst_addr
                        &&& f.dst_port == c.dst_port
                        &&& !f.is_active
                        &&& f.status@ == status_text(old(self).language, "status_ready"@) + " (Imported)"@
                        &&& has_uuid_v4_shape(f.id)
                    },
            decreases rest@.len(),
        {
            let c = rest.remove(0);
            assert(c == all[j as int]);
            let mut status = String::from_str(self.language.get("status_ready"));
            status.append(" (Imported)");
            let ghost before = self.port_forwarders@;
            self.port_forwarders.push(
                PortForwarder {
                    id: fresh_id(),
                    protocol: c.protocol,
                    src_addr: c.src_addr,
                    src_port: c.src_port,
                    dst_addr: c.dst_addr,
                    dst_port: c.dst_port,
                    is_active: false,
                    status,
                },
            );
            proof {
                assert(self.port_forwarders@.take(n as int) =~= before.take(n as int));
                assert(all.skip(j as int).drop_first() =~= all.skip(j + 1));
                assert forall|i: int| 0 <= i < j implies #[trigger] self.port_forwarders@[n + i] == before[n + i] by {}
            }
            j = j + 1;
        }
        assert(j == all.len());
    }

    /// Applies a message to the state and says what the caller is to do next.
    pub fn update(&mut self, msg: Message) -> (action: Action)
        ensures
            stepped(*old(self), msg, *final(self), action),
    {
        match msg {
            Message::SwitchPage(page) => {
                self.current_page = page;
                Action::Nothing
            },
            Message::LanguageChanged(lang) => {
                self.language = lang;
                Action::Nothing
            },
            Message::LanSelected(name) => {
                self.lan_interface = Some(name);
                Action::Nothing
            },
            Message::HostIpChanged(ip) => {
                self.host_ip = ip;
                Action::Nothing
            },
            Message::SubnetMaskChanged(mask) => {
                self.subnet_mask = mask;
                Action::Nothing
            },
            Message::SetRefreshInterval(secs) => {
                self.refresh_interval = secs;
                Action::Nothing
            },
            Message::SystemReportRead(report) => {
                self.system_report = Some(report);
                Action::Nothing
            },
            Message::RefreshInterfaces => Action::ListInterfaces,
            Message::RefreshSystemReport => Action::ReadSystemReport,
            Message::DetectSystemForward => Action::DetectSystemForward,
            Message::ImportConfig => Action::PickImportFile,
            Message::ExportConfig => Action::PickExportFile,
            Message::InterfacesListed(infos) => {
                self.interfaces = filter_interfaces(infos);
                Action::Nothing
            },
            Message::WanToggled(name, on) => {
                self.toggle_wan(name, on);
                Action::Nothing
            },
            Message::ToggleSysForwarding => self.toggle_sys_forwarding(),
            Message::SysForwardingResult(target, res) => {
                self.take_sys_result(target, res);
                Action::Nothing
            },
            Message::SystemForwardDetected(active, wans, failed) => {
                self.take_detection(active, wans, failed);
                Action::Nothing
            },
            Message::AddForwarder => {
                self.add_forwarder();
                Action::Nothing
            },
            Message::RemoveForwarder(id) => self.remove_forwarder(id),
            Message::ProtocolChanged(id, p) => {
                if let Some(k) = self.find_forwarder(id) {
                    self.port_forwarders[k].protocol = p;
                }
                Action::Nothing
            },
            Message::SrcAddrChanged(id, v) => {
                if let Some(k) = self.find_forwarder(id) {
                    self.port_forwarders[k].src_addr = v;
                }
                Action::Nothing
            },
            Message::SrcPortChanged(id, v) => {
                if let Some(k) = self.find_forwarder(id) {
                    self.port_forwarders[k].src_port = v;
                }
                Action::Nothing
            },
            Message::DstAddrChanged(id, v) => {
                if let Some(k) = self.find_forwarder(id) {
                    self.port_forwarders[k].dst_addr = v;
                }
                Action::Nothing
            },
            Message::DstPortChanged(id, v) => {
                if let Some(k) = self.find_forwarder(id) {
                    self.port_forwarders[k].dst_port = v;
                }
                Action::Nothing
            },
            Message::TogglePortForwarding(id) => self.toggle_forwarder(id),
            Message::PortForwardingResult(id, res) => {
                self.take_forward_result(id, res);
                Action::Nothing
            },
            Message::ConfigsLoaded(cfgs) => {
                self.load_configs(cfgs);
                Action::Nothing
            },
        }
    }
}


/// Deselecting an outgoing interface removes every entry of it and keeps
/// every other one.
pub proof fn lemma_deselected_wan_is_gone(names: Seq<Seq<char>>, name: Seq<char>)
    ensures
        !without(names, name).contains(name),
        forall|x: Seq<char>| x != name && names.contains(x) ==> without(names, name).contains(x),
    decreases names.len(),
{
    if names.len() > 0 {
        let init = names.drop_last();
        lemma_deselected_wan_is_gone(init, name);
        assert forall|x: Seq<char>| x != name && names.contains(x) implies without(names, name).contains(x) by {
            let i = choose|i: int| 0 <= i < names.len() && names[i] == x;
            if i < init.len() {
                assert(init[i] == x);
                assert(init.contains(x));
                let w = without(init, name);
                let j = choose|j: int| 0 <= j < w.len() && w[j] == x;
                if names.last() != name {
                    assert(without(names, name)[j] == x);
                }
            } else {
                assert(without(names, name).last() == x);
            }
        }
        if names.last() != name {
            let w = without(init, name);
            assert forall|j: int| 0 <= j < w.push(names.last()).len() implies w.push(names.last())[j] != name by {
                if j < w.len() {
                    assert(w.contains(w[j]));
                }
            }
        }
    }
}

/// The first position holding `id`, with none before it, is the one found.
proof fn lemma_forwarder_index_of_first(fs: Seq<PortForwarder>, id: u128, k: int)
    requires
        0 <= k < fs.len(),
        fs[k].id == id,
        forall|m: int| 0 <= m < k ==> (#[trigger] fs[m]).id != id,
    ensures
        forwarder_index(fs, id) == Some(k),
    decreases fs.len(),
{
    if k < fs.len() - 1 {
        let init = fs.drop_last();
        assert forall|m: int| 0 <= m < k implies (#[trigger] init[m]).id != id by {
            assert(init[m] == fs[m]);
        }
        lemma_forwarder_index_of_first(init, id, k);
    } else {
        lemma_forwarder_index_is_first(fs.drop_last(), id);
        let init = fs.drop_last();
        match forwarder_index(init, id) {
            Some(j) => {
                assert(init[j] == fs[j]);
            },
            None => {},
        }
    }
}

/// Removing a forwarder right after adding it, by the identifier it was
/// given, leaves the list as it was before, when that identifier was new.
pub proof fn lemma_remove_undoes_add(
    s0: ForwarderApp,
    s1: ForwarderApp,
    a1: Action,
    s2: ForwarderApp,
    a2: Action,
)
    requires
        stepped(s0, Message::AddForwarder, s1, a1),
        forall|m: int|
            0 <= m < s0.port_forwarders@.len() ==> (#[trigger] s0.port_forwarders@[m]).id
                != s1.port_forwarders@.last().id,
        stepped(s1, Message::RemoveForwarder(s1.port_forwarders@.last().id), s2, a2),
    ensures
        s2.port_forwarders@ == s0.port_forwarders@,
        s2 == (ForwarderApp { port_forwarders: s2.port_forwarders, ..s0 }),
        a2 == Action::Nothing,
{
    let fs = s1.port_forwarders@;
    let k = fs.len() - 1;
    assert forall|m: int| 0 <= m < k implies (#[trigger] fs[m]).id != fs.last().id by {
        assert(fs[m] == s0.port_forwarders@[m]);
    }
    lemma_forwarder_index_of_first(fs, fs.last().id, k);
    assert(fs.remove(k) =~= s0.port_forwarders@);
}

/// Starting a stopped forwarder whose ports are valid and then toggling it
/// again stops it: the first toggle asks to start its relay, the second to
/// stop it, and afterwards it is stopped with its settings unchanged.
pub proof fn lemma_toggle_twice_stops(
    s0: ForwarderApp,
    id: u128,
    s1: ForwarderApp,
    a1: Action,
    s2: ForwarderApp,
    a2: Action,
)
    requires
        forwarder_index(s0.port_forwarders@, id) is Some,
        !s0.port_forwarders@[forwarder_index(s0.port_forwarders@, id)->0].is_active,
        parse_u16(s0.port_forwarders@[forwarder_index(s0.port_forwarders@, id)->0].src_port@) is Some,
        parse_u16(s0.port_forwarders@[forwarder_index(s0.port_forwarders@, id)->0].dst_port@) is Some,
        stepped(s0, Message::TogglePortForwarding(id), s1, a1),
        stepped(s1, Message::TogglePortForwarding(id), s2, a2),
    ensures
        a1 matches Action::StartPortForward { id: started, .. } && started == id,
        a2 == Action::StopPortForward(id),
        ({
            let k = forwarder_index(s0.port_forwarders@, id)->0;
            &&& s2.port_forwarders@.len() == s0.port_forwarders@.len()
            &&& !s2.port_forwarders@[k].is_active
            &&& same_forwarder_except_status(s2.port_forwarders@[k], s0.port_forwarders@[k])
            &&& forall|m: int|
                0 <= m < s0.port_forwarders@.len() && m != k ==> s2.port_forwarders@[m]
                    == s0.port_forwarders@[m]
        }),
{
    let k = forwarder_index(s0.port_forwarders@, id)->0;
    lemma_forwarder_index_is_first(s0.port_forwarders@, id);
    let fs1 = s1.port_forwarders@;
    assert forall|m: int| 0 <= m < k implies (#[trigger] fs1[m]).id != id by {
        assert(fs1[m] == s0.port_forwarders@[m]);
    }
    lemma_forwarder_index_of_first(fs1, id, k);
}

/// Exported forwarders, loaded again, come back with the same settings,
/// in the same order, after the forwarders already in the list.
pub proof fn lemma_export_then_load_keeps_settings(
    s: ForwarderApp,
    cfgs: Vec<PortForwarderConfig>,
    t: ForwarderApp,
    a: Action,
)
    requires
        cfgs@.len() == s.port_forwarders@.len(),
        forall|i: int|
            0 <= i < cfgs@.len() ==> {
                let c = #[trigger] cfgs@[i];
                let f = s.port_forwarders@[i];
                &&& c.protocol == f.protocol
                &&& c.src_addr@ == f.src_addr@
                &&& c.src_port@ == f.src_port@
                &&& c.dst_addr@ == f.dst_addr@
                &&& c.dst_port@ == f.dst_port@
            },
        stepped(s, Message::ConfigsLoaded(cfgs), t, a),
    ensures
        t.port_forwarders@.len() == 2 * s.port_forwarders@.len(),
        forall|i: int|
            0 <= i < s.port_forwarders@.len() ==> {
                let g = #[trigger] t.port_forwarders@[s.port_forwarders@.len() + i];
                let f = s.port_forwarders@[i];
                &&& g.protocol == f.protocol
                &&& g.src_addr@ == f.src_addr@
                &&& g.src_port@ == f.src_port@
                &&& g.dst_addr@ == f.dst_addr@
                &&& g.dst_port@ == f.dst_port@
                &&& !g.is_active
            },
{
    let n = s.port_forwarders@.len();
    assert forall|i: int| 0 <= i < n implies {
        let g = #[trigger] t.port_forwarders@[n + i];
        let f = s.port_forwarders@[i];
        &&& g.protocol == f.protocol
        &&& g.src_addr@ == f.src_addr@
        &&& g.src_port@ == f.src_port@
        &&& g.dst_addr@ == f.dst_addr@
        &&& g.dst_port@ == f.dst_port@
        &&& !g.is_active
    } by {
        let c = cfgs@[i];
    }
}


/// Toggling a stopped forwarder starts a relay only when both port texts
/// read as port numbers: with either one unreadable it stays stopped, its
/// status says `Invalid port`, and nothing is asked for. A relay that is
/// asked for runs from the forwarder's own addresses, protocol and ports.
/// No other forwarder changes.
pub proof fn lemma_toggle_uses_the_forwarders_own_ports(
    old: ForwarderApp,
    id: u128,
    new: ForwarderApp,
    action: Action,
    k: int,
)
    requires
        stepped(old, Message::TogglePortForwarding(id), new, action),
        0 <= k < old.port_forwarders@.len(),
        old.port_forwarders@[k].id == id,
        forall|m: int| 0 <= m < k ==> (#[trigger] old.port_forwarders@[m]).id != id,
    ensures
        new.port_forwarders@.len() == old.port_forwarders@.len(),
        forall|m: int|
            0 <= m < old.port_forwarders@.len() && m != k ==> new.port_forwarders@[m]
                == old.port_forwarders@[m],
        ({
            let f = old.port_forwarders@[k];
            let g = new.port_forwarders@[k];
            &&& g.id == f.id && g.protocol == f.protocol && g.src_addr == f.src_addr
            &&& g.src_port == f.src_port && g.dst_addr == f.dst_addr && g.dst_port == f.dst_port
            &&& (!f.is_active && (parse_u16(f.src_port@) is None || parse_u16(f.dst_port@) is None))
                ==> (!g.is_active && g.status@ == "Invalid port"@ && action == Action::Nothing)
            &&& (action matches Action::StartPortForward {
                id: i,
                protocol,
                src_addr,
                src_port,
                dst_addr,
                dst_port,
            } ==> {
                &&& i == id
                &&& !f.is_active && g.is_active
                &&& protocol == f.protocol
                &&& src_addr == f.src_addr
                &&& dst_addr == f.dst_addr
                &&& parse_u16(f.src_port@) == Some(src_port)
                &&& parse_u16(f.dst_port@) == Some(dst_port)
            })
            &&& (f.is_active ==> !g.is_active && action == Action::StopPortForward(id))
        }),
{
    lemma_forwarder_index_of_first(old.port_forwarders@, id, k);
}

/// An editing message changes only its own field of the first forwarder
/// with its identifier; that forwarder's other fields, its state and
/// status, and every other forwarder stay as they were.
pub proof fn lemma_edit_changes_only_its_field(
    old: ForwarderApp,
    msg: Message,
    id: u128,
    new: ForwarderApp,
    action: Action,
    k: int,
)
    requires
        match msg {
            Message::ProtocolChanged(i, _) => i == id,
            Message::SrcAddrChanged(i, _) => i == id,
            Message::SrcPortChanged(i, _) => i == id,
            Message::DstAddrChanged(i, _) => i == id,
            Message::DstPortChanged(i, _) => i == id,
            _ => false,
        },
        stepped(old, msg, new, action),
        0 <= k < old.port_forwarders@.len(),
        old.port_forwarders@[k].id == id,
        forall|m: int| 0 <= m < k ==> (#[trigger] old.port_forwarders@[m]).id != id,
    ensures
        action == Action::Nothing,
        new.port_forwarders@.len() == old.port_forwarders@.len(),
        forall|m: int|
            0 <= m < old.port_forwarders@.len() && m != k ==> new.port_forwarders@[m]
                == old.port_forwarders@[m],
        new.port_forwarders@[k].id == old.port_forwarders@[k].id,
        new.port_forwarders@[k].is_active == old.port_forwarders@[k].is_active,
        new.port_forwarders@[k].status == old.port_forwarders@[k].status,
        ({
            let f = old.port_forwarders@[k];
            let g = new.port_forwarders@[k];
            match msg {
            Message::ProtocolChanged(_, p) => g.protocol == p && g.src_addr == f.src_addr && g.src_port == f.src_port && g.dst_addr == f.dst_addr && g.dst_port == f.dst_port,
            Message::SrcAddrChanged(_, v) => g.src_addr == v && g.protocol == f.protocol && g.src_port == f.src_port && g.dst_addr == f.dst_addr && g.dst_port == f.dst_port,
            Message::SrcPortChanged(_, v) => g.src_port == v && g.protocol == f.protocol && g.src_addr == f.src_addr && g.dst_addr == f.dst_addr && g.dst_port == f.dst_port,
            Message::DstAddrChanged(_, v) => g.dst_addr == v && g.protocol == f.protocol && g.src_addr == f.src_addr && g.src_port == f.src_port && g.dst_port == f.dst_port,
            Message::DstPortChanged(_, v) => g.dst_port == v && g.protocol == f.protocol && g.src_addr == f.src_addr && g.src_port == f.src_port && g.dst_addr == f.dst_addr,
                _ => false,
            }
        }),
{
    lemma_forwarder_index_of_first(old.port_forwarders@, id, k);
}

/// An interface is offered for sharing exactly when its name is not `lo`
/// and does not begin with `veth`, `docker` or `br-`.
pub proof fn lemma_offered_interface_rule(name: Seq<char>)
    ensures
        is_offered_interface(name) <==> (name != "lo"@ && !(4 <= name.len() && name.take(4) == "veth"@)
            && !(6 <= name.len() && name.take(6) == "docker"@) && !(3 <= name.len() && name.take(3)
            == "br-"@)),
{
    reveal_strlit("veth");
    reveal_strlit("docker");
    reveal_strlit("br-");
}

/// The interfaces offered are exactly the listed ones that pass the rule
/// above: every such name is kept, and nothing else appears.
pub proof fn lemma_offered_interfaces_are_exactly(names: Seq<Seq<char>>)
    ensures
        forall|i: int|
            0 <= i < names.len() && names[i] != "lo"@ && !has_prefix(names[i], "veth"@) && !has_prefix(
                names[i],
                "docker"@,
            ) && !has_prefix(names[i], "br-"@) ==> offered_interfaces(names).contains(#[trigger] names[i]),
        forall|x: Seq<char>|
            offered_interfaces(names).contains(x) ==> names.contains(x) && x != "lo"@ && !has_prefix(
                x,
                "veth"@,
            ) && !has_prefix(x, "docker"@) && !has_prefix(x, "br-"@),
    decreases names.len(),
{
    if names.len() > 0 {
        let init = names.drop_last();
        lemma_offered_interfaces_are_exactly(init);
        let k = offered_interfaces(init);
        assert forall|i: int|
            0 <= i < names.len() && names[i] != "lo"@ && !has_prefix(names[i], "veth"@) && !has_prefix(
                names[i],
                "docker"@,
            ) && !has_prefix(names[i], "br-"@) implies offered_interfaces(names).contains(#[trigger] names[i]) by {
            if i < init.len() {
                assert(init[i] == names[i]);
                let j = choose|j: int| 0 <= j < k.len() && k[j] == init[i];
                assert(k.push(names.last())[j] == k[j]);
            } else {
                assert(names[i] == names.last());
                assert(k.push(names.last())[k.len() as int] == names.last());
            }
        }
        assert forall|x: Seq<char>| offered_interfaces(names).contains(x) implies names.contains(x) && x != "lo"@
            && !has_prefix(x, "veth"@) && !has_prefix(x, "docker"@) && !has_prefix(x, "br-"@) by {
            let r = offered_interfaces(names);
            let j = choose|j: int| 0 <= j < r.len() && r[j] == x;
            if j < k.len() {
                assert(r[j] == k[j]);
                assert(k.contains(x));
                assert(init.contains(x));
                let m = choose|m: int| 0 <= m < init.len() && init[m] == x;
                assert(names[m] == init[m]);
            } else {
                assert(x == names.last());
                assert(names[names.len() - 1] == names.last());
            }
        }
    }
}

} // verus!
