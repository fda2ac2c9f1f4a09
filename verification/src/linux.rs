//! Network sharing on Linux: reading the forwarding state out of `/proc`,
//! `iptables -t nat -S` and `ss`, and the root commands that start and
//! stop sharing.
use vstd::prelude::*;
use crate::report::{
    CommandOutput, SystemReport, masquerade_rules, is_masquerade_rule, port_rules, own_flow_lines, text_or_empty,
    succeeded_lines, skip_n, reads_one, text_reads_one, sort_nat_rules, own_flows, lines_after,
};
use crate::text::{
    views, lines, lines_of, run_len, lemma_run_len_is, strip_cr, contains, is_newline, words, words_of, str_eq, join, join_with, lemma_views_push, is_whitespace,
    lemma_words_word_first, lemma_words_space_first,
};

verus! {

/// The report built from what the four probes returned: the content of
/// `/proc/sys/net/ipv4/ip_forward`, `iptables -t nat -S`, `ss -tlnpu` and
/// `ss -apn` (`None` where a probe could not be read or started).
pub open spec fn linux_report_holds(
    ip_forward: Option<String>,
    nat_rules: Option<CommandOutput>,
    listening: Option<CommandOutput>,
    sockets: Option<CommandOutput>,
    r: SystemReport,
) -> bool {
    &&& r.ip_forward_enabled == reads_one(text_or_empty(ip_forward))
    &&& match succeeded_lines(nat_rules) {
        Some(ls) => {
            &&& views(r.nat_masquerade@) == masquerade_rules(ls)
            &&& views(r.port_forwards@) == port_rules(ls)
            &&& !r.iptables_failed
        },
        None => {
            &&& r.nat_masquerade@.len() == 0
            &&& r.port_forwards@.len() == 0
            &&& r.iptables_failed
        },
    }
    &&& views(r.listening_ports@) == match succeeded_lines(listening) {
        Some(ls) => skip_n(ls, 1),
        None => seq![],
    }
    &&& views(r.active_connections@) == match succeeded_lines(sockets) {
        Some(ls) => own_flow_lines(ls),
        None => seq![],
    }
}

/// Builds the system report from the probes' results.
pub fn report_from_outputs(
    ip_forward: Option<String>,
    nat_rules: Option<CommandOutput>,
    listening: Option<CommandOutput>,
    sockets: Option<CommandOutput>,
) -> (res: SystemReport)
    ensures
        linux_report_holds(ip_forward, nat_rules, listening, sockets, res),
{
    let ip_forward_enabled = match &ip_forward {
        Some(content) => text_reads_one(content.as_str()),
        None => text_reads_one(""),
    };
    proof {
        if ip_forward is None {
            assert(""@.len() == 0) by {
                reveal_strlit("");
            }
            assert(""@ =~= Seq::<char>::empty());
        }
    }
    let mut nat_masquerade: Vec<String> = Vec::new();
    let mut port_forwards: Vec<String> = Vec::new();
    let mut iptables_failed = false;
    match &nat_rules {
        Some(out) => {
            if out.success {
                let ls = lines_of(out.stdout.as_str());
                let (m, p) = sort_nat_rules(&ls);
                nat_masquerade = m;
                port_forwards = p;
            } else {
                iptables_failed = true;
            }
        },
        None => {
            iptables_failed = true;
        },
    }
    let mut listening_ports: Vec<String> = Vec::new();
    if let Some(out) = &listening {
        if out.success {
            listening_ports = lines_after(out.stdout.as_str(), 1);
        }
    }
    let mut active_connections: Vec<String> = Vec::new();
    if let Some(out) = &sockets {
        if out.success {
            let ls = lines_of(out.stdout.as_str());
            active_connections = own_flows(&ls);
        }
    }
    proof {
        assert(views(Seq::<String>::empty()) =~= Seq::<Seq<char>>::empty());
    }
    SystemReport {
        ip_forward_enabled,
        nat_masquerade,
        port_forwards,
        listening_ports,
        active_connections,
        iptables_failed,
    }
}

/// Index of the first occurrence of `x` in `parts`.
pub open spec fn first_index(parts: Seq<Seq<char>>, x: Seq<char>) -> Option<int>
    decreases parts.len(),
{
    if parts.len() == 0 {
        None
    } else {
        match first_index(parts.drop_last(), x) {
            Some(k) => Some(k),
            None => if parts.last() == x {
                Some(parts.len() - 1)
            } else {
                None
            },
        }
    }
}

/// The interface named after the first `-o` word of a rule, if a word follows it.
pub open spec fn out_interface(rule: Seq<char>) -> Option<Seq<char>> {
    let parts = words(rule);
    match first_index(parts, "-o"@) {
        Some(p) => if p + 1 < parts.len() {
            Some(parts[p + 1])
        } else {
            None
        },
        None => None,
    }
}

/// The outgoing interfaces named by masquerade rules, in rule order.
pub open spec fn active_wans(rules: Seq<Seq<char>>) -> Seq<Seq<char>>
    decreases rules.len(),
{
    if rules.len() == 0 {
        seq![]
    } else {
        match out_interface(rules.last()) {
            Some(w) => active_wans(rules.drop_last()).push(w),
            None => active_wans(rules.drop_last()),
        }
    }
}

/// The position of the first `-o` word, as `Iterator::position` finds it.
fn find_out_flag(parts: &Vec<String>) -> (res: Option<usize>)
    ensures
        match res {
            Some(p) => p < parts@.len() && first_index(views(parts@), "-o"@) == Some(p as int),
            None => first_index(views(parts@), "-o"@) is None,
        },
{
    let ghost vs = views(parts@);
    let mut i: usize = 0;
    while i < parts.len()
        invariant
            vs == views(parts@),
            0 <= i <= parts@.len(),
            first_index(vs.take(i as int), "-o"@) is None,
        decreases parts@.len() - i,
    {
        assert(vs.take(i + 1).drop_last() =~= vs.take(i as int));
        if str_eq(parts[i].as_str(), "-o") {
            proof {
                lemma_first_index_prefix(vs, i + 1);
            }
            return Some(i);
        }
        i = i + 1;
    }
    assert(vs.take(i as int) =~= vs);
    None
}

/// Finding an element in a prefix finds it in the whole sequence.
proof fn lemma_first_index_prefix(s: Seq<Seq<char>>, n: int)
    requires
        0 <= n <= s.len(),
        first_index(s.take(n), "-o"@) is Some,
    ensures
        first_index(s, "-o"@) == first_index(s.take(n), "-o"@),
    decreases s.len() - n,
{
    if n == s.len() {
        assert(s.take(n) =~= s);
    } else {
        assert(s.take(n + 1).drop_last() =~= s.take(n));
        lemma_first_index_prefix(s, n + 1);
    }
}

/// Reads the sharing state out of a report: sharing counts as active when
/// the kernel forwards and some masquerade rule names an outgoing interface.
/// Returns whether it is active, those interfaces, and whether the NAT table
/// could not be read.
pub fn detect_system_forward_status(report: &SystemReport) -> (res: (bool, Vec<String>, bool))
    ensures
        views(res.1@) == active_wans(views(report.nat_masquerade@)),
        res.0 == (report.ip_forward_enabled && res.1@.len() > 0),
        res.2 == report.iptables_failed,
{
    let ghost rs = views(report.nat_masquerade@);
    let mut active_wans_found: Vec<String> = Vec::new();
    for i in 0..report.nat_masquerade.len()
        invariant
            rs == views(report.nat_masquerade@),
            views(active_wans_found@) == active_wans(rs.take(i as int)),
    {
        let rule = report.nat_masquerade[i].as_str();
        let parts = words_of(rule);
        proof {
            assert(rs.take(i + 1).drop_last() =~= rs.take(i as int));
            assert(rs[i as int] == rule@);
        }
        if let Some(pos) = find_out_flag(&parts) {
            assert(pos < parts.len());
            if pos + 1 < parts.len() {
                let iface = parts[pos + 1].clone();
                proof {
                    lemma_views_push(active_wans_found@, iface);
                }
                active_wans_found.push(iface);
            }
        }
    }
    assert(rs.take(report.nat_masquerade@.len() as int) =~= rs);
    let active = report.ip_forward_enabled && active_wans_found.len() > 0;
    (active, active_wans_found, report.iptables_failed)
}

/// The `iptables` command that appends a rule: `table` selects the table
/// (empty for the filter table), `body` names the chain and the match.
pub open spec fn append_command(table: Seq<char>, body: Seq<char>) -> Seq<char> {
    "iptables "@ + table + "-A "@ + body
}

/// The `iptables` command that deletes a rule, tolerating its absence.
pub open spec fn delete_command(table: Seq<char>, body: Seq<char>) -> Seq<char> {
    "iptables "@ + table + "-D "@ + body + " 2>/dev/null || true"@
}

/// The three rules that share `wan` with `lan`: masquerade what leaves
/// through `wan`, let replies in from `wan` to `lan`, and let `lan` out to `wan`.
pub open spec fn share_rules(wan: Seq<char>, lan: Seq<char>) -> Seq<(Seq<char>, Seq<char>)> {
    seq![
        ("-t nat "@, "POSTROUTING -o "@ + wan + " -j MASQUERADE"@),
        (""@, "FORWARD -i "@ + wan + " -o "@ + lan + " -m state --state RELATED,ESTABLISHED -j ACCEPT"@),
        (""@, "FORWARD -i "@ + lan + " -o "@ + wan + " -j ACCEPT"@),
    ]
}

/// For each rule of one outgoing interface: delete it, then append it.
pub open spec fn start_commands_for(wan: Seq<char>, lan: Seq<char>) -> Seq<Seq<char>> {
    let r = share_rules(wan, lan);
    seq![
        delete_command(r[0].0, r[0].1),
        append_command(r[0].0, r[0].1),
        delete_command(r[1].0, r[1].1),
        append_command(r[1].0, r[1].1),
        delete_command(r[2].0, r[2].1),
        append_command(r[2].0, r[2].1),
    ]
}

/// For each rule of one outgoing interface: delete it.
pub open spec fn stop_commands_for(wan: Seq<char>, lan: Seq<char>) -> Seq<Seq<char>> {
    let r = share_rules(wan, lan);
    seq![delete_command(r[0].0, r[0].1), delete_command(r[1].0, r[1].1), delete_command(r[2].0, r[2].1)]
}

/// The commands for each interface of `wans`, in order, one after the other.
pub open spec fn start_commands_all(wans: Seq<Seq<char>>, lan: Seq<char>) -> Seq<Seq<char>>
    decreases wans.len(),
{
    if wans.len() == 0 {
        seq![]
    } else {
        start_commands_all(wans.drop_last(), lan) + start_commands_for(wans.last(), lan)
    }
}

pub open spec fn stop_commands_all(wans: Seq<Seq<char>>, lan: Seq<char>) -> Seq<Seq<char>>
    decreases wans.len(),
{
    if wans.len() == 0 {
        seq![]
    } else {
        stop_commands_all(wans.drop_last(), lan) + stop_commands_for(wans.last(), lan)
    }
}

pub open spec fn enable_forwarding() -> Seq<char> {
    "echo 1 > /proc/sys/net/ipv4/ip_forward"@
}

pub open spec fn disable_forwarding() -> Seq<char> {
    "echo 0 > /proc/sys/net/ipv4/ip_forward"@
}

/// Turning forwarding on, giving `lan` its address and bringing it up.
pub open spec fn start_prelude(lan: Seq<char>, host_ip: Seq<char>, mask: Seq<char>) -> Seq<Seq<char>> {
    seq![
        enable_forwarding(),
        "ip addr add "@ + host_ip + "/"@ + mask + " dev "@ + lan + " 2>/dev/null || true"@,
        "ip link set "@ + lan + " up"@,
    ]
}

/// The commands that start sharing `wans` with `lan`.
pub open spec fn start_commands(wans: Seq<Seq<char>>, lan: Seq<char>, host_ip: Seq<char>, mask: Seq<char>) -> Seq<Seq<char>> {
    start_prelude(lan, host_ip, mask) + start_commands_all(wans, lan)
}

/// The commands that stop sharing `wans` with `lan`.
pub open spec fn stop_commands(wans: Seq<Seq<char>>, lan: Seq<char>) -> Seq<Seq<char>> {
    stop_commands_all(wans, lan) + seq![disable_forwarding()]
}

fn append_cmd(table: &str, body: &str) -> (res: String)
    ensures
        res@ == append_command(table@, body@),
{
    let mut c = String::from_str("iptables ");
    c.append(table);
    c.append("-A ");
    c.append(body);
    c
}

fn delete_cmd(table: &str, body: &str) -> (res: String)
    ensures
        res@ == delete_command(table@, body@),
{
    let mut c = String::from_str("iptables ");
    c.append(table);
    c.append("-D ");
    c.append(body);
    c.append(" 2>/dev/null || true");
    c
}

/// The table and body of each rule that shares `wan` with `lan`.
fn rules_for(wan: &str, lan: &str) -> (res: Vec<(String, String)>)
    ensures
        res@.len() == 3,
        forall|k: int| 0 <= k < 3 ==> (#[trigger] res@[k]).0@ == share_rules(wan@, lan@)[k].0
            && res@[k].1@ == share_rules(wan@, lan@)[k].1,
{
    let mut b0 = String::from_str("POSTROUTING -o ");
    b0.append(wan);
    b0.append(" -j MASQUERADE");
    let mut b1 = String::from_str("FORWARD -i ");
    b1.append(wan);
    b1.append(" -o ");
    b1.append(lan);
    b1.append(" -m state --state RELATED,ESTABLISHED -j ACCEPT");
    let mut b2 = String::from_str("FORWARD -i ");
    b2.append(lan);
    b2.append(" -o ");
    b2.append(wan);
    b2.append(" -j ACCEPT");
    let mut res: Vec<(String, String)> = Vec::new();
    res.push((String::from_str("-t nat "), b0));
    res.push((String::from_str(""), b1));
    res.push((String::from_str(""), b2));
    res
}

/// The root commands that start sharing the outgoing interfaces `wan_ifs`
/// with `lan_if`, which gets the address `host_ip/mask`: forwarding is
/// turned on, `lan_if` is addressed and brought up, and each sharing rule is
/// first deleted and then appended, so that a repeated start leaves one copy.
pub fn start_system_forwarding(wan_ifs: Vec<String>, lan_if: &str, host_ip: &str, mask: &str) -> (res: Vec<String>)
    ensures
        views(res@) == start_commands(views(wan_ifs@), lan_if@, host_ip@, mask@),
{
    let ghost ws = views(wan_ifs@);
    let mut commands: Vec<String> = Vec::new();
    commands.push(String::from_str("echo 1 > /proc/sys/net/ipv4/ip_forward"));
    let mut addr = String::from_str("ip addr add ");
    addr.append(host_ip);
    addr.append("/");
    addr.append(mask);
    addr.append(" dev ");
    addr.append(lan_if);
    addr.append(" 2>/dev/null || true");
    commands.push(addr);
    let mut up = String::from_str("ip link set ");
    up.append(lan_if);
    up.append(" up");
    commands.push(up);
    assert(views(commands@) =~= start_prelude(lan_if@, host_ip@, mask@));
    for i in 0..wan_ifs.len()
        invariant
            ws == views(wan_ifs@),
            views(commands@) == start_prelude(lan_if@, host_ip@, mask@) + start_commands_all(
                ws.take(i as int),
                lan_if@,
            ),
    {
        let rules = rules_for(wan_ifs[i].as_str(), lan_if);
        let ghost before = views(commands@);
        for k in 0..3
            invariant
                rules@.len() == 3,
                forall|q: int| 0 <= q < 3 ==> (#[trigger] rules@[q]).0@ == share_rules(wan_ifs@[i as int]@, lan_if@)[q].0
                    && rules@[q].1@ == share_rules(wan_ifs@[i as int]@, lan_if@)[q].1,
                views(commands@).len() == before.len() + 2 * k,
                forall|m: int| 0 <= m < before.len() ==> views(commands@)[m] == before[m],
                forall|m: int|
                    0 <= m < k ==> views(commands@)[before.len() + 2 * m] == delete_command(
                        rules@[m].0@,
                        rules@[m].1@,
                    ) && views(commands@)[before.len() + 2 * m + 1] == append_command(
                        rules@[m].0@,
                        rules@[m].1@,
                    ),
        {
            let d = delete_cmd(rules[k].0.as_str(), rules[k].1.as_str());
            let a = append_cmd(rules[k].0.as_str(), rules[k].1.as_str());
            proof {
                lemma_views_push(commands@, d);
                lemma_views_push(commands@.push(d), a);
            }
            commands.push(d);
            commands.push(a);
        }
        proof {
            assert(ws.take(i + 1).drop_last() =~= ws.take(i as int));
            assert(ws[i as int] == wan_ifs@[i as int]@);
            let r = share_rules(ws[i as int], lan_if@);
            let c = views(commands@);
            let b = before.len() as int;
            assert(rules@[0].0@ == r[0].0 && rules@[0].1@ == r[0].1);
            assert(rules@[1].0@ == r[1].0 && rules@[1].1@ == r[1].1);
            assert(rules@[2].0@ == r[2].0 && rules@[2].1@ == r[2].1);
            assert(c[b + 2 * 0] == delete_command(rules@[0].0@, rules@[0].1@));
            assert(c[b + 2 * 0 + 1] == append_command(rules@[0].0@, rules@[0].1@));
            assert(c[b + 2 * 1] == delete_command(rules@[1].0@, rules@[1].1@));
            assert(c[b + 2 * 1 + 1] == append_command(rules@[1].0@, rules@[1].1@));
            assert(c[b + 2 * 2] == delete_command(rules@[2].0@, rules@[2].1@));
            assert(c[b + 2 * 2 + 1] == append_command(rules@[2].0@, rules@[2].1@));
            assert(c =~= before + start_commands_for(ws[i as int], lan_if@));
        }
    }
    assert(ws.take(wan_ifs@.len() as int) =~= ws);
    commands
}

/// The root commands that stop sharing `wan_ifs` with `lan_if`: each
/// sharing rule is deleted, then forwarding is turned off.
pub fn stop_system_forwarding(wan_ifs: Vec<String>, lan_if: &str) -> (res: Vec<String>)
    ensures
        views(res@) == stop_commands(views(wan_ifs@), lan_if@),
{
    let ghost ws = views(wan_ifs@);
    let mut commands: Vec<String> = Vec::new();
    assert(views(commands@) =~= Seq::<Seq<char>>::empty());
    for i in 0..wan_ifs.len()
        invariant
            ws == views(wan_ifs@),
            views(commands@) == stop_commands_all(ws.take(i as int), lan_if@),
    {
        let rules = rules_for(wan_ifs[i].as_str(), lan_if);
        let ghost before = views(commands@);
        for k in 0..3
            invariant
                rules@.len() == 3,
                forall|q: int| 0 <= q < 3 ==> (#[trigger] rules@[q]).0@ == share_rules(wan_ifs@[i as int]@, lan_if@)[q].0
                    && rules@[q].1@ == share_rules(wan_ifs@[i as int]@, lan_if@)[q].1,
                views(commands@).len() == before.len() + k,
                forall|m: int| 0 <= m < before.len() ==> views(commands@)[m] == before[m],
                forall|m: int|
                    0 <= m < k ==> views(commands@)[before.len() + m] == delete_command(
                        rules@[m].0@,
                        rules@[m].1@,
                    ),
        {
            let d = delete_cmd(rules[k].0.as_str(), rules[k].1.as_str());
            proof {
                lemma_views_push(commands@, d);
            }
            commands.push(d);
        }
        proof {
            assert(ws.take(i + 1).drop_last() =~= ws.take(i as int));
            assert(ws[i as int] == wan_ifs@[i as int]@);
            let r = share_rules(ws[i as int], lan_if@);
            let c = views(commands@);
            let b = before.len() as int;
            assert(rules@[0].0@ == r[0].0 && rules@[0].1@ == r[0].1);
            assert(rules@[1].0@ == r[1].0 && rules@[1].1@ == r[1].1);
            assert(rules@[2].0@ == r[2].0 && rules@[2].1@ == r[2].1);
            assert(c[b + 0] == delete_command(rules@[0].0@, rules@[0].1@));
            assert(c[b + 1] == delete_command(rules@[1].0@, rules@[1].1@));
            assert(c[b + 2] == delete_command(rules@[2].0@, rules@[2].1@));
            assert(c =~= before + stop_commands_for(ws[i as int], lan_if@));
        }
    }
    assert(ws.take(wan_ifs@.len() as int) =~= ws);
    let off = String::from_str("echo 0 > /proc/sys/net/ipv4/ip_forward");
    proof {
        lemma_views_push(commands@, off);
    }
    commands.push(off);
    commands
}

/// The shell script that runs a batch of root commands, each only after
/// the previous one succeeded; none when there is nothing to run.
pub fn root_batch_script(commands: &Vec<String>) -> (res: Option<String>)
    ensures
        commands@.len() == 0 ==> res is None,
        commands@.len() > 0 ==> (res matches Some(s) && s@ == join(views(commands@), " && "@)),
{
    if commands.len() == 0 {
        None
    } else {
        Some(join_with(commands, " && "))
    }
}


proof fn lemma_start_all_layout(wans: Seq<Seq<char>>, lan: Seq<char>)
    ensures
        start_commands_all(wans, lan).len() == 6 * wans.len(),
        forall|k: int, m: int|
            0 <= k < wans.len() && 0 <= m < 6 ==> #[trigger] start_commands_all(wans, lan)[6 * k + m]
                == start_commands_for(wans[k], lan)[m],
    decreases wans.len(),
{
    if wans.len() > 0 {
        let init = wans.drop_last();
        lemma_start_all_layout(init, lan);
        assert forall|k: int, m: int|
            0 <= k < wans.len() && 0 <= m < 6 implies #[trigger] start_commands_all(wans, lan)[6 * k + m]
                == start_commands_for(wans[k], lan)[m] by {
            if k < init.len() {
                assert(start_commands_all(init, lan)[6 * k + m] == start_commands_for(init[k], lan)[m]);
            }
        }
    }
}

proof fn lemma_stop_all_layout(wans: Seq<Seq<char>>, lan: Seq<char>)
    ensures
        stop_commands_all(wans, lan).len() == 3 * wans.len(),
        forall|k: int, m: int|
            0 <= k < wans.len() && 0 <= m < 3 ==> #[trigger] stop_commands_all(wans, lan)[3 * k + m]
                == stop_commands_for(wans[k], lan)[m],
    decreases wans.len(),
{
    if wans.len() > 0 {
        let init = wans.drop_last();
        lemma_stop_all_layout(init, lan);
        assert forall|k: int, m: int|
            0 <= k < wans.len() && 0 <= m < 3 implies #[trigger] stop_commands_all(wans, lan)[3 * k + m]
                == stop_commands_for(wans[k], lan)[m] by {
            if k < init.len() {
                assert(stop_commands_all(init, lan)[3 * k + m] == stop_commands_for(init[k], lan)[m]);
            }
        }
    }
}

/// Stopping undoes starting: for the same interfaces, every rule that the
/// start commands append is deleted by the stop commands; starting turns
/// kernel forwarding on first and stopping turns it off last. Each append
/// in the start commands is directly preceded by the delete of the same
/// rule, so starting twice leaves each rule once.
pub proof fn lemma_stop_undoes_start(
    wans: Seq<Seq<char>>,
    lan: Seq<char>,
    host_ip: Seq<char>,
    mask: Seq<char>,
)
    ensures
        start_commands(wans, lan, host_ip, mask)[0] == enable_forwarding(),
        stop_commands(wans, lan).last() == disable_forwarding(),
        forall|k: int, j: int|
            0 <= k < wans.len() && 0 <= j < 3 ==> {
                let r = #[trigger] share_rules(wans[k], lan)[j];
                &&& start_commands(wans, lan, host_ip, mask).contains(append_command(r.0, r.1))
                &&& stop_commands(wans, lan).contains(delete_command(r.0, r.1))
            },
        forall|k: int, j: int|
            0 <= k < wans.len() && 0 <= j < 3 ==> {
                let r = #[trigger] share_rules(wans[k], lan)[j];
                &&& start_commands(wans, lan, host_ip, mask)[3 + 6 * k + 2 * j] == delete_command(r.0, r.1)
                &&& start_commands(wans, lan, host_ip, mask)[3 + 6 * k + 2 * j + 1] == append_command(r.0, r.1)
            },
{
    lemma_start_all_layout(wans, lan);
    lemma_stop_all_layout(wans, lan);
    let st = start_commands(wans, lan, host_ip, mask);
    let sp = stop_commands(wans, lan);
    assert forall|k: int, j: int| 0 <= k < wans.len() && 0 <= j < 3 implies {
        let r = #[trigger] share_rules(wans[k], lan)[j];
        &&& st.contains(append_command(r.0, r.1))
        &&& sp.contains(delete_command(r.0, r.1))
    } by {
        let r = share_rules(wans[k], lan)[j];
        assert(start_commands_all(wans, lan)[6 * k + (2 * j + 1)] == start_commands_for(wans[k], lan)[2 * j + 1]);
        assert(st[3 + 6 * k + 2 * j + 1] == append_command(r.0, r.1));
        assert(stop_commands_all(wans, lan)[3 * k + j] == stop_commands_for(wans[k], lan)[j]);
        assert(sp[3 * k + j] == delete_command(r.0, r.1));
    }
    assert forall|k: int, j: int| 0 <= k < wans.len() && 0 <= j < 3 implies {
        let r = #[trigger] share_rules(wans[k], lan)[j];
        &&& st[3 + 6 * k + 2 * j] == delete_command(r.0, r.1)
        &&& st[3 + 6 * k + 2 * j + 1] == append_command(r.0, r.1)
    } by {
        assert(start_commands_all(wans, lan)[6 * k + (2 * j)] == start_commands_for(wans[k], lan)[2 * j]);
        assert(start_commands_all(wans, lan)[6 * k + (2 * j + 1)] == start_commands_for(wans[k], lan)[2 * j + 1]);
    }
}


/// A masquerade rule for `wan` as `iptables -S` lists it.
pub open spec fn listed_masquerade_rule(wan: Seq<char>) -> Seq<char> {
    "-A POSTROUTING -o "@ + wan + " -j MASQUERADE"@
}

/// An interface name that `iptables` prints as one word.
pub open spec fn is_plain_name(w: Seq<char>) -> bool {
    w.len() > 0 && forall|m: int| 0 <= m < w.len() ==> !is_whitespace(#[trigger] w[m])
}

proof fn lemma_out_interface_of_listed_rule(wan: Seq<char>)
    requires
        is_plain_name(wan),
    ensures
        out_interface(listed_masquerade_rule(wan)) == Some(wan),
{
    reveal_strlit("-A POSTROUTING -o ");
    reveal_strlit(" -j MASQUERADE");
    reveal_strlit("-o");
    let sp = seq![' '];
    let a = seq!['-', 'A'];
    let post = seq!['P', 'O', 'S', 'T', 'R', 'O', 'U', 'T', 'I', 'N', 'G'];
    let o = seq!['-', 'o'];
    let j = seq!['-', 'j'];
    let masq = seq!['M', 'A', 'S', 'Q', 'U', 'E', 'R', 'A', 'D', 'E'];
    let e = Seq::<char>::empty();
    let r6 = masq + e;
    let r5 = sp + r6;
    let r4 = j + r5;
    let r3 = sp + r4;
    let r2 = wan + r3;
    let r1 = sp + r2;
    let q3 = o + r1;
    let q2 = sp + q3;
    let q1 = post + q2;
    let q0 = sp + q1;
    let whole = a + q0;
    assert(listed_masquerade_rule(wan) =~= whole);
    assert(masq + e =~= masq);
    lemma_words_word_first(masq, e);
    lemma_words_space_first(' ', r6);
    lemma_words_word_first(j, r5);
    lemma_words_space_first(' ', r4);
    lemma_words_word_first(wan, r3);
    lemma_words_space_first(' ', r2);
    lemma_words_word_first(o, r1);
    lemma_words_space_first(' ', q3);
    lemma_words_word_first(post, q2);
    lemma_words_space_first(' ', q1);
    lemma_words_word_first(a, q0);
    let parts = seq![a, post, o, wan, j, masq];
    assert(words(whole) =~= parts);
    assert("-o"@ =~= o);
    assert(a != o) by {
        assert(a[1] != o[1]);
    }
    assert(post != o) by {
        assert(post.len() != o.len());
    }
    assert(parts.take(1).drop_last() =~= Seq::<Seq<char>>::empty());
    assert(parts.take(1).last() == a);
    assert(first_index(Seq::<Seq<char>>::empty(), "-o"@) is None);
    assert(first_index(parts.take(1), "-o"@) is None);
    assert(parts.take(2).drop_last() =~= parts.take(1));
    assert(parts.take(2).last() == post);
    assert(first_index(parts.take(2), "-o"@) is None);
    assert(parts.take(3).drop_last() =~= parts.take(2));
    assert(parts.take(3).last() == o);
    assert(first_index(parts.take(3), "-o"@) == Some(2int));
    lemma_first_index_prefix(parts, 3);
}

/// Detection recognises a started share: when the kernel forwards and the
/// NAT table lists exactly the masquerade rules that starting the share
/// for `wans` appended (each interface name one nonempty word), detection
/// reports sharing as active on exactly `wans`, in order.
pub proof fn lemma_detect_recognises_started_share(wans: Seq<Seq<char>>)
    requires
        forall|k: int| 0 <= k < wans.len() ==> is_plain_name(#[trigger] wans[k]),
    ensures
        active_wans(listed_masquerade_rules(wans)) == wans,
    decreases wans.len(),
{
    let rules = listed_masquerade_rules(wans);
    if wans.len() > 0 {
        let init = wans.drop_last();
        assert(rules.drop_last() =~= listed_masquerade_rules(init));
        lemma_detect_recognises_started_share(init);
        lemma_out_interface_of_listed_rule(wans.last());
        assert(rules.last() == listed_masquerade_rule(wans.last()));
        assert(init.push(wans.last()) =~= wans);
    }
}


/// Command output made of the given lines, each ended by a newline.
pub open spec fn listing(ls: Seq<Seq<char>>) -> Seq<char>
    decreases ls.len(),
{
    if ls.len() == 0 {
        seq![]
    } else {
        ls[0] + seq!['\n'] + listing(ls.drop_first())
    }
}

/// The masquerade rules that starting a share for `wans` appends, as listed.
pub open spec fn listed_masquerade_rules(wans: Seq<Seq<char>>) -> Seq<Seq<char>> {
    wans.map_values(|w: Seq<char>| listed_masquerade_rule(w))
}

/// Text that fits on one line of output: no newline in it, and no carriage
/// return at its end.
pub open spec fn is_single_line(l: Seq<char>) -> bool {
    &&& forall|m: int| 0 <= m < l.len() ==> !is_newline(#[trigger] l[m])
    &&& (l.len() == 0 || l.last() != '\r')
}

/// Reading the lines of a listing gives back the listed lines.
pub proof fn lemma_lines_of_listing(ls: Seq<Seq<char>>)
    requires
        forall|i: int| 0 <= i < ls.len() ==> is_single_line(#[trigger] ls[i]),
    ensures
        lines(listing(ls)) == ls,
    decreases ls.len(),
{
    if ls.len() > 0 {
        let l = ls[0];
        let rest = ls.drop_first();
        assert forall|i: int| 0 <= i < rest.len() implies is_single_line(#[trigger] rest[i]) by {
            assert(rest[i] == ls[i + 1]);
        }
        lemma_lines_of_listing(rest);
        assert(is_single_line(ls[0]));
        let s = listing(ls);
        let n = l.len() as int;
        let stop = |c: char| is_newline(c);
        assert forall|m: int| 0 <= m < n implies !stop(#[trigger] s[m]) by {
            assert(s[m] == l[m]);
        }
        assert(s[n] == '\n');
        lemma_run_len_is(s, stop, n);
        assert(s.take(n) =~= l);
        assert(s.skip(n + 1) =~= listing(rest));
        assert(strip_cr(l) == l);
        assert(lines(s) =~= seq![l] + rest);
        assert(seq![l] + rest =~= ls);
    }
}

proof fn lemma_listed_rule_facts(wan: Seq<char>)
    requires
        is_plain_name(wan),
    ensures
        is_masquerade_rule(listed_masquerade_rule(wan)),
{
    reveal_strlit(" -j MASQUERADE");
    reveal_strlit("MASQUERADE");
    let r = listed_masquerade_rule(wan);
    let i = r.len() - 10;
    assert(r.subrange(i, i + 10) =~= "MASQUERADE"@);
}

proof fn lemma_masquerade_rules_keep_all(ls: Seq<Seq<char>>)
    requires
        forall|i: int| 0 <= i < ls.len() ==> is_masquerade_rule(#[trigger] ls[i]),
    ensures
        masquerade_rules(ls) == ls,
    decreases ls.len(),
{
    if ls.len() > 0 {
        let init = ls.drop_last();
        assert forall|i: int| 0 <= i < init.len() implies is_masquerade_rule(#[trigger] init[i]) by {
            assert(init[i] == ls[i]);
        }
        lemma_masquerade_rules_keep_all(init);
        assert(is_masquerade_rule(ls[ls.len() - 1]));
        assert(init.push(ls.last()) =~= ls);
    }
}

/// A listed masquerade rule is one line of output: it holds no whitespace
/// that ends a line, and does not end in a carriage return.
proof fn lemma_listed_rule_is_one_line(wan: Seq<char>)
    requires
        is_plain_name(wan),
    ensures
        is_single_line(listed_masquerade_rule(wan)),
{
    reveal_strlit("-A POSTROUTING -o ");
    reveal_strlit(" -j MASQUERADE");
    let r = listed_masquerade_rule(wan);
    let a = "-A POSTROUTING -o "@;
    let b = " -j MASQUERADE"@;
    assert forall|m: int| 0 <= m < r.len() implies !is_newline(#[trigger] r[m]) by {
        if m < a.len() {
            assert(r[m] == a[m]);
        } else if m < a.len() + wan.len() {
            assert(r[m] == wan[m - a.len()]);
            assert(!is_whitespace(wan[m - a.len()]));
        } else {
            assert(r[m] == b[m - a.len() - wan.len()]);
        }
    }
    assert(r.last() == b.last());
}


/// A started share is read back: when the kernel forwards and
/// `iptables -t nat -S` lists the masquerade rules that starting the share
/// for `wans` appended, the report holds exactly those rules, the NAT table
/// counts as read, and detection finds sharing active on exactly `wans`.
pub proof fn lemma_started_share_is_detected(
    wans: Seq<Seq<char>>,
    ip_forward: Option<String>,
    nat_rules: Option<CommandOutput>,
    listening: Option<CommandOutput>,
    sockets: Option<CommandOutput>,
    r: SystemReport,
)
    requires
        wans.len() > 0,
        forall|k: int| 0 <= k < wans.len() ==> is_plain_name(#[trigger] wans[k]),
        reads_one(text_or_empty(ip_forward)),
        nat_rules matches Some(out) && out.success && out.stdout@ == listing(listed_masquerade_rules(wans)),
        linux_report_holds(ip_forward, nat_rules, listening, sockets, r),
    ensures
        r.ip_forward_enabled,
        !r.iptables_failed,
        views(r.nat_masquerade@) == listed_masquerade_rules(wans),
        active_wans(views(r.nat_masquerade@)) == wans,
        r.ip_forward_enabled && active_wans(views(r.nat_masquerade@)).len() > 0,
{
    let rules = listed_masquerade_rules(wans);
    assert forall|i: int| 0 <= i < rules.len() implies is_single_line(#[trigger] rules[i]) by {
        lemma_listed_rule_is_one_line(wans[i]);
    }
    assert forall|i: int| 0 <= i < rules.len() implies is_masquerade_rule(#[trigger] rules[i]) by {
        lemma_listed_rule_facts(wans[i]);
    }
    lemma_lines_of_listing(rules);
    lemma_masquerade_rules_keep_all(rules);
    lemma_detect_recognises_started_share(wans);
}


proof fn lemma_first_index_absent(s: Seq<Seq<char>>)
    requires
        !s.contains("-o"@),
    ensures
        first_index(s, "-o"@) is None,
    decreases s.len(),
{
    if s.len() > 0 {
        let init = s.drop_last();
        assert(!init.contains("-o"@)) by {
            if init.contains("-o"@) {
                let j = choose|j: int| 0 <= j < init.len() && init[j] == "-o"@;
                assert(s[j] == init[j]);
            }
        }
        lemma_first_index_absent(init);
        assert(s[s.len() - 1] == s.last());
    }
}

/// The outgoing interface of a rule is the word right after its first `-o`,
/// wherever that `-o` stands; a rule without an `-o` word names none.
pub proof fn lemma_out_interface_follows_first_o(
    rule: Seq<char>,
    pre: Seq<Seq<char>>,
    wan: Seq<char>,
    post: Seq<Seq<char>>,
)
    requires
        words(rule) == pre + seq!["-o"@, wan] + post,
        !pre.contains("-o"@),
    ensures
        out_interface(rule) == Some(wan),
{
    let parts = words(rule);
    let n = pre.len() as int;
    assert(parts.take(n) =~= pre);
    lemma_first_index_absent(pre);
    assert(parts.take(n + 1).drop_last() =~= pre);
    assert(parts.take(n + 1).last() == "-o"@);
    assert(first_index(parts.take(n + 1), "-o"@) == Some(n));
    lemma_first_index_prefix(parts, n + 1);
    assert(parts[n + 1] == wan);
}

/// A rule whose words hold no `-o` names no outgoing interface.
pub proof fn lemma_no_o_no_interface(rule: Seq<char>)
    requires
        !words(rule).contains("-o"@),
    ensures
        out_interface(rule) is None,
{
    lemma_first_index_absent(words(rule));
}

/// Detection lists the word after the first `-o` of every masquerade rule:
/// when rule `i` reads `pre -o wan post` with no `-o` in `pre`, `wan` is
/// among the active outgoing interfaces.
pub proof fn lemma_detect_lists_each_out_interface(
    rules: Seq<Seq<char>>,
    i: int,
    pre: Seq<Seq<char>>,
    wan: Seq<char>,
    post: Seq<Seq<char>>,
)
    requires
        0 <= i < rules.len(),
        words(rules[i]) == pre + seq!["-o"@, wan] + post,
        !pre.contains("-o"@),
    ensures
        active_wans(rules).contains(wan),
    decreases rules.len(),
{
    lemma_out_interface_follows_first_o(rules[i], pre, wan, post);
    let init = rules.drop_last();
    if i == rules.len() - 1 {
        assert(rules.last() == rules[i]);
        let a = active_wans(init).push(wan);
        assert(a[a.len() - 1] == wan);
    } else {
        assert(init[i] == rules[i]);
        lemma_detect_lists_each_out_interface(init, i, pre, wan, post);
        let a0 = active_wans(init);
        let j = choose|j: int| 0 <= j < a0.len() && a0[j] == wan;
        match out_interface(rules.last()) {
            Some(w) => {
                assert(a0.push(w)[j] == wan);
            },
            None => {},
        }
    }
}

} // verus!
