//! The snapshot of the host's forwarding state, and the line filters
//! that read it out of command output.
use vstd::prelude::*;
use crate::text::{
    contains, lemma_views_push, lines, lines_of, str_contains, str_eq, trim, trim_of, views,
};

verus! {

/// What the system monitor shows: kernel forwarding, NAT and port rules,
/// listening sockets and this program's own connections.
#[derive(Debug, Clone)]
pub struct SystemReport {
    pub ip_forward_enabled: bool,
    pub nat_masquerade: Vec<String>,
    pub port_forwards: Vec<String>,
    pub listening_ports: Vec<String>,
    pub active_connections: Vec<String>,
    pub iptables_failed: bool,
}

/// A network interface of the host.
#[derive(Debug, Clone)]
pub struct InterfaceInfo {
    pub name: String,
}

/// What a finished command gave back: whether it exited successfully,
/// and its standard output as text.
#[derive(Debug, Clone)]
pub struct CommandOutput {
    pub success: bool,
    pub stdout: String,
}

/// The text of an optional value, empty when there is none.
pub open spec fn text_or_empty(o: Option<String>) -> Seq<char> {
    match o {
        Some(s) => s@,
        None => seq![],
    }
}

/// The lines of a command's output, provided that it ran and succeeded.
pub open spec fn succeeded_lines(o: Option<CommandOutput>) -> Option<Seq<Seq<char>>> {
    match o {
        Some(out) => if out.success {
            Some(lines(out.stdout@))
        } else {
            None
        },
        None => None,
    }
}

/// `ls` without its first `n` entries (all of them when it has fewer).
pub open spec fn skip_n(ls: Seq<Seq<char>>, n: int) -> Seq<Seq<char>> {
    if ls.len() <= n {
        seq![]
    } else {
        ls.skip(n)
    }
}

/// Whether a text, trimmed, reads exactly `1`.
pub open spec fn reads_one(s: Seq<char>) -> bool {
    trim(s) == "1"@
}

pub open spec fn is_masquerade_rule(l: Seq<char>) -> bool {
    contains(l, "MASQUERADE"@)
}

pub open spec fn is_port_rule(l: Seq<char>) -> bool {
    !contains(l, "MASQUERADE"@) && (contains(l, "DNAT"@) || contains(l, "REDIRECT"@))
}

pub open spec fn is_own_flow(l: Seq<char>) -> bool {
    contains(l, "conduit"@) && (contains(l, "ESTAB"@) || contains(l, "LISTEN"@) || contains(
        l,
        "UNCONN"@,
    ))
}

/// The lines that are masquerade rules, in order.
pub open spec fn masquerade_rules(ls: Seq<Seq<char>>) -> Seq<Seq<char>>
    decreases ls.len(),
{
    if ls.len() == 0 {
        seq![]
    } else if is_masquerade_rule(ls.last()) {
        masquerade_rules(ls.drop_last()).push(ls.last())
    } else {
        masquerade_rules(ls.drop_last())
    }
}

/// The lines that are port-forward rules, in order.
pub open spec fn port_rules(ls: Seq<Seq<char>>) -> Seq<Seq<char>>
    decreases ls.len(),
{
    if ls.len() == 0 {
        seq![]
    } else if is_port_rule(ls.last()) {
        port_rules(ls.drop_last()).push(ls.last())
    } else {
        port_rules(ls.drop_last())
    }
}

/// The lines that show this program's own sockets, in order.
pub open spec fn own_flow_lines(ls: Seq<Seq<char>>) -> Seq<Seq<char>>
    decreases ls.len(),
{
    if ls.len() == 0 {
        seq![]
    } else if is_own_flow(ls.last()) {
        own_flow_lines(ls.drop_last()).push(ls.last())
    } else {
        own_flow_lines(ls.drop_last())
    }
}

/// Whether the text reads `1` once surrounding whitespace is removed.
pub fn text_reads_one(s: &str) -> (res: bool)
    ensures
        res == reads_one(s@),
{
    let t = trim_of(s);
    str_eq(t.as_str(), "1")
}

/// Splits rule lines into the masquerade rules and the port-forward rules.
pub fn sort_nat_rules(ls: &Vec<String>) -> (res: (Vec<String>, Vec<String>))
    ensures
        views(res.0@) == masquerade_rules(views(ls@)),
        views(res.1@) == port_rules(views(ls@)),
{
    let ghost vs = views(ls@);
    let mut masq: Vec<String> = Vec::new();
    let mut ports: Vec<String> = Vec::new();
    for i in 0..ls.len()
        invariant
            vs == views(ls@),
            views(masq@) == masquerade_rules(vs.take(i as int)),
            views(ports@) == port_rules(vs.take(i as int)),
    {
        let line = ls[i].as_str();
        proof {
            assert(vs.take(i + 1).drop_last() =~= vs.take(i as int));
            assert(vs[i as int] == line@);
        }
        if str_contains(line, "MASQUERADE") {
            let piece = ls[i].clone();
            proof {
                lemma_views_push(masq@, piece);
            }
            masq.push(piece);
        } else if str_contains(line, "DNAT") || str_contains(line, "REDIRECT") {
            let piece = ls[i].clone();
            proof {
                lemma_views_push(ports@, piece);
            }
            ports.push(piece);
        }
    }
    assert(vs.take(ls.len() as int) =~= vs);
    (masq, ports)
}

/// The lines that show this program's established, listening or bound sockets.
pub fn own_flows(ls: &Vec<String>) -> (res: Vec<String>)
    ensures
        views(res@) == own_flow_lines(views(ls@)),
{
    let ghost vs = views(ls@);
    let mut out: Vec<String> = Vec::new();
    for i in 0..ls.len()
        invariant
            vs == views(ls@),
            views(out@) == own_flow_lines(vs.take(i as int)),
    {
        let line = ls[i].as_str();
        proof {
            assert(vs.take(i + 1).drop_last() =~= vs.take(i as int));
            assert(vs[i as int] == line@);
        }
        if str_contains(line, "conduit") && (str_contains(line, "ESTAB") || str_contains(
            line,
            "LISTEN",
        ) || str_contains(line, "UNCONN")) {
            let piece = ls[i].clone();
            proof {
                lemma_views_push(out@, piece);
            }
            out.push(piece);
        }
    }
    assert(vs.take(ls.len() as int) =~= vs);
    out
}

/// The lines of `text` after the first `n`.
pub fn lines_after(text: &str, n: usize) -> (res: Vec<String>)
    ensures
        views(res@) == skip_n(lines(text@), n as int),
{
    let ls = lines_of(text);
    let ghost vs = views(ls@);
    let mut out: Vec<String> = Vec::new();
    let mut i: usize = n;
    while i < ls.len()
        invariant
            vs == views(ls@),
            n <= i <= ls@.len() || (i == n && n > ls@.len()),
            i <= ls@.len() ==> views(out@) == vs.subrange(n as int, i as int),
            i > ls@.len() ==> out@.len() == 0,
        decreases ls@.len() - i,
    {
        let piece = ls[i].clone();
        proof {
            lemma_views_push(out@, piece);
            assert(vs.subrange(n as int, i + 1) =~= vs.subrange(n as int, i as int).push(vs[i as int]));
        }
        out.push(piece);
        i = i + 1;
    }
    proof {
        if ls@.len() <= n {
            assert(views(out@) =~= Seq::<Seq<char>>::empty());
        } else {
            assert(vs.subrange(n as int, vs.len() as int) =~= vs.skip(n as int));
        }
    }
    out
}


/// The monitor's flows are exactly the lines that mention `conduit` and one
/// of the socket states `ESTAB`, `LISTEN` or `UNCONN`.
pub proof fn lemma_own_flows_are_exactly(ls: Seq<Seq<char>>)
    ensures
        forall|i: int| 0 <= i < ls.len() && (contains(ls[i], "conduit"@) && (contains(ls[i], "ESTAB"@) || contains(ls[i], "LISTEN"@) || contains(ls[i], "UNCONN"@))) ==> own_flow_lines(ls).contains(#[trigger] ls[i]),
        forall|x: Seq<char>| own_flow_lines(ls).contains(x) ==> ls.contains(x) && (contains(x, "conduit"@) && (contains(x, "ESTAB"@) || contains(x, "LISTEN"@) || contains(x, "UNCONN"@))),
    decreases ls.len(),
{
    if ls.len() > 0 {
        let init = ls.drop_last();
        lemma_own_flows_are_exactly(init);
        let k = own_flow_lines(init);
        assert forall|i: int| 0 <= i < ls.len() && (contains(ls[i], "conduit"@) && (contains(ls[i], "ESTAB"@) || contains(ls[i], "LISTEN"@) || contains(ls[i], "UNCONN"@))) implies own_flow_lines(ls).contains(#[trigger] ls[i]) by {
            if i < init.len() {
                assert(init[i] == ls[i]);
                let j = choose|j: int| 0 <= j < k.len() && k[j] == init[i];
                assert(k.push(ls.last())[j] == k[j]);
            } else {
                assert(ls[i] == ls.last());
                assert(k.push(ls.last())[k.len() as int] == ls.last());
            }
        }
        assert forall|x: Seq<char>| own_flow_lines(ls).contains(x) implies ls.contains(x) && (contains(x, "conduit"@) && (contains(x, "ESTAB"@) || contains(x, "LISTEN"@) || contains(x, "UNCONN"@))) by {
            let r = own_flow_lines(ls);
            let j = choose|j: int| 0 <= j < r.len() && r[j] == x;
            if j < k.len() {
                assert(r[j] == k[j]);
                assert(k.contains(x));
                assert(init.contains(x));
                let m = choose|m: int| 0 <= m < init.len() && init[m] == x;
                assert(ls[m] == init[m]);
                assert(ls.contains(x));
            } else {
                assert(x == ls.last());
                assert(ls[ls.len() - 1] == ls.last());
            }
        }
    }
}

/// The NAT section holds exactly the rule lines that mention `MASQUERADE`.
pub proof fn lemma_masquerade_rules_are_exactly(ls: Seq<Seq<char>>)
    ensures
        forall|i: int| 0 <= i < ls.len() && (contains(ls[i], "MASQUERADE"@)) ==> masquerade_rules(ls).contains(#[trigger] ls[i]),
        forall|x: Seq<char>| masquerade_rules(ls).contains(x) ==> ls.contains(x) && (contains(x, "MASQUERADE"@)),
    decreases ls.len(),
{
    if ls.len() > 0 {
        let init = ls.drop_last();
        lemma_masquerade_rules_are_exactly(init);
        let k = masquerade_rules(init);
        assert forall|i: int| 0 <= i < ls.len() && (contains(ls[i], "MASQUERADE"@)) implies masquerade_rules(ls).contains(#[trigger] ls[i]) by {
            if i < init.len() {
                assert(init[i] == ls[i]);
                let j = choose|j: int| 0 <= j < k.len() && k[j] == init[i];
                assert(k.push(ls.last())[j] == k[j]);
            } else {
                assert(ls[i] == ls.last());
                assert(k.push(ls.last())[k.len() as int] == ls.last());
            }
        }
        assert forall|x: Seq<char>| masquerade_rules(ls).contains(x) implies ls.contains(x) && (contains(x, "MASQUERADE"@)) by {
            let r = masquerade_rules(ls);
            let j = choose|j: int| 0 <= j < r.len() && r[j] == x;
            if j < k.len() {
                assert(r[j] == k[j]);
                assert(k.contains(x));
                assert(init.contains(x));
                let m = choose|m: int| 0 <= m < init.len() && init[m] == x;
                assert(ls[m] == init[m]);
                assert(ls.contains(x));
            } else {
                assert(x == ls.last());
                assert(ls[ls.len() - 1] == ls.last());
            }
        }
    }
}

/// The port-rule section holds exactly the rule lines that mention `DNAT`
/// or `REDIRECT` and are not masquerade rules.
pub proof fn lemma_port_rules_are_exactly(ls: Seq<Seq<char>>)
    ensures
        forall|i: int| 0 <= i < ls.len() && (!contains(ls[i], "MASQUERADE"@) && (contains(ls[i], "DNAT"@) || contains(ls[i], "REDIRECT"@))) ==> port_rules(ls).contains(#[trigger] ls[i]),
        forall|x: Seq<char>| port_rules(ls).contains(x) ==> ls.contains(x) && (!contains(x, "MASQUERADE"@) && (contains(x, "DNAT"@) || contains(x, "REDIRECT"@))),
    decreases ls.len(),
{
    if ls.len() > 0 {
        let init = ls.drop_last();
        lemma_port_rules_are_exactly(init);
        let k = port_rules(init);
        assert forall|i: int| 0 <= i < ls.len() && (!contains(ls[i], "MASQUERADE"@) && (contains(ls[i], "DNAT"@) || contains(ls[i], "REDIRECT"@))) implies port_rules(ls).contains(#[trigger] ls[i]) by {
            if i < init.len() {
                assert(init[i] == ls[i]);
                let j = choose|j: int| 0 <= j < k.len() && k[j] == init[i];
                assert(k.push(ls.last())[j] == k[j]);
            } else {
                assert(ls[i] == ls.last());
                assert(k.push(ls.last())[k.len() as int] == ls.last());
            }
        }
        assert forall|x: Seq<char>| port_rules(ls).contains(x) implies ls.contains(x) && (!contains(x, "MASQUERADE"@) && (contains(x, "DNAT"@) || contains(x, "REDIRECT"@))) by {
            let r = port_rules(ls);
            let j = choose|j: int| 0 <= j < r.len() && r[j] == x;
            if j < k.len() {
                assert(r[j] == k[j]);
                assert(k.contains(x));
                assert(init.contains(x));
                let m = choose|m: int| 0 <= m < init.len() && init[m] == x;
                assert(ls[m] == init[m]);
                assert(ls.contains(x));
            } else {
                assert(x == ls.last());
                assert(ls[ls.len() - 1] == ls.last());
            }
        }
    }
}

} // verus!
