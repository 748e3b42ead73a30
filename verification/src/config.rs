//! Forwarder definitions: their text form, their names and the check for duplicates.
use std::path::PathBuf;

use vstd::prelude::*;

use crate::text::{parse_number, push_decimal, split_text};

verus! {

/// A file-system path, carried through unread.
#[verifier::external_type_specification]
#[verifier::external_body]
pub struct ExPathBuf(PathBuf);

/// One forwarder: connections to the local endpoint go to the remote one.
#[derive(Debug)]
pub struct ForwarderConfig {
    pub local_host: String,
    pub local_port: u16,
    pub remote_host: String,
    pub remote_port: u16,
}

/// What a [`ForwarderConfig`] says.
#[verifier::ext_equal]
pub struct Forwarder {
    pub local_host: Seq<char>,
    pub local_port: u16,
    pub remote_host: Seq<char>,
    pub remote_port: u16,
}

impl View for ForwarderConfig {
    type V = Forwarder;

    open spec fn view(&self) -> Forwarder {
        Forwarder {
            local_host: self.local_host@,
            local_port: self.local_port,
            remote_host: self.remote_host@,
            remote_port: self.remote_port,
        }
    }
}

/// What a list of [`ForwarderConfig`] says.
pub open spec fn forwarders(list: Seq<ForwarderConfig>) -> Seq<Forwarder> {
    list.map_values(|c: ForwarderConfig| c@)
}

/// `host:port`.
pub open spec fn endpoint(host: Seq<char>, port: u16) -> Seq<char> {
    host.push(':') + crate::text::decimal(port as nat)
}

impl Forwarder {
    /// The endpoint that the forwarder listens on.
    pub open spec fn local_addr(self) -> Seq<char> {
        endpoint(self.local_host, self.local_port)
    }

    /// The name under which the forwarder runs and is reported.
    pub open spec fn label(self) -> Seq<char> {
        self.local_addr() + seq!['-', '>'] + endpoint(self.remote_host, self.remote_port)
    }
}

impl Clone for ForwarderConfig {
    fn clone(&self) -> (r: Self)
        ensures
            r == *self,
    {
        ForwarderConfig {
            local_host: self.local_host.clone(),
            local_port: self.local_port,
            remote_host: self.remote_host.clone(),
            remote_port: self.remote_port,
        }
    }
}

fn push_endpoint(out: &mut String, host: &str, port: u16)
    ensures
        final(out)@ == old(out)@ + endpoint(host@, port),
{
    let ghost start = out@;
    out.append(host);
    out.push(':');
    push_decimal(out, port as u64);
    assert(out@ =~= start + endpoint(host@, port));
}

impl ForwarderConfig {
    /// The name under which the forwarder runs and is reported:
    /// `local_host:local_port->remote_host:remote_port`.
    pub fn label(&self) -> (r: String)
        ensures
            r@ == self@.label(),
    {
        let mut out = self.local_addr();
        out.push('-');
        out.push('>');
        assert(out@ =~= self@.local_addr() + seq!['-', '>']);
        push_endpoint(&mut out, self.remote_host.as_str(), self.remote_port);
        out
    }

    /// The endpoint that the forwarder listens on: `local_host:local_port`.
    pub fn local_addr(&self) -> (r: String)
        ensures
            r@ == self@.local_addr(),
    {
        let mut out = String::new();
        push_endpoint(&mut out, self.local_host.as_str(), self.local_port);
        assert(out@ =~= self@.local_addr());
        out
    }
}

/// The text of the error for a port that is no number up to 65535.
pub open spec fn bad_port_text(
    which: Seq<char>,
    part: Seq<char>,
    e: crate::text::NumberError,
) -> Seq<char> {
    which + part + "': "@ + e.text()
}

/// What the text `local_host:local_port:remote_host:remote_port` says, or why it says nothing.
pub open spec fn parse_forwarder_spec(s: Seq<char>) -> Result<Forwarder, Seq<char>> {
    let parts = crate::text::split(s, ':');
    if parts.len() != 4 {
        Err(
            "Invalid forwarder format '"@ + s
                + "': expected local_host:local_port:remote_host:remote_port"@,
        )
    } else {
        match crate::text::number(parts[1], 65535) {
            Err(e) => Err(bad_port_text("Invalid local port '"@, parts[1], e)),
            Ok(local_port) => match crate::text::number(parts[3], 65535) {
                Err(e) => Err(bad_port_text("Invalid remote port '"@, parts[3], e)),
                Ok(remote_port) => Ok(
                    Forwarder {
                        local_host: parts[0],
                        local_port: local_port as u16,
                        remote_host: parts[2],
                        remote_port: remote_port as u16,
                    },
                ),
            },
        }
    }
}

fn bad_port(which: &str, part: &str, e: crate::text::NumberError) -> (r: String)
    ensures
        r@ == bad_port_text(which@, part@, e),
{
    let mut out = String::from_str(which);
    out.append(part);
    out.append("': ");
    out.append(e.description());
    out
}

/// Whether an executable parse result is the one that a specification names.
pub open spec fn same_parse(
    r: Result<ForwarderConfig, String>,
    p: Result<Forwarder, Seq<char>>,
) -> bool {
    match (r, p) {
        (Ok(c), Ok(f)) => c@ == f,
        (Err(m), Err(t)) => m@ == t,
        _ => false,
    }
}

/// Reads a forwarder from `local_host:local_port:remote_host:remote_port`.
pub fn parse_forwarder(s: &str) -> (r: Result<ForwarderConfig, String>)
    ensures
        same_parse(r, parse_forwarder_spec(s@)),
{
    let parts = split_text(s, ':');
    assert(parts@.len() == crate::text::texts(parts@).len());
    if parts.len() != 4 {
        let mut out = String::from_str("Invalid forwarder format '");
        out.append(s);
        out.append("': expected local_host:local_port:remote_host:remote_port");
        return Err(out);
    }
    assert(forall|i: int| 0 <= i < 4 ==> #[trigger] parts@[i]@ == crate::text::texts(parts@)[i]);
    let local_port: u16 = match parse_number(parts[1].as_str(), 65535) {
        Ok(n) => n as u16,
        Err(e) => {
            return Err(bad_port("Invalid local port '", parts[1].as_str(), e));
        },
    };
    let remote_port: u16 = match parse_number(parts[3].as_str(), 65535) {
        Ok(n) => n as u16,
        Err(e) => {
            return Err(bad_port("Invalid remote port '", parts[3].as_str(), e));
        },
    };
    Ok(
        ForwarderConfig {
            local_host: parts[0].clone(),
            local_port,
            remote_host: parts[2].clone(),
            remote_port,
        },
    )
}

/// Whether the forwarder at `j` listens where an earlier one does.
pub open spec fn repeats(list: Seq<Forwarder>, j: int) -> bool {
    exists|i: int| 0 <= i < j && (#[trigger] list[i]).local_addr() == list[j].local_addr()
}

/// The first forwarder that listens where an earlier one does.
pub open spec fn first_duplicate(list: Seq<Forwarder>) -> Option<int>
    decreases list.len(),
{
    if list.len() == 0 {
        None
    } else {
        match first_duplicate(list.drop_last()) {
            Some(j) => Some(j),
            None => if repeats(list, list.len() - 1) {
                Some(list.len() - 1)
            } else {
                None
            },
        }
    }
}

/// The text of the error for a local endpoint that is used twice.
pub open spec fn duplicate_text(addr: Seq<char>) -> Seq<char> {
    "Duplicate local address '"@ + addr + "'. Each forwarder needs a unique local endpoint."@
}

proof fn lemma_duplicate_stays(list: Seq<Forwarder>, k: int)
    requires
        0 <= k <= list.len(),
        first_duplicate(list.take(k)) is Some,
    ensures
        first_duplicate(list) == first_duplicate(list.take(k)),
    decreases list.len() - k,
{
    if k < list.len() {
        assert(list.take(k + 1).drop_last() =~= list.take(k));
        lemma_duplicate_stays(list, k + 1);
    } else {
        assert(list.take(k) =~= list);
    }
}

/// Checks that no two forwarders listen on the same local endpoint.
pub fn validate_no_duplicates(fwd: &[ForwarderConfig]) -> (r: Result<(), String>)
    ensures
        match first_duplicate(forwarders(fwd@)) {
            None => r is Ok,
            Some(j) => r is Err && r->Err_0@ == duplicate_text(forwarders(fwd@)[j].local_addr()),
        },
{
    let ghost list = forwarders(fwd@);
    let mut seen: Vec<String> = Vec::new();
    let mut j: usize = 0;
    assert(list.take(0) =~= Seq::<Forwarder>::empty());
    while j < fwd.len()
        invariant
            list == forwarders(fwd@),
            j <= fwd.len(),
            seen.len() == j,
            forall|i: int| 0 <= i < j ==> (#[trigger] seen@[i])@ == list[i].local_addr(),
            first_duplicate(list.take(j as int)) is None,
        decreases fwd.len() - j,
    {
        let addr = fwd[j].local_addr();
        let ghost next = list.take(j + 1);
        proof {
            assert(next.drop_last() =~= list.take(j as int));
            assert(forall|i: int| 0 <= i <= j ==> next[i] == list[i]);
        }
        let mut i: usize = 0;
        while i < j
            invariant
                list == forwarders(fwd@),
                i <= j < fwd.len(),
                seen.len() == j,
                next == list.take(j + 1),
                next.drop_last() == list.take(j as int),
                addr@ == list[j as int].local_addr(),
                forall|k: int| 0 <= k < j ==> (#[trigger] seen@[k])@ == list[k].local_addr(),
                forall|k: int| 0 <= k < i ==> (#[trigger] list[k]).local_addr() != addr@,
                first_duplicate(list.take(j as int)) is None,
            decreases j - i,
        {
            if seen[i] == addr {
                let mut out = String::from_str("Duplicate local address '");
                out.append(addr.as_str());
                out.append("'. Each forwarder needs a unique local endpoint.");
                proof {
                    assert(next[i as int] == list[i as int]);
                    assert(repeats(next, j as int));
                    lemma_duplicate_stays(list, j + 1);
                }
                return Err(out);
            }
            i = i + 1;
        }
        seen.push(addr);
        j = j + 1;
    }
    assert(list.take(j as int) =~= list);
    Ok(())
}

/// Whether no two forwarders listen on the same local endpoint.
pub open spec fn local_addrs_distinct(list: Seq<Forwarder>) -> bool {
    forall|i: int, j: int|
        0 <= i < j < list.len() ==> (#[trigger] list[i]).local_addr() != (
        #[trigger] list[j]).local_addr()
}

/// A list of forwarders passes the duplicate check exactly when all local endpoints differ;
/// otherwise the check names the first forwarder whose endpoint is taken.
pub proof fn law_duplicates(list: Seq<Forwarder>)
    ensures
        first_duplicate(list) is None <==> local_addrs_distinct(list),
        first_duplicate(list) matches Some(j) ==> 0 <= j < list.len() && repeats(list, j)
            && local_addrs_distinct(list.take(j)),
    decreases list.len(),
{
    if list.len() > 0 {
        let front = list.drop_last();
        let last = list.len() - 1;
        law_duplicates(front);
        assert(forall|i: int| 0 <= i < last ==> front[i] == list[i]);
        match first_duplicate(front) {
            Some(j) => {
                let i = choose|i: int|
                    0 <= i < j && (#[trigger] front[i]).local_addr() == front[j].local_addr();
                assert(list[i].local_addr() == list[j].local_addr());
                assert(list.take(j) =~= front.take(j));
            },
            None => {
                assert(list.take(last) =~= front);
                if repeats(list, last) {
                    let i = choose|i: int|
                        0 <= i < last && (#[trigger] list[i]).local_addr()
                            == list[last].local_addr();
                    assert(list[i].local_addr() == list[last].local_addr());
                } else {
                    assert forall|i: int, j: int| 0 <= i < j < list.len() implies (
                    #[trigger] list[i]).local_addr() != (#[trigger] list[j]).local_addr() by {
                        if j < last {
                            assert(front[i].local_addr() != front[j].local_addr());
                        }
                    }
                }
            },
        }
    }
}

/// Digits without a colon in front: where the last colon of an endpoint stands.
proof fn lemma_endpoint_shape(host: Seq<char>, port: u16)
    ensures
        endpoint(host, port).len() > host.len(),
        endpoint(host, port)[host.len() as int] == ':',
        forall|i: int|
            host.len() < i < endpoint(host, port).len() ==> crate::text::is_digit(
                #[trigger] endpoint(host, port)[i],
            ),
        endpoint(host, port).take(host.len() as int) == host,
        endpoint(host, port).skip(host.len() as int + 1) == crate::text::decimal(port as nat),
{
    crate::text::law_decimal_reads_back(port as nat, port as nat);
    let e = endpoint(host, port);
    let d = crate::text::decimal(port as nat);
    assert forall|i: int| host.len() < i < e.len() implies crate::text::is_digit(
        #[trigger] e[i],
    ) by {
        assert(e[i] == d[i - host.len() - 1]);
    }
    assert(e.take(host.len() as int) =~= host);
    assert(e.skip(host.len() as int + 1) =~= d);
}

/// An endpoint determines its host and its port.
pub proof fn law_endpoint_injective(h1: Seq<char>, p1: u16, h2: Seq<char>, p2: u16)
    requires
        endpoint(h1, p1) == endpoint(h2, p2),
    ensures
        h1 == h2,
        p1 == p2,
{
    lemma_endpoint_shape(h1, p1);
    lemma_endpoint_shape(h2, p2);
    if h1.len() < h2.len() {
        assert(crate::text::is_digit(endpoint(h1, p1)[h2.len() as int]));
    }
    if h2.len() < h1.len() {
        assert(crate::text::is_digit(endpoint(h2, p2)[h1.len() as int]));
    }
    crate::text::law_decimal_injective(p1 as nat, p2 as nat);
}

/// Whether both hosts are free of colons, as in every forwarder that is read from text.
pub open spec fn hosts_without_colon(f: Forwarder) -> bool {
    !f.local_host.contains(':') && !f.remote_host.contains(':')
}

/// The text that denotes a forwarder on the command line and in the environment.
pub open spec fn forwarder_text(f: Forwarder) -> Seq<char> {
    endpoint(f.local_host, f.local_port).push(':') + endpoint(f.remote_host, f.remote_port)
}

/// Each forwarder whose hosts hold no colon has a text that reads back as that forwarder.
pub proof fn law_forwarder_text_reads_back(f: Forwarder)
    requires
        hosts_without_colon(f),
    ensures
        parse_forwarder_spec(forwarder_text(f)) == Ok::<Forwarder, Seq<char>>(f),
{
    let lp = crate::text::decimal(f.local_port as nat);
    let rp = crate::text::decimal(f.remote_port as nat);
    let parts = seq![f.local_host, lp, f.remote_host, rp];
    crate::text::law_decimal_reads_back(f.local_port as nat, 65535);
    crate::text::law_decimal_reads_back(f.remote_port as nat, 65535);
    assert forall|i: int| 0 <= i < parts.len() implies !(#[trigger] parts[i]).contains(':') by {
        if parts[i].contains(':') {
            let k = choose|k: int| 0 <= k < parts[i].len() && parts[i][k] == ':';
            if i == 1 {
                assert(crate::text::is_digit(lp[k]));
            }
            if i == 3 {
                assert(crate::text::is_digit(rp[k]));
            }
        }
    }
    crate::text::law_join_split(parts, ':');
    assert(crate::text::join(parts, ':') =~= forwarder_text(f)) by {
        let two = parts.take(2);
        let three = parts.take(3);
        assert(parts.drop_last() =~= three);
        assert(three.drop_last() =~= two);
        assert(two.drop_last() =~= seq![f.local_host]);
        reveal_with_fuel(crate::text::join, 4);
    }
}

/// A forwarder that is read from text has hosts without a colon.
pub proof fn law_parsed_hosts_without_colon(s: Seq<char>)
    ensures
        parse_forwarder_spec(s) matches Ok(f) ==> hosts_without_colon(f),
{
    crate::text::law_split_join(s, ':');
}

/// Two forwarders whose local hosts hold no colon have the same label only if they are the same.
pub proof fn law_label_injective(a: Forwarder, b: Forwarder)
    requires
        !a.local_host.contains(':'),
        !b.local_host.contains(':'),
        a.label() == b.label(),
    ensures
        a == b,
{
    lemma_label_prefix(a);
    lemma_label_prefix(b);
    let la = a.local_addr();
    let lb = b.local_addr();
    let label = a.label();
    // The first colon of a label ends the local host, the digits behind it the local port.
    if a.local_host.len() < b.local_host.len() {
        assert(b.local_host[a.local_host.len() as int] == label[a.local_host.len() as int]);
        assert(b.local_host.contains(':'));
    }
    if b.local_host.len() < a.local_host.len() {
        assert(a.local_host[b.local_host.len() as int] == label[b.local_host.len() as int]);
        assert(a.local_host.contains(':'));
    }
    if la.len() < lb.len() {
        assert(crate::text::is_digit(lb[la.len() as int]));
    }
    if lb.len() < la.len() {
        assert(crate::text::is_digit(la[lb.len() as int]));
    }
    assert(la =~= lb) by {
        assert(label.take(la.len() as int) =~= la);
        assert(label.take(lb.len() as int) =~= lb);
    }
    law_endpoint_injective(a.local_host, a.local_port, b.local_host, b.local_port);
    let ra = endpoint(a.remote_host, a.remote_port);
    let rb = endpoint(b.remote_host, b.remote_port);
    assert(ra =~= rb) by {
        assert(label.skip(la.len() as int + 2) =~= ra);
        assert(label.skip(lb.len() as int + 2) =~= rb);
    }
    law_endpoint_injective(a.remote_host, a.remote_port, b.remote_host, b.remote_port);
}

proof fn lemma_label_prefix(f: Forwarder)
    ensures
        f.local_addr().len() < f.label().len(),
        f.label()[f.local_addr().len() as int] == '-',
        forall|i: int|
            0 <= i < f.local_addr().len() ==> #[trigger] f.label()[i] == f.local_addr()[i],
        forall|i: int| 0 <= i < f.local_host.len() ==> #[trigger] f.label()[i] == f.local_host[i],
        f.label()[f.local_host.len() as int] == ':',
        f.local_addr().len() > f.local_host.len(),
        forall|i: int|
            f.local_host.len() < i < f.local_addr().len() ==> crate::text::is_digit(
                #[trigger] f.local_addr()[i],
            ),
{
    lemma_endpoint_shape(f.local_host, f.local_port);
}

/// The view of a forwarder shows each part as it is, and that of a list each forwarder in order.
pub proof fn law_forwarders_show_the_fields(list: Seq<ForwarderConfig>, i: int)
    requires
        0 <= i < list.len(),
    ensures
        forwarders(list).len() == list.len(),
        forwarders(list)[i].local_host == list[i].local_host@,
        forwarders(list)[i].local_port == list[i].local_port,
        forwarders(list)[i].remote_host == list[i].remote_host@,
        forwarders(list)[i].remote_port == list[i].remote_port,
        list[i]@ == forwarders(list)[i],
{
}

/// A label names both endpoints, each as host, colon and port in decimal, with an arrow between.
pub proof fn law_label_names_both_endpoints(f: Forwarder)
    ensures
        f.local_addr() == f.local_host + seq![':'] + crate::text::decimal(f.local_port as nat),
        f.label() == f.local_host + seq![':'] + crate::text::decimal(f.local_port as nat) + seq![
            '-',
            '>',
        ] + f.remote_host + seq![':'] + crate::text::decimal(f.remote_port as nat),
{
    assert(f.local_addr() =~= f.local_host + seq![':'] + crate::text::decimal(
        f.local_port as nat,
    ));
    assert(f.label() =~= f.local_host + seq![':'] + crate::text::decimal(f.local_port as nat)
        + seq!['-', '>'] + f.remote_host + seq![':'] + crate::text::decimal(f.remote_port as nat));
}

/// Four parts between three colons are host, port, host and port: the forwarder has just these
/// hosts and the ports that the numbers say. A part that is no number up to 65535 where a port
/// belongs is an error that names it, the local one first.
pub proof fn law_four_parts_are_a_forwarder(
    local_host: Seq<char>,
    local_port: Seq<char>,
    remote_host: Seq<char>,
    remote_port: Seq<char>,
)
    requires
        !local_host.contains(':'),
        !local_port.contains(':'),
        !remote_host.contains(':'),
        !remote_port.contains(':'),
    ensures
        ({
            let text = local_host + seq![':'] + local_port + seq![':'] + remote_host + seq![':']
                + remote_port;
            let lp = crate::text::number(local_port, 65535);
            let rp = crate::text::number(remote_port, 65535);
            let parsed = parse_forwarder_spec(text);
            &&& lp is Ok && rp is Ok ==> parsed is Ok && parsed->Ok_0.local_host == local_host
                && parsed->Ok_0.local_port == lp->Ok_0 && parsed->Ok_0.remote_host == remote_host
                && parsed->Ok_0.remote_port == rp->Ok_0
            &&& lp is Err ==> parsed == Err::<Forwarder, Seq<char>>(
                "Invalid local port '"@ + local_port + "': "@ + lp->Err_0.text(),
            )
            &&& lp is Ok && rp is Err ==> parsed == Err::<Forwarder, Seq<char>>(
                "Invalid remote port '"@ + remote_port + "': "@ + rp->Err_0.text(),
            )
        }),
{
    let text = local_host + seq![':'] + local_port + seq![':'] + remote_host + seq![':']
        + remote_port;
    let parts = seq![local_host, local_port, remote_host, remote_port];
    crate::text::law_join_split(parts, ':');
    assert(crate::text::join(parts, ':') =~= text) by {
        let two = parts.take(2);
        let three = parts.take(3);
        assert(parts.drop_last() =~= three);
        assert(three.drop_last() =~= two);
        assert(two.drop_last() =~= seq![local_host]);
        reveal_with_fuel(crate::text::join, 4);
    }
    crate::text::law_number_shape(local_port, 65535);
    crate::text::law_number_shape(remote_port, 65535);
}

/// The number of colons in a text.
spec fn colons(s: Seq<char>) -> nat {
    s.filter(|c: char| c == ':').len()
}

/// A text that has not three colons is no forwarder, and the error says so. A text that is a
/// forwarder is made up of its four parts.
pub proof fn law_forwarders_have_three_colons(s: Seq<char>)
    ensures
        s.filter(|c: char| c == ':').len() != 3 ==> parse_forwarder_spec(s) == Err::<
            Forwarder,
            Seq<char>,
        >(
            "Invalid forwarder format '"@ + s
                + "': expected local_host:local_port:remote_host:remote_port"@,
        ),
        parse_forwarder_spec(s) is Ok ==> s.filter(|c: char| c == ':').len() == 3,
{
    lemma_parts_and_colons(s);
}

proof fn lemma_parts_and_colons(s: Seq<char>)
    ensures
        crate::text::split(s, ':').len() == colons(s) + 1,
    decreases s.len(),
{
    reveal(Seq::filter);
    if s.len() > 0 {
        lemma_parts_and_colons(s.drop_last());
    }
}

/// An executable result is the one that is named only if both are forwarders, and the same one,
/// or both are errors with the same text.
pub proof fn law_same_parse(r: Result<ForwarderConfig, String>, p: Result<Forwarder, Seq<char>>)
    ensures
        same_parse(r, p) ==> (r is Ok <==> p is Ok) && (r is Ok ==> r->Ok_0.local_host@
            == p->Ok_0.local_host && r->Ok_0.local_port == p->Ok_0.local_port
            && r->Ok_0.remote_host@ == p->Ok_0.remote_host && r->Ok_0.remote_port
            == p->Ok_0.remote_port) && (r is Err ==> r->Err_0@ == p->Err_0),
{
}

/// Two forwarders clash if and only if they have the same local host and the same local port: a
/// list without such a pair passes, and in any other the first forwarder that clashes with an
/// earlier one is found. Remote endpoints make no difference.
pub proof fn law_clashes_are_equal_local_endpoints(list: Seq<Forwarder>)
    ensures
        first_duplicate(list) is None <==> (forall|i: int, j: int|
            0 <= i < j < list.len() ==> (#[trigger] list[i]).local_host != (
            #[trigger] list[j]).local_host || list[i].local_port != list[j].local_port),
        first_duplicate(list) matches Some(j) ==> 0 <= j < list.len() && (exists|i: int|
            0 <= i < j && (#[trigger] list[i]).local_host == list[j].local_host
                && list[i].local_port == list[j].local_port) && (forall|i: int, k: int|
            0 <= i < k < j ==> (#[trigger] list[i]).local_host != (#[trigger] list[k]).local_host
                || list[i].local_port != list[k].local_port),
{
    law_duplicates(list);
    assert forall|i: int, j: int|
        0 <= i < list.len() && 0 <= j < list.len() && (#[trigger] list[i]).local_addr() == (
        #[trigger] list[j]).local_addr() implies list[i].local_host == list[j].local_host
        && list[i].local_port == list[j].local_port by {
        law_endpoint_injective(
            list[i].local_host,
            list[i].local_port,
            list[j].local_host,
            list[j].local_port,
        );
    }
    if let Some(j) = first_duplicate(list) {
        let i = choose|i: int|
            0 <= i < j && (#[trigger] list[i]).local_addr() == list[j].local_addr();
        assert(list[i].local_host == list[j].local_host);
        let front = list.take(j);
        assert forall|a: int, b: int| 0 <= a < b < j implies (#[trigger] list[a]).local_host != (
        #[trigger] list[b]).local_host || list[a].local_port != list[b].local_port by {
            assert(front[a].local_addr() != front[b].local_addr());
        }
    } else {
        assert forall|i: int, j: int| 0 <= i < j < list.len() implies (
        #[trigger] list[i]).local_host != (#[trigger] list[j]).local_host || list[i].local_port
            != list[j].local_port by {
            assert(list[i].local_addr() != list[j].local_addr());
        }
    }
}

/// The error for a clash names the endpoint.
pub proof fn law_clash_is_named(addr: Seq<char>)
    ensures
        duplicate_text(addr) == "Duplicate local address '"@ + addr
            + "'. Each forwarder needs a unique local endpoint."@,
{
}

} // verus!
