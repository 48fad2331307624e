use vstd::prelude::*;
use vstd::relations::{sorted_by, total_ordering};
use vstd::seq_lib::{lemma_sorted_unique, to_multiset_build, to_multiset_insert, to_multiset_len};
use crate::config::port_range_seq;
use crate::report::report_text;

verus! {

/// Ascending numeric order on ports.
pub open spec fn port_order() -> spec_fn(u16, u16) -> bool {
    |a: u16, b: u16| a <= b
}

/// `s` in ascending order.
pub open spec fn sorted_ports(s: Seq<u16>) -> Seq<u16> {
    s.sort_by(port_order())
}

/// Ascending numeric order is a total order on ports.
pub proof fn lemma_port_order_total()
    ensures
        total_ordering(port_order()),
{
}

/// What one probe reports: its port when the connection was accepted, and
/// nothing otherwise. Every kind of connection failure counts as closed.
pub fn probe_outcome(port: u16, connected: bool) -> (r: Option<u16>)
    ensures
        r == (if connected {
            Some(port)
        } else {
            None::<u16>
        }),
{
    if connected {
        Some(port)
    } else {
        None
    }
}

/// Sorts `items` ascending by insertion.
fn sort_ascending(items: &Vec<u16>) -> (r: Vec<u16>)
    ensures
        sorted_by(r@, port_order()),
        r@.to_multiset() == items@.to_multiset(),
{
    let mut out: Vec<u16> = Vec::new();
    let mut i: usize = 0;
    proof {
        assert(out@ =~= items@.subrange(0, 0));
    }
    while i < items.len()
        invariant
            i <= items.len(),
            sorted_by(out@, port_order()),
            out@.to_multiset() == items@.subrange(0, i as int).to_multiset(),
        decreases items.len() - i,
    {
        let x = items[i];
        let mut pos: usize = 0;
        while pos < out.len() && out[pos] <= x
            invariant
                pos <= out.len(),
                forall|k: int| 0 <= k < pos ==> out@[k] <= x,
            decreases out.len() - pos,
        {
            pos = pos + 1;
        }
        let ghost before = out@;
        proof {
            assert forall|k: int| pos <= k < before.len() implies x < before[k] by {
                if pos < k {
                    assert(port_order()(before[pos as int], before[k]));
                }
            }
        }
        out.insert(pos, x);
        proof {
            assert forall|a: int, b: int| 0 <= a < b < out@.len() implies #[trigger] port_order()(
                out@[a],
                out@[b],
            ) by {
                if b < pos {
                    assert(port_order()(before[a], before[b]));
                } else if b == pos {
                } else if a < pos {
                    assert(out@[b] == before[b - 1]);
                } else if a == pos {
                    assert(out@[b] == before[b - 1]);
                } else {
                    assert(port_order()(before[a - 1], before[b - 1]));
                }
            }
            to_multiset_insert(before, pos as int, x);
            assert(items@.subrange(0, i + 1) =~= items@.subrange(0, i as int).push(x));
            to_multiset_build(items@.subrange(0, i as int), x);
        }
        i = i + 1;
    }
    proof {
        assert(items@.subrange(0, i as int) =~= items@);
    }
    out
}

/// The collector of a scan: the ports whose probes reported open, in the
/// order the reports arrived.
pub struct OpenPorts {
    ports: Vec<u16>,
}

impl View for OpenPorts {
    type V = Seq<u16>;

    closed spec fn view(&self) -> Seq<u16> {
        self.ports@
    }
}

impl OpenPorts {
    /// An empty collector.
    pub fn new() -> (r: OpenPorts)
        ensures
            r@ == Seq::<u16>::empty(),
    {
        OpenPorts { ports: Vec::new() }
    }

    /// Records the report of one open port.
    pub fn record(&mut self, port: u16)
        ensures
            final(self)@ == old(self)@.push(port),
    {
        self.ports.push(port);
    }

    /// The number of reports recorded.
    pub fn len(&self) -> (r: usize)
        ensures
            r == self@.len(),
    {
        self.ports.len()
    }

    /// Freezes the collection: the reported ports in ascending order.
    pub fn into_sorted(self) -> (r: Vec<u16>)
        ensures
            r@ == sorted_ports(self@),
            sorted_by(r@, port_order()),
            r@.to_multiset() == self@.to_multiset(),
            r@.len() == self@.len(),
    {
        let r = sort_ascending(&self.ports);
        proof {
            to_multiset_len(r@);
            to_multiset_len(self.ports@);
            lemma_port_order_total();
            self.ports@.lemma_sort_by_ensures(port_order());
            lemma_sorted_unique(r@, sorted_ports(self.ports@), port_order());
        }
        r
    }
}

/// The ports `p` with `from <= p < end` that have a listener, ascending.
pub open spec fn listening_from(from: int, end: int, listening: Set<u16>) -> Seq<u16>
    decreases end - from,
{
    if from >= end {
        Seq::<u16>::empty()
    } else {
        let rest = listening_from(from + 1, end, listening);
        if listening.contains(from as u16) {
            seq![from as u16] + rest
        } else {
            rest
        }
    }
}

/// The ports of `[start, end)` that accept a connection, when exactly the
/// ports of `listening` have a listener: what a scan should report.
pub open spec fn open_ports(start: u16, end: u16, listening: Set<u16>) -> Seq<u16> {
    listening_from(start as int, end as int, listening)
}

proof fn lemma_listening_from(from: int, end: int, listening: Set<u16>)
    requires
        0 <= from,
        end <= 65536,
    ensures
        forall|i: int, j: int|
            0 <= i < j < listening_from(from, end, listening).len() ==> (#[trigger] listening_from(
                from,
                end,
                listening,
            )[i]) < (#[trigger] listening_from(from, end, listening)[j]),
        forall|i: int|
            0 <= i < listening_from(from, end, listening).len() ==> from <= (
            #[trigger] listening_from(from, end, listening)[i]),
        forall|p: u16|
            #[trigger] listening_from(from, end, listening).contains(p) <==> from <= p < end
                && listening.contains(p),
    decreases end - from,
{
    if from < end {
        lemma_listening_from(from + 1, end, listening);
        let rest = listening_from(from + 1, end, listening);
        let s = listening_from(from, end, listening);
        if listening.contains(from as u16) {
            assert forall|i: int| 0 <= i < s.len() implies from <= #[trigger] s[i] by {
                if i > 0 {
                    assert(s[i] == rest[i - 1]);
                }
            }
            assert forall|i: int, j: int| 0 <= i < j < s.len() implies #[trigger] s[i]
                < #[trigger] s[j] by {
                assert(s[j] == rest[j - 1]);
                if i > 0 {
                    assert(s[i] == rest[i - 1]);
                }
            }
            assert forall|p: u16| #[trigger] s.contains(p) <==> from <= p < end
                && listening.contains(p) by {
                if s.contains(p) {
                    let k = choose|k: int| 0 <= k < s.len() && s[k] == p;
                    if k > 0 {
                        assert(rest[k - 1] == p);
                        assert(rest.contains(p));
                    } else {
                        assert(s[0] == from as u16);
                    }
                }
                if from <= p < end && listening.contains(p) {
                    if p == from {
                        assert(s[0] == p);
                    } else {
                        assert(rest.contains(p));
                        let k = choose|k: int| 0 <= k < rest.len() && rest[k] == p;
                        assert(s[k + 1] == p);
                    }
                }
            }
        }
    }
}

proof fn lemma_open_ports_sorted(start: u16, end: u16, listening: Set<u16>)
    ensures
        sorted_by(open_ports(start, end, listening), port_order()),
{
    lemma_listening_from(start as int, end as int, listening);
    let s = open_ports(start, end, listening);
    assert forall|i: int, j: int| 0 <= i < j < s.len() implies #[trigger] port_order()(
        s[i],
        s[j],
    ) by {
        assert(s[i] < s[j]);
    }
}

/// One probe per port: a scan of `[start, end)` with `start < end` probes
/// exactly `end - start` ports, each port of the range once and no other.
pub proof fn lemma_one_probe_per_port(start: u16, end: u16)
    requires
        start < end,
    ensures
        port_range_seq(start, end).len() == end - start,
        port_range_seq(start, end).no_duplicates(),
        forall|p: u16| #[trigger] port_range_seq(start, end).contains(p) <==> start <= p < end,
{
    let s = port_range_seq(start, end);
    assert forall|p: u16| #[trigger] s.contains(p) <==> start <= p < end by {
        if start <= p < end {
            assert(s[p - start] == p);
        }
    }
}

/// Whatever order the probes' reports arrive in, the sorted report is the
/// ascending list of the ports of the range that have a listener.
pub proof fn lemma_report_is_open_ports(
    start: u16,
    end: u16,
    listening: Set<u16>,
    arrivals: Seq<u16>,
)
    requires
        arrivals.to_multiset() == open_ports(start, end, listening).to_multiset(),
    ensures
        sorted_ports(arrivals) == open_ports(start, end, listening),
{
    lemma_port_order_total();
    lemma_open_ports_sorted(start, end, listening);
    arrivals.lemma_sort_by_ensures(port_order());
    lemma_sorted_unique(sorted_ports(arrivals), open_ports(start, end, listening), port_order());
}

/// Scanning twice against the same listeners gives the same ordered ports
/// and the same report text, however the reports of each run interleave.
pub proof fn lemma_scan_idempotent(
    start: u16,
    end: u16,
    listening: Set<u16>,
    first: Seq<u16>,
    second: Seq<u16>,
)
    requires
        first.to_multiset() == open_ports(start, end, listening).to_multiset(),
        second.to_multiset() == open_ports(start, end, listening).to_multiset(),
    ensures
        sorted_ports(first) == sorted_ports(second),
        report_text(sorted_ports(first)) == report_text(sorted_ports(second)),
{
    lemma_report_is_open_ports(start, end, listening, first);
    lemma_report_is_open_ports(start, end, listening, second);
}

/// The reported ports are strictly ascending, whichever ports are open.
pub proof fn lemma_report_strictly_ascending(
    start: u16,
    end: u16,
    listening: Set<u16>,
    arrivals: Seq<u16>,
)
    requires
        arrivals.to_multiset() == open_ports(start, end, listening).to_multiset(),
    ensures
        forall|i: int, j: int|
            0 <= i < j < sorted_ports(arrivals).len() ==> (#[trigger] sorted_ports(arrivals)[i])
                < (#[trigger] sorted_ports(arrivals)[j]),
{
    lemma_report_is_open_ports(start, end, listening, arrivals);
    lemma_listening_from(start as int, end as int, listening);
}

/// A port with nothing listening on it is never reported.
pub proof fn lemma_closed_port_never_reported(
    start: u16,
    end: u16,
    listening: Set<u16>,
    arrivals: Seq<u16>,
    port: u16,
)
    requires
        arrivals.to_multiset() == open_ports(start, end, listening).to_multiset(),
        !listening.contains(port),
    ensures
        !sorted_ports(arrivals).contains(port),
{
    lemma_report_is_open_ports(start, end, listening, arrivals);
    lemma_listening_from(start as int, end as int, listening);
}

/// An empty range (`start == end`) probes nothing, so no report arrives and
/// the report is the blank separator line alone.
pub proof fn lemma_empty_range(start: u16, listening: Set<u16>, arrivals: Seq<u16>)
    requires
        arrivals.to_multiset() == open_ports(start, start, listening).to_multiset(),
    ensures
        port_range_seq(start, start).len() == 0,
        arrivals.len() == 0,
        sorted_ports(arrivals).len() == 0,
        report_text(sorted_ports(arrivals)) == seq!['\n'],
{
    lemma_report_is_open_ports(start, start, listening, arrivals);
    to_multiset_len(open_ports(start, start, listening));
    to_multiset_len(arrivals);
}

} // verus!
