//! Network accounting: reads one interface's cumulative byte counters out of
//! the network-accounting snapshot and derives send and receive throughput
//! through the rate tracker.

use vstd::prelude::*;
use crate::snapshot::Snapshot;
use crate::text::{
    all_digits, dec_seq, dec_value, fields_of, format_u64, lines_of, parse_u64, split_fields,
    split_lines, str_eq,
};
use crate::tracker::{throughput_of, Baseline, RateOutcome, RateTracker};

verus! {

/// Whether a line accounts for the named interface: its first field is the
/// interface's name with a colon, followed by at least nine counter fields.
pub open spec fn is_iface_line(line: Seq<char>, iface: Seq<char>) -> bool {
    fields_of(line).len() >= 10 && fields_of(line)[0] == iface + seq![':']
}

/// Whether the line's received (first) and sent (ninth) counter fields are
/// numbers that fit.
pub open spec fn line_counters_ok(line: Seq<char>) -> bool {
    let fs = fields_of(line);
    all_digits(fs[1]) && fs[1].len() > 0 && dec_value(fs[1]) <= u64::MAX && all_digits(fs[9])
        && fs[9].len() > 0 && dec_value(fs[9]) <= u64::MAX
}

/// What the network-accounting text holds for one interface.
#[derive(Clone, Copy, PartialEq, Eq, Structural, Debug)]
pub enum NetReading {
    /// No line accounts for the interface.
    Absent,
    /// The interface's line is there, but a counter field is not a number
    /// that fits: upstream data is malformed.
    Malformed,
    /// The cumulative received and sent byte counters.
    Counters { received: u64, sent: u64 },
}

/// The counters on the last line that accounts for the interface, in
/// document order.
pub open spec fn last_net_sample(lines: Seq<Seq<char>>, iface: Seq<char>) -> NetReading
    decreases lines.len(),
{
    if lines.len() == 0 {
        NetReading::Absent
    } else if is_iface_line(lines.last(), iface) {
        if line_counters_ok(lines.last()) {
            NetReading::Counters {
                received: dec_value(fields_of(lines.last())[1]) as u64,
                sent: dec_value(fields_of(lines.last())[9]) as u64,
            }
        } else {
            NetReading::Malformed
        }
    } else {
        last_net_sample(lines.drop_last(), iface)
    }
}

/// Reads one interface's cumulative byte counters out of the
/// network-accounting text.
pub fn parse_net_dev(content: &str, iface: &str) -> (r: NetReading)
    ensures
        r == last_net_sample(lines_of(content@), iface@),
{
    let lines = split_lines(content);
    let ghost ldv = lines.deep_view();
    let nlines = lines.len();
    let mut expect = iface.to_owned();
    proof {
        reveal_strlit(":");
    }
    expect.append(":");
    proof {
        assert(expect@ =~= iface@ + seq![':']);
        assert(ldv.take(nlines as int) =~= ldv);
    }
    let mut i: usize = nlines;
    while i > 0
        invariant
            0 <= i <= nlines,
            ldv == lines.deep_view(),
            ldv == lines_of(content@),
            nlines == ldv.len(),
            expect@ == iface@ + seq![':'],
            last_net_sample(ldv, iface@) == last_net_sample(ldv.take(i as int), iface@),
        decreases i,
    {
        i -= 1;
        proof {
            assert(ldv.take(i + 1).drop_last() =~= ldv.take(i as int));
            assert(ldv.take(i + 1).last() == ldv[i as int]);
            assert(ldv[i as int] == lines@[i as int]@);
        }
        let fields = split_fields(lines[i].as_str());
        let ghost fdv = fields.deep_view();
        proof {
            assert(fdv == fields_of(ldv[i as int]));
        }
        if fields.len() >= 10 {
            proof {
                assert(fdv[0] == fields@[0]@);
                assert(fdv[1] == fields@[1]@);
                assert(fdv[9] == fields@[9]@);
            }
            if str_eq(fields[0].as_str(), expect.as_str()) {
                match (parse_u64(fields[1].as_str()), parse_u64(fields[9].as_str())) {
                    (Some(rx), Some(tx)) => {
                        return NetReading::Counters { received: rx, sent: tx };
                    },
                    _ => {
                        return NetReading::Malformed;
                    },
                }
            }
        }
    }
    proof {
        assert(ldv.take(0) =~= Seq::<Seq<char>>::empty());
    }
    NetReading::Absent
}

/// The tracker name for the interface's received-bytes counter.
pub open spec fn rx_counter_name(iface: Seq<char>) -> Seq<char> {
    "net_received_"@ + iface
}

/// The tracker name for the interface's sent-bytes counter.
pub open spec fn tx_counter_name(iface: Seq<char>) -> Seq<char> {
    "net_sent_"@ + iface
}

/// The metrics reported for a tick: the interface label and both rates where
/// both directions computed one, nothing otherwise.
pub open spec fn net_metrics(rx_out: RateOutcome, tx_out: RateOutcome) -> Map<
    Seq<char>,
    Seq<char>,
> {
    match (rx_out, tx_out) {
        (RateOutcome::Rate(a), RateOutcome::Rate(b)) => Map::<Seq<char>, Seq<char>>::empty()
            .insert("network_name_1"@, "ethernet"@).insert(
            "network_received_bytes_1"@,
            dec_seq(a as nat),
        ).insert("network_sent_bytes_1"@, dec_seq(b as nat)),
        _ => Map::empty(),
    }
}

/// Why network accounting rejected its input.
#[derive(Clone, Copy, PartialEq, Eq, Structural, Debug)]
pub enum NetError {
    /// A counter field on the interface's line is not a number that fits.
    MalformedCounters,
}

/// Reads the interface's counters and reports its throughput: the counters
/// are recorded in the tracker under per-direction names, and both rates are
/// reported once a previous observation exists. An absent interface reports
/// nothing and records nothing; `now_ms` is the caller's shared sampling
/// instant, so the elapsed time is measured between sampling cycles.
pub fn get_network_data(content: &str, iface: &str, tracker: &mut RateTracker, now_ms: u64) -> (r:
    Result<Snapshot, NetError>)
    requires
        old(tracker).wf(),
    ensures
        final(tracker).wf(),
        match last_net_sample(lines_of(content@), iface@) {
            NetReading::Absent => (r matches Ok(snap) && snap@ =~= Map::<Seq<char>, Seq<char>>::empty())
                && *final(tracker) == *old(tracker),
            NetReading::Malformed => r == Err::<Snapshot, NetError>(NetError::MalformedCounters)
                && *final(tracker) == *old(tracker),
            NetReading::Counters { received, sent } => ({
                let rx_b = Baseline { total: received, secondary: received, instant_ms: now_ms };
                let tx_b = Baseline { total: sent, secondary: sent, instant_ms: now_ms };
                let m1 = old(tracker)@.insert(rx_counter_name(iface@), rx_b);
                let rx_out = if old(tracker)@.dom().contains(rx_counter_name(iface@)) {
                    throughput_of(old(tracker)@[rx_counter_name(iface@)], received, now_ms)
                } else {
                    RateOutcome::First
                };
                let tx_out = if m1.dom().contains(tx_counter_name(iface@)) {
                    throughput_of(m1[tx_counter_name(iface@)], sent, now_ms)
                } else {
                    RateOutcome::First
                };
                &&& final(tracker)@ == m1.insert(tx_counter_name(iface@), tx_b)
                &&& (r matches Ok(snap) && snap@ == net_metrics(rx_out, tx_out))
            }),
        },
{
    match parse_net_dev(content, iface) {
        NetReading::Absent => Ok(Snapshot::new()),
        NetReading::Malformed => Err(NetError::MalformedCounters),
        NetReading::Counters { received, sent } => {
            let mut rx_name = "net_received_".to_owned();
            rx_name.append(iface);
            let mut tx_name = "net_sent_".to_owned();
            tx_name.append(iface);
            proof {
                assert(rx_name@ == rx_counter_name(iface@));
                assert(tx_name@ == tx_counter_name(iface@));
            }
            let rx_out = tracker.update_throughput(rx_name.as_str(), received, now_ms);
            let tx_out = tracker.update_throughput(tx_name.as_str(), sent, now_ms);
            let mut snap = Snapshot::new();
            match (rx_out, tx_out) {
                (RateOutcome::Rate(a), RateOutcome::Rate(b)) => {
                    snap.insert("network_name_1", "ethernet".to_owned());
                    snap.insert("network_received_bytes_1", format_u64(a));
                    snap.insert("network_sent_bytes_1", format_u64(b));
                },
                _ => {},
            }
            Ok(snap)
        },
    }
}

} // verus!
