//! CPU accounting: reads the cumulative tick-accounting snapshot (one
//! aggregate line and one line per logical core), derives utilization per
//! counter name through the rate tracker, folds hyperthread-sibling pairs
//! into physical-core loads, and reads per-core clock frequencies from the
//! descriptive snapshot.

use vstd::prelude::*;
use crate::snapshot::Snapshot;
use crate::text::{
    all_digits, dec_seq, dec_value, fields_of, first_ch, format_u64, has_prefix, is_prefix,
    lines_of, parse_u64, split_fields, split_lines, split_once_colon, trim, trim_of,
};
use crate::tracker::{utilization_of, Baseline, RateOutcome, RateTracker};

verus! {

// ---------------------------------------------------------------------------
// Tick-accounting lines
// ---------------------------------------------------------------------------

/// One cumulative tick-accounting line: the counter name, the sum of all
/// tick fields, and the idle field.
pub struct StatLine {
    pub name: String,
    pub total: u64,
    pub idle: u64,
}

/// The mathematical content of a tick-accounting line.
pub struct StatLineV {
    pub name: Seq<char>,
    pub total: u64,
    pub idle: u64,
}

impl View for StatLine {
    type V = StatLineV;

    open spec fn view(&self) -> StatLineV {
        StatLineV { name: self.name@, total: self.total, idle: self.idle }
    }
}

impl DeepView for StatLine {
    type V = StatLineV;

    open spec fn deep_view(&self) -> StatLineV {
        self@
    }
}

/// Whether every field is a non-empty digit string whose value fits.
pub open spec fn fields_numeric(fs: Seq<Seq<char>>) -> bool {
    forall|i: int|
        0 <= i < fs.len() ==> all_digits(#[trigger] fs[i]) && fs[i].len() > 0 && dec_value(fs[i])
            <= u64::MAX
}

/// The sum of the fields' values.
pub open spec fn fields_sum(fs: Seq<Seq<char>>) -> nat
    decreases fs.len(),
{
    if fs.len() == 0 {
        0
    } else {
        fields_sum(fs.drop_last()) + dec_value(fs.last())
    }
}

proof fn lemma_fields_sum_prefix(fs: Seq<Seq<char>>, j: int)
    requires
        0 <= j <= fs.len(),
    ensures
        fields_sum(fs.take(j)) <= fields_sum(fs),
    decreases fs.len(),
{
    if j < fs.len() {
        assert(fs.drop_last().take(j) =~= fs.take(j));
        lemma_fields_sum_prefix(fs.drop_last(), j);
    } else {
        assert(fs.take(j) =~= fs);
    }
}

/// A line that accounts for a CPU counter: its first field begins with
/// the letters of "cpu".
pub open spec fn is_cpu_line(line: Seq<char>) -> bool {
    fields_of(line).len() > 0 && is_prefix("cpu"@, fields_of(line)[0])
}

/// A well-formed tick-accounting line: the name field and at least four tick
/// fields, all numeric, their sum within the counter's width.
pub open spec fn stat_line_ok(line: Seq<char>) -> bool {
    let fs = fields_of(line);
    fs.len() >= 5 && fields_numeric(fs.skip(1)) && fields_sum(fs.skip(1)) <= u64::MAX
}

/// What a well-formed tick-accounting line holds: its name, the sum of all
/// tick fields, and the idle field (the fourth tick field).
pub open spec fn stat_line_of(line: Seq<char>) -> StatLineV {
    let fs = fields_of(line);
    StatLineV {
        name: fs[0],
        total: fields_sum(fs.skip(1)) as u64,
        idle: dec_value(fs[4]) as u64,
    }
}

/// The CPU counter lines parsed out of the tick-accounting text, in document
/// order; a malformed CPU line fails with that line.
pub open spec fn stat_parse(lines: Seq<Seq<char>>) -> Result<Seq<StatLineV>, Seq<char>>
    decreases lines.len(),
{
    if lines.len() == 0 {
        Ok(Seq::empty())
    } else if !is_cpu_line(lines[0]) {
        stat_parse(lines.skip(1))
    } else if !stat_line_ok(lines[0]) {
        Err(lines[0])
    } else {
        match stat_parse(lines.skip(1)) {
            Ok(tail) => Ok(seq![stat_line_of(lines[0])] + tail),
            Err(e) => Err(e),
        }
    }
}

enum LineOutcome {
    NotCpu,
    Malformed,
    Parsed(StatLine),
}

fn parse_stat_line(line: &str) -> (r: LineOutcome)
    ensures
        r is NotCpu <==> !is_cpu_line(line@),
        is_cpu_line(line@) ==> match r {
            LineOutcome::NotCpu => false,
            LineOutcome::Malformed => !stat_line_ok(line@),
            LineOutcome::Parsed(sl) => stat_line_ok(line@) && sl@ == stat_line_of(line@),
        },
{
    let fields = split_fields(line);
    let ghost fdv = fields.deep_view();
    let len = fields.len();
    proof {
        assert(fdv.len() == fields@.len());
    }
    if len == 0 {
        return LineOutcome::NotCpu;
    }
    if !has_prefix(fields[0].as_str(), "cpu") {
        return LineOutcome::NotCpu;
    }
    if len < 5 {
        return LineOutcome::Malformed;
    }
    let ghost s1 = fdv.skip(1);
    proof {
        assert(fdv[0] == fields@[0]@);
        assert(is_cpu_line(line@));
    }
    let mut sum: u64 = 0;
    let mut idle: u64 = 0;
    let mut k: usize = 1;
    while k < len
        invariant
            1 <= k <= len,
            is_cpu_line(line@),
            fdv == fields.deep_view(),
            fdv == fields_of(line@),
            len == fdv.len(),
            5 <= len,
            s1 == fdv.skip(1),
            fields_numeric(s1.take(k - 1)),
            sum as nat == fields_sum(s1.take(k - 1)),
            k > 4 ==> idle as nat == dec_value(fdv[4]),
        decreases len - k,
    {
        proof {
            assert(s1[k - 1] == fdv[k as int]);
        }
        match parse_u64(fields[k].as_str()) {
            None => {
                proof {
                    assert(!(all_digits(s1[k - 1]) && s1[k - 1].len() > 0 && dec_value(s1[k - 1])
                        <= u64::MAX));
                }
                return LineOutcome::Malformed;
            },
            Some(v) => {
                proof {
                    assert(s1.take(k as int).drop_last() =~= s1.take(k - 1));
                    assert(s1.take(k as int).last() == s1[k - 1]);
                }
                if sum > u64::MAX - v {
                    proof {
                        assert(fields_sum(s1.take(k as int)) > u64::MAX);
                        lemma_fields_sum_prefix(s1, k as int);
                    }
                    return LineOutcome::Malformed;
                }
                sum += v;
                if k == 4 {
                    idle = v;
                }
            },
        }
        k += 1;
    }
    proof {
        assert(s1.take(len - 1) =~= s1);
    }
    LineOutcome::Parsed(StatLine { name: fields[0].clone(), total: sum, idle })
}

/// Why CPU accounting rejected its input.
#[derive(Debug)]
pub enum CpuError {
    /// A CPU counter line is not whitespace-separated numbers after its name,
    /// has fewer than four tick fields, or its tick sum does not fit.
    MalformedStatLine { line: String },
    /// A core-id value in the descriptive snapshot is not a number that fits.
    MalformedCoreId { value: String },
}

/// The mathematical content of a CPU accounting error.
pub enum CpuErrV {
    MalformedStatLine { line: Seq<char> },
    MalformedCoreId { value: Seq<char> },
}

impl View for CpuError {
    type V = CpuErrV;

    open spec fn view(&self) -> CpuErrV {
        match self {
            CpuError::MalformedStatLine { line } => CpuErrV::MalformedStatLine { line: line@ },
            CpuError::MalformedCoreId { value } => CpuErrV::MalformedCoreId { value: value@ },
        }
    }
}

/// Parses the tick-accounting text into its CPU counter lines.
pub fn parse_stat(content: &str) -> (r: Result<Vec<StatLine>, CpuError>)
    ensures
        r matches Ok(v) ==> stat_parse(lines_of(content@)) == Ok::<Seq<StatLineV>, Seq<char>>(
            v.deep_view(),
        ),
        r matches Err(e) ==> (e@ matches CpuErrV::MalformedStatLine { line } && stat_parse(
            lines_of(content@),
        ) == Err::<Seq<StatLineV>, Seq<char>>(line)),
{
    let lines = split_lines(content);
    let ghost ldv = lines.deep_view();
    let nlines = lines.len();
    let mut acc: Vec<StatLine> = Vec::new();
    let mut i: usize = 0;
    proof {
        assert(ldv.skip(0) =~= ldv);
    }
    while i < nlines
        invariant
            0 <= i <= nlines,
            ldv == lines.deep_view(),
            ldv == lines_of(content@),
            nlines == ldv.len(),
            stat_parse(ldv) == match stat_parse(ldv.skip(i as int)) {
                Ok(tail) => Ok::<Seq<StatLineV>, Seq<char>>(acc.deep_view() + tail),
                Err(e) => Err::<Seq<StatLineV>, Seq<char>>(e),
            },
        decreases nlines - i,
    {
        proof {
            assert(ldv.skip(i as int)[0] == ldv[i as int]);
            assert(ldv.skip(i as int).skip(1) =~= ldv.skip(i + 1));
        }
        match parse_stat_line(lines[i].as_str()) {
            LineOutcome::NotCpu => {},
            LineOutcome::Malformed => {
                proof {
                    assert(ldv[i as int] == lines@[i as int]@);
                    assert(stat_parse(ldv.skip(i as int)) == Err::<Seq<StatLineV>, Seq<char>>(
                        ldv[i as int],
                    ));
                }
                return Err(CpuError::MalformedStatLine { line: lines[i].clone() });
            },
            LineOutcome::Parsed(sl) => {
                let ghost pre = acc.deep_view();
                let ghost slv = sl@;
                acc.push(sl);
                proof {
                    assert(acc.deep_view() =~= pre.push(slv));
                    assert(pre.push(slv) =~= pre + seq![slv]);
                    match stat_parse(ldv.skip(i + 1)) {
                        Ok(t2) => {
                            assert(pre + (seq![slv] + t2) =~= (pre + seq![slv]) + t2);
                        },
                        Err(_) => {},
                    }
                }
            },
        }
        i += 1;
    }
    proof {
        assert(ldv.skip(nlines as int) =~= Seq::<Seq<char>>::empty());
        assert(acc.deep_view() + Seq::<StatLineV>::empty() =~= acc.deep_view());
    }
    Ok(acc)
}

// ---------------------------------------------------------------------------
// Utilization through the rate tracker
// ---------------------------------------------------------------------------

/// The tracker's baselines after every line's observation is recorded, in
/// line order.
pub open spec fn baselines_after(
    m: Map<Seq<char>, Baseline>,
    ls: Seq<StatLineV>,
    now_ms: u64,
) -> Map<Seq<char>, Baseline>
    decreases ls.len(),
{
    if ls.len() == 0 {
        m
    } else {
        baselines_after(
            m.insert(
                ls[0].name,
                Baseline { total: ls[0].total, secondary: ls[0].idle, instant_ms: now_ms },
            ),
            ls.skip(1),
            now_ms,
        )
    }
}

/// Each line's name paired with what its observation yields, the baselines
/// advancing from line to line.
pub open spec fn util_results(
    m: Map<Seq<char>, Baseline>,
    ls: Seq<StatLineV>,
    now_ms: u64,
) -> Seq<(Seq<char>, RateOutcome)>
    decreases ls.len(),
{
    if ls.len() == 0 {
        Seq::empty()
    } else {
        let outcome = if m.dom().contains(ls[0].name) {
            utilization_of(m[ls[0].name], ls[0].total, ls[0].idle)
        } else {
            RateOutcome::First
        };
        seq![(ls[0].name, outcome)] + util_results(
            m.insert(
                ls[0].name,
                Baseline { total: ls[0].total, secondary: ls[0].idle, instant_ms: now_ms },
            ),
            ls.skip(1),
            now_ms,
        )
    }
}

/// Feeds every parsed line to the tracker and collects the outcomes.
pub fn stat_utilizations(
    lines: &Vec<StatLine>,
    tracker: &mut RateTracker,
    now_ms: u64,
) -> (r: Vec<(String, RateOutcome)>)
    requires
        old(tracker).wf(),
    ensures
        final(tracker).wf(),
        final(tracker)@ == baselines_after(old(tracker)@, lines.deep_view(), now_ms),
        r.deep_view() == util_results(old(tracker)@, lines.deep_view(), now_ms),
{
    proof {
        assert(lines.deep_view().skip(0) =~= lines.deep_view());
    }
    utils_from(lines, 0, tracker, now_ms)
}

fn utils_from(lines: &Vec<StatLine>, i: usize, tracker: &mut RateTracker, now_ms: u64) -> (r: Vec<
    (String, RateOutcome),
>)
    requires
        i <= lines.len(),
        old(tracker).wf(),
    ensures
        final(tracker).wf(),
        final(tracker)@ == baselines_after(
            old(tracker)@,
            lines.deep_view().skip(i as int),
            now_ms,
        ),
        r.deep_view() == util_results(old(tracker)@, lines.deep_view().skip(i as int), now_ms),
    decreases lines.len() - i,
{
    let ghost ldv = lines.deep_view();
    if i == lines.len() {
        let v: Vec<(String, RateOutcome)> = Vec::new();
        proof {
            assert(ldv.skip(i as int) =~= Seq::<StatLineV>::empty());
            assert(v.deep_view() =~= Seq::<(Seq<char>, RateOutcome)>::empty());
        }
        v
    } else {
        proof {
            assert(ldv.skip(i as int)[0] == ldv[i as int]);
            assert(ldv[i as int] == lines@[i as int]@);
            assert(ldv.skip(i as int).skip(1) =~= ldv.skip(i + 1));
        }
        let outcome = tracker.update_utilization(
            lines[i].name.as_str(),
            lines[i].total,
            lines[i].idle,
            now_ms,
        );
        let mut rest = utils_from(lines, i + 1, tracker, now_ms);
        let ghost restdv = rest.deep_view();
        let mut v: Vec<(String, RateOutcome)> = Vec::new();
        v.push((lines[i].name.clone(), outcome));
        v.append(&mut rest);
        proof {
            assert(v.deep_view() =~= seq![(ldv[i as int].name, outcome)] + restdv);
        }
        v
    }
}

// ---------------------------------------------------------------------------
// Metric assembly
// ---------------------------------------------------------------------------

/// The outcome recorded last for a counter name, if any.
pub open spec fn lookup_util(us: Seq<(Seq<char>, RateOutcome)>, name: Seq<char>) -> Option<
    RateOutcome,
>
    decreases us.len(),
{
    if us.len() == 0 {
        None
    } else if us.last().0 == name {
        Some(us.last().1)
    } else {
        lookup_util(us.drop_last(), name)
    }
}

fn find_util(us: &Vec<(String, RateOutcome)>, i: usize, name: &str) -> (r: Option<RateOutcome>)
    requires
        i <= us.len(),
    ensures
        r == lookup_util(us.deep_view().take(i as int), name@),
    decreases i,
{
    let ghost udv = us.deep_view();
    if i == 0 {
        proof {
            assert(udv.take(0) =~= Seq::<(Seq<char>, RateOutcome)>::empty());
        }
        None
    } else {
        proof {
            assert(udv.take(i as int).last() == udv[i - 1]);
            assert(udv[i - 1] == (us@[i - 1].0@, us@[i - 1].1));
            assert(udv.take(i as int).drop_last() =~= udv.take(i - 1));
        }
        if crate::text::str_eq(us[i - 1].0.as_str(), name) {
            Some(us[i - 1].1)
        } else {
            find_util(us, i - 1, name)
        }
    }
}

/// The name of a logical core's counter.
pub open spec fn cpu_name(i: nat) -> Seq<char> {
    "cpu"@ + dec_seq(i)
}

/// The metric name for a physical core's load.
pub open spec fn load_name(k: nat) -> Seq<char> {
    "cpu_core_load_"@ + dec_seq(k)
}

/// The metric name for a physical core's clock frequency.
pub open spec fn freq_name(k: nat) -> Seq<char> {
    "cpu_core_frequency_"@ + dec_seq(k)
}

/// How many physical cores sibling averaging covers.
pub const CORE_PAIRS: usize = 16;

/// The physical-core load metrics for the first `k` physical cores: where
/// both logical siblings `2j` and `2j + 1` report a rate, their integer
/// average stands under the 1-based physical core's name; where either is
/// missing, that core has no entry.
pub open spec fn core_loads(us: Seq<(Seq<char>, RateOutcome)>, k: nat) -> Map<
    Seq<char>,
    Seq<char>,
>
    decreases k,
{
    if k == 0 {
        Map::empty()
    } else {
        let m = core_loads(us, (k - 1) as nat);
        match (lookup_util(us, cpu_name((2 * (k - 1)) as nat)), lookup_util(
            us,
            cpu_name((2 * (k - 1) + 1) as nat),
        )) {
            (Some(RateOutcome::Rate(a)), Some(RateOutcome::Rate(b))) => m.insert(
                load_name(k),
                dec_seq(((a + b) / 2) as nat),
            ),
            _ => m,
        }
    }
}

/// The tick-accounting metrics: the physical-core loads, and the aggregate
/// counter's rate as the overall utilization where it reported one.
pub open spec fn stat_metrics(us: Seq<(Seq<char>, RateOutcome)>) -> Map<Seq<char>, Seq<char>> {
    let base = core_loads(us, CORE_PAIRS as nat);
    match lookup_util(us, "cpu"@) {
        Some(RateOutcome::Rate(u)) => base.insert("cpu_utilization"@, dec_seq(u as nat)),
        _ => base,
    }
}

/// Reads the tick-accounting snapshot: every CPU counter line is recorded in
/// the tracker under the line's own name, and the utilizations that result
/// become the physical-core load and overall utilization metrics. A
/// malformed CPU line rejects the snapshot and leaves the tracker untouched.
pub fn get_proc_stat(content: &str, tracker: &mut RateTracker, now_ms: u64) -> (r: Result<
    Snapshot,
    CpuError,
>)
    requires
        old(tracker).wf(),
    ensures
        final(tracker).wf(),
        match stat_parse(lines_of(content@)) {
            Err(line) => (r matches Err(e) && e@ == (CpuErrV::MalformedStatLine { line }))
                && *final(tracker) == *old(tracker),
            Ok(ls) => (r matches Ok(snap) && snap@ == stat_metrics(
                util_results(old(tracker)@, ls, now_ms),
            )) && final(tracker)@ == baselines_after(old(tracker)@, ls, now_ms),
        },
{
    let parsed = match parse_stat(content) {
        Ok(v) => v,
        Err(e) => {
            return Err(e);
        },
    };
    let utils = stat_utilizations(&parsed, tracker, now_ms);
    let ghost udv = utils.deep_view();
    let nutils = utils.len();
    proof {
        assert(udv.take(nutils as int) =~= udv);
    }
    let mut snap = Snapshot::new();
    let mut k: usize = 0;
    while k < CORE_PAIRS
        invariant
            0 <= k <= CORE_PAIRS,
            udv == utils.deep_view(),
            nutils == udv.len(),
            snap@ == core_loads(udv, k as nat),
        decreases CORE_PAIRS - k,
    {
        proof {
            assert(udv.take(nutils as int) =~= udv);
        }
        let mut name_a = "cpu".to_owned();
        name_a.append(format_u64(2 * (k as u64)).as_str());
        let mut name_b = "cpu".to_owned();
        name_b.append(format_u64(2 * (k as u64) + 1).as_str());
        proof {
            assert(name_a@ == cpu_name((2 * k) as nat));
            assert(name_b@ == cpu_name((2 * k + 1) as nat));
        }
        let a = find_util(&utils, nutils, name_a.as_str());
        let b = find_util(&utils, nutils, name_b.as_str());
        match (a, b) {
            (Some(RateOutcome::Rate(ra)), Some(RateOutcome::Rate(rb))) => {
                let avg = ((ra as u128 + rb as u128) / 2) as u64;
                let mut key = "cpu_core_load_".to_owned();
                key.append(format_u64(k as u64 + 1).as_str());
                proof {
                    assert(key@ == load_name((k + 1) as nat));
                    assert(avg as nat == ((ra + rb) / 2) as nat);
                }
                snap.insert(key.as_str(), format_u64(avg));
            },
            _ => {},
        }
        k += 1;
    }
    match find_util(&utils, nutils, "cpu") {
        Some(RateOutcome::Rate(u)) => {
            snap.insert("cpu_utilization", format_u64(u));
        },
        _ => {},
    }
    Ok(snap)
}

// ---------------------------------------------------------------------------
// Per-core clock frequencies
// ---------------------------------------------------------------------------

/// The frequency metrics read off the descriptive snapshot: a core-id line
/// selects the physical core; a clock-frequency line files its value under
/// that core's 1-based name, the first value seen winning. A core-id value
/// that is not a number fails with that value.
pub open spec fn cpuinfo_fold(
    lines: Seq<Seq<char>>,
    core_id: nat,
    m: Map<Seq<char>, Seq<char>>,
) -> Result<Map<Seq<char>, Seq<char>>, Seq<char>>
    decreases lines.len(),
{
    if lines.len() == 0 {
        Ok(m)
    } else {
        let line = lines[0];
        let ci = first_ch(line, ':');
        if ci == line.len() {
            cpuinfo_fold(lines.skip(1), core_id, m)
        } else {
            let key = trim_of(line.take(ci));
            let val = trim_of(line.skip(ci + 1));
            if key == "core id"@ {
                if val.len() > 0 && all_digits(val) && dec_value(val) <= u32::MAX {
                    cpuinfo_fold(lines.skip(1), dec_value(val), m)
                } else {
                    Err(val)
                }
            } else if key == "cpu MHz"@ {
                let name = freq_name(core_id + 1);
                cpuinfo_fold(
                    lines.skip(1),
                    core_id,
                    if m.dom().contains(name) {
                        m
                    } else {
                        m.insert(name, val)
                    },
                )
            } else {
                cpuinfo_fold(lines.skip(1), core_id, m)
            }
        }
    }
}

/// Reads the per-core clock frequencies out of the descriptive snapshot.
pub fn get_proc_cpuinfo(content: &str) -> (r: Result<Snapshot, CpuError>)
    ensures
        match cpuinfo_fold(lines_of(content@), 0, Map::<Seq<char>, Seq<char>>::empty()) {
            Ok(m) => r matches Ok(snap) && snap@ == m,
            Err(v) => r matches Err(e) && e@ == (CpuErrV::MalformedCoreId { value: v }),
        },
{
    let lines = split_lines(content);
    let ghost ldv = lines.deep_view();
    let nlines = lines.len();
    let mut snap = Snapshot::new();
    let mut core_id: u32 = 0;
    let mut i: usize = 0;
    proof {
        assert(ldv.skip(0) =~= ldv);
    }
    while i < nlines
        invariant
            0 <= i <= nlines,
            ldv == lines.deep_view(),
            ldv == lines_of(content@),
            nlines == ldv.len(),
            cpuinfo_fold(ldv, 0, Map::<Seq<char>, Seq<char>>::empty()) == cpuinfo_fold(
                ldv.skip(i as int),
                core_id as nat,
                snap@,
            ),
        decreases nlines - i,
    {
        proof {
            assert(ldv.skip(i as int)[0] == ldv[i as int]);
            assert(ldv[i as int] == lines@[i as int]@);
            assert(ldv.skip(i as int).skip(1) =~= ldv.skip(i + 1));
            crate::text::lemma_first_ch_bounds(ldv[i as int], ':');
        }
        let ghost pre_core = core_id;
        let ghost pre_snap = snap@;
        match split_once_colon(lines[i].as_str()) {
            None => {
                proof {
                    assert(cpuinfo_fold(ldv.skip(i as int), pre_core as nat, pre_snap)
                        == cpuinfo_fold(ldv.skip(i + 1), core_id as nat, snap@));
                }
            },
            Some((key_raw, val_raw)) => {
                let key = trim(key_raw.as_str());
                let val = trim(val_raw.as_str());
                if crate::text::str_eq(key.as_str(), "core id") {
                    match parse_u64(val.as_str()) {
                        Some(v) if v <= u32::MAX as u64 => {
                            core_id = v as u32;
                        },
                        _ => {
                            return Err(CpuError::MalformedCoreId { value: val });
                        },
                    }
                } else if crate::text::str_eq(key.as_str(), "cpu MHz") {
                    let mut name = "cpu_core_frequency_".to_owned();
                    name.append(format_u64(core_id as u64 + 1).as_str());
                    proof {
                        assert(name@ == freq_name(core_id as nat + 1));
                    }
                    snap.insert_if_absent(name.as_str(), val);
                    proof {
                        assert(cpuinfo_fold(ldv.skip(i as int), pre_core as nat, pre_snap)
                            == cpuinfo_fold(ldv.skip(i + 1), core_id as nat, snap@));
                    }
                } else {
                    proof {
                        assert(cpuinfo_fold(ldv.skip(i as int), pre_core as nat, pre_snap)
                            == cpuinfo_fold(ldv.skip(i + 1), core_id as nat, snap@));
                    }
                }
            },
        }
        i += 1;
    }
    proof {
        assert(ldv.skip(nlines as int) =~= Seq::<Seq<char>>::empty());
    }
    Ok(snap)
}

/// Reads both CPU snapshots: the tick-accounting metrics and the clock
/// frequencies, merged into one mapping.
pub fn get_cpu_data(
    stat_content: &str,
    cpuinfo_content: &str,
    tracker: &mut RateTracker,
    now_ms: u64,
) -> (r: Result<Snapshot, CpuError>)
    requires
        old(tracker).wf(),
    ensures
        final(tracker).wf(),
        match stat_parse(lines_of(stat_content@)) {
            Err(line) => (r matches Err(e) && e@ == (CpuErrV::MalformedStatLine { line }))
                && *final(tracker) == *old(tracker),
            Ok(ls) => final(tracker)@ == baselines_after(old(tracker)@, ls, now_ms)
                && match cpuinfo_fold(
                lines_of(cpuinfo_content@),
                0,
                Map::<Seq<char>, Seq<char>>::empty(),
            ) {
                Err(v) => r matches Err(e) && e@ == (CpuErrV::MalformedCoreId { value: v }),
                Ok(m2) => r matches Ok(snap) && snap@ == stat_metrics(
                    util_results(old(tracker)@, ls, now_ms),
                ).union_prefer_right(m2),
            },
        },
{
    let mut snap = match get_proc_stat(stat_content, tracker, now_ms) {
        Ok(s) => s,
        Err(e) => {
            return Err(e);
        },
    };
    let freq = match get_proc_cpuinfo(cpuinfo_content) {
        Ok(s) => s,
        Err(e) => {
            return Err(e);
        },
    };
    snap.merge(&freq);
    Ok(snap)
}

} // verus!
