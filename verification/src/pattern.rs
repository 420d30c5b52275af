//! The pattern extractor: declarative metric-name/pattern rules applied line
//! by line to a block of text, with optional value transforms applied to
//! what was captured. The regular-expression engine stands behind trusted
//! wrappers; everything around it is verified.

use vstd::prelude::*;
use crate::snapshot::Snapshot;
use crate::text::{
    dec_scale, dec_value, fixed_seq, is_decimal, lines_of, mantissa_digits, parse_decimal,
    format_fixed, split_lines,
};

verus! {

// ---------------------------------------------------------------------------
// Trusted view of the regular-expression engine
// ---------------------------------------------------------------------------

/// Whether the engine accepts a pattern as a valid regular expression.
pub uninterp spec fn regex_ok(pattern: Seq<char>) -> bool;

/// What capture group 1 of the first match of a valid pattern on a line
/// holds; nothing where the pattern does not match the line, has no group 1,
/// or group 1 took no part in the match.
pub uninterp spec fn regex_capture(pattern: Seq<char>, line: Seq<char>) -> Option<Seq<char>>;

/// Whether a valid pattern matches anywhere in a text.
pub uninterp spec fn regex_match(pattern: Seq<char>, text: Seq<char>) -> bool;

/// What trying a rule's pattern on one line yields.
pub enum CaptureOutcome {
    /// The pattern is not a valid regular expression.
    InvalidPattern,
    /// The pattern does not capture on this line.
    NoMatch,
    /// What capture group 1 matched.
    Found(String),
}

/// Relies on regex::Regex::new, Regex::captures, Captures::get and
/// Match::as_str: compiling fails exactly on invalid patterns, and the first
/// match's capture group 1 depends on the pattern and the line alone.
#[verifier::external_body]
fn capture_first(pattern: &str, line: &str) -> (r: CaptureOutcome)
    ensures
        r is InvalidPattern <==> !regex_ok(pattern@),
        regex_ok(pattern@) ==> match r {
            CaptureOutcome::InvalidPattern => false,
            CaptureOutcome::NoMatch => regex_capture(pattern@, line@) is None,
            CaptureOutcome::Found(v) => regex_capture(pattern@, line@) == Some(v@),
        },
{
    match regex::Regex::new(pattern) {
        Err(_) => CaptureOutcome::InvalidPattern,
        Ok(re) => match re.captures(line).and_then(|c| c.get(1)) {
            None => CaptureOutcome::NoMatch,
            Some(m) => CaptureOutcome::Found(m.as_str().to_string()),
        },
    }
}

/// Relies on regex::Regex::new and Regex::is_match: compiling fails exactly
/// on invalid patterns, and whether a valid pattern matches depends on the
/// pattern and the text alone.
#[verifier::external_body]
pub(crate) fn regex_is_match(pattern: &str, text: &str) -> (r: Option<bool>)
    ensures
        r is None <==> !regex_ok(pattern@),
        r matches Some(b) ==> b == regex_match(pattern@, text@),
{
    match regex::Regex::new(pattern) {
        Err(_) => None,
        Ok(re) => Some(re.is_match(text)),
    }
}

// ---------------------------------------------------------------------------
// Rules and transforms
// ---------------------------------------------------------------------------

/// A transform applied to a captured value before it is stored.
#[derive(Clone, Copy, PartialEq, Eq, Structural, Debug)]
pub enum Transform {
    /// Kilobytes to gigabytes: divide by 1024 * 1024, rendered exactly.
    KilobytesToGigabytes,
    /// Millivolts to volts: divide by 1000, rendered exactly.
    MillivoltsToVolts,
}

/// 5^20: dividing by 2^20 is multiplying by this and shifting the decimal
/// point 20 places left.
pub const POW5_20: u128 = 95367431640625;

/// The transform's output for a raw captured value: the exact decimal
/// rendering of the quotient. Nothing where the value is not a decimal
/// literal, or its digits do not fit a 64-bit mantissa, or its scale comes
/// near the machine's integer limit.
pub open spec fn transform_seq(t: Transform, s: Seq<char>) -> Option<Seq<char>> {
    if !(is_decimal(s) && dec_value(mantissa_digits(s)) <= u64::MAX && dec_scale(s) + 20
        <= usize::MAX) {
        None
    } else {
        let m = dec_value(mantissa_digits(s));
        let d = dec_scale(s);
        match t {
            Transform::KilobytesToGigabytes => Some(fixed_seq(m * POW5_20 as nat, d + 20)),
            Transform::MillivoltsToVolts => Some(fixed_seq(m, d + 3)),
        }
    }
}

/// Applies a transform to a raw captured value.
pub fn apply_transform(t: Transform, value: &str) -> (r: Option<String>)
    ensures
        r matches Some(v) ==> transform_seq(t, value@) == Some(v@),
        r is None <==> transform_seq(t, value@) is None,
{
    match parse_decimal(value) {
        None => None,
        Some((m, d)) => {
            if d > usize::MAX - 20 {
                return None;
            }
            match t {
                Transform::KilobytesToGigabytes => {
                    proof {
                        assert(m as u128 * POW5_20 <= u64::MAX as u128 * POW5_20)
                            by (nonlinear_arith)
                            requires
                                m as u128 <= u64::MAX as u128,
                        ;
                    }
                    let wide = (m as u128) * POW5_20;
                    Some(format_fixed(wide, d + 20))
                },
                Transform::MillivoltsToVolts => Some(format_fixed(m as u128, d + 3)),
            }
        },
    }
}

/// One extraction rule: a metric name, a single-capture pattern, and an
/// optional transform applied to the captured value.
pub struct Rule {
    pub name: String,
    pub pattern: String,
    pub transform: Option<Transform>,
}

/// The mathematical content of a rule.
pub struct RuleV {
    pub name: Seq<char>,
    pub pattern: Seq<char>,
    pub transform: Option<Transform>,
}

impl View for Rule {
    type V = RuleV;

    open spec fn view(&self) -> RuleV {
        RuleV { name: self.name@, pattern: self.pattern@, transform: self.transform }
    }
}

impl DeepView for Rule {
    type V = RuleV;

    open spec fn deep_view(&self) -> RuleV {
        self@
    }
}

impl Rule {
    /// Builds a rule from its parts.
    pub fn new(name: &str, pattern: &str, transform: Option<Transform>) -> (r: Rule)
        ensures
            r@.name == name@,
            r@.pattern == pattern@,
            r@.transform == transform,
    {
        Rule { name: name.to_owned(), pattern: pattern.to_owned(), transform }
    }
}

// ---------------------------------------------------------------------------
// Extraction
// ---------------------------------------------------------------------------

/// Why an extraction failed.
#[derive(Debug)]
pub enum ExtractError {
    /// A rule's pattern is not a valid regular expression.
    InvalidPattern { name: String },
    /// The named metric's stored value reached its transform but is not a
    /// decimal literal the transform can take.
    MalformedValue { name: String, value: String },
}

/// The mathematical content of an extraction error.
pub enum ExtractErrV {
    InvalidPattern { name: Seq<char> },
    MalformedValue { name: Seq<char>, value: Seq<char> },
}

impl View for ExtractError {
    type V = ExtractErrV;

    open spec fn view(&self) -> ExtractErrV {
        match self {
            ExtractError::InvalidPattern { name } => ExtractErrV::InvalidPattern { name: name@ },
            ExtractError::MalformedValue { name, value } => ExtractErrV::MalformedValue {
                name: name@,
                value: value@,
            },
        }
    }
}

/// One line scanned against the rules in order: a capture stores the value
/// under the rule's name, over anything stored earlier.
pub open spec fn scan_rules(
    m: Map<Seq<char>, Seq<char>>,
    rules: Seq<RuleV>,
    line: Seq<char>,
) -> Map<Seq<char>, Seq<char>>
    decreases rules.len(),
{
    if rules.len() == 0 {
        m
    } else {
        let m1 = match regex_capture(rules[0].pattern, line) {
            Some(v) => m.insert(rules[0].name, v),
            None => m,
        };
        scan_rules(m1, rules.skip(1), line)
    }
}

/// All lines scanned in document order: on a shared name, the value from the
/// later line wins.
pub open spec fn scan_lines(
    m: Map<Seq<char>, Seq<char>>,
    lines: Seq<Seq<char>>,
    rules: Seq<RuleV>,
) -> Map<Seq<char>, Seq<char>>
    decreases lines.len(),
{
    if lines.len() == 0 {
        m
    } else {
        scan_lines(scan_rules(m, rules, lines[0]), lines.skip(1), rules)
    }
}

/// Every rule's transform applied to the value stored under its name, in
/// rule order; a value the transform cannot take stops extraction with a
/// malformed-value error.
pub open spec fn apply_transforms(
    m: Map<Seq<char>, Seq<char>>,
    rules: Seq<RuleV>,
) -> Result<Map<Seq<char>, Seq<char>>, ExtractErrV>
    decreases rules.len(),
{
    if rules.len() == 0 {
        Ok(m)
    } else {
        let r0 = rules[0];
        match r0.transform {
            Some(t) => {
                if m.dom().contains(r0.name) {
                    match transform_seq(t, m[r0.name]) {
                        Some(v) => apply_transforms(m.insert(r0.name, v), rules.skip(1)),
                        None => Err(
                            ExtractErrV::MalformedValue { name: r0.name, value: m[r0.name] },
                        ),
                    }
                } else {
                    apply_transforms(m, rules.skip(1))
                }
            },
            None => apply_transforms(m, rules.skip(1)),
        }
    }
}

/// Index of the first rule whose pattern the engine rejects, or the number
/// of rules if it accepts them all.
pub open spec fn first_bad(rules: Seq<RuleV>) -> int
    decreases rules.len(),
{
    if rules.len() == 0 {
        0
    } else if !regex_ok(rules[0].pattern) {
        0
    } else {
        1 + first_bad(rules.skip(1))
    }
}

proof fn lemma_first_bad_is(rules: Seq<RuleV>, i: int)
    requires
        0 <= i <= rules.len(),
        forall|j: int| 0 <= j < i ==> regex_ok((#[trigger] rules[j]).pattern),
        i < rules.len() ==> !regex_ok(rules[i].pattern),
    ensures
        first_bad(rules) == i,
    decreases rules.len(),
{
    if rules.len() > 0 && regex_ok(rules[0].pattern) {
        assert(i >= 1);
        assert(forall|j: int| 0 <= j < i - 1 ==> (#[trigger] rules.skip(1)[j]) == rules[j + 1]);
        assert(i - 1 < rules.skip(1).len() ==> rules.skip(1)[i - 1] == rules[i]);
        lemma_first_bad_is(rules.skip(1), i - 1);
    }
}

/// What extracting a text with a rule list yields: scan every line against
/// every rule, later lines winning, then apply the transforms; an invalid
/// pattern fails with the first offending rule's name.
pub open spec fn extract_spec(text: Seq<char>, rules: Seq<RuleV>) -> Result<
    Map<Seq<char>, Seq<char>>,
    ExtractErrV,
> {
    if first_bad(rules) < rules.len() {
        Err(ExtractErrV::InvalidPattern { name: rules[first_bad(rules)].name })
    } else {
        apply_transforms(scan_lines(Map::empty(), lines_of(text), rules), rules)
    }
}

proof fn lemma_scan_lines_snoc(
    m: Map<Seq<char>, Seq<char>>,
    lines: Seq<Seq<char>>,
    rules: Seq<RuleV>,
)
    requires
        lines.len() > 0,
    ensures
        scan_lines(m, lines, rules) == scan_rules(
            scan_lines(m, lines.drop_last(), rules),
            rules,
            lines.last(),
        ),
    decreases lines.len(),
{
    let m1 = scan_rules(m, rules, lines[0]);
    assert(scan_lines(m, lines, rules) == scan_lines(m1, lines.skip(1), rules));
    if lines.len() > 1 {
        lemma_scan_lines_snoc(m1, lines.skip(1), rules);
        assert(lines.skip(1).drop_last() =~= lines.drop_last().skip(1));
        assert(lines.skip(1).last() == lines.last());
        assert(lines.drop_last()[0] == lines[0]);
        assert(scan_lines(m, lines.drop_last(), rules) == scan_lines(
            m1,
            lines.drop_last().skip(1),
            rules,
        ));
    } else {
        assert(lines.skip(1) =~= Seq::<Seq<char>>::empty());
        assert(lines.drop_last() =~= Seq::<Seq<char>>::empty());
        assert(lines[0] == lines.last());
        assert(scan_lines(m1, lines.skip(1), rules) == m1);
        assert(scan_lines(m, lines.drop_last(), rules) == m);
    }
}

/// Scanning one line with the rules in order, read from the last rule: the
/// last capture for a name is what ends up stored.
proof fn lemma_scan_rules_snoc(
    m: Map<Seq<char>, Seq<char>>,
    rules: Seq<RuleV>,
    line: Seq<char>,
)
    requires
        rules.len() > 0,
    ensures
        scan_rules(m, rules, line) == match regex_capture(rules.last().pattern, line) {
            Some(v) => scan_rules(m, rules.drop_last(), line).insert(rules.last().name, v),
            None => scan_rules(m, rules.drop_last(), line),
        },
    decreases rules.len(),
{
    let m1 = match regex_capture(rules[0].pattern, line) {
        Some(v) => m.insert(rules[0].name, v),
        None => m,
    };
    assert(scan_rules(m, rules, line) == scan_rules(m1, rules.skip(1), line));
    if rules.len() > 1 {
        lemma_scan_rules_snoc(m1, rules.skip(1), line);
        assert(rules.skip(1).drop_last() =~= rules.drop_last().skip(1));
        assert(rules.skip(1).last() == rules.last());
        assert(rules.drop_last()[0] == rules[0]);
        assert(scan_rules(m, rules.drop_last(), line) == scan_rules(
            m1,
            rules.drop_last().skip(1),
            line,
        ));
    } else {
        assert(rules.skip(1) =~= Seq::<RuleV>::empty());
        assert(rules.drop_last() =~= Seq::<RuleV>::empty());
        assert(rules[0] == rules.last());
        assert(scan_rules(m1, rules.skip(1), line) == m1);
        assert(scan_rules(m, rules.drop_last(), line) == m);
    }
}

/// Extracts metric values from a text: every line is tried against every
/// rule's pattern, the value from the later line winning for each name, and
/// each rule's transform is then applied to its name's stored value. A name
/// no line matched is absent from the result.
pub fn extract_values(content: &str, rules: &Vec<Rule>) -> (r: Result<Snapshot, ExtractError>)
    ensures
        r matches Ok(snap) ==> extract_spec(content@, rules.deep_view()) == Ok::<
            Map<Seq<char>, Seq<char>>,
            ExtractErrV,
        >(snap@),
        r matches Err(e) ==> extract_spec(content@, rules.deep_view()) == Err::<
            Map<Seq<char>, Seq<char>>,
            ExtractErrV,
        >(e@),
{
    let ghost rdv = rules.deep_view();
    let nrules = rules.len();
    proof {
        assert(rdv.len() == rules@.len());
    }

    // Reject any rule whose pattern the engine does not accept.
    let mut j: usize = 0;
    while j < nrules
        invariant
            0 <= j <= nrules,
            nrules == rdv.len(),
            rdv == rules.deep_view(),
            forall|j2: int| 0 <= j2 < j ==> regex_ok((#[trigger] rdv[j2]).pattern),
        decreases nrules - j,
    {
        if regex_is_match(rules[j].pattern.as_str(), "").is_none() {
            proof {
                lemma_first_bad_is(rdv, j as int);
            }
            return Err(ExtractError::InvalidPattern { name: rules[j].name.clone() });
        }
        j += 1;
    }
    proof {
        lemma_first_bad_is(rdv, nrules as int);
    }

    // Scan every line against every rule; the later line wins.
    let lines = split_lines(content);
    let ghost ldv = lines.deep_view();
    let nlines = lines.len();
    let mut snap = Snapshot::new();
    let mut li: usize = 0;
    while li < nlines
        invariant
            0 <= li <= nlines,
            nlines == ldv.len(),
            ldv == lines.deep_view(),
            rdv == rules.deep_view(),
            nrules == rdv.len(),
            forall|j2: int| 0 <= j2 < nrules ==> regex_ok((#[trigger] rdv[j2]).pattern),
            snap@ == scan_lines(Map::<Seq<char>, Seq<char>>::empty(), ldv.take(li as int), rdv),
        decreases nlines - li,
    {
        let mut rj: usize = 0;
        while rj < nrules
            invariant
                0 <= rj <= nrules,
                0 <= li < nlines,
                nlines == ldv.len(),
                ldv == lines.deep_view(),
                rdv == rules.deep_view(),
                nrules == rdv.len(),
                forall|j2: int| 0 <= j2 < nrules ==> regex_ok((#[trigger] rdv[j2]).pattern),
                snap@ == scan_rules(
                    scan_lines(Map::<Seq<char>, Seq<char>>::empty(), ldv.take(li as int), rdv),
                    rdv.take(rj as int),
                    ldv[li as int],
                ),
            decreases nrules - rj,
        {
            let outcome = capture_first(rules[rj].pattern.as_str(), lines[li].as_str());
            proof {
                assert(rdv.take(rj + 1).drop_last() =~= rdv.take(rj as int));
                assert(rdv.take(rj + 1).last() == rdv[rj as int]);
                lemma_scan_rules_snoc(
                    scan_lines(Map::<Seq<char>, Seq<char>>::empty(), ldv.take(li as int), rdv),
                    rdv.take(rj + 1),
                    ldv[li as int],
                );
            }
            match outcome {
                CaptureOutcome::Found(v) => {
                    snap.insert(rules[rj].name.as_str(), v);
                },
                CaptureOutcome::NoMatch => {},
                CaptureOutcome::InvalidPattern => {
                    proof {
                        assert(regex_ok(rdv[rj as int].pattern));
                        assert(false);
                    }
                },
            }
            rj += 1;
        }
        proof {
            assert(rdv.take(nrules as int) =~= rdv);
            assert(ldv.take(li + 1).drop_last() =~= ldv.take(li as int));
            assert(ldv.take(li + 1).last() == ldv[li as int]);
            lemma_scan_lines_snoc(Map::<Seq<char>, Seq<char>>::empty(), ldv.take(li + 1), rdv);
        }
        li += 1;
    }
    proof {
        assert(ldv.take(nlines as int) =~= ldv);
        assert(ldv == lines_of(content@));
    }

    // Apply the transforms in rule order.
    let ghost scanned = scan_lines(Map::<Seq<char>, Seq<char>>::empty(), ldv, rdv);
    proof {
        assert(rdv.skip(0) =~= rdv);
        assert(snap@ == scanned);
        lemma_first_bad_is(rdv, nrules as int);
    }
    let mut tj: usize = 0;
    while tj < nrules
        invariant
            0 <= tj <= nrules,
            rdv == rules.deep_view(),
            nrules == rdv.len(),
            scanned == scan_lines(
                Map::<Seq<char>, Seq<char>>::empty(),
                lines_of(content@),
                rdv,
            ),
            first_bad(rdv) == rdv.len(),
            apply_transforms(scanned, rdv) == apply_transforms(snap@, rdv.skip(tj as int)),
        decreases nrules - tj,
    {
        proof {
            assert(rdv.skip(tj as int)[0] == rdv[tj as int]);
            assert(rdv.skip(tj as int).skip(1) =~= rdv.skip(tj + 1));
        }
        let transform = rules[tj].transform;
        match transform {
            Some(t) => {
                let stored: Option<String> = match snap.get(rules[tj].name.as_str()) {
                    Some(v) => Some(v.clone()),
                    None => None,
                };
                match stored {
                    Some(v) => {
                        match apply_transform(t, v.as_str()) {
                            Some(nv) => {
                                snap.insert(rules[tj].name.as_str(), nv);
                            },
                            None => {
                                return Err(
                                    ExtractError::MalformedValue {
                                        name: rules[tj].name.clone(),
                                        value: v,
                                    },
                                );
                            },
                        }
                    },
                    None => {},
                }
            },
            None => {},
        }
        tj += 1;
    }
    proof {
        assert(rdv.skip(nrules as int) =~= Seq::<RuleV>::empty());
    }
    Ok(snap)
}

/// The value from the later line in document order wins: scanning with one
/// rule stores, under the rule's name, the capture from the last line the
/// rule's pattern captures on.
pub proof fn lemma_later_line_wins(
    m: Map<Seq<char>, Seq<char>>,
    lines: Seq<Seq<char>>,
    r: RuleV,
    j: int,
    v: Seq<char>,
)
    requires
        0 <= j < lines.len(),
        regex_capture(r.pattern, lines[j]) == Some(v),
        forall|k: int| j < k < lines.len() ==> regex_capture(r.pattern, #[trigger] lines[k]) is None,
    ensures
        scan_lines(m, lines, seq![r]).dom().contains(r.name),
        scan_lines(m, lines, seq![r])[r.name] == v,
    decreases lines.len(),
{
    let rs = seq![r];
    lemma_scan_lines_snoc(m, lines, rs);
    let m1 = scan_lines(m, lines.drop_last(), rs);
    lemma_scan_rules_snoc(m1, rs, lines.last());
    assert(rs.drop_last() =~= Seq::<RuleV>::empty());
    assert(rs.last() == r);
    if j == lines.len() - 1 {
        assert(lines.last() == lines[j]);
        assert(scan_lines(m, lines, rs) == m1.insert(r.name, v));
    } else {
        assert(regex_capture(r.pattern, lines.last()) is None);
        assert(scan_lines(m, lines, rs) == m1);
        assert(forall|k: int|
            j < k < lines.len() - 1 ==> (#[trigger] lines.drop_last()[k]) == lines[k]);
        assert(lines.drop_last()[j] == lines[j]);
        lemma_later_line_wins(m, lines.drop_last(), r, j, v);
    }
}

/// Extraction is a function of the text and the rules alone: two extractions
/// of the same text with the same rules yield the same result.
pub proof fn lemma_extract_idempotent(
    text: Seq<char>,
    rules: Seq<RuleV>,
    r1: Result<Map<Seq<char>, Seq<char>>, ExtractErrV>,
    r2: Result<Map<Seq<char>, Seq<char>>, ExtractErrV>,
)
    requires
        r1 == extract_spec(text, rules),
        r2 == extract_spec(text, rules),
    ensures
        r1 == r2,
{
}

} // verus!
