//! GPU accounting: extracts frequency, power, voltage and utilization out of
//! the power-management text dump, and parses the vendor tool's one-line
//! comma-separated output.

use vstd::prelude::*;
use crate::pattern::{
    extract_spec, extract_values, ExtractErrV, ExtractError, Rule, RuleV, Transform,
};
use crate::snapshot::Snapshot;
use crate::text::{lines_of, split_char, split_lines, split_on, trim, trim_of};

verus! {

/// The extraction rules for the power-management text dump.
pub open spec fn pm_info_rules() -> Seq<RuleV> {
    seq![
        RuleV {
            name: "gpu_mem_frequency"@,
            pattern: "\\s*([0-9]+) MHz \\(MCLK\\).*"@,
            transform: None,
        },
        RuleV { name: "gpu_frequency"@, pattern: "\\s*([0-9]+) MHz \\(SCLK\\).*"@, transform: None },
        RuleV {
            name: "gpu_voltage"@,
            pattern: "\\s*([0-9.]+) mV \\(VDDGFX\\).*"@,
            transform: Some(Transform::MillivoltsToVolts),
        },
        RuleV { name: "gpu_power"@, pattern: "\\s*([0-9.]+) W \\(average GPU\\).*"@, transform: None },
        RuleV { name: "gpu_utilization"@, pattern: "GPU Load:\\s*([0-9.]+) %"@, transform: None },
    ]
}

/// Extracts the GPU metrics out of the power-management text dump.
pub fn parse_pm_info(content: &str) -> (r: Result<Snapshot, ExtractError>)
    ensures
        r matches Ok(snap) ==> extract_spec(content@, pm_info_rules()) == Ok::<
            Map<Seq<char>, Seq<char>>,
            ExtractErrV,
        >(snap@),
        r matches Err(e) ==> extract_spec(content@, pm_info_rules()) == Err::<
            Map<Seq<char>, Seq<char>>,
            ExtractErrV,
        >(e@),
{
    let mut rules: Vec<Rule> = Vec::new();
    rules.push(Rule::new("gpu_mem_frequency", "\\s*([0-9]+) MHz \\(MCLK\\).*", None));
    rules.push(Rule::new("gpu_frequency", "\\s*([0-9]+) MHz \\(SCLK\\).*", None));
    rules.push(
        Rule::new("gpu_voltage", "\\s*([0-9.]+) mV \\(VDDGFX\\).*", Some(
            Transform::MillivoltsToVolts,
        )),
    );
    rules.push(Rule::new("gpu_power", "\\s*([0-9.]+) W \\(average GPU\\).*", None));
    rules.push(Rule::new("gpu_utilization", "GPU Load:\\s*([0-9.]+) %", None));
    proof {
        assert(rules.deep_view() =~= pm_info_rules());
    }
    extract_values(content, &rules)
}

/// The metrics in the vendor tool's first output line: exactly four
/// comma-separated fields (frequency, power, utilization, temperature), each
/// trimmed; any other shape yields nothing.
pub open spec fn nvidia_smi_map(text: Seq<char>) -> Map<Seq<char>, Seq<char>> {
    let parts = split_char(lines_of(text)[0], ',');
    if parts.len() == 4 {
        Map::<Seq<char>, Seq<char>>::empty().insert("gpu_frequency"@, trim_of(parts[0])).insert(
            "gpu_power"@,
            trim_of(parts[1]),
        ).insert("gpu_utilization"@, trim_of(parts[2])).insert(
            "gpu_junction_temp"@,
            trim_of(parts[3]),
        )
    } else {
        Map::empty()
    }
}

/// Parses the vendor tool's one-line comma-separated output.
pub fn parse_nvidia_smi(text: &str) -> (snap: Snapshot)
    ensures
        snap@ == nvidia_smi_map(text@),
{
    let lines = split_lines(text);
    proof {
        assert(lines_of(text@).len() >= 1);
        assert(lines.deep_view()[0] == lines@[0]@);
    }
    let parts = split_on(lines[0].as_str(), ',');
    let ghost pdv = parts.deep_view();
    proof {
        assert(pdv == split_char(lines_of(text@)[0], ','));
    }
    let mut snap = Snapshot::new();
    if parts.len() == 4 {
        proof {
            assert(pdv[0] == parts@[0]@);
            assert(pdv[1] == parts@[1]@);
            assert(pdv[2] == parts@[2]@);
            assert(pdv[3] == parts@[3]@);
        }
        snap.insert("gpu_frequency", trim(parts[0].as_str()));
        snap.insert("gpu_power", trim(parts[1].as_str()));
        snap.insert("gpu_utilization", trim(parts[2].as_str()));
        snap.insert("gpu_junction_temp", trim(parts[3].as_str()));
    }
    snap
}

} // verus!
