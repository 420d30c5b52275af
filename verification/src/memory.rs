//! Memory accounting: extracts total, free and available memory out of the
//! memory-accounting snapshot, converted from kilobytes to gigabytes.

use vstd::prelude::*;
use crate::pattern::{
    extract_spec, extract_values, ExtractErrV, ExtractError, Rule, RuleV, Transform,
};
use crate::snapshot::Snapshot;

verus! {

/// The extraction rules for the memory-accounting snapshot.
pub open spec fn meminfo_rules() -> Seq<RuleV> {
    seq![
        RuleV {
            name: "mem_total"@,
            pattern: "MemTotal:\\s*([0-9]+) kB.*"@,
            transform: Some(Transform::KilobytesToGigabytes),
        },
        RuleV {
            name: "mem_free"@,
            pattern: "MemFree:\\s*([0-9]+) kB.*"@,
            transform: Some(Transform::KilobytesToGigabytes),
        },
        RuleV {
            name: "mem_available"@,
            pattern: "MemAvailable:\\s*([0-9]+) kB.*"@,
            transform: Some(Transform::KilobytesToGigabytes),
        },
    ]
}

/// Extracts the memory metrics out of the memory-accounting text.
pub fn parse_meminfo(content: &str) -> (r: Result<Snapshot, ExtractError>)
    ensures
        r matches Ok(snap) ==> extract_spec(content@, meminfo_rules()) == Ok::<
            Map<Seq<char>, Seq<char>>,
            ExtractErrV,
        >(snap@),
        r matches Err(e) ==> extract_spec(content@, meminfo_rules()) == Err::<
            Map<Seq<char>, Seq<char>>,
            ExtractErrV,
        >(e@),
{
    let mut rules: Vec<Rule> = Vec::new();
    rules.push(
        Rule::new("mem_total", "MemTotal:\\s*([0-9]+) kB.*", Some(Transform::KilobytesToGigabytes)),
    );
    rules.push(
        Rule::new("mem_free", "MemFree:\\s*([0-9]+) kB.*", Some(Transform::KilobytesToGigabytes)),
    );
    rules.push(
        Rule::new(
            "mem_available",
            "MemAvailable:\\s*([0-9]+) kB.*",
            Some(Transform::KilobytesToGigabytes),
        ),
    );
    proof {
        assert(rules.deep_view() =~= meminfo_rules());
    }
    extract_values(content, &rules)
}

} // verus!
