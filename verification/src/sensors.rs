//! Hardware sensor resolution: walks the chip → feature → subfeature tree
//! against a pattern per level and reports the first matching leaf's value,
//! formatted to exactly two decimal places. The tree is handed in as plain
//! values; the caller reads it off the hardware-monitoring subsystem.

use vstd::prelude::*;
use crate::pattern::{regex_is_match, regex_match, regex_ok};
use crate::snapshot::Snapshot;
use crate::text::{centi_seq, format_centi};

verus! {

/// One readable leaf of the sensor tree: its name, and its value in
/// hundredths of the sensor's unit, or nothing where the hardware could not
/// be read.
pub struct Subfeature {
    pub name: String,
    pub value: Option<i64>,
}

/// The mathematical content of a leaf.
pub struct SubfeatureV {
    pub name: Seq<char>,
    pub value: Option<i64>,
}

impl View for Subfeature {
    type V = SubfeatureV;

    open spec fn view(&self) -> SubfeatureV {
        SubfeatureV { name: self.name@, value: self.value }
    }
}

impl DeepView for Subfeature {
    type V = SubfeatureV;

    open spec fn deep_view(&self) -> SubfeatureV {
        self@
    }
}

/// One labelled feature of a chip, with its leaves.
pub struct Feature {
    pub label: String,
    pub subfeatures: Vec<Subfeature>,
}

/// The mathematical content of a feature.
pub struct FeatureV {
    pub label: Seq<char>,
    pub subfeatures: Seq<SubfeatureV>,
}

impl View for Feature {
    type V = FeatureV;

    open spec fn view(&self) -> FeatureV {
        FeatureV { label: self.label@, subfeatures: self.subfeatures.deep_view() }
    }
}

impl DeepView for Feature {
    type V = FeatureV;

    open spec fn deep_view(&self) -> FeatureV {
        self@
    }
}

/// One named chip of the sensor tree, with its features.
pub struct SensorChip {
    pub name: String,
    pub features: Vec<Feature>,
}

/// The mathematical content of a chip.
pub struct SensorChipV {
    pub name: Seq<char>,
    pub features: Seq<FeatureV>,
}

impl View for SensorChip {
    type V = SensorChipV;

    open spec fn view(&self) -> SensorChipV {
        SensorChipV { name: self.name@, features: self.features.deep_view() }
    }
}

impl DeepView for SensorChip {
    type V = SensorChipV;

    open spec fn deep_view(&self) -> SensorChipV {
        self@
    }
}

/// One resolution rule: a pattern per tree level, and the metric name the
/// resolved value is filed under.
pub struct SensorRule {
    pub chip: String,
    pub feature: String,
    pub subfeature: String,
    pub metric: String,
}

/// The mathematical content of a resolution rule.
pub struct SensorRuleV {
    pub chip: Seq<char>,
    pub feature: Seq<char>,
    pub subfeature: Seq<char>,
    pub metric: Seq<char>,
}

impl View for SensorRule {
    type V = SensorRuleV;

    open spec fn view(&self) -> SensorRuleV {
        SensorRuleV {
            chip: self.chip@,
            feature: self.feature@,
            subfeature: self.subfeature@,
            metric: self.metric@,
        }
    }
}

impl DeepView for SensorRule {
    type V = SensorRuleV;

    open spec fn deep_view(&self) -> SensorRuleV {
        self@
    }
}

impl SensorRule {
    /// Builds a rule from its parts.
    pub fn new(chip: &str, feature: &str, subfeature: &str, metric: &str) -> (r: SensorRule)
        ensures
            r@ == (SensorRuleV {
                chip: chip@,
                feature: feature@,
                subfeature: subfeature@,
                metric: metric@,
            }),
    {
        SensorRule {
            chip: chip.to_owned(),
            feature: feature.to_owned(),
            subfeature: subfeature.to_owned(),
            metric: metric.to_owned(),
        }
    }
}

/// The value of the first leaf whose name the pattern matches.
pub open spec fn find_sub(subs: Seq<SubfeatureV>, pat: Seq<char>) -> Option<Option<i64>>
    decreases subs.len(),
{
    if subs.len() == 0 {
        None
    } else if regex_match(pat, subs[0].name) {
        Some(subs[0].value)
    } else {
        find_sub(subs.skip(1), pat)
    }
}

/// The first resolved leaf among the features whose label the feature
/// pattern matches, in order; a matching feature without a matching leaf
/// falls through to the next.
pub open spec fn find_feat(feats: Seq<FeatureV>, fpat: Seq<char>, spat: Seq<char>) -> Option<
    Option<i64>,
>
    decreases feats.len(),
{
    if feats.len() == 0 {
        None
    } else if regex_match(fpat, feats[0].label) {
        match find_sub(feats[0].subfeatures, spat) {
            Some(v) => Some(v),
            None => find_feat(feats.skip(1), fpat, spat),
        }
    } else {
        find_feat(feats.skip(1), fpat, spat)
    }
}

/// The first resolved leaf among the chips whose name the chip pattern
/// matches, in order.
pub open spec fn find_chip(
    chips: Seq<SensorChipV>,
    cpat: Seq<char>,
    fpat: Seq<char>,
    spat: Seq<char>,
) -> Option<Option<i64>>
    decreases chips.len(),
{
    if chips.len() == 0 {
        None
    } else if regex_match(cpat, chips[0].name) {
        match find_feat(chips[0].features, fpat, spat) {
            Some(v) => Some(v),
            None => find_chip(chips.skip(1), cpat, fpat, spat),
        }
    } else {
        find_chip(chips.skip(1), cpat, fpat, spat)
    }
}

/// What a rule resolves to: the first matching leaf in depth-first order, or
/// nothing where a level finds no match or a pattern is not a valid regular
/// expression. The inner option is the leaf's readability.
pub open spec fn resolve_rule(chips: Seq<SensorChipV>, r: SensorRuleV) -> Option<Option<i64>> {
    if regex_ok(r.chip) && regex_ok(r.feature) && regex_ok(r.subfeature) {
        find_chip(chips, r.chip, r.feature, r.subfeature)
    } else {
        None
    }
}

/// The metrics of all rules, in rule order: a rule that resolves to a
/// readable leaf files the leaf's value, rendered to two decimal places,
/// under the rule's metric name; any other rule leaves no entry.
pub open spec fn sensor_map(
    chips: Seq<SensorChipV>,
    rules: Seq<SensorRuleV>,
    m: Map<Seq<char>, Seq<char>>,
) -> Map<Seq<char>, Seq<char>>
    decreases rules.len(),
{
    if rules.len() == 0 {
        m
    } else {
        let m1 = match resolve_rule(chips, rules[0]) {
            Some(Some(v)) => m.insert(rules[0].metric, centi_seq(v as int)),
            _ => m,
        };
        sensor_map(chips, rules.skip(1), m1)
    }
}

fn find_sub_from(subs: &Vec<Subfeature>, i: usize, pat: &str) -> (r: Option<Option<i64>>)
    requires
        i <= subs.len(),
        regex_ok(pat@),
    ensures
        r == find_sub(subs.deep_view().skip(i as int), pat@),
    decreases subs.len() - i,
{
    let ghost sdv = subs.deep_view();
    if i == subs.len() {
        proof {
            assert(sdv.skip(i as int) =~= Seq::<SubfeatureV>::empty());
        }
        None
    } else {
        proof {
            assert(sdv.skip(i as int)[0] == sdv[i as int]);
            assert(sdv[i as int] == subs@[i as int]@);
            assert(sdv.skip(i as int).skip(1) =~= sdv.skip(i + 1));
        }
        match regex_is_match(pat, subs[i].name.as_str()) {
            None => {
                proof {
                    assert(false);
                }
                None
            },
            Some(true) => Some(subs[i].value),
            Some(false) => find_sub_from(subs, i + 1, pat),
        }
    }
}

fn find_feat_from(feats: &Vec<Feature>, i: usize, fpat: &str, spat: &str) -> (r: Option<
    Option<i64>,
>)
    requires
        i <= feats.len(),
        regex_ok(fpat@),
        regex_ok(spat@),
    ensures
        r == find_feat(feats.deep_view().skip(i as int), fpat@, spat@),
    decreases feats.len() - i,
{
    let ghost fdv = feats.deep_view();
    if i == feats.len() {
        proof {
            assert(fdv.skip(i as int) =~= Seq::<FeatureV>::empty());
        }
        None
    } else {
        proof {
            assert(fdv.skip(i as int)[0] == fdv[i as int]);
            assert(fdv[i as int] == feats@[i as int]@);
            assert(fdv.skip(i as int).skip(1) =~= fdv.skip(i + 1));
        }
        match regex_is_match(fpat, feats[i].label.as_str()) {
            None => {
                proof {
                    assert(false);
                }
                None
            },
            Some(true) => {
                proof {
                    assert(feats.deep_view()[i as int].subfeatures == feats[
                        i as int
                    ]@.subfeatures);
                }
                match find_sub_from(&feats[i].subfeatures, 0, spat) {
                    Some(v) => {
                        proof {
                            assert(feats@[i as int].subfeatures.deep_view().skip(0) =~= feats@[
                                i as int
                            ].subfeatures.deep_view());
                        }
                        Some(v)
                    },
                    None => {
                        proof {
                            assert(feats@[i as int].subfeatures.deep_view().skip(0) =~= feats@[
                                i as int
                            ].subfeatures.deep_view());
                        }
                        find_feat_from(feats, i + 1, fpat, spat)
                    },
                }
            },
            Some(false) => find_feat_from(feats, i + 1, fpat, spat),
        }
    }
}

fn find_chip_from(chips: &Vec<SensorChip>, i: usize, cpat: &str, fpat: &str, spat: &str) -> (r:
    Option<Option<i64>>)
    requires
        i <= chips.len(),
        regex_ok(cpat@),
        regex_ok(fpat@),
        regex_ok(spat@),
    ensures
        r == find_chip(chips.deep_view().skip(i as int), cpat@, fpat@, spat@),
    decreases chips.len() - i,
{
    let ghost cdv = chips.deep_view();
    if i == chips.len() {
        proof {
            assert(cdv.skip(i as int) =~= Seq::<SensorChipV>::empty());
        }
        None
    } else {
        proof {
            assert(cdv.skip(i as int)[0] == cdv[i as int]);
            assert(cdv[i as int] == chips@[i as int]@);
            assert(cdv.skip(i as int).skip(1) =~= cdv.skip(i + 1));
        }
        match regex_is_match(cpat, chips[i].name.as_str()) {
            None => {
                proof {
                    assert(false);
                }
                None
            },
            Some(true) => {
                match find_feat_from(&chips[i].features, 0, fpat, spat) {
                    Some(v) => {
                        proof {
                            assert(chips@[i as int].features.deep_view().skip(0) =~= chips@[
                                i as int
                            ].features.deep_view());
                        }
                        Some(v)
                    },
                    None => {
                        proof {
                            assert(chips@[i as int].features.deep_view().skip(0) =~= chips@[
                                i as int
                            ].features.deep_view());
                        }
                        find_chip_from(chips, i + 1, cpat, fpat, spat)
                    },
                }
            },
            Some(false) => find_chip_from(chips, i + 1, cpat, fpat, spat),
        }
    }
}

/// Resolves every rule against the sensor tree; a rule whose patterns match
/// no readable leaf leaves no entry.
pub fn get_sensor_values(chips: &Vec<SensorChip>, rules: &Vec<SensorRule>) -> (snap: Snapshot)
    ensures
        snap@ == sensor_map(
            chips.deep_view(),
            rules.deep_view(),
            Map::<Seq<char>, Seq<char>>::empty(),
        ),
{
    let ghost cdv = chips.deep_view();
    let ghost rdv = rules.deep_view();
    let nrules = rules.len();
    let mut snap = Snapshot::new();
    let mut j: usize = 0;
    proof {
        assert(rdv.skip(0) =~= rdv);
    }
    while j < nrules
        invariant
            0 <= j <= nrules,
            cdv == chips.deep_view(),
            rdv == rules.deep_view(),
            nrules == rdv.len(),
            sensor_map(cdv, rdv, Map::<Seq<char>, Seq<char>>::empty()) == sensor_map(
                cdv,
                rdv.skip(j as int),
                snap@,
            ),
        decreases nrules - j,
    {
        proof {
            assert(rdv.skip(j as int)[0] == rdv[j as int]);
            assert(rdv[j as int] == rules@[j as int]@);
            assert(rdv.skip(j as int).skip(1) =~= rdv.skip(j + 1));
        }
        let chip_ok = regex_is_match(rules[j].chip.as_str(), "").is_some();
        let feat_ok = regex_is_match(rules[j].feature.as_str(), "").is_some();
        let sub_ok = regex_is_match(rules[j].subfeature.as_str(), "").is_some();
        if chip_ok && feat_ok && sub_ok {
            proof {
                assert(cdv.skip(0) =~= cdv);
            }
            match find_chip_from(
                chips,
                0,
                rules[j].chip.as_str(),
                rules[j].feature.as_str(),
                rules[j].subfeature.as_str(),
            ) {
                Some(Some(v)) => {
                    snap.insert(rules[j].metric.as_str(), format_centi(v));
                },
                _ => {},
            }
        }
        j += 1;
    }
    proof {
        assert(rdv.skip(nrules as int) =~= Seq::<SensorRuleV>::empty());
    }
    snap
}

/// The agent's built-in sensor rules.
pub open spec fn builtin_sensor_rules() -> Seq<SensorRuleV> {
    seq![
        SensorRuleV {
            chip: "amdgpu-pci-1000.*"@,
            feature: "edge"@,
            subfeature: "temp[0-9]{1}_input"@,
            metric: "gpu_edge_temp"@,
        },
        SensorRuleV {
            chip: "amdgpu-pci-1000.*"@,
            feature: "junction"@,
            subfeature: "temp[0-9]{1}_input"@,
            metric: "gpu_junction_temp"@,
        },
        SensorRuleV {
            chip: "amdgpu-pci-1000.*"@,
            feature: "mem"@,
            subfeature: "temp[0-9]{1}_input"@,
            metric: "gpu_mem_temp"@,
        },
        SensorRuleV {
            chip: "k10temp-.*"@,
            feature: "Tctl"@,
            subfeature: "temp[0-9]{1}_input"@,
            metric: "cpu_temp"@,
        },
        SensorRuleV {
            chip: "corsaircpro-.*"@,
            feature: "fan3 4pin"@,
            subfeature: "fan[0-9]{1}_input"@,
            metric: "fan1_rpm"@,
        },
        SensorRuleV {
            chip: "corsaircpro-.*"@,
            feature: "fan4 4pin"@,
            subfeature: "fan[0-9]{1}_input"@,
            metric: "fan2_rpm"@,
        },
        SensorRuleV {
            chip: "corsaircpro-.*"@,
            feature: "fan5 4pin"@,
            subfeature: "fan[0-9]{1}_input"@,
            metric: "fan3_rpm"@,
        },
        SensorRuleV {
            chip: "corsaircpro-.*"@,
            feature: "fan1 4pin"@,
            subfeature: "fan[0-9]{1}_input"@,
            metric: "fan4_rpm"@,
        },
        SensorRuleV {
            chip: "corsaircpro-.*"@,
            feature: "fan2 4pin"@,
            subfeature: "fan[0-9]{1}_input"@,
            metric: "fan5_rpm"@,
        },
        SensorRuleV {
            chip: "corsaircpro-.*"@,
            feature: "temp1"@,
            subfeature: "temp[0-9]{1}_input"@,
            metric: "pump_temp"@,
        },
        SensorRuleV {
            chip: "corsaircpro-.*"@,
            feature: "temp2"@,
            subfeature: "temp[0-9]{1}_input"@,
            metric: "exhaust_temp"@,
        },
        SensorRuleV {
            chip: "corsaircpro-.*"@,
            feature: "temp3"@,
            subfeature: "temp[0-9]{1}_input"@,
            metric: "front_intake_temp"@,
        },
        SensorRuleV {
            chip: "corsaircpro-.*"@,
            feature: "temp4"@,
            subfeature: "temp[0-9]{1}_input"@,
            metric: "ambient_temp"@,
        },
        SensorRuleV {
            chip: "nct6798-isa-0290"@,
            feature: "fan2"@,
            subfeature: "fan[0-9]"@,
            metric: "cpu_rpm"@,
        },
    ]
}

/// Resolves the agent's built-in sensor rules against the sensor tree.
pub fn get_sensor_data(chips: &Vec<SensorChip>) -> (snap: Snapshot)
    ensures
        snap@ == sensor_map(
            chips.deep_view(),
            builtin_sensor_rules(),
            Map::<Seq<char>, Seq<char>>::empty(),
        ),
{
    let mut rules: Vec<SensorRule> = Vec::new();
    rules.push(SensorRule::new("amdgpu-pci-1000.*", "edge", "temp[0-9]{1}_input", "gpu_edge_temp"));
    rules.push(
        SensorRule::new("amdgpu-pci-1000.*", "junction", "temp[0-9]{1}_input", "gpu_junction_temp"),
    );
    rules.push(SensorRule::new("amdgpu-pci-1000.*", "mem", "temp[0-9]{1}_input", "gpu_mem_temp"));
    rules.push(SensorRule::new("k10temp-.*", "Tctl", "temp[0-9]{1}_input", "cpu_temp"));
    rules.push(SensorRule::new("corsaircpro-.*", "fan3 4pin", "fan[0-9]{1}_input", "fan1_rpm"));
    rules.push(SensorRule::new("corsaircpro-.*", "fan4 4pin", "fan[0-9]{1}_input", "fan2_rpm"));
    rules.push(SensorRule::new("corsaircpro-.*", "fan5 4pin", "fan[0-9]{1}_input", "fan3_rpm"));
    rules.push(SensorRule::new("corsaircpro-.*", "fan1 4pin", "fan[0-9]{1}_input", "fan4_rpm"));
    rules.push(SensorRule::new("corsaircpro-.*", "fan2 4pin", "fan[0-9]{1}_input", "fan5_rpm"));
    rules.push(SensorRule::new("corsaircpro-.*", "temp1", "temp[0-9]{1}_input", "pump_temp"));
    rules.push(SensorRule::new("corsaircpro-.*", "temp2", "temp[0-9]{1}_input", "exhaust_temp"));
    rules.push(
        SensorRule::new("corsaircpro-.*", "temp3", "temp[0-9]{1}_input", "front_intake_temp"),
    );
    rules.push(SensorRule::new("corsaircpro-.*", "temp4", "temp[0-9]{1}_input", "ambient_temp"));
    rules.push(SensorRule::new("nct6798-isa-0290", "fan2", "fan[0-9]", "cpu_rpm"));
    proof {
        assert(rules.deep_view() =~= builtin_sensor_rules());
    }
    get_sensor_values(chips, &rules)
}

} // verus!
