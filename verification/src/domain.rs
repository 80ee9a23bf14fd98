use vstd::prelude::*;

use crate::model::{
    display_name_of, first_match, texts, in_service_state, lemma_first_match, lemma_first_match_at,
    lemma_first_match_none, BranchModel, Network, NetworkModel, SourceModel,
};
use crate::quantity::{Quantity, DEFAULT_SECONDARY_KV_LL_BITS};
use crate::text::{join2, join3, join4, same_text};

verus! {

/// A standard system voltage: its key, its long label, its short display text, and its
/// line-to-line value, `base_volts` times sqrt(3) when `sqrt3` is set.
#[derive(Clone, Debug)]
pub struct VoltageSpec {
    pub key: String,
    pub label: String,
    pub display: String,
    pub base_volts: u32,
    pub sqrt3: bool,
}

pub struct VoltageSpecModel {
    pub key: Seq<char>,
    pub label: Seq<char>,
    pub display: Seq<char>,
    pub base_volts: u32,
    pub sqrt3: bool,
}

impl View for VoltageSpec {
    type V = VoltageSpecModel;

    open spec fn view(&self) -> VoltageSpecModel {
        VoltageSpecModel {
            key: self.key@,
            label: self.label@,
            display: self.display@,
            base_volts: self.base_volts,
            sqrt3: self.sqrt3,
        }
    }
}

pub open spec fn spec_entry(
    key: Seq<char>,
    label: Seq<char>,
    display: Seq<char>,
    base_volts: u32,
    sqrt3: bool,
) -> VoltageSpecModel {
    VoltageSpecModel { key, label, display, base_volts, sqrt3 }
}

/// The table of standard voltages, from lowest to highest.
pub open spec fn voltage_table() -> Seq<VoltageSpecModel> {
    seq![
        spec_entry("120"@, "120 V"@, "120 V"@, 120, false),
        spec_entry("120r3"@, "120*sqrt(3) V (208 V)"@, "208 V"@, 120, true),
        spec_entry("240"@, "240 V"@, "240 V"@, 240, false),
        spec_entry("160r3"@, "160*sqrt(3) V (277 V)"@, "277 V"@, 160, true),
        spec_entry("200r3"@, "200*sqrt(3) V (347 V)"@, "347 V"@, 200, true),
        spec_entry("480"@, "480 V"@, "480 V"@, 480, false),
        spec_entry("600"@, "600 V"@, "600 V"@, 600, false),
        spec_entry("2400"@, "2400 V"@, "2.4 kV"@, 2400, false),
        spec_entry("2400r3"@, "2400*sqrt(3) V (4.16 kV)"@, "4.16 kV"@, 2400, true),
        spec_entry("7200r3"@, "7200*sqrt(3) V (12.5 kV)"@, "12.5 kV"@, 7200, true),
        spec_entry("8000r3"@, "8000*sqrt(3) V (13.8 kV)"@, "13.8 kV"@, 8000, true),
        spec_entry("14400r3"@, "14400*sqrt(3) V (25 kV)"@, "25 kV"@, 14400, true),
    ]
}

/// The keys of the voltage table, in order.
pub open spec fn voltage_keys() -> Seq<Seq<char>> {
    voltage_table().map_values(|v: VoltageSpecModel| v.key)
}

fn entry(key: &str, label: &str, display: &str, base_volts: u32, sqrt3: bool) -> (v: VoltageSpec)
    ensures
        v@ == spec_entry(key@, label@, display@, base_volts, sqrt3),
{
    VoltageSpec {
        key: key.to_string(),
        label: label.to_string(),
        display: display.to_string(),
        base_volts,
        sqrt3,
    }
}

/// The standard voltages offered for buses.
pub fn voltage_specs() -> (v: Vec<VoltageSpec>)
    ensures
        v@.map_values(|s: VoltageSpec| s@) == voltage_table(),
{
    let mut v: Vec<VoltageSpec> = Vec::new();
    v.push(entry("120", "120 V", "120 V", 120, false));
    v.push(entry("120r3", "120*sqrt(3) V (208 V)", "208 V", 120, true));
    v.push(entry("240", "240 V", "240 V", 240, false));
    v.push(entry("160r3", "160*sqrt(3) V (277 V)", "277 V", 160, true));
    v.push(entry("200r3", "200*sqrt(3) V (347 V)", "347 V", 200, true));
    v.push(entry("480", "480 V", "480 V", 480, false));
    v.push(entry("600", "600 V", "600 V", 600, false));
    v.push(entry("2400", "2400 V", "2.4 kV", 2400, false));
    v.push(entry("2400r3", "2400*sqrt(3) V (4.16 kV)", "4.16 kV", 2400, true));
    v.push(entry("7200r3", "7200*sqrt(3) V (12.5 kV)", "12.5 kV", 7200, true));
    v.push(entry("8000r3", "8000*sqrt(3) V (13.8 kV)", "13.8 kV", 8000, true));
    v.push(entry("14400r3", "14400*sqrt(3) V (25 kV)", "25 kV", 14400, true));
    assert(v@.map_values(|s: VoltageSpec| s@) =~= voltage_table());
    v
}

/// The table position used for a voltage key: the first entry with that key, or the
/// "600" entry when no entry has it.
pub open spec fn voltage_spec_position(key: Seq<char>) -> int {
    match first_match(voltage_keys(), key) {
        Some(i) => i,
        None => first_match(voltage_keys(), "600"@)->0,
    }
}

fn find_key(specs: &Vec<VoltageSpec>, key: &str) -> (r: Option<usize>)
    requires
        specs@.map_values(|s: VoltageSpec| s@) == voltage_table(),
    ensures
        r matches Some(i) ==> first_match(voltage_keys(), key@) == Some(i as int) && i
            < voltage_table().len(),
        r is None ==> first_match(voltage_keys(), key@) is None,
{
    let mut i: usize = 0;
    while i < specs.len()
        invariant
            specs@.map_values(|s: VoltageSpec| s@) == voltage_table(),
            i <= specs.len(),
            forall|j: int| 0 <= j < i ==> voltage_keys()[j] != key@,
        decreases specs.len() - i,
    {
        assert(voltage_keys()[i as int] == specs@[i as int]@.key);
        if same_text(specs[i].key.as_str(), key) {
            proof {
                lemma_first_match_at(voltage_keys(), key@, i as int);
            }
            return Some(i);
        }
        i = i + 1;
    }
    proof {
        assert(voltage_keys().len() == specs.len());
        lemma_first_match_none(voltage_keys(), key@);
    }
    None
}

/// Position in the voltage table of the entry for `key`, falling back to "600".
pub fn voltage_spec_index(key: &str) -> (i: usize)
    ensures
        i == voltage_spec_position(key@),
        i < voltage_table().len(),
{
    let specs = voltage_specs();
    match find_key(&specs, key) {
        Some(i) => i,
        None => {
            proof {
                assert(voltage_keys()[6] == "600"@);
                lemma_first_match(voltage_keys(), "600"@);
            }
            let r = find_key(&specs, "600");
            match r {
                Some(j) => j,
                None => {
                    proof {
                        assert(false);
                    }
                    0
                },
            }
        },
    }
}

/// Display text of the table entry whose key is `key`, if any.
pub fn voltage_display_for_key(key: &str) -> (r: Option<String>)
    ensures
        r matches Some(d) ==> first_match(voltage_keys(), key@) matches Some(i) && d@
            == voltage_table()[i].display,
        r is None ==> first_match(voltage_keys(), key@) is None,
{
    let specs = voltage_specs();
    match find_key(&specs, key) {
        Some(i) => {
            let d = specs[i].display.as_str().to_string();
            Some(d)
        },
        None => None,
    }
}

// ---------------------------------------------------------------------------
// Element state and connectivity as the domain view reads it
// ---------------------------------------------------------------------------

/// The branch is a transformer, so it joins buses of different voltages.
pub open spec fn changes_voltage(b: BranchModel) -> bool {
    b.kind == "transformer"@
}

/// The branch is out of service: disabled, or a state that mentions "open" or is
/// "out_of_service".
pub open spec fn branch_open(b: BranchModel) -> bool {
    !b.enabled || !in_service_state(b.state)
}

/// The source is out of service, in the same sense.
pub open spec fn source_open(s: SourceModel) -> bool {
    !s.enabled || !in_service_state(s.state)
}

/// The source supplies fault current: it is not a load and is in service.
pub open spec fn source_supplies(s: SourceModel) -> bool {
    s.kind != "load"@ && !source_open(s)
}

/// Some branch other than the transformer `transformer_id`, and not itself a transformer,
/// ends at bus `bus_id`.
pub open spec fn cable_branch_at(n: NetworkModel, bus_id: Seq<char>, transformer_id: Seq<char>) -> bool {
    exists|k: int|
        0 <= k < n.branches.len() && {
            let b = #[trigger] n.branches[k];
            b.id != transformer_id && b.kind != "transformer"@ && (b.from == bus_id || b.to
                == bus_id)
        }
}

/// Voltage of the first bus with identifier `id`, or 0.6 kV when there is none.
pub open spec fn bus_voltage_of(n: NetworkModel, id: Seq<char>) -> Quantity {
    match n.bus_position(id) {
        Some(i) => n.buses[i].kv_ll,
        None => Quantity { bits: DEFAULT_SECONDARY_KV_LL_BITS },
    }
}

/// Whether the branch is a transformer.
pub fn is_voltage_changing_branch(b: &crate::model::Branch) -> (r: bool)
    ensures
        r == changes_voltage(b@),
{
    same_text(b.kind.as_str(), "transformer")
}

/// Whether the branch is out of service.
pub fn is_branch_open(b: &crate::model::Branch) -> (r: bool)
    ensures
        r == branch_open(b@),
{
    !b.enabled || !crate::model::state_in_service(b.state.as_str())
}

/// Whether the source is out of service.
pub fn is_source_open(s: &crate::model::Source) -> (r: bool)
    ensures
        r == source_open(s@),
{
    !s.enabled || !crate::model::state_in_service(s.state.as_str())
}

fn supplies(s: &crate::model::Source) -> (r: bool)
    ensures
        r == source_supplies(s@),
{
    !same_text(s.kind.as_str(), "load") && !is_source_open(s)
}

/// Voltage of the first bus with identifier `id`, or 0.6 kV when there is none.
pub fn bus_voltage(network: &Network, id: &str) -> (q: Quantity)
    ensures
        q == bus_voltage_of(network@, id@),
{
    match network.bus_index(id) {
        Some(i) => network.buses[i].kv_ll,
        None => Quantity::from_bits(DEFAULT_SECONDARY_KV_LL_BITS),
    }
}

/// Display name of the first bus with identifier `id`, or `id` when there is none.
pub fn bus_label(network: &Network, id: &str) -> (r: String)
    ensures
        r@ == match network@.bus_position(id@) {
            Some(i) => display_name_of(network@.buses[i].id, network@.buses[i].name),
            None => id@,
        },
{
    network.bus_name(id)
}

/// Whether a non-transformer branch other than `transformer_id` ends at bus `bus_id`.
pub fn has_cable_branch_at(network: &Network, bus_id: &str, transformer_id: &str) -> (r: bool)
    ensures
        r == cable_branch_at(network@, bus_id@, transformer_id@),
{
    let mut k: usize = 0;
    while k < network.branches.len()
        invariant
            k <= network.branches.len(),
            forall|j: int|
                0 <= j < k ==> !{
                    let b = #[trigger] network@.branches[j];
                    b.id != transformer_id@ && b.kind != "transformer"@ && (b.from == bus_id@
                        || b.to == bus_id@)
                },
        decreases network.branches.len() - k,
    {
        let b = &network.branches[k];
        if !same_text(b.id.as_str(), transformer_id) && !same_text(b.kind.as_str(), "transformer")
            && (same_text(b.from.as_str(), bus_id) || same_text(b.to.as_str(), bus_id)) {
            assert(network@.branches[k as int] == b@);
            return true;
        }
        k = k + 1;
    }
    false
}

/// Name shown for a branch or source: its name, or its identifier when the name is empty.
pub fn element_name(id: &String, name: &String) -> (r: String)
    ensures
        r@ == display_name_of(id@, name@),
{
    if name.as_str().is_empty() {
        id.as_str().to_string()
    } else {
        name.as_str().to_string()
    }
}

/// The text that says which buses a branch joins. A transformer also shows the voltage
/// of each side (`from_voltage`, `to_voltage`, as displayed).
pub open spec fn connection_text(
    n: NetworkModel,
    b: BranchModel,
    from_voltage: Seq<char>,
    to_voltage: Seq<char>,
) -> Seq<char> {
    let from_label = match n.bus_position(b.from) {
        Some(i) => display_name_of(n.buses[i].id, n.buses[i].name),
        None => b.from,
    };
    let to_label = match n.bus_position(b.to) {
        Some(i) => display_name_of(n.buses[i].id, n.buses[i].name),
        None => b.to,
    };
    if changes_voltage(b) {
        from_label + " ("@ + from_voltage + ") to "@ + to_label + " ("@ + to_voltage + ")"@
    } else {
        from_label + " to "@ + to_label
    }
}

/// Which buses branch `k` joins, as shown in the domain view.
pub fn branch_connection(network: &Network, k: usize, from_voltage: &str, to_voltage: &str) -> (r:
    String)
    requires
        k < network.branches.len(),
    ensures
        r@ == connection_text(network@, network@.branches[k as int], from_voltage@, to_voltage@),
{
    let b = &network.branches[k];
    let from_label = bus_label(network, b.from.as_str());
    let to_label = bus_label(network, b.to.as_str());
    if is_voltage_changing_branch(b) {
        let mut s = join3(from_label.as_str(), " (", from_voltage);
        s.append(") to ");
        s.append(to_label.as_str());
        s.append(" (");
        s.append(to_voltage);
        s.append(")");
        s
    } else {
        join3(from_label.as_str(), " to ", to_label.as_str())
    }
}

// ---------------------------------------------------------------------------
// Model warnings
// ---------------------------------------------------------------------------

/// Kinds of branch that are compared against an equipment rating.
pub open spec fn rated_kind(kind: Seq<char>) -> bool {
    kind == "breaker"@ || kind == "switch"@ || kind == "tie"@ || kind == "feeder"@ || kind
        == "transformer"@
}

/// Kinds of source that should carry zero-sequence data.
pub open spec fn grounding_kind(kind: Seq<char>) -> bool {
    kind == "utility"@ || kind == "source"@
}

/// Warnings about branch `k`. `keys[i]` is the standard voltage key of bus `i`.
pub open spec fn branch_warnings(n: NetworkModel, keys: Seq<Seq<char>>, k: int) -> Seq<Seq<char>> {
    let b = n.branches[k];
    let name = display_name_of(b.id, b.name);
    if n.bus_position(b.from) is None || n.bus_position(b.to) is None {
        seq!["Branch "@ + name + " references a missing bus."@]
    } else {
        let rating = if !branch_open(b) && b.rating_a.spec_le_zero() && rated_kind(b.kind) {
            seq!["Branch "@ + name + " has no equipment rating for duty comparison."@]
        } else {
            Seq::empty()
        };
        let zero_seq = if !branch_open(b) && !b.has_z0 {
            seq!["Branch "@ + name + " has no zero-sequence path."@]
        } else {
            Seq::empty()
        };
        let voltages = if !changes_voltage(b) && keys[n.bus_position(b.from)->0] != keys[n.bus_position(
            b.to,
        )->0] {
            seq!["Branch "@ + name + " connects buses with different voltage ratings."@]
        } else {
            Seq::empty()
        };
        let cabling = if changes_voltage(b) && (!cable_branch_at(n, b.from, b.id) || !cable_branch_at(
            n,
            b.to,
            b.id,
        )) {
            seq!["Transformer "@ + name + " shall connect to other elements through cable branches."@]
        } else {
            Seq::empty()
        };
        rating + zero_seq + voltages + cabling
    }
}

/// Warnings about source `k`.
pub open spec fn source_warnings(n: NetworkModel, k: int) -> Seq<Seq<char>> {
    let s = n.sources[k];
    let name = display_name_of(s.id, s.name);
    let label = if s.kind == "load"@ {
        "Load"@
    } else {
        "Source"@
    };
    let missing = if n.bus_position(s.bus) is None {
        seq![label + " "@ + name + " references a missing bus."@]
    } else {
        Seq::empty()
    };
    let rating = if source_supplies(s) && s.rating.len() == 0 {
        seq!["Source "@ + name + " has no rating metadata."@]
    } else {
        Seq::empty()
    };
    let zero_seq = if source_supplies(s) && !s.has_z0 && grounding_kind(s.kind) {
        seq!["Source "@ + name + " has no zero-sequence data."@]
    } else {
        Seq::empty()
    };
    missing + rating + zero_seq
}

pub open spec fn branch_warnings_upto(n: NetworkModel, keys: Seq<Seq<char>>, k: nat) -> Seq<
    Seq<char>,
>
    decreases k,
{
    if k == 0 {
        Seq::empty()
    } else {
        branch_warnings_upto(n, keys, (k - 1) as nat) + branch_warnings(n, keys, k - 1)
    }
}

pub open spec fn source_warnings_upto(n: NetworkModel, k: nat) -> Seq<Seq<char>>
    decreases k,
{
    if k == 0 {
        Seq::empty()
    } else {
        source_warnings_upto(n, (k - 1) as nat) + source_warnings(n, k - 1)
    }
}

/// The warning that no source supplies fault current, if that is so.
pub open spec fn supply_warning(n: NetworkModel) -> Seq<Seq<char>> {
    if exists|k: int| 0 <= k < n.sources.len() && source_supplies(#[trigger] n.sources[k]) {
        Seq::empty()
    } else {
        seq!["No enabled source equivalent is defined."@]
    }
}

/// All warnings about a case: supply, then each branch, then each source, in order.
pub open spec fn model_warning_list(n: NetworkModel, keys: Seq<Seq<char>>) -> Seq<Seq<char>> {
    supply_warning(n) + branch_warnings_upto(n, keys, n.branches.len()) + source_warnings_upto(
        n,
        n.sources.len(),
    )
}

fn push_text(out: &mut Vec<String>, s: String)
    ensures
        texts(final(out)@) == texts(old(out)@).push(s@),
{
    out.push(s);
    assert(texts(out@) =~= texts(old(out)@).push(s@));
}

fn is_rated_kind(kind: &str) -> (r: bool)
    ensures
        r == rated_kind(kind@),
{
    same_text(kind, "breaker") || same_text(kind, "switch") || same_text(kind, "tie") || same_text(
        kind,
        "feeder",
    ) || same_text(kind, "transformer")
}

fn push_branch_warnings(network: &Network, keys: &Vec<String>, k: usize, out: &mut Vec<String>)
    requires
        k < network.branches.len(),
        keys.len() == network.buses.len(),
    ensures
        texts(final(out)@) == texts(old(out)@) + branch_warnings(network@, texts(keys@), k as int),
{
    let b = &network.branches[k];
    let name = element_name(&b.id, &b.name);
    let ghost start = texts(out@);
    let from = network.bus_index(b.from.as_str());
    let to = network.bus_index(b.to.as_str());
    match (from, to) {
        (Some(f), Some(t)) => {
            let open = is_branch_open(b);
            if !open && b.rating_a.le_zero() && is_rated_kind(b.kind.as_str()) {
                push_text(
                    out,
                    join3("Branch ", name.as_str(), " has no equipment rating for duty comparison."),
                );
            }
            let ghost after_rating = texts(out@);
            if !open && !b.has_z0 {
                push_text(out, join3("Branch ", name.as_str(), " has no zero-sequence path."));
            }
            let ghost after_zero = texts(out@);
            let is_tx = is_voltage_changing_branch(b);
            if !is_tx && keys[f] != keys[t] {
                push_text(
                    out,
                    join3(
                        "Branch ",
                        name.as_str(),
                        " connects buses with different voltage ratings.",
                    ),
                );
            }
            let ghost after_voltage = texts(out@);
            if is_tx {
                let primary_cabled = has_cable_branch_at(network, b.from.as_str(), b.id.as_str());
                let secondary_cabled = has_cable_branch_at(network, b.to.as_str(), b.id.as_str());
                if !primary_cabled || !secondary_cabled {
                    push_text(
                        out,
                        join3(
                            "Transformer ",
                            name.as_str(),
                            " shall connect to other elements through cable branches.",
                        ),
                    );
                }
            }
            proof {
                let bw = branch_warnings(network@, texts(keys@), k as int);
                assert(texts(keys@)[f as int] == keys@[f as int]@);
                assert(texts(keys@)[t as int] == keys@[t as int]@);
                assert(texts(out@) =~= start + bw);
            }
        },
        _ => {
            push_text(out, join3("Branch ", name.as_str(), " references a missing bus."));
        },
    }
}

fn push_source_warnings(network: &Network, k: usize, out: &mut Vec<String>)
    requires
        k < network.sources.len(),
    ensures
        texts(final(out)@) == texts(old(out)@) + source_warnings(network@, k as int),
{
    let s = &network.sources[k];
    let name = element_name(&s.id, &s.name);
    let ghost start = texts(out@);
    let is_load = same_text(s.kind.as_str(), "load");
    if network.bus_index(s.bus.as_str()).is_none() {
        let label = if is_load {
            "Load"
        } else {
            "Source"
        };
        push_text(out, join4(label, " ", name.as_str(), " references a missing bus."));
    }
    let gives = supplies(s);
    if gives && s.rating.as_str().is_empty() {
        push_text(out, join3("Source ", name.as_str(), " has no rating metadata."));
    }
    if gives && !s.has_z0 && (same_text(s.kind.as_str(), "utility") || same_text(
        s.kind.as_str(),
        "source",
    )) {
        push_text(out, join3("Source ", name.as_str(), " has no zero-sequence data."));
    }
    proof {
        assert(texts(out@) =~= start + source_warnings(network@, k as int));
    }
}

/// Warnings about a case as the domain view lists them: no supplying source, branches
/// that reference missing buses, lack an equipment rating or a zero-sequence path, join
/// buses of different standard voltages, or transformers not reached through cable
/// branches, and sources that reference missing buses or lack rating or zero-sequence
/// data. `bus_voltage_keys[i]` is the standard voltage key of bus `i`.
pub fn model_warnings(network: &Network, bus_voltage_keys: &Vec<String>) -> (out: Vec<String>)
    requires
        bus_voltage_keys.len() == network.buses.len(),
    ensures
        texts(out@) == model_warning_list(network@, texts(bus_voltage_keys@)),
{
    let mut out: Vec<String> = Vec::new();
    let mut any_supply = false;
    let mut k: usize = 0;
    while k < network.sources.len()
        invariant
            k <= network.sources.len(),
            any_supply == exists|j: int| 0 <= j < k && source_supplies(#[trigger] network@.sources[j]),
        decreases network.sources.len() - k,
    {
        assert(network@.sources[k as int] == network.sources@[k as int]@);
        if supplies(&network.sources[k]) {
            any_supply = true;
        }
        k = k + 1;
    }
    if !any_supply {
        push_text(&mut out, "No enabled source equivalent is defined.".to_string());
    }
    proof {
        assert(texts(out@) =~= supply_warning(network@));
    }
    let ghost keys = texts(bus_voltage_keys@);
    let mut k: usize = 0;
    while k < network.branches.len()
        invariant
            k <= network.branches.len(),
            bus_voltage_keys.len() == network.buses.len(),
            keys == texts(bus_voltage_keys@),
            texts(out@) == supply_warning(network@) + branch_warnings_upto(network@, keys, k as nat),
        decreases network.branches.len() - k,
    {
        push_branch_warnings(network, bus_voltage_keys, k, &mut out);
        proof {
            assert(supply_warning(network@) + branch_warnings_upto(network@, keys, (k + 1) as nat)
                =~= supply_warning(network@) + branch_warnings_upto(network@, keys, k as nat)
                + branch_warnings(network@, keys, k as int));
        }
        k = k + 1;
    }
    let mut k: usize = 0;
    while k < network.sources.len()
        invariant
            k <= network.sources.len(),
            texts(out@) == supply_warning(network@) + branch_warnings_upto(
                network@,
                keys,
                network.branches.len() as nat,
            ) + source_warnings_upto(network@, k as nat),
        decreases network.sources.len() - k,
    {
        push_source_warnings(network, k, &mut out);
        proof {
            let pre = supply_warning(network@) + branch_warnings_upto(
                network@,
                keys,
                network.branches.len() as nat,
            );
            assert(pre + source_warnings_upto(network@, (k + 1) as nat) =~= pre
                + source_warnings_upto(network@, k as nat) + source_warnings(network@, k as int));
        }
        k = k + 1;
    }
    out
}

// ---------------------------------------------------------------------------
// Display rows and summary of the domain view
// ---------------------------------------------------------------------------

/// A bus as the domain view lists it.
#[derive(Clone, Debug)]
pub struct BusDisplay {
    pub id: String,
    pub name: String,
    pub voltage_key: String,
    pub voltage_label: String,
}

/// A row of the equipment schedule.
#[derive(Clone, Debug)]
pub struct ScheduleRow {
    pub item_type: String,
    pub name: String,
    pub connection: String,
    pub rating: String,
}

/// Counts shown with the domain view.
#[derive(Clone, Debug)]
pub struct DomainSummary {
    pub closed_branch_count: usize,
    pub enabled_source_count: usize,
    pub warning_count: usize,
}

/// Number of branches that are in service.
pub open spec fn closed_branches(bs: Seq<BranchModel>) -> nat
    decreases bs.len(),
{
    if bs.len() == 0 {
        0
    } else {
        closed_branches(bs.drop_last()) + if branch_open(bs.last()) {
            0nat
        } else {
            1nat
        }
    }
}

/// Number of sources that supply fault current.
pub open spec fn supplying_sources(ss: Seq<SourceModel>) -> nat
    decreases ss.len(),
{
    if ss.len() == 0 {
        0
    } else {
        supplying_sources(ss.drop_last()) + if source_supplies(ss.last()) {
            1nat
        } else {
            0nat
        }
    }
}

proof fn lemma_closed_branches_bound(bs: Seq<BranchModel>)
    ensures
        closed_branches(bs) <= bs.len(),
    decreases bs.len(),
{
    if bs.len() > 0 {
        lemma_closed_branches_bound(bs.drop_last());
    }
}

proof fn lemma_supplying_sources_bound(ss: Seq<SourceModel>)
    ensures
        supplying_sources(ss) <= ss.len(),
    decreases ss.len(),
{
    if ss.len() > 0 {
        lemma_supplying_sources_bound(ss.drop_last());
    }
}

/// The summary counts: branches in service, sources that supply fault current, and the
/// number of warnings given.
pub fn domain_summary(network: &Network, warning_count: usize) -> (s: DomainSummary)
    ensures
        s.closed_branch_count == closed_branches(network@.branches),
        s.enabled_source_count == supplying_sources(network@.sources),
        s.warning_count == warning_count,
{
    let mut closed: usize = 0;
    let mut k: usize = 0;
    while k < network.branches.len()
        invariant
            k <= network.branches.len(),
            closed == closed_branches(network@.branches.take(k as int)),
        decreases network.branches.len() - k,
    {
        proof {
            assert(network@.branches.take(k + 1).drop_last() =~= network@.branches.take(k as int));
            lemma_closed_branches_bound(network@.branches.take(k as int));
        }
        if !is_branch_open(&network.branches[k]) {
            closed = closed + 1;
        }
        k = k + 1;
    }
    assert(network@.branches.take(k as int) =~= network@.branches);
    let mut enabled: usize = 0;
    let mut k: usize = 0;
    while k < network.sources.len()
        invariant
            k <= network.sources.len(),
            enabled == supplying_sources(network@.sources.take(k as int)),
        decreases network.sources.len() - k,
    {
        proof {
            assert(network@.sources.take(k + 1).drop_last() =~= network@.sources.take(k as int));
            lemma_supplying_sources_bound(network@.sources.take(k as int));
        }
        if supplies(&network.sources[k]) {
            enabled = enabled + 1;
        }
        k = k + 1;
    }
    assert(network@.sources.take(k as int) =~= network@.sources);
    DomainSummary {
        closed_branch_count: closed,
        enabled_source_count: enabled,
        warning_count,
    }
}

/// The display entry of bus `i`, with its standard voltage key and label.
pub fn bus_display(network: &Network, i: usize, voltage_key: String, voltage_label: String) -> (d:
    BusDisplay)
    requires
        i < network.buses.len(),
    ensures
        d.id@ == network@.buses[i as int].id,
        d.name@ == display_name_of(network@.buses[i as int].id, network@.buses[i as int].name),
        d.voltage_key@ == voltage_key@,
        d.voltage_label@ == voltage_label@,
{
    let bus = &network.buses[i];
    BusDisplay {
        id: bus.id.as_str().to_string(),
        name: bus.display_name(),
        voltage_key,
        voltage_label,
    }
}

/// The schedule row of bus `i`, whose voltage is shown as `voltage_label`.
pub fn bus_schedule_row(network: &Network, i: usize, voltage_label: String) -> (r: ScheduleRow)
    requires
        i < network.buses.len(),
    ensures
        r.item_type@ == "Bus"@,
        r.name@ == display_name_of(network@.buses[i as int].id, network@.buses[i as int].name),
        r.connection@ == voltage_label@,
        r.rating@.len() == 0,
{
    ScheduleRow {
        item_type: "Bus".to_string(),
        name: network.buses[i].display_name(),
        connection: voltage_label,
        rating: String::new(),
    }
}

/// The schedule row of source `k`: its kind, its name, the bus it connects to and its rating.
pub fn source_schedule_row(network: &Network, k: usize) -> (r: ScheduleRow)
    requires
        k < network.sources.len(),
    ensures
        r.item_type@ == network@.sources[k as int].kind,
        r.name@ == display_name_of(network@.sources[k as int].id, network@.sources[k as int].name),
        r.connection@ == match network@.bus_position(network@.sources[k as int].bus) {
            Some(i) => display_name_of(network@.buses[i].id, network@.buses[i].name),
            None => network@.sources[k as int].bus,
        },
        r.rating@ == network@.sources[k as int].rating,
{
    let s = &network.sources[k];
    ScheduleRow {
        item_type: s.kind.as_str().to_string(),
        name: element_name(&s.id, &s.name),
        connection: bus_label(network, s.bus.as_str()),
        rating: s.rating.as_str().to_string(),
    }
}

/// The texts of a schedule row: type, name, connection and rating.
pub open spec fn schedule_texts(r: ScheduleRow) -> Seq<Seq<char>> {
    seq![r.item_type@, r.name@, r.connection@, r.rating@]
}

/// The schedule row of bus `i`, whose voltage is shown as `label`.
pub open spec fn bus_row_texts(n: NetworkModel, i: int, label: Seq<char>) -> Seq<Seq<char>> {
    seq!["Bus"@, display_name_of(n.buses[i].id, n.buses[i].name), label, Seq::empty()]
}

/// The schedule row of source `k`.
pub open spec fn source_row_texts(n: NetworkModel, k: int) -> Seq<Seq<char>> {
    let s = n.sources[k];
    seq![
        s.kind,
        display_name_of(s.id, s.name),
        match n.bus_position(s.bus) {
            Some(i) => display_name_of(n.buses[i].id, n.buses[i].name),
            None => s.bus,
        },
        s.rating,
    ]
}

/// The equipment schedule of the domain view: a row for each bus (with the label of its
/// voltage), then the given branch rows, then a row for each source, in case order.
pub fn equipment_schedule(
    network: &Network,
    bus_voltage_labels: &Vec<String>,
    branch_rows: Vec<ScheduleRow>,
) -> (rows: Vec<ScheduleRow>)
    requires
        bus_voltage_labels.len() == network.buses.len(),
    ensures
        rows.len() == network.buses.len() + branch_rows.len() + network.sources.len(),
        forall|i: int|
            0 <= i < network.buses.len() ==> schedule_texts(#[trigger] rows@[i]) == bus_row_texts(
                network@,
                i,
                bus_voltage_labels@[i]@,
            ),
        forall|j: int|
            0 <= j < branch_rows.len() ==> schedule_texts(
                #[trigger] rows@[network.buses.len() + j],
            ) == schedule_texts(branch_rows@[j]),
        forall|k: int|
            0 <= k < network.sources.len() ==> schedule_texts(
                #[trigger] rows@[network.buses.len() + branch_rows.len() + k],
            ) == source_row_texts(network@, k),
{
    let nb = network.buses.len();
    let mut rows: Vec<ScheduleRow> = Vec::new();
    let mut i: usize = 0;
    while i < nb
        invariant
            nb == network.buses.len(),
            bus_voltage_labels.len() == nb,
            i <= nb,
            rows.len() == i,
            forall|q: int|
                0 <= q < i ==> schedule_texts(#[trigger] rows@[q]) == bus_row_texts(
                    network@,
                    q,
                    bus_voltage_labels@[q]@,
                ),
        decreases nb - i,
    {
        let label = bus_voltage_labels[i].clone();
        let row = bus_schedule_row(network, i, label);
        assert(row.rating@ =~= Seq::<char>::empty());
        assert(schedule_texts(row) =~= bus_row_texts(network@, i as int, bus_voltage_labels@[i as int]@));
        rows.push(row);
        i = i + 1;
    }
    let ghost given = branch_rows@;
    let mut j: usize = 0;
    while j < branch_rows.len()
        invariant
            nb == network.buses.len(),
            given == branch_rows@,
            j <= branch_rows.len(),
            rows.len() == nb + j,
            forall|q: int|
                0 <= q < nb ==> schedule_texts(#[trigger] rows@[q]) == bus_row_texts(
                    network@,
                    q,
                    bus_voltage_labels@[q]@,
                ),
            forall|q: int|
                0 <= q < j ==> schedule_texts(#[trigger] rows@[nb + q]) == schedule_texts(
                    given[q],
                ),
        decreases branch_rows.len() - j,
    {
        let r = &branch_rows[j];
        let row = ScheduleRow {
            item_type: r.item_type.clone(),
            name: r.name.clone(),
            connection: r.connection.clone(),
            rating: r.rating.clone(),
        };
        assert(schedule_texts(row) =~= schedule_texts(given[j as int]));
        rows.push(row);
        j = j + 1;
    }
    let nr = branch_rows.len();
    let mut k: usize = 0;
    while k < network.sources.len()
        invariant
            nb == network.buses.len(),
            given == branch_rows@,
            nr == given.len(),
            k <= network.sources.len(),
            rows.len() == nb + nr + k,
            forall|q: int|
                0 <= q < nb ==> schedule_texts(#[trigger] rows@[q]) == bus_row_texts(
                    network@,
                    q,
                    bus_voltage_labels@[q]@,
                ),
            forall|q: int|
                0 <= q < nr ==> schedule_texts(#[trigger] rows@[nb + q]) == schedule_texts(
                    given[q],
                ),
            forall|q: int|
                0 <= q < k ==> schedule_texts(#[trigger] rows@[nb + nr + q]) == source_row_texts(
                    network@,
                    q,
                ),
        decreases network.sources.len() - k,
    {
        let row = source_schedule_row(network, k);
        assert(schedule_texts(row) =~= source_row_texts(network@, k as int));
        rows.push(row);
        k = k + 1;
    }
    rows
}

// ---------------------------------------------------------------------------
// Voltage groups: buses joined by non-transformer branches share one voltage
// ---------------------------------------------------------------------------

/// A non-transformer branch joins identifiers `a` and `b` (buses or not).
pub open spec fn id_linked(n: NetworkModel, a: Seq<char>, b: Seq<char>) -> bool {
    exists|k: int|
        0 <= k < n.branches.len() && !changes_voltage(#[trigger] n.branches[k]) && ((
        n.branches[k].from == a && n.branches[k].to == b) || (n.branches[k].from == b
            && n.branches[k].to == a))
}

/// `p` is a walk over identifiers along non-transformer branches.
pub open spec fn id_walk(n: NetworkModel, p: Seq<Seq<char>>) -> bool {
    p.len() > 0 && forall|i: int| 0 <= i < p.len() - 1 ==> id_linked(n, #[trigger] p[i], p[i + 1])
}

/// Identifier `b` is reached from `a` through non-transformer branches.
pub open spec fn id_connected(n: NetworkModel, a: Seq<char>, b: Seq<char>) -> bool {
    exists|p: Seq<Seq<char>>| #[trigger] id_walk(n, p) && p[0] == a && p.last() == b
}

/// Bus `p` is the first bus with its identifier.
pub open spec fn first_of_its_id(n: NetworkModel, p: int) -> bool {
    forall|j: int| 0 <= j < p ==> n.buses[j].id != #[trigger] n.buses[p].id
}

/// The anchor of bus `p`'s voltage group: the first bus whose identifier is connected to
/// `p`'s through non-transformer branches.
pub open spec fn is_group_anchor(n: NetworkModel, p: int, a: int) -> bool {
    &&& 0 <= a <= p
    &&& id_connected(n, n.buses[p].id, n.buses[a].id)
    &&& forall|q: int| 0 <= q < a ==> !id_connected(n, n.buses[p].id, #[trigger] n.buses[q].id)
}

/// The identifiers that the search from `start` visits: `start`, then the two ends of every
/// branch in order.
pub open spec fn id_universe(n: NetworkModel, start: Seq<char>) -> Seq<Seq<char>> {
    Seq::new(
        (1 + 2 * n.branches.len()) as nat,
        |u: int|
            if u == 0 {
                start
            } else if u % 2 == 1 {
                n.branches[(u - 1) / 2].from
            } else {
                n.branches[(u - 2) / 2].to
            },
    )
}

proof fn lemma_id_walk_extend(n: NetworkModel, p: Seq<Seq<char>>, next: Seq<char>)
    requires
        id_walk(n, p),
        id_linked(n, p.last(), next),
    ensures
        id_walk(n, p.push(next)),
        p.push(next)[0] == p[0],
        p.push(next).last() == next,
{
    let q = p.push(next);
    assert forall|i: int| 0 <= i < q.len() - 1 implies id_linked(n, #[trigger] q[i], q[i + 1]) by {
        if i < p.len() - 1 {
            assert(q[i] == p[i] && q[i + 1] == p[i + 1]);
        } else {
            assert(q[i] == p.last());
        }
    }
}

/// A set of universe positions that holds position 0, is closed under non-transformer
/// branches and under equal identifiers holds every identifier connected to the start.
proof fn lemma_closed_reaches(n: NetworkModel, start: Seq<char>, seen: Seq<bool>, p: Seq<Seq<char>>, i: int)
    requires
        seen.len() == 1 + 2 * n.branches.len(),
        seen[0],
        forall|k: int|
            0 <= k < n.branches.len() && !changes_voltage(#[trigger] n.branches[k]) ==> seen[1 + 2
                * k] == seen[2 + 2 * k],
        forall|u: int, v: int|
            0 <= u < seen.len() && 0 <= v < seen.len() && seen[u] && #[trigger] id_universe(n, start)[u]
                == #[trigger] id_universe(n, start)[v] ==> seen[v],
        id_walk(n, p),
        p[0] == start,
        0 <= i < p.len(),
    ensures
        exists|u: int| 0 <= u < seen.len() && seen[u] && #[trigger] id_universe(n, start)[u] == p[i],
    decreases i,
{
    let ids = id_universe(n, start);
    if i == 0 {
        assert(ids[0] == start);
    } else {
        lemma_closed_reaches(n, start, seen, p, i - 1);
        let u = choose|u: int| 0 <= u < seen.len() && seen[u] && #[trigger] id_universe(n, start)[u] == p[i - 1];
        assert(id_linked(n, p[i - 1], p[i]));
        let k = choose|k: int|
            0 <= k < n.branches.len() && !changes_voltage(#[trigger] n.branches[k]) && ((
            n.branches[k].from == p[i - 1] && n.branches[k].to == p[i]) || (n.branches[k].from == p[i - 1 + 1]
                && n.branches[k].to == p[i - 1]));
        let f = 1 + 2 * k;
        let t = 2 + 2 * k;
        assert(ids[f] == n.branches[k].from) by {
            assert((f - 1) / 2 == k);
        }
        assert(ids[t] == n.branches[k].to) by {
            assert((t - 2) / 2 == k);
        }
        if n.branches[k].from == p[i - 1] {
            assert(seen[f]);
            assert(seen[t]);
        } else {
            assert(seen[t]);
            assert(seen[f]);
        }
    }
}


fn id_at<'a>(network: &'a Network, start: &'a str, u: usize) -> (r: &'a str)
    requires
        u < 1 + 2 * network.branches.len(),
    ensures
        r@ == id_universe(network@, start@)[u as int],
{
    if u == 0 {
        start
    } else if u % 2 == 1 {
        network.branches[(u - 1) / 2].from.as_str()
    } else {
        network.branches[(u - 2) / 2].to.as_str()
    }
}

/// Whether some seen position holds identifier `id`.
fn reached(network: &Network, start: &str, seen: &Vec<bool>, id: &str) -> (r: bool)
    requires
        seen.len() == 1 + 2 * network.branches.len(),
    ensures
        r == exists|u: int|
            0 <= u < seen.len() && seen[u] && #[trigger] id_universe(network@, start@)[u] == id@,
{
    let mut v: usize = 0;
    while v < seen.len()
        invariant
            seen.len() == 1 + 2 * network.branches.len(),
            v <= seen.len(),
            forall|u: int|
                0 <= u < v && seen[u] ==> #[trigger] id_universe(network@, start@)[u] != id@,
        decreases seen.len() - v,
    {
        if seen[v] && same_text(id_at(network, start, v), id) {
            return true;
        }
        v = v + 1;
    }
    false
}

/// The identifiers connected to `start` through non-transformer branches, as marks on
/// the positions of `id_universe(start)`.
fn connected_ids(network: &Network, start: &str) -> (seen: Vec<bool>)
    requires
        1 + 2 * network.branches.len() <= usize::MAX,
    ensures
        seen.len() == 1 + 2 * network.branches.len(),
        forall|x: Seq<char>|
            id_connected(network@, start@, x) <==> exists|u: int|
                0 <= u < seen.len() && seen[u] && #[trigger] id_universe(network@, start@)[u] == x,
{
    let ghost n = network@;
    let ghost ids = id_universe(n, start@);
    let count = 1 + 2 * network.branches.len();
    let mut seen: Vec<bool> = vec![false; count];
    proof {
        assert(seen@ =~= Seq::new(count as nat, |i: int| false));
        crate::topology::lemma_count_true_none(count as nat);
        crate::topology::lemma_count_true_set(seen@, 0);
        let p = seq![start@];
        assert(id_walk(n, p));
    }
    seen.set(0, true);
    loop
        invariant
            n == network@,
            ids == id_universe(n, start@),
            count == 1 + 2 * network.branches.len(),
            seen.len() == count,
            seen[0],
            forall|u: int| 0 <= u < count && seen[u] ==> id_connected(n, start@, #[trigger] ids[u]),
        decreases count - crate::topology::count_true(seen@),
    {
        proof {
            crate::topology::lemma_count_true_bound(seen@);
        }
        let ghost before = seen@;
        let mut changed = false;
        let mut k: usize = 0;
        while k < network.branches.len()
            invariant
                n == network@,
                ids == id_universe(n, start@),
                count == 1 + 2 * network.branches.len(),
                seen.len() == count,
                seen[0],
                k <= network.branches.len(),
                forall|u: int| 0 <= u < count && seen[u] ==> id_connected(n, start@, #[trigger] ids[u]),
                !changed ==> seen@ == before,
                changed ==> crate::topology::count_true(seen@) > crate::topology::count_true(before),
                !changed ==> forall|j: int|
                    0 <= j < k && !changes_voltage(#[trigger] n.branches[j]) ==> seen[1 + 2 * j]
                        == seen[2 + 2 * j],
                crate::topology::count_true(seen@) <= count,
            decreases network.branches.len() - k,
        {
            let f = 1 + 2 * k;
            let t = 2 + 2 * k;
            proof {
                assert(ids[f as int] == n.branches[k as int].from) by {
                    assert((f - 1) / 2 == k);
                }
                assert(ids[t as int] == n.branches[k as int].to) by {
                    assert((t - 2) / 2 == k);
                }
            }
            if !is_voltage_changing_branch(&network.branches[k]) && seen[f] != seen[t] {
                let (from_pos, to_pos) = if seen[f] {
                    (f, t)
                } else {
                    (t, f)
                };
                proof {
                    assert(id_linked(n, ids[from_pos as int], ids[to_pos as int]));
                    let p = choose|p: Seq<Seq<char>>|
                        #[trigger] id_walk(n, p) && p[0] == start@ && p.last() == ids[from_pos as int];
                    lemma_id_walk_extend(n, p, ids[to_pos as int]);
                    crate::topology::lemma_count_true_set(seen@, to_pos as int);
                    crate::topology::lemma_count_true_bound(seen@.update(to_pos as int, true));
                }
                seen.set(to_pos, true);
                changed = true;
            }
            k = k + 1;
        }
        let mut u: usize = 0;
        while u < count
            invariant
                n == network@,
                ids == id_universe(n, start@),
                count == 1 + 2 * network.branches.len(),
                seen.len() == count,
                seen[0],
                u <= count,
                forall|w: int| 0 <= w < count && seen[w] ==> id_connected(n, start@, #[trigger] ids[w]),
                !changed ==> seen@ == before,
                changed ==> crate::topology::count_true(seen@) > crate::topology::count_true(before),
                !changed ==> forall|j: int|
                    0 <= j < network.branches.len() && !changes_voltage(#[trigger] n.branches[j])
                        ==> seen[1 + 2 * j] == seen[2 + 2 * j],
                !changed ==> forall|w: int, v: int|
                    0 <= v < u && 0 <= w < count && seen[w] && #[trigger] ids[w] == #[trigger] ids[v] ==> seen[v],
                crate::topology::count_true(seen@) <= count,
            decreases count - u,
        {
            if !seen[u] && reached(network, start, &seen, id_at(network, start, u)) {
                proof {
                    let w = choose|w: int| 0 <= w < seen.len() && seen[w] && #[trigger] id_universe(network@, start@)[w] == ids[u as int];
                    assert(id_connected(n, start@, ids[w]));
                    crate::topology::lemma_count_true_set(seen@, u as int);
                    crate::topology::lemma_count_true_bound(seen@.update(u as int, true));
                }
                seen.set(u, true);
                changed = true;
            }
            u = u + 1;
        }
        if !changed {
            proof {
                assert forall|x: Seq<char>|
                    id_connected(n, start@, x) implies exists|w: int|
                        0 <= w < seen.len() && seen[w] && #[trigger] id_universe(network@, start@)[w] == x by {
                    let p = choose|p: Seq<Seq<char>>| #[trigger] id_walk(n, p) && p[0] == start@ && p.last() == x;
                    lemma_closed_reaches(n, start@, seen@, p, p.len() - 1);
                }
            }
            return seen;
        }
    }
}

/// For each bus, the bus whose voltage its voltage group takes: every bus that is the
/// first with its identifier is anchored at the first bus connected to it through
/// non-transformer branches; a later bus that repeats an identifier gets `None` and
/// keeps its voltage.
pub fn voltage_group_anchors(network: &Network) -> (r: Vec<Option<usize>>)
    requires
        1 + 2 * network.branches.len() <= usize::MAX,
    ensures
        r.len() == network.buses.len(),
        forall|p: int|
            0 <= p < r.len() ==> match #[trigger] r@[p] {
                Some(a) => first_of_its_id(network@, p) && is_group_anchor(network@, p, a as int),
                None => !first_of_its_id(network@, p),
            },
{
    let ghost n = network@;
    let mut r: Vec<Option<usize>> = Vec::new();
    let mut p: usize = 0;
    while p < network.buses.len()
        invariant
            n == network@,
            1 + 2 * network.branches.len() <= usize::MAX,
            p <= network.buses.len(),
            r.len() == p,
            forall|q: int|
                0 <= q < r.len() ==> match #[trigger] r@[q] {
                    Some(a) => first_of_its_id(n, q) && is_group_anchor(n, q, a as int),
                    None => !first_of_its_id(n, q),
                },
        decreases network.buses.len() - p,
    {
        let id = network.buses[p].id.as_str();
        let mut repeated = false;
        let mut j: usize = 0;
        while j < p
            invariant
                p < network.buses.len(),
                id@ == n.buses[p as int].id,
                n == network@,
                j <= p,
                repeated == exists|i: int| 0 <= i < j && #[trigger] n.buses[i].id == n.buses[p as int].id,
            decreases p - j,
        {
            assert(n.buses[j as int].id == network.buses@[j as int].id@);
            if same_text(network.buses[j].id.as_str(), id) {
                repeated = true;
            }
            j = j + 1;
        }
        if repeated {
            r.push(None);
        } else {
            let seen = connected_ids(network, id);
            let mut a: usize = 0;
            proof {
                let w = seq![id@];
                assert(id_walk(n, w));
                assert(id_connected(n, id@, id@));
            }
            while a < p && !reached(network, id, &seen, network.buses[a].id.as_str())
                invariant
                    p < network.buses.len(),
                    n == network@,
                    id@ == n.buses[p as int].id,
                    a <= p,
                    seen.len() == 1 + 2 * network.branches.len(),
                    forall|x: Seq<char>|
                        id_connected(n, id@, x) <==> exists|u: int|
                            0 <= u < seen.len() && seen[u] && #[trigger] id_universe(n, id@)[u] == x,
                    forall|q: int| 0 <= q < a ==> !id_connected(n, id@, #[trigger] n.buses[q].id),
                decreases p - a,
            {
                a = a + 1;
            }
            proof {
                if a < p {
                    assert(id_connected(n, id@, n.buses[a as int].id));
                }
            }
            r.push(Some(a));
        }
        proof {
            assert forall|q: int| 0 <= q < r.len() implies match #[trigger] r@[q] {
                Some(a) => first_of_its_id(n, q) && is_group_anchor(n, q, a as int),
                None => !first_of_its_id(n, q),
            } by {
                if q == p {
                    if repeated {
                        let i = choose|i: int| 0 <= i < p && #[trigger] n.buses[i].id == n.buses[p as int].id;
                        assert(n.buses[i].id == n.buses[q].id);
                    }
                }
            }
        }
        p = p + 1;
    }
    r
}

// ---------------------------------------------------------------------------
// Laws of the domain view
// ---------------------------------------------------------------------------

/// The text begins with a capital letter other than 'N'.
pub open spec fn opens_without_n(w: Seq<char>) -> bool {
    w.len() > 0 && w[0] != 'N'
}

proof fn lemma_branch_warnings_open_without_n(n: NetworkModel, keys: Seq<Seq<char>>, k: nat)
    ensures
        forall|i: int|
            0 <= i < branch_warnings_upto(n, keys, k).len() ==> opens_without_n(
                #[trigger] branch_warnings_upto(n, keys, k)[i],
            ),
    decreases k,
{
    reveal_strlit("Branch ");
    reveal_strlit("Transformer ");
    if k > 0 {
        lemma_branch_warnings_open_without_n(n, keys, (k - 1) as nat);
        let prev = branch_warnings_upto(n, keys, (k - 1) as nat);
        let w = branch_warnings(n, keys, k - 1);
        assert forall|i: int| 0 <= i < w.len() implies opens_without_n(#[trigger] w[i]) by {
            let b = n.branches[k - 1];
            let name = display_name_of(b.id, b.name);
            assert(("Branch "@ + name)[0] == 'B');
            assert(("Transformer "@ + name)[0] == 'T');
        }
        assert forall|i: int|
            0 <= i < branch_warnings_upto(n, keys, k).len() implies opens_without_n(
                #[trigger] branch_warnings_upto(n, keys, k)[i],
            ) by {
            if i >= prev.len() {
                assert(branch_warnings_upto(n, keys, k)[i] == w[i - prev.len()]);
            } else {
                assert(branch_warnings_upto(n, keys, k)[i] == prev[i]);
            }
        }
    }
}

proof fn lemma_source_warnings_open_without_n(n: NetworkModel, k: nat)
    ensures
        forall|i: int|
            0 <= i < source_warnings_upto(n, k).len() ==> opens_without_n(
                #[trigger] source_warnings_upto(n, k)[i],
            ),
    decreases k,
{
    reveal_strlit("Source ");
    reveal_strlit("Load");
    reveal_strlit("Source");
    if k > 0 {
        lemma_source_warnings_open_without_n(n, (k - 1) as nat);
        let prev = source_warnings_upto(n, (k - 1) as nat);
        let w = source_warnings(n, k - 1);
        assert forall|i: int| 0 <= i < w.len() implies opens_without_n(#[trigger] w[i]) by {
            let s = n.sources[k - 1];
            let name = display_name_of(s.id, s.name);
            assert(("Source "@ + name)[0] == 'S');
            assert(("Load"@ + " "@ + name)[0] == 'L');
            assert(("Source"@ + " "@ + name)[0] == 'S');
        }
        assert forall|i: int|
            0 <= i < source_warnings_upto(n, k).len() implies opens_without_n(
                #[trigger] source_warnings_upto(n, k)[i],
            ) by {
            if i >= prev.len() {
                assert(source_warnings_upto(n, k)[i] == w[i - prev.len()]);
            } else {
                assert(source_warnings_upto(n, k)[i] == prev[i]);
            }
        }
    }
}

proof fn lemma_no_supplying_source(ss: Seq<SourceModel>)
    ensures
        supplying_sources(ss) == 0 <==> forall|k: int|
            0 <= k < ss.len() ==> !source_supplies(#[trigger] ss[k]),
    decreases ss.len(),
{
    if ss.len() > 0 {
        let front = ss.drop_last();
        lemma_no_supplying_source(front);
        assert forall|k: int| 0 <= k < front.len() implies #[trigger] front[k] == ss[k] by {}
        if supplying_sources(ss) == 0 {
            assert forall|k: int| 0 <= k < ss.len() implies !source_supplies(#[trigger] ss[k]) by {
                if k < front.len() {
                    assert(front[k] == ss[k]);
                }
            }
        }
    }
}

/// The first warning of the domain view is that no source supplies fault current exactly
/// when the summary counts no supplying source.
pub proof fn lemma_supply_warning_matches_summary(n: NetworkModel, keys: Seq<Seq<char>>)
    ensures
        supplying_sources(n.sources) == 0 <==> (model_warning_list(n, keys).len() > 0
            && model_warning_list(n, keys)[0] == "No enabled source equivalent is defined."@),
{
    reveal_strlit("No enabled source equivalent is defined.");
    lemma_no_supplying_source(n.sources);
    let rest = branch_warnings_upto(n, keys, n.branches.len()) + source_warnings_upto(
        n,
        n.sources.len(),
    );
    let all = model_warning_list(n, keys);
    if supplying_sources(n.sources) == 0 {
        assert(supply_warning(n) == seq!["No enabled source equivalent is defined."@]);
        assert(all[0] == supply_warning(n)[0]);
    } else {
        let k = choose|k: int| 0 <= k < n.sources.len() && source_supplies(#[trigger] n.sources[k]);
        assert(supply_warning(n) == Seq::<Seq<char>>::empty());
        assert(all =~= rest);
        if all.len() > 0 {
            lemma_branch_warnings_open_without_n(n, keys, n.branches.len());
            lemma_source_warnings_open_without_n(n, n.sources.len());
            let b = branch_warnings_upto(n, keys, n.branches.len());
            if b.len() > 0 {
                assert(all[0] == b[0]);
                assert(opens_without_n(b[0]));
            } else {
                assert(all[0] == source_warnings_upto(n, n.sources.len())[0]);
            }
            assert(opens_without_n(all[0]));
            assert("No enabled source equivalent is defined."@[0] == 'N');
        }
    }
}

proof fn lemma_branch_warning_listed(n: NetworkModel, keys: Seq<Seq<char>>, k: int, m: nat, w: Seq<char>)
    requires
        0 <= k < m,
        branch_warnings(n, keys, k).contains(w),
    ensures
        branch_warnings_upto(n, keys, m).contains(w),
    decreases m,
{
    let prev = branch_warnings_upto(n, keys, (m - 1) as nat);
    let cur = branch_warnings(n, keys, m - 1);
    if k == m - 1 {
        let j = choose|j: int| 0 <= j < cur.len() && cur[j] == w;
        assert((prev + cur)[prev.len() + j] == w);
    } else {
        lemma_branch_warning_listed(n, keys, k, (m - 1) as nat, w);
        let j = choose|j: int| 0 <= j < prev.len() && prev[j] == w;
        assert((prev + cur)[j] == w);
    }
}

/// A branch that is in service between two existing buses, whose kind is breaker, switch,
/// tie, feeder or transformer and whose ampere rating is not above zero, is reported as
/// having no equipment rating for duty comparison; and a branch's own warnings hold that
/// report only in that case.
pub proof fn lemma_unrated_equipment_is_reported(n: NetworkModel, keys: Seq<Seq<char>>, k: int)
    requires
        0 <= k < n.branches.len(),
    ensures
        ({
            let b = n.branches[k];
            let w = "Branch "@ + display_name_of(b.id, b.name)
                + " has no equipment rating for duty comparison."@;
            let due = n.bus_position(b.from) is Some && n.bus_position(b.to) is Some && b.enabled
                && !crate::text::seq_contains(b.state, "open"@) && b.state != "out_of_service"@
                && b.rating_a.spec_le_zero() && (b.kind == "breaker"@ || b.kind == "switch"@
                || b.kind == "tie"@ || b.kind == "feeder"@ || b.kind == "transformer"@);
            &&& branch_warnings(n, keys, k).contains(w) <==> due
            &&& due ==> model_warning_list(n, keys).contains(w)
        }),
{
    let b = n.branches[k];
    let name = display_name_of(b.id, b.name);
    let w = "Branch "@ + name + " has no equipment rating for duty comparison."@;
    reveal_strlit("Branch ");
    reveal_strlit("Transformer ");
    reveal_strlit(" has no equipment rating for duty comparison.");
    reveal_strlit(" has no zero-sequence path.");
    reveal_strlit(" connects buses with different voltage ratings.");
    reveal_strlit(" references a missing bus.");
    reveal_strlit(" shall connect to other elements through cable branches.");
    let bw = branch_warnings(n, keys, k);
    assert(w.len() == name.len() + 52);
    assert forall|j: int| 0 <= j < bw.len() && #[trigger] bw[j] == w implies j == 0
        && !branch_open(b) && b.rating_a.spec_le_zero() && rated_kind(b.kind) && n.bus_position(
        b.from,
    ) is Some && n.bus_position(b.to) is Some by {
        if n.bus_position(b.from) is None || n.bus_position(b.to) is None {
            assert(bw[j].len() == name.len() + 33);
        } else {
            let rating = if !branch_open(b) && b.rating_a.spec_le_zero() && rated_kind(b.kind) {
                seq!["Branch "@ + name + " has no equipment rating for duty comparison."@]
            } else {
                Seq::empty()
            };
            if j >= rating.len() {
                let x = bw[j];
                assert(x.len() == name.len() + 34 || x.len() == name.len() + 54 || x.len()
                    == name.len() + 68);
            }
        }
    }
    if n.bus_position(b.from) is Some && n.bus_position(b.to) is Some && !branch_open(b)
        && b.rating_a.spec_le_zero() && rated_kind(b.kind) {
        assert(bw[0] == w);
        lemma_branch_warning_listed(n, keys, k, n.branches.len(), w);
        let up = branch_warnings_upto(n, keys, n.branches.len());
        let j = choose|j: int| 0 <= j < up.len() && up[j] == w;
        let all = model_warning_list(n, keys);
        let sw = supply_warning(n);
        assert(all[sw.len() + j] == w);
    }
}

proof fn lemma_source_warning_listed(n: NetworkModel, keys: Seq<Seq<char>>, k: int, w: Seq<char>)
    requires
        0 <= k < n.sources.len(),
        source_warnings(n, k).contains(w),
    ensures
        model_warning_list(n, keys).contains(w),
{
    lemma_source_warning_upto(n, k, n.sources.len(), w);
    let up = source_warnings_upto(n, n.sources.len());
    let j = choose|j: int| 0 <= j < up.len() && up[j] == w;
    let pre = supply_warning(n) + branch_warnings_upto(n, keys, n.branches.len());
    assert(model_warning_list(n, keys)[pre.len() + j] == w);
}

proof fn lemma_source_warning_upto(n: NetworkModel, k: int, m: nat, w: Seq<char>)
    requires
        0 <= k < m,
        source_warnings(n, k).contains(w),
    ensures
        source_warnings_upto(n, m).contains(w),
    decreases m,
{
    let prev = source_warnings_upto(n, (m - 1) as nat);
    let cur = source_warnings(n, m - 1);
    if k == m - 1 {
        let j = choose|j: int| 0 <= j < cur.len() && cur[j] == w;
        assert((prev + cur)[prev.len() + j] == w);
    } else {
        lemma_source_warning_upto(n, k, (m - 1) as nat, w);
        let j = choose|j: int| 0 <= j < prev.len() && prev[j] == w;
        assert((prev + cur)[j] == w);
    }
}

/// The warnings about a source. One that supplies fault current (not a load, enabled, and
/// with a state that neither mentions "open" nor is "out_of_service") is reported when it
/// has no rating text, and, when it is a utility or a plain source, when it has no
/// zero-sequence data. A source at a missing bus is reported as such, labelled "Load" for a
/// load and "Source" otherwise. A source's own warnings hold these reports exactly in
/// those cases, and each of them is among the warnings of the case.
pub proof fn lemma_source_warnings_explained(n: NetworkModel, keys: Seq<Seq<char>>, k: int)
    requires
        0 <= k < n.sources.len(),
    ensures
        ({
            let s = n.sources[k];
            let name = display_name_of(s.id, s.name);
            let supplies = s.kind != "load"@ && s.enabled && !crate::text::seq_contains(
                s.state,
                "open"@,
            ) && s.state != "out_of_service"@;
            let no_rating = "Source "@ + name + " has no rating metadata."@;
            let no_zero = "Source "@ + name + " has no zero-sequence data."@;
            let missing = (if s.kind == "load"@ {
                "Load"@
            } else {
                "Source"@
            }) + " "@ + name + " references a missing bus."@;
            let ws = source_warnings(n, k);
            &&& ws.contains(no_rating) <==> supplies && s.rating.len() == 0
            &&& ws.contains(no_zero) <==> supplies && !s.has_z0 && (s.kind == "utility"@ || s.kind
                == "source"@)
            &&& ws.contains(missing) <==> n.bus_position(s.bus) is None
            &&& forall|w: Seq<char>| ws.contains(w) ==> model_warning_list(n, keys).contains(w)
        }),
{
    let s = n.sources[k];
    let name = display_name_of(s.id, s.name);
    reveal_strlit("Source ");
    reveal_strlit("Source");
    reveal_strlit("Load");
    reveal_strlit(" ");
    reveal_strlit(" has no rating metadata.");
    reveal_strlit(" has no zero-sequence data.");
    reveal_strlit(" references a missing bus.");
    let ws = source_warnings(n, k);
    let no_rating = "Source "@ + name + " has no rating metadata."@;
    let no_zero = "Source "@ + name + " has no zero-sequence data."@;
    let label = if s.kind == "load"@ {
        "Load"@
    } else {
        "Source"@
    };
    let missing = label + " "@ + name + " references a missing bus."@;
    assert(no_rating.len() == name.len() + 31);
    assert(no_zero.len() == name.len() + 34);
    assert(missing.len() == label.len() + name.len() + 27);
    assert(no_rating[0] == 'S' && no_zero[0] == 'S');
    assert(s.kind == "load"@ ==> missing[0] == 'L');
    assert forall|j: int| 0 <= j < ws.len() implies (ws[j] == no_rating ==> source_supplies(s)
        && s.rating.len() == 0) && (ws[j] == no_zero ==> source_supplies(s) && !s.has_z0
        && grounding_kind(s.kind)) && (ws[j] == missing ==> n.bus_position(s.bus) is None) by {
        let m = if n.bus_position(s.bus) is None {
            seq![label + " "@ + name + " references a missing bus."@]
        } else {
            Seq::empty()
        };
        let r = if source_supplies(s) && s.rating.len() == 0 {
            seq!["Source "@ + name + " has no rating metadata."@]
        } else {
            Seq::empty()
        };
        assert(ws =~= m + r + if source_supplies(s) && !s.has_z0 && grounding_kind(s.kind) {
            seq!["Source "@ + name + " has no zero-sequence data."@]
        } else {
            Seq::empty()
        });
        if j < m.len() {
            assert(ws[j] == missing);
            if s.kind == "load"@ {
                assert(ws[j][0] == 'L');
            }
        } else if j < m.len() + r.len() {
            assert(ws[j] == no_rating);
        } else {
            assert(ws[j] == no_zero);
        }
    }
    if source_supplies(s) && s.rating.len() == 0 {
        let m = if n.bus_position(s.bus) is None { 1int } else { 0int };
        assert(ws[m] == no_rating);
    }
    if source_supplies(s) && !s.has_z0 && grounding_kind(s.kind) {
        assert(ws[ws.len() - 1] == no_zero);
    }
    if n.bus_position(s.bus) is None {
        assert(ws[0] == missing);
    }
    assert forall|w: Seq<char>| ws.contains(w) implies model_warning_list(n, keys).contains(w) by {
        lemma_source_warning_listed(n, keys, k, w);
    }
}

/// Some branch other than `id`, not a transformer, ends at `bus`.
pub open spec fn cabled_at(n: NetworkModel, bus: Seq<char>, id: Seq<char>) -> bool {
    exists|j: int|
        0 <= j < n.branches.len() && (#[trigger] n.branches[j]).id != id && n.branches[j].kind
            != "transformer"@ && (n.branches[j].from == bus || n.branches[j].to == bus)
}

/// The other warnings about a branch. A branch with a missing bus is reported as such and
/// for nothing else. Otherwise an in-service branch without zero-sequence data is
/// reported; a branch that is not a transformer and joins buses of different standard
/// voltages (by the keys `keys`) is reported; and a transformer is reported when one of
/// its buses is reached by no other branch that is not a transformer. A branch's own
/// warnings hold these reports exactly in those cases, and each of them is among the
/// warnings of the case.
pub proof fn lemma_branch_warnings_explained(n: NetworkModel, keys: Seq<Seq<char>>, k: int)
    requires
        0 <= k < n.branches.len(),
    ensures
        ({
            let b = n.branches[k];
            let name = display_name_of(b.id, b.name);
            let found = n.bus_position(b.from) is Some && n.bus_position(b.to) is Some;
            let in_service = b.enabled && !crate::text::seq_contains(b.state, "open"@) && b.state
                != "out_of_service"@;
            let ws = branch_warnings(n, keys, k);
            &&& ws.contains("Branch "@ + name + " references a missing bus."@) <==> !found
            &&& !found ==> ws.len() == 1
            &&& ws.contains("Branch "@ + name + " has no zero-sequence path."@) <==> found
                && in_service && !b.has_z0
            &&& ws.contains("Branch "@ + name + " connects buses with different voltage ratings."@)
                <==> found && b.kind != "transformer"@ && keys[n.bus_position(b.from)->0]
                != keys[n.bus_position(b.to)->0]
            &&& ws.contains(
                "Transformer "@ + name + " shall connect to other elements through cable branches."@,
            ) <==> found && b.kind == "transformer"@ && (!cabled_at(n, b.from, b.id) || !cabled_at(
                n,
                b.to,
                b.id,
            ))
            &&& forall|w: Seq<char>| ws.contains(w) ==> model_warning_list(n, keys).contains(w)
        }),
{
    let b = n.branches[k];
    let name = display_name_of(b.id, b.name);
    reveal_strlit("Branch ");
    reveal_strlit("Transformer ");
    reveal_strlit(" has no equipment rating for duty comparison.");
    reveal_strlit(" has no zero-sequence path.");
    reveal_strlit(" connects buses with different voltage ratings.");
    reveal_strlit(" references a missing bus.");
    reveal_strlit(" shall connect to other elements through cable branches.");
    let ws = branch_warnings(n, keys, k);
    let missing = "Branch "@ + name + " references a missing bus."@;
    let zero = "Branch "@ + name + " has no zero-sequence path."@;
    let volt = "Branch "@ + name + " connects buses with different voltage ratings."@;
    let cab = "Transformer "@ + name + " shall connect to other elements through cable branches."@;
    let rating = "Branch "@ + name + " has no equipment rating for duty comparison."@;
    assert(missing.len() == name.len() + 33);
    assert(zero.len() == name.len() + 34);
    assert(volt.len() == name.len() + 54);
    assert(cab.len() == name.len() + 68);
    assert(rating.len() == name.len() + 52);
    assert(cable_branch_at(n, b.from, b.id) == cabled_at(n, b.from, b.id));
    assert(cable_branch_at(n, b.to, b.id) == cabled_at(n, b.to, b.id));
    let found = n.bus_position(b.from) is Some && n.bus_position(b.to) is Some;
    if found {
        let r = if !branch_open(b) && b.rating_a.spec_le_zero() && rated_kind(b.kind) {
            seq![rating]
        } else {
            Seq::empty()
        };
        let z = if !branch_open(b) && !b.has_z0 {
            seq![zero]
        } else {
            Seq::empty()
        };
        let v = if !changes_voltage(b) && keys[n.bus_position(b.from)->0] != keys[n.bus_position(
            b.to,
        )->0] {
            seq![volt]
        } else {
            Seq::empty()
        };
        let c = if changes_voltage(b) && (!cable_branch_at(n, b.from, b.id) || !cable_branch_at(
            n,
            b.to,
            b.id,
        )) {
            seq![cab]
        } else {
            Seq::empty()
        };
        assert(ws =~= r + z + v + c);
        assert forall|j: int| 0 <= j < ws.len() implies ws[j] == rating || ws[j] == zero && z.len()
            == 1 || ws[j] == volt && v.len() == 1 || ws[j] == cab && c.len() == 1 by {
            if j < r.len() {
            } else if j < r.len() + z.len() {
                assert(ws[j] == z[j - r.len()]);
            } else if j < r.len() + z.len() + v.len() {
                assert(ws[j] == v[j - r.len() - z.len()]);
            } else {
                assert(ws[j] == c[j - r.len() - z.len() - v.len()]);
            }
        }
        if z.len() == 1 {
            assert(ws[r.len() as int] == zero);
        }
        if v.len() == 1 {
            assert(ws[(r.len() + z.len()) as int] == volt);
        }
        if c.len() == 1 {
            assert(ws[(r.len() + z.len() + v.len()) as int] == cab);
        }
    } else {
        assert(ws[0] == missing);
    }
    assert forall|w: Seq<char>| ws.contains(w) implies model_warning_list(n, keys).contains(w) by {
        lemma_branch_warning_listed(n, keys, k, n.branches.len(), w);
        let up = branch_warnings_upto(n, keys, n.branches.len());
        let j = choose|j: int| 0 <= j < up.len() && up[j] == w;
        assert(model_warning_list(n, keys)[supply_warning(n).len() + j] == w);
    }
}

/// Identifier connection through non-transformer branches is symmetric.
pub proof fn lemma_id_connected_symmetric(n: NetworkModel, a: Seq<char>, b: Seq<char>)
    requires
        id_connected(n, a, b),
    ensures
        id_connected(n, b, a),
{
    let p = choose|p: Seq<Seq<char>>| #[trigger] id_walk(n, p) && p[0] == a && p.last() == b;
    let q = p.reverse();
    assert forall|i: int| 0 <= i < q.len() - 1 implies id_linked(n, #[trigger] q[i], q[i + 1]) by {
        let j = p.len() - 2 - i;
        assert(q[i] == p[j + 1]);
        assert(q[i + 1] == p[j]);
        assert(id_linked(n, p[j], p[j + 1]));
        let k = choose|k: int|
            0 <= k < n.branches.len() && !changes_voltage(#[trigger] n.branches[k]) && ((
            n.branches[k].from == p[j] && n.branches[k].to == p[j + 1]) || (n.branches[k].from
                == p[j + 1] && n.branches[k].to == p[j]));
        assert(!changes_voltage(n.branches[k]));
    }
    assert(id_walk(n, q));
}

/// Identifier connection through non-transformer branches is transitive.
pub proof fn lemma_id_connected_transitive(n: NetworkModel, a: Seq<char>, b: Seq<char>, c: Seq<char>)
    requires
        id_connected(n, a, b),
        id_connected(n, b, c),
    ensures
        id_connected(n, a, c),
{
    let p = choose|p: Seq<Seq<char>>| #[trigger] id_walk(n, p) && p[0] == a && p.last() == b;
    let q = choose|q: Seq<Seq<char>>| #[trigger] id_walk(n, q) && q[0] == b && q.last() == c;
    let w = p + q.drop_first();
    assert forall|i: int| 0 <= i < w.len() - 1 implies id_linked(n, #[trigger] w[i], w[i + 1]) by {
        if i < p.len() - 1 {
            assert(w[i] == p[i] && w[i + 1] == p[i + 1]);
        } else if i == p.len() - 1 {
            assert(w[i] == b);
            assert(w[i + 1] == q[1]);
            assert(id_linked(n, q[0], q[1]));
        } else {
            let j = i - p.len() + 1;
            assert(w[i] == q[j] && w[i + 1] == q[j + 1]);
        }
    }
    if q.len() == 1 {
        assert(w =~= p);
    } else {
        assert(w.last() == q.last());
    }
    assert(id_walk(n, w));
}

/// Buses whose identifiers are joined through non-transformer branches take their voltage
/// from the same anchor bus, so a voltage group ends up with one voltage.
pub proof fn lemma_joined_buses_share_anchor(n: NetworkModel, p: int, q: int, a: int, b: int)
    requires
        0 <= p < n.buses.len(),
        0 <= q < n.buses.len(),
        is_group_anchor(n, p, a),
        is_group_anchor(n, q, b),
        id_connected(n, n.buses[p].id, n.buses[q].id),
    ensures
        a == b,
{
    let ip = n.buses[p].id;
    let iq = n.buses[q].id;
    lemma_id_connected_symmetric(n, ip, iq);
    lemma_id_connected_transitive(n, iq, ip, n.buses[a].id);
    lemma_id_connected_transitive(n, ip, iq, n.buses[b].id);
    if b < a {
        assert(!id_connected(n, ip, n.buses[b].id));
    }
    if a < b {
        assert(!id_connected(n, iq, n.buses[a].id));
    }
}

} // verus!
