use faultcalc_core::domain::{
    branch_connection, bus_label, bus_voltage, element_name, has_cable_branch_at,
    is_branch_open, is_source_open, is_voltage_changing_branch, voltage_display_for_key,
    voltage_group_anchors, voltage_spec_index,
};
use faultcalc_core::topology::{
    component_positions, has_ground_path, source_shunt_buses, OUTSIDE,
};
use faultcalc_core::{
    bus_display, bus_schedule_row, connected_component, domain_summary, model_warnings,
    source_schedule_row, voltage_specs, Branch, ConductorSet, Impedance, Network, Quantity,
    SeqTopology, Sequence, Source,
};

fn q(x: f64) -> Quantity {
    Quantity::from_bits(x.to_bits())
}

fn z(r: f64, x: f64) -> Impedance {
    Impedance { r: q(r), x: q(x) }
}

fn empty_conductors() -> ConductorSet {
    ConductorSet {
        phases: Vec::new(),
        neutral: Vec::new(),
        ground: Vec::new(),
        bond: Vec::new(),
        other: Vec::new(),
    }
}

fn branch(id: &str, kind: &str, from: &str, to: &str) -> Branch {
    Branch {
        id: id.to_string(),
        kind: kind.to_string(),
        name: String::new(),
        from: from.to_string(),
        to: to.to_string(),
        state: String::new(),
        conductors: empty_conductors(),
        primary_connection: String::new(),
        secondary_connection: String::new(),
        vector_shift_deg: q(0.0),
        z1_pu: z(0.0, 0.2),
        z2_pu: z(0.0, 0.2),
        z0_pu: z(0.0, 0.2),
        has_z0: true,
        enabled: true,
        rating_a: q(400.0),
        rating_kva: q(0.0),
        impedance_percent: q(0.0),
        xr_ratio: q(0.0),
        length_m: q(0.0),
        notes: String::new(),
    }
}

fn source(id: &str, kind: &str, bus: &str) -> Source {
    Source {
        id: id.to_string(),
        kind: kind.to_string(),
        name: String::new(),
        bus: bus.to_string(),
        kv_ll: q(0.48),
        state: String::new(),
        z1_pu: z(0.0, 0.1),
        z2_pu: z(0.0, 0.1),
        z0_pu: z(0.0, 0.1),
        has_z0: true,
        enabled: true,
        rating: "50 kA".to_string(),
        notes: String::new(),
    }
}

/// Buses A, B, C, D; A-B in service, B-C without zero-sequence data, C-D disabled.
fn chain() -> Network {
    let mut net = Network::new(q(100.0));
    for id in ["A", "B", "C", "D"] {
        net.add_bus(id, "", q(0.48), q(0.0), q(0.0)).unwrap();
    }
    net.branches.push(branch("ab", "cable", "A", "B"));
    let mut bc = branch("bc", "cable", "B", "C");
    bc.has_z0 = false;
    net.branches.push(bc);
    let mut cd = branch("cd", "cable", "C", "D");
    cd.enabled = false;
    net.branches.push(cd);
    let mut u = source("u", "utility", "A");
    u.has_z0 = false;
    net.sources.push(u);
    net
}

#[test]
fn positive_sequence_edges_skip_disabled_branches() {
    let net = chain();
    let topo = SeqTopology::build(&net, Sequence::Positive, &vec![true; 3]);
    assert_eq!(topo.bus_count, 4);
    let edges: Vec<(usize, usize, usize)> =
        topo.branches.iter().map(|e| (e.from, e.to, e.branch)).collect();
    assert_eq!(edges, vec![(0, 1, 0), (1, 2, 1)]);
    assert_eq!(topo.adjacency, vec![vec![0], vec![0, 1], vec![1], vec![]]);
    assert_eq!(connected_component(&topo, 0), vec![0, 1, 2]);
    assert_eq!(connected_component(&topo, 2), vec![0, 1, 2]);
    assert_eq!(connected_component(&topo, 3), vec![3]);
}

#[test]
fn zero_sequence_edges_need_zero_sequence_data() {
    let net = chain();
    let topo = SeqTopology::build(&net, Sequence::Zero, &vec![true; 3]);
    assert_eq!(topo.branches.len(), 1);
    assert_eq!(connected_component(&topo, 1), vec![0, 1]);
    assert_eq!(connected_component(&topo, 2), vec![2]);
}

#[test]
fn negligible_impedances_do_not_join_buses() {
    let net = chain();
    let topo = SeqTopology::build(&net, Sequence::Negative, &vec![false, true, true]);
    assert_eq!(topo.branches.len(), 1);
    assert_eq!(connected_component(&topo, 0), vec![0]);
    assert_eq!(connected_component(&topo, 1), vec![1, 2]);
}

#[test]
fn branches_to_missing_buses_are_left_out() {
    let mut net = chain();
    net.branches.push(branch("bx", "cable", "B", "X"));
    let topo = SeqTopology::build(&net, Sequence::Positive, &vec![true; 4]);
    assert_eq!(topo.branches.len(), 2);
}

#[test]
fn sources_are_shunts_where_their_sequence_applies() {
    let mut net = chain();
    net.sources.push(source("g", "generator", "C"));
    net.sources.push(source("x", "generator", "nowhere"));
    let mut off = source("off", "generator", "D");
    off.enabled = false;
    net.sources.push(off);
    let usable = vec![true; 4];
    assert_eq!(
        source_shunt_buses(&net, Sequence::Positive, &usable),
        vec![Some(0), Some(2), None, None]
    );
    assert_eq!(
        source_shunt_buses(&net, Sequence::Zero, &usable),
        vec![None, Some(2), None, None]
    );
    assert_eq!(
        source_shunt_buses(&net, Sequence::Positive, &vec![false, true, true, true]),
        vec![None, Some(2), None, None]
    );
}

#[test]
fn ground_path_needs_a_shunt_in_the_component() {
    let shunts = vec![true, false, false, false];
    assert!(has_ground_path(&vec![0, 1], &shunts));
    assert!(!has_ground_path(&vec![1, 2], &shunts));
    assert!(!has_ground_path(&Vec::new(), &shunts));
}

#[test]
fn component_positions_index_the_component() {
    assert_eq!(component_positions(&vec![0, 2], 4), vec![0, OUTSIDE, 1, OUTSIDE]);
    assert_eq!(component_positions(&Vec::new(), 2), vec![OUTSIDE, OUTSIDE]);
}

#[test]
fn voltage_table_lists_the_standard_voltages() {
    let specs = voltage_specs();
    assert_eq!(specs.len(), 12);
    let keys: Vec<&str> = specs.iter().map(|s| s.key.as_str()).collect();
    assert_eq!(
        keys,
        vec![
            "120", "120r3", "240", "160r3", "200r3", "480", "600", "2400", "2400r3", "7200r3",
            "8000r3", "14400r3"
        ]
    );
    assert_eq!(specs[3].display, "277 V");
    assert_eq!(specs[3].label, "160*sqrt(3) V (277 V)");
    assert_eq!(specs[9].base_volts, 7200);
    assert!(specs[9].sqrt3);
    assert!(!specs[5].sqrt3);
}

#[test]
fn voltage_lookup_falls_back_to_600_volts() {
    assert_eq!(voltage_spec_index("160r3"), 3);
    assert_eq!(voltage_spec_index("600"), 6);
    assert_eq!(voltage_spec_index("999"), 6);
    assert_eq!(voltage_display_for_key("7200r3").as_deref(), Some("12.5 kV"));
    assert_eq!(voltage_display_for_key("2400").as_deref(), Some("2.4 kV"));
    assert_eq!(voltage_display_for_key("nope"), None);
}

#[test]
fn element_states_and_kinds() {
    let mut b = branch("t1", "transformer", "A", "B");
    assert!(is_voltage_changing_branch(&b));
    assert!(!is_branch_open(&b));
    b.state = "normally_open".to_string();
    assert!(is_branch_open(&b));
    b.state = "out_of_service".to_string();
    assert!(is_branch_open(&b));
    b.state = "normally_closed".to_string();
    b.enabled = false;
    assert!(is_branch_open(&b));
    let mut s = source("u", "utility", "A");
    assert!(!is_source_open(&s));
    s.state = "open".to_string();
    assert!(is_source_open(&s));
}

#[test]
fn bus_lookups_fall_back_when_missing() {
    let mut net = chain();
    net.buses[1].name = "Main".to_string();
    assert_eq!(bus_voltage(&net, "A").bits, q(0.48).bits);
    assert_eq!(bus_voltage(&net, "Z").bits, q(0.6).bits);
    assert_eq!(bus_label(&net, "B"), "Main");
    assert_eq!(bus_label(&net, "A"), "A");
    assert_eq!(bus_label(&net, "Z"), "Z");
    assert_eq!(element_name(&"id".to_string(), &String::new()), "id");
    assert_eq!(element_name(&"id".to_string(), &"Name".to_string()), "Name");
}

#[test]
fn connection_text_shows_transformer_voltages() {
    let mut net = chain();
    net.branches.push(branch("t1", "transformer", "A", "Z"));
    assert_eq!(branch_connection(&net, 0, "480 V", "480 V"), "A to B");
    assert_eq!(branch_connection(&net, 3, "480 V", "208 V"), "A (480 V) to Z (208 V)");
}

#[test]
fn cable_branch_check_ignores_the_transformer_itself() {
    let mut net = chain();
    net.branches.push(branch("t1", "transformer", "A", "D"));
    net.branches.push(branch("t2", "transformer", "D", "B"));
    assert!(has_cable_branch_at(&net, "A", "t1"));
    assert!(has_cable_branch_at(&net, "D", "t1"));
    assert!(!has_cable_branch_at(&net, "D", "cd"));
    assert!(!has_cable_branch_at(&net, "Z", "t1"));
}

fn keys(v: &[&str]) -> Vec<String> {
    v.iter().map(|s| s.to_string()).collect()
}

#[test]
fn model_warnings_list_supply_then_branches_then_sources() {
    let mut net = Network::new(q(100.0));
    for id in ["A", "B", "C", "D"] {
        net.add_bus(id, "", q(0.48), q(0.0), q(0.0)).unwrap();
    }
    let mut cb = branch("cb1", "breaker", "A", "B");
    cb.rating_a = q(0.0);
    net.branches.push(cb);
    let mut f1 = branch("f1", "cable", "A", "C");
    f1.has_z0 = false;
    f1.name = "Feeder 1".to_string();
    net.branches.push(f1);
    net.branches.push(branch("t2", "transformer", "A", "D"));
    net.branches.push(branch("bad", "cable", "A", "Q"));
    let mut u = source("u", "utility", "A");
    u.rating = String::new();
    u.has_z0 = false;
    u.enabled = false;
    net.sources.push(u);
    net.sources.push(source("l1", "load", "Z"));
    let w = model_warnings(&net, &keys(&["480", "480", "120r3", "480"]));
    assert_eq!(
        w,
        vec![
            "No enabled source equivalent is defined.",
            "Branch cb1 has no equipment rating for duty comparison.",
            "Branch Feeder 1 has no zero-sequence path.",
            "Branch Feeder 1 connects buses with different voltage ratings.",
            "Transformer t2 shall connect to other elements through cable branches.",
            "Branch bad references a missing bus.",
            "Load l1 references a missing bus.",
        ]
    );
    net.sources[0].enabled = true;
    let w = model_warnings(&net, &keys(&["480", "480", "120r3", "480"]));
    assert_eq!(w[0], "Branch cb1 has no equipment rating for duty comparison.");
    assert_eq!(
        &w[w.len() - 3..],
        &[
            "Source u has no rating metadata.".to_string(),
            "Source u has no zero-sequence data.".to_string(),
            "Load l1 references a missing bus.".to_string(),
        ]
    );
}

#[test]
fn summary_counts_closed_branches_and_supplying_sources() {
    let mut net = chain();
    net.sources.push(source("l", "load", "B"));
    let mut off = source("g", "generator", "C");
    off.state = "out_of_service".to_string();
    net.sources.push(off);
    let s = domain_summary(&net, 5);
    assert_eq!(s.closed_branch_count, 2);
    assert_eq!(s.enabled_source_count, 1);
    assert_eq!(s.warning_count, 5);
}

#[test]
fn display_and_schedule_rows() {
    let mut net = chain();
    net.buses[0].name = "Service".to_string();
    net.sources[0].name = "Utility".to_string();
    let d = bus_display(&net, 0, "480".to_string(), "480 V".to_string());
    assert_eq!(d.id, "A");
    assert_eq!(d.name, "Service");
    assert_eq!(d.voltage_key, "480");
    assert_eq!(d.voltage_label, "480 V");
    let r = bus_schedule_row(&net, 1, "480 V".to_string());
    assert_eq!(r.item_type, "Bus");
    assert_eq!(r.name, "B");
    assert_eq!(r.connection, "480 V");
    assert_eq!(r.rating, "");
    let r = source_schedule_row(&net, 0);
    assert_eq!(r.item_type, "utility");
    assert_eq!(r.name, "Utility");
    assert_eq!(r.connection, "Service");
    assert_eq!(r.rating, "50 kA");
}

#[test]
fn voltage_groups_follow_non_transformer_branches() {
    let mut net = chain();
    net.branches.push(branch("t1", "transformer", "C", "D"));
    net.buses.push(net.buses[1].clone());
    // A-B-C are joined by cables; D only through a disabled cable, which still counts,
    // and a transformer, which does not; the repeated B keeps its own voltage.
    assert_eq!(
        voltage_group_anchors(&net),
        vec![Some(0), Some(0), Some(0), Some(0), None]
    );
    net.branches.remove(2);
    assert_eq!(voltage_group_anchors(&net), vec![Some(0), Some(0), Some(0), Some(3), None]);
}

#[test]
fn schedule_lists_buses_then_branches_then_sources() {
    let mut net = chain();
    net.buses[0].name = "Service".to_string();
    let labels: Vec<String> = ["480 V", "480 V", "208 V", "208 V"].iter().map(|s| s.to_string()).collect();
    let branch_row = faultcalc_core::ScheduleRow {
        item_type: "cable".to_string(),
        name: "ab".to_string(),
        connection: "Service to B".to_string(),
        rating: "400 A".to_string(),
    };
    let rows = faultcalc_core::domain::equipment_schedule(&net, &labels, vec![branch_row]);
    let texts: Vec<(String, String, String, String)> = rows
        .into_iter()
        .map(|r| (r.item_type, r.name, r.connection, r.rating))
        .collect();
    let t = |a: &str, b: &str, c: &str, d: &str| (a.to_string(), b.to_string(), c.to_string(), d.to_string());
    assert_eq!(
        texts,
        vec![
            t("Bus", "Service", "480 V", ""),
            t("Bus", "B", "480 V", ""),
            t("Bus", "C", "208 V", ""),
            t("Bus", "D", "208 V", ""),
            t("cable", "ab", "Service to B", "400 A"),
            t("utility", "u", "Service", "50 kA"),
        ]
    );
}
