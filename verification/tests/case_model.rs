use faultcalc_core::model::{MagnitudeChecks, Network};
use faultcalc_core::quantity::DEFAULT_UTILITY_KV_LL_BITS;
use faultcalc_core::{Branch, ConductorSet, Impedance, Quantity, Source};

fn q(x: f64) -> Quantity {
    Quantity::from_bits(x.to_bits())
}

fn value(x: Quantity) -> f64 {
    f64::from_bits(x.bits)
}

fn z(r: f64, x: f64) -> Impedance {
    Impedance { r: q(r), x: q(x) }
}

fn empty_conductors() -> ConductorSet {
    ConductorSet {
        phases: Vec::new(),
        neutral: Vec::new(),
        ground: Vec::new(),
        bond: Vec::new(),
        other: Vec::new(),
    }
}

fn branch(id: &str, kind: &str, from: &str, to: &str, state: &str, enabled: bool) -> Branch {
    Branch {
        id: id.to_string(),
        kind: kind.to_string(),
        name: String::new(),
        from: from.to_string(),
        to: to.to_string(),
        state: state.to_string(),
        conductors: empty_conductors(),
        primary_connection: String::new(),
        secondary_connection: String::new(),
        vector_shift_deg: q(0.0),
        z1_pu: z(0.0, 0.2),
        z2_pu: z(0.0, 0.2),
        z0_pu: z(0.0, 0.2),
        has_z0: true,
        enabled,
        rating_a: q(0.0),
        rating_kva: q(0.0),
        impedance_percent: q(0.0),
        xr_ratio: q(0.0),
        length_m: q(0.0),
        notes: String::new(),
    }
}

fn source(id: &str, bus: &str, kv: f64, state: &str, enabled: bool) -> Source {
    Source {
        id: id.to_string(),
        kind: "utility".to_string(),
        name: "Utility".to_string(),
        bus: bus.to_string(),
        kv_ll: q(kv),
        state: state.to_string(),
        z1_pu: z(0.0, 0.1),
        z2_pu: z(0.0, 0.1),
        z0_pu: z(0.0, 0.1),
        has_z0: true,
        enabled,
        rating: String::new(),
        notes: String::new(),
    }
}

fn two_bus_network() -> Network {
    let mut net = Network::new(q(100.0));
    net.add_bus("source", "Source", q(10.0), q(0.0), q(0.0)).unwrap();
    net.add_bus("load", "Load", q(10.0), q(100.0), q(0.0)).unwrap();
    net
}

fn checks_for(net: &Network) -> MagnitudeChecks {
    MagnitudeChecks {
        branch_negligible_z: vec![false; net.branches.len()],
        source_negligible_z: vec![false; net.sources.len()],
        source_kv_mismatch: vec![false; net.sources.len()],
    }
}

#[test]
fn quantity_sign_classes_follow_ieee_comparisons() {
    for x in [0.0f64, -0.0, 1.0, -1.0, f64::NAN, f64::INFINITY, f64::NEG_INFINITY, 1e-300] {
        let v = q(x);
        assert_eq!(v.is_zero(), x == 0.0, "{x}");
        assert_eq!(v.le_zero(), x <= 0.0, "{x}");
        assert_eq!(v.gt_zero(), x > 0.0, "{x}");
    }
}

#[test]
fn new_network_has_study_defaults() {
    let net = Network::new(q(100.0));
    assert_eq!(net.project.name, "Untitled short-circuit study");
    assert_eq!(net.project.revision, "A");
    assert_eq!(value(net.frequency_hz), 60.0);
    assert_eq!(value(net.prefault_voltage_pu), 1.0);
    assert_eq!(value(net.options.duty_cycles), 0.5);
    assert!(net.buses.is_empty() && net.branches.is_empty() && net.sources.is_empty());
}

#[test]
fn add_bus_rejects_blank_non_positive_and_duplicate_ids() {
    let mut net = two_bus_network();
    assert_eq!(
        net.add_bus("  ", "Blank", q(1.0), q(0.0), q(0.0)).unwrap_err().message,
        "bus id cannot be blank"
    );
    assert_eq!(
        net.add_bus("b3", "Dead", q(0.0), q(0.0), q(0.0)).unwrap_err().message,
        "bus b3 has non-positive kV"
    );
    assert_eq!(
        net.add_bus("load", "Again", q(0.6), q(0.0), q(0.0)).unwrap_err().message,
        "duplicate bus id load"
    );
    assert_eq!(net.buses.len(), 2);
    net.add_bus("b3", "Third", q(0.6), q(1.0), q(2.0)).unwrap();
    assert_eq!(net.bus_index("b3"), Some(2));
    assert_eq!(net.bus_index("load"), Some(1));
    assert_eq!(net.bus_index("missing"), None);
    assert_eq!(net.bus_name("b3"), "Third");
    assert_eq!(net.bus_name("missing"), "missing");
}

#[test]
fn bus_display_name_falls_back_to_id() {
    let mut net = Network::new(q(100.0));
    net.add_bus("b1", "", q(0.6), q(0.0), q(0.0)).unwrap();
    assert_eq!(net.buses[0].display_name(), "b1");
    assert_eq!(net.bus_name("b1"), "b1");
}

#[test]
fn add_branch_rejections_come_in_order() {
    let mut net = two_bus_network();
    let errs = [
        (branch(" ", "feeder", "source", "load", "", true), "branch id cannot be blank"),
        (branch("f1", "feeder", "nowhere", "load", "", true), "branch f1 references missing from bus nowhere"),
        (branch("f1", "feeder", "source", "nowhere", "", true), "branch f1 references missing to bus nowhere"),
        (branch("f1", "feeder", "load", "load", "", true), "branch f1 connects a bus to itself"),
    ];
    for (b, msg) in errs {
        assert_eq!(net.add_branch(b).unwrap_err().message, msg);
    }
    net.add_branch(branch("f1", "feeder", "source", "load", "", true)).unwrap();
    assert_eq!(
        net.add_branch(branch("f1", "feeder", "source", "load", "", true)).unwrap_err().message,
        "duplicate branch id f1"
    );
    assert_eq!(net.branch_index("f1"), Some(0));
}

#[test]
fn add_branch_fills_transformer_and_conductor_defaults() {
    let mut net = two_bus_network();
    net.add_branch(branch("tx", "transformer", "source", "load", "normally_closed", true)).unwrap();
    net.add_branch(branch("f", "", "source", "load", "", true)).unwrap();
    let tx = &net.branches[0];
    assert_eq!(tx.primary_connection, "delta");
    assert_eq!(tx.secondary_connection, "grounded_wye");
    assert_eq!(value(tx.vector_shift_deg), -30.0);
    assert_eq!(tx.conductors.phases, vec!["A", "B", "C"]);
    assert_eq!(tx.conductors.neutral, vec!["X0/N"]);
    assert_eq!(tx.conductors.ground, vec!["EGC"]);
    assert_eq!(tx.conductors.bond, vec!["BOND"]);
    let feeder = &net.branches[1];
    assert_eq!(feeder.kind, "impedance");
    assert_eq!(feeder.conductors.neutral, vec!["N"]);
    assert!(!feeder.conductors.is_empty());
    assert!(empty_conductors().is_empty());
}

#[test]
fn transformer_vector_shift_follows_connections() {
    let mut b = branch("tx", "transformer", "a", "b", "", true);
    b.primary_connection = "wye".to_string();
    b.secondary_connection = "delta".to_string();
    b.normalise_metadata_defaults();
    assert_eq!(value(b.vector_shift_deg), 30.0);
    assert!(b.conductors.neutral.is_empty());
    let mut c = branch("tx2", "transformer", "a", "b", "", true);
    c.primary_connection = "delta".to_string();
    c.secondary_connection = "delta".to_string();
    c.normalise_metadata_defaults();
    assert_eq!(value(c.vector_shift_deg), 0.0);
}

#[test]
fn add_source_takes_bus_voltage_and_default_kind() {
    let mut net = two_bus_network();
    let mut s = source("s1", "source", 0.0, "in_service", true);
    s.kind = String::new();
    net.add_source(s).unwrap();
    assert_eq!(net.sources[0].kind, "source");
    assert_eq!(value(net.sources[0].kv_ll), 10.0);
    assert_eq!(net.source_index("s1"), Some(0));
    assert_eq!(
        net.add_source(source("s1", "source", 10.0, "", true)).unwrap_err().message,
        "duplicate source id s1"
    );
    assert_eq!(
        net.add_source(source("s2", "nowhere", 10.0, "", true)).unwrap_err().message,
        "source s2 references missing bus nowhere"
    );
    assert_eq!(
        net.add_source(source("", "source", 10.0, "", true)).unwrap_err().message,
        "source id cannot be blank"
    );
}

#[test]
fn normalise_defaults_reconciles_states_and_fills_values() {
    let mut net = two_bus_network();
    net.frequency_hz = q(0.0);
    net.prefault_voltage_pu = q(0.0);
    net.options.duty_cycles = q(0.0);
    net.branches.push(branch("a", "", "source", "load", "", true));
    net.branches.push(branch("b", "feeder", "source", "load", "", false));
    net.branches.push(branch("c", "feeder", "source", "load", "normally_open", true));
    net.branches.push(branch("d", "feeder", "source", "load", "out_of_service", true));
    net.branches.push(branch("e", "feeder", "source", "load", "closed", false));
    net.sources.push(source("s", "load", -1.0, "", false));
    let mut orphan = source("t", "elsewhere", 0.0, "", true);
    orphan.kind = "load".to_string();
    net.sources.push(orphan);
    net.normalise_defaults();
    assert_eq!(value(net.frequency_hz), 60.0);
    assert_eq!(value(net.prefault_voltage_pu), 1.0);
    assert_eq!(value(net.options.duty_cycles), 0.5);
    let states: Vec<(&str, bool)> =
        net.branches.iter().map(|b| (b.state.as_str(), b.enabled)).collect();
    assert_eq!(
        states,
        vec![
            ("normally_closed", true),
            ("normally_open", false),
            ("normally_open", false),
            ("out_of_service", false),
            ("closed", true)
        ]
    );
    assert_eq!(net.branches[0].kind, "impedance");
    assert_eq!(net.sources[0].state, "out_of_service");
    assert!(!net.sources[0].enabled);
    assert_eq!(value(net.sources[0].kv_ll), 10.0);
    assert_eq!(net.sources[1].kv_ll.bits, 0.6f64.to_bits());
    assert_eq!(net.sources[1].state, "in_service");
}

#[test]
fn normalising_twice_changes_nothing_more() {
    let mut net = two_bus_network();
    net.frequency_hz = q(0.0);
    net.branches.push(branch("tx", "transformer", "source", "load", "", true));
    let mut s = source("s", "nowhere", 0.0, "", true);
    s.kind = String::new();
    net.sources.push(s);
    net.normalise_defaults();
    let once: Vec<(String, String, bool, u64)> = net
        .branches
        .iter()
        .map(|b| (b.kind.clone(), b.state.clone(), b.enabled, b.vector_shift_deg.bits))
        .collect();
    let once_source = (net.sources[0].kv_ll.bits, net.sources[0].state.clone(), net.sources[0].kind.clone());
    assert_eq!(once_source.0, DEFAULT_UTILITY_KV_LL_BITS);
    net.normalise_defaults();
    let twice: Vec<(String, String, bool, u64)> = net
        .branches
        .iter()
        .map(|b| (b.kind.clone(), b.state.clone(), b.enabled, b.vector_shift_deg.bits))
        .collect();
    assert_eq!(once, twice);
    assert_eq!(
        once_source,
        (net.sources[0].kv_ll.bits, net.sources[0].state.clone(), net.sources[0].kind.clone())
    );
}

#[test]
fn validate_reports_the_first_failure() {
    let mut net = two_bus_network();
    net.add_source(source("src", "source", 10.0, "in_service", true)).unwrap();
    net.add_branch(branch("f", "feeder", "source", "load", "normally_closed", true)).unwrap();
    assert!(net.validate(&checks_for(&net)).is_ok());

    let mut bad = two_bus_network();
    bad.base_mva = q(0.0);
    assert_eq!(bad.validate(&checks_for(&bad)).unwrap_err().message, "base_mva must be positive");

    let empty = Network::new(q(100.0));
    assert_eq!(empty.validate(&checks_for(&empty)).unwrap_err().message, "network has no buses");

    let no_source = two_bus_network();
    assert_eq!(
        no_source.validate(&checks_for(&no_source)).unwrap_err().message,
        "network has no enabled sources"
    );

    let mut dup = two_bus_network();
    dup.buses.push(faultcalc_core::Bus {
        id: "load".to_string(),
        name: String::new(),
        kv_ll: q(10.0),
        x: q(0.0),
        y: q(0.0),
        notes: String::new(),
    });
    dup.add_source(source("src", "source", 10.0, "in_service", true)).unwrap();
    assert_eq!(dup.validate(&checks_for(&dup)).unwrap_err().message, "duplicate bus id load");

    let mut z = two_bus_network();
    z.add_source(source("src", "source", 10.0, "in_service", true)).unwrap();
    z.add_branch(branch("f", "feeder", "source", "load", "normally_closed", true)).unwrap();
    let mut c = checks_for(&z);
    c.branch_negligible_z[0] = true;
    assert_eq!(
        z.validate(&c).unwrap_err().message,
        "branch f has near-zero positive or negative sequence impedance"
    );
    let mut c = checks_for(&z);
    c.source_kv_mismatch[0] = true;
    assert_eq!(
        z.validate(&c).unwrap_err().message,
        "source src voltage rating does not match bus source"
    );
    z.branches[0].enabled = false;
    z.branches[0].to = "gone".to_string();
    assert!(z.validate(&checks_for(&z)).is_ok());
    z.branches[0].enabled = true;
    assert_eq!(
        z.validate(&checks_for(&z)).unwrap_err().message,
        "branch f references a missing bus"
    );
}

#[test]
fn disabled_equipment_does_not_change_validation() {
    let mut net = two_bus_network();
    net.add_source(source("src", "source", 10.0, "in_service", true)).unwrap();
    net.add_branch(branch("f", "feeder", "source", "load", "normally_closed", true)).unwrap();
    let mut with_disabled = net.clone();
    let mut loop_branch = branch("self", "feeder", "load", "load", "normally_open", false);
    loop_branch.to = "load".to_string();
    with_disabled.branches.insert(0, loop_branch);
    with_disabled.branches.push(branch("x", "feeder", "nowhere", "load", "open", false));
    with_disabled.sources.push(source("off", "nowhere", 0.0, "out_of_service", false));
    let mut checks = checks_for(&with_disabled);
    checks.branch_negligible_z[0] = true;
    checks.source_negligible_z[1] = true;
    checks.source_kv_mismatch[1] = true;
    assert!(net.validate(&checks_for(&net)).is_ok());
    assert!(with_disabled.validate(&checks).is_ok());

    let mut broken = net.clone();
    broken.sources[0].kv_ll = q(-1.0);
    let mut broken_with_disabled = with_disabled.clone();
    broken_with_disabled.sources[0].kv_ll = q(-1.0);
    assert_eq!(
        broken.validate(&checks_for(&broken)).unwrap_err().message,
        broken_with_disabled.validate(&checks).unwrap_err().message
    );
}
