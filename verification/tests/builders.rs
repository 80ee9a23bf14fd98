use faultcalc_core::quantity::DEFAULT_UTILITY_KV_LL_BITS;
use faultcalc_core::{
    sample_network, FaultCalcError, Impedance, Network, Quantity, TransformerNameplate,
    UtilityEquivalent,
};

fn q(x: f64) -> Quantity {
    Quantity::from_bits(x.to_bits())
}

fn value(x: Quantity) -> f64 {
    f64::from_bits(x.bits)
}

fn assert_close(actual: f64, expected: f64, tol: f64) {
    assert!(
        (actual - expected).abs() <= tol,
        "actual {actual} expected {expected} tol {tol}"
    );
}

/// The impedance of magnitude `magnitude` with reactance over resistance `xr`.
fn z_from_magnitude_xr(magnitude: f64, xr: f64) -> (f64, f64) {
    if magnitude == 0.0 {
        return (0.0, 0.0);
    }
    if xr.is_infinite() {
        return (0.0, magnitude);
    }
    let r = magnitude / (1.0 + xr * xr).sqrt();
    (r, xr * r)
}

fn imp(z: (f64, f64)) -> Impedance {
    Impedance { r: q(z.0), x: q(z.1) }
}

/// The arithmetic of a utility equivalent from its short-circuit data, as a caller of
/// the library does it.
fn add_utility(
    net: &mut Network,
    id: &str,
    name: &str,
    bus: &str,
    mva: f64,
    xr: f64,
    z0_multiplier: f64,
) -> Result<(), FaultCalcError> {
    let xr = if xr <= 0.0 { 10.0 } else { xr };
    let z1 = z_from_magnitude_xr(value(net.base_mva) / mva, xr);
    let z0 = if z0_multiplier <= 0.0 { z1 } else { (z1.0 * z0_multiplier, z1.1 * z0_multiplier) };
    let equivalent = UtilityEquivalent {
        z1_pu: imp(z1),
        z0_pu: imp(z0),
        rating: format!("{mva:.0} MVA, X/R {xr:.1}"),
    };
    net.add_utility_source(id, name, bus, q(mva), equivalent)
}

/// The arithmetic of a transformer from its nameplate, as a caller of the library does it.
#[allow(clippy::too_many_arguments)]
fn add_nameplate_transformer(
    net: &mut Network,
    id: &str,
    name: &str,
    from: &str,
    to: &str,
    kva: f64,
    kv_ll: f64,
    percent: f64,
    xr: f64,
    z0_percent: f64,
    grounded: bool,
) -> Result<(), FaultCalcError> {
    let xr = if xr <= 0.0 { 7.0 } else { xr };
    let own_mva = kva / 1000.0;
    let base = value(net.base_mva);
    let z1 = z_from_magnitude_xr((percent / 100.0) * (base / own_mva), xr);
    let z0 = if grounded && z0_percent > 0.0 {
        z_from_magnitude_xr((z0_percent / 100.0) * (base / own_mva), xr)
    } else {
        z1
    };
    let nameplate = TransformerNameplate {
        z1_pu: imp(z1),
        z0_pu: imp(z0),
        xr_ratio: q(xr),
        rating_a: q(kva * 1000.0 / (3.0_f64.sqrt() * kv_ll * 1000.0)),
        notes: format!("{kva:.0} kVA, {percent:.2}%Z"),
    };
    net.add_transformer(id, name, from, to, q(kva), q(percent), grounded, nameplate)
}

#[test]
fn utility_source_builder_converts_short_circuit_mva_and_xr() {
    let mut net = Network::new(q(100.0));
    net.add_bus("util", "Utility", q(12.47), q(0.0), q(0.0)).unwrap();
    add_utility(&mut net, "u1", "Utility", "util", 500.0, 10.0, 1.5).unwrap();

    let source = &net.sources[0];
    assert_eq!(source.kind, "utility");
    assert!(source.enabled);
    assert!(source.has_z0);
    assert_close(value(source.z1_pu.r), 0.019900743804199785, 1e-15);
    assert_close(value(source.z1_pu.x), 0.19900743804199786, 1e-15);
    assert_close(value(source.z0_pu.r), 0.029851115706299677, 1e-15);
    assert_close(value(source.z0_pu.x), 0.2985111570629968, 1e-15);
}

#[test]
fn transformer_builder_converts_percent_impedance_to_system_base() {
    let mut net = Network::new(q(100.0));
    net.add_bus("pri", "Primary", q(12.47), q(0.0), q(0.0)).unwrap();
    net.add_bus("sec", "Secondary", q(0.6), q(0.0), q(0.0)).unwrap();
    add_nameplate_transformer(
        &mut net,
        "tx",
        "Transformer",
        "pri",
        "sec",
        2500.0,
        0.6,
        5.75,
        7.0,
        5.75,
        true,
    )
    .unwrap();

    let branch = &net.branches[0];
    assert_eq!(branch.kind, "transformer");
    assert!(branch.has_z0);
    assert_eq!(branch.primary_connection, "delta");
    assert_eq!(branch.secondary_connection, "grounded_wye");
    assert_close(value(branch.vector_shift_deg), -30.0, 1e-12);
    assert_eq!(
        branch.conductors.phases,
        vec!["A".to_string(), "B".to_string(), "C".to_string()]
    );
    assert_eq!(branch.conductors.neutral, vec!["X0/N".to_string()]);
    assert_close(value(branch.z1_pu.r), 0.3252691193458119, 1e-15);
    assert_close(value(branch.z1_pu.x), 2.276883835420683, 1e-15);
    assert_close(value(branch.rating_a), 2405.626121623441, 1e-12);
}

#[test]
fn utility_source_takes_bus_voltage_state_and_rating_text() {
    let mut net = Network::new(q(100.0));
    net.add_bus("util", "Utility", q(13.8), q(0.0), q(0.0)).unwrap();
    add_utility(&mut net, "u1", "", "util", 250.0, 0.0, 0.0).unwrap();
    let s = &net.sources[0];
    assert_eq!(s.kv_ll.bits, q(13.8).bits);
    assert_eq!(s.state, "in_service");
    assert_eq!(s.rating, "250 MVA, X/R 10.0");
    assert_eq!(s.z2_pu.r.bits, s.z1_pu.r.bits);
    assert_eq!(s.z0_pu.x.bits, s.z1_pu.x.bits);
    assert_eq!(s.notes, "");
}

#[test]
fn utility_source_refusals() {
    let mut net = Network::new(q(100.0));
    net.add_bus("util", "Utility", q(13.8), q(0.0), q(0.0)).unwrap();
    let e = add_utility(&mut net, "u1", "U", "util", 0.0, 10.0, 1.0).unwrap_err();
    assert_eq!(e.message, "utility source u1 short-circuit MVA must be positive");
    let e = add_utility(&mut net, "u1", "U", "util", -5.0, 10.0, 1.0).unwrap_err();
    assert_eq!(e.message, "utility source u1 short-circuit MVA must be positive");
    let e = add_utility(&mut net, "u2", "U", "elsewhere", 100.0, 10.0, 1.0).unwrap_err();
    assert_eq!(e.message, "source u2 references missing bus elsewhere");
    assert!(net.sources.is_empty());
    add_utility(&mut net, "u1", "U", "util", 100.0, 10.0, 1.0).unwrap();
    let e = add_utility(&mut net, "u1", "U", "util", 100.0, 10.0, 1.0).unwrap_err();
    assert_eq!(e.message, "duplicate source id u1");
    assert_eq!(net.sources.len(), 1);
}

#[test]
fn transformer_refusals_come_in_order() {
    let mut net = Network::new(q(100.0));
    net.add_bus("pri", "Primary", q(12.47), q(0.0), q(0.0)).unwrap();
    net.add_bus("sec", "Secondary", q(0.6), q(0.0), q(0.0)).unwrap();
    let e = add_nameplate_transformer(&mut net, "tx", "", "pri", "sec", 0.0, 0.6, 0.0, 7.0, 0.0, true)
        .unwrap_err();
    assert_eq!(e.message, "transformer tx kVA must be positive");
    let e = add_nameplate_transformer(&mut net, "tx", "", "pri", "sec", 500.0, 0.6, 0.0, 7.0, 0.0, true)
        .unwrap_err();
    assert_eq!(e.message, "transformer tx impedance percent must be positive");
    let e = add_nameplate_transformer(&mut net, "tx", "", "pri", "nowhere", 500.0, 0.6, 5.0, 7.0, 0.0, true)
        .unwrap_err();
    assert_eq!(e.message, "branch tx references missing to bus nowhere");
    assert!(net.branches.is_empty());
}

#[test]
fn ungrounded_transformer_has_no_zero_sequence_path() {
    let mut net = Network::new(q(100.0));
    net.add_bus("pri", "Primary", q(12.47), q(0.0), q(0.0)).unwrap();
    net.add_bus("sec", "Secondary", q(0.6), q(0.0), q(0.0)).unwrap();
    add_nameplate_transformer(&mut net, "tx", "", "pri", "sec", 1000.0, 0.6, 5.0, 0.0, 4.0, false)
        .unwrap();
    let b = &net.branches[0];
    assert!(!b.has_z0);
    assert_eq!(b.state, "normally_closed");
    assert!(b.enabled);
    assert_eq!(b.z0_pu.r.bits, b.z1_pu.r.bits);
    assert_eq!(value(b.xr_ratio), 7.0);
    assert_eq!(value(b.rating_kva), 1000.0);
    assert_eq!(b.notes, "1000 kVA, 5.00%Z");
}

#[test]
fn sample_network_is_one_utility_bus_with_an_infinite_source() {
    let net = sample_network();
    assert_eq!(net.project.name, "AES simple SLD study");
    assert_eq!(net.project.number, "SEED-001");
    assert_eq!(value(net.base_mva), 100.0);
    assert_eq!(net.buses.len(), 1);
    assert_eq!(net.buses[0].id, "util_bus");
    assert_eq!(net.buses[0].kv_ll.bits, DEFAULT_UTILITY_KV_LL_BITS);
    assert_eq!(value(net.buses[0].x), 360.0);
    assert_eq!(value(net.buses[0].y), 320.0);
    assert!(net.branches.is_empty());
    assert_eq!(net.sources.len(), 1);
    let s = &net.sources[0];
    assert_eq!(s.id, "src_inf");
    assert_eq!(s.bus, "util_bus");
    assert_eq!(s.rating, "infinite utility");
    assert_eq!(value(s.z1_pu.r), 0.000001);
    assert_eq!(value(s.z0_pu.x), 0.0001);
    assert_eq!(net.notes, vec!["Starter case for a simple single-line diagram.".to_string()]);
}

#[test]
fn sample_network_is_valid_and_already_normalised() {
    let net = sample_network();
    let checks = faultcalc_core::MagnitudeChecks {
        branch_negligible_z: Vec::new(),
        source_negligible_z: vec![false],
        source_kv_mismatch: vec![false],
    };
    assert!(net.validate(&checks).is_ok());
    let mut again = net.clone();
    again.normalise_defaults();
    assert_eq!(format!("{again:?}"), format!("{net:?}"));
}
