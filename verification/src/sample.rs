use vstd::prelude::*;

use crate::model::{
    BusModel, Impedance, Network, NetworkModel, ProjectInfo, ProjectModel, Source, SourceModel,
};
use crate::quantity::{
    Quantity, DEFAULT_DUTY_CYCLES_BITS, DEFAULT_FREQUENCY_BITS, DEFAULT_PREFAULT_BITS,
    DEFAULT_UTILITY_KV_LL_BITS,
};

verus! {

/// Encoding of the starter case's system base, 100 MVA.
pub const SAMPLE_BASE_MVA_BITS: u64 = 0x4059_0000_0000_0000;

/// Encoding of the drawing position of the starter bus, x = 360.
pub const SAMPLE_BUS_X_BITS: u64 = 0x4076_8000_0000_0000;

/// Encoding of the drawing position of the starter bus, y = 320.
pub const SAMPLE_BUS_Y_BITS: u64 = 0x4074_0000_0000_0000;

/// Encoding of the starter source's sequence resistance, 1e-6 per unit.
pub const SAMPLE_SOURCE_R_BITS: u64 = 0x3eb0_c6f7_a0b5_ed8d;

/// Encoding of the starter source's sequence reactance, 1e-4 per unit.
pub const SAMPLE_SOURCE_X_BITS: u64 = 0x3f1a_36e2_eb1c_432d;

/// The sequence impedance of the starter source, the same in every sequence.
pub open spec fn sample_source_z() -> Impedance {
    Impedance { r: Quantity { bits: SAMPLE_SOURCE_R_BITS }, x: Quantity { bits: SAMPLE_SOURCE_X_BITS } }
}

/// The starter case: one utility bus with an infinite utility source on it.
pub open spec fn sample_model() -> NetworkModel {
    NetworkModel {
        project: ProjectModel {
            name: "AES simple SLD study"@,
            number: "SEED-001"@,
            engineer: "Victor Lü"@,
            revision: "A"@,
            description: "Single infinite utility starter model for the browser SLD workstation."@,
        },
        base_mva: Quantity { bits: SAMPLE_BASE_MVA_BITS },
        frequency_hz: Quantity { bits: DEFAULT_FREQUENCY_BITS },
        prefault_voltage_pu: Quantity { bits: DEFAULT_PREFAULT_BITS },
        options: crate::model::CalculationOptions {
            fault_r_ohm: Quantity { bits: 0 },
            fault_x_ohm: Quantity { bits: 0 },
            duty_cycles: Quantity { bits: DEFAULT_DUTY_CYCLES_BITS },
        },
        buses: seq![
            BusModel {
                id: "util_bus"@,
                name: "Utility bus"@,
                kv_ll: Quantity { bits: DEFAULT_UTILITY_KV_LL_BITS },
                x: Quantity { bits: SAMPLE_BUS_X_BITS },
                y: Quantity { bits: SAMPLE_BUS_Y_BITS },
                notes: Seq::empty(),
            },
        ],
        branches: Seq::empty(),
        sources: seq![
            SourceModel {
                id: "src_inf"@,
                kind: "utility"@,
                name: "Infinite utility"@,
                bus: "util_bus"@,
                kv_ll: Quantity { bits: DEFAULT_UTILITY_KV_LL_BITS },
                state: "in_service"@,
                z1_pu: sample_source_z(),
                z2_pu: sample_source_z(),
                z0_pu: sample_source_z(),
                has_z0: true,
                enabled: true,
                rating: "infinite utility"@,
                notes: "Replace with project-specific utility source impedance before issued work."@,
            },
        ],
        notes: seq!["Starter case for a simple single-line diagram."@],
    }
}

/// The starter case that the workstation opens with.
pub fn sample_network() -> (n: Network)
    ensures
        n@ == sample_model(),
{
    let mut n = Network::new(Quantity::from_bits(SAMPLE_BASE_MVA_BITS));
    n.project = ProjectInfo {
        name: "AES simple SLD study".to_string(),
        number: "SEED-001".to_string(),
        engineer: "Victor Lü".to_string(),
        revision: "A".to_string(),
        description: "Single infinite utility starter model for the browser SLD workstation.".to_string(),
    };
    proof {
        reveal_strlit("util_bus");
        reveal_strlit("src_inf");
        assert(!crate::text::is_blank_seq("util_bus"@)) by {
            assert("util_bus"@[0] == 'u');
        }
        assert(!crate::text::is_blank_seq("src_inf"@)) by {
            assert("src_inf"@[0] == 's');
        }
        assert(!(Quantity { bits: DEFAULT_UTILITY_KV_LL_BITS }).spec_le_zero()) by (bit_vector);
        assert(n@.bus_position("util_bus"@) is None);
    }
    let added = n.add_bus(
        "util_bus",
        "Utility bus",
        Quantity::from_bits(DEFAULT_UTILITY_KV_LL_BITS),
        Quantity::from_bits(SAMPLE_BUS_X_BITS),
        Quantity::from_bits(SAMPLE_BUS_Y_BITS),
    );
    assert(added is Ok);
    proof {
        crate::model::lemma_first_match_at(n@.bus_ids(), "util_bus"@, 0);
        assert(n@.source_position("src_inf"@) is None);
    }
    let z = Impedance {
        r: Quantity::from_bits(SAMPLE_SOURCE_R_BITS),
        x: Quantity::from_bits(SAMPLE_SOURCE_X_BITS),
    };
    let source = Source {
        id: "src_inf".to_string(),
        kind: "utility".to_string(),
        name: "Infinite utility".to_string(),
        bus: "util_bus".to_string(),
        kv_ll: Quantity::from_bits(DEFAULT_UTILITY_KV_LL_BITS),
        state: "in_service".to_string(),
        z1_pu: z,
        z2_pu: z,
        z0_pu: z,
        has_z0: true,
        enabled: true,
        rating: "infinite utility".to_string(),
        notes: "Replace with project-specific utility source impedance before issued work.".to_string(),
    };
    proof {
        reveal_strlit("utility");
        assert(source@.kind.len() > 0);
    }
    let added = n.add_source(source);
    assert(added is Ok);
    n.notes.push("Starter case for a simple single-line diagram.".to_string());
    proof {
        assert(n@.notes =~= seq!["Starter case for a simple single-line diagram."@]);
        assert(n@ =~= sample_model());
    }
    n
}

} // verus!
