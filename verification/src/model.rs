use vstd::prelude::*;

use crate::error::FaultCalcError;
use crate::quantity::{
    Quantity, DEFAULT_DUTY_CYCLES_BITS, DEFAULT_FREQUENCY_BITS, DEFAULT_PREFAULT_BITS,
};
use crate::quantity::{
    DEFAULT_SECONDARY_KV_LL_BITS, DEFAULT_UTILITY_KV_LL_BITS, MINUS_THIRTY_BITS, PLUS_THIRTY_BITS,
};
use crate::text::{is_blank, is_blank_seq, join2, join3, join4, same_text, seq_contains, text_contains};

verus! {

/// Identifying text of a study.
#[derive(Clone, Debug)]
pub struct ProjectInfo {
    pub name: String,
    pub number: String,
    pub engineer: String,
    pub revision: String,
    pub description: String,
}

/// Fault impedance (ohms) and the duty time (cycles) used for asymmetrical currents.
#[derive(Clone, Copy, Debug)]
pub struct CalculationOptions {
    pub fault_r_ohm: Quantity,
    pub fault_x_ohm: Quantity,
    pub duty_cycles: Quantity,
}

/// A sequence impedance in per-unit on the system base.
#[derive(Clone, Copy, Debug)]
pub struct Impedance {
    pub r: Quantity,
    pub x: Quantity,
}

/// Conductor labels of a branch, by role.
#[derive(Clone, Debug)]
pub struct ConductorSet {
    pub phases: Vec<String>,
    pub neutral: Vec<String>,
    pub ground: Vec<String>,
    pub bond: Vec<String>,
    pub other: Vec<String>,
}

/// A bus: a node of the one-line diagram with its line-to-line voltage in kV.
#[derive(Clone, Debug)]
pub struct Bus {
    pub id: String,
    pub name: String,
    pub kv_ll: Quantity,
    pub x: Quantity,
    pub y: Quantity,
    pub notes: String,
}

/// A series element between two buses (feeder, cable, breaker, transformer, ...).
#[derive(Clone, Debug)]
pub struct Branch {
    pub id: String,
    pub kind: String,
    pub name: String,
    pub from: String,
    pub to: String,
    pub state: String,
    pub conductors: ConductorSet,
    pub primary_connection: String,
    pub secondary_connection: String,
    pub vector_shift_deg: Quantity,
    pub z1_pu: Impedance,
    pub z2_pu: Impedance,
    pub z0_pu: Impedance,
    pub has_z0: bool,
    pub enabled: bool,
    pub rating_a: Quantity,
    pub rating_kva: Quantity,
    pub impedance_percent: Quantity,
    pub xr_ratio: Quantity,
    pub length_m: Quantity,
    pub notes: String,
}

/// A source equivalent (utility, generator, load contribution) connected at a bus.
#[derive(Clone, Debug)]
pub struct Source {
    pub id: String,
    pub kind: String,
    pub name: String,
    pub bus: String,
    pub kv_ll: Quantity,
    pub state: String,
    pub z1_pu: Impedance,
    pub z2_pu: Impedance,
    pub z0_pu: Impedance,
    pub has_z0: bool,
    pub enabled: bool,
    pub rating: String,
    pub notes: String,
}

/// A short-circuit study case: system base, buses, branches and sources.
#[derive(Clone, Debug)]
pub struct Network {
    pub project: ProjectInfo,
    pub base_mva: Quantity,
    pub frequency_hz: Quantity,
    pub prefault_voltage_pu: Quantity,
    pub options: CalculationOptions,
    pub buses: Vec<Bus>,
    pub branches: Vec<Branch>,
    pub sources: Vec<Source>,
    pub notes: Vec<String>,
}

// ---------------------------------------------------------------------------
// Mathematical models of the case types
// ---------------------------------------------------------------------------

#[verifier::ext_equal]
pub struct ProjectModel {
    pub name: Seq<char>,
    pub number: Seq<char>,
    pub engineer: Seq<char>,
    pub revision: Seq<char>,
    pub description: Seq<char>,
}

#[verifier::ext_equal]
pub struct ConductorModel {
    pub phases: Seq<Seq<char>>,
    pub neutral: Seq<Seq<char>>,
    pub ground: Seq<Seq<char>>,
    pub bond: Seq<Seq<char>>,
    pub other: Seq<Seq<char>>,
}

#[verifier::ext_equal]
pub struct BusModel {
    pub id: Seq<char>,
    pub name: Seq<char>,
    pub kv_ll: Quantity,
    pub x: Quantity,
    pub y: Quantity,
    pub notes: Seq<char>,
}

#[verifier::ext_equal]
pub struct BranchModel {
    pub id: Seq<char>,
    pub kind: Seq<char>,
    pub name: Seq<char>,
    pub from: Seq<char>,
    pub to: Seq<char>,
    pub state: Seq<char>,
    pub conductors: ConductorModel,
    pub primary_connection: Seq<char>,
    pub secondary_connection: Seq<char>,
    pub vector_shift_deg: Quantity,
    pub z1_pu: Impedance,
    pub z2_pu: Impedance,
    pub z0_pu: Impedance,
    pub has_z0: bool,
    pub enabled: bool,
    pub rating_a: Quantity,
    pub rating_kva: Quantity,
    pub impedance_percent: Quantity,
    pub xr_ratio: Quantity,
    pub length_m: Quantity,
    pub notes: Seq<char>,
}

#[verifier::ext_equal]
pub struct SourceModel {
    pub id: Seq<char>,
    pub kind: Seq<char>,
    pub name: Seq<char>,
    pub bus: Seq<char>,
    pub kv_ll: Quantity,
    pub state: Seq<char>,
    pub z1_pu: Impedance,
    pub z2_pu: Impedance,
    pub z0_pu: Impedance,
    pub has_z0: bool,
    pub enabled: bool,
    pub rating: Seq<char>,
    pub notes: Seq<char>,
}

#[verifier::ext_equal]
pub struct NetworkModel {
    pub project: ProjectModel,
    pub base_mva: Quantity,
    pub frequency_hz: Quantity,
    pub prefault_voltage_pu: Quantity,
    pub options: CalculationOptions,
    pub buses: Seq<BusModel>,
    pub branches: Seq<BranchModel>,
    pub sources: Seq<SourceModel>,
    pub notes: Seq<Seq<char>>,
}

/// The texts held by a vector of strings.
pub open spec fn texts(v: Seq<String>) -> Seq<Seq<char>> {
    v.map_values(|s: String| s@)
}

impl View for ProjectInfo {
    type V = ProjectModel;

    open spec fn view(&self) -> ProjectModel {
        ProjectModel {
            name: self.name@,
            number: self.number@,
            engineer: self.engineer@,
            revision: self.revision@,
            description: self.description@,
        }
    }
}

impl View for ConductorSet {
    type V = ConductorModel;

    open spec fn view(&self) -> ConductorModel {
        ConductorModel {
            phases: texts(self.phases@),
            neutral: texts(self.neutral@),
            ground: texts(self.ground@),
            bond: texts(self.bond@),
            other: texts(self.other@),
        }
    }
}

impl View for Bus {
    type V = BusModel;

    open spec fn view(&self) -> BusModel {
        BusModel {
            id: self.id@,
            name: self.name@,
            kv_ll: self.kv_ll,
            x: self.x,
            y: self.y,
            notes: self.notes@,
        }
    }
}

impl View for Branch {
    type V = BranchModel;

    open spec fn view(&self) -> BranchModel {
        BranchModel {
            id: self.id@,
            kind: self.kind@,
            name: self.name@,
            from: self.from@,
            to: self.to@,
            state: self.state@,
            conductors: self.conductors@,
            primary_connection: self.primary_connection@,
            secondary_connection: self.secondary_connection@,
            vector_shift_deg: self.vector_shift_deg,
            z1_pu: self.z1_pu,
            z2_pu: self.z2_pu,
            z0_pu: self.z0_pu,
            has_z0: self.has_z0,
            enabled: self.enabled,
            rating_a: self.rating_a,
            rating_kva: self.rating_kva,
            impedance_percent: self.impedance_percent,
            xr_ratio: self.xr_ratio,
            length_m: self.length_m,
            notes: self.notes@,
        }
    }
}

impl View for Source {
    type V = SourceModel;

    open spec fn view(&self) -> SourceModel {
        SourceModel {
            id: self.id@,
            kind: self.kind@,
            name: self.name@,
            bus: self.bus@,
            kv_ll: self.kv_ll,
            state: self.state@,
            z1_pu: self.z1_pu,
            z2_pu: self.z2_pu,
            z0_pu: self.z0_pu,
            has_z0: self.has_z0,
            enabled: self.enabled,
            rating: self.rating@,
            notes: self.notes@,
        }
    }
}

impl View for Network {
    type V = NetworkModel;

    open spec fn view(&self) -> NetworkModel {
        NetworkModel {
            project: self.project@,
            base_mva: self.base_mva,
            frequency_hz: self.frequency_hz,
            prefault_voltage_pu: self.prefault_voltage_pu,
            options: self.options,
            buses: self.buses@.map_values(|b: Bus| b@),
            branches: self.branches@.map_values(|b: Branch| b@),
            sources: self.sources@.map_values(|s: Source| s@),
            notes: texts(self.notes@),
        }
    }
}

// ---------------------------------------------------------------------------
// Lookups by identifier
// ---------------------------------------------------------------------------

/// Position of the first entry of `ids` equal to `id`.
pub open spec fn first_match(ids: Seq<Seq<char>>, id: Seq<char>) -> Option<int>
    decreases ids.len(),
{
    if ids.len() == 0 {
        None
    } else if ids[0] == id {
        Some(0)
    } else {
        match first_match(ids.drop_first(), id) {
            Some(i) => Some(i + 1),
            None => None,
        }
    }
}

/// `first_match` is the least position that holds `id`.
pub proof fn lemma_first_match(ids: Seq<Seq<char>>, id: Seq<char>)
    ensures
        match first_match(ids, id) {
            Some(i) => 0 <= i < ids.len() && ids[i] == id && forall|j: int|
                0 <= j < i ==> ids[j] != id,
            None => forall|j: int| 0 <= j < ids.len() ==> ids[j] != id,
        },
    decreases ids.len(),
{
    if ids.len() > 0 && ids[0] != id {
        lemma_first_match(ids.drop_first(), id);
        match first_match(ids.drop_first(), id) {
            Some(i) => {
                assert forall|j: int| 0 <= j < i + 1 implies ids[j] != id by {
                    if j > 0 {
                        assert(ids[j] == ids.drop_first()[j - 1]);
                    }
                }
            },
            None => {
                assert forall|j: int| 0 <= j < ids.len() implies ids[j] != id by {
                    if j > 0 {
                        assert(ids[j] == ids.drop_first()[j - 1]);
                    }
                }
            },
        }
    }
}

/// A position that holds `id`, with no earlier position holding it, is the first match.
pub proof fn lemma_first_match_at(ids: Seq<Seq<char>>, id: Seq<char>, i: int)
    requires
        0 <= i < ids.len(),
        ids[i] == id,
        forall|j: int| 0 <= j < i ==> ids[j] != id,
    ensures
        first_match(ids, id) == Some(i),
{
    lemma_first_match(ids, id);
    match first_match(ids, id) {
        Some(k) => {
            if k < i {
                assert(ids[k] != id);
            }
            if k > i {
                assert(ids[i] != id);
            }
        },
        None => {
            assert(ids[i] != id);
        },
    }
}

/// No position holds `id`.
pub proof fn lemma_first_match_none(ids: Seq<Seq<char>>, id: Seq<char>)
    requires
        forall|j: int| 0 <= j < ids.len() ==> ids[j] != id,
    ensures
        first_match(ids, id) is None,
{
    lemma_first_match(ids, id);
    if let Some(k) = first_match(ids, id) {
        assert(ids[k] != id);
    }
}

impl NetworkModel {
    pub open spec fn bus_ids(self) -> Seq<Seq<char>> {
        self.buses.map_values(|b: BusModel| b.id)
    }

    pub open spec fn branch_ids(self) -> Seq<Seq<char>> {
        self.branches.map_values(|b: BranchModel| b.id)
    }

    pub open spec fn source_ids(self) -> Seq<Seq<char>> {
        self.sources.map_values(|s: SourceModel| s.id)
    }

    /// Position of the first bus with identifier `id`.
    pub open spec fn bus_position(self, id: Seq<char>) -> Option<int> {
        first_match(self.bus_ids(), id)
    }

    /// Position of the first branch with identifier `id`.
    pub open spec fn branch_position(self, id: Seq<char>) -> Option<int> {
        first_match(self.branch_ids(), id)
    }

    /// Position of the first source with identifier `id`.
    pub open spec fn source_position(self, id: Seq<char>) -> Option<int> {
        first_match(self.source_ids(), id)
    }
}

/// Name shown for a bus: its name, or its identifier when the name is empty.
pub open spec fn display_name_of(id: Seq<char>, name: Seq<char>) -> Seq<char> {
    if name.len() == 0 {
        id
    } else {
        name
    }
}

fn copy_text(s: &String) -> (r: String)
    ensures
        r@ == s@,
{
    s.as_str().to_string()
}

impl Bus {
    /// The bus name, or its identifier when the name is empty.
    pub fn display_name(&self) -> (r: String)
        ensures
            r@ == display_name_of(self.id@, self.name@),
    {
        if self.name.as_str().is_empty() {
            copy_text(&self.id)
        } else {
            copy_text(&self.name)
        }
    }
}

impl ConductorSet {
    /// No conductor of any role is listed.
    pub fn is_empty(&self) -> (r: bool)
        ensures
            r == (self@.phases.len() == 0 && self@.neutral.len() == 0 && self@.ground.len() == 0
                && self@.bond.len() == 0 && self@.other.len() == 0),
    {
        self.phases.len() == 0 && self.neutral.len() == 0 && self.ground.len() == 0
            && self.bond.len() == 0 && self.other.len() == 0
    }
}

impl Network {
    /// Position of the first bus whose identifier is `id`.
    pub fn bus_index(&self, id: &str) -> (r: Option<usize>)
        ensures
            r matches Some(i) ==> self@.bus_position(id@) == Some(i as int) && i < self.buses.len(),
            r is None ==> self@.bus_position(id@) is None,
    {
        let mut i: usize = 0;
        while i < self.buses.len()
            invariant
                i <= self.buses.len(),
                forall|j: int| 0 <= j < i ==> self@.bus_ids()[j] != id@,
            decreases self.buses.len() - i,
        {
            if same_text(self.buses[i].id.as_str(), id) {
                proof {
                    lemma_first_match_at(self@.bus_ids(), id@, i as int);
                }
                return Some(i);
            }
            i = i + 1;
        }
        proof {
            lemma_first_match_none(self@.bus_ids(), id@);
        }
        None
    }

    /// Position of the first branch whose identifier is `id`.
    pub fn branch_index(&self, id: &str) -> (r: Option<usize>)
        ensures
            r matches Some(i) ==> self@.branch_position(id@) == Some(i as int) && i < self.branches.len(),
            r is None ==> self@.branch_position(id@) is None,
    {
        let mut i: usize = 0;
        while i < self.branches.len()
            invariant
                i <= self.branches.len(),
                forall|j: int| 0 <= j < i ==> self@.branch_ids()[j] != id@,
            decreases self.branches.len() - i,
        {
            if same_text(self.branches[i].id.as_str(), id) {
                proof {
                    lemma_first_match_at(self@.branch_ids(), id@, i as int);
                }
                return Some(i);
            }
            i = i + 1;
        }
        proof {
            lemma_first_match_none(self@.branch_ids(), id@);
        }
        None
    }

    /// Position of the first source whose identifier is `id`.
    pub fn source_index(&self, id: &str) -> (r: Option<usize>)
        ensures
            r matches Some(i) ==> self@.source_position(id@) == Some(i as int) && i < self.sources.len(),
            r is None ==> self@.source_position(id@) is None,
    {
        let mut i: usize = 0;
        while i < self.sources.len()
            invariant
                i <= self.sources.len(),
                forall|j: int| 0 <= j < i ==> self@.source_ids()[j] != id@,
            decreases self.sources.len() - i,
        {
            if same_text(self.sources[i].id.as_str(), id) {
                proof {
                    lemma_first_match_at(self@.source_ids(), id@, i as int);
                }
                return Some(i);
            }
            i = i + 1;
        }
        proof {
            lemma_first_match_none(self@.source_ids(), id@);
        }
        None
    }

    /// Display name of the first bus with identifier `id`, or `id` itself when there is none.
    pub fn bus_name(&self, id: &str) -> (r: String)
        ensures
            r@ == match self@.bus_position(id@) {
                Some(i) => display_name_of(self@.buses[i].id, self@.buses[i].name),
                None => id@,
            },
    {
        match self.bus_index(id) {
            Some(i) => self.buses[i].display_name(),
            None => id.to_string(),
        }
    }
}

// ---------------------------------------------------------------------------
// Defaults
// ---------------------------------------------------------------------------

/// Conductor labels given to a branch that lists none.
pub open spec fn default_conductors_model(kind: Seq<char>, secondary: Seq<char>) -> ConductorModel {
    ConductorModel {
        phases: seq!["A"@, "B"@, "C"@],
        neutral: if kind == "transformer"@ && secondary == "delta"@ {
            Seq::empty()
        } else if kind == "transformer"@ {
            seq!["X0/N"@]
        } else {
            seq!["N"@]
        },
        ground: seq!["EGC"@],
        bond: seq!["BOND"@],
        other: Seq::empty(),
    }
}

/// Encoding of the vector shift (degrees) implied by the winding connections.
pub open spec fn default_vector_shift_bits(primary: Seq<char>, secondary: Seq<char>) -> u64 {
    if primary == "delta"@ && secondary != "delta"@ {
        MINUS_THIRTY_BITS
    } else if primary != "delta"@ && secondary == "delta"@ {
        PLUS_THIRTY_BITS
    } else {
        0
    }
}

/// No conductor of any role is listed.
pub open spec fn conductors_empty(c: ConductorModel) -> bool {
    c.phases.len() == 0 && c.neutral.len() == 0 && c.ground.len() == 0 && c.bond.len() == 0
        && c.other.len() == 0
}

/// A branch after its transformer connections, vector shift and conductors get defaults.
pub open spec fn normalised_metadata(b: BranchModel) -> BranchModel {
    let is_tx = b.kind == "transformer"@;
    let primary = if is_tx && b.primary_connection.len() == 0 {
        "delta"@
    } else {
        b.primary_connection
    };
    let secondary = if is_tx && b.secondary_connection.len() == 0 {
        "grounded_wye"@
    } else {
        b.secondary_connection
    };
    let shift = if is_tx && b.vector_shift_deg.spec_is_zero() {
        Quantity { bits: default_vector_shift_bits(primary, secondary) }
    } else {
        b.vector_shift_deg
    };
    let conductors = if conductors_empty(b.conductors) {
        default_conductors_model(b.kind, secondary)
    } else {
        b.conductors
    };
    BranchModel {
        primary_connection: primary,
        secondary_connection: secondary,
        vector_shift_deg: shift,
        conductors: conductors,
        ..b
    }
}

/// A branch whose empty kind becomes "impedance".
pub open spec fn with_branch_kind_default(b: BranchModel) -> BranchModel {
    if b.kind.len() == 0 {
        BranchModel { kind: "impedance"@, ..b }
    } else {
        b
    }
}

/// A source whose empty kind becomes "source".
pub open spec fn with_source_kind_default(s: SourceModel) -> SourceModel {
    if s.kind.len() == 0 {
        SourceModel { kind: "source"@, ..s }
    } else {
        s
    }
}

/// Whether an element read without an `enabled` flag is in service: it is.
pub fn default_enabled() -> (r: bool)
    ensures
        r,
{
    true
}

/// The kind of a branch read without one.
pub fn default_branch_kind() -> (k: String)
    ensures
        k@ == "impedance"@,
{
    "impedance".to_string()
}

/// The kind of a source read without one.
pub fn default_source_kind() -> (k: String)
    ensures
        k@ == "source"@,
{
    "source".to_string()
}

/// Conductor labels for a branch of kind `kind` whose secondary winding is `secondary_connection`.
pub fn default_conductors_for_branch(kind: &str, secondary_connection: &str) -> (c: ConductorSet)
    ensures
        c@ == default_conductors_model(kind@, secondary_connection@),
{
    let is_tx = same_text(kind, "transformer");
    let neutral: Vec<String> = if is_tx && same_text(secondary_connection, "delta") {
        Vec::new()
    } else if is_tx {
        vec!["X0/N".to_string()]
    } else {
        vec!["N".to_string()]
    };
    let phases = vec!["A".to_string(), "B".to_string(), "C".to_string()];
    let ground = vec!["EGC".to_string()];
    let bond = vec!["BOND".to_string()];
    let other: Vec<String> = Vec::new();
    let c = ConductorSet { phases, neutral, ground, bond, other };
    assert(c@.phases =~= seq!["A"@, "B"@, "C"@]);
    assert(c@.ground =~= seq!["EGC"@]);
    assert(c@.bond =~= seq!["BOND"@]);
    assert(c@.other =~= Seq::<Seq<char>>::empty());
    assert(c@.neutral =~= default_conductors_model(kind@, secondary_connection@).neutral);
    c
}

/// Vector shift in degrees implied by the primary and secondary connections:
/// -30 for delta-wye, +30 for wye-delta, 0 otherwise.
pub fn default_transformer_vector_shift(primary: &str, secondary: &str) -> (q: Quantity)
    ensures
        q.bits == default_vector_shift_bits(primary@, secondary@),
{
    let p_delta = same_text(primary, "delta");
    let s_delta = same_text(secondary, "delta");
    if p_delta && !s_delta {
        Quantity::from_bits(MINUS_THIRTY_BITS)
    } else if !p_delta && s_delta {
        Quantity::from_bits(PLUS_THIRTY_BITS)
    } else {
        Quantity::from_bits(0)
    }
}

impl Branch {
    /// Fills the defaults of a transformer's connections and vector shift, and the
    /// conductor labels of any branch that lists none.
    pub fn normalise_metadata_defaults(&mut self)
        ensures
            final(self)@ == normalised_metadata(old(self)@),
    {
        if same_text(self.kind.as_str(), "transformer") {
            if self.primary_connection.as_str().is_empty() {
                self.primary_connection = "delta".to_string();
            }
            if self.secondary_connection.as_str().is_empty() {
                self.secondary_connection = "grounded_wye".to_string();
            }
            if self.vector_shift_deg.is_zero() {
                self.vector_shift_deg = default_transformer_vector_shift(
                    self.primary_connection.as_str(),
                    self.secondary_connection.as_str(),
                );
            }
        }
        if self.conductors.is_empty() {
            self.conductors = default_conductors_for_branch(
                self.kind.as_str(),
                self.secondary_connection.as_str(),
            );
        }
    }
}

// ---------------------------------------------------------------------------
// Construction and editing
// ---------------------------------------------------------------------------

impl Default for ProjectInfo {
    fn default() -> (p: Self)
        ensures
            p@.name.len() == 0,
            p@.number.len() == 0,
            p@.engineer.len() == 0,
            p@.revision.len() == 0,
            p@.description.len() == 0,
    {
        ProjectInfo {
            name: String::new(),
            number: String::new(),
            engineer: String::new(),
            revision: String::new(),
            description: String::new(),
        }
    }
}

impl Default for CalculationOptions {
    fn default() -> (o: Self)
        ensures
            o.fault_r_ohm.bits == 0,
            o.fault_x_ohm.bits == 0,
            o.duty_cycles.bits == DEFAULT_DUTY_CYCLES_BITS,
    {
        CalculationOptions {
            fault_r_ohm: Quantity::from_bits(0),
            fault_x_ohm: Quantity::from_bits(0),
            duty_cycles: Quantity::from_bits(DEFAULT_DUTY_CYCLES_BITS),
        }
    }
}

/// Why `add_bus` refuses a bus, if it does.
pub open spec fn add_bus_rejection(net: NetworkModel, id: Seq<char>, kv_ll: Quantity) -> Option<
    Seq<char>,
> {
    if is_blank_seq(id) {
        Some("bus id cannot be blank"@)
    } else if kv_ll.spec_le_zero() {
        Some("bus "@ + id + " has non-positive kV"@)
    } else if net.bus_position(id) is Some {
        Some("duplicate bus id "@ + id)
    } else {
        None
    }
}

/// Why `add_branch` refuses a branch, if it does.
pub open spec fn add_branch_rejection(net: NetworkModel, b: BranchModel) -> Option<Seq<char>> {
    if is_blank_seq(b.id) {
        Some("branch id cannot be blank"@)
    } else if net.branch_position(b.id) is Some {
        Some("duplicate branch id "@ + b.id)
    } else if net.bus_position(b.from) is None {
        Some("branch "@ + b.id + " references missing from bus "@ + b.from)
    } else if net.bus_position(b.to) is None {
        Some("branch "@ + b.id + " references missing to bus "@ + b.to)
    } else if b.from == b.to {
        Some("branch "@ + b.id + " connects a bus to itself"@)
    } else {
        None
    }
}

/// Why `add_source` refuses a source, if it does.
pub open spec fn add_source_rejection(net: NetworkModel, s: SourceModel) -> Option<Seq<char>> {
    if is_blank_seq(s.id) {
        Some("source id cannot be blank"@)
    } else if net.source_position(s.id) is Some {
        Some("duplicate source id "@ + s.id)
    } else if net.bus_position(s.bus) is None {
        Some("source "@ + s.id + " references missing bus "@ + s.bus)
    } else {
        None
    }
}

/// The source that `add_source` stores: its kind defaulted and, when its voltage is not
/// above zero, the voltage of the bus it connects to.
pub open spec fn added_source(net: NetworkModel, s: SourceModel) -> SourceModel {
    let s1 = with_source_kind_default(s);
    if s1.kv_ll.spec_le_zero() {
        match net.bus_position(s1.bus) {
            Some(i) => SourceModel { kv_ll: net.buses[i].kv_ll, ..s1 },
            None => s1,
        }
    } else {
        s1
    }
}

impl NetworkModel {
    pub open spec fn with_buses(self, buses: Seq<BusModel>) -> NetworkModel {
        NetworkModel { buses: buses, ..self }
    }

    pub open spec fn with_branches(self, branches: Seq<BranchModel>) -> NetworkModel {
        NetworkModel { branches: branches, ..self }
    }

    pub open spec fn with_sources(self, sources: Seq<SourceModel>) -> NetworkModel {
        NetworkModel { sources: sources, ..self }
    }
}

fn error_with(message: String) -> (e: FaultCalcError)
    ensures
        e.message@ == message@,
{
    FaultCalcError { message }
}

impl Network {
    /// An empty case on a system base of `base_mva`, at 60 Hz and 1.0 per-unit prefault voltage.
    pub fn new(base_mva: Quantity) -> (n: Self)
        ensures
            n@.project.name == "Untitled short-circuit study"@,
            n@.project.number.len() == 0,
            n@.project.engineer.len() == 0,
            n@.project.revision == "A"@,
            n@.project.description.len() == 0,
            n@.base_mva == base_mva,
            n@.frequency_hz.bits == DEFAULT_FREQUENCY_BITS,
            n@.prefault_voltage_pu.bits == DEFAULT_PREFAULT_BITS,
            n@.options.fault_r_ohm.bits == 0,
            n@.options.fault_x_ohm.bits == 0,
            n@.options.duty_cycles.bits == DEFAULT_DUTY_CYCLES_BITS,
            n@.buses.len() == 0,
            n@.branches.len() == 0,
            n@.sources.len() == 0,
            n@.notes.len() == 0,
    {
        let mut project = ProjectInfo::default();
        project.name = "Untitled short-circuit study".to_string();
        project.revision = "A".to_string();
        Network {
            project,
            base_mva,
            frequency_hz: Quantity::from_bits(DEFAULT_FREQUENCY_BITS),
            prefault_voltage_pu: Quantity::from_bits(DEFAULT_PREFAULT_BITS),
            options: CalculationOptions::default(),
            buses: Vec::new(),
            branches: Vec::new(),
            sources: Vec::new(),
            notes: Vec::new(),
        }
    }

    /// Adds a bus; refuses a blank or duplicate identifier and a voltage that is not above zero.
    pub fn add_bus(&mut self, id: &str, name: &str, kv_ll: Quantity, x: Quantity, y: Quantity) -> (r:
        Result<(), FaultCalcError>)
        ensures
            r is Err <==> add_bus_rejection(old(self)@, id@, kv_ll) is Some,
            r matches Err(e) ==> Some(e.message@) == add_bus_rejection(old(self)@, id@, kv_ll)
                && final(self)@ == old(self)@,
            r is Ok ==> final(self)@ == old(self)@.with_buses(
                old(self)@.buses.push(
                    BusModel { id: id@, name: name@, kv_ll, x, y, notes: Seq::empty() },
                ),
            ),
    {
        if is_blank(id) {
            return Err(FaultCalcError::new("bus id cannot be blank"));
        }
        if kv_ll.le_zero() {
            return Err(error_with(join3("bus ", id, " has non-positive kV")));
        }
        if self.bus_index(id).is_some() {
            return Err(error_with(join2("duplicate bus id ", id)));
        }
        let bus = Bus {
            id: id.to_string(),
            name: name.to_string(),
            kv_ll,
            x,
            y,
            notes: String::new(),
        };
        self.buses.push(bus);
        proof {
            assert(self@.buses =~= old(self)@.buses.push(
                BusModel { id: id@, name: name@, kv_ll, x, y, notes: Seq::empty() },
            ));
        }
        Ok(())
    }

    /// Adds a branch between two existing buses, filling its kind and metadata defaults;
    /// refuses a blank or duplicate identifier, a missing bus and a branch from a bus to itself.
    pub fn add_branch(&mut self, branch: Branch) -> (r: Result<(), FaultCalcError>)
        ensures
            r is Err <==> add_branch_rejection(old(self)@, branch@) is Some,
            r matches Err(e) ==> Some(e.message@) == add_branch_rejection(old(self)@, branch@)
                && final(self)@ == old(self)@,
            r is Ok ==> final(self)@ == old(self)@.with_branches(
                old(self)@.branches.push(normalised_metadata(with_branch_kind_default(branch@))),
            ),
    {
        let mut branch = branch;
        if is_blank(branch.id.as_str()) {
            return Err(FaultCalcError::new("branch id cannot be blank"));
        }
        if self.branch_index(branch.id.as_str()).is_some() {
            return Err(error_with(join2("duplicate branch id ", branch.id.as_str())));
        }
        if self.bus_index(branch.from.as_str()).is_none() {
            return Err(
                error_with(
                    join4(
                        "branch ",
                        branch.id.as_str(),
                        " references missing from bus ",
                        branch.from.as_str(),
                    ),
                ),
            );
        }
        if self.bus_index(branch.to.as_str()).is_none() {
            return Err(
                error_with(
                    join4(
                        "branch ",
                        branch.id.as_str(),
                        " references missing to bus ",
                        branch.to.as_str(),
                    ),
                ),
            );
        }
        if branch.from == branch.to {
            return Err(
                error_with(
                    join3("branch ", branch.id.as_str(), " connects a bus to itself"),
                ),
            );
        }
        if branch.kind.as_str().is_empty() {
            branch.kind = default_branch_kind();
        }
        branch.normalise_metadata_defaults();
        let ghost added = branch@;
        self.branches.push(branch);
        proof {
            assert(self@.branches =~= old(self)@.branches.push(added));
        }
        Ok(())
    }

    /// Adds a source at an existing bus, defaulting its kind and, when its voltage is not
    /// above zero, taking the voltage of its bus; refuses a blank or duplicate identifier
    /// and a missing bus.
    pub fn add_source(&mut self, source: Source) -> (r: Result<(), FaultCalcError>)
        ensures
            r is Err <==> add_source_rejection(old(self)@, source@) is Some,
            r matches Err(e) ==> Some(e.message@) == add_source_rejection(old(self)@, source@)
                && final(self)@ == old(self)@,
            r is Ok ==> final(self)@ == old(self)@.with_sources(
                old(self)@.sources.push(added_source(old(self)@, source@)),
            ),
    {
        let mut source = source;
        if is_blank(source.id.as_str()) {
            return Err(FaultCalcError::new("source id cannot be blank"));
        }
        if self.source_index(source.id.as_str()).is_some() {
            return Err(error_with(join2("duplicate source id ", source.id.as_str())));
        }
        let bus_index = self.bus_index(source.bus.as_str());
        if bus_index.is_none() {
            return Err(
                error_with(
                    join4(
                        "source ",
                        source.id.as_str(),
                        " references missing bus ",
                        source.bus.as_str(),
                    ),
                ),
            );
        }
        if source.kind.as_str().is_empty() {
            source.kind = default_source_kind();
        }
        if source.kv_ll.le_zero() {
            if let Some(i) = bus_index {
                source.kv_ll = self.buses[i].kv_ll;
            }
        }
        let ghost added = source@;
        self.sources.push(source);
        proof {
            assert(added == added_source(old(self)@, source@));
            assert(self@.sources =~= old(self)@.sources.push(added));
        }
        Ok(())
    }
}

// ---------------------------------------------------------------------------
// Utility sources and transformers from their rating data
// ---------------------------------------------------------------------------

/// What the short-circuit data of a utility give with floating-point arithmetic: its
/// positive-sequence (also negative-sequence) and zero-sequence impedances, and the
/// rating text that records those data.
#[derive(Clone, Debug)]
pub struct UtilityEquivalent {
    pub z1_pu: Impedance,
    pub z0_pu: Impedance,
    pub rating: String,
}

/// What the nameplate of a transformer gives with floating-point arithmetic: its
/// positive-sequence (also negative-sequence) and zero-sequence impedances, the X/R ratio
/// used, its rated current and the note that records the nameplate.
#[derive(Clone, Debug)]
pub struct TransformerNameplate {
    pub z1_pu: Impedance,
    pub z0_pu: Impedance,
    pub xr_ratio: Quantity,
    pub rating_a: Quantity,
    pub notes: String,
}

/// The source that `add_utility_source` offers to `add_source`: an in-service utility at
/// `bus`, at the voltage of the first bus with that identifier or, when there is none, at
/// the default utility voltage.
pub open spec fn utility_source(
    n: NetworkModel,
    id: Seq<char>,
    name: Seq<char>,
    bus: Seq<char>,
    e: UtilityEquivalent,
) -> SourceModel {
    SourceModel {
        id,
        kind: "utility"@,
        name,
        bus,
        kv_ll: match n.bus_position(bus) {
            Some(i) => n.buses[i].kv_ll,
            None => Quantity { bits: DEFAULT_UTILITY_KV_LL_BITS },
        },
        state: "in_service"@,
        z1_pu: e.z1_pu,
        z2_pu: e.z1_pu,
        z0_pu: e.z0_pu,
        has_z0: true,
        enabled: true,
        rating: e.rating@,
        notes: Seq::empty(),
    }
}

/// The branch that `add_transformer` offers to `add_branch`: a normally closed
/// delta / grounded-wye transformer with a -30 degree shift, no conductors yet, and a
/// zero-sequence path only when it is grounded.
pub open spec fn transformer_branch(
    id: Seq<char>,
    name: Seq<char>,
    from: Seq<char>,
    to: Seq<char>,
    kva: Quantity,
    impedance_percent: Quantity,
    grounded: bool,
    p: TransformerNameplate,
) -> BranchModel {
    BranchModel {
        id,
        kind: "transformer"@,
        name,
        from,
        to,
        state: "normally_closed"@,
        conductors: ConductorModel {
            phases: Seq::empty(),
            neutral: Seq::empty(),
            ground: Seq::empty(),
            bond: Seq::empty(),
            other: Seq::empty(),
        },
        primary_connection: "delta"@,
        secondary_connection: "grounded_wye"@,
        vector_shift_deg: Quantity { bits: MINUS_THIRTY_BITS },
        z1_pu: p.z1_pu,
        z2_pu: p.z1_pu,
        z0_pu: p.z0_pu,
        has_z0: grounded,
        enabled: true,
        rating_a: p.rating_a,
        rating_kva: kva,
        impedance_percent,
        xr_ratio: p.xr_ratio,
        length_m: Quantity { bits: 0 },
        notes: p.notes@,
    }
}

fn no_conductors() -> (c: ConductorSet)
    ensures
        c@ == (ConductorModel {
            phases: Seq::empty(),
            neutral: Seq::empty(),
            ground: Seq::empty(),
            bond: Seq::empty(),
            other: Seq::empty(),
        }),
{
    let c = ConductorSet {
        phases: Vec::new(),
        neutral: Vec::new(),
        ground: Vec::new(),
        bond: Vec::new(),
        other: Vec::new(),
    };
    assert(texts(c.phases@) =~= Seq::empty());
    assert(texts(c.neutral@) =~= Seq::empty());
    assert(texts(c.ground@) =~= Seq::empty());
    assert(texts(c.bond@) =~= Seq::empty());
    assert(texts(c.other@) =~= Seq::empty());
    c
}

impl Network {
    /// Adds an in-service utility equivalent at bus `bus_id` from its short-circuit MVA
    /// and the impedances computed from it. A short-circuit MVA that is not above zero is
    /// refused; otherwise the source is added as `add_source` adds it.
    pub fn add_utility_source(
        &mut self,
        id: &str,
        name: &str,
        bus_id: &str,
        short_circuit_mva: Quantity,
        equivalent: UtilityEquivalent,
    ) -> (r: Result<(), FaultCalcError>)
        ensures
            short_circuit_mva.spec_le_zero() ==> (r matches Err(e) && e.message@
                == "utility source "@ + id@ + " short-circuit MVA must be positive"@)
                && final(self)@ == old(self)@,
            !short_circuit_mva.spec_le_zero() ==> {
                let s = utility_source(old(self)@, id@, name@, bus_id@, equivalent);
                &&& r is Err <==> add_source_rejection(old(self)@, s) is Some
                &&& r matches Err(e) ==> Some(e.message@) == add_source_rejection(old(self)@, s)
                    && final(self)@ == old(self)@
                &&& r is Ok ==> final(self)@ == old(self)@.with_sources(
                    old(self)@.sources.push(added_source(old(self)@, s)),
                )
            },
    {
        if short_circuit_mva.le_zero() {
            return Err(error_with(join3("utility source ", id, " short-circuit MVA must be positive")));
        }
        let kv_ll = match self.bus_index(bus_id) {
            Some(i) => self.buses[i].kv_ll,
            None => Quantity::from_bits(DEFAULT_UTILITY_KV_LL_BITS),
        };
        let source = Source {
            id: id.to_string(),
            kind: "utility".to_string(),
            name: name.to_string(),
            bus: bus_id.to_string(),
            kv_ll,
            state: "in_service".to_string(),
            z1_pu: equivalent.z1_pu,
            z2_pu: equivalent.z1_pu,
            z0_pu: equivalent.z0_pu,
            has_z0: true,
            enabled: true,
            rating: equivalent.rating,
            notes: String::new(),
        };
        assert(source@ == utility_source(self@, id@, name@, bus_id@, equivalent));
        self.add_source(source)
    }

    /// Adds a two-winding delta / grounded-wye transformer from its rating and the values
    /// computed from its nameplate. A kVA that is not above zero is refused, then an
    /// impedance percent that is not above zero; otherwise the branch is added as
    /// `add_branch` adds it.
    pub fn add_transformer(
        &mut self,
        id: &str,
        name: &str,
        from: &str,
        to: &str,
        kva: Quantity,
        impedance_percent: Quantity,
        grounded: bool,
        nameplate: TransformerNameplate,
    ) -> (r: Result<(), FaultCalcError>)
        ensures
            kva.spec_le_zero() ==> (r matches Err(e) && e.message@ == "transformer "@ + id@
                + " kVA must be positive"@) && final(self)@ == old(self)@,
            !kva.spec_le_zero() && impedance_percent.spec_le_zero() ==> (r matches Err(e)
                && e.message@ == "transformer "@ + id@ + " impedance percent must be positive"@)
                && final(self)@ == old(self)@,
            !kva.spec_le_zero() && !impedance_percent.spec_le_zero() ==> {
                let b = transformer_branch(
                    id@,
                    name@,
                    from@,
                    to@,
                    kva,
                    impedance_percent,
                    grounded,
                    nameplate,
                );
                &&& r is Err <==> add_branch_rejection(old(self)@, b) is Some
                &&& r matches Err(e) ==> Some(e.message@) == add_branch_rejection(old(self)@, b)
                    && final(self)@ == old(self)@
                &&& r is Ok ==> final(self)@ == old(self)@.with_branches(
                    old(self)@.branches.push(normalised_metadata(b)),
                )
            },
    {
        if kva.le_zero() {
            return Err(error_with(join3("transformer ", id, " kVA must be positive")));
        }
        if impedance_percent.le_zero() {
            return Err(
                error_with(join3("transformer ", id, " impedance percent must be positive")),
            );
        }
        let branch = Branch {
            id: id.to_string(),
            kind: "transformer".to_string(),
            name: name.to_string(),
            from: from.to_string(),
            to: to.to_string(),
            state: "normally_closed".to_string(),
            conductors: no_conductors(),
            primary_connection: "delta".to_string(),
            secondary_connection: "grounded_wye".to_string(),
            vector_shift_deg: Quantity::from_bits(MINUS_THIRTY_BITS),
            z1_pu: nameplate.z1_pu,
            z2_pu: nameplate.z1_pu,
            z0_pu: nameplate.z0_pu,
            has_z0: grounded,
            enabled: true,
            rating_a: nameplate.rating_a,
            rating_kva: kva,
            impedance_percent,
            xr_ratio: nameplate.xr_ratio,
            length_m: Quantity::zero(),
            notes: nameplate.notes,
        };
        proof {
            reveal_strlit("transformer");
        }
        assert(branch@ == transformer_branch(
            id@,
            name@,
            from@,
            to@,
            kva,
            impedance_percent,
            grounded,
            nameplate,
        ));
        assert(with_branch_kind_default(branch@) == branch@);
        self.add_branch(branch)
    }
}

// ---------------------------------------------------------------------------
// Normalisation of a loaded case
// ---------------------------------------------------------------------------

/// A switching state puts its element in service unless it mentions "open" or is
/// "out_of_service".
pub open spec fn in_service_state(state: Seq<char>) -> bool {
    !seq_contains(state, "open"@) && state != "out_of_service"@
}

/// Encoding of the voltage (kV) assumed for a source of kind `kind` whose bus is unknown.
pub open spec fn default_source_kv_bits(kind: Seq<char>) -> u64 {
    if kind == "load"@ {
        DEFAULT_SECONDARY_KV_LL_BITS
    } else {
        DEFAULT_UTILITY_KV_LL_BITS
    }
}

/// A branch after `normalise_defaults`: kind and metadata defaults, then either a state
/// derived from `enabled` (when empty) or `enabled` derived from the state.
pub open spec fn normalised_branch(b: BranchModel) -> BranchModel {
    let b1 = normalised_metadata(with_branch_kind_default(b));
    if b1.state.len() == 0 {
        BranchModel {
            state: if b1.enabled {
                "normally_closed"@
            } else {
                "normally_open"@
            },
            ..b1
        }
    } else {
        BranchModel { enabled: in_service_state(b1.state), ..b1 }
    }
}

/// A source after `normalise_defaults`: kind default, voltage of its bus (or the kind's
/// default voltage) when its own is not above zero, then state/enabled reconciliation.
pub open spec fn normalised_source(buses: Seq<BusModel>, s: SourceModel) -> SourceModel {
    let s1 = with_source_kind_default(s);
    let s2 = if s1.kv_ll.spec_le_zero() {
        SourceModel {
            kv_ll: match first_match(buses.map_values(|b: BusModel| b.id), s1.bus) {
                Some(i) => buses[i].kv_ll,
                None => Quantity { bits: default_source_kv_bits(s1.kind) },
            },
            ..s1
        }
    } else {
        s1
    };
    if s2.state.len() == 0 {
        SourceModel {
            state: if s2.enabled {
                "in_service"@
            } else {
                "out_of_service"@
            },
            ..s2
        }
    } else {
        SourceModel { enabled: in_service_state(s2.state), ..s2 }
    }
}

/// A quantity that is replaced by `default_bits` when it equals zero.
pub open spec fn nonzero_or(q: Quantity, default_bits: u64) -> Quantity {
    if q.spec_is_zero() {
        Quantity { bits: default_bits }
    } else {
        q
    }
}

/// The case after `normalise_defaults`.
pub open spec fn normalised_network(n: NetworkModel) -> NetworkModel {
    NetworkModel {
        frequency_hz: nonzero_or(n.frequency_hz, DEFAULT_FREQUENCY_BITS),
        prefault_voltage_pu: nonzero_or(n.prefault_voltage_pu, DEFAULT_PREFAULT_BITS),
        options: CalculationOptions {
            duty_cycles: nonzero_or(n.options.duty_cycles, DEFAULT_DUTY_CYCLES_BITS),
            ..n.options
        },
        branches: n.branches.map_values(|b: BranchModel| normalised_branch(b)),
        sources: n.sources.map_values(|s: SourceModel| normalised_source(n.buses, s)),
        ..n
    }
}

/// Voltage (kV) assumed for a source of kind `kind` when its bus gives none.
pub fn default_kv_ll_for_source_kind(kind: &str) -> (q: Quantity)
    ensures
        q.bits == default_source_kv_bits(kind@),
{
    if same_text(kind, "load") {
        Quantity::from_bits(DEFAULT_SECONDARY_KV_LL_BITS)
    } else {
        Quantity::from_bits(DEFAULT_UTILITY_KV_LL_BITS)
    }
}

/// Whether a switching state puts its element in service.
pub fn state_in_service(state: &str) -> (r: bool)
    ensures
        r == in_service_state(state@),
{
    !text_contains(state, "open") && !same_text(state, "out_of_service")
}

fn normalise_branch(b: Branch) -> (r: Branch)
    ensures
        r@ == normalised_branch(b@),
{
    let mut b = b;
    if b.kind.as_str().is_empty() {
        b.kind = default_branch_kind();
    }
    b.normalise_metadata_defaults();
    if b.state.as_str().is_empty() {
        b.state = if b.enabled {
            "normally_closed".to_string()
        } else {
            "normally_open".to_string()
        };
    } else {
        b.enabled = state_in_service(b.state.as_str());
    }
    b
}

impl Network {
    fn normalise_source(&self, s: Source) -> (r: Source)
        ensures
            r@ == normalised_source(self@.buses, s@),
    {
        let mut s = s;
        if s.kind.as_str().is_empty() {
            s.kind = default_source_kind();
        }
        if s.kv_ll.le_zero() {
            s.kv_ll = match self.bus_index(s.bus.as_str()) {
                Some(i) => self.buses[i].kv_ll,
                None => default_kv_ll_for_source_kind(s.kind.as_str()),
            };
        }
        if s.state.as_str().is_empty() {
            s.state = if s.enabled {
                "in_service".to_string()
            } else {
                "out_of_service".to_string()
            };
        } else {
            s.enabled = state_in_service(s.state.as_str());
        }
        s
    }

    /// Fills zero-valued frequency, prefault voltage and duty cycles with their defaults,
    /// defaults branch and source kinds and metadata, takes a source's voltage from its bus
    /// when it is not above zero, and reconciles every switching state with `enabled`.
    pub fn normalise_defaults(&mut self)
        ensures
            final(self)@ == normalised_network(old(self)@),
    {
        if self.frequency_hz.is_zero() {
            self.frequency_hz = Quantity::from_bits(DEFAULT_FREQUENCY_BITS);
        }
        if self.prefault_voltage_pu.is_zero() {
            self.prefault_voltage_pu = Quantity::from_bits(DEFAULT_PREFAULT_BITS);
        }
        if self.options.duty_cycles.is_zero() {
            self.options.duty_cycles = Quantity::from_bits(DEFAULT_DUTY_CYCLES_BITS);
        }
        let ghost base = self@;

        let mut pending: Vec<Branch> = Vec::new();
        std::mem::swap(&mut pending, &mut self.branches);
        let ghost orig = pending@;
        let mut done: Vec<Branch> = Vec::new();
        while pending.len() > 0
            invariant
                done.len() + pending.len() == orig.len(),
                pending@ == orig.subrange(done.len() as int, orig.len() as int),
                forall|j: int|
                    0 <= j < done.len() ==> #[trigger] done@[j]@ == normalised_branch(orig[j]@),
            decreases pending.len(),
        {
            let b = pending.remove(0);
            done.push(normalise_branch(b));
        }
        self.branches = done;

        let mut pending_sources: Vec<Source> = Vec::new();
        std::mem::swap(&mut pending_sources, &mut self.sources);
        let ghost orig_sources = pending_sources@;
        let mut done_sources: Vec<Source> = Vec::new();
        while pending_sources.len() > 0
            invariant
                done_sources.len() + pending_sources.len() == orig_sources.len(),
                pending_sources@ == orig_sources.subrange(
                    done_sources.len() as int,
                    orig_sources.len() as int,
                ),
                self@.buses == base.buses,
                forall|j: int|
                    0 <= j < done_sources.len() ==> #[trigger] done_sources@[j]@
                        == normalised_source(base.buses, orig_sources[j]@),
            decreases pending_sources.len(),
        {
            let s = pending_sources.remove(0);
            let s = self.normalise_source(s);
            done_sources.push(s);
        }
        self.sources = done_sources;
        proof {
            assert(self@.branches =~= base.branches.map_values(
                |b: BranchModel| normalised_branch(b),
            ));
            assert(self@.sources =~= base.sources.map_values(
                |s: SourceModel| normalised_source(base.buses, s),
            ));
        }
    }
}

// ---------------------------------------------------------------------------
// Laws of normalisation
// ---------------------------------------------------------------------------

proof fn lemma_default_states()
    ensures
        in_service_state("normally_closed"@),
        !in_service_state("normally_open"@),
        in_service_state("in_service"@),
        !in_service_state("out_of_service"@),
{
    reveal_strlit("normally_closed");
    reveal_strlit("normally_open");
    reveal_strlit("in_service");
    reveal_strlit("out_of_service");
    reveal_strlit("open");
    let open = "open"@;
    assert("normally_open"@.subrange(9int, 9int + open.len()) =~= open);
    assert(seq_contains("normally_open"@, open));
    assert forall|i: int|
        0 <= i && i + open.len() <= "normally_closed"@.len() implies #[trigger] "normally_closed"@.subrange(
        i,
        i + open.len(),
    ) != open by {
        let w = "normally_closed"@.subrange(i, i + 4);
        if w == open {
            assert(w[0] == 'o');
            assert(w[1] == 'p');
        }
    }
    assert forall|i: int|
        0 <= i && i + open.len() <= "in_service"@.len() implies #[trigger] "in_service"@.subrange(
        i,
        i + open.len(),
    ) != open by {
        let w = "in_service"@.subrange(i, i + 4);
        if w == open {
            assert(w[0] == 'o');
        }
    }
}

proof fn lemma_default_texts_nonempty()
    ensures
        "impedance"@.len() > 0,
        "source"@.len() > 0,
        "delta"@.len() > 0,
        "grounded_wye"@.len() > 0,
        "normally_closed"@.len() > 0,
        "normally_open"@.len() > 0,
        "in_service"@.len() > 0,
        "out_of_service"@.len() > 0,
{
    reveal_strlit("impedance");
    reveal_strlit("source");
    reveal_strlit("delta");
    reveal_strlit("grounded_wye");
    reveal_strlit("normally_closed");
    reveal_strlit("normally_open");
    reveal_strlit("in_service");
    reveal_strlit("out_of_service");
}

proof fn lemma_normalised_branch(b: BranchModel)
    ensures
        normalised_branch(b).state.len() > 0,
        normalised_branch(b).enabled == in_service_state(normalised_branch(b).state),
        normalised_branch(normalised_branch(b)) == normalised_branch(b),
{
    lemma_default_states();
    lemma_default_texts_nonempty();
    let b1 = normalised_metadata(with_branch_kind_default(b));
    let b2 = normalised_branch(b);
    assert(b2.kind.len() > 0);
    assert(with_branch_kind_default(b2) == b2);
    assert(!conductors_empty(b2.conductors));
    assert(normalised_metadata(b2) =~= b2);
}

proof fn lemma_normalised_source(buses: Seq<BusModel>, s: SourceModel)
    ensures
        normalised_source(buses, s).state.len() > 0,
        normalised_source(buses, s).enabled == in_service_state(normalised_source(buses, s).state),
        normalised_source(buses, normalised_source(buses, s)) == normalised_source(buses, s),
{
    lemma_default_states();
    lemma_default_texts_nonempty();
    let s2 = normalised_source(buses, s);
    assert(s2.kind.len() > 0);
    assert(with_source_kind_default(s2) == s2);
    let default_kv = Quantity { bits: default_source_kv_bits(s2.kind) };
    assert(default_kv.bits == DEFAULT_SECONDARY_KV_LL_BITS || default_kv.bits
        == DEFAULT_UTILITY_KV_LL_BITS);
    assert(!(Quantity { bits: DEFAULT_SECONDARY_KV_LL_BITS }).spec_le_zero()) by (bit_vector);
    assert(!(Quantity { bits: DEFAULT_UTILITY_KV_LL_BITS }).spec_le_zero()) by (bit_vector);
}

/// After `normalise_defaults`, every branch and every source has a non-empty switching
/// state, and its `enabled` flag is exactly what that state means.
pub proof fn lemma_normalised_states_agree(n: NetworkModel)
    ensures
        forall|i: int|
            0 <= i < normalised_network(n).branches.len() ==> {
                let b = #[trigger] normalised_network(n).branches[i];
                b.state.len() > 0 && b.enabled == in_service_state(b.state)
            },
        forall|i: int|
            0 <= i < normalised_network(n).sources.len() ==> {
                let s = #[trigger] normalised_network(n).sources[i];
                s.state.len() > 0 && s.enabled == in_service_state(s.state)
            },
{
    assert forall|i: int| 0 <= i < normalised_network(n).branches.len() implies {
        let b = #[trigger] normalised_network(n).branches[i];
        b.state.len() > 0 && b.enabled == in_service_state(b.state)
    } by {
        lemma_normalised_branch(n.branches[i]);
    }
    assert forall|i: int| 0 <= i < normalised_network(n).sources.len() implies {
        let s = #[trigger] normalised_network(n).sources[i];
        s.state.len() > 0 && s.enabled == in_service_state(s.state)
    } by {
        lemma_normalised_source(n.buses, n.sources[i]);
    }
}

/// Filling a branch's metadata defaults only fills what is missing: a branch keeps its
/// identity, kind, ends, state, impedances and ratings; a connection, a non-zero vector
/// shift and a non-empty conductor list that it has are kept; only a transformer gets
/// default connections (delta primary, grounded-wye secondary) and a vector shift, which is
/// -30 degrees from delta to a non-delta secondary, +30 from a non-delta primary to delta,
/// and zero otherwise; a branch without conductors gets phases A, B, C, ground EGC and
/// bond BOND, with neutral "X0/N" on a transformer whose secondary is not delta, none on
/// one whose secondary is delta, and "N" on any other branch.
pub proof fn lemma_metadata_fills_only_missing(b: BranchModel)
    ensures
        ({
            let m = normalised_metadata(b);
            let is_tx = b.kind == "transformer"@;
            &&& m.id == b.id && m.kind == b.kind && m.name == b.name && m.from == b.from && m.to
                == b.to && m.state == b.state && m.enabled == b.enabled && m.has_z0 == b.has_z0
            &&& m.z1_pu == b.z1_pu && m.z2_pu == b.z2_pu && m.z0_pu == b.z0_pu
            &&& m.rating_a == b.rating_a && m.rating_kva == b.rating_kva && m.notes == b.notes
            &&& (b.primary_connection.len() > 0 || !is_tx) ==> m.primary_connection
                == b.primary_connection
            &&& (b.secondary_connection.len() > 0 || !is_tx) ==> m.secondary_connection
                == b.secondary_connection
            &&& is_tx && b.primary_connection.len() == 0 ==> m.primary_connection == "delta"@
            &&& is_tx && b.secondary_connection.len() == 0 ==> m.secondary_connection
                == "grounded_wye"@
            &&& (!is_tx || !b.vector_shift_deg.spec_is_zero()) ==> m.vector_shift_deg
                == b.vector_shift_deg
            &&& is_tx && b.vector_shift_deg.spec_is_zero() ==> m.vector_shift_deg.bits == (if m.primary_connection
                == "delta"@ && m.secondary_connection != "delta"@ {
                MINUS_THIRTY_BITS
            } else if m.primary_connection != "delta"@ && m.secondary_connection == "delta"@ {
                PLUS_THIRTY_BITS
            } else {
                0
            })
            &&& (b.conductors.phases.len() > 0 || b.conductors.neutral.len() > 0
                || b.conductors.ground.len() > 0 || b.conductors.bond.len() > 0
                || b.conductors.other.len() > 0) ==> m.conductors == b.conductors
            &&& (b.conductors.phases.len() == 0 && b.conductors.neutral.len() == 0
                && b.conductors.ground.len() == 0 && b.conductors.bond.len() == 0
                && b.conductors.other.len() == 0) ==> {
                &&& m.conductors.phases == seq!["A"@, "B"@, "C"@]
                &&& m.conductors.ground == seq!["EGC"@]
                &&& m.conductors.bond == seq!["BOND"@]
                &&& m.conductors.other.len() == 0
                &&& m.conductors.neutral == (if is_tx && m.secondary_connection == "delta"@ {
                    Seq::empty()
                } else if is_tx {
                    seq!["X0/N"@]
                } else {
                    seq!["N"@]
                })
            }
        }),
{
}

/// Normalising fills zero values: a frequency, prefault voltage or duty time that is zero
/// becomes 60 Hz, 1.0 per unit or 0.5 cycles, and any other value is kept. A source whose
/// voltage is not above zero takes the voltage of the first bus with its bus identifier;
/// when there is no such bus it takes 0.6 kV for a load and the default utility voltage
/// for any other kind.
pub proof fn lemma_normalise_fills_values(n: NetworkModel)
    ensures
        n.frequency_hz.spec_is_zero() ==> normalised_network(n).frequency_hz.bits
            == DEFAULT_FREQUENCY_BITS,
        !n.frequency_hz.spec_is_zero() ==> normalised_network(n).frequency_hz == n.frequency_hz,
        n.prefault_voltage_pu.spec_is_zero() ==> normalised_network(n).prefault_voltage_pu.bits
            == DEFAULT_PREFAULT_BITS,
        !n.prefault_voltage_pu.spec_is_zero() ==> normalised_network(n).prefault_voltage_pu
            == n.prefault_voltage_pu,
        n.options.duty_cycles.spec_is_zero() ==> normalised_network(n).options.duty_cycles.bits
            == DEFAULT_DUTY_CYCLES_BITS,
        !n.options.duty_cycles.spec_is_zero() ==> normalised_network(n).options.duty_cycles
            == n.options.duty_cycles,
        normalised_network(n).options.fault_r_ohm == n.options.fault_r_ohm,
        normalised_network(n).options.fault_x_ohm == n.options.fault_x_ohm,
        normalised_network(n).base_mva == n.base_mva,
        forall|i: int|
            0 <= i < n.sources.len() && n.sources[i].kv_ll.spec_le_zero() ==> {
                let s = n.sources[i];
                let m = #[trigger] normalised_network(n).sources[i];
                &&& n.bus_position(s.bus) matches Some(j) ==> m.kv_ll == n.buses[j].kv_ll
                &&& n.bus_position(s.bus) is None && s.kind == "load"@ ==> m.kv_ll.bits
                    == DEFAULT_SECONDARY_KV_LL_BITS
                &&& n.bus_position(s.bus) is None && s.kind != "load"@ ==> m.kv_ll.bits
                    == DEFAULT_UTILITY_KV_LL_BITS
            },
{
    reveal_strlit("load");
    reveal_strlit("source");
    assert("source"@ != "load"@) by {
        assert("source"@.len() != "load"@.len());
    }
}

/// Normalising a case keeps its buses and the identity, kind (when it has one), ends and
/// switching state of every branch and source. An element with a state gets the `enabled`
/// flag that its state means: in service unless the state mentions "open" or is
/// "out_of_service". An element without a state keeps its flag and gets the state that
/// says it: "normally_closed" or "normally_open" for a branch, "in_service" or
/// "out_of_service" for a source. A source whose voltage is above zero keeps it.
pub proof fn lemma_normalise_keeps_states(n: NetworkModel)
    ensures
        normalised_network(n).buses == n.buses,
        normalised_network(n).branches.len() == n.branches.len(),
        normalised_network(n).sources.len() == n.sources.len(),
        forall|i: int|
            0 <= i < n.branches.len() ==> {
                let b = n.branches[i];
                let m = #[trigger] normalised_network(n).branches[i];
                &&& m.id == b.id && m.from == b.from && m.to == b.to
                &&& b.kind.len() > 0 ==> m.kind == b.kind
                &&& b.kind.len() == 0 ==> m.kind == "impedance"@
                &&& b.state.len() > 0 ==> m.state == b.state && m.enabled == (!seq_contains(
                    b.state,
                    "open"@,
                ) && b.state != "out_of_service"@)
                &&& b.state.len() == 0 ==> m.enabled == b.enabled && m.state == (if b.enabled {
                    "normally_closed"@
                } else {
                    "normally_open"@
                })
            },
        forall|i: int|
            0 <= i < n.sources.len() ==> {
                let s = n.sources[i];
                let m = #[trigger] normalised_network(n).sources[i];
                &&& m.id == s.id && m.bus == s.bus
                &&& s.kind.len() > 0 ==> m.kind == s.kind
                &&& s.kind.len() == 0 ==> m.kind == "source"@
                &&& !s.kv_ll.spec_le_zero() ==> m.kv_ll == s.kv_ll
                &&& s.state.len() > 0 ==> m.state == s.state && m.enabled == (!seq_contains(
                    s.state,
                    "open"@,
                ) && s.state != "out_of_service"@)
                &&& s.state.len() == 0 ==> m.enabled == s.enabled && m.state == (if s.enabled {
                    "in_service"@
                } else {
                    "out_of_service"@
                })
            },
{
}

/// Normalising a case twice gives the same case as normalising it once.
pub proof fn lemma_normalise_idempotent(n: NetworkModel)
    ensures
        normalised_network(normalised_network(n)) == normalised_network(n),
{
    let n1 = normalised_network(n);
    let n2 = normalised_network(n1);
    assert(!(Quantity { bits: DEFAULT_FREQUENCY_BITS }).spec_is_zero()) by (bit_vector);
    assert(!(Quantity { bits: DEFAULT_PREFAULT_BITS }).spec_is_zero()) by (bit_vector);
    assert(!(Quantity { bits: DEFAULT_DUTY_CYCLES_BITS }).spec_is_zero()) by (bit_vector);
    assert forall|i: int| 0 <= i < n1.branches.len() implies n2.branches[i] == n1.branches[i] by {
        lemma_normalised_branch(n.branches[i]);
    }
    assert forall|i: int| 0 <= i < n1.sources.len() implies n2.sources[i] == n1.sources[i] by {
        lemma_normalised_source(n.buses, n.sources[i]);
    }
    assert(n2.branches =~= n1.branches);
    assert(n2.sources =~= n1.sources);
    assert(n2.options == n1.options);
    assert(n2 =~= n1);
}

// ---------------------------------------------------------------------------
// Validation
// ---------------------------------------------------------------------------

/// Outcomes of the magnitude tests that validation makes with floating-point arithmetic,
/// one entry per branch or per source of the case, in order.
#[derive(Clone, Debug)]
pub struct MagnitudeChecks {
    /// The branch's positive- or negative-sequence impedance has magnitude below 1e-14.
    pub branch_negligible_z: Vec<bool>,
    /// The source's positive- or negative-sequence impedance has magnitude below 1e-14.
    pub source_negligible_z: Vec<bool>,
    /// The source's voltage differs by more than 1e-9 kV from that of the first bus
    /// whose identifier is the source's bus.
    pub source_kv_mismatch: Vec<bool>,
}

pub struct MagnitudeModel {
    pub branch_negligible_z: Seq<bool>,
    pub source_negligible_z: Seq<bool>,
    pub source_kv_mismatch: Seq<bool>,
}

impl View for MagnitudeChecks {
    type V = MagnitudeModel;

    open spec fn view(&self) -> MagnitudeModel {
        MagnitudeModel {
            branch_negligible_z: self.branch_negligible_z@,
            source_negligible_z: self.source_negligible_z@,
            source_kv_mismatch: self.source_kv_mismatch@,
        }
    }
}

/// The checks hold one entry per branch and per source of `n`.
pub open spec fn checks_fit(n: NetworkModel, c: MagnitudeModel) -> bool {
    c.branch_negligible_z.len() == n.branches.len() && c.source_negligible_z.len()
        == n.sources.len() && c.source_kv_mismatch.len() == n.sources.len()
}

/// The first error of a list of checks made in turn.
pub open spec fn first_error(errs: Seq<Option<Seq<char>>>) -> Option<Seq<char>>
    decreases errs.len(),
{
    if errs.len() == 0 {
        None
    } else {
        match first_error(errs.drop_last()) {
            Some(e) => Some(e),
            None => errs.last(),
        }
    }
}

/// What is wrong with bus `i`, given that every earlier bus passed.
pub open spec fn bus_error(buses: Seq<BusModel>, i: int) -> Option<Seq<char>> {
    let b = buses[i];
    if is_blank_seq(b.id) {
        Some("bus id cannot be blank"@)
    } else if exists|j: int| 0 <= j < i && #[trigger] buses[j].id == b.id {
        Some("duplicate bus id "@ + b.id)
    } else if b.kv_ll.spec_le_zero() {
        Some("bus "@ + b.id + " has non-positive kv_ll"@)
    } else {
        None
    }
}

/// What is wrong with branch `k`; disabled branches are not checked.
pub open spec fn branch_error(n: NetworkModel, c: MagnitudeModel, k: int) -> Option<Seq<char>> {
    let b = n.branches[k];
    if !b.enabled {
        None
    } else if n.bus_position(b.from) is None || n.bus_position(b.to) is None {
        Some("branch "@ + b.id + " references a missing bus"@)
    } else if b.from == b.to {
        Some("branch "@ + b.id + " connects a bus to itself"@)
    } else if c.branch_negligible_z[k] {
        Some("branch "@ + b.id + " has near-zero positive or negative sequence impedance"@)
    } else {
        None
    }
}

/// What is wrong with source `k`; disabled sources are not checked.
pub open spec fn source_error(n: NetworkModel, c: MagnitudeModel, k: int) -> Option<Seq<char>> {
    let s = n.sources[k];
    if !s.enabled {
        None
    } else if n.bus_position(s.bus) is None {
        Some("source "@ + s.id + " references a missing bus"@)
    } else if s.kv_ll.spec_le_zero() {
        Some("source "@ + s.id + " has non-positive kv_ll"@)
    } else if c.source_kv_mismatch[k] {
        Some("source "@ + s.id + " voltage rating does not match bus "@ + s.bus)
    } else if c.source_negligible_z[k] {
        Some("source "@ + s.id + " has near-zero positive or negative sequence impedance"@)
    } else {
        None
    }
}

pub open spec fn bus_errors(n: NetworkModel) -> Seq<Option<Seq<char>>> {
    Seq::new(n.buses.len(), |i: int| bus_error(n.buses, i))
}

pub open spec fn branch_errors(n: NetworkModel, c: MagnitudeModel) -> Seq<Option<Seq<char>>> {
    Seq::new(n.branches.len(), |k: int| branch_error(n, c, k))
}

pub open spec fn source_errors(n: NetworkModel, c: MagnitudeModel) -> Seq<Option<Seq<char>>> {
    Seq::new(n.sources.len(), |k: int| source_error(n, c, k))
}

/// Some source is enabled.
pub open spec fn has_enabled_source(n: NetworkModel) -> bool {
    exists|k: int| 0 <= k < n.sources.len() && #[trigger] n.sources[k].enabled
}

/// The error that validation reports for a case, or `None` when the case is valid: the
/// system checks, then every bus, every enabled branch and every enabled source in order.
pub open spec fn validation_error(n: NetworkModel, c: MagnitudeModel) -> Option<Seq<char>> {
    if n.base_mva.spec_le_zero() {
        Some("base_mva must be positive"@)
    } else if n.frequency_hz.spec_le_zero() {
        Some("frequency_hz must be positive"@)
    } else if n.prefault_voltage_pu.spec_le_zero() {
        Some("prefault_voltage_pu must be positive"@)
    } else if n.buses.len() == 0 {
        Some("network has no buses"@)
    } else if !has_enabled_source(n) {
        Some("network has no enabled sources"@)
    } else if first_error(bus_errors(n)) is Some {
        first_error(bus_errors(n))
    } else if first_error(branch_errors(n, c)) is Some {
        first_error(branch_errors(n, c))
    } else {
        first_error(source_errors(n, c))
    }
}

proof fn lemma_first_error_step(errs: Seq<Option<Seq<char>>>, i: int)
    requires
        0 <= i < errs.len(),
        first_error(errs.take(i)) is None,
    ensures
        first_error(errs.take(i + 1)) == errs[i],
{
    assert(errs.take(i + 1).drop_last() =~= errs.take(i));
}

proof fn lemma_first_error_prefix(errs: Seq<Option<Seq<char>>>, i: int)
    requires
        0 <= i < errs.len(),
        first_error(errs.take(i)) is None,
        errs[i] is Some,
    ensures
        first_error(errs) == errs[i],
    decreases errs.len(),
{
    if i + 1 == errs.len() {
        assert(errs.take(i + 1) =~= errs);
        lemma_first_error_step(errs, i);
    } else {
        assert(errs.drop_last().take(i) =~= errs.take(i));
        lemma_first_error_prefix(errs.drop_last(), i);
    }
}

impl Network {
    fn has_enabled_source(&self) -> (r: bool)
        ensures
            r == has_enabled_source(self@),
    {
        let mut k: usize = 0;
        while k < self.sources.len()
            invariant
                k <= self.sources.len(),
                forall|j: int| 0 <= j < k ==> !(#[trigger] self@.sources[j]).enabled,
            decreases self.sources.len() - k,
        {
            if self.sources[k].enabled {
                assert(self@.sources[k as int].enabled);
                return true;
            }
            k = k + 1;
        }
        false
    }

    fn check_bus(&self, i: usize) -> (r: Option<String>)
        requires
            i < self.buses.len(),
        ensures
            match r {
                Some(m) => bus_error(self@.buses, i as int) == Some(m@),
                None => bus_error(self@.buses, i as int) is None,
            },
    {
        let b = &self.buses[i];
        if is_blank(b.id.as_str()) {
            return Some("bus id cannot be blank".to_string());
        }
        let mut j: usize = 0;
        while j < i
            invariant
                i < self.buses.len(),
                b == self.buses[i as int],
                !is_blank_seq(self@.buses[i as int].id),
                j <= i,
                forall|k: int| 0 <= k < j ==> self@.buses[k].id != b.id@,
            decreases i - j,
        {
            if self.buses[j].id == b.id {
                assert(self@.buses[j as int].id == self@.buses[i as int].id);
                assert(exists|jj: int|
                    0 <= jj < i && #[trigger] self@.buses[jj].id == self@.buses[i as int].id);
                return Some(join2("duplicate bus id ", b.id.as_str()));
            }
            j = j + 1;
        }
        if b.kv_ll.le_zero() {
            return Some(join3("bus ", b.id.as_str(), " has non-positive kv_ll"));
        }
        None
    }

    fn check_branch(&self, checks: &MagnitudeChecks, k: usize) -> (r: Option<String>)
        requires
            k < self.branches.len(),
            checks_fit(self@, checks@),
        ensures
            match r {
                Some(m) => branch_error(self@, checks@, k as int) == Some(m@),
                None => branch_error(self@, checks@, k as int) is None,
            },
    {
        let br = &self.branches[k];
        if !br.enabled {
            return None;
        }
        if self.bus_index(br.from.as_str()).is_none() || self.bus_index(br.to.as_str()).is_none() {
            return Some(join3("branch ", br.id.as_str(), " references a missing bus"));
        }
        if br.from == br.to {
            return Some(join3("branch ", br.id.as_str(), " connects a bus to itself"));
        }
        if checks.branch_negligible_z[k] {
            return Some(
                join3(
                    "branch ",
                    br.id.as_str(),
                    " has near-zero positive or negative sequence impedance",
                ),
            );
        }
        None
    }

    fn check_source(&self, checks: &MagnitudeChecks, k: usize) -> (r: Option<String>)
        requires
            k < self.sources.len(),
            checks_fit(self@, checks@),
        ensures
            match r {
                Some(m) => source_error(self@, checks@, k as int) == Some(m@),
                None => source_error(self@, checks@, k as int) is None,
            },
    {
        let s = &self.sources[k];
        if !s.enabled {
            return None;
        }
        if self.bus_index(s.bus.as_str()).is_none() {
            return Some(join3("source ", s.id.as_str(), " references a missing bus"));
        }
        if s.kv_ll.le_zero() {
            return Some(join3("source ", s.id.as_str(), " has non-positive kv_ll"));
        }
        if checks.source_kv_mismatch[k] {
            return Some(
                join4("source ", s.id.as_str(), " voltage rating does not match bus ", s.bus.as_str()),
            );
        }
        if checks.source_negligible_z[k] {
            return Some(
                join3(
                    "source ",
                    s.id.as_str(),
                    " has near-zero positive or negative sequence impedance",
                ),
            );
        }
        None
    }

    /// Checks that the case can be solved: a positive system base, frequency and prefault
    /// voltage, at least one bus and one enabled source, well-formed buses, and enabled
    /// branches and sources that reference existing buses with usable impedances. The
    /// magnitude tests that need floating-point arithmetic come in `checks`. Returns the
    /// first failure found, in that order.
    pub fn validate(&self, checks: &MagnitudeChecks) -> (r: Result<(), FaultCalcError>)
        requires
            checks_fit(self@, checks@),
        ensures
            r is Ok <==> validation_error(self@, checks@) is None,
            r matches Err(e) ==> validation_error(self@, checks@) == Some(e.message@),
    {
        if self.base_mva.le_zero() {
            return Err(FaultCalcError::new("base_mva must be positive"));
        }
        if self.frequency_hz.le_zero() {
            return Err(FaultCalcError::new("frequency_hz must be positive"));
        }
        if self.prefault_voltage_pu.le_zero() {
            return Err(FaultCalcError::new("prefault_voltage_pu must be positive"));
        }
        if self.buses.len() == 0 {
            return Err(FaultCalcError::new("network has no buses"));
        }
        if !self.has_enabled_source() {
            return Err(FaultCalcError::new("network has no enabled sources"));
        }
        let ghost bus_errs = bus_errors(self@);
        let mut i: usize = 0;
        while i < self.buses.len()
            invariant
                i <= self.buses.len(),
                bus_errs == bus_errors(self@),
                !self@.base_mva.spec_le_zero(),
                !self@.frequency_hz.spec_le_zero(),
                !self@.prefault_voltage_pu.spec_le_zero(),
                self@.buses.len() > 0,
                has_enabled_source(self@),
                first_error(bus_errs.take(i as int)) is None,
            decreases self.buses.len() - i,
        {
            let e = self.check_bus(i);
            proof {
                lemma_first_error_step(bus_errs, i as int);
                assert(bus_errs[i as int] == bus_error(self@.buses, i as int));
            }
            if let Some(m) = e {
                proof {
                    lemma_first_error_prefix(bus_errs, i as int);
                }
                return Err(error_with(m));
            }
            i = i + 1;
        }
        assert(bus_errs.take(i as int) =~= bus_errs);
        let ghost branch_errs = branch_errors(self@, checks@);
        let mut k: usize = 0;
        while k < self.branches.len()
            invariant
                k <= self.branches.len(),
                checks_fit(self@, checks@),
                branch_errs == branch_errors(self@, checks@),
                !self@.base_mva.spec_le_zero(),
                !self@.frequency_hz.spec_le_zero(),
                !self@.prefault_voltage_pu.spec_le_zero(),
                self@.buses.len() > 0,
                has_enabled_source(self@),
                first_error(bus_errors(self@)) is None,
                first_error(branch_errs.take(k as int)) is None,
            decreases self.branches.len() - k,
        {
            let e = self.check_branch(checks, k);
            proof {
                lemma_first_error_step(branch_errs, k as int);
                assert(branch_errs[k as int] == branch_error(self@, checks@, k as int));
            }
            if let Some(m) = e {
                proof {
                    lemma_first_error_prefix(branch_errs, k as int);
                }
                return Err(error_with(m));
            }
            k = k + 1;
        }
        assert(branch_errs.take(k as int) =~= branch_errs);
        let ghost source_errs = source_errors(self@, checks@);
        let mut k: usize = 0;
        while k < self.sources.len()
            invariant
                k <= self.sources.len(),
                checks_fit(self@, checks@),
                source_errs == source_errors(self@, checks@),
                !self@.base_mva.spec_le_zero(),
                !self@.frequency_hz.spec_le_zero(),
                !self@.prefault_voltage_pu.spec_le_zero(),
                self@.buses.len() > 0,
                has_enabled_source(self@),
                first_error(bus_errors(self@)) is None,
                first_error(branch_errors(self@, checks@)) is None,
                first_error(source_errs.take(k as int)) is None,
            decreases self.sources.len() - k,
        {
            let e = self.check_source(checks, k);
            proof {
                lemma_first_error_step(source_errs, k as int);
                assert(source_errs[k as int] == source_error(self@, checks@, k as int));
            }
            if let Some(m) = e {
                proof {
                    lemma_first_error_prefix(source_errs, k as int);
                }
                return Err(error_with(m));
            }
            k = k + 1;
        }
        assert(source_errs.take(k as int) =~= source_errs);
        Ok(())
    }
}

proof fn lemma_first_error_none(errs: Seq<Option<Seq<char>>>)
    requires
        first_error(errs) is None,
    ensures
        forall|i: int| 0 <= i < errs.len() ==> errs[i] is None,
    decreases errs.len(),
{
    if errs.len() > 0 {
        lemma_first_error_none(errs.drop_last());
        assert forall|i: int| 0 <= i < errs.len() implies errs[i] is None by {
            if i < errs.len() - 1 {
                assert(errs[i] == errs.drop_last()[i]);
            }
        }
    }
}

proof fn lemma_first_error_all_none(errs: Seq<Option<Seq<char>>>)
    requires
        forall|i: int| 0 <= i < errs.len() ==> errs[i] is None,
    ensures
        first_error(errs) is None,
    decreases errs.len(),
{
    if errs.len() > 0 {
        let front = errs.drop_last();
        assert forall|i: int| 0 <= i < front.len() implies front[i] is None by {
            assert(front[i] == errs[i]);
        }
        lemma_first_error_all_none(front);
        assert(errs.last() == errs[errs.len() - 1]);
    }
}

/// The case-wide checks of validation come first, in this order, each with its message: a
/// base, then a frequency, then a prefault voltage that is not above zero, then a case
/// without buses, then one without an enabled source.
pub proof fn lemma_case_wide_checks_first(n: NetworkModel, c: MagnitudeModel)
    ensures
        n.base_mva.spec_le_zero() ==> validation_error(n, c) == Some("base_mva must be positive"@),
        !n.base_mva.spec_le_zero() && n.frequency_hz.spec_le_zero() ==> validation_error(n, c)
            == Some("frequency_hz must be positive"@),
        !n.base_mva.spec_le_zero() && !n.frequency_hz.spec_le_zero()
            && n.prefault_voltage_pu.spec_le_zero() ==> validation_error(n, c) == Some(
            "prefault_voltage_pu must be positive"@,
        ),
        !n.base_mva.spec_le_zero() && !n.frequency_hz.spec_le_zero()
            && !n.prefault_voltage_pu.spec_le_zero() && n.buses.len() == 0 ==> validation_error(
            n,
            c,
        ) == Some("network has no buses"@),
        !n.base_mva.spec_le_zero() && !n.frequency_hz.spec_le_zero()
            && !n.prefault_voltage_pu.spec_le_zero() && n.buses.len() > 0 && (forall|k: int|
            0 <= k < n.sources.len() ==> !(#[trigger] n.sources[k]).enabled) ==> validation_error(
            n,
            c,
        ) == Some("network has no enabled sources"@),
{
}

/// A case passes validation when its base, frequency and prefault voltage are above zero,
/// it has a bus and an enabled source, its bus identifiers are non-blank and pairwise
/// distinct with voltages above zero, every enabled branch joins two different existing
/// buses with impedances that are not negligible, and every enabled source is at an
/// existing bus, has a voltage above zero that matches its bus and an impedance that is
/// not negligible. With the law above, these are exactly the cases that pass.
pub proof fn lemma_sound_case_is_valid(n: NetworkModel, c: MagnitudeModel)
    requires
        checks_fit(n, c),
        !n.base_mva.spec_le_zero(),
        !n.frequency_hz.spec_le_zero(),
        !n.prefault_voltage_pu.spec_le_zero(),
        n.buses.len() > 0,
        exists|k: int| 0 <= k < n.sources.len() && #[trigger] n.sources[k].enabled,
        forall|i: int|
            0 <= i < n.buses.len() ==> !is_blank_seq(#[trigger] n.buses[i].id)
                && !n.buses[i].kv_ll.spec_le_zero(),
        forall|i: int, j: int|
            0 <= i < j < n.buses.len() ==> #[trigger] n.buses[i].id != #[trigger] n.buses[j].id,
        forall|k: int|
            0 <= k < n.branches.len() && (#[trigger] n.branches[k]).enabled ==> n.bus_position(
                n.branches[k].from,
            ) is Some && n.bus_position(n.branches[k].to) is Some && n.branches[k].from
                != n.branches[k].to && !c.branch_negligible_z[k],
        forall|k: int|
            0 <= k < n.sources.len() && (#[trigger] n.sources[k]).enabled ==> n.bus_position(
                n.sources[k].bus,
            ) is Some && !n.sources[k].kv_ll.spec_le_zero() && !c.source_kv_mismatch[k]
                && !c.source_negligible_z[k],
    ensures
        validation_error(n, c) is None,
{
    assert forall|i: int| 0 <= i < bus_errors(n).len() implies bus_errors(n)[i] is None by {
        assert(!is_blank_seq(n.buses[i].id));
        if exists|j: int| 0 <= j < i && #[trigger] n.buses[j].id == n.buses[i].id {
            let j = choose|j: int| 0 <= j < i && #[trigger] n.buses[j].id == n.buses[i].id;
            assert(n.buses[j].id != n.buses[i].id);
        }
    }
    lemma_first_error_all_none(bus_errors(n));
    assert forall|k: int| 0 <= k < branch_errors(n, c).len() implies branch_errors(n, c)[k] is None by {
        if n.branches[k].enabled {
        }
    }
    lemma_first_error_all_none(branch_errors(n, c));
    assert forall|k: int| 0 <= k < source_errors(n, c).len() implies source_errors(n, c)[k] is None by {
        if n.sources[k].enabled {
        }
    }
    lemma_first_error_all_none(source_errors(n, c));
}

/// A case that passes validation has a positive base, frequency and prefault voltage,
/// at least one bus and one enabled source, bus identifiers that are non-blank and
/// pairwise distinct with voltages above zero, enabled branches joining two different
/// existing buses, and enabled sources at existing buses with voltages above zero.
pub proof fn lemma_valid_case(n: NetworkModel, c: MagnitudeModel)
    requires
        checks_fit(n, c),
        validation_error(n, c) is None,
    ensures
        !n.base_mva.spec_le_zero(),
        !n.frequency_hz.spec_le_zero(),
        !n.prefault_voltage_pu.spec_le_zero(),
        n.buses.len() > 0,
        has_enabled_source(n),
        forall|i: int|
            0 <= i < n.buses.len() ==> !is_blank_seq(#[trigger] n.buses[i].id)
                && !n.buses[i].kv_ll.spec_le_zero(),
        forall|i: int, j: int|
            0 <= i < j < n.buses.len() ==> #[trigger] n.buses[i].id != #[trigger] n.buses[j].id,
        forall|k: int|
            0 <= k < n.branches.len() && (#[trigger] n.branches[k]).enabled ==> n.bus_position(
                n.branches[k].from,
            ) is Some && n.bus_position(n.branches[k].to) is Some && n.branches[k].from
                != n.branches[k].to && !c.branch_negligible_z[k],
        forall|k: int|
            0 <= k < n.sources.len() && (#[trigger] n.sources[k]).enabled ==> n.bus_position(
                n.sources[k].bus,
            ) is Some && !n.sources[k].kv_ll.spec_le_zero() && !c.source_kv_mismatch[k]
                && !c.source_negligible_z[k],
{
    lemma_first_error_none(bus_errors(n));
    lemma_first_error_none(branch_errors(n, c));
    lemma_first_error_none(source_errors(n, c));
    assert forall|i: int| 0 <= i < n.buses.len() implies !is_blank_seq(#[trigger] n.buses[i].id)
        && !n.buses[i].kv_ll.spec_le_zero() by {
        assert(bus_errors(n)[i] is None);
    }
    assert forall|i: int, j: int| 0 <= i < j < n.buses.len() implies #[trigger] n.buses[i].id
        != #[trigger] n.buses[j].id by {
        assert(bus_errors(n)[j] is None);
    }
    assert forall|k: int| 0 <= k < n.branches.len() && (#[trigger] n.branches[k]).enabled implies n.bus_position(
        n.branches[k].from,
    ) is Some && n.bus_position(n.branches[k].to) is Some && n.branches[k].from
        != n.branches[k].to && !c.branch_negligible_z[k] by {
        assert(branch_errors(n, c)[k] is None);
    }
    assert forall|k: int| 0 <= k < n.sources.len() && (#[trigger] n.sources[k]).enabled implies n.bus_position(
        n.sources[k].bus,
    ) is Some && !n.sources[k].kv_ll.spec_le_zero() && !c.source_kv_mismatch[k]
        && !c.source_negligible_z[k] by {
        assert(source_errors(n, c)[k] is None);
    }
}

// ---------------------------------------------------------------------------
// Disabled equipment and validation
// ---------------------------------------------------------------------------

/// The entries of `s` whose flag in `keep` is set, in order (`s` and `keep` are read
/// from their ends, position by position).
pub open spec fn kept<A>(s: Seq<A>, keep: Seq<bool>) -> Seq<A>
    decreases s.len(),
{
    if s.len() == 0 || keep.len() == 0 {
        Seq::empty()
    } else {
        kept(s.drop_last(), keep.drop_last()) + if keep.last() {
            seq![s.last()]
        } else {
            Seq::empty()
        }
    }
}

proof fn lemma_kept_len<A, B>(s: Seq<A>, t: Seq<B>, keep: Seq<bool>)
    requires
        s.len() == keep.len(),
        t.len() == keep.len(),
    ensures
        kept(s, keep).len() == kept(t, keep).len(),
        kept(s, keep).len() <= s.len(),
    decreases s.len(),
{
    if s.len() > 0 {
        lemma_kept_len(s.drop_last(), t.drop_last(), keep.drop_last());
    }
}

proof fn lemma_kept_step<A>(s: Seq<A>, keep: Seq<bool>)
    requires
        s.len() == keep.len(),
        s.len() > 0,
    ensures
        keep.last() ==> kept(s, keep).len() > 0 && kept(s, keep).drop_last() == kept(
            s.drop_last(),
            keep.drop_last(),
        ) && kept(s, keep).last() == s.last(),
        !keep.last() ==> kept(s, keep) == kept(s.drop_last(), keep.drop_last()),
{
    let prev = kept(s.drop_last(), keep.drop_last());
    if keep.last() {
        assert((prev + seq![s.last()]).drop_last() =~= prev);
    } else {
        assert(prev + Seq::<A>::empty() =~= prev);
    }
}

/// What validation reports about a branch, on the buses `buses`.
pub open spec fn branch_check(buses: Seq<BusModel>, b: BranchModel, negligible_z: bool) -> Option<
    Seq<char>,
> {
    let ids = buses.map_values(|x: BusModel| x.id);
    if !b.enabled {
        None
    } else if first_match(ids, b.from) is None || first_match(ids, b.to) is None {
        Some("branch "@ + b.id + " references a missing bus"@)
    } else if b.from == b.to {
        Some("branch "@ + b.id + " connects a bus to itself"@)
    } else if negligible_z {
        Some("branch "@ + b.id + " has near-zero positive or negative sequence impedance"@)
    } else {
        None
    }
}

/// What validation reports about a source, on the buses `buses`.
pub open spec fn source_check(
    buses: Seq<BusModel>,
    s: SourceModel,
    kv_mismatch: bool,
    negligible_z: bool,
) -> Option<Seq<char>> {
    let ids = buses.map_values(|x: BusModel| x.id);
    if !s.enabled {
        None
    } else if first_match(ids, s.bus) is None {
        Some("source "@ + s.id + " references a missing bus"@)
    } else if s.kv_ll.spec_le_zero() {
        Some("source "@ + s.id + " has non-positive kv_ll"@)
    } else if kv_mismatch {
        Some("source "@ + s.id + " voltage rating does not match bus "@ + s.bus)
    } else if negligible_z {
        Some("source "@ + s.id + " has near-zero positive or negative sequence impedance"@)
    } else {
        None
    }
}

/// The first report about branches `bs` (with their impedance tests `neg`).
pub open spec fn first_branch_error(buses: Seq<BusModel>, bs: Seq<BranchModel>, neg: Seq<bool>) -> Option<
    Seq<char>,
>
    decreases bs.len(),
{
    if bs.len() == 0 {
        None
    } else {
        match first_branch_error(buses, bs.drop_last(), neg.drop_last()) {
            Some(e) => Some(e),
            None => branch_check(buses, bs.last(), neg.last()),
        }
    }
}

/// The first report about sources `ss` (with their voltage and impedance tests).
pub open spec fn first_source_error(
    buses: Seq<BusModel>,
    ss: Seq<SourceModel>,
    mis: Seq<bool>,
    neg: Seq<bool>,
) -> Option<Seq<char>>
    decreases ss.len(),
{
    if ss.len() == 0 {
        None
    } else {
        match first_source_error(buses, ss.drop_last(), mis.drop_last(), neg.drop_last()) {
            Some(e) => Some(e),
            None => source_check(buses, ss.last(), mis.last(), neg.last()),
        }
    }
}

/// Some source of `ss` is enabled.
pub open spec fn some_enabled(ss: Seq<SourceModel>) -> bool
    decreases ss.len(),
{
    ss.len() > 0 && (ss.last().enabled || some_enabled(ss.drop_last()))
}

proof fn lemma_some_enabled(ss: Seq<SourceModel>)
    ensures
        some_enabled(ss) <==> exists|k: int| 0 <= k < ss.len() && #[trigger] ss[k].enabled,
    decreases ss.len(),
{
    if ss.len() > 0 {
        let front = ss.drop_last();
        lemma_some_enabled(front);
        if some_enabled(front) {
            let k = choose|k: int| 0 <= k < front.len() && #[trigger] front[k].enabled;
            assert(ss[k] == front[k]);
        }
        if exists|k: int| 0 <= k < ss.len() && #[trigger] ss[k].enabled {
            let k = choose|k: int| 0 <= k < ss.len() && #[trigger] ss[k].enabled;
            if k < front.len() {
                assert(front[k] == ss[k]);
            }
        }
    }
}

proof fn lemma_kept_some_enabled(ss: Seq<SourceModel>, keep: Seq<bool>)
    requires
        ss.len() == keep.len(),
        forall|k: int| 0 <= k < keep.len() && !keep[k] ==> !(#[trigger] ss[k]).enabled,
    ensures
        some_enabled(kept(ss, keep)) == some_enabled(ss),
    decreases ss.len(),
{
    if ss.len() > 0 {
        let (fs, fk) = (ss.drop_last(), keep.drop_last());
        assert forall|k: int| 0 <= k < fk.len() && !fk[k] implies !(#[trigger] fs[k]).enabled by {
            assert(fs[k] == ss[k] && fk[k] == keep[k]);
        }
        lemma_kept_some_enabled(fs, fk);
        lemma_kept_step(ss, keep);
        if !keep.last() {
            assert(!ss[ss.len() - 1].enabled);
        }
    }
}

proof fn lemma_first_branch_error_is(errs: Seq<Option<Seq<char>>>, buses: Seq<BusModel>, bs: Seq<BranchModel>, neg: Seq<bool>)
    requires
        errs.len() == bs.len(),
        neg.len() == bs.len(),
        forall|k: int| 0 <= k < errs.len() ==> #[trigger] errs[k] == branch_check(buses, bs[k], neg[k]),
    ensures
        first_error(errs) == first_branch_error(buses, bs, neg),
    decreases errs.len(),
{
    if errs.len() > 0 {
        let (fe, fb, fneg) = (errs.drop_last(), bs.drop_last(), neg.drop_last());
        assert forall|k: int| 0 <= k < fe.len() implies #[trigger] fe[k] == branch_check(buses, fb[k], fneg[k]) by {
            assert(fe[k] == errs[k]);
        }
        lemma_first_branch_error_is(fe, buses, fb, fneg);
        assert(errs.last() == errs[errs.len() - 1]);
    }
}

proof fn lemma_first_source_error_is(
    errs: Seq<Option<Seq<char>>>,
    buses: Seq<BusModel>,
    ss: Seq<SourceModel>,
    mis: Seq<bool>,
    neg: Seq<bool>,
)
    requires
        errs.len() == ss.len(),
        mis.len() == ss.len(),
        neg.len() == ss.len(),
        forall|k: int|
            0 <= k < errs.len() ==> #[trigger] errs[k] == source_check(buses, ss[k], mis[k], neg[k]),
    ensures
        first_error(errs) == first_source_error(buses, ss, mis, neg),
    decreases errs.len(),
{
    if errs.len() > 0 {
        let (fe, fs, fm, fneg) = (errs.drop_last(), ss.drop_last(), mis.drop_last(), neg.drop_last());
        assert forall|k: int| 0 <= k < fe.len() implies #[trigger] fe[k] == source_check(
            buses,
            fs[k],
            fm[k],
            fneg[k],
        ) by {
            assert(fe[k] == errs[k]);
        }
        lemma_first_source_error_is(fe, buses, fs, fm, fneg);
        assert(errs.last() == errs[errs.len() - 1]);
    }
}

proof fn lemma_kept_branches(buses: Seq<BusModel>, bs: Seq<BranchModel>, neg: Seq<bool>, keep: Seq<bool>)
    requires
        bs.len() == keep.len(),
        neg.len() == keep.len(),
        forall|k: int| 0 <= k < keep.len() && !keep[k] ==> !(#[trigger] bs[k]).enabled,
    ensures
        first_branch_error(buses, kept(bs, keep), kept(neg, keep)) == first_branch_error(buses, bs, neg),
    decreases bs.len(),
{
    if bs.len() > 0 {
        let (fb, fneg, fk) = (bs.drop_last(), neg.drop_last(), keep.drop_last());
        assert forall|k: int| 0 <= k < fk.len() && !fk[k] implies !(#[trigger] fb[k]).enabled by {
            assert(fb[k] == bs[k] && fk[k] == keep[k]);
        }
        lemma_kept_branches(buses, fb, fneg, fk);
        lemma_kept_step(bs, keep);
        lemma_kept_step(neg, keep);
        lemma_kept_len(fb, fneg, fk);
        if !keep.last() {
            assert(!bs[bs.len() - 1].enabled);
        }
    }
}

proof fn lemma_kept_sources(
    buses: Seq<BusModel>,
    ss: Seq<SourceModel>,
    mis: Seq<bool>,
    neg: Seq<bool>,
    keep: Seq<bool>,
)
    requires
        ss.len() == keep.len(),
        mis.len() == keep.len(),
        neg.len() == keep.len(),
        forall|k: int| 0 <= k < keep.len() && !keep[k] ==> !(#[trigger] ss[k]).enabled,
    ensures
        first_source_error(buses, kept(ss, keep), kept(mis, keep), kept(neg, keep))
            == first_source_error(buses, ss, mis, neg),
    decreases ss.len(),
{
    if ss.len() > 0 {
        let (fs, fm, fneg, fk) = (ss.drop_last(), mis.drop_last(), neg.drop_last(), keep.drop_last());
        assert forall|k: int| 0 <= k < fk.len() && !fk[k] implies !(#[trigger] fs[k]).enabled by {
            assert(fs[k] == ss[k] && fk[k] == keep[k]);
        }
        lemma_kept_sources(buses, fs, fm, fneg, fk);
        lemma_kept_step(ss, keep);
        lemma_kept_step(mis, keep);
        lemma_kept_step(neg, keep);
        lemma_kept_len(fs, fm, fk);
        lemma_kept_len(fs, fneg, fk);
        if !keep.last() {
            assert(!ss[ss.len() - 1].enabled);
        }
    }
}

/// The case with only the branches and sources whose flag is set, and the matching
/// entries of the magnitude tests.
pub open spec fn keep_equipment(
    n: NetworkModel,
    c: MagnitudeModel,
    keep_branches: Seq<bool>,
    keep_sources: Seq<bool>,
) -> (NetworkModel, MagnitudeModel) {
    (
        NetworkModel {
            branches: kept(n.branches, keep_branches),
            sources: kept(n.sources, keep_sources),
            ..n
        },
        MagnitudeModel {
            branch_negligible_z: kept(c.branch_negligible_z, keep_branches),
            source_negligible_z: kept(c.source_negligible_z, keep_sources),
            source_kv_mismatch: kept(c.source_kv_mismatch, keep_sources),
        },
    )
}

/// Disabled equipment is never checked: removing some or all of the disabled branches and
/// sources of a case (with their entries of the magnitude tests) leaves the outcome of
/// validation as it was, success or the same error.
pub proof fn lemma_disabled_equipment_is_not_validated(
    n: NetworkModel,
    c: MagnitudeModel,
    keep_branches: Seq<bool>,
    keep_sources: Seq<bool>,
)
    requires
        checks_fit(n, c),
        keep_branches.len() == n.branches.len(),
        keep_sources.len() == n.sources.len(),
        forall|k: int|
            0 <= k < n.branches.len() && !keep_branches[k] ==> !(#[trigger] n.branches[k]).enabled,
        forall|k: int|
            0 <= k < n.sources.len() && !keep_sources[k] ==> !(#[trigger] n.sources[k]).enabled,
    ensures
        ({
            let (n2, c2) = keep_equipment(n, c, keep_branches, keep_sources);
            checks_fit(n2, c2) && validation_error(n2, c2) == validation_error(n, c)
        }),
{
    let (n2, c2) = keep_equipment(n, c, keep_branches, keep_sources);
    lemma_kept_len(n.branches, c.branch_negligible_z, keep_branches);
    lemma_kept_len(n.sources, c.source_negligible_z, keep_sources);
    lemma_kept_len(n.sources, c.source_kv_mismatch, keep_sources);
    assert(checks_fit(n2, c2));
    // the enabled-source check
    lemma_some_enabled(n.sources);
    lemma_some_enabled(n2.sources);
    lemma_kept_some_enabled(n.sources, keep_sources);
    assert(has_enabled_source(n2) == has_enabled_source(n));
    // the bus checks do not change
    assert(bus_errors(n2) == bus_errors(n));
    // the branch checks
    lemma_first_branch_error_is(branch_errors(n, c), n.buses, n.branches, c.branch_negligible_z);
    lemma_first_branch_error_is(
        branch_errors(n2, c2),
        n.buses,
        n2.branches,
        c2.branch_negligible_z,
    );
    lemma_kept_branches(n.buses, n.branches, c.branch_negligible_z, keep_branches);
    assert(first_error(branch_errors(n2, c2)) == first_error(branch_errors(n, c)));
    // the source checks
    lemma_first_source_error_is(
        source_errors(n, c),
        n.buses,
        n.sources,
        c.source_kv_mismatch,
        c.source_negligible_z,
    );
    lemma_first_source_error_is(
        source_errors(n2, c2),
        n.buses,
        n2.sources,
        c2.source_kv_mismatch,
        c2.source_negligible_z,
    );
    lemma_kept_sources(
        n.buses,
        n.sources,
        c.source_kv_mismatch,
        c.source_negligible_z,
        keep_sources,
    );
    assert(first_error(source_errors(n2, c2)) == first_error(source_errors(n, c)));
}

/// A bus that `add_bus` accepts is the one that a lookup of its identifier finds,
/// at the end of the bus list.
pub proof fn lemma_added_bus_is_found(
    before: NetworkModel,
    after: NetworkModel,
    id: Seq<char>,
    name: Seq<char>,
    kv_ll: Quantity,
    x: Quantity,
    y: Quantity,
)
    requires
        add_bus_rejection(before, id, kv_ll) is None,
        after == before.with_buses(
            before.buses.push(BusModel { id, name, kv_ll, x, y, notes: Seq::empty() }),
        ),
    ensures
        after.bus_position(id) == Some(before.buses.len() as int),
        forall|other: Seq<char>|
            other != id ==> #[trigger] after.bus_position(other) == before.bus_position(other),
{
    lemma_first_match(before.bus_ids(), id);
    assert(after.bus_ids() =~= before.bus_ids().push(id));
    lemma_first_match_at(after.bus_ids(), id, before.buses.len() as int);
    assert forall|other: Seq<char>| other != id implies #[trigger] after.bus_position(other)
        == before.bus_position(other) by {
        lemma_first_match(before.bus_ids(), other);
        match before.bus_position(other) {
            Some(i) => lemma_first_match_at(after.bus_ids(), other, i),
            None => lemma_first_match_none(after.bus_ids(), other),
        }
    }
}

/// Buses added one at a time through `add_bus` never share an identifier: if the
/// identifiers were distinct before an accepted addition, they are distinct after it.
pub proof fn lemma_add_bus_keeps_ids_distinct(
    before: NetworkModel,
    after: NetworkModel,
    id: Seq<char>,
    name: Seq<char>,
    kv_ll: Quantity,
    x: Quantity,
    y: Quantity,
)
    requires
        forall|i: int, j: int|
            0 <= i < j < before.buses.len() ==> #[trigger] before.buses[i].id
                != #[trigger] before.buses[j].id,
        add_bus_rejection(before, id, kv_ll) is None,
        after == before.with_buses(
            before.buses.push(BusModel { id, name, kv_ll, x, y, notes: Seq::empty() }),
        ),
    ensures
        forall|i: int, j: int|
            0 <= i < j < after.buses.len() ==> #[trigger] after.buses[i].id
                != #[trigger] after.buses[j].id,
{
    lemma_first_match(before.bus_ids(), id);
    assert forall|i: int, j: int| 0 <= i < j < after.buses.len() implies #[trigger] after.buses[i].id
        != #[trigger] after.buses[j].id by {
        if j == before.buses.len() {
            assert(before.bus_ids()[i] == before.buses[i].id);
        } else {
            assert(after.buses[i] == before.buses[i]);
            assert(after.buses[j] == before.buses[j]);
        }
    }
}

/// A branch that `add_branch` accepts is the one that a lookup of its identifier finds,
/// at the end of the branch list; lookups of other identifiers are unchanged.
pub proof fn lemma_added_branch_is_found(before: NetworkModel, after: NetworkModel, b: BranchModel)
    requires
        add_branch_rejection(before, b) is None,
        after == before.with_branches(
            before.branches.push(normalised_metadata(with_branch_kind_default(b))),
        ),
    ensures
        after.branch_position(b.id) == Some(before.branches.len() as int),
        forall|other: Seq<char>|
            other != b.id ==> #[trigger] after.branch_position(other) == before.branch_position(
                other,
            ),
{
    let id = b.id;
    assert(normalised_metadata(with_branch_kind_default(b)).id == id);
    lemma_first_match(before.branch_ids(), id);
    assert(after.branch_ids() =~= before.branch_ids().push(id));
    lemma_first_match_at(after.branch_ids(), id, before.branches.len() as int);
    assert forall|other: Seq<char>| other != id implies #[trigger] after.branch_position(other)
        == before.branch_position(other) by {
        lemma_first_match(before.branch_ids(), other);
        match before.branch_position(other) {
            Some(i) => lemma_first_match_at(after.branch_ids(), other, i),
            None => lemma_first_match_none(after.branch_ids(), other),
        }
    }
}

/// A source that `add_source` accepts is the one that a lookup of its identifier finds,
/// at the end of the source list; lookups of other identifiers are unchanged.
pub proof fn lemma_added_source_is_found(before: NetworkModel, after: NetworkModel, s: SourceModel)
    requires
        add_source_rejection(before, s) is None,
        after == before.with_sources(before.sources.push(added_source(before, s))),
    ensures
        after.source_position(s.id) == Some(before.sources.len() as int),
        forall|other: Seq<char>|
            other != s.id ==> #[trigger] after.source_position(other) == before.source_position(
                other,
            ),
{
    let id = s.id;
    assert(added_source(before, s).id == id);
    lemma_first_match(before.source_ids(), id);
    assert(after.source_ids() =~= before.source_ids().push(id));
    lemma_first_match_at(after.source_ids(), id, before.sources.len() as int);
    assert forall|other: Seq<char>| other != id implies #[trigger] after.source_position(other)
        == before.source_position(other) by {
        lemma_first_match(before.source_ids(), other);
        match before.source_position(other) {
            Some(i) => lemma_first_match_at(after.source_ids(), other, i),
            None => lemma_first_match_none(after.source_ids(), other),
        }
    }
}

} // verus!
