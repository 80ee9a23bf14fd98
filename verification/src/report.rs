use vstd::prelude::*;

use crate::text::{chars_of, join3, push_char};

verus! {

/// The field holds a character that CSV must quote: a comma, a double quote, or a line break.
pub open spec fn needs_quoting(s: Seq<char>) -> bool {
    exists|i: int|
        0 <= i < s.len() && (#[trigger] s[i] == ',' || s[i] == '"' || s[i] == '\n' || s[i] == '\r')
}

/// The text with every double quote doubled.
pub open spec fn double_quotes(s: Seq<char>) -> Seq<char>
    decreases s.len(),
{
    if s.len() == 0 {
        Seq::empty()
    } else {
        double_quotes(s.drop_last()) + if s.last() == '"' {
            seq!['"', '"']
        } else {
            seq![s.last()]
        }
    }
}

/// A CSV field: quoted with inner quotes doubled when it needs quoting, else as it is.
pub open spec fn csv_field(s: Seq<char>) -> Seq<char> {
    if needs_quoting(s) {
        seq!['"'] + double_quotes(s) + seq!['"']
    } else {
        s
    }
}

/// The fields separated by commas.
pub open spec fn csv_join(fields: Seq<Seq<char>>) -> Seq<char>
    decreases fields.len(),
{
    if fields.len() == 0 {
        Seq::empty()
    } else if fields.len() == 1 {
        fields[0]
    } else {
        csv_join(fields.drop_last()) + seq![','] + fields.last()
    }
}

/// Escapes one CSV field.
pub fn csv_escape(v: &str) -> (r: String)
    ensures
        r@ == csv_field(v@),
{
    let chars = chars_of(v);
    let mut quote = false;
    let mut i: usize = 0;
    while i < chars.len()
        invariant
            chars@ == v@,
            i <= chars.len(),
            quote == exists|j: int|
                0 <= j < i && (#[trigger] v@[j] == ',' || v@[j] == '"' || v@[j] == '\n' || v@[j]
                    == '\r'),
        decreases chars.len() - i,
    {
        let c = chars[i];
        if c == ',' || c == '"' || c == '\n' || c == '\r' {
            quote = true;
        }
        i = i + 1;
    }
    if !quote {
        return v.to_string();
    }
    let mut out = String::new();
    push_char(&mut out, '"');
    let mut i: usize = 0;
    while i < chars.len()
        invariant
            chars@ == v@,
            i <= chars.len(),
            out@ == seq!['"'] + double_quotes(v@.take(i as int)),
        decreases chars.len() - i,
    {
        let c = chars[i];
        push_char(&mut out, c);
        if c == '"' {
            push_char(&mut out, '"');
        }
        proof {
            assert(v@.take(i + 1).drop_last() =~= v@.take(i as int));
            assert(out@ =~= seq!['"'] + double_quotes(v@.take(i + 1)));
        }
        i = i + 1;
    }
    push_char(&mut out, '"');
    assert(v@.take(chars.len() as int) =~= v@);
    out
}

/// A CSV record: the fields separated by commas, ended by a line feed.
pub fn csv_line(fields: &Vec<String>) -> (r: String)
    ensures
        r@ == csv_join(fields@.map_values(|f: String| f@)) + seq!['\n'],
{
    let ghost all = fields@.map_values(|f: String| f@);
    let mut out = String::new();
    let mut i: usize = 0;
    while i < fields.len()
        invariant
            i <= fields.len(),
            all == fields@.map_values(|f: String| f@),
            out@ == csv_join(all.take(i as int)),
        decreases fields.len() - i,
    {
        if i > 0 {
            push_char(&mut out, ',');
        }
        out.append(fields[i].as_str());
        proof {
            assert(all.take(i + 1).drop_last() =~= all.take(i as int));
            if i == 0 {
                assert(out@ =~= csv_join(all.take(1)));
            }
        }
        i = i + 1;
    }
    push_char(&mut out, '\n');
    assert(all.take(fields.len() as int) =~= all);
    out
}

/// The fault types that are calculated at each bus, in report order.
#[derive(Clone, Copy, Debug, PartialEq, Eq)]
pub enum FaultKind {
    ThreePhase,
    SingleLineGround,
    LineLine,
    DoubleLineGround,
}

/// The short label of a fault type.
pub open spec fn fault_label(k: FaultKind) -> Seq<char> {
    match k {
        FaultKind::ThreePhase => "3PH"@,
        FaultKind::SingleLineGround => "SLG"@,
        FaultKind::LineLine => "LL"@,
        FaultKind::DoubleLineGround => "DLG"@,
    }
}

/// The fault type needs the positive-sequence network only (3PH), the positive and
/// negative networks (LL), or all three (SLG, DLG); `None` when the networks it needs all
/// reach a source, else the note that explains the zero result.
pub open spec fn missing_path_note(k: FaultKind, z1: bool, z2: bool, z0: bool) -> Option<Seq<char>> {
    match k {
        FaultKind::ThreePhase => if z1 {
            None
        } else {
            Some("no positive-sequence source path"@)
        },
        FaultKind::LineLine => if z1 && z2 {
            None
        } else {
            Some("missing positive or negative sequence source path"@)
        },
        _ => if z1 && z2 && z0 {
            None
        } else {
            Some("missing positive, negative, or zero sequence return path"@)
        },
    }
}

impl FaultKind {
    /// The fault types in the order a bus result lists them.
    pub fn all() -> (r: Vec<FaultKind>)
        ensures
            r@ == seq![
                FaultKind::ThreePhase,
                FaultKind::SingleLineGround,
                FaultKind::LineLine,
                FaultKind::DoubleLineGround,
            ],
    {
        let r = vec![
            FaultKind::ThreePhase,
            FaultKind::SingleLineGround,
            FaultKind::LineLine,
            FaultKind::DoubleLineGround,
        ];
        assert(r@ =~= seq![
            FaultKind::ThreePhase,
            FaultKind::SingleLineGround,
            FaultKind::LineLine,
            FaultKind::DoubleLineGround,
        ]);
        r
    }

    /// The short label: "3PH", "SLG", "LL" or "DLG".
    pub fn label(&self) -> (r: &'static str)
        ensures
            r@ == fault_label(*self),
            *self == FaultKind::ThreePhase ==> r@ == "3PH"@,
            *self == FaultKind::SingleLineGround ==> r@ == "SLG"@,
            *self == FaultKind::LineLine ==> r@ == "LL"@,
            *self == FaultKind::DoubleLineGround ==> r@ == "DLG"@,
    {
        match self {
            FaultKind::ThreePhase => "3PH",
            FaultKind::SingleLineGround => "SLG",
            FaultKind::LineLine => "LL",
            FaultKind::DoubleLineGround => "DLG",
        }
    }

    /// The note of a zero result when a sequence network that the fault needs has no
    /// source path (`z1`, `z2`, `z0`: that network reaches a source from the bus).
    pub fn missing_path_note(&self, z1: bool, z2: bool, z0: bool) -> (r: Option<&'static str>)
        ensures
            match r {
                Some(s) => missing_path_note(*self, z1, z2, z0) == Some(s@),
                None => missing_path_note(*self, z1, z2, z0) is None,
            },
            *self == FaultKind::ThreePhase ==> (r is None <==> z1),
            *self == FaultKind::LineLine ==> (r is None <==> z1 && z2),
            *self == FaultKind::SingleLineGround ==> (r is None <==> z1 && z2 && z0),
            *self == FaultKind::DoubleLineGround ==> (r is None <==> z1 && z2 && z0),
    {
        match self {
            FaultKind::ThreePhase => if z1 {
                None
            } else {
                Some("no positive-sequence source path")
            },
            FaultKind::LineLine => if z1 && z2 {
                None
            } else {
                Some("missing positive or negative sequence source path")
            },
            _ => if z1 && z2 && z0 {
                None
            } else {
                Some("missing positive, negative, or zero sequence return path")
            },
        }
    }
}

/// Warning for a bus that no positive-sequence path joins to a source.
pub fn no_positive_path_warning(bus_name: &str) -> (r: String)
    ensures
        r@ == "bus "@ + bus_name@ + " has no positive-sequence source path"@,
{
    join3("bus ", bus_name, " has no positive-sequence source path")
}

/// Warning for a bus without a zero-sequence return path.
pub fn no_zero_path_warning(bus_name: &str) -> (r: String)
    ensures
        r@ == "bus "@ + bus_name@
            + " has no zero-sequence return path; SLG/DLG ground current is zero in this model"@,
{
    join3(
        "bus ",
        bus_name,
        " has no zero-sequence return path; SLG/DLG ground current is zero in this model",
    )
}

/// The parts separated by `sep`.
pub open spec fn joined(parts: Seq<Seq<char>>, sep: Seq<char>) -> Seq<char>
    decreases parts.len(),
{
    if parts.len() == 0 {
        Seq::empty()
    } else if parts.len() == 1 {
        parts[0]
    } else {
        joined(parts.drop_last(), sep) + sep + parts.last()
    }
}

/// The texts separated by `sep`, as `join` on a slice of strings gives them.
pub fn join_texts(parts: &Vec<String>, sep: &str) -> (r: String)
    ensures
        r@ == joined(parts@.map_values(|p: String| p@), sep@),
{
    let ghost all = parts@.map_values(|p: String| p@);
    let mut out = String::new();
    let mut i: usize = 0;
    while i < parts.len()
        invariant
            i <= parts.len(),
            all == parts@.map_values(|p: String| p@),
            out@ == joined(all.take(i as int), sep@),
        decreases parts.len() - i,
    {
        if i > 0 {
            out.append(sep);
        }
        out.append(parts[i].as_str());
        proof {
            assert(all.take(i + 1).drop_last() =~= all.take(i as int));
            if i == 0 {
                assert(out@ =~= joined(all.take(1), sep@));
            }
        }
        i = i + 1;
    }
    assert(all.take(parts.len() as int) =~= all);
    out
}

/// The header record of the CSV report.
pub fn csv_report_header() -> (h: &'static str)
    ensures
        h@ == "bus_id,bus,kv_ll,fault,sym_ka,peak_asym_ka,asym_rms_ka,x_over_r,ground_return_ka,z_eq_r_pu,z_eq_x_pu,notes\n"@,
{
    "bus_id,bus,kv_ll,fault,sym_ka,peak_asym_ka,asym_rms_ka,x_over_r,ground_return_ka,z_eq_r_pu,z_eq_x_pu,notes\n"
}

/// One fault result as the CSV report shows it: its texts, with the numbers already
/// formatted (empty where there is none).
#[derive(Clone, Debug)]
pub struct FaultRow {
    pub bus_id: String,
    pub bus: String,
    pub kv_ll: String,
    pub kind: String,
    pub sym_ka: String,
    pub peak_asym_ka: String,
    pub asym_rms_ka: String,
    pub x_over_r: String,
    pub ground_return_ka: String,
    pub z_eq_r_pu: String,
    pub z_eq_x_pu: String,
    pub notes: Vec<String>,
}

/// The fields of a report record: the bus identifier and name, the fault kind and the
/// notes (joined by "; ") are escaped; the formatted numbers are written as they are.
pub open spec fn fault_row_fields(row: FaultRow) -> Seq<Seq<char>> {
    seq![
        csv_field(row.bus_id@),
        csv_field(row.bus@),
        row.kv_ll@,
        csv_field(row.kind@),
        row.sym_ka@,
        row.peak_asym_ka@,
        row.asym_rms_ka@,
        row.x_over_r@,
        row.ground_return_ka@,
        row.z_eq_r_pu@,
        row.z_eq_x_pu@,
        csv_field(joined(row.notes@.map_values(|n: String| n@), "; "@)),
    ]
}

/// The CSV record of one fault result.
pub fn csv_fault_row(row: &FaultRow) -> (r: String)
    ensures
        r@ == csv_join(fault_row_fields(*row)) + seq!['\n'],
        r@ == csv_field(row.bus_id@) + ","@ + csv_field(row.bus@) + ","@ + row.kv_ll@ + ","@
            + csv_field(row.kind@) + ","@ + row.sym_ka@ + ","@ + row.peak_asym_ka@ + ","@
            + row.asym_rms_ka@ + ","@ + row.x_over_r@ + ","@ + row.ground_return_ka@ + ","@
            + row.z_eq_r_pu@ + ","@ + row.z_eq_x_pu@ + ","@ + csv_field(
            joined(row.notes@.map_values(|n: String| n@), "; "@),
        ) + "\n"@,
{
    let notes = join_texts(&row.notes, "; ");
    let fields = vec![
        csv_escape(row.bus_id.as_str()),
        csv_escape(row.bus.as_str()),
        row.kv_ll.as_str().to_string(),
        csv_escape(row.kind.as_str()),
        row.sym_ka.as_str().to_string(),
        row.peak_asym_ka.as_str().to_string(),
        row.asym_rms_ka.as_str().to_string(),
        row.x_over_r.as_str().to_string(),
        row.ground_return_ka.as_str().to_string(),
        row.z_eq_r_pu.as_str().to_string(),
        row.z_eq_x_pu.as_str().to_string(),
        csv_escape(notes.as_str()),
    ];
    assert(fields@.map_values(|f: String| f@) =~= fault_row_fields(*row));
    let r = csv_line(&fields);
    proof {
        lemma_fault_row_record(*row);
    }
    r
}

/// A fault is computed exactly when every sequence network it needs reaches a source:
/// 3PH needs the positive network, LL the positive and negative ones, SLG and DLG all
/// three. So with all three networks reaching a source no fault gets a note, and without
/// the positive network every fault does.
pub proof fn lemma_fault_needs(k: FaultKind, z1: bool, z2: bool, z0: bool)
    ensures
        missing_path_note(k, true, true, true) is None,
        !z1 ==> missing_path_note(k, z1, z2, z0) is Some,
        missing_path_note(k, z1, z2, z0) is None <==> match k {
            FaultKind::ThreePhase => z1,
            FaultKind::LineLine => z1 && z2,
            FaultKind::SingleLineGround => z1 && z2 && z0,
            FaultKind::DoubleLineGround => z1 && z2 && z0,
        },
{
}

/// The columns of the CSV report, in order.
pub open spec fn report_columns() -> Seq<Seq<char>> {
    seq![
        "bus_id"@,
        "bus"@,
        "kv_ll"@,
        "fault"@,
        "sym_ka"@,
        "peak_asym_ka"@,
        "asym_rms_ka"@,
        "x_over_r"@,
        "ground_return_ka"@,
        "z_eq_r_pu"@,
        "z_eq_x_pu"@,
        "notes"@,
    ]
}

/// The value that a fault row gives for the column named `column`, as it is written in
/// the record (the identifier, bus name, fault kind and notes escaped).
pub open spec fn column_value(row: FaultRow, column: Seq<char>) -> Seq<char> {
    if column == "bus_id"@ {
        csv_field(row.bus_id@)
    } else if column == "bus"@ {
        csv_field(row.bus@)
    } else if column == "kv_ll"@ {
        row.kv_ll@
    } else if column == "fault"@ {
        csv_field(row.kind@)
    } else if column == "sym_ka"@ {
        row.sym_ka@
    } else if column == "peak_asym_ka"@ {
        row.peak_asym_ka@
    } else if column == "asym_rms_ka"@ {
        row.asym_rms_ka@
    } else if column == "x_over_r"@ {
        row.x_over_r@
    } else if column == "ground_return_ka"@ {
        row.ground_return_ka@
    } else if column == "z_eq_r_pu"@ {
        row.z_eq_r_pu@
    } else if column == "z_eq_x_pu"@ {
        row.z_eq_x_pu@
    } else {
        csv_field(joined(row.notes@.map_values(|n: String| n@), "; "@))
    }
}

proof fn lemma_fault_row_record(row: FaultRow)
    ensures
        csv_join(fault_row_fields(row)) + seq!['\n'] == csv_field(row.bus_id@) + ","@ + csv_field(
            row.bus@,
        ) + ","@ + row.kv_ll@ + ","@ + csv_field(row.kind@) + ","@ + row.sym_ka@ + ","@
            + row.peak_asym_ka@ + ","@ + row.asym_rms_ka@ + ","@ + row.x_over_r@ + ","@
            + row.ground_return_ka@ + ","@ + row.z_eq_r_pu@ + ","@ + row.z_eq_x_pu@ + ","@
            + csv_field(joined(row.notes@.map_values(|n: String| n@), "; "@)) + "\n"@,
{
    reveal_strlit(",");
    reveal_strlit("\n");
    let f = fault_row_fields(row);
    reveal_with_fuel(csv_join, 13);
    assert(f.drop_last().drop_last().drop_last().drop_last().drop_last().drop_last()
        .drop_last().drop_last().drop_last().drop_last().drop_last() =~= seq![f[0]]);
    let c = ","@;
    assert(c =~= seq![',']);
    assert(csv_join(fault_row_fields(row)) + seq!['\n'] =~= csv_field(row.bus_id@) + c + csv_field(
        row.bus@,
    ) + c + row.kv_ll@ + c + csv_field(row.kind@) + c + row.sym_ka@ + c + row.peak_asym_ka@ + c
        + row.asym_rms_ka@ + c + row.x_over_r@ + c + row.ground_return_ka@ + c + row.z_eq_r_pu@
        + c + row.z_eq_x_pu@ + c + csv_field(joined(row.notes@.map_values(|n: String| n@), "; "@))
        + "\n"@);
}

/// Each field of a report record stands under the header column of the same position:
/// field `i` of the record is the row's value for column `i` of the header, and the header
/// is those columns separated by commas.
pub proof fn lemma_record_follows_header(row: FaultRow)
    ensures
        report_columns().len() == 12,
        fault_row_fields(row).len() == 12,
        forall|i: int|
            0 <= i < 12 ==> #[trigger] fault_row_fields(row)[i] == column_value(
                row,
                report_columns()[i],
            ),
        csv_join(report_columns()) + seq!['\n']
            == "bus_id,bus,kv_ll,fault,sym_ka,peak_asym_ka,asym_rms_ka,x_over_r,ground_return_ka,z_eq_r_pu,z_eq_x_pu,notes\n"@,
{
    reveal_strlit("bus_id");
    reveal_strlit("bus");
    reveal_strlit("kv_ll");
    reveal_strlit("fault");
    reveal_strlit("sym_ka");
    reveal_strlit("peak_asym_ka");
    reveal_strlit("asym_rms_ka");
    reveal_strlit("x_over_r");
    reveal_strlit("ground_return_ka");
    reveal_strlit("z_eq_r_pu");
    reveal_strlit("z_eq_x_pu");
    reveal_strlit("notes");
    reveal_strlit(
        "bus_id,bus,kv_ll,fault,sym_ka,peak_asym_ka,asym_rms_ka,x_over_r,ground_return_ka,z_eq_r_pu,z_eq_x_pu,notes\n",
    );
    let cols = report_columns();
    assert forall|i: int| 0 <= i < 12 implies #[trigger] fault_row_fields(row)[i] == column_value(
        row,
        report_columns()[i],
    ) by {
        if i == 0 {
        } else if i == 1 {
            assert(cols[1] == "bus"@ && "bus"@.len() == 3 && "bus_id"@.len() == 6);
        } else if i == 2 {
            assert(cols[2] == "kv_ll"@ && "kv_ll"@[0] == 'k' && "bus_id"@[0] == 'b' && "bus"@[0]
                == 'b');
        } else if i == 3 {
            assert(cols[3] == "fault"@ && "fault"@[0] == 'f' && "bus_id"@[0] == 'b' && "bus"@[0]
                == 'b' && "kv_ll"@[0] == 'k');
        } else if i == 4 {
            assert(cols[4][1] == 'y');
        } else if i == 5 {
            assert(cols[5][0] == 'p' && cols[5].len() == 12);
        } else if i == 6 {
            assert(cols[6][0] == 'a' && cols[6].len() == 11);
        } else if i == 7 {
            assert(cols[7][0] == 'x');
        } else if i == 8 {
            assert(cols[8][0] == 'g');
        } else if i == 9 {
            assert(cols[9][0] == 'z' && cols[9][5] == 'r');
        } else if i == 10 {
            assert(cols[10][0] == 'z' && cols[10][5] == 'x');
        } else {
            assert(cols[11][0] == 'n');
        }
    }
    reveal_with_fuel(csv_join, 13);
    assert(cols.drop_last().drop_last().drop_last().drop_last().drop_last().drop_last()
        .drop_last().drop_last().drop_last().drop_last().drop_last() =~= seq![cols[0]]);
    assert(csv_join(cols) + seq!['\n']
        =~= "bus_id,bus,kv_ll,fault,sym_ka,peak_asym_ka,asym_rms_ka,x_over_r,ground_return_ka,z_eq_r_pu,z_eq_x_pu,notes\n"@);
}

} // verus!
