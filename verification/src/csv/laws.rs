//! What holds between reading and writing Howick CSV files.
use vstd::prelude::*;
use crate::csv::parser::{
    ParseState, initial_state, operation_kind, parse_lines, spec_operations, spec_parse, spec_parse_component,
    spec_parse_label, spec_parse_unit, step,
};
use crate::csv::serializer::{
    component_fields, component_row, frameset_row, has_char, lines_text, operation_fields,
    profile_row, rows, spec_serialize, spec_tidy_decimal, strip_trailing, unit_row,
};
use crate::literal::{
    is_decimal_number, is_float_literal, is_literal_char, is_mantissa, lemma_float_literal_chars,
    lemma_u32_literal_decimal, unsigned_part,
};
use crate::text::{
    all_digits, all_free_of, decimal, free_of, is_digit, is_whitespace, join, lemma_decimal,
    lemma_join_first, lemma_join_free, lemma_join_last, lemma_split_append, lemma_split_free,
    lemma_split_join, lemma_split_nonempty, lemma_split_pieces_free, lemma_trim_free,
    lemma_trim_prepend_whitespace, lemma_trim_push_whitespace, lemma_trim_unchanged, split, trim,
};
use crate::types::{
    ComponentView, FramesetView, LabelOrientation, OperationKind, OperationView, ProfileView, Unit,
    label_name, operation_name, unit_name,
};

verus! {

// ---------------------------------------------------------------------------
// Which framesets can be written and read back.
// ---------------------------------------------------------------------------

/// Text that can stand as one field: no comma, no line break.
pub open spec fn plain(s: Seq<char>) -> bool {
    free_of(s, ',') && free_of(s, '\n')
}

/// Text that does not end in whitespace (which trimming a row would cut).
pub open spec fn ends_clean(s: Seq<char>) -> bool {
    s.len() == 0 || !is_whitespace(s.last())
}

/// The operations that the parser reads back; it does not know `NOTCH` and
/// `SERVICE_HOLE`.
pub open spec fn readable(k: OperationKind) -> bool {
    k != OperationKind::Notch && k != OperationKind::ServiceHole
}

pub open spec fn writable_component(c: ComponentView) -> bool {
    &&& plain(c.id)
    &&& is_float_literal(c.length_mm)
    &&& forall|j: int|
        0 <= j < c.operations.len() ==> readable(#[trigger] c.operations[j].kind)
            && is_float_literal(c.operations[j].position)
}

/// A frameset whose CSV text reads back as itself: fields without commas or
/// line breaks, no trailing whitespace at the end of a row, measures written
/// as floating-point literals, and only operations that the parser knows.
pub open spec fn writable(f: FramesetView) -> bool {
    &&& plain(f.name)
    &&& ends_clean(f.name)
    &&& plain(f.profile.code)
    &&& plain(f.profile.description)
    &&& ends_clean(f.profile.description)
    &&& forall|i: int|
        0 <= i < f.components.len() ==> writable_component(#[trigger] f.components[i])
}

// ---------------------------------------------------------------------------
// Facts about the pieces of a row.
// ---------------------------------------------------------------------------

/// A floating-point literal is a plain field that starts and ends with a
/// character other than whitespace.
proof fn lemma_literal_field(s: Seq<char>)
    requires
        is_float_literal(s),
    ensures
        plain(s),
        s.len() >= 1,
        !is_whitespace(s[0]),
        !is_whitespace(s.last()),
{
    lemma_float_literal_chars(s);
    assert(is_literal_char(s[0]));
    assert(is_literal_char(s[s.len() - 1]));
}

/// The decimal text of a count is a plain field.
proof fn lemma_decimal_field(n: nat)
    ensures
        plain(decimal(n)),
{
    lemma_decimal(n);
    let d = decimal(n);
    assert(all_digits(d));
}

/// The keywords of the format, spelt out.
proof fn lemma_keywords()
    ensures
        "UNIT"@ =~= seq!['U', 'N', 'I', 'T'],
        "PROFILE"@ =~= seq!['P', 'R', 'O', 'F', 'I', 'L', 'E'],
        "FRAMESET"@ =~= seq!['F', 'R', 'A', 'M', 'E', 'S', 'E', 'T'],
        "COMPONENT"@ =~= seq!['C', 'O', 'M', 'P', 'O', 'N', 'E', 'N', 'T'],
        "MILLIMETRE"@ =~= seq!['M', 'I', 'L', 'L', 'I', 'M', 'E', 'T', 'R', 'E'],
        "LABEL_NRM"@ =~= seq!['L', 'A', 'B', 'E', 'L', '_', 'N', 'R', 'M'],
        "LABEL_INV"@ =~= seq!['L', 'A', 'B', 'E', 'L', '_', 'I', 'N', 'V'],
        "DIMPLE"@ =~= seq!['D', 'I', 'M', 'P', 'L', 'E'],
        "LIP_CUT"@ =~= seq!['L', 'I', 'P', '_', 'C', 'U', 'T'],
        "SWAGE"@ =~= seq!['S', 'W', 'A', 'G', 'E'],
        "WEB"@ =~= seq!['W', 'E', 'B'],
        "END_TRUSS"@ =~= seq!['E', 'N', 'D', '_', 'T', 'R', 'U', 'S', 'S'],
        "NOTCH"@ =~= seq!['N', 'O', 'T', 'C', 'H'],
        "SERVICE_HOLE"@ =~= seq!['S', 'E', 'R', 'V', 'I', 'C', 'E', '_', 'H', 'O', 'L', 'E'],
{
    reveal_strlit("UNIT");
    reveal_strlit("PROFILE");
    reveal_strlit("FRAMESET");
    reveal_strlit("COMPONENT");
    reveal_strlit("MILLIMETRE");
    reveal_strlit("LABEL_NRM");
    reveal_strlit("LABEL_INV");
    reveal_strlit("DIMPLE");
    reveal_strlit("LIP_CUT");
    reveal_strlit("SWAGE");
    reveal_strlit("WEB");
    reveal_strlit("END_TRUSS");
    reveal_strlit("NOTCH");
    reveal_strlit("SERVICE_HOLE");
}

/// A keyword made of capital letters and `_` is a plain field and no
/// whitespace starts or ends it.
proof fn lemma_keyword_field(k: Seq<char>)
    requires
        k.len() >= 1,
        forall|i: int| 0 <= i < k.len() ==> ('A' <= #[trigger] k[i] <= 'Z' || k[i] == '_'),
    ensures
        plain(k),
        !is_whitespace(k[0]),
        !is_whitespace(k.last()),
{
    assert('A' <= k[0] <= 'Z' || k[0] == '_');
    assert('A' <= k[k.len() - 1] <= 'Z' || k[k.len() - 1] == '_');
}

/// Every keyword is a plain field, starting and ending with a non-space.
proof fn lemma_keyword_fields()
    ensures
        plain("UNIT"@) && !is_whitespace("UNIT"@[0]),
        plain("PROFILE"@) && !is_whitespace("PROFILE"@[0]),
        plain("FRAMESET"@) && !is_whitespace("FRAMESET"@[0]),
        plain("COMPONENT"@) && !is_whitespace("COMPONENT"@[0]),
        plain("MILLIMETRE"@) && !is_whitespace("MILLIMETRE"@.last()) && "MILLIMETRE"@.len() > 0,
        forall|l: LabelOrientation| #[trigger] plain(label_name(l)),
        forall|k: OperationKind| #[trigger] plain(operation_name(k)),
{
    lemma_keywords();
    lemma_keyword_field("UNIT"@);
    lemma_keyword_field("PROFILE"@);
    lemma_keyword_field("FRAMESET"@);
    lemma_keyword_field("COMPONENT"@);
    lemma_keyword_field("MILLIMETRE"@);
    lemma_keyword_field("LABEL_NRM"@);
    lemma_keyword_field("LABEL_INV"@);
    lemma_keyword_field("DIMPLE"@);
    lemma_keyword_field("LIP_CUT"@);
    lemma_keyword_field("SWAGE"@);
    lemma_keyword_field("WEB"@);
    lemma_keyword_field("END_TRUSS"@);
    lemma_keyword_field("NOTCH"@);
    lemma_keyword_field("SERVICE_HOLE"@);
}


/// The parser reads every operation keyword that it knows as its operation.
proof fn lemma_operation_kind_name(k: OperationKind)
    requires
        readable(k),
    ensures
        operation_kind(operation_name(k)) == Some(k),
{
    lemma_keywords();
}

/// Reading a label's keyword gives the label back.
pub proof fn lemma_label_name(l: LabelOrientation)
    ensures
        spec_parse_label(label_name(l)) == Ok::<LabelOrientation, crate::error::ErrorView>(l),
{
    lemma_keywords();
    if l == LabelOrientation::Inverted {
        assert(label_name(l)[6] != "LABEL_NRM"@[6]);
    }
}

/// Where each operation's two fields stand among the operation fields.
proof fn lemma_operation_fields(ops: Seq<OperationView>)
    ensures
        operation_fields(ops).len() == 2 * ops.len(),
        forall|k: int|
            0 <= k < ops.len() ==> operation_fields(ops)[2 * k] == operation_name(
                (#[trigger] ops[k]).kind,
            ) && operation_fields(ops)[2 * k + 1] == ops[k].position,
    decreases ops.len(),
{
    if ops.len() > 0 {
        let d = ops.drop_last();
        lemma_operation_fields(d);
        assert forall|k: int| 0 <= k < ops.len() implies operation_fields(ops)[2 * k]
            == operation_name((#[trigger] ops[k]).kind) && operation_fields(ops)[2 * k + 1]
            == ops[k].position by {
            if k < ops.len() - 1 {
                assert(d[k] == ops[k]);
            }
        }
    }
}

/// The fields of a writable component's row are plain.
proof fn lemma_component_fields_plain(c: ComponentView)
    requires
        writable_component(c),
    ensures
        component_fields(c).len() == 5 + 2 * c.operations.len(),
        all_free_of(component_fields(c), ','),
        all_free_of(component_fields(c), '\n'),
{
    let fields = component_fields(c);
    let ops = c.operations;
    lemma_operation_fields(ops);
    lemma_keyword_fields();
    lemma_decimal_field(c.quantity as nat);
    lemma_literal_field(c.length_mm);
    assert(plain(label_name(c.label)));
    assert forall|i: int| 0 <= i < fields.len() implies plain(#[trigger] fields[i]) by {
        if i >= 5 {
            let k = (i - 5) / 2;
            assert(0 <= k < ops.len());
            assert(readable(ops[k].kind) && is_float_literal(ops[k].position));
            lemma_literal_field(ops[k].position);
            assert(plain(operation_name(ops[k].kind)));
            if (i - 5) % 2 == 0 {
                assert(i - 5 == 2 * k);
                assert(operation_fields(ops)[i - 5] == operation_name(ops[k].kind));
            } else {
                assert(i - 5 == 2 * k + 1);
                assert(operation_fields(ops)[i - 5] == ops[k].position);
            }
        }
    }
}

/// Reading the operation fields of a writable component from pair `k` on.
proof fn lemma_read_operations(c: ComponentView, k: int)
    requires
        writable_component(c),
        0 <= k <= c.operations.len(),
    ensures
        spec_operations(component_fields(c), 5 + 2 * k) == Ok::<
            Seq<OperationView>,
            crate::error::ErrorView,
        >(c.operations.skip(k)),
    decreases c.operations.len() - k,
{
    let fields = component_fields(c);
    let ops = c.operations;
    lemma_operation_fields(ops);
    if k == ops.len() {
        assert(ops.skip(k) =~= Seq::<OperationView>::empty());
    } else {
        let op = ops[k];
        assert(fields[5 + 2 * k] == operation_name(op.kind));
        assert(fields[5 + 2 * k + 1] == op.position);
        assert(readable(op.kind) && is_float_literal(op.position));
        lemma_operation_kind_name(op.kind);
        lemma_read_operations(c, k + 1);
        assert(seq![OperationView { kind: op.kind, position: op.position }] + ops.skip(k + 1)
            =~= ops.skip(k));
    }
}

/// A writable component's row trims to itself, splits into its fields and
/// reads back as the component.
proof fn lemma_component_row(c: ComponentView, line: usize)
    requires
        writable_component(c),
    ensures
        free_of(component_row(c), '\n'),
        trim(component_row(c)) == component_row(c),
        component_row(c).len() > 0,
        split(component_row(c), ',') == component_fields(c),
        component_fields(c)[0] == "COMPONENT"@,
        spec_parse_component(component_fields(c), line) == Ok::<
            ComponentView,
            crate::error::ErrorView,
        >(c),
{
    let fields = component_fields(c);
    let row = component_row(c);
    let ops = c.operations;
    lemma_component_fields_plain(c);
    lemma_keywords();
    lemma_keyword_fields();
    lemma_join_free(fields, ',', '\n');
    lemma_split_join(fields, ',');
    lemma_join_first(fields, ',');
    lemma_join_last(fields, ',');
    lemma_operation_fields(ops);
    lemma_literal_field(c.length_mm);
    if ops.len() > 0 {
        let k = ops.len() - 1;
        assert(readable(ops[k].kind) && is_float_literal(ops[k].position));
        lemma_literal_field(ops[k].position);
        assert(fields.last() == ops[k].position);
    } else {
        assert(fields.last() == c.length_mm);
    }
    lemma_trim_unchanged(row);
    lemma_label_name(c.label);
    lemma_u32_literal_decimal(c.quantity);
    lemma_read_operations(c, 0);
    assert(ops.skip(0) =~= ops);
}

/// The rows of a text, each ended by a newline, are the rows joined by
/// newlines with one more at the end.
proof fn lemma_lines_text(r: Seq<Seq<char>>)
    requires
        r.len() >= 1,
    ensures
        lines_text(r) == join(r, '\n').push('\n'),
    decreases r.len(),
{
    if r.len() == 1 {
        assert(r.drop_last() =~= Seq::<Seq<char>>::empty());
        assert(lines_text(r.drop_last()) == Seq::<char>::empty());
        assert(r.last() == r[0]);
        assert(lines_text(r) =~= r[0].push('\n'));
    } else {
        let d = r.drop_last();
        lemma_lines_text(d);
        assert((join(d, '\n').push('\n') + r.last()).push('\n') =~= join(d, '\n').push('\n')
            + r.last().push('\n'));
    }
}

/// The header rows of a writable frameset trim to themselves and split into
/// their fields.
proof fn lemma_header_rows(f: FramesetView)
    requires
        writable(f),
    ensures
        free_of(unit_row(f), '\n'),
        free_of(profile_row(f), '\n'),
        free_of(frameset_row(f), '\n'),
        trim(unit_row(f)) == unit_row(f) && unit_row(f).len() > 0,
        trim(profile_row(f)) == profile_row(f) && profile_row(f).len() > 0,
        trim(frameset_row(f)) == frameset_row(f) && frameset_row(f).len() > 0,
        split(unit_row(f), ',') == seq!["UNIT"@, unit_name(f.unit)],
        split(profile_row(f), ',') == seq!["PROFILE"@, f.profile.code, f.profile.description],
        split(frameset_row(f), ',') == seq!["FRAMESET"@, f.name],
{
    lemma_keywords();
    lemma_keyword_fields();
    let u = seq!["UNIT"@, unit_name(f.unit)];
    let p = seq!["PROFILE"@, f.profile.code, f.profile.description];
    let n = seq!["FRAMESET"@, f.name];
    assert(all_free_of(u, ',') && all_free_of(u, '\n')) by {
        assert(u[0] == "UNIT"@ && u[1] == "MILLIMETRE"@);
    }
    assert(all_free_of(p, ',') && all_free_of(p, '\n')) by {
        assert(p[0] == "PROFILE"@ && p[1] == f.profile.code && p[2] == f.profile.description);
    }
    assert(all_free_of(n, ',') && all_free_of(n, '\n')) by {
        assert(n[0] == "FRAMESET"@ && n[1] == f.name);
    }
    lemma_join_free(u, ',', '\n');
    lemma_join_free(p, ',', '\n');
    lemma_join_free(n, ',', '\n');
    lemma_split_join(u, ',');
    lemma_split_join(p, ',');
    lemma_split_join(n, ',');
    lemma_join_first(u, ',');
    lemma_join_first(p, ',');
    lemma_join_first(n, ',');
    lemma_join_last(u, ',');
    lemma_join_last(p, ',');
    lemma_join_last(n, ',');
    lemma_trim_unchanged(unit_row(f));
    lemma_trim_unchanged(profile_row(f));
    lemma_trim_unchanged(frameset_row(f));
}

/// Reading the UNIT row of a writable frameset sets its unit.
proof fn lemma_step_unit(st: ParseState, f: FramesetView, index: int)
    requires
        writable(f),
    ensures
        step(st, index, unit_row(f)) == Ok::<ParseState, crate::error::ErrorView>(
            ParseState { unit: Some(f.unit), ..st },
        ),
{
    lemma_keywords();
    lemma_header_rows(f);
    let fields = split(trim(unit_row(f)), ',');
    assert(fields[0] == "UNIT"@ && fields[1] == unit_name(f.unit));
    match f.unit {
        Unit::Millimetre => {
            assert(spec_parse_unit(fields[1]) == Ok::<Unit, crate::error::ErrorView>(f.unit));
        },
    }
}

/// Reading the PROFILE row of a writable frameset sets its profile.
proof fn lemma_step_profile(st: ParseState, f: FramesetView, index: int)
    requires
        writable(f),
    ensures
        step(st, index, profile_row(f)) == Ok::<ParseState, crate::error::ErrorView>(
            ParseState { profile: Some(f.profile), ..st },
        ),
{
    lemma_keywords();
    lemma_header_rows(f);
    let fields = split(trim(profile_row(f)), ',');
    assert(fields[0] == "PROFILE"@ && fields.len() == 3);
    assert(fields[0] != "UNIT"@);
    assert(ParseState { profile: Some(ProfileView { code: fields[1], description: fields[2] }), ..st }
        =~= ParseState { profile: Some(f.profile), ..st });
}

/// Reading the FRAMESET row of a writable frameset sets its name.
proof fn lemma_step_frameset(st: ParseState, f: FramesetView, index: int)
    requires
        writable(f),
    ensures
        step(st, index, frameset_row(f)) == Ok::<ParseState, crate::error::ErrorView>(
            ParseState { name: Some(f.name), ..st },
        ),
{
    lemma_keywords();
    lemma_header_rows(f);
    let fields = split(trim(frameset_row(f)), ',');
    assert(fields[0] == "FRAMESET"@ && fields.len() == 2);
    assert(fields[0] != "UNIT"@ && fields[0] != "PROFILE"@);
}

/// Reading the row of a writable component adds the component.
proof fn lemma_step_component(st: ParseState, c: ComponentView, index: int)
    requires
        writable_component(c),
    ensures
        step(st, index, component_row(c)) == Ok::<ParseState, crate::error::ErrorView>(
            ParseState { components: st.components.push(c), ..st },
        ),
{
    lemma_keywords();
    lemma_component_row(c, (index + 1) as usize);
    let fields = split(trim(component_row(c)), ',');
    assert(fields[0] == "COMPONENT"@);
    assert(fields[0] != "UNIT"@ && fields[0] != "PROFILE"@ && fields[0] != "FRAMESET"@);
}

/// Reading the header and the first `j` component rows of a writable frameset.
proof fn lemma_parse_rows(f: FramesetView, j: int)
    requires
        writable(f),
        0 <= j <= f.components.len(),
    ensures
        parse_lines(rows(f).take(3 + j)) == Ok::<ParseState, crate::error::ErrorView>(
            ParseState {
                unit: Some(f.unit),
                profile: Some(f.profile),
                name: Some(f.name),
                components: f.components.take(j),
            },
        ),
    decreases j,
{
    let r = rows(f);
    if j == 0 {
        assert(r.take(1).drop_last() =~= Seq::<Seq<char>>::empty());
        assert(r.take(2).drop_last() =~= r.take(1));
        assert(r.take(3).drop_last() =~= r.take(2));
        assert(r.take(1).last() == unit_row(f));
        assert(r.take(2).last() == profile_row(f));
        assert(r.take(3).last() == frameset_row(f));
        let s0 = initial_state();
        assert(parse_lines(r.take(1).drop_last()) == Ok::<ParseState, crate::error::ErrorView>(
            s0,
        ));
        lemma_step_unit(s0, f, 0);
        let s1 = ParseState { unit: Some(f.unit), ..s0 };
        assert(parse_lines(r.take(1)) == Ok::<ParseState, crate::error::ErrorView>(s1));
        lemma_step_profile(s1, f, 1);
        let s2 = ParseState { profile: Some(f.profile), ..s1 };
        assert(parse_lines(r.take(2)) == Ok::<ParseState, crate::error::ErrorView>(s2));
        lemma_step_frameset(s2, f, 2);
        let s3 = ParseState { name: Some(f.name), ..s2 };
        assert(parse_lines(r.take(3)) == Ok::<ParseState, crate::error::ErrorView>(s3));
        assert(f.components.take(0) =~= Seq::<ComponentView>::empty());
        assert(s3 =~= ParseState {
            unit: Some(f.unit),
            profile: Some(f.profile),
            name: Some(f.name),
            components: f.components.take(0),
        });
    } else {
        lemma_parse_rows(f, j - 1);
        let c = f.components[j - 1];
        assert(writable_component(c));
        let st = ParseState {
            unit: Some(f.unit),
            profile: Some(f.profile),
            name: Some(f.name),
            components: f.components.take(j - 1),
        };
        lemma_step_component(st, c, 3 + j - 1);
        assert(r.take(3 + j).drop_last() =~= r.take(3 + j - 1));
        assert(r.take(3 + j).last() == component_row(c));
        assert(f.components.take(j - 1).push(c) =~= f.components.take(j));
    }
}

/// Writing a frameset and reading the text back gives the same frameset,
/// whenever its fields hold no commas or line breaks, its rows do not end in
/// whitespace, its measures are floating-point literals and it has no
/// `NOTCH` or `SERVICE_HOLE` operation (which the parser does not read).
pub proof fn lemma_serialize_then_parse(f: FramesetView)
    requires
        writable(f),
    ensures
        spec_parse(spec_serialize(f)) == Ok::<FramesetView, crate::error::ErrorView>(f),
{
    let r = rows(f);
    let n = f.components.len();
    lemma_lines_text(r);
    lemma_header_rows(f);
    assert(all_free_of(r, '\n')) by {
        assert forall|i: int| 0 <= i < r.len() implies free_of(#[trigger] r[i], '\n') by {
            if i >= 3 {
                assert(writable_component(f.components[i - 3]));
                lemma_component_row(f.components[i - 3], 0);
            }
        }
    }
    lemma_split_join(r, '\n');
    let text = join(r, '\n').push('\n');
    assert(text.drop_last() =~= join(r, '\n'));
    assert(split(text, '\n') == r.push(Seq::<char>::empty()));
    assert(r.push(Seq::<char>::empty()).drop_last() =~= r);
    lemma_parse_rows(f, n as int);
    assert(r.take(3 + n as int) =~= r);
    assert(trim(Seq::<char>::empty()) =~= Seq::<char>::empty());
    assert(f.components.take(n as int) =~= f.components);
}


// ---------------------------------------------------------------------------
// What the parser gives back can be written again.
// ---------------------------------------------------------------------------

/// The texts that the parser stores from the rows read so far are plain, and
/// its components are writable.
pub open spec fn plain_state(st: ParseState) -> bool {
    &&& (st.name matches Some(n) ==> plain(n))
    &&& (st.profile matches Some(p) ==> plain(p.code) && plain(p.description))
    &&& forall|i: int|
        0 <= i < st.components.len() ==> writable_component(#[trigger] st.components[i])
}

/// Operations that the parser reads are ones it knows, at literal positions.
proof fn lemma_read_operations_writable(fields: Seq<Seq<char>>, i: int)
    requires
        spec_operations(fields, i) is Ok,
    ensures
        forall|j: int|
            0 <= j < spec_operations(fields, i)->Ok_0.len() ==> readable(
                (#[trigger] spec_operations(fields, i)->Ok_0[j]).kind,
            ) && is_float_literal(spec_operations(fields, i)->Ok_0[j].position),
    decreases fields.len() - i,
{
    if 0 <= i && i + 1 < fields.len() {
        lemma_read_operations_writable(fields, i + 2);
        let ops = spec_operations(fields, i)->Ok_0;
        let rest = spec_operations(fields, i + 2)->Ok_0;
        assert forall|j: int| 0 <= j < ops.len() implies readable((#[trigger] ops[j]).kind)
            && is_float_literal(ops[j].position) by {
            if j > 0 {
                assert(ops[j] == rest[j - 1]);
            }
        }
    }
}

/// Reading one line that holds no line break keeps the stored texts plain.
proof fn lemma_step_plain(st: ParseState, index: int, line: Seq<char>)
    requires
        plain_state(st),
        free_of(line, '\n'),
        step(st, index, line) is Ok,
    ensures
        plain_state(step(st, index, line)->Ok_0),
{
    let t = trim(line);
    let fields = split(t, ',');
    lemma_trim_free(line, '\n');
    lemma_split_pieces_free(t, ',', ',');
    lemma_split_pieces_free(t, ',', '\n');
    assert forall|i: int| 0 <= i < fields.len() implies plain(#[trigger] fields[i]) by {
        assert(free_of(fields[i], ',') && free_of(fields[i], '\n'));
    }
    let next = step(st, index, line)->Ok_0;
    if t.len() != 0 && fields[0] != "UNIT"@ && fields[0] != "PROFILE"@ && fields[0]
        != "FRAMESET"@ && fields[0] == "COMPONENT"@ {
        let c = spec_parse_component(fields, (index + 1) as usize)->Ok_0;
        lemma_read_operations_writable(fields, 5);
        assert(writable_component(c));
        assert forall|i: int| 0 <= i < next.components.len() implies writable_component(
            #[trigger] next.components[i],
        ) by {
            if i < st.components.len() {
                assert(next.components[i] == st.components[i]);
            }
        }
    } else if t.len() != 0 && fields[0] != "UNIT"@ && fields[0] == "PROFILE"@ {
        assert(plain(Seq::<char>::empty()));
    }
}

/// Every line of a text is free of line breaks, so everything the parser
/// stores is plain.
proof fn lemma_parse_lines_plain(lines: Seq<Seq<char>>)
    requires
        all_free_of(lines, '\n'),
        parse_lines(lines) is Ok,
    ensures
        plain_state(parse_lines(lines)->Ok_0),
    decreases lines.len(),
{
    if lines.len() > 0 {
        let d = lines.drop_last();
        assert(all_free_of(d, '\n')) by {
            assert forall|i: int| 0 <= i < d.len() implies free_of(#[trigger] d[i], '\n') by {
                assert(d[i] == lines[i]);
            }
        }
        lemma_parse_lines_plain(d);
        assert(free_of(lines[lines.len() - 1], '\n'));
        lemma_step_plain(parse_lines(d)->Ok_0, lines.len() - 1, lines.last());
    }
}

/// A frameset that the parser reads has plain names, measures written as
/// floating-point literals, and no `NOTCH` or `SERVICE_HOLE` operation.
pub proof fn lemma_parsed_is_plain(s: Seq<char>, f: FramesetView)
    requires
        spec_parse(s) == Ok::<FramesetView, crate::error::ErrorView>(f),
    ensures
        plain(f.name),
        plain(f.profile.code),
        plain(f.profile.description),
        forall|i: int| 0 <= i < f.components.len() ==> writable_component(#[trigger] f.components[i]),
{
    let lines = split(s, '\n');
    lemma_split_pieces_free(s, '\n', '\n');
    lemma_parse_lines_plain(lines);
}

/// Writing a parsed frameset and reading the text again gives the same
/// frameset, so writing is a normal form of the text; it needs the frameset
/// name and the profile description not to end in whitespace, which a
/// FRAMESET or PROFILE row with a further field after them can leave.
pub proof fn lemma_parse_serialize_parse(s: Seq<char>, f: FramesetView)
    requires
        spec_parse(s) == Ok::<FramesetView, crate::error::ErrorView>(f),
        ends_clean(f.name),
        ends_clean(f.profile.description),
    ensures
        spec_parse(spec_serialize(f)) == Ok::<FramesetView, crate::error::ErrorView>(f),
{
    lemma_parsed_is_plain(s, f);
    lemma_serialize_then_parse(f);
}


// ---------------------------------------------------------------------------
// Keywords.
// ---------------------------------------------------------------------------

/// Reading a unit's keyword gives the unit back.
pub proof fn lemma_unit_name(u: Unit)
    ensures
        spec_parse_unit(unit_name(u)) == Ok::<Unit, crate::error::ErrorView>(u),
{
    match u {
        Unit::Millimetre => {},
    }
}

/// An operation's keyword reads back as the operation exactly for the kinds
/// that the parser knows: `NOTCH` and `SERVICE_HOLE` are written but not read.
pub proof fn lemma_operation_name(k: OperationKind)
    ensures
        operation_kind(operation_name(k)) == if readable(k) {
            Some(k)
        } else {
            None::<OperationKind>
        },
{
    lemma_keywords();
    if k == OperationKind::Notch {
        assert(operation_name(k)[0] != "SWAGE"@[0]);
    }
}

// ---------------------------------------------------------------------------
// Rows the parser does not know.
// ---------------------------------------------------------------------------

/// A row that is blank, or whose first field is none of `UNIT`, `PROFILE`,
/// `FRAMESET` and `COMPONENT`.
pub open spec fn ignored_row(row: Seq<char>) -> bool {
    let t = trim(row);
    let head = split(t, ',')[0];
    t.len() == 0 || (head != "UNIT"@ && head != "PROFILE"@ && head != "FRAMESET"@ && head
        != "COMPONENT"@)
}

/// Unknown row types are ignored: a line holding an unknown or blank row,
/// added at the end of a text, changes nothing that reading it gives.
pub proof fn lemma_unknown_row_ignored(s: Seq<char>, row: Seq<char>)
    requires
        free_of(row, '\n'),
        ignored_row(row),
    ensures
        spec_parse(s.push('\n') + row) == spec_parse(s),
{
    lemma_split_append(s, row, '\n');
    lemma_split_free(row, '\n');
    let lines = split(s, '\n');
    let all = split(s.push('\n') + row, '\n');
    assert(all == lines.push(row));
    assert(all.drop_last() =~= lines);
}


/// Two errors that differ at most in the line number of a `ParseError`.
pub open spec fn same_error(a: crate::error::ErrorView, b: crate::error::ErrorView) -> bool {
    match (a, b) {
        (
            crate::error::ErrorView::ParseError { message: m1, .. },
            crate::error::ErrorView::ParseError { message: m2, .. },
        ) => m1 == m2,
        _ => a == b,
    }
}

/// Two outcomes that are the same, but for the line number of a `ParseError`.
pub open spec fn same_outcome<T>(a: Result<T, crate::error::ErrorView>, b: Result<T, crate::error::ErrorView>) -> bool {
    match (a, b) {
        (Ok(x), Ok(y)) => x == y,
        (Err(x), Err(y)) => same_error(x, y),
        _ => false,
    }
}

/// Where a line stands matters only to the line number of a `ParseError`.
proof fn lemma_step_position(st: ParseState, i: int, j: int, line: Seq<char>)
    ensures
        same_outcome(step(st, i, line), step(st, j, line)),
{
}

/// Reading lines with an ignored row among them comes out as reading them
/// without it, but for the line numbers of errors after it.
proof fn lemma_lines_with_ignored_row(
    before: Seq<Seq<char>>,
    row: Seq<char>,
    after: Seq<Seq<char>>,
)
    requires
        ignored_row(row),
    ensures
        same_outcome(parse_lines(before.push(row) + after), parse_lines(before + after)),
    decreases after.len(),
{
    if after.len() == 0 {
        assert(before.push(row) + after =~= before.push(row));
        assert(before + after =~= before);
        assert(before.push(row).drop_last() =~= before);
    } else {
        let a = after.drop_last();
        lemma_lines_with_ignored_row(before, row, a);
        let p = before.push(row) + after;
        let q = before + after;
        assert(p.drop_last() =~= before.push(row) + a);
        assert(q.drop_last() =~= before + a);
        assert(p.last() == after.last() && q.last() == after.last());
        match (parse_lines(before.push(row) + a), parse_lines(before + a)) {
            (Ok(x), Ok(y)) => {
                lemma_step_position(x, p.len() - 1, q.len() - 1, after.last());
            },
            _ => {},
        }
    }
}

/// Unknown row types are silently ignored: a line holding a blank row or a
/// row of an unknown kind, put between any two lines of a text, changes
/// nothing that reading the text gives but the line numbers of errors after it.
pub proof fn lemma_unknown_row_anywhere(a: Seq<char>, row: Seq<char>, b: Seq<char>)
    requires
        free_of(row, '\n'),
        ignored_row(row),
    ensures
        same_outcome(spec_parse(a.push('\n') + row.push('\n') + b), spec_parse(a.push('\n') + b)),
{
    lemma_split_append(a, row.push('\n') + b, '\n');
    lemma_split_append(row, b, '\n');
    lemma_split_free(row, '\n');
    lemma_split_append(a, b, '\n');
    assert(a.push('\n') + row.push('\n') + b =~= a.push('\n') + (row.push('\n') + b));
    let la = split(a, '\n');
    let lb = split(b, '\n');
    assert(split(a.push('\n') + row.push('\n') + b, '\n') =~= la.push(row) + lb);
    lemma_lines_with_ignored_row(la, row, lb);
}


// ---------------------------------------------------------------------------
// Writing what was read.
// ---------------------------------------------------------------------------

/// Writing a frameset, reading the text and writing what was read gives the
/// same text again.
pub proof fn lemma_serialize_parse_serialize(f: FramesetView)
    requires
        writable(f),
    ensures
        spec_parse(spec_serialize(f)) is Ok,
        spec_serialize(spec_parse(spec_serialize(f))->Ok_0) == spec_serialize(f),
{
    lemma_serialize_then_parse(f);
}

// ---------------------------------------------------------------------------
// Measures written with two decimals.
// ---------------------------------------------------------------------------

/// The text that two-decimal formatting gives for a finite number: an
/// optional `-`, at least one digit, a point and two digits.
pub open spec fn is_two_decimal_text(s: Seq<char>) -> bool {
    let b = if s.len() > 0 && s[0] == '-' {
        s.drop_first()
    } else {
        s
    };
    &&& b.len() >= 4
    &&& all_digits(b.take(b.len() - 3))
    &&& b[b.len() - 3] == '.'
    &&& is_digit(b[b.len() - 2])
    &&& is_digit(b[b.len() - 1])
}

/// `sign`, digits, a point and digits form a floating-point literal.
proof fn lemma_point_number_literal(sign: Seq<char>, p: Seq<char>, d: Seq<char>)
    requires
        sign =~= Seq::<char>::empty() || sign =~= seq!['-'],
        p.len() >= 1,
        all_digits(p),
        d.len() >= 1,
        all_digits(d),
    ensures
        is_float_literal(sign + p + seq!['.'] + d),
{
    let r = sign + p + seq!['.'] + d;
    let b = p + seq!['.'] + d;
    if sign.len() == 1 {
        assert(r.drop_first() =~= b);
    } else {
        assert(r =~= b);
        assert(is_digit(p[0]));
    }
    assert(unsigned_part(r) =~= b);
    let k = p.len() as int;
    assert(b.take(k) =~= p);
    assert(b.skip(k + 1) =~= d);
    assert(b[k] == '.');
    assert(is_mantissa(b));
    assert(is_decimal_number(b));
}

/// Tidying leaves alone a signed number with a point whose last decimal is
/// not a trailing zero, or is the single `0` after the point.
proof fn lemma_tidy_fixed_point(q: Seq<char>, d: Seq<char>)
    requires
        q.len() >= 1,
        is_digit(q.last()),
        !has_char(q, '.'),
        d.len() >= 1,
        all_digits(d),
        d.last() != '0' || d =~= seq!['0'],
    ensures
        spec_tidy_decimal(q + seq!['.'] + d) == q + seq!['.'] + d,
{
    let r = q + seq!['.'] + d;
    let point = q.len() as int;
    assert(r[point] == '.');
    assert(is_digit(d[d.len() - 1]));
    if d.last() != '0' {
        assert(strip_trailing(r, '0') == r);
        assert(strip_trailing(r, '.') == r);
        assert(has_char(r, '.'));
    } else {
        let q1 = q + seq!['.'];
        assert(r.drop_last() =~= q1);
        assert(strip_trailing(q1, '0') == q1);
        assert(strip_trailing(r, '0') == q1);
        assert(q1.drop_last() =~= q);
        assert(strip_trailing(q, '.') == q);
        assert(strip_trailing(q1, '.') == q);
        assert(q + seq!['.', '0'] =~= r);
    }
}

/// Measures written through two-decimal formatting and tidying are
/// floating-point literals, which the parser reads back, and tidying them
/// again changes nothing.
pub proof fn lemma_tidy_two_decimals(s: Seq<char>)
    requires
        is_two_decimal_text(s),
    ensures
        is_float_literal(spec_tidy_decimal(s)),
        spec_tidy_decimal(spec_tidy_decimal(s)) == spec_tidy_decimal(s),
{
    let neg = s.len() > 0 && s[0] == '-';
    let b = if neg {
        s.drop_first()
    } else {
        s
    };
    let sign = if neg {
        seq!['-']
    } else {
        Seq::<char>::empty()
    };
    let n = b.len();
    let p = b.take(n - 3);
    let d1 = b[n - 2];
    let d2 = b[n - 1];
    let q = sign + p;
    assert(b =~= p + seq!['.', d1, d2]);
    assert(s =~= q + seq!['.'] + seq![d1, d2]) by {
        if neg {
            assert(s =~= seq!['-'] + s.drop_first());
        }
    }
    assert(is_digit(p[p.len() - 1]));
    assert(q.last() == p.last());
    assert(!has_char(q, '.')) by {
        assert forall|i: int| 0 <= i < q.len() implies q[i] != '.' by {
            if neg && i == 0 {
            } else if neg {
                assert(q[i] == p[i - 1]);
            } else {
                assert(q[i] == p[i]);
            }
        }
    }
    let r = spec_tidy_decimal(s);
    if d2 != '0' {
        let d = seq![d1, d2];
        lemma_tidy_fixed_point(q, d);
        lemma_point_number_literal(sign, p, d);
        assert(q + seq!['.'] + d =~= sign + p + seq!['.'] + d);
    } else if d1 != '0' {
        let d = seq![d1];
        assert(s.last() == '0');
        assert(s.drop_last() =~= q + seq!['.'] + d);
        lemma_tidy_fixed_point(q, d);
        assert(strip_trailing(s, '0') == q + seq!['.'] + d);
        assert(r == q + seq!['.'] + d);
        lemma_point_number_literal(sign, p, d);
        assert(q + seq!['.'] + d =~= sign + p + seq!['.'] + d);
    } else {
        let d = seq!['0'];
        let q1 = q + seq!['.'];
        assert(s.drop_last() =~= q1 + seq!['0']);
        assert((q1 + seq!['0']).drop_last() =~= q1);
        assert(strip_trailing(q1, '0') == q1);
        assert(strip_trailing(q1 + seq!['0'], '0') == q1);
        assert(strip_trailing(s, '0') == q1);
        assert(q1.drop_last() =~= q);
        assert(strip_trailing(q, '.') == q);
        assert(strip_trailing(q1, '.') == q);
        assert(r == q + seq!['.', '0']);
        assert(q + seq!['.', '0'] =~= q + seq!['.'] + d);
        lemma_tidy_fixed_point(q, d);
        lemma_point_number_literal(sign, p, d);
        assert(q + seq!['.'] + d =~= sign + p + seq!['.'] + d);
    }
}


// ---------------------------------------------------------------------------
// Whitespace around a row.
// ---------------------------------------------------------------------------

/// A row is read from its trimmed text: whitespace after it (such as the
/// carriage return of a `\r\n` line ending) changes nothing that reading it
/// gives, in any of its fields.
pub proof fn lemma_step_trailing_whitespace(st: ParseState, index: int, line: Seq<char>, c: char)
    requires
        is_whitespace(c),
    ensures
        step(st, index, line.push(c)) == step(st, index, line),
{
    lemma_trim_push_whitespace(line, c);
}

/// Whitespace before a row changes nothing that reading it gives.
pub proof fn lemma_step_leading_whitespace(st: ParseState, index: int, line: Seq<char>, c: char)
    requires
        is_whitespace(c),
    ensures
        step(st, index, seq![c] + line) == step(st, index, line),
{
    lemma_trim_prepend_whitespace(line, c);
}

/// Lines that read the same lead to the same result whatever lines follow.
proof fn lemma_same_prefix(a: Seq<Seq<char>>, a2: Seq<Seq<char>>, b: Seq<Seq<char>>)
    requires
        a.len() == a2.len(),
        parse_lines(a) == parse_lines(a2),
    ensures
        parse_lines(a + b) == parse_lines(a2 + b),
    decreases b.len(),
{
    if b.len() == 0 {
        assert(a + b =~= a);
        assert(a2 + b =~= a2);
    } else {
        lemma_same_prefix(a, a2, b.drop_last());
        assert((a + b).drop_last() =~= a + b.drop_last());
        assert((a2 + b).drop_last() =~= a2 + b.drop_last());
        assert((a + b).last() == b.last() && (a2 + b).last() == b.last());
    }
}

/// Whitespace just before a line break changes nothing that reading the text
/// gives: a file with `\r\n` line endings reads as the same file with `\n`
/// line endings.
pub proof fn lemma_whitespace_before_line_break(a: Seq<char>, c: char, b: Seq<char>)
    requires
        is_whitespace(c),
        c != '\n',
    ensures
        spec_parse(a.push(c).push('\n') + b) == spec_parse(a.push('\n') + b),
{
    lemma_split_append(a.push(c), b, '\n');
    lemma_split_append(a, b, '\n');
    lemma_split_nonempty(a, '\n');
    let p = split(a, '\n');
    let p2 = split(a.push(c), '\n');
    assert(a.push(c).drop_last() =~= a);
    assert(p2 == p.update(p.len() - 1, p.last().push(c)));
    assert(p2.drop_last() =~= p.drop_last());
    assert(p2.last() == p.last().push(c));
    match parse_lines(p.drop_last()) {
        Ok(st) => {
            lemma_step_trailing_whitespace(st, p.len() - 1, p.last(), c);
        },
        Err(_) => {},
    }
    assert(parse_lines(p2) == parse_lines(p));
    lemma_same_prefix(p2, p, split(b, '\n'));
}

// ---------------------------------------------------------------------------
// Operation keywords.
// ---------------------------------------------------------------------------

/// Each operation kind is written under a keyword of its own: no two kinds
/// share one, so a service hole is never written as a notch.
pub proof fn lemma_operation_names_distinct(k1: OperationKind, k2: OperationKind)
    ensures
        operation_name(k1) == operation_name(k2) ==> k1 == k2,
{
    lemma_keywords();
    if operation_name(k1) == operation_name(k2) && k1 != k2 {
        assert(operation_name(k1).len() == operation_name(k2).len());
        assert(operation_name(k1)[0] == operation_name(k2)[0]);
    }
}

/// Operation keywords are made of capital letters and `_`, so they stand as
/// one field of a row.
pub proof fn lemma_operation_name_is_keyword(k: OperationKind)
    ensures
        operation_name(k).len() >= 1,
        forall|i: int|
            0 <= i < operation_name(k).len() ==> ('A' <= #[trigger] operation_name(k)[i] <= 'Z'
                || operation_name(k)[i] == '_'),
{
    lemma_keywords();
}

} // verus!
