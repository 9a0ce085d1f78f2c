//! Writing a [`Frameset`] as a Howick CSV file.
use vstd::prelude::*;
use crate::error::HowickError;
use crate::text::{
    chars_of, decimal, decimal_text, join, lemma_join_one, lemma_join_push, push_char, string_of,
};
use crate::types::{
    Component, ComponentView, Frameset, FramesetView, OperationView, label_name, operation_name,
    operation_views, unit_name,
};

verus! {

// ---------------------------------------------------------------------------
// What serialising means.
// ---------------------------------------------------------------------------

/// The `NAME,position` fields of the operations, in order.
pub open spec fn operation_fields(ops: Seq<OperationView>) -> Seq<Seq<char>>
    decreases ops.len(),
{
    if ops.len() == 0 {
        Seq::empty()
    } else {
        operation_fields(ops.drop_last()) + seq![
            operation_name(ops.last().kind),
            ops.last().position,
        ]
    }
}

/// The fields of a COMPONENT row.
pub open spec fn component_fields(c: ComponentView) -> Seq<Seq<char>> {
    seq![
        "COMPONENT"@,
        c.id,
        label_name(c.label),
        decimal(c.quantity as nat),
        c.length_mm,
    ] + operation_fields(c.operations)
}

pub open spec fn component_row(c: ComponentView) -> Seq<char> {
    join(component_fields(c), ',')
}

pub open spec fn unit_row(f: FramesetView) -> Seq<char> {
    join(seq!["UNIT"@, unit_name(f.unit)], ',')
}

pub open spec fn profile_row(f: FramesetView) -> Seq<char> {
    join(seq!["PROFILE"@, f.profile.code, f.profile.description], ',')
}

pub open spec fn frameset_row(f: FramesetView) -> Seq<char> {
    join(seq!["FRAMESET"@, f.name], ',')
}

/// The rows of the file: the UNIT, PROFILE and FRAMESET header, then one
/// COMPONENT row per component, in order.
pub open spec fn rows(f: FramesetView) -> Seq<Seq<char>> {
    seq![unit_row(f), profile_row(f), frameset_row(f)] + Seq::new(
        f.components.len(),
        |i: int| component_row(f.components[i]),
    )
}

/// The rows, each followed by a newline.
pub open spec fn lines_text(rows: Seq<Seq<char>>) -> Seq<char>
    decreases rows.len(),
{
    if rows.len() == 0 {
        Seq::empty()
    } else {
        lines_text(rows.drop_last()) + rows.last().push('\n')
    }
}

pub open spec fn spec_serialize(f: FramesetView) -> Seq<char> {
    lines_text(rows(f))
}

// ---------------------------------------------------------------------------
// The serialiser.
// ---------------------------------------------------------------------------

/// Appends a comma and then `field` to a row.
fn append_field(row: &mut String, field: &str)
    ensures
        final(row)@ == old(row)@.push(',') + field@,
{
    push_char(row, ',');
    row.append(field);
}

/// The COMPONENT row of `c`, without its newline.
pub fn component_line(c: &Component) -> (s: String)
    ensures
        s@ == component_row(c@),
{
    let ghost cv = c@;
    let ghost base = seq![
        "COMPONENT"@,
        cv.id,
        label_name(cv.label),
        decimal(cv.quantity as nat),
        cv.length_mm,
    ];
    let mut row = "COMPONENT".to_owned();
    proof {
        lemma_join_one("COMPONENT"@, ',');
        assert(base.take(1) =~= seq!["COMPONENT"@]);
    }
    append_field(&mut row, c.id.as_str());
    proof {
        lemma_join_push(base.take(1), cv.id, ',');
        assert(base.take(1).push(cv.id) =~= base.take(2));
    }
    append_field(&mut row, c.label.as_str());
    proof {
        lemma_join_push(base.take(2), label_name(cv.label), ',');
        assert(base.take(2).push(label_name(cv.label)) =~= base.take(3));
    }
    let quantity = decimal_text(c.quantity as usize);
    append_field(&mut row, quantity.as_str());
    proof {
        lemma_join_push(base.take(3), decimal(cv.quantity as nat), ',');
        assert(base.take(3).push(decimal(cv.quantity as nat)) =~= base.take(4));
    }
    append_field(&mut row, c.length_mm.as_str());
    proof {
        lemma_join_push(base.take(4), cv.length_mm, ',');
        assert(base.take(4).push(cv.length_mm) =~= base);
    }
    let ghost ops = operation_views(c.operations@);
    assert(ops.take(0) =~= Seq::<OperationView>::empty());
    assert(base + operation_fields(ops.take(0)) =~= base);
    let mut j: usize = 0;
    while j < c.operations.len()
        invariant
            j <= c.operations.len(),
            ops == operation_views(c.operations@),
            base.len() == 5,
            row@ == join(base + operation_fields(ops.take(j as int)), ','),
        decreases c.operations.len() - j,
    {
        let op = &c.operations[j];
        let ghost before = base + operation_fields(ops.take(j as int));
        append_field(&mut row, op.name());
        proof {
            lemma_join_push(before, operation_name(ops[j as int].kind), ',');
        }
        append_field(&mut row, op.position().as_str());
        proof {
            lemma_join_push(
                before.push(operation_name(ops[j as int].kind)),
                ops[j as int].position,
                ',',
            );
        }
        let ghost after = base + operation_fields(ops.take(j + 1));
        assert(ops.take(j + 1).drop_last() =~= ops.take(j as int));
        assert(after =~= before.push(operation_name(ops[j as int].kind)).push(
            ops[j as int].position,
        ));
        j = j + 1;
    }
    assert(ops.take(j as int) =~= ops);
    row
}

/// Serialize a [`Frameset`] to a Howick CSV string: a UNIT, a PROFILE and a
/// FRAMESET row, then one COMPONENT row per component, each row ended by a
/// newline; measures are written as the literals they hold. Writing into a
/// string cannot fail, so the result is always `Ok`.
pub fn serialize(frameset: &Frameset) -> (r: Result<String, HowickError>)
    ensures
        r is Ok,
        r matches Ok(s) ==> s@ == spec_serialize(frameset@),
{
    let ghost f = frameset@;
    let ghost all = rows(f);
    let mut out = String::new();
    assert(lines_text(Seq::<Seq<char>>::empty()) == Seq::<char>::empty());
    // Header
    let mut line = "UNIT".to_owned();
    append_field(&mut line, frameset.unit.as_str());
    proof {
        lemma_join_one("UNIT"@, ',');
        lemma_join_push(seq!["UNIT"@], unit_name(f.unit), ',');
        assert(seq!["UNIT"@].push(unit_name(f.unit)) =~= seq!["UNIT"@, unit_name(f.unit)]);
    }
    push_char(&mut line, '\n');
    out.append(line.as_str());
    assert(all.take(1).drop_last() =~= Seq::<Seq<char>>::empty());
    assert(out@ =~= lines_text(all.take(1)));
    let mut line = "PROFILE".to_owned();
    append_field(&mut line, frameset.profile.code.as_str());
    append_field(&mut line, frameset.profile.description.as_str());
    proof {
        lemma_join_one("PROFILE"@, ',');
        lemma_join_push(seq!["PROFILE"@], f.profile.code, ',');
        assert(seq!["PROFILE"@].push(f.profile.code) =~= seq!["PROFILE"@, f.profile.code]);
        lemma_join_push(seq!["PROFILE"@, f.profile.code], f.profile.description, ',');
        assert(seq!["PROFILE"@, f.profile.code].push(f.profile.description) =~= seq![
            "PROFILE"@,
            f.profile.code,
            f.profile.description,
        ]);
    }
    push_char(&mut line, '\n');
    out.append(line.as_str());
    assert(all.take(2).drop_last() =~= all.take(1));
    assert(out@ =~= lines_text(all.take(2)));
    let mut line = "FRAMESET".to_owned();
    append_field(&mut line, frameset.name.as_str());
    proof {
        lemma_join_one("FRAMESET"@, ',');
        lemma_join_push(seq!["FRAMESET"@], f.name, ',');
        assert(seq!["FRAMESET"@].push(f.name) =~= seq!["FRAMESET"@, f.name]);
    }
    push_char(&mut line, '\n');
    out.append(line.as_str());
    assert(all.take(3).drop_last() =~= all.take(2));
    assert(out@ =~= lines_text(all.take(3)));
    // Components
    let mut i: usize = 0;
    while i < frameset.components.len()
        invariant
            i <= frameset.components.len(),
            f == frameset@,
            all == rows(f),
            all.len() == 3 + frameset.components.len(),
            out@ == lines_text(all.take(3 + i)),
        decreases frameset.components.len() - i,
    {
        let mut line = component_line(&frameset.components[i]);
        assert(frameset.components@[i as int]@ == f.components[i as int]);
        push_char(&mut line, '\n');
        out.append(line.as_str());
        assert(all.take(3 + i + 1).drop_last() =~= all.take(3 + i));
        assert(all[3 + i] == component_row(f.components[i as int]));
        assert(out@ =~= lines_text(all.take(3 + i + 1)));
        i = i + 1;
    }
    assert(all.take(3 + i) =~= all);
    Ok(out)
}

// ---------------------------------------------------------------------------
// Tidying a fixed-point decimal the way Howick CSVs write measures.
// ---------------------------------------------------------------------------

/// `s` without the trailing run of `c`.
pub open spec fn strip_trailing(s: Seq<char>, c: char) -> Seq<char>
    decreases s.len(),
{
    if s.len() > 0 && s.last() == c {
        strip_trailing(s.drop_last(), c)
    } else {
        s
    }
}

pub open spec fn has_char(s: Seq<char>, c: char) -> bool {
    exists|i: int| 0 <= i < s.len() && s[i] == c
}

/// Trailing zeros and then trailing points removed; if no point is left, `.0`
/// is added, so that a measure always shows a decimal point.
pub open spec fn spec_tidy_decimal(s: Seq<char>) -> Seq<char> {
    let t = strip_trailing(strip_trailing(s, '0'), '.');
    if has_char(t, '.') {
        t
    } else {
        t + seq!['.', '0']
    }
}

/// The end of `v[..to]` once the trailing run of `c` is removed.
fn strip_end(v: &Vec<char>, to: usize, c: char) -> (k: usize)
    requires
        to <= v.len(),
    ensures
        k <= to,
        v@.take(k as int) == strip_trailing(v@.take(to as int), c),
{
    let mut k = to;
    while k > 0 && v[k - 1] == c
        invariant
            k <= to <= v.len(),
            strip_trailing(v@.take(to as int), c) == strip_trailing(v@.take(k as int), c),
        decreases k,
    {
        assert(v@.take(k as int).drop_last() =~= v@.take(k - 1));
        k = k - 1;
    }
    k
}

/// Trims a number written with two decimals (`3945.00`, `20.65`, `0.50`) to
/// the form Howick CSVs use: no trailing zeros, but always a decimal point
/// (`3945.0`, `20.65`, `0.5`).
pub fn tidy_decimal(s: &str) -> (r: String)
    ensures
        r@ == spec_tidy_decimal(s@),
{
    let v = chars_of(s);
    assert(v@.take(v.len() as int) =~= v@);
    let k = strip_end(&v, v.len(), '0');
    let k = strip_end(&v, k, '.');
    let mut r = string_of(&v, 0, k);
    assert(v@.subrange(0, k as int) =~= v@.take(k as int));
    let mut i: usize = 0;
    let mut found = false;
    while i < k
        invariant
            i <= k <= v.len(),
            found == exists|j: int| 0 <= j < i && v@[j] == '.',
        decreases k - i,
    {
        if v[i] == '.' {
            found = true;
        }
        i = i + 1;
    }
    assert(found == has_char(v@.take(k as int), '.')) by {
        if found {
            let j = choose|j: int| 0 <= j < k && v@[j] == '.';
            assert(v@.take(k as int)[j] == '.');
        }
        if has_char(v@.take(k as int), '.') {
            let j = choose|j: int| 0 <= j < k && v@.take(k as int)[j] == '.';
            assert(v@[j] == '.');
        }
    }
    if !found {
        push_char(&mut r, '.');
        push_char(&mut r, '0');
        assert(r@ =~= v@.take(k as int) + seq!['.', '0']);
    }
    r
}


/// A tidied measure always shows a decimal point.
pub proof fn lemma_tidy_has_point(s: Seq<char>)
    ensures
        has_char(spec_tidy_decimal(s), '.'),
{
    let t = strip_trailing(strip_trailing(s, '0'), '.');
    if !has_char(t, '.') {
        let r = t + seq!['.', '0'];
        assert(r[t.len() as int] == '.');
    }
}

} // verus!
