//! Reading a Howick CSV file into a [`Frameset`].
//!
//! ```text
//! UNIT,MILLIMETRE
//! PROFILE,S8908,Standard Profile
//! FRAMESET,T1
//! COMPONENT,T1-1,LABEL_INV,1,3945.0,DIMPLE,20.65,...
//! ```
use vstd::prelude::*;
use crate::error::{ErrorView, HowickError};
use crate::literal::{
    float_literal_chars, is_float_literal, std_parse_u32, u32_literal, u32_parse_result,
};
use crate::text::{
    chars_of, decimal, decimal_text, same_chars, split, split_range, string_of, trim,
    trimmed_bounds, views,
};
use crate::types::{
    Component, ComponentView, Frameset, FramesetView, LabelOrientation, Millimetres, Operation,
    OperationKind, OperationView, Profile, ProfileView, Unit, component_views, operation_views,
};

verus! {

// ---------------------------------------------------------------------------
// What parsing means.
// ---------------------------------------------------------------------------

pub open spec fn spec_parse_unit(s: Seq<char>) -> Result<Unit, ErrorView> {
    if s == "MILLIMETRE"@ {
        Ok(Unit::Millimetre)
    } else {
        Err(ErrorView::UnknownUnit(s))
    }
}

pub open spec fn spec_parse_label(s: Seq<char>) -> Result<LabelOrientation, ErrorView> {
    if s == "LABEL_NRM"@ {
        Ok(LabelOrientation::Normal)
    } else if s == "LABEL_INV"@ {
        Ok(LabelOrientation::Inverted)
    } else {
        Err(ErrorView::UnknownLabel(s))
    }
}

/// A count: its value when `s` is a `u32` literal, else the error that
/// `str::parse::<u32>` gives for `s`.
pub open spec fn spec_parse_u32(s: Seq<char>) -> Result<u32, ErrorView> {
    match u32_literal(s) {
        Some(n) => Ok(n),
        None => Err(ErrorView::InvalidInteger { value: s, source: u32_parse_result(s)->Err_0 }),
    }
}

pub open spec fn spec_parse_measure(s: Seq<char>) -> Result<Seq<char>, ErrorView> {
    if is_float_literal(s) {
        Ok(s)
    } else {
        Err(ErrorView::InvalidNumber(s))
    }
}

/// The operation that a keyword names in a COMPONENT row. `NOTCH` and
/// `SERVICE_HOLE` are not read.
pub open spec fn operation_kind(s: Seq<char>) -> Option<OperationKind> {
    if s == "DIMPLE"@ {
        Some(OperationKind::Dimple)
    } else if s == "LIP_CUT"@ {
        Some(OperationKind::LipCut)
    } else if s == "SWAGE"@ {
        Some(OperationKind::Swage)
    } else if s == "WEB"@ {
        Some(OperationKind::Web)
    } else if s == "END_TRUSS"@ {
        Some(OperationKind::EndTruss)
    } else {
        None
    }
}

/// The operations written as `NAME,position` pairs from field `i` on; a
/// trailing unpaired field is ignored.
pub open spec fn spec_operations(fields: Seq<Seq<char>>, i: int) -> Result<
    Seq<OperationView>,
    ErrorView,
>
    decreases fields.len() - i,
{
    if 0 <= i && i + 1 < fields.len() {
        match spec_parse_measure(fields[i + 1]) {
            Err(e) => Err(e),
            Ok(position) => match operation_kind(fields[i]) {
                None => Err(ErrorView::UnknownOperation(fields[i])),
                Some(kind) => match spec_operations(fields, i + 2) {
                    Ok(rest) => Ok(seq![OperationView { kind, position }] + rest),
                    Err(e) => Err(e),
                },
            },
        }
    } else {
        Ok(Seq::empty())
    }
}

pub open spec fn arity_message(n: nat) -> Seq<char> {
    "COMPONENT needs at least 5 fields, got "@ + decimal(n)
}

/// A COMPONENT row: `COMPONENT,id,label,quantity,length[,OP,position]*`.
pub open spec fn spec_parse_component(fields: Seq<Seq<char>>, line: usize) -> Result<
    ComponentView,
    ErrorView,
> {
    if fields.len() < 5 {
        Err(ErrorView::ParseError { line, message: arity_message(fields.len()) })
    } else {
        match spec_parse_label(fields[2]) {
            Err(e) => Err(e),
            Ok(label) => match spec_parse_u32(fields[3]) {
                Err(e) => Err(e),
                Ok(quantity) => match spec_parse_measure(fields[4]) {
                    Err(e) => Err(e),
                    Ok(length_mm) => match spec_operations(fields, 5) {
                        Err(e) => Err(e),
                        Ok(operations) => Ok(
                            ComponentView { id: fields[1], label, quantity, length_mm, operations },
                        ),
                    },
                },
            },
        }
    }
}

/// What the rows read so far have set.
#[verifier::ext_equal]
pub struct ParseState {
    pub unit: Option<Unit>,
    pub profile: Option<ProfileView>,
    pub name: Option<Seq<char>>,
    pub components: Seq<ComponentView>,
}

pub open spec fn initial_state() -> ParseState {
    ParseState { unit: None, profile: None, name: None, components: Seq::empty() }
}

/// Reading the line at `index` (counted from 0): blank lines and rows of an
/// unknown kind change nothing; a later UNIT, PROFILE or FRAMESET row replaces
/// an earlier one; COMPONENT rows add a component.
pub open spec fn step(st: ParseState, index: int, line: Seq<char>) -> Result<ParseState, ErrorView> {
    let t = trim(line);
    let fields = split(t, ',');
    if t.len() == 0 {
        Ok(st)
    } else if fields[0] == "UNIT"@ {
        if fields.len() < 2 {
            Err(ErrorView::MissingField("UNIT value"@))
        } else {
            match spec_parse_unit(fields[1]) {
                Ok(u) => Ok(ParseState { unit: Some(u), ..st }),
                Err(e) => Err(e),
            }
        }
    } else if fields[0] == "PROFILE"@ {
        if fields.len() < 2 {
            Err(ErrorView::MissingField("PROFILE code"@))
        } else {
            let description = if fields.len() < 3 {
                Seq::<char>::empty()
            } else {
                fields[2]
            };
            Ok(ParseState { profile: Some(ProfileView { code: fields[1], description }), ..st })
        }
    } else if fields[0] == "FRAMESET"@ {
        if fields.len() < 2 {
            Err(ErrorView::MissingField("FRAMESET name"@))
        } else {
            Ok(ParseState { name: Some(fields[1]), ..st })
        }
    } else if fields[0] == "COMPONENT"@ {
        match spec_parse_component(fields, (index + 1) as usize) {
            Ok(c) => Ok(ParseState { components: st.components.push(c), ..st }),
            Err(e) => Err(e),
        }
    } else {
        Ok(st)
    }
}

/// Reading the lines in order; the first error stops the reading.
pub open spec fn parse_lines(lines: Seq<Seq<char>>) -> Result<ParseState, ErrorView>
    decreases lines.len(),
{
    if lines.len() == 0 {
        Ok(initial_state())
    } else {
        match parse_lines(lines.drop_last()) {
            Ok(st) => step(st, lines.len() - 1, lines.last()),
            Err(e) => Err(e),
        }
    }
}

/// The frameset that the rows describe; it needs a FRAMESET, a UNIT and a
/// PROFILE row, asked for in that order.
pub open spec fn finish(st: ParseState) -> Result<FramesetView, ErrorView> {
    match st.name {
        None => Err(ErrorView::MissingField("FRAMESET"@)),
        Some(name) => match st.unit {
            None => Err(ErrorView::MissingField("UNIT"@)),
            Some(unit) => match st.profile {
                None => Err(ErrorView::MissingField("PROFILE"@)),
                Some(profile) => Ok(
                    FramesetView { name, unit, profile, components: st.components },
                ),
            },
        },
    }
}

/// The meaning of a whole CSV text: its lines are those between `\n`s (a `\r`
/// before a `\n` is whitespace, which trimming removes).
pub open spec fn spec_parse(input: Seq<char>) -> Result<FramesetView, ErrorView> {
    match parse_lines(split(input, '\n')) {
        Ok(st) => finish(st),
        Err(e) => Err(e),
    }
}

// ---------------------------------------------------------------------------
// The parser.
// ---------------------------------------------------------------------------

/// Reads a unit keyword.
pub fn parse_unit(s: &str) -> (r: Result<Unit, HowickError>)
    ensures
        match r {
            Ok(u) => spec_parse_unit(s@) == Ok::<Unit, ErrorView>(u),
            Err(e) => spec_parse_unit(s@) == Err::<Unit, ErrorView>(e@),
        },
{
    if same_chars(&chars_of(s), "MILLIMETRE") {
        Ok(Unit::Millimetre)
    } else {
        Err(HowickError::UnknownUnit(s.to_owned()))
    }
}

/// Reads a label keyword.
pub fn parse_label(s: &str) -> (r: Result<LabelOrientation, HowickError>)
    ensures
        match r {
            Ok(l) => spec_parse_label(s@) == Ok::<LabelOrientation, ErrorView>(l),
            Err(e) => spec_parse_label(s@) == Err::<LabelOrientation, ErrorView>(e@),
        },
{
    let cs = chars_of(s);
    if same_chars(&cs, "LABEL_NRM") {
        Ok(LabelOrientation::Normal)
    } else if same_chars(&cs, "LABEL_INV") {
        Ok(LabelOrientation::Inverted)
    } else {
        Err(HowickError::UnknownLabel(s.to_owned()))
    }
}

/// Reads a count.
pub fn parse_u32(s: &str) -> (r: Result<u32, HowickError>)
    ensures
        match r {
            Ok(n) => spec_parse_u32(s@) == Ok::<u32, ErrorView>(n),
            Err(e) => spec_parse_u32(s@) == Err::<u32, ErrorView>(e@),
        },
{
    match std_parse_u32(s) {
        Ok(n) => Ok(n),
        Err(e) => Err(HowickError::InvalidInteger { value: s.to_owned(), source: e }),
    }
}

/// Reads a measure in millimetres: accepted exactly when `s` is a literal
/// of the floating-point grammar (`is_float_literal`, the grammar std documents
/// for `f64::from_str`), and kept as written.
pub fn parse_measure(s: &str) -> (r: Result<Millimetres, HowickError>)
    ensures
        match r {
            Ok(m) => spec_parse_measure(s@) == Ok::<Seq<char>, ErrorView>(m@),
            Err(e) => spec_parse_measure(s@) == Err::<Seq<char>, ErrorView>(e@),
        },
{
    if float_literal_chars(&chars_of(s)) {
        Ok(Millimetres { literal: s.to_owned() })
    } else {
        Err(HowickError::InvalidNumber { value: s.to_owned() })
    }
}

/// The operation that the keyword `v` names.
fn operation_kind_of(v: &Vec<char>) -> (k: Option<OperationKind>)
    ensures
        k == operation_kind(v@),
{
    if same_chars(v, "DIMPLE") {
        Some(OperationKind::Dimple)
    } else if same_chars(v, "LIP_CUT") {
        Some(OperationKind::LipCut)
    } else if same_chars(v, "SWAGE") {
        Some(OperationKind::Swage)
    } else if same_chars(v, "WEB") {
        Some(OperationKind::Web)
    } else if same_chars(v, "END_TRUSS") {
        Some(OperationKind::EndTruss)
    } else {
        None
    }
}

/// The whole of `v` as a string.
fn text_of(v: &Vec<char>) -> (s: String)
    ensures
        s@ == v@,
{
    let s = string_of(v, 0, v.len());
    assert(v@.subrange(0, v.len() as int) =~= v@);
    s
}

/// Reads a COMPONENT row split into its fields; `line_num` is its line,
/// counted from 1.
pub fn parse_component(fields: &Vec<Vec<char>>, line_num: usize) -> (r: Result<
    Component,
    HowickError,
>)
    ensures
        match r {
            Ok(c) => spec_parse_component(views(fields@), line_num) == Ok::<
                ComponentView,
                ErrorView,
            >(c@),
            Err(e) => spec_parse_component(views(fields@), line_num) == Err::<
                ComponentView,
                ErrorView,
            >(e@),
        },
{
    let ghost f = views(fields@);
    if fields.len() < 5 {
        let mut message = "COMPONENT needs at least 5 fields, got ".to_owned();
        let count = decimal_text(fields.len());
        message.append(count.as_str());
        return Err(HowickError::ParseError { line: line_num, message });
    }
    let id = text_of(&fields[1]);
    let label = match parse_label(text_of(&fields[2]).as_str()) {
        Ok(l) => l,
        Err(e) => return Err(e),
    };
    let quantity = match parse_u32(text_of(&fields[3]).as_str()) {
        Ok(n) => n,
        Err(e) => return Err(e),
    };
    let length_mm = match parse_measure(text_of(&fields[4]).as_str()) {
        Ok(m) => m,
        Err(e) => return Err(e),
    };
    let mut operations: Vec<Operation> = Vec::new();
    let mut i: usize = 5;
    while i < fields.len() - 1
        invariant
            5 <= i <= fields.len(),
            f == views(fields@),
            id@ == f[1],
            spec_parse_label(f[2]) == Ok::<LabelOrientation, ErrorView>(label),
            spec_parse_u32(f[3]) == Ok::<u32, ErrorView>(quantity),
            spec_parse_measure(f[4]) == Ok::<Seq<char>, ErrorView>(length_mm@),
            spec_operations(f, 5) == match spec_operations(f, i as int) {
                Ok(rest) => Ok(operation_views(operations@) + rest),
                Err(e) => Err(e),
            },
        decreases fields.len() - i,
    {
        let position = match parse_measure(text_of(&fields[i + 1]).as_str()) {
            Ok(m) => m,
            Err(e) => return Err(e),
        };
        let kind = match operation_kind_of(&fields[i]) {
            Some(k) => k,
            None => return Err(HowickError::UnknownOperation(text_of(&fields[i]))),
        };
        let ghost before = operation_views(operations@);
        let op = Operation::new(kind, position);
        operations.push(op);
        assert(operation_views(operations@) =~= before + seq![op@]);
        proof {
            match spec_operations(f, i + 2) {
                Ok(rest) => {
                    assert(operation_views(operations@) + rest =~= before + (seq![op@] + rest));
                },
                Err(_) => {},
            }
        }
        i = i + 2;
    }
    assert(spec_operations(f, i as int) == Ok::<Seq<OperationView>, ErrorView>(Seq::empty()));
    assert(operation_views(operations@) + Seq::<OperationView>::empty() =~= operation_views(
        operations@,
    ));
    Ok(Component { id, label, quantity, length_mm, operations })
}


/// Once the lines read so far have failed, the whole text fails the same way.
proof fn lemma_error_persists(lines: Seq<Seq<char>>, j: int)
    requires
        0 <= j <= lines.len(),
        parse_lines(lines.take(j)) is Err,
    ensures
        parse_lines(lines) == parse_lines(lines.take(j)),
    decreases lines.len(),
{
    if j == lines.len() {
        assert(lines.take(j) =~= lines);
    } else {
        assert(lines.drop_last().take(j) =~= lines.take(j));
        lemma_error_persists(lines.drop_last(), j);
    }
}

/// The state that the parser's variables stand for.
pub open spec fn state_of(
    unit: Option<Unit>,
    profile: Option<Profile>,
    name: Option<String>,
    components: Seq<Component>,
) -> ParseState {
    ParseState {
        unit,
        profile: match profile {
            Some(p) => Some(p@),
            None => None,
        },
        name: match name {
            Some(n) => Some(n@),
            None => None,
        },
        components: component_views(components),
    }
}

/// Parse a Howick CSV string into a [`Frameset`].
///
/// # Format
/// ```text
/// UNIT,MILLIMETRE
/// PROFILE,S8908,Standard Profile
/// FRAMESET,T1
/// COMPONENT,T1-1,LABEL_INV,1,3945.0,DIMPLE,20.65,...
/// ```
pub fn parse(input: &str) -> (r: Result<Frameset, HowickError>)
    ensures
        match r {
            Ok(f) => spec_parse(input@) == Ok::<FramesetView, ErrorView>(f@),
            Err(e) => spec_parse(input@) == Err::<FramesetView, ErrorView>(e@),
        },
{
    let chars = chars_of(input);
    let lines = split_range(&chars, 0, chars.len(), '\n');
    let ghost all = views(lines@);
    assert(chars@.subrange(0, chars.len() as int) =~= input@);
    let mut unit: Option<Unit> = None;
    let mut profile: Option<Profile> = None;
    let mut frameset_name: Option<String> = None;
    let mut components: Vec<Component> = Vec::new();
    assert(all.take(0) =~= Seq::<Seq<char>>::empty());
    assert(state_of(unit, profile, frameset_name, components@) =~= initial_state());
    let mut k: usize = 0;
    while k < lines.len()
        invariant
            k <= lines.len(),
            all == views(lines@),
            all == split(input@, '\n'),
            parse_lines(all.take(k as int)) == Ok::<ParseState, ErrorView>(
                state_of(unit, profile, frameset_name, components@),
            ),
        decreases lines.len() - k,
    {
        let ghost st = state_of(unit, profile, frameset_name, components@);
        assert(all.take(k + 1).drop_last() =~= all.take(k as int));
        assert(all.take(k + 1).last() == lines@[k as int]@);
        let line = &lines[k];
        let (a, b) = trimmed_bounds(line, 0, line.len());
        assert(line@.subrange(0, line.len() as int) =~= line@);
        if a < b {
            let fields = split_range(line, a, b, ',');
            let ghost fv = views(fields@);
            assert(fv[0] == fields@[0]@);
            if same_chars(&fields[0], "UNIT") {
                if fields.len() < 2 {
                    proof {
                        lemma_error_persists(all, k + 1);
                    }
                    return Err(HowickError::MissingField("UNIT value".to_owned()));
                }
                assert(fv[1] == fields@[1]@);
                match parse_unit(text_of(&fields[1]).as_str()) {
                    Ok(u) => {
                        unit = Some(u);
                    },
                    Err(e) => {
                        proof {
                            lemma_error_persists(all, k + 1);
                        }
                        return Err(e);
                    },
                }
            } else if same_chars(&fields[0], "PROFILE") {
                if fields.len() < 2 {
                    proof {
                        lemma_error_persists(all, k + 1);
                    }
                    return Err(HowickError::MissingField("PROFILE code".to_owned()));
                }
                assert(fv[1] == fields@[1]@);
                let code = text_of(&fields[1]);
                let description = if fields.len() < 3 {
                    String::new()
                } else {
                    assert(fv[2] == fields@[2]@);
                    text_of(&fields[2])
                };
                profile = Some(Profile { code, description });
            } else if same_chars(&fields[0], "FRAMESET") {
                if fields.len() < 2 {
                    proof {
                        lemma_error_persists(all, k + 1);
                    }
                    return Err(HowickError::MissingField("FRAMESET name".to_owned()));
                }
                assert(fv[1] == fields@[1]@);
                frameset_name = Some(text_of(&fields[1]));
            } else if same_chars(&fields[0], "COMPONENT") {
                match parse_component(&fields, k + 1) {
                    Ok(c) => {
                        components.push(c);
                        assert(component_views(components@) =~= st.components.push(c@));
                    },
                    Err(e) => {
                        proof {
                            lemma_error_persists(all, k + 1);
                        }
                        return Err(e);
                    },
                }
            }
        }
        assert(state_of(unit, profile, frameset_name, components@) =~= step(st, k as int, all[k as int])->Ok_0);
        k = k + 1;
    }
    assert(all.take(k as int) =~= all);
    let name = match frameset_name {
        Some(n) => n,
        None => return Err(HowickError::MissingField("FRAMESET".to_owned())),
    };
    let unit = match unit {
        Some(u) => u,
        None => return Err(HowickError::MissingField("UNIT".to_owned())),
    };
    let profile = match profile {
        Some(p) => p,
        None => return Err(HowickError::MissingField("PROFILE".to_owned())),
    };
    let f = Frameset { name, unit, profile, components };
    assert(f@ =~= finish(state_of(Some(unit), Some(f.profile), Some(f.name), f.components@))->Ok_0);
    Ok(f)
}

} // verus!
