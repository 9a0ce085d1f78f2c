use howick_rs::csv;
use howick_rs::csv::parser::{parse_label, parse_measure, parse_u32, parse_unit};
use howick_rs::csv::serializer::tidy_decimal;
use howick_rs::error::HowickError;
use howick_rs::types::{
    Component, Frameset, LabelOrientation, Millimetres, Operation, OperationKind, Profile, Unit,
};

fn measure(s: &str) -> Millimetres {
    Millimetres { literal: s.to_string() }
}

fn small_frameset() -> Frameset {
    Frameset {
        name: "W1".to_string(),
        unit: Unit::Millimetre,
        profile: Profile { code: "S8908".to_string(), description: "Standard Profile".to_string() },
        components: vec![
            Component {
                id: "W1-1".to_string(),
                label: LabelOrientation::Normal,
                quantity: 2,
                length_mm: measure("2400.0"),
                operations: vec![
                    Operation::Dimple(measure("20.65")),
                    Operation::Web(measure("1200.5")),
                ],
            },
            Component {
                id: "W1-2".to_string(),
                label: LabelOrientation::Inverted,
                quantity: 10,
                length_mm: measure("466.0"),
                operations: vec![],
            },
        ],
    }
}

#[test]
fn serialize_writes_header_then_one_row_per_component() {
    let text = csv::serialize(&small_frameset()).unwrap();
    assert_eq!(
        text,
        "UNIT,MILLIMETRE\nPROFILE,S8908,Standard Profile\nFRAMESET,W1\n\
         COMPONENT,W1-1,LABEL_NRM,2,2400.0,DIMPLE,20.65,WEB,1200.5\n\
         COMPONENT,W1-2,LABEL_INV,10,466.0\n"
    );
}

#[test]
fn serialize_then_parse_gives_the_frameset_back() {
    let f = small_frameset();
    let back = csv::parse(&csv::serialize(&f).unwrap()).unwrap();
    assert_eq!(back, f);
}

#[test]
fn parse_then_serialize_then_parse_is_stable() {
    let input = "UNIT,MILLIMETRE\r\n  PROFILE,S8908\r\nFRAMESET,T9\n\nCOMPONENT,A,LABEL_NRM,+3,1e3,SWAGE,.5,LIP_CUT\n";
    let first = csv::parse(input).unwrap();
    let again = csv::parse(&csv::serialize(&first).unwrap()).unwrap();
    assert_eq!(again, first);
    assert_eq!(first.profile.description, "");
    assert_eq!(first.components[0].quantity, 3);
    assert_eq!(first.components[0].operations.len(), 1);
}

#[test]
fn notch_is_written_but_not_read_back() {
    let mut f = small_frameset();
    f.components[1].operations.push(Operation::Notch(measure("10.0")));
    let text = csv::serialize(&f).unwrap();
    assert!(text.contains(",NOTCH,10.0\n"));
    match csv::parse(&text) {
        Err(HowickError::UnknownOperation(name)) => assert_eq!(name, "NOTCH"),
        other => panic!("unexpected {:?}", other),
    }
}

#[test]
fn unknown_rows_and_blank_lines_are_ignored() {
    let base = "UNIT,MILLIMETRE\nPROFILE,P1,d\nFRAMESET,F";
    let with_extra = "UNIT,MILLIMETRE\nPROFILE,P1,d\nFRAMESET,F\nVERSION,2\n   \n";
    assert_eq!(csv::parse(base).unwrap(), csv::parse(with_extra).unwrap());
}

#[test]
fn later_header_rows_replace_earlier_ones() {
    let f = csv::parse("FRAMESET,A\nUNIT,MILLIMETRE\nPROFILE,P,x\nFRAMESET,B\n").unwrap();
    assert_eq!(f.name, "B");
}

#[test]
fn missing_rows_are_reported_frameset_first() {
    match csv::parse("UNIT,MILLIMETRE\n") {
        Err(HowickError::MissingField(s)) => assert_eq!(s, "FRAMESET"),
        other => panic!("unexpected {:?}", other),
    }
    match csv::parse("FRAMESET,A\nPROFILE,P\n") {
        Err(HowickError::MissingField(s)) => assert_eq!(s, "UNIT"),
        other => panic!("unexpected {:?}", other),
    }
    match csv::parse("FRAMESET,A\nUNIT,MILLIMETRE\n") {
        Err(HowickError::MissingField(s)) => assert_eq!(s, "PROFILE"),
        other => panic!("unexpected {:?}", other),
    }
}

#[test]
fn rows_without_their_value_are_reported() {
    for (input, expected) in [
        ("UNIT", "UNIT value"),
        ("PROFILE", "PROFILE code"),
        ("FRAMESET", "FRAMESET name"),
    ] {
        match csv::parse(input) {
            Err(HowickError::MissingField(s)) => assert_eq!(s, expected),
            other => panic!("unexpected {:?}", other),
        }
    }
}

#[test]
fn short_component_row_reports_its_line() {
    match csv::parse("UNIT,MILLIMETRE\n\nCOMPONENT,A,LABEL_NRM,1\n") {
        Err(HowickError::ParseError { line, message }) => {
            assert_eq!(line, 3);
            assert_eq!(message, "COMPONENT needs at least 5 fields, got 4");
        }
        other => panic!("unexpected {:?}", other),
    }
}

#[test]
fn bad_values_are_reported() {
    match csv::parse("UNIT,INCH") {
        Err(HowickError::UnknownUnit(s)) => assert_eq!(s, "INCH"),
        other => panic!("unexpected {:?}", other),
    }
    match csv::parse("COMPONENT,A,LABEL_UP,1,2.0") {
        Err(HowickError::UnknownLabel(s)) => assert_eq!(s, "LABEL_UP"),
        other => panic!("unexpected {:?}", other),
    }
    match csv::parse("COMPONENT,A,LABEL_NRM,-1,2.0") {
        Err(HowickError::InvalidInteger { value, .. }) => assert_eq!(value, "-1"),
        other => panic!("unexpected {:?}", other),
    }
    match csv::parse("COMPONENT,A,LABEL_NRM,1,2.0mm") {
        Err(HowickError::InvalidNumber { value }) => assert_eq!(value, "2.0mm"),
        other => panic!("unexpected {:?}", other),
    }
    // The position is read before the operation name.
    match csv::parse("COMPONENT,A,LABEL_NRM,1,2.0,PUNCH,x") {
        Err(HowickError::InvalidNumber { value }) => assert_eq!(value, "x"),
        other => panic!("unexpected {:?}", other),
    }
    match csv::parse("COMPONENT,A,LABEL_NRM,1,2.0,PUNCH,3") {
        Err(HowickError::UnknownOperation(s)) => assert_eq!(s, "PUNCH"),
        other => panic!("unexpected {:?}", other),
    }
}

#[test]
fn keywords_read_back() {
    assert_eq!(parse_unit(Unit::Millimetre.as_str()).unwrap(), Unit::Millimetre);
    for l in [LabelOrientation::Normal, LabelOrientation::Inverted] {
        assert_eq!(parse_label(l.as_str()).unwrap(), l);
    }
    assert!(parse_unit("millimetre").is_err());
    assert!(parse_label("LABEL_nrm").is_err());
    let op = Operation::new(OperationKind::EndTruss, measure("0.0"));
    assert_eq!(op.name(), "END_TRUSS");
    assert_eq!(op.position().as_str(), "0.0");
}

#[test]
fn counts_follow_u32_literals() {
    assert_eq!(parse_u32("0").unwrap(), 0);
    assert_eq!(parse_u32("+7").unwrap(), 7);
    assert_eq!(parse_u32("007").unwrap(), 7);
    assert_eq!(parse_u32("4294967295").unwrap(), u32::MAX);
    for bad in ["", "+", "-0", "4294967296", " 1", "1.0", "1_000"] {
        assert!(parse_u32(bad).is_err(), "{:?}", bad);
    }
}

#[test]
fn measures_follow_float_literals() {
    for good in [
        "0", "3945.0", "20.65", "5.", ".5", "-1", "+2.5", "1e3", "1E-3", "2.5e+10", "inf",
        "-Infinity", "NaN", "INF",
    ] {
        let m = parse_measure(good).unwrap();
        assert_eq!(m.as_str(), good);
        assert!(good.parse::<f64>().is_ok(), "{:?}", good);
    }
    for bad in ["", ".", "e3", "1e", "1e+", "1.2.3", "--1", " 1", "1 ", "infin", "0x10", "1,5"] {
        assert!(parse_measure(bad).is_err(), "{:?}", bad);
        assert!(bad.parse::<f64>().is_err(), "{:?}", bad);
    }
}

#[test]
fn tidy_keeps_a_decimal_point() {
    assert_eq!(tidy_decimal("3945.00"), "3945.0");
    assert_eq!(tidy_decimal("20.65"), "20.65");
    assert_eq!(tidy_decimal("0.50"), "0.5");
    assert_eq!(tidy_decimal("0.00"), "0.0");
    assert_eq!(tidy_decimal("100.00"), "100.0");
    assert_eq!(tidy_decimal("-0.00"), "-0.0");
    assert_eq!(tidy_decimal("NaN"), "NaN.0");
    assert_eq!(tidy_decimal(&format!("{:.2}", 483.95_f64)), "483.95");
}

#[test]
fn unknown_row_in_the_middle_only_moves_error_lines() {
    let plain = "UNIT,MILLIMETRE\nPROFILE,P1,d\nFRAMESET,F\nCOMPONENT,A,LABEL_NRM,1,5.0";
    let with_row = "UNIT,MILLIMETRE\nNOTE,hello\nPROFILE,P1,d\nFRAMESET,F\nCOMPONENT,A,LABEL_NRM,1,5.0";
    assert_eq!(csv::parse(plain).unwrap(), csv::parse(with_row).unwrap());
    match (csv::parse("X\nCOMPONENT,A"), csv::parse("X\nNOTE\nCOMPONENT,A")) {
        (
            Err(HowickError::ParseError { line: l1, message: m1 }),
            Err(HowickError::ParseError { line: l2, message: m2 }),
        ) => {
            assert_eq!((l1, l2), (2, 3));
            assert_eq!(m1, m2);
        }
        other => panic!("unexpected {:?}", other),
    }
}

#[test]
fn trailing_whitespace_before_a_further_field_is_not_kept() {
    // The name keeps its trailing space because a further field follows it;
    // written again, the row ends in that space, which trimming removes.
    let first = csv::parse("UNIT,MILLIMETRE\nPROFILE,P\nFRAMESET,T1 ,x\n").unwrap();
    assert_eq!(first.name, "T1 ");
    let again = csv::parse(&csv::serialize(&first).unwrap()).unwrap();
    assert_eq!(again.name, "T1");
}

#[test]
fn measure_grammar_agrees_with_f64_on_short_strings() {
    let alphabet = ['0', '7', '.', 'e', 'E', '+', '-', 'i', 'n', 'f', 'a', 'x', ' '];
    let mut strings: Vec<String> = vec![String::new()];
    let mut frontier: Vec<String> = vec![String::new()];
    for _ in 0..4 {
        let mut next = Vec::new();
        for s in &frontier {
            for c in alphabet {
                let mut t = s.clone();
                t.push(c);
                next.push(t);
            }
        }
        strings.extend(next.iter().cloned());
        frontier = next;
    }
    for s in &strings {
        assert_eq!(parse_measure(s).is_ok(), s.parse::<f64>().is_ok(), "{:?}", s);
    }
}

#[test]
fn measure_grammar_agrees_with_f64_on_words_in_any_case() {
    for word in ["inf", "infinity", "nan"] {
        let n = word.len();
        for mask in 0u32..(1 << n) {
            let spelt: String = word
                .chars()
                .enumerate()
                .map(|(i, c)| if mask & (1 << i) != 0 { c.to_ascii_uppercase() } else { c })
                .collect();
            for prefix in ["", "+", "-", "--", "0"] {
                for suffix in ["", "x", "0", " "] {
                    let s = format!("{}{}{}", prefix, spelt, suffix);
                    assert_eq!(parse_measure(&s).is_ok(), s.parse::<f64>().is_ok(), "{:?}", s);
                }
            }
        }
    }
}

#[test]
fn invalid_count_carries_the_std_error() {
    for bad in ["", "+", "x7", "4294967296"] {
        match parse_u32(bad) {
            Err(HowickError::InvalidInteger { value, source }) => {
                assert_eq!(value, bad);
                assert_eq!(source, bad.parse::<u32>().unwrap_err());
            }
            other => panic!("unexpected {:?}", other),
        }
    }
}

#[test]
fn writing_what_was_read_gives_the_same_text() {
    let text = csv::serialize(&small_frameset()).unwrap();
    let again = csv::serialize(&csv::parse(&text).unwrap()).unwrap();
    assert_eq!(again, text);
}

#[test]
fn two_decimal_measures_read_back_and_stay_tidy() {
    for v in [3945.0_f64, 20.654, 0.5, 0.0, -0.0, -12.3, 100.0, 1e12, 483.95] {
        let fixed = format!("{:.2}", v);
        let tidy = tidy_decimal(&fixed);
        assert!(parse_measure(&tidy).is_ok(), "{:?}", tidy);
        assert_eq!(tidy_decimal(&tidy), tidy);
    }
}
