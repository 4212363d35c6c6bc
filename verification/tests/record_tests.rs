use expenses::calc::Operator;
use expenses::history::NameHistoryIndex;
use expenses::record::FieldKind;
use expenses::record::FieldName;
use expenses::record::FieldValue;
use expenses::record::RecordBuilder;
use expenses::record::Schema;
use expenses::session::Day;
use expenses::session::SessionState;
use expenses::session::WeekStart;
use expenses::session::LOOKBACK_DAYS;

fn full_schema() -> Schema {
    Schema {
        name: Some(FieldKind::Title),
        amount: Some(FieldKind::Number),
        date: Some(FieldKind::Date),
        category: Some(FieldKind::Relation { target: "db42".to_string() }),
    }
}

fn index() -> NameHistoryIndex {
    NameHistoryIndex::from_entries(&vec![(
        "Transport".to_string(),
        vec!["Taxi".to_string()],
    )])
}

#[test]
fn full_pass_assembles_all_four_fields() {
    let idx = index();
    let mut session = SessionState::new();
    let mut b = RecordBuilder::new(full_schema());

    assert!(b.name_pending());
    b.set_name("Taxi".to_string(), &idx);
    assert_eq!(b.preselect_hint(), Some("Transport".to_string()));

    assert!(b.amount_pending());
    b.set_amount("10+10*2").unwrap();

    assert!(b.date_pending());
    let today = Day { num: 1000 };
    let req = session.date_request(today);
    assert_eq!(req.default, today);
    b.set_date(&mut session, req.default);

    assert!(b.category_pending());
    assert_eq!(b.relation_target(), "db42".to_string());
    b.set_category("c2".to_string());

    let fields = b.finish();
    assert_eq!(fields.len(), 4);
    assert!(matches!(fields[0], (FieldName::Name, FieldValue::Title(_))));
    match &fields[0].1 {
        FieldValue::Title(t) => assert_eq!(t, "Taxi"),
        _ => unreachable!(),
    }
    match &fields[1] {
        (FieldName::Amount, FieldValue::Number(e)) => {
            assert_eq!(e.first, "10");
            assert_eq!(e.steps.len(), 2);
            assert!(matches!(e.steps[0].0, Operator::Add));
            assert!(matches!(e.steps[1].0, Operator::Mul));
        },
        _ => unreachable!(),
    }
    assert!(matches!(fields[2], (FieldName::Date, FieldValue::Date(Day { num: 1000 }))));
    match &fields[3] {
        (FieldName::Category, FieldValue::Relation(id)) => assert_eq!(id, "c2"),
        _ => unreachable!(),
    }
}

#[test]
fn unrecognized_kinds_are_skipped() {
    // "Name" carries the wrong kind; "Amount" and "Category" are absent
    let schema = Schema {
        name: Some(FieldKind::Other),
        amount: None,
        date: Some(FieldKind::Date),
        category: None,
    };
    let mut session = SessionState::new();
    let mut b = RecordBuilder::new(schema);

    assert!(!b.name_pending());
    b.skip_name();
    assert!(!b.amount_pending());
    b.skip_amount();
    assert!(b.date_pending());
    b.set_date(&mut session, Day { num: 500 });
    assert!(!b.category_pending());
    b.skip_category();

    let fields = b.finish();
    assert_eq!(fields.len(), 1);
    assert!(matches!(fields[0], (FieldName::Date, FieldValue::Date(Day { num: 500 }))));
}

#[test]
fn bad_amount_leaves_the_builder_unchanged() {
    let idx = index();
    let mut b = RecordBuilder::new(full_schema());
    b.set_name("Coffee".to_string(), &idx);
    assert_eq!(b.preselect_hint(), None);

    assert!(b.amount_pending());
    assert!(b.set_amount("10+").is_err());
    // still at the amount step: the operator may try again next round
    assert!(b.amount_pending());
    assert!(b.set_amount("10/0").is_ok());
}

#[test]
fn date_step_records_the_session_default() {
    let mut session = SessionState::new();
    let today = Day { num: 2000 };

    // first record: no date chosen yet, so today is the default
    let req = session.date_request(today);
    assert_eq!(req.default, today);
    assert_eq!(req.min, Day { num: 2000 - LOOKBACK_DAYS });
    assert_eq!(req.max, today);
    assert_eq!(req.week_start, WeekStart::Monday);
    let schema = Schema {
        name: None,
        amount: None,
        date: Some(FieldKind::Date),
        category: None,
    };
    let mut b = RecordBuilder::new(schema);
    b.skip_name();
    b.skip_amount();
    let chosen = Day { num: 1995 };
    b.set_date(&mut session, chosen);
    b.skip_category();
    let _ = b.finish();

    // second record, a day later: the default is the chosen date, not today
    let later_today = Day { num: 2001 };
    let req = session.date_request(later_today);
    assert_eq!(req.default, chosen);
    assert_eq!(req.max, later_today);
}

#[test]
fn empty_directory_degrades_to_no_category() {
    let schema = Schema {
        name: None,
        amount: None,
        date: None,
        category: Some(FieldKind::Relation { target: "db42".to_string() }),
    };
    let mut b = RecordBuilder::new(schema);
    b.skip_name();
    b.skip_amount();
    b.skip_date();
    assert!(b.category_pending());
    // nothing to choose from: the record simply carries no category
    b.skip_category();
    let fields = b.finish();
    assert!(fields.is_empty());
}
