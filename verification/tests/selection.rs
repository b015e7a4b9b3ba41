use ix::error::IxError;
use ix::selection::{Selection, Selector};

#[test]
fn test_parse_single() {
    let sel = Selection::parse(&["1"]).unwrap();
    assert_eq!(sel.0, vec![Selector::Slot(1)]);
}

#[test]
fn test_parse_range() {
    let sel = Selection::parse(&["1-3"]).unwrap();
    assert_eq!(sel.0, vec![Selector::Range(1, 3)]);
}

#[test]
fn test_parse_comma() {
    let sel = Selection::parse(&["1,3,5"]).unwrap();
    assert_eq!(sel.0, vec![Selector::Slot(1), Selector::Slot(3), Selector::Slot(5)]);
}

#[test]
fn test_parse_mixed() {
    let sel = Selection::parse(&["1,3", "5-7"]).unwrap();
    assert_eq!(
        sel.0,
        vec![Selector::Slot(1), Selector::Slot(3), Selector::Range(5, 7)]
    );
}

#[test]
fn test_parse_multiple_args() {
    let sel = Selection::parse(&["1", "3"]).unwrap();
    assert_eq!(sel.0, vec![Selector::Slot(1), Selector::Slot(3)]);
}

#[test]
fn test_selection_parses_range() {
    let sel = Selection::parse(&["1-3"]).unwrap();
    assert_eq!(sel.slots(), vec![1, 2, 3]);
}

#[test]
fn test_selection_parses_comma_separated() {
    let sel = Selection::parse(&["1,3,5"]).unwrap();
    assert_eq!(sel.slots(), vec![1, 3, 5]);
}

#[test]
fn test_selection_parses_mixed() {
    let sel = Selection::parse(&["1,3", "5-7"]).unwrap();
    assert_eq!(sel.slots(), vec![1, 3, 5, 6, 7]);
}

fn parse_error_text(args: &[&str]) -> String {
    match Selection::parse(args) {
        Err(IxError::ParseError(m)) => m,
        other => panic!("expected a parse error, got {:?}", other),
    }
}

#[test]
fn parse_trims_spaces_and_skips_empty_pieces() {
    let sel = Selection::parse(&[" 2 , ,4 - 5,"]).unwrap();
    assert_eq!(sel.0, vec![Selector::Slot(2), Selector::Range(4, 5)]);
}

#[test]
fn parse_accepts_a_leading_plus() {
    let sel = Selection::parse(&["+7"]).unwrap();
    assert_eq!(sel.0, vec![Selector::Slot(7)]);
}

#[test]
fn parse_reports_empty_input() {
    assert_eq!(parse_error_text(&[]), "No selectors provided");
    assert_eq!(parse_error_text(&[" , "]), "No selectors provided");
}

#[test]
fn parse_reports_bad_tokens() {
    assert_eq!(parse_error_text(&["abc"]), "'abc' is not a valid slot number or range");
    assert_eq!(parse_error_text(&["x-3"]), "Invalid range start in 'x-3'");
    assert_eq!(parse_error_text(&["3-y"]), "Invalid range end in '3-y'");
    assert_eq!(parse_error_text(&["5-2"]), "Range start (5) must be <= end (2)");
    assert_eq!(parse_error_text(&["1", "^x"]), "'^x' is not a valid slot number or range");
    assert_eq!(parse_error_text(&["^3-1"]), "Range start (3) must be <= end (1)");
}

#[test]
fn parse_reports_overflow() {
    let big = "99999999999999999999999999";
    assert_eq!(
        parse_error_text(&[big]),
        format!("'{big}' is not a valid slot number or range")
    );
}

#[test]
fn parse_first_error_wins() {
    assert_eq!(parse_error_text(&["q", "r"]), "'q' is not a valid slot number or range");
}

#[test]
fn parse_exclusions() {
    let sel = Selection::parse(&["1-4", "^2", "^3-4"]).unwrap();
    assert_eq!(
        sel.0,
        vec![Selector::Range(1, 4), Selector::Exclude(2, 2), Selector::Exclude(3, 4)]
    );
}

#[test]
fn exclusions_remove_slots_wherever_they_stand() {
    let sel = Selection::parse(&["1-4", "^2", "^4"]).unwrap();
    assert_eq!(sel.slots(), vec![1, 3]);
    let sel = Selection::parse(&["^1", "1,2,1"]).unwrap();
    assert_eq!(sel.slots(), vec![2]);
    let sel = Selection::parse(&["^1-9"]).unwrap();
    assert_eq!(sel.slots(), Vec::<usize>::new());
}
