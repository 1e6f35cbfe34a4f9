use ogma::bdd::{Bdd, Keyword, Step};
use ogma::matcher::{MatchError, Matcher};

#[test]
fn keyword_sequence_is_legal() {
    let mut st = Step::new();
    for k in ["Given", "And", "When", "And", "Then", "And"] {
        st = st.next(k).unwrap();
    }
    assert_eq!(st, Step::Then);
}

#[test]
fn given_after_then_is_illegal() {
    let st = Step::new().next("Then").unwrap();
    assert_eq!(st.next("Given"), None);
}

#[test]
fn leading_and_is_illegal() {
    assert_eq!(Step::new().next("And"), None);
    assert_eq!(Step::default().next("And"), None);
}

#[test]
fn unknown_keyword_is_illegal() {
    assert_eq!(Step::Given.next("given"), None);
    assert_eq!(Step::Start.next("Or"), None);
}

#[test]
fn transitions() {
    assert_eq!(Step::Start.next("Given"), Some(Step::Given));
    assert_eq!(Step::When.next("Given"), None);
    assert_eq!(Step::When.next("When"), Some(Step::When));
    assert_eq!(Step::Given.next("When"), Some(Step::When));
    assert_eq!(Step::Then.next("When"), None);
    assert_eq!(Step::When.next("Then"), Some(Step::Then));
    assert_eq!(Step::When.next("And"), Some(Step::When));
    assert_eq!(Step::Given.next_keyword(Keyword::Then), Some(Step::Then));
    assert_eq!(Keyword::from_str("And"), Some(Keyword::And));
    assert_eq!(Keyword::from_str("and"), None);
}

#[test]
fn keyword_gate_moves_state() {
    let mut st = Step::new();
    let mut m = Matcher::new("Given the rest");
    assert!(Bdd::Given.match_keyword(&mut st, &mut m).is_ok());
    assert_eq!(st, Step::Given);
    assert_eq!(m.next_static().unwrap(), "the");

    let mut m = Matcher::new("And more");
    assert!(Bdd::Then.match_keyword(&mut st, &mut m).is_ok());
    assert_eq!(st, Step::Given);
}

#[test]
fn keyword_gate_errors() {
    let mut st = Step::Then;
    let mut m = Matcher::new("Given x");
    assert!(matches!(
        Bdd::Given.match_keyword(&mut st, &mut m),
        Err(MatchError::InvalidCtx)
    ));
    assert_eq!(st, Step::Then);
    let mut m = Matcher::new("When x");
    assert!(matches!(
        Bdd::Given.match_keyword(&mut st, &mut m),
        Err(MatchError::MismatchedStaticToken)
    ));
    let mut m = Matcher::new("   ");
    assert!(matches!(
        Bdd::Given.match_keyword(&mut st, &mut m),
        Err(MatchError::UnexpectedEof)
    ));
}
