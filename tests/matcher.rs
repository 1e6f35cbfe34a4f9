use ogma::bdd::Step;
use ogma::clause::{parse, Token};
use ogma::matcher::{
    check_fields, match_clause, Binding, Field, FieldError, MatchError, Matcher, Query, VarKind,
};
use ogma::module::Match;
use ogma::vm::context::{Shape, Value};

#[derive(Debug, Eq, PartialEq)]
pub struct Add {
    a: i32,
    b: i32,
    out: Vec<Query>,
}

fn data_i32(v: Value) -> i32 {
    match v {
        Value::I32(x) => x,
        _ => panic!("not an i32"),
    }
}

// Walks the clause by hand, reading the keyword first.
impl Match<Step> for Add {
    fn match_str(ctx: &mut Step, string: &str) -> Result<Self, MatchError> {
        let clause = parse("the addition of d`b` and d`a` henceforth q`out`").unwrap();
        let mut a = None;
        let mut b = None;
        let mut out = None;
        let mut matcher = Matcher::new(string);
        let token = match matcher.next_static()? {
            "Given" => "Given",
            "And" => "And",
            _ => return Err(MatchError::MismatchedStaticToken),
        };
        if let Some(next_state) = ctx.next(token) {
            *ctx = next_state;
        } else {
            return Err(MatchError::InvalidCtx);
        }
        for token in &clause {
            match *token {
                Token::Static(token) => {
                    if matcher.next_static()? != token {
                        return Err(MatchError::MismatchedStaticToken);
                    }
                }
                Token::QueryVar(name) => match name {
                    "out" => out = Some(matcher.next_query()?),
                    _ => return Err(MatchError::UnknownQueryVar),
                },
                Token::DataVar(name) => match name {
                    "a" => a = Some(data_i32(matcher.next_data(Shape::I32)?)),
                    "b" => b = Some(data_i32(matcher.next_data(Shape::I32)?)),
                    _ => return Err(MatchError::UnknownDataVar),
                },
            }
        }
        if !matcher.is_empty() {
            return Err(MatchError::ExpectedEof);
        }
        Ok(Add {
            a: a.ok_or(MatchError::UnfilledVar)?,
            b: b.ok_or(MatchError::UnfilledVar)?,
            out: out.ok_or(MatchError::UnfilledVar)?,
        })
    }
}

#[derive(Debug, Eq, PartialEq)]
pub struct PlainAdd {
    a: i32,
    b: i32,
    out: Vec<Query>,
}

// Fills its fields through the clause matcher of the library.
impl<C> Match<C> for PlainAdd {
    fn match_str(_: &mut C, string: &str) -> Result<Self, MatchError> {
        let clause = parse("Given the addition of d`b` and d`a` henceforth q`out`").unwrap();
        let fields = [
            Field { name: "a", kind: VarKind::Data(Shape::I32) },
            Field { name: "b", kind: VarKind::Data(Shape::I32) },
            Field { name: "out", kind: VarKind::Query },
        ];
        let mut matcher = Matcher::new(string);
        let mut values = match_clause(&clause, &fields, &mut matcher)?.into_iter();
        let a = match values.next() {
            Some(Binding::Data(v)) => data_i32(v),
            _ => return Err(MatchError::UnfilledVar),
        };
        let b = match values.next() {
            Some(Binding::Data(v)) => data_i32(v),
            _ => return Err(MatchError::UnfilledVar),
        };
        let out = match values.next() {
            Some(Binding::Query(q)) => q,
            _ => return Err(MatchError::UnfilledVar),
        };
        Ok(PlainAdd { a, b, out })
    }
}

#[test]
fn bdd_add_match() {
    let mut ctx = Step::new();
    let add = Add::match_str(
        &mut ctx,
        "Given the addition of 4 and 3 henceforth the addition",
    )
    .unwrap();
    assert_eq!(
        add,
        Add {
            a: 3,
            b: 4,
            out: vec![Query::key("addition")]
        }
    );
}

#[test]
fn lib_add_match() {
    let mut ctx = ();
    let add = PlainAdd::match_str(
        &mut ctx,
        "Given the addition of 4 and 3 henceforth the addition",
    )
    .unwrap();
    assert_eq!(
        add,
        PlainAdd {
            a: 3,
            b: 4,
            out: vec![Query::key("addition")]
        }
    );
}

#[test]
fn matcher_add_match() {
    let mut ctx = ();
    let add = PlainAdd::match_str(
        &mut ctx,
        "Given the addition of 4 and 3 henceforth the addition",
    )
    .unwrap();
    assert_eq!(
        add,
        PlainAdd {
            a: 3,
            b: 4,
            out: vec![Query::key("addition")]
        }
    );
}

fn x_clause() -> (Vec<Token<'static>>, [Field<'static>; 1]) {
    (
        vec![Token::Static("the"), Token::DataVar("x")],
        [Field { name: "x", kind: VarKind::Data(Shape::I32) }],
    )
}

#[test]
fn data_variable_is_read() {
    let (clause, fields) = x_clause();
    let mut m = Matcher::new("the 5");
    assert_eq!(
        match_clause(&clause, &fields, &mut m).unwrap(),
        vec![Binding::Data(Value::I32(5))]
    );
}

#[test]
fn missing_data_is_end_of_input() {
    let (clause, fields) = x_clause();
    let mut m = Matcher::new("the");
    assert!(matches!(
        match_clause(&clause, &fields, &mut m),
        Err(MatchError::UnexpectedEof)
    ));
    let mut m = Matcher::new("");
    assert!(matches!(
        match_clause(&clause, &fields, &mut m),
        Err(MatchError::UnexpectedEof)
    ));
}

#[test]
fn extra_words_are_trailing_tokens() {
    let (clause, fields) = x_clause();
    let mut m = Matcher::new("the 5 extra");
    assert!(matches!(
        match_clause(&clause, &fields, &mut m),
        Err(MatchError::ExpectedEof)
    ));
}

#[test]
fn end_to_end_template() {
    let clause = parse("the addition of d`a` and d`b` henceforth q`out`").unwrap();
    let fields = [
        Field { name: "a", kind: VarKind::Data(Shape::I32) },
        Field { name: "b", kind: VarKind::Data(Shape::I32) },
        Field { name: "out", kind: VarKind::Query },
    ];
    let mut m = Matcher::new("the addition of 3 and 4 henceforth the sum");
    assert_eq!(
        match_clause(&clause, &fields, &mut m).unwrap(),
        vec![
            Binding::Data(Value::I32(3)),
            Binding::Data(Value::I32(4)),
            Binding::Query(vec![Query::key("sum")])
        ]
    );
}

#[test]
fn mismatched_word() {
    let (clause, fields) = x_clause();
    let mut m = Matcher::new("a 5");
    assert!(matches!(
        match_clause(&clause, &fields, &mut m),
        Err(MatchError::MismatchedStaticToken)
    ));
}

#[test]
fn unknown_and_unfilled_variables() {
    let fields = [Field { name: "x", kind: VarKind::Data(Shape::I32) }];
    let mut m = Matcher::new("the key");
    assert!(matches!(
        match_clause(&[Token::QueryVar("x")], &fields, &mut m),
        Err(MatchError::UnknownQueryVar)
    ));
    let mut m = Matcher::new("5");
    assert!(matches!(
        match_clause(&[Token::DataVar("y")], &fields, &mut m),
        Err(MatchError::UnknownDataVar)
    ));
    let mut m = Matcher::new("word");
    assert!(matches!(
        match_clause(&[Token::Static("word")], &fields, &mut m),
        Err(MatchError::UnfilledVar)
    ));
}

#[test]
fn empty_query() {
    let fields = [Field { name: "q", kind: VarKind::Query }];
    let mut m = Matcher::new("nothing here");
    assert!(matches!(
        match_clause(&[Token::QueryVar("q")], &fields, &mut m),
        Err(MatchError::EmptyQuery)
    ));
    let mut m = Matcher::new("nothing here");
    assert!(matches!(m.next_query(), Err(MatchError::EmptyQuery)));
    assert_eq!(m.next_static().unwrap(), "nothing");
}

#[test]
fn nested_query_is_read_in_reverse() {
    let mut m = Matcher::new("the name of the user rest");
    assert_eq!(
        m.next_query().unwrap(),
        vec![Query::key("user"), Query::key("name")]
    );
    assert_eq!(m.next_static().unwrap(), "rest");
    assert!(m.is_empty());
}

#[test]
fn data_shapes() {
    let mut m = Matcher::new("true -7 12 9000000000");
    assert_eq!(m.next_data(Shape::Bool).unwrap(), Value::Bool(true));
    assert_eq!(m.next_data(Shape::I32).unwrap(), Value::I32(-7));
    assert_eq!(m.next_data(Shape::U32).unwrap(), Value::U32(12));
    assert_eq!(m.next_data(Shape::I64).unwrap(), Value::I64(9000000000));
    assert!(m.is_empty());
}

#[test]
fn failed_decode_reads_nothing() {
    let mut m = Matcher::new("word 1");
    assert!(matches!(m.next_data(Shape::I32), Err(MatchError::Nlsd(_))));
    assert_eq!(m.next_static().unwrap(), "word");
}

#[test]
fn static_words_and_exhaustion() {
    let mut m = Matcher::new("  one\ttwo  ");
    assert!(!m.is_empty());
    assert_eq!(m.next_static().unwrap(), "one");
    assert_eq!(m.next_static().unwrap(), "two");
    assert!(m.is_empty());
    assert!(matches!(m.next_static(), Err(MatchError::UnexpectedEof)));
}

#[test]
fn query_helpers() {
    assert_eq!(Query::key("k").as_key(), Some("k"));
    assert_eq!(Query::index(2).as_key(), None);
    assert_eq!(
        Query::index_from_last(1),
        Query::Index { index: 1, from_last: true }
    );
}

#[test]
fn fields_must_fit_the_clause() {
    let clause = parse("the addition of d`a` and d`b` henceforth q`out`").unwrap();
    let fields = [
        Field { name: "a", kind: VarKind::Data(Shape::I32) },
        Field { name: "b", kind: VarKind::Data(Shape::I32) },
        Field { name: "out", kind: VarKind::Query },
    ];
    assert_eq!(check_fields(&clause, &fields), Ok(()));
    assert_eq!(check_fields(&clause, &fields[..2]), Err(FieldError::UnknownVariable));
    let twice = parse("q`a` and q`a`").unwrap();
    let one = [Field { name: "a", kind: VarKind::Query }];
    assert_eq!(check_fields(&twice, &one), Err(FieldError::CountMismatch));
    let once = parse("q`a`").unwrap();
    let dup = [
        Field { name: "a", kind: VarKind::Query },
        Field { name: "a", kind: VarKind::Query },
    ];
    assert_eq!(check_fields(&once, &dup), Err(FieldError::Duplicate));
    let wrong_kind = [
        Field { name: "a", kind: VarKind::Data(Shape::I32) },
        Field { name: "b", kind: VarKind::Query },
        Field { name: "out", kind: VarKind::Query },
    ];
    assert_eq!(check_fields(&clause, &wrong_kind), Err(FieldError::NotFound));
    let wrong_name = [
        Field { name: "a", kind: VarKind::Data(Shape::I32) },
        Field { name: "c", kind: VarKind::Data(Shape::I32) },
        Field { name: "out", kind: VarKind::Query },
    ];
    assert_eq!(check_fields(&clause, &wrong_name), Err(FieldError::NotFound));
}

#[test]
fn match_error_messages() {
    assert_eq!(MatchError::MismatchedStaticToken.message(), "mismatched static token");
    assert_eq!(MatchError::ExpectedEof.message(), "clause has extra tokens");
    let mut m = Matcher::new("");
    let err = m.next_data(Shape::I32).unwrap_err();
    assert!(err.message().starts_with("NLSD err: "));
    assert!(err.message().len() > "NLSD err: ".len());
}

#[test]
fn string_data() {
    let mut m = Matcher::new("`hello world` rest");
    assert_eq!(
        m.next_data(Shape::Str).unwrap(),
        Value::Str("hello world".to_string())
    );
    assert_eq!(m.next_static().unwrap(), "rest");
    let mut m = Matcher::new("plain");
    assert!(matches!(m.next_data(Shape::Str), Err(MatchError::Nlsd(_))));
    assert_eq!(m.next_static().unwrap(), "plain");
}
