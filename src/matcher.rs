//! Reading the words, queries and data values of one line, and matching a
//! line against a compiled clause.
use vstd::prelude::*;
use vstd::string::StringExecFns;
use crate::clause::{name_in, var_names, var_names_spec, views, Token, TokenView, VarFilter};
use crate::vm::context::{Shape, Value};
use crate::words::{
    after_word, ascii, first_word, has_word, lemma_word_ascii, parse_token, str_eq,
};

verus! {

/// One step of a structured query, as `object_query::Query` describes it: a
/// key, or an index counted from the front or from the back.
#[derive(Clone, Debug, PartialEq, Eq)]
pub enum Query {
    Index { index: usize, from_last: bool },
    Key(String),
}

impl Query {
    /// A key query.
    pub fn key(key: &str) -> (r: Query)
        ensures
            r matches Query::Key(k) && k@ == key@,
    {
        Query::Key(key.to_owned())
    }

    /// An index query counted from the front.
    pub fn index(index: usize) -> (r: Query)
        ensures
            r == (Query::Index { index, from_last: false }),
    {
        Query::Index { index, from_last: false }
    }

    /// An index query counted from the back.
    pub fn index_from_last(index: usize) -> (r: Query)
        ensures
            r == (Query::Index { index, from_last: true }),
    {
        Query::Index { index, from_last: true }
    }

    /// The key of a key query.
    pub fn as_key(&self) -> (r: Option<&str>)
        ensures
            match self {
                Query::Key(k) => r matches Some(s) && s@ == k@,
                _ => r is None,
            },
    {
        match self {
            Query::Key(k) => Some(k.as_str()),
            _ => None,
        }
    }
}

/// Declares `nlsd::Error`, the data decoder's error, which `MatchError`
/// carries unchanged; nothing about its contents is relied on.
#[verifier::external_type_specification]
#[verifier::external_body]
pub struct ExNlsdError(nlsd::Error);

/// Why a line does not match.
#[derive(Debug)]
pub enum MatchError {
    /// The data decoder failed.
    Nlsd(nlsd::Error),
    /// A literal word differs from the template's.
    MismatchedStaticToken,
    /// No query could be read where one was expected.
    EmptyQuery,
    /// A query placeholder names no query field.
    UnknownQueryVar,
    /// A data placeholder names no data field.
    UnknownDataVar,
    /// A field was left without a value.
    UnfilledVar,
    /// The line ended where more was expected.
    UnexpectedEof,
    /// The template ended but the line did not.
    ExpectedEof,
    /// The keyword is not legal at this point of the script.
    InvalidCtx,
}

impl MatchError {
    /// A description of the error; for a decoder failure, the decoder's
    /// own description after `NLSD err: `.
    pub fn message(&self) -> (r: String)
        ensures
            !(self is Nlsd) ==> r@ == match self {
                MatchError::MismatchedStaticToken => "mismatched static token"@,
                MatchError::EmptyQuery => "empty NLOQ query"@,
                MatchError::UnknownQueryVar => "mismatched query variable name"@,
                MatchError::UnknownDataVar => "mismatched data variable name"@,
                MatchError::UnfilledVar => "variable not set"@,
                MatchError::UnexpectedEof => "unexpected end of file"@,
                MatchError::ExpectedEof => "clause has extra tokens"@,
                _ => "context error when parsing"@,
            },
            self is Nlsd ==> r@.len() >= 10 && r@.take(10) == "NLSD err: "@,
    {
        match self {
            MatchError::Nlsd(e) => {
                let mut m = String::from_str("NLSD err: ");
                let text = e.to_string();
                proof {
                    reveal_strlit("NLSD err: ");
                }
                m.append(text.as_str());
                m
            },
            MatchError::MismatchedStaticToken => String::from_str("mismatched static token"),
            MatchError::EmptyQuery => String::from_str("empty NLOQ query"),
            MatchError::UnknownQueryVar => String::from_str("mismatched query variable name"),
            MatchError::UnknownDataVar => String::from_str("mismatched data variable name"),
            MatchError::UnfilledVar => String::from_str("variable not set"),
            MatchError::UnexpectedEof => String::from_str("unexpected end of file"),
            MatchError::ExpectedEof => String::from_str("clause has extra tokens"),
            MatchError::InvalidCtx => String::from_str("context error when parsing"),
        }
    }
}

/// The queries that `nloq` reads from the start of a text.
pub uninterp spec fn nloq_query(s: Seq<char>) -> Seq<Query>;

/// The text that `nloq` leaves after reading its queries.
pub uninterp spec fn nloq_rest(s: Seq<char>) -> Seq<char>;

/// A boolean decoded by `nlsd` from the start of a text, with what follows.
pub uninterp spec fn nlsd_bool(s: Seq<char>) -> Option<(bool, Seq<char>)>;

/// An `i32` decoded by `nlsd` from the start of a text, with what follows.
pub uninterp spec fn nlsd_i32(s: Seq<char>) -> Option<(i32, Seq<char>)>;

/// An `i64` decoded by `nlsd` from the start of a text, with what follows.
pub uninterp spec fn nlsd_i64(s: Seq<char>) -> Option<(i64, Seq<char>)>;

/// A string decoded by `nlsd` from the start of a text, with what follows.
pub uninterp spec fn nlsd_string(s: Seq<char>) -> Option<(String, Seq<char>)>;

/// A `u32` decoded by `nlsd` from the start of a text, with what follows.
pub uninterp spec fn nlsd_u32(s: Seq<char>) -> Option<(u32, Seq<char>)>;

/// `r` is a suffix of `s`.
pub open spec fn is_suffix(r: Seq<char>, s: Seq<char>) -> bool {
    r.len() <= s.len() && r == s.skip(s.len() - r.len())
}

/// A value of shape `sh` decoded from the start of `s`, with what follows.
pub open spec fn decode(sh: Shape, s: Seq<char>) -> Option<(Value, Seq<char>)> {
    match sh {
        Shape::Bool => match nlsd_bool(s) {
            Some((v, r)) => Some((Value::Bool(v), r)),
            None => None,
        },
        Shape::I32 => match nlsd_i32(s) {
            Some((v, r)) => Some((Value::I32(v), r)),
            None => None,
        },
        Shape::I64 => match nlsd_i64(s) {
            Some((v, r)) => Some((Value::I64(v), r)),
            None => None,
        },
        Shape::U32 => match nlsd_u32(s) {
            Some((v, r)) => Some((Value::U32(v), r)),
            None => None,
        },
        Shape::Str => match nlsd_string(s) {
            Some((v, r)) => Some((Value::Str(v), r)),
            None => None,
        },
    }
}

/// Relies on `nloq::Deserializer::query` and `rest`: the queries read from
/// the start of `src`, and the rest of `src` after them, which is all of
/// `src` where no query was read. Its slicing is sound on ASCII text.
#[verifier::external_body]
fn read_query<'a>(src: &'a str) -> (r: (Vec<Query>, &'a str))
    requires
        ascii(src@),
    ensures
        r.0@ == nloq_query(src@),
        r.1@ == nloq_rest(src@),
        is_suffix(r.1@, src@),
        r.0@.len() == 0 ==> r.1@ == src@,
{
    let mut de = nloq::Deserializer::from_str(src);
    let items = de.query().into_iter().map(|q| match q {
        object_query::Query::Index { index, from_last } => Query::Index { index, from_last },
        object_query::Query::Key(k) => Query::Key(k.into_owned()),
    }).collect();
    (items, de.rest())
}

/// Relies on `nlsd::Deserializer` decoding a `bool` from the start of `src`;
/// on success `rest` returns a suffix of `src`. Its slicing is sound on
/// ASCII text.
#[verifier::external_body]
fn read_bool<'a>(src: &'a str) -> (r: Result<(bool, &'a str), nlsd::Error>)
    requires
        ascii(src@),
    ensures
        match r {
            Ok((v, rest)) => nlsd_bool(src@) == Some((v, rest@)) && is_suffix(rest@, src@),
            Err(_) => nlsd_bool(src@) is None,
        },
{
    let mut de = nlsd::Deserializer::from_str(src);
    let v = <bool as serde::Deserialize>::deserialize(&mut de)?;
    Ok((v, de.rest()))
}

/// Relies on `nlsd::Deserializer` decoding an `i32` from the start of `src`;
/// on success `rest` returns a suffix of `src`. Its slicing is sound on
/// ASCII text.
#[verifier::external_body]
fn read_i32<'a>(src: &'a str) -> (r: Result<(i32, &'a str), nlsd::Error>)
    requires
        ascii(src@),
    ensures
        match r {
            Ok((v, rest)) => nlsd_i32(src@) == Some((v, rest@)) && is_suffix(rest@, src@),
            Err(_) => nlsd_i32(src@) is None,
        },
{
    let mut de = nlsd::Deserializer::from_str(src);
    let v = <i32 as serde::Deserialize>::deserialize(&mut de)?;
    Ok((v, de.rest()))
}

/// Relies on `nlsd::Deserializer` decoding an `i64` from the start of `src`;
/// on success `rest` returns a suffix of `src`. Its slicing is sound on
/// ASCII text.
#[verifier::external_body]
fn read_i64<'a>(src: &'a str) -> (r: Result<(i64, &'a str), nlsd::Error>)
    requires
        ascii(src@),
    ensures
        match r {
            Ok((v, rest)) => nlsd_i64(src@) == Some((v, rest@)) && is_suffix(rest@, src@),
            Err(_) => nlsd_i64(src@) is None,
        },
{
    let mut de = nlsd::Deserializer::from_str(src);
    let v = <i64 as serde::Deserialize>::deserialize(&mut de)?;
    Ok((v, de.rest()))
}

/// Relies on `nlsd::Deserializer` decoding a `u32` from the start of `src`;
/// on success `rest` returns a suffix of `src`. Its slicing is sound on
/// ASCII text.
#[verifier::external_body]
fn read_u32<'a>(src: &'a str) -> (r: Result<(u32, &'a str), nlsd::Error>)
    requires
        ascii(src@),
    ensures
        match r {
            Ok((v, rest)) => nlsd_u32(src@) == Some((v, rest@)) && is_suffix(rest@, src@),
            Err(_) => nlsd_u32(src@) is None,
        },
{
    let mut de = nlsd::Deserializer::from_str(src);
    let v = <u32 as serde::Deserialize>::deserialize(&mut de)?;
    Ok((v, de.rest()))
}

/// Relies on `nlsd::Deserializer` decoding a `String` (text between
/// back-ticks) from the start of `src`; on success `rest` returns a suffix of
/// `src`. Its slicing is sound on ASCII text.
#[verifier::external_body]
fn read_string<'a>(src: &'a str) -> (r: Result<(String, &'a str), nlsd::Error>)
    requires
        ascii(src@),
    ensures
        match r {
            Ok((v, rest)) => nlsd_string(src@) == Some((v, rest@)) && is_suffix(rest@, src@),
            Err(_) => nlsd_string(src@) is None,
        },
{
    let mut de = nlsd::Deserializer::from_str(src);
    let v = <String as serde::Deserialize>::deserialize(&mut de)?;
    Ok((v, de.rest()))
}

/// A suffix of ASCII text is ASCII.
proof fn lemma_suffix_ascii(r: Seq<char>, s: Seq<char>)
    requires
        ascii(s),
        is_suffix(r, s),
    ensures
        ascii(r),
{
    assert forall|i: int| 0 <= i < r.len() implies '\0' <= #[trigger] r[i] <= '\u{7f}' by {
        assert(r[i] == s[s.len() - r.len() + i]);
    }
}

/// Reads tokens, queries and data values from the unread part of a line.
pub struct Matcher<'a> {
    src: &'a str,
}

impl<'a> View for Matcher<'a> {
    type V = Seq<char>;

    /// The part of the line not read yet.
    closed spec fn view(&self) -> Seq<char> {
        self.src@
    }
}

impl<'a> Matcher<'a> {
    /// The text is one the tokenizer and decoders can read.
    #[verifier::type_invariant]
    closed spec fn inv(&self) -> bool {
        ascii(self.src@)
    }

    /// A matcher over the whole of `src`.
    pub fn new(src: &'a str) -> (r: Matcher<'a>)
        requires
            ascii(src@),
        ensures
            r@ == src@,
    {
        Matcher { src }
    }

    /// Reads the next word; fails with `UnexpectedEof` where none is left.
    pub fn next_static(&mut self) -> (r: Result<&'a str, MatchError>)
        ensures
            has_word(old(self)@) ==> (r matches Ok(w) && w@ == first_word(old(self)@)
                && final(self)@ == after_word(old(self)@)),
            !has_word(old(self)@) ==> (r matches Err(MatchError::UnexpectedEof) && final(self)@
                == old(self)@),
    {
        proof {
            use_type_invariant(&*self);
        }
        match parse_token(self.src) {
            Some((w, rest)) => {
                proof {
                    lemma_word_ascii(self.src@);
                }
                self.src = rest;
                Ok(w)
            },
            None => Err(MatchError::UnexpectedEof),
        }
    }

    /// Reads the next queries; fails with `EmptyQuery` where none can be
    /// read, and then reads nothing.
    pub fn next_query(&mut self) -> (r: Result<Vec<Query>, MatchError>)
        ensures
            nloq_query(old(self)@).len() == 0 ==> (r matches Err(MatchError::EmptyQuery)
                && final(self)@ == old(self)@),
            nloq_query(old(self)@).len() > 0 ==> (r matches Ok(q) && q@ == nloq_query(
                old(self)@,
            ) && final(self)@ == nloq_rest(old(self)@)),
    {
        proof {
            use_type_invariant(&*self);
        }
        let (q, rest) = read_query(self.src);
        if q.len() == 0 {
            Err(MatchError::EmptyQuery)
        } else {
            proof {
                lemma_suffix_ascii(rest@, self.src@);
            }
            self.src = rest;
            Ok(q)
        }
    }

    /// Decodes one value of shape `shape`; a decoder failure is handed on in
    /// `MatchError::Nlsd`, and then nothing is read.
    pub fn next_data(&mut self, shape: Shape) -> (r: Result<Value, MatchError>)
        ensures
            match decode(shape, old(self)@) {
                Some((v, rest)) => r == Ok::<Value, MatchError>(v) && final(self)@ == rest,
                None => r matches Err(MatchError::Nlsd(_)) && final(self)@ == old(self)@,
            },
    {
        proof {
            use_type_invariant(&*self);
        }
        let read = match shape {
            Shape::Bool => match read_bool(self.src) {
                Ok((v, rest)) => Ok((Value::Bool(v), rest)),
                Err(e) => Err(e),
            },
            Shape::I32 => match read_i32(self.src) {
                Ok((v, rest)) => Ok((Value::I32(v), rest)),
                Err(e) => Err(e),
            },
            Shape::I64 => match read_i64(self.src) {
                Ok((v, rest)) => Ok((Value::I64(v), rest)),
                Err(e) => Err(e),
            },
            Shape::U32 => match read_u32(self.src) {
                Ok((v, rest)) => Ok((Value::U32(v), rest)),
                Err(e) => Err(e),
            },
            Shape::Str => match read_string(self.src) {
                Ok((v, rest)) => Ok((Value::Str(v), rest)),
                Err(e) => Err(e),
            },
        };
        match read {
            Ok((v, rest)) => {
                proof {
                    lemma_suffix_ascii(rest@, self.src@);
                }
                self.src = rest;
                Ok(v)
            },
            Err(e) => Err(MatchError::Nlsd(e)),
        }
    }

    /// Whether only white space is left.
    pub fn is_empty(&self) -> (r: bool)
        ensures
            r == !has_word(self@),
    {
        proof {
            use_type_invariant(self);
            crate::words::lemma_lead_ws(self.src@);
        }
        let n = self.src.unicode_len();
        let mut i: usize = 0;
        while i < n
            invariant
                n == self.src@.len(),
                i <= n,
                forall|j: int| 0 <= j < i ==> crate::words::is_ws(#[trigger] self.src@[j]),
            decreases n - i,
        {
            let c = self.src.get_char(i);
            if !(c == ' ' || c == '\t' || c == '\n' || c == '\x0B' || c == '\x0C' || c == '\r') {
                proof {
                    lemma_ws_run(self.src@, i as int);
                }
                return false;
            }
            i = i + 1;
        }
        proof {
            crate::words::lemma_all_ws(self.src@);
        }
        true
    }
}

/// A text whose character at `i` is the first that is no white space holds
/// a word.
proof fn lemma_ws_run(s: Seq<char>, i: int)
    requires
        0 <= i < s.len(),
        !crate::words::is_ws(s[i]),
        forall|j: int| 0 <= j < i ==> crate::words::is_ws(#[trigger] s[j]),
    ensures
        has_word(s),
{
    crate::words::lemma_lead_ws(s);
    if crate::words::lead_ws(s) >= s.len() {
        assert(crate::words::is_ws(s[i]));
    }
}

/// What a destination field of a command holds.
#[derive(Clone, Copy, Debug, PartialEq, Eq, Structural)]
pub enum VarKind {
    /// Queries, filled by a query placeholder.
    Query,
    /// One value of the given shape, filled by a data placeholder.
    Data(Shape),
}

/// A destination field of a command: the placeholder name that fills it and
/// what it holds.
#[derive(Clone, Copy, Debug)]
pub struct Field<'a> {
    pub name: &'a str,
    pub kind: VarKind,
}

impl<'a> View for Field<'a> {
    type V = (Seq<char>, VarKind);

    open spec fn view(&self) -> (Seq<char>, VarKind) {
        (self.name@, self.kind)
    }
}

/// The value read into one field.
#[derive(Debug, PartialEq, Eq)]
pub enum Binding {
    Query(Vec<Query>),
    Data(Value),
}

/// The value read into one field, as a mathematical value.
pub enum BindingView {
    Query(Seq<Query>),
    Data(Value),
}

impl View for Binding {
    type V = BindingView;

    open spec fn view(&self) -> BindingView {
        match self {
            Binding::Query(q) => BindingView::Query(q@),
            Binding::Data(v) => BindingView::Data(*v),
        }
    }
}

/// The views of a sequence of fields.
pub open spec fn field_views<'a>(fs: Seq<Field<'a>>) -> Seq<(Seq<char>, VarKind)> {
    fs.map_values(|f: Field<'a>| f@)
}

/// The views of a sequence of bindings.
pub open spec fn binding_views(bs: Seq<Binding>) -> Seq<BindingView> {
    bs.map_values(|b: Binding| b@)
}

/// The views of the slots filled so far.
pub open spec fn slot_views(bs: Seq<Option<Binding>>) -> Seq<Option<BindingView>> {
    bs.map_values(
        |b: Option<Binding>|
            match b {
                Some(b) => Some(b@),
                None => None,
            },
    )
}

/// The first field from `k` on that is named `name` and holds queries
/// (`query`) or a data value (`!query`).
pub open spec fn find_field(fs: Seq<(Seq<char>, VarKind)>, name: Seq<char>, query: bool, k: int) -> Option<int>
    decreases fs.len() - k,
{
    if k < 0 || k >= fs.len() {
        None
    } else if fs[k].0 == name && (fs[k].1 is Query) == query {
        Some(k)
    } else {
        find_field(fs, name, query, k + 1)
    }
}

/// Matching the clause `ts` from its token `i` on against the text `src`,
/// with the fields filled so far in `slots`: the filled fields, or the
/// error; `Err(None)` stands for a failure of the data decoder.
pub open spec fn walk(
    ts: Seq<TokenView>,
    fs: Seq<(Seq<char>, VarKind)>,
    i: int,
    src: Seq<char>,
    slots: Seq<Option<BindingView>>,
) -> Result<Seq<Option<BindingView>>, Option<MatchError>>
    decreases ts.len() - i,
{
    if i < 0 || i >= ts.len() {
        if has_word(src) {
            Err(Some(MatchError::ExpectedEof))
        } else {
            Ok(slots)
        }
    } else {
        match ts[i] {
            TokenView::Static(w) => if !has_word(src) {
                Err(Some(MatchError::UnexpectedEof))
            } else if first_word(src) != w {
                Err(Some(MatchError::MismatchedStaticToken))
            } else {
                walk(ts, fs, i + 1, after_word(src), slots)
            },
            TokenView::QueryVar(n) => match find_field(fs, n, true, 0) {
                None => Err(Some(MatchError::UnknownQueryVar)),
                Some(k) => if nloq_query(src).len() == 0 {
                    Err(Some(MatchError::EmptyQuery))
                } else {
                    walk(
                        ts,
                        fs,
                        i + 1,
                        nloq_rest(src),
                        slots.update(k, Some(BindingView::Query(nloq_query(src)))),
                    )
                },
            },
            TokenView::DataVar(n) => match find_field(fs, n, false, 0) {
                None => Err(Some(MatchError::UnknownDataVar)),
                Some(k) => match fs[k].1 {
                    VarKind::Data(sh) => if !has_word(src) {
                        Err(Some(MatchError::UnexpectedEof))
                    } else {
                        match decode(sh, src) {
                            None => Err(None),
                            Some((v, rest)) => walk(
                                ts,
                                fs,
                                i + 1,
                                rest,
                                slots.update(k, Some(BindingView::Data(v))),
                            ),
                        }
                    },
                    VarKind::Query => Err(Some(MatchError::UnknownDataVar)),
                },
            },
        }
    }
}

/// No field filled yet.
pub open spec fn empty_slots(n: nat) -> Seq<Option<BindingView>> {
    Seq::new(n, |k: int| None::<BindingView>)
}

/// Matching a whole line against clause `ts` for fields `fs`: the value of
/// each field in order, or the error; `Err(None)` stands for a failure of
/// the data decoder.
pub open spec fn match_spec(ts: Seq<TokenView>, fs: Seq<(Seq<char>, VarKind)>, line: Seq<char>) -> Result<Seq<BindingView>, Option<MatchError>> {
    match walk(ts, fs, 0, line, empty_slots(fs.len())) {
        Err(e) => Err(e),
        Ok(slots) => if forall|k: int| 0 <= k < slots.len() ==> (#[trigger] slots[k]) is Some {
            Ok(slots.map_values(|b: Option<BindingView>| b->Some_0))
        } else {
            Err(Some(MatchError::UnfilledVar))
        },
    }
}

/// `r` is the outcome that `spec` describes.
pub open spec fn outcome_is<T>(r: Result<T, MatchError>, spec: Result<T, Option<MatchError>>) -> bool {
    match spec {
        Ok(v) => r == Ok::<T, MatchError>(v),
        Err(None) => r matches Err(MatchError::Nlsd(_)),
        Err(Some(e)) => r == Err::<T, MatchError>(e),
    }
}

/// The first field from `start` on that is named `name` and holds queries
/// (`query`) or a data value (`!query`).
fn field_index(fields: &[Field], name: &str, query: bool) -> (r: Option<usize>)
    ensures
        match find_field(field_views(fields@), name@, query, 0) {
            Some(k) => r == Some(k as usize),
            None => r is None,
        },
        r matches Some(k) ==> k < fields@.len() && find_field(field_views(fields@), name@, query, 0)
            == Some(k as int),
{
    let ghost fs = field_views(fields@);
    let mut k: usize = 0;
    while k < fields.len()
        invariant
            k <= fields@.len(),
            fs == field_views(fields@),
            find_field(fs, name@, query, 0) == find_field(fs, name@, query, k as int),
        decreases fields@.len() - k,
    {
        let f = fields[k];
        let is_query = match f.kind {
            VarKind::Query => true,
            VarKind::Data(_) => false,
        };
        if str_eq(f.name, name) && is_query == query {
            return Some(k);
        }
        k = k + 1;
    }
    None
}

/// Matches the rest of a line against a compiled clause and fills the
/// fields `fields` by placeholder name.
///
/// The tokens are walked in order: a literal word must be the next word of
/// the line, a query placeholder reads queries into the query field of its
/// name, and a data placeholder decodes a value of its field's shape (where the
/// line has ended, that is `UnexpectedEof`, before any decoding). Then
/// only white space may be left, and every field must have been filled. On
/// success the fields' values are returned in the order of `fields`.
pub fn match_clause(tokens: &[Token], fields: &[Field], m: &mut Matcher) -> (r: Result<Vec<Binding>, MatchError>)
    ensures
        outcome_is(
            match r {
                Ok(bs) => Ok(binding_views(bs@)),
                Err(e) => Err(e),
            },
            match_spec(views(tokens@), field_views(fields@), old(m)@),
        ),
{
    let ghost ts = views(tokens@);
    let ghost fs = field_views(fields@);
    let ghost line = old(m)@;
    let mut slots: Vec<Option<Binding>> = Vec::new();
    let mut k: usize = 0;
    while k < fields.len()
        invariant
            ts == views(tokens@),
            fs == field_views(fields@),
            line == old(m)@,
            m@ == line,
            k <= fields@.len(),
            slots@.len() == k,
            forall|j: int| 0 <= j < k ==> (#[trigger] slots@[j]) is None,
        decreases fields@.len() - k,
    {
        slots.push(None);
        k = k + 1;
    }
    assert(slot_views(slots@) == empty_slots(fs.len()));
    let mut i: usize = 0;
    while i < tokens.len()
        invariant
            ts == views(tokens@),
            fs == field_views(fields@),
            line == old(m)@,
            i <= tokens@.len(),
            slots@.len() == fields@.len(),
            walk(ts, fs, 0, line, empty_slots(fs.len())) == walk(
                ts,
                fs,
                i as int,
                m@,
                slot_views(slots@),
            ),
        decreases tokens@.len() - i,
    {
        let ghost sv = slot_views(slots@);
        assert(ts[i as int] == tokens@[i as int]@);
        match tokens[i] {
            Token::Static(expected) => {
                let w = match m.next_static() {
                    Ok(w) => w,
                    Err(e) => {
                        return Err(e);
                    },
                };
                if !str_eq(w, expected) {
                    return Err(MatchError::MismatchedStaticToken);
                }
            },
            Token::QueryVar(name) => {
                let k = match field_index(fields, name, true) {
                    Some(k) => k,
                    None => {
                        return Err(MatchError::UnknownQueryVar);
                    },
                };
                let q = match m.next_query() {
                    Ok(q) => q,
                    Err(e) => {
                        return Err(e);
                    },
                };
                let ghost qv = q@;
                slots.set(k, Some(Binding::Query(q)));
                assert(slot_views(slots@) =~= sv.update(k as int, Some(BindingView::Query(qv))));
            },
            Token::DataVar(name) => {
                let k = match field_index(fields, name, false) {
                    Some(k) => k,
                    None => {
                        return Err(MatchError::UnknownDataVar);
                    },
                };
                assert(fs[k as int] == fields@[k as int]@);
                let shape = match fields[k].kind {
                    VarKind::Data(sh) => sh,
                    VarKind::Query => {
                        return Err(MatchError::UnknownDataVar);
                    },
                };
                if m.is_empty() {
                    return Err(MatchError::UnexpectedEof);
                }
                let v = match m.next_data(shape) {
                    Ok(v) => v,
                    Err(e) => {
                        return Err(e);
                    },
                };
                slots.set(k, Some(Binding::Data(v)));
                assert(slot_views(slots@) =~= sv.update(k as int, Some(BindingView::Data(v))));
            },
        }
        i = i + 1;
    }
    if !m.is_empty() {
        return Err(MatchError::ExpectedEof);
    }
    let ghost filled = slot_views(slots@);
    let mut j: usize = 0;
    while j < slots.len()
        invariant
            ts == views(tokens@),
            fs == field_views(fields@),
            line == old(m)@,
            walk(ts, fs, 0, line, empty_slots(fs.len())) == Ok::<Seq<Option<BindingView>>, Option<MatchError>>(filled),
            j <= slots@.len(),
            filled == slot_views(slots@),
            forall|q: int| 0 <= q < j ==> (#[trigger] slots@[q]) is Some,
        decreases slots@.len() - j,
    {
        if slots[j].is_none() {
            assert(filled[j as int] is None);
            return Err(MatchError::UnfilledVar);
        }
        j = j + 1;
    }
    assert forall|q: int| 0 <= q < filled.len() implies (#[trigger] filled[q]) is Some by {
        assert(slots@[q] is Some);
    }
    let n = slots.len();
    let mut out: Vec<Binding> = Vec::new();
    while slots.len() > 0
        invariant
            ts == views(tokens@),
            fs == field_views(fields@),
            line == old(m)@,
            walk(ts, fs, 0, line, empty_slots(fs.len())) == Ok::<Seq<Option<BindingView>>, Option<MatchError>>(filled),
            out@.len() + slots@.len() == n,
            filled.len() == n,
            forall|q: int| 0 <= q < slots@.len() ==> (#[trigger] slots@[q]) is Some,
            forall|q: int| 0 <= q < out@.len() ==> Some(#[trigger] out@[q]@) == filled[q],
            forall|q: int|
                0 <= q < slots@.len() ==> #[trigger] slot_views(slots@)[q] == filled[out@.len()
                    + q],
        decreases slots@.len(),
    {
        let ghost old_s = slots@;
        let ghost old_out = out@;
        let b = slots.remove(0);
        assert(slots@ == old_s.remove(0));
        assert(old_s[0] is Some);
        assert(slot_views(old_s)[0] == filled[old_out.len() as int]);
        assert forall|q: int| 0 <= q < slots@.len() implies #[trigger] slot_views(slots@)[q]
            == filled[old_out.len() + 1 + q] by {
            assert(slots@[q] == old_s[q + 1]);
            assert(slot_views(old_s)[q + 1] == filled[old_out.len() + q + 1]);
        }
        assert forall|q: int| 0 <= q < slots@.len() implies (#[trigger] slots@[q]) is Some by {
            assert(slots@[q] == old_s[q + 1]);
        }
        match b {
            Some(b) => out.push(b),
            None => {},
        }
    }
    assert(binding_views(out@) =~= filled.map_values(|b: Option<BindingView>| b->Some_0));
    Ok(out)
}

/// Why the fields of a command do not fit its clause.
#[derive(Clone, Copy, Debug, PartialEq, Eq, Structural)]
pub enum FieldError {
    /// The clause has more or fewer placeholders than there are fields.
    CountMismatch,
    /// A field is named by no placeholder of its kind.
    NotFound,
    /// Two fields of one kind share a name.
    Duplicate,
    /// A placeholder names no field of its kind.
    UnknownVariable,
}

/// The placeholders that fill a field of kind `k`.
pub open spec fn filter_of(k: VarKind) -> VarFilter {
    match k {
        VarKind::Query => VarFilter::Query,
        VarKind::Data(_) => VarFilter::Data,
    }
}

/// The name of placeholder `t`, and whether it is a query placeholder.
pub open spec fn placeholder(t: TokenView) -> Option<(Seq<char>, bool)> {
    match t {
        TokenView::Static(_) => None,
        TokenView::QueryVar(n) => Some((n, true)),
        TokenView::DataVar(n) => Some((n, false)),
    }
}

/// Placeholder `j` of `ts` is matched into field `k` of `fs`.
pub open spec fn routes_to(ts: Seq<TokenView>, fs: Seq<(Seq<char>, VarKind)>, j: int, k: int) -> bool {
    match placeholder(ts[j]) {
        Some((n, q)) => find_field(fs, n, q, 0) == Some(k),
        None => false,
    }
}

/// Whether fields `fs` fit clause `ts`: each field named by a placeholder
/// of its kind, each placeholder naming a field of its kind, no two fields
/// of one kind with one name, and as many fields as placeholders.
pub open spec fn fields_fit(ts: Seq<TokenView>, fs: Seq<(Seq<char>, VarKind)>) -> Result<(), FieldError> {
    if exists|k: int|
        0 <= k < fs.len() && !var_names_spec(ts, filter_of(fs[k].1)).contains(#[trigger] fs[k].0) {
        Err(FieldError::NotFound)
    } else if exists|j: int|
        0 <= j < ts.len() && match placeholder(#[trigger] ts[j]) {
            Some((n, q)) => find_field(fs, n, q, 0) is None,
            None => false,
        } {
        Err(FieldError::UnknownVariable)
    } else if exists|k: int, l: int|
        0 <= k < l < fs.len() && (#[trigger] fs[k]).0 == (#[trigger] fs[l]).0 && (fs[k].1 is Query)
            == (fs[l].1 is Query) {
        Err(FieldError::Duplicate)
    } else if var_names_spec(ts, VarFilter::All).len() != fs.len() {
        Err(FieldError::CountMismatch)
    } else {
        Ok(())
    }
}

/// Whether `names` holds `n`.
fn contains_name(names: &Vec<&str>, n: &str) -> (r: bool)
    ensures
        r == names@.map_values(|s: &str| s@).contains(n@),
{
    let ghost view = names@.map_values(|s: &str| s@);
    let mut i: usize = 0;
    while i < names.len()
        invariant
            view == names@.map_values(|s: &str| s@),
            i <= names@.len(),
            forall|j: int| 0 <= j < i ==> view[j] != n@,
        decreases names@.len() - i,
    {
        if str_eq(names[i], n) {
            assert(view[i as int] == n@);
            return true;
        }
        i = i + 1;
    }
    false
}

/// Checks, once for a command type, that its fields fit its clause: each
/// field named by a placeholder of its kind, each placeholder naming a field
/// of its kind, no two fields of one kind with one name, and as many fields
/// as placeholders.
pub fn check_fields(tokens: &[Token], fields: &[Field]) -> (r: Result<(), FieldError>)
    ensures
        r == fields_fit(views(tokens@), field_views(fields@)),
{
    let ghost ts = views(tokens@);
    let ghost fs = field_views(fields@);
    let queries = var_names(tokens, VarFilter::Query);
    let data = var_names(tokens, VarFilter::Data);
    let mut k: usize = 0;
    while k < fields.len()
        invariant
            ts == views(tokens@),
            fs == field_views(fields@),
            queries@.map_values(|s: &str| s@) == var_names_spec(ts, VarFilter::Query),
            data@.map_values(|s: &str| s@) == var_names_spec(ts, VarFilter::Data),
            k <= fields@.len(),
            forall|j: int|
                0 <= j < k ==> var_names_spec(ts, filter_of(fs[j].1)).contains(#[trigger] fs[j].0),
        decreases fields@.len() - k,
    {
        let f = fields[k];
        assert(fs[k as int] == f@);
        let found = match f.kind {
            VarKind::Query => contains_name(&queries, f.name),
            VarKind::Data(_) => contains_name(&data, f.name),
        };
        if !found {
            assert(!var_names_spec(ts, filter_of(fs[k as int].1)).contains(fs[k as int].0));
            return Err(FieldError::NotFound);
        }
        k = k + 1;
    }
    let mut j: usize = 0;
    while j < tokens.len()
        invariant
            ts == views(tokens@),
            fs == field_views(fields@),
            forall|k: int|
                0 <= k < fs.len() ==> var_names_spec(ts, filter_of(fs[k].1)).contains(#[trigger] fs[k].0),
            j <= tokens@.len(),
            forall|i: int|
                0 <= i < j ==> match placeholder(#[trigger] ts[i]) {
                    Some((n, q)) => find_field(fs, n, q, 0) is Some,
                    None => true,
                },
        decreases tokens@.len() - j,
    {
        assert(ts[j as int] == tokens@[j as int]@);
        let known = match tokens[j] {
            Token::Static(_) => true,
            Token::QueryVar(n) => field_index(fields, n, true).is_some(),
            Token::DataVar(n) => field_index(fields, n, false).is_some(),
        };
        if !known {
            assert(match placeholder(ts[j as int]) {
                Some((n, q)) => find_field(fs, n, q, 0) is None,
                None => false,
            });
            return Err(FieldError::UnknownVariable);
        }
        j = j + 1;
    }
    let mut k: usize = 0;
    while k < fields.len()
        invariant
            ts == views(tokens@),
            fs == field_views(fields@),
            forall|k: int|
                0 <= k < fs.len() ==> var_names_spec(ts, filter_of(fs[k].1)).contains(#[trigger] fs[k].0),
            forall|j: int|
                0 <= j < ts.len() ==> match placeholder(#[trigger] ts[j]) {
                    Some((n, q)) => find_field(fs, n, q, 0) is Some,
                    None => true,
                },
            k <= fields@.len(),
            forall|a: int, b: int|
                0 <= a < b < fs.len() && a < k ==> !((#[trigger] fs[a]).0 == (#[trigger] fs[b]).0
                    && (fs[a].1 is Query) == (fs[b].1 is Query)),
        decreases fields@.len() - k,
    {
        let mut l: usize = k + 1;
        while l < fields.len()
            invariant
                ts == views(tokens@),
                fs == field_views(fields@),
                forall|k: int|
                    0 <= k < fs.len() ==> var_names_spec(ts, filter_of(fs[k].1)).contains(#[trigger] fs[k].0),
                forall|j: int|
                    0 <= j < ts.len() ==> match placeholder(#[trigger] ts[j]) {
                        Some((n, q)) => find_field(fs, n, q, 0) is Some,
                        None => true,
                    },
                k < fields@.len(),
                k < l <= fields@.len(),
                forall|a: int, b: int|
                    0 <= a < b < fs.len() && a < k ==> !((#[trigger] fs[a]).0 == (#[trigger] fs[b]).0
                        && (fs[a].1 is Query) == (fs[b].1 is Query)),
                forall|b: int|
                    k < b < l ==> !(fs[k as int].0 == (#[trigger] fs[b]).0 && (fs[k as int].1 is Query)
                        == (fs[b].1 is Query)),
            decreases fields@.len() - l,
        {
            let fk = fields[k];
            let fl = fields[l];
            assert(fs[k as int] == fk@ && fs[l as int] == fl@);
            let same_kind = match (fk.kind, fl.kind) {
                (VarKind::Query, VarKind::Query) => true,
                (VarKind::Data(_), VarKind::Data(_)) => true,
                _ => false,
            };
            if same_kind && str_eq(fk.name, fl.name) {
                assert(fs[k as int].0 == fs[l as int].0 && (fs[k as int].1 is Query) == (
                fs[l as int].1 is Query));
                return Err(FieldError::Duplicate);
            }
            l = l + 1;
        }
        k = k + 1;
    }
    let all = var_names(tokens, VarFilter::All);
    if all.len() != fields.len() {
        assert(all@.map_values(|s: &str| s@).len() == all@.len());
        return Err(FieldError::CountMismatch);
    }
    Ok(())
}

/// Some placeholder of `ts` from position `i` on is matched into field `k`.
pub open spec fn routed_from(ts: Seq<TokenView>, fs: Seq<(Seq<char>, VarKind)>, i: int, k: int) -> bool {
    exists|j: int| i <= j < ts.len() && #[trigger] routes_to(ts, fs, j, k)
}

/// What `find_field` finds: the first field from `s` on with name `n` whose
/// kind is a query kind exactly where `q` holds.
proof fn lemma_find_field(fs: Seq<(Seq<char>, VarKind)>, n: Seq<char>, q: bool, s: int)
    requires
        0 <= s,
    ensures
        match find_field(fs, n, q, s) {
            Some(k) => s <= k < fs.len() && fs[k].0 == n && (fs[k].1 is Query) == q && forall|m: int|
                s <= m < k ==> !((#[trigger] fs[m]).0 == n && (fs[m].1 is Query) == q),
            None => forall|m: int|
                s <= m < fs.len() ==> !((#[trigger] fs[m]).0 == n && (fs[m].1 is Query) == q),
        },
    decreases fs.len() - s,
{
    if s < fs.len() && !(fs[s].0 == n && (fs[s].1 is Query) == q) {
        lemma_find_field(fs, n, q, s + 1);
    }
}

/// A name in the name list of `ts` is the name of one of its placeholders.
proof fn lemma_names_member(ts: Seq<TokenView>, f: VarFilter, n: Seq<char>)
    requires
        var_names_spec(ts, f).contains(n),
    ensures
        exists|j: int| 0 <= j < ts.len() && name_in(#[trigger] ts[j], f) == Some(n),
    decreases ts.len(),
{
    if ts.len() > 0 {
        let rest = var_names_spec(ts.drop_last(), f);
        if rest.contains(n) {
            lemma_names_member(ts.drop_last(), f, n);
            let j = choose|j: int| 0 <= j < ts.drop_last().len() && name_in(
                #[trigger] ts.drop_last()[j],
                f,
            ) == Some(n);
            assert(ts[j] == ts.drop_last()[j]);
        } else {
            assert(name_in(ts[ts.len() - 1], f) == Some(n));
        }
    }
}

/// Where every placeholder names a field of its kind, a walk fails for no
/// unknown variable, and one that completes fills every field that was
/// filled before or that a placeholder still to come is matched into.
proof fn lemma_walk_routes(
    ts: Seq<TokenView>,
    fs: Seq<(Seq<char>, VarKind)>,
    i: int,
    src: Seq<char>,
    slots: Seq<Option<BindingView>>,
)
    requires
        0 <= i <= ts.len(),
        slots.len() == fs.len(),
        forall|j: int|
            0 <= j < ts.len() ==> match placeholder(#[trigger] ts[j]) {
                Some((n, q)) => find_field(fs, n, q, 0) is Some,
                None => true,
            },
    ensures
        match walk(ts, fs, i, src, slots) {
            Err(Some(e)) => !(e is UnknownQueryVar) && !(e is UnknownDataVar) && !(e is UnfilledVar),
            Err(None) => true,
            Ok(out) => out.len() == slots.len() && forall|k: int|
                0 <= k < slots.len() && ((#[trigger] slots[k]) is Some || routed_from(ts, fs, i, k)) ==> out[k] is Some,
        },
    decreases ts.len() - i,
{
    if i < ts.len() {
        assert(match placeholder(ts[i]) {
            Some((n, q)) => find_field(fs, n, q, 0) is Some,
            None => true,
        });
        match ts[i] {
            TokenView::Static(w) => {
                if has_word(src) && first_word(src) == w {
                    lemma_walk_routes(ts, fs, i + 1, after_word(src), slots);
                    lemma_routes_after(ts, fs, i, slots, slots);
                }
            },
            TokenView::QueryVar(n) => {
                lemma_find_field(fs, n, true, 0);
                let k0 = find_field(fs, n, true, 0)->Some_0;
                if nloq_query(src).len() > 0 {
                    let next = slots.update(k0, Some(BindingView::Query(nloq_query(src))));
                    lemma_walk_routes(ts, fs, i + 1, nloq_rest(src), next);
                    lemma_routes_after(ts, fs, i, slots, next);
                }
            },
            TokenView::DataVar(n) => {
                lemma_find_field(fs, n, false, 0);
                let k0 = find_field(fs, n, false, 0)->Some_0;
                if let VarKind::Data(sh) = fs[k0].1 {
                    if !has_word(src) {
                    } else if let Some((v, rest)) = decode(sh, src) {
                        let next = slots.update(k0, Some(BindingView::Data(v)));
                        lemma_walk_routes(ts, fs, i + 1, rest, next);
                        lemma_routes_after(ts, fs, i, slots, next);
                    }
                }
            },
        }
    }
}

/// One step of a walk keeps what lemma_walk_routes promises: the fields
/// filled after token `i` are those filled before it, and the one it is
/// matched into.
proof fn lemma_routes_after(
    ts: Seq<TokenView>,
    fs: Seq<(Seq<char>, VarKind)>,
    i: int,
    slots: Seq<Option<BindingView>>,
    next: Seq<Option<BindingView>>,
)
    requires
        0 <= i < ts.len(),
        slots.len() == fs.len(),
        next.len() == slots.len(),
        forall|k: int| 0 <= k < slots.len() && (#[trigger] slots[k]) is Some ==> next[k] is Some,
        forall|k: int| 0 <= k < slots.len() && routes_to(ts, fs, i, k) ==> (#[trigger] next[k]) is Some,
    ensures
        forall|k: int|
            0 <= k < slots.len() && ((#[trigger] slots[k]) is Some || routed_from(ts, fs, i, k)) ==> (next[k] is Some || routed_from(ts, fs, i + 1, k)),
{
    assert forall|k: int|
        0 <= k < slots.len() && ((#[trigger] slots[k]) is Some || routed_from(ts, fs, i, k)) implies (next[k] is Some || routed_from(ts, fs, i + 1, k)) by {
        if slots[k] is None {
            let j = choose|j: int| i <= j < ts.len() && #[trigger] routes_to(ts, fs, j, k);
            if j == i {
                assert(next[k] is Some);
            }
        }
    }
}

/// Fields that fit their clause never make matching fail for an unknown or
/// unfilled variable: what `check_fields` accepts once holds for every line.
pub proof fn lemma_fitting_fields(ts: Seq<TokenView>, fs: Seq<(Seq<char>, VarKind)>, line: Seq<char>)
    requires
        fields_fit(ts, fs) == Ok::<(), FieldError>(()),
    ensures
        match match_spec(ts, fs, line) {
            Err(Some(e)) => !(e is UnknownQueryVar) && !(e is UnknownDataVar) && !(e is UnfilledVar),
            _ => true,
        },
{
    assert forall|k: int| 0 <= k < fs.len() implies routed_from(ts, fs, 0, k) by {
        let f = filter_of(fs[k].1);
        assert(var_names_spec(ts, f).contains(fs[k].0));
        lemma_names_member(ts, f, fs[k].0);
        let j = choose|j: int| 0 <= j < ts.len() && name_in(#[trigger] ts[j], f) == Some(fs[k].0);
        let q = fs[k].1 is Query;
        assert(placeholder(ts[j]) == Some((fs[k].0, q)));
        lemma_find_field(fs, fs[k].0, q, 0);
        match find_field(fs, fs[k].0, q, 0) {
            Some(k1) => {
                if k1 < k {
                    assert(fs[k1].0 == fs[k].0 && (fs[k1].1 is Query) == (fs[k].1 is Query));
                } else if k1 > k {
                    assert(fs[k].0 == fs[k].0 && (fs[k].1 is Query) == q);
                }
            },
            None => {
                assert(fs[k].0 == fs[k].0);
            },
        }
        assert(routes_to(ts, fs, j, k));
        assert(routed_from(ts, fs, 0, k));
    }
    let init = empty_slots(fs.len());
    lemma_walk_routes(ts, fs, 0, line, init);
    if let Ok(out) = walk(ts, fs, 0, line, init) {
        assert forall|k: int| 0 <= k < out.len() implies (#[trigger] out[k]) is Some by {
            assert(init[k] is None);
            assert(routed_from(ts, fs, 0, k));
        }
    }
}

} // verus!
