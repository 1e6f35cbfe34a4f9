//! Clause templates: literal words mixed with named placeholders.
use vstd::prelude::*;
use crate::words::{
    after_word, ascii, first_word, has_word, is_ws, lead_word, lead_ws, lemma_all_ws,
    lemma_lead_word, lemma_lead_word_concat, lemma_lead_ws, lemma_lead_ws_concat, lemma_one_word,
    lemma_trim_start, lemma_word_ascii, lemma_word_split, lemma_ws_prefix, parse_token,
    trim_start, words,
};

verus! {

/// A token of a compiled clause template.
#[derive(Clone, Copy, Debug, PartialEq, Eq)]
pub enum Token<'a> {
    /// A literal word that a line must hold exactly.
    Static(&'a str),
    /// A placeholder for a query value, with its name.
    QueryVar(&'a str),
    /// A placeholder for a data value, with its name.
    DataVar(&'a str),
}

/// What a token holds, as character sequences.
pub enum TokenView {
    Static(Seq<char>),
    QueryVar(Seq<char>),
    DataVar(Seq<char>),
}

impl<'a> View for Token<'a> {
    type V = TokenView;

    open spec fn view(&self) -> TokenView {
        match *self {
            Token::Static(s) => TokenView::Static(s@),
            Token::QueryVar(s) => TokenView::QueryVar(s@),
            Token::DataVar(s) => TokenView::DataVar(s@),
        }
    }
}

/// A token that owns its text, for clauses that outlive their template.
#[derive(Clone, Debug, PartialEq, Eq)]
pub enum TokenOwned {
    Static(String),
    QueryVar(String),
    DataVar(String),
}

impl View for TokenOwned {
    type V = TokenView;

    open spec fn view(&self) -> TokenView {
        match self {
            TokenOwned::Static(s) => TokenView::Static(s@),
            TokenOwned::QueryVar(s) => TokenView::QueryVar(s@),
            TokenOwned::DataVar(s) => TokenView::DataVar(s@),
        }
    }
}

impl TokenOwned {
    /// The owned form of token `t`.
    pub fn from(t: Token) -> (r: TokenOwned)
        ensures
            r@ == t@,
    {
        match t {
            Token::Static(s) => TokenOwned::Static(s.to_owned()),
            Token::QueryVar(s) => TokenOwned::QueryVar(s.to_owned()),
            Token::DataVar(s) => TokenOwned::DataVar(s.to_owned()),
        }
    }
}

/// Why a template does not compile.
#[derive(Clone, Copy, Debug, PartialEq, Eq, Structural)]
pub enum ParseError {
    /// A word holds a back-tick but does not close with one.
    InvalidVariableName,
    /// A placeholder's prefix is neither `q` nor `d`.
    InvalidVariablePrefix,
}

impl ParseError {
    /// A description of the error.
    pub fn message(&self) -> (r: &'static str)
        ensures
            r@ == match self {
                ParseError::InvalidVariableName => "invalid variable name"@,
                ParseError::InvalidVariablePrefix => "invalid variable prefix"@,
            },
    {
        match self {
            ParseError::InvalidVariablePrefix => "invalid variable prefix",
            ParseError::InvalidVariableName => "invalid variable name",
        }
    }
}

/// `w` holds a back-tick.
pub open spec fn has_tick(w: Seq<char>) -> bool {
    exists|i: int| 0 <= i < w.len() && w[i] == '`'
}

/// The token that one word of a template stands for.
///
/// A word without a back-tick is literal. Otherwise it must close with a
/// back-tick and open with `q`` (a query placeholder) or `d`` (a data
/// placeholder); the name is what stands between the two back-ticks. A word
/// whose opening back-tick is also its last character has no closing one.
pub open spec fn classify(w: Seq<char>) -> Result<TokenView, ParseError> {
    if !has_tick(w) {
        Ok(TokenView::Static(w))
    } else if w.last() != '`' {
        Err(ParseError::InvalidVariableName)
    } else if w.len() >= 2 && w[1] == '`' && (w[0] == 'q' || w[0] == 'd') {
        if w.len() < 3 {
            Err(ParseError::InvalidVariableName)
        } else if w[0] == 'q' {
            Ok(TokenView::QueryVar(w.subrange(2, w.len() - 1)))
        } else {
            Ok(TokenView::DataVar(w.subrange(2, w.len() - 1)))
        }
    } else {
        Err(ParseError::InvalidVariablePrefix)
    }
}

/// The compiled template `s`: the token of each word in order, or the error
/// of the first word that has none.
pub open spec fn compile(s: Seq<char>) -> Result<Seq<TokenView>, ParseError>
    decreases s.len(),
    via compile_decreases
{
    if !has_word(s) {
        Ok(seq![])
    } else {
        match classify(first_word(s)) {
            Err(e) => Err(e),
            Ok(t) => match compile(after_word(s)) {
                Err(e) => Err(e),
                Ok(ts) => Ok(seq![t].add(ts)),
            },
        }
    }
}

#[via_fn]
proof fn compile_decreases(s: Seq<char>) {
    if has_word(s) {
        lemma_word_split(s);
    }
}

/// The views of a sequence of tokens.
pub open spec fn views<'a>(ts: Seq<Token<'a>>) -> Seq<TokenView> {
    ts.map_values(|t: Token<'a>| t@)
}

impl<'a> Token<'a> {
    /// Whether this is a literal word.
    pub fn is_static(&self) -> (r: bool)
        ensures
            r == (self is Static),
    {
        match self {
            Token::Static(_) => true,
            _ => false,
        }
    }

    /// Whether this is a query placeholder.
    pub fn is_query_var(&self) -> (r: bool)
        ensures
            r == (self is QueryVar),
    {
        match self {
            Token::QueryVar(_) => true,
            _ => false,
        }
    }

    /// Whether this is a data placeholder.
    pub fn is_data_var(&self) -> (r: bool)
        ensures
            r == (self is DataVar),
    {
        match self {
            Token::DataVar(_) => true,
            _ => false,
        }
    }
}

/// The token of one word.
fn classify_word<'a>(w: &'a str) -> (r: Result<Token<'a>, ParseError>)
    requires
        ascii(w@),
        w@.len() > 0,
    ensures
        match r {
            Ok(t) => classify(w@) == Ok::<TokenView, ParseError>(t@),
            Err(e) => classify(w@) == Err::<TokenView, ParseError>(e),
        },
{
    let n = w.unicode_len();
    let mut i: usize = 0;
    while i < n
        invariant
            n == w@.len(),
            i <= n,
            forall|j: int| 0 <= j < i ==> w@[j] != '`',
        ensures
            i < n ==> w@[i as int] == '`',
            i == n ==> !has_tick(w@),
        decreases n - i,
    {
        if w.get_char(i) == '`' {
            break;
        }
        i = i + 1;
    }
    if i == n {
        return Ok(Token::Static(w));
    }
    assert(has_tick(w@));
    if w.get_char(n - 1) != '`' {
        return Err(ParseError::InvalidVariableName);
    }
    if n >= 2 && w.get_char(1) == '`' && (w.get_char(0) == 'q' || w.get_char(0) == 'd') {
        if n < 3 {
            Err(ParseError::InvalidVariableName)
        } else {
            proof {
                assert(w.is_ascii());
            }
            let name = w.substring_ascii(2, n - 1);
            if w.get_char(0) == 'q' {
                Ok(Token::QueryVar(name))
            } else {
                Ok(Token::DataVar(name))
            }
        }
    } else {
        Err(ParseError::InvalidVariablePrefix)
    }
}

/// Reads the first token of `src`; `None` where `src` holds no word.
/// Returns the token with the text that follows it.
pub fn parse_next<'a>(src: &'a str) -> (r: Result<Option<(Token<'a>, &'a str)>, ParseError>)
    requires
        ascii(src@),
    ensures
        !has_word(src@) ==> r == Ok::<Option<(Token<'a>, &'a str)>, ParseError>(None),
        has_word(src@) ==> match r {
            Ok(Some((t, rest))) => classify(first_word(src@)) == Ok::<TokenView, ParseError>(t@)
                && rest@ == after_word(src@),
            Err(e) => classify(first_word(src@)) == Err::<TokenView, ParseError>(e),
            Ok(None) => false,
        },
        match r {
            Ok(Some((_, rest))) => ascii(rest@),
            _ => true,
        },
{
    match parse_token(src) {
        None => Ok(None),
        Some((w, rest)) => {
            proof {
                lemma_word_split(src@);
                lemma_word_ascii(src@);
            }
            match classify_word(w) {
                Ok(t) => Ok(Some((t, rest))),
                Err(e) => Err(e),
            }
        }
    }
}

/// Which placeholders a name list takes.
#[derive(Clone, Copy, Debug, PartialEq, Eq, Structural)]
pub enum VarFilter {
    /// Query and data placeholders alike.
    All,
    /// Query placeholders only.
    Query,
    /// Data placeholders only.
    Data,
}

/// The name of token `t` where it is a placeholder that `f` takes.
pub open spec fn name_in(t: TokenView, f: VarFilter) -> Option<Seq<char>> {
    match t {
        TokenView::Static(_) => None,
        TokenView::QueryVar(n) => if f != VarFilter::Data {
            Some(n)
        } else {
            None
        },
        TokenView::DataVar(n) => if f != VarFilter::Query {
            Some(n)
        } else {
            None
        },
    }
}

/// The names of the placeholders of `ts` that `f` takes, in order.
pub open spec fn var_names_spec(ts: Seq<TokenView>, f: VarFilter) -> Seq<Seq<char>>
    decreases ts.len(),
{
    if ts.len() == 0 {
        seq![]
    } else {
        let rest = var_names_spec(ts.drop_last(), f);
        match name_in(ts.last(), f) {
            Some(n) => rest.push(n),
            None => rest,
        }
    }
}

/// The names of the placeholders of a compiled clause that `filter` takes,
/// in order.
pub fn var_names<'a>(tokens: &[Token<'a>], filter: VarFilter) -> (r: Vec<&'a str>)
    ensures
        r@.map_values(|s: &'a str| s@) == var_names_spec(views(tokens@), filter),
{
    let ghost ts = views(tokens@);
    let mut out: Vec<&'a str> = Vec::new();
    let mut i: usize = 0;
    while i < tokens.len()
        invariant
            ts == views(tokens@),
            i <= tokens@.len(),
            out@.map_values(|s: &'a str| s@) == var_names_spec(ts.take(i as int), filter),
        decreases tokens@.len() - i,
    {
        let ghost before = out@;
        assert(ts.take(i + 1).drop_last() == ts.take(i as int));
        assert(ts.take(i + 1).last() == tokens@[i as int]@);
        match tokens[i] {
            Token::Static(_) => {},
            Token::QueryVar(n) => {
                if filter != VarFilter::Data {
                    out.push(n);
                    assert(out@.map_values(|s: &'a str| s@) == before.map_values(|s: &'a str| s@).push(n@));
                }
            },
            Token::DataVar(n) => {
                if filter != VarFilter::Query {
                    out.push(n);
                    assert(out@.map_values(|s: &'a str| s@) == before.map_values(|s: &'a str| s@).push(n@));
                }
            },
        }
        i = i + 1;
    }
    assert(ts.take(i as int) == ts);
    out
}

/// Reads the tokens of a clause template one at a time.
pub struct Parser<'a> {
    src: &'a str,
}

impl<'a> View for Parser<'a> {
    type V = Seq<char>;

    /// The template text not read yet.
    closed spec fn view(&self) -> Seq<char> {
        self.src@
    }
}

impl<'a> Parser<'a> {
    /// A parser over the whole of `src`.
    pub fn new(src: &'a str) -> (r: Parser<'a>)
        ensures
            r@ == src@,
    {
        Parser { src }
    }

    /// The next token; `None` once no word is left. After an error the
    /// parser stays where it is.
    pub fn next(&mut self) -> (r: Option<Result<Token<'a>, ParseError>>)
        requires
            ascii(old(self)@),
        ensures
            ascii(final(self)@),
            !has_word(old(self)@) ==> r is None && final(self)@ == old(self)@,
            has_word(old(self)@) ==> match r {
                Some(Ok(t)) => classify(first_word(old(self)@)) == Ok::<TokenView, ParseError>(t@)
                    && final(self)@ == after_word(old(self)@),
                Some(Err(e)) => classify(first_word(old(self)@)) == Err::<TokenView, ParseError>(
                    e,
                ) && final(self)@ == old(self)@,
                None => false,
            },
    {
        match parse_next(self.src) {
            Ok(Some((t, rest))) => {
                self.src = rest;
                Some(Ok(t))
            },
            Ok(None) => None,
            Err(e) => Some(Err(e)),
        }
    }
}

/// Compiles a clause template into its tokens, in order; fails with the
/// error of the first word that is no valid token.
pub fn parse<'a>(string: &'a str) -> (r: Result<Vec<Token<'a>>, ParseError>)
    requires
        ascii(string@),
    ensures
        match r {
            Ok(ts) => compile(string@) == Ok::<Seq<TokenView>, ParseError>(views(ts@)),
            Err(e) => compile(string@) == Err::<Seq<TokenView>, ParseError>(e),
        },
{
    let mut parser = Parser::new(string);
    let mut out: Vec<Token<'a>> = Vec::new();
    proof {
        if let Ok(ts) = compile(string@) {
            assert(views(out@).add(ts) =~= ts);
        }
    }
    loop
        invariant
            ascii(parser@),
            compile(string@) == match compile(parser@) {
                Ok(ts) => Ok(views(out@).add(ts)),
                Err(e) => Err::<Seq<TokenView>, ParseError>(e),
            },
        decreases parser@.len(),
    {
        let ghost before = parser@;
        proof {
            if has_word(before) {
                lemma_word_split(before);
            }
        }
        match parser.next() {
            None => {
                assert(views(out@).add(seq![]) == views(out@));
                return Ok(out);
            },
            Some(Err(e)) => {
                return Err(e);
            },
            Some(Ok(t)) => {
                proof {
                    let rest = compile(parser@);
                    if let Ok(ts) = rest {
                        assert(views(out@.push(t)).add(ts) == views(out@).add(seq![t@].add(ts)));
                    }
                }
                out.push(t);
            },
        }
    }
}

/// A template without back-ticks compiles to one literal token per word,
/// in order.
pub proof fn lemma_plain_words(s: Seq<char>)
    requires
        !has_tick(s),
    ensures
        compile(s) == Ok::<Seq<TokenView>, ParseError>(
            words(s).map_values(|w: Seq<char>| TokenView::Static(w)),
        ),
    decreases s.len(),
{
    if has_word(s) {
        lemma_word_split(s);
        let a = lead_ws(s) as int;
        let b = lead_word(s.skip(a)) as int;
        let c = lead_ws(s.skip(a + b)) as int;
        assert(!has_tick(first_word(s))) by {
            if has_tick(first_word(s)) {
                let i = choose|i: int| 0 <= i < first_word(s).len() && first_word(s)[i] == '`';
                assert(s[a + i] == '`');
            }
        }
        assert(!has_tick(after_word(s))) by {
            if has_tick(after_word(s)) {
                let i = choose|i: int| 0 <= i < after_word(s).len() && after_word(s)[i] == '`';
                assert(s[a + b + c + i] == '`');
            }
        }
        lemma_plain_words(after_word(s));
        let f = |w: Seq<char>| TokenView::Static(w);
        assert(words(s).map_values(f) == seq![f(first_word(s))].add(
            words(after_word(s)).map_values(f),
        ));
    } else {
        assert(words(s).map_values(|w: Seq<char>| TokenView::Static(w)) == Seq::<TokenView>::empty());
    }
}

/// Tokens of two templates joined: those of the first, then those of the
/// second; the first error otherwise.
pub open spec fn join(
    a: Result<Seq<TokenView>, ParseError>,
    b: Result<Seq<TokenView>, ParseError>,
) -> Result<Seq<TokenView>, ParseError> {
    match a {
        Err(e) => Err(e),
        Ok(x) => match b {
            Err(e) => Err(e),
            Ok(y) => Ok(x.add(y)),
        },
    }
}

/// White space in front of a template does not change what it compiles to.
pub proof fn lemma_compile_ws_prefix(p: Seq<char>, y: Seq<char>)
    requires
        lead_ws(p) == p.len(),
    ensures
        compile(p.add(y)) == compile(y),
{
    lemma_ws_prefix(p, y);
}

/// The empty template compiles to no tokens.
pub proof fn lemma_compile_empty()
    ensures
        compile(Seq::<char>::empty()) == Ok::<Seq<TokenView>, ParseError>(Seq::<TokenView>::empty()),
{
}

/// Two templates joined by a space compile to the tokens of the first
/// followed by those of the second; where either fails, the join fails with
/// the first error in reading order.
pub proof fn lemma_compile_concat(s1: Seq<char>, s2: Seq<char>)
    ensures
        compile(s1.add(seq![' ']).add(s2)) == join(compile(s1), compile(s2)),
    decreases s1.len(),
{
    let sp = seq![' '];
    let s = s1.add(sp).add(s2);
    assert(s == s1.add(sp.add(s2)));
    if !has_word(s1) {
        lemma_lead_ws(s1);
        lemma_all_ws(sp);
        lemma_lead_ws_concat(s1, sp);
        assert(s == s1.add(sp).add(s2));
        lemma_compile_ws_prefix(s1.add(sp), s2);
        if let Ok(y) = compile(s2) {
            assert(Seq::<TokenView>::empty().add(y) == y);
        }
    } else {
        lemma_word_split(s1);
        lemma_lead_ws(s1);
        let a = lead_ws(s1) as int;
        let b = lead_word(s1.skip(a)) as int;
        let rest2 = sp.add(s2);
        lemma_lead_ws_concat(s1, rest2);
        assert(lead_ws(s) == a);
        assert(s.skip(a) == s1.skip(a).add(rest2));
        lemma_lead_word_concat(s1.skip(a), rest2);
        lemma_lead_word(s1.skip(a));
        assert(rest2[0] == ' ');
        assert(lead_word(rest2) == 0);
        assert(lead_word(s.skip(a)) == b);
        assert(first_word(s) == first_word(s1)) by {
            assert(trim_start(s).take(b) == s.subrange(a, a + b));
            assert(s.subrange(a, a + b) == s1.subrange(a, a + b));
        }
        let r1 = s1.skip(a + b);
        assert(trim_start(s).skip(b) == r1.add(rest2));
        assert(after_word(s) == trim_start(r1.add(rest2)));
        assert(after_word(s1) == trim_start(r1));
        lemma_trim_start(r1);
        let w1 = r1.take(lead_ws(r1) as int);
        if has_word(r1) {
            // what follows the word of s1 still holds a word
            assert(r1.add(rest2) == w1.add(trim_start(r1).add(rest2)));
            lemma_compile_ws_prefix(w1, trim_start(r1).add(rest2));
            lemma_trim_start(r1.add(rest2));
            let w = r1.add(rest2).take(lead_ws(r1.add(rest2)) as int);
            lemma_compile_ws_prefix(w, after_word(s));
            assert(trim_start(r1).add(rest2) == after_word(s1).add(sp).add(s2));
            lemma_compile_concat(after_word(s1), s2);
            assert(compile(after_word(s)) == compile(r1.add(rest2)));
        } else {
            // the word of s1 is its last
            lemma_lead_ws(r1);
            assert(r1.add(sp).add(s2) == r1.add(rest2));
            assert forall|i: int| 0 <= i < r1.add(sp).len() implies is_ws(
                #[trigger] r1.add(sp)[i],
            ) by {
                if i < r1.len() {
                    assert(r1.add(sp)[i] == r1[i]);
                }
            }
            lemma_all_ws(r1.add(sp));
            lemma_compile_ws_prefix(r1.add(sp), s2);
            lemma_trim_start(r1.add(rest2));
            let w = r1.add(rest2).take(lead_ws(r1.add(rest2)) as int);
            lemma_compile_ws_prefix(w, after_word(s));
            assert(compile(after_word(s)) == compile(s2));
            assert(!has_word(after_word(s1)));
            if let Ok(y) = compile(s2) {
                assert(Seq::<TokenView>::empty().add(y) == y);
            }
        }
        assert(has_word(s));
        assert(compile(after_word(s)) == join(compile(after_word(s1)), compile(s2)));
        match classify(first_word(s1)) {
            Err(e) => {},
            Ok(t) => {
                match (compile(after_word(s1)), compile(s2)) {
                    (Ok(x), Ok(y)) => {
                        assert(seq![t].add(x).add(y) == seq![t].add(x.add(y)));
                    },
                    _ => {},
                }
            },
        }
    }
}

/// A word holding a back-tick that it does not close with is an invalid
/// variable name; one that closes with a back-tick but opens with neither
/// `q`` nor `d`` has an invalid prefix.
pub proof fn lemma_bad_placeholder(w: Seq<char>)
    requires
        w.len() > 0,
        forall|i: int| 0 <= i < w.len() ==> !is_ws(#[trigger] w[i]),
        has_tick(w),
    ensures
        w.last() != '`' ==> compile(w) == Err::<Seq<TokenView>, ParseError>(
            ParseError::InvalidVariableName,
        ),
        w.last() == '`' && !(w.len() >= 2 && w[1] == '`' && (w[0] == 'q' || w[0] == 'd'))
            ==> compile(w) == Err::<Seq<TokenView>, ParseError>(
            ParseError::InvalidVariablePrefix,
        ),
{
    lemma_one_word(w);
}

} // verus!
