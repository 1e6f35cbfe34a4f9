//! Compiling a script: each line is matched against an ordered list of
//! command types, and the first that matches wins.
use vstd::prelude::*;
use crate::matcher::MatchError;
use crate::vm::context::{Context, Value};
use crate::vm::func::Callable;
use crate::vm::script::Script;
use crate::vm::trap::Trap;
use crate::words::{ascii, is_ws, lead_ws};

verus! {

/// A command type that can be read from a line of text.
pub trait Match<C>: Sized {
    /// Matching `line` in state `ctx`: the state afterwards, and the command
    /// read where the line matches. A type that does not state its outcome
    /// is taken to match nothing and leave the state alone.
    open spec fn outcome(ctx: C, line: Seq<char>) -> (C, Option<Self>) {
        (ctx, None)
    }

    /// The error returned where `line` does not match in state `ctx`. A type
    /// that does not state it is taken to report `UnexpectedEof`.
    open spec fn error_of(ctx: C, line: Seq<char>) -> MatchError {
        MatchError::UnexpectedEof
    }

    /// Reads a command of this type from `line`.
    fn match_str(ctx: &mut C, line: &str) -> (r: Result<Self, MatchError>)
        requires
            ascii(line@),
        ensures
            *final(ctx) == Self::outcome(*old(ctx), line@).0,
            match r {
                Ok(c) => Self::outcome(*old(ctx), line@).1 == Some(c),
                Err(e) => Self::outcome(*old(ctx), line@).1 is None && e == Self::error_of(
                    *old(ctx),
                    line@,
                ),
            },
    ;
}

/// An ordered list of command types, tried first to last on each line. The
/// list is also the type of the commands it reads: `Cons::Head` holds one of
/// the first type, `Cons::Tail` one of the rest.
pub enum Cons<H, T> {
    Head(H),
    Tail(T),
}

/// The empty list of command types; it matches no line.
pub struct Nil;

/// The number of characters before the first line break of
/// `s`: all of them where it has none.
pub open spec fn line_len(s: Seq<char>) -> nat
    decreases s.len(),
{
    if s.len() == 0 || s[0] == '\n' {
        0
    } else {
        1 + line_len(s.drop_first())
    }
}

/// The number of white-space characters that `s` ends with.
pub open spec fn trail_ws(s: Seq<char>) -> nat
    decreases s.len(),
{
    if s.len() > 0 && is_ws(s.last()) {
        1 + trail_ws(s.drop_last())
    } else {
        0
    }
}

/// `s` without white space at either end.
pub open spec fn trim(s: Seq<char>) -> Seq<char> {
    if lead_ws(s) >= s.len() {
        Seq::empty()
    } else {
        s.subrange(lead_ws(s) as int, s.len() - trail_ws(s))
    }
}

/// A list of command types.
pub trait ModuleType<C>: Sized {
    /// Matching `line` in state `ctx` against the types of the list in
    /// order: the state afterwards, and the command of the first type that
    /// matches.
    spec fn line_outcome(ctx: C, line: Seq<char>) -> (C, Option<Self>);

    /// The error returned where no type of the list matches `line` in state
    /// `ctx`: that of the last type tried, and `last` for the empty list.
    spec fn line_error(ctx: C, line: Seq<char>, last: MatchError) -> MatchError;

    /// Reads a command from `line` with the first type of the list that
    /// matches it. Where none does, the error of the last type tried is
    /// returned, and `last` where the list is empty.
    fn compile_line_or(ctx: &mut C, line: &str, last: MatchError) -> (r: Result<Self, MatchError>)
        requires
            ascii(line@),
        ensures
            *final(ctx) == Self::line_outcome(*old(ctx), line@).0,
            match r {
                Ok(c) => Self::line_outcome(*old(ctx), line@).1 == Some(c),
                Err(e) => Self::line_outcome(*old(ctx), line@).1 is None && e == Self::line_error(
                    *old(ctx),
                    line@,
                    last,
                ),
            },
    ;
}

impl<C> ModuleType<C> for Nil {
    open spec fn line_outcome(ctx: C, line: Seq<char>) -> (C, Option<Self>) {
        (ctx, None)
    }

    open spec fn line_error(ctx: C, line: Seq<char>, last: MatchError) -> MatchError {
        last
    }

    fn compile_line_or(ctx: &mut C, line: &str, last: MatchError) -> (r: Result<Self, MatchError>) {
        Err(last)
    }
}

impl<C, H: Match<C>, T: ModuleType<C>> ModuleType<C> for Cons<H, T> {
    open spec fn line_outcome(ctx: C, line: Seq<char>) -> (C, Option<Self>) {
        let (c1, h) = H::outcome(ctx, line);
        match h {
            Some(h) => (c1, Some(Cons::Head(h))),
            None => {
                let (c2, t) = T::line_outcome(c1, line);
                match t {
                    Some(t) => (c2, Some(Cons::Tail(t))),
                    None => (c2, None),
                }
            },
        }
    }

    open spec fn line_error(ctx: C, line: Seq<char>, last: MatchError) -> MatchError {
        T::line_error(H::outcome(ctx, line).0, line, H::error_of(ctx, line))
    }

    fn compile_line_or(ctx: &mut C, line: &str, last: MatchError) -> (r: Result<Self, MatchError>) {
        match H::match_str(ctx, line) {
            Ok(h) => Ok(Cons::Head(h)),
            Err(e) => match T::compile_line_or(ctx, line, e) {
                Ok(t) => Ok(Cons::Tail(t)),
                Err(e) => Err(e),
            },
        }
    }
}

impl<H: Callable, T: Callable> Callable for Cons<H, T> {
    open spec fn effect(&self, store: Map<Seq<char>, Value>) -> (Map<Seq<char>, Value>, Result<(), Trap>) {
        match self {
            Cons::Head(h) => h.effect(store),
            Cons::Tail(t) => t.effect(store),
        }
    }

    fn call(&self, ctx: &mut Context) -> (r: Result<(), Trap>) {
        match self {
            Cons::Head(h) => h.call(ctx),
            Cons::Tail(t) => t.call(ctx),
        }
    }
}

impl Callable for Nil {
    open spec fn effect(&self, store: Map<Seq<char>, Value>) -> (Map<Seq<char>, Value>, Result<(), Trap>) {
        (store, Ok(()))
    }

    fn call(&self, ctx: &mut Context) -> (r: Result<(), Trap>) {
        Ok(())
    }
}

/// Where the first command type of a list matches a line, its command is
/// the one read: the types of a list are tried strictly in order.
pub proof fn lemma_first_match_wins<C, H: Match<C>, T: ModuleType<C>>(ctx: C, line: Seq<char>)
    requires
        H::outcome(ctx, line).1 is Some,
    ensures
        Cons::<H, T>::line_outcome(ctx, line) == (
            H::outcome(ctx, line).0,
            Some(Cons::<H, T>::Head(H::outcome(ctx, line).1->Some_0)),
        ),
{
}

/// Something that reads commands of type `F` from lines: an ordered list of
/// command types.
pub trait Module<C, F> {
    /// Matching `line` in state `ctx`: the state afterwards, and the command
    /// of the first type that matches.
    spec fn outcome_of(&self, ctx: C, line: Seq<char>) -> (C, Option<F>);

    /// The error returned where no type matches `line` in state `ctx`: that
    /// of the last type tried.
    spec fn error_of(&self, ctx: C, line: Seq<char>) -> MatchError;

    /// Reads a command from `line` with the first type that matches it;
    /// where none does, the error of the last type tried is returned.
    fn compile_line(&self, ctx: &mut C, line: &str) -> (r: Result<F, MatchError>)
        requires
            ascii(line@),
        ensures
            *final(ctx) == self.outcome_of(*old(ctx), line@).0,
            match r {
                Ok(c) => self.outcome_of(*old(ctx), line@).1 == Some(c),
                Err(e) => self.outcome_of(*old(ctx), line@).1 is None && e == self.error_of(
                    *old(ctx),
                    line@,
                ),
            },
    ;
}

/// The list of command types `M` (a `Cons` list) as a module.
pub struct Types<M> {
    marker: core::marker::PhantomData<M>,
}

impl<M> Types<M> {
    /// The module of the types of `M`.
    pub fn new() -> (r: Types<M>) {
        Types { marker: core::marker::PhantomData }
    }
}

impl<C, M: ModuleType<C>> Module<C, M> for Types<M> {
    open spec fn outcome_of(&self, ctx: C, line: Seq<char>) -> (C, Option<M>) {
        M::line_outcome(ctx, line)
    }

    open spec fn error_of(&self, ctx: C, line: Seq<char>) -> MatchError {
        M::line_error(ctx, line, MatchError::UnexpectedEof)
    }

    fn compile_line(&self, ctx: &mut C, line: &str) -> (r: Result<M, MatchError>) {
        M::compile_line_or(ctx, line, MatchError::UnexpectedEof)
    }
}

/// A candidate of a list built at run time: it reads commands of type `F`.
pub trait MatchFunc<C, F> {
    /// Matching `line` in state `ctx`: the state afterwards, and the command
    /// read where the line matches. A candidate that does not state its
    /// outcome is taken to match nothing and leave the state alone.
    open spec fn func_outcome(&self, ctx: C, line: Seq<char>) -> (C, Option<F>) {
        (ctx, None)
    }

    /// The error returned where `line` does not match in state `ctx`. A
    /// candidate that does not state it is taken to report `UnexpectedEof`.
    open spec fn func_error(&self, ctx: C, line: Seq<char>) -> MatchError {
        MatchError::UnexpectedEof
    }

    /// Reads a command from `line`.
    fn match_func(&self, ctx: &mut C, line: &str) -> (r: Result<F, MatchError>)
        requires
            ascii(line@),
        ensures
            *final(ctx) == self.func_outcome(*old(ctx), line@).0,
            match r {
                Ok(c) => self.func_outcome(*old(ctx), line@).1 == Some(c),
                Err(e) => self.func_outcome(*old(ctx), line@).1 is None && e == self.func_error(
                    *old(ctx),
                    line@,
                ),
            },
    ;
}

/// Trying the candidates of `ks` from position `i` on, in order, on `line`
/// in state `ctx`: the state afterwards, and the command of the first that
/// matches.
pub open spec fn list_outcome<C, F, K: MatchFunc<C, F>>(ks: Seq<K>, ctx: C, line: Seq<char>, i: int) -> (C, Option<F>)
    decreases ks.len() - i,
{
    if i < 0 || i >= ks.len() {
        (ctx, None)
    } else {
        let (c1, o) = ks[i].func_outcome(ctx, line);
        match o {
            Some(f) => (c1, Some(f)),
            None => list_outcome(ks, c1, line, i + 1),
        }
    }
}

/// The error of the last of the candidates of `ks` from position `i` on,
/// tried in order on `line` in state `ctx`, where none matches; `last` where
/// none is left to try.
pub open spec fn list_error<C, F, K: MatchFunc<C, F>>(ks: Seq<K>, ctx: C, line: Seq<char>, i: int, last: MatchError) -> MatchError
    decreases ks.len() - i,
{
    if i < 0 || i >= ks.len() {
        last
    } else {
        list_error(ks, ks[i].func_outcome(ctx, line).0, line, i + 1, ks[i].func_error(ctx, line))
    }
}

impl<C, F, K: MatchFunc<C, F>> Module<C, F> for Vec<K> {
    open spec fn outcome_of(&self, ctx: C, line: Seq<char>) -> (C, Option<F>) {
        list_outcome(self@, ctx, line, 0)
    }

    open spec fn error_of(&self, ctx: C, line: Seq<char>) -> MatchError {
        list_error(self@, ctx, line, 0, MatchError::UnexpectedEof)
    }

    fn compile_line(&self, ctx: &mut C, line: &str) -> (r: Result<F, MatchError>) {
        let ghost start = *ctx;
        let mut last = MatchError::UnexpectedEof;
        let mut i: usize = 0;
        while i < self.len()
            invariant
                i <= self@.len(),
                list_outcome(self@, start, line@, 0) == list_outcome(self@, *ctx, line@, i as int),
                list_error(self@, start, line@, 0, MatchError::UnexpectedEof) == list_error(
                    self@,
                    *ctx,
                    line@,
                    i as int,
                    last,
                ),
                start == *old(ctx),
                ascii(line@),
            decreases self@.len() - i,
        {
            match self[i].match_func(ctx, line) {
                Ok(f) => {
                    return Ok(f);
                },
                Err(e) => {
                    last = e;
                },
            }
            i = i + 1;
        }
        Err(last)
    }
}

/// Where candidate `i` matches a line and the candidates before it fail on
/// it without changing the state, the command read is that of candidate
/// `i`: no later candidate is tried.
pub proof fn lemma_list_first_match_wins<C, F, K: MatchFunc<C, F>>(ks: Seq<K>, ctx: C, line: Seq<char>, i: int)
    requires
        0 <= i < ks.len(),
        forall|j: int| 0 <= j < i ==> (#[trigger] ks[j]).func_outcome(ctx, line).1 is None,
        forall|j: int| 0 <= j < i ==> (#[trigger] ks[j]).func_outcome(ctx, line).0 == ctx,
        ks[i].func_outcome(ctx, line).1 is Some,
    ensures
        list_outcome(ks, ctx, line, 0) == ks[i].func_outcome(ctx, line),
{
    lemma_list_skip(ks, ctx, line, 0, i);
}

proof fn lemma_list_skip<C, F, K: MatchFunc<C, F>>(ks: Seq<K>, ctx: C, line: Seq<char>, j: int, i: int)
    requires
        0 <= j <= i < ks.len(),
        forall|k: int| 0 <= k < i ==> (#[trigger] ks[k]).func_outcome(ctx, line).1 is None,
        forall|k: int| 0 <= k < i ==> (#[trigger] ks[k]).func_outcome(ctx, line).0 == ctx,
        ks[i].func_outcome(ctx, line).1 is Some,
    ensures
        list_outcome(ks, ctx, line, j) == ks[i].func_outcome(ctx, line),
    decreases i - j,
{
    if j < i {
        lemma_list_skip(ks, ctx, line, j + 1, i);
    }
}

/// Compiling the lines of `s` with module `m`, the first line having number
/// `no`, in state `ctx`: the state afterwards, and the commands of the lines
/// that are not blank in order, or the number of the first line that no
/// command type matches, with the error of the last type tried on it.
pub open spec fn compile_spec<C, F, M: Module<C, F>>(m: M, ctx: C, s: Seq<char>, no: nat) -> (C, Result<Seq<F>, (nat, MatchError)>)
    decreases s.len(),
{
    let n = line_len(s);
    let t = trim(s.take(n as int));
    let (c1, head) = if t.len() == 0 {
        (ctx, Ok(None))
    } else {
        match m.outcome_of(ctx, t) {
            (c, Some(f)) => (c, Ok(Some(f))),
            (c, None) => (c, Err((no, m.error_of(ctx, t)))),
        }
    };
    match head {
        Err(k) => (c1, Err(k)),
        Ok(f) => {
            let (c2, rest) = if n < s.len() {
                compile_spec::<C, F, M>(m, c1, s.skip(n + 1int), no + 1)
            } else {
                (c1, Ok(Seq::empty()))
            };
            (
                c2,
                match rest {
                    Err(k) => Err(k),
                    Ok(fs) => match f {
                        Some(f) => Ok(seq![f].add(fs)),
                        None => Ok(fs),
                    },
                },
            )
        },
    }
}

/// The first line break of `s` is at `i`, or there is none and `i` is the
/// length of `s`.
proof fn lemma_line_len(s: Seq<char>, i: int)
    requires
        0 <= i <= s.len(),
        forall|j: int| 0 <= j < i ==> #[trigger] s[j] != '\n',
        i == s.len() || s[i] == '\n',
    ensures
        line_len(s) == i,
    decreases s.len(),
{
    if s.len() > 0 && s[0] != '\n' {
        assert forall|j: int| 0 <= j < i - 1 implies #[trigger] s.drop_first()[j] != '\n' by {
            assert(s.drop_first()[j] == s[j + 1]);
        }
        lemma_line_len(s.drop_first(), i - 1);
    }
}

/// The leading white space of `s` ends at `i`.
proof fn lemma_lead_ws_at(s: Seq<char>, i: int)
    requires
        0 <= i <= s.len(),
        forall|j: int| 0 <= j < i ==> is_ws(#[trigger] s[j]),
        i == s.len() || !is_ws(s[i]),
    ensures
        lead_ws(s) == i,
    decreases s.len(),
{
    if s.len() > 0 && is_ws(s[0]) {
        assert forall|j: int| 0 <= j < i - 1 implies is_ws(#[trigger] s.drop_first()[j]) by {
            assert(s.drop_first()[j] == s[j + 1]);
        }
        lemma_lead_ws_at(s.drop_first(), i - 1);
    }
}

/// The trailing white space of `s` starts at `i`.
proof fn lemma_trail_ws_at(s: Seq<char>, i: int)
    requires
        0 <= i <= s.len(),
        forall|j: int| i <= j < s.len() ==> is_ws(#[trigger] s[j]),
        i == 0 || !is_ws(s[i - 1]),
    ensures
        trail_ws(s) == s.len() - i,
    decreases s.len(),
{
    if s.len() > 0 && is_ws(s.last()) {
        assert forall|j: int| i <= j < s.drop_last().len() implies is_ws(
            #[trigger] s.drop_last()[j],
        ) by {
            assert(s.drop_last()[j] == s[j]);
        }
        if i == s.len() {
            assert(s[i - 1] == s.last());
        }
        lemma_trail_ws_at(s.drop_last(), i);
    }
}

fn is_ws_char(c: char) -> (r: bool)
    ensures
        r == is_ws(c),
{
    c == ' ' || c == '\t' || c == '\n' || c == '\x0B' || c == '\x0C' || c == '\r'
}

/// Splits `s` at its first line break: the text before it, and the text
/// after it where there is one.
fn split_line<'a>(s: &'a str) -> (r: (&'a str, Option<&'a str>))
    requires
        ascii(s@),
    ensures
        r.0@ == s@.take(line_len(s@) as int),
        ascii(r.0@),
        line_len(s@) < s@.len() ==> (r.1 matches Some(rest) && rest@ == s@.skip(line_len(s@) + 1int)
            && ascii(rest@)),
        line_len(s@) >= s@.len() ==> r.1 is None,
{
    proof {
        assert(s.is_ascii());
    }
    let n = s.unicode_len();
    let mut i: usize = 0;
    while i < n && s.get_char(i) != '\n'
        invariant
            n == s@.len(),
            i <= n,
            forall|j: int| 0 <= j < i ==> #[trigger] s@[j] != '\n',
        decreases n - i,
    {
        i = i + 1;
    }
    proof {
        lemma_line_len(s@, i as int);
    }
    let line = s.substring_ascii(0, i);
    if i < n {
        let rest = s.substring_ascii(i + 1, n);
        assert(rest@ == s@.skip(i + 1));
        (line, Some(rest))
    } else {
        (line, None)
    }
}

/// `s` without white space at either end.
fn trim_str<'a>(s: &'a str) -> (r: &'a str)
    requires
        ascii(s@),
    ensures
        r@ == trim(s@),
        ascii(r@),
{
    proof {
        assert(s.is_ascii());
    }
    let n = s.unicode_len();
    let mut a: usize = 0;
    while a < n && is_ws_char(s.get_char(a))
        invariant
            n == s@.len(),
            a <= n,
            forall|j: int| 0 <= j < a ==> is_ws(#[trigger] s@[j]),
        decreases n - a,
    {
        a = a + 1;
    }
    proof {
        lemma_lead_ws_at(s@, a as int);
    }
    if a == n {
        return s.substring_ascii(n, n);
    }
    let mut b: usize = n;
    while b > a && is_ws_char(s.get_char(b - 1))
        invariant
            n == s@.len(),
            a < n,
            !is_ws(s@[a as int]),
            a <= b <= n,
            forall|j: int| b <= j < n ==> is_ws(#[trigger] s@[j]),
        decreases b,
    {
        b = b - 1;
    }
    proof {
        if b == a {
            assert(false);
        }
        lemma_trail_ws_at(s@, b as int);
    }
    s.substring_ascii(a, b)
}

/// The outcome of compiling the rest of a text, after the commands `out`.
pub open spec fn after<C, M>(out: Seq<M>, r: (C, Result<Seq<M>, (nat, MatchError)>)) -> (C, Result<Seq<M>, (nat, MatchError)>) {
    (
        r.0,
        match r.1 {
            Ok(fs) => Ok(out.add(fs)),
            Err(k) => Err(k),
        },
    )
}

/// Compiles a script with `module`: each line of `text` that is not blank,
/// without white space at either end, is read with the first command type
/// that matches it, in the order of the lines; `ctx` carries over from line
/// to line.
///
/// Where no type matches a line, compilation stops with the line's number,
/// counted from 1 over all lines, blank ones included, and the error of the
/// last type tried.
pub fn compile<C, F, M: Module<C, F>>(module: &M, ctx: &mut C, text: &str) -> (r: Result<
    Script<F>,
    (usize, MatchError),
>)
    requires
        ascii(text@),
        text@.len() < usize::MAX,
    ensures
        *final(ctx) == compile_spec::<C, F, M>(*module, *old(ctx), text@, 1).0,
        match compile_spec::<C, F, M>(*module, *old(ctx), text@, 1).1 {
            Ok(fs) => r matches Ok(s) && s@ == fs,
            Err((k, e)) => r matches Err((n, e2)) && n == k && e2 == e,
        },
{
    let ghost total = compile_spec::<C, F, M>(*module, *ctx, text@, 1);
    let mut rest: &str = text;
    let mut no: usize = 1;
    let mut out: Vec<F> = Vec::new();
    proof {
        if let Ok(fs) = total.1 {
            assert(out@.add(fs) == fs);
        }
    }
    loop
        invariant
            total == compile_spec::<C, F, M>(*module, *old(ctx), text@, 1),
            ascii(rest@),
            1 <= no,
            no + rest@.len() <= text@.len() + 1,
            text@.len() < usize::MAX,
            total == after(out@, compile_spec::<C, F, M>(*module, *ctx, rest@, no as nat)),
        decreases rest@.len(),
    {
        let ghost r0 = rest@;
        let (line, next) = split_line(rest);
        let t = trim_str(line);
        if t.unicode_len() > 0 {
            match module.compile_line(ctx, t) {
                Ok(f) => {
                    let ghost out0 = out@;
                    out.push(f);
                    proof {
                        if line_len(r0) < r0.len() {
                            let tail = compile_spec::<C, F, M>(
                                *module,
                                *ctx,
                                r0.skip(line_len(r0) + 1int),
                                (no + 1) as nat,
                            );
                            if let Ok(fs) = tail.1 {
                                assert(out0.add(seq![f].add(fs)) == out@.add(fs));
                            }
                        } else {
                            assert(out0.add(seq![f].add(Seq::<F>::empty())) == out@.add(Seq::<F>::empty()));
                        }
                    }
                },
                Err(e) => {
                    return Err((no, e));
                },
            }
        }
        match next {
            None => {
                proof {
                    assert(out@.add(Seq::<F>::empty()) == out@);
                }
                return Ok(Script::from_vec(out));
            },
            Some(n) => {
                rest = n;
                no = no + 1;
            },
        }
    }
}

} // verus!
