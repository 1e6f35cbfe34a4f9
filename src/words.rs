//! The word tokenizer shared by clause compilation and line matching, and a
//! model of it over character sequences.
use vstd::prelude::*;

verus! {

/// ASCII white space, as `char::is_whitespace` classifies it.
pub open spec fn is_ws(c: char) -> bool {
    c == ' ' || c == '\t' || c == '\n' || c == '\x0B' || c == '\x0C' || c == '\r'
}

/// Every character of `s` is ASCII.
pub open spec fn ascii(s: Seq<char>) -> bool {
    forall|i: int| 0 <= i < s.len() ==> '\0' <= #[trigger] s[i] <= '\u{7f}'
}

/// The number of white-space characters that `s` starts with.
pub open spec fn lead_ws(s: Seq<char>) -> nat
    decreases s.len(),
{
    if s.len() > 0 && is_ws(s[0]) {
        1 + lead_ws(s.drop_first())
    } else {
        0
    }
}

/// The number of non-white-space characters that `s` starts with.
pub open spec fn lead_word(s: Seq<char>) -> nat
    decreases s.len(),
{
    if s.len() > 0 && !is_ws(s[0]) {
        1 + lead_word(s.drop_first())
    } else {
        0
    }
}

/// `s` without its leading white space.
pub open spec fn trim_start(s: Seq<char>) -> Seq<char> {
    s.skip(lead_ws(s) as int)
}

/// `s` holds at least one word.
pub open spec fn has_word(s: Seq<char>) -> bool {
    lead_ws(s) < s.len()
}

/// The first word of `s`: the first maximal run of non-white-space
/// characters.
pub open spec fn first_word(s: Seq<char>) -> Seq<char> {
    let t = trim_start(s);
    t.take(lead_word(t) as int)
}

/// What follows the first word of `s`, without its leading white space.
pub open spec fn after_word(s: Seq<char>) -> Seq<char> {
    let t = trim_start(s);
    trim_start(t.skip(lead_word(t) as int))
}

/// The words of `s`, in order.
pub open spec fn words(s: Seq<char>) -> Seq<Seq<char>>
    decreases s.len(),
    via words_decreases
{
    if has_word(s) {
        seq![first_word(s)].add(words(after_word(s)))
    } else {
        seq![]
    }
}

#[via_fn]
proof fn words_decreases(s: Seq<char>) {
    if has_word(s) {
        lemma_word_split(s);
    }
}

pub proof fn lemma_lead_ws(s: Seq<char>)
    ensures
        lead_ws(s) <= s.len(),
        forall|i: int| 0 <= i < lead_ws(s) ==> is_ws(#[trigger] s[i]),
        lead_ws(s) < s.len() ==> !is_ws(s[lead_ws(s) as int]),
    decreases s.len(),
{
    if s.len() > 0 && is_ws(s[0]) {
        lemma_lead_ws(s.drop_first());
        assert forall|i: int| 0 <= i < lead_ws(s) implies is_ws(#[trigger] s[i]) by {
            if i > 0 {
                assert(s[i] == s.drop_first()[i - 1]);
            }
        }
    }
}

pub proof fn lemma_lead_word(s: Seq<char>)
    ensures
        lead_word(s) <= s.len(),
        forall|i: int| 0 <= i < lead_word(s) ==> !is_ws(#[trigger] s[i]),
        lead_word(s) < s.len() ==> is_ws(s[lead_word(s) as int]),
        s.len() > 0 && !is_ws(s[0]) ==> lead_word(s) > 0,
    decreases s.len(),
{
    if s.len() > 0 && !is_ws(s[0]) {
        lemma_lead_word(s.drop_first());
        assert forall|i: int| 0 <= i < lead_word(s) implies !is_ws(#[trigger] s[i]) by {
            if i > 0 {
                assert(s[i] == s.drop_first()[i - 1]);
            }
        }
    }
}

/// The first word and what follows it, as subranges of `s`.
pub proof fn lemma_word_split(s: Seq<char>)
    requires
        has_word(s),
    ensures
        ({
            let a = lead_ws(s) as int;
            let b = lead_word(s.skip(a)) as int;
            let c = lead_ws(s.skip(a + b)) as int;
            &&& 0 <= a < a + b <= a + b + c <= s.len()
            &&& first_word(s) == s.subrange(a, a + b)
            &&& after_word(s) == s.skip(a + b + c)
        }),
        first_word(s).len() > 0,
        after_word(s).len() < s.len(),
{
    let a = lead_ws(s) as int;
    lemma_lead_ws(s);
    let t = s.skip(a);
    lemma_lead_word(t);
    let b = lead_word(t) as int;
    assert(t[0] == s[a]);
    let u = t.skip(b);
    lemma_lead_ws(u);
    assert(u == s.skip(a + b));
    assert(u.skip(lead_ws(u) as int) == s.skip(a + b + lead_ws(u)));
    assert(t.take(b) == s.subrange(a, a + b));
}

/// Leading white space of a concatenation.
pub proof fn lemma_lead_ws_concat(x: Seq<char>, y: Seq<char>)
    ensures
        lead_ws(x.add(y)) == if lead_ws(x) < x.len() {
            lead_ws(x)
        } else {
            x.len() + lead_ws(y)
        },
    decreases x.len(),
{
    if x.len() > 0 {
        assert(x.add(y)[0] == x[0]);
        assert(x.add(y).drop_first() == x.drop_first().add(y));
        lemma_lead_ws_concat(x.drop_first(), y);
    } else {
        assert(x.add(y) == y);
    }
}

/// The leading word of a concatenation.
pub proof fn lemma_lead_word_concat(x: Seq<char>, y: Seq<char>)
    ensures
        lead_word(x.add(y)) == if lead_word(x) < x.len() {
            lead_word(x)
        } else {
            x.len() + lead_word(y)
        },
    decreases x.len(),
{
    if x.len() > 0 {
        assert(x.add(y)[0] == x[0]);
        assert(x.add(y).drop_first() == x.drop_first().add(y));
        lemma_lead_word_concat(x.drop_first(), y);
    } else {
        assert(x.add(y) == y);
    }
}

/// White space in front of a text changes neither its words nor what
/// follows them.
pub proof fn lemma_ws_prefix(p: Seq<char>, y: Seq<char>)
    requires
        lead_ws(p) == p.len(),
    ensures
        trim_start(p.add(y)) == trim_start(y),
        has_word(p.add(y)) == has_word(y),
        first_word(p.add(y)) == first_word(y),
        after_word(p.add(y)) == after_word(y),
{
    lemma_lead_ws_concat(p, y);
    lemma_lead_ws(y);
    assert(p.add(y).skip((p.len() + lead_ws(y)) as int) == y.skip(lead_ws(y) as int));
}

/// A text and the same text without its leading white space split alike.
pub proof fn lemma_trim_start(s: Seq<char>)
    ensures
        s == s.take(lead_ws(s) as int).add(trim_start(s)),
        lead_ws(s.take(lead_ws(s) as int)) == lead_ws(s),
        s.take(lead_ws(s) as int).len() == lead_ws(s),
{
    lemma_lead_ws(s);
    let k = lead_ws(s) as int;
    assert(s == s.take(k).add(s.skip(k)));
    lemma_lead_ws_concat(s.take(k), s.skip(k));
    lemma_all_ws(s.take(k));
}

/// A text of white space only.
pub proof fn lemma_all_ws(p: Seq<char>)
    requires
        forall|i: int| 0 <= i < p.len() ==> is_ws(#[trigger] p[i]),
    ensures
        lead_ws(p) == p.len(),
    decreases p.len(),
{
    if p.len() > 0 {
        assert forall|i: int| 0 <= i < p.drop_first().len() implies is_ws(
            #[trigger] p.drop_first()[i],
        ) by {
            assert(p.drop_first()[i] == p[i + 1]);
        }
        lemma_all_ws(p.drop_first());
    }
}

/// A text of one word.
pub proof fn lemma_one_word(w: Seq<char>)
    requires
        w.len() > 0,
        forall|i: int| 0 <= i < w.len() ==> !is_ws(#[trigger] w[i]),
    ensures
        has_word(w),
        first_word(w) == w,
        after_word(w) == Seq::<char>::empty(),
    decreases w.len(),
{
    lemma_whole_word(w);
    assert(w.skip(0) == w);
    assert(w.take(w.len() as int) == w);
}

proof fn lemma_whole_word(w: Seq<char>)
    requires
        forall|i: int| 0 <= i < w.len() ==> !is_ws(#[trigger] w[i]),
    ensures
        lead_word(w) == w.len(),
        w.len() > 0 ==> lead_ws(w) == 0,
    decreases w.len(),
{
    if w.len() > 0 {
        assert forall|i: int| 0 <= i < w.drop_first().len() implies !is_ws(
            #[trigger] w.drop_first()[i],
        ) by {
            assert(w.drop_first()[i] == w[i + 1]);
        }
        lemma_whole_word(w.drop_first());
    }
}

/// Relies on `nl_parser::parse_token`: it skips leading white space and
/// returns the following run of non-white-space characters together with
/// what comes after it, from which leading white space is skipped too; it
/// fails where no such character is left. Its slicing is sound on ASCII text.
#[verifier::external_body]
pub fn parse_token<'a>(src: &'a str) -> (r: Option<(&'a str, &'a str)>)
    requires
        ascii(src@),
    ensures
        match r {
            None => !has_word(src@),
            Some((w, rest)) => has_word(src@) && w@ == first_word(src@) && rest@ == after_word(
                src@,
            ),
        },
{
    match nl_parser::parse_token(src) {
        Ok((_, w, rest)) => Some((w, rest)),
        Err(_) => None,
    }
}

/// Both parts of a split of ASCII text are ASCII.
pub proof fn lemma_word_ascii(s: Seq<char>)
    requires
        ascii(s),
        has_word(s),
    ensures
        ascii(first_word(s)),
        ascii(after_word(s)),
{
    lemma_word_split(s);
    let a = lead_ws(s) as int;
    let b = lead_word(s.skip(a)) as int;
    assert forall|i: int| 0 <= i < first_word(s).len() implies '\0' <= #[trigger] first_word(s)[i]
        <= '\u{7f}' by {
        assert(first_word(s)[i] == s[a + i]);
    }
    let c = lead_ws(s.skip(a + b)) as int;
    assert forall|i: int| 0 <= i < after_word(s).len() implies '\0' <= #[trigger] after_word(s)[i]
        <= '\u{7f}' by {
        assert(after_word(s)[i] == s[a + b + c + i]);
    }
}

/// Whether `s` equals the characters of `t`.
pub fn str_eq(s: &str, t: &str) -> (r: bool)
    ensures
        r == (s@ == t@),
{
    let n = s.unicode_len();
    if n != t.unicode_len() {
        return false;
    }
    let mut i: usize = 0;
    while i < n
        invariant
            n == s@.len(),
            n == t@.len(),
            i <= n,
            s@.subrange(0, i as int) == t@.subrange(0, i as int),
        decreases n - i,
    {
        if s.get_char(i) != t.get_char(i) {
            return false;
        }
        assert(s@.subrange(0, i + 1) == s@.subrange(0, i as int).push(s@[i as int]));
        assert(t@.subrange(0, i + 1) == t@.subrange(0, i as int).push(t@[i as int]));
        i = i + 1;
    }
    assert(s@ == s@.subrange(0, n as int));
    assert(t@ == t@.subrange(0, n as int));
    true
}

} // verus!
