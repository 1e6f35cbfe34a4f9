//! The Given / When / Then keyword state machine.
use vstd::prelude::*;
use crate::matcher::{MatchError, Matcher};
use crate::words::{after_word, first_word, has_word, str_eq};

verus! {

/// The position reached in a Given / When / Then scenario.
#[derive(Copy, Clone, Debug, PartialEq, Eq, Structural)]
pub enum Step {
    /// No keyword has been read yet.
    Start,
    /// Inside the Given part: setting up input.
    Given,
    /// Inside the When part: conditional assertions.
    When,
    /// Inside the Then part: producing side effects.
    Then,
}

/// The keywords that move the state machine.
#[derive(Copy, Clone, Debug, PartialEq, Eq, Structural)]
pub enum Keyword {
    Given,
    When,
    Then,
    And,
}

/// Which keyword, if any, the text `s` spells.
pub open spec fn keyword_of(s: Seq<char>) -> Option<Keyword> {
    if s == seq!['G', 'i', 'v', 'e', 'n'] {
        Some(Keyword::Given)
    } else if s == seq!['W', 'h', 'e', 'n'] {
        Some(Keyword::When)
    } else if s == seq!['T', 'h', 'e', 'n'] {
        Some(Keyword::Then)
    } else if s == seq!['A', 'n', 'd'] {
        Some(Keyword::And)
    } else {
        None
    }
}

/// The transition on one keyword; `None` where the keyword is not legal in
/// state `st`.
pub open spec fn step_on(st: Step, k: Keyword) -> Option<Step> {
    match k {
        Keyword::Given => match st {
            Step::Start | Step::Given => Some(Step::Given),
            _ => None,
        },
        Keyword::When => match st {
            Step::Then => None,
            _ => Some(Step::When),
        },
        Keyword::Then => Some(Step::Then),
        Keyword::And => match st {
            Step::Start => None,
            _ => Some(st),
        },
    }
}

/// The transition on the text of a keyword.
pub open spec fn next_spec(st: Step, s: Seq<char>) -> Option<Step> {
    match keyword_of(s) {
        Some(k) => step_on(st, k),
        None => None,
    }
}

impl Keyword {
    /// Reads a keyword from its text.
    pub fn from_str(s: &str) -> (r: Option<Keyword>)
        ensures
            r == keyword_of(s@),
    {
        proof {
            reveal_strlit("Given");
            reveal_strlit("When");
            reveal_strlit("Then");
            reveal_strlit("And");
            assert("Given"@ =~= seq!['G', 'i', 'v', 'e', 'n']);
            assert("When"@ =~= seq!['W', 'h', 'e', 'n']);
            assert("Then"@ =~= seq!['T', 'h', 'e', 'n']);
            assert("And"@ =~= seq!['A', 'n', 'd']);
        }
        if str_eq(s, "Given") {
            Some(Keyword::Given)
        } else if str_eq(s, "When") {
            Some(Keyword::When)
        } else if str_eq(s, "Then") {
            Some(Keyword::Then)
        } else if str_eq(s, "And") {
            Some(Keyword::And)
        } else {
            None
        }
    }
}

impl Step {
    /// The initial state.
    pub fn new() -> (r: Step)
        ensures
            r == Step::Start,
    {
        Step::Start
    }

    /// The state after `keyword` ("Given", "When", "Then" or "And"), or
    /// `None` where the keyword is not legal here.
    pub fn next(self, keyword: &str) -> (r: Option<Step>)
        ensures
            r == next_spec(self, keyword@),
    {
        match Keyword::from_str(keyword) {
            Some(k) => self.next_keyword(k),
            None => None,
        }
    }

    /// The state after keyword `k`, or `None` where it is not legal here.
    pub fn next_keyword(self, k: Keyword) -> (r: Option<Step>)
        ensures
            r == step_on(self, k),
    {
        match k {
            Keyword::Given => match self {
                Step::Start | Step::Given => Some(Step::Given),
                _ => None,
            },
            Keyword::When => match self {
                Step::Then => None,
                _ => Some(Step::When),
            },
            Keyword::Then => Some(Step::Then),
            Keyword::And => match self {
                Step::Start => None,
                _ => Some(self),
            },
        }
    }
}

impl Default for Step {
    fn default() -> (r: Step)
        ensures
            r == Step::Start,
    {
        Step::Start
    }
}

/// The part of a scenario that a command belongs to.
#[derive(Copy, Clone, Debug, PartialEq, Eq, Structural)]
pub enum Bdd {
    Given,
    When,
    Then,
}

impl Bdd {
    /// The keyword that opens a command of this part.
    pub open spec fn keyword(self) -> Keyword {
        match self {
            Bdd::Given => Keyword::Given,
            Bdd::When => Keyword::When,
            Bdd::Then => Keyword::Then,
        }
    }

    /// A command of this part may open with `w`: its own keyword, or `And`.
    pub open spec fn accepts(self, w: Seq<char>) -> bool {
        keyword_of(w) == Some(self.keyword()) || keyword_of(w) == Some(Keyword::And)
    }

    /// Reads the keyword that opens a command of this part and moves the
    /// state machine on it.
    ///
    /// Fails with `UnexpectedEof` on an empty line, with
    /// `MismatchedStaticToken` where the first word is neither this part's
    /// keyword nor `And`, and with `InvalidCtx` where the keyword is not legal
    /// in state `ctx`. The state changes only on success.
    pub fn match_keyword(self, ctx: &mut Step, m: &mut Matcher) -> (r: Result<(), MatchError>)
        ensures
            !has_word(old(m)@) ==> (r matches Err(MatchError::UnexpectedEof) && *final(ctx) == *old(ctx)),
            has_word(old(m)@) && !self.accepts(first_word(old(m)@)) ==> (r matches Err(
                MatchError::MismatchedStaticToken,
            ) && *final(ctx) == *old(ctx)),
            has_word(old(m)@) && self.accepts(first_word(old(m)@)) ==> final(m)@ == after_word(
                old(m)@,
            ) && match next_spec(*old(ctx), first_word(old(m)@)) {
                Some(st) => r is Ok && *final(ctx) == st,
                None => r matches Err(MatchError::InvalidCtx) && *final(ctx) == *old(ctx),
            },
    {
        let w = match m.next_static() {
            Ok(w) => w,
            Err(e) => {
                return Err(e);
            },
        };
        let k = match Keyword::from_str(w) {
            Some(k) => k,
            None => {
                return Err(MatchError::MismatchedStaticToken);
            },
        };
        let own = match self {
            Bdd::Given => Keyword::Given,
            Bdd::When => Keyword::When,
            Bdd::Then => Keyword::Then,
        };
        if k != own && k != Keyword::And {
            return Err(MatchError::MismatchedStaticToken);
        }
        match ctx.next_keyword(k) {
            Some(st) => {
                *ctx = st;
                Ok(())
            },
            None => Err(MatchError::InvalidCtx),
        }
    }
}

} // verus!
