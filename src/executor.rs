use vstd::prelude::*;

use crate::expr::{op_of, operator_from_char, Expr, Op, Term};
use crate::literal::{Literal, LiteralView};

verus! {

/// Why a character could not be processed.
#[derive(Clone, Copy, Debug, PartialEq, Eq, Structural)]
pub enum ErrorKind {
    /// A second decimal point inside one number. The field counts the
    /// fractional digits typed since the first one: the decimal position
    /// stood at `-(1 + fraction_digits)`.
    DuplicateDecimal { fraction_digits: usize },
    /// A character that is no digit, decimal point, operator or whitespace.
    UnknownCharacter(char),
    /// An operator met fewer than two operands.
    InsufficientOperands,
}

/// An error together with the zero-based index of the character (not the
/// byte) that raised it.
#[derive(Clone, Copy, Debug, PartialEq, Eq, Structural)]
pub struct ParseError {
    pub index: usize,
    pub kind: ErrorKind,
}

/// `c` is an ASCII decimal digit.
pub open spec fn is_digit(c: char) -> bool {
    '0' <= c && c <= '9'
}

/// The value of the digit character `c`.
pub open spec fn digit_of(c: char) -> u8 {
    (c as u32 - '0' as u32) as u8
}

/// `c` separates numbers without doing anything else: space, tab, NUL or
/// newline.
pub open spec fn is_blank(c: char) -> bool {
    c == ' ' || c == '\t' || c == '\0' || c == '\n'
}

/// The mathematical state of an [`Executor`].
pub struct State {
    /// The operands, the top of the stack last.
    pub stack: Seq<Term>,
    /// The number being typed, if a digit came since the last flush.
    pub current: Option<LiteralView>,
    /// A decimal point came since the last flush.
    pub point: bool,
}

impl State {
    /// An empty stack and nothing being typed.
    pub open spec fn initial() -> State {
        State { stack: Seq::empty(), current: None, point: false }
    }

    /// Every operand and the number being typed are well-formed, and a
    /// number has fractional digits only after a decimal point.
    pub open spec fn wf(self) -> bool {
        &&& forall|i: int| 0 <= i < self.stack.len() ==> #[trigger] self.stack[i].wf()
        &&& self.current matches Some(l) ==> l.wf() && (!self.point ==> l.scale == 0)
    }

    /// The number of fractional digits of the number being typed.
    pub open spec fn fraction_digits(self) -> nat {
        match self.current {
            Some(l) => l.scale,
            None => 0,
        }
    }

    /// Commits the number being typed, if any, to the stack, and leaves
    /// decimal mode.
    pub open spec fn flush(self) -> State {
        State {
            stack: match self.current {
                Some(l) => self.stack.push(Term::Number(l)),
                None => self.stack,
            },
            current: None,
            point: false,
        }
    }

    /// Folds the digit `d` into the number being typed. The first digit of
    /// a number starts it, even after a decimal point; a later one is
    /// fractional exactly when a decimal point came.
    pub open spec fn fold(self, d: u8) -> State {
        State {
            current: Some(
                match self.current {
                    None => LiteralView { digits: seq![d], scale: 0 },
                    Some(l) => l.fold(d, self.point),
                },
            ),
            ..self
        }
    }

    /// Enters decimal mode; fails if a decimal point already came.
    pub open spec fn mark_point(self) -> Result<State, ErrorKind> {
        if self.point {
            Err(ErrorKind::DuplicateDecimal { fraction_digits: self.fraction_digits() as usize })
        } else {
            Ok(State { point: true, ..self })
        }
    }

    /// Flushes, then replaces the two topmost operands by `op` applied to
    /// them, the deeper one on the left.
    pub open spec fn apply(self, op: Op) -> Result<State, ErrorKind> {
        let f = self.flush();
        let n = f.stack.len();
        if n < 2 {
            Err(ErrorKind::InsufficientOperands)
        } else {
            Ok(
                State {
                    stack: f.stack.take(n - 2).push(
                        Term::Apply(op, Box::new(f.stack[n - 2]), Box::new(f.stack[n - 1])),
                    ),
                    ..f
                },
            )
        }
    }

    /// Processes one character.
    pub open spec fn step(self, c: char) -> Result<State, ErrorKind> {
        if is_digit(c) {
            Ok(self.fold(digit_of(c)))
        } else if c == '.' {
            self.mark_point()
        } else if op_of(c) is Some {
            self.apply(op_of(c)->0)
        } else if is_blank(c) {
            Ok(self.flush())
        } else {
            Err(ErrorKind::UnknownCharacter(c))
        }
    }
}

/// Processes the characters `cs` in order from `s`, stopping at the first
/// error, which carries the index of its character in `cs`. No final flush.
pub open spec fn run(s: State, cs: Seq<char>) -> Result<State, ParseError>
    decreases cs.len(),
{
    if cs.len() == 0 {
        Ok(s)
    } else {
        match run(s, cs.drop_last()) {
            Ok(m) => match m.step(cs.last()) {
                Ok(m2) => Ok(m2),
                Err(k) => Err(ParseError { index: (cs.len() - 1) as usize, kind: k }),
            },
            Err(e) => Err(e),
        }
    }
}

/// What [`Executor::parse`] makes of `cs` from `s`: the run, then a flush.
pub open spec fn evaluate(s: State, cs: Seq<char>) -> Result<State, ParseError> {
    match run(s, cs) {
        Ok(m) => Ok(m.flush()),
        Err(e) => Err(e),
    }
}

/// The view of a stack of operands.
pub open spec fn terms_of(v: Seq<Expr>) -> Seq<Term> {
    v.map_values(|e: Expr| e@)
}

/// Once a run has failed, more characters keep the same error.
pub proof fn lemma_run_error_stays(s: State, cs: Seq<char>, i: int)
    requires
        0 < i <= cs.len(),
        run(s, cs.take(i)) is Err,
    ensures
        run(s, cs) == run(s, cs.take(i)),
    decreases cs.len() - i,
{
    if i < cs.len() {
        assert(cs.take(i + 1).drop_last() =~= cs.take(i));
        lemma_run_error_stays(s, cs, i + 1);
    } else {
        assert(cs.take(i) =~= cs);
    }
}

/// The evaluator: an operand stack, the number being typed, and whether a
/// decimal point came in it.
#[derive(Debug)]
pub struct Executor {
    stack: Vec<Expr>,
    current: Option<Literal>,
    point: bool,
}

impl View for Executor {
    type V = State;

    closed spec fn view(&self) -> State {
        State {
            stack: terms_of(self.stack@),
            current: match self.current {
                Some(l) => Some(l@),
                None => None,
            },
            point: self.point,
        }
    }
}

impl Executor {
    /// A fresh evaluator: empty stack, nothing being typed.
    pub fn new() -> (r: Executor)
        ensures
            r@ == State::initial(),
            r@.wf(),
    {
        let r = Executor { stack: Vec::new(), current: None, point: false };
        assert(r@.stack =~= Seq::<Term>::empty());
        r
    }

    /// The operands, the top of the stack last.
    pub fn stack(&self) -> (r: &Vec<Expr>)
        ensures
            terms_of(r@) == self@.stack,
    {
        &self.stack
    }

    /// Pushes `value` onto the stack.
    pub fn push_flushed(&mut self, value: Expr)
        requires
            old(self)@.wf(),
            value@.wf(),
        ensures
            final(self)@ == (State { stack: old(self)@.stack.push(value@), ..old(self)@ }),
            final(self)@.wf(),
    {
        self.stack.push(value);
        assert(terms_of(self.stack@) =~= terms_of(old(self).stack@).push(value@));
    }

    /// Commits the number being typed, if any, to the stack, and leaves
    /// decimal mode. A second flush in a row changes nothing.
    pub fn reset(&mut self)
        requires
            old(self)@.wf(),
        ensures
            final(self)@ == old(self)@.flush(),
            final(self)@.wf(),
    {
        let current = self.current.take();
        if let Some(l) = current {
            self.push_flushed(Expr::Number(l));
        }
        self.point = false;
    }

    /// Folds the digit `d` into the number being typed.
    pub fn fold_digit(&mut self, d: u8)
        requires
            old(self)@.wf(),
            d < 10,
        ensures
            final(self)@ == old(self)@.fold(d),
            final(self)@.wf(),
    {
        match &mut self.current {
            Some(l) => {
                l.fold_digit(d, self.point);
            },
            None => {
                self.current = Some(Literal::from_digit(d));
            },
        }
    }

    /// Enters decimal mode; fails if a decimal point already came in the
    /// number being typed.
    pub fn set_decimal(&mut self) -> (r: Result<(), ErrorKind>)
        requires
            old(self)@.wf(),
        ensures
            match old(self)@.mark_point() {
                Ok(m) => r is Ok && final(self)@ == m,
                Err(k) => r == Err::<(), ErrorKind>(k) && final(self)@ == old(self)@,
            },
            final(self)@.wf(),
    {
        if self.point {
            let fraction_digits: usize = match &self.current {
                Some(l) => l.scale,
                None => 0,
            };
            Err(ErrorKind::DuplicateDecimal { fraction_digits })
        } else {
            self.point = true;
            Ok(())
        }
    }

    /// Flushes, pops the right operand and then the left one, and pushes
    /// `op` applied to them. With fewer than two operands it fails and
    /// leaves the stack empty.
    pub fn apply_operation(&mut self, op: Op) -> (r: Result<(), ErrorKind>)
        requires
            old(self)@.wf(),
        ensures
            match old(self)@.apply(op) {
                Ok(m) => r is Ok && final(self)@ == m,
                Err(k) => r == Err::<(), ErrorKind>(k) && final(self)@ == (State {
                    stack: Seq::empty(),
                    ..old(self)@.flush()
                }),
            },
            final(self)@.wf(),
    {
        self.reset();
        let ghost f = self@;
        let ghost v = self.stack@;
        if let Some(second) = self.stack.pop() {
            if let Some(first) = self.stack.pop() {
                let ghost n = v.len();
                assert(terms_of(self.stack@) =~= f.stack.take(n - 2));
                assert(f.stack[n - 2] == first@ && f.stack[n - 1] == second@);
                assert(f.stack[n - 2].wf() && f.stack[n - 1].wf());
                self.push_flushed(Expr::Apply(op, Box::new(first), Box::new(second)));
                return Ok(());
            }
        }
        assert(terms_of(self.stack@) =~= Seq::<Term>::empty());
        Err(ErrorKind::InsufficientOperands)
    }

    /// Processes the character `ch`, found at `index` of the input: a digit
    /// is folded in, a decimal point enters decimal mode, an operator is
    /// applied, whitespace flushes; anything else fails.
    pub fn process_character(&mut self, ch: char, index: usize) -> (r: Result<(), ParseError>)
        requires
            old(self)@.wf(),
        ensures
            match old(self)@.step(ch) {
                Ok(m) => r is Ok && final(self)@ == m,
                Err(k) => r == Err::<(), ParseError>(ParseError { index, kind: k }),
            },
            final(self)@.wf(),
    {
        let res: Result<(), ErrorKind> = if '0' <= ch && ch <= '9' {
            let d: u8 = (ch as u32 - '0' as u32) as u8;
            self.fold_digit(d);
            Ok(())
        } else if ch == '.' {
            self.set_decimal()
        } else if let Some(op) = operator_from_char(ch) {
            self.apply_operation(op)
        } else if ch == ' ' || ch == '\t' || ch == '\0' || ch == '\n' {
            self.reset();
            Ok(())
        } else {
            Err(ErrorKind::UnknownCharacter(ch))
        };
        match res {
            Ok(()) => Ok(()),
            Err(kind) => Err(ParseError { index, kind }),
        }
    }

    /// Processes every character of `text` in order, then flushes once, so
    /// that a trailing number is committed. Stops at the first error, which
    /// carries the index of its character.
    pub fn parse(&mut self, text: &str) -> (r: Result<(), ParseError>)
        requires
            old(self)@.wf(),
        ensures
            match evaluate(old(self)@, text@) {
                Ok(m) => r is Ok && final(self)@ == m,
                Err(e) => r == Err::<(), ParseError>(e),
            },
            final(self)@.wf(),
    {
        let n: usize = text.unicode_len();
        let mut index: usize = 0;
        for ch in it: text.chars()
            invariant
                n == text@.len(),
                it.seq() == text@,
                index == it.index(),
                index <= n,
                self@.wf(),
                run(old(self)@, text@.take(index as int)) == Ok::<State, ParseError>(self@),
        {
            let ghost before = self@;
            proof {
                assert(text@.take(index + 1).drop_last() =~= text@.take(index as int));
            }
            match self.process_character(ch, index) {
                Ok(()) => {},
                Err(e) => {
                    proof {
                        lemma_run_error_stays(old(self)@, text@, index + 1);
                    }
                    return Err(e);
                },
            }
            index = index + 1;
        }
        assert(text@.take(index as int) =~= text@);
        self.reset();
        Ok(())
    }
}

} // verus!
