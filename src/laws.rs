//! General properties of the evaluator, stated over the spec model of
//! `executor` and proved from it.
use vstd::arithmetic::power::pow;
use vstd::prelude::*;

use crate::executor::{
    digit_of, evaluate, is_blank, is_digit, lemma_run_error_stays, run, ErrorKind, ParseError, State,
};
use crate::expr::{op_of, Term};
use crate::literal::{digits_value, LiteralView};

verus! {

/// Every character of `cs` is a decimal digit.
pub open spec fn all_digit_chars(cs: Seq<char>) -> bool {
    forall|i: int| 0 <= i < cs.len() ==> is_digit(#[trigger] cs[i])
}

/// The digit values of the characters `cs`.
pub open spec fn digits_of(cs: Seq<char>) -> Seq<u8> {
    cs.map_values(|c: char| digit_of(c))
}

/// The state after folding the digits `ds` into `s`, one by one.
pub open spec fn fold_all(s: State, ds: Seq<u8>) -> State
    decreases ds.len(),
{
    if ds.len() == 0 {
        s
    } else {
        fold_all(s, ds.drop_last()).fold(ds.last())
    }
}

/// Reading `a` and then `b` as one digit sequence gives `a` shifted left by
/// the length of `b`, plus `b`.
pub proof fn lemma_digits_value_concat(a: Seq<u8>, b: Seq<u8>)
    ensures
        digits_value(a + b) == digits_value(a) * pow(10, b.len()) + digits_value(b),
    decreases b.len(),
{
    if b.len() == 0 {
        assert(a + b =~= a);
        reveal(pow);
    } else {
        let b1 = b.drop_last();
        assert((a + b).drop_last() =~= a + b1);
        assert((a + b).last() == b.last());
        lemma_digits_value_concat(a, b1);
        let p = pow(10, b1.len());
        assert(pow(10, b.len()) == 10 * p) by {
            reveal(pow);
        }
        assert((digits_value(a) * p + digits_value(b1)) * 10 + b.last() as int
            == digits_value(a) * (10 * p) + (digits_value(b1) * 10 + b.last() as int))
            by (nonlinear_arith);
    }
}

/// Folding digits keeps the stack and the decimal mode, and extends the
/// number being typed by those digits.
proof fn lemma_fold_all(s: State, ds: Seq<u8>)
    ensures
        fold_all(s, ds).stack == s.stack,
        fold_all(s, ds).point == s.point,
        ds.len() > 0 ==> fold_all(s, ds).current is Some,
        s.current matches Some(l) ==> fold_all(s, ds).current == Some(
            LiteralView {
                digits: l.digits + ds,
                scale: if s.point { l.scale + ds.len() } else { l.scale },
            },
        ),
        s.current is None && ds.len() > 0 ==> fold_all(s, ds).current == Some(
            LiteralView {
                digits: ds,
                scale: if s.point { (ds.len() - 1) as nat } else { 0 },
            },
        ),
    decreases ds.len(),
{
    if ds.len() > 0 {
        let d1 = ds.drop_last();
        lemma_fold_all(s, d1);
        if let Some(l) = s.current {
            assert(l.digits + d1.push(ds.last()) =~= (l.digits + d1).push(ds.last()));
            assert(d1.push(ds.last()) =~= ds);
        } else if d1.len() > 0 {
            assert(d1.push(ds.last()) =~= ds);
        } else {
            assert(seq![ds.last()] =~= ds);
        }
    }
}

/// Running digit characters folds their values in.
proof fn lemma_run_digits(s: State, x: Seq<char>, y: Seq<char>)
    requires
        run(s, x) is Ok,
        all_digit_chars(y),
    ensures
        run(s, x + y) == Ok::<State, ParseError>(fold_all(run(s, x)->Ok_0, digits_of(y))),
    decreases y.len(),
{
    if y.len() == 0 {
        assert(x + y =~= x);
        assert(digits_of(y) =~= Seq::<u8>::empty());
    } else {
        let y1 = y.drop_last();
        assert((x + y).drop_last() =~= x + y1);
        assert((x + y).last() == y.last());
        assert(digits_of(y).drop_last() =~= digits_of(y1));
        assert(is_digit(y[y.len() - 1]));
        lemma_run_digits(s, x, y1);
    }
}

/// Accumulation of integer digits: a nonempty run of digits, evaluated from
/// the initial state, leaves exactly one operand, the literal of those
/// digits with no fractional part, whose value is the digits read in base
/// 10.
pub proof fn law_integer_accumulation(cs: Seq<char>)
    requires
        cs.len() > 0,
        all_digit_chars(cs),
    ensures
        evaluate(State::initial(), cs) == Ok::<State, ParseError>(
            State {
                stack: seq![Term::Number(LiteralView { digits: digits_of(cs), scale: 0 })],
                current: None,
                point: false,
            },
        ),
        (LiteralView { digits: digits_of(cs), scale: 0 }).numerator() == digits_value(digits_of(cs)),
{
    let e = Seq::<char>::empty();
    assert(e + cs =~= cs);
    lemma_run_digits(State::initial(), e, cs);
    lemma_fold_all(State::initial(), digits_of(cs));
    assert(seq![Term::Number(LiteralView { digits: digits_of(cs), scale: 0 })]
        =~= Seq::<Term>::empty().push(Term::Number(LiteralView { digits: digits_of(cs), scale: 0 })));
}

/// Decimal numbers: `<int>.<frac>`, with a nonempty integer part, evaluates
/// from the initial state to one literal whose value is
/// `int + frac / 10^len(frac)`: its scale is the length of the fractional
/// part and its numerator `int * 10^len(frac) + frac`.
pub proof fn law_decimal_accumulation(int_part: Seq<char>, frac_part: Seq<char>)
    requires
        int_part.len() > 0,
        all_digit_chars(int_part),
        all_digit_chars(frac_part),
    ensures
        ({
            let lit = LiteralView {
                digits: digits_of(int_part) + digits_of(frac_part),
                scale: frac_part.len(),
            };
            &&& evaluate(State::initial(), int_part + seq!['.'] + frac_part) == Ok::<
                State,
                ParseError,
            >(State { stack: seq![Term::Number(lit)], current: None, point: false })
            &&& lit.numerator() == digits_value(digits_of(int_part)) * pow(10, frac_part.len())
                + digits_value(digits_of(frac_part))
        }),
{
    let s0 = State::initial();
    let e = Seq::<char>::empty();
    let x = int_part + seq!['.'];
    assert(e + int_part =~= int_part);
    lemma_run_digits(s0, e, int_part);
    lemma_fold_all(s0, digits_of(int_part));
    let m = run(s0, int_part)->Ok_0;
    assert(x.drop_last() =~= int_part);
    assert(run(s0, x) == Ok::<State, ParseError>(State { point: true, ..m }));
    lemma_run_digits(s0, x, frac_part);
    lemma_fold_all(State { point: true, ..m }, digits_of(frac_part));
    assert(frac_part.len() == digits_of(frac_part).len());
    let lit = LiteralView {
        digits: digits_of(int_part) + digits_of(frac_part),
        scale: frac_part.len(),
    };
    assert(seq![Term::Number(lit)] =~= Seq::<Term>::empty().push(Term::Number(lit)));
    lemma_digits_value_concat(digits_of(int_part), digits_of(frac_part));
}

/// A second decimal point within one number, with only digits between the
/// two points, fails with `DuplicateDecimal` at the index of the second
/// point, whatever follows.
pub proof fn law_duplicate_decimal(s: State, x: Seq<char>, y: Seq<char>, z: Seq<char>)
    requires
        run(s, x) is Ok,
        !(run(s, x)->Ok_0).point,
        all_digit_chars(y),
        x.len() + y.len() + 1 <= usize::MAX,
    ensures
        evaluate(s, x + seq!['.'] + y + seq!['.'] + z) matches Err(e) && e.index == x.len()
            + y.len() + 1 && e.kind is DuplicateDecimal,
{
    let m = run(s, x)->Ok_0;
    let x1 = x + seq!['.'];
    assert(x1.drop_last() =~= x);
    assert(run(s, x1) == Ok::<State, ParseError>(State { point: true, ..m }));
    lemma_run_digits(s, x1, y);
    lemma_fold_all(State { point: true, ..m }, digits_of(y));
    let w = x1 + y + seq!['.'];
    assert(w.drop_last() =~= x1 + y);
    assert(run(s, w) matches Err(e) && e.index == w.len() - 1 && e.kind is DuplicateDecimal);
    let full = w + z;
    assert(full.take(w.len() as int) =~= w);
    lemma_run_error_stays(s, full, w.len() as int);
}

/// Flush before apply: an operator acts on the state as flushed, so a
/// number right before an operator is committed exactly as if whitespace
/// stood between them.
pub proof fn law_flush_before_apply(s: State, c: char)
    requires
        op_of(c) is Some,
    ensures
        s.step(' ') == Ok::<State, ErrorKind>(s.flush()),
        s.step(c) == s.flush().step(c),
{
    assert(s.flush().flush() == s.flush());
}

/// Flushing is idempotent: a whitespace character right after another one
/// changes nothing and cannot fail.
pub proof fn law_flush_idempotent(s: State, c1: char, c2: char)
    requires
        is_blank(c1),
        is_blank(c2),
    ensures
        s.flush().flush() == s.flush(),
        s.step(c1) == Ok::<State, ErrorKind>(s.flush()),
        s.flush().step(c2) == Ok::<State, ErrorKind>(s.flush()),
{
}

} // verus!
