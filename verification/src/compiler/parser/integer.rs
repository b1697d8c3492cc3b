//! Natural numbers of any size, as numeric literals denote them.

use vstd::prelude::*;
use crate::compiler::lexer::characters::{char_class, digit, digit_value, CharClass};
use crate::compiler::lexer::grammar::is_run;

verus! {

/// Whether a text is a numeral: one decimal digit or more, and nothing else.
pub open spec fn is_numeral(text: Seq<char>) -> bool {
    is_run(text, CharClass::Digit)
}

/// The number that a run of decimal digits denotes; 0 for the empty run.
pub open spec fn numeral_value(text: Seq<char>) -> nat
    decreases text.len(),
{
    if text.len() == 0 {
        0
    } else {
        numeral_value(text.drop_last()) * 10 + digit_value(text.last())
    }
}

/// The number that decimal digits given by their values denote, the most
/// significant first; 0 for no digits.
pub open spec fn digits_value(digits: Seq<u8>) -> nat
    decreases digits.len(),
{
    if digits.len() == 0 {
        0
    } else {
        digits_value(digits.drop_last()) * 10 + digits.last() as nat
    }
}

/// The number that `digits` denote behind the digits of `front`: `front`
/// itself where there are none.
spec fn continued_value(front: nat, digits: Seq<u8>) -> nat
    decreases digits.len(),
{
    if digits.len() == 0 {
        front
    } else {
        continued_value(front, digits.drop_last()) * 10 + digits.last() as nat
    }
}

/// Whether digits are the shortest way to write their number: each below
/// ten, at least one, and no zero in front of another digit.
pub open spec fn is_canonical(digits: Seq<u8>) -> bool {
    &&& digits.len() > 0
    &&& forall|i: int| 0 <= i < digits.len() ==> #[trigger] digits[i] < 10
    &&& digits.len() > 1 ==> digits[0] != 0
}

/// One digit alone denotes its own value.
proof fn lemma_single_digit(digits: Seq<u8>)
    requires
        digits.len() == 1,
    ensures
        digits_value(digits) == digits[0],
{
    assert(digits_value(digits.drop_last()) == 0);
}

/// The number of the first digits is at most the number of all of them.
proof fn lemma_prefix_value(digits: Seq<u8>, k: int)
    requires
        0 <= k <= digits.len(),
    ensures
        digits_value(digits.take(k)) <= digits_value(digits),
    decreases digits.len() - k,
{
    if k == digits.len() {
        assert(digits.take(k) == digits);
    } else {
        lemma_prefix_value(digits, k + 1);
        assert(digits.take(k + 1).drop_last() == digits.take(k));
    }
}

/// Digits with a digit other than zero in front, whatever the others are,
/// denote a number above zero.
proof fn lemma_leading_digit_counts(digits: Seq<u8>)
    requires
        digits.len() > 0,
        digits[0] != 0,
    ensures
        digits_value(digits) > 0,
    decreases digits.len(),
{
    if digits.len() > 1 {
        lemma_leading_digit_counts(digits.drop_last());
    } else {
        lemma_single_digit(digits);
    }
}

/// Digits below ten with none or a digit other than zero in front are the
/// only such digits of their number.
proof fn lemma_digits_are_unique(left: Seq<u8>, right: Seq<u8>)
    requires
        forall|i: int| 0 <= i < left.len() ==> #[trigger] left[i] < 10,
        forall|i: int| 0 <= i < right.len() ==> #[trigger] right[i] < 10,
        left.len() == 0 || left[0] != 0,
        right.len() == 0 || right[0] != 0,
        digits_value(left) == digits_value(right),
    ensures
        left == right,
    decreases left.len(),
{
    if left.len() == 0 {
        if right.len() > 0 {
            lemma_leading_digit_counts(right);
        }
    } else if right.len() == 0 {
        lemma_leading_digit_counts(left);
    } else {
        let shorter_left = left.drop_last();
        let shorter_right = right.drop_last();
        assert(digits_value(left) == digits_value(shorter_left) * 10 + left.last());
        assert(digits_value(right) == digits_value(shorter_right) * 10 + right.last());
        assert(left.last() == right.last());
        assert(digits_value(shorter_left) == digits_value(shorter_right));
        lemma_digits_are_unique(shorter_left, shorter_right);
        assert(left == shorter_left.push(left.last()));
        assert(right == shorter_right.push(right.last()));
    }
}

/// The shortest form of a number is the only one.
proof fn lemma_shortest_form_is_unique(left: Seq<u8>, right: Seq<u8>)
    requires
        is_canonical(left),
        is_canonical(right),
        digits_value(left) == digits_value(right),
    ensures
        left == right,
{
    if left[0] == 0 {
        lemma_single_digit(left);
        if right[0] != 0 {
            lemma_leading_digit_counts(right);
        } else {
            lemma_single_digit(right);
        }
    } else if right[0] == 0 {
        lemma_single_digit(right);
        lemma_leading_digit_counts(left);
    } else {
        lemma_digits_are_unique(left, right);
    }
}

/// Behind nothing, digits denote their own number.
proof fn lemma_continued_from_zero(digits: Seq<u8>)
    ensures
        continued_value(0, digits) == digits_value(digits),
    decreases digits.len(),
{
    if digits.len() > 0 {
        lemma_continued_from_zero(digits.drop_last());
    }
}

/// The last digit of the front can as well be the first of the digits.
proof fn lemma_continued_digit(front: nat, digit: u8, digits: Seq<u8>)
    ensures
        continued_value(front, seq![digit] + digits) == continued_value(
            front * 10 + digit as nat,
            digits,
        ),
    decreases digits.len(),
{
    let joined = seq![digit] + digits;
    if digits.len() == 0 {
        assert(joined.drop_last() == Seq::<u8>::empty());
        assert(joined.last() == digit);
        assert(continued_value(front, joined.drop_last()) == front);
    } else {
        lemma_continued_digit(front, digit, digits.drop_last());
        assert(joined.drop_last() == seq![digit] + digits.drop_last());
        assert(joined.last() == digits.last());
    }
}

/// A natural number of any size.
#[derive(Debug, PartialEq, Eq)]
pub struct Integer {
    digits: Vec<u8>,
}

impl Clone for Integer {
    fn clone(&self) -> (copy: Self)
        ensures
            copy@ == self@,
            copy.digits() == self.digits(),
    {
        proof {
            use_type_invariant(self);
        }
        Integer { digits: self.digits.clone() }
    }
}

impl View for Integer {
    type V = nat;

    /// The number itself.
    closed spec fn view(&self) -> nat {
        digits_value(self.digits@)
    }
}

impl Integer {
    /// The digits are held in their shortest form, so that equal numbers are
    /// held alike.
    #[verifier::type_invariant]
    pub closed spec fn well_formed(&self) -> bool {
        is_canonical(self.digits@)
    }

    /// The decimal digits, the most significant first.
    pub closed spec fn digits(&self) -> Seq<u8> {
        self.digits@
    }

    /// Equal numbers are held alike: two numbers of the same value have the
    /// same digits.
    pub proof fn lemma_equal_numbers_have_equal_digits(&self, other: &Integer)
        requires
            self.well_formed(),
            other.well_formed(),
            self@ == other@,
        ensures
            self.digits() == other.digits(),
    {
        lemma_shortest_form_is_unique(self.digits@, other.digits@);
    }

    /// Reads a numeral. Gives its number where `text` is one, whatever its
    /// length and however many zeros lead it, and nothing where it is not.
    pub fn parse(text: &str) -> (result: Option<Integer>)
        ensures
            result is Some <==> is_numeral(text@),
            result matches Some(number) ==> number@ == numeral_value(text@),
    {
        let mut digits: Vec<u8> = Vec::new();
        for c in it: text.chars()
            invariant
                it.seq() == text@,
                forall|i: int| 0 <= i < it.index() ==> char_class(#[trigger] text@[i]) == CharClass::Digit,
                digits_value(digits@) == numeral_value(text@.take(it.index())),
                it.index() == 0 <==> digits@.len() == 0,
                digits@.len() > 0 ==> is_canonical(digits@),
        {
            let ghost k = it.index();
            let ghost before = digits@;
            proof {
                assert(text@.take(k + 1).drop_last() == text@.take(k));
                assert(text@.take(k + 1).last() == c);
            }
            match digit(c) {
                None => {
                    return None;
                },
                Some(d) => {
                    if digits.len() == 1 && digits[0] == 0 {
                        digits.set(0, d);
                        proof {
                            lemma_single_digit(before);
                            lemma_single_digit(digits@);
                        }
                    } else {
                        digits.push(d);
                        assert(digits@.drop_last() == before);
                        assert(digits_value(digits@) == digits_value(before) * 10 + d);
                    }
                },
            }
        }
        if digits.len() == 0 {
            None
        } else {
            proof {
                assert(text@.take(text@.len() as int) == text@);
            }
            Some(Integer { digits })
        }
    }

    /// The number of a `u64`.
    pub fn from_u64(value: u64) -> (number: Integer)
        ensures
            number@ == value,
    {
        let mut digits: Vec<u8> = Vec::new();
        let mut front = value;
        digits.push((front % 10) as u8);
        front = front / 10;
        proof {
            lemma_continued_digit(front as nat, (value % 10) as u8, Seq::empty());
            assert(seq![(value % 10) as u8] + Seq::<u8>::empty() == digits@);
        }
        while front > 0
            invariant
                continued_value(front as nat, digits@) == value,
                digits@.len() > 0,
                forall|i: int| 0 <= i < digits@.len() ==> #[trigger] digits@[i] < 10,
                front == 0 && digits@.len() > 1 ==> digits@[0] != 0,
            decreases front,
        {
            let ghost behind = digits@;
            let digit = (front % 10) as u8;
            digits.insert(0, digit);
            front = front / 10;
            proof {
                assert(digits@ == seq![digit] + behind);
                lemma_continued_digit(front as nat, digit, behind);
            }
        }
        proof {
            lemma_continued_from_zero(digits@);
        }
        Integer { digits }
    }

    /// The number as a `u64`, where it is small enough for one.
    pub fn to_u64(&self) -> (result: Option<u64>)
        ensures
            match result {
                Some(value) => value == self@,
                None => self@ > u64::MAX,
            },
    {
        proof {
            use_type_invariant(self);
        }
        let mut value: u64 = 0;
        let mut i: usize = 0;
        while i < self.digits.len()
            invariant
                0 <= i <= self.digits@.len(),
                is_canonical(self.digits@),
                value == digits_value(self.digits@.take(i as int)),
            decreases self.digits@.len() - i,
        {
            proof {
                lemma_prefix_value(self.digits@, i + 1);
                assert(self.digits@.take(i + 1).drop_last() == self.digits@.take(i as int));
            }
            match value.checked_mul(10) {
                None => {
                    return None;
                },
                Some(tens) => {
                    match tens.checked_add(self.digits[i] as u64) {
                        None => {
                            return None;
                        },
                        Some(sum) => {
                            value = sum;
                        },
                    }
                },
            }
            i = i + 1;
        }
        proof {
            assert(self.digits@.take(i as int) == self.digits@);
        }
        Some(value)
    }
}

} // verus!
