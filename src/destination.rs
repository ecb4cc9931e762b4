//! Choosing the output destination from the command-line argument.
use vstd::prelude::*;

verus! {

/// Why the destination argument picks no destination.
#[derive(Debug, Clone, Copy, PartialEq, Eq, Structural)]
pub enum DestinationError {
    /// No argument was given.
    Missing,
    /// The argument is not a decimal number that fits in `usize`.
    NotANumber,
    /// The index names no destination; it is carried for the message.
    OutOfRange(usize),
}

/// Whether every character of `s` is a decimal digit.
pub open spec fn all_digits(s: Seq<char>) -> bool {
    forall|i: int| 0 <= i < s.len() ==> '0' <= #[trigger] s[i] && s[i] <= '9'
}

/// The number that the decimal digits `s` spell, most significant first.
pub open spec fn decimal_number(s: Seq<char>) -> int
    decreases s.len(),
{
    if s.len() == 0 {
        0
    } else {
        10 * decimal_number(s.drop_last()) + (s.last() as int - '0' as int)
    }
}

/// The index that `s` spells: an optional `+`, then one decimal digit or
/// more, with a value that fits in `usize`.
pub open spec fn index_of(s: Seq<char>) -> Option<usize> {
    let digits = if s.len() > 0 && s[0] == '+' { s.skip(1) } else { s };
    if digits.len() > 0 && all_digits(digits) && decimal_number(digits) <= usize::MAX {
        Some(decimal_number(digits) as usize)
    } else {
        None
    }
}

/// The destination that `arg` selects among `count` destinations.
pub open spec fn selection(arg: Option<Seq<char>>, count: usize) -> Result<usize, DestinationError> {
    match arg {
        None => Err(DestinationError::Missing),
        Some(s) => match index_of(s) {
            None => Err(DestinationError::NotANumber),
            Some(i) => if i < count {
                Ok(i)
            } else {
                Err(DestinationError::OutOfRange(i))
            },
        },
    }
}

proof fn lemma_number_nonneg(s: Seq<char>)
    requires
        all_digits(s),
    ensures
        decimal_number(s) >= 0,
    decreases s.len(),
{
    if s.len() > 0 {
        lemma_number_nonneg(s.drop_last());
    }
}

proof fn lemma_prefix_grows(s: Seq<char>, i: int)
    requires
        all_digits(s),
        0 <= i <= s.len(),
    ensures
        decimal_number(s.take(i)) <= decimal_number(s),
    decreases s.len() - i,
{
    if i < s.len() {
        lemma_prefix_grows(s, i + 1);
        lemma_number_nonneg(s.take(i));
        assert(s.take(i + 1).drop_last() =~= s.take(i));
        assert(s.take(i + 1).last() == s[i]);
    } else {
        assert(s.take(i) =~= s);
    }
}

/// Parses the decimal index that `arg` spells.
fn parse_index(arg: &[char]) -> (r: Option<usize>)
    ensures
        r == index_of(arg@),
{
    let start: usize = if arg.len() > 0 && arg[0] == '+' { 1 } else { 0 };
    let ghost digits = arg@.skip(start as int);
    assert(digits =~= (if arg@.len() > 0 && arg@[0] == '+' { arg@.skip(1) } else { arg@ }));
    if start >= arg.len() {
        return None;
    }
    let mut value: usize = 0;
    let mut i: usize = start;
    while i < arg.len()
        invariant
            start <= i <= arg@.len(),
            digits == arg@.skip(start as int),
            digits == (if arg@.len() > 0 && arg@[0] == '+' { arg@.skip(1) } else { arg@ }),
            all_digits(digits.take(i - start)),
            value == decimal_number(digits.take(i - start)),
        decreases arg@.len() - i,
    {
        let c = arg[i];
        proof {
            assert(digits.take(i - start + 1).drop_last() =~= digits.take(i - start));
            assert(digits.take(i - start + 1).last() == c);
        }
        assert(digits[i - start] == c);
        if c < '0' || c > '9' {
            assert(!all_digits(digits));
            return None;
        }
        let d: usize = (c as u32 - '0' as u32) as usize;
        let next = match value.checked_mul(10) {
            Some(v) => v.checked_add(d),
            None => None,
        };
        match next {
            Some(v) => {
                value = v;
            },
            None => {
                proof {
                    let k = i - start + 1;
                    assert(all_digits(digits.take(k)));
                    if all_digits(digits) {
                        lemma_prefix_grows(digits, k);
                    }
                }
                return None;
            },
        }
        i = i + 1;
    }
    assert(digits.take(i - start) =~= digits);
    Some(value)
}

/// Decides which of `count` destinations the command-line argument picks.
pub fn select_destination(arg: Option<&[char]>, count: usize) -> (r: Result<usize, DestinationError>)
    ensures
        r == selection(
            match arg {
                Some(s) => Some(s@),
                None => None,
            },
            count,
        ),
{
    match arg {
        None => Err(DestinationError::Missing),
        Some(s) => match parse_index(s) {
            None => Err(DestinationError::NotANumber),
            Some(i) => if i < count {
                Ok(i)
            } else {
                Err(DestinationError::OutOfRange(i))
            },
        },
    }
}

} // verus!
