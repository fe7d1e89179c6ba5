//! Reading a decimal integer from text.

use vstd::prelude::*;
use vstd::std_specs::iter::IteratorSpec;

verus! {

broadcast use vstd::string::group_string_axioms;

/// One of the ten ASCII digits.
pub open spec fn is_digit(c: char) -> bool {
    '0' as int <= c as int <= '9' as int
}

/// The number that a digit stands for.
pub open spec fn digit_value(c: char) -> int {
    c as int - '0' as int
}

/// Every character of `s` is a digit.
pub open spec fn all_digits(s: Seq<char>) -> bool {
    forall|i: int| 0 <= i < s.len() ==> is_digit(#[trigger] s[i])
}

/// The number written by a run of digits, most significant first. The empty
/// run is worth nothing.
pub open spec fn digits_value(s: Seq<char>) -> int
    decreases s.len(),
{
    if s.len() == 0 {
        0
    } else {
        10 * digits_value(s.drop_last()) + digit_value(s.last())
    }
}

/// The text begins with a sign.
pub open spec fn has_sign(s: Seq<char>) -> bool {
    s.len() > 0 && (s[0] == '-' || s[0] == '+')
}

/// What is left of the text after its sign, if it has one.
pub open spec fn unsigned_part(s: Seq<char>) -> Seq<char> {
    if has_sign(s) {
        s.subrange(1, s.len() as int)
    } else {
        s
    }
}

/// The number that the text writes, sign applied, whether or not it fits a
/// machine integer.
pub open spec fn signed_value(s: Seq<char>) -> int {
    if s.len() > 0 && s[0] == '-' {
        -digits_value(unsigned_part(s))
    } else {
        digits_value(unsigned_part(s))
    }
}

/// The text is an optional `+` or `-` and then at least one digit, nothing
/// else.
pub open spec fn is_decimal(s: Seq<char>) -> bool {
    unsigned_part(s).len() > 0 && all_digits(unsigned_part(s))
}

/// The 32-bit reading of a text: its value where the text is a decimal
/// number that fits, nothing otherwise.
pub open spec fn decimal_i32(s: Seq<char>) -> Option<i32> {
    if is_decimal(s) && i32::MIN <= signed_value(s) <= i32::MAX {
        Some(signed_value(s) as i32)
    } else {
        None
    }
}

/// Appending a digit multiplies what was written by ten and adds the digit.
pub proof fn lemma_digits_value_push(s: Seq<char>, c: char)
    ensures
        digits_value(s.push(c)) == 10 * digits_value(s) + digit_value(c),
{
    assert(s.push(c).drop_last() =~= s);
}

/// A run of digits is worth at least nothing.
pub proof fn lemma_digits_value_nonnegative(s: Seq<char>)
    requires
        all_digits(s),
    ensures
        digits_value(s) >= 0,
    decreases s.len(),
{
    if s.len() > 0 {
        lemma_digits_value_nonnegative(s.drop_last());
    }
}

/// Reads `s` as a 32-bit decimal integer: an optional sign, then digits only.
/// Spaces, an empty text, a lone sign and a value out of range give `None`.
pub fn parse_i32(s: &str) -> (r: Option<i32>)
    ensures
        r == decimal_i32(s@),
{
    let mut it = s.chars();
    let mut negative = false;
    let mut any = false;
    let mut over = false;
    let mut acc: i64 = 0;
    let ghost mut start: int = 0;
    let ghost mut done: int = 0;
    match it.next() {
        None => {
            return None;
        },
        Some(c) => {
            if c == '-' {
                negative = true;
                proof {
                    start = 1;
                }
            } else if c == '+' {
                proof {
                    start = 1;
                }
            } else if c >= '0' && c <= '9' {
                any = true;
                acc = (c as u32 - '0' as u32) as i64;
                proof {
                    lemma_digits_value_push(Seq::<char>::empty(), c);
                    assert(s@.subrange(0, 1) =~= Seq::<char>::empty().push(c));
                }
            } else {
                assert(!is_digit(unsigned_part(s@)[0]));
                return None;
            }
            proof {
                done = 1;
            }
        },
    }
    loop
        invariant
            0 <= start <= done <= s@.len(),
            start == if has_sign(s@) { 1int } else { 0int },
            negative <==> s@[0] == '-',
            s@.len() > 0,
            it.remaining() == s@.subrange(done, s@.len() as int),
            any <==> done > start,
            all_digits(s@.subrange(start, done)),
            !over ==> 0 <= acc <= 0x8000_0000 && acc == digits_value(s@.subrange(start, done)),
            over ==> digits_value(s@.subrange(start, done)) > 0x8000_0000,
        ensures
            done == s@.len(),
        decreases s@.len() - done,
    {
        match it.next() {
            None => {
                break ;
            },
            Some(c) => {
                if !(c >= '0' && c <= '9') {
                    assert(unsigned_part(s@)[done - start] == c);
                    return None;
                }
                let d: i64 = (c as u32 - '0' as u32) as i64;
                proof {
                    let before = s@.subrange(start, done);
                    lemma_digits_value_push(before, c);
                    lemma_digits_value_nonnegative(before);
                    assert(s@.subrange(start, done + 1) =~= before.push(c));
                    assert(s@.subrange(done, s@.len() as int).drop_first() =~= s@.subrange(
                        done + 1,
                        s@.len() as int,
                    ));
                }
                if !over {
                    acc = acc * 10 + d;
                    if acc > 0x8000_0000 {
                        over = true;
                    }
                }
                any = true;
                proof {
                    done = done + 1;
                }
            },
        }
    }
    proof {
        assert(unsigned_part(s@) =~= s@.subrange(start, done));
    }
    if !any || over {
        return None;
    }
    let value: i64 = if negative { -acc } else { acc };
    if value < -0x8000_0000 || value > 0x7fff_ffff {
        None
    } else {
        Some(value as i32)
    }
}

} // verus!
