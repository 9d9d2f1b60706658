//! Whole numbers of the command line: the text that the standard library
//! reads as an unsigned number, and the counts that the flags of a hunt take.

use crate::text::{all_digits, decimal, decimal_text, digits_value, is_digit, lemma_digits_value_grows};
use vstd::prelude::*;
use crate::text::push_char;
use vstd::string::StringExecFns;

verus! {

/// The digits of an unsigned number: the text after one optional `+`.
pub open spec fn unsigned_digits(t: Seq<char>) -> Seq<char> {
    if t.len() > 0 && t[0] == '+' {
        t.drop_first()
    } else {
        t
    }
}

/// The number that the standard library reads from a text as an unsigned
/// integer of unbounded width: one optional `+`, then one digit or more, and
/// nothing else.
pub open spec fn unsigned_value(t: Seq<char>) -> Option<nat> {
    let d = unsigned_digits(t);
    if d.len() > 0 && all_digits(d) {
        Some(digits_value(d))
    } else {
        None
    }
}

/// Reads an unsigned number that stands at or below a bound.
///
/// A text that holds no such number, and a number above the bound, give none.
pub fn read_unsigned(text: &str, bound: u64) -> (r: Option<u64>)
    ensures
        match r {
            Some(v) => unsigned_value(text@) == Some(v as nat) && v <= bound,
            None => match unsigned_value(text@) {
                Some(v) => v > bound,
                None => true,
            },
        },
{
    let ghost t = text@;
    let len = text.unicode_len();
    let start: usize = if len > 0 && text.get_char(0) == '+' {
        1
    } else {
        0
    };
    let ghost d = unsigned_digits(t);
    proof {
        if start == 1 {
            assert(d =~= t.subrange(1, t.len() as int));
        } else {
            assert(d =~= t.subrange(0, t.len() as int));
        }
    }
    if start >= len {
        proof {
            assert(d.len() == 0);
        }
        return None;
    }
    let mut value: u64 = 0;
    let mut i: usize = start;
    while i < len
        invariant
            t == text@,
            len == t.len(),
            start <= i <= len,
            start == 0 || start == 1,
            d == t.subrange(start as int, len as int),
            d == unsigned_digits(t),
            value == digits_value(d.subrange(0, i - start)),
            value <= bound,
            forall|j: int| 0 <= j < i - start ==> is_digit(#[trigger] d[j]),
        decreases len - i,
    {
        let c = text.get_char(i);
        proof {
            assert(d[i - start] == c);
        }
        if !('0' <= c && c <= '9') {
            proof {
                assert(!all_digits(d));
            }
            return None;
        }
        let digit = (c as u32 - 48) as u64;
        proof {
            assert(d.subrange(0, i - start + 1).drop_last() =~= d.subrange(0, i - start));
            assert(d.subrange(0, i - start + 1).last() == c);
        }
        let next = match value.checked_mul(10) {
            Some(tens) => tens.checked_add(digit),
            None => None,
        };
        match next {
            Some(n) => {
                if n > bound {
                    proof {
                        lemma_rest_digits(t, d, start as int, i as int, len as int, bound as nat);
                    }
                    return None;
                }
                value = n;
            },
            None => {
                proof {
                    lemma_rest_digits(t, d, start as int, i as int, len as int, bound as nat);
                }
                return None;
            },
        }
        i = i + 1;
    }
    proof {
        assert(d.subrange(0, len - start) =~= d);
    }
    Some(value)
}

/// A number whose first digits already run past a bound stands past it,
/// whatever digits follow, or it is no number at all.
proof fn lemma_rest_digits(t: Seq<char>, d: Seq<char>, start: int, i: int, len: int, bound: nat)
    requires
        0 <= start <= i < len == t.len(),
        d == t.subrange(start, len),
        forall|j: int| 0 <= j <= i - start ==> is_digit(#[trigger] d[j]),
        digits_value(d.subrange(0, i - start + 1)) > bound,
        d == unsigned_digits(t),
    ensures
        match unsigned_value(t) {
            Some(v) => v > bound,
            None => true,
        },
{
    if all_digits(d) && d.len() > 0 {
        lemma_digits_value_grows(d, i - start + 1, d.len() as int);
        assert(d.subrange(0, d.len() as int) =~= d);
    }
}

/// A count that a message quotes: the text between two backticks.
pub open spec fn backticked(t: Seq<char>) -> Seq<char> {
    seq!['`'] + t + seq!['`']
}

/// The message of a count of the addresses of a mine that does not read.
pub open spec fn mine_count_message(t: Seq<char>) -> Seq<char> {
    backticked(t) + " is no count of addresses above zero"@
}

/// Reads a count of the addresses that one mine probes.
///
/// A mine of no address probes nothing, so the number stands above zero. A
/// text that does not read, a zero, and a number past the width of a `usize`
/// each give the message.
pub fn parse_mine_count(text: &str) -> (r: Result<usize, String>)
    ensures
        match unsigned_value(text@) {
            Some(v) => if 0 < v <= usize::MAX {
                r == Ok::<usize, String>(v as usize)
            } else {
                r matches Err(m) && m@ == mine_count_message(text@)
            },
            None => r matches Err(m) && m@ == mine_count_message(text@),
        },
{
    let bound: u64 = if usize::MAX as u64 <= u64::MAX {
        usize::MAX as u64
    } else {
        u64::MAX
    };
    match read_unsigned(text, bound) {
        Some(v) => {
            if v > 0 {
                return Ok(v as usize);
            }
        },
        None => {},
    }
    let mut s = String::new();
    push_char(&mut s, '`');
    s.append(text);
    push_char(&mut s, '`');
    s.append(" is no count of addresses above zero");
    Err(s)
}

/// The shortest block that a mine stays inside.
pub const MINE_PREFIX_FLOOR: u8 = 8;

/// The longest block that a mine stays inside.
pub const MINE_PREFIX_CEILING: u8 = 24;

/// The message of a length of a block that does not read.
pub open spec fn prefix_unread_message(t: Seq<char>) -> Seq<char> {
    backticked(t) + " is no length of a block"@
}

/// The message of a length of a block outside the lengths that a mine takes.
pub open spec fn prefix_outside_message(t: Seq<char>) -> Seq<char> {
    backticked(t)
        + " stands outside the block lengths that a mine draws in, which are 8 through 24: a shorter block is most of the address space, and a longer one holds no whole /24"@
}

/// Reads the length of the block that one mine stays inside.
///
/// The length stands from eight to twenty-four. A shorter block holds so much
/// of the address space that a draw inside it is a draw of the whole internet,
/// and a longer one holds no whole /24, which is the grain that a mine draws
/// at.
pub fn parse_mine_prefix(text: &str) -> (r: Result<u8, String>)
    ensures
        match unsigned_value(text@) {
            Some(v) => if v > 255 {
                r matches Err(m) && m@ == prefix_unread_message(text@)
            } else if 8 <= v <= 24 {
                r == Ok::<u8, String>(v as u8)
            } else {
                r matches Err(m) && m@ == prefix_outside_message(text@)
            },
            None => r matches Err(m) && m@ == prefix_unread_message(text@),
        },
{
    let prefix = match read_unsigned(text, 255) {
        Some(v) => v as u8,
        None => {
            let mut s = String::new();
            push_char(&mut s, '`');
            s.append(text);
            push_char(&mut s, '`');
            s.append(" is no length of a block");
            return Err(s);
        },
    };
    if prefix < MINE_PREFIX_FLOOR || prefix > MINE_PREFIX_CEILING {
        let mut s = String::new();
        push_char(&mut s, '`');
        s.append(text);
        push_char(&mut s, '`');
        s.append(
            " stands outside the block lengths that a mine draws in, which are 8 through 24: a shorter block is most of the address space, and a longer one holds no whole /24",
        );
        return Err(s);
    }
    Ok(prefix)
}

/// The message of a number of destinations at once that does not read.
pub open spec fn concurrency_unread_message(t: Seq<char>, ceiling: nat) -> Seq<char> {
    backticked(t) + " is not a number of destinations from 1 to "@ + decimal(ceiling)
}

/// The message of a number of destinations at once above the lanes of the
/// process.
pub open spec fn concurrency_above_message(t: Seq<char>, ceiling: nat) -> Seq<char> {
    backticked(t) + " is above the "@ + decimal(ceiling)
        + " destinations that one hunt traces at one moment: two destinations of one lane read each other's answers"@
}

/// Reads the number of destinations that a hunt traces at one moment.
///
/// The number stands from one to `ceiling`, the lanes that one process holds.
/// A pool above that ceiling would put two destinations of one moment in one
/// lane, and two tracers of one lane read each other's answers.
pub fn parse_concurrency(text: &str, ceiling: usize) -> (r: Result<usize, String>)
    ensures
        match unsigned_value(text@) {
            Some(v) => if v == 0 || v > usize::MAX {
                r matches Err(m) && m@ == concurrency_unread_message(text@, ceiling as nat)
            } else if v > ceiling {
                r matches Err(m) && m@ == concurrency_above_message(text@, ceiling as nat)
            } else {
                r == Ok::<usize, String>(v as usize)
            },
            None => r matches Err(m) && m@ == concurrency_unread_message(text@, ceiling as nat),
        },
{
    let bound: u64 = if usize::MAX as u64 <= u64::MAX {
        usize::MAX as u64
    } else {
        u64::MAX
    };
    let count = match read_unsigned(text, bound) {
        Some(v) => {
            if v == 0 {
                None
            } else {
                Some(v as usize)
            }
        },
        None => None,
    };
    match count {
        Some(c) => {
            if c > ceiling {
                let mut s = String::new();
                push_char(&mut s, '`');
                s.append(text);
                push_char(&mut s, '`');
                s.append(" is above the ");
                let n = decimal_text(ceiling as u128);
                s.append(n.as_str());
                s.append(
                    " destinations that one hunt traces at one moment: two destinations of one lane read each other's answers",
                );
                Err(s)
            } else {
                Ok(c)
            }
        },
        None => {
            let mut s = String::new();
            push_char(&mut s, '`');
            s.append(text);
            push_char(&mut s, '`');
            s.append(" is not a number of destinations from 1 to ");
            let n = decimal_text(ceiling as u128);
            s.append(n.as_str());
            Err(s)
        },
    }
}

} // verus!
