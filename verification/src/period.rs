//! Periods of time, to the millisecond: the text that a flag of the command
//! line holds, and the text that the tool writes back.
//!
//! The text holds a whole number and one unit, with no space between them:
//! `ms` for milliseconds, `s` for seconds, `m` for minutes, and `h` for hours.
//! [`parse_duration`] reads that text and [`render_duration`] writes it, and
//! [`lemma_render_then_parse`] holds the two together.

use crate::text::{
    all_digits, decimal, decimal_text, digits_value, is_digit, lemma_decimal_reads_back,
    lemma_digits_value_grows, push_char,
};
use vstd::prelude::*;
use vstd::string::StringExecFns;

verus! {

/// A span of time: whole seconds, and the milliseconds past them.
#[derive(Clone, Copy, Debug, PartialEq, Eq, Structural)]
pub struct Period {
    /// The whole seconds.
    pub secs: u64,
    /// The milliseconds past the whole seconds, below one thousand.
    pub millis: u32,
}

impl Period {
    /// A period holds fewer than a thousand milliseconds past its seconds.
    pub open spec fn wf(self) -> bool {
        self.millis < 1000
    }

    /// The length of the period in milliseconds.
    pub open spec fn total_millis(self) -> int {
        self.secs * 1000 + self.millis
    }

    /// The period of a number of milliseconds.
    pub open spec fn of_millis(count: nat) -> Period {
        Period { secs: (count / 1000) as u64, millis: (count % 1000) as u32 }
    }

    /// The period of a number of whole seconds.
    pub fn from_secs(secs: u64) -> (p: Period)
        ensures
            p == (Period { secs, millis: 0 }),
            p.wf(),
    {
        Period { secs, millis: 0 }
    }

    /// The period of a number of milliseconds.
    pub fn from_millis(count: u64) -> (p: Period)
        ensures
            p == Period::of_millis(count as nat),
            p.wf(),
            p.total_millis() == count,
    {
        Period { secs: count / 1000, millis: (count % 1000) as u32 }
    }

    /// True when the period holds no time at all.
    pub fn is_zero(&self) -> (b: bool)
        ensures
            b == (self.secs == 0 && self.millis == 0),
    {
        self.secs == 0 && self.millis == 0
    }
}

/// The accepted units of a duration.
pub const DURATION_UNITS: &'static str = "the unit must be `ms`, `s`, `m`, or `h`";

/// Examples of a duration, for the end of an error message.
pub const DURATION_FORMS: &'static str = "as in `500ms`, `1s`, or `2m`";

/// The number of seconds in one minute.
pub const SECONDS_PER_MINUTE: u64 = 60;

/// The number of seconds in one hour.
pub const SECONDS_PER_HOUR: u64 = 3600;

/// A text between two backticks, as a message quotes what the user wrote.
pub open spec fn quoted(t: Seq<char>) -> Seq<char> {
    seq!['`'] + t + seq!['`']
}

/// The number of digits at the front of a text.
pub open spec fn digit_run(t: Seq<char>) -> nat
    decreases t.len(),
{
    if t.len() == 0 || !is_digit(t[0]) {
        0
    } else {
        1 + digit_run(t.drop_first())
    }
}

/// The digits at the front of a text end at the first character that is no
/// digit.
pub proof fn lemma_digit_run(t: Seq<char>, k: int)
    requires
        0 <= k <= t.len(),
        forall|j: int| 0 <= j < k ==> is_digit(#[trigger] t[j]),
        k == t.len() || !is_digit(t[k]),
    ensures
        digit_run(t) == k,
    decreases k,
{
    if k > 0 {
        let rest = t.drop_first();
        assert forall|j: int| 0 <= j < k - 1 implies is_digit(#[trigger] rest[j]) by {
            assert(rest[j] == t[j + 1]);
        }
        if k - 1 < rest.len() {
            assert(rest[k - 1] == t[k]);
        }
        lemma_digit_run(rest, k - 1);
    }
}

/// The message of an empty duration.
pub open spec fn empty_message() -> Seq<char> {
    "a duration is empty: write a whole number and a unit, "@ + DURATION_FORMS@
}

/// The message of a duration that carries a sign.
pub open spec fn negative_message(t: Seq<char>) -> Seq<char> {
    quoted(t) + " is negative: a duration is never negative, "@ + DURATION_FORMS@
}

/// The message of a duration that holds no number.
pub open spec fn no_number_message(t: Seq<char>) -> Seq<char> {
    quoted(t) + " has no number: write a whole number before the unit, "@ + DURATION_FORMS@
}

/// The message of a duration that holds no unit.
pub open spec fn no_unit_message(t: Seq<char>) -> Seq<char> {
    quoted(t) + " has no unit: "@ + DURATION_UNITS@ + ", "@ + DURATION_FORMS@
}

/// The message of a duration whose number no period holds.
pub open spec fn too_large_message(t: Seq<char>) -> Seq<char> {
    quoted(t) + " is too large: use a smaller number, "@ + DURATION_FORMS@
}

/// The message of a duration whose unit is unknown.
pub open spec fn unknown_unit_message(t: Seq<char>) -> Seq<char> {
    quoted(t) + " is not a duration: "@ + DURATION_UNITS@ + ", "@ + DURATION_FORMS@
}

/// The message of a duration of no time.
pub open spec fn zero_message(t: Seq<char>) -> Seq<char> {
    quoted(t) + " is zero: a duration is more than zero, "@ + DURATION_FORMS@
}

/// The period that a number of some unit names, before the check of zero.
pub open spec fn unit_period(t: Seq<char>, count: nat, unit: Seq<char>) -> Result<Period, Seq<char>> {
    if unit == seq!['m', 's'] {
        Ok(Period::of_millis(count))
    } else if unit == seq!['s'] {
        Ok(Period { secs: count as u64, millis: 0 })
    } else if unit == seq!['m'] {
        if count * 60 > u64::MAX {
            Err(too_large_message(t))
        } else {
            Ok(Period { secs: (count * 60) as u64, millis: 0 })
        }
    } else if unit == seq!['h'] {
        if count * 3600 > u64::MAX {
            Err(too_large_message(t))
        } else {
            Ok(Period { secs: (count * 3600) as u64, millis: 0 })
        }
    } else {
        Err(unknown_unit_message(t))
    }
}

/// What the text of a duration reads as: the period, or the message that
/// names the fault and the accepted forms.
pub open spec fn duration_of(t: Seq<char>) -> Result<Period, Seq<char>> {
    let k = digit_run(t);
    let number = t.subrange(0, k as int);
    let unit = t.subrange(k as int, t.len() as int);
    if t.len() == 0 {
        Err(empty_message())
    } else if t[0] == '-' {
        Err(negative_message(t))
    } else if k == 0 {
        Err(no_number_message(t))
    } else if k == t.len() {
        Err(no_unit_message(t))
    } else if digits_value(number) > u64::MAX {
        Err(too_large_message(t))
    } else {
        match unit_period(t, digits_value(number), unit) {
            Ok(p) => if p.secs == 0 && p.millis == 0 {
                Err(zero_message(t))
            } else {
                Ok(p)
            },
            Err(e) => Err(e),
        }
    }
}

/// The abstract value of a result whose fault is text.
pub open spec fn text_result<T>(r: Result<T, String>) -> Result<T, Seq<char>> {
    match r {
        Ok(v) => Ok(v),
        Err(e) => Err(e@),
    }
}

/// Builds a message that quotes the text of the user and then says the rest.
fn quoted_message(text: &str, rest: &str) -> (s: String)
    ensures
        s@ == quoted(text@) + rest@,
{
    let mut s = String::new();
    push_char(&mut s, '`');
    s.append(text);
    push_char(&mut s, '`');
    s.append(rest);
    s
}

/// Reads a duration from the text of a command line flag.
///
/// The text holds a whole number and one unit, with no space between them,
/// as in `500ms`, `1s`, `2m`, and `3h`. Each fault gives a message that names
/// the fault and the accepted forms, so the user reads one line and corrects
/// the flag.
pub fn parse_duration(text: &str) -> (r: Result<Period, String>)
    ensures
        text_result(r) == duration_of(text@),
        r matches Ok(p) ==> p.wf(),
{
    let t = Ghost(text@);
    let len = text.unicode_len();
    if len == 0 {
        let mut s = String::new();
        s.append("a duration is empty: write a whole number and a unit, ");
        s.append(DURATION_FORMS);
        return Err(s);
    }
    if text.get_char(0) == '-' {
        let mut s = quoted_message(text, " is negative: a duration is never negative, ");
        s.append(DURATION_FORMS);
        return Err(s);
    }
    let mut k: usize = 0;
    while k < len
        invariant
            len == t@.len(),
            t@ == text@,
            0 <= k <= len,
            forall|j: int| 0 <= j < k ==> is_digit(#[trigger] t@[j]),
        ensures
            k == len || !is_digit(t@[k as int]),
        decreases len - k,
    {
        let c = text.get_char(k);
        if !('0' <= c && c <= '9') {
            break;
        }
        k = k + 1;
    }
    proof {
        lemma_digit_run(t@, k as int);
    }
    if k == 0 {
        let mut s = quoted_message(text, " has no number: write a whole number before the unit, ");
        s.append(DURATION_FORMS);
        return Err(s);
    }
    if k == len {
        let mut s = quoted_message(text, " has no unit: ");
        s.append(DURATION_UNITS);
        s.append(", ");
        s.append(DURATION_FORMS);
        return Err(s);
    }
    let ghost number = t@.subrange(0, k as int);
    let ghost unit = t@.subrange(k as int, len as int);
    // The number, read from the left, stops at the first digit that would
    // carry it past the width of the count.
    let mut count: u64 = 0;
    let mut i: usize = 0;
    let mut fits = true;
    while i < k
        invariant
            len == t@.len(),
            t@ == text@,
            0 <= i <= k < len,
            number == t@.subrange(0, k as int),
            forall|j: int| 0 <= j < k ==> is_digit(#[trigger] t@[j]),
            fits ==> count == digits_value(t@.subrange(0, i as int)),
            !fits ==> digits_value(number) > u64::MAX,
        decreases k - i,
    {
        if fits {
            let c = text.get_char(i);
            let d = (c as u32 - 48) as u64;
            proof {
                assert(t@.subrange(0, i + 1).drop_last() =~= t@.subrange(0, i as int));
                assert(t@.subrange(0, i + 1).last() == c);
                assert(all_digits(number));
            }
            match count.checked_mul(10) {
                Some(tens) => match tens.checked_add(d) {
                    Some(next) => {
                        count = next;
                    },
                    None => {
                        proof {
                            lemma_digits_value_grows(number, i + 1, k as int);
                            assert(number.subrange(0, i + 1) =~= t@.subrange(0, i + 1));
                            assert(number.subrange(0, k as int) =~= number);
                        }
                        fits = false;
                    },
                },
                None => {
                    proof {
                        lemma_digits_value_grows(number, i + 1, k as int);
                        assert(number.subrange(0, i + 1) =~= t@.subrange(0, i + 1));
                        assert(number.subrange(0, k as int) =~= number);
                    }
                    fits = false;
                },
            }
        }
        i = i + 1;
    }
    if !fits {
        let mut s = quoted_message(text, " is too large: use a smaller number, ");
        s.append(DURATION_FORMS);
        return Err(s);
    }
    assert(t@.subrange(0, k as int) =~= number);
    let ulen = len - k;
    let u0 = text.get_char(k);
    let u1 = if ulen >= 2 {
        text.get_char(k + 1)
    } else {
        ' '
    };
    proof {
        assert(unit.len() == ulen);
        assert(unit[0] == u0);
        if ulen >= 2 {
            assert(unit[1] == u1);
        }
    }
    let period = if ulen == 2 && u0 == 'm' && u1 == 's' {
        assert(unit =~= seq!['m', 's']);
        Period::from_millis(count)
    } else if ulen == 1 && u0 == 's' {
        assert(unit =~= seq!['s']);
        Period::from_secs(count)
    } else if ulen == 1 && u0 == 'm' {
        assert(unit =~= seq!['m']);
        match count.checked_mul(SECONDS_PER_MINUTE) {
            Some(secs) => Period::from_secs(secs),
            None => {
                let mut s = quoted_message(text, " is too large: use a smaller number, ");
                s.append(DURATION_FORMS);
                return Err(s);
            },
        }
    } else if ulen == 1 && u0 == 'h' {
        assert(unit =~= seq!['h']);
        match count.checked_mul(SECONDS_PER_HOUR) {
            Some(secs) => Period::from_secs(secs),
            None => {
                let mut s = quoted_message(text, " is too large: use a smaller number, ");
                s.append(DURATION_FORMS);
                return Err(s);
            },
        }
    } else {
        proof {
            if unit == seq!['m', 's'] {
                assert(unit[1] == 's');
            }
        }
        let mut s = quoted_message(text, " is not a duration: ");
        s.append(DURATION_UNITS);
        s.append(", ");
        s.append(DURATION_FORMS);
        return Err(s);
    };
    if period.is_zero() {
        let mut s = quoted_message(text, " is zero: a duration is more than zero, ");
        s.append(DURATION_FORMS);
        return Err(s);
    }
    Ok(period)
}

/// The text that a period writes as: the largest unit that holds it whole.
pub open spec fn duration_text(p: Period) -> Seq<char> {
    if p.millis != 0 {
        decimal(p.total_millis() as nat) + seq!['m', 's']
    } else if p.secs == 0 {
        seq!['0', 'm', 's']
    } else if p.secs % 3600 == 0 {
        decimal((p.secs / 3600) as nat) + seq!['h']
    } else if p.secs % 60 == 0 {
        decimal((p.secs / 60) as nat) + seq!['m']
    } else {
        decimal(p.secs as nat) + seq!['s']
    }
}

/// Writes a period as the text that [`parse_duration`] reads: a whole number
/// and the largest unit that holds the period whole.
pub fn render_duration(p: Period) -> (s: String)
    requires
        p.wf(),
    ensures
        s@ == duration_text(p),
{
    if p.millis != 0 {
        let total = (p.secs as u128) * 1000 + (p.millis as u128);
        let mut s = decimal_text(total);
        push_char(&mut s, 'm');
        push_char(&mut s, 's');
        s
    } else if p.secs == 0 {
        let mut s = String::new();
        push_char(&mut s, '0');
        push_char(&mut s, 'm');
        push_char(&mut s, 's');
        s
    } else if p.secs % SECONDS_PER_HOUR == 0 {
        let mut s = decimal_text((p.secs / SECONDS_PER_HOUR) as u128);
        push_char(&mut s, 'h');
        s
    } else if p.secs % SECONDS_PER_MINUTE == 0 {
        let mut s = decimal_text((p.secs / SECONDS_PER_MINUTE) as u128);
        push_char(&mut s, 'm');
        s
    } else {
        let mut s = decimal_text(p.secs as u128);
        push_char(&mut s, 's');
        s
    }
}

/// The digits of a number, followed by a unit that starts with no digit,
/// split at the end of the digits.
proof fn lemma_split_rendered(n: nat, unit: Seq<char>)
    requires
        unit.len() >= 1,
        !is_digit(unit[0]),
    ensures
        digit_run(decimal(n) + unit) == decimal(n).len(),
        (decimal(n) + unit).subrange(0, decimal(n).len() as int) == decimal(n),
        (decimal(n) + unit).subrange(decimal(n).len() as int, (decimal(n) + unit).len() as int)
            == unit,
        (decimal(n) + unit)[0] != '-',
        digits_value(decimal(n)) == n,
{
    lemma_decimal_reads_back(n);
    let t = decimal(n) + unit;
    let k = decimal(n).len() as int;
    assert forall|j: int| 0 <= j < k implies is_digit(#[trigger] t[j]) by {
        assert(t[j] == decimal(n)[j]);
    }
    assert(t[k] == unit[0]);
    lemma_digit_run(t, k);
    assert(t.subrange(0, k) =~= decimal(n));
    assert(t.subrange(k, t.len() as int) =~= unit);
    assert(t[0] == decimal(n)[0]);
}

/// The milliseconds of a period split back into its seconds and the
/// milliseconds past them.
proof fn lemma_millis_split(secs: int, millis: int)
    requires
        0 <= secs,
        0 <= millis < 1000,
    ensures
        (secs * 1000 + millis) / 1000 == secs,
        (secs * 1000 + millis) % 1000 == millis,
{
    assert((secs * 1000 + millis) / 1000 == secs) by (nonlinear_arith)
        requires
            0 <= secs,
            0 <= millis < 1000,
    ;
    assert((secs * 1000 + millis) % 1000 == millis) by (nonlinear_arith)
        requires
            0 <= secs,
            0 <= millis < 1000,
    ;
}

/// The accepted forms end every message of a fault: whatever text a user
/// wrote, a message that refuses it says how a duration reads.
pub proof fn lemma_every_fault_names_the_forms(t: Seq<char>)
    ensures
        duration_of(t) matches Err(m) ==> m.len() >= DURATION_FORMS@.len() && m.subrange(
            m.len() - DURATION_FORMS@.len(),
            m.len() as int,
        ) == DURATION_FORMS@,
{
    let f = DURATION_FORMS@;
    if let Err(m) = duration_of(t) {
        let k = digit_run(t);
        let unit = t.subrange(k as int, t.len() as int);
        let candidates = seq![
            empty_message(),
            negative_message(t),
            no_number_message(t),
            no_unit_message(t),
            too_large_message(t),
            unknown_unit_message(t),
            zero_message(t),
        ];
        assert(candidates.contains(m)) by {
            if t.len() == 0 {
                assert(candidates[0] == m);
            } else if t[0] == '-' {
                assert(candidates[1] == m);
            } else if k == 0 {
                assert(candidates[2] == m);
            } else if k == t.len() {
                assert(candidates[3] == m);
            } else if digits_value(t.subrange(0, k as int)) > u64::MAX {
                assert(candidates[4] == m);
            } else {
                let count = digits_value(t.subrange(0, k as int));
                match unit_period(t, count, unit) {
                    Ok(p) => {
                        assert(candidates[6] == m);
                    },
                    Err(e) => {
                        if unit == seq!['m'] || unit == seq!['h'] {
                            assert(candidates[4] == m);
                        } else {
                            assert(candidates[5] == m);
                        }
                    },
                }
            }
        }
        assert forall|x: Seq<char>| #[trigger] candidates.contains(x) implies x.len() >= f.len()
            && x.subrange(x.len() - f.len(), x.len() as int) =~= f by {
            let i = choose|i: int| 0 <= i < candidates.len() && candidates[i] == x;
            if i == 0 {
                assert(x == ("a duration is empty: write a whole number and a unit, "@) + f);
            } else if i == 1 {
                assert(x == (quoted(t) + " is negative: a duration is never negative, "@) + f);
            } else if i == 2 {
                assert(x == (quoted(t) + " has no number: write a whole number before the unit, "@) + f);
            } else if i == 3 {
                assert(x == (quoted(t) + " has no unit: "@ + DURATION_UNITS@ + ", "@) + f);
            } else if i == 4 {
                assert(x == (quoted(t) + " is too large: use a smaller number, "@) + f);
            } else if i == 5 {
                assert(x == (quoted(t) + " is not a duration: "@ + DURATION_UNITS@ + ", "@) + f);
            } else {
                assert(x == (quoted(t) + " is zero: a duration is more than zero, "@) + f);
            }
        }
    }
}

/// Every period that holds some time reads back, through the text that it
/// writes, as itself.
///
/// The one period that writes a number too large to read back is a period of
/// more milliseconds than a count holds that does not fall on a whole second:
/// its text names those milliseconds, and the count of a duration stops at the
/// width of a `u64`.
pub proof fn lemma_render_then_parse(p: Period)
    requires
        p.wf(),
        !(p.secs == 0 && p.millis == 0),
        p.millis == 0 || p.total_millis() <= u64::MAX,
    ensures
        duration_of(duration_text(p)) == Ok::<Period, Seq<char>>(p),
{
    if p.millis != 0 {
        let n = p.total_millis() as nat;
        let t = decimal(n) + seq!['m', 's'];
        lemma_split_rendered(n, seq!['m', 's']);
        lemma_millis_split(p.secs as int, p.millis as int);
        assert(duration_text(p) == t);
        assert(unit_period(t, n, seq!['m', 's']) == Ok::<Period, Seq<char>>(p));
    } else if p.secs % 3600 == 0 {
        let n = (p.secs / 3600) as nat;
        let t = decimal(n) + seq!['h'];
        lemma_split_rendered(n, seq!['h']);
        assert(n * 3600 == p.secs);
        assert(duration_text(p) == t);
        assert(!(seq!['h'] =~= seq!['m', 's']));
        assert(seq!['h'][0] != seq!['s'][0]);
        assert(seq!['h'][0] != seq!['m'][0]);
        assert(unit_period(t, n, seq!['h']) == Ok::<Period, Seq<char>>(p));
    } else if p.secs % 60 == 0 {
        let n = (p.secs / 60) as nat;
        let t = decimal(n) + seq!['m'];
        lemma_split_rendered(n, seq!['m']);
        assert(n * 60 == p.secs);
        assert(duration_text(p) == t);
        assert(!(seq!['m'] =~= seq!['m', 's']));
        assert(seq!['m'][0] != seq!['s'][0]);
        assert(unit_period(t, n, seq!['m']) == Ok::<Period, Seq<char>>(p));
    } else {
        let n = p.secs as nat;
        let t = decimal(n) + seq!['s'];
        lemma_split_rendered(n, seq!['s']);
        assert(duration_text(p) == t);
        assert(!(seq!['s'] =~= seq!['m', 's']));
        assert(unit_period(t, n, seq!['s']) == Ok::<Period, Seq<char>>(p));
    }
}

/// The time that a number of probe rounds takes at one period each.
///
/// A count that runs past the width of a `u32`, and a product that no period
/// holds, both give none.
pub open spec fn probe_time_of(interval: Period, rounds: nat) -> Option<Period> {
    if rounds > u32::MAX {
        None
    } else if (interval.total_millis() * rounds) / 1000 > u64::MAX {
        None
    } else {
        Some(Period::of_millis((interval.total_millis() * rounds) as nat))
    }
}

/// The time that the probe rounds of one destination of a hunt take.
///
/// The tracer sends one probe round each interval, so the destination takes
/// the interval once for each probe round. A count of probe rounds above the
/// width of a `u32`, and a product that no period holds, give none, and the
/// caller reads that as a time that no timeout reaches.
pub fn probe_time(interval: Period, probes_per_round: u64) -> (r: Option<Period>)
    requires
        interval.wf(),
    ensures
        r == probe_time_of(interval, probes_per_round as nat),
        r matches Some(p) ==> p.wf(),
{
    if probes_per_round > u32::MAX as u64 {
        return None;
    }
    let total = (interval.secs as u128) * 1000 + (interval.millis as u128);
    assert(total <= 18446744073709551615u128 * 1000 + 999);
    assert(total * (probes_per_round as u128) <= (18446744073709551615u128 * 1000 + 999)
        * 4294967295u128) by (nonlinear_arith)
        requires
            total <= 18446744073709551615u128 * 1000 + 999,
            probes_per_round <= 4294967295u64,
    ;
    let product = total * (probes_per_round as u128);
    let secs = product / 1000;
    if secs > u64::MAX as u128 {
        return None;
    }
    Some(Period { secs: secs as u64, millis: (product % 1000) as u32 })
}

/// The period of one round in milliseconds, for the record that opens a run.
///
/// A period too large for the field takes the largest number the field
/// holds.
pub fn interval_millis(interval: Period) -> (ms: u64)
    requires
        interval.wf(),
    ensures
        ms == if interval.total_millis() > u64::MAX {
            u64::MAX as int
        } else {
            interval.total_millis()
        },
{
    let total = (interval.secs as u128) * 1000 + (interval.millis as u128);
    if total > u64::MAX as u128 {
        u64::MAX
    } else {
        total as u64
    }
}

} // verus!

verus! {

/// The duration of whole seconds and nanoseconds past them.
///
/// The call is `std::time::Duration::new`, which panics only when the
/// nanoseconds carry past the seconds; the contract keeps the nanoseconds
/// below one second, and the duration is opaque here, so nothing is said of
/// it.
#[verifier::external_body]
fn duration_of_parts(secs: u64, nanos: u32) -> std::time::Duration
    requires
        nanos < 1_000_000_000,
{
    std::time::Duration::new(secs, nanos)
}

impl Period {
    /// The period as a duration of the standard library.
    pub fn to_duration(&self) -> std::time::Duration
        requires
            self.wf(),
    {
        duration_of_parts(self.secs, self.millis * 1_000_000)
    }
}

} // verus!
