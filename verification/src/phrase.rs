//! The words a duration is told in: numerals, unit words with their commas,
//! whether the event is over or to come, and the count of days in brackets.

use crate::duration::{DurationResult, Span};
use vstd::prelude::*;
use vstd::string::StringExecFns;

verus! {

/// The character of a decimal digit.
pub open spec fn digit_char(d: int) -> char {
    if d == 0 {
        '0'
    } else if d == 1 {
        '1'
    } else if d == 2 {
        '2'
    } else if d == 3 {
        '3'
    } else if d == 4 {
        '4'
    } else if d == 5 {
        '5'
    } else if d == 6 {
        '6'
    } else if d == 7 {
        '7'
    } else if d == 8 {
        '8'
    } else {
        '9'
    }
}

/// A number in decimal digits, without leading zeros.
pub open spec fn decimal_text(n: nat) -> Seq<char>
    decreases n,
{
    if n < 10 {
        seq![digit_char(n as int)]
    } else {
        decimal_text(n / 10).push(digit_char((n % 10) as int))
    }
}

/// The numeral of a count in a phrase: nothing for none, else the digits.
pub open spec fn numeral_text(count: nat) -> Seq<char> {
    if count == 0 {
        Seq::empty()
    } else {
        decimal_text(count)
    }
}

/// The unit word of a count: nothing for none, the singular for one, the
/// plural for more, and behind the word a comma where a lower unit follows.
pub open spec fn unit_text(count: nat, singular: Seq<char>, comma: bool) -> Seq<char> {
    if count == 0 {
        Seq::empty()
    } else {
        singular + (if count == 1 {
            Seq::empty()
        } else {
            "s"@
        }) + (if comma {
            ","@
        } else {
            Seq::empty()
        })
    }
}

/// Whether the word for the years carries a comma: there are years, and
/// months or days follow.
pub open spec fn years_comma(span: Span) -> bool {
    span.years != 0 && (span.months != 0 || span.days != 0)
}

/// Whether the word for the months carries a comma: there are months, and
/// days follow.
pub open spec fn months_comma(span: Span) -> bool {
    span.months != 0 && span.days != 0
}

/// What is said after the duration: `ago` of an event in the past, `to go`
/// of one to come, nothing of one today.
pub open spec fn suffix_text(total_days: int) -> Seq<char> {
    if total_days > 0 {
        "ago"@
    } else if total_days < 0 {
        "to go"@
    } else {
        Seq::empty()
    }
}

/// The count of days in brackets, with words of their own for today,
/// yesterday and tomorrow.
pub open spec fn days_label_text(total_days: int) -> Seq<char> {
    if total_days == 0 {
        "(today)"@
    } else if total_days == 1 {
        "(yesterday)"@
    } else if total_days == -1 {
        "(tomorrow)"@
    } else {
        "("@ + decimal_text(vstd::math::abs(total_days)) + " days)"@
    }
}

/// Whether the event lies within a month of a whole number of years: the
/// months of the duration are 0 or 11.
pub open spec fn near_anniversary(span: Span) -> bool {
    span.months == 0 || span.months == 11
}

/// The text of one decimal digit.
fn digit_str(d: u64) -> (digit: &'static str)
    requires
        d < 10,
    ensures
        digit@ == seq![digit_char(d as int)],
{
    proof {
        reveal_strlit("0");
        reveal_strlit("1");
        reveal_strlit("2");
        reveal_strlit("3");
        reveal_strlit("4");
        reveal_strlit("5");
        reveal_strlit("6");
        reveal_strlit("7");
        reveal_strlit("8");
        reveal_strlit("9");
    }
    let digit = if d == 0 {
        "0"
    } else if d == 1 {
        "1"
    } else if d == 2 {
        "2"
    } else if d == 3 {
        "3"
    } else if d == 4 {
        "4"
    } else if d == 5 {
        "5"
    } else if d == 6 {
        "6"
    } else if d == 7 {
        "7"
    } else if d == 8 {
        "8"
    } else {
        "9"
    };
    assert(digit@ =~= seq![digit_char(d as int)]);
    digit
}

/// A number in decimal digits.
pub fn decimal(n: u64) -> (text: String)
    ensures
        text@ == decimal_text(n as nat),
    decreases n,
{
    if n < 10 {
        String::from_str(digit_str(n))
    } else {
        let mut text = decimal(n / 10);
        text.append(digit_str(n % 10));
        assert(text@ =~= decimal_text(n as nat));
        text
    }
}

/// The numeral of a count in a phrase: empty for 0.
pub fn numeral(count: u32) -> (text: String)
    ensures
        text@ == numeral_text(count as nat),
{
    if count == 0 {
        String::new()
    } else {
        decimal(count as u64)
    }
}

/// The unit word of a count: empty for 0, `singular` for 1, the plural for
/// more, with a comma behind it where `comma` is set and the count is not 0.
pub fn unit_word(count: u32, singular: &str, comma: bool) -> (text: String)
    ensures
        text@ == unit_text(count as nat, singular@, comma),
{
    let mut text = String::new();
    if count != 0 {
        text.append(singular);
        if count != 1 {
            text.append("s");
        }
        if comma {
            text.append(",");
        }
    }
    assert(text@ =~= unit_text(count as nat, singular@, comma));
    text
}

/// `ago`, `to go` or nothing, by the sign of the count of days.
pub fn suffix(total_days: i64) -> (text: String)
    ensures
        text@ == suffix_text(total_days as int),
{
    if total_days > 0 {
        String::from_str("ago")
    } else if total_days < 0 {
        String::from_str("to go")
    } else {
        String::new()
    }
}

/// The count of days in brackets: `(today)`, `(yesterday)`, `(tomorrow)`,
/// or the number of days without its sign.
pub fn days_label(total_days: i64) -> (text: String)
    ensures
        text@ == days_label_text(total_days as int),
{
    if total_days == 0 {
        String::from_str("(today)")
    } else if total_days == 1 {
        String::from_str("(yesterday)")
    } else if total_days == -1 {
        String::from_str("(tomorrow)")
    } else {
        let count: u64 = if total_days > 0 {
            total_days as u64
        } else {
            (-(total_days + 1)) as u64 + 1
        };
        let mut text = String::from_str("(");
        let digits = decimal(count);
        text.append(digits.as_str());
        text.append(" days)");
        text
    }
}

impl DurationResult {
    /// Whether the event lies within a month of a whole number of years, so
    /// that a caller may set it off.
    pub fn is_near_anniversary(&self) -> (near: bool)
        ensures
            near == near_anniversary(self@),
    {
        self.months == 0 || self.months == 11
    }
}

} // verus!
