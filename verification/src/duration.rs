//! The display-sleep utility's duration argument: `<digits><unit?>` where
//! the unit is seconds, minutes or hours.

use vstd::prelude::*;

use crate::parser::{lemma_skip_digits, scan_digits, skip_digits};
use crate::text::{
    chars_to_string, dec_rep, digits_val, is_digit_char, known_char, lemma_dec_rep, matches_ci,
    parse_usize_span, push_dec_usize, span_eq_str, span_matches_ci, str_to_chars, trimmed,
    trimmed_span,
};

verus! {

/// A duration unit.
#[derive(Debug, Clone, Copy, PartialEq, Eq, Structural)]
pub enum Unit {
    Seconds,
    Minutes,
    Hours,
}

impl Default for Unit {
    /// The default unit.
    fn default() -> (r: Self)
        ensures
            r == Unit::Seconds,
    {
        Unit::Seconds
    }
}

/// Errors of the duration argument.
#[derive(Debug, Clone, Copy, PartialEq, Eq, Structural)]
pub enum DurationErrorKind {
    /// The whole argument fails to match `digits` + optional unit.
    GrammarMismatch,
    /// The duration value does not fit in `usize`.
    ValueTooBig,
    /// A unit name is not recognized.
    UnitInvalid,
}

/// A duration parse error, naming the offending text.
#[derive(Debug)]
pub struct DurationError {
    pub kind: DurationErrorKind,
    pub text: String,
}

/// The message each duration error prints.
pub open spec fn duration_error_message(kind: DurationErrorKind, text: Seq<char>) -> Seq<char> {
    match kind {
        DurationErrorKind::GrammarMismatch => "Input `"@ + text
            + "` is not a valid duration argument"@,
        DurationErrorKind::ValueTooBig => "Duration value `"@ + text + "` is too big"@,
        DurationErrorKind::UnitInvalid => "Invalid duration unit: `"@ + text + "`"@,
    }
}

impl DurationError {
    /// Render the error message.
    pub fn message(&self) -> (s: String)
        ensures
            s@ == duration_error_message(self.kind, self.text@),
    {
        let mut s = String::new();
        match self.kind {
            DurationErrorKind::GrammarMismatch => {
                s.append("Input `");
                s.append(self.text.as_str());
                s.append("` is not a valid duration argument");
            },
            DurationErrorKind::ValueTooBig => {
                s.append("Duration value `");
                s.append(self.text.as_str());
                s.append("` is too big");
            },
            DurationErrorKind::UnitInvalid => {
                s.append("Invalid duration unit: `");
                s.append(self.text.as_str());
                s.append("`");
            },
        }
        s
    }
}

/// The spoken name of each unit.
pub open spec fn unit_name(u: Unit) -> Seq<char> {
    match u {
        Unit::Seconds => "second(s)"@,
        Unit::Minutes => "minute(s)"@,
        Unit::Hours => "hour(s)"@,
    }
}

/// Seconds in one unit.
pub open spec fn unit_factor(u: Unit) -> int {
    match u {
        Unit::Seconds => 1,
        Unit::Minutes => 60,
        Unit::Hours => 3600,
    }
}

/// The unit a name spells, ignoring ASCII case: `s`/`sec`, `m`/`min`, `h`.
pub open spec fn unit_of_name(t: Seq<char>) -> Option<Unit> {
    if matches_ci(t, "s"@) || matches_ci(t, "sec"@) {
        Some(Unit::Seconds)
    } else if matches_ci(t, "m"@) || matches_ci(t, "min"@) {
        Some(Unit::Minutes)
    } else if matches_ci(t, "h"@) {
        Some(Unit::Hours)
    } else {
        None
    }
}

/// The unit a duration suffix denotes, written exactly in lowercase as the
/// grammar demands.
pub open spec fn unit_of_suffix(t: Seq<char>) -> Option<Unit> {
    if t =~= "s"@ || t =~= "sec"@ {
        Some(Unit::Seconds)
    } else if t =~= "m"@ || t =~= "min"@ {
        Some(Unit::Minutes)
    } else if t =~= "h"@ {
        Some(Unit::Hours)
    } else {
        None
    }
}

impl Unit {
    /// The unit's spoken name.
    pub fn unit_str(&self) -> (s: &'static str)
        ensures
            s@ == unit_name(*self),
    {
        match self {
            Unit::Seconds => "second(s)",
            Unit::Minutes => "minute(s)",
            Unit::Hours => "hour(s)",
        }
    }

    /// Parse a unit name, ignoring ASCII case and surrounding whitespace.
    pub fn from_text(s: &str) -> (r: Result<Unit, DurationError>)
        ensures
            match unit_of_name(trimmed(s@)) {
                Some(u) => r == Ok::<Unit, DurationError>(u),
                None => r matches Err(e) && e.kind == DurationErrorKind::UnitInvalid && e.text@
                    == s@,
            },
    {
        let chars = str_to_chars(s);
        let (a, b) = trimmed_span(&chars);
        if span_matches_ci(&chars, a, b, "s") || span_matches_ci(&chars, a, b, "sec") {
            Ok(Unit::Seconds)
        } else if span_matches_ci(&chars, a, b, "m") || span_matches_ci(&chars, a, b, "min") {
            Ok(Unit::Minutes)
        } else if span_matches_ci(&chars, a, b, "h") {
            Ok(Unit::Hours)
        } else {
            Err(DurationError { kind: DurationErrorKind::UnitInvalid, text: s.to_owned() })
        }
    }
}

/// A parsed sleep duration.
#[derive(Debug, Clone, Copy)]
pub struct Duration {
    pub value: usize,
    pub unit: Option<Unit>,
}

impl PartialEq for Duration {
    fn eq(&self, other: &Duration) -> (r: bool) {
        self.value == other.value && match (self.unit, other.unit) {
            (Option::None, Option::None) => true,
            (Option::Some(a), Option::Some(b)) => a == b,
            _ => false,
        }
    }
}

impl vstd::std_specs::cmp::PartialEqSpecImpl for Duration {
    open spec fn obeys_eq_spec() -> bool {
        true
    }

    open spec fn eq_spec(&self, other: &Duration) -> bool {
        self.value == other.value && self.unit == other.unit
    }
}

impl Eq for Duration {

}

impl Default for Duration {
    /// Two seconds.
    fn default() -> (r: Self)
        ensures
            r.value == 2,
            r.unit == Some(Unit::Seconds),
    {
        Duration { value: 2, unit: Some(Unit::Seconds) }
    }
}

impl Duration {
    /// The total length in seconds, or `None` when it does not fit.
    pub fn total_seconds(&self) -> (r: Option<u64>)
        ensures
            ({
                let u = match self.unit {
                    Some(u) => u,
                    None => Unit::Seconds,
                };
                match r {
                    Some(t) => t as int == self.value as int * unit_factor(u),
                    None => self.value as int * unit_factor(u) > u64::MAX,
                }
            }),
    {
        let f: u64 = match self.unit {
            Some(Unit::Minutes) => 60,
            Some(Unit::Hours) => 3600,
            _ => 1,
        };
        let v = self.value as u64;
        proof {
            vstd::arithmetic::div_mod::lemma_fundamental_div_mod(u64::MAX as int, f as int);
        }
        if v > u64::MAX / f {
            None
        } else {
            Some(v * f)
        }
    }

    /// The announcement printed before sleeping.
    pub fn to_message(&self) -> (s: String)
        ensures
            s@ == "Sleeping starts in "@ + dec_rep(self.value as nat) + " "@ + unit_name(
                match self.unit {
                    Some(u) => u,
                    None => Unit::Seconds,
                },
            ),
    {
        let mut s = String::new();
        s.append("Sleeping starts in ");
        let mut v: Vec<char> = Vec::new();
        push_dec_usize(&mut v, self.value);
        proof {
            lemma_dec_rep(self.value as nat);
            assert(v@ =~= dec_rep(self.value as nat));
            assert forall|i: int| 0 <= i < v@.len() implies known_char(#[trigger] v@[i]) by {
                assert(is_digit_char(dec_rep(self.value as nat)[i]));
            }
        }
        let digits = chars_to_string(&v);
        s.append(digits.as_str());
        s.append(" ");
        let u: Unit = match self.unit {
            Some(u) => u,
            None => Unit::Seconds,
        };
        s.append(u.unit_str());
        s
    }
}

/// What a duration argument parses to.
pub open spec fn spec_parse_duration(s: Seq<char>) -> Result<Duration, DurationErrorKind> {
    let e = skip_digits(s, 0);
    if e == 0 {
        Err(DurationErrorKind::GrammarMismatch)
    } else {
        let suffix = s.subrange(e, s.len() as int);
        if e < s.len() && unit_of_suffix(suffix) is None {
            Err(DurationErrorKind::GrammarMismatch)
        } else {
            let u = if e == s.len() {
                Unit::Seconds
            } else {
                match unit_of_suffix(suffix) {
                    Some(u) => u,
                    None => Unit::Seconds,
                }
            };
            if digits_val(s.subrange(0, e)) > usize::MAX {
                Err(DurationErrorKind::ValueTooBig)
            } else {
                Ok(Duration { value: digits_val(s.subrange(0, e)) as usize, unit: Some(u) })
            }
        }
    }
}

/// Parse the duration argument.  No argument means the default duration;
/// a missing unit means seconds.
pub fn parse_duration(input: Option<String>) -> (r: Result<Duration, DurationError>)
    ensures
        match input {
            None => r == Ok::<Duration, DurationError>(
                Duration { value: 2, unit: Some(Unit::Seconds) },
            ),
            Some(raw) => match spec_parse_duration(raw@) {
                Ok(d) => r == Ok::<Duration, DurationError>(d),
                Err(k) => r matches Err(e) && e.kind == k && e.text@ == raw@,
            },
        },
{
    let raw_duration: String = match input {
        Some(d) => d,
        None => { return Ok(Duration::default()) },
    };
    let chars = str_to_chars(raw_duration.as_str());
    let n = chars.len();
    let e = scan_digits(&chars, 0);
    proof {
        lemma_skip_digits(chars@, 0);
    }
    if e == 0 {
        return Err(
            DurationError { kind: DurationErrorKind::GrammarMismatch, text: raw_duration },
        );
    }
    let duration_unit: Unit = if e == n {
        Unit::Seconds
    } else {
        if span_eq_str(&chars, e, n, "s") || span_eq_str(&chars, e, n, "sec") {
            Unit::Seconds
        } else if span_eq_str(&chars, e, n, "m") || span_eq_str(&chars, e, n, "min") {
            Unit::Minutes
        } else if span_eq_str(&chars, e, n, "h") {
            Unit::Hours
        } else {
            return Err(
                DurationError { kind: DurationErrorKind::GrammarMismatch, text: raw_duration },
            );
        }
    };
    let duration_value: usize = match parse_usize_span(&chars, 0, e) {
        Some(v) => v,
        None => {
            return Err(
                DurationError { kind: DurationErrorKind::ValueTooBig, text: raw_duration },
            );
        },
    };
    Ok(Duration { value: duration_value, unit: Some(duration_unit) })
}

} // verus!
