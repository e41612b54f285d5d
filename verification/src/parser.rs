//! The brightness-argument grammar: matching one token into named
//! sub-captures, resolving captures into a typed argument, and merging a
//! token list into a deduplicated, prioritized command set.

use vstd::prelude::*;

use crate::cli::{
    action_prefix, barg_canon, barg_valid, bargs_valid, scope_canon, setters_valid, BAction, BArg,
    BArgs, BScope, BValue, Getter,
};
use crate::text::{
    all_digits, char_eq_ci, dec_rep, digits_val, is_digit_char, is_digit_exec, lemma_dec_rep,
    lemma_dec_rep_len_small, lemma_dec_rep_len_usize, matches_ci, parse_usize_span,
    span_all_digits, span_matches_ci, str_to_chars, trimmed, trimmed_span, usize_text_val,
    valid_usize_text,
};

verus! {

/// The kinds of hard parse errors a token can raise.
#[derive(Debug, Clone, Copy, PartialEq, Eq, Structural)]
pub enum ParseErrorKind {
    /// The whole token fails to match the grammar.
    GrammarMismatch,
    /// The scope index does not fit in `usize`.
    IndexTooBig,
    /// The scope is not `*`, `all` or a number.
    IndexInvalid,
    /// The brightness value does not fit in `usize`, or a percentage
    /// computation on it would not.
    BrightnessTooBig,
    /// The brightness value is not a number.
    BrightnessInvalid,
    /// The denominator does not fit in `usize`.
    DenominatorTooBig,
    /// The denominator is not a number.
    DenominatorInvalid,
    /// The denominator is zero.
    DivisionByZero,
}

/// A hard parse error, naming the offending text.
#[derive(Debug)]
pub struct ParseError {
    pub kind: ParseErrorKind,
    pub text: String,
}

/// Specification-level parse error: the kind and the offending characters.
pub struct SpecErr {
    pub kind: ParseErrorKind,
    pub text: Seq<char>,
}

/// The message each error prints, naming the offending text.
pub open spec fn parse_error_message(kind: ParseErrorKind, text: Seq<char>) -> Seq<char> {
    match kind {
        ParseErrorKind::GrammarMismatch => "Input `"@ + text
            + "` is not a valid brightness argument"@,
        ParseErrorKind::IndexTooBig => "Index `"@ + text + "` is too big"@,
        ParseErrorKind::IndexInvalid => "Index `"@ + text + "` is not a number"@,
        ParseErrorKind::BrightnessTooBig => "Brightness value `"@ + text + "` is too big"@,
        ParseErrorKind::BrightnessInvalid => "Brightness value `"@ + text + "` is not valid"@,
        ParseErrorKind::DenominatorTooBig => "Denominator value `"@ + text + "` is too big"@,
        ParseErrorKind::DenominatorInvalid => "Denominator value `"@ + text + "` is not valid"@,
        ParseErrorKind::DivisionByZero => "Denominator value is `0`, cannot divide by zero"@,
    }
}

impl ParseError {
    /// Render the error message.
    pub fn message(&self) -> (s: String)
        ensures
            s@ == parse_error_message(self.kind, self.text@),
    {
        let mut s = String::new();
        match self.kind {
            ParseErrorKind::GrammarMismatch => {
                s.append("Input `");
                s.append(self.text.as_str());
                s.append("` is not a valid brightness argument");
            },
            ParseErrorKind::IndexTooBig => {
                s.append("Index `");
                s.append(self.text.as_str());
                s.append("` is too big");
            },
            ParseErrorKind::IndexInvalid => {
                s.append("Index `");
                s.append(self.text.as_str());
                s.append("` is not a number");
            },
            ParseErrorKind::BrightnessTooBig => {
                s.append("Brightness value `");
                s.append(self.text.as_str());
                s.append("` is too big");
            },
            ParseErrorKind::BrightnessInvalid => {
                s.append("Brightness value `");
                s.append(self.text.as_str());
                s.append("` is not valid");
            },
            ParseErrorKind::DenominatorTooBig => {
                s.append("Denominator value `");
                s.append(self.text.as_str());
                s.append("` is too big");
            },
            ParseErrorKind::DenominatorInvalid => {
                s.append("Denominator value `");
                s.append(self.text.as_str());
                s.append("` is not valid");
            },
            ParseErrorKind::DivisionByZero => {
                s.append("Denominator value is `0`, cannot divide by zero");
            },
        }
        s
    }
}

/// An executable error reports exactly the specified kind and text.
pub open spec fn err_matches(e: &ParseError, se: SpecErr) -> bool {
    e.kind == se.kind && e.text@ == se.text
}

/// An executable parse outcome agrees with the specified one.
pub open spec fn parse_result_matches(r: &Result<BArg, ParseError>, sr: Result<BArg, SpecErr>) -> bool {
    match (r, sr) {
        (Ok(a), Ok(b)) => a == &b,
        (Err(e), Err(se)) => err_matches(e, se),
        _ => false,
    }
}

/// Index of the first `:` at or after `i`, or the length of `s`.
pub open spec fn first_colon(s: Seq<char>, i: int) -> int
    recommends
        0 <= i <= s.len(),
    decreases s.len() - i,
{
    if i < s.len() {
        if s[i] == ':' {
            i
        } else {
            first_colon(s, i + 1)
        }
    } else {
        i
    }
}

/// Index just past the maximal run of digits starting at `i`.
pub open spec fn skip_digits(s: Seq<char>, i: int) -> int
    recommends
        0 <= i <= s.len(),
    decreases s.len() - i,
{
    if i < s.len() && is_digit_char(s[i]) {
        skip_digits(s, i + 1)
    } else {
        i
    }
}

pub proof fn lemma_first_colon(s: Seq<char>, i: int)
    requires
        0 <= i <= s.len(),
    ensures
        i <= first_colon(s, i) <= s.len(),
        forall|j: int| i <= j < first_colon(s, i) ==> s[j] != ':',
        first_colon(s, i) < s.len() ==> s[first_colon(s, i)] == ':',
    decreases s.len() - i,
{
    if i < s.len() && s[i] != ':' {
        lemma_first_colon(s, i + 1);
    }
}

pub proof fn lemma_skip_digits(s: Seq<char>, i: int)
    requires
        0 <= i <= s.len(),
    ensures
        i <= skip_digits(s, i) <= s.len(),
        forall|j: int| i <= j < skip_digits(s, i) ==> is_digit_char(#[trigger] s[j]),
        skip_digits(s, i) < s.len() ==> !is_digit_char(s[skip_digits(s, i)]),
    decreases s.len() - i,
{
    if i < s.len() && is_digit_char(s[i]) {
        lemma_skip_digits(s, i + 1);
    }
}

/// Where a scan stops is determined by what the characters are.
pub proof fn lemma_skip_digits_at(s: Seq<char>, i: int, e: int)
    requires
        0 <= i <= e <= s.len(),
        forall|j: int| i <= j < e ==> is_digit_char(#[trigger] s[j]),
        e < s.len() ==> !is_digit_char(s[e]),
    ensures
        skip_digits(s, i) == e,
    decreases e - i,
{
    if i < e {
        lemma_skip_digits_at(s, i + 1, e);
    }
}

pub proof fn lemma_first_colon_at(s: Seq<char>, i: int, c: int)
    requires
        0 <= i <= c <= s.len(),
        forall|j: int| i <= j < c ==> s[j] != ':',
        c < s.len() ==> s[c] == ':',
    ensures
        first_colon(s, i) == c,
    decreases c - i,
{
    if i < c {
        lemma_first_colon_at(s, i + 1, c);
    }
}

/// The named sub-captures of one matched token.  Spans are half-open
/// character ranges into the token.
#[derive(Debug, Clone, Copy)]
pub struct BargCaptures {
    /// The scope text, without its trailing `:`.
    pub scope: Option<(usize, usize)>,
    /// The `+` or `-` action sign.
    pub action: Option<char>,
    /// The digits of a numeric brightness body.
    pub brightness: Option<(usize, usize)>,
    /// The digits of a ratio denominator.
    pub denominator: Option<(usize, usize)>,
    /// Whether the numeric body carries a `%` marker.
    pub percentage: bool,
    /// Whether the body is a `min` keyword.
    pub min_kw: bool,
    /// Whether the body is a `max` keyword.
    pub max_kw: bool,
}

/// A scope capture must spell `*`, `all` (any case) or digits.
pub open spec fn valid_scope_span(s: Seq<char>, a: int, b: int) -> bool {
    let t = s.subrange(a, b);
    t =~= seq!['*'] || matches_ci(t, "all"@) || (b > a && all_digits(t))
}

/// The value part of the grammar, matched at position `v` with the given
/// scope capture already in hand.
pub open spec fn spec_match_value(s: Seq<char>, v: int, scope: Option<(usize, usize)>) -> Option<
    BargCaptures,
>
    recommends
        0 <= v <= s.len(),
{
    if v == s.len() {
        Some(
            BargCaptures {
                scope,
                action: None,
                brightness: None,
                denominator: None,
                percentage: false,
                min_kw: false,
                max_kw: false,
            },
        )
    } else {
        let has_sign = s[v] == '+' || s[v] == '-';
        let action: Option<char> = if has_sign {
            Some(s[v])
        } else {
            None
        };
        let w = if has_sign {
            v + 1
        } else {
            v
        };
        if w == s.len() {
            None
        } else if is_digit_char(s[w]) {
            let d_end = skip_digits(s, w);
            if d_end < s.len() && s[d_end] == '/' {
                let den_start = d_end + 1;
                let den_end = skip_digits(s, den_start);
                if den_end == den_start {
                    None
                } else if den_end == s.len() {
                    Some(
                        BargCaptures {
                            scope,
                            action,
                            brightness: Some((w as usize, d_end as usize)),
                            denominator: Some((den_start as usize, den_end as usize)),
                            percentage: false,
                            min_kw: false,
                            max_kw: false,
                        },
                    )
                } else if den_end == s.len() - 1 && s[den_end] == '%' {
                    Some(
                        BargCaptures {
                            scope,
                            action,
                            brightness: Some((w as usize, d_end as usize)),
                            denominator: Some((den_start as usize, den_end as usize)),
                            percentage: true,
                            min_kw: false,
                            max_kw: false,
                        },
                    )
                } else {
                    None
                }
            } else if d_end == s.len() {
                Some(
                    BargCaptures {
                        scope,
                        action,
                        brightness: Some((w as usize, d_end as usize)),
                        denominator: None,
                        percentage: false,
                        min_kw: false,
                        max_kw: false,
                    },
                )
            } else if d_end == s.len() - 1 && s[d_end] == '%' {
                Some(
                    BargCaptures {
                        scope,
                        action,
                        brightness: Some((w as usize, d_end as usize)),
                        denominator: None,
                        percentage: true,
                        min_kw: false,
                        max_kw: false,
                    },
                )
            } else {
                None
            }
        } else {
            let t = s.subrange(w, s.len() as int);
            if matches_ci(t, "min"@) || matches_ci(t, "minimum"@) || matches_ci(t, "minimal"@) {
                Some(
                    BargCaptures {
                        scope,
                        action,
                        brightness: None,
                        denominator: None,
                        percentage: false,
                        min_kw: true,
                        max_kw: false,
                    },
                )
            } else if matches_ci(t, "max"@) || matches_ci(t, "maximum"@) || matches_ci(
                t,
                "maximal"@,
            ) {
                Some(
                    BargCaptures {
                        scope,
                        action,
                        brightness: None,
                        denominator: None,
                        percentage: false,
                        min_kw: false,
                        max_kw: true,
                    },
                )
            } else {
                None
            }
        }
    }
}

/// Match one whole token against the brightness-argument grammar,
/// case-insensitively and anchored at both ends.
pub open spec fn spec_match_barg(s: Seq<char>) -> Option<BargCaptures> {
    let start: int = if s.len() > 0 && s[0] == '/' {
        1
    } else {
        0
    };
    let c = first_colon(s, start);
    if c < s.len() {
        if valid_scope_span(s, start, c) {
            spec_match_value(s, c + 1, Some((start as usize, c as usize)))
        } else {
            None
        }
    } else {
        spec_match_value(s, start, None)
    }
}

/// Find the first `:` at or after `from`.
fn find_colon(chars: &Vec<char>, from: usize) -> (r: usize)
    requires
        from <= chars@.len(),
    ensures
        r as int == first_colon(chars@, from as int),
{
    let n = chars.len();
    let mut i = from;
    while i < n && chars[i] != ':'
        invariant
            from <= i <= n,
            n == chars@.len(),
            first_colon(chars@, from as int) == first_colon(chars@, i as int),
        decreases n - i,
    {
        i += 1;
    }
    i
}

/// Scan past the digits starting at `from`.
pub(crate) fn scan_digits(chars: &Vec<char>, from: usize) -> (r: usize)
    requires
        from <= chars@.len(),
    ensures
        r as int == skip_digits(chars@, from as int),
{
    let n = chars.len();
    let mut i = from;
    while i < n && is_digit_exec(chars[i])
        invariant
            from <= i <= n,
            n == chars@.len(),
            skip_digits(chars@, from as int) == skip_digits(chars@, i as int),
        decreases n - i,
    {
        i += 1;
    }
    i
}

/// Whether `chars[a..b]` is an acceptable scope text.
fn check_scope_span(chars: &Vec<char>, a: usize, b: usize) -> (r: bool)
    requires
        a <= b <= chars@.len(),
    ensures
        r == valid_scope_span(chars@, a as int, b as int),
{
    if b - a == 1 && chars[a] == '*' {
        proof {
            assert(chars@.subrange(a as int, b as int) =~= seq!['*']);
        }
        return true;
    }
    proof {
        if chars@.subrange(a as int, b as int) =~= seq!['*'] {
            assert(chars@.subrange(a as int, b as int).len() == 1);
            assert(b == a + 1);
            assert(chars@.subrange(a as int, b as int)[0] == '*');
            assert(chars@[a as int] == '*');
        }
    }
    span_matches_ci(chars, a, b, "all") || (b > a && span_all_digits(chars, a, b))
}

/// The grammar matcher: recognize one token and expose its sub-captures.
pub fn match_barg(chars: &Vec<char>) -> (r: Option<BargCaptures>)
    ensures
        r == spec_match_barg(chars@),
{
    let n = chars.len();
    let start: usize = if n > 0 && chars[0] == '/' {
        1
    } else {
        0
    };
    let c = find_colon(chars, start);
    proof {
        lemma_first_colon(chars@, start as int);
    }
    let (v, scope): (usize, Option<(usize, usize)>) = if c < n {
        if check_scope_span(chars, start, c) {
            (c + 1, Some((start, c)))
        } else {
            return None;
        }
    } else {
        (start, None)
    };
    match_value(chars, v, scope)
}

/// Match the value part at position `v`.
fn match_value(chars: &Vec<char>, v: usize, scope: Option<(usize, usize)>) -> (r: Option<
    BargCaptures,
>)
    requires
        v <= chars@.len(),
    ensures
        r == spec_match_value(chars@, v as int, scope),
{
    let n = chars.len();
    if v == n {
        return Some(
            BargCaptures {
                scope,
                action: None,
                brightness: None,
                denominator: None,
                percentage: false,
                min_kw: false,
                max_kw: false,
            },
        );
    }
    let c0 = chars[v];
    let has_sign = c0 == '+' || c0 == '-';
    let action: Option<char> = if has_sign {
        Some(c0)
    } else {
        None
    };
    let w: usize = if has_sign {
        v + 1
    } else {
        v
    };
    if w == n {
        return None;
    }
    if is_digit_exec(chars[w]) {
        let d_end = scan_digits(chars, w);
        proof {
            lemma_skip_digits(chars@, w as int);
        }
        if d_end < n && chars[d_end] == '/' {
            let den_start = d_end + 1;
            let den_end = scan_digits(chars, den_start);
            proof {
                lemma_skip_digits(chars@, den_start as int);
            }
            if den_end == den_start {
                None
            } else if den_end == n {
                Some(
                    BargCaptures {
                        scope,
                        action,
                        brightness: Some((w, d_end)),
                        denominator: Some((den_start, den_end)),
                        percentage: false,
                        min_kw: false,
                        max_kw: false,
                    },
                )
            } else if den_end == n - 1 && chars[den_end] == '%' {
                Some(
                    BargCaptures {
                        scope,
                        action,
                        brightness: Some((w, d_end)),
                        denominator: Some((den_start, den_end)),
                        percentage: true,
                        min_kw: false,
                        max_kw: false,
                    },
                )
            } else {
                None
            }
        } else if d_end == n {
            Some(
                BargCaptures {
                    scope,
                    action,
                    brightness: Some((w, d_end)),
                    denominator: None,
                    percentage: false,
                    min_kw: false,
                    max_kw: false,
                },
            )
        } else if d_end == n - 1 && chars[d_end] == '%' {
            Some(
                BargCaptures {
                    scope,
                    action,
                    brightness: Some((w, d_end)),
                    denominator: None,
                    percentage: true,
                    min_kw: false,
                    max_kw: false,
                },
            )
        } else {
            None
        }
    } else {
        if span_matches_ci(chars, w, n, "min") || span_matches_ci(chars, w, n, "minimum")
            || span_matches_ci(chars, w, n, "minimal") {
            Some(
                BargCaptures {
                    scope,
                    action,
                    brightness: None,
                    denominator: None,
                    percentage: false,
                    min_kw: true,
                    max_kw: false,
                },
            )
        } else if span_matches_ci(chars, w, n, "max") || span_matches_ci(chars, w, n, "maximum")
            || span_matches_ci(chars, w, n, "maximal") {
            Some(
                BargCaptures {
                    scope,
                    action,
                    brightness: None,
                    denominator: None,
                    percentage: false,
                    min_kw: false,
                    max_kw: true,
                },
            )
        } else {
            None
        }
    }
}

impl BScope {
    /// Parse a scope written on its own: `*` or `all` in any case means
    /// every device, anything else must be a device index.
    pub fn from_text(s: &str) -> (r: Result<BScope, ParseError>)
        ensures
            ({
                let t = trimmed(s@);
                if t =~= seq!['*'] || matches_ci(t, "all"@) {
                    r == Ok::<BScope, ParseError>(BScope::Global)
                } else if !valid_usize_text(t) {
                    r matches Err(e) && e.kind == ParseErrorKind::IndexInvalid && e.text@ == s@
                } else if usize_text_val(t) > usize::MAX {
                    r matches Err(e) && e.kind == ParseErrorKind::IndexTooBig && e.text@ == s@
                } else {
                    r == Ok::<BScope, ParseError>(BScope::Index(usize_text_val(t) as usize))
                }
            }),
    {
        let chars = str_to_chars(s);
        let (a, b) = trimmed_span(&chars);
        let is_star = b - a == 1 && chars[a] == '*';
        proof {
            if is_star {
                assert(chars@.subrange(a as int, b as int) =~= seq!['*']);
            } else if chars@.subrange(a as int, b as int) =~= seq!['*'] {
                assert(chars@.subrange(a as int, b as int).len() == 1);
                assert(b == a + 1);
                assert(chars@.subrange(a as int, b as int)[0] == '*');
            }
        }
        if is_star || span_matches_ci(&chars, a, b, "all") {
            return Ok(BScope::Global);
        }
        let number_text = s.substring_char(a, b);
        match crate::text::parse_usize_str(number_text) {
            Ok(number) => Ok(BScope::Index(number)),
            Err(overflow) => {
                let kind = if overflow {
                    ParseErrorKind::IndexTooBig
                } else {
                    ParseErrorKind::IndexInvalid
                };
                Err(ParseError { kind, text: s.to_owned() })
            },
        }
    }
}

/// A magnitude clamped to at most one hundred.
pub open spec fn clamp100_nat(v: nat) -> nat {
    if v > 100 {
        100
    } else {
        v
    }
}

/// Parse a raw brightness value.  Outside ratio notation, values above one
/// hundred are clamped; inside it, the raw value is kept for the division.
pub fn parse_brightness_value_from_str(brightness_raw: &str, is_fraction: bool) -> (r: Result<
    usize,
    ParseError,
>)
    ensures
        ({
            let t = brightness_raw@;
            if !valid_usize_text(t) {
                r matches Err(e) && e.kind == ParseErrorKind::BrightnessInvalid && e.text@ == t
            } else if usize_text_val(t) > usize::MAX {
                r matches Err(e) && e.kind == ParseErrorKind::BrightnessTooBig && e.text@ == t
            } else if is_fraction {
                r == Ok::<usize, ParseError>(usize_text_val(t) as usize)
            } else {
                r == Ok::<usize, ParseError>(clamp100_nat(usize_text_val(t)) as usize)
            }
        }),
{
    let brightness: usize = match crate::text::parse_usize_str(brightness_raw) {
        Ok(bv) => bv,
        Err(overflow) => {
            let kind = if overflow {
                ParseErrorKind::BrightnessTooBig
            } else {
                ParseErrorKind::BrightnessInvalid
            };
            return Err(ParseError { kind, text: brightness_raw.to_owned() });
        },
    };
    if brightness > 100 && !is_fraction {
        Ok(100)
    } else {
        Ok(brightness)
    }
}

/// Parse a ratio denominator.
pub fn parse_denominator_value_from_str(denominator_str: &str) -> (r: Result<
    Option<usize>,
    ParseError,
>)
    ensures
        ({
            let t = denominator_str@;
            if !valid_usize_text(t) {
                r matches Err(e) && e.kind == ParseErrorKind::DenominatorInvalid && e.text@ == t
            } else if usize_text_val(t) > usize::MAX {
                r matches Err(e) && e.kind == ParseErrorKind::DenominatorTooBig && e.text@ == t
            } else {
                r == Ok::<Option<usize>, ParseError>(Some(usize_text_val(t) as usize))
            }
        }),
{
    match crate::text::parse_usize_str(denominator_str) {
        Ok(denom) => Ok(Some(denom)),
        Err(overflow) => {
            let kind = if overflow {
                ParseErrorKind::DenominatorTooBig
            } else {
                ParseErrorKind::DenominatorInvalid
            };
            Err(ParseError { kind, text: denominator_str.to_owned() })
        },
    }
}

/// Combine a brightness value with an optional denominator: division by
/// zero is a hard error, ratio results are clamped to one hundred, and with
/// the percent marker the value is first multiplied by one hundred.
pub fn calculate_final_value(brightness_value: usize, denominator: Option<usize>, percentage: bool)
    -> (r: Result<usize, ParseError>)
    ensures
        match denominator {
            None => r == Ok::<usize, ParseError>(brightness_value),
            Some(d) => {
                if d == 0 {
                    r matches Err(e) && e.kind == ParseErrorKind::DivisionByZero && e.text@
                        == Seq::<char>::empty()
                } else if percentage && brightness_value > usize::MAX / 100 {
                    r matches Err(e) && e.kind == ParseErrorKind::BrightnessTooBig && e.text@
                        == Seq::<char>::empty()
                } else {
                    let raw: nat = if percentage {
                        (brightness_value as int * 100 / d as int) as nat
                    } else {
                        (brightness_value as int / d as int) as nat
                    };
                    r == Ok::<usize, ParseError>(clamp100_nat(raw) as usize)
                }
            },
        },
{
    if let Some(denominator_value) = denominator {
        if denominator_value == 0 {
            return Err(ParseError { kind: ParseErrorKind::DivisionByZero, text: String::new() });
        }
        let final_value: usize = if percentage {
            if brightness_value > usize::MAX / 100 {
                return Err(
                    ParseError { kind: ParseErrorKind::BrightnessTooBig, text: String::new() },
                );
            }
            proof {
                vstd::arithmetic::div_mod::lemma_fundamental_div_mod(usize::MAX as int, 100);
            }
            brightness_value * 100 / denominator_value
        } else {
            brightness_value / denominator_value
        };
        if final_value > 100 {
            return Ok(100);
        }
        return Ok(final_value);
    }
    Ok(brightness_value)
}

/// Resolve the scope capture into a typed scope.
pub open spec fn spec_resolve_scope(s: Seq<char>, scope: Option<(usize, usize)>) -> Result<
    BScope,
    SpecErr,
> {
    match scope {
        None => Ok(BScope::Global),
        Some((a, b)) => {
            let t = s.subrange(a as int, b as int);
            if t =~= seq!['*'] || matches_ci(t, "all"@) {
                Ok(BScope::Global)
            } else if digits_val(t) > usize::MAX {
                Err(SpecErr { kind: ParseErrorKind::IndexTooBig, text: t })
            } else {
                Ok(BScope::Index(digits_val(t) as usize))
            }
        },
    }
}

/// Resolve matched captures into a typed argument, with the numeric
/// validation, clamping and keyword rules.
pub open spec fn spec_resolve(s: Seq<char>, caps: BargCaptures) -> Result<BArg, SpecErr> {
    match spec_resolve_scope(s, caps.scope) {
        Err(e) => Err(e),
        Ok(scope) => {
            if caps.brightness is None && !caps.min_kw && !caps.max_kw {
                Ok(BArg { scope, value: BValue { action: BAction::Get, brightness: None } })
            } else {
                let action = match caps.action {
                    Some(c) => if c == '+' {
                        BAction::Inc
                    } else {
                        BAction::Dec
                    },
                    None => BAction::Assign,
                };
                match caps.brightness {
                    Some((ba, bb)) => {
                    let tb = s.subrange(ba as int, bb as int);
                    let bval = digits_val(tb);
                    match caps.denominator {
                        Some((da, db)) => {
                            let td = s.subrange(da as int, db as int);
                            let dval = digits_val(td);
                            if dval > usize::MAX {
                                Err(SpecErr { kind: ParseErrorKind::DenominatorTooBig, text: td })
                            } else if bval > usize::MAX {
                                Err(SpecErr { kind: ParseErrorKind::BrightnessTooBig, text: tb })
                            } else if dval == 0 {
                                Err(
                                    SpecErr {
                                        kind: ParseErrorKind::DivisionByZero,
                                        text: Seq::<char>::empty(),
                                    },
                                )
                            } else if caps.percentage && bval > usize::MAX as nat / 100 {
                                Err(
                                    SpecErr {
                                        kind: ParseErrorKind::BrightnessTooBig,
                                        text: Seq::<char>::empty(),
                                    },
                                )
                            } else {
                                let raw: nat = if caps.percentage {
                                    bval * 100 / dval
                                } else {
                                    bval / dval
                                };
                                Ok(
                                    BArg {
                                        scope,
                                        value: BValue {
                                            action,
                                            brightness: Some(clamp100_nat(raw) as usize),
                                        },
                                    },
                                )
                            }
                        },
                        None => {
                            if bval > usize::MAX {
                                Err(SpecErr { kind: ParseErrorKind::BrightnessTooBig, text: tb })
                            } else {
                                Ok(
                                    BArg {
                                        scope,
                                        value: BValue {
                                            action,
                                            brightness: Some(clamp100_nat(bval) as usize),
                                        },
                                    },
                                )
                            }
                        },
                    }
                    },
                    None => {
                        if caps.max_kw {
                            let v: usize = if action == BAction::Dec {
                                0
                            } else {
                                100
                            };
                            Ok(
                                BArg {
                                    scope,
                                    value: BValue { action: BAction::Assign, brightness: Some(v) },
                                },
                            )
                        } else {
                            if action == BAction::Assign {
                                Ok(
                                    BArg {
                                        scope,
                                        value: BValue {
                                            action: BAction::Assign,
                                            brightness: Some(0),
                                        },
                                    },
                                )
                            } else if action == BAction::Inc {
                                Ok(
                                    BArg {
                                        scope,
                                        value: BValue { action: BAction::Inc, brightness: Some(1) },
                                    },
                                )
                            } else {
                                Ok(
                                    BArg {
                                        scope,
                                        value: BValue { action: BAction::Dec, brightness: Some(1) },
                                    },
                                )
                            }
                        }
                    },
                }
            }
        },
    }
}

/// Parse one token: grammar match, then capture resolution.
pub open spec fn spec_parse_barg(s: Seq<char>) -> Result<BArg, SpecErr> {
    match spec_match_barg(s) {
        None => Err(SpecErr { kind: ParseErrorKind::GrammarMismatch, text: s }),
        Some(caps) => spec_resolve(s, caps),
    }
}

/// Structural facts about the captures the matcher can produce.
pub proof fn lemma_match_caps(s: Seq<char>)
    requires
        s.len() <= usize::MAX,
    ensures
        spec_match_barg(s) matches Some(caps) ==> {
            &&& (caps.scope matches Some((a, b)) ==> a <= b <= s.len() && valid_scope_span(
                s,
                a as int,
                b as int,
            ))
            &&& (caps.brightness matches Some((a, b)) ==> a < b <= s.len() && all_digits(
                s.subrange(a as int, b as int),
            ))
            &&& (caps.denominator matches Some((a, b)) ==> a < b <= s.len() && all_digits(
                s.subrange(a as int, b as int),
            ))
            &&& (caps.denominator is Some ==> caps.brightness is Some)
            &&& (caps.percentage ==> caps.brightness is Some)
            &&& !(caps.min_kw && caps.max_kw)
            &&& (caps.min_kw || caps.max_kw ==> caps.brightness is None)
            &&& (caps.action matches Some(c) ==> c == '+' || c == '-')
        },
{
    let start: int = if s.len() > 0 && s[0] == '/' {
        1
    } else {
        0
    };
    lemma_first_colon(s, start);
    let c = first_colon(s, start);
    let v: int = if c < s.len() {
        c + 1
    } else {
        start
    };
    if v <= s.len() && v < s.len() {
        let has_sign = s[v] == '+' || s[v] == '-';
        let w: int = if has_sign {
            v + 1
        } else {
            v
        };
        if w < s.len() && is_digit_char(s[w]) {
            lemma_skip_digits(s, w);
            lemma_skip_digits(s, w + 1);
            let d_end = skip_digits(s, w);
            assert(skip_digits(s, w) == skip_digits(s, w + 1));
            assert(d_end >= w + 1);
            if d_end < s.len() && s[d_end] == '/' {
                lemma_skip_digits(s, d_end + 1);
                if skip_digits(s, d_end + 1) > d_end + 1 {
                    assert(all_digits(s.subrange(d_end + 1, skip_digits(s, d_end + 1)))) by {
                        assert(forall|j: int|
                            d_end + 1 <= j < skip_digits(s, d_end + 1) ==> is_digit_char(
                                #[trigger] s[j],
                            ));
                    }
                }
            }
            assert(all_digits(s.subrange(w, d_end))) by {
                assert(forall|j: int| w <= j < d_end ==> is_digit_char(#[trigger] s[j]));
            }
        }
    }
}

/// Every successfully resolved argument is well formed.
pub proof fn lemma_resolve_valid(s: Seq<char>, caps: BargCaptures)
    ensures
        spec_resolve(s, caps) matches Ok(a) ==> barg_valid(a),
{
}

/// Resolve the captures of one matched token into a typed argument.
pub fn parse_barg_from_captures(token: &str, chars: &Vec<char>, captures: &BargCaptures) -> (r:
    Result<BArg, ParseError>)
    requires
        chars@ == token@,
        spec_match_barg(chars@) matches Some(c) && c == *captures,
    ensures
        parse_result_matches(&r, spec_resolve(token@, *captures)),
{
    let _token_len: usize = chars.len();
    proof {
        lemma_match_caps(token@);
    }
    let scope: BScope = match captures.scope {
        None => BScope::Global,
        Some((a, b)) => {
            let is_star = b - a == 1 && chars[a] == '*';
            proof {
                if is_star {
                    assert(chars@.subrange(a as int, b as int) =~= seq!['*']);
                } else if chars@.subrange(a as int, b as int) =~= seq!['*'] {
                    assert(chars@.subrange(a as int, b as int).len() == 1);
                    assert(b == a + 1);
                    assert(chars@.subrange(a as int, b as int)[0] == '*');
                }
            }
            if is_star || span_matches_ci(chars, a, b, "all") {
                BScope::Global
            } else {
                match parse_usize_span(chars, a, b) {
                    None => {
                        return Err(
                            ParseError {
                                kind: ParseErrorKind::IndexTooBig,
                                text: token.substring_char(a, b).to_owned(),
                            },
                        );
                    },
                    Some(v) => BScope::Index(v),
                }
            }
        },
    };
    if captures.brightness.is_none() && !captures.min_kw && !captures.max_kw {
        return Ok(BArg { scope, value: BValue { action: BAction::Get, brightness: None } });
    }
    let action: BAction = match captures.action {
        Some(c) => if c == '+' {
            BAction::Inc
        } else {
            BAction::Dec
        },
        None => BAction::Assign,
    };
    if let Some((ba, bb)) = captures.brightness {
        let denominator: Option<usize> = match captures.denominator {
            None => None,
            Some((da, db)) => {
                let den_str = token.substring_char(da, db);
                proof {
                    let td = token@.subrange(da as int, db as int);
                    assert(valid_usize_text(td));
                    assert(usize_text_val(td) == digits_val(td));
                }
                match parse_denominator_value_from_str(den_str) {
                    Err(e) => { return Err(e) },
                    Ok(d) => d,
                }
            },
        };
        let is_fraction = denominator.is_some();
        let bri_str = token.substring_char(ba, bb);
        proof {
            let tb = token@.subrange(ba as int, bb as int);
            assert(valid_usize_text(tb));
            assert(usize_text_val(tb) == digits_val(tb));
        }
        let brightness_value: usize = match parse_brightness_value_from_str(bri_str, is_fraction) {
            Err(e) => { return Err(e) },
            Ok(v) => v,
        };
        let final_value: usize = match calculate_final_value(
            brightness_value,
            denominator,
            captures.percentage,
        ) {
            Err(e) => { return Err(e) },
            Ok(v) => v,
        };
        return Ok(BArg { scope, value: BValue { action, brightness: Some(final_value) } });
    }
    if captures.max_kw {
        let value: usize = if action == BAction::Dec {
            0
        } else {
            100
        };
        return Ok(
            BArg { scope, value: BValue { action: BAction::Assign, brightness: Some(value) } },
        );
    }
    if action == BAction::Assign {
        Ok(BArg { scope, value: BValue { action: BAction::Assign, brightness: Some(0) } })
    } else if action == BAction::Inc {
        Ok(BArg { scope, value: BValue { action: BAction::Inc, brightness: Some(1) } })
    } else {
        Ok(BArg { scope, value: BValue { action: BAction::Dec, brightness: Some(1) } })
    }
}

/// The state of the conflict-resolution pass over a parsed token list.
pub struct MergeState {
    /// A global getter has been seen; all later getters are dropped.
    pub global_get: bool,
    /// The indexed getter scopes collected so far, in input order.
    pub getter_scopes: Seq<BScope>,
    /// The first global setter seen, if any; it is appended last.
    pub global_set: Option<BArg>,
    /// The indexed setters collected so far, deduplicated by index.
    pub setters: Seq<BArg>,
}

pub open spec fn init_merge_state() -> MergeState {
    MergeState {
        global_get: false,
        getter_scopes: Seq::<BScope>::empty(),
        global_set: None,
        setters: Seq::<BArg>::empty(),
    }
}

pub open spec fn contains_getter_scope(s: Seq<BScope>, idx: usize) -> bool {
    exists|k: int| 0 <= k < s.len() && s[k] == BScope::Index(idx)
}

pub open spec fn contains_setter_index(s: Seq<BArg>, idx: usize) -> bool {
    exists|k: int| 0 <= k < s.len() && s[k].scope == BScope::Index(idx)
}

/// Fold one parsed argument into the merge state: first global getter and
/// setter win, duplicate indexed scopes are dropped, everything else is
/// collected in input order.
pub open spec fn merge_step(st: MergeState, a: BArg) -> MergeState {
    if a.value.action == BAction::Get {
        if st.global_get {
            st
        } else {
            match a.scope {
                BScope::Global => MergeState { global_get: true, ..st },
                BScope::Index(i) => {
                    if contains_getter_scope(st.getter_scopes, i) {
                        st
                    } else {
                        MergeState { getter_scopes: st.getter_scopes.push(a.scope), ..st }
                    }
                },
            }
        }
    } else {
        match a.scope {
            BScope::Global => {
                if st.global_set is Some {
                    st
                } else {
                    MergeState { global_set: Some(a), ..st }
                }
            },
            BScope::Index(i) => {
                if contains_setter_index(st.setters, i) {
                    st
                } else {
                    MergeState { setters: st.setters.push(a), ..st }
                }
            },
        }
    }
}

/// The merge state after folding the first `i` parsed arguments.
pub open spec fn merge_fold(args: Seq<BArg>, i: int) -> MergeState
    decreases i,
{
    if i <= 0 {
        init_merge_state()
    } else {
        merge_step(merge_fold(args, i - 1), args[i - 1])
    }
}

/// A command set is exactly the merge of a parsed argument list: indexed
/// setters in input order, the global setter last, and the getter built
/// from the global flag or the collected index list.
pub open spec fn bargs_is_merge_of(b: &BArgs, args: Seq<BArg>) -> bool {
    let st = merge_fold(args, args.len() as int);
    &&& b.setters@ == st.setters + (match st.global_set {
        Some(g) => seq![g],
        None => Seq::<BArg>::empty(),
    })
    &&& match b.getters {
        Option::None => !st.global_get && st.getter_scopes.len() == 0,
        Option::Some(Getter::Global) => st.global_get,
        Option::Some(Getter::Many(v)) => !st.global_get && st.getter_scopes.len() > 0 && v@
            == st.getter_scopes,
    }
}

/// The argument a token parses to, where it parses.
pub open spec fn spec_ok_barg(s: Seq<char>) -> BArg
    recommends
        spec_parse_barg(s) is Ok,
{
    match spec_parse_barg(s) {
        Ok(a) => a,
        Err(_) => BArg { scope: BScope::Global, value: BValue { action: BAction::Get, brightness: None } },
    }
}

/// The error a token parses to, where it fails.
pub open spec fn spec_parse_err(s: Seq<char>) -> SpecErr
    recommends
        spec_parse_barg(s) is Err,
{
    match spec_parse_barg(s) {
        Err(se) => se,
        Ok(_) => SpecErr { kind: ParseErrorKind::GrammarMismatch, text: s },
    }
}

pub open spec fn all_tokens_ok(dv: Seq<Seq<char>>) -> bool {
    forall|i: int| 0 <= i < dv.len() ==> (#[trigger] spec_parse_barg(dv[i])) is Ok
}

/// The arguments a token list parses to, where all of it parses.
pub open spec fn parsed_args(dv: Seq<Seq<char>>) -> Seq<BArg> {
    Seq::new(dv.len(), |i: int| spec_ok_barg(dv[i]))
}

/// Token `i` is the first one that fails to parse.
pub open spec fn is_first_error(dv: Seq<Seq<char>>, i: int) -> bool {
    &&& 0 <= i < dv.len()
    &&& spec_parse_barg(dv[i]) is Err
    &&& forall|j: int| 0 <= j < i ==> (#[trigger] spec_parse_barg(dv[j])) is Ok
}

/// Whether an indexed getter scope was already collected.
fn getter_scopes_contains(v: &Vec<BScope>, index: usize) -> (b: bool)
    ensures
        b == contains_getter_scope(v@, index),
{
    let n = v.len();
    let mut i: usize = 0;
    while i < n
        invariant
            i <= n,
            n == v@.len(),
            forall|j: int| 0 <= j < i ==> v@[j] != BScope::Index(index),
        decreases n - i,
    {
        if v[i] == BScope::Index(index) {
            return true;
        }
        i += 1;
    }
    false
}

/// Whether a setter for this index was already collected.
fn setters_contains_index(v: &Vec<BArg>, index: usize) -> (b: bool)
    ensures
        b == contains_setter_index(v@, index),
{
    let n = v.len();
    let mut i: usize = 0;
    while i < n
        invariant
            i <= n,
            n == v@.len(),
            forall|j: int| 0 <= j < i ==> v@[j].scope != BScope::Index(index),
        decreases n - i,
    {
        if v[i].scope == BScope::Index(index) {
            return true;
        }
        i += 1;
    }
    false
}

/// Well-formedness of every merge state reached over valid arguments.
pub proof fn lemma_merge_wf(args: Seq<BArg>, i: int)
    requires
        0 <= i <= args.len(),
        forall|j: int| 0 <= j < args.len() ==> barg_valid(#[trigger] args[j]),
    ensures
        ({
            let st = merge_fold(args, i);
            &&& forall|k: int|
                0 <= k < st.setters.len() ==> barg_valid(#[trigger] st.setters[k])
                    && st.setters[k].value.action != BAction::Get && st.setters[k].scope is Index
            &&& forall|k1: int, k2: int|
                0 <= k1 < k2 < st.setters.len() ==> st.setters[k1].scope != st.setters[k2].scope
            &&& (st.global_set matches Some(g) ==> barg_valid(g) && g.value.action != BAction::Get
                && g.scope is Global)
            &&& forall|k: int| 0 <= k < st.getter_scopes.len() ==> (#[trigger] st.getter_scopes[k]) is Index
            &&& forall|k1: int, k2: int|
                0 <= k1 < k2 < st.getter_scopes.len() ==> st.getter_scopes[k1]
                    != st.getter_scopes[k2]
        }),
    decreases i,
{
    if i > 0 {
        lemma_merge_wf(args, i - 1);
        let st = merge_fold(args, i - 1);
        let a = args[i - 1];
        if a.value.action != BAction::Get && a.scope is Index && !contains_setter_index(
            st.setters,
            a.scope->Index_0,
        ) {
            assert(forall|k: int|
                0 <= k < st.setters.len() ==> (#[trigger] st.setters[k]).scope != a.scope);
        }
        if a.value.action == BAction::Get && !st.global_get && a.scope is Index
            && !contains_getter_scope(st.getter_scopes, a.scope->Index_0) {
            assert(forall|k: int|
                0 <= k < st.getter_scopes.len() ==> (#[trigger] st.getter_scopes[k]) != a.scope);
        }
    }
}

/// Parse a raw token list and merge it into a command set.  With no tokens
/// the default command set queries every device.  The first malformed token
/// aborts the whole list.
pub fn parse_bargs(possible_raw_bargs: Option<&Vec<String>>) -> (r: Result<BArgs, ParseError>)
    ensures
        match possible_raw_bargs {
            None => r matches Ok(b) && (b.getters matches Some(g) && g is Global) && (b.setters@
                =~= Seq::<BArg>::empty()) && bargs_valid(&b),
            Some(tokens) => {
                let dv = tokens.deep_view();
                if all_tokens_ok(dv) {
                    r matches Ok(b) && bargs_is_merge_of(&b, parsed_args(dv)) && bargs_valid(&b)
                } else {
                    r matches Err(e) && exists|i: int|
                        #[trigger] is_first_error(dv, i) && err_matches(&e, spec_parse_err(dv[i]))
                }
            },
        },
{
    let raw_bargs: &Vec<String> = match possible_raw_bargs {
        Some(rb) => rb,
        None => { return Ok(BArgs::default()) },
    };
    let ghost dv = raw_bargs.deep_view();

    let mut parsed_bargs: Vec<BArg> = Vec::new();
    let n = raw_bargs.len();
    let mut idx: usize = 0;
    while idx < n
        invariant
            idx <= n,
            possible_raw_bargs == Some(raw_bargs),
            n == raw_bargs@.len(),
            dv == raw_bargs.deep_view(),
            dv.len() == n,
            parsed_bargs@.len() == idx,
            forall|j: int| 0 <= j < idx ==> (#[trigger] spec_parse_barg(dv[j])) is Ok,
            forall|j: int| 0 <= j < idx ==> #[trigger] parsed_bargs@[j] == spec_ok_barg(dv[j]),
            forall|j: int| 0 <= j < idx ==> barg_valid(#[trigger] parsed_bargs@[j]),
        decreases n - idx,
    {
        proof {
            assert(dv[idx as int] == raw_bargs@[idx as int]@);
        }
        let token: &String = &raw_bargs[idx];
        match parse_barg(token.as_str()) {
            Ok(a) => parsed_bargs.push(a),
            Err(e) => {
                proof {
                    assert(is_first_error(dv, idx as int));
                    assert(err_matches(&e, spec_parse_err(dv[idx as int])));
                    assert(!all_tokens_ok(dv));
                }
                return Err(e);
            },
        }
        idx += 1;
    }
    proof {
        assert(parsed_bargs@ =~= parsed_args(dv));
    }

    let mut global_get: bool = false;
    let mut getter_bargs: Vec<BScope> = Vec::new();
    let mut global_set: Option<BArg> = None;
    let mut setter_bargs: Vec<BArg> = Vec::new();

    let m = parsed_bargs.len();
    let mut k: usize = 0;
    while k < m
        invariant
            k <= m,
            m == parsed_bargs@.len(),
            forall|j: int| 0 <= j < m ==> barg_valid(#[trigger] parsed_bargs@[j]),
            ({
                let st = merge_fold(parsed_bargs@, k as int);
                &&& global_get == st.global_get
                &&& getter_bargs@ == st.getter_scopes
                &&& global_set == st.global_set
                &&& setter_bargs@ == st.setters
            }),
        decreases m - k,
    {
        let barg = parsed_bargs[k];
        if barg.value.action == BAction::Get {
            if !global_get {
                match barg.scope {
                    BScope::Global => {
                        global_get = true;
                    },
                    BScope::Index(index) => {
                        if !getter_scopes_contains(&getter_bargs, index) {
                            getter_bargs.push(barg.scope);
                        }
                    },
                }
            }
        } else {
            match barg.scope {
                BScope::Global => {
                    if global_set.is_none() {
                        global_set = Some(barg);
                    }
                },
                BScope::Index(index) => {
                    if !setters_contains_index(&setter_bargs, index) {
                        setter_bargs.push(barg);
                    }
                },
            }
        }
        k += 1;
    }

    proof {
        lemma_merge_wf(parsed_bargs@, m as int);
    }
    let ghost st = merge_fold(parsed_bargs@, m as int);

    if let Some(global_setter) = global_set {
        setter_bargs.push(global_setter);
        proof {
            assert(setter_bargs@ =~= st.setters + seq![global_setter]);
        }
    }
    let final_getter: Option<Getter> = if global_get {
        Some(Getter::Global)
    } else {
        if getter_bargs.len() != 0 {
            Some(Getter::Many(getter_bargs))
        } else {
            None
        }
    };
    let result = BArgs { getters: final_getter, setters: setter_bargs };
    proof {
        if st.global_set is None {
            assert(result.setters@ =~= st.setters + Seq::<BArg>::empty());
        }
        assert(all_tokens_ok(dv));
        assert(parsed_bargs@ == parsed_args(dv));
        assert(bargs_is_merge_of(&result, parsed_args(dv)));
        assert(setters_valid(result.setters@));
        assert(bargs_valid(&result));
    }
    Ok(result)
}

/// Round trip: re-parsing the canonical text of any well-formed argument
/// yields that argument again.
pub proof fn lemma_canonical_round_trip(a: BArg)
    requires
        barg_valid(a),
    ensures
        spec_parse_barg(barg_canon(a)) == Result::<BArg, SpecErr>::Ok(a),
{
    reveal_strlit("all");
    let s = barg_canon(a);
    let sc = scope_canon(a.scope);
    let pre = action_prefix(a.value.action);
    let mag: Seq<char> = match a.value.brightness {
        Some(b) => dec_rep(b as nat),
        None => Seq::<char>::empty(),
    };
    match a.scope {
        BScope::Global => {
        },
        BScope::Index(i) => {
            lemma_dec_rep(i as nat);
            lemma_dec_rep_len_usize(i as nat);
        },
    }
    if let Some(b) = a.value.brightness {
        lemma_dec_rep(b as nat);
        lemma_dec_rep_len_small(b as nat);
    }
    assert(sc.len() >= 1);
    assert(s.len() <= 25);
    assert(s =~= sc + seq![':'] + pre + mag);
    let cl = sc.len() as int;
    assert(forall|j: int| 0 <= j < cl ==> s[j] == sc[j]);
    assert(s[cl] == ':');
    assert forall|j: int| 0 <= j < cl implies s[j] != ':' && s[j] != '/' by {
        match a.scope {
            BScope::Global => {
                assert(s[j] == '*');
            },
            BScope::Index(i) => {
                assert(s[j] == dec_rep(i as nat)[j]);
                assert(is_digit_char(s[j]));
            },
        }
    }
    // the matcher finds the scope
    assert(s[0] != '/');
    lemma_first_colon_at(s, 0, cl);
    assert(first_colon(s, 0) == cl);
    assert(valid_scope_span(s, 0, cl)) by {
        assert(s.subrange(0, cl) =~= sc);
        match a.scope {
            BScope::Global => {
                assert(sc =~= seq!['*']);
            },
            BScope::Index(i) => {
                assert(all_digits(sc));
            },
        }
    }
    // the scope resolves back
    assert(spec_resolve_scope(s, Some((0usize, cl as usize))) == Result::<BScope, SpecErr>::Ok(
        a.scope,
    )) by {
        let t = s.subrange(0, cl);
        assert(t =~= sc);
        match a.scope {
            BScope::Global => {
                assert(t =~= seq!['*']);
            },
            BScope::Index(i) => {
                if t =~= seq!['*'] {
                    assert(is_digit_char(t[0]));
                    assert(false);
                }
                if matches_ci(t, "all"@) {
                    assert(char_eq_ci(t[0], "all"@[0]));
                    assert(is_digit_char(t[0]));
                    assert(false);
                }
                assert(digits_val(t) == i as nat) by {
                    assert(t =~= dec_rep(i as nat));
                }
            },
        }
    }
    let v = cl + 1;
    match a.value.brightness {
        None => {
            // a getter: no value part at all
            assert(a.value.action == BAction::Get);
            assert(pre =~= Seq::<char>::empty());
            assert(s.len() == v);
            let caps = spec_match_barg(s)->0;
            assert(spec_match_barg(s) == spec_match_value(s, v, Some((0usize, cl as usize))));
            assert(caps.brightness is None && !caps.min_kw && !caps.max_kw);
            assert(spec_resolve(s, caps) == Result::<BArg, SpecErr>::Ok(a));
        },
        Some(b) => {
            assert(a.value.action != BAction::Get);
            assert(mag.len() >= 1);
            assert(forall|j: int| 0 <= j < mag.len() ==> is_digit_char(#[trigger] mag[j]));
            let w: int = if a.value.action == BAction::Inc || a.value.action == BAction::Dec {
                v + 1
            } else {
                v
            };
            assert(forall|j: int| w <= j < s.len() ==> s[j] == mag[j - w]);
            assert forall|j: int| w <= j < s.len() implies is_digit_char(#[trigger] s[j]) by {
                assert(s[j] == mag[j - w]);
            }
            if a.value.action == BAction::Inc {
                assert(s[v] == '+');
            } else if a.value.action == BAction::Dec {
                assert(s[v] == '-');
            } else {
                assert(s[v] == mag[0]);
                assert(is_digit_char(s[v]));
                assert(s[v] != '+' && s[v] != '-');
            }
            assert(w < s.len());
            assert(is_digit_char(s[w]));
            lemma_skip_digits_at(s, w, s.len() as int);
            assert(skip_digits(s, w) == s.len());
            let caps = spec_match_barg(s)->0;
            assert(spec_match_barg(s) == spec_match_value(s, v, Some((0usize, cl as usize))));
            assert(caps.brightness == Some((w as usize, s.len() as usize)));
            assert(caps.denominator is None && !caps.percentage);
            let tb = s.subrange(w, s.len() as int);
            assert(tb =~= dec_rep(b as nat));
            assert(digits_val(tb) == b as nat);
            assert(clamp100_nat(b as nat) == b as nat);
            assert(spec_resolve(s, caps) == Result::<BArg, SpecErr>::Ok(a));
        },
    }
}

/// Parse one raw token into a typed argument.
pub fn parse_barg(token: &str) -> (r: Result<BArg, ParseError>)
    ensures
        parse_result_matches(&r, spec_parse_barg(token@)),
        r matches Ok(a) ==> barg_valid(a),
{
    let chars = str_to_chars(token);
    match match_barg(&chars) {
        None => Err(ParseError { kind: ParseErrorKind::GrammarMismatch, text: token.to_owned() }),
        Some(caps) => {
            let r = parse_barg_from_captures(token, &chars, &caps);
            proof {
                lemma_resolve_valid(token@, caps);
            }
            r
        },
    }
}

} // verus!
