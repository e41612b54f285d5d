//! Progress-bar styles, their command-line options, and the renderer that
//! turns a brightness percentage into a text bar.

use vstd::prelude::*;

use crate::text::{
    chars_to_string, dec_rep, is_digit_char, known_char, lemma_dec_rep, lemma_dec_rep_len_small,
    matches_ci, parse_usize_span, push_dec_usize, span_all_digits, span_matches_ci, str_to_chars,
    trimmed, trimmed_span, usize_text_val, valid_usize_text,
};
use vstd::pervasive::VecAdditionalExecFns;

verus! {

/// Default bar width in characters.
pub const ARG_PROGRESSBAR_LENGTH_DEFAULT: usize = 20;

/// Smallest accepted bar width.
pub const ARG_PROGRESSBAR_LENGTH_MIN: usize = 10;

/// Largest accepted bar width.
pub const ARG_PROGRESSBAR_LENGTH_MAX: usize = 200;

/// The five interchangeable bar styles.
#[derive(Debug, Clone, Copy, PartialEq, Eq, Structural)]
pub enum ProgressBarType {
    Classic,
    Arrow,
    WSL,
    WSLArrow,
    Filled,
}

impl Default for ProgressBarType {
    /// The default style.
    fn default() -> (r: Self)
        ensures
            r == ProgressBarType::WSLArrow,
    {
        ProgressBarType::WSLArrow
    }
}

/// The textual name of each style, as written on the command line.
pub open spec fn style_name(t: ProgressBarType) -> Seq<char> {
    match t {
        ProgressBarType::Classic => "classic"@,
        ProgressBarType::Arrow => "arrow"@,
        ProgressBarType::WSL => "wsl"@,
        ProgressBarType::WSLArrow => "wsl_arrow"@,
        ProgressBarType::Filled => "filled"@,
    }
}

/// The style whose name `t` spells, ignoring ASCII case.
pub open spec fn style_of(t: Seq<char>) -> Option<ProgressBarType> {
    if matches_ci(t, "classic"@) {
        Some(ProgressBarType::Classic)
    } else if matches_ci(t, "wsl"@) {
        Some(ProgressBarType::WSL)
    } else if matches_ci(t, "arrow"@) {
        Some(ProgressBarType::Arrow)
    } else if matches_ci(t, "wsl_arrow"@) {
        Some(ProgressBarType::WSLArrow)
    } else if matches_ci(t, "filled"@) {
        Some(ProgressBarType::Filled)
    } else {
        None
    }
}

/// Errors of the two progress-bar command-line options.
#[derive(Debug, Clone, Copy, PartialEq, Eq, Structural)]
pub enum ProgressBarErrorKind {
    LengthTooBig,
    LengthInvalid,
    StyleInvalid,
}

/// An error naming the offending option text.
#[derive(Debug)]
pub struct ProgressBarError {
    pub kind: ProgressBarErrorKind,
    pub text: String,
}

/// The message each option error prints.
pub open spec fn progressbar_error_message(kind: ProgressBarErrorKind, text: Seq<char>) -> Seq<
    char,
> {
    match kind {
        ProgressBarErrorKind::LengthTooBig => "Progressbar length `"@ + text + "` is too big"@,
        ProgressBarErrorKind::LengthInvalid => "Invalid progressbar length: "@ + text,
        ProgressBarErrorKind::StyleInvalid => "Invalid progress bar type: `"@ + text + "`"@,
    }
}

impl ProgressBarError {
    /// Render the error message.
    pub fn message(&self) -> (s: String)
        ensures
            s@ == progressbar_error_message(self.kind, self.text@),
    {
        let mut s = String::new();
        match self.kind {
            ProgressBarErrorKind::LengthTooBig => {
                s.append("Progressbar length `");
                s.append(self.text.as_str());
                s.append("` is too big");
            },
            ProgressBarErrorKind::LengthInvalid => {
                s.append("Invalid progressbar length: ");
                s.append(self.text.as_str());
            },
            ProgressBarErrorKind::StyleInvalid => {
                s.append("Invalid progress bar type: `");
                s.append(self.text.as_str());
                s.append("`");
            },
        }
        s
    }
}

/// A width clamped into the accepted range.
pub open spec fn clamp_length(v: nat) -> usize {
    if v > ARG_PROGRESSBAR_LENGTH_MAX as nat {
        ARG_PROGRESSBAR_LENGTH_MAX
    } else if v < ARG_PROGRESSBAR_LENGTH_MIN as nat {
        ARG_PROGRESSBAR_LENGTH_MIN
    } else {
        v as usize
    }
}

/// Parse the bar-width option.  An absent option takes the default width;
/// out-of-range widths are clamped, unparseable text is an error.
pub fn parse_progressbar_length(possible_input: Option<&String>) -> (r: Result<
    usize,
    ProgressBarError,
>)
    ensures
        match possible_input {
            None => r == Ok::<usize, ProgressBarError>(ARG_PROGRESSBAR_LENGTH_DEFAULT),
            Some(t) => {
                if !valid_usize_text(t@) {
                    r matches Err(e) && e.kind == ProgressBarErrorKind::LengthInvalid && e.text@
                        == t@
                } else if usize_text_val(t@) > usize::MAX {
                    r matches Err(e) && e.kind == ProgressBarErrorKind::LengthTooBig && e.text@
                        == t@
                } else {
                    r == Ok::<usize, ProgressBarError>(clamp_length(usize_text_val(t@)))
                }
            },
        },
{
    let input: &String = match possible_input {
        None => { return Ok(ARG_PROGRESSBAR_LENGTH_DEFAULT) },
        Some(i) => i,
    };
    let chars = str_to_chars(input.as_str());
    let n = chars.len();
    let start: usize = if n > 0 && chars[0] == '+' {
        1
    } else {
        0
    };
    if n == start || !span_all_digits(&chars, start, n) {
        proof {
            if input@.len() > 0 && input@[0] == '+' {
                assert(chars@.subrange(1, n as int) =~= input@.skip(1));
            } else {
                assert(chars@.subrange(0, n as int) =~= input@);
            }
        }
        return Err(
            ProgressBarError { kind: ProgressBarErrorKind::LengthInvalid, text: input.clone() },
        );
    }
    proof {
        if input@.len() > 0 && input@[0] == '+' {
            assert(chars@.subrange(1, n as int) =~= input@.skip(1));
        } else {
            assert(chars@.subrange(0, n as int) =~= input@);
        }
    }
    match parse_usize_span(&chars, start, n) {
        None => Err(
            ProgressBarError { kind: ProgressBarErrorKind::LengthTooBig, text: input.clone() },
        ),
        Some(number) => {
            if number > ARG_PROGRESSBAR_LENGTH_MAX {
                Ok(ARG_PROGRESSBAR_LENGTH_MAX)
            } else if number < ARG_PROGRESSBAR_LENGTH_MIN {
                Ok(ARG_PROGRESSBAR_LENGTH_MIN)
            } else {
                Ok(number)
            }
        },
    }
}

impl ProgressBarType {
    /// The style's command-line name.
    pub fn name_str(&self) -> (s: &'static str)
        ensures
            s@ == style_name(*self),
    {
        match self {
            ProgressBarType::Classic => "classic",
            ProgressBarType::Arrow => "arrow",
            ProgressBarType::WSL => "wsl",
            ProgressBarType::WSLArrow => "wsl_arrow",
            ProgressBarType::Filled => "filled",
        }
    }

    /// Parse the style option.  An absent option takes the default style;
    /// the name is matched ignoring ASCII case and surrounding whitespace.
    pub fn try_from_str(value: Option<&String>) -> (r: Result<ProgressBarType, ProgressBarError>)
        ensures
            match value {
                None => r == Ok::<ProgressBarType, ProgressBarError>(ProgressBarType::WSLArrow),
                Some(t) => match style_of(trimmed(t@)) {
                    Some(st) => r == Ok::<ProgressBarType, ProgressBarError>(st),
                    None => r matches Err(e) && e.kind == ProgressBarErrorKind::StyleInvalid
                        && e.text@ == t@,
                },
            },
    {
        let potential_style: &String = match value {
            None => { return Ok(Self::default()) },
            Some(v) => v,
        };
        let chars = str_to_chars(potential_style.as_str());
        let (a, b) = trimmed_span(&chars);
        let r: Result<ProgressBarType, ProgressBarError> = if span_matches_ci(
            &chars,
            a,
            b,
            "classic",
        ) {
            Ok(ProgressBarType::Classic)
        } else if span_matches_ci(&chars, a, b, "wsl") {
            Ok(ProgressBarType::WSL)
        } else if span_matches_ci(&chars, a, b, "arrow") {
            Ok(ProgressBarType::Arrow)
        } else if span_matches_ci(&chars, a, b, "wsl_arrow") {
            Ok(ProgressBarType::WSLArrow)
        } else if span_matches_ci(&chars, a, b, "filled") {
            Ok(ProgressBarType::Filled)
        } else {
            Err(
                ProgressBarError {
                    kind: ProgressBarErrorKind::StyleInvalid,
                    text: potential_style.clone(),
                },
            )
        };
        r
    }
}

/// The resolved bar configuration: a style and a width.
#[derive(Debug)]
pub struct ProgressBarInfo {
    pub _type: ProgressBarType,
    pub length: usize,
}

/// A bar configuration is well formed when its width is in range.
pub open spec fn progressbar_info_valid(info: &ProgressBarInfo) -> bool {
    ARG_PROGRESSBAR_LENGTH_MIN <= info.length <= ARG_PROGRESSBAR_LENGTH_MAX
}

/// Resolve both bar options, width first.
pub fn parse_progressbar_info(length_text: Option<&String>, style_text: Option<&String>) -> (r:
    Result<ProgressBarInfo, ProgressBarError>)
    ensures
        match r {
            Ok(info) => progressbar_info_valid(&info),
            Err(_) => true,
        },
        match parse_progressbar_length_spec(length_text) {
            Err(k) => r matches Err(e) && e.kind == k,
            Ok(len) => match style_text {
                None => r matches Ok(info) && info.length == len && info._type
                    == ProgressBarType::WSLArrow,
                Some(t) => match style_of(trimmed(t@)) {
                    Some(st) => r matches Ok(info) && info.length == len && info._type == st,
                    None => r matches Err(e) && e.kind == ProgressBarErrorKind::StyleInvalid,
                },
            },
        },
{
    let length = parse_progressbar_length(length_text)?;
    let style = ProgressBarType::try_from_str(style_text)?;
    Ok(ProgressBarInfo { _type: style, length })
}

/// A sequence of `n` copies of one character.
pub open spec fn repeat_char(c: char, n: int) -> Seq<char> {
    Seq::new(n as nat, |i: int| c)
}

/// The filled prefix of a bar: the brightness remapped linearly from
/// `[0, 100]` onto `[0, width]`, rounded down.
pub open spec fn fill_len(b: u32, w: usize) -> int {
    b * w / 100
}

/// The percentage text laid over or appended to a bar.
pub open spec fn percent_text(b: u32) -> Seq<char> {
    dec_rep(b as nat) + seq!['%']
}

/// The interior of a classic bar: fill characters, then padding.
pub open spec fn classic_body(fill: char, empty: char, b: u32, w: usize) -> Seq<char> {
    repeat_char(fill, fill_len(b, w)) + repeat_char(empty, w - fill_len(b, w))
}

/// A classic-shaped bar: brackets around the body, then the percentage.
pub open spec fn classic_bar(b: u32, w: usize, l: char, r: char, fill: char, empty: char) -> Seq<
    char,
> {
    seq![l] + classic_body(fill, empty, b, w) + seq![r, ' '] + percent_text(b)
}

/// The interior of an arrow bar: the last fill character becomes a
/// direction marker, unless the bar is entirely full or entirely empty.
pub open spec fn arrow_body(b: u32, w: usize) -> Seq<char> {
    let fl = fill_len(b, w);
    if fl == w {
        repeat_char('=', w as int)
    } else if fl == 0 {
        repeat_char(' ', w as int)
    } else {
        repeat_char('=', fl - 1) + seq!['>'] + repeat_char(' ', w - fl)
    }
}

pub open spec fn arrow_bar(b: u32, w: usize) -> Seq<char> {
    seq!['['] + arrow_body(b, w) + seq![']', ' '] + percent_text(b)
}

/// `s` with `t` written over it starting at position `at`.
pub open spec fn overwrite(s: Seq<char>, at: int, t: Seq<char>) -> Seq<char> {
    Seq::new(s.len(), |i: int| if at <= i < at + t.len() { t[i - at] } else { s[i] })
}

/// Where the centered percentage text starts inside the bar body.
pub open spec fn wsl_left_pad(b: u32, w: usize) -> int {
    (w - percent_text(b).len()) / 2
}

/// A wsl bar: the percentage text overwrites the middle of the interior.
pub open spec fn wsl_bar(b: u32, w: usize) -> Seq<char> {
    seq!['['] + overwrite(classic_body('=', ' ', b, w), wsl_left_pad(b, w), percent_text(b))
        + seq![']']
}

/// A wsl arrow bar: arrow interior with the centered percentage text.
pub open spec fn wsl_arrow_bar(b: u32, w: usize) -> Seq<char> {
    seq!['['] + overwrite(arrow_body(b, w), wsl_left_pad(b, w), percent_text(b)) + seq![']']
}

/// The rendered text of a bar in each style.
pub open spec fn progressbar_text(b: u32, info: &ProgressBarInfo) -> Seq<char> {
    match info._type {
        ProgressBarType::Classic => classic_bar(b, info.length, '[', ']', '=', ' '),
        ProgressBarType::Filled => classic_bar(
            b,
            info.length,
            '\u{a6}',
            '\u{a6}',
            '\u{2588}',
            ' ',
        ),
        ProgressBarType::Arrow => arrow_bar(b, info.length),
        ProgressBarType::WSL => wsl_bar(b, info.length),
        ProgressBarType::WSLArrow => wsl_arrow_bar(b, info.length),
    }
}

/// Append `count` copies of a character to a vector.
fn push_repeat(v: &mut Vec<char>, c: char, count: usize)
    ensures
        final(v)@ == old(v)@ + repeat_char(c, count as int),
{
    let mut i: usize = 0;
    while i < count
        invariant
            i <= count,
            v@ == old(v)@ + repeat_char(c, i as int),
        decreases count - i,
    {
        v.push(c);
        proof {
            assert(old(v)@ + repeat_char(c, i as int) + seq![c] =~= old(v)@ + repeat_char(
                c,
                i + 1,
            ));
        }
        i += 1;
    }
    proof {
        assert(v@ =~= old(v)@ + repeat_char(c, count as int));
    }
}

/// The filled prefix length, bounded by the width.
fn compute_fill_len(b: u32, w: usize) -> (fl: usize)
    requires
        b <= 100,
        w <= ARG_PROGRESSBAR_LENGTH_MAX,
    ensures
        fl as int == fill_len(b, w),
        fl <= w,
{
    proof {
        vstd::arithmetic::mul::lemma_mul_inequality(b as int, 100, w as int);
        vstd::arithmetic::mul::lemma_mul_inequality(w as int, 200, 100);
        vstd::arithmetic::div_mod::lemma_div_is_ordered(b as int * w as int, 100 * w as int, 100);
        vstd::arithmetic::div_mod::lemma_div_multiples_vanish(w as int, 100);
        assert(100 * w as int == w as int * 100) by (nonlinear_arith);
        assert(b as int * w as int <= 200 * 100) by {
            assert(b as int * w as int <= 100 * w as int);
            assert(w as int * 100 <= 200 * 100);
        }
    }
    let fl = (b as usize) * w / 100;
    fl
}

/// Render the classic shape with the given glyphs.
pub fn create_classic_progressbar_internal(
    clamped_brightness: u32,
    length: usize,
    fill_symbol: char,
    empty_symbol: char,
    left_symbol: char,
    right_symbol: char,
) -> (s: String)
    requires
        clamped_brightness <= 100,
        ARG_PROGRESSBAR_LENGTH_MIN <= length <= ARG_PROGRESSBAR_LENGTH_MAX,
        known_char(fill_symbol),
        known_char(empty_symbol),
        known_char(left_symbol),
        known_char(right_symbol),
    ensures
        s@ == classic_bar(
            clamped_brightness,
            length,
            left_symbol,
            right_symbol,
            fill_symbol,
            empty_symbol,
        ),
{
    let fl = compute_fill_len(clamped_brightness, length);
    let mut v: Vec<char> = Vec::new();
    v.push(left_symbol);
    push_repeat(&mut v, fill_symbol, fl);
    push_repeat(&mut v, empty_symbol, length - fl);
    v.push(right_symbol);
    v.push(' ');
    push_dec_usize(&mut v, clamped_brightness as usize);
    v.push('%');
    proof {
        lemma_dec_rep(clamped_brightness as nat);
        assert(v@ =~= classic_bar(
            clamped_brightness,
            length,
            left_symbol,
            right_symbol,
            fill_symbol,
            empty_symbol,
        ));
        assert forall|i: int| 0 <= i < v@.len() implies known_char(#[trigger] v@[i]) by {
            let pre = 1 + length + 2;
            if 1 <= i < 1 + fl {
                assert(v@[i] == fill_symbol);
            } else if 1 + fl <= i < 1 + length {
                assert(v@[i] == empty_symbol);
            } else if pre <= i < pre + dec_rep(clamped_brightness as nat).len() {
                assert(v@[i] == dec_rep(clamped_brightness as nat)[i - pre]);
                assert(is_digit_char(dec_rep(clamped_brightness as nat)[i - pre]));
            }
        }
    }
    chars_to_string(&v)
}

/// The classic style: `[`, `=` fill, spaces, `]`, then the percentage.
pub fn create_classic_progressbar(clamped_brightness: u32, length: usize) -> (s: String)
    requires
        clamped_brightness <= 100,
        ARG_PROGRESSBAR_LENGTH_MIN <= length <= ARG_PROGRESSBAR_LENGTH_MAX,
    ensures
        s@ == classic_bar(clamped_brightness, length, '[', ']', '=', ' '),
{
    create_classic_progressbar_internal(clamped_brightness, length, '=', ' ', '[', ']')
}

/// The filled style: solid blocks between broken-bar glyphs.
pub fn create_filled_progressbar(clamped_brightness: u32, length: usize) -> (s: String)
    requires
        clamped_brightness <= 100,
        ARG_PROGRESSBAR_LENGTH_MIN <= length <= ARG_PROGRESSBAR_LENGTH_MAX,
    ensures
        s@ == classic_bar(clamped_brightness, length, '\u{a6}', '\u{a6}', '\u{2588}', ' '),
{
    create_classic_progressbar_internal(
        clamped_brightness,
        length,
        '\u{2588}',
        ' ',
        '\u{a6}',
        '\u{a6}',
    )
}

/// The arrow style: the last fill character becomes `>` unless the bar is
/// entirely full or entirely empty.
pub fn create_arrow_progressbar(clamped_brightness: u32, length: usize) -> (s: String)
    requires
        clamped_brightness <= 100,
        ARG_PROGRESSBAR_LENGTH_MIN <= length <= ARG_PROGRESSBAR_LENGTH_MAX,
    ensures
        s@ == arrow_bar(clamped_brightness, length),
{
    let fl = compute_fill_len(clamped_brightness, length);
    let mut v: Vec<char> = Vec::new();
    v.push('[');
    if fl == length {
        push_repeat(&mut v, '=', fl);
    } else if fl == 0 {
        push_repeat(&mut v, ' ', length);
    } else {
        push_repeat(&mut v, '=', fl - 1);
        v.push('>');
        push_repeat(&mut v, ' ', length - fl);
    }
    v.push(']');
    v.push(' ');
    push_dec_usize(&mut v, clamped_brightness as usize);
    v.push('%');
    proof {
        lemma_dec_rep(clamped_brightness as nat);
        assert(v@ =~= arrow_bar(clamped_brightness, length));
        let body = arrow_body(clamped_brightness, length);
        assert forall|i: int| 0 <= i < v@.len() implies known_char(#[trigger] v@[i]) by {
            let pre = 1 + length + 2;
            if 1 <= i < 1 + length {
                assert(v@[i] == body[i - 1]);
                assert(known_char(body[i - 1]));
            } else if pre <= i < pre + dec_rep(clamped_brightness as nat).len() {
                assert(v@[i] == dec_rep(clamped_brightness as nat)[i - pre]);
                assert(is_digit_char(dec_rep(clamped_brightness as nat)[i - pre]));
            }
        }
    }
    chars_to_string(&v)
}

/// Build the percentage text as characters.
fn build_percent_chars(b: u32) -> (p: Vec<char>)
    requires
        b <= 100,
    ensures
        p@ == percent_text(b),
        2 <= p@.len() <= 4,
        forall|i: int| 0 <= i < p@.len() ==> known_char(#[trigger] p@[i]),
{
    let mut p: Vec<char> = Vec::new();
    push_dec_usize(&mut p, b as usize);
    p.push('%');
    proof {
        lemma_dec_rep(b as nat);
        lemma_dec_rep_len_small(b as nat);
        assert(p@ =~= percent_text(b));
        assert forall|i: int| 0 <= i < p@.len() implies known_char(#[trigger] p@[i]) by {
            if i < dec_rep(b as nat).len() {
                assert(p@[i] == dec_rep(b as nat)[i]);
                assert(is_digit_char(dec_rep(b as nat)[i]));
            }
        }
    }
    p
}

/// Render a wsl-family bar from its interior body.
fn finish_wsl_bar(body: &mut Vec<char>, b: u32, length: usize) -> (s: String)
    requires
        b <= 100,
        ARG_PROGRESSBAR_LENGTH_MIN <= length <= ARG_PROGRESSBAR_LENGTH_MAX,
        old(body)@.len() == length,
        forall|i: int| 0 <= i < old(body)@.len() ==> known_char(#[trigger] old(body)@[i]),
    ensures
        s@ == seq!['['] + overwrite(old(body)@, wsl_left_pad(b, length), percent_text(b))
            + seq![']'],
{
    let ghost base = old(body)@;
    let p = build_percent_chars(b);
    let plen = p.len();
    let lp: usize = (length - plen) / 2;
    proof {
        assert(lp + plen <= length) by {
            vstd::arithmetic::div_mod::lemma_div_is_ordered(
                length - plen,
                2 * (length - plen),
                2,
            );
            vstd::arithmetic::div_mod::lemma_div_multiples_vanish((length - plen) as int, 2);
        }
    }
    let mut j: usize = 0;
    while j < plen
        invariant
            j <= plen,
            plen == p@.len(),
            p@ == percent_text(b),
            lp + plen <= length,
            body@.len() == length,
            base.len() == length,
            forall|i: int| 0 <= i < base.len() ==> known_char(#[trigger] base[i]),
            forall|i: int| 0 <= i < p@.len() ==> known_char(#[trigger] p@[i]),
            forall|i: int|
                0 <= i < length ==> body@[i] == (if lp <= i < lp + j {
                    p@[i - lp]
                } else {
                    base[i]
                }),
        decreases plen - j,
    {
        body.set(lp + j, p[j]);
        j += 1;
    }
    let mut v: Vec<char> = Vec::new();
    v.push('[');
    let mut k: usize = 0;
    while k < length
        invariant
            k <= length,
            body@.len() == length,
            v@.len() == k + 1,
            v@[0] == '[',
            forall|i: int| 1 <= i <= k ==> #[trigger] v@[i] == body@[i - 1],
        decreases length - k,
    {
        v.push(body[k]);
        k += 1;
    }
    v.push(']');
    let ghost ow = overwrite(base, wsl_left_pad(b, length), percent_text(b));
    proof {
        assert forall|i: int| 0 <= i < length implies body@[i] == ow[i] by {
            assert(p@.len() == percent_text(b).len());
        }
        assert forall|i: int| 0 <= i < v@.len() implies v@[i] == (seq!['['] + ow + seq![']'])[i] by {
            if 1 <= i <= length {
                assert(v@[i] == body@[i - 1]);
                assert(body@[i - 1] == ow[i - 1]);
            }
        }
        assert(v@ =~= seq!['['] + ow + seq![']']);
        assert forall|i: int| 0 <= i < v@.len() implies known_char(#[trigger] v@[i]) by {
            if 1 <= i <= length {
                assert(v@[i] == body@[i - 1]);
                assert(body@[i - 1] == ow[i - 1]);
                if wsl_left_pad(b, length) <= i - 1 < wsl_left_pad(b, length) + percent_text(
                    b,
                ).len() {
                    assert(ow[i - 1] == percent_text(b)[i - 1 - wsl_left_pad(b, length)]);
                    assert(known_char(p@[i - 1 - wsl_left_pad(b, length)]));
                } else {
                    assert(ow[i - 1] == base[i - 1]);
                }
            }
        }
    }
    chars_to_string(&v)
}

/// The wsl style: classic interior with a centered percentage overlay.
pub fn create_wsl_progressbar(clamped_brightness: u32, length: usize) -> (s: String)
    requires
        clamped_brightness <= 100,
        ARG_PROGRESSBAR_LENGTH_MIN <= length <= ARG_PROGRESSBAR_LENGTH_MAX,
    ensures
        s@ == wsl_bar(clamped_brightness, length),
{
    let fl = compute_fill_len(clamped_brightness, length);
    let mut body: Vec<char> = Vec::new();
    push_repeat(&mut body, '=', fl);
    push_repeat(&mut body, ' ', length - fl);
    proof {
        assert(body@ =~= classic_body('=', ' ', clamped_brightness, length));
        assert forall|i: int| 0 <= i < body@.len() implies known_char(#[trigger] body@[i]) by {
            if i < fl {
                assert(body@[i] == '=');
            } else {
                assert(body@[i] == ' ');
            }
        }
    }
    finish_wsl_bar(&mut body, clamped_brightness, length)
}

/// The wsl arrow style: arrow interior with a centered percentage overlay.
pub fn create_wsl_arrow_progressbar(clamped_brightness: u32, length: usize) -> (s: String)
    requires
        clamped_brightness <= 100,
        ARG_PROGRESSBAR_LENGTH_MIN <= length <= ARG_PROGRESSBAR_LENGTH_MAX,
    ensures
        s@ == wsl_arrow_bar(clamped_brightness, length),
{
    let fl = compute_fill_len(clamped_brightness, length);
    let mut body: Vec<char> = Vec::new();
    if fl == length {
        push_repeat(&mut body, '=', fl);
    } else if fl == 0 {
        push_repeat(&mut body, ' ', length);
    } else {
        push_repeat(&mut body, '=', fl - 1);
        body.push('>');
        push_repeat(&mut body, ' ', length - fl);
    }
    proof {
        assert(body@ =~= arrow_body(clamped_brightness, length));
        assert forall|i: int| 0 <= i < body@.len() implies known_char(#[trigger] body@[i]) by {
            assert(body@[i] == arrow_body(clamped_brightness, length)[i]);
        }
    }
    finish_wsl_bar(&mut body, clamped_brightness, length)
}

/// Render a brightness value as a bar in the configured style and width.
pub fn create_progressbar(clamped_brightness: u32, progressbar_info: &ProgressBarInfo) -> (s:
    String)
    requires
        clamped_brightness <= 100,
        progressbar_info_valid(progressbar_info),
    ensures
        s@ == progressbar_text(clamped_brightness, progressbar_info),
{
    match progressbar_info._type {
        ProgressBarType::Classic => create_classic_progressbar(
            clamped_brightness,
            progressbar_info.length,
        ),
        ProgressBarType::Arrow => create_arrow_progressbar(
            clamped_brightness,
            progressbar_info.length,
        ),
        ProgressBarType::WSL => create_wsl_progressbar(clamped_brightness, progressbar_info.length),
        ProgressBarType::WSLArrow => create_wsl_arrow_progressbar(
            clamped_brightness,
            progressbar_info.length,
        ),
        ProgressBarType::Filled => create_filled_progressbar(
            clamped_brightness,
            progressbar_info.length,
        ),
    }
}

/// The width option's outcome, as a specification value.
pub open spec fn parse_progressbar_length_spec(t: Option<&String>) -> Result<
    usize,
    ProgressBarErrorKind,
> {
    match t {
        None => Ok(ARG_PROGRESSBAR_LENGTH_DEFAULT),
        Some(t) => {
            if !valid_usize_text(t@) {
                Err(ProgressBarErrorKind::LengthInvalid)
            } else if usize_text_val(t@) > usize::MAX {
                Err(ProgressBarErrorKind::LengthTooBig)
            } else {
                Ok(clamp_length(usize_text_val(t@)))
            }
        },
    }
}

} // verus!
