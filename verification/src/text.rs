//! Character and digit-string helpers shared by the parser, the canonical
//! serializer and the progress-bar renderer.

use vstd::prelude::*;

verus! {

/// An ASCII decimal digit.
pub open spec fn is_digit_char(c: char) -> bool {
    '0' <= c && c <= '9'
}

/// Numeric value of a decimal digit character.
pub open spec fn digit_val(c: char) -> nat {
    (c as int - '0' as int) as nat
}

/// The digit character for a value below ten.
pub open spec fn char_of_digit(d: nat) -> char {
    if d == 0 {
        '0'
    } else if d == 1 {
        '1'
    } else if d == 2 {
        '2'
    } else if d == 3 {
        '3'
    } else if d == 4 {
        '4'
    } else if d == 5 {
        '5'
    } else if d == 6 {
        '6'
    } else if d == 7 {
        '7'
    } else if d == 8 {
        '8'
    } else {
        '9'
    }
}

pub open spec fn all_digits(s: Seq<char>) -> bool {
    forall|i: int| 0 <= i < s.len() ==> is_digit_char(#[trigger] s[i])
}

/// The unsigned value denoted by a string of decimal digits
/// (most significant digit first).
pub open spec fn digits_val(s: Seq<char>) -> nat
    decreases s.len(),
{
    if s.len() == 0 {
        0
    } else {
        digits_val(s.drop_last()) * 10 + digit_val(s.last())
    }
}

/// Canonical decimal representation of a number, without leading zeros
/// (zero itself is written "0").
pub open spec fn dec_rep(n: nat) -> Seq<char>
    decreases n,
{
    if n < 10 {
        seq![char_of_digit(n)]
    } else {
        dec_rep(n / 10).push(char_of_digit(n % 10))
    }
}

pub proof fn lemma_digits_val_push(s: Seq<char>, c: char)
    ensures
        digits_val(s.push(c)) == digits_val(s) * 10 + digit_val(c),
{
    assert(s.push(c).drop_last() =~= s);
    assert(s.push(c).last() == c);
}

/// The canonical decimal representation consists of digits and denotes
/// the number it was built from.
pub proof fn lemma_dec_rep(n: nat)
    ensures
        all_digits(dec_rep(n)),
        dec_rep(n).len() >= 1,
        digits_val(dec_rep(n)) == n,
    decreases n,
{
    if n < 10 {
        assert(dec_rep(n).drop_last() =~= Seq::<char>::empty());
        assert(digits_val(dec_rep(n).drop_last()) == 0);
        assert(digits_val(dec_rep(n)) == digit_val(char_of_digit(n)));
    } else {
        lemma_dec_rep(n / 10);
        lemma_digits_val_push(dec_rep(n / 10), char_of_digit(n % 10));
        assert(all_digits(dec_rep(n / 10).push(char_of_digit(n % 10))));
    }
}

/// A number of at most one hundred prints with one to three digits.
pub proof fn lemma_dec_rep_len_small(n: nat)
    requires
        n <= 100,
    ensures
        1 <= dec_rep(n).len() <= 3,
{
    if n >= 10 {
        if n / 10 < 10 {
            assert(dec_rep(n / 10).len() == 1);
        } else {
            assert(n == 100);
            assert(dec_rep(1).len() == 1);
            assert(dec_rep(10).len() == 2);
        }
    }
}

pub open spec fn pow10(k: nat) -> nat
    decreases k,
{
    if k == 0 {
        1
    } else {
        10 * pow10((k - 1) as nat)
    }
}

pub proof fn lemma_dec_rep_len_bounded(n: nat, k: nat)
    requires
        k >= 1,
        n < pow10(k),
    ensures
        dec_rep(n).len() <= k,
    decreases k,
{
    if n >= 10 {
        assert(pow10(k) == 10 * pow10((k - 1) as nat));
        if k == 1 {
            assert(pow10(0nat) == 1);
            assert(false);
        }
        let p = pow10((k - 1) as nat);
        assert(n < 10 * p);
        assert(n / 10 < p) by {
            vstd::arithmetic::div_mod::lemma_fundamental_div_mod(n as int, 10);
        }
        lemma_dec_rep_len_bounded(n / 10, (k - 1) as nat);
    }
}

/// Any value that fits a machine word prints with at most twenty digits.
pub proof fn lemma_dec_rep_len_usize(n: nat)
    requires
        n <= usize::MAX,
    ensures
        dec_rep(n).len() <= 20,
{
    reveal_with_fuel(pow10, 21);
    assert(pow10(20) == 100000000000000000000);
    lemma_dec_rep_len_bounded(n, 20);
}

/// Extending a digit string on the right can only grow its value.
pub proof fn lemma_digits_val_take_le(s: Seq<char>, k: int)
    requires
        0 <= k <= s.len(),
    ensures
        digits_val(s.take(k)) <= digits_val(s),
    decreases s.len() - k,
{
    if k < s.len() {
        assert(s.take(k + 1).drop_last() =~= s.take(k));
        assert(digits_val(s.take(k + 1)) == digits_val(s.take(k)) * 10 + digit_val(
            s.take(k + 1).last(),
        ));
        lemma_digits_val_take_le(s, k + 1);
    } else {
        assert(s.take(k) =~= s);
    }
}

/// Collect the characters of a string slice into a vector.
pub fn str_to_chars(s: &str) -> (v: Vec<char>)
    ensures
        v@ == s@,
{
    let n = s.unicode_len();
    let mut v: Vec<char> = Vec::new();
    let mut i: usize = 0;
    while i < n
        invariant
            i <= n,
            n == s@.len(),
            v@ == s@.take(i as int),
        decreases n - i,
    {
        let c = s.get_char(i);
        v.push(c);
        proof {
            assert(s@.take(i as int).push(s@[i as int]) =~= s@.take(i + 1));
        }
        i += 1;
    }
    proof {
        assert(s@.take(n as int) =~= s@);
    }
    v
}

/// Parse the digit characters of `chars[start..end]` as an unsigned integer.
/// Returns `None` exactly when the denoted value does not fit in `usize`.
pub fn parse_usize_span(chars: &Vec<char>, start: usize, end: usize) -> (r: Option<usize>)
    requires
        start <= end <= chars@.len(),
        all_digits(chars@.subrange(start as int, end as int)),
    ensures
        match r {
            Some(v) => v as nat == digits_val(chars@.subrange(start as int, end as int)),
            None => digits_val(chars@.subrange(start as int, end as int)) > usize::MAX,
        },
{
    let ghost whole = chars@.subrange(start as int, end as int);
    let mut acc: usize = 0;
    let mut i: usize = start;
    while i < end
        invariant
            start <= i <= end <= chars@.len(),
            all_digits(whole),
            whole == chars@.subrange(start as int, end as int),
            acc as nat == digits_val(chars@.subrange(start as int, i as int)),
        decreases end - i,
    {
        let c = chars[i];
        proof {
            assert(whole[i - start] == chars@[i as int]);
        }
        let d: usize = ((c as u32) - 48) as usize;
        proof {
            assert(d < 10);
            assert(chars@.subrange(start as int, i as int).push(c) =~= chars@.subrange(
                start as int,
                i + 1,
            ));
            lemma_digits_val_push(chars@.subrange(start as int, i as int), c);
            vstd::arithmetic::div_mod::lemma_fundamental_div_mod(
                (usize::MAX - d) as int,
                10,
            );
        }
        if acc > (usize::MAX - d) / 10 {
            proof {
                assert(digits_val(chars@.subrange(start as int, i + 1)) > usize::MAX);
                assert(whole.take(i + 1 - start) =~= chars@.subrange(start as int, i + 1));
                lemma_digits_val_take_le(whole, i + 1 - start);
            }
            return None;
        }
        acc = acc * 10 + d;
        i += 1;
    }
    proof {
        assert(chars@.subrange(start as int, end as int) =~= whole);
    }
    Some(acc)
}

/// Text accepted by an unsigned-integer parse: an optional leading `+`,
/// then at least one decimal digit.
pub open spec fn valid_usize_text(s: Seq<char>) -> bool {
    if s.len() > 0 && s[0] == '+' {
        s.len() > 1 && all_digits(s.skip(1))
    } else {
        s.len() > 0 && all_digits(s)
    }
}

/// The value denoted by such text.
pub open spec fn usize_text_val(s: Seq<char>) -> nat {
    if s.len() > 0 && s[0] == '+' {
        digits_val(s.skip(1))
    } else {
        digits_val(s)
    }
}

/// Parse a whole string as an unsigned integer, as the brightness options
/// accept one: an optional `+` sign, then decimal digits.  `Err(true)`
/// reports a value too large for `usize`, `Err(false)` malformed text.
pub fn parse_usize_str(s: &str) -> (r: Result<usize, bool>)
    ensures
        match r {
            Ok(v) => valid_usize_text(s@) && usize_text_val(s@) <= usize::MAX && v as nat
                == usize_text_val(s@),
            Err(overflow) => {
                if overflow {
                    valid_usize_text(s@) && usize_text_val(s@) > usize::MAX
                } else {
                    !valid_usize_text(s@)
                }
            },
        },
{
    let chars = str_to_chars(s);
    let n = chars.len();
    let start: usize = if n > 0 && chars[0] == '+' {
        1
    } else {
        0
    };
    proof {
        if s@.len() > 0 && s@[0] == '+' {
            assert(chars@.subrange(1, n as int) =~= s@.skip(1));
        } else {
            assert(chars@.subrange(0, n as int) =~= s@);
        }
    }
    if n == start || !span_all_digits(&chars, start, n) {
        return Err(false);
    }
    match parse_usize_span(&chars, start, n) {
        None => Err(true),
        Some(v) => Ok(v),
    }
}

/// The digit character for an executable value below ten.
pub fn digit_char_exec(d: usize) -> (c: char)
    requires
        d < 10,
    ensures
        c == char_of_digit(d as nat),
{
    if d == 0 {
        '0'
    } else if d == 1 {
        '1'
    } else if d == 2 {
        '2'
    } else if d == 3 {
        '3'
    } else if d == 4 {
        '4'
    } else if d == 5 {
        '5'
    } else if d == 6 {
        '6'
    } else if d == 7 {
        '7'
    } else if d == 8 {
        '8'
    } else {
        '9'
    }
}

/// Append the canonical decimal representation of `n` to a character vector.
pub fn push_dec_usize(v: &mut Vec<char>, n: usize)
    ensures
        final(v)@ == old(v)@ + dec_rep(n as nat),
    decreases n,
{
    if n >= 10 {
        push_dec_usize(v, n / 10);
    }
    v.push(digit_char_exec(n % 10));
    proof {
        if n >= 10 {
            assert(final(v)@ =~= old(v)@ + dec_rep(n as nat));
        } else {
            assert(final(v)@ =~= old(v)@ + dec_rep(n as nat));
        }
    }
}

/// `c` equals the lowercase letter `l`, ignoring ASCII case.
pub open spec fn char_eq_ci(c: char, l: char) -> bool {
    c == l || (97 <= l as u32 && l as u32 <= 122 && c as u32 == l as u32 - 32)
}

/// `s` spells `lit` up to ASCII case, where `lit` is all lowercase.
pub open spec fn matches_ci(s: Seq<char>, lit: Seq<char>) -> bool {
    s.len() == lit.len() && forall|i: int| 0 <= i < s.len() ==> char_eq_ci(#[trigger] s[i], lit[i])
}

/// Whether `chars[start..end]` spells `lit` up to ASCII case.
pub fn span_matches_ci(chars: &Vec<char>, start: usize, end: usize, lit: &str) -> (b: bool)
    requires
        start <= end <= chars@.len(),
    ensures
        b == matches_ci(chars@.subrange(start as int, end as int), lit@),
{
    let n = lit.unicode_len();
    if end - start != n {
        return false;
    }
    let mut i: usize = 0;
    while i < n
        invariant
            i <= n,
            n == lit@.len(),
            start <= end <= chars@.len(),
            end - start == n,
            forall|j: int|
                0 <= j < i ==> char_eq_ci(
                    #[trigger] chars@.subrange(start as int, end as int)[j],
                    lit@[j],
                ),
        decreases n - i,
    {
        let c = chars[start + i];
        let l = lit.get_char(i);
        proof {
            assert(chars@.subrange(start as int, end as int)[i as int] == chars@[start + i]);
        }
        let lu = l as u32;
        let cu = c as u32;
        let ok = c == l || (97 <= lu && lu <= 122 && cu == lu - 32);
        if !ok {
            return false;
        }
        proof {
            assert(char_eq_ci(c, l));
        }
        i += 1;
    }
    true
}

/// Whether `c` is a decimal digit.
pub fn is_digit_exec(c: char) -> (b: bool)
    ensures
        b == is_digit_char(c),
{
    let cu = c as u32;
    48 <= cu && cu <= 57
}

/// Whether `chars[start..end]` consists of decimal digits only.
pub fn span_all_digits(chars: &Vec<char>, start: usize, end: usize) -> (b: bool)
    requires
        start <= end <= chars@.len(),
    ensures
        b == all_digits(chars@.subrange(start as int, end as int)),
{
    let ghost sub = chars@.subrange(start as int, end as int);
    let mut i: usize = start;
    while i < end
        invariant
            start <= i <= end <= chars@.len(),
            sub == chars@.subrange(start as int, end as int),
            forall|j: int| 0 <= j < i - start ==> is_digit_char(#[trigger] sub[j]),
        decreases end - i,
    {
        proof {
            assert(sub[i - start] == chars@[i as int]);
        }
        if !is_digit_exec(chars[i]) {
            return false;
        }
        i += 1;
    }
    true
}

/// An ASCII whitespace character.
pub open spec fn is_ascii_ws(c: char) -> bool {
    c == ' ' || c == '\t' || c == '\n' || c == '\r' || c == '\u{c}'
}

/// Whether `c` is ASCII whitespace.
pub fn is_ascii_ws_exec(c: char) -> (b: bool)
    ensures
        b == is_ascii_ws(c),
{
    c == ' ' || c == '\t' || c == '\n' || c == '\r' || c == '\u{c}'
}

/// Index of the first non-whitespace character at or after `i`.
pub open spec fn trim_start_idx(s: Seq<char>, i: int) -> int
    recommends
        0 <= i <= s.len(),
    decreases s.len() - i,
{
    if i < s.len() && is_ascii_ws(s[i]) {
        trim_start_idx(s, i + 1)
    } else {
        i
    }
}

/// Index one past the last non-whitespace character strictly before `j`.
pub open spec fn trim_end_idx(s: Seq<char>, j: int) -> int
    recommends
        0 <= j <= s.len(),
    decreases j,
{
    if j > 0 && is_ascii_ws(s[j - 1]) {
        trim_end_idx(s, j - 1)
    } else {
        j
    }
}

/// `s` with leading and trailing ASCII whitespace removed.
pub open spec fn trimmed(s: Seq<char>) -> Seq<char> {
    let a = trim_start_idx(s, 0);
    let b = trim_end_idx(s, s.len() as int);
    if a <= b {
        s.subrange(a, b)
    } else {
        Seq::<char>::empty()
    }
}

proof fn lemma_trim_end_le(s: Seq<char>, j: int)
    requires
        0 <= j <= s.len(),
    ensures
        trim_end_idx(s, j) <= j,
    decreases j,
{
    if j > 0 && is_ascii_ws(s[j - 1]) {
        lemma_trim_end_le(s, j - 1);
    }
}

/// The half-open span left after trimming ASCII whitespace on both sides.
pub fn trimmed_span(chars: &Vec<char>) -> (r: (usize, usize))
    ensures
        ({
            let (a, b) = r;
            a <= b <= chars@.len() && trimmed(chars@) == chars@.subrange(a as int, b as int)
        }),
{
    let n = chars.len();
    let mut a: usize = 0;
    while a < n && is_ascii_ws_exec(chars[a])
        invariant
            0 <= a <= n,
            n == chars@.len(),
            trim_start_idx(chars@, 0) == trim_start_idx(chars@, a as int),
            forall|j: int| 0 <= j < a ==> is_ascii_ws(#[trigger] chars@[j]),
        decreases n - a,
    {
        a += 1;
    }
    proof {
        assert(trim_start_idx(chars@, a as int) == a as int);
    }
    let mut b: usize = n;
    while b > a && is_ascii_ws_exec(chars[b - 1])
        invariant
            a <= b <= n,
            n == chars@.len(),
            trim_start_idx(chars@, 0) == a as int,
            forall|j: int| 0 <= j < a ==> is_ascii_ws(#[trigger] chars@[j]),
            trim_end_idx(chars@, n as int) == trim_end_idx(chars@, b as int),
        decreases b,
    {
        b -= 1;
    }
    proof {
        if b > a {
            assert(trim_end_idx(chars@, b as int) == b as int);
        } else {
            if a > 0 {
                assert(is_ascii_ws(chars@[a - 1]));
                assert(trim_end_idx(chars@, a as int) == trim_end_idx(chars@, a - 1));
                lemma_trim_end_le(chars@, a - 1);
            }
        }
        assert(trimmed(chars@) =~= chars@.subrange(a as int, b as int));
    }
    (a, b)
}

/// Whether `chars[start..end]` spells `lit` exactly.
pub fn span_eq_str(chars: &Vec<char>, start: usize, end: usize, lit: &str) -> (b: bool)
    requires
        start <= end <= chars@.len(),
    ensures
        b == (chars@.subrange(start as int, end as int) =~= lit@),
{
    let n = lit.unicode_len();
    if end - start != n {
        return false;
    }
    let mut i: usize = 0;
    while i < n
        invariant
            i <= n,
            n == lit@.len(),
            start <= end <= chars@.len(),
            end - start == n,
            forall|j: int|
                0 <= j < i ==> #[trigger] chars@.subrange(start as int, end as int)[j] == lit@[j],
        decreases n - i,
    {
        let c = chars[start + i];
        let l = lit.get_char(i);
        proof {
            assert(chars@.subrange(start as int, end as int)[i as int] == chars@[start + i]);
        }
        if c != l {
            return false;
        }
        i += 1;
    }
    true
}

/// The characters that the serializer and the renderer ever emit.
pub open spec fn known_char(c: char) -> bool {
    ||| is_digit_char(c)
    ||| c == '['
    ||| c == ']'
    ||| c == '='
    ||| c == ' '
    ||| c == '>'
    ||| c == '%'
    ||| c == '\u{2588}'
    ||| c == '\u{a6}'
    ||| c == '*'
    ||| c == ':'
    ||| c == '+'
    ||| c == '-'
}

/// Append one known character to a string.
pub fn append_char(s: &mut String, c: char)
    requires
        known_char(c),
    ensures
        final(s)@ == old(s)@.push(c),
{
    let piece: &str = if c == '[' {
        "["
    } else if c == ']' {
        "]"
    } else if c == '=' {
        "="
    } else if c == ' ' {
        " "
    } else if c == '>' {
        ">"
    } else if c == '%' {
        "%"
    } else if c == '\u{2588}' {
        "\u{2588}"
    } else if c == '\u{a6}' {
        "\u{a6}"
    } else if c == '*' {
        "*"
    } else if c == ':' {
        ":"
    } else if c == '+' {
        "+"
    } else if c == '-' {
        "-"
    } else if c == '0' {
        "0"
    } else if c == '1' {
        "1"
    } else if c == '2' {
        "2"
    } else if c == '3' {
        "3"
    } else if c == '4' {
        "4"
    } else if c == '5' {
        "5"
    } else if c == '6' {
        "6"
    } else if c == '7' {
        "7"
    } else {
        if c == '8' {
            "8"
        } else {
            "9"
        }
    };
    proof {
        reveal_strlit("[");
        reveal_strlit("]");
        reveal_strlit("=");
        reveal_strlit(" ");
        reveal_strlit(">");
        reveal_strlit("%");
        reveal_strlit("\u{2588}");
        reveal_strlit("\u{a6}");
        reveal_strlit("*");
        reveal_strlit(":");
        reveal_strlit("+");
        reveal_strlit("-");
        reveal_strlit("0");
        reveal_strlit("1");
        reveal_strlit("2");
        reveal_strlit("3");
        reveal_strlit("4");
        reveal_strlit("5");
        reveal_strlit("6");
        reveal_strlit("7");
        reveal_strlit("8");
        reveal_strlit("9");
        assert(piece@ =~= seq![c]);
    }
    s.append(piece);
    proof {
        assert(old(s)@ + piece@ =~= old(s)@.push(c));
    }
}

/// Build a string from a vector of known characters.
pub fn chars_to_string(v: &Vec<char>) -> (s: String)
    requires
        forall|i: int| 0 <= i < v@.len() ==> known_char(#[trigger] v@[i]),
    ensures
        s@ == v@,
{
    let mut s = String::new();
    let mut i: usize = 0;
    while i < v.len()
        invariant
            i <= v@.len(),
            forall|j: int| 0 <= j < v@.len() ==> known_char(#[trigger] v@[j]),
            s@ == v@.take(i as int),
        decreases v@.len() - i,
    {
        append_char(&mut s, v[i]);
        proof {
            assert(v@.take(i as int).push(v@[i as int]) =~= v@.take(i + 1));
        }
        i += 1;
    }
    proof {
        assert(v@.take(v@.len() as int) =~= v@);
    }
    s
}

} // verus!
