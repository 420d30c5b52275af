//! Verified text utilities: decimal parsing and formatting, line and field
//! splitting, trimming. Specifications are stated over `Seq<char>` views.

use vstd::prelude::*;

verus! {

// ---------------------------------------------------------------------------
// Digits and base-10 values
// ---------------------------------------------------------------------------

/// Numeric value of a decimal digit character.
pub open spec fn digit_val(c: char) -> nat {
    (c as u32 - '0' as u32) as nat
}

/// Whether a character is a decimal digit.
pub open spec fn is_digit(c: char) -> bool {
    '0' as u32 <= c as u32 && c as u32 <= '9' as u32
}

/// Whether every character of a sequence is a decimal digit.
pub open spec fn all_digits(s: Seq<char>) -> bool {
    forall|i: int| 0 <= i < s.len() ==> is_digit(#[trigger] s[i])
}

/// Value of a digit sequence read as a base-10 number.
pub open spec fn dec_value(s: Seq<char>) -> nat
    decreases s.len(),
{
    if s.len() == 0 {
        0
    } else {
        dec_value(s.drop_last()) * 10 + digit_val(s.last())
    }
}

/// A prefix of a digit string never exceeds the value of the whole string.
proof fn lemma_dec_value_prefix(s: Seq<char>, j: int)
    requires
        0 <= j <= s.len(),
    ensures
        dec_value(s.take(j)) <= dec_value(s),
    decreases s.len(),
{
    if j < s.len() {
        assert(s.drop_last().take(j) =~= s.take(j));
        lemma_dec_value_prefix(s.drop_last(), j);
    } else {
        assert(s.take(j) =~= s);
    }
}

/// The digit character for a value below ten.
pub open spec fn digit_char(d: nat) -> char {
    if d == 0 { '0' }
    else if d == 1 { '1' }
    else if d == 2 { '2' }
    else if d == 3 { '3' }
    else if d == 4 { '4' }
    else if d == 5 { '5' }
    else if d == 6 { '6' }
    else if d == 7 { '7' }
    else if d == 8 { '8' }
    else { '9' }
}

/// Base-10 digit string of a natural number, without leading zeros
/// (a lone zero for 0).
pub open spec fn dec_seq(n: nat) -> Seq<char>
    decreases n,
{
    if n < 10 {
        seq![digit_char(n)]
    } else {
        dec_seq(n / 10).push(digit_char(n % 10))
    }
}

/// The one-character string for a digit value.
fn digit_str(d: u64) -> (s: &'static str)
    requires
        d < 10,
    ensures
        s@ =~= seq![digit_char(d as nat)],
{
    proof {
        reveal_strlit("0");
        reveal_strlit("1");
        reveal_strlit("2");
        reveal_strlit("3");
        reveal_strlit("4");
        reveal_strlit("5");
        reveal_strlit("6");
        reveal_strlit("7");
        reveal_strlit("8");
        reveal_strlit("9");
    }
    if d == 0 { "0" }
    else if d == 1 { "1" }
    else if d == 2 { "2" }
    else if d == 3 { "3" }
    else if d == 4 { "4" }
    else if d == 5 { "5" }
    else if d == 6 { "6" }
    else if d == 7 { "7" }
    else if d == 8 { "8" }
    else { "9" }
}

/// Renders a number as its base-10 digit string.
pub fn format_u64(n: u64) -> (s: String)
    ensures
        s@ == dec_seq(n as nat),
    decreases n,
{
    if n < 10 {
        digit_str(n).to_owned()
    } else {
        let mut s = format_u64(n / 10);
        s.append(digit_str(n % 10));
        proof {
            assert(s@ =~= dec_seq((n / 10) as nat).push(digit_char((n % 10) as nat)));
        }
        s
    }
}

/// Renders a wide number as its base-10 digit string.
pub fn format_u128(n: u128) -> (s: String)
    ensures
        s@ == dec_seq(n as nat),
    decreases n,
{
    if n < 10 {
        digit_str(n as u64).to_owned()
    } else {
        let mut s = format_u128(n / 10);
        s.append(digit_str((n % 10) as u64));
        proof {
            assert(s@ =~= dec_seq((n / 10) as nat).push(digit_char((n % 10) as nat)));
        }
        s
    }
}

/// Parses a non-empty, all-digit string as a base-10 number; rejects
/// anything else, and values that do not fit the result type.
pub fn parse_u64(s: &str) -> (r: Option<u64>)
    ensures
        r is Some <==> s@.len() > 0 && all_digits(s@) && dec_value(s@) <= u64::MAX,
        r matches Some(v) ==> v as nat == dec_value(s@),
{
    let n = s.unicode_len();
    if n == 0 {
        return None;
    }
    let mut acc: u64 = 0;
    let mut i: usize = 0;
    while i < n
        invariant
            0 <= i <= n,
            n == s@.len(),
            all_digits(s@.take(i as int)),
            acc as nat == dec_value(s@.take(i as int)),
        decreases n - i,
    {
        let c = s.get_char(i);
        let cv = c as u32;
        if cv < '0' as u32 || cv > '9' as u32 {
            assert(!is_digit(s@[i as int]));
            return None;
        }
        let d = (cv - '0' as u32) as u64;
        if acc > (u64::MAX - d) / 10 {
            proof {
                assert(s@.take(i + 1).drop_last() =~= s@.take(i as int));
                assert(s@.take(i + 1).last() == s@[i as int]);
                assert(dec_value(s@.take(i + 1)) > u64::MAX);
                lemma_dec_value_prefix(s@, i + 1);
            }
            return None;
        }
        proof {
            assert(s@.take(i + 1).drop_last() =~= s@.take(i as int));
            assert(s@.take(i + 1).last() == s@[i as int]);
        }
        acc = acc * 10 + d;
        i += 1;
    }
    proof {
        assert(s@.take(n as int) =~= s@);
    }
    Some(acc)
}

// ---------------------------------------------------------------------------
// Finding characters, splitting, trimming
// ---------------------------------------------------------------------------

/// Index of the first occurrence of a character, or the length if absent.
pub open spec fn first_ch(s: Seq<char>, c: char) -> int
    decreases s.len(),
{
    if s.len() == 0 {
        0
    } else if s[0] == c {
        0
    } else {
        1 + first_ch(s.skip(1), c)
    }
}

pub proof fn lemma_first_ch_bounds(s: Seq<char>, c: char)
    ensures
        0 <= first_ch(s, c) <= s.len(),
        first_ch(s, c) < s.len() ==> s[first_ch(s, c)] == c,
        forall|j: int| 0 <= j < first_ch(s, c) ==> s[j] != c,
    decreases s.len(),
{
    if s.len() > 0 && s[0] != c {
        lemma_first_ch_bounds(s.skip(1), c);
        assert(forall|j: int| 1 <= j < first_ch(s, c) ==> s[j] == s.skip(1)[j - 1]);
    }
}

proof fn lemma_first_ch_is(s: Seq<char>, c: char, i: int)
    requires
        0 <= i <= s.len(),
        forall|j: int| 0 <= j < i ==> s[j] != c,
        i < s.len() ==> s[i] == c,
    ensures
        first_ch(s, c) == i,
    decreases s.len(),
{
    if s.len() > 0 && s[0] != c {
        assert(i >= 1);
        assert(forall|j: int| 0 <= j < i - 1 ==> s.skip(1)[j] == s[j + 1]);
        assert(i - 1 < s.skip(1).len() ==> s.skip(1)[i - 1] == s[i]);
        lemma_first_ch_is(s.skip(1), c, i - 1);
    }
}

/// Finds the first occurrence of a character at or after a start index,
/// returning the string's length if there is none.
fn find_char(s: &str, c: char, start: usize) -> (r: usize)
    requires
        start <= s@.len(),
        forall|j: int| 0 <= j < start ==> s@[j] != c,
    ensures
        r == first_ch(s@, c),
    decreases s@.len() - start,
{
    let n = s.unicode_len();
    if start == n {
        proof {
            lemma_first_ch_is(s@, c, start as int);
        }
        return start;
    }
    if s.get_char(start) == c {
        proof {
            lemma_first_ch_is(s@, c, start as int);
        }
        return start;
    }
    find_char(s, c, start + 1)
}

/// The lines of a text, split at every newline character. A text without
/// newlines is one line; an empty text is one empty line.
pub open spec fn lines_of(s: Seq<char>) -> Seq<Seq<char>>
    decreases s.len(),
    via lines_of_dec
{
    if first_ch(s, '\n') == s.len() {
        seq![s]
    } else {
        seq![s.take(first_ch(s, '\n'))] + lines_of(s.skip(first_ch(s, '\n') + 1))
    }
}

#[via_fn]
proof fn lines_of_dec(s: Seq<char>) {
    lemma_first_ch_bounds(s, '\n');
}

/// Splits a text into its lines.
pub fn split_lines(s: &str) -> (r: Vec<String>)
    ensures
        r.deep_view() == lines_of(s@),
    decreases s@.len(),
{
    let n = s.unicode_len();
    let i = find_char(s, '\n', 0);
    proof {
        lemma_first_ch_bounds(s@, '\n');
    }
    if i == n {
        let mut v: Vec<String> = Vec::new();
        v.push(s.to_owned());
        proof {
            assert(v.deep_view() =~~= lines_of(s@));
        }
        v
    } else {
        let head = s.substring_char(0, i).to_owned();
        let tail = s.substring_char(i + 1, n);
        proof {
            assert(tail@ =~= s@.skip(i + 1));
        }
        let mut rest = split_lines(tail);
        let mut v: Vec<String> = Vec::new();
        v.push(head);
        v.append(&mut rest);
        proof {
            assert(head@ =~= s@.take(i as int));
            assert(v.deep_view() =~~= lines_of(s@));
        }
        v
    }
}

/// The segments of a text, split at every occurrence of a character. A text
/// without the character is one segment; an empty text is one empty segment.
pub open spec fn split_char(s: Seq<char>, c: char) -> Seq<Seq<char>>
    decreases s.len(),
    via split_char_dec
{
    if first_ch(s, c) == s.len() {
        seq![s]
    } else {
        seq![s.take(first_ch(s, c))] + split_char(s.skip(first_ch(s, c) + 1), c)
    }
}

#[via_fn]
proof fn split_char_dec(s: Seq<char>, c: char) {
    lemma_first_ch_bounds(s, c);
}

/// Splits a text at every occurrence of a character.
pub fn split_on(s: &str, c: char) -> (r: Vec<String>)
    ensures
        r.deep_view() == split_char(s@, c),
    decreases s@.len(),
{
    let n = s.unicode_len();
    let i = find_char(s, c, 0);
    proof {
        lemma_first_ch_bounds(s@, c);
    }
    if i == n {
        let mut v: Vec<String> = Vec::new();
        v.push(s.to_owned());
        proof {
            assert(v.deep_view() =~~= split_char(s@, c));
        }
        v
    } else {
        let head = s.substring_char(0, i).to_owned();
        let tail = s.substring_char(i + 1, n);
        proof {
            assert(tail@ =~= s@.skip(i + 1));
        }
        let mut rest = split_on(tail, c);
        let mut v: Vec<String> = Vec::new();
        v.push(head);
        v.append(&mut rest);
        proof {
            assert(head@ =~= s@.take(i as int));
            assert(v.deep_view() =~~= split_char(s@, c));
        }
        v
    }
}

/// Whether a character separates fields (space or horizontal tab).
pub open spec fn is_sep(c: char) -> bool {
    c == ' ' || c == '\t'
}

/// Index of the first field separator, or the length if there is none.
pub open spec fn first_sep(s: Seq<char>) -> int
    decreases s.len(),
{
    if s.len() == 0 {
        0
    } else if is_sep(s[0]) {
        0
    } else {
        1 + first_sep(s.skip(1))
    }
}

proof fn lemma_first_sep_bounds(s: Seq<char>)
    ensures
        0 <= first_sep(s) <= s.len(),
        first_sep(s) < s.len() ==> is_sep(s[first_sep(s)]),
        forall|j: int| 0 <= j < first_sep(s) ==> !is_sep(s[j]),
    decreases s.len(),
{
    if s.len() > 0 && !is_sep(s[0]) {
        lemma_first_sep_bounds(s.skip(1));
        assert(forall|j: int| 1 <= j < first_sep(s) ==> s[j] == s.skip(1)[j - 1]);
    }
}

proof fn lemma_first_sep_is(s: Seq<char>, i: int)
    requires
        0 <= i <= s.len(),
        forall|j: int| 0 <= j < i ==> !is_sep(s[j]),
        i < s.len() ==> is_sep(s[i]),
    ensures
        first_sep(s) == i,
    decreases s.len(),
{
    if s.len() > 0 && !is_sep(s[0]) {
        assert(i >= 1);
        assert(forall|j: int| 0 <= j < i - 1 ==> s.skip(1)[j] == s[j + 1]);
        assert(i - 1 < s.skip(1).len() ==> s.skip(1)[i - 1] == s[i]);
        lemma_first_sep_is(s.skip(1), i - 1);
    }
}

/// The whitespace-separated fields of a line: maximal runs of non-separator
/// characters, in order; separator runs of any length count once.
pub open spec fn fields_of(s: Seq<char>) -> Seq<Seq<char>>
    decreases s.len(),
    via fields_of_dec
{
    if s.len() == 0 {
        Seq::empty()
    } else if is_sep(s[0]) {
        fields_of(s.skip(1))
    } else {
        seq![s.take(first_sep(s))] + fields_of(s.skip(first_sep(s)))
    }
}

#[via_fn]
proof fn fields_of_dec(s: Seq<char>) {
    lemma_first_sep_bounds(s);
}

fn find_sep(s: &str, start: usize) -> (r: usize)
    requires
        start <= s@.len(),
        forall|j: int| 0 <= j < start ==> !is_sep(s@[j]),
    ensures
        r == first_sep(s@),
    decreases s@.len() - start,
{
    let n = s.unicode_len();
    if start == n {
        proof {
            lemma_first_sep_is(s@, start as int);
        }
        return start;
    }
    let c = s.get_char(start);
    if c == ' ' || c == '\t' {
        proof {
            lemma_first_sep_is(s@, start as int);
        }
        return start;
    }
    find_sep(s, start + 1)
}

/// Splits a line into its whitespace-separated fields.
pub fn split_fields(s: &str) -> (r: Vec<String>)
    ensures
        r.deep_view() == fields_of(s@),
    decreases s@.len(),
{
    let n = s.unicode_len();
    if n == 0 {
        let v: Vec<String> = Vec::new();
        proof {
            assert(v.deep_view() =~~= fields_of(s@));
        }
        return v;
    }
    let c = s.get_char(0);
    if c == ' ' || c == '\t' {
        let tail = s.substring_char(1, n);
        proof {
            assert(tail@ =~= s@.skip(1));
        }
        let v = split_fields(tail);
        proof {
            assert(v.deep_view() =~~= fields_of(s@));
        }
        v
    } else {
        let i = find_sep(s, 0);
        proof {
            lemma_first_sep_bounds(s@);
        }
        let head = s.substring_char(0, i).to_owned();
        let tail = s.substring_char(i, n);
        proof {
            assert(tail@ =~= s@.skip(i as int));
        }
        let mut rest = split_fields(tail);
        let mut v: Vec<String> = Vec::new();
        v.push(head);
        v.append(&mut rest);
        proof {
            assert(head@ =~= s@.take(i as int));
            assert(v.deep_view() =~~= fields_of(s@));
        }
        v
    }
}

/// Whether a character is trimmed from the ends of a value.
pub open spec fn is_trim_ws(c: char) -> bool {
    c == ' ' || c == '\t' || c == '\r'
}

/// The sequence with leading and trailing whitespace removed.
pub open spec fn trim_of(s: Seq<char>) -> Seq<char>
    decreases s.len(),
{
    if s.len() == 0 {
        s
    } else if is_trim_ws(s[0]) {
        trim_of(s.skip(1))
    } else if is_trim_ws(s.last()) {
        trim_of(s.drop_last())
    } else {
        s
    }
}

/// Removes leading and trailing whitespace.
pub fn trim(s: &str) -> (r: String)
    ensures
        r@ == trim_of(s@),
    decreases s@.len(),
{
    let n = s.unicode_len();
    if n == 0 {
        return s.to_owned();
    }
    let c0 = s.get_char(0);
    if c0 == ' ' || c0 == '\t' || c0 == '\r' {
        let tail = s.substring_char(1, n);
        proof {
            assert(tail@ =~= s@.skip(1));
        }
        return trim(tail);
    }
    let cl = s.get_char(n - 1);
    if cl == ' ' || cl == '\t' || cl == '\r' {
        let head = s.substring_char(0, n - 1);
        proof {
            assert(head@ =~= s@.drop_last());
        }
        return trim(head);
    }
    s.to_owned()
}

/// Splits a line at its first colon, if any, into the parts before and after.
pub fn split_once_colon(s: &str) -> (r: Option<(String, String)>)
    ensures
        first_ch(s@, ':') == s@.len() ==> r is None,
        first_ch(s@, ':') < s@.len() ==> (r matches Some(p)
            && p.0@ == s@.take(first_ch(s@, ':'))
            && p.1@ == s@.skip(first_ch(s@, ':') + 1)),
{
    let n = s.unicode_len();
    let i = find_char(s, ':', 0);
    proof {
        lemma_first_ch_bounds(s@, ':');
    }
    if i == n {
        None
    } else {
        let before = s.substring_char(0, i).to_owned();
        let after = s.substring_char(i + 1, n).to_owned();
        proof {
            assert(before@ =~= s@.take(i as int));
            assert(after@ =~= s@.skip(i + 1));
        }
        Some((before, after))
    }
}

/// Whether one sequence is a prefix of another.
pub open spec fn is_prefix(p: Seq<char>, s: Seq<char>) -> bool {
    p.len() <= s.len() && s.take(p.len() as int) == p
}

/// Whether the string begins with the given prefix.
pub fn has_prefix(s: &str, p: &str) -> (r: bool)
    ensures
        r == is_prefix(p@, s@),
{
    let np = p.unicode_len();
    let ns = s.unicode_len();
    if np > ns {
        return false;
    }
    let mut i: usize = 0;
    while i < np
        invariant
            0 <= i <= np,
            np == p@.len() <= ns == s@.len(),
            forall|j: int| 0 <= j < i ==> s@[j] == p@[j],
        decreases np - i,
    {
        if s.get_char(i) != p.get_char(i) {
            proof {
                assert(s@.take(np as int)[i as int] == s@[i as int]);
            }
            return false;
        }
        i += 1;
    }
    proof {
        assert(s@.take(np as int) =~= p@);
    }
    true
}

// ---------------------------------------------------------------------------
// Decimal fractions
// ---------------------------------------------------------------------------

/// The digits of a decimal literal with its dot, if any, removed.
pub open spec fn mantissa_digits(s: Seq<char>) -> Seq<char> {
    let i = first_ch(s, '.');
    if i == s.len() {
        s
    } else {
        s.take(i) + s.skip(i + 1)
    }
}

/// How many digits of a decimal literal stand after the dot.
pub open spec fn dec_scale(s: Seq<char>) -> nat {
    let i = first_ch(s, '.');
    if i == s.len() {
        0
    } else {
        (s.len() - i - 1) as nat
    }
}

/// A decimal literal: digits with at most one dot among them, and at least
/// one digit.
pub open spec fn is_decimal(s: Seq<char>) -> bool {
    mantissa_digits(s).len() > 0 && all_digits(mantissa_digits(s))
}

/// Parses a decimal literal into its digit value and its scale (the number
/// of digits after the dot), so that the literal denotes value / 10^scale.
pub fn parse_decimal(s: &str) -> (r: Option<(u64, usize)>)
    ensures
        r is Some <==> is_decimal(s@) && dec_value(mantissa_digits(s@)) <= u64::MAX,
        r matches Some(p) ==> p.0 as nat == dec_value(mantissa_digits(s@)) && p.1 as nat
            == dec_scale(s@),
{
    let n = s.unicode_len();
    let dot = find_char(s, '.', 0);
    proof {
        lemma_first_ch_bounds(s@, '.');
    }
    let ghost md = mantissa_digits(s@);
    let md_len = if dot == n { n } else { n - 1 };
    proof {
        assert(md.len() == md_len);
    }
    if md_len == 0 {
        return None;
    }
    let mut acc: u64 = 0;
    let mut i: usize = 0;
    while i < dot
        invariant
            0 <= i <= dot <= n,
            n == s@.len(),
            dot == first_ch(s@, '.'),
            md == mantissa_digits(s@),
            forall|j: int| 0 <= j < dot ==> md[j] == s@[j],
            all_digits(md.take(i as int)),
            acc as nat == dec_value(md.take(i as int)),
        decreases dot - i,
    {
        let c = s.get_char(i);
        let cv = c as u32;
        if cv < '0' as u32 || cv > '9' as u32 {
            assert(!is_digit(md[i as int]));
            return None;
        }
        let d = (cv - '0' as u32) as u64;
        proof {
            assert(md.take(i + 1).drop_last() =~= md.take(i as int));
            assert(md.take(i + 1).last() == md[i as int]);
        }
        if acc > (u64::MAX - d) / 10 {
            proof {
                assert(dec_value(md.take(i + 1)) > u64::MAX);
                lemma_dec_value_prefix(md, i + 1);
            }
            return None;
        }
        acc = acc * 10 + d;
        i += 1;
    }
    if dot < n {
        let mut i: usize = dot + 1;
        while i < n
            invariant
                dot < i <= n,
                n == s@.len(),
                dot == first_ch(s@, '.'),
                dot < n,
                md == mantissa_digits(s@),
                forall|j: int| dot < j < n ==> md[j - 1] == s@[j],
                all_digits(md.take(i - 1)),
                acc as nat == dec_value(md.take(i - 1)),
            decreases n - i,
        {
            let c = s.get_char(i);
            let cv = c as u32;
            if cv < '0' as u32 || cv > '9' as u32 {
                assert(!is_digit(md[i - 1]));
                return None;
            }
            let d = (cv - '0' as u32) as u64;
            proof {
                assert(md.take(i as int).drop_last() =~= md.take(i - 1));
                assert(md.take(i as int).last() == md[i - 1]);
            }
            if acc > (u64::MAX - d) / 10 {
                proof {
                    assert(dec_value(md.take(i as int)) > u64::MAX);
                    lemma_dec_value_prefix(md, i as int);
                }
                return None;
            }
            acc = acc * 10 + d;
            i += 1;
        }
        proof {
            assert(md.take(n - 1) =~= md);
        }
        Some((acc, n - dot - 1))
    } else {
        proof {
            assert(md.take(n as int) =~= md);
        }
        Some((acc, 0))
    }
}

/// Trailing zero characters removed.
pub open spec fn strip_zeros(s: Seq<char>) -> Seq<char>
    decreases s.len(),
{
    if s.len() > 0 && s.last() == '0' {
        strip_zeros(s.drop_last())
    } else {
        s
    }
}

/// A run of zero characters.
pub open spec fn zeros(k: nat) -> Seq<char> {
    Seq::new(k, |i: int| '0')
}

/// The plain decimal rendering of value / 10^scale: the digit string with a
/// dot inserted `scale` places from the right, padded with zeros where the
/// string is short, trailing fraction zeros and an empty fraction dropped.
pub open spec fn fixed_seq(n: nat, k: nat) -> Seq<char> {
    let digits = dec_seq(n);
    if k == 0 {
        digits
    } else {
        let whole = if digits.len() > k {
            digits.take(digits.len() - k)
        } else {
            seq!['0']
        };
        let frac_raw = if digits.len() >= k {
            digits.skip(digits.len() - k)
        } else {
            zeros((k - digits.len()) as nat) + digits
        };
        let frac = strip_zeros(frac_raw);
        if frac.len() == 0 {
            whole
        } else {
            whole + seq!['.'] + frac
        }
    }
}

fn strip_trailing_zeros(s: &str) -> (r: String)
    ensures
        r@ == strip_zeros(s@),
    decreases s@.len(),
{
    let n = s.unicode_len();
    if n == 0 {
        return s.to_owned();
    }
    if s.get_char(n - 1) == '0' {
        let head = s.substring_char(0, n - 1);
        proof {
            assert(head@ =~= s@.drop_last());
        }
        strip_trailing_zeros(head)
    } else {
        s.to_owned()
    }
}

/// Renders value / 10^scale as a plain decimal string (never exponential
/// notation).
pub fn format_fixed(n: u128, k: usize) -> (s: String)
    ensures
        s@ == fixed_seq(n as nat, k as nat),
{
    let digits = format_u128(n);
    if k == 0 {
        return digits;
    }
    let len = digits.unicode_len();
    let whole: String = if len > k {
        digits.as_str().substring_char(0, len - k).to_owned()
    } else {
        proof {
            reveal_strlit("0");
        }
        let z = "0".to_owned();
        proof {
            assert(z@ =~= seq!['0']);
        }
        z
    };
    proof {
        if len > k {
            assert(whole@ =~= dec_seq(n as nat).take(dec_seq(n as nat).len() - k as nat));
        }
    }
    let frac_raw: String = if len >= k {
        let f = digits.as_str().substring_char(len - k, len).to_owned();
        proof {
            assert(f@ =~= dec_seq(n as nat).skip(dec_seq(n as nat).len() - k as nat));
        }
        f
    } else {
        let mut f = String::new();
        let pad = k - len;
        let mut i: usize = 0;
        while i < pad
            invariant
                0 <= i <= pad,
                f@ == zeros(i as nat),
            decreases pad - i,
        {
            proof {
                reveal_strlit("0");
            }
            f.append("0");
            proof {
                assert(f@ =~= zeros((i + 1) as nat));
            }
            i += 1;
        }
        f.append(digits.as_str());
        proof {
            assert(f@ =~= zeros((k - len) as nat) + dec_seq(n as nat));
        }
        f
    };
    let frac = strip_trailing_zeros(frac_raw.as_str());
    if frac.unicode_len() == 0 {
        whole
    } else {
        let mut out = whole;
        proof {
            reveal_strlit(".");
        }
        out.append(".");
        out.append(frac.as_str());
        proof {
            assert(out@ =~= fixed_seq(n as nat, k as nat));
        }
        out
    }
}

/// The rendering of a signed value held in hundredths, with exactly two
/// digits after the dot.
pub open spec fn centi_mag_seq(m: nat) -> Seq<char> {
    dec_seq(m / 100) + seq!['.', digit_char((m % 100) / 10), digit_char(m % 10)]
}

/// The rendering of a signed hundredths value, a minus sign leading where it
/// is negative.
pub open spec fn centi_seq(v: int) -> Seq<char> {
    if v < 0 {
        seq!['-'] + centi_mag_seq((-v) as nat)
    } else {
        centi_mag_seq(v as nat)
    }
}

/// Renders a value held in hundredths with exactly two decimal places.
pub fn format_centi(v: i64) -> (s: String)
    ensures
        s@ == centi_seq(v as int),
{
    let mag: u64 = if v >= 0 {
        v as u64
    } else {
        (-(v as i128)) as u64
    };
    let mut out: String = if v >= 0 {
        String::new()
    } else {
        proof {
            reveal_strlit("-");
        }
        let m = "-".to_owned();
        proof {
            assert(m@ =~= seq!['-']);
        }
        m
    };
    let whole = format_u64(mag / 100);
    out.append(whole.as_str());
    proof {
        reveal_strlit(".");
    }
    out.append(".");
    out.append(digit_str((mag % 100) / 10));
    out.append(digit_str(mag % 10));
    proof {
        assert((mag % 100) % 10 == mag % 10);
        assert(out@ =~= centi_seq(v as int));
    }
    out
}

/// Whether two strings hold the same characters.
pub fn str_eq(a: &str, b: &str) -> (r: bool)
    ensures
        r == (a@ == b@),
{
    let na = a.unicode_len();
    let nb = b.unicode_len();
    if na != nb {
        return false;
    }
    let mut i: usize = 0;
    while i < na
        invariant
            0 <= i <= na,
            na == a@.len() == nb == b@.len(),
            forall|j: int| 0 <= j < i ==> a@[j] == b@[j],
        decreases na - i,
    {
        if a.get_char(i) != b.get_char(i) {
            return false;
        }
        i += 1;
    }
    proof {
        assert(a@ =~= b@);
    }
    true
}

} // verus!
