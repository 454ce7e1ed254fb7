//! JSON text: decimal numbers, string literals through serde_json, and lists.
use vstd::prelude::*;

verus! {

#[verifier::external_type_specification]
#[verifier::external_body]
pub struct ExJsonError(serde_json::Error);

/// The JSON string literal that serde_json writes for a string, or `None`
/// where it fails to write one.
pub uninterp spec fn json_quoted(s: Seq<char>) -> Option<Seq<char>>;

/// A character that a JSON string literal holds as it is, unescaped.
pub open spec fn plain_char(c: char) -> bool {
    c != '"' && c != '\\' && c as u32 >= 0x20
}

/// A string whose characters all stand unescaped in a JSON string literal.
pub open spec fn plain(s: Seq<char>) -> bool {
    forall|i: int| 0 <= i < s.len() ==> plain_char(#[trigger] s[i])
}

/// The string between a pair of double quotes.
pub open spec fn in_quotes(s: Seq<char>) -> Seq<char> {
    seq!['"'] + s + seq!['"']
}

/// A string with no character to escape is quoted as it is.
pub open spec fn quotes_known(s: Seq<char>) -> bool {
    plain(s) ==> json_quoted(s) == Some(in_quotes(s))
}

/// Relies on serde_json::to_string on a `str`: a quoted JSON string literal,
/// which escapes control characters, `"` and `\` and keeps every other
/// character as it is.
#[verifier::external_body]
fn quote_string(s: &str) -> (r: Result<String, serde_json::Error>)
    ensures
        match r {
            Ok(t) => json_quoted(s@) == Some(t@),
            Err(_) => json_quoted(s@) is None,
        },
        plain(s@) ==> r is Ok && r->Ok_0@ == in_quotes(s@),
{
    serde_json::to_string(s)
}

/// Appends the JSON string literal of `s` to `out`; `false`, with `out`
/// unchanged, where serde_json writes none.
pub fn push_quoted(out: &mut String, s: &str) -> (ok: bool)
    ensures
        ok == json_quoted(s@) is Some,
        ok ==> final(out)@ == old(out)@ + json_quoted(s@)->Some_0,
        !ok ==> final(out)@ == old(out)@,
        plain(s@) ==> ok,
        quotes_known(s@),
{
    match quote_string(s) {
        Ok(t) => {
            out.append(t.as_str());
            true
        },
        Err(_) => false,
    }
}

/// The string that serde_json reads from a JSON string literal, or `None`
/// where the text is not one.
pub uninterp spec fn json_unquoted(s: Seq<char>) -> Option<Seq<char>>;

/// Relies on serde_json::from_str into a `String`: reads one JSON string
/// literal and nothing after it; between its quotes, a character other than
/// a control character, `"` or `\` stands for itself.
#[verifier::external_body]
fn unquote_string(s: &str) -> (r: Result<String, serde_json::Error>)
    ensures
        match r {
            Ok(t) => json_unquoted(s@) == Some(t@),
            Err(_) => json_unquoted(s@) is None,
        },
        forall|m: Seq<char>| plain(m) && s@ == in_quotes(m) ==> r is Ok && r->Ok_0@ == m,
{
    serde_json::from_str::<String>(s)
}

/// The string that the JSON string literal `s` stands for; `None` where `s`
/// is not one.
pub fn read_quoted(s: &str) -> (r: Option<String>)
    ensures
        match r {
            Some(t) => json_unquoted(s@) == Some(t@),
            None => json_unquoted(s@) is None,
        },
        forall|m: Seq<char>| plain(m) && s@ == in_quotes(m) ==> r is Some && r->Some_0@ == m,
{
    match unquote_string(s) {
        Ok(t) => Some(t),
        Err(_) => None,
    }
}

/// The character of a decimal digit.
pub open spec fn digit_char(d: nat) -> char {
    if d == 0 { '0' }
    else if d == 1 { '1' }
    else if d == 2 { '2' }
    else if d == 3 { '3' }
    else if d == 4 { '4' }
    else if d == 5 { '5' }
    else if d == 6 { '6' }
    else if d == 7 { '7' }
    else if d == 8 { '8' }
    else { '9' }
}

/// The decimal digits of `n`, most significant first, without leading zeros.
pub open spec fn decimal(n: nat) -> Seq<char>
    decreases n,
{
    if n < 10 {
        seq![digit_char(n)]
    } else {
        decimal(n / 10).push(digit_char(n % 10))
    }
}

fn digit_str(d: u64) -> (s: &'static str)
    requires
        d < 10,
    ensures
        s@ == seq![digit_char(d as nat)],
{
    if d == 0 {
        proof { reveal_strlit("0"); }
        "0"
    } else if d == 1 {
        proof { reveal_strlit("1"); }
        "1"
    } else if d == 2 {
        proof { reveal_strlit("2"); }
        "2"
    } else if d == 3 {
        proof { reveal_strlit("3"); }
        "3"
    } else if d == 4 {
        proof { reveal_strlit("4"); }
        "4"
    } else if d == 5 {
        proof { reveal_strlit("5"); }
        "5"
    } else if d == 6 {
        proof { reveal_strlit("6"); }
        "6"
    } else if d == 7 {
        proof { reveal_strlit("7"); }
        "7"
    } else if d == 8 {
        proof { reveal_strlit("8"); }
        "8"
    } else {
        proof { reveal_strlit("9"); }
        "9"
    }
}

/// Appends the decimal digits of `n` to `out`.
pub fn push_decimal(out: &mut String, n: u64)
    ensures
        final(out)@ == old(out)@ + decimal(n as nat),
    decreases n,
{
    if n >= 10 {
        push_decimal(out, n / 10);
    }
    out.append(digit_str(n % 10));
    assert(out@ =~= old(out)@ + decimal(n as nat));
}


pub open spec fn is_digit(c: char) -> bool {
    '0' <= c && c <= '9'
}

pub open spec fn digit_value(c: char) -> nat {
    (c as u32 - '0' as u32) as nat
}

/// The number that a string of decimal digits stands for.
pub open spec fn digits_value(s: Seq<char>) -> nat
    decreases s.len(),
{
    if s.len() == 0 {
        0
    } else {
        digits_value(s.drop_last()) * 10 + digit_value(s.last())
    }
}

pub open spec fn all_digits(s: Seq<char>) -> bool {
    forall|i: int| 0 <= i < s.len() ==> is_digit(#[trigger] s[i])
}

/// Reading back the digits of a number gives the number.
pub proof fn lemma_decimal_digits(n: nat)
    ensures
        decimal(n).len() > 0,
        all_digits(decimal(n)),
        digits_value(decimal(n)) == n,
    decreases n,
{
    lemma_digit_char(n % 10);
    let d = decimal(n);
    if n >= 10 {
        lemma_decimal_digits(n / 10);
        assert(d.drop_last() =~= decimal(n / 10));
        assert(d.last() == digit_char(n % 10));
        assert(digits_value(d) == digits_value(decimal(n / 10)) * 10 + n % 10);
        assert(n == (n / 10) * 10 + n % 10);
        assert forall|i: int| 0 <= i < d.len() implies is_digit(#[trigger] d[i]) by {
            if i < d.len() - 1 {
                assert(d[i] == decimal(n / 10)[i]);
            }
        }
    } else {
        assert(n % 10 == n);
        assert(d =~= seq![digit_char(n)]);
        assert(is_digit(d[0]));
        assert(d.drop_last() =~= Seq::<char>::empty());
        assert(digits_value(d.drop_last()) == 0);
        assert(d.last() == digit_char(n));
    }
}

proof fn lemma_digit_char(d: nat)
    requires
        d < 10,
    ensures
        is_digit(digit_char(d)),
        digit_value(digit_char(d)) == d,
{
}

/// Digits added at the end never make the number smaller.
pub proof fn lemma_digits_prefix(s: Seq<char>, k: int)
    requires
        0 <= k <= s.len(),
    ensures
        digits_value(s.take(k)) <= digits_value(s),
    decreases s.len(),
{
    if k < s.len() {
        assert(s.drop_last().take(k) =~= s.take(k));
        lemma_digits_prefix(s.drop_last(), k);
    } else {
        assert(s.take(k) =~= s);
    }
}

} // verus!
