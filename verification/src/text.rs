//! Decimal numbers in text: rendering them into messages and reading them from
//! settings.

use vstd::prelude::*;
use vstd::string::*;

verus! {

/// The character of one decimal digit.
pub open spec fn digit_char(d: nat) -> char
    recommends
        d < 10,
{
    (('0' as nat) + d) as char
}

/// The decimal numeral of `n`, without leading zeros.
pub open spec fn decimal(n: nat) -> Seq<char>
    decreases n,
{
    if n < 10 {
        seq![digit_char(n)]
    } else {
        decimal(n / 10).push(digit_char(n % 10))
    }
}

/// The decimal numeral of a signed number: a minus sign in front of the
/// numeral of its absolute value where it is negative.
pub open spec fn signed_decimal(n: int) -> Seq<char> {
    if n < 0 {
        seq!['-'] + decimal((-n) as nat)
    } else {
        decimal(n as nat)
    }
}

/// Whether `c` is one of the ten ASCII digits.
pub open spec fn is_digit(c: char) -> bool {
    '0' <= c && c <= '9'
}

/// The number that a sequence of digits spells, most significant digit first.
pub open spec fn digits_value(s: Seq<char>) -> nat
    decreases s.len(),
{
    if s.len() == 0 {
        0
    } else {
        (digits_value(s.drop_last()) * 10 + (s.last() as nat - '0' as nat)) as nat
    }
}

/// The digits of an unsigned numeral: the text without one leading plus sign.
pub open spec fn unsigned_digits(s: Seq<char>) -> Seq<char> {
    if s.len() > 0 && s[0] == '+' {
        s.skip(1)
    } else {
        s
    }
}

/// The unsigned number that a text denotes: an optional plus sign followed by
/// one or more ASCII digits, and nothing else. `None` for any other text.
pub open spec fn unsigned_numeral(s: Seq<char>) -> Option<nat> {
    let digits = unsigned_digits(s);
    if digits.len() > 0 && (forall|i: int| 0 <= i < digits.len() ==> is_digit(#[trigger] digits[i])) {
        Some(digits_value(digits))
    } else {
        None
    }
}

/// A text read as an unsigned number that is at most `max`.
pub open spec fn unsigned_at_most(s: Seq<char>, max: nat) -> Option<nat> {
    match unsigned_numeral(s) {
        Some(value) => if value <= max {
            Some(value)
        } else {
            None
        },
        None => None,
    }
}

/// A prefix of a sequence of digits spells a number no greater than the whole.
proof fn lemma_prefix_value(s: Seq<char>, i: int)
    requires
        0 <= i <= s.len(),
        forall|k: int| 0 <= k < s.len() ==> is_digit(#[trigger] s[k]),
    ensures
        digits_value(s.take(i)) <= digits_value(s),
    decreases s.len() - i,
{
    if i == s.len() {
        assert(s.take(i) =~= s);
    } else {
        lemma_prefix_value(s, i + 1);
        let longer = s.take(i + 1);
        assert(longer.drop_last() =~= s.take(i));
        assert(is_digit(s[i]));
        assert(longer.last() == s[i]);
    }
}

/// The text of one digit.
fn digit_text(d: u64) -> (text: &'static str)
    requires
        d < 10,
    ensures
        text@ == seq![digit_char(d as nat)],
{
    proof {
        reveal_strlit("0");
        reveal_strlit("1");
        reveal_strlit("2");
        reveal_strlit("3");
        reveal_strlit("4");
        reveal_strlit("5");
        reveal_strlit("6");
        reveal_strlit("7");
        reveal_strlit("8");
        reveal_strlit("9");
    }
    let text = match d {
        0 => "0",
        1 => "1",
        2 => "2",
        3 => "3",
        4 => "4",
        5 => "5",
        6 => "6",
        7 => "7",
        8 => "8",
        _ => "9",
    };
    assert(text@ =~= seq![digit_char(d as nat)]);
    text
}

/// Appends the decimal numeral of `n` to `out`.
pub fn append_decimal(out: &mut String, n: u64)
    ensures
        final(out)@ == old(out)@ + decimal(n as nat),
    decreases n,
{
    if n >= 10 {
        append_decimal(out, n / 10);
    }
    let ghost before = out@;
    out.append(digit_text(n % 10));
    proof {
        let d = digit_char((n % 10) as nat);
        if n >= 10 {
            assert(before + seq![d] =~= old(out)@ + decimal((n / 10) as nat).push(d));
        } else {
            assert(before == old(out)@);
        }
    }
}

/// Appends the decimal numeral of a signed byte to `out`.
pub fn append_signed(out: &mut String, n: i8)
    ensures
        final(out)@ == old(out)@ + signed_decimal(n as int),
{
    if n < 0 {
        proof {
            reveal_strlit("-");
        }
        let magnitude: u64 = (-(n as i64)) as u64;
        out.append("-");
        append_decimal(out, magnitude);
        assert(out@ =~= old(out)@ + signed_decimal(n as int));
    } else {
        append_decimal(out, n as u64);
    }
}

/// Reads `text` as an unsigned decimal number that is at most `max`.
pub fn parse_unsigned(text: &str, max: u64) -> (value: Option<u64>)
    ensures
        match value {
            Some(v) => unsigned_at_most(text@, max as nat) == Some(v as nat),
            None => unsigned_at_most(text@, max as nat) is None,
        },
{
    let len: usize = text.unicode_len();
    let start: usize = if len > 0 && text.get_char(0) == '+' {
        1
    } else {
        0
    };
    let ghost digits = unsigned_digits(text@);
    assert(digits =~= text@.skip(start as int));
    if start == len {
        return None;
    }
    let mut acc: u64 = 0;
    let mut i: usize = start;
    while i < len
        invariant
            start <= i <= len,
            len == text@.len(),
            digits == text@.skip(start as int),
            digits == unsigned_digits(text@),
            forall|k: int| 0 <= k < i - start ==> is_digit(#[trigger] digits[k]),
            acc == digits_value(digits.take(i - start)),
            acc <= max,
        decreases len - i,
    {
        let c = text.get_char(i);
        let ghost at = i - start;
        assert(digits[at] == c);
        if c < '0' || c > '9' {
            assert(!is_digit(digits[at]));
            return None;
        }
        let d: u64 = (c as u32 - '0' as u32) as u64;
        assert(digits.take(at + 1).drop_last() =~= digits.take(at));
        assert(digits_value(digits.take(at + 1)) == acc * 10 + d);
        if d > max || acc > (max - d) / 10 {
            proof {
                assert(acc * 10 + d > max);
                if forall|k: int| 0 <= k < digits.len() ==> is_digit(#[trigger] digits[k]) {
                    lemma_prefix_value(digits, at + 1);
                }
            }
            return None;
        }
        acc = acc * 10 + d;
        i = i + 1;
    }
    assert(digits.take(len - start) =~= digits);
    assert forall|k: int| 0 <= k < digits.len() implies is_digit(#[trigger] digits[k]) by {}
    Some(acc)
}

/// Whether two texts are the same.
pub fn same_text(a: &str, b: &str) -> (same: bool)
    ensures
        same == (a@ == b@),
{
    let len: usize = a.unicode_len();
    if len != b.unicode_len() {
        return false;
    }
    let mut i: usize = 0;
    while i < len
        invariant
            i <= len,
            len == a@.len(),
            len == b@.len(),
            forall|k: int| 0 <= k < i ==> #[trigger] a@[k] == b@[k],
        decreases len - i,
    {
        if a.get_char(i) != b.get_char(i) {
            assert(a@[i as int] != b@[i as int]);
            return false;
        }
        i = i + 1;
    }
    assert(a@ =~= b@);
    true
}

/// A text in quotation marks with its special characters escaped, as `str`'s
/// `Debug` writes it.
pub uninterp spec fn debug_quoted(text: Seq<char>) -> Seq<char>;

/// Calls `<str as Debug>::fmt` through `format!`. The contract names the result:
/// it is a function of the text alone.
#[verifier::external_body]
pub(crate) fn quote(text: &str) -> (quoted: String)
    ensures
        quoted@ == debug_quoted(text@),
{
    format!("{:?}", text)
}

/// What a setting of the process environment says.
pub enum SettingView {
    Unset,
    NotUnicode,
    Text(Seq<char>),
}

/// A setting of the process environment: absent, not valid Unicode, or a text.
#[derive(Clone, Copy, Debug)]
pub enum RawSetting<'a> {
    Unset,
    NotUnicode,
    Text(&'a str),
}

impl<'a> View for RawSetting<'a> {
    type V = SettingView;

    open spec fn view(&self) -> SettingView {
        match self {
            RawSetting::Unset => SettingView::Unset,
            RawSetting::NotUnicode => SettingView::NotUnicode,
            RawSetting::Text(text) => SettingView::Text(text@),
        }
    }
}

/// A setting of the process environment that owns its text.
#[derive(Debug)]
pub enum Setting {
    Unset,
    NotUnicode,
    Text(String),
}

impl View for Setting {
    type V = SettingView;

    open spec fn view(&self) -> SettingView {
        match self {
            Setting::Unset => SettingView::Unset,
            Setting::NotUnicode => SettingView::NotUnicode,
            Setting::Text(text) => SettingView::Text(text@),
        }
    }
}

impl Setting {
    /// The setting, borrowed.
    pub fn as_raw(&self) -> (raw: RawSetting<'_>)
        ensures
            raw@ == self@,
    {
        match self {
            Setting::Unset => RawSetting::Unset,
            Setting::NotUnicode => RawSetting::NotUnicode,
            Setting::Text(text) => RawSetting::Text(text.as_str()),
        }
    }
}

/// The view of an outcome whose error is a message.
pub open spec fn outcome_view<T>(outcome: Result<T, String>) -> Result<T, Seq<char>> {
    match outcome {
        Ok(value) => Ok(value),
        Err(message) => Err(message@),
    }
}

/// `prefix`, then `text`.
pub fn prefixed(prefix: &str, text: &str) -> (joined: String)
    ensures
        joined@ == prefix@ + text@,
{
    let mut joined = prefix.to_owned();
    joined.append(text);
    joined
}

} // verus!
