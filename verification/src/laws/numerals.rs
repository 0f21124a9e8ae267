//! What decimal numerals say, written and read.

use vstd::prelude::*;

use crate::text;
use crate::text::{append_decimal, append_signed, parse_unsigned, prefixed, same_text};

verus! {

/// The number that digits spell.
pub open spec fn value(digits: Seq<char>) -> int {
    digits.fold_left(0int, |n: int, digit: char| 10 * n + (digit as int - 48))
}

/// Whether all of these are digits, and there are any.
pub open spec fn all_digits(s: Seq<char>) -> bool {
    &&& s.len() > 0
    &&& forall|i: int| 0 <= i < s.len() ==> 48 <= (#[trigger] s[i]) as int <= 57
}

/// Whether `s` is the numeral of `n`: it spells that number, in digits, and without zeros in
/// front.
pub open spec fn numeral(s: Seq<char>, n: int) -> bool {
    &&& all_digits(s)
    &&& value(s) == n
    &&& s.len() > 1 ==> s[0] as int != 48
}

/// Writing a number appends its numeral.
pub proof fn law_a_number_is_written_as_its_numeral(out: &mut String, n: u64)
    requires
        call_ensures(append_decimal, (out, n), ()),
    ensures
        old(out)@.is_prefix_of(final(out)@),
        numeral(final(out)@.skip(old(out)@.len() as int), n as int),
{
    lemma_decimal(n as nat);
    assert(final(out)@.skip(old(out)@.len() as int) =~= text::decimal(n as nat));
}

/// Writing a signed number appends a minus sign where it is negative, and the numeral of its
/// magnitude.
pub proof fn law_a_signed_number_is_written_with_its_sign(out: &mut String, n: i8)
    requires
        call_ensures(append_signed, (out, n), ()),
    ensures
        old(out)@.is_prefix_of(final(out)@),
        ({
            let written = final(out)@.skip(old(out)@.len() as int);
            if n < 0 {
                written.len() > 0 && written[0] == '-' && numeral(written.skip(1), -n)
            } else {
                numeral(written, n as int)
            }
        }),
{
    let magnitude = if n < 0 {
        -n
    } else {
        n as int
    };
    lemma_decimal(magnitude as nat);
    let written = final(out)@.skip(old(out)@.len() as int);
    assert(written =~= text::signed_decimal(n as int));
    if n < 0 {
        assert(written.skip(1) =~= text::decimal(magnitude as nat));
    }
}

/// A text is read as a number exactly where it is digits, behind a plus sign or none, and the
/// number that they spell is no larger than allowed.
pub proof fn law_digits_are_read_as_what_they_spell(text: &str, max: u64, read: Option<u64>)
    requires
        call_ensures(parse_unsigned, (text, max), read),
    ensures
        ({
            let digits = if text@.len() > 0 && text@[0] == '+' {
                text@.skip(1)
            } else {
                text@
            };
            &&& read is Some <==> all_digits(digits) && value(digits) <= max
            &&& read matches Some(n) ==> n == value(digits)
        }),
{
    lemma_unsigned(text@);
}

/// What was written is read back.
pub proof fn law_a_written_number_is_read_back(n: u64, max: u64, text: &str, read: Option<u64>)
    requires
        text@ == text::decimal(n as nat),
        n <= max,
        call_ensures(parse_unsigned, (text, max), read),
    ensures
        read == Some(n),
{
    lemma_decimal(n as nat);
    lemma_unsigned(text@);
    assert(text@[0] as int <= 57 && 48 <= text@[0] as int);
    assert(text@[0] != '+');
}

/// A number has one numeral.
pub proof fn law_a_number_has_one_numeral(a: Seq<char>, b: Seq<char>, n: int)
    requires
        numeral(a, n),
        numeral(b, n),
    ensures
        a == b,
    decreases a.len(),
{
    lemma_value_step(a);
    lemma_value_step(b);
    let p = a.drop_last();
    let q = b.drop_last();
    assert(48 <= a.last() as int <= 57) by {
        assert(a.last() == a[a.len() - 1]);
    }
    assert(48 <= b.last() as int <= 57) by {
        assert(b.last() == b[b.len() - 1]);
    }
    lemma_value_positive(p);
    lemma_value_positive(q);
    assert(value(p) == value(q) && a.last() == b.last());
    if p.len() > 0 && q.len() > 0 {
        assert(numeral(p, value(p))) by {
            assert forall|i: int| 0 <= i < p.len() implies 48 <= (
            #[trigger] p[i]) as int <= 57 by {
                assert(p[i] == a[i]);
            }
            assert(p[0] == a[0]);
        }
        assert(numeral(q, value(p))) by {
            assert forall|i: int| 0 <= i < q.len() implies 48 <= (
            #[trigger] q[i]) as int <= 57 by {
                assert(q[i] == b[i]);
            }
            assert(q[0] == b[0]);
        }
        law_a_number_has_one_numeral(p, q, value(p));
    } else {
        if p.len() > 0 {
            lemma_leading(a);
            assert(value(q) == 0) by {
                reveal(Seq::fold_left);
            }
        }
        if q.len() > 0 {
            lemma_leading(b);
            assert(value(p) == 0) by {
                reveal(Seq::fold_left);
            }
        }
        assert(p =~= q);
    }
    assert(a =~= p.push(a.last()));
    assert(b =~= q.push(b.last()));
}

/// Two texts are the same exactly where their characters are, and a prefix goes in front.
pub proof fn law_texts_are_their_characters(
    a: &str,
    b: &str,
    same: bool,
    joined: String,
)
    requires
        call_ensures(same_text, (a, b), same),
        call_ensures(prefixed, (a, b), joined),
    ensures
        same <==> a@ == b@,
        joined@ == a@ + b@,
{
}

/// One more digit makes ten times as much and the digit.
proof fn lemma_value_step(s: Seq<char>)
    requires
        s.len() > 0,
    ensures
        value(s) == 10 * value(s.drop_last()) + (s.last() as int - 48),
{
    reveal(Seq::fold_left);
}

/// Digits spell a number that is not negative.
proof fn lemma_value_positive(s: Seq<char>)
    ensures
        (forall|i: int| 0 <= i < s.len() ==> 48 <= (#[trigger] s[i]) as int <= 57) ==> value(s)
            >= 0,
    decreases s.len(),
{
    reveal(Seq::fold_left);
    if s.len() > 0 && (forall|i: int|
        0 <= i < s.len() ==> 48 <= (#[trigger] s[i]) as int <= 57) {
        let p = s.drop_last();
        assert forall|i: int| 0 <= i < p.len() implies 48 <= (#[trigger] p[i]) as int <= 57 by {
            assert(p[i] == s[i]);
        }
        lemma_value_positive(p);
        lemma_value_step(s);
        assert(s.last() == s[s.len() - 1]);
    }
}

/// A numeral of more than one digit spells a number, without its last digit, that is not zero.
proof fn lemma_leading(s: Seq<char>)
    requires
        all_digits(s),
        s.len() > 1,
        s[0] as int != 48,
    ensures
        value(s.drop_last()) > 0,
    decreases s.len(),
{
    reveal_with_fuel(Seq::fold_left, 2);
    let p = s.drop_last();
    assert forall|i: int| 0 <= i < p.len() implies 48 <= (#[trigger] p[i]) as int <= 57 by {
        assert(p[i] == s[i]);
    }
    lemma_value_step(p);
    assert(p[0] == s[0]);
    if p.len() > 1 {
        lemma_leading(p);
        assert(p.last() == p[p.len() - 1]);
    } else {
        assert(p.drop_last() =~= Seq::empty());
        assert(p.last() == s[0]);
        assert(48 <= s[0] as int);
    }
}

/// What is written is a numeral.
proof fn lemma_decimal(n: nat)
    ensures
        numeral(text::decimal(n), n as int),
        n > 0 ==> text::decimal(n)[0] as int != 48,
    decreases n,
{
    reveal_with_fuel(Seq::fold_left, 2);
    let s = text::decimal(n);
    if n < 10 {
        assert(s.drop_last() =~= Seq::empty());
        lemma_value_step(s);
        assert(s[0] as int == 48 + n);
    } else {
        let p = text::decimal(n / 10);
        lemma_decimal(n / 10);
        assert(s.drop_last() =~= p);
        lemma_value_step(s);
        assert(s.last() as int == 48 + n % 10);
        assert forall|i: int| 0 <= i < s.len() implies 48 <= (#[trigger] s[i]) as int <= 57 by {
            if i < p.len() {
                assert(s[i] == p[i]);
            }
        }
        assert(s[0] == p[0]);
    }
}

/// What is read is what digits spell.
pub(crate) proof fn lemma_unsigned(s: Seq<char>)
    ensures
        ({
            let digits = if s.len() > 0 && s[0] == '+' {
                s.skip(1)
            } else {
                s
            };
            match text::unsigned_numeral(s) {
                Some(n) => all_digits(digits) && n == value(digits),
                None => !all_digits(digits),
            }
        }),
{
    let digits = text::unsigned_digits(s);
    if all_digits(digits) {
        assert forall|i: int| 0 <= i < digits.len() implies text::is_digit(
            #[trigger] digits[i],
        ) by {
            assert(48 <= digits[i] as int <= 57);
        }
        lemma_digits_value(digits);
    }
    if text::unsigned_numeral(s) is Some {
        assert forall|i: int| 0 <= i < digits.len() implies 48 <= (
        #[trigger] digits[i]) as int <= 57 by {
            assert(text::is_digit(digits[i]));
        }
    }
}

/// The number that digits spell, however it is put together.
proof fn lemma_digits_value(s: Seq<char>)
    requires
        forall|i: int| 0 <= i < s.len() ==> 48 <= (#[trigger] s[i]) as int <= 57,
    ensures
        text::digits_value(s) == value(s),
    decreases s.len(),
{
    reveal(Seq::fold_left);
    if s.len() > 0 {
        let p = s.drop_last();
        assert forall|i: int| 0 <= i < p.len() implies 48 <= (#[trigger] p[i]) as int <= 57 by {
            assert(p[i] == s[i]);
        }
        lemma_digits_value(p);
        lemma_value_step(s);
        assert(s.last() == s[s.len() - 1]);
    }
}

} // verus!
