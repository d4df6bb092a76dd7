//! What numbers, parts, prefixes and the order of texts are.

use vstd::prelude::*;

verus! {

/// A number below ten is its digit.
pub proof fn law_decimal_digit(n: nat)
    requires
        n < 10,
    ensures
        crate::text::decimal(n).len() == 1,
        crate::text::decimal(n)[0] as int == '0' as int + n,
{
}

/// Ten times a number and one digit more is written as the number with that digit
/// behind it.
pub proof fn law_decimal_step(front: nat, digit: nat)
    requires
        front > 0,
        digit < 10,
    ensures
        ({
            let text = crate::text::decimal(10 * front + digit);
            &&& text.len() == crate::text::decimal(front).len() + 1
            &&& text.drop_last() == crate::text::decimal(front)
            &&& text.last() as int == '0' as int + digit
        }),
{
    let n = 10 * front + digit;
    assert(n / 10 == front);
    assert(n % 10 == digit);
    assert(crate::text::decimal(n).drop_last() =~= crate::text::decimal(front));
}

/// A negative number is a minus sign and the number without its sign.
pub proof fn law_signed_decimal(n: nat)
    ensures
        crate::text::signed_decimal(n as int) == crate::text::decimal(n),
        n > 0 ==> crate::text::signed_decimal(-(n as int)) == seq!['-'] + crate::text::decimal(n),
{
}

/// Filling up puts zeros in front of the number, no more than needed for the width.
pub proof fn law_zero_padded(n: nat, width: nat)
    ensures
        ({
            let padded = crate::text::zero_padded(n, width);
            let digits = crate::text::decimal(n);
            let zeros = padded.len() - digits.len();
            &&& padded.len() == if digits.len() < width {
                width
            } else {
                digits.len()
            }
            &&& padded.skip(zeros) == digits
            &&& forall|i: int| 0 <= i < zeros ==> #[trigger] padded[i] == '0'
        }),
{
    let padded = crate::text::zero_padded(n, width);
    let digits = crate::text::decimal(n);
    assert(padded.skip(padded.len() - digits.len()) =~= digits);
}

/// What is in front of a character begins the text, does not hold the character,
/// and ends at it or at the end of the text.
pub proof fn law_before(s: Seq<char>, c: char)
    ensures
        ({
            let part = crate::text::before(s, c);
            &&& part.len() <= s.len()
            &&& part == s.take(part.len() as int)
            &&& forall|i: int| 0 <= i < part.len() ==> #[trigger] part[i] != c
            &&& part.len() == s.len() || s[part.len() as int] == c
        }),
{
    crate::text::lemma_find(s, c);
}

/// There is at least one part, and no part holds the separator.
pub proof fn law_split_parts(s: Seq<char>, separator: char)
    ensures
        crate::text::split(s, separator).len() > 0,
        forall|i: int, j: int|
            0 <= i < crate::text::split(s, separator).len() && 0 <= j < crate::text::split(
                s,
                separator,
            )[i].len() ==> #[trigger] crate::text::split(s, separator)[i][j] != separator,
    decreases s.len(),
{
    crate::text::lemma_find(s, separator);
    let end = crate::text::find(s, separator);
    if end < s.len() {
        let rest = s.skip(end + 1);
        law_split_parts(rest, separator);
        let parts = crate::text::split(s, separator);
        let more = crate::text::split(rest, separator);
        assert forall|i: int, j: int| 0 <= i < parts.len() && 0 <= j < parts[i].len() implies
            #[trigger] parts[i][j] != separator by {
            if i > 0 {
                assert(parts[i] == more[i - 1]);
                assert(more[i - 1][j] != separator);
            } else {
                assert(parts[0] == s.take(end));
                assert(parts[0][j] == s[j]);
            }
        }
    }
}

/// Nothing joined is nothing, one part is itself, and each further part stands
/// behind one more separator.
pub proof fn law_join(parts: Seq<Seq<char>>, last: Seq<char>, separator: Seq<char>)
    ensures
        crate::text::join(Seq::empty(), separator) == Seq::<char>::empty(),
        crate::text::join(seq![last], separator) == last,
        parts.len() > 0 ==> crate::text::join(parts.push(last), separator) == crate::text::join(
            parts,
            separator,
        ) + separator + last,
    decreases parts.len(),
{
    let more = parts.push(last);
    if parts.len() > 1 {
        let rest = parts.skip(1);
        law_join(rest, last, separator);
        assert(more.skip(1) =~= rest.push(last));
        assert(crate::text::join(more, separator) =~= crate::text::join(parts, separator)
            + separator + last);
    } else if parts.len() == 1 {
        assert(more.skip(1) =~= seq![last]);
        assert(crate::text::join(more.skip(1), separator) == last);
    }
}

/// A text begins with a prefix if and only if it is the prefix and something
/// behind it.
pub proof fn law_starts_with(s: Seq<char>, prefix: Seq<char>)
    ensures
        crate::text::starts_with(s, prefix) <==> exists|rest: Seq<char>|
            s == #[trigger] (prefix + rest),
{
    if crate::text::starts_with(s, prefix) {
        let rest = s.skip(prefix.len() as int);
        assert(s =~= prefix + rest);
    }
    if exists|rest: Seq<char>| s == #[trigger] (prefix + rest) {
        let rest = choose|rest: Seq<char>| s == #[trigger] (prefix + rest);
        assert(s.take(prefix.len() as int) =~= prefix);
    }
}

/// A text comes before another if and only if they agree up to some place, and
/// there the first ends or has the smaller character.
pub proof fn law_text_less(a: Seq<char>, b: Seq<char>)
    ensures
        crate::text::text_less(a, b) <==> exists|k: int|
            {
                &&& 0 <= k <= a.len()
                &&& k < b.len()
                &&& #[trigger] a.take(k) == b.take(k)
                &&& k == a.len() || (a[k] as int) < (b[k] as int)
            },
    decreases a.len(),
{
    if b.len() > 0 && a.len() > 0 {
        let a1 = a.skip(1);
        let b1 = b.skip(1);
        law_text_less(a1, b1);
        if crate::text::text_less(a, b) {
            if (a[0] as int) < (b[0] as int) {
                assert(a.take(0) =~= b.take(0));
            } else {
                let k = choose|k: int|
                    {
                        &&& 0 <= k <= a1.len()
                        &&& k < b1.len()
                        &&& #[trigger] a1.take(k) == b1.take(k)
                        &&& k == a1.len() || (a1[k] as int) < (b1[k] as int)
                    };
                assert(a.take(k + 1) =~= seq![a[0]] + a1.take(k));
                assert(b.take(k + 1) =~= seq![b[0]] + b1.take(k));
                assert(a.take(k + 1) == b.take(k + 1));
            }
        }
        if exists|k: int|
            {
                &&& 0 <= k <= a.len()
                &&& k < b.len()
                &&& #[trigger] a.take(k) == b.take(k)
                &&& k == a.len() || (a[k] as int) < (b[k] as int)
            } {
            let k = choose|k: int|
                {
                    &&& 0 <= k <= a.len()
                    &&& k < b.len()
                    &&& #[trigger] a.take(k) == b.take(k)
                    &&& k == a.len() || (a[k] as int) < (b[k] as int)
                };
            if k > 0 {
                assert(a.take(k)[0] == b.take(k)[0]);
                assert(a1.take(k - 1) =~= a.take(k).skip(1));
                assert(b1.take(k - 1) =~= b.take(k).skip(1));
                assert(a1.take(k - 1) == b1.take(k - 1));
            }
        }
    } else if b.len() > 0 {
        assert(a.take(0) =~= b.take(0));
    }
}

/// Whether a character is a decimal digit.
pub open spec fn is_digit(c: char) -> bool {
    '0' as int <= c as int && c as int <= '9' as int
}

/// Digits are read from the left: each further digit makes ten times the number
/// and the digit. Anything but digits is no number, and neither is nothing.
pub proof fn law_digits_value(s: Seq<char>, c: char)
    ensures
        crate::text::digits_value(Seq::empty()) is None,
        crate::text::digits_value(seq![c]) == if is_digit(c) {
            Some((c as int - '0' as int) as nat)
        } else {
            None
        },
        s.len() > 0 ==> crate::text::digits_value(s.push(c)) == match crate::text::digits_value(s) {
            Some(n) => if is_digit(c) {
                Some((10 * n + (c as int - '0' as int)) as nat)
            } else {
                None
            },
            None => None,
        },
{
    let one = seq![c];
    assert(one.last() == c && one.len() == 1);
    let more = s.push(c);
    assert(more.drop_last() =~= s);
    assert(more.last() == c);
}

/// A plus sign may stand in front of any number, a minus sign in front of one that
/// may be negative, and without a sign the digits count alone.
pub proof fn law_signs(s: Seq<char>)
    ensures
        crate::text::unsigned_value(seq!['+'] + s) == crate::text::digits_value(s),
        s.len() == 0 || s[0] != '+' ==> crate::text::unsigned_value(s)
            == crate::text::digits_value(s),
        crate::text::signed_value(seq!['+'] + s) == match crate::text::digits_value(s) {
            Some(n) => Some(n as int),
            None => None,
        },
        crate::text::signed_value(seq!['-'] + s) == match crate::text::digits_value(s) {
            Some(n) => Some(-(n as int)),
            None => None,
        },
        s.len() == 0 || (s[0] != '+' && s[0] != '-') ==> crate::text::signed_value(s)
            == match crate::text::digits_value(s) {
            Some(n) => Some(n as int),
            None => None,
        },
{
    assert((seq!['+'] + s).skip(1) =~= s);
    assert((seq!['-'] + s).skip(1) =~= s);
}

} // verus!
