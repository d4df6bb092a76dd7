//! Text as sequences of characters: numbers, splitting, prefixes and order.

use vstd::prelude::*;

verus! {

/// The character of a decimal digit.
pub open spec fn digit_char(d: nat) -> char {
    (48 + d) as char
}

/// A natural number in decimal notation, without leading zeros.
pub open spec fn decimal(n: nat) -> Seq<char>
    decreases n,
{
    if n < 10 {
        seq![digit_char(n)]
    } else {
        decimal(n / 10).push(digit_char(n % 10))
    }
}

/// An integer in decimal notation, with a minus sign where it is negative.
pub open spec fn signed_decimal(n: int) -> Seq<char> {
    if n < 0 {
        seq!['-'] + decimal((-n) as nat)
    } else {
        decimal(n as nat)
    }
}

/// A number in decimal notation, filled up with zeros on the left to `width`
/// characters.
pub open spec fn zero_padded(n: nat, width: nat) -> Seq<char> {
    let d = decimal(n);
    if d.len() >= width {
        d
    } else {
        Seq::new((width - d.len()) as nat, |i: int| '0') + d
    }
}

/// One decimal digit as text.
fn digit_text(d: u64) -> (text: &'static str)
    requires
        d < 10,
    ensures
        text@ == seq![digit_char(d as nat)],
{
    proof {
        reveal_strlit("0");
        reveal_strlit("1");
        reveal_strlit("2");
        reveal_strlit("3");
        reveal_strlit("4");
        reveal_strlit("5");
        reveal_strlit("6");
        reveal_strlit("7");
        reveal_strlit("8");
        reveal_strlit("9");
    }
    match d {
        0 => "0",
        1 => "1",
        2 => "2",
        3 => "3",
        4 => "4",
        5 => "5",
        6 => "6",
        7 => "7",
        8 => "8",
        _ => "9",
    }
}

/// Writes a number in decimal notation.
pub fn decimal_text(n: u64) -> (text: String)
    ensures
        text@ == decimal(n as nat),
    decreases n,
{
    if n < 10 {
        digit_text(n).to_owned()
    } else {
        let mut text = decimal_text(n / 10);
        text.append(digit_text(n % 10));
        text
    }
}

/// Writes an integer in decimal notation.
pub fn signed_decimal_text(n: i32) -> (text: String)
    ensures
        text@ == signed_decimal(n as int),
{
    if n < 0 {
        let mut text = "-".to_owned();
        let magnitude: i64 = -(n as i64);
        let digits = decimal_text(magnitude as u64);
        text.append(digits.as_str());
        proof {
            reveal_strlit("-");
        }
        assert(text@ == seq!['-'] + decimal((-n) as nat));
        text
    } else {
        decimal_text(n as u64)
    }
}

/// Writes a number with at least `width` digits.
pub fn zero_padded_text(n: u64, width: usize) -> (text: String)
    ensures
        text@ == zero_padded(n as nat, width as nat),
{
    let digits = decimal_text(n);
    let length: usize = digits.as_str().unicode_len();
    if length >= width {
        return digits;
    }
    let mut text = String::new();
    let mut i: usize = 0;
    while i < width - length
        invariant
            length < width,
            i <= width - length,
            text@ == Seq::new(i as nat, |k: int| '0'),
        decreases width - length - i,
    {
        proof {
            reveal_strlit("0");
        }
        text.append("0");
        i = i + 1;
        assert(text@ =~= Seq::new(i as nat, |k: int| '0'));
    }
    text.append(digits.as_str());
    text
}

/// The position of the first `c` in `s`, or the length of `s` where there is none.
pub open spec fn find(s: Seq<char>, c: char) -> int
    decreases s.len(),
{
    if s.len() == 0 || s[0] == c {
        0
    } else {
        1 + find(s.skip(1), c)
    }
}

/// The part of `s` in front of the first `c`, all of `s` where there is none.
pub open spec fn before(s: Seq<char>, c: char) -> Seq<char> {
    s.take(find(s, c))
}

/// The parts of `s` between the separators; one more than there are separators.
pub open spec fn split(s: Seq<char>, separator: char) -> Seq<Seq<char>>
    decreases s.len(),
{
    let end = find(s, separator);
    if end >= s.len() {
        seq![s]
    } else {
        proof {
            lemma_find(s, separator);
        }
        seq![s.take(end)] + split(s.skip(end + 1), separator)
    }
}

/// The parts one after the other, with `separator` between each two.
pub open spec fn join(parts: Seq<Seq<char>>, separator: Seq<char>) -> Seq<char>
    decreases parts.len(),
{
    if parts.len() == 0 {
        Seq::empty()
    } else if parts.len() == 1 {
        parts[0]
    } else {
        parts[0] + separator + join(parts.skip(1), separator)
    }
}

/// Whether `s` begins with `prefix`.
pub open spec fn starts_with(s: Seq<char>, prefix: Seq<char>) -> bool {
    prefix.len() <= s.len() && s.take(prefix.len() as int) == prefix
}

/// The order of texts: by the first character in which they differ, a text
/// before its own continuations.
pub open spec fn text_less(a: Seq<char>, b: Seq<char>) -> bool
    decreases a.len(),
{
    if b.len() == 0 {
        false
    } else if a.len() == 0 {
        true
    } else {
        (a[0] as int) < (b[0] as int) || (a[0] == b[0] && text_less(a.skip(1), b.skip(1)))
    }
}

/// What the position found means.
pub proof fn lemma_find(s: Seq<char>, c: char)
    ensures
        0 <= find(s, c) <= s.len(),
        find(s, c) < s.len() ==> s[find(s, c)] == c,
        forall|j: int| 0 <= j < find(s, c) ==> s[j] != c,
    decreases s.len(),
{
    if s.len() == 0 || s[0] == c {
    } else {
        lemma_find(s.skip(1), c);
        assert forall|j: int| 0 <= j < find(s, c) implies s[j] != c by {
            if j > 0 {
                assert(s[j] == s.skip(1)[j - 1]);
            }
        }
    }
}

/// A position with `c`, or the end, before which no `c` stands is the one found.
pub proof fn lemma_find_is(s: Seq<char>, c: char, i: int)
    requires
        0 <= i <= s.len(),
        i < s.len() ==> s[i] == c,
        forall|j: int| 0 <= j < i ==> s[j] != c,
    ensures
        find(s, c) == i,
{
    lemma_find(s, c);
}

/// The parts of a text, joined with the separator, are the text.
pub proof fn law_join_split(s: Seq<char>, separator: char)
    ensures
        join(split(s, separator), seq![separator]) == s,
    decreases s.len(),
{
    lemma_find(s, separator);
    let end = find(s, separator);
    if end < s.len() {
        let rest = s.skip(end + 1);
        lemma_find(rest, separator);
        law_join_split(rest, separator);
        let parts = split(s, separator);
        assert(split(rest, separator).len() >= 1);
        assert(parts.skip(1) =~= split(rest, separator));
        assert(parts[0] == s.take(end));
        assert(s =~= s.take(end) + seq![separator] + rest);
    }
}

/// Texts without the separator, joined with it, are split into the same texts.
pub proof fn law_split_join(parts: Seq<Seq<char>>, separator: char)
    requires
        parts.len() > 0,
        forall|i: int, j: int|
            0 <= i < parts.len() && 0 <= j < parts[i].len() ==> #[trigger] parts[i][j] != separator,
    ensures
        split(join(parts, seq![separator]), separator) == parts,
    decreases parts.len(),
{
    let all = join(parts, seq![separator]);
    let first = parts[0];
    if parts.len() == 1 {
        lemma_find_is(all, separator, all.len() as int);
        assert(split(all, separator) =~= parts);
    } else {
        let rest = parts.skip(1);
        assert forall|i: int, j: int| 0 <= i < rest.len() && 0 <= j < rest[i].len() implies
            #[trigger] rest[i][j] != separator by {
            assert(rest[i] == parts[i + 1]);
            assert(parts[i + 1][j] != separator);
        }
        law_split_join(rest, separator);
        assert forall|j: int| 0 <= j < first.len() implies all[j] != separator by {
            assert(parts[0][j] != separator);
        }
        assert(all[first.len() as int] == separator);
        lemma_find_is(all, separator, first.len() as int);
        assert(all.take(first.len() as int) =~= first);
        assert(all.skip(first.len() as int + 1) =~= join(rest, seq![separator]));
        assert(split(all, separator) =~= seq![first] + rest);
        assert(seq![first] + rest =~= parts);
    }
}

/// No text is before itself.
pub proof fn lemma_text_less_irreflexive(a: Seq<char>)
    ensures
        !text_less(a, a),
    decreases a.len(),
{
    if a.len() > 0 {
        lemma_text_less_irreflexive(a.skip(1));
    }
}

/// The order of texts is transitive.
pub proof fn lemma_text_less_transitive(a: Seq<char>, b: Seq<char>, c: Seq<char>)
    requires
        text_less(a, b),
        text_less(b, c),
    ensures
        text_less(a, c),
    decreases a.len(),
{
    if a.len() > 0 && a[0] == b[0] && b[0] == c[0] {
        lemma_text_less_transitive(a.skip(1), b.skip(1), c.skip(1));
    }
}

/// Of two different texts, one is before the other.
pub proof fn lemma_text_less_total(a: Seq<char>, b: Seq<char>)
    ensures
        a == b || text_less(a, b) || text_less(b, a),
    decreases a.len(),
{
    if a.len() > 0 && b.len() > 0 {
        if a[0] == b[0] {
            lemma_text_less_total(a.skip(1), b.skip(1));
            if a.skip(1) == b.skip(1) {
                assert(a =~= seq![a[0]] + a.skip(1));
                assert(b =~= seq![b[0]] + b.skip(1));
            }
        }
    } else if a.len() == 0 && b.len() == 0 {
        assert(a =~= b);
    }
}

/// The characters of a text.
pub fn characters(text: &str) -> (chars: Vec<char>)
    ensures
        chars@ == text@,
{
    let mut chars: Vec<char> = Vec::new();
    for c in it: text.chars()
        invariant
            chars@ == it.seq().take(it.index()),
            it.seq() == text@,
    {
        chars.push(c);
    }
    assert(text@.take(text@.len() as int) =~= text@);
    chars
}

/// Whether two texts are the same.
pub fn same_text(a: &str, b: &str) -> (same: bool)
    ensures
        same == (a@ == b@),
{
    a.to_owned() == b.to_owned()
}

/// Whether `text` begins with `prefix`.
pub fn begins_with(text: &str, prefix: &str) -> (yes: bool)
    ensures
        yes == starts_with(text@, prefix@),
{
    let length: usize = prefix.unicode_len();
    if text.unicode_len() < length {
        return false;
    }
    same_text(text.substring_char(0, length), prefix)
}

/// The position of the first `c` at or after `from`, or the length.
fn find_from(chars: &Vec<char>, from: usize, c: char) -> (position: usize)
    requires
        from <= chars.len(),
    ensures
        from <= position <= chars.len(),
        position == from + find(chars@.skip(from as int), c),
{
    let mut i: usize = from;
    while i < chars.len() && chars[i] != c
        invariant
            from <= i <= chars.len(),
            forall|j: int| from <= j < i ==> chars[j] != c,
        decreases chars.len() - i,
    {
        i = i + 1;
    }
    proof {
        lemma_find_is(chars@.skip(from as int), c, i - from);
    }
    i
}

/// The part of `text` in front of the first `c`.
pub fn text_before(text: &str, c: char) -> (part: &str)
    ensures
        part@ == before(text@, c),
{
    let chars = characters(text);
    let end: usize = find_from(&chars, 0, c);
    assert(chars@.skip(0) =~= chars@);
    text.substring_char(0, end)
}

/// The parts of `text` between the separators.
pub fn split_text(text: &str, separator: char) -> (parts: Vec<&str>)
    ensures
        parts@.map_values(|part: &str| part@) == split(text@, separator),
{
    let chars = characters(text);
    let mut parts: Vec<&str> = Vec::new();
    let mut start: usize = 0;
    let ghost view = |part: &str| part@;
    proof {
        assert(text@.skip(0) =~= text@);
        assert(parts@.map_values(view) =~= Seq::empty());
    }
    loop
        invariant
            chars@ == text@,
            start <= chars.len(),
            view == (|part: &str| part@),
            split(text@, separator) == parts@.map_values(view) + split(text@.skip(start as int), separator),
        decreases chars.len() + 1 - start,
    {
        let end: usize = find_from(&chars, start, separator);
        let part = text.substring_char(start, end);
        let ghost rest = text@.skip(start as int);
        let ghost done = parts@;
        parts.push(part);
        proof {
            lemma_find(rest, separator);
            assert(parts@.map_values(view) =~= done.map_values(view).push(part@));
        }
        if end == chars.len() {
            assert(part@ =~= rest);
            assert(parts@.map_values(view) =~= done.map_values(view) + seq![rest]);
            return parts;
        }
        proof {
            assert(part@ =~= rest.take(end - start));
            assert(rest.skip(end - start + 1) =~= text@.skip(end + 1));
            assert(split(rest, separator) == seq![part@] + split(text@.skip(end + 1), separator));
            assert(parts@.map_values(view) + split(text@.skip(end + 1), separator)
                =~= done.map_values(view) + (seq![part@] + split(text@.skip(end + 1), separator)));
        }
        start = end + 1;
    }
}

/// Writes the parts one after the other with `separator` between each two.
pub fn join_text(parts: &Vec<String>, separator: &str) -> (text: String)
    ensures
        text@ == join(parts@.map_values(|part: String| part@), separator@),
{
    let mut text = String::new();
    let mut i: usize = parts.len();
    let ghost views = parts@.map_values(|part: String| part@);
    assert(views.skip(i as int) =~= Seq::empty());
    while i > 0
        invariant
            i <= parts.len(),
            views == parts@.map_values(|part: String| part@),
            text@ == join(views.skip(i as int), separator@),
        decreases i,
    {
        let mut longer = parts[i - 1].clone();
        if i < parts.len() {
            longer.append(separator);
            longer.append(text.as_str());
        }
        proof {
            let tail = views.skip(i - 1);
            assert(tail[0] == views[i - 1]);
            assert(tail.skip(1) =~= views.skip(i as int));
            assert(views[i - 1] == parts[i - 1]@);
        }
        text = longer;
        i = i - 1;
    }
    assert(views.skip(0) =~= views);
    text
}

/// Whether `a` comes before `b`. Comparing by characters orders texts as
/// comparing the bytes of their encodings does.
pub fn text_before_other(a: &str, b: &str) -> (less: bool)
    ensures
        less == text_less(a@, b@),
{
    let left = characters(a);
    let right = characters(b);
    let mut i: usize = 0;
    proof {
        assert(a@.skip(0) =~= a@);
        assert(b@.skip(0) =~= b@);
    }
    while i < left.len() && i < right.len()
        invariant
            left@ == a@,
            right@ == b@,
            i <= left.len(),
            i <= right.len(),
            text_less(a@, b@) == text_less(a@.skip(i as int), b@.skip(i as int)),
        decreases left.len() - i,
    {
        if left[i] != right[i] {
            return left[i] < right[i];
        }
        proof {
            assert(a@.skip(i as int).skip(1) =~= a@.skip(i + 1));
            assert(b@.skip(i as int).skip(1) =~= b@.skip(i + 1));
        }
        i = i + 1;
    }
    i < right.len()
}

/// The number that a digit stands for.
pub open spec fn digit_value(c: char) -> Option<nat> {
    if 48 <= c as int && c as int <= 57 {
        Some((c as int - 48) as nat)
    } else {
        None
    }
}

/// The number that one or more digits stand for.
pub open spec fn digits_value(s: Seq<char>) -> Option<nat>
    decreases s.len(),
{
    if s.len() == 0 {
        None
    } else {
        match digit_value(s.last()) {
            None => None,
            Some(d) => if s.len() == 1 {
                Some(d)
            } else {
                match digits_value(s.drop_last()) {
                    None => None,
                    Some(front) => Some(10 * front + d),
                }
            },
        }
    }
}

/// The number that digits with an optional plus sign stand for.
pub open spec fn unsigned_value(s: Seq<char>) -> Option<nat> {
    if s.len() > 0 && s[0] == '+' {
        digits_value(s.skip(1))
    } else {
        digits_value(s)
    }
}

/// The number that digits with an optional sign stand for.
pub open spec fn signed_value(s: Seq<char>) -> Option<int> {
    if s.len() > 0 && s[0] == '-' {
        match digits_value(s.skip(1)) {
            None => None,
            Some(n) => Some(-(n as int)),
        }
    } else {
        match unsigned_value(s) {
            None => None,
            Some(n) => Some(n as int),
        }
    }
}

/// The text of a number has digits only, and they stand for that number.
pub proof fn lemma_decimal_value(n: nat)
    ensures
        digits_value(decimal(n)) == Some(n),
        decimal(n).len() >= 1,
        forall|i: int| 0 <= i < decimal(n).len() ==> digit_value(#[trigger] decimal(n)[i]) is Some,
    decreases n,
{
    if n >= 10 {
        lemma_decimal_value(n / 10);
        assert(decimal(n).drop_last() =~= decimal(n / 10));
    } else {
        assert(decimal(n).last() == digit_char(n));
    }
}

/// Reading the text of an integer gives that integer.
pub proof fn lemma_signed_decimal_value(n: int)
    ensures
        signed_value(signed_decimal(n)) == Some(n),
{
    if n < 0 {
        lemma_decimal_value((-n) as nat);
        assert(signed_decimal(n).skip(1) =~= decimal((-n) as nat));
    } else {
        lemma_decimal_value(n as nat);
        assert(digit_value(decimal(n as nat)[0]) is Some);
    }
}

/// Reading the text of a natural number gives that number.
pub proof fn lemma_decimal_unsigned_value(n: nat)
    ensures
        unsigned_value(decimal(n)) == Some(n),
{
    lemma_decimal_value(n);
    assert(digit_value(decimal(n)[0]) is Some);
}

/// The first digits of a number stand for a number that is not larger.
proof fn lemma_digits_value_take(s: Seq<char>, i: int)
    requires
        1 <= i <= s.len(),
        digits_value(s) is Some,
    ensures
        digits_value(s.take(i)) is Some,
        digits_value(s.take(i))->0 <= digits_value(s)->0,
    decreases s.len(),
{
    if i < s.len() {
        lemma_digits_value_take(s.drop_last(), i);
        assert(s.drop_last().take(i) =~= s.take(i));
    } else {
        assert(s.take(i) =~= s);
    }
}

/// Reads the digits from `from` on, where their number is at most `limit`.
fn read_digits(chars: &Vec<char>, from: usize, limit: u64) -> (number: Option<u64>)
    requires
        from <= chars.len(),
        limit <= u32::MAX,
    ensures
        match number {
            Some(n) => digits_value(chars@.skip(from as int)) == Some(n as nat) && n <= limit,
            None => match digits_value(chars@.skip(from as int)) {
                None => true,
                Some(n) => n > limit,
            },
        },
{
    let ghost s = chars@.skip(from as int);
    if from == chars.len() {
        return None;
    }
    let mut n: u64 = 0;
    let mut i: usize = from;
    while i < chars.len()
        invariant
            from <= i <= chars.len(),
            from < chars.len(),
            limit <= u32::MAX,
            n <= limit,
            s == chars@.skip(from as int),
            i == from ==> n == 0,
            i > from ==> digits_value(s.take(i - from)) == Some(n as nat),
        decreases chars.len() - i,
    {
        let c: char = chars[i];
        let ghost longer = s.take(i - from + 1);
        proof {
            assert(longer.drop_last() =~= s.take(i - from));
            assert(longer.last() == c);
            if digits_value(s) is Some {
                lemma_digits_value_take(s, i - from + 1);
            }
        }
        if c < '0' || c > '9' {
            return None;
        }
        let d: u64 = (c as u32 - '0' as u32) as u64;
        assert(digit_value(c) == Some(d as nat));
        let next: u64 = 10 * n + d;
        assert(digits_value(longer) == Some(next as nat));
        if next > limit {
            return None;
        }
        n = next;
        i = i + 1;
    }
    assert(s.take(s.len() as int) =~= s);
    Some(n)
}

/// Reads a number in decimal notation, with an optional plus sign.
pub fn read_unsigned(text: &str) -> (number: Option<u32>)
    ensures
        match number {
            Some(n) => unsigned_value(text@) == Some(n as nat),
            None => match unsigned_value(text@) {
                None => true,
                Some(n) => n > u32::MAX,
            },
        },
{
    let chars = characters(text);
    assert(chars@.skip(0) =~= chars@);
    let from: usize = if chars.len() > 0 && chars[0] == '+' { 1 } else { 0 };
    match read_digits(&chars, from, u32::MAX as u64) {
        Some(n) => Some(n as u32),
        None => None,
    }
}

/// Reads an integer in decimal notation, with an optional sign.
pub fn read_signed(text: &str) -> (number: Option<i32>)
    ensures
        match number {
            Some(n) => signed_value(text@) == Some(n as int),
            None => match signed_value(text@) {
                None => true,
                Some(n) => n < i32::MIN || n > i32::MAX,
            },
        },
{
    let chars = characters(text);
    assert(chars@.skip(0) =~= chars@);
    if chars.len() > 0 && chars[0] == '-' {
        match read_digits(&chars, 1, 0x8000_0000) {
            Some(n) => Some((-(n as i64)) as i32),
            None => None,
        }
    } else {
        let from: usize = if chars.len() > 0 && chars[0] == '+' { 1 } else { 0 };
        match read_digits(&chars, from, 0x7fff_ffff) {
            Some(n) => Some(n as i32),
            None => None,
        }
    }
}

} // verus!
