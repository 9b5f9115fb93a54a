//! Working with text as sequences of characters.

use vstd::prelude::*;

verus! {

// ---------------------------------------------------------------------------
// What the standard library does.

/// `String::push` appends one character.
pub assume_specification[ String::push ](s: &mut String, c: char)
    ensures
        final(s)@ == old(s)@.push(c),
;

/// Whether a text is all ASCII.
pub open spec fn all_ascii(s: Seq<char>) -> bool {
    forall|i: int| 0 <= i < s.len() ==> #[trigger] s[i] <= '\u{7f}'
}

/// An ASCII character in lowercase: `A` to `Z` become `a` to `z`.
pub open spec fn ascii_lower(c: char) -> char {
    if 'A' <= c <= 'Z' {
        (c as int + 32) as char
    } else {
        c
    }
}

/// The lowercase of a text that is not all ASCII, as `str::to_lowercase` gives
/// it.
pub uninterp spec fn lowercase(s: Seq<char>) -> Seq<char>;

/// A text in lowercase.
pub open spec fn lowered(s: Seq<char>) -> Seq<char> {
    if all_ascii(s) {
        s.map_values(|c: char| ascii_lower(c))
    } else {
        lowercase(s)
    }
}

/// `str::to_lowercase`: the text in lowercase by the Unicode rules, which
/// depends on the text alone. Of ASCII text these make `a` to `z` of `A` to `Z`
/// and leave the rest; what they map any other character to is left unsaid.
#[verifier::external_body]
pub(crate) fn to_lowercase(s: &str) -> (lower: String)
    ensures
        lower@ == if all_ascii(s@) {
            s@.map_values(|c: char| ascii_lower(c))
        } else {
            lowercase(s@)
        },
{
    s.to_lowercase()
}

/// The uppercase of one character, as `char::to_uppercase` gives it.
pub uninterp spec fn uppercase(c: char) -> Seq<char>;

/// `char::to_uppercase`: the character's uppercase by the Unicode rules, which
/// can be more than one character and depends on the character alone. What
/// those rules map it to is left unsaid.
#[verifier::external_body]
pub(crate) fn to_uppercase(c: char) -> (upper: String)
    ensures
        upper@ == uppercase(c),
{
    c.to_uppercase().to_string()
}

// ---------------------------------------------------------------------------
// Lists of strings and of characters.

/// The characters of each string of a list.
pub open spec fn texts(strings: Seq<String>) -> Seq<Seq<char>> {
    strings.map_values(|s: String| s@)
}

/// A copy of a list of strings.
pub fn clone_texts(strings: &Vec<String>) -> (copy: Vec<String>)
    ensures
        copy@ == strings@,
{
    let mut copy: Vec<String> = Vec::new();
    for i in 0..strings.len()
        invariant
            copy@ == strings@.take(i as int),
    {
        copy.push(strings[i].clone());
        assert(strings@.take(i as int).push(strings@[i as int]) =~= strings@.take(i + 1));
    }
    assert(strings@.take(strings@.len() as int) =~= strings@);
    copy
}

/// Whether a list of strings holds one that reads `s`.
pub fn contains_text(strings: &Vec<String>, s: &String) -> (found: bool)
    ensures
        found == texts(strings@).contains(s@),
{
    for i in 0..strings.len()
        invariant
            forall|j: int| 0 <= j < i ==> (#[trigger] strings@[j])@ != s@,
    {
        if strings[i] == *s {
            assert(texts(strings@)[i as int] == s@);
            return true;
        }
    }
    proof {
        if texts(strings@).contains(s@) {
            let k = choose|k: int| 0 <= k < texts(strings@).len() && texts(strings@)[k] == s@;
            assert(strings@[k]@ == s@);
        }
    }
    false
}

/// Whether two lists of strings read the same.
pub fn same_texts(a: &Vec<String>, b: &Vec<String>) -> (same: bool)
    ensures
        same == (texts(a@) == texts(b@)),
{
    if a.len() != b.len() {
        assert(texts(a@).len() != texts(b@).len());
        return false;
    }
    for i in 0..a.len()
        invariant
            a@.len() == b@.len(),
            forall|j: int| 0 <= j < i ==> (#[trigger] a@[j])@ == b@[j]@,
    {
        if a[i] != b[i] {
            assert(texts(a@)[i as int] != texts(b@)[i as int]);
            return false;
        }
    }
    assert(texts(a@) =~= texts(b@));
    true
}

/// The characters of a text.
pub fn chars_of(s: &str) -> (chars: Vec<char>)
    ensures
        chars@ == s@,
{
    let mut chars: Vec<char> = Vec::new();
    for c in it: s.chars()
        invariant
            it.seq() == s@,
            chars@ == s@.take(it.index()),
    {
        chars.push(c);
        assert(s@.take(it.index()).push(c) =~= s@.take(it.index() + 1));
    }
    assert(s@.take(s@.len() as int) =~= s@);
    chars
}

/// The text of a run of characters.
pub fn text_of(chars: &Vec<char>, from: usize, to: usize) -> (s: String)
    requires
        from <= to <= chars@.len(),
    ensures
        s@ == chars@.subrange(from as int, to as int),
{
    let mut s = String::new();
    assert(s@ =~= chars@.subrange(from as int, from as int));
    for i in from..to
        invariant
            from <= i <= to <= chars@.len(),
            s@ == chars@.subrange(from as int, i as int),
    {
        s.push(chars[i]);
        assert(chars@.subrange(from as int, i as int).push(chars@[i as int])
            =~= chars@.subrange(from as int, i + 1));
    }
    s
}

// ---------------------------------------------------------------------------
// White space.

/// Whether a character has the Unicode `White_Space` property.
pub open spec fn white_space(c: char) -> bool {
    ||| '\u{9}' <= c <= '\u{d}'
    ||| c == ' '
    ||| c == '\u{85}'
    ||| c == '\u{a0}'
    ||| c == '\u{1680}'
    ||| '\u{2000}' <= c <= '\u{200a}'
    ||| c == '\u{2028}'
    ||| c == '\u{2029}'
    ||| c == '\u{202f}'
    ||| c == '\u{205f}'
    ||| c == '\u{3000}'
}

/// Whether a character has the Unicode `White_Space` property.
pub fn is_white_space(c: char) -> (white: bool)
    ensures
        white == white_space(c),
{
    ('\u{9}' <= c && c <= '\u{d}') || c == ' ' || c == '\u{85}' || c == '\u{a0}' || c == '\u{1680}'
        || ('\u{2000}' <= c && c <= '\u{200a}') || c == '\u{2028}' || c == '\u{2029}' || c
        == '\u{202f}' || c == '\u{205f}' || c == '\u{3000}'
}

/// A text without its leading white space.
pub open spec fn trimmed_start(s: Seq<char>) -> Seq<char>
    decreases s.len(),
{
    if s.len() > 0 && white_space(s[0]) {
        trimmed_start(s.drop_first())
    } else {
        s
    }
}

/// A text without its trailing white space.
pub open spec fn trimmed_end(s: Seq<char>) -> Seq<char>
    decreases s.len(),
{
    if s.len() > 0 && white_space(s.last()) {
        trimmed_end(s.drop_last())
    } else {
        s
    }
}

/// A text without the white space around it.
pub open spec fn trimmed(s: Seq<char>) -> Seq<char> {
    trimmed_end(trimmed_start(s))
}

proof fn lemma_trimmed_start(s: Seq<char>, from: int)
    requires
        0 <= from <= s.len(),
        forall|i: int| 0 <= i < from ==> white_space(#[trigger] s[i]),
        from < s.len() ==> !white_space(s[from]),
    ensures
        trimmed_start(s) == s.skip(from),
    decreases s.len(),
{
    if from == 0 {
        assert(s.skip(0) =~= s);
    } else {
        let rest = s.drop_first();
        assert forall|i: int| 0 <= i < from - 1 implies white_space(#[trigger] rest[i]) by {
            assert(rest[i] == s[i + 1]);
        }
        lemma_trimmed_start(rest, from - 1);
        assert(rest.skip(from - 1) =~= s.skip(from));
    }
}

proof fn lemma_trimmed_end(s: Seq<char>, to: int)
    requires
        0 <= to <= s.len(),
        forall|i: int| to <= i < s.len() ==> white_space(#[trigger] s[i]),
        to > 0 ==> !white_space(s[to - 1]),
    ensures
        trimmed_end(s) == s.take(to),
    decreases s.len(),
{
    if to == s.len() {
        assert(s.take(to) =~= s);
    } else {
        let rest = s.drop_last();
        assert forall|i: int| to <= i < rest.len() implies white_space(#[trigger] rest[i]) by {
            assert(rest[i] == s[i]);
        }
        lemma_trimmed_end(rest, to);
        assert(rest.take(to) =~= s.take(to));
    }
}

/// A run of characters without the white space around it, as the bounds of
/// what is left.
fn trim_bounds(chars: &Vec<char>, from: usize, to: usize) -> (bounds: (usize, usize))
    requires
        from <= to <= chars@.len(),
    ensures
        from <= bounds.0 <= bounds.1 <= to,
        chars@.subrange(bounds.0 as int, bounds.1 as int) == trimmed(
            chars@.subrange(from as int, to as int),
        ),
{
    let ghost s = chars@.subrange(from as int, to as int);
    let mut start: usize = from;
    while start < to && is_white_space(chars[start])
        invariant
            from <= start <= to <= chars@.len(),
            forall|i: int| from <= i < start ==> white_space(#[trigger] chars@[i]),
        decreases to - start,
    {
        start = start + 1;
    }
    proof {
        assert forall|i: int| 0 <= i < start - from implies white_space(#[trigger] s[i]) by {
            assert(s[i] == chars@[from + i]);
        }
        lemma_trimmed_start(s, start - from);
    }
    let ghost left = s.skip(start - from);
    let mut end: usize = to;
    while end > start && is_white_space(chars[end - 1])
        invariant
            from <= start <= end <= to <= chars@.len(),
            forall|i: int| end <= i < to ==> white_space(#[trigger] chars@[i]),
        decreases end,
    {
        end = end - 1;
    }
    proof {
        assert forall|i: int| end - start <= i < left.len() implies white_space(
            #[trigger] left[i],
        ) by {
            assert(left[i] == chars@[start + i]);
        }
        if end > start {
            assert(left[end - start - 1] == chars@[end - 1]);
        }
        lemma_trimmed_end(left, end - start);
        assert(left.take(end - start) =~= chars@.subrange(start as int, end as int));
    }
    (start, end)
}

/// A text without the white space around it.
pub fn trim(s: &str) -> (out: String)
    ensures
        out@ == trimmed(s@),
{
    let chars = chars_of(s);
    let (from, to) = trim_bounds(&chars, 0, chars.len());
    assert(chars@.subrange(0, chars@.len() as int) =~= s@);
    text_of(&chars, from, to)
}

// ---------------------------------------------------------------------------
// Numbers.

/// A decimal digit's character.
pub open spec fn digit(d: int) -> char {
    ('0' as int + d) as char
}

/// A number written in decimal.
pub open spec fn decimal(n: nat) -> Seq<char>
    decreases n,
{
    if n < 10 {
        seq![digit(n as int)]
    } else {
        decimal(n / 10).push(digit((n % 10) as int))
    }
}

/// An integer written in decimal, negative ones after a minus sign.
pub open spec fn signed_decimal(n: int) -> Seq<char> {
    if n < 0 {
        seq!['-'] + decimal((-n) as nat)
    } else {
        decimal(n as nat)
    }
}

/// A number written in decimal, padded with zeros to two digits.
pub open spec fn two_digits(n: nat) -> Seq<char> {
    if n < 10 {
        seq!['0'] + decimal(n)
    } else {
        decimal(n)
    }
}

fn digit_char(d: u64) -> (c: char)
    requires
        d < 10,
    ensures
        c == digit(d as int),
{
    match d {
        0 => '0',
        1 => '1',
        2 => '2',
        3 => '3',
        4 => '4',
        5 => '5',
        6 => '6',
        7 => '7',
        8 => '8',
        _ => '9',
    }
}

/// Appends a number in decimal.
pub fn push_decimal(out: &mut String, n: u64)
    ensures
        final(out)@ == old(out)@ + decimal(n as nat),
    decreases n,
{
    if n < 10 {
        out.push(digit_char(n));
        assert(out@ =~= old(out)@ + decimal(n as nat));
    } else {
        push_decimal(out, n / 10);
        out.push(digit_char(n % 10));
        assert(out@ =~= old(out)@ + decimal(n as nat));
    }
}

/// Appends an integer in decimal.
pub fn push_signed_decimal(out: &mut String, n: i64)
    ensures
        final(out)@ == old(out)@ + signed_decimal(n as int),
{
    if n < 0 {
        out.push('-');
        if n == i64::MIN {
            push_decimal(out, 9223372036854775808);
        } else {
            push_decimal(out, (-n) as u64);
        }
        assert(out@ =~= old(out)@ + signed_decimal(n as int));
    } else {
        push_decimal(out, n as u64);
    }
}

/// Appends a number in decimal, padded with zeros to two digits.
pub fn push_two_digits(out: &mut String, n: u64)
    ensures
        final(out)@ == old(out)@ + two_digits(n as nat),
{
    if n < 10 {
        out.push('0');
    }
    push_decimal(out, n);
    assert(out@ =~= old(out)@ + two_digits(n as nat));
}

/// Whether a character is a decimal digit.
pub open spec fn is_digit(c: char) -> bool {
    '0' <= c <= '9'
}

/// The number a run of decimal digits writes.
pub open spec fn digits_value(s: Seq<char>) -> nat
    decreases s.len(),
{
    if s.len() == 0 {
        0
    } else {
        digits_value(s.drop_last()) * 10 + (s.last() as int - '0' as int) as nat
    }
}

/// The number a text writes: decimal digits and nothing else, at least one,
/// after an optional plus sign.
pub open spec fn number_in(s: Seq<char>) -> Option<nat> {
    if unsigned(s).len() > 0 && all_digits(unsigned(s)) {
        Some(digits_value(unsigned(s)))
    } else {
        None
    }
}

/// A text without its leading plus sign, if it has one.
pub open spec fn unsigned(s: Seq<char>) -> Seq<char> {
    if s.len() > 0 && s[0] == '+' {
        s.skip(1)
    } else {
        s.skip(0)
    }
}

/// Whether every character is a decimal digit.
pub open spec fn all_digits(s: Seq<char>) -> bool {
    forall|i: int| 0 <= i < s.len() ==> is_digit(#[trigger] s[i])
}

/// A number written in decimal reads back as itself.
pub proof fn lemma_decimal_reads_back(n: nat)
    ensures
        digits_value(decimal(n)) == n,
        all_digits(decimal(n)),
        decimal(n).len() > 0,
    decreases n,
{
    if n < 10 {
        assert(decimal(n).drop_last() =~= seq![]);
        assert(digits_value(decimal(n).drop_last()) == 0);
    } else {
        lemma_decimal_reads_back(n / 10);
        assert(decimal(n).drop_last() =~= decimal(n / 10));
    }
}

proof fn lemma_more_digits_are_no_less(s: Seq<char>, n: int)
    requires
        0 <= n <= s.len(),
        all_digits(s),
    ensures
        digits_value(s.take(n)) <= digits_value(s),
    decreases s.len() - n,
{
    if n == s.len() {
        assert(s.take(n) =~= s);
    } else {
        assert(s.take(n + 1).drop_last() =~= s.take(n));
        assert(is_digit(s[n]));
        lemma_more_digits_are_no_less(s, n + 1);
    }
}

/// Reads a number no larger than a `u32` holds; anything else is `None`.
pub fn parse_u32(s: &str) -> (n: Option<u32>)
    ensures
        match n {
            Some(v) => number_in(s@) == Some(v as nat),
            None => number_in(s@) is None || number_in(s@)->0 > u32::MAX,
        },
{
    let chars = chars_of(s);
    let from: usize = if chars.len() > 0 && chars[0] == '+' {
        1
    } else {
        0
    };
    let ghost digits = unsigned(s@);
    if from == chars.len() {
        return None;
    }
    let mut n: u64 = 0;
    for i in from..chars.len()
        invariant
            from <= i <= chars@.len(),
            chars@ == s@,
            digits == s@.skip(from as int),
            digits == unsigned(s@),
            from < s@.len(),
            n <= u32::MAX,
            n == digits_value(digits.take(i - from)),
            forall|j: int| 0 <= j < i - from ==> is_digit(#[trigger] digits[j]),
    {
        let c = chars[i];
        assert(digits[i - from] == c);
        if c < '0' || c > '9' {
            assert(!is_digit(digits[i - from]));
            return None;
        }
        assert(digits.take(i - from + 1).drop_last() =~= digits.take(i - from));
        n = n * 10 + (c as u32 - '0' as u32) as u64;
        if n > 0xffff_ffff {
            proof {
                if all_digits(digits) {
                    lemma_more_digits_are_no_less(digits, i - from + 1);
                }
            }
            return None;
        }
    }
    assert(digits.take(digits.len() as int) =~= digits);
    Some(n as u32)
}

/// The integer a text writes: decimal digits, at least one, after an optional
/// sign.
pub open spec fn integer_in(s: Seq<char>) -> Option<int> {
    if s.len() > 0 && s[0] == '-' {
        let digits = s.skip(1);
        if digits.len() > 0 && all_digits(digits) {
            Some(-(digits_value(digits) as int))
        } else {
            None
        }
    } else {
        match number_in(s) {
            Some(n) => Some(n as int),
            None => None,
        }
    }
}

/// Reads an integer that an `i32` holds; anything else is `None`.
pub fn parse_i32(s: &str) -> (n: Option<i32>)
    ensures
        match n {
            Some(v) => integer_in(s@) == Some(v as int),
            None => integer_in(s@) is None || integer_in(s@)->0 < i32::MIN || integer_in(s@)->0
                > i32::MAX,
        },
{
    let chars = chars_of(s);
    if chars.len() == 0 || chars[0] != '-' {
        return match parse_u32(s) {
            Some(n) => if n <= 0x7fff_ffff {
                Some(n as i32)
            } else {
                None
            },
            None => None,
        };
    }
    let ghost digits = s@.skip(1);
    if chars.len() > 1 && chars[1] == '+' {
        assert(digits[0] == '+');
        assert(!is_digit(digits[0]));
        return None;
    }
    let rest = text_of(&chars, 1, chars.len());
    assert(rest@ =~= digits);
    assert(unsigned(digits) =~= digits);
    match parse_u32(rest.as_str()) {
        Some(n) => if n <= 0x8000_0000 {
            Some((-(n as i64)) as i32)
        } else {
            None
        },
        None => None,
    }
}

/// An integer written in decimal reads back as itself.
pub proof fn lemma_signed_decimal_reads_back(n: int)
    ensures
        integer_in(signed_decimal(n)) == Some(n),
{
    let s = signed_decimal(n);
    if n < 0 {
        lemma_decimal_reads_back((-n) as nat);
        assert(s.skip(1) =~= decimal((-n) as nat));
    } else {
        lemma_decimal_reads_back(n as nat);
        assert(is_digit(s[0]));
        assert(unsigned(s) =~= s);
    }
}

// ---------------------------------------------------------------------------
// Joining and splitting.

/// The parts of a text, with `separator` between each two.
pub open spec fn joined(parts: Seq<Seq<char>>, separator: Seq<char>) -> Seq<char>
    decreases parts.len(),
{
    if parts.len() == 0 {
        seq![]
    } else if parts.len() == 1 {
        parts[0]
    } else {
        joined(parts.drop_last(), separator) + separator + parts.last()
    }
}

/// Joins a list of strings.
pub fn join(parts: &Vec<String>, separator: &str) -> (out: String)
    ensures
        out@ == joined(texts(parts@), separator@),
{
    let mut out = String::new();
    let ghost all = texts(parts@);
    assert(out@ =~= joined(all.take(0), separator@));
    for i in 0..parts.len()
        invariant
            all == texts(parts@),
            out@ == joined(all.take(i as int), separator@),
    {
        assert(all.take(i + 1).drop_last() =~= all.take(i as int));
        if i > 0 {
            out.append(separator);
        }
        out.append(parts[i].as_str());
        assert(out@ =~= joined(all.take(i + 1), separator@));
    }
    assert(all.take(all.len() as int) =~= all);
    out
}

/// A text cut at every `separator`: one more piece than there are separators.
pub open spec fn split_at(s: Seq<char>, separator: char) -> Seq<Seq<char>>
    decreases s.len(),
{
    if s.len() == 0 {
        seq![seq![]]
    } else {
        let before = split_at(s.drop_last(), separator);
        if s.last() == separator {
            before.push(seq![])
        } else {
            before.drop_last().push(before.last().push(s.last()))
        }
    }
}

/// Cuts a text at every `separator`.
pub fn split(s: &str, separator: char) -> (pieces: Vec<String>)
    ensures
        texts(pieces@) == split_at(s@, separator),
        pieces@.len() > 0,
{
    let chars = chars_of(s);
    let mut pieces: Vec<String> = Vec::new();
    let mut piece = String::new();
    for i in 0..chars.len()
        invariant
            chars@ == s@,
            texts(pieces@).push(piece@) == split_at(s@.take(i as int), separator),
    {
        proof {
            assert(s@.take(i + 1).drop_last() =~= s@.take(i as int));
            assert(texts(pieces@).push(piece@).drop_last() =~= texts(pieces@));
        }
        if chars[i] == separator {
            let ghost before = pieces@;
            pieces.push(piece);
            assert(texts(pieces@) =~= texts(before).push(piece@));
            piece = String::new();
            assert(piece@ =~= seq![]);
        } else {
            piece.push(chars[i]);
        }
    }
    let ghost before = pieces@;
    pieces.push(piece);
    assert(texts(pieces@) =~= texts(before).push(piece@));
    assert(s@.take(s@.len() as int) =~= s@);
    pieces
}

/// Cutting a text that goes on without a separator only lengthens its last
/// piece.
pub proof fn lemma_split_extends(s: Seq<char>, tail: Seq<char>, separator: char)
    requires
        !tail.contains(separator),
    ensures
        split_at(s, separator).len() > 0,
        split_at(s + tail, separator) == split_at(s, separator).drop_last().push(
            split_at(s, separator).last() + tail,
        ),
    decreases s.len() + tail.len(),
{
    let pieces = split_at(s, separator);
    if tail.len() > 0 {
        let shorter = tail.drop_last();
        assert(!shorter.contains(separator)) by {
            if shorter.contains(separator) {
                let i = choose|i: int| 0 <= i < shorter.len() && shorter[i] == separator;
                assert(tail[i] == separator);
            }
        }
        lemma_split_extends(s, shorter, separator);
        let whole = s + tail;
        assert(whole.drop_last() =~= s + shorter);
        assert(whole.last() == tail.last());
        assert(tail[tail.len() - 1] != separator);
        assert(split_at(s + shorter, separator).drop_last() =~= pieces.drop_last());
        assert((pieces.last() + shorter).push(tail.last()) =~= pieces.last() + tail);
    } else {
        assert(s + tail =~= s);
        if s.len() > 0 {
            lemma_split_extends(s.drop_last(), seq![], separator);
            assert(s.drop_last() + Seq::<char>::empty() =~= s.drop_last());
        }
        assert(pieces.last() + tail =~= pieces.last());
        assert(pieces.drop_last().push(pieces.last()) =~= pieces);
    }
}

/// The parts of a text, every one but the first behind `pad`.
pub open spec fn padded(parts: Seq<Seq<char>>, pad: Seq<char>) -> Seq<Seq<char>> {
    Seq::new(
        parts.len(),
        |i: int|
            if i == 0 {
                parts[i]
            } else {
                pad + parts[i]
            },
    )
}

/// Parts joined by a separator, and what follows it, are what a cut at the
/// separator gives back.
pub proof fn lemma_split_of_joined(parts: Seq<Seq<char>>, separator: char, pad: Seq<char>)
    requires
        parts.len() > 0,
        !pad.contains(separator),
        forall|i: int| 0 <= i < parts.len() ==> !(#[trigger] parts[i]).contains(separator),
    ensures
        split_at(joined(parts, seq![separator] + pad), separator) == padded(parts, pad),
    decreases parts.len(),
{
    let between = seq![separator] + pad;
    let last = parts[parts.len() - 1];
    if parts.len() == 1 {
        let none = Seq::<char>::empty();
        assert(none + last =~= last);
        lemma_split_extends(none, last, separator);
        assert(split_at(none, separator) =~= seq![none]);
        assert(split_at(last, separator) =~= padded(parts, pad));
    } else {
        let earlier = parts.drop_last();
        lemma_split_of_joined(earlier, separator, pad);
        let start = joined(earlier, between).push(separator);
        let tail = pad + last;
        assert(joined(parts, between) =~= start + tail);
        assert(!tail.contains(separator)) by {
            if tail.contains(separator) {
                let i = choose|i: int| 0 <= i < tail.len() && tail[i] == separator;
                if i < pad.len() {
                    assert(pad[i] == separator);
                } else {
                    assert(last[i - pad.len()] == separator);
                }
            }
        }
        assert(start.drop_last() =~= joined(earlier, between));
        lemma_split_extends(start, tail, separator);
        let pieces = split_at(start, separator);
        assert(pieces.drop_last() =~= padded(earlier, pad));
        assert(pieces.last() + tail =~= tail);
        assert(pieces.drop_last().push(tail) =~= padded(parts, pad));
    }
}

/// Whether a text has no white space around it.
pub open spec fn bare(s: Seq<char>) -> bool {
    s.len() > 0 ==> !white_space(s[0]) && !white_space(s.last())
}

proof fn lemma_trimmed_start_is_a_tail(s: Seq<char>)
    ensures
        trimmed_start(s).len() <= s.len(),
        trimmed_start(s) == s.skip(s.len() - trimmed_start(s).len()),
        trimmed_start(s).len() > 0 ==> !white_space(trimmed_start(s)[0]),
    decreases s.len(),
{
    if s.len() > 0 && white_space(s[0]) {
        let rest = s.drop_first();
        lemma_trimmed_start_is_a_tail(rest);
        assert(rest.skip(rest.len() - trimmed_start(rest).len()) =~= s.skip(
            s.len() - trimmed_start(s).len(),
        ));
    } else {
        assert(s.skip(0) =~= s);
    }
}

proof fn lemma_trimmed_end_is_a_start(s: Seq<char>)
    ensures
        trimmed_end(s).len() <= s.len(),
        trimmed_end(s) == s.take(trimmed_end(s).len() as int),
        trimmed_end(s).len() > 0 ==> !white_space(trimmed_end(s).last()),
    decreases s.len(),
{
    if s.len() > 0 && white_space(s.last()) {
        let rest = s.drop_last();
        lemma_trimmed_end_is_a_start(rest);
        assert(rest.take(trimmed_end(rest).len() as int) =~= s.take(trimmed_end(s).len() as int));
    } else {
        assert(s.take(s.len() as int) =~= s);
    }
}

/// What trimming leaves has no white space around it, and every character of it
/// is the text's.
pub proof fn lemma_trimmed_is_bare(s: Seq<char>)
    ensures
        bare(trimmed(s)),
        forall|i: int| 0 <= i < trimmed(s).len() ==> s.contains(#[trigger] trimmed(s)[i]),
{
    let tail = trimmed_start(s);
    lemma_trimmed_start_is_a_tail(s);
    lemma_trimmed_end_is_a_start(tail);
    assert forall|i: int| 0 <= i < trimmed(s).len() implies s.contains(
        #[trigger] trimmed(s)[i],
    ) by {
        assert(trimmed(s)[i] == tail[i]);
        assert(tail[i] == s[s.len() - tail.len() + i]);
    }
}

/// Every character of a cut text's pieces is the text's, and none is the
/// separator.
pub proof fn lemma_pieces_are_of_the_text(s: Seq<char>, separator: char)
    ensures
        split_at(s, separator).len() > 0,
        forall|i: int, k: int|
            0 <= i < split_at(s, separator).len() && 0 <= k < split_at(s, separator)[i].len()
                ==> s.contains(#[trigger] split_at(s, separator)[i][k]) && split_at(
                s,
                separator,
            )[i][k] != separator,
    decreases s.len(),
{
    if s.len() > 0 {
        let earlier = s.drop_last();
        let before = split_at(earlier, separator);
        let pieces = split_at(s, separator);
        lemma_pieces_are_of_the_text(earlier, separator);
        assert forall|i: int, k: int|
            0 <= i < pieces.len() && 0 <= k < pieces[i].len() implies s.contains(
            #[trigger] pieces[i][k],
        ) && pieces[i][k] != separator by {
            if i < before.len() && k < before[i].len() {
                let c = before[i][k];
                assert(pieces[i][k] == c);
                assert(earlier.contains(c));
                let at = choose|at: int| 0 <= at < earlier.len() && earlier[at] == c;
                assert(s[at] == c);
            } else {
                assert(pieces[i][k] == s[s.len() - 1]);
            }
        }
    }
}

/// White space before a trimmed text is all that trimming takes away.
pub proof fn lemma_trimmed_behind_white_space(s: Seq<char>, c: char)
    requires
        trimmed(s) == s,
        white_space(c),
    ensures
        trimmed(seq![c] + s) == s,
{
    lemma_trimmed_start_is_a_tail(s);
    lemma_trimmed_end_is_a_start(trimmed_start(s));
    assert(s.skip(0) =~= s);
    assert((seq![c] + s).drop_first() =~= s);
}

/// **Trimming takes white space off both ends, and nothing else**: what is
/// left is one stretch of the text, which neither begins nor ends in white
/// space.
pub proof fn law_trimming_takes_white_space_off_both_ends(s: Seq<char>) -> (kept: (int, int))
    ensures
        0 <= kept.0 <= kept.1 <= s.len(),
        trimmed(s) == s.subrange(kept.0, kept.1),
        forall|i: int| 0 <= i < kept.0 ==> white_space(#[trigger] s[i]),
        forall|i: int| kept.1 <= i < s.len() ==> white_space(#[trigger] s[i]),
        kept.0 < kept.1 ==> !white_space(s[kept.0]) && !white_space(s[kept.1 - 1]),
{
    let from = lemma_start_of_trimmed(s);
    let tail = trimmed_start(s);
    let to = lemma_end_of_trimmed(tail);
    assert(trimmed(s) =~= s.subrange(from, from + to));
    assert forall|i: int| from + to <= i < s.len() implies white_space(#[trigger] s[i]) by {
        assert(tail[i - from] == s[i]);
    }
    if to > 0 {
        assert(tail[0] == s[from]);
        assert(tail[to - 1] == s[from + to - 1]);
    }
    (from, from + to)
}

proof fn lemma_start_of_trimmed(s: Seq<char>) -> (from: int)
    ensures
        0 <= from <= s.len(),
        trimmed_start(s) == s.skip(from),
        forall|i: int| 0 <= i < from ==> white_space(#[trigger] s[i]),
        from < s.len() ==> !white_space(s[from]),
    decreases s.len(),
{
    if s.len() > 0 && white_space(s[0]) {
        let rest = s.drop_first();
        let from = lemma_start_of_trimmed(rest);
        assert(rest.skip(from) =~= s.skip(from + 1));
        assert forall|i: int| 0 <= i < from + 1 implies white_space(#[trigger] s[i]) by {
            if i > 0 {
                assert(rest[i - 1] == s[i]);
            }
        }
        if from < rest.len() {
            assert(rest[from] == s[from + 1]);
        }
        from + 1
    } else {
        assert(s.skip(0) =~= s);
        0
    }
}

proof fn lemma_end_of_trimmed(s: Seq<char>) -> (to: int)
    ensures
        0 <= to <= s.len(),
        trimmed_end(s) == s.take(to),
        forall|i: int| to <= i < s.len() ==> white_space(#[trigger] s[i]),
        to > 0 ==> !white_space(s[to - 1]),
    decreases s.len(),
{
    if s.len() > 0 && white_space(s.last()) {
        let rest = s.drop_last();
        let to = lemma_end_of_trimmed(rest);
        assert(rest.take(to) =~= s.take(to));
        assert forall|i: int| to <= i < s.len() implies white_space(#[trigger] s[i]) by {
            if i < rest.len() {
                assert(rest[i] == s[i]);
            }
        }
        if to > 0 {
            assert(rest[to - 1] == s[to - 1]);
        }
        to
    } else {
        assert(s.take(s.len() as int) =~= s);
        s.len() as int
    }
}

/// **A cut text is the whole text**: the pieces joined by the separator are
/// what was cut, and no piece holds one.
pub proof fn law_a_cut_text_joins_back(s: Seq<char>, separator: char)
    ensures
        split_at(s, separator).len() > 0,
        joined(split_at(s, separator), seq![separator]) == s,
        forall|i: int|
            0 <= i < split_at(s, separator).len() ==> !(#[trigger] split_at(
                s,
                separator,
            )[i]).contains(separator),
    decreases s.len(),
{
    let pieces = split_at(s, separator);
    let sep = seq![separator];
    if s.len() == 0 {
        assert(joined(pieces, sep) =~= s);
    } else {
        let before = split_at(s.drop_last(), separator);
        law_a_cut_text_joins_back(s.drop_last(), separator);
        if s.last() == separator {
            assert(pieces.drop_last() =~= before);
            assert(joined(pieces, sep) =~= s);
            assert forall|i: int| 0 <= i < pieces.len() implies !(#[trigger] pieces[i]).contains(
                separator,
            ) by {
                if i < before.len() {
                    assert(pieces[i] == before[i]);
                }
            }
        } else {
            let last = before.last();
            assert(pieces.drop_last() =~= before.drop_last());
            assert(pieces.last() == last.push(s.last()));
            if before.len() == 1 {
                assert(joined(pieces, sep) =~= joined(before, sep).push(s.last()));
            } else {
                assert(joined(pieces, sep) =~= joined(before, sep).push(s.last()));
            }
            assert(joined(pieces, sep) =~= s);
            assert forall|i: int| 0 <= i < pieces.len() implies !(#[trigger] pieces[i]).contains(
                separator,
            ) by {
                if i < before.len() - 1 {
                    assert(pieces[i] == before[i]);
                } else {
                    assert(before[before.len() - 1] == last);
                    if pieces[i].contains(separator) {
                        let k = choose|k: int|
                            0 <= k < pieces[i].len() && pieces[i][k] == separator;
                        assert(last[k] == separator);
                    }
                }
            }
        }
    }
}

/// **A number is its digits**: at least one, and nothing else but a plus sign
/// before them; each digit more is worth ten times what stands before it and
/// itself.
pub proof fn law_a_number_is_its_digits(s: Seq<char>, c: char)
    ensures
        number_in(s) is Some <==> {
            let from = if s.len() > 0 && s[0] == '+' {
                1int
            } else {
                0
            };
            s.len() > from && forall|i: int| from <= i < s.len() ==> '0' <= #[trigger] s[i] <= '9'
        },
        '0' <= c <= '9' && number_in(s) is Some ==> number_in(s.push(c)) == Some(
            (10 * number_in(s)->0 + (c as int - '0' as int)) as nat,
        ),
        '0' <= c <= '9' ==> number_in(seq![c]) == Some((c as int - '0' as int) as nat),
{
    let digits = unsigned(s);
    let from = if s.len() > 0 && s[0] == '+' {
        1int
    } else {
        0
    };
    assert(digits =~= s.skip(from));
    assert(all_digits(digits) <==> forall|i: int|
        from <= i < s.len() ==> '0' <= #[trigger] s[i] <= '9') by {
        if all_digits(digits) {
            assert forall|i: int| from <= i < s.len() implies '0' <= #[trigger] s[i] <= '9' by {
                assert(is_digit(digits[i - from]));
            }
        }
        if forall|i: int| from <= i < s.len() ==> '0' <= #[trigger] s[i] <= '9' {
            assert forall|i: int| 0 <= i < digits.len() implies is_digit(#[trigger] digits[i]) by {
                assert(s[i + from] == digits[i]);
            }
        }
    }
    if '0' <= c <= '9' {
        let one = seq![c];
        assert(unsigned(one) =~= one);
        assert(one.drop_last() =~= Seq::<char>::empty());
        assert(digits_value(one.drop_last()) == 0);
        assert(digits_value(one) == (c as int - '0' as int) as nat);
        if number_in(s) is Some {
            let more = s.push(c);
            assert(unsigned(more) =~= digits.push(c));
            assert(digits.push(c).drop_last() =~= digits);
            assert(all_digits(digits.push(c))) by {
                assert forall|i: int| 0 <= i < digits.push(c).len() implies is_digit(
                    #[trigger] digits.push(c)[i],
                ) by {
                    if i < digits.len() {
                        assert(is_digit(digits[i]));
                    }
                }
            }
        }
    }
}

} // verus!
