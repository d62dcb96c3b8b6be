//! Words of text: splitting a line at whitespace, reading a number, telling
//! the keywords, and joining words again.

use vstd::prelude::*;
use vstd::string::{StrSliceExecFns, StringExecFns};
use crate::model::Keyword;

verus! {

/// The characters that separate words: those with the Unicode property
/// `White_Space`.
pub open spec fn is_space(c: char) -> bool {
    let u = c as u32;
    ||| 0x09 <= u <= 0x0D
    ||| u == 0x20
    ||| u == 0x85
    ||| u == 0xA0
    ||| u == 0x1680
    ||| 0x2000 <= u <= 0x200A
    ||| u == 0x2028
    ||| u == 0x2029
    ||| u == 0x202F
    ||| u == 0x205F
    ||| u == 0x3000
}

/// The words of a text, in order: its maximal runs of characters that are
/// no whitespace. Read from the left, a character that is no whitespace
/// extends the word that the character before it belongs to, or begins a
/// new one.
pub open spec fn words(s: Seq<char>) -> Seq<Seq<char>>
    decreases s.len(),
{
    if s.len() == 0 {
        Seq::empty()
    } else {
        let before = words(s.drop_last());
        if is_space(s.last()) {
            before
        } else if s.len() >= 2 && !is_space(s[s.len() - 2]) && before.len() > 0 {
            before.drop_last().push(before.last().push(s.last()))
        } else {
            before.push(seq![s.last()])
        }
    }
}

/// The views of a sequence of strings, in order.
pub open spec fn texts(strings: Seq<String>) -> Seq<Seq<char>> {
    Seq::new(strings.len(), |i: int| strings[i]@)
}

/// The words joined again, with `sep` between each two neighbours.
pub open spec fn joined(words: Seq<Seq<char>>, sep: Seq<char>) -> Seq<char>
    decreases words.len(),
{
    if words.len() == 0 {
        Seq::empty()
    } else if words.len() == 1 {
        words[0]
    } else {
        joined(words.drop_last(), sep) + sep + words.last()
    }
}

/// Whether the character is one of `0` to `9`.
pub open spec fn is_digit(c: char) -> bool {
    0x30 <= c as u32 <= 0x39
}

/// The number that a sequence of decimal digits writes.
pub open spec fn digits_value(digits: Seq<char>) -> int
    decreases digits.len(),
{
    if digits.len() == 0 {
        0
    } else {
        digits_value(digits.drop_last()) * 10 + (digits.last() as u32 - 0x30)
    }
}

/// Whether every character of the sequence is a decimal digit.
pub open spec fn all_digits(digits: Seq<char>) -> bool {
    forall|i: int| 0 <= i < digits.len() ==> is_digit(#[trigger] digits[i])
}

/// The number that a word writes, if it writes one: an optional `+` or `-`,
/// then one or more decimal digits and nothing else, with a value that fits
/// in 64 bits.
pub open spec fn number_value(word: Seq<char>) -> Option<i64> {
    let signed = word.len() > 0 && (word[0] == '-' || word[0] == '+');
    let digits = if signed {
        word.subrange(1, word.len() as int)
    } else {
        word
    };
    let magnitude = digits_value(digits);
    let value = if word.len() > 0 && word[0] == '-' {
        -magnitude
    } else {
        magnitude
    };
    if digits.len() > 0 && all_digits(digits) && i64::MIN <= value <= i64::MAX {
        Some(value as i64)
    } else {
        None
    }
}

/// The keyword that a word spells, if it spells one.
pub open spec fn keyword_of(word: Seq<char>) -> Option<Keyword> {
    if word == seq!['i', 'f'] {
        Some(Keyword::If)
    } else if word == seq!['e', 'l', 's', 'e'] {
        Some(Keyword::Else)
    } else if word == seq!['t', 'h', 'e', 'n'] {
        Some(Keyword::Then)
    } else if word == seq!['d', 'o'] {
        Some(Keyword::Do)
    } else {
        None
    }
}

/// Calls `itertools::join`, which writes each item with `Display`, here a
/// string's own text, and `sep` between each two: nothing before the first
/// item or after the last, and the empty string for no items.
#[verifier::external_body]
pub(crate) fn join(words: &Vec<String>, sep: &str) -> (text: String)
    ensures
        text@ == joined(texts(words@), sep@),
{
    itertools::join(words, sep)
}

/// Digits never write a negative number, and more digits never write a
/// smaller one.
proof fn lemma_digits_grow(digits: Seq<char>, k: int)
    requires
        0 <= k <= digits.len(),
        all_digits(digits),
    ensures
        0 <= digits_value(digits.take(k)) <= digits_value(digits),
    decreases digits.len(),
{
    if k == digits.len() {
        assert(digits.take(k) =~= digits);
        if k > 0 {
            lemma_digits_grow(digits.drop_last(), k - 1);
        }
    } else {
        let front = digits.drop_last();
        assert(front.take(k) =~= digits.take(k));
        lemma_digits_grow(front, k);
    }
}

/// Reads a word as a number: an optional sign, then decimal digits only,
/// with a value that fits in 64 bits.
pub fn parse_number(word: &str) -> (n: Option<i64>)
    ensures
        n == number_value(word@),
{
    let len = word.unicode_len();
    if len == 0 {
        return None;
    }
    let first = word.get_char(0);
    let negative = first == '-';
    let start: usize = if first == '-' || first == '+' {
        1
    } else {
        0
    };
    if start == len {
        return None;
    }
    let ghost digits = word@.subrange(start as int, len as int);
    // The digits read so far are held as the negative of their value, which
    // reaches the least 64-bit number.
    let mut below: i64 = 0;
    let mut i: usize = start;
    while i < len
        invariant
            start <= i <= len,
            0 < len == word@.len(),
            first == word@[0],
            negative == (first == '-'),
            start == (if first == '-' || first == '+' {
                1int
            } else {
                0int
            }),
            digits == word@.subrange(start as int, len as int),
            start == 0 ==> digits == word@,
            all_digits(digits.take(i - start)),
            below == -digits_value(digits.take(i - start)),
        decreases len - i,
    {
        let c = word.get_char(i);
        let u = c as u32;
        let ghost read = digits.take(i - start);
        let ghost next = digits.take(i - start + 1);
        proof {
            assert(digits[i - start] == c);
            assert(next.drop_last() =~= read);
        }
        if u < 0x30 || u > 0x39 {
            return None;
        }
        proof {
            assert(all_digits(next));
            if all_digits(digits) {
                lemma_digits_grow(digits, i - start + 1);
            }
        }
        let d = (u - 0x30) as i64;
        match below.checked_mul(10) {
            Some(tenfold) => match tenfold.checked_sub(d) {
                Some(v) => {
                    below = v;
                },
                None => {
                    return None;
                },
            },
            None => {
                return None;
            },
        }
        i += 1;
    }
    assert(digits.take(len - start) =~= digits);
    if negative {
        Some(below)
    } else if below == i64::MIN {
        None
    } else {
        Some(-below)
    }
}

/// Whether the character separates words.
pub fn is_whitespace(c: char) -> (b: bool)
    ensures
        b == is_space(c),
{
    let u = c as u32;
    (0x09 <= u && u <= 0x0D) || u == 0x20 || u == 0x85 || u == 0xA0 || u == 0x1680 || (0x2000 <= u
        && u <= 0x200A) || u == 0x2028 || u == 0x2029 || u == 0x202F || u == 0x205F || u
        == 0x3000
}

/// Whether two texts are the same, character by character.
pub fn same_text(a: &str, b: &str) -> (same: bool)
    ensures
        same == (a@ == b@),
{
    let n = a.unicode_len();
    if b.unicode_len() != n {
        return false;
    }
    let mut i: usize = 0;
    while i < n
        invariant
            i <= n,
            n == a@.len(),
            n == b@.len(),
            forall|j: int| 0 <= j < i ==> a@[j] == b@[j],
        decreases n - i,
    {
        if a.get_char(i) != b.get_char(i) {
            return false;
        }
        i += 1;
    }
    assert(a@ =~= b@);
    true
}

/// The keyword that the word spells, if any.
pub fn keyword(word: &str) -> (kw: Option<Keyword>)
    ensures
        kw == keyword_of(word@),
{
    proof {
        reveal_strlit("if");
        reveal_strlit("else");
        reveal_strlit("then");
        reveal_strlit("do");
        assert("if"@ =~= seq!['i', 'f']);
        assert("else"@ =~= seq!['e', 'l', 's', 'e']);
        assert("then"@ =~= seq!['t', 'h', 'e', 'n']);
        assert("do"@ =~= seq!['d', 'o']);
    }
    if same_text(word, "if") {
        Some(Keyword::If)
    } else if same_text(word, "else") {
        Some(Keyword::Else)
    } else if same_text(word, "then") {
        Some(Keyword::Then)
    } else if same_text(word, "do") {
        Some(Keyword::Do)
    } else {
        None
    }
}

/// Splits a line into its words.
pub fn split_words(input: &str) -> (out: Vec<String>)
    ensures
        texts(out@) == words(input@),
{
    let n = input.unicode_len();
    let mut out: Vec<String> = Vec::new();
    let mut start: usize = 0;
    let mut in_word = false;
    let mut i: usize = 0;
    while i < n
        invariant
            i <= n,
            n == input@.len(),
            in_word ==> start < i && !is_space(input@[i - 1]) && words(input@.take(i as int))
                == texts(out@).push(input@.subrange(start as int, i as int)),
            !in_word ==> (i == 0 || is_space(input@[i - 1])) && words(input@.take(i as int))
                == texts(out@),
        decreases n - i,
    {
        let c = input.get_char(i);
        let ghost prefix = input@.take(i as int);
        let ghost next = input@.take(i + 1);
        proof {
            assert(next.drop_last() =~= prefix);
        }
        if is_whitespace(c) {
            if in_word {
                out.push(input.substring_char(start, i).to_owned());
                in_word = false;
            }
        } else if in_word {
            proof {
                let w = texts(out@).push(input@.subrange(start as int, i as int));
                assert(w.last().push(c) =~= input@.subrange(start as int, i + 1));
            }
        } else {
            proof {
                assert(seq![c] =~= input@.subrange(i as int, i + 1));
            }
            start = i;
            in_word = true;
        }
        i += 1;
    }
    assert(input@.take(n as int) =~= input@);
    if in_word {
        out.push(input.substring_char(start, n).to_owned());
    }
    out
}

/// The character that writes the digit `d`.
pub open spec fn digit_char(d: int) -> char
    recommends
        0 <= d <= 9,
{
    (0x30 + d) as u8 as char
}

/// The decimal digits of a number that is not negative, without leading
/// zeros; `0` for zero.
pub open spec fn digits_of(m: nat) -> Seq<char>
    decreases m,
{
    if m < 10 {
        seq![digit_char(m as int)]
    } else {
        digits_of(m / 10).push(digit_char((m % 10) as int))
    }
}

/// The decimal text of an integer: its digits, after a `-` where it is
/// negative.
pub open spec fn decimal(n: int) -> Seq<char> {
    if n < 0 {
        seq!['-'] + digits_of((-n) as nat)
    } else {
        digits_of(n as nat)
    }
}

/// What printing the values writes: the decimal text of each, in order,
/// each followed by a newline.
pub open spec fn lines(values: Seq<i64>) -> Seq<char>
    decreases values.len(),
{
    if values.len() == 0 {
        Seq::empty()
    } else {
        lines(values.drop_last()) + decimal(values.last() as int) + seq!['\n']
    }
}

/// The text of one digit.
fn digit_text(d: u8) -> (text: &'static str)
    requires
        d <= 9,
    ensures
        text@ == seq![digit_char(d as int)],
{
    proof {
        reveal_strlit("0");
        reveal_strlit("1");
        reveal_strlit("2");
        reveal_strlit("3");
        reveal_strlit("4");
        reveal_strlit("5");
        reveal_strlit("6");
        reveal_strlit("7");
        reveal_strlit("8");
        reveal_strlit("9");
    }
    let text = match d {
        0 => "0",
        1 => "1",
        2 => "2",
        3 => "3",
        4 => "4",
        5 => "5",
        6 => "6",
        7 => "7",
        8 => "8",
        _ => "9",
    };
    text
}

/// Appends the decimal digits of `m` to the text.
fn append_digits(text: &mut String, m: u64)
    ensures
        final(text)@ == old(text)@ + digits_of(m as nat),
    decreases m,
{
    if m >= 10 {
        append_digits(text, m / 10);
    }
    text.append(digit_text((m % 10) as u8));
}

/// Appends the decimal text of `n` to the text.
pub fn append_decimal(text: &mut String, n: i64)
    ensures
        final(text)@ == old(text)@ + decimal(n as int),
{
    if n < 0 {
        proof {
            reveal_strlit("-");
        }
        text.append("-");
        let magnitude: u64 = if n == i64::MIN {
            0x8000_0000_0000_0000
        } else {
            (-n) as u64
        };
        append_digits(text, magnitude);
    } else {
        append_digits(text, n as u64);
    }
}

/// What printing the values writes: one line for each.
pub fn print_lines(values: &Vec<i64>) -> (text: String)
    ensures
        text@ == lines(values@),
{
    let mut text = String::new();
    let mut i: usize = 0;
    while i < values.len()
        invariant
            i <= values@.len(),
            text@ == lines(values@.take(i as int)),
        decreases values@.len() - i,
    {
        proof {
            reveal_strlit("\n");
            assert(values@.take(i + 1).drop_last() =~= values@.take(i as int));
        }
        append_decimal(&mut text, values[i]);
        text.append("\n");
        i += 1;
    }
    assert(values@.take(values@.len() as int) =~= values@);
    text
}

} // verus!
