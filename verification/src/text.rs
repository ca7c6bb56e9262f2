//! Text helpers: characters of a string and trimming of white space.

use vstd::prelude::*;
use crate::encoding::string_from_chars;

verus! {

/// Whether `c` has the Unicode `White_Space` property, which is what
/// `char::is_whitespace` and `str::trim` go by: the ASCII tab, line feed,
/// vertical tab, form feed, carriage return and space, the next line
/// character, the no-break space, the Ogham space mark, the spaces from the
/// en quad to the hair space, the line and paragraph separators, the narrow
/// no-break space, the medium mathematical space and the ideographic space.
pub open spec fn unicode_whitespace(c: char) -> bool {
    let v = c as u32;
    ||| 0x09 <= v <= 0x0d
    ||| v == 0x20
    ||| v == 0x85
    ||| v == 0xa0
    ||| v == 0x1680
    ||| 0x2000 <= v <= 0x200a
    ||| v == 0x2028
    ||| v == 0x2029
    ||| v == 0x202f
    ||| v == 0x205f
    ||| v == 0x3000
}

/// Whether `c` is white space.
pub fn is_whitespace(c: char) -> (white: bool)
    ensures
        white == unicode_whitespace(c),
{
    let v = c as u32;
    (0x09 <= v && v <= 0x0d) || v == 0x20 || v == 0x85 || v == 0xa0 || v == 0x1680 || (0x2000 <= v && v <= 0x200a)
        || v == 0x2028 || v == 0x2029 || v == 0x202f || v == 0x205f || v == 0x3000
}

/// The characters of `text`, in order.
pub fn chars_of(text: &str) -> (chars: Vec<char>)
    ensures
        chars@ == text@,
{
    broadcast use vstd::string::axiom_spec_iter;
    let mut chars: Vec<char> = Vec::new();
    for c in it: text.chars()
        invariant
            it.seq() == text@,
            chars@ == it.seq().take(it.index() as int),
    {
        chars.push(c);
    }
    assert(chars@ =~= text@);
    chars
}

/// `text` without the white space it starts with.
pub open spec fn trim_start(text: Seq<char>) -> Seq<char>
    decreases text.len(),
{
    if text.len() > 0 && unicode_whitespace(text[0]) {
        trim_start(text.drop_first())
    } else {
        text
    }
}

/// `text` without the white space it ends with.
pub open spec fn trim_end(text: Seq<char>) -> Seq<char>
    decreases text.len(),
{
    if text.len() > 0 && unicode_whitespace(text.last()) {
        trim_end(text.drop_last())
    } else {
        text
    }
}

/// `text` without white space at either end, as `str::trim` gives it.
pub open spec fn trimmed(text: Seq<char>) -> Seq<char> {
    trim_end(trim_start(text))
}

/// Copies `chars[start..end]` into a new vector.
pub fn copy_range(chars: &Vec<char>, start: usize, end: usize) -> (part: Vec<char>)
    requires
        start <= end <= chars@.len(),
    ensures
        part@ == chars@.subrange(start as int, end as int),
{
    let mut part: Vec<char> = Vec::new();
    let mut i: usize = start;
    while i < end
        invariant
            start <= i <= end,
            end <= chars@.len(),
            part@ == chars@.subrange(start as int, i as int),
        decreases end - i,
    {
        part.push(chars[i]);
        i = i + 1;
        assert(part@ =~= chars@.subrange(start as int, i as int));
    }
    part
}

/// The characters of `chars` without white space at either end.
pub fn trim_chars(chars: &Vec<char>) -> (part: Vec<char>)
    ensures
        part@ == trimmed(chars@),
{
    let mut start: usize = 0;
    assert(chars@.subrange(0, chars@.len() as int) =~= chars@);
    while start < chars.len() && is_whitespace(chars[start])
        invariant
            start <= chars@.len(),
            trim_start(chars@) == trim_start(chars@.subrange(start as int, chars@.len() as int)),
        decreases chars@.len() - start,
    {
        assert(chars@.subrange(start as int, chars@.len() as int).drop_first() =~= chars@.subrange(
            start + 1,
            chars@.len() as int,
        ));
        start = start + 1;
    }
    let mut end: usize = chars.len();
    let ghost rest = chars@.subrange(start as int, chars@.len() as int);
    assert(trim_start(chars@) == rest);
    assert(rest.subrange(0, rest.len() as int) =~= rest);
    while end > start && is_whitespace(chars[end - 1])
        invariant
            start <= end <= chars@.len(),
            rest == chars@.subrange(start as int, chars@.len() as int),
            trim_end(rest) == trim_end(chars@.subrange(start as int, end as int)),
        decreases end - start,
    {
        assert(chars@.subrange(start as int, end as int).drop_last() =~= chars@.subrange(start as int, end - 1));
        end = end - 1;
    }
    copy_range(chars, start, end)
}

/// `str::trim`: `text` without white space at either end.
pub fn trim(text: &str) -> (part: String)
    ensures
        part@ == trimmed(text@),
{
    let chars = chars_of(text);
    let part = trim_chars(&chars);
    string_from_chars(&part)
}

/// The pieces of `text` between occurrences of `separator`, the first one
/// starting with `current`.
pub open spec fn split_from(text: Seq<char>, separator: char, current: Seq<char>) -> Seq<Seq<char>>
    decreases text.len(),
{
    if text.len() == 0 {
        seq![current]
    } else if text[0] == separator {
        seq![current] + split_from(text.drop_first(), separator, Seq::empty())
    } else {
        split_from(text.drop_first(), separator, current.push(text[0]))
    }
}

/// The pieces of `text` between occurrences of `separator`, as `str::split`
/// gives them: one more than there are separators, empty ones included.
pub open spec fn split_on(text: Seq<char>, separator: char) -> Seq<Seq<char>> {
    split_from(text, separator, Seq::empty())
}

/// Splits `chars` at every `separator`.
pub fn split_chars(chars: &Vec<char>, separator: char) -> (pieces: Vec<Vec<char>>)
    ensures
        pieces@.len() == split_on(chars@, separator).len(),
        forall|i: int| 0 <= i < pieces@.len() ==> (#[trigger] pieces@[i])@ == split_on(chars@, separator)[i],
{
    let mut pieces: Vec<Vec<char>> = Vec::new();
    let ghost mut done: Seq<Seq<char>> = Seq::empty();
    let mut current: Vec<char> = Vec::new();
    let mut i: usize = 0;
    assert(chars@.skip(0) =~= chars@);
    while i < chars.len()
        invariant
            i <= chars@.len(),
            pieces@.len() == done.len(),
            forall|k: int| 0 <= k < pieces@.len() ==> (#[trigger] pieces@[k])@ == done[k],
            split_on(chars@, separator) == done + split_from(chars@.skip(i as int), separator, current@),
        decreases chars@.len() - i,
    {
        let c = chars[i];
        assert(chars@.skip(i as int).drop_first() =~= chars@.skip(i + 1));
        if c == separator {
            let finished = current;
            current = Vec::new();
            proof {
                assert(done + split_from(chars@.skip(i as int), separator, finished@) =~= done.push(finished@)
                    + split_from(chars@.skip(i + 1), separator, Seq::empty()));
                done = done.push(finished@);
            }
            pieces.push(finished);
        } else {
            current.push(c);
        }
        i = i + 1;
    }
    proof {
        assert(chars@.skip(i as int) =~= Seq::<char>::empty());
        assert(done + split_from(chars@.skip(i as int), separator, current@) =~= done.push(current@));
        done = done.push(current@);
    }
    pieces.push(current);
    pieces
}

/// Where `c` first occurs in `text`.
pub open spec fn find_first(text: Seq<char>, c: char) -> Option<int>
    decreases text.len(),
{
    if text.len() == 0 {
        None
    } else if text[0] == c {
        Some(0)
    } else {
        match find_first(text.drop_first(), c) {
            Some(i) => Some(i + 1),
            None => None,
        }
    }
}

proof fn lemma_find_first(text: Seq<char>, c: char, i: int)
    requires
        0 <= i <= text.len(),
        forall|j: int| 0 <= j < i ==> text[j] != c,
        i == text.len() || text[i] == c,
    ensures
        find_first(text, c) == if i == text.len() { None::<int> } else { Some(i) },
    decreases i,
{
    if i > 0 {
        lemma_find_first(text.drop_first(), c, i - 1);
    }
}

/// The index of the first `c` in `chars`.
pub fn position_of(chars: &Vec<char>, c: char) -> (found: Option<usize>)
    ensures
        match found {
            Some(i) => find_first(chars@, c) == Some(i as int) && i < chars@.len() && chars@[i as int] == c,
            None => find_first(chars@, c) is None,
        },
{
    let mut i: usize = 0;
    while i < chars.len()
        invariant
            i <= chars@.len(),
            forall|j: int| 0 <= j < i ==> chars@[j] != c,
        decreases chars@.len() - i,
    {
        if chars[i] == c {
            proof {
                lemma_find_first(chars@, c, i as int);
            }
            return Some(i);
        }
        i = i + 1;
    }
    proof {
        lemma_find_first(chars@, c, i as int);
    }
    None
}

/// The words of `text` (maximal runs of characters other than white
/// space), the first one starting with `current`, as `str::split_whitespace`
/// gives them.
pub open spec fn words_from(text: Seq<char>, current: Seq<char>) -> Seq<Seq<char>>
    decreases text.len(),
{
    if text.len() == 0 {
        if current.len() > 0 {
            seq![current]
        } else {
            Seq::empty()
        }
    } else if unicode_whitespace(text[0]) {
        (if current.len() > 0 {
            seq![current]
        } else {
            Seq::empty()
        }) + words_from(text.drop_first(), Seq::empty())
    } else {
        words_from(text.drop_first(), current.push(text[0]))
    }
}

pub open spec fn words(text: Seq<char>) -> Seq<Seq<char>> {
    words_from(text, Seq::empty())
}

/// Splits `chars` into words separated by white space.
pub fn split_words(chars: &Vec<char>) -> (pieces: Vec<Vec<char>>)
    ensures
        pieces@.len() == words(chars@).len(),
        forall|i: int| 0 <= i < pieces@.len() ==> (#[trigger] pieces@[i])@ == words(chars@)[i],
{
    let mut pieces: Vec<Vec<char>> = Vec::new();
    let ghost mut done: Seq<Seq<char>> = Seq::empty();
    let mut current: Vec<char> = Vec::new();
    let mut i: usize = 0;
    assert(chars@.skip(0) =~= chars@);
    while i < chars.len()
        invariant
            i <= chars@.len(),
            pieces@.len() == done.len(),
            forall|k: int| 0 <= k < pieces@.len() ==> (#[trigger] pieces@[k])@ == done[k],
            words(chars@) == done + words_from(chars@.skip(i as int), current@),
        decreases chars@.len() - i,
    {
        let c = chars[i];
        assert(chars@.skip(i as int).drop_first() =~= chars@.skip(i + 1));
        if is_whitespace(c) {
            if current.len() > 0 {
                let finished = current;
                current = Vec::new();
                proof {
                    assert(done + words_from(chars@.skip(i as int), finished@) =~= done.push(finished@)
                        + words_from(chars@.skip(i + 1), Seq::empty()));
                    done = done.push(finished@);
                }
                pieces.push(finished);
            } else {
                proof {
                    assert(current@ =~= Seq::<char>::empty());
                    assert(done + words_from(chars@.skip(i as int), current@) =~= done + words_from(
                        chars@.skip(i + 1),
                        Seq::empty(),
                    ));
                }
            }
        } else {
            current.push(c);
        }
        i = i + 1;
    }
    proof {
        assert(chars@.skip(i as int) =~= Seq::<char>::empty());
    }
    if current.len() > 0 {
        proof {
            assert(done + words_from(chars@.skip(i as int), current@) =~= done.push(current@));
            done = done.push(current@);
        }
        pieces.push(current);
    } else {
        assert(done + words_from(chars@.skip(i as int), current@) =~= done);
    }
    pieces
}

/// The first line of `text`, as `str::lines` gives it: up to the first
/// line feed, without a carriage return before it.
pub open spec fn first_line(text: Seq<char>) -> Seq<char> {
    let line = match find_first(text, '\n') {
        Some(end) => text.subrange(0, end),
        None => text,
    };
    if line.len() > 0 && line.last() == '\r' {
        line.drop_last()
    } else {
        line
    }
}

/// The characters of the first line of `chars`.
pub fn first_line_of(chars: &Vec<char>) -> (line: Vec<char>)
    ensures
        line@ == first_line(chars@),
{
    let end = match position_of(chars, '\n') {
        Some(end) => end,
        None => chars.len(),
    };
    let mut line = copy_range(chars, 0, end);
    assert(chars@.subrange(0, chars@.len() as int) =~= chars@);
    if line.len() > 0 && line[line.len() - 1] == '\r' {
        line.pop();
    }
    line
}

/// Whether `c` is an ASCII digit.
pub open spec fn is_digit(c: char) -> bool {
    '0' <= c <= '9'
}

/// The number that ASCII digits spell in base ten.
pub open spec fn digits_value(digits: Seq<char>) -> nat
    decreases digits.len(),
{
    if digits.len() == 0 {
        0
    } else {
        digits_value(digits.drop_last()) * 10 + (digits.last() as nat - 48) as nat
    }
}

/// `text` without a leading plus sign.
pub open spec fn unsigned_part(text: Seq<char>) -> Seq<char> {
    if text.len() > 0 && text[0] == '+' {
        text.drop_first()
    } else {
        text
    }
}

/// Every character is an ASCII digit.
pub open spec fn all_digits(text: Seq<char>) -> bool {
    forall|i: int| 0 <= i < text.len() ==> is_digit(#[trigger] text[i])
}

/// `u64::from_str`: an optional plus sign then at least one ASCII digit,
/// with a value that fits.
pub open spec fn parse_u64(text: Seq<char>) -> Option<u64> {
    let digits = unsigned_part(text);
    if digits.len() > 0 && all_digits(digits) && digits_value(digits) <= u64::MAX {
        Some(digits_value(digits) as u64)
    } else {
        None
    }
}

/// Parses an unsigned decimal number.
pub fn parse_u64_chars(text: &Vec<char>) -> (value: Option<u64>)
    ensures
        value == parse_u64(text@),
{
    let start: usize = if text.len() > 0 && text[0] == '+' { 1 } else { 0 };
    let ghost digits = unsigned_part(text@);
    assert(digits =~= text@.subrange(start as int, text@.len() as int));
    if start >= text.len() {
        return None;
    }
    let mut value: u64 = 0;
    let mut i: usize = start;
    while i < text.len()
        invariant
            start <= i <= text@.len(),
            start as int == (if text@.len() > 0 && text@[0] == '+' { 1int } else { 0int }),
            digits == unsigned_part(text@),
            digits =~= text@.subrange(start as int, text@.len() as int),
            forall|j: int| start <= j < i ==> is_digit(#[trigger] text@[j]),
            value == digits_value(text@.subrange(start as int, i as int)),
        decreases text@.len() - i,
    {
        let c = text[i];
        assert(digits[i - start] == text@[i as int]);
        if !('0' <= c && c <= '9') {
            assert(!is_digit(digits[i - start]));
            return None;
        }
        let d: u64 = (c as u32 - 48) as u64;
        assert(text@.subrange(start as int, i + 1).drop_last() =~= text@.subrange(start as int, i as int));
        if value > (u64::MAX - d) / 10 {
            proof {
                assert(value * 10 + d > u64::MAX) by (nonlinear_arith)
                    requires
                        value > (u64::MAX - d) / 10,
                        d <= 9,
                ;
                assert(digits_value(text@.subrange(start as int, i + 1)) == value * 10 + d);
                assert(digits.subrange(0, (i - start) as int + 1) =~= text@.subrange(start as int, i + 1));
                if all_digits(digits) {
                    lemma_digits_grow(digits, (i - start) as int + 1);
                }
            }
            return None;
        }
        value = value * 10 + d;
        i = i + 1;
    }
    assert(text@.subrange(start as int, text@.len() as int) =~= digits);
    Some(value)
}

/// A prefix of digits is worth no more than the whole.
proof fn lemma_digits_grow(digits: Seq<char>, n: int)
    requires
        0 <= n <= digits.len(),
        forall|j: int| 0 <= j < digits.len() ==> is_digit(#[trigger] digits[j]),
    ensures
        digits_value(digits.subrange(0, n)) <= digits_value(digits),
    decreases digits.len() - n,
{
    if n < digits.len() {
        lemma_digits_grow(digits, n + 1);
        assert(digits.subrange(0, n + 1).drop_last() =~= digits.subrange(0, n));
    } else {
        assert(digits.subrange(0, n) =~= digits);
    }
}

} // verus!
