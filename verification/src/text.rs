//! Character-level helpers on which the tokenizer and the engine rest.

use vstd::prelude::*;

verus! {

/// A set of characters that a scan may run over.
#[derive(Debug, Clone, Copy)]
pub enum CharClass {
    /// Unicode white space.
    Whitespace,
    /// The ASCII letters.
    Letter,
    /// The ASCII digits.
    Digit,
    /// The ASCII letters and digits and `_`.
    Word,
    /// One character only.
    Only(char),
    /// Every character but one.
    Except(char),
}

/// Unicode's `White_Space` property, by code point.
pub open spec fn is_whitespace(c: char) -> bool {
    let n = c as u32;
    ||| 0x09 <= n <= 0x0D
    ||| n == 0x20
    ||| n == 0x85
    ||| n == 0xA0
    ||| n == 0x1680
    ||| 0x2000 <= n <= 0x200A
    ||| n == 0x2028
    ||| n == 0x2029
    ||| n == 0x202F
    ||| n == 0x205F
    ||| n == 0x3000
}

/// Whether a character is an ASCII letter.
pub open spec fn is_letter(c: char) -> bool {
    'a' <= c <= 'z' || 'A' <= c <= 'Z'
}

/// Whether a character is an ASCII digit.
pub open spec fn is_digit(c: char) -> bool {
    '0' <= c <= '9'
}

/// Whether a character belongs to a class.
pub open spec fn in_class(c: char, class: CharClass) -> bool {
    match class {
        CharClass::Whitespace => is_whitespace(c),
        CharClass::Letter => is_letter(c),
        CharClass::Digit => is_digit(c),
        CharClass::Word => is_letter(c) || is_digit(c) || c == '_',
        CharClass::Only(x) => c == x,
        CharClass::Except(x) => c != x,
    }
}

/// The number of characters of `class` that stand in a row from `pos` on.
pub open spec fn run_length(text: Seq<char>, pos: int, class: CharClass) -> nat
    decreases text.len() - pos,
{
    if 0 <= pos < text.len() && in_class(text[pos], class) {
        1 + run_length(text, pos + 1, class)
    } else {
        0
    }
}

/// The number of characters of `class` that stand in a row before `end`.
pub open spec fn run_length_back(text: Seq<char>, end: int, class: CharClass) -> nat
    decreases end,
{
    if 0 < end <= text.len() && in_class(text[end - 1], class) {
        1 + run_length_back(text, end - 1, class)
    } else {
        0
    }
}

/// The text without the white space at its two ends.
pub open spec fn trim(text: Seq<char>) -> Seq<char> {
    let start = run_length(text, 0, CharClass::Whitespace) as int;
    let end = text.len() - run_length_back(text, text.len() as int, CharClass::Whitespace);
    if start <= end {
        text.subrange(start, end)
    } else {
        Seq::empty()
    }
}

/// The pieces between the separators, from `pos` on: one more than there are
/// separators.
pub open spec fn split_from(text: Seq<char>, pos: int, separator: char) -> Seq<Seq<char>>
    decreases text.len() - pos,
{
    let end = pos + run_length(text, pos, CharClass::Except(separator));
    if 0 <= pos <= end < text.len() {
        seq![text.subrange(pos, end)] + split_from(text, end + 1, separator)
    } else if 0 <= pos <= text.len() {
        seq![text.subrange(pos, end)]
    } else {
        seq![Seq::empty()]
    }
}

/// The pieces of `text` between the separators.
pub open spec fn split(text: Seq<char>, separator: char) -> Seq<Seq<char>> {
    split_from(text, 0, separator)
}

/// A line without the carriage return that may end it.
pub open spec fn without_carriage_return(line: Seq<char>) -> Seq<char> {
    if line.len() > 0 && line.last() == '\r' {
        line.drop_last()
    } else {
        line
    }
}

/// The lines of `text` from `pos` on. A line ends with a line feed, or with a
/// carriage return and a line feed, neither of which belongs to it; the last
/// line needs no ending, and what follows the last line feed is a line only
/// if it is not empty.
pub open spec fn lines_from(text: Seq<char>, pos: int) -> Seq<Seq<char>>
    decreases text.len() - pos,
{
    let end = pos + run_length(text, pos, CharClass::Except('\n'));
    if 0 <= pos <= end < text.len() {
        seq![without_carriage_return(text.subrange(pos, end))] + lines_from(text, end + 1)
    } else if 0 <= pos < text.len() {
        seq![text.subrange(pos, end)]
    } else {
        Seq::empty()
    }
}

/// The lines of `text`.
pub open spec fn lines(text: Seq<char>) -> Seq<Seq<char>> {
    lines_from(text, 0)
}

/// Each text without the white space at its two ends.
pub open spec fn trim_all(texts: Seq<Seq<char>>) -> Seq<Seq<char>> {
    Seq::new(texts.len(), |i: int| trim(texts[i]))
}

/// The views of a sequence of strings.
pub open spec fn string_views(strings: Seq<String>) -> Seq<Seq<char>> {
    Seq::new(strings.len(), |i: int| strings[i]@)
}

/// The character of a decimal digit `d < 10`.
pub open spec fn digit_char(d: nat) -> char {
    (48 + d) as char
}

/// The decimal notation of a natural number, without leading zeros.
pub open spec fn decimal_text_of(n: nat) -> Seq<char>
    decreases n,
{
    if n < 10 {
        seq![digit_char(n)]
    } else {
        decimal_text_of(n / 10).push(digit_char(n % 10))
    }
}

/// A run holds characters of its class only, ends within the text, and
/// ends before a character that is not of the class.
pub proof fn lemma_run(text: Seq<char>, pos: int, class: CharClass)
    requires
        0 <= pos <= text.len(),
    ensures
        pos + run_length(text, pos, class) <= text.len(),
        forall|k: int|
            pos <= k < pos + run_length(text, pos, class) ==> in_class(#[trigger] text[k], class),
        pos + run_length(text, pos, class) < text.len() ==> !in_class(
            text[pos + run_length(text, pos, class)],
            class,
        ),
    decreases text.len() - pos,
{
    if pos < text.len() && in_class(text[pos], class) {
        lemma_run(text, pos + 1, class);
    }
}

/// A run that is read backwards starts within the text, behind a character
/// that is not of the class.
pub proof fn lemma_run_back(text: Seq<char>, end: int, class: CharClass)
    requires
        0 <= end <= text.len(),
    ensures
        run_length_back(text, end, class) <= end,
        end - run_length_back(text, end, class) > 0 ==> !in_class(
            text[end - run_length_back(text, end, class) - 1],
            class,
        ),
    decreases end,
{
    if 0 < end && in_class(text[end - 1], class) {
        lemma_run_back(text, end - 1, class);
    }
}

/// To trim a text twice is to trim it once.
pub proof fn lemma_trim_twice(text: Seq<char>)
    ensures
        trim(trim(text)) == trim(text),
{
    let once = trim(text);
    lemma_run(text, 0, CharClass::Whitespace);
    lemma_run_back(text, text.len() as int, CharClass::Whitespace);
    let start = run_length(text, 0, CharClass::Whitespace) as int;
    let end = text.len() - run_length_back(text, text.len() as int, CharClass::Whitespace);
    if once.len() > 0 {
        assert(once[0] == text[start]);
        assert(once[once.len() - 1] == text[end - 1]);
        assert(run_length(once, 0, CharClass::Whitespace) == 0);
        assert(run_length_back(once, once.len() as int, CharClass::Whitespace) == 0);
        assert(once.subrange(0, once.len() as int) == once);
    } else {
        assert(run_length(once, 0, CharClass::Whitespace) == 0);
        assert(run_length_back(once, 0, CharClass::Whitespace) == 0);
        assert(once.subrange(0, 0) == once);
    }
}

/// `String::push`: appends one character to the string.
#[verifier::external_body]
pub(crate) fn push_char(s: &mut String, c: char)
    ensures
        final(s)@ == old(s)@.push(c),
{
    s.push(c)
}

/// The characters of a string slice.
pub fn chars_of(s: &str) -> (v: Vec<char>)
    ensures
        v@ == s@,
{
    let mut v: Vec<char> = Vec::new();
    for c in it: s.chars()
        invariant
            it.seq() == s@,
            v@ == s@.take(it.index() as int),
    {
        v.push(c);
    }
    v
}

/// Appends the decimal notation of `n` to `s`.
pub fn push_decimal(s: &mut String, n: u128)
    ensures
        final(s)@ == old(s)@ + decimal_text_of(n as nat),
    decreases n,
{
    if n >= 10 {
        push_decimal(s, n / 10);
    }
    let d: u8 = (n % 10) as u8;
    push_char(s, (48u8 + d) as char);
}


/// Whether a character is white space.
pub fn is_whitespace_char(c: char) -> (b: bool)
    ensures
        b == is_whitespace(c),
{
    let n: u32 = c as u32;
    (0x09 <= n && n <= 0x0D) || n == 0x20 || n == 0x85 || n == 0xA0 || n == 0x1680 || (0x2000 <= n
        && n <= 0x200A) || n == 0x2028 || n == 0x2029 || n == 0x202F || n == 0x205F || n == 0x3000
}

/// Whether a character is an ASCII letter.
pub fn is_letter_char(c: char) -> (b: bool)
    ensures
        b == is_letter(c),
{
    ('a' <= c && c <= 'z') || ('A' <= c && c <= 'Z')
}

/// Whether a character is an ASCII digit.
pub fn is_digit_char(c: char) -> (b: bool)
    ensures
        b == is_digit(c),
{
    '0' <= c && c <= '9'
}

/// Whether a character belongs to a class.
pub fn is_in_class(c: char, class: CharClass) -> (b: bool)
    ensures
        b == in_class(c, class),
{
    match class {
        CharClass::Whitespace => is_whitespace_char(c),
        CharClass::Letter => is_letter_char(c),
        CharClass::Digit => is_digit_char(c),
        CharClass::Word => is_letter_char(c) || is_digit_char(c) || c == '_',
        CharClass::Only(x) => c == x,
        CharClass::Except(x) => c != x,
    }
}

/// The position at which the run of `class` that starts at `from` ends.
pub fn run_end(text: &Vec<char>, from: usize, class: CharClass) -> (end: usize)
    requires
        from <= text.len(),
    ensures
        end == from + run_length(text@, from as int, class),
        end <= text.len(),
{
    let mut end: usize = from;
    while end < text.len() && is_in_class(text[end], class)
        invariant
            from <= end <= text.len(),
            from + run_length(text@, from as int, class) == end + run_length(
                text@,
                end as int,
                class,
            ),
        decreases text.len() - end,
    {
        end += 1;
    }
    end
}

/// The position at which the run of `class` that ends at `to` starts.
pub fn run_start(text: &Vec<char>, to: usize, class: CharClass) -> (start: usize)
    requires
        to <= text.len(),
    ensures
        start == to - run_length_back(text@, to as int, class),
        start <= to,
{
    let mut start: usize = to;
    while start > 0 && is_in_class(text[start - 1], class)
        invariant
            start <= to <= text.len(),
            to - run_length_back(text@, to as int, class) == start - run_length_back(
                text@,
                start as int,
                class,
            ),
        decreases start,
    {
        start -= 1;
    }
    start
}

/// The characters of `text` from `from` up to `to`, as a string.
pub fn string_from(text: &Vec<char>, from: usize, to: usize) -> (s: String)
    requires
        from <= to <= text.len(),
    ensures
        s@ == text@.subrange(from as int, to as int),
{
    let mut s = String::new();
    let mut i: usize = from;
    while i < to
        invariant
            from <= i <= to <= text.len(),
            s@ == text@.subrange(from as int, i as int),
        decreases to - i,
    {
        push_char(&mut s, text[i]);
        i += 1;
    }
    s
}

/// The text without the white space at its two ends.
pub fn trimmed(text: &Vec<char>) -> (s: String)
    ensures
        s@ == trim(text@),
{
    let start = run_end(text, 0, CharClass::Whitespace);
    let end = run_start(text, text.len(), CharClass::Whitespace);
    if start <= end {
        string_from(text, start, end)
    } else {
        String::new()
    }
}

/// The text of a string without the white space at its two ends.
pub fn trimmed_str(text: &str) -> (s: String)
    ensures
        s@ == trim(text@),
{
    let chars = chars_of(text);
    trimmed(&chars)
}

/// The pieces of `text` between the separators, each without the white
/// space at its two ends.
pub fn split_trimmed(text: &Vec<char>, separator: char) -> (pieces: Vec<String>)
    ensures
        string_views(pieces@) == trim_all(split(text@, separator)),
{
    let mut pieces: Vec<String> = Vec::new();
    let mut pos: usize = 0;
    loop
        invariant_except_break
            pos <= text.len(),
            trim_all(split(text@, separator)) == string_views(pieces@) + trim_all(
                split_from(text@, pos as int, separator),
            ),
        ensures
            string_views(pieces@) == trim_all(split(text@, separator)),
        decreases text.len() - pos,
    {
        let end = run_end(text, pos, CharClass::Except(separator));
        let piece = piece_from(text, pos, end);
        let ghost before = pieces@;
        pieces.push(trimmed(&piece));
        proof {
            let tail = split_from(text@, pos as int, separator);
            if end < text.len() {
                let next = split_from(text@, end + 1, separator);
                assert(tail == seq![text@.subrange(pos as int, end as int)] + next);
                assert(trim_all(tail) == seq![trim(piece@)] + trim_all(next));
                assert(string_views(pieces@) == string_views(before) + seq![trim(piece@)]);
            } else {
                assert(tail == seq![text@.subrange(pos as int, end as int)]);
                assert(trim_all(tail) == seq![trim(piece@)]);
                assert(string_views(pieces@) == string_views(before) + seq![trim(piece@)]);
            }
        }
        if end < text.len() {
            pos = end + 1;
        } else {
            break ;
        }
    }
    pieces
}

/// The pieces of `text` between the separators.
pub fn split_untrimmed(text: &Vec<char>, separator: char) -> (pieces: Vec<String>)
    ensures
        string_views(pieces@) == split(text@, separator),
{
    let mut pieces: Vec<String> = Vec::new();
    let mut pos: usize = 0;
    loop
        invariant_except_break
            pos <= text.len(),
            split(text@, separator) == string_views(pieces@) + split_from(
                text@,
                pos as int,
                separator,
            ),
        ensures
            string_views(pieces@) == split(text@, separator),
        decreases text.len() - pos,
    {
        let end = run_end(text, pos, CharClass::Except(separator));
        let ghost before = pieces@;
        pieces.push(string_from(text, pos, end));
        proof {
            let piece = text@.subrange(pos as int, end as int);
            let tail = split_from(text@, pos as int, separator);
            assert(string_views(pieces@) == string_views(before) + seq![piece]);
            if end < text.len() {
                let next = split_from(text@, end + 1, separator);
                assert(tail == seq![piece] + next);
                assert(string_views(before) + (seq![piece] + next) == (string_views(before) + seq![
                    piece,
                ]) + next);
            } else {
                assert(tail == seq![piece]);
            }
        }
        if end < text.len() {
            pos = end + 1;
        } else {
            break ;
        }
    }
    pieces
}

/// The characters of `text` from `from` up to `to`.
pub fn piece_from(text: &Vec<char>, from: usize, to: usize) -> (piece: Vec<char>)
    requires
        from <= to <= text.len(),
    ensures
        piece@ == text@.subrange(from as int, to as int),
{
    let mut piece: Vec<char> = Vec::new();
    let mut i: usize = from;
    while i < to
        invariant
            from <= i <= to <= text.len(),
            piece@ == text@.subrange(from as int, i as int),
        decreases to - i,
    {
        piece.push(text[i]);
        i += 1;
    }
    piece
}

/// The lines of `text`.
pub fn split_lines(text: &Vec<char>) -> (found: Vec<String>)
    ensures
        string_views(found@) == lines(text@),
{
    let mut found: Vec<String> = Vec::new();
    let mut pos: usize = 0;
    while pos < text.len()
        invariant
            pos <= text.len(),
            lines(text@) == string_views(found@) + lines_from(text@, pos as int),
        decreases text.len() - pos,
    {
        let end = run_end(text, pos, CharClass::Except('\n'));
        let ghost before = found@;
        if end < text.len() {
            let stop = if end > pos && text[end - 1] == '\r' {
                end - 1
            } else {
                end
            };
            found.push(string_from(text, pos, stop));
            proof {
                let line = text@.subrange(pos as int, end as int);
                assert(text@.subrange(pos as int, stop as int) == without_carriage_return(line));
                assert(string_views(found@) == string_views(before) + seq![
                    without_carriage_return(line),
                ]);
            }
            pos = end + 1;
        } else {
            found.push(string_from(text, pos, end));
            proof {
                assert(string_views(found@) == string_views(before) + seq![
                    text@.subrange(pos as int, end as int),
                ]);
                assert(lines_from(text@, end as int) == Seq::<Seq<char>>::empty());
            }
            pos = end;
        }
    }
    found
}

/// Whether two strings hold the same text.
pub fn same_text(a: &str, b: &str) -> (same: bool)
    ensures
        same == (a@ == b@),
{
    let x = chars_of(a);
    let y = chars_of(b);
    if x.len() != y.len() {
        return false;
    }
    let mut i: usize = 0;
    while i < x.len()
        invariant
            i <= x.len(),
            x.len() == y.len(),
            x@ == a@,
            y@ == b@,
            forall|j: int| 0 <= j < i ==> x@[j] == y@[j],
        decreases x.len() - i,
    {
        if x[i] != y[i] {
            return false;
        }
        i += 1;
    }
    assert(x@ =~= y@);
    true
}

} // verus!
