use vstd::prelude::*;

verus! {

/// Whether `c` has the Unicode property `White_Space`.
pub open spec fn is_space(c: char) -> bool {
    let code = c as u32;
    ||| 0x09 <= code <= 0x0d
    ||| code == 0x20
    ||| code == 0x85
    ||| code == 0xa0
    ||| code == 0x1680
    ||| 0x2000 <= code <= 0x200a
    ||| code == 0x2028
    ||| code == 0x2029
    ||| code == 0x202f
    ||| code == 0x205f
    ||| code == 0x3000
}

/// Whether `c` is one of `0` to `9`.
pub open spec fn is_digit(c: char) -> bool {
    '0' <= c <= '9'
}

/// The number that the decimal digit `c` stands for.
pub open spec fn digit_value(c: char) -> int {
    c as int - '0' as int
}

/// Whether `c` is a hexadecimal digit, in either case.
pub open spec fn is_hex_digit(c: char) -> bool {
    ('0' <= c <= '9') || ('a' <= c <= 'f') || ('A' <= c <= 'F')
}

/// The number that the hexadecimal digit `c` stands for.
pub open spec fn hex_value(c: char) -> int {
    if '0' <= c <= '9' {
        c as int - '0' as int
    } else if 'a' <= c <= 'f' {
        c as int - 'a' as int + 10
    } else {
        c as int - 'A' as int + 10
    }
}

/// The first position at or after `pos` that holds no white space.
pub open spec fn skip_spaces(text: Seq<char>, pos: int) -> int
    decreases text.len() - pos,
{
    if 0 <= pos < text.len() && is_space(text[pos]) {
        skip_spaces(text, pos + 1)
    } else {
        pos
    }
}

/// The first position at or after `pos` that holds no decimal digit.
pub open spec fn digits_end(text: Seq<char>, pos: int) -> int
    decreases text.len() - pos,
{
    if 0 <= pos < text.len() && is_digit(text[pos]) {
        digits_end(text, pos + 1)
    } else {
        pos
    }
}

/// The number that the decimal digits `text[from..to]` write.
pub open spec fn decimal_value(text: Seq<char>, from: int, to: int) -> int
    decreases to - from,
{
    if from < to {
        10 * decimal_value(text, from, to - 1) + digit_value(text[to - 1])
    } else {
        0
    }
}

/// Whether `text` holds `word` at `pos`.
pub open spec fn has_word(text: Seq<char>, pos: int, word: Seq<char>) -> bool {
    &&& 0 <= pos
    &&& pos + word.len() <= text.len()
    &&& text.subrange(pos, pos + word.len()) == word
}

/// Whether `text` holds the character `c` at `pos`.
pub open spec fn has_char(text: Seq<char>, pos: int, c: char) -> bool {
    0 <= pos < text.len() && text[pos] == c
}

/// Skipping white space never moves back, and stops at the end of the text
/// or at a character that is no white space.
pub proof fn lemma_skip_spaces_bounds(text: Seq<char>, pos: int)
    ensures
        pos <= skip_spaces(text, pos),
        pos <= text.len() ==> skip_spaces(text, pos) <= text.len(),
        0 <= pos && skip_spaces(text, pos) < text.len() ==> !is_space(
            text[skip_spaces(text, pos)],
        ),
        forall|i: int| 0 <= pos <= i < skip_spaces(text, pos) ==> is_space(#[trigger] text[i]),
    decreases text.len() - pos,
{
    if 0 <= pos < text.len() && is_space(text[pos]) {
        lemma_skip_spaces_bounds(text, pos + 1);
    }
}

/// Where no white space stands, skipping it stays in place.
pub proof fn lemma_skip_spaces_stays(text: Seq<char>, pos: int)
    requires
        !(0 <= pos < text.len()) || !is_space(text[pos]),
    ensures
        skip_spaces(text, pos) == pos,
{
}

/// A run of digits never ends before its start, and ends at the end of the
/// text or at a character that is no digit.
pub proof fn lemma_digits_end_bounds(text: Seq<char>, pos: int)
    ensures
        pos <= digits_end(text, pos),
        pos <= text.len() ==> digits_end(text, pos) <= text.len(),
        0 <= pos && digits_end(text, pos) < text.len() ==> !is_digit(
            text[digits_end(text, pos)],
        ),
        forall|i: int| 0 <= pos <= i < digits_end(text, pos) ==> is_digit(#[trigger] text[i]),
    decreases text.len() - pos,
{
    if 0 <= pos < text.len() && is_digit(text[pos]) {
        lemma_digits_end_bounds(text, pos + 1);
    }
}

/// A text holds two words one after the other exactly where it holds the
/// first and, behind it, the second.
pub proof fn lemma_has_word_concat(text: Seq<char>, pos: int, first: Seq<char>, second: Seq<char>)
    ensures
        has_word(text, pos, first + second) <==> has_word(text, pos, first) && has_word(
            text,
            pos + first.len(),
            second,
        ),
{
    let both = first + second;
    if has_word(text, pos, both) {
        let got = text.subrange(pos, pos + both.len());
        assert(text.subrange(pos, pos + first.len()) =~= got.subrange(0, first.len() as int));
        assert(both.subrange(0, first.len() as int) =~= first);
        assert(text.subrange(pos + first.len(), pos + first.len() + second.len())
            =~= got.subrange(first.len() as int, both.len() as int));
        assert(both.subrange(first.len() as int, both.len() as int) =~= second);
    }
    if has_word(text, pos, first) && has_word(text, pos + first.len(), second) {
        assert(text.subrange(pos, pos + both.len()) =~= text.subrange(pos, pos + first.len())
            + text.subrange(pos + first.len(), pos + first.len() + second.len()));
    }
}

/// Where a text holds a word, it holds each of its characters.
pub proof fn lemma_has_word_index(text: Seq<char>, pos: int, word: Seq<char>, i: int)
    requires
        has_word(text, pos, word),
        0 <= i < word.len(),
    ensures
        0 <= pos + i < text.len(),
        text[pos + i] == word[i],
{
    assert(text.subrange(pos, pos + word.len())[i] == text[pos + i]);
}

/// Whether `c` is white space.
pub fn is_whitespace(c: char) -> (r: bool)
    ensures
        r == is_space(c),
{
    let code: u32 = c as u32;
    (0x09 <= code && code <= 0x0d) || code == 0x20 || code == 0x85 || code == 0xa0 || code
        == 0x1680 || (0x2000 <= code && code <= 0x200a) || code == 0x2028 || code == 0x2029
        || code == 0x202f || code == 0x205f || code == 0x3000
}

/// The position of the first character at or after `pos` that is no white
/// space, or the length of `text` if only white space is left.
pub fn skip_whitespace(text: &[char], pos: usize) -> (next: usize)
    requires
        pos <= text@.len(),
    ensures
        next == skip_spaces(text@, pos as int),
        pos <= next <= text@.len(),
{
    let mut i: usize = pos;
    while i < text.len() && is_whitespace(text[i])
        invariant
            pos <= i <= text@.len(),
            skip_spaces(text@, pos as int) == skip_spaces(text@, i as int),
        decreases text@.len() - i,
    {
        i += 1;
    }
    proof {
        lemma_skip_spaces_bounds(text@, pos as int);
    }
    i
}

/// The characters of `text`, one by one.
pub fn chars_of(text: &str) -> (chars: Vec<char>)
    ensures
        chars@ == text@,
{
    let mut chars: Vec<char> = Vec::new();
    for c in it: text.chars()
        invariant
            it.seq() == text@,
            chars@ == text@.take(it.index() as int),
    {
        chars.push(c);
        assert(chars@ =~= text@.take(it.index() + 1));
    }
    assert(chars@ =~= text@);
    chars
}

/// `String::push` appends one character to the end of the string.
pub assume_specification[ String::push ](s: &mut String, c: char)
    ensures
        final(s)@ == old(s)@.push(c),
;

/// `char::from_u32` gives the character with the given code, and `None` for
/// a code that is no Unicode scalar value: a surrogate, or one above
/// `0x10FFFF`.
pub assume_specification[ char::from_u32 ](i: u32) -> (c: Option<char>)
    ensures
        c == if i <= 0xD7FF || (0xE000 <= i && i <= 0x10FFFF) {
            Some(i as char)
        } else {
            None::<char>
        },
;

/// The string that holds the characters `chars[from..to]`.
pub fn string_of(chars: &[char], from: usize, to: usize) -> (s: String)
    requires
        from <= to <= chars@.len(),
    ensures
        s@ == chars@.subrange(from as int, to as int),
{
    let mut s = String::new();
    let mut i: usize = from;
    while i < to
        invariant
            from <= i <= to <= chars@.len(),
            s@ == chars@.subrange(from as int, i as int),
        decreases to - i,
    {
        s.push(chars[i]);
        i += 1;
        assert(s@ =~= chars@.subrange(from as int, i as int));
    }
    s
}

} // verus!
