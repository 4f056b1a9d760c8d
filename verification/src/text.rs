//! Operations on text that the rest of the crate is stated over.
//!
//! A `str` is modelled by its characters, a `Seq<char>`. Lengths and positions
//! that count bytes are stated over the UTF-8 encoding of those characters.

use vstd::prelude::*;
use vstd::string::{StrSliceExecFns, StringExecFns};
use vstd::utf8::*;

verus! {

/// Number of bytes that the UTF-8 encoding of `chars` takes.
pub open spec fn byte_len(chars: Seq<char>) -> nat {
    encode_utf8(chars).len()
}

/// The characters that bytes `from..to` of `chars` encode.
pub open spec fn byte_slice(chars: Seq<char>, from: int, to: int) -> Seq<char> {
    decode_utf8(encode_utf8(chars).subrange(from, to))
}

/// Whether a character of `chars` starts at byte `at`, or `chars` ends there.
pub open spec fn on_boundary(chars: Seq<char>, at: int) -> bool {
    is_char_boundary(encode_utf8(chars), at)
}

/// The text of `parts`, one after the other, with `separator` between two
/// neighbours.
pub open spec fn joined(parts: Seq<Seq<char>>, separator: Seq<char>) -> Seq<char>
    decreases parts.len(),
{
    if parts.len() == 0 {
        Seq::empty()
    } else if parts.len() == 1 {
        parts[0]
    } else {
        joined(parts.drop_last(), separator) + separator + parts.last()
    }
}

/// Whether `s` begins with `prefix`.
pub(crate) fn starts_with(s: &str, prefix: &str) -> (res: bool)
    ensures
        res == prefix@.is_prefix_of(s@),
{
    let n: usize = prefix.unicode_len();
    if s.unicode_len() < n {
        return false;
    }
    s.substring_char(0, n).to_owned() == prefix.to_owned()
}

/// Whether `s` ends with `suffix`.
pub(crate) fn ends_with(s: &str, suffix: &str) -> (res: bool)
    ensures
        res == suffix@.is_suffix_of(s@),
{
    let n: usize = suffix.unicode_len();
    let len: usize = s.unicode_len();
    if len < n {
        return false;
    }
    s.substring_char(len - n, len).to_owned() == suffix.to_owned()
}

/// Puts the texts of `parts` one after the other, with `separator` between two
/// neighbours.
pub(crate) fn join(parts: &Vec<String>, separator: &str) -> (res: String)
    ensures
        res@ == joined(parts.deep_view(), separator@),
{
    let ghost all = parts.deep_view();
    let mut res = String::new();
    for i in 0..parts.len()
        invariant
            all == parts.deep_view(),
            res@ == joined(all.take(i as int), separator@),
    {
        proof {
            assert(all.take(i + 1).drop_last() =~= all.take(i as int));
        }
        if i > 0 {
            res.append(separator);
        }
        res.append(parts[i].as_str());
        proof {
            if i == 0 {
                assert(res@ =~= all[0]);
            }
        }
    }
    proof {
        assert(all.take(parts.len() as int) =~= all);
    }
    res
}

/// Position of the first space of `s`, or the length of `s` if it holds none.
pub open spec fn first_space(s: Seq<char>) -> int
    decreases s.len(),
{
    if s.len() == 0 || s[0] == ' ' {
        0
    } else {
        1 + first_space(s.skip(1))
    }
}

/// What stands before the first space of `s`: all of `s` if it holds none.
pub open spec fn first_word(s: Seq<char>) -> Seq<char> {
    s.take(first_space(s))
}

/// What stands between the first space of `s` and the next one, or the end.
pub open spec fn second_word(s: Seq<char>) -> Option<Seq<char>> {
    if first_space(s) < s.len() {
        Some(first_word(s.skip(first_space(s) + 1)))
    } else {
        None
    }
}

/// A position with no space before it, and a space or the end at it, is that of
/// the first space.
pub proof fn lemma_first_space(s: Seq<char>, at: int)
    requires
        0 <= at <= s.len(),
        forall|j: int| 0 <= j < at ==> s[j] != ' ',
        at == s.len() || s[at] == ' ',
    ensures
        first_space(s) == at,
    decreases s.len(),
{
    if s.len() > 0 && s[0] != ' ' {
        let rest = s.skip(1);
        assert forall|j: int| 0 <= j < at - 1 implies rest[j] != ' ' by {
            assert(rest[j] == s[j + 1]);
        }
        lemma_first_space(rest, at - 1);
    }
}

/// Position of the first space of `s`, or the length of `s` if it holds none.
fn find_space(s: &str) -> (res: usize)
    ensures
        res == first_space(s@),
        res <= s@.len(),
{
    let mut at: usize = 0;
    let len: usize = s.unicode_len();
    for c in it: s.chars()
        invariant
            at == it.index(),
            it.seq() == s@,
            len == s@.len(),
            forall|j: int| 0 <= j < at ==> s@[j] != ' ',
    {
        if c == ' ' {
            proof {
                lemma_first_space(s@, at as int);
            }
            return at;
        }
        at = at + 1;
    }
    proof {
        lemma_first_space(s@, at as int);
    }
    at
}

/// Splits `s` at its spaces and keeps the first two pieces.
pub(crate) fn leading_words(s: &str) -> (res: (String, Option<String>))
    ensures
        res.0@ == first_word(s@),
        res.1.deep_view() == second_word(s@),
{
    let at = find_space(s);
    let first = s.substring_char(0, at).to_owned();
    let len: usize = s.unicode_len();
    if at < len {
        let rest = s.substring_char(at + 1, len);
        let end = find_space(rest);
        let second = rest.substring_char(0, end).to_owned();
        (first, Some(second))
    } else {
        (first, None)
    }
}

/// `s` without `prefix`, if it begins with that, and else `s` itself.
pub open spec fn without_prefix(s: Seq<char>, prefix: Seq<char>) -> Seq<char> {
    if prefix.is_prefix_of(s) {
        s.skip(prefix.len() as int)
    } else {
        s
    }
}

/// `s` without every leading copy of `prefix`.
pub open spec fn without_prefixes(s: Seq<char>, prefix: Seq<char>) -> Seq<char>
    decreases s.len(),
{
    if 0 < prefix.len() && prefix.is_prefix_of(s) {
        without_prefixes(s.skip(prefix.len() as int), prefix)
    } else {
        s
    }
}

/// What is left of ASCII text is ASCII.
pub proof fn lemma_ascii_without_prefixes(s: Seq<char>, prefix: Seq<char>)
    requires
        is_ascii_chars(s),
    ensures
        is_ascii_chars(without_prefixes(s, prefix)),
    decreases s.len(),
{
    if 0 < prefix.len() && prefix.is_prefix_of(s) {
        lemma_ascii_without_prefixes(s.skip(prefix.len() as int), prefix);
    }
}

/// `s` without `prefix`, if it begins with that, and else `s` itself.
pub(crate) fn strip_prefix<'a>(s: &'a str, prefix: &str) -> (res: &'a str)
    ensures
        res@ == without_prefix(s@, prefix@),
{
    if starts_with(s, prefix) {
        s.substring_char(prefix.unicode_len(), s.unicode_len())
    } else {
        s
    }
}

/// `s` without every leading copy of `prefix`.
pub(crate) fn trim_start_matches<'a>(s: &'a str, prefix: &str) -> (res: &'a str)
    requires
        prefix@.len() > 0,
    ensures
        res@ == without_prefixes(s@, prefix@),
{
    let mut rest = s;
    while starts_with(rest, prefix)
        invariant
            prefix@.len() > 0,
            without_prefixes(rest@, prefix@) == without_prefixes(s@, prefix@),
        ensures
            !prefix@.is_prefix_of(rest@),
        decreases rest@.len(),
    {
        rest = rest.substring_char(prefix.unicode_len(), rest.unicode_len());
    }
    rest
}

/// The digit that stands for `d`, in any base up to sixteen.
pub open spec fn digit(d: int) -> char {
    if d < 10 {
        ('0' as int + d) as char
    } else {
        ('a' as int + d - 10) as char
    }
}

/// `n` written out in the given base, without leading zeros.
pub open spec fn numeral(n: int, base: int) -> Seq<char>
    decreases n,
{
    if n < base || base < 2 {
        seq![digit(n)]
    } else {
        proof {
            assert(n / base < n) by (nonlinear_arith)
                requires
                    2 <= base <= n,
            ;
        }
        numeral(n / base, base).push(digit(n % base))
    }
}

/// `text` with as many zeros before it as bring it to a length of `width`.
pub open spec fn zero_padded(text: Seq<char>, width: int) -> Seq<char> {
    if text.len() < width {
        Seq::new((width - text.len()) as nat, |i: int| '0') + text
    } else {
        text
    }
}

/// The number that a digit stands for, in any base up to sixteen.
pub open spec fn digit_value(c: char) -> int {
    if '0' <= c && c <= '9' {
        c as int - '0' as int
    } else {
        c as int - 'a' as int + 10
    }
}

/// The number that is written out as `text` in the given base.
pub open spec fn numeral_value(text: Seq<char>, base: int) -> int
    decreases text.len(),
{
    if text.len() == 0 {
        0
    } else {
        numeral_value(text.drop_last(), base) * base + digit_value(text.last())
    }
}

/// A number that is written out can be read back.
pub proof fn lemma_numeral_value(n: int, base: int)
    requires
        0 <= n,
        2 <= base <= 16,
    ensures
        numeral_value(numeral(n, base), base) == n,
    decreases n,
{
    if n < base {
        let text = numeral(n, base);
        assert(text.drop_last() =~= Seq::<char>::empty());
        assert(numeral_value(text.drop_last(), base) * base == 0) by (nonlinear_arith)
            requires
                numeral_value(text.drop_last(), base) == 0,
        ;
    } else {
        assert(0 <= n / base < n && 0 <= n % base < base && n == (n / base) * base + n % base)
            by (nonlinear_arith)
            requires
                2 <= base <= n,
        ;
        lemma_numeral_value(n / base, base);
        assert(numeral(n, base).drop_last() =~= numeral(n / base, base));
    }
}

/// Zeros before a number do not change it.
pub proof fn lemma_zero_padded_value(text: Seq<char>, zeros: nat, base: int)
    ensures
        numeral_value(Seq::new(zeros, |i: int| '0') + text, base) == numeral_value(text, base),
    decreases zeros + text.len(),
{
    let padding = Seq::new(zeros, |i: int| '0');
    let padded = padding + text;
    if text.len() > 0 {
        lemma_zero_padded_value(text.drop_last(), zeros, base);
        assert(padded.drop_last() =~= padding + text.drop_last());
    } else if zeros > 0 {
        let less = Seq::new((zeros - 1) as nat, |i: int| '0');
        lemma_zero_padded_value(text, (zeros - 1) as nat, base);
        assert(padded.drop_last() =~= less + text);
        assert(padded.last() == '0');
        assert(numeral_value(less + text, base) * base == 0) by (nonlinear_arith)
            requires
                numeral_value(less + text, base) == 0,
        ;
    } else {
        assert(padded =~= text);
    }
}

fn digit_text(d: usize) -> (res: &'static str)
    requires
        d < 16,
    ensures
        res@ == seq![digit(d as int)],
{
    proof {
        reveal_strlit("0");
        reveal_strlit("1");
        reveal_strlit("2");
        reveal_strlit("3");
        reveal_strlit("4");
        reveal_strlit("5");
        reveal_strlit("6");
        reveal_strlit("7");
        reveal_strlit("8");
        reveal_strlit("9");
        reveal_strlit("a");
        reveal_strlit("b");
        reveal_strlit("c");
        reveal_strlit("d");
        reveal_strlit("e");
        reveal_strlit("f");
    }
    match d {
        0 => "0",
        1 => "1",
        2 => "2",
        3 => "3",
        4 => "4",
        5 => "5",
        6 => "6",
        7 => "7",
        8 => "8",
        9 => "9",
        10 => "a",
        11 => "b",
        12 => "c",
        13 => "d",
        14 => "e",
        _ => "f",
    }
}

/// Writes `n` out in the given base, without leading zeros.
pub(crate) fn to_numeral(n: usize, base: usize) -> (res: String)
    requires
        2 <= base <= 16,
    ensures
        res@ == numeral(n as int, base as int),
    decreases n,
{
    if n < base {
        digit_text(n).to_owned()
    } else {
        proof {
            assert(n / base < n && n % base < base) by (nonlinear_arith)
                requires
                    2 <= base <= n,
            ;
        }
        let mut res = to_numeral(n / base, base);
        res.append(digit_text(n % base));
        res
    }
}

/// Puts zeros before `text` until it is at least `width` characters long.
pub(crate) fn pad_zeros(text: String, width: usize) -> (res: String)
    ensures
        res@ == zero_padded(text@, width as int),
{
    let len: usize = text.as_str().unicode_len();
    let mut res = String::new();
    let mut missing: usize = if len < width { width - len } else { 0 };
    let ghost total = missing;
    while missing > 0
        invariant
            missing <= total,
            res@ == Seq::new((total - missing) as nat, |i: int| '0'),
        decreases missing,
    {
        proof {
            reveal_strlit("0");
        }
        res.append("0");
        missing = missing - 1;
    }
    res.append(text.as_str());
    res
}

/// Number of bytes that the UTF-8 encoding of `s` takes.
pub(crate) fn byte_count(s: &str) -> (res: usize)
    ensures
        res == byte_len(s@),
{
    s.as_bytes().len()
}

/// Splits `s` in two at byte `at`.
pub(crate) fn split_bytes<'a>(s: &'a str, at: usize) -> (res: (&'a str, &'a str))
    requires
        on_boundary(s@, at as int),
    ensures
        at <= byte_len(s@),
        res.0@ == byte_slice(s@, 0, at as int),
        res.1@ == byte_slice(s@, at as int, byte_len(s@) as int),
        encode_utf8(res.0@) == encode_utf8(s@).subrange(0, at as int),
        encode_utf8(res.1@) == encode_utf8(s@).subrange(at as int, byte_len(s@) as int),
{
    broadcast use {encode_utf8_decode_utf8, encode_utf8_valid_utf8};

    s.split_at(at)
}

/// A boundary at or behind another one stays a boundary of what is left once
/// the text before the other one is cut off.
pub proof fn lemma_boundary_of_tail(bytes: Seq<u8>, from: int, at: int)
    requires
        valid_utf8(bytes),
        is_char_boundary(bytes, from),
        is_char_boundary(bytes, at),
        0 <= from <= at <= bytes.len(),
    ensures
        is_char_boundary(bytes.subrange(from, bytes.len() as int), at - from),
{
    let tail = bytes.subrange(from, bytes.len() as int);
    valid_utf8_split(bytes, from);
    if at < bytes.len() {
        is_char_boundary_iff_not_is_continuation_byte(bytes, at);
        is_char_boundary_iff_not_is_continuation_byte(tail, at - from);
        assert(tail[at - from] == bytes[at]);
    } else {
        is_char_boundary_start_end_of_seq(tail);
    }
}

/// The encoding of two texts, one after the other, is that of the first and
/// then that of the second.
pub proof fn lemma_encode_concat(first: Seq<char>, second: Seq<char>)
    ensures
        encode_utf8(first + second) == encode_utf8(first) + encode_utf8(second),
    decreases first.len(),
{
    if first.len() == 0 {
        assert(first + second =~= second);
        assert(encode_utf8(first) + encode_utf8(second) =~= encode_utf8(second));
    } else {
        lemma_encode_concat(first.drop_first(), second);
        assert((first + second).drop_first() =~= first.drop_first() + second);
        assert(encode_utf8(first + second) =~= encode_utf8(first) + encode_utf8(second));
    }
}

/// Texts with the same encoding are the same.
pub proof fn lemma_encode_injective(first: Seq<char>, second: Seq<char>)
    requires
        encode_utf8(first) == encode_utf8(second),
    ensures
        first == second,
{
    encode_utf8_decode_utf8(first);
    encode_utf8_decode_utf8(second);
}

/// Cutting a text at two of its boundaries and again at the second one alone
/// keeps every character between the first one and the end.
pub proof fn lemma_byte_slices_join(s: Seq<char>, from: int, at: int)
    requires
        on_boundary(s, from),
        on_boundary(s, at),
        0 <= from <= at <= byte_len(s),
    ensures
        byte_slice(s, from, byte_len(s) as int) == byte_slice(s, from, at) + byte_slice(
            s,
            at,
            byte_len(s) as int,
        ),
{
    let bytes = encode_utf8(s);
    let tail = bytes.subrange(from, bytes.len() as int);
    encode_utf8_valid_utf8(s);
    valid_utf8_split(bytes, from);
    lemma_boundary_of_tail(bytes, from, at);
    decode_utf8_split(tail, at - from);
    assert(tail.subrange(0, at - from) =~= bytes.subrange(from, at));
    assert(tail.subrange(at - from, tail.len() as int) =~= bytes.subrange(at, bytes.len() as int));
}

/// What a slice between two boundaries encodes to are the bytes that it was cut
/// from.
pub proof fn lemma_byte_slice_len(s: Seq<char>, from: int, to: int)
    requires
        on_boundary(s, from),
        on_boundary(s, to),
        0 <= from <= to <= byte_len(s),
    ensures
        encode_utf8(byte_slice(s, from, to)) == encode_utf8(s).subrange(from, to),
        byte_len(byte_slice(s, from, to)) == to - from,
{
    let bytes = encode_utf8(s);
    let tail = bytes.subrange(from, bytes.len() as int);
    encode_utf8_valid_utf8(s);
    valid_utf8_split(bytes, from);
    lemma_boundary_of_tail(bytes, from, to);
    valid_utf8_split(tail, to - from);
    assert(tail.subrange(0, to - from) =~= bytes.subrange(from, to));
    decode_utf8_encode_utf8(bytes.subrange(from, to));
}

/// A slice that takes in all of a text is the text.
pub proof fn lemma_byte_slice_all(s: Seq<char>)
    ensures
        byte_slice(s, 0, byte_len(s) as int) == s,
{
    assert(encode_utf8(s).subrange(0, byte_len(s) as int) =~= encode_utf8(s));
    encode_utf8_decode_utf8(s);
}

/// In ASCII text a byte is a character: bytes and characters count alike, a
/// slice by bytes is a slice by characters, and every position is a boundary.
pub proof fn lemma_ascii_bytes(s: Seq<char>, from: int, to: int)
    requires
        is_ascii_chars(s),
        0 <= from <= to <= s.len(),
    ensures
        byte_len(s) == s.len(),
        byte_slice(s, from, to) == s.subrange(from, to),
        on_boundary(s, to),
{
    let part = s.subrange(from, to);
    is_ascii_chars_encode_utf8(s);
    is_ascii_chars_encode_utf8(part);
    assert(encode_utf8(part) =~= encode_utf8(s).subrange(from, to)) by {
        assert forall|i: int| 0 <= i < part.len() implies encode_utf8(part)[i] == encode_utf8(
            s,
        ).subrange(from, to)[i] by {
            assert(part[i] as u8 == encode_utf8(part)[i]);
            assert(s[from + i] as u8 == encode_utf8(s)[from + i]);
        }
    }
    encode_utf8_decode_utf8(part);
    encode_utf8_valid_utf8(s);
    if to < s.len() {
        is_char_boundary_iff_not_is_continuation_byte(encode_utf8(s), to);
        assert(s[to] as u8 == encode_utf8(s)[to]);
        assert('\0' <= s[to] <= '\u{7f}');
    } else {
        is_char_boundary_start_end_of_seq(encode_utf8(s));
    }
}

/// A boundary is where some first characters of a text end, and their number of
/// bytes says where.
pub proof fn law_boundaries_lie_between_characters(s: Seq<char>, at: int)
    ensures
        byte_len(s) == encode_utf8(s).len(),
        on_boundary(s, at) <==> exists|cut: int|
            0 <= cut <= s.len() && encode_utf8(#[trigger] s.take(cut)).len() == at,
{
    let bytes = encode_utf8(s);
    encode_utf8_valid_utf8(s);
    if on_boundary(s, at) {
        let first = bytes.subrange(0, at);
        let second = bytes.subrange(at, bytes.len() as int);
        valid_utf8_split(bytes, at);
        decode_utf8_split(bytes, at);
        encode_utf8_decode_utf8(s);
        decode_utf8_encode_utf8(first);
        let cut = decode_utf8(first).len() as int;
        assert(s.take(cut) =~= decode_utf8(first));
    }
    if exists|cut: int| 0 <= cut <= s.len() && encode_utf8(#[trigger] s.take(cut)).len() == at {
        let cut = choose|cut: int|
            0 <= cut <= s.len() && encode_utf8(#[trigger] s.take(cut)).len() == at;
        lemma_cut_is_boundary(s, cut);
    }
}

proof fn lemma_cut_is_boundary(s: Seq<char>, cut: int)
    requires
        0 <= cut <= s.len(),
    ensures
        encode_utf8(s) == encode_utf8(s.take(cut)) + encode_utf8(s.skip(cut)),
        on_boundary(s, byte_len(s.take(cut)) as int),
{
    let bytes = encode_utf8(s);
    let at = byte_len(s.take(cut)) as int;
    let tail = encode_utf8(s.skip(cut));
    assert(s =~= s.take(cut) + s.skip(cut));
    lemma_encode_concat(s.take(cut), s.skip(cut));
    encode_utf8_valid_utf8(s);
    encode_utf8_valid_utf8(s.skip(cut));
    if tail.len() > 0 {
        is_char_boundary_start_end_of_seq(tail);
        is_char_boundary_iff_not_is_continuation_byte(tail, 0);
        is_char_boundary_iff_not_is_continuation_byte(bytes, at);
        assert(bytes[at] == tail[0]);
    } else {
        is_char_boundary_start_end_of_seq(bytes);
    }
}

/// A slice by bytes, between where the first `from` and the first `to`
/// characters of a text end, holds the characters in between.
pub proof fn law_slices_by_bytes_hold_characters(s: Seq<char>, from: int, to: int)
    requires
        0 <= from <= to <= s.len(),
    ensures
        byte_slice(
            s,
            encode_utf8(s.take(from)).len() as int,
            encode_utf8(s.take(to)).len() as int,
        ) == s.subrange(from, to),
{
    let bytes = encode_utf8(s);
    let part = s.subrange(from, to);
    assert(s.take(to) =~= s.take(from) + part);
    lemma_encode_concat(s.take(from), part);
    lemma_cut_is_boundary(s, to);
    assert(bytes.subrange(byte_len(s.take(from)) as int, byte_len(s.take(to)) as int)
        =~= encode_utf8(part));
    encode_utf8_decode_utf8(part);
}

/// Joining two lists is joining each and putting the separator between the two.
pub proof fn law_joining_in_parts(
    first: Seq<Seq<char>>,
    second: Seq<Seq<char>>,
    separator: Seq<char>,
)
    requires
        first.len() > 0,
        second.len() > 0,
    ensures
        joined(first + second, separator) == joined(first, separator) + separator + joined(
            second,
            separator,
        ),
        first.len() == 1 ==> joined(first, separator) == first[0],
    decreases second.len(),
{
    assert((first + second).drop_last() =~= first + second.drop_last());
    if second.len() == 1 {
        assert(first + second.drop_last() =~= first);
    } else {
        law_joining_in_parts(first, second.drop_last(), separator);
    }
    assert(joined(first + second, separator) =~= joined(first, separator) + separator + joined(
        second,
        separator,
    ));
}

/// A text without spaces is one word. Behind a word and a space, what follows
/// is split in the same way.
pub proof fn law_words_end_at_spaces(word: Seq<char>, rest: Seq<char>)
    requires
        forall|i: int| 0 <= i < word.len() ==> word[i] != ' ',
    ensures
        first_word(word) == word,
        second_word(word) is None,
        first_word(word + seq![' '] + rest) == word,
        second_word(word + seq![' '] + rest) == Some(first_word(rest)),
{
    let text = word + seq![' '] + rest;
    lemma_first_space(word, word.len() as int);
    assert(word.take(word.len() as int) =~= word);
    assert(text[word.len() as int] == ' ');
    lemma_first_space(text, word.len() as int);
    assert(text.take(word.len() as int) =~= word);
    assert(text.skip(word.len() as int + 1) =~= rest);
}

/// One prefix is taken off, or all of them, and nothing else is.
pub proof fn law_prefixes_are_taken_off(s: Seq<char>, prefix: Seq<char>)
    ensures
        without_prefix(prefix + s, prefix) == s,
        prefix.len() > 0 ==> without_prefixes(prefix + s, prefix) == without_prefixes(s, prefix),
        s.len() < prefix.len() || s.take(prefix.len() as int) != prefix ==> {
            &&& without_prefix(s, prefix) == s
            &&& without_prefixes(s, prefix) == s
        },
{
    assert((prefix + s).subrange(0, prefix.len() as int) =~= prefix);
    assert((prefix + s).skip(prefix.len() as int) =~= s);
}

/// The digits are those from `0` to `9` and from `a` to `f`. A number is written
/// with the digits of its quotient by the base and then that of the remainder.
pub proof fn law_numerals_are_positional(n: int, d: int, base: int)
    requires
        0 <= n,
        2 <= base <= 16,
        0 <= d < base,
    ensures
        digit(d) == "0123456789abcdef"@[d],
        numeral(d, base) == seq!["0123456789abcdef"@[d]],
        n > 0 ==> numeral(n * base + d, base) == numeral(n, base).push("0123456789abcdef"@[d]),
{
    reveal_strlit("0123456789abcdef");
    if n > 0 {
        let m = n * base + d;
        assert(m >= base && m / base == n && m % base == d) by (nonlinear_arith)
            requires
                m == n * base + d,
                0 < n,
                2 <= base,
                0 <= d < base,
        ;
    }
}

/// Padding brings a text to a width with zeros in front, and leaves one that is
/// wide enough alone.
pub proof fn law_padding_is_zeros_in_front(text: Seq<char>, width: int)
    ensures
        width <= text.len() ==> zero_padded(text, width) == text,
        text.len() < width ==> {
            let padded = zero_padded(text, width);
            &&& padded.len() == width
            &&& padded.skip(width - text.len()) == text
            &&& forall|i: int| 0 <= i < width - text.len() ==> #[trigger] padded[i] == '0'
        },
{
    if text.len() < width {
        assert(zero_padded(text, width).skip(width - text.len()) =~= text);
    }
}

/// A list that is put together item by item from left to right is the items,
/// flattened.
pub(crate) proof fn lemma_flatten_drop_last(parts: Seq<Seq<char>>)
    requires
        parts.len() > 0,
    ensures
        parts.flatten() == parts.drop_last().flatten() + parts.last(),
{
    parts.drop_last().lemma_flatten_push(parts.last());
    assert(parts.drop_last().push(parts.last()) =~= parts);
}

} // verus!
