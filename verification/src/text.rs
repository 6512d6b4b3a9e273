//! Text operations, stated over sequences of characters.

use crate::views;
use vstd::prelude::*;

verus! {

/// `str`'s `==`: true exactly when both texts hold the same characters.
pub assume_specification[ <str as PartialEq<str>>::eq ](a: &str, b: &str) -> (same: bool)
    ensures
        same == (a@ == b@),
;

/// `String::push`: appends one character.
pub assume_specification[ String::push ](buffer: &mut String, c: char)
    ensures
        final(buffer)@ == old(buffer)@.push(c),
;

/// What `str::to_lowercase` returns.
pub uninterp spec fn lowercase(text: Seq<char>) -> Seq<char>;

/// `str::to_lowercase`.
#[verifier::external_body]
pub(crate) fn to_lowercase(text: &str) -> (lower: String)
    ensures
        lower@ == lowercase(text@),
{
    text.to_lowercase()
}

/// What `String::from_utf8_lossy` decodes bytes to.
pub uninterp spec fn utf8_lossy(bytes: Seq<u8>) -> Seq<char>;

/// `String::from_utf8_lossy`.
#[verifier::external_body]
pub(crate) fn decode_lossy(bytes: &[u8]) -> (text: String)
    ensures
        text@ == utf8_lossy(bytes@),
{
    String::from_utf8_lossy(bytes).into_owned()
}

/// What `{:?}` prints for a string: the text in double quotes, with escapes.
pub uninterp spec fn quoted(text: Seq<char>) -> Seq<char>;

/// The standard library's `Debug` form of a string.
#[verifier::external_body]
pub(crate) fn debug_text(text: &str) -> (shown: String)
    ensures
        shown@ == quoted(text@),
{
    format!("{:?}", text)
}

/// The characters of `text`, one by one.
pub fn chars_of(text: &str) -> (chars: Vec<char>)
    ensures
        chars@ == text@,
{
    let mut chars: Vec<char> = Vec::new();
    for c in it: text.chars()
        invariant
            it.seq() == text@,
            chars@ == text@.take(it.index()),
    {
        chars.push(c);
        assert(text@.take(it.index() + 1) =~= text@.take(it.index()).push(c));
    }
    assert(text@.take(text@.len() as int) =~= text@);
    chars
}

/// The text made of `chars[from..to]`.
pub fn text_between(chars: &Vec<char>, from: usize, to: usize) -> (text: String)
    requires
        from <= to <= chars@.len(),
    ensures
        text@ == chars@.subrange(from as int, to as int),
{
    let mut text = String::new();
    let mut i: usize = from;
    while i < to
        invariant
            from <= i <= to <= chars@.len(),
            text@ == chars@.subrange(from as int, i as int),
        decreases to - i,
    {
        text.push(chars[i]);
        assert(chars@.subrange(from as int, i + 1) =~= chars@.subrange(from as int, i as int).push(
            chars@[i as int],
        ));
        i = i + 1;
    }
    text
}

/// Whether `c` has Unicode's `White_Space` property.
pub open spec fn white_space(c: char) -> bool {
    let n = c as u32;
    ||| 0x9 <= n <= 0xd
    ||| n == 0x20
    ||| n == 0x85
    ||| n == 0xa0
    ||| n == 0x1680
    ||| 0x2000 <= n <= 0x200a
    ||| n == 0x2028
    ||| n == 0x2029
    ||| n == 0x202f
    ||| n == 0x205f
    ||| n == 0x3000
}

/// Whether `c` is white space.
pub fn is_white_space(c: char) -> (white: bool)
    ensures
        white == white_space(c),
{
    let n: u32 = c as u32;
    (0x9 <= n && n <= 0xd) || n == 0x20 || n == 0x85 || n == 0xa0 || n == 0x1680 || (0x2000 <= n
        && n <= 0x200a) || n == 0x2028 || n == 0x2029 || n == 0x202f || n == 0x205f || n == 0x3000
}

/// `text` without the white space at its start.
pub open spec fn without_leading(text: Seq<char>) -> Seq<char>
    decreases text.len(),
{
    if text.len() > 0 && white_space(text[0]) {
        without_leading(text.drop_first())
    } else {
        text
    }
}

/// `text` without the white space at its end.
pub open spec fn without_trailing(text: Seq<char>) -> Seq<char>
    decreases text.len(),
{
    if text.len() > 0 && white_space(text.last()) {
        without_trailing(text.drop_last())
    } else {
        text
    }
}

/// `text` without the white space around it.
pub open spec fn trimmed(text: Seq<char>) -> Seq<char> {
    without_leading(without_trailing(text))
}

/// Drops the white space at the end.
pub fn trim_end(chars: &mut Vec<char>)
    ensures
        final(chars)@ == without_trailing(old(chars)@),
{
    let ghost all = chars@;
    while chars.len() > 0 && is_white_space(chars[chars.len() - 1])
        invariant
            without_trailing(chars@) == without_trailing(all),
        decreases chars@.len(),
    {
        let _ = chars.pop();
    }
}

/// Drops the white space around the text.
pub fn trim(text: &str) -> (inner: String)
    ensures
        inner@ == trimmed(text@),
{
    let mut chars = chars_of(text);
    trim_end(&mut chars);
    let ghost tail = chars@;
    let mut from: usize = 0;
    assert(tail.skip(0) =~= tail);
    while from < chars.len() && is_white_space(chars[from])
        invariant
            chars@ == tail,
            from <= tail.len(),
            without_leading(tail.skip(from as int)) == without_leading(tail),
        decreases tail.len() - from,
    {
        assert(tail.skip(from as int).drop_first() =~= tail.skip(from + 1));
        from = from + 1;
    }
    assert(tail.skip(from as int) =~= tail.subrange(from as int, tail.len() as int));
    text_between(&chars, from, chars.len())
}

/// The text after `prefix`, where the text starts with it.
pub fn strip_prefix(text: &str, prefix: &str) -> (rest: Option<String>)
    ensures
        match rest {
            Some(r) => text@ == prefix@ + r@,
            None => !prefix@.is_prefix_of(text@),
        },
{
    let chars = chars_of(text);
    let head = chars_of(prefix);
    if chars.len() < head.len() {
        return None;
    }
    let mut i: usize = 0;
    while i < head.len()
        invariant
            i <= head@.len() <= chars@.len(),
            chars@ == text@,
            head@ == prefix@,
            chars@.take(i as int) == head@.take(i as int),
        decreases head@.len() - i,
    {
        if chars[i] != head[i] {
            assert(text@[i as int] != prefix@[i as int]);
            return None;
        }
        assert(chars@.take(i + 1) =~= chars@.take(i as int).push(chars@[i as int]));
        assert(head@.take(i + 1) =~= head@.take(i as int).push(head@[i as int]));
        i = i + 1;
    }
    let rest = text_between(&chars, head.len(), chars.len());
    proof {
        assert(head@.take(i as int) =~= prefix@);
        assert(text@ =~= chars@.take(i as int) + rest@);
    }
    Some(rest)
}

/// `needle` stands in `text` at position `at`.
pub open spec fn stands_at(text: Seq<char>, needle: Seq<char>, at: int) -> bool {
    &&& 0 <= at
    &&& at + needle.len() <= text.len()
    &&& text.subrange(at, at + needle.len()) == needle
}

/// `needle` stands somewhere in `text`.
pub open spec fn holds_text(text: Seq<char>, needle: Seq<char>) -> bool {
    exists|at: int| stands_at(text, needle, at)
}

/// Whether `needle` stands in `chars` at `at`.
fn stands_here(chars: &Vec<char>, needle: &Vec<char>, at: usize) -> (found: bool)
    ensures
        found == stands_at(chars@, needle@, at as int),
{
    if at > chars.len() || chars.len() - at < needle.len() {
        return false;
    }
    let end: usize = chars.len();
    let mut i: usize = 0;
    while i < needle.len()
        invariant
            at + needle@.len() <= end,
            end == chars@.len(),
            i <= needle@.len(),
            forall|j: int| 0 <= j < i ==> chars@[at + j] == needle@[j],
        decreases needle@.len() - i,
    {
        if chars[at + i] != needle[i] {
            assert(chars@.subrange(at as int, at + needle@.len())[i as int] != needle@[i as int]);
            return false;
        }
        i = i + 1;
    }
    assert(chars@.subrange(at as int, at + needle@.len()) =~= needle@);
    true
}

/// The first position from `from` on at which `needle` stands in `chars`.
pub fn find_from(chars: &Vec<char>, needle: &Vec<char>, from: usize) -> (at: Option<usize>)
    ensures
        match at {
            Some(i) => {
                &&& from <= i
                &&& stands_at(chars@, needle@, i as int)
                &&& forall|j: int| from <= j < i ==> !stands_at(chars@, needle@, j)
            },
            None => forall|j: int| from <= j ==> !stands_at(chars@, needle@, j),
        },
{
    let mut i: usize = from;
    while i <= chars.len()
        invariant
            from <= i,
            forall|j: int| from <= j < i ==> !stands_at(chars@, needle@, j),
        decreases chars@.len() + 1 - i,
    {
        if stands_here(chars, needle, i) {
            return Some(i);
        }
        if i == chars.len() {
            return None;
        }
        i = i + 1;
    }
    None
}

/// Whether `needle` stands somewhere in `text`.
pub fn contains_text(text: &str, needle: &str) -> (found: bool)
    ensures
        found == holds_text(text@, needle@),
{
    let chars = chars_of(text);
    let wanted = chars_of(needle);
    match find_from(&chars, &wanted, 0) {
        Some(_) => true,
        None => false,
    }
}

/// `parts` one after the other, with `separator` between each two.
pub open spec fn joined(parts: Seq<Seq<char>>, separator: Seq<char>) -> Seq<char>
    decreases parts.len(),
{
    if parts.len() == 0 {
        Seq::empty()
    } else if parts.len() == 1 {
        parts[0]
    } else {
        joined(parts.drop_last(), separator) + separator + parts.last()
    }
}

/// Joins `parts` with `separator`.
pub fn join(parts: &Vec<String>, separator: &str) -> (text: String)
    ensures
        text@ == joined(views::each(parts@), separator@),
{
    let mut text = String::new();
    let mut i: usize = 0;
    while i < parts.len()
        invariant
            i <= parts@.len(),
            text@ == joined(views::each(parts@).take(i as int), separator@),
        decreases parts@.len() - i,
    {
        let ghost before = text@;
        let ghost next = views::each(parts@).take(i + 1);
        assert(next.drop_last() =~= views::each(parts@).take(i as int));
        if i > 0 {
            text.append(separator);
        }
        text.append(parts[i].as_str());
        proof {
            if i == 0 {
                assert(before =~= Seq::empty());
                assert(text@ =~= next[0]);
            } else {
                assert(text@ =~= before + separator@ + next.last());
            }
        }
        i = i + 1;
    }
    assert(views::each(parts@).take(i as int) =~= views::each(parts@));
    text
}

/// The decimal digit `d`.
pub open spec fn digit(d: nat) -> char {
    (('0' as u32) + d) as char
}

/// `n` in decimal, without leading zeros.
pub open spec fn decimal(n: nat) -> Seq<char>
    decreases n,
{
    if n < 10 {
        seq![digit(n)]
    } else {
        decimal(n / 10).push(digit(n % 10))
    }
}

/// The decimal digit `d` as a character.
fn digit_char(d: u64) -> (c: char)
    requires
        d < 10,
    ensures
        c == digit(d as nat),
{
    if d == 0 {
        '0'
    } else if d == 1 {
        '1'
    } else if d == 2 {
        '2'
    } else if d == 3 {
        '3'
    } else if d == 4 {
        '4'
    } else if d == 5 {
        '5'
    } else if d == 6 {
        '6'
    } else if d == 7 {
        '7'
    } else if d == 8 {
        '8'
    } else {
        '9'
    }
}

/// Writes `n` in decimal.
pub fn decimal_text(n: u64) -> (text: String)
    ensures
        text@ == decimal(n as nat),
    decreases n,
{
    if n < 10 {
        let mut text = String::new();
        text.push(digit_char(n));
        assert(text@ =~= decimal(n as nat));
        text
    } else {
        let mut text = decimal_text(n / 10);
        text.push(digit_char(n % 10));
        text
    }
}

/// `c` in lower case, where it is an ASCII letter.
pub open spec fn ascii_lower(c: char) -> char {
    if 'A' <= c && c <= 'Z' {
        ((c as u32) + 32) as char
    } else {
        c
    }
}

/// Two texts differ at most in the case of their ASCII letters.
pub open spec fn same_ignoring_case(a: Seq<char>, b: Seq<char>) -> bool {
    &&& a.len() == b.len()
    &&& forall|i: int| 0 <= i < a.len() ==> ascii_lower(#[trigger] a[i]) == ascii_lower(b[i])
}

/// `c` in lower case, as a number.
fn lower_code(c: char) -> (code: u32)
    ensures
        code == ascii_lower(c) as u32,
{
    let n: u32 = c as u32;
    if 65 <= n && n <= 90 {
        n + 32
    } else {
        n
    }
}

/// Whether two texts differ at most in the case of their ASCII letters.
pub fn eq_ignore_case(a: &str, b: &str) -> (same: bool)
    ensures
        same == same_ignoring_case(a@, b@),
{
    let x = chars_of(a);
    let y = chars_of(b);
    if x.len() != y.len() {
        return false;
    }
    let mut i: usize = 0;
    while i < x.len()
        invariant
            i <= x@.len(),
            x@.len() == y@.len(),
            x@ == a@,
            y@ == b@,
            forall|j: int| 0 <= j < i ==> ascii_lower(#[trigger] x@[j]) == ascii_lower(y@[j]),
        decreases x@.len() - i,
    {
        if lower_code(x[i]) != lower_code(y[i]) {
            assert(ascii_lower(a@[i as int]) != ascii_lower(b@[i as int]));
            return false;
        }
        assert(ascii_lower(x@[i as int]) as u32 == ascii_lower(y@[i as int]) as u32);
        i = i + 1;
    }
    true
}

/// Whether `a` comes before `b` in dictionary order of their characters.
pub open spec fn precedes(a: Seq<char>, b: Seq<char>) -> bool
    decreases a.len(),
{
    if b.len() == 0 {
        false
    } else if a.len() == 0 {
        true
    } else if a[0] != b[0] {
        a[0] < b[0]
    } else {
        precedes(a.drop_first(), b.drop_first())
    }
}

/// Whether `a` comes before `b` in dictionary order.
pub fn comes_before(a: &str, b: &str) -> (before: bool)
    ensures
        before == precedes(a@, b@),
{
    let x = chars_of(a);
    let y = chars_of(b);
    let mut i: usize = 0;
    assert(a@.skip(0) =~= a@ && b@.skip(0) =~= b@);
    while i < x.len() && i < y.len()
        invariant
            i <= x@.len(),
            i <= y@.len(),
            x@ == a@,
            y@ == b@,
            precedes(a@, b@) == precedes(a@.skip(i as int), b@.skip(i as int)),
        decreases x@.len() - i,
    {
        if x[i] != y[i] {
            return x[i] < y[i];
        }
        proof {
            assert(a@.skip(i as int).drop_first() =~= a@.skip(i + 1));
            assert(b@.skip(i as int).drop_first() =~= b@.skip(i + 1));
        }
        i = i + 1;
    }
    i < y.len()
}

/// The encoding of a concatenation is the concatenation of the encodings.
pub proof fn lemma_encode_concat(a: Seq<char>, b: Seq<char>)
    ensures
        vstd::utf8::encode_utf8(a + b) == vstd::utf8::encode_utf8(a) + vstd::utf8::encode_utf8(b),
    decreases a.len(),
{
    if a.len() == 0 {
        assert(a + b =~= b);
        assert(vstd::utf8::encode_utf8(a) + vstd::utf8::encode_utf8(b)
            =~= vstd::utf8::encode_utf8(b));
    } else {
        assert((a + b).drop_first() =~= a.drop_first() + b);
        lemma_encode_concat(a.drop_first(), b);
        assert(vstd::utf8::encode_utf8(a + b) =~= vstd::utf8::encode_utf8(a)
            + vstd::utf8::encode_utf8(b));
    }
}

/// Byte lengths add up.
pub proof fn lemma_byte_len_concat(a: Seq<char>, b: Seq<char>)
    ensures
        crate::error::byte_len(a + b) == crate::error::byte_len(a) + crate::error::byte_len(b),
{
    lemma_encode_concat(a, b);
}

/// The number of characters before the first newline; all of them where there
/// is none.
pub open spec fn line_len(text: Seq<char>) -> nat
    decreases text.len(),
{
    if text.len() == 0 || text[0] == '\n' {
        0
    } else {
        1 + line_len(text.drop_first())
    }
}

/// A newline after newline-free characters is the first one.
pub proof fn lemma_line_len(text: Seq<char>, n: int)
    requires
        0 <= n <= text.len(),
        forall|j: int| 0 <= j < n ==> text[j] != '\n',
        n < text.len() ==> text[n] == '\n',
    ensures
        line_len(text) == n,
    decreases n,
{
    if n > 0 {
        let rest = text.drop_first();
        assert forall|j: int| 0 <= j < n - 1 implies rest[j] != '\n' by {
            assert(text[j + 1] != '\n');
        }
        lemma_line_len(rest, n - 1);
    }
}

/// The first newline stands right after the newline-free characters.
pub proof fn lemma_line_len_bound(text: Seq<char>)
    ensures
        line_len(text) <= text.len(),
        forall|j: int| 0 <= j < line_len(text) ==> text[j] != '\n',
        line_len(text) < text.len() ==> text[line_len(text) as int] == '\n',
    decreases text.len(),
{
    if text.len() > 0 && text[0] != '\n' {
        let rest = text.drop_first();
        lemma_line_len_bound(rest);
        assert forall|j: int| 0 <= j < line_len(text) implies text[j] != '\n' by {
            if j > 0 {
                assert(rest[j - 1] != '\n');
            }
        }
    }
}

/// A character of more than one byte has no newline byte in it.
proof fn lemma_wide_bytes(c: u32)
    by (bit_vector)
    ensures
        vstd::utf8::leading_byte_width_2(c) >= 0x80,
        vstd::utf8::leading_byte_width_3(c) >= 0x80,
        vstd::utf8::leading_byte_width_4(c) >= 0x80,
        vstd::utf8::last_continuation_byte(c) >= 0x80,
        vstd::utf8::second_last_continuation_byte(c) >= 0x80,
        vstd::utf8::third_last_continuation_byte(c) >= 0x80,
{
}

proof fn lemma_narrow_byte(c: u32)
    by (bit_vector)
    requires
        c <= 0x7f,
    ensures
        vstd::utf8::leading_byte_width_1(c) as u32 == c,
{
}

/// A text holds a newline exactly when its encoding holds a newline byte.
pub proof fn lemma_newline_bytes(text: Seq<char>)
    ensures
        vstd::utf8::encode_utf8(text).contains(10u8) == text.contains('\n'),
    decreases text.len(),
{
    let bytes = vstd::utf8::encode_utf8(text);
    if text.len() > 0 {
        let c = text[0] as u32;
        let head = vstd::utf8::encode_scalar(c);
        let rest = vstd::utf8::encode_utf8(text.drop_first());
        lemma_newline_bytes(text.drop_first());
        lemma_wide_bytes(c);
        if c <= 0x7f {
            lemma_narrow_byte(c);
        }
        assert(head.len() >= 1);
        vstd::utf8::char_u32_cast(text[0], c);
        vstd::utf8::char_u32_cast('\n', 10u32);
        assert forall|i: int| 0 <= i < head.len() implies (head[i] == 10u8) == (text[0]
            == '\n') by {
            if c <= 0x7f {
                assert(head[i] as u32 == c);
                assert((text[0] == '\n') == (c == 10));
                assert((head[i] == 10u8) == (c == 10));
            } else {
                assert(head[i] >= 0x80);
            }
        }
        if text[0] == '\n' {
            assert(head[0] == 10u8);
        }
        assert(bytes == head + rest);
        if bytes.contains(10u8) {
            let i = choose|i: int| 0 <= i < bytes.len() && bytes[i] == 10u8;
            if i < head.len() {
                assert(head[i] == 10u8);
                assert(text[0] == '\n');
            } else {
                assert(rest[i - head.len()] == 10u8);
                let j = choose|j: int|
                    0 <= j < text.drop_first().len() && text.drop_first()[j] == '\n';
                assert(text[j + 1] == '\n');
            }
        }
        if text.contains('\n') {
            let j = choose|j: int| 0 <= j < text.len() && text[j] == '\n';
            if j == 0 {
                let i = choose|i: int| 0 <= i < head.len() && head[i] == 10u8;
                assert(bytes[i] == 10u8);
            } else {
                assert(text.drop_first()[j - 1] == '\n');
                let i = choose|i: int| 0 <= i < rest.len() && rest[i] == 10u8;
                assert(bytes[head.len() + i] == 10u8);
            }
        }
    }
}

/// A character starts where one text ends and the next begins.
pub proof fn lemma_boundary_between(a: Seq<char>, b: Seq<char>)
    ensures
        vstd::utf8::is_char_boundary(
            vstd::utf8::encode_utf8(a + b),
            vstd::utf8::encode_utf8(a).len() as int,
        ),
    decreases a.len(),
{
    let all = a + b;
    let bytes = vstd::utf8::encode_utf8(all);
    vstd::utf8::encode_utf8_valid_utf8(all);
    if a.len() > 0 {
        vstd::utf8::encode_utf8_first_scalar(all);
        lemma_encode_concat(a, b);
        lemma_boundary_between(a.drop_first(), b);
        assert(all.drop_first() =~= a.drop_first() + b);
        assert(vstd::utf8::pop_first_scalar(bytes) =~= vstd::utf8::encode_utf8(all.drop_first()));
        assert(vstd::utf8::encode_utf8(a).len() == vstd::utf8::encode_scalar(a[0] as u32).len()
            + vstd::utf8::encode_utf8(a.drop_first()).len());
    }
}

proof fn lemma_leading(text: Seq<char>)
    ensures
        without_leading(text).len() <= text.len(),
        without_leading(text) == text.skip(text.len() - without_leading(text).len()),
        without_leading(text).len() > 0 ==> !white_space(without_leading(text)[0]),
        forall|i: int|
            0 <= i < text.len() - without_leading(text).len() ==> white_space(#[trigger] text[i]),
    decreases text.len(),
{
    if text.len() > 0 && white_space(text[0]) {
        let rest = text.drop_first();
        lemma_leading(rest);
        let n = rest.len() - without_leading(rest).len();
        assert(rest.skip(n) =~= text.skip(n + 1));
        assert forall|i: int| 0 <= i < n + 1 implies white_space(#[trigger] text[i]) by {
            if i > 0 {
                assert(white_space(rest[i - 1]));
            }
        }
    } else {
        assert(text.skip(0) =~= text);
    }
}

proof fn lemma_trailing(text: Seq<char>)
    ensures
        without_trailing(text).len() <= text.len(),
        without_trailing(text) == text.take(without_trailing(text).len() as int),
        without_trailing(text).len() > 0 ==> !white_space(without_trailing(text).last()),
        forall|i: int|
            without_trailing(text).len() <= i < text.len() ==> white_space(#[trigger] text[i]),
    decreases text.len(),
{
    if text.len() > 0 && white_space(text.last()) {
        let rest = text.drop_last();
        lemma_trailing(rest);
        let n = without_trailing(rest).len() as int;
        assert(rest.take(n) =~= text.take(n));
        assert forall|i: int| n <= i < text.len() implies white_space(#[trigger] text[i]) by {
            if i < rest.len() {
                assert(white_space(rest[i]));
            }
        }
    } else {
        assert(text.take(text.len() as int) =~= text);
    }
}

/// Trimming takes away white space at both ends and nothing else: what is left is a
/// part of the text that neither starts nor ends with white space, and all around
/// it is white space.
pub proof fn trimming_takes_white_space_alone(text: Seq<char>)
    ensures
        exists|from: int, to: int|
            #![trigger text.subrange(from, to)]
            {
                &&& 0 <= from <= to <= text.len()
                &&& trimmed(text) == text.subrange(from, to)
                &&& forall|i: int| 0 <= i < from ==> white_space(#[trigger] text[i])
                &&& forall|i: int| to <= i < text.len() ==> white_space(#[trigger] text[i])
            },
        trimmed(text).len() > 0 ==> !white_space(trimmed(text)[0]) && !white_space(
            trimmed(text).last(),
        ),
        trimmed(text).len() == 0 <==> forall|i: int|
            0 <= i < text.len() ==> white_space(#[trigger] text[i]),
{
    lemma_trailing(text);
    let kept = without_trailing(text);
    lemma_leading(kept);
    let to = kept.len() as int;
    let from = kept.len() - trimmed(text).len();
    assert(kept.skip(from) =~= text.subrange(from, to));
    assert forall|i: int| 0 <= i < from implies white_space(#[trigger] text[i]) by {
        assert(kept[i] == text[i]);
    }
    if trimmed(text).len() > 0 {
        assert(trimmed(text).last() == kept.last());
        assert(trimmed(text)[0] == text[from]);
    }
}

/// Joined texts are the texts in order with the separator between each two, and
/// nowhere else.
pub proof fn joining_puts_the_separator_between(
    parts: Seq<Seq<char>>,
    part: Seq<char>,
    separator: Seq<char>,
)
    ensures
        joined(Seq::empty(), separator).len() == 0,
        joined(seq![part], separator) == part,
        parts.len() > 0 ==> joined(parts.push(part), separator) == joined(parts, separator)
            + separator + part,
{
    assert(parts.push(part).drop_last() =~= parts);
}

/// A text holds each of the parts that it is made of.
pub proof fn a_text_holds_its_parts(before: Seq<char>, part: Seq<char>, after: Seq<char>)
    ensures
        holds_text(before + part + after, part),
        holds_text(before + part, part),
        holds_text(part + after, part),
{
    let n: int = before.len() as int;
    assert((before + part + after).subrange(n, n + part.len()) =~= part);
    assert(stands_at(before + part + after, part, n));
    assert((before + part).subrange(n, n + part.len()) =~= part);
    assert(stands_at(before + part, part, n));
    assert((part + after).subrange(0, part.len() as int) =~= part);
    assert(stands_at(part + after, part, 0));
}

/// What stands in a part of a text stands in the text.
pub proof fn what_a_part_holds_the_text_holds(
    before: Seq<char>,
    part: Seq<char>,
    after: Seq<char>,
    needle: Seq<char>,
)
    requires
        holds_text(part, needle),
    ensures
        holds_text(before + part + after, needle),
        holds_text(before + part, needle),
        holds_text(part + after, needle),
{
    let at = choose|at: int| stands_at(part, needle, at);
    let n: int = before.len() as int;
    assert((before + part + after).subrange(n + at, n + at + needle.len()) =~= part.subrange(
        at,
        at + needle.len(),
    ));
    assert(stands_at(before + part + after, needle, n + at));
    assert((before + part).subrange(n + at, n + at + needle.len()) =~= part.subrange(
        at,
        at + needle.len(),
    ));
    assert(stands_at(before + part, needle, n + at));
    assert((part + after).subrange(at, at + needle.len()) =~= part.subrange(
        at,
        at + needle.len(),
    ));
    assert(stands_at(part + after, needle, at));
}

/// A joined text holds every part.
pub proof fn a_joined_text_holds_every_part(
    parts: Seq<Seq<char>>,
    separator: Seq<char>,
    i: int,
)
    requires
        0 <= i < parts.len(),
    ensures
        holds_text(joined(parts, separator), parts[i]),
    decreases parts.len(),
{
    let none = Seq::<char>::empty();
    if parts.len() == 1 {
        a_text_holds_its_parts(none, parts[0], none);
        assert(none + parts[0] =~= parts[0]);
    } else if i == parts.len() - 1 {
        a_text_holds_its_parts(joined(parts.drop_last(), separator) + separator, parts[i], none);
    } else {
        a_joined_text_holds_every_part(parts.drop_last(), separator, i);
        let before = joined(parts.drop_last(), separator);
        what_a_part_holds_the_text_holds(none, before, separator, parts[i]);
        what_a_part_holds_the_text_holds(none, before + separator, parts.last(), parts[i]);
    }
}

/// What stands in a text that stands in another stands in that other.
pub proof fn holding_goes_through(outer: Seq<char>, inner: Seq<char>, needle: Seq<char>)
    requires
        holds_text(outer, inner),
        holds_text(inner, needle),
    ensures
        holds_text(outer, needle),
{
    let i = choose|at: int| stands_at(outer, inner, at);
    let k = choose|at: int| stands_at(inner, needle, at);
    assert(outer.subrange(i + k, i + k + needle.len()) =~= outer.subrange(
        i,
        i + inner.len(),
    ).subrange(k, k + needle.len()));
    assert(stands_at(outer, needle, i + k));
}

/// A text without white space at its edges.
pub open spec fn has_firm_edges(text: Seq<char>) -> bool {
    text.len() > 0 && !white_space(text[0]) && !white_space(text.last())
}

/// White space around a text is taken off and the text is kept, whatever stands inside
/// it.
pub proof fn trimming_keeps_the_text(before: Seq<char>, text: Seq<char>, after: Seq<char>)
    requires
        forall|i: int| 0 <= i < before.len() ==> white_space(#[trigger] before[i]),
        has_firm_edges(text),
        forall|i: int| 0 <= i < after.len() ==> white_space(#[trigger] after[i]),
    ensures
        trimmed(before + text + after) == text,
        without_trailing(before + text + after) == before + text,
    decreases before.len() + after.len(),
{
    let whole = before + text + after;
    if after.len() > 0 {
        let less = after.drop_last();
        assert forall|i: int| 0 <= i < less.len() implies white_space(#[trigger] less[i]) by {
            assert(white_space(after[i]));
        }
        assert(white_space(after[after.len() - 1]));
        assert(whole.drop_last() =~= before + text + less);
        assert(whole.last() == after.last());
        trimming_keeps_the_text(before, text, less);
    } else {
        assert(whole =~= before + text);
        assert(whole.last() == text.last());
        assert(without_trailing(whole) == whole);
        lemma_leading_off(before, text);
    }
}

proof fn lemma_leading_off(before: Seq<char>, text: Seq<char>)
    requires
        forall|i: int| 0 <= i < before.len() ==> white_space(#[trigger] before[i]),
        has_firm_edges(text),
    ensures
        without_leading(before + text) == text,
    decreases before.len(),
{
    if before.len() > 0 {
        let less = before.drop_first();
        assert(white_space(before[0]));
        assert forall|i: int| 0 <= i < less.len() implies white_space(#[trigger] less[i]) by {
            assert(white_space(before[i + 1]));
        }
        assert((before + text).drop_first() =~= less + text);
        lemma_leading_off(less, text);
    } else {
        assert(before + text =~= text);
    }
}

/// White space is what Unicode calls so.
pub proof fn white_space_is_that_of_unicode(c: char)
    ensures
        white_space(c) <==> ({
            ||| '\u{9}' <= c <= '\u{d}'
            ||| c == ' '
            ||| c == '\u{85}'
            ||| c == '\u{a0}'
            ||| c == '\u{1680}'
            ||| '\u{2000}' <= c <= '\u{200a}'
            ||| c == '\u{2028}'
            ||| c == '\u{2029}'
            ||| c == '\u{202f}'
            ||| c == '\u{205f}'
            ||| c == '\u{3000}'
        }),
{
}

/// The case of ASCII letters alone is set aside: a capital is its small letter, and
/// every other character only itself.
pub proof fn only_ascii_letters_have_two_cases(c: char)
    ensures
        'A' <= c <= 'Z' ==> ascii_lower(c) as int == c as int + 32,
        !('A' <= c <= 'Z') ==> ascii_lower(c) == c,
{
}

/// The first `n` parts, one after the other.
pub open spec fn first_parts(parts: Seq<Seq<char>>, n: int) -> Seq<char>
    decreases n,
{
    if n <= 1 {
        parts[0]
    } else {
        first_parts(parts, n - 1) + parts[n - 1]
    }
}

proof fn lemma_parts_follow(parts: Seq<Seq<char>>, lo: int, hi: int)
    requires
        0 < lo < hi <= parts.len(),
    ensures
        first_parts(parts, hi) == first_parts(parts, lo) + first_parts(
            parts.subrange(lo, hi),
            hi - lo,
        ),
    decreases hi - lo,
{
    let run = parts.subrange(lo, hi);
    if hi > lo + 1 {
        lemma_parts_follow(parts, lo, hi - 1);
        let shorter = parts.subrange(lo, hi - 1);
        lemma_parts_agree(run, shorter, hi - lo - 1);
        assert(first_parts(parts, hi) =~= first_parts(parts, lo) + first_parts(run, hi - lo));
    }
}

proof fn lemma_parts_agree(a: Seq<Seq<char>>, b: Seq<Seq<char>>, n: int)
    requires
        1 <= n <= a.len(),
        n <= b.len(),
        forall|i: int| 0 <= i < n ==> #[trigger] a[i] == b[i],
    ensures
        first_parts(a, n) == first_parts(b, n),
    decreases n,
{
    assert(a[n - 1] == b[n - 1]);
    if n > 1 {
        lemma_parts_agree(a, b, n - 1);
    }
}

/// A text that is made of parts holds each run of them.
pub proof fn a_run_of_parts_stands(parts: Seq<Seq<char>>, lo: int, hi: int, n: int)
    requires
        0 <= lo < hi <= n <= parts.len(),
    ensures
        holds_text(first_parts(parts, n), first_parts(parts.subrange(lo, hi), hi - lo)),
{
    let none = Seq::<char>::empty();
    let run = first_parts(parts.subrange(lo, hi), hi - lo);
    let rest = if hi < n { first_parts(parts.subrange(hi, n), n - hi) } else { none };
    if hi < n {
        lemma_parts_follow(parts, hi, n);
    } else {
        assert(first_parts(parts, hi) + rest =~= first_parts(parts, n));
    }
    if lo > 0 {
        lemma_parts_follow(parts, lo, hi);
        a_text_holds_its_parts(first_parts(parts, lo), run, rest);
    } else {
        lemma_parts_agree(parts, parts.subrange(lo, hi), hi);
        a_text_holds_its_parts(none, run, rest);
        assert(none + run + rest =~= run + rest);
    }
}

/// What a text holds is a part of it: something stands before it, and something behind.
pub proof fn what_a_text_holds_is_a_part_of_it(text: Seq<char>, needle: Seq<char>)
    ensures
        holds_text(text, needle) <==> exists|before: Seq<char>, after: Seq<char>|
            text == #[trigger] surrounded(before, needle, after),
{
    if holds_text(text, needle) {
        let at = choose|at: int| stands_at(text, needle, at);
        let before = text.take(at);
        let after = text.skip(at + needle.len());
        assert(text =~= surrounded(before, needle, after));
    }
    if exists|before: Seq<char>, after: Seq<char>|
        text == #[trigger] surrounded(before, needle, after) {
        let (before, after) = choose|before: Seq<char>, after: Seq<char>|
            text == #[trigger] surrounded(before, needle, after);
        a_text_holds_its_parts(before, needle, after);
    }
}

/// A text with another before and behind it.
pub open spec fn surrounded(before: Seq<char>, text: Seq<char>, after: Seq<char>) -> Seq<char> {
    before + text + after
}

} // verus!
