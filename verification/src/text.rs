//! Text of numbers, and small operations on strings.
use crate::config::text_view;
use crate::error::Error;
use vstd::prelude::*;
use vstd::string::StringExecFns;
use vstd::utf8::{decode_utf8, valid_utf8};

verus! {

/// The decimal digit of value `v`.
pub open spec fn digit(v: nat) -> char {
    ('0' as u32 + v) as char
}

/// `n` in decimal, without leading zeros.
pub open spec fn decimal(n: nat) -> Seq<char>
    decreases n,
{
    if n < 10 {
        seq![digit(n)]
    } else {
        decimal(n / 10).push(digit(n % 10))
    }
}

/// `String::push` appends one character.
pub assume_specification[ String::push ](s: &mut String, c: char)
    ensures
        final(s)@ == old(s)@.push(c),
;

fn digit_char(v: u128) -> (c: char)
    requires
        v < 10,
    ensures
        c == digit(v as nat),
{
    if v == 0 {
        '0'
    } else if v == 1 {
        '1'
    } else if v == 2 {
        '2'
    } else if v == 3 {
        '3'
    } else if v == 4 {
        '4'
    } else if v == 5 {
        '5'
    } else if v == 6 {
        '6'
    } else if v == 7 {
        '7'
    } else if v == 8 {
        '8'
    } else {
        '9'
    }
}

/// `n` in decimal.
pub fn decimal_wide(n: u128) -> (s: String)
    ensures
        s@ == decimal(n as nat),
    decreases n,
{
    if n < 10 {
        let mut s: String = String::new();
        s.push(digit_char(n));
        s
    } else {
        let mut s: String = decimal_wide(n / 10);
        s.push(digit_char(n % 10));
        s
    }
}

/// `n` in decimal.
pub fn decimal_text(n: u64) -> (s: String)
    ensures
        s@ == decimal(n as nat),
{
    decimal_wide(n as u128)
}

/// A number of hundredths, in decimal with two decimals.
pub open spec fn with_hundredths(h: nat) -> Seq<char> {
    decimal(h / 100) + seq!['.', digit(h / 10 % 10), digit(h % 10)]
}

/// A number of hundredths, in decimal with two decimals.
pub fn hundredths_text(h: u128) -> (s: String)
    ensures
        s@ == with_hundredths(h as nat),
{
    let mut s: String = decimal_wide(h / 100);
    s.push('.');
    s.push(digit_char(h / 10 % 10));
    s.push(digit_char(h % 10));
    proof {
        assert(s@ =~= with_hundredths(h as nat));
    }
    s
}

/// So many blanks.
pub open spec fn blanks(n: nat) -> Seq<char> {
    Seq::new(n, |i: int| ' ')
}

/// A text with blanks behind it, up to a width.
pub open spec fn to_left(text: Seq<char>, width: nat) -> Seq<char> {
    text + blanks(
        if text.len() < width {
            (width - text.len()) as nat
        } else {
            0
        },
    )
}

/// A text with blanks before it, up to a width.
pub open spec fn to_right(text: Seq<char>, width: nat) -> Seq<char> {
    blanks(
        if text.len() < width {
            (width - text.len()) as nat
        } else {
            0
        },
    ) + text
}

/// The blanks that a text lacks of a width.
fn padding(text: &str, width: usize) -> (s: String)
    ensures
        s@ == blanks(
            if text@.len() < width {
                (width - text@.len()) as nat
            } else {
                0
            },
        ),
{
    let letters: Vec<char> = characters(text);
    let length: usize = letters.len();
    let mut s: String = String::new();
    let mut i: usize = length;
    while i < width
        invariant
            i == length || length <= i <= width,
            s@ == blanks((i - length) as nat),
        decreases width - i,
    {
        s.push(' ');
        i = i + 1;
        proof {
            assert(s@ =~= blanks((i - length) as nat));
        }
    }
    s
}

/// A text with blanks behind it, up to a width.
pub fn pad_behind(text: &str, width: usize) -> (s: String)
    ensures
        s@ == to_left(text@, width as nat),
{
    join(text, padding(text, width).as_str())
}

/// A text with blanks before it, up to a width.
pub fn pad_before(text: &str, width: usize) -> (s: String)
    ensures
        s@ == to_right(text@, width as nat),
{
    join(padding(text, width).as_str(), text)
}

/// What digits say in decimal, up to a limit: the first that is none, or with
/// which the number gets too large, is the fault.
pub open spec fn digits_within(text: Seq<char>, limit: nat) -> Result<nat, Error>
    decreases text.len(),
{
    if text.len() == 0 {
        Ok(0)
    } else {
        match digits_within(text.drop_last(), limit) {
            Ok(n) => {
                let c = text.last();
                let next = (n * 10 + (c as u32 - '0' as u32)) as nat;
                if !('0' <= c && c <= '9') {
                    Err(Error::NumberDigit)
                } else if next > limit {
                    Err(Error::NumberRange)
                } else {
                    Ok(next)
                }
            },
            Err(e) => Err(e),
        }
    }
}

/// What a text says in decimal, up to a limit, after an optional plus sign.
pub open spec fn number_within(text: Seq<char>, limit: nat) -> Result<nat, Error> {
    if text.len() == 0 {
        Err(Error::NumberEmpty)
    } else if text.len() > 1 && text[0] == '+' {
        digits_within(text.skip(1), limit)
    } else {
        digits_within(text, limit)
    }
}

/// Reads a number up to a limit, and says what is wrong with it.
pub fn read_number(text: &str, limit: u64) -> (r: Result<u64, Error>)
    ensures
        match r {
            Ok(n) => number_within(text@, limit as nat) == Ok::<nat, Error>(n as nat) && n <= limit,
            Err(e) => number_within(text@, limit as nat) == Err::<nat, Error>(e),
        },
{
    let letters: Vec<char> = characters(text);
    let length: usize = letters.len();
    if length == 0 {
        return Err(Error::NumberEmpty);
    }
    let from: usize = if length > 1 && letters[0] == '+' {
        1
    } else {
        0
    };
    let ghost body = text@.skip(from as int);
    proof {
        assert(text@.skip(0) =~= text@);
        assert(body.take(0) =~= Seq::<char>::empty());
    }
    let mut value: u64 = 0;
    let mut i: usize = from;
    while i < length
        invariant
            from <= i <= length == text@.len(),
            letters@ == text@,
            value <= limit,
            body == text@.skip(from as int),
            number_within(text@, limit as nat) == digits_within(body, limit as nat),
            digits_within(body.take(i - from), limit as nat) == Ok::<nat, Error>(value as nat),
        decreases length - i,
    {
        let ghost k = i - from;
        proof {
            assert(body.take(k + 1).drop_last() =~= body.take(k));
            assert(body.take(k + 1).last() == text@[i as int]);
        }
        let v: u64 = match digit_value(letters[i]) {
            Some(v) => v,
            None => {
                proof {
                    lemma_bad_prefix(body, k + 1, limit as nat, Error::NumberDigit);
                }
                return Err(Error::NumberDigit);
            },
        };
        let next: u128 = value as u128 * 10 + v as u128;
        if next > limit as u128 {
            proof {
                lemma_bad_prefix(body, k + 1, limit as nat, Error::NumberRange);
            }
            return Err(Error::NumberRange);
        }
        value = next as u64;
        i = i + 1;
    }
    proof {
        assert(body.take(i - from) =~= body);
    }
    Ok(value)
}

proof fn lemma_bad_prefix(text: Seq<char>, k: int, limit: nat, e: Error)
    requires
        0 <= k <= text.len(),
        digits_within(text.take(k), limit) == Err::<nat, Error>(e),
    ensures
        digits_within(text, limit) == Err::<nat, Error>(e),
    decreases text.len() - k,
{
    if k == text.len() {
        assert(text.take(k) =~= text);
    } else {
        assert(text.take(k + 1).drop_last() =~= text.take(k));
        lemma_bad_prefix(text, k + 1, limit, e);
    }
}

/// A text in lower case, as far as ASCII goes.
pub open spec fn lower(text: Seq<char>) -> Seq<char> {
    text.map_values(|c: char| lower_char(c))
}

pub open spec fn lower_char(c: char) -> char {
    if 'A' <= c && c <= 'Z' {
        (c as u32 + 32) as char
    } else {
        c
    }
}

/// A letter in lower case, as far as ASCII goes.
fn to_lower(c: char) -> (r: char)
    ensures
        r == lower_char(c),
{
    if 'A' <= c && c <= 'Z' {
        (c as u8 + 32) as char
    } else {
        c
    }
}

/// The letters of a text in lower case, as far as ASCII goes.
pub fn lower_letters(text: &str) -> (r: Vec<char>)
    ensures
        r@ == lower(text@),
{
    let letters: Vec<char> = characters(text);
    let mut r: Vec<char> = Vec::new();
    let mut i: usize = 0;
    while i < letters.len()
        invariant
            i <= letters@.len(),
            letters@ == text@,
            r@ == lower(text@).take(i as int),
        decreases letters@.len() - i,
    {
        r.push(to_lower(letters[i]));
        i = i + 1;
        proof {
            assert(r@ =~= lower(text@).take(i as int));
        }
    }
    proof {
        assert(r@ =~= lower(text@));
    }
    r
}

/// Whether letters begin with a text.
pub fn begins_with(letters: &Vec<char>, start: &str) -> (r: bool)
    ensures
        r == start@.is_prefix_of(letters@),
{
    let wanted: Vec<char> = characters(start);
    if wanted.len() > letters.len() {
        return false;
    }
    let mut i: usize = 0;
    while i < wanted.len()
        invariant
            i <= wanted@.len() <= letters@.len(),
            wanted@ == start@,
            wanted@.take(i as int) == letters@.take(i as int),
        decreases wanted@.len() - i,
    {
        if wanted[i] != letters[i] {
            proof {
                if start@.is_prefix_of(letters@) {
                    assert(start@[i as int] == letters@.subrange(0, start@.len() as int)[i as int]);
                }
            }
            return false;
        }
        proof {
            assert(wanted@.take(i + 1) =~= wanted@.take(i as int).push(wanted@[i as int]));
            assert(letters@.take(i + 1) =~= letters@.take(i as int).push(letters@[i as int]));
        }
        i = i + 1;
    }
    proof {
        assert(wanted@.take(i as int) =~= start@);
        assert(letters@.take(i as int) =~= letters@.subrange(0, start@.len() as int));
    }
    true
}

/// Two texts in a row.
pub fn join(a: &str, b: &str) -> (s: String)
    ensures
        s@ == a@ + b@,
{
    let mut s: String = a.to_owned();
    s.append(b);
    s
}

/// An equal copy.
pub fn copy_text(s: &Option<String>) -> (r: Option<String>)
    ensures
        text_view(r) == text_view(*s),
{
    match s {
        Some(t) => Some(t.clone()),
        None => None,
    }
}

/// Whether two texts are the same.
pub fn same_text(a: &str, b: &str) -> (r: bool)
    ensures
        r == (a@ == b@),
{
    a.to_owned() == b.to_owned()
}

/// The characters of a text.
pub fn characters(s: &str) -> (v: Vec<char>)
    ensures
        v@ == s@,
{
    let mut v: Vec<char> = Vec::new();
    for c in it: s.chars()
        invariant
            it.seq() == s@,
            v@ == s@.take(it.index() as int),
    {
        proof {
            assert(s@.take(it.index() + 1) =~= s@.take(it.index() as int).push(c));
        }
        v.push(c);
    }
    v
}

/// What `text` says in decimal: one digit or more, after an optional plus sign.
pub open spec fn digits_value(text: Seq<char>) -> Option<nat>
    decreases text.len(),
{
    if text.len() == 0 {
        Some(0)
    } else {
        match (digits_value(text.drop_last()), text.last()) {
            (Some(n), c) => if '0' <= c && c <= '9' {
                Some((n * 10 + (c as u32 - '0' as u32)) as nat)
            } else {
                None
            },
            _ => None,
        }
    }
}

pub open spec fn unsigned_value(text: Seq<char>) -> Option<nat> {
    let body = if text.len() > 0 && text[0] == '+' {
        text.skip(1)
    } else {
        text
    };
    if body.len() == 0 {
        None
    } else {
        digits_value(body)
    }
}

/// What an unsigned number of 64 bits reads as.
pub open spec fn u64_value(text: Seq<char>) -> Option<u64> {
    match unsigned_value(text) {
        Some(n) => if n <= u64::MAX {
            Some(n as u64)
        } else {
            None
        },
        None => None,
    }
}

/// The value of a decimal digit.
fn digit_value(c: char) -> (r: Option<u64>)
    ensures
        match r {
            Some(v) => '0' <= c && c <= '9' && v == c as u32 - '0' as u32 && v <= 9,
            None => !('0' <= c && c <= '9'),
        },
{
    if '0' <= c && c <= '9' {
        Some((c as u32 - '0' as u32) as u64)
    } else {
        None
    }
}

/// Reads an unsigned number: digits, after an optional plus sign.
pub fn parse_u64(text: &Vec<char>) -> (r: Option<u64>)
    ensures
        r == u64_value(text@),
{
    let length: usize = text.len();
    let from: usize = if length > 0 && text[0] == '+' {
        1
    } else {
        0
    };
    let ghost body = if text@.len() > 0 && text@[0] == '+' {
        text@.skip(1)
    } else {
        text@
    };
    proof {
        assert(body =~= text@.skip(from as int));
    }
    if from == length {
        return None;
    }
    let mut value: u64 = 0;
    let mut over: bool = false;
    let mut i: usize = from;
    proof {
        assert(body.take(0) =~= Seq::<char>::empty());
    }
    while i < length
        invariant
            length == text@.len(),
            from <= i <= length,
            body == text@.skip(from as int),
            unsigned_value(text@) == digits_value(body),
            digits_value(body.take(i - from)) is Some,
            over ==> digits_value(body.take(i - from))->0 > u64::MAX,
            !over ==> digits_value(body.take(i - from))->0 == value,
        decreases length - i,
    {
        let ghost k = i - from;
        proof {
            assert(body.take(k + 1).drop_last() =~= body.take(k));
            assert(body.take(k + 1).last() == text@[i as int]);
        }
        match digit_value(text[i]) {
            None => {
                proof {
                    assert(digits_value(body.take(k + 1)) is None);
                    lemma_bad_digit(body, k + 1);
                }
                return None;
            },
            Some(v) => {
                if !over {
                    match value.checked_mul(10) {
                        Some(tens) => match tens.checked_add(v) {
                            Some(n) => {
                                value = n;
                            },
                            None => {
                                over = true;
                            },
                        },
                        None => {
                            over = true;
                        },
                    }
                }
            },
        }
        i = i + 1;
    }
    proof {
        assert(body.take(i - from) =~= body);
    }
    if over {
        None
    } else {
        Some(value)
    }
}

proof fn lemma_bad_digit(text: Seq<char>, k: int)
    requires
        0 <= k <= text.len(),
        digits_value(text.take(k)) is None,
    ensures
        digits_value(text) is None,
    decreases text.len() - k,
{
    if k == text.len() {
        assert(text.take(k) =~= text);
    } else {
        assert(text.take(k + 1).drop_last() =~= text.take(k));
        lemma_bad_digit(text, k + 1);
    }
}

/// The pieces of a text between separators: one more than there are separators.
pub open spec fn pieces(text: Seq<char>, separator: char) -> Seq<Seq<char>>
    decreases text.len(),
{
    if text.len() == 0 {
        seq![Seq::<char>::empty()]
    } else {
        let before = pieces(text.drop_last(), separator);
        if text.last() == separator {
            before.push(Seq::empty())
        } else {
            before.drop_last().push(before.last().push(text.last()))
        }
    }
}

/// The models of texts.
pub open spec fn char_views(v: Seq<Vec<char>>) -> Seq<Seq<char>> {
    v.map_values(|x: Vec<char>| x@)
}

/// The pieces of a text between separators.
pub fn split(text: &Vec<char>, separator: char) -> (r: Vec<Vec<char>>)
    ensures
        char_views(r@) == pieces(text@, separator),
        r@.len() > 0,
{
    let mut done: Vec<Vec<char>> = Vec::new();
    let mut current: Vec<char> = Vec::new();
    let mut i: usize = 0;
    proof {
        assert(text@.take(0) =~= Seq::<char>::empty());
        assert(char_views(done@).push(current@) =~= seq![Seq::<char>::empty()]);
    }
    while i < text.len()
        invariant
            i <= text@.len(),
            char_views(done@).push(current@) == pieces(text@.take(i as int), separator),
        decreases text@.len() - i,
    {
        let ghost before = char_views(done@).push(current@);
        proof {
            assert(text@.take(i + 1).drop_last() =~= text@.take(i as int));
            assert(before.drop_last() =~= char_views(done@));
        }
        let c: char = text[i];
        if c == separator {
            let ghost listed = done@;
            let ghost piece = current@;
            done.push(current);
            current = Vec::new();
            proof {
                assert(char_views(done@) =~= char_views(listed).push(piece));
                assert(char_views(done@).push(current@) =~= before.push(Seq::empty()));
            }
        } else {
            let ghost piece = current@;
            current.push(c);
            proof {
                assert(before.last() == piece);
            }
        }
        i = i + 1;
    }
    let ghost listed = done@;
    let ghost piece = current@;
    done.push(current);
    proof {
        assert(text@.take(i as int) =~= text@);
        assert(char_views(done@) =~= char_views(listed).push(piece));
    }
    done
}

/// Whether a character is white space in the sense of Unicode.
pub open spec fn space(c: char) -> bool {
    let n = c as u32;
    ||| 0x9 <= n <= 0xd
    ||| n == 0x20
    ||| n == 0x85
    ||| n == 0xa0
    ||| n == 0x1680
    ||| 0x2000 <= n <= 0x200a
    ||| n == 0x2028
    ||| n == 0x2029
    ||| n == 0x202f
    ||| n == 0x205f
    ||| n == 0x3000
}

fn is_space(c: char) -> (r: bool)
    ensures
        r == space(c),
{
    let n: u32 = c as u32;
    0x9 <= n && n <= 0xd || n == 0x20 || n == 0x85 || n == 0xa0 || n == 0x1680 || 0x2000 <= n && n <= 0x200a || n
        == 0x2028 || n == 0x2029 || n == 0x202f || n == 0x205f || n == 0x3000
}

/// A text without the white space at its start.
pub open spec fn trim_start(text: Seq<char>) -> Seq<char>
    decreases text.len(),
{
    if text.len() > 0 && space(text[0]) {
        trim_start(text.skip(1))
    } else {
        text
    }
}

/// A text without the white space at its end.
pub open spec fn trim_end(text: Seq<char>) -> Seq<char>
    decreases text.len(),
{
    if text.len() > 0 && space(text.last()) {
        trim_end(text.drop_last())
    } else {
        text
    }
}

/// A text without the white space around it.
pub fn trim(text: &Vec<char>) -> (r: Vec<char>)
    ensures
        r@ == trim_end(trim_start(text@)),
{
    let length: usize = text.len();
    let mut from: usize = 0;
    proof {
        assert(text@.skip(0) =~= text@);
    }
    while from < length && is_space(text[from])
        invariant
            length == text@.len(),
            from <= length,
            trim_start(text@) == trim_start(text@.skip(from as int)),
        decreases length - from,
    {
        proof {
            assert(text@.skip(from as int).skip(1) =~= text@.skip(from + 1));
        }
        from = from + 1;
    }
    let ghost body = text@.skip(from as int);
    proof {
        assert(trim_start(text@) == body);
    }
    let mut to: usize = length;
    proof {
        assert(body.take(to - from) =~= body);
    }
    while from < to && is_space(text[to - 1])
        invariant
            length == text@.len(),
            from <= to <= length,
            body == text@.skip(from as int),
            trim_end(body) == trim_end(body.take(to - from)),
        decreases to - from,
    {
        proof {
            assert(body.take(to - from).drop_last() =~= body.take(to - from - 1));
        }
        to = to - 1;
    }
    proof {
        assert(trim_end(body) == body.take(to - from));
    }
    let mut r: Vec<char> = Vec::new();
    let mut i: usize = from;
    while i < to
        invariant
            length == text@.len(),
            from <= i <= to <= length,
            body == text@.skip(from as int),
            r@ == body.take(i - from),
        decreases to - i,
    {
        proof {
            assert(body.take(i - from + 1) =~= body.take(i - from).push(text@[i as int]));
        }
        r.push(text[i]);
        i = i + 1;
    }
    r
}

/// The text of several characters.
pub fn text_of(v: &Vec<char>) -> (s: String)
    ensures
        s@ == v@,
{
    let mut s: String = String::new();
    let mut i: usize = 0;
    while i < v.len()
        invariant
            i <= v@.len(),
            s@ == v@.take(i as int),
        decreases v@.len() - i,
    {
        proof {
            assert(v@.take(i + 1) =~= v@.take(i as int).push(v@[i as int]));
        }
        s.push(v[i]);
        i = i + 1;
    }
    proof {
        assert(v@.take(i as int) =~= v@);
    }
    s
}

/// What `String::from_utf8_lossy` makes of bytes.
pub uninterp spec fn utf8_lossy(bytes: Seq<u8>) -> Seq<char>;

/// `String::from_utf8_lossy`: the text of bytes that are UTF-8. Of other bytes
/// it is only claimed that the result depends on them alone.
#[verifier::external_body]
pub(crate) fn lossy_text(bytes: &[u8]) -> (text: String)
    ensures
        text@ == utf8_lossy(bytes@),
        valid_utf8(bytes@) ==> text@ == decode_utf8(bytes@),
{
    String::from_utf8_lossy(bytes).into_owned()
}

} // verus!
