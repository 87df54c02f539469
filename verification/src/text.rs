//! Text handling shared by the path resolver and the call boundary:
//! separator-delimited fields, whitespace trimming, and decimal notation.
//!
//! Every function here is specified over `Seq<char>`, the view of `str`
//! and `String`.

use crate::error::{ErrorKind, FsError};
use vstd::prelude::*;
use vstd::string::StringExecFns;
use vstd::utf8::{decode_utf8, valid_utf8};

verus! {

/// `String::push` of the standard library appends one character to the
/// end of the string and leaves what was there before untouched. This is
/// assumed, not proved.
pub assume_specification[ String::push ](s: &mut String, c: char)
    ensures
        final(s)@ == old(s)@.push(c),
;

/// `String::from_utf8` of the standard library accepts exactly the byte
/// sequences that are valid UTF-8 and returns the text they encode. This is
/// assumed, not proved. A rejected sequence comes back as `None`.
#[verifier::external_body]
pub(crate) fn text_from_utf8(bytes: Vec<u8>) -> (r: Option<String>)
    ensures
        r is Some <==> valid_utf8(bytes@),
        r matches Some(text) ==> text@ == decode_utf8(bytes@),
{
    match String::from_utf8(bytes) {
        Ok(text) => Some(text),
        Err(_) => None,
    }
}

/// The views of a sequence of strings, element by element.
pub open spec fn texts(v: Seq<String>) -> Seq<Seq<char>> {
    Seq::new(v.len(), |i: int| v[i]@)
}

// ---------------------------------------------------------------------
// Fields
// ---------------------------------------------------------------------

/// Index of the first occurrence of `sep` in `s`, or `s.len()` when `sep`
/// does not occur.
pub open spec fn find_sep(s: Seq<char>, sep: char) -> int
    decreases s.len(),
{
    if s.len() == 0 || s[0] == sep {
        0
    } else {
        1 + find_sep(s.drop_first(), sep)
    }
}

/// The non-empty pieces of `s` between occurrences of `sep`, in order.
///
/// Leading, trailing and repeated separators produce no piece, so
/// `fields("/a//b/", '/')` is `["a", "b"]` and `fields("///", '/')` is
/// empty.
pub open spec fn fields(s: Seq<char>, sep: char) -> Seq<Seq<char>>
    decreases s.len(),
{
    if s.len() == 0 {
        Seq::empty()
    } else if s[0] == sep {
        fields(s.drop_first(), sep)
    } else {
        let n = find_sep(s, sep);
        if 0 < n < s.len() {
            seq![s.take(n)] + fields(s.skip(n), sep)
        } else {
            seq![s]
        }
    }
}

/// `find_sep` is the position `n` whenever nothing before `n` is the
/// separator and `n` is either the end or holds the separator.
pub proof fn lemma_find_sep(s: Seq<char>, sep: char, n: int)
    requires
        0 <= n <= s.len(),
        forall|k: int| 0 <= k < n ==> s[k] != sep,
        n < s.len() ==> s[n] == sep,
    ensures
        find_sep(s, sep) == n,
    decreases n,
{
    if n > 0 {
        let t = s.drop_first();
        assert forall|k: int| 0 <= k < n - 1 implies t[k] != sep by {
            assert(t[k] == s[k + 1]);
        }
        lemma_find_sep(t, sep, n - 1);
    }
}

/// `find_sep` stays inside the sequence, everything before it differs from
/// the separator, and the separator stands at it unless it is the end.
pub proof fn lemma_find_sep_bounds(s: Seq<char>, sep: char)
    ensures
        0 <= find_sep(s, sep) <= s.len(),
        forall|k: int| 0 <= k < find_sep(s, sep) ==> s[k] != sep,
        find_sep(s, sep) < s.len() ==> s[find_sep(s, sep)] == sep,
    decreases s.len(),
{
    if s.len() == 0 || s[0] == sep {
    } else {
        let t = s.drop_first();
        lemma_find_sep_bounds(t, sep);
        assert forall|k: int| 0 <= k < find_sep(s, sep) implies s[k] != sep by {
            if k > 0 {
                assert(s[k] == t[k - 1]);
            }
        }
    }
}

/// A separator-free, non-empty prefix of length `n` is the first field.
pub proof fn lemma_fields_first(s: Seq<char>, sep: char, n: int)
    requires
        0 < n <= s.len(),
        forall|k: int| 0 <= k < n ==> s[k] != sep,
        n < s.len() ==> s[n] == sep,
    ensures
        fields(s, sep) == seq![s.take(n)] + fields(s.skip(n), sep),
{
    lemma_find_sep(s, sep, n);
    if n == s.len() {
        assert(s.take(n) =~= s);
        assert(s.skip(n) =~= Seq::<char>::empty());
        assert(fields(s.skip(n), sep) =~= Seq::<Seq<char>>::empty());
        assert(seq![s] + Seq::<Seq<char>>::empty() =~= seq![s]);
    }
}

/// No field holds the separator, and no field is empty.
pub proof fn lemma_fields_are_clean(s: Seq<char>, sep: char)
    ensures
        forall|i: int|
            0 <= i < fields(s, sep).len() ==> {
                &&& (#[trigger] fields(s, sep)[i]).len() > 0
                &&& !fields(s, sep)[i].contains(sep)
            },
    decreases s.len(),
{
    if s.len() == 0 {
    } else if s[0] == sep {
        lemma_fields_are_clean(s.drop_first(), sep);
        assert(fields(s, sep) == fields(s.drop_first(), sep));
    } else {
        let n = find_sep(s, sep);
        lemma_find_sep_bounds(s, sep);
        let head = if 0 < n < s.len() {
            s.take(n)
        } else {
            s
        };
        assert(head.len() > 0);
        assert(!head.contains(sep)) by {
            if head.contains(sep) {
                let k = choose|k: int| 0 <= k < head.len() && head[k] == sep;
                assert(s[k] == sep);
            }
        }
        if 0 < n < s.len() {
            lemma_fields_are_clean(s.skip(n), sep);
            let rest = fields(s.skip(n), sep);
            assert forall|i: int| 0 <= i < fields(s, sep).len() implies {
                &&& (#[trigger] fields(s, sep)[i]).len() > 0
                &&& !fields(s, sep)[i].contains(sep)
            } by {
                assert(fields(s, sep) == seq![head] + rest);
                if i > 0 {
                    assert(fields(s, sep)[i] == rest[i - 1]);
                } else {
                    assert(fields(s, sep)[i] == head);
                }
            }
        } else {
            assert(fields(s, sep) =~= seq![head]);
        }
    }
}

/// There are at most as many fields as characters.
pub proof fn lemma_fields_len(s: Seq<char>, sep: char)
    ensures
        fields(s, sep).len() <= s.len(),
    decreases s.len(),
{
    if s.len() == 0 {
    } else if s[0] == sep {
        lemma_fields_len(s.drop_first(), sep);
    } else {
        let n = find_sep(s, sep);
        if 0 < n < s.len() {
            lemma_fields_len(s.skip(n), sep);
        }
    }
}

/// The characters of a string slice, collected in order.
pub fn chars_of(s: &str) -> (v: Vec<char>)
    ensures
        v@ == s@,
{
    let mut v: Vec<char> = Vec::new();
    for c in it: s.chars()
        invariant
            it.seq() == s@,
            v@ == it.seq().take(it.index() as int),
    {
        v.push(c);
    }
    v
}

/// The string made of `chars[from..to]`.
pub fn text_of(chars: &Vec<char>, from: usize, to: usize) -> (s: String)
    requires
        from <= to <= chars.len(),
    ensures
        s@ == chars@.subrange(from as int, to as int),
{
    let mut s = String::new();
    let mut i: usize = from;
    while i < to
        invariant
            from <= i <= to <= chars.len(),
            s@ == chars@.subrange(from as int, i as int),
        decreases to - i,
    {
        s.push(chars[i]);
        i += 1;
    }
    s
}

/// Splits `s` at every `sep` and keeps the non-empty pieces.
pub fn split_fields(s: &str, sep: char) -> (out: Vec<String>)
    ensures
        texts(out@) == fields(s@, sep),
{
    let chars = chars_of(s);
    let mut out: Vec<String> = Vec::new();
    let mut start: usize = 0;
    let mut i: usize = 0;
    proof {
        assert(chars@.skip(0) =~= chars@);
        assert(texts(out@) + fields(chars@, sep) =~= fields(chars@, sep));
    }
    while i < chars.len()
        invariant
            chars@ == s@,
            start <= i <= chars.len(),
            forall|k: int| start <= k < i ==> chars@[k] != sep,
            fields(s@, sep) == texts(out@) + fields(chars@.skip(start as int), sep),
        decreases chars.len() - i,
    {
        if chars[i] == sep {
            let ghost tail = chars@.skip(start as int);
            if start < i {
                let piece = text_of(&chars, start, i);
                proof {
                    lemma_fields_first(tail, sep, i - start);
                    assert(tail.take(i - start) =~= chars@.subrange(start as int, i as int));
                    assert(tail.skip(i - start) =~= chars@.skip(i as int));
                    assert(texts(out@.push(piece)) =~= texts(out@) + seq![piece@]);
                }
                out.push(piece);
            }
            proof {
                let at = chars@.skip(i as int);
                assert(at[0] == sep);
                assert(at.drop_first() =~= chars@.skip(i + 1));
            }
            start = i + 1;
        }
        i += 1;
    }
    if start < i {
        let piece = text_of(&chars, start, i);
        proof {
            let tail = chars@.skip(start as int);
            lemma_fields_first(tail, sep, i - start);
            assert(tail.take(i - start) =~= chars@.subrange(start as int, i as int));
            assert(tail.skip(i - start) =~= Seq::<char>::empty());
            assert(texts(out@.push(piece)) =~= texts(out@) + seq![piece@]);
        }
        out.push(piece);
    } else {
        proof {
            assert(chars@.skip(start as int) =~= Seq::<char>::empty());
        }
    }
    proof {
        assert(fields(Seq::<char>::empty(), sep) =~= Seq::<Seq<char>>::empty());
        assert(texts(out@) + Seq::<Seq<char>>::empty() =~= texts(out@));
    }
    out
}

// ---------------------------------------------------------------------
// Whitespace
// ---------------------------------------------------------------------

/// Whether `c` carries the Unicode property White_Space.
pub open spec fn is_space(c: char) -> bool {
    let n = c as int;
    ||| 0x09 <= n <= 0x0D
    ||| n == 0x20
    ||| n == 0x85
    ||| n == 0xA0
    ||| n == 0x1680
    ||| 0x2000 <= n <= 0x200A
    ||| n == 0x2028
    ||| n == 0x2029
    ||| n == 0x202F
    ||| n == 0x205F
    ||| n == 0x3000
}

/// `s` without its leading whitespace.
pub open spec fn trim_start(s: Seq<char>) -> Seq<char>
    decreases s.len(),
{
    if s.len() > 0 && is_space(s[0]) {
        trim_start(s.drop_first())
    } else {
        s
    }
}

/// `s` without its trailing whitespace.
pub open spec fn trim_end(s: Seq<char>) -> Seq<char>
    decreases s.len(),
{
    if s.len() > 0 && is_space(s.last()) {
        trim_end(s.drop_last())
    } else {
        s
    }
}

/// `s` without leading and trailing whitespace.
pub open spec fn trim(s: Seq<char>) -> Seq<char> {
    trim_end(trim_start(s))
}

/// Whether `c` is whitespace: a character with the Unicode property
/// White_Space.
pub fn is_whitespace(c: char) -> (r: bool)
    ensures
        r == is_space(c),
{
    let n: u32 = c as u32;
    (0x09 <= n && n <= 0x0D) || n == 0x20 || n == 0x85 || n == 0xA0 || n == 0x1680 || (0x2000 <= n
        && n <= 0x200A) || n == 0x2028 || n == 0x2029 || n == 0x202F || n == 0x205F || n == 0x3000
}

/// The bounds of what remains of `chars` once leading and trailing
/// whitespace is gone.
pub fn trim_bounds(chars: &Vec<char>) -> (r: (usize, usize))
    ensures
        r.0 <= r.1 <= chars.len(),
        chars@.subrange(r.0 as int, r.1 as int) == trim(chars@),
{
    let mut lo: usize = 0;
    proof {
        assert(chars@.skip(0) =~= chars@);
    }
    while lo < chars.len() && is_whitespace(chars[lo])
        invariant
            lo <= chars.len(),
            trim_start(chars@) == trim_start(chars@.skip(lo as int)),
        decreases chars.len() - lo,
    {
        proof {
            assert(chars@.skip(lo as int).drop_first() =~= chars@.skip(lo + 1));
        }
        lo += 1;
    }
    let mut hi: usize = chars.len();
    proof {
        assert(chars@.subrange(lo as int, hi as int) =~= chars@.skip(lo as int));
        if lo < chars.len() {
            assert(chars@.skip(lo as int)[0] == chars@[lo as int]);
        }
    }
    while hi > lo && is_whitespace(chars[hi - 1])
        invariant
            lo <= hi <= chars.len(),
            trim(chars@) == trim_end(chars@.subrange(lo as int, hi as int)),
        decreases hi - lo,
    {
        proof {
            assert(chars@.subrange(lo as int, hi as int).drop_last() =~= chars@.subrange(
                lo as int,
                hi - 1,
            ));
        }
        hi -= 1;
    }
    (lo, hi)
}

/// A copy of `s` without leading and trailing whitespace.
pub fn trimmed(s: &str) -> (r: String)
    ensures
        r@ == trim(s@),
{
    let chars = chars_of(s);
    let (lo, hi) = trim_bounds(&chars);
    text_of(&chars, lo, hi)
}

// ---------------------------------------------------------------------
// Decimal notation
// ---------------------------------------------------------------------

/// The character for the decimal digit `d`.
pub open spec fn digit_char(d: int) -> char {
    ('0' as int + d) as char
}

/// `n` in decimal notation, without sign or leading zeros.
pub open spec fn decimal(n: nat) -> Seq<char>
    decreases n,
{
    if n < 10 {
        seq![digit_char(n as int)]
    } else {
        decimal(n / 10).push(digit_char((n % 10) as int))
    }
}

/// Appends `n` in decimal notation to `out`.
pub fn push_decimal(out: &mut String, n: u64)
    ensures
        final(out)@ == old(out)@ + decimal(n as nat),
    decreases n,
{
    if n >= 10 {
        push_decimal(out, n / 10);
    }
    let d: u8 = (n % 10) as u8;
    let c: char = (48u8 + d) as char;
    out.push(c);
    proof {
        assert(c == digit_char((n % 10) as int));
        if n >= 10 {
            assert(old(out)@ + decimal((n / 10) as nat).push(c) =~= (old(out)@ + decimal(
                (n / 10) as nat,
            )).push(c));
        } else {
            assert(old(out)@ + seq![c] =~= old(out)@.push(c));
        }
    }
}

/// Whether `c` is one of `0` to `9`.
pub open spec fn is_digit(c: char) -> bool {
    '0' <= c <= '9'
}

/// The number that a sequence of decimal digits denotes; the empty
/// sequence denotes zero.
pub open spec fn digits_value(s: Seq<char>) -> nat
    decreases s.len(),
{
    if s.len() == 0 {
        0
    } else {
        (digits_value(s.drop_last()) * 10 + (s.last() as int - '0' as int)) as nat
    }
}

/// Whether every character of `s` is a decimal digit.
pub open spec fn all_digits(s: Seq<char>) -> bool {
    forall|i: int| 0 <= i < s.len() ==> is_digit(#[trigger] s[i])
}

/// The byte that one or more decimal digits denote, if their value is at
/// most 255.
pub open spec fn digits_byte(digits: Seq<char>) -> Option<u8> {
    if digits.len() > 0 && all_digits(digits) && digits_value(digits) <= 255 {
        Some(digits_value(digits) as u8)
    } else {
        None
    }
}

/// The byte that `s` denotes: an optional `+`, then one or more decimal
/// digits whose value is at most 255. Anything else denotes no byte.
pub open spec fn byte_value(s: Seq<char>) -> Option<u8> {
    if s.len() > 0 && s[0] == '+' {
        digits_byte(s.drop_first())
    } else {
        digits_byte(s)
    }
}

/// More digits never denote less.
pub proof fn lemma_digits_value_grows(s: Seq<char>, n: int)
    requires
        all_digits(s),
        0 <= n <= s.len(),
    ensures
        digits_value(s.take(n)) <= digits_value(s),
    decreases s.len() - n,
{
    if n < s.len() {
        lemma_digits_value_grows(s, n + 1);
        assert(s.take(n + 1).drop_last() =~= s.take(n));
        assert(is_digit(s[n]));
        assert(s.take(n + 1).last() == s[n]);
    } else {
        assert(s.take(n) =~= s);
    }
}

/// Reads `chars[from..to]` as a byte in decimal notation.
pub fn parse_byte(chars: &Vec<char>, from: usize, to: usize) -> (r: Option<u8>)
    requires
        from <= to <= chars.len(),
    ensures
        r == byte_value(chars@.subrange(from as int, to as int)),
{
    let ghost text = chars@.subrange(from as int, to as int);
    let start: usize = if from < to && chars[from] == '+' {
        from + 1
    } else {
        from
    };
    let ghost digits = chars@.subrange(start as int, to as int);
    proof {
        if start == from + 1 {
            assert(text.drop_first() =~= digits);
        }
    }
    if start == to {
        return None;
    }
    let mut acc: u32 = 0;
    let mut i: usize = start;
    while i < to
        invariant
            start <= i <= to <= chars.len(),
            digits == chars@.subrange(start as int, to as int),
            byte_value(chars@.subrange(from as int, to as int)) == digits_byte(digits),
            all_digits(digits.take(i - start)),
            acc == digits_value(digits.take(i - start)),
            acc <= 255,
        decreases to - i,
    {
        let c = chars[i];
        let ghost k = i - start;
        proof {
            assert(digits[k] == c);
            assert(digits.take(k + 1).drop_last() =~= digits.take(k));
            assert(digits.take(k + 1).last() == c);
        }
        if !('0' <= c && c <= '9') {
            proof {
                assert(!is_digit(digits[k]));
            }
            return None;
        }
        let d: u32 = c as u32 - 48;
        let next: u32 = acc * 10 + d;
        proof {
            assert forall|j: int| 0 <= j < k + 1 implies is_digit(#[trigger] digits.take(k + 1)[j]) by {
                if j < k {
                    assert(digits.take(k)[j] == digits.take(k + 1)[j]);
                }
            }
            assert(next == digits_value(digits.take(k + 1)));
        }
        if next > 255 {
            proof {
                if all_digits(digits) {
                    lemma_digits_value_grows(digits, k + 1);
                }
            }
            return None;
        }
        acc = next;
        i += 1;
    }
    proof {
        assert(digits.take(i - start) =~= digits);
    }
    Some(acc as u8)
}

// ---------------------------------------------------------------------
// Joining
// ---------------------------------------------------------------------

/// The parts in order, with `sep` between each two neighbours.
pub open spec fn join(parts: Seq<Seq<char>>, sep: Seq<char>) -> Seq<char>
    decreases parts.len(),
{
    if parts.len() == 0 {
        Seq::empty()
    } else if parts.len() == 1 {
        parts[0]
    } else {
        join(parts.drop_last(), sep) + sep + parts.last()
    }
}

/// Joining one part more.
pub proof fn lemma_join_push(parts: Seq<Seq<char>>, sep: Seq<char>, part: Seq<char>)
    ensures
        join(parts.push(part), sep) == if parts.len() == 0 {
            part
        } else {
            join(parts, sep) + sep + part
        },
{
    assert(parts.push(part).drop_last() =~= parts);
}

/// The strings in order, with `sep` between each two neighbours.
pub fn join_texts(parts: &Vec<String>, sep: char) -> (r: String)
    ensures
        r@ == join(texts(parts@), seq![sep]),
{
    let mut r = String::new();
    let mut i: usize = 0;
    proof {
        assert(texts(parts@).take(0) =~= Seq::<Seq<char>>::empty());
    }
    while i < parts.len()
        invariant
            i <= parts.len(),
            r@ == join(texts(parts@).take(i as int), seq![sep]),
        decreases parts.len() - i,
    {
        if i > 0 {
            r.push(sep);
        }
        let ghost before = r@;
        r.append(parts[i].as_str());
        proof {
            let done = texts(parts@).take(i as int);
            lemma_join_push(done, seq![sep], parts@[i as int]@);
            assert(done.push(parts@[i as int]@) =~= texts(parts@).take(i + 1));
            if i > 0 {
                assert(before =~= join(done, seq![sep]) + seq![sep]);
            } else {
                assert(Seq::<char>::empty() + parts@[i as int]@ =~= parts@[i as int]@);
            }
        }
        i += 1;
    }
    proof {
        assert(texts(parts@).take(i as int) =~= texts(parts@));
    }
    r
}

// ---------------------------------------------------------------------
// Byte lists
// ---------------------------------------------------------------------

/// The decimal notations of the bytes, in order.
pub open spec fn decimals(bytes: Seq<u8>) -> Seq<Seq<char>> {
    Seq::new(bytes.len(), |i: int| decimal(bytes[i] as nat))
}

/// Bytes as text: their decimal notations with a comma between each two.
pub open spec fn render_bytes(bytes: Seq<u8>) -> Seq<char> {
    join(decimals(bytes), seq![','])
}

/// The byte that a list item denotes, whitespace around it ignored.
pub open spec fn item_value(item: Seq<char>) -> Option<u8> {
    byte_value(trim(item))
}

/// The bytes that a comma-separated list denotes.
///
/// Empty items count for nothing, so `"1,,2,"` lists two bytes and the
/// empty text lists none. Every other item is a byte in decimal notation
/// with optional whitespace around it; if one is not, the text denotes no
/// list.
pub open spec fn byte_list(s: Seq<char>) -> Option<Seq<u8>> {
    let items = fields(s, ',');
    if forall|i: int| 0 <= i < items.len() ==> (#[trigger] item_value(items[i])) is Some {
        Some(Seq::new(items.len(), |i: int| item_value(items[i])->0))
    } else {
        None
    }
}

/// Writes bytes as text: their decimal notations with a comma between
/// each two.
pub fn format_bytes(bytes: &Vec<u8>) -> (r: String)
    ensures
        r@ == render_bytes(bytes@),
{
    let mut r = String::new();
    let mut i: usize = 0;
    proof {
        assert(decimals(bytes@).take(0) =~= Seq::<Seq<char>>::empty());
    }
    while i < bytes.len()
        invariant
            i <= bytes.len(),
            r@ == join(decimals(bytes@).take(i as int), seq![',']),
        decreases bytes.len() - i,
    {
        if i > 0 {
            r.push(',');
        }
        let ghost before = r@;
        push_decimal(&mut r, bytes[i] as u64);
        proof {
            let done = decimals(bytes@).take(i as int);
            let part = decimal(bytes@[i as int] as nat);
            lemma_join_push(done, seq![','], part);
            assert(done.push(part) =~= decimals(bytes@).take(i + 1));
            if i > 0 {
                assert(before =~= join(done, seq![',']) + seq![',']);
            } else {
                assert(Seq::<char>::empty() + part =~= part);
            }
        }
        i += 1;
    }
    proof {
        assert(decimals(bytes@).take(i as int) =~= decimals(bytes@));
    }
    r
}

/// Reads a comma-separated list of bytes in decimal notation. A text that
/// denotes no list is invalid input.
pub fn parse_byte_list(s: &str) -> (r: Result<Vec<u8>, FsError>)
    ensures
        match r {
            Ok(bytes) => byte_list(s@) == Some(bytes@),
            Err(e) => byte_list(s@) is None && e@ == ErrorKind::InvalidInput,
        },
{
    let items = split_fields(s, ',');
    let mut bytes: Vec<u8> = Vec::new();
    let mut i: usize = 0;
    while i < items.len()
        invariant
            i <= items.len(),
            texts(items@) == fields(s@, ','),
            bytes@.len() == i,
            forall|k: int|
                0 <= k < i ==> item_value(#[trigger] fields(s@, ',')[k]) == Some(bytes@[k]),
        decreases items.len() - i,
    {
        let chars = chars_of(items[i].as_str());
        let (lo, hi) = trim_bounds(&chars);
        proof {
            assert(texts(items@)[i as int] == items@[i as int]@);
        }
        match parse_byte(&chars, lo, hi) {
            None => {
                proof {
                    assert(item_value(fields(s@, ',')[i as int]) is None);
                }
                return Err(FsError::InvalidInput);
            },
            Some(b) => {
                bytes.push(b);
            },
        }
        i += 1;
    }
    proof {
        let items = fields(s@, ',');
        assert(bytes@ =~= Seq::new(items.len(), |i: int| item_value(items[i])->0));
    }
    Ok(bytes)
}

// ---------------------------------------------------------------------
// Writing and reading back
// ---------------------------------------------------------------------

/// The fields of two texts with a separator between them are the fields
/// of the first followed by the fields of the second.
pub proof fn lemma_fields_concat(x: Seq<char>, y: Seq<char>, sep: char)
    ensures
        fields(x + seq![sep] + y, sep) == fields(x, sep) + fields(y, sep),
    decreases x.len(),
{
    let w = x + seq![sep] + y;
    if x.len() == 0 {
        assert(w.drop_first() =~= y);
        assert(fields(x, sep) + fields(y, sep) =~= fields(y, sep));
    } else if x[0] == sep {
        assert(w.drop_first() =~= x.drop_first() + seq![sep] + y);
        lemma_fields_concat(x.drop_first(), y, sep);
    } else {
        let n = find_sep(x, sep);
        lemma_find_sep_bounds(x, sep);
        assert forall|k: int| 0 <= k < n implies w[k] != sep by {
            assert(w[k] == x[k]);
        }
        assert(w[n] == sep) by {
            if n < x.len() {
                assert(w[n] == x[n]);
            }
        }
        lemma_fields_first(w, sep, n);
        assert(w.take(n) =~= x.take(n));
        assert(w.skip(n) =~= x.skip(n) + seq![sep] + y);
        lemma_fields_concat(x.skip(n), y, sep);
        lemma_fields_first(x, sep, n);
        assert(seq![x.take(n)] + (fields(x.skip(n), sep) + fields(y, sep)) =~= (seq![x.take(n)]
            + fields(x.skip(n), sep)) + fields(y, sep));
    }
}

/// Splitting undoes joining, when every part is non-empty and free of the
/// separator.
pub proof fn lemma_fields_of_join(parts: Seq<Seq<char>>, sep: char)
    requires
        forall|i: int| 0 <= i < parts.len() ==> (#[trigger] parts[i]).len() > 0 && !parts[i].contains(sep),
    ensures
        fields(join(parts, seq![sep]), sep) == parts,
    decreases parts.len(),
{
    if parts.len() == 0 {
        assert(fields(Seq::<char>::empty(), sep) =~= parts);
    } else {
        let last = parts.last();
        assert(last == parts[parts.len() - 1]);
        assert forall|k: int| 0 <= k < last.len() implies last[k] != sep by {
            if last[k] == sep {
                assert(last.contains(sep));
            }
        }
        lemma_fields_first(last, sep, last.len() as int);
        assert(last.take(last.len() as int) =~= last);
        assert(last.skip(last.len() as int) =~= Seq::<char>::empty());
        assert(fields(last, sep) =~= seq![last]);
        if parts.len() == 1 {
            assert(seq![last] =~= parts);
        } else {
            let front = parts.drop_last();
            assert forall|i: int| 0 <= i < front.len() implies (#[trigger] front[i]).len() > 0
                && !front[i].contains(sep) by {
                assert(front[i] == parts[i]);
            }
            lemma_fields_of_join(front, sep);
            lemma_fields_concat(join(front, seq![sep]), last, sep);
            assert(front + seq![last] =~= parts);
        }
    }
}

/// Decimal notation is made of digits, at least one, and denotes the
/// number it was written for.
pub proof fn lemma_decimal_is_digits(n: nat)
    ensures
        decimal(n).len() > 0,
        all_digits(decimal(n)),
        digits_value(decimal(n)) == n,
    decreases n,
{
    if n < 10 {
        let s = decimal(n);
        assert(s.len() == 1);
        assert(s[0] == digit_char(n as int));
        assert(s.drop_last() =~= Seq::<char>::empty());
        assert(digits_value(s.drop_last()) == 0);
    } else {
        lemma_decimal_is_digits(n / 10);
        let front = decimal(n / 10);
        let c = digit_char((n % 10) as int);
        let s = front.push(c);
        assert(s.drop_last() =~= front);
        assert(s.last() == c);
        assert forall|i: int| 0 <= i < s.len() implies is_digit(#[trigger] s[i]) by {
            if i < front.len() {
                assert(s[i] == front[i]);
                assert(is_digit(front[i]));
            }
        }
    }
}

/// A list item in decimal notation denotes the byte it was written for.
pub proof fn lemma_item_value_of_decimal(b: u8)
    ensures
        item_value(decimal(b as nat)) == Some(b),
        decimal(b as nat).len() > 0,
        !decimal(b as nat).contains(','),
{
    let s = decimal(b as nat);
    lemma_decimal_is_digits(b as nat);
    assert(is_digit(s[0]));
    assert(is_digit(s.last()));
    assert(trim_start(s) == s);
    assert(trim_end(s) == s);
    assert(!s.contains(',')) by {
        if s.contains(',') {
            let k = choose|k: int| 0 <= k < s.len() && s[k] == ',';
            assert(is_digit(s[k]));
        }
    }
}

/// Bytes written as text are read back as the same bytes.
pub proof fn lemma_byte_list_of_render(bytes: Seq<u8>)
    ensures
        byte_list(render_bytes(bytes)) == Some(bytes),
{
    let parts = decimals(bytes);
    assert forall|i: int| 0 <= i < parts.len() implies (#[trigger] parts[i]).len() > 0
        && !parts[i].contains(',') && item_value(parts[i]) == Some(bytes[i]) by {
        lemma_item_value_of_decimal(bytes[i]);
    }
    lemma_fields_of_join(parts, ',');
    let items = fields(render_bytes(bytes), ',');
    assert(items == parts);
    assert forall|i: int| 0 <= i < items.len() implies (#[trigger] item_value(items[i])) is Some by {
        assert(item_value(parts[i]) == Some(bytes[i]));
    }
    assert(Seq::new(items.len(), |i: int| item_value(items[i])->0) =~= bytes) by {
        assert forall|i: int| 0 <= i < items.len() implies item_value(items[i])->0 == bytes[i] by {
            assert(item_value(parts[i]) == Some(bytes[i]));
        }
    }
}

} // verus!
