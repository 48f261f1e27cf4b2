//! Go spellings of literal text: escape sequences in interpreted strings and
//! runes, raw strings, and composite literal elements.

use vstd::prelude::*;
use crate::text::{owned, push_char, starts_with, seq_join, views_of, join, lemma_views_push};

verus! {

pub open spec fn is_octal(c: char) -> bool {
    '0' <= c && c <= '7'
}

/// How many octal digits, at most three, `s` starts with.
pub open spec fn octal_run(s: Seq<char>) -> nat {
    if s.len() > 0 && is_octal(s[0]) {
        if s.len() > 1 && is_octal(s[1]) {
            if s.len() > 2 && is_octal(s[2]) {
                3
            } else {
                2
            }
        } else {
            1
        }
    } else {
        0
    }
}

/// The value of a string of octal digits.
pub open spec fn octal_value(s: Seq<char>) -> nat
    decreases s.len(),
{
    if s.len() == 0 {
        0
    } else {
        octal_value(s.drop_last()) * 8 + ((s.last() as int - '0' as int) as nat)
    }
}

/// The value of a hexadecimal digit, either case.
pub open spec fn hex_digit_value(c: char) -> Option<nat> {
    if '0' <= c && c <= '9' {
        Some((c as int - '0' as int) as nat)
    } else if 'a' <= c && c <= 'f' {
        Some((c as int - 'a' as int + 10) as nat)
    } else if 'A' <= c && c <= 'F' {
        Some((c as int - 'A' as int + 10) as nat)
    } else {
        None
    }
}

pub open spec fn all_hex(s: Seq<char>) -> bool {
    forall|i: int| 0 <= i < s.len() ==> #[trigger] hex_digit_value(s[i]) is Some
}

/// The value of a string of hexadecimal digits.
pub open spec fn hex_number(s: Seq<char>) -> nat
    decreases s.len(),
{
    if s.len() == 0 {
        0
    } else {
        hex_number(s.drop_last()) * 16 + match hex_digit_value(s.last()) {
            Some(d) => d,
            None => 0,
        }
    }
}

/// `s` read as an unsigned 32-bit hexadecimal number: an optional `+`, then
/// at least one hex digit, and a value that fits.
pub open spec fn parsed_hex(s: Seq<char>) -> Option<nat> {
    let digits = if s.len() > 0 && s[0] == '+' {
        s.skip(1)
    } else {
        s
    };
    if digits.len() > 0 && all_hex(digits) && hex_number(digits) <= u32::MAX {
        Some(hex_number(digits))
    } else {
        None
    }
}

/// The character of a hexadecimal digit value.
pub open spec fn hex_char(d: nat, upper: bool) -> char {
    if d < 10 {
        (('0' as int) + d) as char
    } else if upper {
        (('A' as int) + d - 10) as char
    } else {
        (('a' as int) + d - 10) as char
    }
}

/// The hexadecimal digits of `n`, without leading zeros.
pub open spec fn hex_text(n: nat, upper: bool) -> Seq<char>
    decreases n,
{
    if n < 16 {
        seq![hex_char(n, upper)]
    } else {
        hex_text(n / 16, upper).push(hex_char(n % 16, upper))
    }
}

/// `s` left-padded with zeros to `width`.
pub open spec fn zero_padded(s: Seq<char>, width: nat) -> Seq<char> {
    if s.len() >= width {
        s
    } else {
        Seq::new((width - s.len()) as nat, |i: int| '0') + s
    }
}

/// The index of the first `}` in `s`, or its length.
pub open spec fn close_brace(s: Seq<char>) -> nat
    decreases s.len(),
{
    if s.len() == 0 {
        0
    } else if s[0] == '}' {
        0
    } else {
        1 + close_brace(s.skip(1))
    }
}

/// The Go escape of a `\u{...}` code point: four digits when it fits, eight
/// otherwise.
pub open spec fn unicode_escape(codepoint: nat) -> Seq<char> {
    if codepoint <= 0xFFFF {
        "\\u"@ + zero_padded(hex_text(codepoint, true), 4)
    } else {
        "\\U"@ + zero_padded(hex_text(codepoint, true), 8)
    }
}

/// Source escapes rewritten for a Go interpreted literal: `\\` stays,
/// octal escapes become `\x`, `\u{...}` becomes `\u`/`\U`, and raw newlines
/// and carriage returns are escaped.
pub open spec fn escaped(s: Seq<char>) -> Seq<char>
    decreases s.len(),
{
    if s.len() == 0 {
        Seq::empty()
    } else if s[0] == '\\' {
        if s.len() > 1 && s[1] == '\\' {
            "\\\\"@ + escaped(s.skip(2))
        } else if s.len() > 1 && is_octal(s[1]) {
            let n = octal_run(s.skip(1)) as int;
            "\\x"@ + zero_padded(hex_text(octal_value(s.subrange(1, 1 + n)), false), 2) + escaped(
                s.skip(1 + n),
            )
        } else if s.len() > 2 && s[1] == 'u' && s[2] == '{' {
            let body = s.skip(3);
            let k = close_brace(body);
            let codepoint = match parsed_hex(body.take(k as int)) {
                Some(v) => v,
                None => 0,
            };
            unicode_escape(codepoint) + if k < body.len() {
                escaped(body.skip(k as int + 1))
            } else {
                Seq::empty()
            }
        } else {
            seq!['\\'] + escaped(s.skip(1))
        }
    } else if s[0] == '\n' {
        "\\n"@ + escaped(s.skip(1))
    } else if s[0] == '\r' {
        "\\r"@ + escaped(s.skip(1))
    } else {
        seq![s[0]] + escaped(s.skip(1))
    }
}

fn hex_char_of(d: u32, upper: bool) -> (c: char)
    requires
        d < 16,
    ensures
        c == hex_char(d as nat, upper),
{
    if d < 10 {
        if d == 0 { '0' } else if d == 1 { '1' } else if d == 2 { '2' } else if d == 3 { '3' }
        else if d == 4 { '4' } else if d == 5 { '5' } else if d == 6 { '6' } else if d == 7 { '7' }
        else if d == 8 { '8' } else { '9' }
    } else if upper {
        if d == 10 { 'A' } else if d == 11 { 'B' } else if d == 12 { 'C' } else if d == 13 { 'D' }
        else if d == 14 { 'E' } else { 'F' }
    } else {
        if d == 10 { 'a' } else if d == 11 { 'b' } else if d == 12 { 'c' } else if d == 13 { 'd' }
        else if d == 14 { 'e' } else { 'f' }
    }
}

/// The hexadecimal digits of `n`.
fn hex_string(n: u32, upper: bool) -> (r: String)
    ensures
        r@ == hex_text(n as nat, upper),
    decreases n,
{
    if n < 16 {
        let mut r = String::new();
        push_char(&mut r, hex_char_of(n, upper));
        r
    } else {
        let mut r = hex_string(n / 16, upper);
        push_char(&mut r, hex_char_of(n % 16, upper));
        r
    }
}

/// Appends `n` in hexadecimal, zero-padded to `width` digits.
fn push_hex(out: &mut String, n: u32, upper: bool, width: usize)
    ensures
        final(out)@ == old(out)@ + zero_padded(hex_text(n as nat, upper), width as nat),
{
    let digits = hex_string(n, upper);
    let len = digits.as_str().unicode_len();
    let ghost start = out@;
    if len < width {
        let mut i: usize = 0;
        while i < width - len
            invariant
                i <= width - len,
                len < width,
                out@ == start + Seq::new(i as nat, |j: int| '0'),
            decreases width - len - i,
        {
            push_char(out, '0');
            assert(Seq::new((i + 1) as nat, |j: int| '0') =~= Seq::new(i as nat, |j: int| '0').push('0'));
            i = i + 1;
        }
    }
    out.append(digits.as_str());
    assert(out@ =~= start + zero_padded(hex_text(n as nat, upper), width as nat));
}

fn hex_digit(c: char) -> (r: Option<u32>)
    ensures
        match r {
            Some(d) => hex_digit_value(c) == Some(d as nat) && d < 16,
            None => hex_digit_value(c) is None,
        },
{
    if '0' <= c && c <= '9' {
        Some((c as u32) - ('0' as u32))
    } else if 'a' <= c && c <= 'f' {
        Some((c as u32) - ('a' as u32) + 10)
    } else if 'A' <= c && c <= 'F' {
        Some((c as u32) - ('A' as u32) + 10)
    } else {
        None
    }
}

proof fn lemma_hex_number_grows(s: Seq<char>, j: int)
    requires
        0 <= j <= s.len(),
    ensures
        hex_number(s.take(j)) <= hex_number(s),
    decreases s.len() - j,
{
    if j < s.len() {
        lemma_hex_number_grows(s, j + 1);
        assert(s.take(j + 1).drop_last() =~= s.take(j));
    } else {
        assert(s.take(j) =~= s);
    }
}

/// Reads `s` as a `u32` in hexadecimal, as `u32::from_str_radix(s, 16)` does.
pub fn parse_hex_u32(s: &str) -> (r: Option<u32>)
    ensures
        match r {
            Some(v) => parsed_hex(s@) == Some(v as nat),
            None => parsed_hex(s@) is None,
        },
{
    let n = s.unicode_len();
    let start: usize = if n > 0 && s.get_char(0) == '+' {
        1
    } else {
        0
    };
    let ghost digits = if s@.len() > 0 && s@[0] == '+' {
        s@.skip(1)
    } else {
        s@
    };
    assert(digits =~= s@.skip(start as int));
    assert(parsed_hex(s@) == (if digits.len() > 0 && all_hex(digits) && hex_number(digits) <= u32::MAX {
        Some(hex_number(digits))
    } else {
        None
    }));
    if start == n {
        return None;
    }
    let mut value: u64 = 0;
    let mut i: usize = start;
    while i < n
        invariant
            n == s@.len(),
            start <= i <= n,
            digits == s@.skip(start as int),
            parsed_hex(s@) == (if digits.len() > 0 && all_hex(digits) && hex_number(digits) <= u32::MAX {
                Some(hex_number(digits))
            } else {
                None
            }),
            all_hex(digits.take(i - start)),
            value as nat == hex_number(digits.take(i - start)),
            value <= u32::MAX,
        decreases n - i,
    {
        let c = s.get_char(i);
        let ghost k = i - start;
        assert(digits[k] == c);
        assert(digits.take(k + 1).drop_last() =~= digits.take(k));
        match hex_digit(c) {
            Some(d) => {
                let next = value * 16 + d as u64;
                assert(digits.take(k + 1).last() == c);
                assert(hex_number(digits.take(k + 1)) == next);
                if next > 0xFFFF_FFFF {
                    proof {
                        lemma_hex_number_grows(digits, k + 1);
                        assert(hex_number(digits) > u32::MAX);
                        assert(parsed_hex(s@) is None);
                    }
                    return None;
                }
                value = next;
            },
            None => {
                assert(hex_digit_value(digits[k]) is None);
                assert(!all_hex(digits));
                assert(parsed_hex(s@) is None);
                return None;
            },
        }
        i = i + 1;
    }
    assert(digits.take(n - start) =~= digits);
    Some(value as u32)
}

/// Rewrites source escape sequences for a Go interpreted string or rune
/// literal.
pub fn convert_escape_sequences(s: &str) -> (r: String)
    ensures
        r@ == escaped(s@),
{
    let n = s.unicode_len();
    let mut result = String::new();
    let mut i: usize = 0;
    assert(s@.skip(0) =~= s@);
    while i < n
        invariant
            n == s@.len(),
            i <= n,
            result@ + escaped(s@.skip(i as int)) == escaped(s@),
        decreases n - i,
    {
        let ghost before = result@;
        let next = escape_step(s, i, &mut result);
        assert(result@ + escaped(s@.skip(next as int)) =~= before + escaped(s@.skip(i as int)));
        i = next;
    }
    assert(s@.skip(n as int) =~= Seq::<char>::empty());
    result
}

/// Appends the escape of the text at `i` and returns where the rest starts.
fn escape_step(s: &str, i: usize, out: &mut String) -> (next: usize)
    requires
        i < s@.len(),
    ensures
        i < next <= s@.len(),
        final(out)@ + escaped(s@.skip(next as int)) == old(out)@ + escaped(s@.skip(i as int)),
{
    let n = s.unicode_len();
    let ghost rest = s@.skip(i as int);
    let c = s.get_char(i);
    assert(rest[0] == c);
    if c == '\\' {
        if n - i > 1 && s.get_char(i + 1) == '\\' {
            assert(rest[1] == s@[i + 1]);
            out.append("\\\\");
            assert(rest.skip(2) =~= s@.skip(i + 2));
            i + 2
        } else if n - i > 1 && '0' <= s.get_char(i + 1) && s.get_char(i + 1) <= '7' {
            assert(rest[1] == s@[i + 1]);
            octal_escape(s, i, out)
        } else if n - i > 2 && s.get_char(i + 1) == 'u' && s.get_char(i + 2) == '{' {
            assert(rest[1] == s@[i + 1]);
            assert(rest[2] == s@[i + 2]);
            unicode_escape_at(s, i, out)
        } else {
            push_char(out, '\\');
            proof {
                if n - i > 1 {
                    assert(rest[1] == s@[i + 1]);
                }
                if n - i > 2 {
                    assert(rest[2] == s@[i + 2]);
                }
                assert(rest.skip(1) =~= s@.skip(i + 1));
            }
            i + 1
        }
    } else if c == '\n' {
        out.append("\\n");
        assert(rest.skip(1) =~= s@.skip(i + 1));
        i + 1
    } else if c == '\r' {
        out.append("\\r");
        assert(rest.skip(1) =~= s@.skip(i + 1));
        i + 1
    } else {
        push_char(out, c);
        assert(rest.skip(1) =~= s@.skip(i + 1));
        i + 1
    }
}

/// An octal escape `\ooo` at `i`, as `\x` and two or more hex digits.
fn octal_escape(s: &str, i: usize, out: &mut String) -> (next: usize)
    requires
        i + 1 < s@.len(),
        s@[i as int] == '\\',
        s@[i + 1] != '\\',
        is_octal(s@[i + 1]),
    ensures
        i < next <= s@.len(),
        final(out)@ + escaped(s@.skip(next as int)) == old(out)@ + escaped(s@.skip(i as int)),
{
    let n = s.unicode_len();
    let ghost rest = s@.skip(i as int);
    let mut value: u32 = 0;
    let mut count: usize = 0;
    while count < 3 && i + 1 + count < n && '0' <= s.get_char(i + 1 + count) && s.get_char(
        i + 1 + count,
    ) <= '7'
        invariant
            n == s@.len(),
            i + 1 < n,
            count <= 3,
            i + 1 + count <= n,
            forall|j: int| 0 <= j < count ==> is_octal(#[trigger] s@[i + 1 + j]),
            value as nat == octal_value(s@.subrange(i + 1, i + 1 + count)),
            value < (if count == 0 {
                1u32
            } else if count == 1 {
                8u32
            } else if count == 2 {
                64u32
            } else {
                512u32
            }),
        decreases 3 - count,
    {
        let d = s.get_char(i + 1 + count);
        assert(s@.subrange(i + 1, i + 2 + count).drop_last() =~= s@.subrange(i + 1, i + 1 + count));
        value = value * 8 + ((d as u32) - ('0' as u32));
        count = count + 1;
    }
    proof {
        let tail = rest.skip(1);
        assert forall|j: int| 0 <= j < tail.len() implies tail[j] == s@[i + 1 + j] by {}
        assert(count >= 1);
        assert(octal_run(tail) == count);
        assert(rest.subrange(1, 1 + count as int) =~= s@.subrange(i + 1, i + 1 + count));
        assert(rest.skip(1 + count as int) =~= s@.skip(i + 1 + count));
    }
    out.append("\\x");
    push_hex(out, value, false, 2);
    i + 1 + count
}

/// A `\u{hex}` escape at `i`, as `\u` with four hex digits or `\U` with
/// eight.
fn unicode_escape_at(s: &str, i: usize, out: &mut String) -> (next: usize)
    requires
        i + 2 < s@.len(),
        s@[i as int] == '\\',
        s@[i + 1] == 'u',
        s@[i + 2] == '{',
    ensures
        i < next <= s@.len(),
        final(out)@ + escaped(s@.skip(next as int)) == old(out)@ + escaped(s@.skip(i as int)),
{
    let n = s.unicode_len();
    let ghost rest = s@.skip(i as int);
    let mut end: usize = i + 3;
    while end < n && s.get_char(end) != '}'
        invariant
            n == s@.len(),
            i + 3 <= end <= n,
            forall|j: int| i + 3 <= j < end ==> s@[j] != '}',
        decreases n - end,
    {
        end = end + 1;
    }
    let hex = s.substring_char(i + 3, end);
    let codepoint: u32 = match parse_hex_u32(hex) {
        Some(v) => v,
        None => 0,
    };
    proof {
        let body = rest.skip(3);
        assert(body =~= s@.skip(i + 3));
        assert(rest[0] == '\\' && rest[1] == 'u' && rest[2] == '{');
        lemma_close_brace(body, (end - i - 3) as int);
        assert(body.take(end - i - 3) =~= hex@);
        if end < n {
            assert(body.skip(end - i - 3 + 1) =~= s@.skip(end + 1));
        }
    }
    if codepoint <= 0xFFFF {
        out.append("\\u");
        push_hex(out, codepoint, true, 4);
    } else {
        out.append("\\U");
        push_hex(out, codepoint, true, 8);
    }
    if end < n {
        end + 1
    } else {
        proof {
            assert(s@.skip(n as int) =~= Seq::<char>::empty());
        }
        n
    }
}

proof fn lemma_close_brace(s: Seq<char>, k: int)
    requires
        0 <= k <= s.len(),
        forall|j: int| 0 <= j < k ==> s[j] != '}',
        k == s.len() || s[k] == '}',
    ensures
        close_brace(s) == k,
    decreases k,
{
    if k > 0 {
        lemma_close_brace(s.skip(1), k - 1);
    }
}

/// The Go escape of one character of a raw string that must be written as
/// an interpreted string.
pub open spec fn quoted_char(c: char) -> Seq<char> {
    if c == '\\' {
        "\\\\"@
    } else if c == '"' {
        "\\\""@
    } else if c == '\r' {
        "\\r"@
    } else if c == '\n' {
        "\\n"@
    } else {
        seq![c]
    }
}

pub open spec fn quoted_chars(s: Seq<char>) -> Seq<char>
    decreases s.len(),
{
    if s.len() == 0 {
        Seq::empty()
    } else {
        quoted_chars(s.drop_last()) + quoted_char(s.last())
    }
}

/// A raw string literal: a Go backtick string when it can hold the text,
/// which it cannot when the text has a backtick or a carriage return;
/// otherwise an interpreted string.
pub open spec fn raw_string_text(value: Seq<char>) -> Seq<char> {
    if !value.contains('`') && !value.contains('\r') {
        seq!['`'] + value + seq!['`']
    } else {
        seq!['"'] + quoted_chars(value) + seq!['"']
    }
}

pub fn emit_raw_string(value: &str) -> (r: String)
    ensures
        r@ == raw_string_text(value@),
{
    if !crate::text::contains_char(value, '`') && !crate::text::contains_char(value, '\r') {
        let mut r = String::new();
        push_char(&mut r, '`');
        r.append(value);
        push_char(&mut r, '`');
        return r;
    }
    let n = value.unicode_len();
    let mut r = String::new();
    push_char(&mut r, '"');
    let mut i: usize = 0;
    while i < n
        invariant
            n == value@.len(),
            i <= n,
            r@ == seq!['"'] + quoted_chars(value@.take(i as int)),
        decreases n - i,
    {
        let c = value.get_char(i);
        if c == '\\' {
            r.append("\\\\");
        } else if c == '"' {
            r.append("\\\"");
        } else if c == '\r' {
            r.append("\\r");
        } else if c == '\n' {
            r.append("\\n");
        } else {
            push_char(&mut r, c);
        }
        assert(value@.take(i + 1).drop_last() =~= value@.take(i as int));
        assert(value@.take(i + 1).last() == c);
        assert(r@ =~= seq!['"'] + quoted_chars(value@.take(i + 1)));
        i = i + 1;
    }
    assert(value@.take(n as int) =~= value@);
    push_char(&mut r, '"');
    r
}

/// A composite element literal without its type, when the element type is
/// spelled before a `{`.
pub open spec fn elided_element(element_ty: Seq<char>, rendered: Seq<char>) -> Seq<char> {
    if element_ty.len() < rendered.len() && rendered.take(element_ty.len() as int) == element_ty
        && rendered[element_ty.len() as int] == '{' {
        rendered.skip(element_ty.len() as int)
    } else {
        rendered
    }
}

pub fn elide_element_type(element_ty: &str, rendered: String) -> (r: String)
    ensures
        r@ == elided_element(element_ty@, rendered@),
{
    let m = element_ty.unicode_len();
    let n = rendered.as_str().unicode_len();
    if starts_with(rendered.as_str(), element_ty) && m < n && rendered.as_str().get_char(m) == '{' {
        owned(rendered.as_str().substring_char(m, n))
    } else {
        rendered
    }
}

/// Text with no backslash, newline or carriage return needs no escaping:
/// converting it changes nothing.
pub proof fn law_plain_text_unchanged(s: Seq<char>)
    requires
        forall|i: int| 0 <= i < s.len() ==> #[trigger] s[i] != '\\' && s[i] != '\n' && s[i] != '\r',
    ensures
        escaped(s) == s,
    decreases s.len(),
{
    if s.len() > 0 {
        let rest = s.skip(1);
        assert forall|i: int| 0 <= i < rest.len() implies #[trigger] rest[i] != '\\' && rest[i] != '\n'
            && rest[i] != '\r' by {
            assert(rest[i] == s[i + 1]);
        }
        law_plain_text_unchanged(rest);
        assert(s[0] != '\\' && s[0] != '\n' && s[0] != '\r');
        assert(seq![s[0]] + rest =~= s);
    }
}

/// The length in bytes that `str::len` reports for text `s`.
pub open spec fn byte_len(s: Seq<char>) -> nat {
    (vstd::utf8::encode_utf8(s).len() as usize) as nat
}

/// The widest element, in bytes.
pub open spec fn widest(elements: Seq<String>) -> nat
    decreases elements.len(),
{
    if elements.len() == 0 {
        0
    } else {
        let w = widest(elements.drop_last());
        let n = byte_len(elements.last()@);
        if n > w { n } else { w }
    }
}

/// A slice or array literal: `T{}` when empty, one line when short, and one
/// element per line when several elements are wider than thirty bytes.
pub open spec fn slice_literal_text(type_prefix: Seq<char>, element_ty: Seq<char>, elements: Seq<String>) -> Seq<
    char,
> {
    let head = type_prefix + element_ty;
    if elements.len() == 0 {
        head + "{}"@
    } else if elements.len() > 1 && widest(elements) > 30 {
        head + "{\n"@ + seq_join(
            views_of(elements).map_values(|e: Seq<char>| seq!['\t'] + e),
            ",\n"@,
        ) + ",\n}"@
    } else {
        head + "{ "@ + seq_join(views_of(elements), ", "@) + " }"@
    }
}

pub fn render_slice_literal(type_prefix: &str, element_ty: &str, elements: &Vec<String>) -> (r: String)
    ensures
        r@ == slice_literal_text(type_prefix@, element_ty@, elements@),
{
    let mut r = owned(type_prefix);
    r.append(element_ty);
    if elements.len() == 0 {
        r.append("{}");
        return r;
    }
    let mut wide: usize = 0;
    let mut i: usize = 0;
    while i < elements.len()
        invariant
            i <= elements@.len(),
            wide as nat == widest(elements@.take(i as int)),
        decreases elements.len() - i,
    {
        let text = elements[i].as_str();
        let n = text.len();
        assert(n as nat == byte_len(elements@[i as int]@));
        assert(elements@.take(i + 1).drop_last() =~= elements@.take(i as int));
        assert(elements@.take(i + 1).last() == elements@[i as int]);
        if n > wide {
            wide = n;
        }
        i = i + 1;
    }
    assert(elements@.take(i as int) =~= elements@);
    if elements.len() > 1 && wide > 30 {
        let ghost indented_view = views_of(elements@).map_values(|e: Seq<char>| seq!['\t'] + e);
        let mut indented: Vec<String> = Vec::new();
        let mut j: usize = 0;
        while j < elements.len()
            invariant
                j <= elements@.len(),
                indented_view == views_of(elements@).map_values(|e: Seq<char>| seq!['\t'] + e),
                views_of(indented@) == indented_view.take(j as int),
            decreases elements.len() - j,
        {
            let mut line = String::new();
            push_char(&mut line, '\t');
            line.append(elements[j].as_str());
            let ghost before = indented@;
            indented.push(line);
            proof {
                lemma_views_push(before, line);
                assert(indented_view.take(j + 1) =~= indented_view.take(j as int).push(line@));
            }
            j = j + 1;
        }
        assert(indented_view.take(j as int) =~= indented_view);
        r.append("{\n");
        r.append(join(&indented, ",\n").as_str());
        r.append(",\n}");
    } else {
        r.append("{ ");
        r.append(join(elements, ", ").as_str());
        r.append(" }");
    }
    r
}

} // verus!
