//! Text that the proxy writes: numbers in decimal and in hexadecimal, player
//! identifiers, and the pieces of JSON documents.

use vstd::prelude::*;
use vstd::string::StringExecFns;

verus! {

/// `String::push` appends one character.
pub assume_specification[ String::push ](s: &mut String, c: char)
    ensures
        final(s)@ == old(s)@.push(c),
;

/// The digit that stands for `value`, which is below 16, in lower case.
pub open spec fn digit_char(value: int) -> char {
    if value < 10 {
        (value + 48) as char
    } else {
        (value + 87) as char
    }
}

/// The decimal digits of the natural number `value`, without leading zeros.
pub open spec fn decimal_digits(value: int) -> Seq<char>
    decreases value,
{
    if value < 10 {
        seq![digit_char(value)]
    } else {
        decimal_digits(value / 10).push(digit_char(value % 10))
    }
}

/// `value` in decimal, with a minus sign where it is negative.
pub open spec fn decimal(value: int) -> Seq<char> {
    if value < 0 {
        seq!['-'] + decimal_digits(-value)
    } else {
        decimal_digits(value)
    }
}

/// The last `width` hexadecimal digits of `value`, in lower case, with leading
/// zeros.
pub open spec fn hex_fixed(value: int, width: nat) -> Seq<char>
    decreases width,
{
    if width == 0 {
        Seq::empty()
    } else {
        hex_fixed(value / 16, (width - 1) as nat).push(digit_char(value % 16))
    }
}

/// The hexadecimal digits of the natural number `value`, in lower case, without
/// leading zeros.
pub open spec fn hex_digits(value: int) -> Seq<char>
    decreases value,
{
    if value < 16 {
        seq![digit_char(value)]
    } else {
        hex_digits(value / 16).push(digit_char(value % 16))
    }
}

/// `value` in hexadecimal, with a minus sign where it is negative.
pub open spec fn signed_hex(value: int) -> Seq<char> {
    if value < 0 {
        seq!['-'] + hex_digits(-value)
    } else {
        hex_digits(value)
    }
}

/// A 128-bit identifier as 32 hexadecimal digits.
pub open spec fn uuid_simple(uuid: u128) -> Seq<char> {
    hex_fixed(uuid as int, 32)
}

/// A 128-bit identifier as hexadecimal digits in groups of 8, 4, 4, 4 and 12,
/// with hyphens between the groups.
pub open spec fn uuid_hyphenated(uuid: u128) -> Seq<char> {
    let digits = uuid_simple(uuid);
    digits.subrange(0, 8) + seq!['-'] + digits.subrange(8, 12) + seq!['-'] + digits.subrange(
        12,
        16,
    ) + seq!['-'] + digits.subrange(16, 20) + seq!['-'] + digits.subrange(20, 32)
}

/// `text` as a JSON string: between double quotes, with what JSON cannot hold
/// as it is written as escapes. `None` where it cannot be written.
pub uninterp spec fn json_quoted(text: Seq<char>) -> Option<Seq<char>>;

/// Writes `text` as a JSON string with `serde_json::to_string`. The result is
/// named, not described.
#[verifier::external_body]
fn quote_json(text: &str) -> (quoted: Option<String>)
    ensures
        quoted matches Some(q) ==> json_quoted(text@) == Some(q@),
        quoted is None ==> json_quoted(text@) is None,
{
    serde_json::to_string(text).ok()
}

/// Appends `text` as a JSON string to `out`. Returns whether it could be
/// written; `out` is as it was where it could not.
pub fn push_json_string(text: &str, out: &mut String) -> (ok: bool)
    ensures
        match json_quoted(text@) {
            Some(q) => ok && final(out)@ == old(out)@ + q,
            None => !ok && final(out)@ == old(out)@,
        },
{
    match quote_json(text) {
        Some(quoted) => {
            out.append(quoted.as_str());
            true
        },
        None => false,
    }
}

fn digit_of(value: u8) -> (c: char)
    requires
        value < 16,
    ensures
        c == digit_char(value as int),
{
    if value < 10 {
        (value + 48) as char
    } else {
        (value + 87) as char
    }
}

fn push_decimal_digits(value: u64, out: &mut String)
    ensures
        final(out)@ == old(out)@ + decimal_digits(value as int),
    decreases value,
{
    if value >= 10 {
        push_decimal_digits(value / 10, out);
    }
    out.push(digit_of((value % 10) as u8));
    assert(out@ =~= old(out)@ + decimal_digits(value as int));
}

/// Appends `value` in decimal to `out`.
pub fn push_decimal(value: i32, out: &mut String)
    ensures
        final(out)@ == old(out)@ + decimal(value as int),
{
    if value < 0 {
        out.push('-');
        push_decimal_digits((-(value as i64)) as u64, out);
        assert(out@ =~= old(out)@ + decimal(value as int));
    } else {
        push_decimal_digits(value as u64, out);
    }
}

fn push_hex_fixed(value: u128, width: usize, out: &mut Vec<char>)
    ensures
        final(out)@ == old(out)@ + hex_fixed(value as int, width as nat),
    decreases width,
{
    if width > 0 {
        push_hex_fixed(value / 16, width - 1, out);
        out.push(digit_of((value % 16) as u8));
    }
    assert(out@ =~= old(out)@ + hex_fixed(value as int, width as nat));
}

/// Hexadecimal digits are as many as were asked for.
pub proof fn lemma_hex_fixed_len(value: int, width: nat)
    ensures
        hex_fixed(value, width).len() == width,
    decreases width,
{
    if width > 0 {
        lemma_hex_fixed_len(value / 16, (width - 1) as nat);
    }
}

fn push_chars(out: &mut String, chars: &Vec<char>, from: usize, to: usize)
    requires
        from <= to <= chars@.len(),
    ensures
        final(out)@ == old(out)@ + chars@.subrange(from as int, to as int),
{
    let mut i: usize = from;
    while i < to
        invariant
            from <= i <= to <= chars@.len(),
            out@ == old(out)@ + chars@.subrange(from as int, i as int),
        decreases to - i,
    {
        out.push(chars[i]);
        i = i + 1;
        assert(out@ =~= old(out)@ + chars@.subrange(from as int, i as int));
    }
}

/// Appends the 32 hexadecimal digits of `uuid` to `out`.
pub fn push_uuid_simple(uuid: u128, out: &mut String)
    ensures
        final(out)@ == old(out)@ + uuid_simple(uuid),
{
    let mut digits: Vec<char> = Vec::new();
    push_hex_fixed(uuid, 32, &mut digits);
    proof {
        lemma_hex_fixed_len(uuid as int, 32);
        assert(digits@ =~= uuid_simple(uuid));
        assert(digits@.subrange(0, 32) =~= digits@);
    }
    push_chars(out, &digits, 0, 32);
}

/// Appends `uuid`, in groups of hexadecimal digits with hyphens between them,
/// to `out`.
pub fn push_uuid_hyphenated(uuid: u128, out: &mut String)
    ensures
        final(out)@ == old(out)@ + uuid_hyphenated(uuid),
{
    let mut digits: Vec<char> = Vec::new();
    push_hex_fixed(uuid, 32, &mut digits);
    proof {
        lemma_hex_fixed_len(uuid as int, 32);
        assert(digits@ =~= uuid_simple(uuid));
    }
    push_chars(out, &digits, 0, 8);
    out.push('-');
    push_chars(out, &digits, 8, 12);
    out.push('-');
    push_chars(out, &digits, 12, 16);
    out.push('-');
    push_chars(out, &digits, 16, 20);
    out.push('-');
    push_chars(out, &digits, 20, 32);
    assert(out@ =~= old(out)@ + uuid_hyphenated(uuid));
}

} // verus!
