//! Text produced from on-disk data: decoding of stored strings and the number formats the
//! tables use.
use vstd::prelude::*;
use vstd::utf8::{decode_utf8, valid_utf8};

verus! {

/// Whether `u` is a UTF-16 surrogate code unit (`0xD800` to `0xDFFF`).
pub open spec fn is_surrogate(u: u16) -> bool {
    0xD800 <= u <= 0xDFFF
}

/// The characters that the UTF-16 code units `units` encode, or `None` where they are not
/// valid UTF-16: a unit outside the surrogates is the character of that value; a high
/// surrogate (`0xD800` to `0xDBFF`) followed by a low one (`0xDC00` to `0xDFFF`) is the
/// character `0x10000 + (high - 0xD800) * 0x400 + (low - 0xDC00)`; any other surrogate is
/// invalid.
pub open spec fn spec_utf16_decode(units: Seq<u16>) -> Option<Seq<char>>
    decreases units.len(),
{
    if units.len() == 0 {
        Some(Seq::empty())
    } else if !is_surrogate(units[0]) {
        match spec_utf16_decode(units.drop_first()) {
            Some(rest) => Some(seq![units[0] as char] + rest),
            None => None,
        }
    } else if units[0] <= 0xDBFF && units.len() >= 2 && 0xDC00 <= units[1] <= 0xDFFF {
        let c = (0x10000 + (units[0] - 0xD800) * 0x400 + (units[1] - 0xDC00)) as char;
        match spec_utf16_decode(units.subrange(2, units.len() as int)) {
            Some(rest) => Some(seq![c] + rest),
            None => None,
        }
    } else {
        None
    }
}

/// Calls `String::from_utf16`. Trusted: as the standard library documents, the units are
/// accepted exactly when they are valid UTF-16, and the text is their UTF-16 decoding.
#[verifier::external_body]
pub(crate) fn string_from_utf16(units: &[u16]) -> (res: Option<String>)
    ensures
        res is Some <==> spec_utf16_decode(units@) is Some,
        res matches Some(s) ==> spec_utf16_decode(units@) == Some(s@),
{
    String::from_utf16(units).ok()
}

/// Calls `String::from_utf8`. Trusted: as the standard library documents, the bytes are
/// accepted exactly when they are valid UTF-8, and the text is their UTF-8 decoding.
#[verifier::external_body]
pub(crate) fn string_from_utf8(bytes: Vec<u8>) -> (res: Option<String>)
    ensures
        res is Some <==> valid_utf8(bytes@),
        res matches Some(s) ==> s@ == decode_utf8(bytes@),
{
    String::from_utf8(bytes).ok()
}

/// The UTF-8 text held by `bytes`, or the empty text where they are not valid UTF-8.
pub open spec fn spec_utf8_or_empty(bytes: Seq<u8>) -> Seq<char> {
    if valid_utf8(bytes) {
        decode_utf8(bytes)
    } else {
        seq![]
    }
}

/// The UTF-8 text held by `bytes`, or the empty string where they are not valid UTF-8.
pub fn utf8_or_empty(bytes: &[u8]) -> (s: String)
    ensures
        s@ == spec_utf8_or_empty(bytes@),
{
    match string_from_utf8(vstd::slice::slice_to_vec(bytes)) {
        Some(s) => s,
        None => String::new(),
    }
}

/// The text held by the UTF-16 code units `units`, or the empty text where they are not valid.
pub open spec fn spec_utf16_or_empty(units: Seq<u16>) -> Seq<char> {
    match spec_utf16_decode(units) {
        Some(s) => s,
        None => seq![],
    }
}

/// The text held by the UTF-16 code units `units`, or the empty string where they are not
/// valid.
pub fn utf16_or_empty(units: &[u16]) -> (s: String)
    ensures
        s@ == spec_utf16_or_empty(units@),
{
    match string_from_utf16(units) {
        Some(s) => s,
        None => String::new(),
    }
}

/// Calls `String::push`. Trusted: the character is appended.
#[verifier::external_body]
pub(crate) fn push_char(s: &mut String, c: char)
    ensures
        final(s)@ == old(s)@.push(c),
{
    s.push(c)
}

/// The characters that Rust's `char::is_whitespace` accepts (Unicode `White_Space`).
pub open spec fn is_unicode_whitespace(c: char) -> bool {
    let v = c as u32;
    ||| 0x09 <= v <= 0x0d
    ||| v == 0x20
    ||| v == 0x85
    ||| v == 0xa0
    ||| v == 0x1680
    ||| 0x2000 <= v <= 0x200a
    ||| v == 0x2028
    ||| v == 0x2029
    ||| v == 0x202f
    ||| v == 0x205f
    ||| v == 0x3000
}

/// `s` without its leading whitespace.
pub open spec fn trim_start(s: Seq<char>) -> Seq<char>
    decreases s.len(),
{
    if s.len() > 0 && is_unicode_whitespace(s[0]) {
        trim_start(s.drop_first())
    } else {
        s
    }
}

/// `s` without its trailing whitespace.
pub open spec fn trim_end(s: Seq<char>) -> Seq<char>
    decreases s.len(),
{
    if s.len() > 0 && is_unicode_whitespace(s.last()) {
        trim_end(s.drop_last())
    } else {
        s
    }
}

/// `s` without leading and trailing whitespace, as `str::trim` documents.
pub open spec fn spec_trim(s: Seq<char>) -> Seq<char> {
    trim_end(trim_start(s))
}

/// Calls `str::trim`. Trusted: as documented, leading and trailing whitespace (characters
/// with the Unicode `White_Space` property) is removed and nothing else.
#[verifier::external_body]
pub(crate) fn trim(s: &str) -> (res: &str)
    ensures
        res@ == spec_trim(s@),
{
    s.trim()
}

/// The decimal digit for `d < 10`.
pub open spec fn digit_char(d: nat) -> char {
    if d == 0 {
        '0'
    } else if d == 1 {
        '1'
    } else if d == 2 {
        '2'
    } else if d == 3 {
        '3'
    } else if d == 4 {
        '4'
    } else if d == 5 {
        '5'
    } else if d == 6 {
        '6'
    } else if d == 7 {
        '7'
    } else if d == 8 {
        '8'
    } else {
        '9'
    }
}

/// The hexadecimal digit for `d < 16`, in upper or lower case.
pub open spec fn hex_char(d: nat, upper: bool) -> char {
    if d < 10 {
        digit_char(d)
    } else if d == 10 {
        if upper { 'A' } else { 'a' }
    } else if d == 11 {
        if upper { 'B' } else { 'b' }
    } else if d == 12 {
        if upper { 'C' } else { 'c' }
    } else if d == 13 {
        if upper { 'D' } else { 'd' }
    } else if d == 14 {
        if upper { 'E' } else { 'e' }
    } else {
        if upper { 'F' } else { 'f' }
    }
}

/// The decimal notation of `n`, without leading zeros (as `to_string` writes integers).
pub open spec fn spec_decimal(n: nat) -> Seq<char>
    decreases n,
{
    if n < 10 {
        seq![digit_char(n)]
    } else {
        spec_decimal(n / 10).push(digit_char(n % 10))
    }
}

/// The last `width` hexadecimal digits of `n`, zero-padded (as `{:0width$x}` writes
/// `n < 16^width`).
pub open spec fn spec_hex(n: nat, width: nat, upper: bool) -> Seq<char>
    decreases width,
{
    if width == 0 {
        seq![]
    } else {
        spec_hex(n / 16, (width - 1) as nat, upper).push(hex_char(n % 16, upper))
    }
}

fn digit(d: u64) -> (c: char)
    requires
        d < 16,
    ensures
        c == hex_char(d as nat, true),
{
    if d == 0 {
        '0'
    } else if d == 1 {
        '1'
    } else if d == 2 {
        '2'
    } else if d == 3 {
        '3'
    } else if d == 4 {
        '4'
    } else if d == 5 {
        '5'
    } else if d == 6 {
        '6'
    } else if d == 7 {
        '7'
    } else if d == 8 {
        '8'
    } else if d == 9 {
        '9'
    } else if d == 10 {
        'A'
    } else if d == 11 {
        'B'
    } else if d == 12 {
        'C'
    } else if d == 13 {
        'D'
    } else if d == 14 {
        'E'
    } else {
        'F'
    }
}

fn hex_digit(d: u64, upper: bool) -> (c: char)
    requires
        d < 16,
    ensures
        c == hex_char(d as nat, upper),
{
    if upper || d < 10 {
        digit(d)
    } else if d == 10 {
        'a'
    } else if d == 11 {
        'b'
    } else if d == 12 {
        'c'
    } else if d == 13 {
        'd'
    } else if d == 14 {
        'e'
    } else {
        'f'
    }
}

/// Appends the decimal notation of `n` to `s`.
pub fn push_decimal(s: &mut String, n: u64)
    ensures
        final(s)@ == old(s)@ + spec_decimal(n as nat),
    decreases n,
{
    if n >= 10 {
        push_decimal(s, n / 10);
    }
    push_char(s, digit(n % 10));
    proof {
        assert(n < 10 ==> spec_decimal(n as nat) == seq![digit_char(n as nat)]);
    }
    assert(s@ =~= old(s)@ + spec_decimal(n as nat));
}

/// The decimal notation of `n`.
pub fn decimal_string(n: u64) -> (s: String)
    ensures
        s@ == spec_decimal(n as nat),
{
    let mut s = String::new();
    push_decimal(&mut s, n);
    assert(s@ =~= spec_decimal(n as nat));
    s
}

/// Appends the last `width` hexadecimal digits of `n` to `s`.
pub fn push_hex(s: &mut String, n: u64, width: u32, upper: bool)
    ensures
        final(s)@ == old(s)@ + spec_hex(n as nat, width as nat, upper),
    decreases width,
{
    if width > 0 {
        push_hex(s, n / 16, width - 1, upper);
        push_char(s, hex_digit(n % 16, upper));
    }
    assert(s@ =~= old(s)@ + spec_hex(n as nat, width as nat, upper));
}

} // verus!
