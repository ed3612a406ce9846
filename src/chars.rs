use vstd::prelude::*;

verus! {

/// Lower-case letters beyond ASCII that words may hold: the accented vowels
/// and the stroked d of the Vietnamese alphabet.
pub open spec fn is_extended_lower(c: char) -> bool {
    c == 'á' || c == 'à' || c == 'ả' || c == 'ã' || c == 'ạ' || c == 'ă' || c == 'ắ' || c == 'ằ'
    || c == 'ẳ' || c == 'ẵ' || c == 'ặ' || c == 'â' || c == 'ấ' || c == 'ầ' || c == 'ẩ' || c == 'ẫ'
    || c == 'ậ' || c == 'đ' || c == 'é' || c == 'è' || c == 'ẻ' || c == 'ẽ' || c == 'ẹ' || c == 'ê'
    || c == 'ế' || c == 'ề' || c == 'ể' || c == 'ễ' || c == 'ệ' || c == 'í' || c == 'ì' || c == 'ỉ'
    || c == 'ĩ' || c == 'ị' || c == 'ó' || c == 'ò' || c == 'ỏ' || c == 'õ' || c == 'ọ' || c == 'ô'
    || c == 'ố' || c == 'ồ' || c == 'ổ' || c == 'ỗ' || c == 'ộ' || c == 'ơ' || c == 'ớ' || c == 'ờ'
    || c == 'ở' || c == 'ỡ' || c == 'ợ' || c == 'ú' || c == 'ù' || c == 'ủ' || c == 'ũ' || c == 'ụ'
    || c == 'ư' || c == 'ứ' || c == 'ừ' || c == 'ử' || c == 'ữ' || c == 'ự' || c == 'ý' || c == 'ỳ'
    || c == 'ỷ' || c == 'ỹ' || c == 'ỵ'
}

/// Upper-case counterparts of `is_extended_lower`.
pub open spec fn is_extended_upper(c: char) -> bool {
    c == 'Á' || c == 'À' || c == 'Ả' || c == 'Ã' || c == 'Ạ' || c == 'Ă' || c == 'Ắ' || c == 'Ằ'
    || c == 'Ẳ' || c == 'Ẵ' || c == 'Ặ' || c == 'Â' || c == 'Ấ' || c == 'Ầ' || c == 'Ẩ' || c == 'Ẫ'
    || c == 'Ậ' || c == 'Đ' || c == 'É' || c == 'È' || c == 'Ẻ' || c == 'Ẽ' || c == 'Ẹ' || c == 'Ê'
    || c == 'Ế' || c == 'Ề' || c == 'Ể' || c == 'Ễ' || c == 'Ệ' || c == 'Í' || c == 'Ì' || c == 'Ỉ'
    || c == 'Ĩ' || c == 'Ị' || c == 'Ó' || c == 'Ò' || c == 'Ỏ' || c == 'Õ' || c == 'Ọ' || c == 'Ô'
    || c == 'Ố' || c == 'Ồ' || c == 'Ổ' || c == 'Ỗ' || c == 'Ộ' || c == 'Ơ' || c == 'Ớ' || c == 'Ờ'
    || c == 'Ở' || c == 'Ỡ' || c == 'Ợ' || c == 'Ú' || c == 'Ù' || c == 'Ủ' || c == 'Ũ' || c == 'Ụ'
    || c == 'Ư' || c == 'Ứ' || c == 'Ừ' || c == 'Ử' || c == 'Ữ' || c == 'Ự' || c == 'Ý' || c == 'Ỳ'
    || c == 'Ỷ' || c == 'Ỹ' || c == 'Ỵ'
}

/// A letter that may start or continue a word.
pub open spec fn is_letter(c: char) -> bool {
    ('a' <= c && c <= 'z') || ('A' <= c && c <= 'Z') || is_extended_lower(c) || is_extended_upper(c)
}

pub open spec fn is_digit(c: char) -> bool {
    '0' <= c && c <= '9'
}

/// Unicode's White_Space property, which `char::is_whitespace` follows.
pub open spec fn is_white_space(c: char) -> bool {
    ('\u{9}' <= c && c <= '\u{d}') || c == ' ' || c == '\u{85}' || c == '\u{a0}'
    || c == '\u{1680}' || ('\u{2000}' <= c && c <= '\u{200a}') || c == '\u{2028}'
    || c == '\u{2029}' || c == '\u{202f}' || c == '\u{205f}' || c == '\u{3000}'
}

/// Number of bytes of the UTF-8 encoding of `c`.
pub open spec fn utf8_width(c: char) -> nat {
    if (c as u32) < 0x80 {
        1
    } else if (c as u32) < 0x800 {
        2
    } else if (c as u32) < 0x10000 {
        3
    } else {
        4
    }
}

/// Number of bytes of the UTF-8 encoding of `s`.
pub open spec fn byte_len(s: Seq<char>) -> nat
    decreases s.len(),
{
    if s.len() == 0 {
        0
    } else {
        byte_len(s.drop_last()) + utf8_width(s.last())
    }
}

/// Byte offset of the character at index `i` of `s`.
pub open spec fn byte_offset(s: Seq<char>, i: int) -> nat {
    byte_len(s.take(i))
}

pub fn check_is_extended_lower(c: char) -> (r: bool)
    ensures
        r == is_extended_lower(c),
{
    c == 'á' || c == 'à' || c == 'ả' || c == 'ã' || c == 'ạ' || c == 'ă' || c == 'ắ' || c == 'ằ'
    || c == 'ẳ' || c == 'ẵ' || c == 'ặ' || c == 'â' || c == 'ấ' || c == 'ầ' || c == 'ẩ' || c == 'ẫ'
    || c == 'ậ' || c == 'đ' || c == 'é' || c == 'è' || c == 'ẻ' || c == 'ẽ' || c == 'ẹ' || c == 'ê'
    || c == 'ế' || c == 'ề' || c == 'ể' || c == 'ễ' || c == 'ệ' || c == 'í' || c == 'ì' || c == 'ỉ'
    || c == 'ĩ' || c == 'ị' || c == 'ó' || c == 'ò' || c == 'ỏ' || c == 'õ' || c == 'ọ' || c == 'ô'
    || c == 'ố' || c == 'ồ' || c == 'ổ' || c == 'ỗ' || c == 'ộ' || c == 'ơ' || c == 'ớ' || c == 'ờ'
    || c == 'ở' || c == 'ỡ' || c == 'ợ' || c == 'ú' || c == 'ù' || c == 'ủ' || c == 'ũ' || c == 'ụ'
    || c == 'ư' || c == 'ứ' || c == 'ừ' || c == 'ử' || c == 'ữ' || c == 'ự' || c == 'ý' || c == 'ỳ'
    || c == 'ỷ' || c == 'ỹ' || c == 'ỵ'
}

pub fn check_is_extended_upper(c: char) -> (r: bool)
    ensures
        r == is_extended_upper(c),
{
    c == 'Á' || c == 'À' || c == 'Ả' || c == 'Ã' || c == 'Ạ' || c == 'Ă' || c == 'Ắ' || c == 'Ằ'
    || c == 'Ẳ' || c == 'Ẵ' || c == 'Ặ' || c == 'Â' || c == 'Ấ' || c == 'Ầ' || c == 'Ẩ' || c == 'Ẫ'
    || c == 'Ậ' || c == 'Đ' || c == 'É' || c == 'È' || c == 'Ẻ' || c == 'Ẽ' || c == 'Ẹ' || c == 'Ê'
    || c == 'Ế' || c == 'Ề' || c == 'Ể' || c == 'Ễ' || c == 'Ệ' || c == 'Í' || c == 'Ì' || c == 'Ỉ'
    || c == 'Ĩ' || c == 'Ị' || c == 'Ó' || c == 'Ò' || c == 'Ỏ' || c == 'Õ' || c == 'Ọ' || c == 'Ô'
    || c == 'Ố' || c == 'Ồ' || c == 'Ổ' || c == 'Ỗ' || c == 'Ộ' || c == 'Ơ' || c == 'Ớ' || c == 'Ờ'
    || c == 'Ở' || c == 'Ỡ' || c == 'Ợ' || c == 'Ú' || c == 'Ù' || c == 'Ủ' || c == 'Ũ' || c == 'Ụ'
    || c == 'Ư' || c == 'Ứ' || c == 'Ừ' || c == 'Ử' || c == 'Ữ' || c == 'Ự' || c == 'Ý' || c == 'Ỳ'
    || c == 'Ỷ' || c == 'Ỹ' || c == 'Ỵ'
}

pub fn check_is_digit(c: char) -> (r: bool)
    ensures
        r == is_digit(c),
{
    '0' <= c && c <= '9'
}

pub fn check_is_white_space(c: char) -> (r: bool)
    ensures
        r == is_white_space(c),
{
    ('\u{9}' <= c && c <= '\u{d}') || c == ' ' || c == '\u{85}' || c == '\u{a0}'
    || c == '\u{1680}' || ('\u{2000}' <= c && c <= '\u{200a}') || c == '\u{2028}'
    || c == '\u{2029}' || c == '\u{202f}' || c == '\u{205f}' || c == '\u{3000}'
}

pub fn width_of(c: char) -> (r: usize)
    ensures
        r == utf8_width(c),
{
    let v = c as u32;
    if v < 0x80 {
        1
    } else if v < 0x800 {
        2
    } else if v < 0x10000 {
        3
    } else {
        4
    }
}

/// Index of the first character whose byte offset reaches `b`.
pub open spec fn char_at_byte(s: Seq<char>, i: int, b: int) -> int
    decreases s.len() - i,
{
    if i >= s.len() || byte_offset(s, i) >= b {
        i
    } else {
        char_at_byte(s, i + 1, b)
    }
}

pub proof fn lemma_char_at_byte_bounds(s: Seq<char>, i: int, b: int)
    requires
        0 <= i <= s.len(),
    ensures
        i <= char_at_byte(s, i, b) <= s.len(),
    decreases s.len() - i,
{
    if !(i >= s.len() || byte_offset(s, i) >= b) {
        lemma_char_at_byte_bounds(s, i + 1, b);
    }
}

pub proof fn lemma_char_at_byte_mono(s: Seq<char>, i: int, b1: int, b2: int)
    requires
        0 <= i <= s.len(),
        b1 <= b2,
    ensures
        char_at_byte(s, i, b1) <= char_at_byte(s, i, b2),
    decreases s.len() - i,
{
    lemma_char_at_byte_bounds(s, i, b2);
    if !(i >= s.len() || byte_offset(s, i) >= b1) {
        lemma_char_at_byte_mono(s, i + 1, b1, b2);
    }
}

/// The characters of `s`, one by one.
pub fn chars_of(s: &str) -> (r: Vec<char>)
    ensures
        r@ == s@,
{
    let n = s.unicode_len();
    let mut chars: Vec<char> = Vec::new();
    let mut i: usize = 0;
    while i < n
        invariant
            n == s@.len(),
            i <= n,
            chars@ == s@.take(i as int),
        decreases n - i,
    {
        chars.push(s.get_char(i));
        i = i + 1;
        assert(chars@ =~= s@.take(i as int));
    }
    assert(chars@ =~= s@);
    chars
}

pub proof fn lemma_byte_offset_step(s: Seq<char>, i: int)
    requires
        0 <= i < s.len(),
    ensures
        byte_offset(s, i + 1) == byte_offset(s, i) + utf8_width(s[i]),
{
    assert(s.take(i + 1).drop_last() =~= s.take(i));
}

pub proof fn lemma_byte_offset_mono(s: Seq<char>, i: int, j: int)
    requires
        0 <= i <= j <= s.len(),
    ensures
        byte_offset(s, i) + (j - i) <= byte_offset(s, j),
    decreases j - i,
{
    if i < j {
        lemma_byte_offset_mono(s, i, j - 1);
        lemma_byte_offset_step(s, j - 1);
    }
}

pub proof fn lemma_byte_offset_full(s: Seq<char>)
    ensures
        byte_offset(s, s.len() as int) == byte_len(s),
{
    assert(s.take(s.len() as int) =~= s);
}

} // verus!
