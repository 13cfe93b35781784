//! One header line of a packet: `key: value`.
use crate::text::{
    all_digits, ascii_lower, ascii_lowercase, char_ascii_lower, chars_of, decimal_value,
    digit_value, is_digit, trim, trim_range,
};
use vstd::prelude::*;
use vstd::string::*;

verus! {

/// Whether the two-character delimiter `": "` stands at index `i` of `s`.
pub open spec fn delimiter_at(s: Seq<char>, i: int) -> bool {
    0 <= i && i + 1 < s.len() && s[i] == ':' && s[i + 1] == ' '
}

/// Whether `i` is where the first delimiter of `s` stands.
pub open spec fn is_first_delimiter(s: Seq<char>, i: int) -> bool {
    delimiter_at(s, i) && forall|j: int| 0 <= j < i ==> !delimiter_at(s, j)
}

/// Whether `s` holds a delimiter at all.
pub open spec fn has_delimiter(s: Seq<char>) -> bool {
    exists|i: int| delimiter_at(s, i)
}

/// Where the first delimiter of `s` stands, if `s` holds one.
pub open spec fn first_delimiter(s: Seq<char>) -> int {
    choose|i: int| is_first_delimiter(s, i)
}

/// The key and the value that the line `s` gives: what stands before and
/// after its first delimiter, both trimmed. `None` if it has no delimiter.
pub open spec fn header_of(s: Seq<char>) -> Option<(Seq<char>, Seq<char>)> {
    if has_delimiter(s) {
        let i = first_delimiter(s);
        Some((trim(s.subrange(0, i)), trim(s.subrange(i + 2, s.len() as int))))
    } else {
        None
    }
}

/// The text of the error for a line that is no header.
pub open spec fn malformed_message(line: Seq<char>) -> Seq<char> {
    "Malformed LSP header: '"@ + line + "'"@
}

/// Whether `key` names the length header, whatever the case of its letters.
pub open spec fn is_content_length(key: Seq<char>) -> bool {
    ascii_lowercase(key) == "content-length"@
}

/// Why a header value is no packet length.
#[derive(Clone, Copy, Debug, PartialEq, Eq, Structural)]
pub enum LengthError {
    /// The value is empty.
    Empty,
    /// The value holds something else than digits after an optional `+`, or
    /// no digit at all.
    InvalidDigit,
    /// The number does not fit in `usize`.
    Overflow,
}

/// The digits of a length: the value without a leading `+`.
pub open spec fn unsigned_digits(s: Seq<char>) -> Seq<char> {
    if s.len() > 0 && s[0] == '+' {
        s.drop_first()
    } else {
        s
    }
}

/// The packet length that the header value `s` denotes: a base-ten number,
/// with an optional `+` before it, that fits in `usize`.
pub open spec fn length_of(s: Seq<char>) -> Result<usize, LengthError> {
    let d = unsigned_digits(s);
    if s.len() == 0 {
        Err(LengthError::Empty)
    } else if d.len() == 0 || !all_digits(d) {
        Err(LengthError::InvalidDigit)
    } else if decimal_value(d) > usize::MAX {
        Err(LengthError::Overflow)
    } else {
        Ok(decimal_value(d) as usize)
    }
}

/// A header: the key and the value of one line, trimmed.
pub struct LspHeader {
    pub key: String,
    pub value: String,
}

/// Any first delimiter is the one that `first_delimiter` names.
pub proof fn lemma_first_delimiter(s: Seq<char>, i: int)
    requires
        is_first_delimiter(s, i),
    ensures
        has_delimiter(s),
        first_delimiter(s) == i,
{
    let c = first_delimiter(s);
    assert(is_first_delimiter(s, c));
    if c < i {
        assert(!delimiter_at(s, c));
    } else if i < c {
        assert(!delimiter_at(s, i));
    }
}

/// Finds the first `": "` of `v`.
pub fn find_delimiter(v: &Vec<char>) -> (r: Option<usize>)
    ensures
        match r {
            Some(i) => is_first_delimiter(v@, i as int),
            None => !has_delimiter(v@),
        },
{
    let n: usize = v.len();
    if n < 2 {
        return None;
    }
    let mut i: usize = 0;
    while i < n - 1
        invariant
            2 <= n == v.len(),
            forall|j: int| 0 <= j < i ==> !delimiter_at(v@, j),
        decreases n - i,
    {
        if v[i] == ':' && v[i + 1] == ' ' {
            return Some(i);
        }
        i = i + 1;
    }
    None
}

impl LspHeader {
    /// Splits a line at its first `": "` into a key and a value, and trims
    /// both. A line without the delimiter is refused, with a message that
    /// quotes it.
    pub fn parse_from_line(line: &str) -> (r: Result<LspHeader, String>)
        ensures
            match r {
                Ok(h) => header_of(line@) == Some((h.key@, h.value@)),
                Err(message) => header_of(line@) is None && message@ == malformed_message(line@),
            },
    {
        let chars = chars_of(line);
        match find_delimiter(&chars) {
            Some(i) => {
                proof {
                    lemma_first_delimiter(line@, i as int);
                }
                let (key_from, key_to) = trim_range(&chars, 0, i);
                let (value_from, value_to) = trim_range(&chars, i + 2, chars.len());
                let key = line.substring_char(key_from, key_to).to_owned();
                let value = line.substring_char(value_from, value_to).to_owned();
                Ok(LspHeader { key, value })
            },
            None => {
                let mut message = String::from_str("Malformed LSP header: '");
                message.append(line);
                message.append("'");
                Err(message)
            },
        }
    }

    /// Whether this is the header that gives the length of the packet.
    pub fn is_content_length(&self) -> (r: bool)
        ensures
            r == is_content_length(self.key@),
    {
        let target = "content-length";
        proof {
            reveal_strlit("content-length");
        }
        let key = chars_of(self.key.as_str());
        if key.len() != 14 {
            return false;
        }
        let mut i: usize = 0;
        while i < 14
            invariant
                key.len() == 14,
                target@.len() == 14,
                target@ == "content-length"@,
                key@ == self.key@,
                forall|j: int| 0 <= j < i ==> ascii_lower(key@[j]) == target@[j],
            decreases 14 - i,
        {
            if char_ascii_lower(key[i]) != target.get_char(i) {
                assert(ascii_lowercase(self.key@)[i as int] != target@[i as int]);
                return false;
            }
            i = i + 1;
        }
        assert(ascii_lowercase(self.key@) =~= target@);
        true
    }

    /// The packet length that the value of this header denotes.
    pub fn content_length(&self) -> (r: Result<usize, LengthError>)
        ensures
            r == length_of(self.value@),
    {
        parse_length(self.value.as_str())
    }
}

/// Reads a packet length: base ten, an optional `+` first, no other sign,
/// no blanks.
pub fn parse_length(value: &str) -> (r: Result<usize, LengthError>)
    ensures
        r == length_of(value@),
{
    let chars = chars_of(value);
    let n: usize = chars.len();
    if n == 0 {
        return Err(LengthError::Empty);
    }
    let first: usize = if chars[0] == '+' {
        1
    } else {
        0
    };
    let ghost digits = unsigned_digits(value@);
    assert(digits =~= value@.subrange(first as int, n as int));
    if first == n {
        return Err(LengthError::InvalidDigit);
    }
    let mut total: usize = 0;
    let mut overflow: bool = false;
    let mut i: usize = first;
    while i < n
        invariant
            first <= i <= n,
            n == chars.len(),
            chars@ == value@,
            n > 0,
            digits == unsigned_digits(value@),
            digits == value@.subrange(first as int, n as int),
            all_digits(digits.take(i - first)),
            !overflow ==> total == decimal_value(digits.take(i - first)),
            overflow ==> decimal_value(digits.take(i - first)) > usize::MAX,
        decreases n - i,
    {
        let c: char = chars[i];
        if !('0' <= c && c <= '9') {
            assert(!is_digit(digits[i - first]));
            return Err(LengthError::InvalidDigit);
        }
        let d: usize = (c as u8 - '0' as u8) as usize;
        proof {
            let next = digits.take(i - first + 1);
            assert(next.drop_last() =~= digits.take(i - first));
            assert(next.last() == c);
            assert(digit_value(c) == d);
            assert(decimal_value(next) == 10 * decimal_value(digits.take(i - first)) + d);
        }
        if !overflow {
            match total.checked_mul(10) {
                Some(tens) => match tens.checked_add(d) {
                    Some(sum) => {
                        total = sum;
                    },
                    None => {
                        overflow = true;
                    },
                },
                None => {
                    overflow = true;
                },
            }
        }
        i = i + 1;
    }
    assert(digits.take(n - first) =~= digits);
    if overflow {
        Err(LengthError::Overflow)
    } else {
        Ok(total)
    }
}

} // verus!
