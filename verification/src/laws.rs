//! What holds of the wire format and of the envelope, whatever the input.
use crate::error::TransportErrorView;
use crate::frame::{
    after_line, blank_line, body_end, decimal_bytes, frame, line_end, next_packet, packet_bytes,
    HeaderStep,
};
use crate::header::{
    delimiter_at, header_of, is_content_length, lemma_first_delimiter, length_of,
    malformed_message, unsigned_digits, LengthError,
};
use crate::json::{lookup, JsonView};
use crate::json::json_text;
use crate::message::{envelope_of, message_of};
use crate::reply::{failure_reply, standard_error};
use crate::rpc::{reading, step_of, Ending, Reading, StepView};
use crate::transport::{lemma_frame_advances, outcomes, wire_bytes};
use crate::text::{
    all_digits, ascii_lowercase, decimal_digits, decimal_value, is_digit, is_whitespace,
    lemma_decimal_round_trip, trim, trim_end, trim_start,
};
use vstd::prelude::*;
use vstd::utf8::{
    decode_utf8, encode_utf8, encode_utf8_decode_utf8, encode_utf8_valid_utf8, is_ascii_chars,
    is_ascii_chars_encode_utf8, valid_utf8,
};

verus! {

/// Whether `line` is one whole line: it ends in a line feed and holds no
/// other.
pub open spec fn is_line(line: Seq<u8>) -> bool {
    &&& line.len() > 0
    &&& line.last() == 10u8
    &&& forall|i: int| 0 <= i < line.len() - 1 ==> line[i] != 10u8
}

/// Whether `line` is a whole line that a header block takes: a header, be
/// it the length header with a length for its value or any other.
pub open spec fn is_header_line(line: Seq<u8>) -> bool {
    is_line(line) && after_line(None, line) is Ok
}

/// The packet length known after the header lines `lines`, if `size` was
/// known before them: that of the last length header.
pub open spec fn announced(size: Option<usize>, lines: Seq<Seq<u8>>) -> Option<usize>
    decreases lines.len(),
{
    if lines.len() == 0 {
        size
    } else {
        match after_line(None, lines.last()) {
            Ok(HeaderStep::More(Some(n))) => Some(n),
            _ => announced(size, lines.drop_last()),
        }
    }
}

/// The lines `lines` one after the other.
pub open spec fn join(lines: Seq<Seq<u8>>) -> Seq<u8>
    decreases lines.len(),
{
    if lines.len() == 0 {
        Seq::empty()
    } else {
        join(lines.drop_last()) + lines.last()
    }
}

/// A whole line is read as it stands.
pub proof fn lemma_line_read(s: Seq<u8>, pos: int, line: Seq<u8>)
    requires
        0 <= pos,
        pos + line.len() <= s.len(),
        is_line(line),
        s.subrange(pos, pos + line.len()) == line,
    ensures
        line_end(s, pos) == pos + line.len(),
    decreases line.len(),
{
    assert(s[pos] == line[0]);
    if line.len() > 1 {
        let tail = line.drop_first();
        assert(tail.last() == line.last());
        assert forall|i: int| 0 <= i < tail.len() - 1 implies tail[i] != 10u8 by {
            assert(tail[i] == line[i + 1]);
        }
        assert(s.subrange(pos + 1, pos + 1 + tail.len()) =~= tail);
        lemma_line_read(s, pos + 1, tail);
    }
}

/// A header line passes on the length it gives, or else the length known
/// before it.
pub proof fn lemma_header_line(size: Option<usize>, line: Seq<u8>)
    requires
        is_header_line(line),
    ensures
        after_line(size, line) is Ok,
        after_line(size, line)->Ok_0 is More,
        after_line(None, line)->Ok_0 is More,
        after_line(size, line)->Ok_0->More_0 == match after_line(None, line)->Ok_0->More_0 {
            Some(n) => Some(n),
            None => size,
        },
{
}

/// Reading through a block of header lines comes to reading what follows
/// them, with the length that they announce.
pub proof fn lemma_header_block(s: Seq<u8>, pos: int, size: Option<usize>, lines: Seq<Seq<u8>>)
    requires
        0 <= pos,
        pos + join(lines).len() <= s.len(),
        s.subrange(pos, pos + join(lines).len()) == join(lines),
        forall|i: int| 0 <= i < lines.len() ==> is_header_line(#[trigger] lines[i]),
    ensures
        frame(s, pos, size) == frame(s, pos + join(lines).len(), announced(size, lines)),
    decreases lines.len(),
{
    if lines.len() > 0 {
        let first = lines.first();
        let later = lines.drop_first();
        lemma_join_first(lines);
        assert(is_header_line(first));
        assert forall|i: int| 0 <= i < later.len() implies is_header_line(#[trigger] later[i]) by {
            assert(later[i] == lines[i + 1]);
        }
        assert(s.subrange(pos, pos + first.len()) =~= first);
        lemma_line_read(s, pos, first);
        lemma_header_line(size, first);
        let next = after_line(size, first)->Ok_0->More_0;
        let end = pos + first.len();
        let whole = s.subrange(pos, pos + join(lines).len());
        assert forall|i: int| 0 <= i < join(later).len() implies s.subrange(
            end,
            end + join(later).len(),
        )[i] == join(later)[i] by {
            assert(whole[first.len() + i] == s[end + i]);
        }
        assert(s.subrange(end, end + join(later).len()) =~= join(later));
        lemma_header_block(s, end, next, later);
        lemma_announced_first(size, lines);
    }
}

/// The first of some lines stands before the others.
pub proof fn lemma_join_first(lines: Seq<Seq<u8>>)
    requires
        lines.len() > 0,
    ensures
        join(lines) == lines.first() + join(lines.drop_first()),
    decreases lines.len(),
{
    if lines.len() == 1 {
        assert(lines.drop_last() =~= Seq::<Seq<u8>>::empty());
        assert(lines.drop_first() =~= Seq::<Seq<u8>>::empty());
        assert(join(lines) =~= lines.first() + join(lines.drop_first()));
    } else {
        lemma_join_first(lines.drop_last());
        assert(lines.drop_last().drop_first() =~= lines.drop_first().drop_last());
        assert(lines.drop_last().first() == lines.first());
        assert(lines.drop_first().last() == lines.last());
        assert(join(lines) =~= lines.first() + join(lines.drop_first()));
    }
}

/// The length known after some header lines is that known after the first
/// of them, carried through the others.
pub proof fn lemma_announced_first(size: Option<usize>, lines: Seq<Seq<u8>>)
    requires
        lines.len() > 0,
        forall|i: int| 0 <= i < lines.len() ==> is_header_line(#[trigger] lines[i]),
    ensures
        announced(size, lines) == announced(
            after_line(size, lines.first())->Ok_0->More_0,
            lines.drop_first(),
        ),
    decreases lines.len(),
{
    let first = lines.first();
    lemma_header_line(size, first);
    let next = after_line(size, first)->Ok_0->More_0;
    if lines.len() == 1 {
        assert(lines.drop_last() =~= Seq::<Seq<u8>>::empty());
        assert(lines.drop_first() =~= Seq::<Seq<u8>>::empty());
        assert(lines.last() == first);
        assert(announced(size, lines.drop_last()) == size);
        assert(announced(next, lines.drop_first()) == next);
    } else {
        let last = lines.last();
        assert(is_header_line(last));
        lemma_header_line(size, last);
        lemma_header_line(next, last);
        assert forall|i: int| 0 <= i < lines.drop_last().len() implies is_header_line(
            #[trigger] lines.drop_last()[i],
        ) by {
            assert(lines.drop_last()[i] == lines[i]);
        }
        lemma_announced_first(size, lines.drop_last());
        assert(lines.drop_last().drop_first() =~= lines.drop_first().drop_last());
        assert(lines.drop_last().first() == first);
        assert(lines.drop_first().last() == last);
    }
}

/// A packet is read back whole: after any header lines of which the last
/// length header announces `body.len()`, and a blank line, reading gives
/// exactly the text of `body` and stops behind it, whatever follows.
pub proof fn lemma_packet_read(lines: Seq<Seq<u8>>, body: Seq<u8>, rest: Seq<u8>)
    requires
        forall|i: int| 0 <= i < lines.len() ==> is_header_line(#[trigger] lines[i]),
        announced(None, lines) matches Some(n) && n == body.len(),
        valid_utf8(body),
    ensures
        next_packet(join(lines) + blank_line() + body + rest, 0) == (
            Ok::<Seq<char>, TransportErrorView>(decode_utf8(body)),
            (join(lines).len() + 2 + body.len()) as int,
        ),
{
    let s = join(lines) + blank_line() + body + rest;
    let at = join(lines).len() as int;
    let n = announced(None, lines)->Some_0;
    assert(s.subrange(0, at) =~= join(lines));
    lemma_header_block(s, 0, None, lines);
    lemma_blank_line_read(s, at);
    assert(s.subrange(at, at + 2) =~= blank_line());
    assert(body_end(s, at + 2, n) == at + 2 + n);
    assert(s.subrange(at + 2, at + 2 + n) =~= body);
}

/// A blank line is read as it stands.
pub proof fn lemma_blank_line_read(s: Seq<u8>, pos: int)
    requires
        0 <= pos,
        pos + 2 <= s.len(),
        s[pos] == 13u8,
        s[pos + 1] == 10u8,
    ensures
        line_end(s, pos) == pos + 2,
{
    assert(line_end(s, pos + 1) == pos + 2);
}

/// A header block that no blank line ends, with nothing after it, fails
/// with the end of the stream.
pub proof fn lemma_unterminated_block(lines: Seq<Seq<u8>>)
    requires
        forall|i: int| 0 <= i < lines.len() ==> is_header_line(#[trigger] lines[i]),
    ensures
        next_packet(join(lines), 0) == (
            Err::<Seq<char>, TransportErrorView>(TransportErrorView::UnexpectedEof),
            join(lines).len() as int,
        ),
{
    let s = join(lines);
    assert(s.subrange(0, s.len() as int) =~= s);
    lemma_header_block(s, 0, None, lines);
}

/// A header block without a length header fails at its blank line, and the
/// stream goes on behind it.
pub proof fn lemma_missing_length(lines: Seq<Seq<u8>>, rest: Seq<u8>)
    requires
        forall|i: int| 0 <= i < lines.len() ==> is_header_line(#[trigger] lines[i]),
        announced(None, lines) is None,
    ensures
        next_packet(join(lines) + blank_line() + rest, 0) == (
            Err::<Seq<char>, TransportErrorView>(TransportErrorView::MissingContentLength),
            (join(lines).len() + 2) as int,
        ),
        !TransportErrorView::MissingContentLength.ends_stream(),
{
    let s = join(lines) + blank_line() + rest;
    let at = join(lines).len() as int;
    assert(s.subrange(0, at) =~= join(lines));
    lemma_header_block(s, 0, None, lines);
    lemma_blank_line_read(s, at);
    assert(s.subrange(at, at + 2) =~= blank_line());
}

/// A line that a header block refuses fails the packet with the error of
/// that line, and the stream goes on behind the line.
pub proof fn lemma_refused_line(lines: Seq<Seq<u8>>, bad: Seq<u8>, rest: Seq<u8>)
    requires
        forall|i: int| 0 <= i < lines.len() ==> is_header_line(#[trigger] lines[i]),
        is_line(bad),
        after_line(announced(None, lines), bad) is Err,
    ensures
        next_packet(join(lines) + bad + rest, 0) == (
            Err::<Seq<char>, TransportErrorView>(
                after_line(announced(None, lines), bad)->Err_0,
            ),
            (join(lines).len() + bad.len()) as int,
        ),
{
    let s = join(lines) + bad + rest;
    let at = join(lines).len() as int;
    assert(s.subrange(0, at) =~= join(lines));
    lemma_header_block(s, 0, None, lines);
    assert(s.subrange(at, at + bad.len()) =~= bad);
    lemma_line_read(s, at, bad);
}

/// A line without `": "` fails the packet as a malformed header, which does
/// not end the stream.
pub proof fn lemma_malformed_line(lines: Seq<Seq<u8>>, bad: Seq<u8>, rest: Seq<u8>)
    requires
        forall|i: int| 0 <= i < lines.len() ==> is_header_line(#[trigger] lines[i]),
        is_line(bad),
        bad != blank_line(),
        valid_utf8(bad),
        header_of(decode_utf8(bad)) is None,
    ensures
        next_packet(join(lines) + bad + rest, 0).0 == Err::<Seq<char>, TransportErrorView>(
            TransportErrorView::MalformedHeader(malformed_message(decode_utf8(bad))),
        ),
        !next_packet(join(lines) + bad + rest, 0).0->Err_0.ends_stream(),
{
    lemma_refused_line(lines, bad, rest);
}

/// A length header whose value is no number, or one too large, fails the
/// packet, and does not end the stream.
pub proof fn lemma_invalid_length(
    lines: Seq<Seq<u8>>,
    bad: Seq<u8>,
    rest: Seq<u8>,
    e: LengthError,
)
    requires
        forall|i: int| 0 <= i < lines.len() ==> is_header_line(#[trigger] lines[i]),
        is_line(bad),
        bad != blank_line(),
        valid_utf8(bad),
        header_of(decode_utf8(bad)) matches Some((key, value)) && is_content_length(key)
            && length_of(value) == Err::<usize, LengthError>(e),
    ensures
        next_packet(join(lines) + bad + rest, 0).0 == Err::<Seq<char>, TransportErrorView>(
            TransportErrorView::InvalidContentLength(e),
        ),
        !next_packet(join(lines) + bad + rest, 0).0->Err_0.ends_stream(),
{
    lemma_refused_line(lines, bad, rest);
}

/// A body that is not UTF-8 fails the packet, and the stream goes on behind
/// the body.
pub proof fn lemma_invalid_body(lines: Seq<Seq<u8>>, body: Seq<u8>, rest: Seq<u8>)
    requires
        forall|i: int| 0 <= i < lines.len() ==> is_header_line(#[trigger] lines[i]),
        announced(None, lines) matches Some(n) && n == body.len(),
        !valid_utf8(body),
    ensures
        next_packet(join(lines) + blank_line() + body + rest, 0) == (
            Err::<Seq<char>, TransportErrorView>(TransportErrorView::InvalidBodyEncoding),
            (join(lines).len() + 2 + body.len()) as int,
        ),
        !TransportErrorView::InvalidBodyEncoding.ends_stream(),
{
    let s = join(lines) + blank_line() + body + rest;
    let at = join(lines).len() as int;
    let n = announced(None, lines)->Some_0;
    assert(s.subrange(0, at) =~= join(lines));
    lemma_header_block(s, 0, None, lines);
    lemma_blank_line_read(s, at);
    assert(s.subrange(at, at + 2) =~= blank_line());
    assert(body_end(s, at + 2, n) == at + 2 + n);
    assert(s.subrange(at + 2, at + 2 + n) =~= body);
}

/// The length header is known by its name whatever the case of its
/// letters: keys that differ in case only are both the length header or
/// both not.
pub proof fn lemma_key_ignores_case(a: Seq<char>, b: Seq<char>)
    requires
        ascii_lowercase(a) == ascii_lowercase(b),
    ensures
        is_content_length(a) == is_content_length(b),
{
}

/// Two header lines with the same value, whose keys differ in the case of
/// their letters only, mean the same to a header block.
pub proof fn lemma_line_ignores_case(size: Option<usize>, a: Seq<u8>, b: Seq<u8>)
    requires
        a.len() > 0 && a != blank_line() && valid_utf8(a),
        b.len() > 0 && b != blank_line() && valid_utf8(b),
        header_of(decode_utf8(a)) is Some,
        header_of(decode_utf8(b)) is Some,
        header_of(decode_utf8(a))->Some_0.1 == header_of(decode_utf8(b))->Some_0.1,
        ascii_lowercase(header_of(decode_utf8(a))->Some_0.0) == ascii_lowercase(
            header_of(decode_utf8(b))->Some_0.0,
        ),
    ensures
        after_line(size, a) == after_line(size, b),
{
}

/// A member put into a list of members decides its own key where no later
/// member has it, and no other key.
pub proof fn lemma_lookup_insert(
    members: Seq<(Seq<char>, JsonView)>,
    at: int,
    member: (Seq<char>, JsonView),
    key: Seq<char>,
)
    requires
        0 <= at <= members.len(),
    ensures
        key != member.0 ==> lookup(members.insert(at, member), key) == lookup(members, key),
        key == member.0 && lookup(members.skip(at), key) is None ==> lookup(
            members.insert(at, member),
            key,
        ) == Some(member.1),
    decreases members.len() - at,
{
    let put = members.insert(at, member);
    if at == members.len() {
        assert(put.drop_last() =~= members);
        assert(put.last() == member);
    } else {
        let shorter = members.drop_last();
        assert(put.last() == members.last());
        assert(put.drop_last() =~= shorter.insert(at, member));
        assert(members.skip(at).drop_last() =~= shorter.skip(at));
        assert(members.skip(at).last() == members.last());
        lemma_lookup_insert(shorter, at, member, key);
    }
}

/// `null` for parameters says no more than no parameters: a message with
/// the member `params` set to `null` is the message it is without that
/// member.
pub proof fn lemma_null_params(members: Seq<(Seq<char>, JsonView)>, at: int)
    requires
        0 <= at <= members.len(),
        lookup(members, "params"@) is None,
    ensures
        envelope_of(JsonView::Object(members.insert(at, ("params"@, JsonView::Null))))
            == envelope_of(JsonView::Object(members)),
{
    reveal_strlit("id");
    reveal_strlit("method");
    reveal_strlit("params");
    assert("id"@.len() != "params"@.len());
    assert("method"@[0] != "params"@[0]);
    let member = ("params"@, JsonView::Null);
    lemma_lookup_none_skip(members, at, "params"@);
    lemma_lookup_insert(members, at, member, "id"@);
    lemma_lookup_insert(members, at, member, "method"@);
    lemma_lookup_insert(members, at, member, "params"@);
}

/// A key that no member has, none of the later members has.
pub proof fn lemma_lookup_none_skip(members: Seq<(Seq<char>, JsonView)>, at: int, key: Seq<char>)
    requires
        0 <= at <= members.len(),
        lookup(members, key) is None,
    ensures
        lookup(members.skip(at), key) is None,
    decreases members.len(),
{
    if at < members.len() {
        assert(members.skip(at).last() == members.last());
        assert(members.skip(at).drop_last() =~= members.drop_last().skip(at));
        lemma_lookup_none_skip(members.drop_last(), at, key);
    }
}

/// One spoiled packet does not end the session: after a packet that fails
/// with an error that leaves the stream open, the message of the next
/// packet is delivered, and nothing is sent.
pub proof fn lemma_skips_spoiled_packet(
    bad: TransportErrorView,
    packet: Seq<char>,
    rest: Seq<Result<Seq<char>, TransportErrorView>>,
)
    requires
        !bad.ends_stream(),
        message_of(packet) is Ok,
    ensures
        reading(seq![Err(bad), Ok(packet)] + rest) == (Reading {
            ending: Ending::Delivered(message_of(packet)->Ok_0),
            rest: rest,
            replies: Seq::empty(),
            resumes: Seq::empty(),
        }),
{
    let incoming = seq![Err(bad), Ok(packet)] + rest;
    let later = incoming.drop_first();
    assert(later.drop_first() =~= rest);
    assert(later[0] == Ok::<Seq<char>, TransportErrorView>(packet));
    assert(reading(later).replies =~= Seq::<Seq<char>>::empty());
    assert(reading(incoming).replies =~= Seq::<Seq<char>>::empty());
}

/// The line that announces a body of `n` bytes, as text.
pub open spec fn length_line(n: nat) -> Seq<char> {
    "Content-Length: "@ + decimal_digits(n) + seq!['\r', '\n']
}

/// The bytes written for a number are its digits.
pub proof fn lemma_decimal_bytes(n: nat)
    ensures
        decimal_bytes(n).len() == decimal_digits(n).len(),
        forall|i: int|
            0 <= i < decimal_digits(n).len() ==> #[trigger] decimal_bytes(n)[i] == decimal_digits(
                n,
            )[i] as u8,
    decreases n,
{
    if n >= 10 {
        lemma_decimal_bytes(n / 10);
    }
}

/// The header that is written for a body of `n` bytes is one whole line
/// that announces `n`.
pub proof fn lemma_length_line(n: nat)
    requires
        n <= usize::MAX,
    ensures
        encode_utf8(length_line(n)) == encode_utf8("Content-Length: "@) + decimal_bytes(n)
            + blank_line(),
        is_header_line(encode_utf8(length_line(n))),
        after_line(None, encode_utf8(length_line(n))) == Ok::<HeaderStep, TransportErrorView>(
            HeaderStep::More(Some(n as usize)),
        ),
{
    reveal_strlit("Content-Length: ");
    reveal_strlit("content-length");
    let name = "Content-Length: "@;
    let digits = decimal_digits(n);
    let text = length_line(n);
    let line = encode_utf8(name) + decimal_bytes(n) + blank_line();
    lemma_decimal_bytes(n);
    lemma_decimal_round_trip(n);
    assert(name.len() == 16);
    assert(text.len() == 18 + digits.len());
    assert forall|i: int| 0 <= i < digits.len() implies is_digit(digits[i]) && text[16 + i]
        == digits[i] by {}
    assert(is_ascii_chars(name));
    assert(is_ascii_chars(text)) by {
        assert forall|i: int| 0 <= i < text.len() implies '\0' <= #[trigger] text[i]
            <= '\u{7f}' by {
            if i < 16 {
                assert(text[i] == name[i]);
            } else if i < 16 + digits.len() {
                assert(is_digit(digits[i - 16]));
            }
        }
    }
    is_ascii_chars_encode_utf8(name);
    is_ascii_chars_encode_utf8(text);
    assert(encode_utf8(text) =~= line) by {
        assert forall|i: int| 0 <= i < text.len() implies encode_utf8(text)[i] == line[i] by {
            assert(encode_utf8(text)[i] == text[i] as u8);
            if i < 16 {
                assert(text[i] == name[i]);
                assert(line[i] == encode_utf8(name)[i]);
            } else if i < 16 + digits.len() {
                assert(line[i] == decimal_bytes(n)[i - 16]);
            }
        }
    }
    assert(is_line(line)) by {
        assert forall|i: int| 0 <= i < line.len() - 1 implies line[i] != 10u8 by {
            assert(line[i] == text[i] as u8);
            if i < 16 {
                assert(text[i] == name[i]);
            } else if i < 16 + digits.len() {
                assert(is_digit(digits[i - 16]));
            }
        }
    }
    encode_utf8_valid_utf8(text);
    encode_utf8_decode_utf8(text);
    assert(delimiter_at(text, 14));
    assert forall|j: int| 0 <= j < 14 implies !delimiter_at(text, j) by {
        assert(text[j] == name[j]);
    }
    lemma_first_delimiter(text, 14);
    let key = text.subrange(0, 14);
    assert(!is_whitespace(key[0]));
    assert(!is_whitespace(key.last()));
    assert(trim(key) == key);
    assert(ascii_lowercase(key) =~= "content-length"@);
    let value = text.subrange(16, text.len() as int);
    let shorter = value.drop_last();
    assert(shorter.drop_last() =~= digits);
    assert(value[0] == digits[0]);
    assert(!is_whitespace(value[0]));
    assert(trim_start(value) == value);
    assert(is_digit(digits.last()));
    assert(trim_end(digits) == digits);
    assert(shorter.last() == '\r');
    assert(trim_end(shorter) == digits);
    assert(value.last() == '\n');
    assert(trim_end(value) == digits);
    assert(unsigned_digits(digits) == digits);
    assert(decimal_value(digits) == n);
    assert(all_digits(digits));
}

/// What is written is read back: the bytes written for a packet read as
/// that packet, and reading stops behind them, whatever follows.
pub proof fn lemma_written_packet_read(text: Seq<char>, rest: Seq<u8>)
    requires
        encode_utf8(text).len() <= usize::MAX,
    ensures
        next_packet(packet_bytes(text) + rest, 0) == (
            Ok::<Seq<char>, TransportErrorView>(text),
            packet_bytes(text).len() as int,
        ),
{
    let body = encode_utf8(text);
    let line = encode_utf8(length_line(body.len()));
    let lines = seq![line];
    lemma_length_line(body.len());
    encode_utf8_valid_utf8(text);
    encode_utf8_decode_utf8(text);
    assert(lines.drop_last() =~= Seq::<Seq<u8>>::empty());
    assert(join(lines.drop_last()) =~= Seq::<u8>::empty());
    assert(join(lines) =~= line);
    assert(announced(None, lines) == Some(body.len() as usize));
    lemma_packet_read(lines, body, rest);
    assert(packet_bytes(text) =~= join(lines) + blank_line() + body);
    assert(packet_bytes(text) + rest =~= join(lines) + blank_line() + body + rest);
}

/// Where a line ends does not depend on what stands before it.
pub proof fn lemma_line_end_shift(before: Seq<u8>, s: Seq<u8>, pos: int)
    requires
        0 <= pos <= s.len(),
    ensures
        line_end(before + s, before.len() + pos) == before.len() + line_end(s, pos),
    decreases s.len() - pos,
{
    if pos < s.len() {
        assert((before + s)[before.len() + pos] == s[pos]);
        if s[pos] != 10u8 {
            lemma_line_end_shift(before, s, pos + 1);
        }
    }
}

/// What a packet reads as does not depend on what stands before it in the
/// stream.
pub proof fn lemma_frame_shift(before: Seq<u8>, s: Seq<u8>, pos: int, size: Option<usize>)
    requires
        0 <= pos <= s.len(),
    ensures
        frame(before + s, before.len() + pos, size) == (
            frame(s, pos, size).0,
            before.len() + frame(s, pos, size).1,
        ),
    decreases s.len() - pos,
{
    if pos < s.len() {
        let all = before + s;
        let at = before.len() + pos;
        lemma_line_end_shift(before, s, pos);
        crate::frame::lemma_line_end(s, pos);
        let end = line_end(s, pos);
        assert(all.subrange(at, before.len() + end) =~= s.subrange(pos, end));
        match after_line(size, s.subrange(pos, end)) {
            Ok(HeaderStep::More(next)) => {
                lemma_frame_shift(before, s, end, next);
            },
            Ok(HeaderStep::Body(n)) => {
                assert(body_end(all, before.len() + end, n) == before.len() + body_end(s, end, n));
                assert(all.subrange(before.len() + end, body_end(all, before.len() + end, n))
                    =~= s.subrange(end, body_end(s, end, n)));
            },
            Err(_) => {},
        }
    }
}

/// What a stream gives from a position on does not depend on what stands
/// before that position.
pub proof fn lemma_outcomes_shift(before: Seq<u8>, s: Seq<u8>, pos: int)
    requires
        0 <= pos <= s.len(),
    ensures
        outcomes(before + s, before.len() + pos) == outcomes(s, pos),
    decreases s.len() - pos,
{
    if pos < s.len() {
        lemma_frame_shift(before, s, pos, None);
        lemma_frame_advances(s, pos, None);
        lemma_outcomes_shift(before, s, next_packet(s, pos).1);
    }
}

/// A session outlives a bad header: on a stream that holds a line which is
/// no header and then a whole packet that is a message, reading a message
/// skips the line and delivers that message, and sends nothing.
pub proof fn lemma_session_outlives_bad_header(bad: Seq<u8>, text: Seq<char>)
    requires
        is_line(bad),
        after_line(None, bad) is Err,
        encode_utf8(text).len() <= usize::MAX,
        message_of(text) is Ok,
    ensures
        reading(outcomes(bad + packet_bytes(text), 0)) == (Reading {
            ending: Ending::Delivered(message_of(text)->Ok_0),
            rest: Seq::empty(),
            replies: Seq::empty(),
            resumes: Seq::empty(),
        }),
{
    let packet = packet_bytes(text);
    let s = bad + packet;
    let none = Seq::<Seq<u8>>::empty();
    assert(join(none) =~= Seq::<u8>::empty());
    assert(join(none) + bad + packet =~= s);
    lemma_refused_line(none, bad, packet);
    let e = after_line(None, bad)->Err_0;
    assert(!e.ends_stream());
    assert(next_packet(s, 0) == (Err::<Seq<char>, TransportErrorView>(e), bad.len() as int));
    lemma_written_packet_read(text, Seq::empty());
    assert(packet + Seq::<u8>::empty() =~= packet);
    lemma_frame_shift(bad, packet, 0, None);
    assert(packet.len() > 0);
    assert(next_packet(s, bad.len() as int) == (
        Ok::<Seq<char>, TransportErrorView>(text),
        s.len() as int,
    ));
    assert(outcomes(s, s.len() as int) =~= Seq::empty());
    assert(outcomes(s, bad.len() as int) =~= seq![Ok::<Seq<char>, TransportErrorView>(text)]);
    assert(outcomes(s, 0) =~= seq![
        Err::<Seq<char>, TransportErrorView>(e),
        Ok::<Seq<char>, TransportErrorView>(text),
    ] + Seq::empty());
    lemma_skips_spoiled_packet(e, text, Seq::empty());
}

/// The first of some packets stands before the others on the wire.
pub proof fn lemma_wire_first(packets: Seq<Seq<char>>)
    requires
        packets.len() > 0,
    ensures
        wire_bytes(packets) == packet_bytes(packets.first()) + wire_bytes(packets.drop_first()),
    decreases packets.len(),
{
    if packets.len() == 1 {
        assert(packets.drop_last() =~= Seq::<Seq<char>>::empty());
        assert(packets.drop_first() =~= Seq::<Seq<char>>::empty());
        assert(wire_bytes(packets) =~= packet_bytes(packets.first()) + wire_bytes(
            packets.drop_first(),
        ));
    } else {
        lemma_wire_first(packets.drop_last());
        assert(packets.drop_last().drop_first() =~= packets.drop_first().drop_last());
        assert(packets.drop_last().first() == packets.first());
        assert(packets.drop_first().last() == packets.last());
        assert(wire_bytes(packets) =~= packet_bytes(packets.first()) + wire_bytes(
            packets.drop_first(),
        ));
    }
}

/// What one side sends, the other receives: the bytes written for some
/// packets read as those packets, in order, and as nothing else.
pub proof fn lemma_wire_read(packets: Seq<Seq<char>>)
    requires
        forall|i: int| 0 <= i < packets.len() ==> encode_utf8(#[trigger] packets[i]).len()
            <= usize::MAX,
    ensures
        outcomes(wire_bytes(packets), 0) == Seq::new(
            packets.len(),
            |i: int| Ok::<Seq<char>, TransportErrorView>(packets[i]),
        ),
    decreases packets.len(),
{
    let expected = Seq::new(
        packets.len(),
        |i: int| Ok::<Seq<char>, TransportErrorView>(packets[i]),
    );
    if packets.len() == 0 {
        assert(outcomes(wire_bytes(packets), 0) =~= expected);
    } else {
        let first = packets.first();
        let later = packets.drop_first();
        let head = packet_bytes(first);
        let tail = wire_bytes(later);
        lemma_wire_first(packets);
        assert(encode_utf8(first).len() <= usize::MAX);
        lemma_written_packet_read(first, tail);
        assert forall|i: int| 0 <= i < later.len() implies encode_utf8(#[trigger] later[i]).len()
            <= usize::MAX by {
            assert(later[i] == packets[i + 1]);
        }
        lemma_wire_read(later);
        lemma_outcomes_shift(head, tail, 0);
        assert(head.len() > 0);
        assert(outcomes(head + tail, 0) =~= expected);
    }
}

/// Reading a message ends at the first packet that is a message or an
/// error that ends the stream, with that message or error; what stands
/// before it is skipped, and what stands behind it is left.
pub proof fn lemma_reading_ends_at_first(
    incoming: Seq<Result<Seq<char>, TransportErrorView>>,
    k: int,
)
    requires
        0 <= k < incoming.len(),
        forall|i: int| 0 <= i < k ==> step_of(#[trigger] incoming[i]) is Discard,
        !(step_of(incoming[k]) is Discard),
    ensures
        reading(incoming).rest == incoming.skip(k + 1),
        reading(incoming).ending == match step_of(incoming[k]) {
            StepView::Deliver(envelope) => Ending::Delivered(envelope),
            StepView::Stop(e) => Ending::Stopped(e),
            StepView::Discard(_) => Ending::Closed,
        },
    decreases k,
{
    if k == 0 {
        assert(incoming.drop_first() =~= incoming.skip(1));
    } else {
        let later = incoming.drop_first();
        assert(step_of(incoming[0]) is Discard);
        assert forall|i: int| 0 <= i < k - 1 implies step_of(#[trigger] later[i]) is Discard by {
            assert(later[i] == incoming[i + 1]);
        }
        assert(later[k - 1] == incoming[k]);
        lemma_reading_ends_at_first(later, k - 1);
        assert(later.skip(k) =~= incoming.skip(k + 1));
    }
}

/// A packet that is no message but shows its id is answered, and reading
/// goes on: the message of the next packet is delivered, and the one reply
/// that was sent is the error for that id.
pub proof fn lemma_answers_and_reads_on(
    bad: Seq<char>,
    packet: Seq<char>,
    rest: Seq<Result<Seq<char>, TransportErrorView>>,
)
    requires
        message_of(bad) is Err,
        !(message_of(bad)->Err_0.id is Null),
        message_of(packet) is Ok,
    ensures
        reading(seq![Ok(bad), Ok(packet)] + rest) == (Reading {
            ending: Ending::Delivered(message_of(packet)->Ok_0),
            rest: rest,
            replies: seq![
                json_text(
                    failure_reply(
                        message_of(bad)->Err_0.id,
                        standard_error(message_of(bad)->Err_0.kind),
                    ),
                ),
            ],
            resumes: seq![seq![Ok(packet)] + rest],
        }),
{
    let incoming = seq![Ok(bad), Ok(packet)] + rest;
    let later = incoming.drop_first();
    assert(later =~= seq![Ok::<Seq<char>, TransportErrorView>(packet)] + rest);
    assert(later.drop_first() =~= rest);
    assert(later[0] == Ok::<Seq<char>, TransportErrorView>(packet));
    assert(incoming[0] == Ok::<Seq<char>, TransportErrorView>(bad));
    let reply = json_text(
        failure_reply(message_of(bad)->Err_0.id, standard_error(message_of(bad)->Err_0.kind)),
    );
    assert(reading(later).replies =~= Seq::<Seq<char>>::empty());
    assert(reading(incoming).replies =~= seq![reply]);
    assert(reading(incoming).resumes =~= seq![later]);
}

} // verus!
