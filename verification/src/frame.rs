//! The wire format: a block of header lines, a blank line, and a body of as
//! many bytes as the `Content-Length` header says.
use crate::error::{TransportError, TransportErrorView};
use crate::header::{header_of, is_content_length, length_of, malformed_message, LspHeader};
use vstd::prelude::*;
use vstd::string::*;
use vstd::utf8::{decode_utf8, encode_utf8, valid_utf8};

verus! {

/// The line that ends a header block: carriage return, line feed.
pub open spec fn blank_line() -> Seq<u8> {
    seq![13u8, 10u8]
}

/// What a header line leaves to do.
#[derive(Clone, Copy, Debug, PartialEq, Eq)]
pub enum HeaderStep {
    /// Read another line; holds the packet length known so far.
    More(Option<usize>),
    /// The header block is over: read a body of this many bytes.
    Body(usize),
}

/// What one more line means for a header block in which the length `size`
/// has been seen so far. An empty `line` stands for the end of the stream.
pub open spec fn after_line(size: Option<usize>, line: Seq<u8>) -> Result<
    HeaderStep,
    TransportErrorView,
> {
    if line.len() == 0 {
        Err(TransportErrorView::UnexpectedEof)
    } else if line == blank_line() {
        match size {
            Some(n) => Ok(HeaderStep::Body(n)),
            None => Err(TransportErrorView::MissingContentLength),
        }
    } else if !valid_utf8(line) {
        Err(TransportErrorView::InvalidHeaderEncoding)
    } else {
        let text = decode_utf8(line);
        match header_of(text) {
            None => Err(TransportErrorView::MalformedHeader(malformed_message(text))),
            Some((key, value)) => if is_content_length(key) {
                match length_of(value) {
                    Ok(n) => Ok(HeaderStep::More(Some(n))),
                    Err(e) => Err(TransportErrorView::InvalidContentLength(e)),
                }
            } else {
                Ok(HeaderStep::More(size))
            },
        }
    }
}

/// What the bytes read for a body of `size` bytes mean: fewer bytes than
/// that say that the stream ended early.
pub open spec fn after_body(size: usize, body: Seq<u8>) -> Result<Seq<char>, TransportErrorView> {
    if body.len() != size {
        Err(TransportErrorView::UnexpectedEof)
    } else if !valid_utf8(body) {
        Err(TransportErrorView::InvalidBodyEncoding)
    } else {
        Ok(decode_utf8(body))
    }
}

/// Where the line that starts at `pos` ends: behind its line feed, or at the
/// end of `s` if there is none.
pub open spec fn line_end(s: Seq<u8>, pos: int) -> int
    decreases s.len() - pos,
{
    if pos < 0 || pos >= s.len() {
        pos
    } else if s[pos] == 10u8 {
        pos + 1
    } else {
        line_end(s, pos + 1)
    }
}

/// A line that starts inside `s` is not empty, ends inside `s`, and holds no
/// line feed before its last byte.
pub proof fn lemma_line_end(s: Seq<u8>, pos: int)
    requires
        0 <= pos < s.len(),
    ensures
        pos < line_end(s, pos) <= s.len(),
        line_end(s, pos) < s.len() ==> s[line_end(s, pos) - 1] == 10u8,
        forall|j: int| pos <= j < line_end(s, pos) - 1 ==> s[j] != 10u8,
    decreases s.len() - pos,
{
    if s[pos] != 10u8 {
        if pos + 1 < s.len() {
            lemma_line_end(s, pos + 1);
        } else {
            assert(line_end(s, pos + 1) == pos + 1);
        }
    }
}

/// Where a body of `size` bytes that starts at `pos` ends: the stream may be
/// over before that.
pub open spec fn body_end(s: Seq<u8>, pos: int, size: usize) -> int {
    if pos + size <= s.len() {
        pos + size
    } else {
        s.len() as int
    }
}

/// What reading a packet from `s` gives, from the position `pos` on and
/// with the length `size` seen so far in its header block: the packet or the
/// error, and the position behind what was read.
pub open spec fn frame(s: Seq<u8>, pos: int, size: Option<usize>) -> (
    Result<Seq<char>, TransportErrorView>,
    int,
)
    decreases s.len() - pos,
{
    if pos < 0 || pos >= s.len() {
        (Err(TransportErrorView::UnexpectedEof), pos)
    } else {
        let end = line_end(s, pos);
        match after_line(size, s.subrange(pos, end)) {
            Err(e) => (Err(e), end),
            Ok(HeaderStep::More(next)) => {
                proof {
                    lemma_line_end(s, pos);
                }
                frame(s, end, next)
            },
            Ok(HeaderStep::Body(n)) => (
                after_body(n, s.subrange(end, body_end(s, end, n))),
                body_end(s, end, n),
            ),
        }
    }
}

/// What reading the next packet of `s` gives from the position `pos` on.
pub open spec fn next_packet(s: Seq<u8>, pos: int) -> (Result<Seq<char>, TransportErrorView>, int) {
    frame(s, pos, None)
}

/// Decodes UTF-8.
///
/// Wraps `String::from_utf8`, which gives the text exactly when the bytes
/// are valid UTF-8.
#[verifier::external_body]
fn decode_text(bytes: Vec<u8>) -> (r: Option<String>)
    ensures
        match r {
            Some(text) => valid_utf8(bytes@) && text@ == decode_utf8(bytes@),
            None => !valid_utf8(bytes@),
        },
{
    String::from_utf8(bytes).ok()
}

/// Takes one line of a header block, as it was read from the stream with its
/// line ending: an empty `line` says that the stream is over. `size` is the
/// length seen so far in this block.
pub fn accept_line(size: Option<usize>, line: Vec<u8>) -> (r: Result<HeaderStep, TransportError>)
    ensures
        match r {
            Ok(step) => after_line(size, line@) == Ok::<HeaderStep, TransportErrorView>(step),
            Err(e) => after_line(size, line@) == Err::<HeaderStep, TransportErrorView>(e@),
        },
{
    if line.len() == 0 {
        return Err(TransportError::UnexpectedEof);
    }
    if line.len() == 2 && line[0] == 13 && line[1] == 10 {
        assert(line@ =~= blank_line());
        return match size {
            Some(n) => Ok(HeaderStep::Body(n)),
            None => Err(TransportError::MissingContentLength),
        };
    }
    assert(line@ != blank_line()) by {
        if line@ == blank_line() {
            assert(blank_line().len() == 2);
            assert(blank_line()[0] == 13u8);
            assert(blank_line()[1] == 10u8);
        }
    }
    let text = match decode_text(line) {
        Some(text) => text,
        None => {
            return Err(TransportError::InvalidHeaderEncoding);
        },
    };
    let header = match LspHeader::parse_from_line(text.as_str()) {
        Ok(header) => header,
        Err(message) => {
            return Err(TransportError::MalformedHeader(message));
        },
    };
    if !header.is_content_length() {
        return Ok(HeaderStep::More(size));
    }
    match header.content_length() {
        Ok(n) => Ok(HeaderStep::More(Some(n))),
        Err(e) => Err(TransportError::InvalidContentLength(e)),
    }
}

/// Takes what was read for a body of `size` bytes: all of them, or fewer if
/// the stream ended.
pub fn accept_body(size: usize, body: Vec<u8>) -> (r: Result<String, TransportError>)
    ensures
        crate::error::outcome_view(r) == after_body(size, body@),
{
    if body.len() != size {
        return Err(TransportError::UnexpectedEof);
    }
    match decode_text(body) {
        Some(text) => Ok(text),
        None => Err(TransportError::InvalidBodyEncoding),
    }
}

/// The ASCII digits of `n` in base ten, as bytes.
pub open spec fn decimal_bytes(n: nat) -> Seq<u8>
    decreases n,
{
    if n < 10 {
        seq![(48 + n) as u8]
    } else {
        decimal_bytes(n / 10).push((48 + n % 10) as u8)
    }
}

/// The bytes of the packet that carries `text`: the length header, a blank
/// line, and `text` in UTF-8.
pub open spec fn packet_bytes(text: Seq<char>) -> Seq<u8> {
    encode_utf8("Content-Length: "@) + decimal_bytes(encode_utf8(text).len()) + blank_line()
        + blank_line() + encode_utf8(text)
}

/// Appends the digits of `n` to `out`.
fn push_decimal(out: &mut Vec<u8>, n: usize)
    ensures
        final(out)@ == old(out)@ + decimal_bytes(n as nat),
    decreases n,
{
    if n >= 10 {
        push_decimal(out, n / 10);
    }
    let digit: u8 = (n % 10) as u8;
    out.push(48 + digit);
    assert(out@ =~= old(out)@ + decimal_bytes(n as nat));
}

/// Appends the bytes of `more` to `out`.
fn push_bytes(out: &mut Vec<u8>, more: &[u8])
    ensures
        final(out)@ == old(out)@ + more@,
{
    out.extend_from_slice(more);
    assert(out@ =~= old(out)@ + more@);
}

/// Frames `packet` for the wire.
pub fn encode_packet(packet: &str) -> (bytes: Vec<u8>)
    ensures
        bytes@ == packet_bytes(packet@),
{
    let body = packet.as_bytes();
    let mut bytes: Vec<u8> = Vec::new();
    push_bytes(&mut bytes, "Content-Length: ".as_bytes());
    push_decimal(&mut bytes, body.len());
    bytes.push(13);
    bytes.push(10);
    bytes.push(13);
    bytes.push(10);
    push_bytes(&mut bytes, body);
    assert(bytes@ =~= packet_bytes(packet@));
    bytes
}

} // verus!
