//! Packets over a stream of bytes: reading one, writing one, and the
//! transports that a server talks through.
use crate::error::{outcome_view, TransportError, TransportErrorView};
use crate::frame::{
    accept_body, accept_line, body_end, encode_packet, frame, lemma_line_end, line_end,
    next_packet, packet_bytes, HeaderStep,
};
use vstd::prelude::*;
use vstd::string::*;

verus! {

/// A stream of bytes held in memory, read from front to back.
pub struct ByteStream {
    data: Vec<u8>,
    pos: usize,
}

impl ByteStream {
    #[verifier::type_invariant]
    spec fn in_bounds(self) -> bool {
        self.pos <= self.data.len()
    }

    /// All the bytes of the stream, read or not.
    pub closed spec fn bytes(&self) -> Seq<u8> {
        self.data@
    }

    /// How many bytes have been read.
    pub closed spec fn position(&self) -> int {
        self.pos as int
    }

    /// A stream that will deliver `data`.
    pub fn new(data: Vec<u8>) -> (r: ByteStream)
        ensures
            r.bytes() == data@,
            r.position() == 0,
    {
        ByteStream { data, pos: 0 }
    }

    /// Reads up to and with the next line feed, or to the end of the stream
    /// if there is none. At the end of the stream the line is empty.
    pub fn read_line(&mut self) -> (line: Vec<u8>)
        ensures
            final(self).bytes() == old(self).bytes(),
            0 <= old(self).position() <= final(self).position() <= old(self).bytes().len(),
            final(self).position() == line_end(old(self).bytes(), old(self).position()),
            line@ == old(self).bytes().subrange(old(self).position(), final(self).position()),
    {
        proof {
            use_type_invariant(&*self);
        }
        let n: usize = self.data.len();
        let start: usize = self.pos;
        let mut line: Vec<u8> = Vec::new();
        let mut i: usize = start;
        while i < n
            invariant
                start <= i <= n == self.data.len(),
                self.data@ == old(self).data@,
                self.pos == start == old(self).pos,
                line@ == self.data@.subrange(start as int, i as int),
                line_end(self.data@, start as int) == line_end(self.data@, i as int),
            decreases n - i,
        {
            let b: u8 = self.data[i];
            line.push(b);
            assert(line@ =~= self.data@.subrange(start as int, i + 1));
            i = i + 1;
            if b == 10 {
                self.pos = i;
                return line;
            }
        }
        self.pos = i;
        line
    }

    /// Reads `size` bytes, or what is left of the stream if that is less.
    pub fn read_exact(&mut self, size: usize) -> (body: Vec<u8>)
        ensures
            final(self).bytes() == old(self).bytes(),
            0 <= old(self).position() <= final(self).position() <= old(self).bytes().len(),
            final(self).position() == body_end(old(self).bytes(), old(self).position(), size),
            body@ == old(self).bytes().subrange(old(self).position(), final(self).position()),
    {
        proof {
            use_type_invariant(&*self);
        }
        let n: usize = self.data.len();
        let start: usize = self.pos;
        let end: usize = if size <= n - start {
            start + size
        } else {
            n
        };
        let mut body: Vec<u8> = Vec::new();
        let mut i: usize = start;
        while i < end
            invariant
                start <= i <= end <= n == self.data.len(),
                self.data@ == old(self).data@,
                self.pos == start,
                body@ == self.data@.subrange(start as int, i as int),
            decreases end - i,
        {
            body.push(self.data[i]);
            assert(body@ =~= self.data@.subrange(start as int, i + 1));
            i = i + 1;
        }
        self.pos = end;
        body
    }
}

/// Reads the next packet from `input`: header lines up to a blank line, then
/// as many bytes as the last `Content-Length` header said, as text. After an
/// error the stream stands behind what was read.
pub fn read_lsp_packet(input: &mut ByteStream) -> (r: Result<String, TransportError>)
    ensures
        final(input).bytes() == old(input).bytes(),
        outcome_view(r) == next_packet(old(input).bytes(), old(input).position()).0,
        final(input).position() == next_packet(old(input).bytes(), old(input).position()).1,
{
    proof {
        use_type_invariant(&*input);
    }
    let mut packet_size: Option<usize> = None;
    loop
        invariant
            input.bytes() == old(input).bytes(),
            0 <= input.position() <= input.bytes().len(),
            frame(input.bytes(), input.position(), packet_size) == next_packet(
                old(input).bytes(),
                old(input).position(),
            ),
        decreases input.bytes().len() - input.position(),
    {
        let ghost before = input.position();
        let line = input.read_line();
        proof {
            if before < input.bytes().len() {
                lemma_line_end(input.bytes(), before);
            }
        }
        match accept_line(packet_size, line) {
            Err(e) => {
                return Err(e);
            },
            Ok(HeaderStep::More(size)) => {
                packet_size = size;
            },
            Ok(HeaderStep::Body(size)) => {
                let body = input.read_exact(size);
                return accept_body(size, body);
            },
        }
    }
}

/// Reading a packet from inside the stream takes at least one byte, and
/// stays inside the stream.
pub proof fn lemma_frame_advances(s: Seq<u8>, pos: int, size: Option<usize>)
    requires
        0 <= pos < s.len(),
    ensures
        pos < frame(s, pos, size).1 <= s.len(),
    decreases s.len() - pos,
{
    lemma_line_end(s, pos);
    let end = line_end(s, pos);
    match crate::frame::after_line(size, s.subrange(pos, end)) {
        Ok(HeaderStep::More(next)) => {
            if end < s.len() {
                lemma_frame_advances(s, end, next);
            } else {
                assert(frame(s, end, next).1 == end);
            }
        },
        _ => {},
    }
}

/// What the calls of `receive_packet` give, one after the other, on a stream
/// that holds `s` and stands at `pos`; the stream is over after them.
pub open spec fn outcomes(s: Seq<u8>, pos: int) -> Seq<Result<Seq<char>, TransportErrorView>>
    decreases s.len() - pos,
{
    if pos < 0 || pos >= s.len() {
        Seq::empty()
    } else {
        proof {
            lemma_frame_advances(s, pos, None);
        }
        seq![next_packet(s, pos).0] + outcomes(s, next_packet(s, pos).1)
    }
}

/// The bytes of the packets `packets` on the wire, one after the other.
pub open spec fn wire_bytes(packets: Seq<Seq<char>>) -> Seq<u8>
    decreases packets.len(),
{
    if packets.len() == 0 {
        Seq::empty()
    } else {
        wire_bytes(packets.drop_last()) + packet_bytes(packets.last())
    }
}

/// A channel of packets between client and server.
///
/// `incoming` is what the next calls of `receive_packet` will give, in
/// order; once it is empty the stream is over. `sent` is what `send_packet`
/// has delivered so far. `send_failure` is the error that sending a packet
/// now would meet, `None` where the packet would go out. `refused` is what
/// `send_packet` failed to deliver so far, each packet with its error.
pub trait Transport {
    spec fn incoming(&self) -> Seq<Result<Seq<char>, TransportErrorView>>;

    spec fn sent(&self) -> Seq<Seq<char>>;

    spec fn send_failure(&self, packet: Seq<char>) -> Option<TransportErrorView>;

    spec fn refused(&self) -> Seq<(Seq<char>, TransportErrorView)>;

    /// Reads the next packet from the client.
    fn receive_packet(&mut self) -> (r: Result<String, TransportError>)
        ensures
            final(self).sent() == old(self).sent(),
            final(self).refused() == old(self).refused(),
            old(self).incoming().len() > 0 ==> outcome_view(r) == old(self).incoming()[0]
                && final(self).incoming() == old(self).incoming().drop_first(),
            old(self).incoming().len() == 0 ==> r is Err && r->Err_0@.ends_stream()
                && final(self).incoming().len() == 0,
    ;

    /// Sends a packet to the client: the packet goes out unless the
    /// transport fails, and a failure ends the stream.
    fn send_packet(&mut self, packet: String) -> (r: Result<(), TransportError>)
        ensures
            final(self).incoming() == old(self).incoming(),
            match r {
                Ok(()) => {
                    &&& old(self).send_failure(packet@) is None
                    &&& final(self).sent() == old(self).sent().push(packet@)
                    &&& final(self).refused() == old(self).refused()
                },
                Err(e) => {
                    &&& old(self).send_failure(packet@) == Some(e@)
                    &&& e@.ends_stream()
                    &&& final(self).sent() == old(self).sent()
                    &&& final(self).refused() == old(self).refused().push((packet@, e@))
                },
            },
    ;
}

/// A transport that speaks the header-framed wire format over a stream of
/// bytes, and collects what it sends.
pub struct LspTransport {
    input: ByteStream,
    output: Vec<u8>,
    log: Ghost<Seq<Seq<char>>>,
}

impl LspTransport {
    /// Whether the bytes written are those of the packets sent. This holds
    /// of a new transport, and sending and receiving keep it.
    pub closed spec fn well_formed(&self) -> bool {
        self.output@ == wire_bytes(self.log@)
    }

    /// The stream that this transport reads.
    pub closed spec fn input(&self) -> ByteStream {
        self.input
    }

    /// The bytes written so far.
    pub closed spec fn written(&self) -> Seq<u8> {
        self.output@
    }

    /// A transport that reads `input` and has written nothing.
    pub fn new(input: ByteStream) -> (r: LspTransport)
        ensures
            r.well_formed(),
            r.input() == input,
            r.written() == Seq::<u8>::empty(),
            r.sent() == Seq::<Seq<char>>::empty(),
    {
        LspTransport { input: input, output: Vec::new(), log: Ghost(Seq::empty()) }
    }

    /// The bytes written so far: the packets sent, framed, in order.
    pub fn output(&self) -> (r: &Vec<u8>)
        ensures
            r@ == self.written(),
            self.well_formed() ==> r@ == wire_bytes(self.sent()),
    {
        &self.output
    }
}

impl Transport for LspTransport {
    open spec fn incoming(&self) -> Seq<Result<Seq<char>, TransportErrorView>> {
        outcomes(self.input().bytes(), self.input().position())
    }

    closed spec fn sent(&self) -> Seq<Seq<char>> {
        self.log@
    }

    /// Writing to memory does not fail.
    open spec fn send_failure(&self, packet: Seq<char>) -> Option<TransportErrorView> {
        None
    }

    /// Nothing is ever refused.
    open spec fn refused(&self) -> Seq<(Seq<char>, TransportErrorView)> {
        Seq::empty()
    }

    /// Reads the next packet from the stream. After an error that ends the
    /// stream, every further call fails in the same way.
    fn receive_packet(&mut self) -> (r: Result<String, TransportError>)
        ensures
            old(self).well_formed() ==> final(self).well_formed(),
            final(self).written() == old(self).written(),
            final(self).input().bytes() == old(self).input().bytes(),
            outcome_view(r) == next_packet(
                old(self).input().bytes(),
                old(self).input().position(),
            ).0,
            final(self).input().position() == next_packet(
                old(self).input().bytes(),
                old(self).input().position(),
            ).1,
    {
        proof {
            use_type_invariant(&self.input);
        }
        let ghost s = self.input.bytes();
        let ghost pos = self.input.position();
        let r = read_lsp_packet(&mut self.input);
        proof {
            if pos < s.len() {
                lemma_frame_advances(s, pos, None);
                assert(outcomes(s, pos).drop_first() =~= outcomes(s, next_packet(s, pos).1));
            }
        }
        r
    }

    /// Appends the framed packet to the output. Never fails.
    fn send_packet(&mut self, packet: String) -> (r: Result<(), TransportError>)
        ensures
            r is Ok,
            old(self).well_formed() ==> final(self).well_formed(),
            final(self).input() == old(self).input(),
            final(self).written() == old(self).written() + packet_bytes(packet@),
    {
        let mut bytes = encode_packet(packet.as_str());
        self.output.append(&mut bytes);
        proof {
            self.log@ = self.log@.push(packet@);
            assert(self.log@.drop_last() =~= old(self).log@);
        }
        Ok(())
    }
}

} // verus!
