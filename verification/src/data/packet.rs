use vstd::prelude::*;
use vstd::slice::slice_to_vec;

use crate::codec::bytes::{put_bytes, read_exact};
use crate::codec::dec::{Decode, DecodeError, DecodeFault};
use crate::codec::enc::{encodes_as, length_error, length_fault, Encode, EncodeError, EncodeFault};
use crate::codec::{lemma_var_int_round_trip, parse_var_int, var_int_bytes, var_int_value, VarInt};
use crate::data::zlib::{
    inflated_of, zlib_compress, zlib_deflated, zlib_inflate, zlib_inflated, Deflated,
    InflateError, Inflated,
};

verus! {

/// The length at the front of a byte string: a VarInt that is not negative,
/// with the number of bytes it occupies.
pub open spec fn parse_length(bytes: Seq<u8>) -> Result<(nat, nat), DecodeFault> {
    match parse_var_int(bytes) {
        Ok((number, taken)) => if var_int_value(number) < 0 {
            Err(DecodeFault::InvalidVarInt)
        } else {
            Ok((var_int_value(number) as nat, taken))
        },
        Err(fault) => Err(fault),
    }
}

/// Takes a length off the reader. A negative one is rejected as
/// `InvalidVarInt`.
pub fn parse_len(reader: &mut &[u8]) -> (r: Result<usize, DecodeError>)
    ensures
        match parse_length(old(reader)@) {
            Ok((len, taken)) => {
                &&& r == Ok::<usize, DecodeError>(len as usize)
                &&& len <= i32::MAX
                &&& taken <= old(reader)@.len()
                &&& final(reader)@ == old(reader)@.skip(taken as int)
            },
            Err(fault) => {
                &&& r matches Err(e)
                &&& e@ == fault
                &&& final(reader)@ == old(reader)@
            },
        },
{
    let start: &[u8] = *reader;
    let len: i32 = VarInt::decode(reader)?.value();
    if len < 0 {
        *reader = start;
        return Err(DecodeError::InvalidVarInt);
    }
    Ok(len as usize)
}

/// One protocol message as the framer sees it: an id and opaque bytes.
#[derive(Debug)]
pub struct Packet {
    pub id: i32,
    pub data: Vec<u8>,
}

/// The mathematical content of a [`Packet`].
pub struct PacketView {
    pub id: i32,
    pub data: Seq<u8>,
}

impl View for Packet {
    type V = PacketView;

    open spec fn view(&self) -> PacketView {
        PacketView { id: self.id, data: self.data@ }
    }
}

/// Reading a packet did what `parsed` says: it returned that packet and took
/// that many bytes off the front, or returned that fault and took none.
pub open spec fn reads_as(
    parsed: Result<(PacketView, nat), DecodeFault>,
    before: Seq<u8>,
    after: Seq<u8>,
    r: Result<Packet, DecodeError>,
) -> bool {
    match parsed {
        Ok((packet, taken)) => {
            &&& r matches Ok(p)
            &&& p@ == packet
            &&& taken <= before.len()
            &&& after == before.skip(taken as int)
        },
        Err(fault) => {
            &&& r matches Err(e)
            &&& e@ == fault
            &&& after == before
        },
    }
}

impl PacketView {
    /// The id as a VarInt, then the payload: what a frame carries, and what
    /// is compressed where compression applies.
    pub open spec fn raw(self) -> Seq<u8> {
        var_int_bytes(self.id as int) + self.data
    }

    /// The frame of the packet where compression is off: the length of what
    /// follows, then the id and the payload.
    pub open spec fn frame(self) -> Seq<u8> {
        var_int_bytes(self.raw().len() as int) + self.raw()
    }

    /// Whether a writer with this threshold gets the packet past the
    /// compressor: the packet is under the threshold, or the compressor
    /// makes a stream of it.
    pub open spec fn deflates(self, threshold: nat) -> bool {
        self.raw().len() >= threshold ==> zlib_deflated(self.raw()) is Stream
    }

    /// The zlib stream of id and payload, where the compressor makes one.
    pub open spec fn stream(self) -> Seq<u8> {
        zlib_deflated(self.raw())->Stream_0
    }

    /// Whether what the frame of the packet holds in this mode can be taken
    /// out again: where it holds a zlib stream, the stream reads back as id
    /// and payload. A frame that holds them as they are needs nothing.
    pub open spec fn reads_back(self, min_compression: Option<usize>) -> bool {
        match min_compression {
            Some(threshold) => self.raw().len() >= threshold ==> zlib_inflated(
                self.stream(),
                self.raw().len() + 1,
            ) == Inflated::Bytes(self.raw()),
            None => true,
        }
    }

    /// The inside of the packet's frame where compression is on with this
    /// threshold. For a packet under the threshold: a zero, then the id and
    /// the payload as they are. For one that reaches it: the length of id and
    /// payload, then the two as one zlib stream.
    pub open spec fn compressed_body(self, threshold: nat) -> Seq<u8> {
        if self.raw().len() >= threshold {
            deflated_body(self.raw().len(), self.stream())
        } else {
            seq![0u8] + self.raw()
        }
    }

    /// The frame of the packet where compression is on with this threshold:
    /// the length of what follows, then the inside.
    pub open spec fn frame_compressed(self, threshold: nat) -> Seq<u8> {
        var_int_bytes(self.compressed_body(threshold).len() as int) + self.compressed_body(
            threshold,
        )
    }

    /// The frame where compression is off, or the fault of a packet too long
    /// to frame.
    pub open spec fn framed(self) -> Result<Seq<u8>, EncodeFault> {
        if self.raw().len() > i32::MAX {
            Err(length_fault())
        } else {
            Ok(self.frame())
        }
    }

    /// The frame where compression is on with this threshold, or why there
    /// is none: the fault of a packet too long to frame, or a failed write
    /// where the packet reaches the threshold and the compressor gives up.
    pub open spec fn framed_compressed(self, threshold: nat) -> Result<Seq<u8>, EncodeFault> {
        if self.raw().len() > i32::MAX {
            Err(length_fault())
        } else if !self.deflates(threshold) {
            Err(EncodeFault::Io(zlib_deflated(self.raw())->Failed_0))
        } else if self.compressed_body(threshold).len() > i32::MAX {
            Err(length_fault())
        } else {
            Ok(self.frame_compressed(threshold))
        }
    }

    /// The frame in either mode, for a packet that has one.
    pub open spec fn frame_in(self, min_compression: Option<usize>) -> Seq<u8> {
        match min_compression {
            Some(threshold) => self.frame_compressed(threshold as nat),
            None => self.frame(),
        }
    }

    /// The frame in either mode, or why there is none.
    pub open spec fn framed_in(self, min_compression: Option<usize>) -> Result<
        Seq<u8>,
        EncodeFault,
    > {
        match min_compression {
            Some(threshold) => self.framed_compressed(threshold as nat),
            None => self.framed(),
        }
    }
}

/// The inside of a compressed frame around the zlib stream `stream` that
/// holds `raw_len` bytes.
pub open spec fn deflated_body(raw_len: nat, stream: Seq<u8>) -> Seq<u8> {
    var_int_bytes(raw_len as int) + stream
}

/// The frame around that, or the fault of lengths that no VarInt can carry.
pub open spec fn deflated_framed(raw_len: nat, stream: Seq<u8>) -> Result<Seq<u8>, EncodeFault> {
    let body = deflated_body(raw_len, stream);
    if raw_len > i32::MAX || body.len() > i32::MAX {
        Err(length_fault())
    } else {
        Ok(var_int_bytes(body.len() as int) + body)
    }
}

/// The fault of a zlib stream that holds more than the frame declared.
pub open spec fn size_fault() -> DecodeFault {
    DecodeFault::Custom { message: "Inflated data is longer than its declared length"@ }
}

/// What the outcome of reading a zlib stream amounts to for a frame that
/// declared `declared` bytes: exactly that many bytes, or a fault.
pub open spec fn inflated_raw(outcome: Inflated, declared: nat) -> Result<Seq<u8>, DecodeFault> {
    match outcome {
        Inflated::Bytes(raw) => if raw.len() < declared {
            Err(DecodeFault::UnexpectedEnd)
        } else if raw.len() > declared {
            Err(size_fault())
        } else {
            Ok(raw)
        },
        Inflated::Failed { eof, message } => if eof {
            Err(DecodeFault::UnexpectedEnd)
        } else {
            Err(DecodeFault::Custom { message })
        },
    }
}

/// The packet that the inside of a compressed-mode frame holds: a declared
/// length, and then either the id and payload as they are, where the length
/// is zero, or a zlib stream of that many bytes.
pub open spec fn parse_compressed_body(body: Seq<u8>) -> Result<PacketView, DecodeFault> {
    match parse_length(body) {
        Ok((declared, taken)) => {
            let rest = body.skip(taken as int);
            if declared == 0 {
                parse_raw(rest)
            } else {
                match inflated_raw(zlib_inflated(rest, declared + 1), declared) {
                    Ok(raw) => parse_raw(raw),
                    Err(fault) => Err(fault),
                }
            }
        },
        Err(fault) => Err(fault),
    }
}

/// The packet in the frame at the front of a byte string where compression
/// is on, with the number of bytes that the frame occupies.
pub open spec fn parse_frame_compressed(bytes: Seq<u8>) -> Result<(PacketView, nat), DecodeFault> {
    match parse_frame_body(bytes) {
        Ok((body, taken)) => match parse_compressed_body(body) {
            Ok(packet) => Ok((packet, taken)),
            Err(fault) => Err(fault),
        },
        Err(fault) => Err(fault),
    }
}

/// The packet in the frame at the front of a byte string, in either mode.
pub open spec fn parse_frame_in(bytes: Seq<u8>, is_compressed: bool) -> Result<
    (PacketView, nat),
    DecodeFault,
> {
    if is_compressed {
        parse_frame_compressed(bytes)
    } else {
        parse_frame(bytes)
    }
}

/// The packet that the inside of a frame holds: a VarInt id, and the rest
/// as payload.
pub open spec fn parse_raw(raw: Seq<u8>) -> Result<PacketView, DecodeFault> {
    match parse_var_int(raw) {
        Ok((number, taken)) => Ok(
            PacketView { id: var_int_value(number) as i32, data: raw.skip(taken as int) },
        ),
        Err(fault) => Err(fault),
    }
}

/// The inside of the frame at the front of a byte string, with the number of
/// bytes that the whole frame occupies.
pub open spec fn parse_frame_body(bytes: Seq<u8>) -> Result<(Seq<u8>, nat), DecodeFault> {
    match parse_length(bytes) {
        Ok((len, taken)) => if bytes.len() - taken < len {
            Err(DecodeFault::UnexpectedEnd)
        } else {
            Ok((bytes.subrange(taken as int, (taken + len) as int), taken + len))
        },
        Err(fault) => Err(fault),
    }
}

/// The packet in the frame at the front of a byte string where compression
/// is off, with the number of bytes that the frame occupies.
pub open spec fn parse_frame(bytes: Seq<u8>) -> Result<(PacketView, nat), DecodeFault> {
    match parse_frame_body(bytes) {
        Ok((body, taken)) => match parse_raw(body) {
            Ok(packet) => Ok((packet, taken)),
            Err(fault) => Err(fault),
        },
        Err(fault) => Err(fault),
    }
}

/// Takes the inside of one frame off the reader.
pub fn read_frame_body<'a>(reader: &mut &'a [u8]) -> (r: Result<&'a [u8], DecodeError>)
    ensures
        match parse_frame_body(old(reader)@) {
            Ok((body, taken)) => {
                &&& r matches Ok(b)
                &&& b@ == body
                &&& body.len() <= i32::MAX
                &&& taken <= old(reader)@.len()
                &&& final(reader)@ == old(reader)@.skip(taken as int)
            },
            Err(fault) => {
                &&& r matches Err(e)
                &&& e@ == fault
                &&& final(reader)@ == old(reader)@
            },
        },
{
    let start: &'a [u8] = *reader;
    let len: usize = parse_len(reader)?;
    match read_exact(reader, len) {
        Ok(body) => {
            proof {
                let taken = parse_length(start@)->Ok_0.1;
                assert(start@.skip(taken as int).take(len as int) == start@.subrange(
                    taken as int,
                    (taken + len) as int,
                ));
                assert(start@.skip(taken as int).skip(len as int) == start@.skip(
                    (taken + len) as int,
                ));
            }
            Ok(body)
        },
        Err(err) => {
            *reader = start;
            Err(err)
        },
    }
}

/// Reads the packet out of the inside of a frame.
pub fn read_raw(raw: &[u8]) -> (r: Result<Packet, DecodeError>)
    ensures
        match parse_raw(raw@) {
            Ok(packet) => r matches Ok(p) && p@ == packet,
            Err(fault) => r matches Err(e) && e@ == fault,
        },
{
    let mut rest: &[u8] = raw;
    let id: i32 = VarInt::decode(&mut rest)?.value();
    Ok(Packet { id, data: slice_to_vec(rest) })
}

/// The id and payload of a packet read back as the packet.
pub proof fn lemma_parse_raw(packet: PacketView)
    ensures
        parse_raw(packet.raw()) == Ok::<PacketView, DecodeFault>(packet),
{
    let id = var_int_bytes(packet.id as int);
    lemma_var_int_round_trip(packet.id as int, packet.data);
    assert(packet.raw().skip(id.len() as int) == packet.data);
}

/// A length that a VarInt can carry reads back from the front of whatever
/// follows it.
pub proof fn lemma_parse_length(len: nat, rest: Seq<u8>)
    requires
        len <= i32::MAX,
    ensures
        parse_length(var_int_bytes(len as int) + rest) == Ok::<(nat, nat), DecodeFault>(
            (len, var_int_bytes(len as int).len()),
        ),
        (var_int_bytes(len as int) + rest).skip(var_int_bytes(len as int).len() as int) == rest,
{
    lemma_var_int_round_trip(len as int, rest);
}

/// A length and that many bytes read back as those bytes, whatever follows.
pub proof fn lemma_parse_frame_body(body: Seq<u8>, rest: Seq<u8>)
    requires
        body.len() <= i32::MAX,
    ensures
        parse_frame_body(var_int_bytes(body.len() as int) + body + rest) == Ok::<
            (Seq<u8>, nat),
            DecodeFault,
        >((body, (var_int_bytes(body.len() as int) + body).len())),
        (var_int_bytes(body.len() as int) + body + rest).skip(
            (var_int_bytes(body.len() as int) + body).len() as int,
        ) == rest,
{
    let prefix = var_int_bytes(body.len() as int);
    let all = prefix + body + rest;
    assert(all == prefix + (body + rest));
    lemma_parse_length(body.len(), body + rest);
    assert(all.subrange(prefix.len() as int, (prefix.len() + body.len()) as int) == body);
}

/// Where compression is off, a frame reads back as its packet, whatever
/// follows it.
pub proof fn lemma_frame_round_trip(packet: PacketView, rest: Seq<u8>)
    requires
        packet.framed() is Ok,
    ensures
        parse_frame(packet.frame() + rest) == Ok::<(PacketView, nat), DecodeFault>(
            (packet, packet.frame().len()),
        ),
        (packet.frame() + rest).skip(packet.frame().len() as int) == rest,
{
    lemma_parse_frame_body(packet.raw(), rest);
    lemma_parse_raw(packet);
}

/// Where compression is on, the frame of a packet under the threshold reads
/// back as the packet, whatever follows it.
pub proof fn lemma_frame_stored_round_trip(packet: PacketView, threshold: nat, rest: Seq<u8>)
    requires
        packet.framed_compressed(threshold) is Ok,
        packet.raw().len() < threshold,
    ensures
        parse_frame_compressed(packet.frame_compressed(threshold) + rest) == Ok::<
            (PacketView, nat),
            DecodeFault,
        >((packet, packet.frame_compressed(threshold).len())),
        (packet.frame_compressed(threshold) + rest).skip(
            packet.frame_compressed(threshold).len() as int,
        ) == rest,
{
    let body = packet.compressed_body(threshold);
    lemma_parse_frame_body(body, rest);
    lemma_stored_body(packet);
}

/// In either mode, a frame whose content can be taken out again reads back
/// as its packet, whatever follows it.
pub proof fn lemma_frame_in_round_trip(
    packet: PacketView,
    min_compression: Option<usize>,
    rest: Seq<u8>,
)
    requires
        packet.framed_in(min_compression) is Ok,
        packet.reads_back(min_compression),
    ensures
        parse_frame_in(packet.frame_in(min_compression) + rest, min_compression is Some) == Ok::<
            (PacketView, nat),
            DecodeFault,
        >((packet, packet.frame_in(min_compression).len())),
        (packet.frame_in(min_compression) + rest).skip(
            packet.frame_in(min_compression).len() as int,
        ) == rest,
{
    match min_compression {
        Some(threshold) => {
            let raw = packet.raw();
            if raw.len() < threshold {
                lemma_frame_stored_round_trip(packet, threshold as nat, rest);
            } else {
                let body = packet.compressed_body(threshold as nat);
                lemma_parse_frame_body(body, rest);
                lemma_parse_length(raw.len(), packet.stream());
                lemma_var_int_round_trip(packet.id as int, packet.data);
                assert(raw.len() > 0);
                lemma_parse_raw(packet);
            }
        },
        None => {
            lemma_frame_round_trip(packet, rest);
        },
    }
}

/// With compression on, a packet whose id and payload together stay under
/// the threshold is framed as the length of what follows, a zero, and the id
/// and the payload as they are.
pub proof fn lemma_frame_under_threshold(packet: PacketView, threshold: nat)
    requires
        packet.raw().len() < threshold,
    ensures
        packet.frame_compressed(threshold) == var_int_bytes(1 + packet.raw().len() as int)
            + seq![0u8] + var_int_bytes(packet.id as int) + packet.data,
{
    let raw = packet.raw();
    let prefix = var_int_bytes(1 + raw.len() as int);
    assert(prefix + (seq![0u8] + raw) == prefix + seq![0u8] + var_int_bytes(packet.id as int)
        + packet.data);
}

/// With compression on, a packet whose id and payload together reach the
/// threshold is framed as the length of what follows, the length of id and
/// payload, and the zlib stream of the two.
pub proof fn lemma_frame_over_threshold(packet: PacketView, threshold: nat)
    requires
        packet.raw().len() >= threshold,
    ensures
        packet.frame_compressed(threshold) == var_int_bytes(
            (var_int_bytes(packet.raw().len() as int).len() + packet.stream().len()) as int,
        ) + var_int_bytes(packet.raw().len() as int) + packet.stream(),
{
    let declared = var_int_bytes(packet.raw().len() as int);
    let stream = packet.stream();
    assert(var_int_bytes((declared + stream).len() as int) + (declared + stream) == var_int_bytes(
        (declared.len() + stream.len()) as int,
    ) + declared + stream);
}

/// The inside of a frame that holds a packet as it is reads back as the
/// packet.
pub proof fn lemma_stored_body(packet: PacketView)
    ensures
        parse_compressed_body(seq![0u8] + packet.raw()) == Ok::<PacketView, DecodeFault>(packet),
{
    let body = seq![0u8] + packet.raw();
    lemma_parse_length(0, packet.raw());
    reveal_with_fuel(crate::codec::base128::groups_of, 2);
    assert(var_int_bytes(0) == seq![0u8]);
    lemma_parse_raw(packet);
}

impl Packet {
    #[must_use]
    pub fn new(id: i32, data: &[u8]) -> (r: Self)
        ensures
            r@ == (PacketView { id, data: data@ }),
    {
        Packet { id, data: slice_to_vec(data) }
    }

    /// Reads one packet from a stream on which compression is off.
    pub fn read_packet_uncompressed(from: &mut &[u8]) -> (r: Result<Packet, DecodeError>)
        ensures
            reads_as(parse_frame(old(from)@), old(from)@, final(from)@, r),
    {
        let start: &[u8] = *from;
        let body = read_frame_body(from)?;
        match read_raw(body) {
            Ok(packet) => Ok(packet),
            Err(err) => {
                *from = start;
                Err(err)
            },
        }
    }
}

/// Finishes a compressed frame once the zlib stream is there, or hands on
/// the error that kept it from being made: the frame is the length of what
/// follows, the length `raw_len` of what was compressed, and the stream.
pub fn write_deflated(
    to: &mut Vec<u8>,
    raw_len: usize,
    deflated: Result<Vec<u8>, std::io::Error>,
) -> (r: Result<usize, EncodeError>)
    ensures
        match deflated {
            Ok(stream) => encodes_as(
                deflated_framed(raw_len as nat, stream@),
                old(to)@,
                final(to)@,
                r,
            ),
            Err(err) => r == Err::<usize, EncodeError>(EncodeError::Io(err)) && final(to)@ == old(
                to,
            )@,
        },
{
    let stream = match deflated {
        Ok(stream) => stream,
        Err(err) => {
            return Err(EncodeError::Io(err));
        },
    };
    if raw_len > 0x7fff_ffff {
        return Err(length_error());
    }
    let data_len_ = VarInt::new(raw_len as i32);
    let declared_len: usize = data_len_.as_slice().len();
    if stream.len() > 0x7fff_ffff - declared_len {
        return Err(length_error());
    }
    let packet_len: usize = declared_len + stream.len();
    let packet_len_ = VarInt::new(packet_len as i32);
    let prefix_len: usize = packet_len_.as_slice().len();

    packet_len_.encode(to)?;
    data_len_.encode(to)?;
    put_bytes(to, stream.as_slice());

    proof {
        let body = deflated_body(raw_len as nat, stream@);
        assert(to@ == old(to)@ + (var_int_bytes(body.len() as int) + body));
    }
    Ok(prefix_len + packet_len)
}

/// Settles what reading a zlib stream gave for a frame that declared
/// `declared` bytes: exactly that many are accepted, fewer are an early end,
/// more are rejected, and an error of the reader is handed on.
pub fn check_inflated(outcome: Result<Vec<u8>, InflateError>, declared: usize) -> (r: Result<
    Vec<u8>,
    DecodeError,
>)
    ensures
        match inflated_raw(inflated_of(outcome), declared as nat) {
            Ok(raw) => r matches Ok(out) && out@ == raw,
            Err(fault) => r matches Err(e) && e@ == fault,
        },
{
    match outcome {
        Ok(raw) => {
            if raw.len() < declared {
                Err(DecodeError::UnexpectedEnd)
            } else if raw.len() > declared {
                Err(
                    DecodeError::Custom {
                        message: "Inflated data is longer than its declared length".to_owned(),
                    },
                )
            } else {
                Ok(raw)
            }
        },
        Err(err) => if err.eof {
            Err(DecodeError::UnexpectedEnd)
        } else {
            Err(DecodeError::Custom { message: err.message })
        },
    }
}

/// Reads the packet out of the inside of a compressed-mode frame.
///
/// What a writer with compression on put there reads back as the packet it
/// wrote, whatever its threshold was.
pub fn read_compressed_body(body: &[u8]) -> (r: Result<Packet, DecodeError>)
    ensures
        match parse_compressed_body(body@) {
            Ok(packet) => r matches Ok(p) && p@ == packet,
            Err(fault) => r matches Err(e) && e@ == fault,
        },
        forall|packet: PacketView, threshold: nat|
            body@ == #[trigger] packet.compressed_body(threshold) && packet.raw().len() <= i32::MAX
                && packet.deflates(threshold) ==> (r matches Ok(p) && p@ == packet),
{
    let mut rest: &[u8] = body;
    let result = match parse_len(&mut rest) {
        Ok(data_len) => {
            if data_len != 0 {
                let outcome = zlib_inflate(rest, data_len as u64 + 1);
                match check_inflated(outcome, data_len) {
                    Ok(raw) => read_raw(raw.as_slice()),
                    Err(err) => Err(err),
                }
            } else {
                read_raw(rest)
            }
        },
        Err(err) => Err(err),
    };
    proof {
        assert forall|packet: PacketView, threshold: nat|
            body@ == #[trigger] packet.compressed_body(threshold) && packet.raw().len()
                <= i32::MAX && packet.deflates(threshold) implies (result matches Ok(p) && p@
                == packet) by {
            let raw = packet.raw();
            lemma_parse_raw(packet);
            if raw.len() >= threshold {
                let stream = packet.stream();
                assert(zlib_deflated(raw) == Deflated::Stream(stream));
                lemma_parse_length(raw.len(), stream);
                lemma_var_int_round_trip(packet.id as int, packet.data);
                assert(raw.len() > 0);
                assert(raw.take(raw.len() as int) == raw);
            } else {
                lemma_stored_body(packet);
            }
        }
    }
    result
}

impl Packet {
    /// Reads one packet from a stream on which compression is on.
    ///
    /// A frame that `write_packet_compressed` wrote reads back as the packet
    /// it was given, whatever the threshold was and whatever follows.
    pub fn read_packet_compressed(from: &mut &[u8]) -> (r: Result<Packet, DecodeError>)
        ensures
            reads_as(parse_frame_compressed(old(from)@), old(from)@, final(from)@, r),
            forall|packet: PacketView, threshold: nat|
                #![trigger packet.framed_compressed(threshold)]
                packet.framed_compressed(threshold) is Ok && packet.frame_compressed(
                    threshold,
                ).is_prefix_of(old(from)@) ==> (r matches Ok(p) && p@ == packet) && final(from)@
                    == old(from)@.skip(packet.frame_compressed(threshold).len() as int),
    {
        let start: &[u8] = *from;
        let result = match read_frame_body(from) {
            Ok(body) => match read_compressed_body(body) {
                Ok(packet) => Ok(packet),
                Err(err) => {
                    *from = start;
                    Err(err)
                },
            },
            Err(err) => Err(err),
        };
        proof {
            assert forall|packet: PacketView, threshold: nat|
                #![trigger packet.framed_compressed(threshold)]
                packet.framed_compressed(threshold) is Ok && packet.frame_compressed(
                    threshold,
                ).is_prefix_of(start@) implies (result matches Ok(p) && p@ == packet) && from@
                == start@.skip(packet.frame_compressed(threshold).len() as int) by {
                let frame = packet.frame_compressed(threshold);
                let rest = start@.skip(frame.len() as int);
                assert(start@ == frame + rest);
                lemma_parse_frame_body(packet.compressed_body(threshold), rest);
            }
        }
        result
    }

    /// Writes the packet's frame for a stream on which compression is off.
    /// Returns the number of bytes written.
    pub fn write_packet_uncompressed(&self, to: &mut Vec<u8>) -> (r: Result<usize, EncodeError>)
        ensures
            encodes_as(self@.framed(), old(to)@, final(to)@, r),
    {
        let id = VarInt::new(self.id);
        let id_len: usize = id.as_slice().len();
        if self.data.len() > 0x7fff_ffff - id_len {
            return Err(length_error());
        }
        let packet_len: usize = id_len + self.data.len();
        let packet_len_ = VarInt::new(packet_len as i32);
        let prefix_len: usize = packet_len_.as_slice().len();

        packet_len_.encode(to)?;
        id.encode(to)?;
        put_bytes(to, self.data.as_slice());

        proof {
            assert(to@ == old(to)@ + self@.frame());
        }
        Ok(prefix_len + packet_len)
    }

    /// Writes the packet's frame for a stream on which compression is on:
    /// compressed where id and payload together reach `min_compression`
    /// bytes, as they are where they do not. Returns the number of bytes
    /// written. On failure nothing is written.
    pub fn write_packet_compressed(&self, to: &mut Vec<u8>, min_compression: usize) -> (r: Result<
        usize,
        EncodeError,
    >)
        ensures
            encodes_as(
                self@.framed_compressed(min_compression as nat),
                old(to)@,
                final(to)@,
                r,
            ),
    {
        let id = VarInt::new(self.id);
        let id_len: usize = id.as_slice().len();
        if self.data.len() > 0x7fff_ffff - id_len {
            return Err(length_error());
        }
        let data_len: usize = id_len + self.data.len();

        if data_len >= min_compression {
            let mut raw: Vec<u8> = Vec::with_capacity(data_len);
            put_bytes(&mut raw, id.as_slice());
            put_bytes(&mut raw, self.data.as_slice());
            assert(raw@ == self@.raw());
            write_deflated(to, data_len, zlib_compress(raw.as_slice()))
        } else {
            if data_len >= 0x7fff_ffff {
                return Err(length_error());
            }
            let packet_len_ = VarInt::new((1 + data_len) as i32);
            let prefix_len: usize = packet_len_.as_slice().len();

            packet_len_.encode(to)?;
            0_u8.encode(to)?;
            id.encode(to)?;
            put_bytes(to, self.data.as_slice());

            proof {
                assert(to@ == old(to)@ + self@.frame_compressed(min_compression as nat));
            }
            Ok(prefix_len + 1 + data_len)
        }
    }
}

/// A frame is one byte long at least.
pub proof fn lemma_frame_taken(bytes: Seq<u8>, is_compressed: bool)
    ensures
        parse_frame_in(bytes, is_compressed) matches Ok((_, taken)) ==> 0 < taken <= bytes.len(),
{
    if parse_frame_body(bytes) is Ok {
        let taken = parse_var_int(bytes)->Ok_0.1;
        crate::codec::base128::lemma_scan_is_var(bytes, 0, 5, 16);
    }
}

/// How many bytes are still to come before a buffer holds one whole frame:
/// none where it does, one where its length is not all there, and else what
/// the length asks for beyond what is there.
pub open spec fn frame_deficit(bytes: Seq<u8>) -> Result<nat, DecodeFault> {
    match parse_length(bytes) {
        Ok((len, taken)) => Ok(
            if taken + len > bytes.len() {
                (taken + len - bytes.len()) as nat
            } else {
                0
            },
        ),
        Err(DecodeFault::UnexpectedEnd) => Ok(1),
        Err(fault) => Err(fault),
    }
}

/// Tells a reader that fills a buffer from a stream how many bytes to fetch
/// next, so that it neither stops short of a frame nor reads into the next.
pub fn missing_bytes(buffer: &[u8]) -> (r: Result<usize, DecodeError>)
    ensures
        match frame_deficit(buffer@) {
            Ok(deficit) => r == Ok::<usize, DecodeError>(deficit as usize) && deficit <= i32::MAX,
            Err(fault) => r matches Err(e) && e@ == fault,
        },
{
    let mut rest: &[u8] = buffer;
    match parse_len(&mut rest) {
        Ok(len) => {
            if len > rest.len() {
                Ok(len - rest.len())
            } else {
                Ok(0)
            }
        },
        Err(DecodeError::UnexpectedEnd) => Ok(1),
        Err(err) => Err(err),
    }
}

/// Reading framed packets off a source.
pub trait ReadPacket {
    /// The bytes of the source that are yet to be read.
    spec fn unread(&self) -> Seq<u8>;

    /// Reads a packet from the source, in the framing that `is_compressed`
    /// selects. On failure nothing is taken off the source.
    fn read_packet(&mut self, is_compressed: bool) -> (r: Result<Packet, DecodeError>)
        ensures
            reads_as(
                parse_frame_in(old(self).unread(), is_compressed),
                old(self).unread(),
                final(self).unread(),
                r,
            ),
    ;
}

impl ReadPacket for &[u8] {
    open spec fn unread(&self) -> Seq<u8> {
        self@
    }

    /// A frame that `write_packet` wrote in the same mode reads back as the
    /// packet that it was given, whatever follows the frame.
    fn read_packet(&mut self, is_compressed: bool) -> (r: Result<Packet, DecodeError>)
        ensures
            forall|packet: PacketView, mode: Option<usize>|
                #![trigger packet.framed_in(mode)]
                (mode is Some) == is_compressed && packet.framed_in(mode) is Ok && packet.frame_in(
                    mode,
                ).is_prefix_of(old(self)@) ==> (r matches Ok(p) && p@ == packet) && final(self)@
                    == old(self)@.skip(packet.frame_in(mode).len() as int),
    {
        let ghost start = self@;
        let result = if is_compressed {
            Packet::read_packet_compressed(self)
        } else {
            Packet::read_packet_uncompressed(self)
        };
        proof {
            assert forall|packet: PacketView, mode: Option<usize>|
                #![trigger packet.framed_in(mode)]
                (mode is Some) == is_compressed && packet.framed_in(mode) is Ok && packet.frame_in(
                    mode,
                ).is_prefix_of(start) implies (result matches Ok(p) && p@ == packet) && self@
                == start.skip(packet.frame_in(mode).len() as int) by {
                let frame = packet.frame_in(mode);
                if mode is Some {
                    assert(packet.framed_compressed(mode->Some_0 as nat) is Ok);
                } else {
                    assert(start == frame + start.skip(frame.len() as int));
                    lemma_frame_round_trip(packet, start.skip(frame.len() as int));
                }
            }
        }
        result
    }
}

/// Writing framed packets to a sink.
pub trait WritePacket {
    /// The bytes that the sink has taken.
    spec fn written(&self) -> Seq<u8>;

    /// Writes a packet to the sink: in compressed framing with the given
    /// threshold, or in plain framing where there is none. Returns the number
    /// of bytes written. On failure nothing is written.
    fn write_packet(&mut self, packet: &Packet, min_compression: Option<usize>) -> (r: Result<
        usize,
        EncodeError,
    >)
        ensures
            encodes_as(
                packet@.framed_in(min_compression),
                old(self).written(),
                final(self).written(),
                r,
            ),
    ;
}

impl WritePacket for Vec<u8> {
    open spec fn written(&self) -> Seq<u8> {
        self@
    }

    fn write_packet(&mut self, packet: &Packet, min_compression: Option<usize>) -> (r: Result<
        usize,
        EncodeError,
    >) {
        if let Some(min_compression) = min_compression {
            packet.write_packet_compressed(self, min_compression)
        } else {
            packet.write_packet_uncompressed(self)
        }
    }
}

} // verus!
