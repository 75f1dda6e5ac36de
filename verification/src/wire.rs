//! The binary wire codec: fixed-schema, versionless messages exchanged as
//! single datagrams.
//!
//! Client to server: a [`Command`], a tagged union whose one variant is
//! `Move(Point)`. Server to client: a [`ClientMessage`], a sequence of
//! [`Update`] records. All integers are little-endian; a point is three
//! IEEE-754 single-precision bit patterns; a string travels as its UTF-8
//! bytes behind a byte-length prefix. Decoding rejects malformed input with a
//! structured [`DecodeError`], never panics, and never allocates beyond the
//! buffer's own length: every length prefix is checked against the bytes
//! that are actually there. The transport layer bounds the datagram size.

use vstd::bytes::*;
use vstd::prelude::*;
use vstd::slice::slice_index_get;
use vstd::slice::slice_to_vec;
use vstd::slice::slice_subrange;
use vstd::utf8::*;

verus! {

/// A 3-D location; each field is the bit pattern of an IEEE-754
/// single-precision number. The codec and the tables treat the pattern as an
/// opaque 32-bit value, so every float, NaN payloads included, survives a
/// round trip unchanged.
#[derive(Clone, Copy, PartialEq, Eq, Structural, Debug)]
pub struct Point {
    pub x: u32,
    pub y: u32,
    pub z: u32,
}

/// A client-to-server message: the client reports its position.
#[derive(Clone, Copy, PartialEq, Eq, Structural, Debug)]
pub enum Command {
    Move(Point),
}

/// Why a datagram was rejected. Every variant is recoverable: the caller
/// drops the datagram and carries on.
#[derive(Clone, Copy, PartialEq, Eq, Structural, Debug)]
pub enum DecodeError {
    /// The buffer ends before the schema says it may.
    Truncated,
    /// Bytes remain after a complete `Command`.
    TrailingBytes,
    /// A union tag this version of the schema does not know; the datagram is
    /// skipped, which keeps the format forward-compatible.
    UnknownTag,
    /// A string field is not valid UTF-8.
    BadUtf8,
}

/// Wire tag of `Command::Move`.
pub const TAG_MOVE: u8 = 0;

/// Wire tag of `Update::EntityAlive`.
pub const TAG_ENTITY_ALIVE: u8 = 0;

/// Wire tag of `Update::EntityDead`.
pub const TAG_ENTITY_DEAD: u8 = 1;

pub open spec fn spec_encode_point(p: Point) -> Seq<u8> {
    spec_u32_to_le_bytes(p.x) + spec_u32_to_le_bytes(p.y) + spec_u32_to_le_bytes(p.z)
}

pub open spec fn spec_decode_point(b: Seq<u8>) -> Point
    recommends
        b.len() == 12,
{
    Point {
        x: spec_u32_from_le_bytes(b.subrange(0, 4)),
        y: spec_u32_from_le_bytes(b.subrange(4, 8)),
        z: spec_u32_from_le_bytes(b.subrange(8, 12)),
    }
}

/// The bytes of one `Command` datagram: the tag, then the point.
pub open spec fn spec_encode_command(c: Command) -> Seq<u8> {
    match c {
        Command::Move(p) => seq![TAG_MOVE] + spec_encode_point(p),
    }
}

/// What decoding an arbitrary buffer as a `Command` yields; the exact
/// contract of [`decode_command`].
pub open spec fn spec_decode_command(b: Seq<u8>) -> Result<Command, DecodeError> {
    if b.len() < 1 {
        Err(DecodeError::Truncated)
    } else if b[0] == TAG_MOVE {
        if b.len() < 13 {
            Err(DecodeError::Truncated)
        } else if b.len() > 13 {
            Err(DecodeError::TrailingBytes)
        } else {
            Ok(Command::Move(spec_decode_point(b.subrange(1, 13))))
        }
    } else {
        Err(DecodeError::UnknownTag)
    }
}

fn append_point(out: &mut Vec<u8>, p: &Point)
    ensures
        final(out)@ == old(out)@ + spec_encode_point(*p),
{
    let mut xb = u32_to_le_bytes(p.x);
    out.append(&mut xb);
    let mut yb = u32_to_le_bytes(p.y);
    out.append(&mut yb);
    let mut zb = u32_to_le_bytes(p.z);
    out.append(&mut zb);
    proof {
        assert(out@ =~= old(out)@ + spec_encode_point(*p));
    }
}

fn read_point(data: &[u8], i: usize) -> (p: Point)
    requires
        i + 12 <= data@.len(),
    ensures
        p == spec_decode_point(data@.subrange(i as int, i as int + 12)),
{
    let n = data.len();
    let x = u32_from_le_bytes(slice_subrange(data, i, i + 4));
    let y = u32_from_le_bytes(slice_subrange(data, i + 4, i + 8));
    let z = u32_from_le_bytes(slice_subrange(data, i + 8, i + 12));
    proof {
        let whole = data@.subrange(i as int, i as int + 12);
        assert(whole.subrange(0, 4) =~= data@.subrange(i as int, i as int + 4));
        assert(whole.subrange(4, 8) =~= data@.subrange(i as int + 4, i as int + 8));
        assert(whole.subrange(8, 12) =~= data@.subrange(i as int + 8, i as int + 12));
    }
    Point { x, y, z }
}

/// Encode a command as one datagram payload.
pub fn encode_command(c: &Command) -> (out: Vec<u8>)
    ensures
        out@ == spec_encode_command(*c),
{
    match c {
        Command::Move(p) => {
            let mut out: Vec<u8> = Vec::new();
            out.push(TAG_MOVE);
            append_point(&mut out, p);
            proof {
                assert(out@ =~= spec_encode_command(*c));
            }
            out
        },
    }
}

/// Decode one datagram payload as a command; rejects anything that is not
/// exactly one well-formed `Command`.
pub fn decode_command(data: &[u8]) -> (r: Result<Command, DecodeError>)
    ensures
        r == spec_decode_command(data@),
{
    if data.len() < 1 {
        return Err(DecodeError::Truncated);
    }
    let tag = *slice_index_get(data, 0);
    if tag != TAG_MOVE {
        return Err(DecodeError::UnknownTag);
    }
    if data.len() < 13 {
        return Err(DecodeError::Truncated);
    }
    if data.len() > 13 {
        return Err(DecodeError::TrailingBytes);
    }
    let p = read_point(data, 1);
    proof {
        assert(data@.subrange(1, 13) =~= data@.subrange(1 as int, 1 as int + 12));
    }
    Ok(Command::Move(p))
}

/// Decoding the encoding of a point gives the point back.
pub proof fn lemma_point_round_trip(p: Point)
    ensures
        spec_decode_point(spec_encode_point(p)) == p,
        spec_encode_point(p).len() == 12,
{
    lemma_auto_spec_u32_to_from_le_bytes();
    let b = spec_encode_point(p);
    assert(b.subrange(0, 4) =~= spec_u32_to_le_bytes(p.x));
    assert(b.subrange(4, 8) =~= spec_u32_to_le_bytes(p.y));
    assert(b.subrange(8, 12) =~= spec_u32_to_le_bytes(p.z));
}

/// Round trip for commands: decoding an encoded command gives the command
/// back, for every command value.
pub proof fn lemma_command_round_trip(c: Command)
    ensures
        spec_decode_command(spec_encode_command(c)) == Ok::<Command, DecodeError>(c),
{
    lemma_auto_spec_u32_to_from_le_bytes();
    match c {
        Command::Move(p) => {
            let b = spec_encode_command(c);
            assert(b.len() == 13);
            assert(b[0] == TAG_MOVE);
            assert(b.subrange(1, 13) =~= spec_encode_point(p));
            lemma_point_round_trip(p);
        },
    }
}

/// One record of a snapshot: an entity is present with a location and an
/// appearance, or an entity is gone. `EntityDead` is part of the schema for
/// future selective removal; the broadcast scheduler itself only ever sends
/// full snapshots of living entities.
#[derive(Clone, PartialEq, Eq, Debug)]
pub enum Update {
    EntityAlive { identity: u64, location: Point, appearance: String },
    EntityDead { identity: u64 },
}

/// The mathematical value of an [`Update`]: the appearance is its character
/// sequence.
pub enum UpdateV {
    Alive { identity: u64, location: Point, appearance: Seq<char> },
    Dead { identity: u64 },
}

impl View for Update {
    type V = UpdateV;

    open spec fn view(&self) -> UpdateV {
        match self {
            Update::EntityAlive { identity, location, appearance } => UpdateV::Alive {
                identity: *identity,
                location: *location,
                appearance: appearance@,
            },
            Update::EntityDead { identity } => UpdateV::Dead { identity: *identity },
        }
    }
}

/// The mathematical value of a sequence of updates.
pub open spec fn updates_view(s: Seq<Update>) -> Seq<UpdateV> {
    Seq::new(s.len(), |i: int| s[i]@)
}

/// A server-to-client message: an ordered sequence of updates, built fresh
/// for every outbound snapshot.
#[derive(Clone, PartialEq, Eq, Debug)]
pub struct ClientMessage {
    pub updates: Vec<Update>,
}

impl View for ClientMessage {
    type V = Seq<UpdateV>;

    open spec fn view(&self) -> Seq<UpdateV> {
        updates_view(self.updates@)
    }
}

/// The bytes of one update record: a tag, the identity, and for a living
/// entity the location followed by the length-prefixed UTF-8 appearance.
pub open spec fn spec_encode_update(u: UpdateV) -> Seq<u8> {
    match u {
        UpdateV::Alive { identity, location, appearance } => seq![TAG_ENTITY_ALIVE]
            + spec_u64_to_le_bytes(identity) + spec_encode_point(location) + spec_u64_to_le_bytes(
            encode_utf8(appearance).len() as u64,
        ) + encode_utf8(appearance),
        UpdateV::Dead { identity } => seq![TAG_ENTITY_DEAD] + spec_u64_to_le_bytes(identity),
    }
}

/// An update value the wire format can carry: the UTF-8 encoding of the
/// appearance fits the 64-bit length prefix. Every update built from an
/// in-memory string satisfies this.
pub open spec fn update_wire_valid(u: UpdateV) -> bool {
    u matches UpdateV::Alive { appearance, .. } ==> encode_utf8(appearance).len() <= u64::MAX
}

/// The bytes of a whole message: the update records, back to back.
pub open spec fn spec_encode_message(s: Seq<UpdateV>) -> Seq<u8>
    decreases s.len(),
{
    if s.len() == 0 {
        Seq::<u8>::empty()
    } else {
        spec_encode_update(s[0]) + spec_encode_message(s.drop_first())
    }
}

/// What parsing one update record from the front of a buffer yields: the
/// record and the number of bytes it occupied, or the reason the buffer was
/// rejected.
pub open spec fn spec_parse_update(b: Seq<u8>) -> Result<(UpdateV, int), DecodeError> {
    if b.len() < 1 {
        Err(DecodeError::Truncated)
    } else if b[0] == TAG_ENTITY_ALIVE {
        if b.len() < 29 {
            Err(DecodeError::Truncated)
        } else {
            let identity = spec_u64_from_le_bytes(b.subrange(1, 9));
            let location = spec_decode_point(b.subrange(9, 21));
            let alen = spec_u64_from_le_bytes(b.subrange(21, 29)) as int;
            if b.len() < 29 + alen {
                Err(DecodeError::Truncated)
            } else {
                let sb = b.subrange(29, 29 + alen);
                if valid_utf8(sb) {
                    Ok(
                        (
                            UpdateV::Alive { identity, location, appearance: decode_utf8(sb) },
                            29 + alen,
                        ),
                    )
                } else {
                    Err(DecodeError::BadUtf8)
                }
            }
        }
    } else if b[0] == TAG_ENTITY_DEAD {
        if b.len() < 9 {
            Err(DecodeError::Truncated)
        } else {
            Ok((UpdateV::Dead { identity: spec_u64_from_le_bytes(b.subrange(1, 9)) }, 9))
        }
    } else {
        Err(DecodeError::UnknownTag)
    }
}

/// What decoding an arbitrary buffer as a `ClientMessage` yields; the exact
/// contract of [`decode_client_message`]. One undecodable record invalidates
/// the whole message: nothing is ever half-applied.
pub open spec fn spec_decode_message(b: Seq<u8>) -> Result<Seq<UpdateV>, DecodeError>
    decreases b.len(),
{
    if b.len() == 0 {
        Ok(Seq::<UpdateV>::empty())
    } else {
        match spec_parse_update(b) {
            Err(e) => Err(e),
            Ok((u, n)) => if 0 < n <= b.len() {
                match spec_decode_message(b.subrange(n, b.len() as int)) {
                    Err(e) => Err(e),
                    Ok(rest) => Ok(seq![u] + rest),
                }
            } else {
                Err(DecodeError::Truncated)
            },
        }
    }
}

/// Relies on `str::from_utf8`: it returns `Ok` exactly on valid UTF-8 input,
/// and the returned string slice is over the very bytes given, so its
/// characters are their UTF-8 decoding.
#[verifier::external_body]
fn utf8_to_string(b: &[u8]) -> (r: Option<String>)
    ensures
        r is Some <==> valid_utf8(b@),
        r matches Some(s) ==> s@ == decode_utf8(b@),
{
    match core::str::from_utf8(b) {
        Ok(s) => Some(s.to_string()),
        Err(_) => None,
    }
}

fn append_update(out: &mut Vec<u8>, u: &Update)
    ensures
        final(out)@ == old(out)@ + spec_encode_update(u@),
{
    match u {
        Update::EntityAlive { identity, location, appearance } => {
            out.push(TAG_ENTITY_ALIVE);
            let mut ib = u64_to_le_bytes(*identity);
            out.append(&mut ib);
            append_point(out, location);
            let ab = appearance.as_str().as_bytes();
            let mut lb = u64_to_le_bytes(ab.len() as u64);
            out.append(&mut lb);
            let mut av = slice_to_vec(ab);
            out.append(&mut av);
            proof {
                assert(out@ =~= old(out)@ + spec_encode_update(u@));
            }
        },
        Update::EntityDead { identity } => {
            out.push(TAG_ENTITY_DEAD);
            let mut ib = u64_to_le_bytes(*identity);
            out.append(&mut ib);
            proof {
                assert(out@ =~= old(out)@ + spec_encode_update(u@));
            }
        },
    }
}

/// `spec_encode_message` distributes over appending one update.
proof fn lemma_encode_message_snoc(s: Seq<UpdateV>, u: UpdateV)
    ensures
        spec_encode_message(s.push(u)) == spec_encode_message(s) + spec_encode_update(u),
    decreases s.len(),
{
    if s.len() == 0 {
        assert(s =~= Seq::<UpdateV>::empty());
        assert(s.push(u).drop_first() =~= s);
        assert(s.push(u)[0] == u);
        assert(spec_encode_message(s) == Seq::<u8>::empty());
        assert(spec_encode_message(s.push(u)) =~= spec_encode_message(s) + spec_encode_update(u));
    } else {
        let sp = s.push(u);
        lemma_encode_message_snoc(s.drop_first(), u);
        assert(sp.drop_first() =~= s.drop_first().push(u));
        assert(sp[0] == s[0]);
        assert(spec_encode_message(sp) == spec_encode_update(s[0]) + (spec_encode_message(
            s.drop_first(),
        ) + spec_encode_update(u)));
        assert(spec_encode_update(s[0]) + (spec_encode_message(s.drop_first())
            + spec_encode_update(u)) =~= (spec_encode_update(s[0]) + spec_encode_message(
            s.drop_first(),
        )) + spec_encode_update(u));
    }
}

/// Encode a whole snapshot message as one datagram payload.
pub fn encode_client_message(m: &ClientMessage) -> (out: Vec<u8>)
    ensures
        out@ == spec_encode_message(m@),
{
    let mut out: Vec<u8> = Vec::new();
    let n = m.updates.len();
    for j in 0..n
        invariant
            n == m.updates@.len(),
            out@ == spec_encode_message(m@.take(j as int)),
    {
        append_update(&mut out, &m.updates[j]);
        proof {
            lemma_encode_message_snoc(m@.take(j as int), m@[j as int]);
            assert(m@.take(j + 1 as int) =~= m@.take(j as int).push(m@[j as int]));
        }
    }
    proof {
        assert(m@.take(n as int) =~= m@);
    }
    out
}

fn parse_update(data: &[u8], i: usize) -> (r: Result<(Update, usize), DecodeError>)
    requires
        i <= data@.len(),
    ensures
        ({
            let tail = data@.subrange(i as int, data@.len() as int);
            match r {
                Ok(un) => spec_parse_update(tail) == Ok::<(UpdateV, int), DecodeError>(
                    (un.0@, un.1 as int),
                ) && 1 <= un.1 && i + un.1 <= data@.len(),
                Err(e) => spec_parse_update(tail) == Err::<(UpdateV, int), DecodeError>(e),
            }
        }),
{
    let n = data.len();
    let ghost tail = data@.subrange(i as int, n as int);
    if n - i < 1 {
        return Err(DecodeError::Truncated);
    }
    let tag = *slice_index_get(data, i);
    assert(tail[0] == tag);
    if tag == TAG_ENTITY_ALIVE {
        if n - i < 29 {
            return Err(DecodeError::Truncated);
        }
        let identity = u64_from_le_bytes(slice_subrange(data, i + 1, i + 9));
        let location = read_point(data, i + 9);
        let alen = u64_from_le_bytes(slice_subrange(data, i + 21, i + 29));
        proof {
            assert(tail.subrange(1, 9) =~= data@.subrange(i + 1, i + 9));
            assert(tail.subrange(9, 21) =~= data@.subrange(i + 9, i + 9 + 12));
            assert(tail.subrange(21, 29) =~= data@.subrange(i + 21, i + 29));
        }
        let rem = n - (i + 29);
        if alen > rem as u64 {
            return Err(DecodeError::Truncated);
        }
        let alen_us = alen as usize;
        let sb = slice_subrange(data, i + 29, i + 29 + alen_us);
        proof {
            assert(tail.subrange(29, 29 + alen as int) =~= data@.subrange(
                i + 29,
                i + 29 + alen as int,
            ));
        }
        match utf8_to_string(sb) {
            Some(appearance) => Ok(
                (Update::EntityAlive { identity, location, appearance }, 29 + alen_us),
            ),
            None => Err(DecodeError::BadUtf8),
        }
    } else if tag == TAG_ENTITY_DEAD {
        if n - i < 9 {
            return Err(DecodeError::Truncated);
        }
        let identity = u64_from_le_bytes(slice_subrange(data, i + 1, i + 9));
        proof {
            assert(tail.subrange(1, 9) =~= data@.subrange(i + 1, i + 9));
        }
        Ok((Update::EntityDead { identity }, 9))
    } else {
        Err(DecodeError::UnknownTag)
    }
}

/// Decode one datagram payload as a snapshot message. A decode error means
/// the whole datagram is rejected; no prefix of it is handed to the caller.
pub fn decode_client_message(data: &[u8]) -> (r: Result<ClientMessage, DecodeError>)
    ensures
        match r {
            Ok(m) => spec_decode_message(data@) == Ok::<Seq<UpdateV>, DecodeError>(m@),
            Err(e) => spec_decode_message(data@) == Err::<Seq<UpdateV>, DecodeError>(e),
        },
{
    let n = data.len();
    let mut updates: Vec<Update> = Vec::new();
    let mut i: usize = 0;
    proof {
        assert(data@.subrange(0, n as int) =~= data@);
        match spec_decode_message(data@) {
            Ok(rest) => {
                assert(updates_view(updates@) + rest =~= rest);
            },
            Err(_) => {},
        }
    }
    while i < n
        invariant
            i <= n,
            n == data@.len(),
            ({
                let tail = spec_decode_message(data@.subrange(i as int, n as int));
                &&& (tail matches Ok(rest) ==> spec_decode_message(data@) == Ok::<
                    Seq<UpdateV>,
                    DecodeError,
                >(updates_view(updates@) + rest))
                &&& (tail matches Err(e) ==> spec_decode_message(data@) == Err::<
                    Seq<UpdateV>,
                    DecodeError,
                >(e))
            }),
        decreases n - i,
    {
        let ghost suffix = data@.subrange(i as int, n as int);
        match parse_update(data, i) {
            Err(e) => {
                return Err(e);
            },
            Ok((u, cnt)) => {
                proof {
                    let suffix2 = data@.subrange(i + cnt as int, n as int);
                    assert(suffix.subrange(cnt as int, suffix.len() as int) =~= suffix2);
                    match spec_decode_message(suffix2) {
                        Ok(rest2) => {
                            assert(spec_decode_message(suffix) == Ok::<Seq<UpdateV>, DecodeError>(
                                seq![u@] + rest2,
                            ));
                            assert(updates_view(updates@.push(u)) =~= updates_view(updates@)
                                + seq![u@]);
                            assert(updates_view(updates@) + (seq![u@] + rest2) =~= (updates_view(
                                updates@,
                            ) + seq![u@]) + rest2);
                        },
                        Err(_) => {},
                    }
                }
                updates.push(u);
                i = i + cnt;
            },
        }
    }
    proof {
        assert(data@.subrange(n as int, n as int) =~= Seq::<u8>::empty());
        assert(updates_view(updates@) + Seq::<UpdateV>::empty() =~= updates_view(updates@));
    }
    Ok(ClientMessage { updates })
}

/// Parsing an encoded update from the front of any buffer gives the update
/// back and consumes exactly its encoding.
proof fn lemma_parse_encode_update(u: UpdateV, rest: Seq<u8>)
    requires
        update_wire_valid(u),
    ensures
        spec_parse_update(spec_encode_update(u) + rest) == Ok::<(UpdateV, int), DecodeError>(
            (u, spec_encode_update(u).len() as int),
        ),
{
    lemma_auto_spec_u64_to_from_le_bytes();
    let b = spec_encode_update(u) + rest;
    match u {
        UpdateV::Alive { identity, location, appearance } => {
            let sb = encode_utf8(appearance);
            let el = sb.len() as int;
            lemma_point_round_trip(location);
            assert(spec_encode_update(u).len() == 29 + el);
            assert(b[0] == TAG_ENTITY_ALIVE);
            assert(b.subrange(1, 9) =~= spec_u64_to_le_bytes(identity));
            assert(b.subrange(9, 21) =~= spec_encode_point(location));
            assert(b.subrange(21, 29) =~= spec_u64_to_le_bytes(sb.len() as u64));
            assert(b.subrange(29, 29 + el) =~= sb);
            encode_utf8_valid_utf8(appearance);
            encode_utf8_decode_utf8(appearance);
        },
        UpdateV::Dead { identity } => {
            assert(spec_encode_update(u).len() == 9);
            assert(b[0] == TAG_ENTITY_DEAD);
            assert(b.subrange(1, 9) =~= spec_u64_to_le_bytes(identity));
        },
    }
}

/// Round trip for snapshot messages: decoding an encoded message gives the
/// same sequence of update values back, for every message whose appearance
/// strings fit the wire format.
pub proof fn lemma_client_message_round_trip(s: Seq<UpdateV>)
    requires
        forall|i: int| 0 <= i < s.len() ==> update_wire_valid(#[trigger] s[i]),
    ensures
        spec_decode_message(spec_encode_message(s)) == Ok::<Seq<UpdateV>, DecodeError>(s),
    decreases s.len(),
{
    lemma_auto_spec_u64_to_from_le_bytes();
    if s.len() == 0 {
        assert(s =~= Seq::<UpdateV>::empty());
    } else {
        let head = s[0];
        let rest = s.drop_first();
        lemma_parse_encode_update(head, spec_encode_message(rest));
        lemma_client_message_round_trip(rest);
        let b = spec_encode_message(s);
        let cnt = spec_encode_update(head).len() as int;
        assert(b == spec_encode_update(head) + spec_encode_message(rest));
        assert(1 <= cnt <= b.len());
        assert(b.subrange(cnt, b.len() as int) =~= spec_encode_message(rest));
        assert(seq![head] + rest =~= s);
    }
}

} // verus!
