//! Splitting one inbound run of bytes into frames: `varint(length)`, then
//! `varint(id)` and the payload, where `length` counts the id's bytes and the
//! payload's. A frame that reaches past the run is a desync, not a wait.
use vstd::prelude::*;
use crate::data_reader::DataReader;
use crate::data_writer::DataWriter;
use crate::wire::{
    lemma_varint_round_trip, parse_var, parse_varint, varint_bytes, VARINT_MAX_BYTES,
};

verus! {

/// One frame: its packet id and its payload, borrowed from the run.
pub struct RawPacket<'a> {
    pub id: i32,
    pub data: &'a [u8],
}

impl<'a> RawPacket<'a> {
    pub open spec fn view(&self) -> (i32, Seq<u8>) {
        (self.id, self.data@)
    }

    pub fn get_reader(&self) -> (r: DataReader<'a>)
        ensures
            r.data@ == self.data@,
            r.cursor == 0,
            r.rest() == self.data@,
    {
        DataReader::new(self.data)
    }
}

pub proof fn lemma_parse_var_len(s: Seq<u8>, max: nat)
    ensures
        parse_var(s, max) matches Ok((v, l)) ==> 1 <= l <= max && l <= s.len(),
    decreases max,
{
    if max > 0 && s.len() > 0 && s[0] >= 128 {
        lemma_parse_var_len(s.drop_first(), (max - 1) as nat);
    }
}

/// The frame at the front of `s`: its id, its payload and its size in
/// bytes, header included; `None` where the header is malformed or the frame
/// reaches past the end of `s`.
pub open spec fn parse_frame(s: Seq<u8>) -> Option<(i32, Seq<u8>, nat)> {
    match parse_varint(s) {
        Err(_) => None,
        Ok((length, l1)) => match parse_varint(s.skip(l1 as int)) {
            Err(_) => None,
            Ok((id, l2)) => if length < l2 || l1 + length > s.len() {
                None
            } else {
                Some((id, s.subrange((l1 + l2) as int, l1 + length), (l1 + length) as nat))
            },
        },
    }
}

/// All the frames of `s`, in order; `None` if any of them is malformed.
pub open spec fn parse_frames(s: Seq<u8>) -> Option<Seq<(i32, Seq<u8>)>>
    decreases s.len(),
{
    if s.len() == 0 {
        Some(Seq::empty())
    } else {
        match parse_frame(s) {
            None => None,
            Some((id, payload, n)) => {
                proof {
                    lemma_parse_var_len(s, VARINT_MAX_BYTES as nat);
                }
                match parse_frames(s.skip(n as int)) {
                    None => None,
                    Some(rest) => Some(seq![(id, payload)] + rest),
                }
            },
        }
    }
}

/// Reads a varint from the front of `slice` and adds the number of bytes it
/// took to `index`; `index` stays as it was on failure.
pub fn read_varint(slice: &[u8], index: &mut usize) -> (r: Option<i32>)
    requires
        *old(index) + VARINT_MAX_BYTES <= usize::MAX,
    ensures
        match parse_varint(slice@) {
            Ok((v, l)) => r == Some(v) && *final(index) == *old(index) + l,
            Err(_) => r is None && *final(index) == *old(index),
        },
{
    let mut reader = DataReader::new(slice);
    match reader.read_varint() {
        Ok(v) => {
            proof {
                lemma_parse_var_len(slice@, VARINT_MAX_BYTES as nat);
            }
            *index = *index + reader.cursor;
            Some(v)
        },
        Err(_) => None,
    }
}

/// The frame that starts at `start`, with its size.
fn read_frame<'a>(data: &'a [u8], start: usize) -> (r: Option<(RawPacket<'a>, usize)>)
    requires
        start <= data@.len(),
    ensures
        match parse_frame(data@.skip(start as int)) {
            None => r is None,
            Some((id, payload, n)) => r matches Some((p, m)) && p.id == id && p.data@ == payload
                && m == n,
        },
{
    let ghost s = data@.skip(start as int);
    let mut reader = DataReader::new_on_cursor(data, start);
    assert(reader.rest() =~= s);
    let length = match reader.read_varint() {
        Ok(v) => v,
        Err(_) => return None,
    };
    let after_length = reader.cursor;
    proof {
        lemma_parse_var_len(s, VARINT_MAX_BYTES as nat);
        assert(reader.rest() =~= s.skip(after_length - start));
    }
    let id = match reader.read_varint() {
        Ok(v) => v,
        Err(_) => return None,
    };
    proof {
        lemma_parse_var_len(s.skip(after_length - start), VARINT_MAX_BYTES as nat);
    }
    let l1 = after_length - start;
    let l2 = reader.cursor - after_length;
    let len = data.len();
    if length < 0 || (length as usize) < l2 || (length as usize) > len - after_length {
        return None;
    }
    let end = after_length + length as usize;
    let payload = vstd::slice::slice_subrange(data, reader.cursor, end);
    assert(payload@ =~= s.subrange(l1 + l2, l1 + length));
    Some((RawPacket { id, data: payload }, end - start))
}

/// Splits a run into its frames, in order; `None` as soon as one is
/// malformed or reaches past the end of the run.
pub fn read_packets<'a>(data: &'a [u8]) -> (r: Option<Vec<RawPacket<'a>>>)
    ensures
        match parse_frames(data@) {
            None => r is None,
            Some(fs) => r matches Some(v) && v@.len() == fs.len() && forall|i: int|
                0 <= i < fs.len() ==> (#[trigger] v@[i]).view() == fs[i],
        },
{
    let mut packets: Vec<RawPacket<'a>> = Vec::new();
    let mut index: usize = 0;
    let len = data.len();
    let ghost done: Seq<(i32, Seq<u8>)> = Seq::empty();
    assert(data@.skip(0) =~= data@);
    assert(done + Seq::<(i32, Seq<u8>)>::empty() =~= done);
    while index < len
        invariant
            len == data@.len(),
            index <= len,
            packets@.len() == done.len(),
            forall|i: int| 0 <= i < done.len() ==> (#[trigger] packets@[i]).view() == done[i],
            parse_frames(data@) == match parse_frames(data@.skip(index as int)) {
                None => None,
                Some(rest) => Some(done + rest),
            },
        decreases len - index,
    {
        let ghost s = data@.skip(index as int);
        match read_frame(data, index) {
            None => {
                assert(parse_frames(s) is None);
                return None;
            },
            Some((p, n)) => {
                proof {
                    lemma_parse_var_len(s, VARINT_MAX_BYTES as nat);
                    let ghost tail = s.skip(n as int);
                    assert(tail =~= data@.skip(index + n));
                    match parse_frames(tail) {
                        None => {},
                        Some(rest) => {
                            assert(done.push(p.view()) + rest =~= done + (seq![p.view()] + rest));
                        },
                    }
                    done = done.push(p.view());
                }
                packets.push(p);
                index = index + n;
            },
        }
    }
    assert(data@.skip(index as int) =~= Seq::<u8>::empty());
    assert(done + Seq::<(i32, Seq<u8>)>::empty() =~= done);
    Some(packets)
}

/// A frame on the wire: the body (id and payload) behind its varint length.
pub open spec fn frame_bytes(body: Seq<u8>) -> Seq<u8> {
    varint_bytes(body.len() as i32) + body
}

/// The body of a frame for packet `id` with `payload`.
pub open spec fn frame_body(id: i32, payload: Seq<u8>) -> Seq<u8> {
    varint_bytes(id) + payload
}

/// Puts the varint length in front of a frame body.
pub fn prefix_length(body: &Vec<u8>) -> (r: Vec<u8>)
    ensures
        r@ == frame_bytes(body@),
{
    let mut w = DataWriter::new();
    w.write_varint(#[verifier::truncate] (body.len() as i32));
    w.write_vec_data(body);
    w.data
}

/// A frame followed by anything splits into that frame and what follows.
pub proof fn lemma_frame_then(id: i32, payload: Seq<u8>, rest: Seq<u8>)
    requires
        frame_body(id, payload).len() <= i32::MAX,
    ensures
        parse_frame(frame_bytes(frame_body(id, payload)) + rest) == Some(
            (id, payload, frame_bytes(frame_body(id, payload)).len()),
        ),
        parse_frames(frame_bytes(frame_body(id, payload)) + rest) == match parse_frames(rest) {
            None => None,
            Some(fs) => Some(seq![(id, payload)] + fs),
        },
{
    let body = frame_body(id, payload);
    let n = body.len() as i32;
    let head = varint_bytes(n);
    let all = frame_bytes(body) + rest;
    lemma_varint_round_trip(n, body + rest);
    assert(all =~= head + (body + rest));
    let l1 = head.len();
    assert(all.skip(l1 as int) =~= varint_bytes(id) + (payload + rest));
    lemma_varint_round_trip(id, payload + rest);
    let l2 = varint_bytes(id).len();
    assert(all.subrange((l1 + l2) as int, l1 + n) =~= payload);
    assert(all.skip(l1 + n) =~= rest);
}

/// Two frames sent in one run come out as exactly those two packets, with
/// their ids and payloads, in order.
pub proof fn lemma_two_frames(id1: i32, payload1: Seq<u8>, id2: i32, payload2: Seq<u8>)
    requires
        frame_body(id1, payload1).len() <= i32::MAX,
        frame_body(id2, payload2).len() <= i32::MAX,
    ensures
        parse_frames(
            frame_bytes(frame_body(id1, payload1)) + frame_bytes(frame_body(id2, payload2)),
        ) == Some(seq![(id1, payload1), (id2, payload2)]),
{
    let f2 = frame_bytes(frame_body(id2, payload2));
    lemma_frame_then(id2, payload2, Seq::empty());
    assert(f2 + Seq::<u8>::empty() =~= f2);
    assert(parse_frames(Seq::<u8>::empty()) == Some(Seq::<(i32, Seq<u8>)>::empty()));
    lemma_frame_then(id1, payload1, f2);
    assert(seq![(id2, payload2)] + Seq::<(i32, Seq<u8>)>::empty() =~= seq![(id2, payload2)]);
    assert(seq![(id1, payload1)] + seq![(id2, payload2)] =~= seq![(id1, payload1), (id2, payload2)]);
}

/// The frames for packets `ids[i]` with `payloads[i]`, one after another.
pub open spec fn frames_concat(ids: Seq<i32>, payloads: Seq<Seq<u8>>) -> Seq<u8>
    decreases ids.len(),
{
    if ids.len() == 0 || payloads.len() == 0 {
        Seq::empty()
    } else {
        frame_bytes(frame_body(ids[0], payloads[0])) + frames_concat(
            ids.drop_first(),
            payloads.drop_first(),
        )
    }
}

/// Any number of frames sent in one run come out as exactly those packets,
/// with their ids and payloads, in order.
pub proof fn lemma_frames_in_order(ids: Seq<i32>, payloads: Seq<Seq<u8>>)
    requires
        ids.len() == payloads.len(),
        forall|i: int| 0 <= i < ids.len() ==> (#[trigger] frame_body(ids[i], payloads[i])).len() <= i32::MAX,
    ensures
        parse_frames(frames_concat(ids, payloads)) == Some(
            Seq::new(ids.len(), |i: int| (ids[i], payloads[i])),
        ),
    decreases ids.len(),
{
    if ids.len() == 0 {
        assert(Seq::new(ids.len(), |i: int| (ids[i], payloads[i])) =~= Seq::<(i32, Seq<u8>)>::empty());
    } else {
        let i2 = ids.drop_first();
        let p2 = payloads.drop_first();
        assert forall|i: int| 0 <= i < i2.len() implies (#[trigger] frame_body(i2[i], p2[i])).len()
            <= i32::MAX by {
            assert(frame_body(ids[i + 1], payloads[i + 1]).len() <= i32::MAX);
        }
        lemma_frames_in_order(i2, p2);
        assert(frame_body(ids[0], payloads[0]).len() <= i32::MAX);
        lemma_frame_then(ids[0], payloads[0], frames_concat(i2, p2));
        assert(seq![(ids[0], payloads[0])] + Seq::new(i2.len(), |i: int| (i2[i], p2[i])) =~= Seq::new(
            ids.len(),
            |i: int| (ids[i], payloads[i]),
        ));
    }
}

} // verus!
