use vstd::prelude::*;
use vstd::string::StringSliceAdditionalSpecFns;

use crate::bytes::{extend, line_of, trim_line, NEWLINE};

verus! {

/// Tag of a replication frame that carries a new entry.
pub const NEW_LOG_MESSAGE_TYPE: u8 = 1;

/// Byte of the comma that parts peer addresses.
pub const COMMA: u8 = 44;

/// A message between nodes.
#[derive(Debug, Clone)]
pub enum Message {
    /// An entry newly stored on the sending node.
    NewLog(Vec<u8>),
}

/// A replication frame read from a peer.
#[derive(Debug)]
pub enum ClusterFrame {
    /// Nothing was read: the peer closed the link.
    End,
    /// A new entry to store.
    NewLog(Vec<u8>),
    /// A frame with a tag that is not known.
    Unknown(u8),
}

/// The frame that carries entry `data`: its tag, the entry, a line feed.
pub open spec fn new_log_frame(data: Seq<u8>) -> Seq<u8> {
    seq![NEW_LOG_MESSAGE_TYPE] + data + seq![NEWLINE]
}

/// The bytes that carry `msg` to a peer.
pub fn encode_message(msg: &Message) -> (r: Vec<u8>)
    ensures
        msg matches Message::NewLog(d) ==> r@ == new_log_frame(d@),
{
    match msg {
        Message::NewLog(data) => {
            let mut r: Vec<u8> = Vec::new();
            r.push(NEW_LOG_MESSAGE_TYPE);
            extend(&mut r, data.as_slice());
            r.push(NEWLINE);
            r
        },
    }
}

/// Reads one frame received from a peer: its first byte is the tag, the
/// rest up to a trailing line feed the payload.
pub fn decode_frame(frame: &[u8]) -> (r: ClusterFrame)
    ensures
        frame@.len() == 0 ==> r is End,
        frame@.len() > 0 && frame@[0] == NEW_LOG_MESSAGE_TYPE ==> (r matches ClusterFrame::NewLog(
            d,
        ) && d@ == line_of(frame@.drop_first())),
        frame@.len() > 0 && frame@[0] != NEW_LOG_MESSAGE_TYPE ==> r == ClusterFrame::Unknown(
            frame@[0],
        ),
{
    if frame.len() == 0 {
        return ClusterFrame::End;
    }
    if frame[0] != NEW_LOG_MESSAGE_TYPE {
        return ClusterFrame::Unknown(frame[0]);
    }
    let rest = vstd::slice::slice_subrange(frame, 1, frame.len());
    assert(rest@ =~= frame@.drop_first());
    ClusterFrame::NewLog(trim_line(rest))
}

/// A frame that carries an entry reads back as that entry: encoding then
/// decoding is the identity on payloads.
pub proof fn lemma_frame_round_trip(data: Seq<u8>)
    ensures
        new_log_frame(data).len() > 0,
        new_log_frame(data)[0] == NEW_LOG_MESSAGE_TYPE,
        line_of(new_log_frame(data).drop_first()) == data,
{
    assert(new_log_frame(data).drop_first() =~= data.push(NEWLINE));
    assert(data.push(NEWLINE).drop_last() =~= data);
}

/// The segments of `s` between commas that are not empty, and the segment
/// after the last comma.
pub open spec fn segments(s: Seq<u8>) -> (Seq<Seq<u8>>, Seq<u8>)
    decreases s.len(),
{
    if s.len() == 0 {
        (seq![], seq![])
    } else {
        let (done, cur) = segments(s.drop_last());
        if s.last() == COMMA {
            if cur.len() > 0 {
                (done.push(cur), seq![])
            } else {
                (done, seq![])
            }
        } else {
            (done, cur.push(s.last()))
        }
    }
}

/// The peer addresses of a comma-separated list, empty ones left out.
pub open spec fn peer_list(s: Seq<u8>) -> Seq<Seq<u8>> {
    let (done, cur) = segments(s);
    if cur.len() > 0 {
        done.push(cur)
    } else {
        done
    }
}

/// The peer addresses of comma-separated list `addrs`, in order, empty ones
/// left out.
pub fn peer_addresses(addrs: &str) -> (r: Vec<Vec<u8>>)
    ensures
        r@.map_values(|a: Vec<u8>| a@) == peer_list(addrs.spec_bytes()),
{
    let s = addrs.as_bytes();
    let mut done: Vec<Vec<u8>> = Vec::new();
    let mut cur: Vec<u8> = Vec::new();
    let mut i: usize = 0;
    while i < s.len()
        invariant
            0 <= i <= s@.len(),
            (done@.map_values(|a: Vec<u8>| a@), cur@) == segments(s@.subrange(0, i as int)),
        decreases s@.len() - i,
    {
        assert(s@.subrange(0, i + 1).drop_last() =~= s@.subrange(0, i as int));
        if s[i] == COMMA {
            if cur.len() > 0 {
                let ghost prev = done@.map_values(|a: Vec<u8>| a@);
                let ghost c = cur@;
                done.push(cur);
                assert(done@.map_values(|a: Vec<u8>| a@) =~= prev.push(c));
            }
            cur = Vec::new();
        } else {
            cur.push(s[i]);
        }
        i = i + 1;
    }
    assert(s@.subrange(0, s@.len() as int) =~= s@);
    if cur.len() > 0 {
        let ghost prev = done@.map_values(|a: Vec<u8>| a@);
        let ghost c = cur@;
        done.push(cur);
        assert(done@.map_values(|a: Vec<u8>| a@) =~= prev.push(c));
    }
    done
}

} // verus!
