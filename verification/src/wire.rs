//! Wire entities and the fixed 32-byte frame format.
//!
//! Every RPC travels as exactly 32 bytes. All integer fields are 32-bit
//! big-endian words; a boolean is four 0xFF bytes (true) or four 0x00 bytes
//! (false). The first word is a tag: 0xFFFFFFFF for AppendEntries frames and
//! 0x00000000 for vote frames.

use vstd::prelude::*;

verus! {

/// AppendEntries RPC request (also a heartbeat when `entry` is `None`).
#[derive(Debug, Clone, Copy, PartialEq, Eq)]
pub struct AppendEntryRequest {
    pub id: usize,
    pub term: u32,
    pub prev_log_index: usize,
    pub prev_log_term: u32,
    pub entry: Option<(u32, u32)>,
    pub commit_index: usize,
}

/// AppendEntries RPC response.
#[derive(Debug, Clone, Copy, PartialEq, Eq)]
pub struct AppendEntryResponse {
    pub id: usize,
    pub term: u32,
    pub success: bool,
    pub match_index: usize,
}

/// RequestVote RPC request.
#[derive(Debug, Clone, Copy, PartialEq, Eq)]
pub struct VoteRequest {
    pub id: usize,
    pub term: u32,
    pub last_log_index: usize,
    pub last_log_term: u32,
}

/// RequestVote RPC response.
#[derive(Debug, Clone, Copy, PartialEq, Eq)]
pub struct VoteResponse {
    pub id: usize,
    pub term: u32,
    pub granted: bool,
}

/// Either request kind, as decoded from one inbound frame.
#[derive(Debug, Clone, Copy, PartialEq, Eq)]
pub enum Request {
    A(AppendEntryRequest),
    V(VoteRequest),
}

/// Either response kind, as decoded from one inbound frame.
#[derive(Debug, Clone, Copy, PartialEq, Eq)]
pub enum Response {
    A(AppendEntryResponse),
    V(VoteResponse),
}

/// The four big-endian bytes of a 32-bit word.
pub open spec fn be_bytes(x: u32) -> Seq<u8> {
    seq![
        (x >> 24u32) as u8,
        ((x >> 16u32) & 0xff) as u8,
        ((x >> 8u32) & 0xff) as u8,
        (x & 0xff) as u8,
    ]
}

/// The 32-bit word read from four big-endian bytes.
pub open spec fn word_of(b0: u8, b1: u8, b2: u8, b3: u8) -> u32 {
    ((b0 as u32) << 24u32) | ((b1 as u32) << 16u32) | ((b2 as u32) << 8u32) | (b3 as u32)
}

/// Reading back the four big-endian bytes of a word yields the word.
pub proof fn lemma_word_of_be_bytes(x: u32)
    ensures
        word_of(be_bytes(x)[0], be_bytes(x)[1], be_bytes(x)[2], be_bytes(x)[3]) == x,
{
    assert((((x >> 24u32) as u8) as u32) << 24u32
        | ((((x >> 16u32) & 0xff) as u8) as u32) << 16u32
        | ((((x >> 8u32) & 0xff) as u8) as u32) << 8u32
        | (((x & 0xff) as u8) as u32) == x) by (bit_vector);
}

/// Encoding the word read from four bytes yields the same four bytes.
pub proof fn lemma_be_bytes_word_of(b0: u8, b1: u8, b2: u8, b3: u8)
    ensures
        be_bytes(word_of(b0, b1, b2, b3)) == seq![b0, b1, b2, b3],
{
    let w = word_of(b0, b1, b2, b3);
    assert(((((b0 as u32) << 24u32 | (b1 as u32) << 16u32 | (b2 as u32) << 8u32 | (b3 as u32))
        >> 24u32) as u8) == b0) by (bit_vector);
    assert(((((b0 as u32) << 24u32 | (b1 as u32) << 16u32 | (b2 as u32) << 8u32 | (b3 as u32))
        >> 16u32) & 0xff) as u8 == b1) by (bit_vector);
    assert(((((b0 as u32) << 24u32 | (b1 as u32) << 16u32 | (b2 as u32) << 8u32 | (b3 as u32))
        >> 8u32) & 0xff) as u8 == b2) by (bit_vector);
    assert((((b0 as u32) << 24u32 | (b1 as u32) << 16u32 | (b2 as u32) << 8u32 | (b3 as u32))
        & 0xff) as u8 == b3) by (bit_vector);
    assert(be_bytes(w) =~= seq![b0, b1, b2, b3]);
}

/// A word is zero exactly when all four of its big-endian bytes are zero.
pub proof fn lemma_word_zero(b0: u8, b1: u8, b2: u8, b3: u8)
    ensures
        word_of(b0, b1, b2, b3) == 0 <==> (b0 == 0 && b1 == 0 && b2 == 0 && b3 == 0),
{
    assert(((b0 as u32) << 24u32 | (b1 as u32) << 16u32 | (b2 as u32) << 8u32 | (b3 as u32)) == 0
        <==> (b0 == 0 && b1 == 0 && b2 == 0 && b3 == 0)) by (bit_vector);
}

/// The four big-endian bytes of a word, as a little executable step of the
/// frame encoder.
pub fn u32_to_be(x: u32) -> (r: [u8; 4])
    ensures
        r@ == be_bytes(x),
{
    let r: [u8; 4] = [
        (x >> 24u32) as u8,
        ((x >> 16u32) & 0xff) as u8,
        ((x >> 8u32) & 0xff) as u8,
        (x & 0xff) as u8,
    ];
    assert(r@ =~= be_bytes(x));
    r
}

/// The 32-bit word read from four big-endian bytes, as a little executable
/// step of the frame decoder.
pub fn u32_from_be(b0: u8, b1: u8, b2: u8, b3: u8) -> (r: u32)
    ensures
        r == word_of(b0, b1, b2, b3),
{
    ((b0 as u32) << 24u32) | ((b1 as u32) << 16u32) | ((b2 as u32) << 8u32) | (b3 as u32)
}

/// Appends one four-byte word to a frame under construction.
pub(crate) fn push_word(r: &mut Vec<u8>, w: [u8; 4])
    ensures
        final(r)@ == old(r)@ + w@,
{
    r.push(w[0]);
    r.push(w[1]);
    r.push(w[2]);
    r.push(w[3]);
    assert(r@ =~= old(r)@ + w@);
}

/// A frame as the concatenation of its eight words.
pub open spec fn frame_of(
    w0: Seq<u8>,
    w1: Seq<u8>,
    w2: Seq<u8>,
    w3: Seq<u8>,
    w4: Seq<u8>,
    w5: Seq<u8>,
    w6: Seq<u8>,
    w7: Seq<u8>,
) -> Seq<u8> {
    w0 + w1 + w2 + w3 + w4 + w5 + w6 + w7
}

/// Four zero bytes: the zero pad word and the "no entry" sentinel.
pub open spec fn zero_word() -> Seq<u8> {
    seq![0u8, 0u8, 0u8, 0u8]
}

/// Four 0xFF bytes: the AppendEntries tag, the true encoding, and the
/// AppendEntries response pad word.
pub open spec fn ones_word() -> Seq<u8> {
    seq![0xffu8, 0xffu8, 0xffu8, 0xffu8]
}

/// The frame encoding of a request, as the encoder writes it. A `usize` field
/// is sent as its low 32 bits, mirroring the encoder's cast.
pub open spec fn spec_serialize_request(req: Request) -> Seq<u8> {
    match req {
        Request::A(a) => frame_of(
            ones_word(),
            be_bytes(a.id as u32),
            be_bytes(a.term),
            be_bytes(a.prev_log_index as u32),
            be_bytes(a.prev_log_term),
            be_bytes(a.commit_index as u32),
            match a.entry {
                Some(e) => be_bytes(e.0),
                None => zero_word(),
            },
            match a.entry {
                Some(e) => be_bytes(e.1),
                None => zero_word(),
            },
        ),
        Request::V(v) => frame_of(
            zero_word(),
            be_bytes(v.id as u32),
            be_bytes(v.term),
            be_bytes(v.last_log_index as u32),
            be_bytes(v.last_log_term),
            zero_word(),
            zero_word(),
            zero_word(),
        ),
    }
}

/// The frame encoding of a response, as the encoder writes it.
pub open spec fn spec_serialize_response(res: Response) -> Seq<u8> {
    match res {
        Response::A(a) => frame_of(
            ones_word(),
            be_bytes(a.id as u32),
            be_bytes(a.term),
            if a.success {
                ones_word()
            } else {
                zero_word()
            },
            be_bytes(a.match_index as u32),
            ones_word(),
            ones_word(),
            ones_word(),
        ),
        Response::V(v) => frame_of(
            zero_word(),
            be_bytes(v.id as u32),
            be_bytes(v.term),
            if v.granted {
                ones_word()
            } else {
                zero_word()
            },
            zero_word(),
            zero_word(),
            zero_word(),
            zero_word(),
        ),
    }
}

/// The request a 32-byte frame decodes to. The decode is tolerant: the first
/// byte alone picks the variant, and bytes 24..28 all zero mean "no entry".
pub open spec fn spec_deserialize_request(b: Seq<u8>) -> Request
    recommends
        b.len() == 32,
{
    if b[0] == 0xff {
        Request::A(
            AppendEntryRequest {
                id: word_of(b[4], b[5], b[6], b[7]) as usize,
                term: word_of(b[8], b[9], b[10], b[11]),
                prev_log_index: word_of(b[12], b[13], b[14], b[15]) as usize,
                prev_log_term: word_of(b[16], b[17], b[18], b[19]),
                commit_index: word_of(b[20], b[21], b[22], b[23]) as usize,
                entry: if !(b[24] == 0 && b[25] == 0 && b[26] == 0 && b[27] == 0) {
                    Some(
                        (word_of(b[24], b[25], b[26], b[27]), word_of(b[28], b[29], b[30], b[31])),
                    )
                } else {
                    None
                },
            },
        )
    } else {
        Request::V(
            VoteRequest {
                id: word_of(b[4], b[5], b[6], b[7]) as usize,
                term: word_of(b[8], b[9], b[10], b[11]),
                last_log_index: word_of(b[12], b[13], b[14], b[15]) as usize,
                last_log_term: word_of(b[16], b[17], b[18], b[19]),
            },
        )
    }
}

/// The response a 32-byte frame decodes to. Booleans are read from their first
/// byte alone.
pub open spec fn spec_deserialize_response(b: Seq<u8>) -> Response
    recommends
        b.len() == 32,
{
    if b[0] == 0xff {
        Response::A(
            AppendEntryResponse {
                id: word_of(b[4], b[5], b[6], b[7]) as usize,
                term: word_of(b[8], b[9], b[10], b[11]),
                success: b[12] == 0xff,
                match_index: word_of(b[16], b[17], b[18], b[19]) as usize,
            },
        )
    } else {
        Response::V(
            VoteResponse {
                id: word_of(b[4], b[5], b[6], b[7]) as usize,
                term: word_of(b[8], b[9], b[10], b[11]),
                granted: b[12] == 0xff,
            },
        )
    }
}

/// A request round-trips through the wire exactly when its index fields fit in
/// 32 bits and an attached entry does not use the ambiguous term 0, which the
/// frame cannot tell apart from "no entry".
pub open spec fn request_unambiguous(req: Request) -> bool {
    match req {
        Request::A(a) => {
            &&& a.id <= u32::MAX
            &&& a.prev_log_index <= u32::MAX
            &&& a.commit_index <= u32::MAX
            &&& (a.entry matches Some(e) ==> e.0 != 0)
        },
        Request::V(v) => v.id <= u32::MAX && v.last_log_index <= u32::MAX,
    }
}

/// A response round-trips through the wire exactly when its index fields fit
/// in 32 bits.
pub open spec fn response_unambiguous(res: Response) -> bool {
    match res {
        Response::A(a) => a.id <= u32::MAX && a.match_index <= u32::MAX,
        Response::V(v) => v.id <= u32::MAX,
    }
}

/// Wire round-trip, decoder after encoder: decoding the frame written for an
/// unambiguous request yields that request back.
pub proof fn lemma_request_round_trip(req: Request)
    requires
        request_unambiguous(req),
    ensures
        spec_deserialize_request(spec_serialize_request(req)) == req,
{
    let b = spec_serialize_request(req);
    match req {
        Request::A(a) => {
            lemma_word_of_be_bytes(a.id as u32);
            lemma_word_of_be_bytes(a.term);
            lemma_word_of_be_bytes(a.prev_log_index as u32);
            lemma_word_of_be_bytes(a.prev_log_term);
            lemma_word_of_be_bytes(a.commit_index as u32);
            match a.entry {
                Some(e) => {
                    lemma_word_of_be_bytes(e.0);
                    lemma_word_of_be_bytes(e.1);
                    lemma_word_zero(b[24], b[25], b[26], b[27]);
                },
                None => {},
            }
        },
        Request::V(v) => {
            lemma_word_of_be_bytes(v.id as u32);
            lemma_word_of_be_bytes(v.term);
            lemma_word_of_be_bytes(v.last_log_index as u32);
            lemma_word_of_be_bytes(v.last_log_term);
        },
    }
}

/// Wire round-trip, decoder after encoder, for responses.
pub proof fn lemma_response_round_trip(res: Response)
    requires
        response_unambiguous(res),
    ensures
        spec_deserialize_response(spec_serialize_response(res)) == res,
{
    match res {
        Response::A(a) => {
            lemma_word_of_be_bytes(a.id as u32);
            lemma_word_of_be_bytes(a.term);
            lemma_word_of_be_bytes(a.match_index as u32);
        },
        Response::V(v) => {
            lemma_word_of_be_bytes(v.id as u32);
            lemma_word_of_be_bytes(v.term);
        },
    }
}

/// A request frame the encoder could have written: the tag word is uniform,
/// and a frame carrying no entry has zero bytes through its tail.
pub open spec fn wf_request_frame(b: Seq<u8>) -> bool {
    &&& b.len() == 32
    &&& if b[0] == 0xff {
        &&& b[1] == 0xff && b[2] == 0xff && b[3] == 0xff
        &&& ((b[24] == 0 && b[25] == 0 && b[26] == 0 && b[27] == 0) ==> (b[28] == 0 && b[29] == 0
            && b[30] == 0 && b[31] == 0))
    } else {
        &&& b[0] == 0 && b[1] == 0 && b[2] == 0 && b[3] == 0
        &&& forall|i: int| 20 <= i < 32 ==> b[i] == 0
    }
}

/// A response frame the encoder could have written: uniform tag and boolean
/// words, and the pad bytes the encoder fills.
pub open spec fn wf_response_frame(b: Seq<u8>) -> bool {
    &&& b.len() == 32
    &&& if b[0] == 0xff {
        &&& b[1] == 0xff && b[2] == 0xff && b[3] == 0xff
        &&& ((b[12] == 0xff && b[13] == 0xff && b[14] == 0xff && b[15] == 0xff) || (b[12] == 0
            && b[13] == 0 && b[14] == 0 && b[15] == 0))
        &&& forall|i: int| 20 <= i < 32 ==> b[i] == 0xff
    } else {
        &&& b[0] == 0 && b[1] == 0 && b[2] == 0 && b[3] == 0
        &&& ((b[12] == 0xff && b[13] == 0xff && b[14] == 0xff && b[15] == 0xff) || (b[12] == 0
            && b[13] == 0 && b[14] == 0 && b[15] == 0))
        &&& forall|i: int| 16 <= i < 32 ==> b[i] == 0
    }
}

/// Wire round-trip, encoder after decoder: a well-formed request frame is
/// written back byte for byte.
pub proof fn lemma_request_frame_round_trip(b: Seq<u8>)
    requires
        wf_request_frame(b),
    ensures
        spec_serialize_request(spec_deserialize_request(b)) == b,
{
    lemma_be_bytes_word_of(b[4], b[5], b[6], b[7]);
    lemma_be_bytes_word_of(b[8], b[9], b[10], b[11]);
    lemma_be_bytes_word_of(b[12], b[13], b[14], b[15]);
    lemma_be_bytes_word_of(b[16], b[17], b[18], b[19]);
    lemma_be_bytes_word_of(b[20], b[21], b[22], b[23]);
    lemma_be_bytes_word_of(b[24], b[25], b[26], b[27]);
    lemma_be_bytes_word_of(b[28], b[29], b[30], b[31]);
    assert(spec_serialize_request(spec_deserialize_request(b)) =~= b);
}

/// Wire round-trip, encoder after decoder, for responses.
pub proof fn lemma_response_frame_round_trip(b: Seq<u8>)
    requires
        wf_response_frame(b),
    ensures
        spec_serialize_response(spec_deserialize_response(b)) == b,
{
    lemma_be_bytes_word_of(b[4], b[5], b[6], b[7]);
    lemma_be_bytes_word_of(b[8], b[9], b[10], b[11]);
    lemma_be_bytes_word_of(b[16], b[17], b[18], b[19]);
    assert(spec_serialize_response(spec_deserialize_response(b)) =~= b);
}

} // verus!
