use raft_core::replica::Raft;
use raft_core::wire::{
    AppendEntryRequest, AppendEntryResponse, Request, Response, VoteRequest, VoteResponse,
};

fn roundtrip_request(req: Request) -> Request {
    let frame = Raft::serialize_request(req);
    assert_eq!(frame.len(), 32);
    Raft::deserialize_request(&frame)
}

fn roundtrip_response(res: Response) -> Response {
    let frame = Raft::serialize_response(res);
    assert_eq!(frame.len(), 32);
    Raft::deserialize_response(&frame)
}

#[test]
fn append_request_roundtrip() {
    let req = Request::A(AppendEntryRequest {
        id: 2,
        term: 7,
        prev_log_index: 3,
        prev_log_term: 6,
        entry: Some((7, 0xdead_beef)),
        commit_index: 2,
    });
    assert_eq!(roundtrip_request(req), req);
}

#[test]
fn append_request_roundtrip_no_entry() {
    let req = Request::A(AppendEntryRequest {
        id: 0,
        term: 1,
        prev_log_index: 0,
        prev_log_term: 0,
        entry: None,
        commit_index: 0,
    });
    assert_eq!(roundtrip_request(req), req);
}

#[test]
fn vote_request_roundtrip() {
    let req = Request::V(VoteRequest { id: 4, term: 9, last_log_index: 11, last_log_term: 8 });
    assert_eq!(roundtrip_request(req), req);
}

#[test]
fn append_response_roundtrip() {
    for success in [false, true] {
        let res = Response::A(AppendEntryResponse { id: 3, term: 5, success, match_index: 12 });
        assert_eq!(roundtrip_response(res), res);
    }
}

#[test]
fn vote_response_roundtrip() {
    for granted in [false, true] {
        let res = Response::V(VoteResponse { id: 1, term: 6, granted });
        assert_eq!(roundtrip_response(res), res);
    }
}

#[test]
fn append_request_wire_layout() {
    let req = Request::A(AppendEntryRequest {
        id: 1,
        term: 2,
        prev_log_index: 3,
        prev_log_term: 4,
        entry: Some((5, 6)),
        commit_index: 7,
    });
    let frame = Raft::serialize_request(req);
    let expected: Vec<u8> = vec![
        0xff, 0xff, 0xff, 0xff, // tag
        0, 0, 0, 1, // id
        0, 0, 0, 2, // term
        0, 0, 0, 3, // prev_log_index
        0, 0, 0, 4, // prev_log_term
        0, 0, 0, 7, // commit_index
        0, 0, 0, 5, // entry term
        0, 0, 0, 6, // entry value
    ];
    assert_eq!(frame, expected);
}

#[test]
fn vote_request_wire_layout() {
    let req = Request::V(VoteRequest { id: 4, term: 6, last_log_index: 1, last_log_term: 5 });
    let frame = Raft::serialize_request(req);
    let mut expected: Vec<u8> = vec![0, 0, 0, 0, 0, 0, 0, 4, 0, 0, 0, 6, 0, 0, 0, 1, 0, 0, 0, 5];
    for _ in 0..12 {
        expected.push(0u8);
    }
    assert_eq!(frame, expected);
}

#[test]
fn response_pads_are_fixed() {
    let a = Raft::serialize_response(Response::A(AppendEntryResponse {
        id: 0,
        term: 1,
        success: true,
        match_index: 1,
    }));
    assert_eq!(&a[12..16], &[0xff, 0xff, 0xff, 0xff]);
    assert_eq!(&a[20..32], &[0xff; 12]);
    let v = Raft::serialize_response(Response::V(VoteResponse { id: 0, term: 1, granted: false }));
    assert_eq!(&v[12..32], &[0x00; 20]);
}

#[test]
fn entry_term_zero_reads_back_as_no_entry() {
    // The wire format cannot tell an entry with term 0 from "no entry";
    // real entries always carry term >= 1.
    let req = Request::A(AppendEntryRequest {
        id: 1,
        term: 2,
        prev_log_index: 0,
        prev_log_term: 0,
        entry: Some((0, 9)),
        commit_index: 0,
    });
    let back = roundtrip_request(req);
    match back {
        Request::A(a) => assert_eq!(a.entry, None),
        Request::V(_) => panic!("tag changed"),
    }
}

#[test]
fn concat_flattens_eight_words() {
    let out = Raft::concat_u8_4_8_arrays([
        [0, 1, 2, 3],
        [4, 5, 6, 7],
        [8, 9, 10, 11],
        [12, 13, 14, 15],
        [16, 17, 18, 19],
        [20, 21, 22, 23],
        [24, 25, 26, 27],
        [28, 29, 30, 31],
    ]);
    let mut expected: Vec<u8> = Vec::new();
    for b in 0u8..32 {
        expected.push(b);
    }
    assert_eq!(out, expected);
}

#[test]
fn extreme_field_values_roundtrip() {
    let req = Request::A(AppendEntryRequest {
        id: 0xffff_ffff,
        term: u32::MAX,
        prev_log_index: 0xffff_ffff,
        prev_log_term: u32::MAX,
        entry: Some((u32::MAX, u32::MAX)),
        commit_index: 0xffff_ffff,
    });
    assert_eq!(roundtrip_request(req), req);
    let res = Response::V(VoteResponse { id: 0xffff_ffff, term: u32::MAX, granted: true });
    assert_eq!(roundtrip_response(res), res);
}

#[test]
fn get_addr_formats_base_port_plus_id() {
    assert_eq!(Raft::get_addr(0), "127.0.0.1:7890");
    assert_eq!(Raft::get_addr(4), "127.0.0.1:7894");
}
