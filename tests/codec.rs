use fxmark::fileops::{
    pack_str, CloseReq, MkdirReq, OpenReq, ReadReq, RemoveReq, Response, WriteReq, MAX_PAGE_LEN,
    MAX_PATH_LEN,
};
use fxmark::frame::{decode_frame, encode_frame, RpcError, RpcHeader, HDR_LEN, MAX_PAYLOAD};
use fxmark::opcode::OpCode;

#[test]
fn open_req_round_trip_with_trailing_bytes() {
    let req = OpenReq { path: b"file0.txt".to_vec(), flags: -7, mode: 0o700 };
    let mut bytes = req.encode();
    let len = bytes.len();
    assert_eq!(len, 12 + 9);
    bytes.extend_from_slice(&[1, 2, 3]);
    let (back, n) = OpenReq::decode(&bytes).unwrap();
    assert_eq!(n, len);
    assert_eq!(back.path, req.path);
    assert_eq!(back.flags, -7);
    assert_eq!(back.mode, 0o700);
}

#[test]
fn open_req_empty_and_longest_path() {
    for path in [Vec::new(), vec![b'a'; MAX_PATH_LEN as usize]] {
        let req = OpenReq { path: path.clone(), flags: i32::MIN, mode: u32::MAX };
        let (back, n) = OpenReq::decode(&req.encode()).unwrap();
        assert_eq!(n, 12 + path.len());
        assert_eq!(back.path, path);
        assert_eq!(back.flags, i32::MIN);
        assert_eq!(back.mode, u32::MAX);
    }
}

#[test]
fn open_req_layout_is_little_endian() {
    let req = OpenReq { path: b"ab".to_vec(), flags: 0x0102_0304, mode: 5 };
    assert_eq!(req.encode(), vec![4, 3, 2, 1, 5, 0, 0, 0, 2, 0, 0, 0, b'a', b'b']);
}

#[test]
fn path_over_bound_is_refused() {
    let mut bytes = OpenReq { path: vec![b'a'; 10], flags: 0, mode: 0 }.encode();
    let too_long = (MAX_PATH_LEN + 1).to_le_bytes();
    bytes[8..12].copy_from_slice(&too_long);
    assert!(OpenReq::decode(&bytes).is_none());
}

#[test]
fn read_req_round_trip_extremes() {
    for (fd, size, offset) in [(0, 0usize, 0i64), (-1, usize::MAX, i64::MIN), (i32::MAX, 1008, i64::MAX)] {
        let req = ReadReq { fd, size, offset };
        let bytes = req.encode();
        assert_eq!(bytes.len(), 20);
        let (back, n) = ReadReq::decode(&bytes).unwrap();
        assert_eq!((back.fd, back.size, back.offset, n), (fd, size, offset, 20));
    }
}

#[test]
fn write_req_round_trip_empty_and_full_page() {
    for page in [Vec::new(), vec![0xb; MAX_PAGE_LEN as usize]] {
        let req = WriteReq { fd: 3, page: page.clone(), size: page.len(), offset: 4096 };
        let (back, n) = WriteReq::decode(&req.encode()).unwrap();
        assert_eq!(n, 24 + page.len());
        assert_eq!((back.fd, back.size, back.offset), (3, page.len(), 4096));
        assert_eq!(back.page, page);
    }
}

#[test]
fn close_remove_mkdir_round_trip() {
    let (c, n) = CloseReq::decode(&CloseReq { fd: -42 }.encode()).unwrap();
    assert_eq!((c.fd, n), (-42, 4));
    let (r, n) = RemoveReq::decode(&RemoveReq { path: b"x/y".to_vec() }.encode()).unwrap();
    assert_eq!((r.path, n), (b"x/y".to_vec(), 7));
    let (m, n) = MkdirReq::decode(&MkdirReq { path: b"dirTest".to_vec(), mode: 0o755 }.encode()).unwrap();
    assert_eq!((m.path, m.mode, n), (b"dirTest".to_vec(), 0o755, 15));
}

#[test]
fn response_round_trip() {
    let resp = Response { result: -1, size: 1008, page: b"ReadTest\n".to_vec() };
    let (back, n) = Response::decode(&resp.encode()).unwrap();
    assert_eq!((back.result, back.size, n), (-1, 1008, 16 + 9));
    assert_eq!(back.page, b"ReadTest\n".to_vec());
}

#[test]
fn short_buffers_do_not_decode() {
    let bytes = WriteReq { fd: 1, page: vec![1, 2, 3], size: 3, offset: 0 }.encode();
    for cut in 0..bytes.len() {
        assert!(WriteReq::decode(&bytes[..cut]).is_none());
    }
    assert!(CloseReq::decode(&[1, 2, 3]).is_none());
    assert!(Response::decode(&[]).is_none());
}

#[test]
fn frame_round_trip_and_length() {
    let payload = vec![9u8; 100];
    let bytes = encode_frame(77, OpCode::PWrite.code(), &payload).unwrap();
    assert_eq!(bytes.len(), HDR_LEN + 100);
    let (h, p) = decode_frame(&bytes).unwrap();
    assert_eq!(h, RpcHeader { msg_id: 77, msg_type: 5, msg_len: 100 });
    assert_eq!(p, payload);
}

#[test]
fn frame_claiming_more_than_it_holds_fails() {
    let mut bytes = encode_frame(1, 1, &[1, 2, 3, 4]).unwrap();
    bytes[9..13].copy_from_slice(&1000u32.to_le_bytes());
    assert_eq!(decode_frame(&bytes), Err(RpcError::MalformedFrame));
    assert_eq!(decode_frame(&bytes[..5]), Err(RpcError::MalformedFrame));
    bytes[9..13].copy_from_slice(&(MAX_PAYLOAD + 1).to_le_bytes());
    assert_eq!(decode_frame(&bytes), Err(RpcError::PayloadTooLarge));
}

#[test]
fn oversized_payload_is_not_framed() {
    let payload = vec![0u8; MAX_PAYLOAD as usize + 1];
    assert_eq!(encode_frame(1, 1, &payload), Err(RpcError::PayloadTooLarge));
    let payload = vec![0u8; MAX_PAYLOAD as usize];
    assert!(encode_frame(1, 1, &payload).is_ok());
}

#[test]
fn header_layout() {
    let h = RpcHeader { msg_id: 0x0102, msg_type: 3, msg_len: 0x0405 };
    assert_eq!(h.encode(), vec![2, 1, 0, 0, 0, 0, 0, 0, 3, 5, 4, 0, 0]);
    assert_eq!(RpcHeader::decode(&h.encode()), Some(h));
}

#[test]
fn opcode_codes() {
    assert_eq!(OpCode::Open.code(), 1);
    assert_eq!(OpCode::RmDir.code(), 12);
    assert_eq!(OpCode::from_code(11), Some(OpCode::MkDir));
    assert_eq!(OpCode::from_code(13), Some(OpCode::Fsync));
    assert_eq!(OpCode::from_code(14), None);
}

#[test]
fn pack_str_pads_with_zeros() {
    let a: [u8; 8] = pack_str("abc");
    assert_eq!(a, [b'a', b'b', b'c', 0, 0, 0, 0, 0]);
    let b: [u8; 3] = pack_str("xyz");
    assert_eq!(b, *b"xyz");
}
