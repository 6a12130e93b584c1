use fxmark::client::{
    fd_request, mkdir_request, open_request, read_request, remove_request, write_request, Client, FxRPC, Transport,
};
use fxmark::dispatch::HandlerTable;
use fxmark::fileops::{CloseReq, Response};
use fxmark::frame::{decode_frame, encode_frame, RpcError, RpcHeader};
use fxmark::opcode::OpCode;
use fxmark::server::{fit_to_size, Server, Syscall, SyscallHost, SyscallKind, SyscallOutcome, REPLY_ERROR, REPLY_OK};
use nix::fcntl::OFlag;
use nix::sys::stat::Mode;

/// Runs each primitive on this machine, returning -1 where it fails.
struct OsHost;

fn text(path: &[u8]) -> &str {
    std::str::from_utf8(path).unwrap()
}

impl SyscallHost for OsHost {
    fn execute(&mut self, call: &Syscall) -> SyscallOutcome {
        let none = Vec::new();
        let status = |r: nix::Result<usize>| r.map(|n| n as i32).unwrap_or(-1);
        match call {
            Syscall::Open { path, flags, mode } => SyscallOutcome {
                result: nix::fcntl::open(text(path), OFlag::from_bits_truncate(*flags), Mode::from_bits_truncate(*mode))
                    .unwrap_or(-1),
                page: none,
            },
            Syscall::Read { fd, size } => {
                let mut page = vec![0u8; *size];
                let result = status(nix::unistd::read(*fd, &mut page));
                SyscallOutcome { result, page }
            }
            Syscall::PRead { fd, size, offset } => {
                let mut page = vec![0u8; *size];
                let result = status(nix::sys::uio::pread(*fd, &mut page, *offset));
                SyscallOutcome { result, page }
            }
            Syscall::Write { fd, page, size } => {
                SyscallOutcome { result: status(nix::unistd::write(*fd, &page[..*size])), page: none }
            }
            Syscall::PWrite { fd, page, size, offset } => SyscallOutcome {
                result: status(nix::sys::uio::pwrite(*fd, &page[..*size], *offset)),
                page: none,
            },
            Syscall::Close { fd } => {
                SyscallOutcome { result: nix::unistd::close(*fd).map(|_| 0).unwrap_or(-1), page: none }
            }
            Syscall::Remove { path } => {
                SyscallOutcome { result: nix::unistd::unlink(text(path)).map(|_| 0).unwrap_or(-1), page: none }
            }
            Syscall::MkDir { path, mode } => SyscallOutcome {
                result: nix::unistd::mkdir(text(path), Mode::from_bits_truncate(*mode)).map(|_| 0).unwrap_or(-1),
                page: none,
            },
            Syscall::RmDir { path } => SyscallOutcome {
                result: nix::unistd::unlinkat(None, text(path), nix::unistd::UnlinkatFlags::RemoveDir)
                    .map(|_| 0)
                    .unwrap_or(-1),
                page: none,
            },
            Syscall::Fsync { fd } => {
                SyscallOutcome { result: nix::unistd::fsync(*fd).map(|_| 0).unwrap_or(-1), page: none }
            }
        }
    }
}

/// A connection whose other end is a server in this process.
struct Loopback<H: SyscallHost> {
    server: Server,
    host: H,
    pending: Vec<u8>,
}

impl<H: SyscallHost> Transport for Loopback<H> {
    fn send(&mut self, data: &[u8]) -> Result<(), RpcError> {
        let (h, payload) = decode_frame(data)?;
        let reply = self.server.handle(&h, &payload, &mut self.host);
        self.pending.extend_from_slice(&reply);
        Ok(())
    }

    fn recv(&mut self, len: usize) -> Result<Vec<u8>, RpcError> {
        if self.pending.len() < len {
            return Err(RpcError::ConnectionClosed);
        }
        Ok(self.pending.drain(..len).collect())
    }
}

fn scratch_dir(name: &str) -> String {
    let dir = format!("/tmp/fxmark-test-{}/", name);
    let _ = nix::unistd::mkdir(dir.as_str(), Mode::S_IRWXU);
    dir
}

fn os_client(dir: &str) -> Client<Loopback<OsHost>> {
    Client::new(Loopback { server: Server::new(dir.as_bytes().to_vec()), host: OsHost, pending: Vec::new() })
}

#[test]
fn registering_twice_fails() {
    let mut table: HandlerTable<u8> = HandlerTable::new();
    assert!(table.register(OpCode::Open, 1).is_ok());
    assert_eq!(table.register(OpCode::Open, 2), Err(RpcError::DuplicateRegistration));
    assert_eq!(table.get(OpCode::Open), Some(1));
    assert_eq!(table.get(OpCode::Read), None);
}

struct NoHost;

impl SyscallHost for NoHost {
    fn execute(&mut self, _call: &Syscall) -> SyscallOutcome {
        panic!("no primitive should run");
    }
}

#[test]
fn unregistered_opcode_gets_error_frame() {
    let server = Server::new(b"/tmp/".to_vec());
    for code in [OpCode::GetInfo.code(), OpCode::Create.code(), 200] {
        let h = RpcHeader { msg_id: 5, msg_type: code, msg_len: 0 };
        let reply = server.handle(&h, &[], &mut NoHost);
        let (rh, payload) = decode_frame(&reply).unwrap();
        assert_eq!(rh, RpcHeader { msg_id: 5, msg_type: REPLY_ERROR, msg_len: 0 });
        assert!(payload.is_empty());
    }
}

#[test]
fn malformed_request_gets_error_frame() {
    let server = Server::new(b"/tmp/".to_vec());
    let h = RpcHeader { msg_id: 9, msg_type: OpCode::Close.code(), msg_len: 2 };
    let reply = server.handle(&h, &[1, 2], &mut NoHost);
    assert_eq!(decode_frame(&reply).unwrap().0.msg_type, REPLY_ERROR);
}

struct FixedHost;

impl SyscallHost for FixedHost {
    fn execute(&mut self, call: &Syscall) -> SyscallOutcome {
        match call {
            Syscall::Close { fd } => SyscallOutcome { result: *fd + 1, page: vec![7] },
            Syscall::PRead { size, .. } => SyscallOutcome { result: 2, page: vec![4; 2] },
            Syscall::Read { .. } => SyscallOutcome { result: 9, page: vec![5; 9000] },
            _ => SyscallOutcome { result: -1, page: Vec::new() },
        }
    }
}

#[test]
fn served_request_gets_response_frame() {
    let server = Server::new(b"/base/".to_vec());
    let req = CloseReq { fd: 41 }.encode();
    let h = RpcHeader { msg_id: 3, msg_type: OpCode::Close.code(), msg_len: req.len() as u32 };
    let reply = server.handle(&h, &req, &mut FixedHost);
    let (rh, payload) = decode_frame(&reply).unwrap();
    assert_eq!((rh.msg_id, rh.msg_type, rh.msg_len as usize), (3, REPLY_OK, payload.len()));
    let (resp, _) = Response::decode(&payload).unwrap();
    assert_eq!((resp.result, resp.size), (42, 0));
    assert!(resp.page.is_empty());
}

#[test]
fn plan_puts_paths_under_base() {
    let server = Server::new(b"/base/".to_vec());
    let req = fxmark::fileops::RemoveReq { path: b"f.txt".to_vec() }.encode();
    let h = RpcHeader { msg_id: 1, msg_type: OpCode::RmDir.code(), msg_len: req.len() as u32 };
    match server.plan(&h, &req) {
        fxmark::server::Dispatch::Invoke(Syscall::RmDir { path }) => assert_eq!(path, b"/base/f.txt".to_vec()),
        _ => panic!("expected an rmdir"),
    }
}

#[test]
fn client_reports_rejection_and_keeps_going() {
    let mut client = Client::new(Loopback { server: Server::new(b"/tmp/".to_vec()), host: FixedHost, pending: Vec::new() });
    let mut out = vec![0u8; 64];
    let request = vec![vec![1u8, 2, 3]];
    assert_eq!(client.call(OpCode::GetInfo, &request, &mut out), Err(RpcError::Rejected));
    assert_eq!(client.rpc_close(6), Ok(7));
    let mut page = Vec::new();
    assert_eq!(client.rpc_pread(1, &mut page, 5, 0), Ok(2));
    assert_eq!(page, vec![4, 4, 0, 0, 0]);
    assert_eq!(client.rpc_read(1, &mut page, 3), Ok(9));
    assert_eq!(page, vec![5, 5, 5]);
    assert_eq!(client.rpc_fsync(2), Ok(-1));
}

#[test]
fn client_refuses_long_paths_and_pages() {
    let mut client = Client::new(Loopback { server: Server::new(b"/tmp/".to_vec()), host: NoHost, pending: Vec::new() });
    let long = "a".repeat(5000);
    assert_eq!(client.rpc_open(&long, 0, 0), Err(RpcError::PathTooLong));
    assert_eq!(client.rpc_mkdir(&long, 0), Err(RpcError::PathTooLong));
    let mut page = Vec::new();
    assert_eq!(client.rpc_read(0, &mut page, 1 << 20), Err(RpcError::PayloadTooLarge));
}

#[test]
fn request_frames_take_fresh_ids() {
    let mut client = Client::new(Loopback { server: Server::new(b"/tmp/".to_vec()), host: NoHost, pending: Vec::new() });
    let request = vec![vec![1u8], vec![2u8, 3]];
    let first = client.request_frame(OpCode::Close, &request).unwrap();
    let second = client.request_frame(OpCode::Close, &request).unwrap();
    let (h1, p1) = decode_frame(&first).unwrap();
    let (h2, _) = decode_frame(&second).unwrap();
    assert_eq!((h1.msg_id, h2.msg_id), (1, 2));
    assert_eq!(p1, vec![1, 2, 3]);
    assert_eq!(encode_frame(1, OpCode::Close.code(), &[1, 2, 3]).unwrap(), first);
}

#[test]
fn server_tests_read_test() {
    let dir = scratch_dir("read");
    let mut client = os_client(&dir);
    let flags = (OFlag::O_CREAT | OFlag::O_RDWR).bits();
    let fd = client.rpc_open("read_test.txt", flags, Mode::S_IRWXU.bits()).unwrap();
    assert!(fd >= 0, "ReadTest: Open Failed");
    let data = b"ReadTest\n".to_vec();
    assert_eq!(client.rpc_pwrite(fd, &data, data.len(), 0).unwrap(), 9);
    let mut page = Vec::new();
    let result = client.rpc_pread(fd, &mut page, 1024, 0).unwrap();
    assert!(result != -1, "ReadTest: Read Failed");
    let text = String::from_utf8(page).unwrap();
    assert_eq!(text.trim_matches(char::from(0)), "ReadTest\n");
    assert!(client.rpc_fsync(fd).unwrap() != -1, "ReadTest: Fsync Failed");
    assert!(client.rpc_close(fd).unwrap() != -1, "ReadTest: Close Failed");
    assert_eq!(client.rpc_remove("read_test.txt").unwrap(), 0);
    let _ = nix::unistd::unlinkat(None, dir.as_str(), nix::unistd::UnlinkatFlags::RemoveDir);
}

#[test]
fn server_tests_write_read_test() {
    let dir = scratch_dir("writeread");
    let mut client = os_client(&dir);
    let flags = (OFlag::O_CREAT | OFlag::O_RDWR).bits();
    let fd = client.rpc_open("write_read_test.txt", flags, Mode::S_IRWXU.bits()).unwrap();
    assert!(fd != -1, "WriteReadTest: Open Failed");
    let page = b"WriteReadTest".to_vec();
    assert!(client.rpc_write(fd, &page, page.len()).unwrap() != -1, "WriteReadTest: Write Failed");
    let mut page = vec![0u8; 1024];
    assert!(client.rpc_pread(fd, &mut page, 1024, 0).unwrap() != -1, "WriteReadTest: Read Failed");
    let text = String::from_utf8(page).unwrap();
    assert_eq!(text.trim_matches(char::from(0)), "WriteReadTest");
    assert!(client.rpc_fsync(fd).unwrap() != -1, "WriteReadTest: Fsync Failed");
    assert!(client.rpc_close(fd).unwrap() != -1, "WriteReadTest: Close Failed");
    assert!(client.rpc_remove("write_read_test.txt").unwrap() != -1, "WriteReadTest: Remove Failed");
    let _ = nix::unistd::unlinkat(None, dir.as_str(), nix::unistd::UnlinkatFlags::RemoveDir);
}

#[test]
fn dir_test() {
    let dir = scratch_dir("dir");
    let mut client = os_client(&dir);
    assert!(client.rpc_mkdir("dirTest", Mode::S_IRWXU.bits()).unwrap() >= 0, "DirTest: Mkdir Failed");
    assert!(client.rpc_rmdir("dirTest").unwrap() >= 0, "DirTest: Rmdir Failed");
    assert!(client.rpc_rmdir("dirTest").unwrap() < 0);
    let _ = nix::unistd::unlinkat(None, dir.as_str(), nix::unistd::UnlinkatFlags::RemoveDir);
}

#[test]
fn table_kinds_of_server() {
    let mut table: HandlerTable<SyscallKind> = HandlerTable::new();
    fxmark::server::register_rpcs(&mut table);
    assert_eq!(table.get(OpCode::PRead), Some(SyscallKind::PRead));
    assert_eq!(table.get(OpCode::GetInfo), None);
    assert_eq!(table.register(OpCode::Open, SyscallKind::Open), Err(RpcError::DuplicateRegistration));
}

#[test]
fn read_pages_are_fit_to_size() {
    assert_eq!(fit_to_size(&vec![1, 2, 3], 5), vec![1, 2, 3, 0, 0]);
    assert_eq!(fit_to_size(&vec![1, 2, 3], 2), vec![1, 2]);
    assert!(fit_to_size(&vec![1], 0).is_empty());
}

#[test]
fn request_builders() {
    let (op, b) = open_request("ab", 3, 4).unwrap();
    assert_eq!((op, b), (OpCode::Open, fxmark::fileops::OpenReq { path: b"ab".to_vec(), flags: 3, mode: 4 }.encode()));
    let (op, b) = read_request(false, 7, 10, 99).unwrap();
    assert_eq!((op, b), (OpCode::Read, fxmark::fileops::ReadReq { fd: 7, size: 10, offset: 0 }.encode()));
    assert_eq!(read_request(true, 7, 10, 99).unwrap().0, OpCode::PRead);
    assert_eq!(write_request(true, 1, &vec![0; 40000], 1, 0), Err(RpcError::PayloadTooLarge));
    assert_eq!(fd_request(true, 3).0, OpCode::Fsync);
    assert_eq!(remove_request(true, "d").unwrap().0, OpCode::RmDir);
    assert_eq!(mkdir_request(&"x".repeat(5000), 0), Err(RpcError::PathTooLong));
}

#[test]
fn fsync_is_served() {
    let server = Server::new(b"/base/".to_vec());
    let req = CloseReq { fd: 8 }.encode();
    let h = RpcHeader { msg_id: 4, msg_type: OpCode::Fsync.code(), msg_len: req.len() as u32 };
    match server.plan(&h, &req) {
        fxmark::server::Dispatch::Invoke(Syscall::Fsync { fd }) => assert_eq!(fd, 8),
        _ => panic!("expected an fsync"),
    }
}
