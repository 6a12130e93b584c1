use fxmark::args::{parse_usize, ArgsError, ARGs};
use fxmark::bench::{
    calculate_throughput, distribute_files, file_name, max_open_files, private_file_names, result_rows,
    shared_file_name, teardown_closes, teardown_core, BenchError, BenchmarkConfig, BenchmarkEnvironment,
    BlockSetup, Init, InitAction, SetupAction, Worker, FILE_SIZE, PAGE_SIZE,
};
use fxmark::machine::{
    rackscale_core_affinity, thread_defaults_for, thread_defaults_low_mid_high, Machine, MachineError,
};
use fxmark::params::{endpoint, ClientParams, ConnType, Endpoint, LogMode, RPCType};
use fxmark::plan::{open_files_default, run_benchmarks, thread_counts, BenchKind};
use fxmark::workload::{workload_op, Barrier, WorkloadOp};

/// A uniform stream of 16-bit values.
struct XorShift(u64);

impl XorShift {
    fn next(&mut self) -> u16 {
        self.0 ^= self.0 << 13;
        self.0 ^= self.0 >> 7;
        self.0 ^= self.0 << 17;
        (self.0 >> 24) as u16
    }
}

fn writes(ratio: usize, n: usize) -> usize {
    let mut rng = XorShift(0x9E37_79B9_7F4A_7C15);
    (0..n).filter(|_| matches!(workload_op(rng.next(), 266305, PAGE_SIZE, ratio), WorkloadOp::Write { .. })).count()
}

#[test]
fn write_ratio_zero_never_writes() {
    assert_eq!(writes(0, 10_000), 0);
}

#[test]
fn write_ratio_hundred_never_reads() {
    assert_eq!(writes(100, 10_000), 10_000);
}

#[test]
fn write_ratio_half_is_about_half() {
    let w = writes(50, 100_000);
    assert!((45_000..=55_000).contains(&w), "{} writes", w);
}

#[test]
fn workload_op_formula() {
    assert_eq!(workload_op(1234, 100, 1008, 35), WorkloadOp::Write { offset: 34 * 1008 });
    assert_eq!(workload_op(1264, 100, 1008, 35), WorkloadOp::Read { offset: 64 * 1008 });
}

#[test]
fn barrier_opens_on_fourth_arrival() {
    let mut b = Barrier::new(4);
    for k in 0..4 {
        assert!(!b.is_open());
        assert_eq!(b.waiting(), 4 - k);
        b.arrive();
    }
    assert!(b.is_open());
    assert_eq!(b.waiting(), 0);
}

fn env() -> BenchmarkEnvironment {
    BenchmarkEnvironment::new(8)
}

#[test]
fn environment_defaults() {
    let e = env();
    assert_eq!((e.max_open_files, e.page_size, e.file_size), (8, 1008, FILE_SIZE));
    assert_eq!(e.open_flags, libc::O_RDWR | libc::O_CREAT);
    assert_eq!(e.open_mode, libc::S_IRWXU as u32);
    assert_eq!(max_open_files(12), 12);
}

#[test]
fn file_names() {
    assert_eq!(file_name(0), b"file0.txt".to_vec());
    assert_eq!(file_name(1203), b"file1203.txt".to_vec());
}

#[test]
fn init_opens_and_sizes_each_file() {
    let config = BenchmarkConfig { open_files: 2, write_ratio: 0, duration: 1 };
    let e = env();
    let mut init = Init::new(&config, &e);
    let mut fds = 10;
    loop {
        match init.next_action() {
            InitAction::Open { path, flags, mode } => {
                assert_eq!(flags, e.open_flags);
                assert_eq!(mode, e.open_mode);
                assert!(path.starts_with(b"file"));
                init.on_result(fds).unwrap();
                fds += 1;
            }
            InitAction::Size { fd, offset, len, page } => {
                assert_eq!((fd, offset, len), (fds - 1, FILE_SIZE as i64, PAGE_SIZE));
                assert_eq!(page, vec![0x0b; PAGE_SIZE]);
                init.on_result(PAGE_SIZE as i32).unwrap();
            }
            InitAction::Done => break,
        }
    }
    assert_eq!(init.fds(), &vec![10, 11]);
}

#[test]
fn init_stops_on_failed_open_and_short_write() {
    let config = BenchmarkConfig { open_files: 1, write_ratio: 0, duration: 1 };
    let mut init = Init::new(&config, &env());
    assert_eq!(init.on_result(-1), Err(BenchError::OpenFailed(-1)));
    init.on_result(3).unwrap();
    assert_eq!(init.on_result(10), Err(BenchError::ShortIo { expected: PAGE_SIZE, got: 10 }));
}

#[test]
fn files_go_round_robin() {
    let r = distribute_files(&vec![4, 5, 6, 7, 8], &vec![30, 31]);
    assert_eq!(r, vec![(4, 30), (5, 31), (6, 30), (7, 31), (8, 30)]);
}

#[test]
fn lowest_core_tears_down() {
    let cores = vec![6, 2, 9];
    assert_eq!(teardown_core(&cores), Some(2));
    assert_eq!(teardown_core(&vec![]), None);
    assert_eq!(teardown_closes(2, &cores, &vec![3, 4]), vec![3, 4]);
    assert!(teardown_closes(6, &cores, &vec![3, 4]).is_empty());
}

#[test]
fn mix_run_read_only_one_core_two_seconds() {
    let config = BenchmarkConfig { open_files: 1, write_ratio: 0, duration: 2 };
    let mut w = Worker::new(3, &config, &env());
    let mut rng = XorShift(42);
    while !w.is_done() {
        for _ in 0..128 {
            match w.next_op(rng.next()) {
                WorkloadOp::Read { offset } => assert!(offset as usize + PAGE_SIZE <= FILE_SIZE),
                WorkloadOp::Write { .. } => panic!("a write at write ratio 0"),
            }
            w.complete_op(PAGE_SIZE as i32).unwrap();
        }
        w.end_second();
    }
    assert_eq!(w.samples(), &vec![128, 128]);
    assert!(w.samples().iter().all(|s| *s > 0));
}

#[test]
fn short_read_stops_the_run() {
    let config = BenchmarkConfig { open_files: 1, write_ratio: 50, duration: 1 };
    let mut w = Worker::new(3, &config, &env());
    assert_eq!(w.complete_op(100), Err(BenchError::ShortIo { expected: PAGE_SIZE, got: 100 }));
    assert_eq!(w.complete_op(-1), Err(BenchError::ShortIo { expected: PAGE_SIZE, got: -1 }));
}

#[test]
fn rows_number_threads_across_clients() {
    let params = ClientParams {
        cid: 2,
        nclients: 3,
        ccores: 4,
        log_mode: LogMode::STDOUT,
        conn_type: ConnType::TcpRemote,
        rpc_type: RPCType::DRPC,
    };
    let config = BenchmarkConfig { open_files: 1, write_ratio: 10, duration: 2 };
    let rows = result_rows(1, 4, &config, &params, &vec![50, 60]).unwrap();
    assert_eq!(rows.len(), 2);
    assert_eq!((rows[0].thread_id, rows[0].core_count, rows[0].second, rows[0].ops), (9, 12, 1, 50));
    assert_eq!((rows[1].second, rows[1].ops, rows[1].client_id), (2, 60, 2));
    let big = ClientParams { ccores: usize::MAX, ..params };
    assert!(result_rows(1, 4, &config, &big, &vec![1]).is_none());
}

#[test]
fn throughput_formula() {
    assert_eq!(calculate_throughput(1000, 2_000_000), 500_000);
    assert_eq!(calculate_throughput(3, 1_000_000_000), 3);
}

#[test]
fn client_params_resolve() {
    let local = ClientParams::resolve(ConnType::TcpLocal, RPCType::DRPC, None, None, None, 16).unwrap();
    assert_eq!((local.cid, local.nclients, local.ccores, local.log_mode), (0, 1, 8, LogMode::CSV));
    assert!(ClientParams::resolve(ConnType::UDS, RPCType::DRPC, Some(1), None, Some(2), 16).is_none());
    let remote = ClientParams::resolve(ConnType::TcpRemote, RPCType::GRPC, Some(1), Some(2), Some(3), 16).unwrap();
    assert_eq!((remote.cid, remote.nclients, remote.ccores, remote.log_mode), (1, 2, 3, LogMode::STDOUT));
}

#[test]
fn names_and_endpoints() {
    assert_eq!(ConnType::parse("tcpremote"), Some(ConnType::TcpRemote));
    assert_eq!(ConnType::parse("tcp"), None);
    assert_eq!(ConnType::UDS.name(), "uds");
    assert_eq!(RPCType::parse("grpc"), Some(RPCType::GRPC));
    assert_eq!(RPCType::DRPC.name(), "drpc");
    assert_eq!(endpoint(ConnType::TcpLocal, 8080), Endpoint::Tcp { ipv4: 0x7F00_0001, port: 8080 });
    assert_eq!(endpoint(ConnType::UDS, 1), Endpoint::Uds);
}

#[test]
fn machine_defaults() {
    assert_eq!(Machine::Qemu.name(), "qemu");
    let m = Machine::Baremetal("b1542".to_string());
    assert_eq!(m.name(), "b1542");
    assert_eq!(m.max_cores(4), Some(28));
    assert_eq!(m.max_numa_nodes(1), Some(2));
    assert_eq!(Machine::Baremetal("zz".to_string()).max_cores(4), None);
    assert_eq!(m.thread_defaults_uniform(4, 1).unwrap(), vec![1, 8, 14, 16, 24, 28]);
    assert_eq!(Machine::Qemu.thread_defaults_uniform(8, 2).unwrap(), vec![1, 2, 4, 6, 8]);
    assert_eq!(thread_defaults_for(0, 1), vec![0, 1]);
    let u = thread_defaults_for(96, 4);
    assert_eq!(thread_defaults_low_mid_high(&u), vec![1, 8, 48, 80, 88, 96]);
}

#[test]
fn thread_counts_and_open_files() {
    assert_eq!(thread_counts(8), vec![1, 2, 4, 6, 8]);
    assert_eq!(thread_counts(20), vec![1, 4, 8, 12, 16, 20]);
    assert_eq!(open_files_default(10), vec![1, 4, 8, 10]);
    assert_eq!(open_files_default(8), vec![1, 4, 8]);
}

#[test]
fn plans_from_names() {
    let plans = run_benchmarks(10, &vec!["mixX40", "drbh"], 8).unwrap();
    let kinds: Vec<BenchKind> = plans.iter().map(|p| p.kind).collect();
    assert_eq!(kinds, vec![BenchKind::Drbh, BenchKind::Mix, BenchKind::Mix, BenchKind::Mix]);
    assert_eq!(plans[1].config.write_ratio, 40);
    assert_eq!(plans[3].config.open_files, 8);
    assert_eq!(run_benchmarks(10, &vec!["drbh", "mixX5"], 8), Err(ArgsError::MissingField));
    assert!(run_benchmarks(10, &vec!["nothing"], 8).unwrap().is_empty());
}

#[test]
fn numbers_and_selections() {
    assert_eq!(parse_usize("+42"), Ok(42));
    assert_eq!(parse_usize(""), Err(ArgsError::Empty));
    assert_eq!(parse_usize("+"), Err(ArgsError::InvalidDigit));
    assert_eq!(parse_usize("4a"), Err(ArgsError::InvalidDigit));
    assert_eq!(parse_usize("99999999999999999999999"), Err(ArgsError::Overflow));
    assert_eq!(parse_usize(&usize::MAX.to_string()), Ok(usize::MAX));
    let a = ARGs::parse("10X2XmixX50").unwrap();
    assert_eq!(a, ARGs { cores: 10, open_files: 2, benchmark: "mix".to_string(), write_ratio: 50 });
    assert_eq!(ARGs::parse("10X2Xmix"), Err(ArgsError::MissingField));
    assert_eq!("4X1XdrblX0".parse::<ARGs>().unwrap().benchmark, "drbl");
    assert_eq!(ARGs::parse("1xX2XmixX5"), Err(ArgsError::InvalidDigit));
}

#[test]
fn fixed_block_worker_reads_first_page() {
    let mut w = Worker::new_fixed_block(5, 1, &env());
    for r in [0u16, 1, 999, u16::MAX] {
        assert_eq!(w.next_op(r), WorkloadOp::Read { offset: 0 });
    }
    w.complete_op(PAGE_SIZE as i32).unwrap();
    w.end_second();
    assert!(w.is_done());
    assert_eq!(w.samples(), &vec![1]);
}

fn run_setup(shared: bool, names: Vec<Vec<u8>>) -> (Vec<String>, Vec<i32>) {
    let mut setup = BlockSetup::new(names, shared, &env());
    let mut calls = Vec::new();
    let mut next_fd = 20;
    loop {
        let ret = match setup.next_action() {
            SetupAction::Remove { path } => {
                calls.push(format!("remove {}", String::from_utf8(path).unwrap()));
                -1
            }
            SetupAction::Open { path, .. } => {
                calls.push(format!("open {}", String::from_utf8(path).unwrap()));
                next_fd += 1;
                next_fd
            }
            SetupAction::Write { fd, len, page } => {
                assert!(page.iter().all(|b| *b == 0x0b) && page.len() == len);
                calls.push(format!("write {} {}", fd, len));
                len as i32
            }
            SetupAction::Close { fd } => {
                calls.push(format!("close {}", fd));
                0
            }
            SetupAction::Done => return (calls, setup.fds().clone()),
        };
        setup.on_result(ret).unwrap();
    }
}

#[test]
fn private_read_setup() {
    let names = private_file_names(&vec![3, 7]);
    assert_eq!(names, vec![b"file3.txt".to_vec(), b"file7.txt".to_vec()]);
    let (calls, fds) = run_setup(false, names);
    assert_eq!(
        calls,
        vec!["remove file3.txt", "open file3.txt", "write 21 1008", "remove file7.txt", "open file7.txt", "write 22 1008"]
    );
    assert_eq!(fds, vec![21, 22]);
}

#[test]
fn shared_read_setup_closes_the_file() {
    assert_eq!(shared_file_name(), b"file.txt".to_vec());
    let (calls, fds) = run_setup(true, vec![shared_file_name()]);
    assert_eq!(calls, vec!["remove file.txt", "open file.txt", "write 21 1008", "close 21"]);
    assert_eq!(fds, vec![21]);
}

#[test]
fn setup_stops_on_short_write() {
    let mut setup = BlockSetup::new(vec![b"a".to_vec()], false, &env());
    setup.on_result(0).unwrap();
    setup.on_result(4).unwrap();
    assert_eq!(setup.on_result(3), Err(BenchError::ShortIo { expected: PAGE_SIZE, got: 3 }));
}

#[test]
fn vms_go_to_nodes_in_turn() {
    let cpus = vec![vec![0u32, 2, 4, 6], vec![1, 3, 5, 7]];
    let p = rackscale_core_affinity(&vec![2, 1, 2, 3], &cpus).unwrap();
    assert_eq!(p, vec![(0, vec![0, 2]), (1, vec![1]), (0, vec![4, 6]), (1, vec![3, 5, 7])]);
    assert!(rackscale_core_affinity(&vec![3, 1, 2], &cpus).is_none());
}

#[test]
fn machine_from_environment() {
    assert_eq!(Machine::determine(None, false), Ok(Machine::Qemu));
    assert_eq!(Machine::determine(Some(""), true), Err(MachineError::EmptyName));
    assert_eq!(Machine::determine(Some("l0318"), false), Err(MachineError::UnknownMachine));
    assert_eq!(Machine::determine(Some("l0318"), true), Ok(Machine::Baremetal("l0318".to_string())));
}

#[test]
fn every_hundred_draws_hold_the_ratio() {
    for ratio in [0usize, 37, 50, 100] {
        let writes = (0..65500u32)
            .filter(|r| matches!(workload_op(*r as u16, 1000, PAGE_SIZE, ratio), WorkloadOp::Write { .. }))
            .count();
        assert_eq!(writes, ratio * 655);
    }
}

#[test]
fn removal_must_return_zero() {
    assert_eq!(fxmark::bench::check_removed(0), Ok(()));
    assert_eq!(fxmark::bench::check_removed(-1), Err(BenchError::RemoveFailed(-1)));
}
