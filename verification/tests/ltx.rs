use kirk::com::{ComChannel, Plugin};
use kirk::errors::KirkError;
use kirk::ltx::channel::{
    check_target_path, command_result, execute_requests, fetched_file, LtxChannel,
};
use kirk::ltx::client::{Ltx, ReadFailure};
use kirk::ltx::request::{
    check_broadcast_slot, Reply, Request, SlotId, ALL_SLOTS, MAX_SLOTS, OP_CWD, OP_DATA, OP_ENV,
    OP_ERROR, OP_EXEC, OP_GET_FILE, OP_KILL, OP_LOG, OP_PING, OP_PONG, OP_RESULT, OP_SET_FILE,
    OP_VERSION,
};
use kirk::ltx::wire::{decode_one, Field, MAX_FIELDS};
use kirk::textmap::TextMap;

fn decode(bytes: &[u8]) -> Vec<Field> {
    decode_one(bytes)
        .expect("decode succeeds")
        .expect("one full frame")
        .0
}

fn enc<T: serde::Serialize>(value: &T) -> Vec<Field> {
    let bytes = rmp_serde::to_vec(value).expect("test frame packs");
    decode(&bytes)
}

/// `[DATA, bin]` with the binary family of the format.
fn data_frame(data: &[u8]) -> Vec<u8> {
    let mut bytes = vec![0x92, 0xcc, OP_DATA, 0xc4, data.len() as u8];
    bytes.extend_from_slice(data);
    bytes
}

fn slot(id: u8) -> SlotId {
    SlotId::new(id).expect("slot")
}

#[test]
fn opcode_values_match_python() {
    assert_eq!(OP_ERROR, 0xFF);
    assert_eq!(OP_VERSION, 0x00);
    assert_eq!(OP_PING, 0x01);
    assert_eq!(OP_PONG, 0x02);
    assert_eq!(OP_GET_FILE, 0x03);
    assert_eq!(OP_SET_FILE, 0x04);
    assert_eq!(OP_ENV, 0x05);
    assert_eq!(OP_CWD, 0x06);
    assert_eq!(OP_EXEC, 0x07);
    assert_eq!(OP_RESULT, 0x08);
    assert_eq!(OP_LOG, 0x09);
    assert_eq!(OP_DATA, 0xA0);
    assert_eq!(OP_KILL, 0xA1);
    assert_eq!(MAX_SLOTS, 127);
    assert_eq!(ALL_SLOTS, 128);
}

#[test]
fn slot_id_bounds() {
    assert_eq!(SlotId::new(0).expect("slot 0").get(), 0);
    assert_eq!(SlotId::new(127).expect("slot 127").get(), 127);
    assert!(SlotId::new(128).is_err());
    assert_eq!(check_broadcast_slot(None).unwrap(), ALL_SLOTS);
    assert_eq!(check_broadcast_slot(Some(128)).unwrap(), 128);
    assert!(check_broadcast_slot(Some(129)).is_err());
}

#[test]
fn pack_opcode_bytes() {
    assert_eq!(Request::version().pack().expect("pack"), vec![0x91, 0x00]);
    assert_eq!(Request::ping().pack().expect("pack"), vec![0x91, 0x01]);

    let fields = decode(
        &Request::env(Some(3), "K", "V")
            .expect("env")
            .pack()
            .expect("pack"),
    );
    assert_eq!(
        fields,
        vec![
            Field::U64(u64::from(OP_ENV)),
            Field::U64(3),
            Field::Str("K".to_string()),
            Field::Str("V".to_string()),
        ]
    );

    let fields = decode(
        &Request::cwd(None, "/tmp")
            .expect("cwd")
            .pack()
            .expect("pack"),
    );
    assert_eq!(fields[1], Field::U64(u64::from(ALL_SLOTS)));

    let kill = Request::kill(SlotId::new(9).expect("slot"));
    let fields = decode(&kill.pack().expect("pack"));
    assert_eq!(fields, vec![Field::U64(u64::from(OP_KILL)), Field::U64(9)]);

    let exec = Request::execute(SlotId::new(0).expect("slot"), "uname").expect("exec");
    let fields = decode(&exec.pack().expect("pack"));
    assert_eq!(
        fields,
        vec![
            Field::U64(u64::from(OP_EXEC)),
            Field::U64(0),
            Field::Str("uname".to_string()),
        ]
    );
}

#[test]
fn requests_pack_as_the_format_has_it() {
    let long = "p".repeat(300);
    let path = Request::get_file(&long).unwrap().pack().unwrap();
    assert_eq!(path, rmp_serde::to_vec(&(OP_GET_FILE, long.as_str())).unwrap());
    let cwd = Request::cwd(Some(127), "/é").unwrap().pack().unwrap();
    assert_eq!(cwd, rmp_serde::to_vec(&(OP_CWD, 127u8, "/é")).unwrap());
    let env = Request::env(None, "K", "V").unwrap().pack().unwrap();
    assert_eq!(env, rmp_serde::to_vec(&(OP_ENV, 128u8, "K", "V")).unwrap());
    let exec = Request::execute(slot(1), "ls").unwrap().pack().unwrap();
    assert_eq!(exec, rmp_serde::to_vec(&(OP_EXEC, 1u8, "ls")).unwrap());
    let kill = Request::kill(slot(1)).pack().unwrap();
    assert_eq!(kill, vec![0x92, 0xcc, 0xa1, 0x01]);
    let set = Request::set_file("/f", &[7; 3]).unwrap().pack().unwrap();
    assert_eq!(set, vec![0x93, 0x04, 0xa2, b'/', b'f', 0xc4, 3, 7, 7, 7]);
}

#[test]
fn long_files_pack_with_longer_heads() {
    let one = Request::set_file("/f", &[200]).unwrap().pack().unwrap();
    assert_eq!(one, vec![0x93, 0x04, 0xa2, b'/', b'f', 0xc4, 1, 200]);
    let big = Request::set_file("/f", &[9; 300]).unwrap().pack().unwrap();
    assert_eq!(big[..8], [0x93, 0x04, 0xa2, b'/', b'f', 0xc5, 1, 44]);
    assert_eq!(big[8..], [9; 300]);
}

#[test]
fn set_file_packs_data_as_bin() {
    let data = vec![0u8, 1, 2, 250];
    let req = Request::set_file("/tmp/f", &data).expect("set_file");
    let packed = req.pack().expect("pack");
    let fields = decode(&packed);
    assert_eq!(
        fields,
        vec![
            Field::U64(u64::from(OP_SET_FILE)),
            Field::Str("/tmp/f".to_string()),
            Field::Bin(data),
        ]
    );
}

#[test]
fn constructor_validation() {
    assert!(Request::env(Some(129), "K", "V").is_err());
    assert!(Request::env(Some(1), "", "V").is_err());
    assert!(Request::env(Some(1), "K", "").is_err());
    assert!(Request::cwd(Some(1), "").is_err());
    assert!(Request::get_file("").is_err());
    assert!(Request::set_file("", b"x").is_err());
    assert!(Request::set_file("/x", b"").is_err());
    assert!(Request::execute(SlotId::new(0).expect("slot"), "").is_err());
}

#[test]
fn version_round_trip() {
    let mut req = Request::version();
    let reply = req
        .feed(&enc(&(OP_VERSION, "0.1")))
        .expect("feed")
        .expect("completed");
    assert_eq!(reply, Reply::Version("0.1".to_string()));
    assert!(req.feed(&vec![]).expect("feed").is_none());
}

#[test]
fn ping_needs_echo() {
    let mut req = Request::ping();
    let pong = enc(&(OP_PONG, 7_u64));
    assert!(req.feed(&pong).is_err());

    let mut req = Request::ping();
    let ping_echo = enc(&(OP_PING,));
    assert!(req.feed(&ping_echo).expect("echo").is_none());
    let reply = req.feed(&pong).expect("pong").expect("completed");
    assert_eq!(reply, Reply::Ping(7));
}

#[test]
fn env_echo_and_slot_filter() {
    let mut req = Request::env(Some(2), "HELLO", "CIAO").expect("env");
    let other = enc(&(OP_ENV, 5_u8, "HELLO", "CIAO"));
    assert!(req.feed(&other).expect("feed").is_none());
    let echo = enc(&(OP_ENV, 2_u8, "HELLO", "CIAO"));
    let reply = req.feed(&echo).expect("feed").expect("completed");
    assert_eq!(
        reply,
        Reply::Env {
            slot: 2,
            key: "HELLO".to_string(),
            value: "CIAO".to_string(),
        }
    );
}

#[test]
fn get_file_accumulates_data() {
    let mut req = Request::get_file("/tmp/f").expect("get_file");
    let data = decode(&data_frame(&[1_u8, 2, 3]));
    assert!(req.feed(&data).expect("feed").is_none());
    let data = decode(&data_frame(&[4_u8, 5]));
    assert!(req.feed(&data).expect("feed").is_none());
    let echo = enc(&(OP_GET_FILE, "/tmp/f"));
    let reply = req.feed(&echo).expect("feed").expect("completed");
    assert_eq!(
        reply,
        Reply::GetFile {
            path: "/tmp/f".to_string(),
            data: vec![1, 2, 3, 4, 5],
        }
    );
}

#[test]
fn execute_flow_with_stdout_callback() {
    let mut req =
        Request::execute_with_stdout(SlotId::new(0).expect("slot"), "uname").expect("exec");

    let echo = enc(&(OP_EXEC, 0_u8));
    assert!(req.feed(&echo).expect("feed").is_none());

    let log = enc(&(OP_LOG, 0_u8, 0_u8, "Linux\n"));
    assert!(req.feed(&log).expect("feed").is_none());
    assert_eq!(req.take_streamed(), ["Linux\n"]);

    let result = enc(&(OP_RESULT, 0_u8, 1_000_u64, 1_u8, 0_u8));
    let reply = req.feed(&result).expect("feed").expect("completed");
    assert_eq!(
        reply,
        Reply::Execute {
            time_ns: 1_000,
            si_code: 1,
            si_status: 0,
            stdout: "Linux\n".to_string(),
        }
    );
}

#[test]
fn execute_guards() {
    let mut req = Request::execute(SlotId::new(0).expect("slot"), "uname").expect("exec");
    let log = enc(&(OP_LOG, 0_u8, 0_u8, "x"));
    assert!(req.feed(&log).is_err());

    let mut req = Request::execute(SlotId::new(0).expect("slot"), "uname").expect("exec");
    let result = enc(&(OP_RESULT, 0_u8, 1_u64, 1_u8, 0_u8));
    assert!(req.feed(&result).is_err());
}

#[test]
fn decoder_rejects_nesting_and_overflow() {
    // `[PING, [1]]`: nested array, hand-encoded (fixarray(2), 1, fixarray(1), 1).
    let nested = vec![0x92, 0x01, 0x91, 0x01];
    assert!(decode_one(&nested).is_err());

    // Array of MAX_FIELDS + 1 ints, hand-encoded (array16 header).
    let mut wide = vec![
        0xDC,
        0x00,
        u8::try_from(MAX_FIELDS + 1).expect("small count"),
    ];
    wide.extend(std::iter::repeat_n(0x01, MAX_FIELDS + 1));
    assert!(decode_one(&wide).is_err());

    assert!(decode_one(&[0x91]).expect("partial").is_none());
    assert!(decode_one(&[]).expect("empty").is_none());
}

#[test]
fn written_values_are_decoded() {
    assert_eq!(
        enc(&(0u8, 127u8, 128u8, 65535u16, 65536u32, u64::MAX)),
        [0, 127, 128, 65535, 65536, u64::MAX].map(Field::U64)
    );
    assert_eq!(
        enc(&(-1i8, -32i8, -33i8, -300i16, -70000i32, i64::MIN)),
        [-1, -32, -33, -300, -70000, i64::MIN].map(Field::I64)
    );
    let long = "x".repeat(70000);
    assert_eq!(
        enc(&((), true, false, 1.5f32, -2.5f64, "short", "y".repeat(200), long.as_str())),
        vec![
            Field::Nil,
            Field::Bool(true),
            Field::Bool(false),
            Field::F32(1.5f32.to_bits()),
            Field::F64((-2.5f64).to_bits()),
            Field::Str("short".to_owned()),
            Field::Str("y".repeat(200)),
            Field::Str(long.clone()),
        ]
    );
}

#[test]
fn every_cut_frame_is_short() {
    let whole = rmp_serde::to_vec(&(OP_ENV, 200u8, "key", "v".repeat(40), 70000u32)).unwrap();
    for end in 0..whole.len() {
        assert!(decode_one(&whole[..end]).unwrap().is_none(), "{end}");
    }
    let mut more = whole.clone();
    more.extend_from_slice(&whole);
    let (_, used) = decode_one(&more).unwrap().unwrap();
    assert_eq!(used, whole.len());
}

#[test]
fn odd_frames_are_told_apart() {
    assert_eq!(decode(&[0x91, 0xa2, 0xff, 0xfe]), vec![Field::Bin(vec![0xff, 0xfe])]);
    assert!(decode_one(&[0x01]).is_err());
    assert!(decode_one(&[0x91, 0xc1]).is_err());
    assert!(decode_one(&[0x80]).is_err());
}

#[test]
fn fields_convert_with_their_range() {
    assert_eq!(Field::U64(255).as_u8().unwrap(), 255);
    assert!(Field::U64(256).as_u8().is_err());
    assert_eq!(Field::I64(-5).as_i32().unwrap(), -5);
    assert!(Field::U64(1 << 40).as_i32().is_err());
    assert!(Field::I64(-1).as_u64().is_err());
    assert!(Field::Nil.as_str().is_err());
    assert_eq!(Field::Bin(vec![1]).as_bytes().unwrap(), [1]);
}

/// What a peer answers to one request.
fn reply_for(msg: &[Field]) -> Vec<u8> {
    let opcode = msg[0].as_u8().unwrap();
    let target = msg.get(1).and_then(|f| f.as_u8().ok()).unwrap_or(0);
    let text = |i: usize| msg[i].as_str().unwrap().to_owned();
    let pack = |frames: Vec<Vec<u8>>| frames.concat();
    match opcode {
        OP_VERSION => rmp_serde::to_vec(&(OP_VERSION, "0.1-test")).unwrap(),
        OP_PING => pack(vec![
            rmp_serde::to_vec(&(OP_PING,)).unwrap(),
            rmp_serde::to_vec(&(OP_PONG, 77u64)).unwrap(),
        ]),
        OP_ENV => rmp_serde::to_vec(&(OP_ENV, target, text(2), text(3))).unwrap(),
        OP_CWD => rmp_serde::to_vec(&(OP_CWD, target, text(2))).unwrap(),
        OP_GET_FILE => pack(vec![
            data_frame(b"file-bytes"),
            rmp_serde::to_vec(&(OP_GET_FILE, text(1))).unwrap(),
        ]),
        OP_SET_FILE => rmp_serde::to_vec(&(OP_SET_FILE, text(1))).unwrap(),
        OP_EXEC => pack(vec![
            rmp_serde::to_vec(&(OP_EXEC, target)).unwrap(),
            rmp_serde::to_vec(&(OP_LOG, target, 0u8, format!("mock-out-{target}"))).unwrap(),
            rmp_serde::to_vec(&(OP_RESULT, target, 5u64, 1u8, 0u8)).unwrap(),
        ]),
        OP_KILL => rmp_serde::to_vec(&(OP_KILL, target)).unwrap(),
        _ => Vec::new(),
    }
}

/// Answer every frame of `sent`.
fn answer(sent: &[u8]) -> Vec<u8> {
    let mut replies = Vec::new();
    let mut at = 0;
    while let Some((msg, used)) = decode_one(&sent[at..]).unwrap() {
        replies.extend(reply_for(&msg));
        at += used;
    }
    replies
}

fn gather(ltx: &mut Ltx, requests: Vec<Request>) -> Result<Vec<Reply>, KirkError> {
    let (ids, bytes) = ltx.send(requests)?;
    let replies = answer(&bytes);
    // One byte per read: frames arrive in pieces.
    for byte in replies {
        assert!(ltx.poll(Ok(vec![byte])));
    }
    Ok(ltx.collect(&ids)?.expect("all replies are there"))
}

fn connected() -> Ltx {
    let mut ltx = Ltx::new("/in", "/out");
    ltx.connect(None).expect("connect");
    assert!(ltx.connected());
    ltx
}

#[test]
fn loopback_round_trip() {
    let mut ltx = connected();
    let replies = gather(&mut ltx, vec![Request::version()]).expect("version");
    assert_eq!(replies, vec![Reply::Version("0.1-test".to_string())]);

    let replies = gather(&mut ltx, vec![Request::ping()]).expect("ping");
    assert!(matches!(replies[0], Reply::Ping(_)));

    let replies = gather(
        &mut ltx,
        vec![
            Request::cwd(Some(0), "/tmp").expect("cwd"),
            Request::env(Some(0), "HELLO", "CIAO").expect("env"),
            Request::execute(slot(0), "echo hi").expect("exec"),
        ],
    )
    .expect("chain");
    assert_eq!(replies.len(), 3);
    match &replies[2] {
        Reply::Execute { si_status, stdout, .. } => {
            assert_eq!(*si_status, 0);
            assert_eq!(stdout, "mock-out-0");
        }
        other => panic!("expected execute reply, got {other:?}"),
    }

    let replies = gather(
        &mut ltx,
        vec![
            Request::set_file("/tmp/f", b"data").expect("set"),
            Request::get_file("/tmp/f").expect("get"),
        ],
    )
    .expect("files");
    assert!(matches!(replies[0], Reply::SetFile { .. }));
    match &replies[1] {
        Reply::GetFile { data, .. } => assert_eq!(data, b"file-bytes"),
        other => panic!("expected file reply, got {other:?}"),
    }

    let replies = gather(&mut ltx, vec![Request::kill(slot(0))]).expect("kill");
    assert_eq!(replies, vec![Reply::Kill { slot: 0 }]);
    ltx.disconnect().expect("disconnect");
    assert!(!ltx.connected());
}

#[test]
fn send_validates_input() {
    let mut ltx = Ltx::new("/nonexistent-in", "/nonexistent-out");
    assert!(ltx.send(vec![]).is_err());
    assert!(ltx.send(vec![Request::version()]).is_err());
    assert!(ltx.connect(Some("no such file")).is_err());
    assert!(!ltx.connected());
}

#[test]
fn sent_requests_are_numbered_and_packed_in_order() {
    let mut ltx = connected();
    let (ids, bytes) = ltx.send(vec![Request::version(), Request::ping()]).expect("send");
    assert_eq!(ids, [0, 1]);
    assert_eq!(bytes, [0x91, 0x00, 0x91, 0x01]);
    let (ids, bytes) = ltx.send(vec![Request::kill(slot(3))]).expect("send");
    assert_eq!(ids, [2]);
    assert_eq!(bytes, [0x92, 0xcc, 0xa1, 0x03]);
}

#[test]
fn peer_error_reaches_gather() {
    let mut ltx = connected();
    let (ids, _) = ltx.send(vec![Request::version()]).expect("send");
    let frame = rmp_serde::to_vec(&(OP_ERROR, "boom")).expect("error frame packs");
    assert!(!ltx.poll(Ok(frame)));
    assert!(ltx.collect(&ids).is_err());
    assert!(ltx.fatal().is_some());
}

#[test]
fn read_failure_reaches_gather() {
    let mut ltx = connected();
    let (ids, _) = ltx.send(vec![Request::version()]).expect("send");
    assert!(ltx.collect(&ids).unwrap().is_none());
    assert!(!ltx.poll(Err(ReadFailure::Read("gone".to_owned()))));
    assert!(ltx.collect(&ids).is_err());
    assert_eq!(ltx.fatal(), Some("LTX error: can't read LTX output: gone"));

    let mut ltx = connected();
    assert!(!ltx.poll(Err(ReadFailure::Wait("gone".to_owned()))));
    assert_eq!(ltx.fatal(), Some("LTX error: can't wait for LTX output: gone"));
}

#[test]
fn disconnect_aborts_poll_task() {
    let mut ltx = connected();
    ltx.disconnect().expect("disconnect");
    ltx.disconnect().expect("idempotent");
    assert!(!ltx.connected());
    ltx.connect(None).expect("reconnect");
    assert!(ltx.connected());
}

fn channel_config() -> TextMap {
    let mut cfg = TextMap::new();
    cfg.insert("infile", "/in");
    cfg.insert("outfile", "/out");
    cfg
}

fn linked() -> LtxChannel {
    let mut channel = LtxChannel::new();
    channel.setup(&channel_config(), true, true).expect("setup");
    let mut link = channel.open_link(None).expect("link");
    let handshake = gather(&mut link, vec![Request::version()]);
    channel.adopt(link, handshake).expect("adopt");
    channel
}

fn exchange(channel: &mut LtxChannel, requests: Vec<Request>) -> Vec<Reply> {
    let (ids, bytes) = channel.send_requests(requests).expect("send");
    assert!(channel.poll(Ok(answer(&bytes))));
    channel.collect(&ids).expect("collect").expect("all there")
}

#[test]
fn setup_rejects_missing_files() {
    let mut channel = LtxChannel::new();
    assert!(channel.setup(&TextMap::new(), false, false).is_err());
    let mut cfg = TextMap::new();
    cfg.insert("infile", "/nonexistent-in");
    cfg.insert("outfile", "/nonexistent-out");
    assert!(channel.setup(&cfg, false, false).is_err());
    assert!(channel.setup(&channel_config(), true, false).is_err());
    assert!(channel.setup(&channel_config(), true, true).is_ok());
    assert_eq!((channel.infile(), channel.outfile()), ("/in", "/out"));
    assert_eq!(channel.name(), "ltx");
}

#[test]
fn rejects_unsafe_target_paths() {
    assert!(check_target_path("").is_err());
    assert!(check_target_path("/tmp/../etc/passwd").is_err());
    assert!(check_target_path("a/../../b").is_err());
    assert!(check_target_path("/tmp/\0evil").is_err());
    assert!(check_target_path("/tmp/file.bin").is_ok());
    assert!(check_target_path("relative/file").is_ok());
}

#[test]
fn slot_pool_exhausts_and_recovers() {
    let mut channel = LtxChannel::new();
    let mut held = Vec::new();
    for _ in 0..MAX_SLOTS {
        held.push(channel.reserve_slot().expect("slot"));
    }
    assert!(channel.reserve_slot().is_err());
    channel.release_slot(held[0]);
    assert!(channel.reserve_slot().is_ok());
}

#[test]
fn inactive_channel_errors() {
    let mut channel = LtxChannel::new();
    assert!(!channel.active());
    assert!(channel.drop_link().is_ok());
    assert!(channel.ping_request().is_err());
    assert!(channel.fetch_request("/tmp/f").is_err());
    assert!(channel.admit_command("echo").is_err());
    assert!(channel.admit_command("").is_err());
    assert!(channel.slots_empty());
}

#[test]
fn full_loopback_flow() {
    let mut channel = linked();
    assert!(channel.parallel_execution());
    assert!(channel.active());
    assert!(channel.open_link(None).is_err());

    let ping = channel.ping_request().expect("ping");
    assert_eq!(exchange(&mut channel, vec![ping]), vec![Reply::Ping(77)]);

    let mut env = TextMap::new();
    env.insert("HELLO", "CIAO");
    let held = channel.admit_command("echo hi").expect("slot");
    let requests = execute_requests(slot(held), "echo hi", Some("/tmp"), Some(&env)).expect("run");
    let replies = exchange(&mut channel, requests);
    let streamed: Vec<String> = channel.take_streamed().into_iter().map(|c| c.1).collect();
    assert_eq!(streamed, ["mock-out-0"]);
    let result = command_result("echo hi", replies, 0.5f64.to_bits()).expect("result");
    assert_eq!(result.command, "echo hi");
    assert_eq!(result.returncode, 0);
    assert_eq!(result.stdout, "mock-out-0");
    channel.release_slot(held);

    let fetch = channel.fetch_request("/tmp/f").expect("fetch");
    let replies = exchange(&mut channel, vec![fetch]);
    assert_eq!(fetched_file(replies).expect("file"), b"file-bytes");

    assert!(channel.kill_requests().is_empty(), "no kill on a clean stop");
    channel.drop_link().expect("stop");
    assert!(!channel.active());
}

#[test]
fn stop_kills_in_flight_slots() {
    let mut channel = linked();
    channel.reserve_slot().expect("slot 0");
    channel.reserve_slot().expect("slot 1");
    let kills = channel.kill_requests();
    assert_eq!(kills.len(), 2, "one kill per slot in flight");
    assert_eq!(
        exchange(&mut channel, kills),
        vec![Reply::Kill { slot: 0 }, Reply::Kill { slot: 1 }]
    );
    channel.release_slot(0);
    channel.release_slot(1);
    assert!(channel.slots_empty());
}

#[test]
fn concurrent_handles_reserve_distinct_slots() {
    let mut channel = LtxChannel::new();
    let slot_a = channel.reserve_slot().expect("slot a");
    let slot_b = channel.reserve_slot().expect("slot b");
    assert_ne!(slot_a, slot_b, "handles share one slot pool");
    channel.release_slot(slot_a);
    channel.release_slot(slot_b);
    assert!(channel.reserve_slot().is_ok());
}

#[test]
fn concurrent_run_command_uses_distinct_slots_and_own_output() {
    let mut channel = linked();
    let slot_a = channel.admit_command("echo a").expect("slot a");
    let slot_b = channel.admit_command("echo b").expect("slot b");
    let run_a = execute_requests(slot(slot_a), "echo a", None, None).expect("requests a");
    let run_b = execute_requests(slot(slot_b), "echo b", None, None).expect("requests b");
    let (ids_a, bytes_a) = channel.send_requests(run_a).expect("send a");
    let (ids_b, bytes_b) = channel.send_requests(run_b).expect("send b");
    assert!(channel.poll(Ok(answer(&bytes_b))));
    assert!(channel.collect(&ids_a).unwrap().is_none());
    assert!(channel.poll(Ok(answer(&bytes_a))));
    let replies_a = channel.collect(&ids_a).unwrap().expect("a");
    let replies_b = channel.collect(&ids_b).unwrap().expect("b");
    let result_a = command_result("echo a", replies_a, 0).expect("result a");
    let result_b = command_result("echo b", replies_b, 0).expect("result b");
    assert_eq!(result_a.command, "echo a");
    assert_eq!(result_b.command, "echo b");
    assert_ne!(result_a.stdout, result_b.stdout);
    assert!(result_a.stdout.starts_with("mock-out-"));
    assert!(result_b.stdout.starts_with("mock-out-"));
}

#[test]
fn failed_handshake_leaves_no_link() {
    let mut channel = LtxChannel::new();
    channel.setup(&channel_config(), true, true).expect("setup");
    assert!(channel.open_link(Some("refused")).is_err());
    let link = channel.open_link(None).expect("link");
    let err = channel
        .adopt(link, Err(KirkError::Ltx("no reply".to_owned())))
        .unwrap_err();
    assert!(matches!(err, KirkError::Communication(_)));
    assert!(!channel.active());
}
