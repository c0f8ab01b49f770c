//! The helper's answers, and a session with it.

use ferrus::client::{
    expect_ok, needs_elevation, probe_reply, resolve_helper_path, response_words, ClientEvent, Op,
    Session, SessionAction, Stage,
};
use ferrus::helper::{
    is_blank, malformed_reply, validate_device_path, validate_image_path, Action, Helper, VERSION,
};
use ferrus::protocol::{BadBlocks, FlashPlan, PartitionScheme, Request, Response};

fn reply(a: Action) -> Response {
    match a {
        Action::Reply(r) => r,
        _ => panic!("no reply"),
    }
}

fn ok(text: &str) -> Response {
    Response::Done(Some(text.into()))
}

fn err(text: &str) -> Response {
    Response::Error(text.into())
}

fn acquire(h: &mut Helper, device: &str) {
    assert!(matches!(
        h.handle(Request::AcquireDevice { device: device.into() }),
        Action::CheckDevice(d) if d == device
    ));
    assert!(matches!(
        h.path_checked(Ok(device.into())),
        Action::Open(d, n) if d == device && n == device
    ));
    assert_eq!(reply(h.performed(Ok(String::new()))), ok("acquired"));
}

fn write(device: &str) -> Request {
    Request::WriteImage { device: device.into(), image: "/i.iso".into(), verify: true }
}

fn format_request(device: &str) -> Request {
    Request::ApplyPlan {
        device: device.into(),
        plan: FlashPlan::FormatDevice {
            scheme: PartitionScheme::Gpt,
            fs: "FAT32".into(),
            label: "X".into(),
            cluster_bytes: None,
            old_bios_align: false,
        },
        bad_blocks: Some(BadBlocks::Fast),
    }
}

#[test]
fn simple_requests() {
    let mut h = Helper::new();
    assert_eq!(reply(h.handle(Request::Ping)), ok("pong"));
    assert_eq!(reply(h.handle(Request::Version)), ok(VERSION));
    assert_eq!(VERSION, "0.3.0");
    assert_eq!(reply(h.handle(Request::Cancel)), err("no active job"));
    assert_eq!(
        reply(h.handle(Request::ReleaseDevice { device: "/dev/sda".into() })),
        err("device /dev/sda was not acquired")
    );
    assert_eq!(
        reply(h.handle(write("/dev/sda"))),
        err("device /dev/sda not acquired; send acquire_device first")
    );
    assert_eq!(
        reply(h.handle(format_request("/dev/sda"))),
        err("device /dev/sda not acquired; send acquire_device first")
    );
}

#[test]
fn probing_an_image() {
    let mut h = Helper::new();
    let probe = || Request::ProbeImage { image: "x.iso".into() };
    assert!(matches!(h.handle(probe()), Action::CheckImage(p) if p == "x.iso"));
    assert!(matches!(h.path_checked(Ok("/a/x.iso".into())), Action::Probe(p) if p == "/a/x.iso"));
    assert_eq!(reply(h.performed(Ok("{}".into()))), ok("{}"));
    h.handle(probe());
    assert_eq!(reply(h.path_checked(Err("gone".into()))), err("gone"));
    h.handle(probe());
    h.path_checked(Ok("/a/x.iso".into()));
    assert_eq!(reply(h.performed(Err("mount".into()))), err("mount"));
}

#[test]
fn acquiring_and_releasing() {
    let mut h = Helper::new();
    acquire(&mut h, "/dev/sda");
    // Asking again is fine and opens nothing.
    h.handle(Request::AcquireDevice { device: "/dev/sda".into() });
    assert_eq!(reply(h.path_checked(Ok("/dev/sda".into()))), ok("acquired"));
    assert_eq!(h.handles.len(), 1);
    acquire(&mut h, "/dev/sdb");
    assert_eq!(
        reply(h.handle(Request::ReleaseDevice { device: "/dev/sda".into() })),
        ok("released")
    );
    assert_eq!(h.handles, ["/dev/sdb"]);
    // A device that cannot be opened is not held.
    h.handle(Request::AcquireDevice { device: "/dev/sdc".into() });
    h.path_checked(Ok("/dev/sdc".into()));
    assert_eq!(
        reply(h.performed(Err("EBUSY".into()))),
        err("cannot acquire /dev/sdc: EBUSY (busy or read-only?)")
    );
    assert_eq!(h.handles, ["/dev/sdb"]);
}

#[test]
fn one_job_at_a_time() {
    let mut h = Helper::new();
    acquire(&mut h, "/dev/sda");
    assert!(matches!(h.handle(write("/dev/sda")), Action::CheckImage(p) if p == "/i.iso"));
    assert!(matches!(h.path_checked(Ok("/i.iso".into())), Action::CloneHandle(d) if d == "/dev/sda"));
    assert!(matches!(
        h.performed(Ok(String::new())),
        Action::StartWrite(d, i, true) if d == "/dev/sda" && i == "/i.iso"
    ));
    assert!(h.job);
    for r in [write("/dev/sda"), format_request("/dev/sda")] {
        assert_eq!(reply(h.handle(r)), err("another write job is already running"));
    }
    assert_eq!(
        reply(h.handle(Request::ReleaseDevice { device: "/dev/sda".into() })),
        err("a write job is active; cancel it first")
    );
    assert!(matches!(h.handle(Request::Cancel), Action::Stop));
    h.job_done();
    assert_eq!(reply(h.handle(Request::Cancel)), err("no active job"));
}

#[test]
fn applying_a_plan() {
    let mut h = Helper::new();
    acquire(&mut h, "/dev/sda");
    // Without an image the device is checked at once.
    assert!(matches!(h.handle(format_request("/dev/sda")), Action::CheckDevice(_)));
    assert!(matches!(h.path_checked(Ok("/dev/sda".into())), Action::CloneHandle(_)));
    assert_eq!(
        reply(h.performed(Err("EMFILE".into()))),
        err("cannot clone device handle: EMFILE")
    );
    assert!(!h.job);
    // With one the image comes first.
    let plan = FlashPlan::WinUefiNtfs {
        image: "/w.iso".into(),
        scheme: PartitionScheme::Gpt,
        options: Default::default(),
    };
    let apply = |d: &str| Request::ApplyPlan {
        device: d.into(),
        plan: plan.clone(),
        bad_blocks: None,
    };
    assert!(matches!(h.handle(apply("/dev/sda")), Action::CheckImage(p) if p == "/w.iso"));
    assert!(matches!(h.path_checked(Ok("/w.iso".into())), Action::CheckDevice(_)));
    h.path_checked(Ok("/dev/sda".into()));
    assert!(matches!(
        h.performed(Ok(String::new())),
        Action::StartPlan(d, n, p, None) if d == "/dev/sda" && n == "/dev/sda" && p == plan
    ));
    h.job_done();
    h.handle(apply("/dev/sdx"));
    assert_eq!(
        reply(h.path_checked(Ok("/w.iso".into()))),
        err("device /dev/sdx not acquired; send acquire_device first")
    );
}

#[test]
fn only_whole_disks() {
    assert_eq!(validate_device_path("/dev/sda", "/dev/sda", true, false), Ok(()));
    assert_eq!(validate_device_path("/dev/loop0", "/dev/loop0", true, true), Ok(()));
    let refused = |raw: &str, canon: &str, block: bool, allow: bool| {
        validate_device_path(raw, canon, block, allow).unwrap_err()
    };
    assert_eq!(refused("/x", "/x", false, true), "/x is not a block device");
    assert_eq!(refused("d", "/tmp/sda", true, false), "refusing non-/dev device d");
    assert_eq!(
        refused("/dev/disk/a", "/dev/mapper/a", true, false),
        "refusing non-/dev device /dev/disk/a"
    );
    assert_eq!(refused("/dev/sda1", "/dev/sda1", true, true), "refusing partition node /dev/sda1");
    assert_eq!(
        refused("/dev/loop0", "/dev/loop0", true, false),
        "refusing loop device /dev/loop0 (set FERRUS_ALLOW_LOOP=1 to enable loop-device testing)"
    );
    assert_eq!(refused("/", "/", true, false), "bad device path");
    assert_eq!(validate_image_path("/i", true), Ok(()));
    assert_eq!(validate_image_path("/i", false), Err("/i is not a regular file".into()));
}

#[test]
fn lines_of_input() {
    assert!(is_blank(" \t\r"));
    assert!(!is_blank(" {"));
    assert_eq!(malformed_reply("EOF"), err("malformed request: EOF"));
}

#[test]
fn session_from_start_to_end() {
    let op = Op::Write { image: "/i".into(), verify: true };
    let (mut s, a) = Session::start("/dev/sda", op);
    assert!(matches!(
        a,
        SessionAction::Send(Request::AcquireDevice { device }) if device == "/dev/sda"
    ));
    assert!(matches!(s.sent(Ok(())), SessionAction::Read));
    assert!(matches!(
        s.received(Ok(ok("acquired"))),
        SessionAction::Send(Request::WriteImage { device, image, verify: true })
            if device == "/dev/sda" && image == "/i"
    ));
    assert!(matches!(s.sent(Ok(())), SessionAction::Read));
    assert!(matches!(s.received(Ok(Response::Accepted)), SessionAction::Read));
    let progress =
        Response::Progress { done: 1, total: 2, verifying: false, phase: Some("copying".into()) };
    assert!(matches!(
        s.received(Ok(progress)),
        SessionAction::Emit(ClientEvent::Progress { done: 1, total: 2, verifying: false, phase })
            if phase.as_deref() == Some("copying")
    ));
    assert!(matches!(s.received(Ok(Response::Cancelled)), SessionAction::Read));
    assert!(matches!(
        s.received(Ok(Response::Done(None))),
        SessionAction::SendAndFinish(Request::ReleaseDevice { device }, Ok(m))
            if device == "/dev/sda" && m == "done"
    ));
    assert_eq!(s.stage, Stage::Over);
}

#[test]
fn sessions_that_fail() {
    let new = || {
        let plan = FlashPlan::IsoExtract {
            image: "/i".into(),
            scheme: PartitionScheme::Mbr,
            syslinux_bios: true,
        };
        Session::start("/dev/sda", Op::Apply(plan, Some(BadBlocks::Thorough))).0
    };
    let mut s = new();
    assert!(matches!(s.sent(Err("pipe".into())), SessionAction::Finish(Err(e)) if e == "pipe"));

    let mut s = new();
    assert!(matches!(
        s.received(Ok(err("it's \"busy\"\n"))),
        SessionAction::Finish(Err(e)) if e == "acquire failed: Error(\"it's \\\"busy\\\"\\n\")"
    ));

    let mut s = new();
    assert!(matches!(s.received(Err("closed".into())), SessionAction::Finish(Err(e)) if e == "closed"));

    let mut s = new();
    assert!(matches!(
        s.received(Ok(ok("acquired"))),
        SessionAction::Send(Request::ApplyPlan { bad_blocks: Some(BadBlocks::Thorough), .. })
    ));
    assert!(matches!(
        s.received(Ok(err("mkfs"))),
        SessionAction::SendAndFinish(Request::ReleaseDevice { .. }, Err(e)) if e == "mkfs"
    ));
}

#[test]
fn unexpected_responses_in_words() {
    assert_eq!(expect_ok(ok("x"), "acquire"), Ok(Some("x".into())));
    assert_eq!(
        expect_ok(
            Response::Progress { done: 1, total: 2, verifying: true, phase: Some("a\tb".into()) },
            "acquire"
        ),
        Err("acquire failed: Progress { done: 1, total: 2, verifying: true, phase: Some(\"a\\tb\") }".into())
    );
    assert_eq!(expect_ok(Response::Accepted, "x"), Err("x failed: Accepted".into()));
    assert_eq!(response_words(&Response::Done(None), ""), "Ok(None)");
    assert_eq!(response_words(&ok("a"), "\"a\""), "Ok(Some(\"a\"))");
    assert_eq!(
        response_words(
            &Response::Progress { done: 0, total: 0, verifying: false, phase: None },
            ""
        ),
        "Progress { done: 0, total: 0, verifying: false, phase: None }"
    );
}

#[test]
fn answers_to_a_probe() {
    assert_eq!(probe_reply(ok("{}")), Ok("{}".into()));
    assert_eq!(probe_reply(Response::Done(None)), Err("helper returned empty manifest".into()));
    assert_eq!(probe_reply(err("no")), Err("no".into()));
    assert_eq!(
        probe_reply(Response::Cancelled),
        Err("unexpected probe response: Cancelled".into())
    );
}

#[test]
fn starting_the_helper() {
    assert!(needs_elevation(1000, false));
    assert!(!needs_elevation(1000, true));
    assert!(!needs_elevation(0, false));
    assert_eq!(resolve_helper_path(Some("/h"), Some("/bin"), true).as_deref(), Some("/h"));
    assert_eq!(
        resolve_helper_path(None, Some("/bin"), true).as_deref(),
        Some("/bin/ferrus-helper")
    );
    assert_eq!(resolve_helper_path(None, Some("/bin"), false), None);
    assert_eq!(resolve_helper_path(None, None, true), None);
}
