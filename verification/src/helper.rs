//! The privileged helper: what it answers to each request, and when a job may
//! start.
//!
//! A request is answered at once or takes a few looks at the system first. The
//! helper says what to look at; whoever runs it looks and tells what was found.

use crate::iso::opt_text;
use crate::paths::{dir_part, file_name, path_dir, path_file_name};
use crate::protocol::{BadBlocks, FlashPlan, Request, Response};
use crate::text::{is_digit, starts_with, starts_with_str, str_eq, to_chars, trim, trim_chars};
use crate::write::{written_message, written_text, WriteOutcome};
use vstd::prelude::*;
use vstd::string::*;

verus! {

/// The helper's version.
pub const VERSION: &'static str = "0.3.0";

/// A response as plain values.
pub enum ReplyModel {
    Done(Option<Seq<char>>),
    Error(Seq<char>),
    Cancelled,
    Accepted,
    Progress(u64, u64, bool, Option<Seq<char>>),
}

impl Response {
    pub open spec fn view(self) -> ReplyModel {
        match self {
            Response::Done(d) => ReplyModel::Done(opt_text(d)),
            Response::Error(e) => ReplyModel::Error(e@),
            Response::Cancelled => ReplyModel::Cancelled,
            Response::Accepted => ReplyModel::Accepted,
            Response::Progress { done, total, verifying, phase } => ReplyModel::Progress(
                done,
                total,
                verifying,
                opt_text(phase),
            ),
        }
    }
}

fn done(text: &str) -> (r: Response)
    ensures
        r@ == ReplyModel::Done(Some(text@)),
{
    Response::Done(Some(text.to_owned()))
}

fn error(text: &str) -> (r: Response)
    ensures
        r@ == ReplyModel::Error(text@),
{
    Response::Error(text.to_owned())
}

// ---- paths ----------------------------------------------------------------------

/// Why a device is refused; None where it is a whole disk directly under
/// `/dev`. Loop devices are for tests and have to be allowed.
pub open spec fn device_refusal(
    raw: Seq<char>,
    canon: Seq<char>,
    is_block: bool,
    allow_loop: bool,
) -> Option<Seq<char>> {
    if !is_block {
        Some(raw + " is not a block device"@)
    } else {
        match file_name(canon) {
            None => Some("bad device path"@),
            Some(name) => {
                let is_loop = starts_with(name, "loop"@);
                if dir_part(canon) != "/dev"@ {
                    Some("refusing non-/dev device "@ + raw)
                } else if is_loop && !allow_loop {
                    Some(
                        "refusing loop device "@ + raw
                            + " (set FERRUS_ALLOW_LOOP=1 to enable loop-device testing)"@,
                    )
                } else if name.len() > 0 && is_digit(name.last()) && !(is_loop && allow_loop) {
                    Some("refusing partition node "@ + raw)
                } else {
                    None
                }
            },
        }
    }
}

/// Checks a device: `canon` is where `raw` leads, `is_block` whether that is a
/// block device.
pub fn validate_device_path(raw: &str, canon: &str, is_block: bool, allow_loop: bool) -> (r: Result<
    (),
    String,
>)
    ensures
        match r {
            Ok(_) => device_refusal(raw@, canon@, is_block, allow_loop) is None,
            Err(e) => device_refusal(raw@, canon@, is_block, allow_loop) == Some(e@),
        },
{
    if !is_block {
        return Err(raw.to_owned().concat(" is not a block device"));
    }
    let name: String = match path_file_name(canon) {
        Some(n) => n,
        None => return Err("bad device path".to_owned()),
    };
    if !str_eq(path_dir(canon).as_str(), "/dev") {
        return Err("refusing non-/dev device ".to_owned().concat(raw));
    }
    let is_loop: bool = starts_with_str(name.as_str(), "loop");
    if is_loop && !allow_loop {
        return Err(
            "refusing loop device ".to_owned().concat(raw).concat(
                " (set FERRUS_ALLOW_LOOP=1 to enable loop-device testing)",
            ),
        );
    }
    let v: Vec<char> = to_chars(name.as_str());
    if v.len() > 0 && '0' <= v[v.len() - 1] && v[v.len() - 1] <= '9' && !(is_loop && allow_loop) {
        return Err("refusing partition node ".to_owned().concat(raw));
    }
    Ok(())
}

/// Checks an image: it has to be a regular file.
pub fn validate_image_path(raw: &str, is_file: bool) -> (r: Result<(), String>)
    ensures
        match r {
            Ok(_) => is_file,
            Err(e) => !is_file && e@ == raw@ + " is not a regular file"@,
        },
{
    if is_file {
        Ok(())
    } else {
        Err(raw.to_owned().concat(" is not a regular file"))
    }
}

/// A partition of a disk is refused, as is anything outside `/dev`.
pub proof fn law_only_whole_disks(
    raw: Seq<char>,
    canon: Seq<char>,
    is_block: bool,
    allow_loop: bool,
)
    requires
        device_refusal(raw, canon, is_block, allow_loop) is None,
    ensures
        is_block,
        dir_part(canon) == "/dev"@,
        file_name(canon) is Some,
        starts_with(file_name(canon)->0, "loop"@) ==> allow_loop,
        !starts_with(file_name(canon)->0, "loop"@) ==> !is_digit(file_name(canon)->0.last())
            || file_name(canon)->0.len() == 0,
{
}

// ---- requests --------------------------------------------------------------------

/// What the helper waits for.
pub enum Pending {
    /// Nothing.
    Nothing,
    /// The check of an image that is to be probed.
    ProbeCheck,
    /// The manifest of an image.
    Probe,
    /// The check of a device that is to be acquired.
    AcquireCheck(String),
    /// The opening of a device, at this node.
    AcquireOpen(String, String),
    /// The check of an image that is to be written.
    WriteCheck(String, bool),
    /// A second handle on a device to which an image, checked, is to be written.
    WriteClone(String, String, bool),
    /// The check of the image of a plan.
    PlanImage(String, FlashPlan, Option<BadBlocks>),
    /// The check of the device of a plan.
    PlanDevice(String, FlashPlan, Option<BadBlocks>),
    /// A second handle on the device of a plan, whose node was checked.
    PlanClone(String, String, FlashPlan, Option<BadBlocks>),
}

/// What to do next.
pub enum Action {
    /// Answer.
    Reply(Response),
    /// Resolve this path and say whether it is a regular file.
    CheckImage(String),
    /// Mount the checked image and make its manifest.
    Probe(String),
    /// Resolve this path and say whether it is a usable device.
    CheckDevice(String),
    /// Open this node for reading and writing and keep it under this name.
    Open(String, String),
    /// Make a second handle on this acquired device.
    CloneHandle(String),
    /// Start a job that writes an image, then answer that it was accepted.
    StartWrite(String, String, bool),
    /// Start a job that runs a plan on a node, then answer that it was accepted.
    StartPlan(String, String, FlashPlan, Option<BadBlocks>),
    /// Ask the job to stop, kill its children, and answer that it is cancelled.
    Stop,
}

/// What the helper waits for, as plain values.
pub enum PendingModel {
    Nothing,
    ProbeCheck,
    Probe,
    AcquireCheck(Seq<char>),
    AcquireOpen(Seq<char>, Seq<char>),
    WriteCheck(Seq<char>, bool),
    WriteClone(Seq<char>, Seq<char>, bool),
    PlanImage(Seq<char>, FlashPlan, Option<BadBlocks>),
    PlanDevice(Seq<char>, FlashPlan, Option<BadBlocks>),
    PlanClone(Seq<char>, Seq<char>, FlashPlan, Option<BadBlocks>),
}

pub enum ActionModel {
    Reply(ReplyModel),
    CheckImage(Seq<char>),
    Probe(Seq<char>),
    CheckDevice(Seq<char>),
    Open(Seq<char>, Seq<char>),
    CloneHandle(Seq<char>),
    StartWrite(Seq<char>, Seq<char>, bool),
    StartPlan(Seq<char>, Seq<char>, FlashPlan, Option<BadBlocks>),
    Stop,
}

impl Pending {
    pub open spec fn view(self) -> PendingModel {
        match self {
            Pending::Nothing => PendingModel::Nothing,
            Pending::ProbeCheck => PendingModel::ProbeCheck,
            Pending::Probe => PendingModel::Probe,
            Pending::AcquireCheck(d) => PendingModel::AcquireCheck(d@),
            Pending::AcquireOpen(d, n) => PendingModel::AcquireOpen(d@, n@),
            Pending::WriteCheck(d, v) => PendingModel::WriteCheck(d@, v),
            Pending::WriteClone(d, i, v) => PendingModel::WriteClone(d@, i@, v),
            Pending::PlanImage(d, p, b) => PendingModel::PlanImage(d@, p, b),
            Pending::PlanDevice(d, p, b) => PendingModel::PlanDevice(d@, p, b),
            Pending::PlanClone(d, n, p, b) => PendingModel::PlanClone(d@, n@, p, b),
        }
    }
}

impl Action {
    pub open spec fn view(self) -> ActionModel {
        match self {
            Action::Reply(r) => ActionModel::Reply(r@),
            Action::CheckImage(p) => ActionModel::CheckImage(p@),
            Action::Probe(p) => ActionModel::Probe(p@),
            Action::CheckDevice(p) => ActionModel::CheckDevice(p@),
            Action::Open(d, n) => ActionModel::Open(d@, n@),
            Action::CloneHandle(d) => ActionModel::CloneHandle(d@),
            Action::StartWrite(d, i, v) => ActionModel::StartWrite(d@, i@, v),
            Action::StartPlan(d, n, p, b) => ActionModel::StartPlan(d@, n@, p, b),
            Action::Stop => ActionModel::Stop,
        }
    }
}

/// The helper between two looks at the system.
#[verifier::ext_equal]
pub struct HelperModel {
    /// Acquired devices, under the names by which they were asked for.
    pub handles: Seq<Seq<char>>,
    /// Whether a job runs.
    pub job: bool,
    pub pending: PendingModel,
}

pub struct Helper {
    pub handles: Vec<String>,
    pub job: bool,
    pub pending: Pending,
}

pub open spec fn reply_error(text: Seq<char>) -> ActionModel {
    ActionModel::Reply(ReplyModel::Error(text))
}

pub open spec fn reply_done(text: Seq<char>) -> ActionModel {
    ActionModel::Reply(ReplyModel::Done(Some(text)))
}

pub open spec fn not_acquired(device: Seq<char>) -> Seq<char> {
    "device "@ + device + " not acquired; send acquire_device first"@
}

impl HelperModel {
    /// No device is held twice, a device that is being opened is not held yet,
    /// and while a start is being prepared no job runs.
    pub open spec fn wf(self) -> bool {
        &&& self.handles.no_duplicates()
        &&& self.pending matches PendingModel::AcquireOpen(d, _) ==> !self.handles.contains(d)
        &&& self.preparing() ==> !self.job
    }

    pub open spec fn preparing(self) -> bool {
        match self.pending {
            PendingModel::WriteCheck(_, _) => true,
            PendingModel::WriteClone(_, _, _) => true,
            PendingModel::PlanImage(_, _, _) => true,
            PendingModel::PlanDevice(_, _, _) => true,
            PendingModel::PlanClone(_, _, _, _) => true,
            _ => false,
        }
    }

    /// Whether a check of a path is under way.
    pub open spec fn awaits_check(self) -> bool {
        match self.pending {
            PendingModel::ProbeCheck => true,
            PendingModel::AcquireCheck(_) => true,
            PendingModel::WriteCheck(_, _) => true,
            PendingModel::PlanImage(_, _, _) => true,
            PendingModel::PlanDevice(_, _, _) => true,
            _ => false,
        }
    }

    /// Whether something else was asked for.
    pub open spec fn awaits_result(self) -> bool {
        match self.pending {
            PendingModel::Probe => true,
            PendingModel::AcquireOpen(_, _) => true,
            PendingModel::WriteClone(_, _, _) => true,
            PendingModel::PlanClone(_, _, _, _) => true,
            _ => false,
        }
    }

    pub open spec fn waits(self, pending: PendingModel) -> HelperModel {
        HelperModel { pending, ..self }
    }

    pub open spec fn idle(self) -> HelperModel {
        self.waits(PendingModel::Nothing)
    }

    /// The answer to a request, or the first thing to look at.
    pub open spec fn request(self, req: Request) -> (HelperModel, ActionModel) {
        match req {
            Request::Ping => (self, reply_done("pong"@)),
            Request::Version => (self, reply_done(VERSION@)),
            Request::ProbeImage { image } => (
                self.waits(PendingModel::ProbeCheck),
                ActionModel::CheckImage(image@),
            ),
            Request::AcquireDevice { device } => (
                self.waits(PendingModel::AcquireCheck(device@)),
                ActionModel::CheckDevice(device@),
            ),
            Request::ReleaseDevice { device } => if self.job {
                (self, reply_error("a write job is active; cancel it first"@))
            } else if self.handles.contains(device@) {
                (
                    HelperModel {
                        handles: self.handles.remove(self.handles.index_of(device@)),
                        ..self
                    },
                    reply_done("released"@),
                )
            } else {
                (self, reply_error("device "@ + device@ + " was not acquired"@))
            },
            Request::WriteImage { device, image, verify } => if self.job {
                (self, reply_error("another write job is already running"@))
            } else if !self.handles.contains(device@) {
                (self, reply_error(not_acquired(device@)))
            } else {
                (
                    self.waits(PendingModel::WriteCheck(device@, verify)),
                    ActionModel::CheckImage(image@),
                )
            },
            Request::ApplyPlan { device, plan, bad_blocks } => if self.job {
                (self, reply_error("another write job is already running"@))
            } else {
                match plan.image() {
                    Some(image) => (
                        self.waits(PendingModel::PlanImage(device@, plan, bad_blocks)),
                        ActionModel::CheckImage(image),
                    ),
                    None => self.plan_image_ok(device@, plan, bad_blocks),
                }
            },
            Request::Cancel => if self.job {
                (self, ActionModel::Stop)
            } else {
                (self, reply_error("no active job"@))
            },
        }
    }

    /// The image of a plan is in order.
    pub open spec fn plan_image_ok(
        self,
        device: Seq<char>,
        plan: FlashPlan,
        bad_blocks: Option<BadBlocks>,
    ) -> (HelperModel, ActionModel) {
        if !self.handles.contains(device) {
            (self.idle(), reply_error(not_acquired(device)))
        } else {
            (
                self.waits(PendingModel::PlanDevice(device, plan, bad_blocks)),
                ActionModel::CheckDevice(device),
            )
        }
    }

    /// A path was checked: where it leads, or why it is refused.
    pub open spec fn checked(self, found: Result<Seq<char>, Seq<char>>) -> (
        HelperModel,
        ActionModel,
    ) {
        match found {
            Err(e) => (self.idle(), reply_error(e)),
            Ok(path) => match self.pending {
                PendingModel::ProbeCheck => (
                    self.waits(PendingModel::Probe),
                    ActionModel::Probe(path),
                ),
                PendingModel::AcquireCheck(device) => if self.handles.contains(device) {
                    (self.idle(), reply_done("acquired"@))
                } else {
                    (
                        self.waits(PendingModel::AcquireOpen(device, path)),
                        ActionModel::Open(device, path),
                    )
                },
                PendingModel::WriteCheck(device, verify) => (
                    self.waits(PendingModel::WriteClone(device, path, verify)),
                    ActionModel::CloneHandle(device),
                ),
                PendingModel::PlanImage(device, plan, bad_blocks) => self.plan_image_ok(
                    device,
                    plan,
                    bad_blocks,
                ),
                PendingModel::PlanDevice(device, plan, bad_blocks) => (
                    self.waits(PendingModel::PlanClone(device, path, plan, bad_blocks)),
                    ActionModel::CloneHandle(device),
                ),
                _ => (self, reply_error(seq![])),
            },
        }
    }

    /// What was asked for was done, or failed with an error.
    pub open spec fn performed(self, result: Result<Seq<char>, Seq<char>>) -> (
        HelperModel,
        ActionModel,
    ) {
        match self.pending {
            PendingModel::Probe => match result {
                Ok(manifest) => (self.idle(), reply_done(manifest)),
                Err(e) => (self.idle(), reply_error(e)),
            },
            PendingModel::AcquireOpen(device, node) => match result {
                Ok(_) => (
                    HelperModel { handles: self.handles.push(device), ..self.idle() },
                    reply_done("acquired"@),
                ),
                Err(e) => (
                    self.idle(),
                    reply_error("cannot acquire "@ + node + ": "@ + e + " (busy or read-only?)"@),
                ),
            },
            PendingModel::WriteClone(device, image, verify) => match result {
                Ok(_) => (
                    HelperModel { job: true, ..self.idle() },
                    ActionModel::StartWrite(device, image, verify),
                ),
                Err(e) => (self.idle(), reply_error("cannot clone device handle: "@ + e)),
            },
            PendingModel::PlanClone(device, node, plan, bad_blocks) => match result {
                Ok(_) => (
                    HelperModel { job: true, ..self.idle() },
                    ActionModel::StartPlan(device, node, plan, bad_blocks),
                ),
                Err(e) => (self.idle(), reply_error("cannot clone device handle: "@ + e)),
            },
            _ => (self, reply_error(seq![])),
        }
    }
}

pub open spec fn result_view(r: Result<String, String>) -> Result<Seq<char>, Seq<char>> {
    match r {
        Ok(t) => Ok(t@),
        Err(e) => Err(e@),
    }
}

impl Helper {
    pub open spec fn view(self) -> HelperModel {
        HelperModel {
            handles: crate::commands::texts(self.handles@),
            job: self.job,
            pending: self.pending@,
        }
    }

    pub fn new() -> (h: Helper)
        ensures
            h@ == (HelperModel { handles: seq![], job: false, pending: PendingModel::Nothing }),
            h@.wf(),
    {
        let h = Helper { handles: Vec::new(), job: false, pending: Pending::Nothing };
        assert(h@.handles =~= seq![]);
        h
    }

    /// Where a device stands among the acquired ones.
    fn find(&self, device: &str) -> (r: Option<usize>)
        ensures
            match r {
                Some(i) => i < self@.handles.len() && self@.handles[i as int] == device@,
                None => !self@.handles.contains(device@),
            },
    {
        let mut i: usize = 0;
        while i < self.handles.len()
            invariant
                i <= self.handles@.len(),
                forall|j: int| 0 <= j < i ==> self@.handles[j] != device@,
            decreases self.handles@.len() - i,
        {
            if str_eq(self.handles[i].as_str(), device) {
                return Some(i);
            }
            i += 1;
        }
        None
    }

    fn set_pending(&mut self, pending: Pending)
        ensures
            final(self)@ == old(self)@.waits(pending@),
    {
        self.pending = pending;
    }

    /// Takes what is pending and leaves nothing.
    fn take_pending(&mut self) -> (p: Pending)
        ensures
            p@ == old(self)@.pending,
            final(self)@ == old(self)@.idle(),
    {
        let mut p = Pending::Nothing;
        std::mem::swap(&mut p, &mut self.pending);
        p
    }

    /// The answer to a request, or the first thing to look at.
    pub fn handle(&mut self, req: Request) -> (a: Action)
        requires
            old(self)@.wf(),
            old(self)@.pending is Nothing,
        ensures
            (final(self)@, a@) == old(self)@.request(req),
            final(self)@.wf(),
    {
        let ghost start = self@;
        match req {
            Request::Ping => Action::Reply(done("pong")),
            Request::Version => Action::Reply(done(VERSION)),
            Request::ProbeImage { image } => {
                self.set_pending(Pending::ProbeCheck);
                Action::CheckImage(image)
            },
            Request::AcquireDevice { device } => {
                self.set_pending(Pending::AcquireCheck(device.as_str().to_owned()));
                Action::CheckDevice(device)
            },
            Request::ReleaseDevice { device } => {
                if self.job {
                    return Action::Reply(error("a write job is active; cancel it first"));
                }
                match self.find(device.as_str()) {
                    Some(i) => {
                        let _gone: String = self.handles.remove(i);
                        proof {
                            assert(start.handles.contains(device@));
                            let k = start.handles.index_of(device@);
                            assert(start.handles[k] == device@);
                            assert(k == i);
                            assert(self@.handles =~= start.handles.remove(k));
                            lemma_remove_unique(start.handles, k);
                        }
                        Action::Reply(done("released"))
                    },
                    None => Action::Reply(
                        error(
                            "device ".to_owned().concat(device.as_str()).concat(
                                " was not acquired",
                            ).as_str(),
                        ),
                    ),
                }
            },
            Request::WriteImage { device, image, verify } => {
                if self.job {
                    return Action::Reply(error("another write job is already running"));
                }
                match self.find(device.as_str()) {
                    Some(_) => {
                        self.set_pending(Pending::WriteCheck(device, verify));
                        Action::CheckImage(image)
                    },
                    None => not_acquired_reply(device.as_str()),
                }
            },
            Request::ApplyPlan { device, plan, bad_blocks } => {
                if self.job {
                    return Action::Reply(error("another write job is already running"));
                }
                let image: Option<String> = match plan.image_path() {
                    Some(i) => Some(i.to_owned()),
                    None => None,
                };
                match image {
                    Some(i) => {
                        self.set_pending(Pending::PlanImage(device, plan, bad_blocks));
                        Action::CheckImage(i)
                    },
                    None => {
                        proof {
                            assert(start.idle() =~= start);
                        }
                        self.plan_ready(device, plan, bad_blocks)
                    },
                }
            },
            Request::Cancel => if self.job {
                Action::Stop
            } else {
                Action::Reply(error("no active job"))
            },
        }
    }

    /// The image of a plan is in order: the device is next.
    fn plan_ready(&mut self, device: String, plan: FlashPlan, bad_blocks: Option<BadBlocks>) -> (a:
        Action)
        requires
            old(self)@.pending is Nothing,
        ensures
            (final(self)@, a@) == old(self)@.plan_image_ok(device@, plan, bad_blocks),
            final(self)@.handles == old(self)@.handles,
            final(self)@.job == old(self)@.job,
    {
        let ghost start = self@;
        match self.find(device.as_str()) {
            Some(_) => {
                let check: String = device.as_str().to_owned();
                self.set_pending(Pending::PlanDevice(device, plan, bad_blocks));
                Action::CheckDevice(check)
            },
            None => {
                assert(start.idle() =~= start);
                not_acquired_reply(device.as_str())
            },
        }
    }

    /// A path was checked: where it leads, or why it is refused.
    pub fn path_checked(&mut self, found: Result<String, String>) -> (a: Action)
        requires
            old(self)@.wf(),
            old(self)@.awaits_check(),
        ensures
            (final(self)@, a@) == old(self)@.checked(result_view(found)),
            final(self)@.wf(),
    {
        let ghost start = self@;
        let pending = self.take_pending();
        let path: String = match found {
            Ok(p) => p,
            Err(e) => return Action::Reply(Response::Error(e)),
        };
        match pending {
            Pending::ProbeCheck => {
                self.set_pending(Pending::Probe);
                Action::Probe(path)
            },
            Pending::AcquireCheck(device) => match self.find(device.as_str()) {
                Some(_) => Action::Reply(done("acquired")),
                None => {
                    let node: String = path.as_str().to_owned();
                    let name: String = device.as_str().to_owned();
                    self.set_pending(Pending::AcquireOpen(device, path));
                    Action::Open(name, node)
                },
            },
            Pending::WriteCheck(device, verify) => {
                let name: String = device.as_str().to_owned();
                self.set_pending(Pending::WriteClone(device, path, verify));
                Action::CloneHandle(name)
            },
            Pending::PlanImage(device, plan, bad_blocks) => {
                proof {
                    assert(start.idle().plan_image_ok(device@, plan, bad_blocks)
                        == start.plan_image_ok(device@, plan, bad_blocks));
                }
                self.plan_ready(device, plan, bad_blocks)
            },
            Pending::PlanDevice(device, plan, bad_blocks) => {
                let name: String = device.as_str().to_owned();
                self.set_pending(Pending::PlanClone(device, path, plan, bad_blocks));
                Action::CloneHandle(name)
            },
            _ => Action::Reply(error("")),
        }
    }

    /// What was asked for was done, or failed with an error.
    pub fn performed(&mut self, result: Result<String, String>) -> (a: Action)
        requires
            old(self)@.wf(),
            old(self)@.awaits_result(),
        ensures
            (final(self)@, a@) == old(self)@.performed(result_view(result)),
            final(self)@.wf(),
    {
        let ghost start = self@;
        let pending = self.take_pending();
        match pending {
            Pending::Probe => match result {
                Ok(m) => Action::Reply(Response::Done(Some(m))),
                Err(e) => Action::Reply(Response::Error(e)),
            },
            Pending::AcquireOpen(device, node) => match result {
                Ok(_) => {
                    self.handles.push(device);
                    assert(self@.handles =~= start.handles.push(device@));
                    Action::Reply(done("acquired"))
                },
                Err(e) => Action::Reply(
                    error(
                        "cannot acquire ".to_owned().concat(node.as_str()).concat(": ").concat(
                            e.as_str(),
                        ).concat(" (busy or read-only?)").as_str(),
                    ),
                ),
            },
            Pending::WriteClone(device, image, verify) => match result {
                Ok(_) => {
                    self.job = true;
                    Action::StartWrite(device, image, verify)
                },
                Err(e) => clone_error(e.as_str()),
            },
            Pending::PlanClone(device, node, plan, bad_blocks) => match result {
                Ok(_) => {
                    self.job = true;
                    Action::StartPlan(device, node, plan, bad_blocks)
                },
                Err(e) => clone_error(e.as_str()),
            },
            _ => Action::Reply(error("")),
        }
    }

    /// The job is over.
    pub fn job_done(&mut self)
        requires
            old(self)@.wf(),
        ensures
            final(self)@ == (HelperModel { job: false, ..old(self)@ }),
            final(self)@.wf(),
    {
        self.job = false;
    }
}

proof fn lemma_remove_unique(s: Seq<Seq<char>>, k: int)
    requires
        s.no_duplicates(),
        0 <= k < s.len(),
    ensures
        s.remove(k).no_duplicates(),
        !s.remove(k).contains(s[k]),
{
    let t = s.remove(k);
    assert forall|i: int, j: int| 0 <= i < t.len() && 0 <= j < t.len() && i != j implies t[i]
        != t[j] by {
        let i0 = if i < k { i } else { i + 1 };
        let j0 = if j < k { j } else { j + 1 };
        assert(t[i] == s[i0] && t[j] == s[j0]);
    }
    if t.contains(s[k]) {
        let i = choose|i: int| 0 <= i < t.len() && t[i] == s[k];
        let i0 = if i < k { i } else { i + 1 };
        assert(s[i0] == s[k]);
    }
}

fn not_acquired_reply(device: &str) -> (a: Action)
    ensures
        a@ == reply_error(not_acquired(device@)),
{
    Action::Reply(
        error(
            "device ".to_owned().concat(device).concat(
                " not acquired; send acquire_device first",
            ).as_str(),
        ),
    )
}

fn clone_error(e: &str) -> (a: Action)
    ensures
        a@ == reply_error("cannot clone device handle: "@ + e@),
{
    Action::Reply(error("cannot clone device handle: ".to_owned().concat(e).as_str()))
}

// ---- the end of a job -------------------------------------------------------------

/// The last response of a job that wrote an image.
pub fn write_reply(device: &str, verify: bool, result: Result<WriteOutcome, String>) -> (r: Response)
    ensures
        r@ == match result {
            Ok(WriteOutcome::Completed) => ReplyModel::Done(Some(written_text(verify, device@))),
            Ok(WriteOutcome::Cancelled) => ReplyModel::Error("cancelled by user"@),
            Err(e) => ReplyModel::Error(e@),
        },
{
    match result {
        Ok(WriteOutcome::Completed) => Response::Done(Some(written_message(verify, device))),
        Ok(WriteOutcome::Cancelled) => error("cancelled by user"),
        Err(e) => Response::Error(e),
    }
}

/// The last response of a job that ran a plan.
pub fn plan_reply(result: Result<String, String>) -> (r: Response)
    ensures
        r@ == match result {
            Ok(m) => ReplyModel::Done(Some(m@)),
            Err(e) => if e@ == "cancelled"@ {
                ReplyModel::Error("cancelled by user"@)
            } else {
                ReplyModel::Error(e@)
            },
        },
{
    match result {
        Ok(m) => Response::Done(Some(m)),
        Err(e) => if str_eq(e.as_str(), "cancelled") {
            error("cancelled by user")
        } else {
            Response::Error(e)
        },
    }
}

/// Whether a line of input holds nothing.
pub fn is_blank(line: &str) -> (r: bool)
    ensures
        r == (trim(line@).len() == 0),
{
    trim_chars(&to_chars(line)).len() == 0
}

/// The answer to a line that is no request.
pub fn malformed_reply(e: &str) -> (r: Response)
    ensures
        r@ == ReplyModel::Error("malformed request: "@ + e@),
{
    error("malformed request: ".to_owned().concat(e).as_str())
}

// ---- laws ---------------------------------------------------------------------------

/// An answer with an error leaves the devices and the job as they were.
pub proof fn law_refusals_change_nothing(h: HelperModel, req: Request)
    requires
        h.request(req).1 is Reply,
        h.request(req).1->Reply_0 is Error,
    ensures
        h.request(req).0.handles == h.handles,
        h.request(req).0.job == h.job,
{
}

/// A check that fails, or a step that fails, is answered with an error and
/// leaves the devices and the job as they were.
pub proof fn law_failures_change_nothing(h: HelperModel, e: Seq<char>)
    requires
        h.awaits_check() || h.awaits_result(),
    ensures
        h.awaits_check() ==> h.checked(Err(e)).1 is Reply && h.checked(Err(e)).1->Reply_0 is Error
            && h.checked(Err(e)).0 == h.idle(),
        h.awaits_result() ==> h.performed(Err(e)).1 is Reply && h.performed(
            Err(e),
        ).1->Reply_0 is Error && h.performed(Err(e)).0 == h.idle(),
{
}

impl PendingModel {
    /// How many looks at the system may still come before the answer.
    pub open spec fn looks(self) -> int {
        match self {
            PendingModel::Nothing => 0,
            PendingModel::Probe => 1,
            PendingModel::AcquireOpen(_, _) => 1,
            PendingModel::WriteClone(_, _, _) => 1,
            PendingModel::PlanClone(_, _, _, _) => 1,
            PendingModel::ProbeCheck => 2,
            PendingModel::AcquireCheck(_) => 2,
            PendingModel::WriteCheck(_, _) => 2,
            PendingModel::PlanDevice(_, _, _) => 2,
            PendingModel::PlanImage(_, _, _) => 3,
        }
    }
}

/// Whether an action answers a request.
pub open spec fn is_answer(a: ActionModel) -> bool {
    a is Reply || a is StartWrite || a is StartPlan || a is Stop
}

/// Every request is answered after three looks at the system at most: as long
/// as something is pending there is no answer, each look leaves fewer to come,
/// and with none to come the request is answered.
pub proof fn law_every_request_is_answered(
    h: HelperModel,
    req: Request,
    found: Result<Seq<char>, Seq<char>>,
)
    requires
        h.wf(),
    ensures
        h.pending is Nothing ==> h.request(req).0.pending.looks() <= 3 && (is_answer(
            h.request(req).1,
        ) <==> h.request(req).0.pending is Nothing),
        h.awaits_check() ==> h.checked(found).0.pending.looks() < h.pending.looks() && (is_answer(
            h.checked(found).1,
        ) <==> h.checked(found).0.pending is Nothing),
        h.awaits_result() ==> is_answer(h.performed(found).1) && h.performed(
            found,
        ).0.pending is Nothing,
        h.pending is Nothing || h.awaits_check() || h.awaits_result(),
{
}

/// A job starts only while no other runs.
pub proof fn law_one_job_at_a_time(h: HelperModel, result: Result<Seq<char>, Seq<char>>)
    requires
        h.wf(),
        h.awaits_result(),
        h.performed(result).1 is StartWrite || h.performed(result).1 is StartPlan,
    ensures
        !h.job,
        h.performed(result).0.job,
{
}

/// While a job runs, writing, applying and releasing are refused, and only then
/// is cancelling not.
pub proof fn law_busy_is_refused(h: HelperModel, req: Request)
    ensures
        h.job && (req is WriteImage || req is ApplyPlan || req is ReleaseDevice) ==> h.request(
            req,
        ).1 is Reply && h.request(req).1->Reply_0 is Error,
        req is Cancel ==> (h.request(req).1 is Stop <==> h.job),
{
}

/// Writing to a device that was not acquired is refused.
pub proof fn law_only_acquired_devices(h: HelperModel, device: String, image: String, verify: bool)
    requires
        !h.handles.contains(device@),
    ensures
        h.request(Request::WriteImage { device, image, verify }).1 is Reply,
        h.request(Request::WriteImage { device, image, verify }).1->Reply_0 is Error,
        forall|plan: FlashPlan, bb: Option<BadBlocks>|
            (#[trigger] h.plan_image_ok(device@, plan, bb)).1 is Reply && h.plan_image_ok(
                device@,
                plan,
                bb,
            ).1->Reply_0 is Error,
{
}

/// A device that was acquired and then released is gone, and the others are as
/// they were.
pub proof fn law_release_undoes_acquire(h: HelperModel, device: String, node: Seq<char>)
    requires
        h.wf(),
        !h.job,
        h.pending == PendingModel::AcquireOpen(device@, node),
    ensures
        ({
            let held = h.performed(Ok(seq![])).0;
            let released = held.request(Request::ReleaseDevice { device });
            &&& held.handles.contains(device@)
            &&& released.1 == reply_done("released"@)
            &&& released.0.handles == h.handles
        }),
{
    let held = h.performed(Ok(seq![])).0;
    assert(held.handles == h.handles.push(device@));
    assert(held.handles[h.handles.len() as int] == device@);
    let k = held.handles.index_of(device@);
    assert(held.handles.contains(device@));
    assert(0 <= k < held.handles.len() && held.handles[k] == device@);
    if k < h.handles.len() {
        assert(h.handles[k] == device@);
    }
    assert(held.handles.remove(k) =~= h.handles);
}

} // verus!
