//! The front end's side of a session with the helper.

use crate::helper::ReplyModel;
use crate::iso::{auto_plan, choose_plan, opt_text, ImageManifest};
use crate::paths::{join, path_join};
use crate::protocol::{BadBlocks, FlashPlan, Request, Response};
use crate::text::{dec, opt_view, push_dec};
use vstd::prelude::*;
use vstd::string::*;

verus! {

/// Events delivered to the caller while a flash job runs.
#[derive(Debug)]
pub enum ClientEvent {
    Progress { done: u64, total: u64, verifying: bool, phase: Option<String> },
    Done(Result<String, String>),
}

/// What a session is for.
pub enum Op {
    /// Plain sector copy.
    Write { image: String, verify: bool },
    /// A plan, optionally preceded by a bad-block scan.
    Apply(FlashPlan, Option<BadBlocks>),
}

// ---- responses in words --------------------------------------------------------

/// What the `Debug` format makes of a string: the text in quotes, with escapes.
pub uninterp spec fn debug_of(s: Seq<char>) -> Seq<char>;

/// `format!("{:?}")` of a `str`, which depends on its text alone.
#[verifier::external_body]
fn debug_text(s: &str) -> (r: String)
    ensures
        r@ == debug_of(s@),
{
    format!("{:?}", s)
}

/// A response for a developer's eyes, where its text, if it has one, is already
/// quoted.
pub open spec fn response_text(r: ReplyModel, quoted: Seq<char>) -> Seq<char> {
    match r {
        ReplyModel::Done(None) => "Ok(None)"@,
        ReplyModel::Done(Some(_)) => "Ok(Some("@ + quoted + "))"@,
        ReplyModel::Error(_) => "Error("@ + quoted + ")"@,
        ReplyModel::Cancelled => "Cancelled"@,
        ReplyModel::Accepted => "Accepted"@,
        ReplyModel::Progress(done, total, verifying, phase) => "Progress { done: "@ + dec(
            done as nat,
        ) + ", total: "@ + dec(total as nat) + ", verifying: "@ + (if verifying {
            "true"@
        } else {
            "false"@
        }) + ", phase: "@ + (match phase {
            Some(_) => "Some("@ + quoted + ")"@,
            None => "None"@,
        }) + " }"@,
    }
}

/// The text that a response carries; empty where it carries none.
pub open spec fn carried(r: ReplyModel) -> Seq<char> {
    match r {
        ReplyModel::Done(Some(t)) => t,
        ReplyModel::Error(e) => e,
        ReplyModel::Progress(_, _, _, Some(p)) => p,
        _ => seq![],
    }
}

/// A response for a developer's eyes, given its text in quotes.
pub fn response_words(r: &Response, quoted: &str) -> (s: String)
    ensures
        s@ == response_text(r@, quoted@),
{
    match r {
        Response::Done(None) => "Ok(None)".to_owned(),
        Response::Done(Some(_)) => "Ok(Some(".to_owned().concat(quoted).concat("))"),
        Response::Error(_) => "Error(".to_owned().concat(quoted).concat(")"),
        Response::Cancelled => "Cancelled".to_owned(),
        Response::Accepted => "Accepted".to_owned(),
        Response::Progress { done, total, verifying, phase } => {
            let mut s: String = "Progress { done: ".to_owned();
            push_dec(&mut s, *done);
            s.append(", total: ");
            push_dec(&mut s, *total);
            s.append(", verifying: ");
            s.append(if *verifying { "true" } else { "false" });
            s.append(", phase: ");
            match phase {
                Some(_) => {
                    let p: String = "Some(".to_owned().concat(quoted).concat(")");
                    s.append(p.as_str());
                },
                None => s.append("None"),
            }
            s.append(" }");
            s
        },
    }
}

fn quoted_text(r: &Response) -> (s: String)
    ensures
        s@ == debug_of(carried(r@)),
{
    match r {
        Response::Done(Some(t)) => debug_text(t.as_str()),
        Response::Error(e) => debug_text(e.as_str()),
        Response::Progress { phase: Some(p), .. } => debug_text(p.as_str()),
        _ => {
            let e: String = String::new();
            debug_text(e.as_str())
        },
    }
}

/// A response for a developer's eyes.
pub open spec fn response_debug(r: ReplyModel) -> Seq<char> {
    response_text(r, debug_of(carried(r)))
}

fn debug_response(r: &Response) -> (s: String)
    ensures
        s@ == response_debug(r@),
{
    response_words(r, quoted_text(r).as_str())
}

/// The data of a success; anything else is a failure of `what`.
pub fn expect_ok(resp: Response, what: &str) -> (r: Result<Option<String>, String>)
    ensures
        match (resp@, r) {
            (ReplyModel::Done(d), Ok(data)) => opt_text(data) == d,
            (ReplyModel::Done(_), Err(_)) => false,
            (_, Ok(_)) => false,
            (other, Err(e)) => e@ == what@ + " failed: "@ + response_debug(other),
        },
{
    match resp {
        Response::Done(data) => Ok(data),
        _ => {
            let mut e: String = what.to_owned();
            e.append(" failed: ");
            e.append(debug_response(&resp).as_str());
            Err(e)
        },
    }
}

// ---- sessions -------------------------------------------------------------------

/// What a session does next.
pub enum SessionAction {
    /// Send this request, then say whether that worked.
    Send(Request),
    /// Read a response.
    Read,
    /// Hand this on, then read a response.
    Emit(ClientEvent),
    /// Hand the result on and end the helper.
    Finish(Result<String, String>),
    /// Send this request without waiting, hand the result on and end the helper.
    SendAndFinish(Request, Result<String, String>),
}

/// How far a session is.
#[derive(Debug, Clone, Copy, PartialEq, Eq, Structural)]
pub enum Stage {
    /// The device is being acquired.
    Acquiring,
    /// The job is under way.
    Running,
    /// The session is over.
    Over,
}

/// A session with the helper: acquire the device, start the job, follow it.
pub struct Session {
    pub device: String,
    pub op: Op,
    pub stage: Stage,
}

/// The request that starts a job.
pub open spec fn is_start(req: Request, device: Seq<char>, op: Op) -> bool {
    match op {
        Op::Write { image, verify } => req matches Request::WriteImage {
            device: d,
            image: i,
            verify: v,
        } && d@ == device && i@ == image@ && v == verify,
        Op::Apply(plan, bad_blocks) => req matches Request::ApplyPlan {
            device: d,
            plan: p,
            bad_blocks: b,
        } && d@ == device && p == plan && b == bad_blocks,
    }
}

pub open spec fn is_acquire(req: Request, device: Seq<char>) -> bool {
    req matches Request::AcquireDevice { device: d } && d@ == device
}

pub open spec fn is_release(req: Request, device: Seq<char>) -> bool {
    req matches Request::ReleaseDevice { device: d } && d@ == device
}

pub open spec fn finishes(a: SessionAction, ok: bool, text: Seq<char>) -> bool {
    a matches SessionAction::Finish(r) && match r {
        Ok(t) => ok && t@ == text,
        Err(e) => !ok && e@ == text,
    }
}

pub open spec fn releases(a: SessionAction, device: Seq<char>, ok: bool, text: Seq<char>) -> bool {
    a matches SessionAction::SendAndFinish(req, r) && is_release(req, device) && match r {
        Ok(t) => ok && t@ == text,
        Err(e) => !ok && e@ == text,
    }
}

fn take_op(op: &mut Op) -> (r: Op)
    ensures
        r == *old(op),
{
    let mut r = Op::Write { image: String::new(), verify: false };
    std::mem::swap(&mut r, op);
    r
}

impl Session {
    /// Starts with the acquisition of the device.
    pub fn start(device: &str, op: Op) -> (r: (Session, SessionAction))
        ensures
            r.0.device@ == device@,
            r.0.op == op,
            r.0.stage == Stage::Acquiring,
            r.1 matches SessionAction::Send(req) && is_acquire(req, device@),
    {
        let s = Session { device: device.to_owned(), op, stage: Stage::Acquiring };
        let req = Request::AcquireDevice { device: device.to_owned() };
        (s, SessionAction::Send(req))
    }

    /// Whether a request could be sent.
    pub fn sent(&mut self, result: Result<(), String>) -> (a: SessionAction)
        ensures
            final(self).device == old(self).device,
            final(self).op == old(self).op,
            match result {
                Ok(_) => a is Read && final(self).stage == old(self).stage,
                Err(e) => finishes(a, false, e@) && final(self).stage == Stage::Over,
            },
    {
        match result {
            Ok(_) => SessionAction::Read,
            Err(e) => {
                self.stage = Stage::Over;
                SessionAction::Finish(Err(e))
            },
        }
    }

    /// A response, or why none could be read.
    pub fn received(&mut self, result: Result<Response, String>) -> (a: SessionAction)
        requires
            old(self).stage != Stage::Over,
        ensures
            final(self).device == old(self).device,
            match result {
                Err(e) => finishes(a, false, e@) && final(self).stage == Stage::Over,
                Ok(resp) => if old(self).stage == Stage::Acquiring {
                    match resp@ {
                        ReplyModel::Done(_) => a matches SessionAction::Send(req) && is_start(
                            req,
                            old(self).device@,
                            old(self).op,
                        ) && final(self).stage == Stage::Running,
                        other => finishes(
                            a,
                            false,
                            "acquire failed: "@ + response_debug(other),
                        ) && final(self).stage == Stage::Over,
                    }
                } else {
                    match resp {
                        Response::Progress { done, total, verifying, phase } => a
                            matches SessionAction::Emit(e) && e == (ClientEvent::Progress {
                            done,
                            total,
                            verifying,
                            phase,
                        }) && final(self).stage == Stage::Running,
                        Response::Cancelled => a is Read && final(self).stage == Stage::Running,
                        Response::Accepted => a is Read && final(self).stage == Stage::Running,
                        Response::Done(data) => releases(
                            a,
                            old(self).device@,
                            true,
                            match data {
                                Some(t) => t@,
                                None => "done"@,
                            },
                        ) && final(self).stage == Stage::Over,
                        Response::Error(e) => releases(a, old(self).device@, false, e@)
                            && final(self).stage == Stage::Over,
                    }
                },
            },
    {
        let resp = match result {
            Ok(r) => r,
            Err(e) => {
                self.stage = Stage::Over;
                return SessionAction::Finish(Err(e));
            },
        };
        if self.stage == Stage::Acquiring {
            match expect_ok(resp, "acquire") {
                Ok(_) => {
                    self.stage = Stage::Running;
                    let device: String = self.device.as_str().to_owned();
                    let req = match take_op(&mut self.op) {
                        Op::Write { image, verify } => Request::WriteImage {
                            device,
                            image,
                            verify,
                        },
                        Op::Apply(plan, bad_blocks) => Request::ApplyPlan {
                            device,
                            plan,
                            bad_blocks,
                        },
                    };
                    SessionAction::Send(req)
                },
                Err(e) => {
                    proof {
                        assert(e@ == "acquire"@ + " failed: "@ + response_debug(resp@));
                        reveal_strlit("acquire");
                        reveal_strlit(" failed: ");
                        reveal_strlit("acquire failed: ");
                        assert("acquire"@ + " failed: "@ =~= "acquire failed: "@);
                    }
                    self.stage = Stage::Over;
                    SessionAction::Finish(Err(e))
                },
            }
        } else {
            match resp {
                Response::Progress { done, total, verifying, phase } => SessionAction::Emit(
                    ClientEvent::Progress { done, total, verifying, phase },
                ),
                Response::Cancelled => SessionAction::Read,
                Response::Accepted => SessionAction::Read,
                Response::Done(data) => {
                    self.stage = Stage::Over;
                    let text: String = match data {
                        Some(t) => t,
                        None => "done".to_owned(),
                    };
                    SessionAction::SendAndFinish(self.release(), Ok(text))
                },
                Response::Error(e) => {
                    self.stage = Stage::Over;
                    SessionAction::SendAndFinish(self.release(), Err(e))
                },
            }
        }
    }

    fn release(&self) -> (req: Request)
        ensures
            is_release(req, self.device@),
    {
        Request::ReleaseDevice { device: self.device.as_str().to_owned() }
    }
}

// ---- probing -----------------------------------------------------------------------

/// What the response to a probe holds: the manifest to decode, or an error.
pub fn probe_reply(resp: Response) -> (r: Result<String, String>)
    ensures
        match (resp@, r) {
            (ReplyModel::Done(Some(t)), Ok(m)) => m@ == t,
            (ReplyModel::Done(Some(_)), Err(_)) => false,
            (_, Ok(_)) => false,
            (ReplyModel::Done(None), Err(e)) => e@ == "helper returned empty manifest"@,
            (ReplyModel::Error(t), Err(e)) => e@ == t,
            (other, Err(e)) => e@ == "unexpected probe response: "@ + response_debug(other),
        },
{
    match resp {
        Response::Done(Some(json)) => Ok(json),
        Response::Done(None) => Err("helper returned empty manifest".to_owned()),
        Response::Error(e) => Err(e),
        _ => Err(
            "unexpected probe response: ".to_owned().concat(debug_response(&resp).as_str()),
        ),
    }
}

/// The plan for a probed image, with its manifest.
pub fn decide_plan(
    manifest: ImageManifest,
    image: &str,
    have_syslinux: bool,
    have_wimlib: bool,
) -> (r: (FlashPlan, ImageManifest))
    ensures
        r.1 == manifest,
        auto_plan(manifest@, image@, have_syslinux, have_wimlib, r.0),
{
    let plan = choose_plan(&manifest, image, have_syslinux, have_wimlib);
    (plan, manifest)
}

// ---- starting the helper -------------------------------------------------------------

/// Whether the helper is started through `pkexec`: as root, or where the
/// environment says so, it is not.
pub fn needs_elevation(euid: u32, no_pkexec: bool) -> (r: bool)
    ensures
        r == (euid != 0 && !no_pkexec),
{
    euid != 0 && !no_pkexec
}

/// Where the helper is: what the environment says, else beside the program, if
/// it is there.
pub fn resolve_helper_path(env: Option<&str>, exe_dir: Option<&str>, sibling_exists: bool) -> (r:
    Option<String>)
    ensures
        opt_text(r) == match (opt_view(env), opt_view(exe_dir)) {
            (Some(p), _) => Some(p),
            (None, Some(d)) => if sibling_exists {
                Some(join(d, "ferrus-helper"@))
            } else {
                None
            },
            (None, None) => None,
        },
{
    match env {
        Some(p) => Some(p.to_owned()),
        None => match exe_dir {
            Some(d) => if sibling_exists {
                Some(path_join(d, "ferrus-helper"))
            } else {
                None
            },
            None => None,
        },
    }
}

} // verus!
