//! What becomes of a request, from the first look at the system to the answer.

use crate::helper::{device_refusal, ActionModel, HelperModel, ReplyModel};
use crate::paths::{dir_part, file_name};
use crate::protocol::{BadBlocks, FlashPlan, Request};
use crate::text::{is_digit, starts_with};
use vstd::prelude::*;
use vstd::string::*;

verus! {

/// Whether an answer is this error.
pub open spec fn refuses(a: ActionModel, text: Seq<char>) -> bool {
    a == ActionModel::Reply(ReplyModel::Error(text))
}

/// Whether an answer is this success.
pub open spec fn grants(a: ActionModel, text: Seq<char>) -> bool {
    a == ActionModel::Reply(ReplyModel::Done(Some(text)))
}

/// Writing an image to a held device while no job runs: the image that was asked
/// for is checked, a second handle is made on that device, and a job starts that
/// writes the file to which the check led, verifying as asked.
pub proof fn law_write_runs_as_asked(
    h: HelperModel,
    device: String,
    image: String,
    verify: bool,
    file: Seq<char>,
    t: Seq<char>,
)
    requires
        !h.job,
        h.handles.contains(device@),
    ensures
        ({
            let first = h.request(Request::WriteImage { device, image, verify });
            let second = first.0.checked(Ok(file));
            let third = second.0.performed(Ok(t));
            &&& first.1 == ActionModel::CheckImage(image@)
            &&& second.1 == ActionModel::CloneHandle(device@)
            &&& third.1 == ActionModel::StartWrite(device@, file, verify)
            &&& third.0.job
            &&& third.0.pending is Nothing
            &&& third.0.handles == h.handles
            &&& !first.0.job && !second.0.job
        }),
{
}

/// Applying a plan to a held device while no job runs: the image of the plan is
/// checked first, where it has one, then the device; and a job starts that runs
/// this plan, with the scan that was asked for, on the node to which the check
/// led.
pub proof fn law_plan_runs_as_asked(
    h: HelperModel,
    device: String,
    plan: FlashPlan,
    bad_blocks: Option<BadBlocks>,
    file: Seq<char>,
    node: Seq<char>,
    t: Seq<char>,
)
    requires
        !h.job,
        h.handles.contains(device@),
    ensures
        ({
            let asked = h.request(Request::ApplyPlan { device, plan, bad_blocks });
            let second = if plan is FormatDevice {
                asked
            } else {
                asked.0.checked(Ok(file))
            };
            let third = second.0.checked(Ok(node));
            let fourth = third.0.performed(Ok(t));
            &&& plan matches FlashPlan::RawDd { image, .. } ==> asked.1 == ActionModel::CheckImage(
                image@,
            )
            &&& plan matches FlashPlan::WinFat32 { image, .. } ==> asked.1
                == ActionModel::CheckImage(image@)
            &&& plan matches FlashPlan::WinUefiNtfs { image, .. } ==> asked.1
                == ActionModel::CheckImage(image@)
            &&& plan matches FlashPlan::IsoExtract { image, .. } ==> asked.1
                == ActionModel::CheckImage(image@)
            &&& plan matches FlashPlan::WinToGo { image, .. } ==> asked.1
                == ActionModel::CheckImage(image@)
            &&& plan matches FlashPlan::WinToGoVhdx { image, .. } ==> asked.1
                == ActionModel::CheckImage(image@)
            &&& second.1 == ActionModel::CheckDevice(device@)
            &&& third.1 == ActionModel::CloneHandle(device@)
            &&& fourth.1 == ActionModel::StartPlan(device@, node, plan, bad_blocks)
            &&& fourth.0.job
            &&& fourth.0.pending is Nothing
            &&& fourth.0.handles == h.handles
            &&& !asked.0.job && !second.0.job && !third.0.job
        }),
{
}

/// Acquiring a device: it is checked, the node to which the check led is opened,
/// and the device is held under the name by which it was asked for. One that is
/// held already stays so, and no second handle is opened.
pub proof fn law_acquire_holds_the_device(
    h: HelperModel,
    device: String,
    node: Seq<char>,
    t: Seq<char>,
    e: Seq<char>,
)
    requires
        h.pending is Nothing,
    ensures
        ({
            let first = h.request(Request::AcquireDevice { device });
            let second = first.0.checked(Ok(node));
            let third = second.0.performed(Ok(t));
            let failed = second.0.performed(Err(e));
            &&& first.1 == ActionModel::CheckDevice(device@)
            &&& first.0.handles == h.handles && first.0.job == h.job
            &&& h.handles.contains(device@) ==> grants(second.1, "acquired"@) && second.0 == h
            &&& !h.handles.contains(device@) ==> {
                &&& second.1 == ActionModel::Open(device@, node)
                &&& second.0.handles == h.handles && second.0.job == h.job
                &&& grants(third.1, "acquired"@)
                &&& third.0.handles == h.handles.push(device@)
                &&& third.0.job == h.job && third.0.pending is Nothing
                &&& refuses(
                    failed.1,
                    "cannot acquire "@ + node + ": "@ + e + " (busy or read-only?)"@,
                )
                &&& failed.0 == h
            }
        }),
{
    let first = h.request(Request::AcquireDevice { device });
    let second = first.0.checked(Ok(node));
    assert(h.idle() =~= h);
    if h.handles.contains(device@) {
        assert(second.0 =~= h);
    } else {
        assert(second.0.performed(Err(e)).0 =~= h);
    }
}

/// Probing an image: it is checked, the file to which the check led is probed,
/// and the answer is its manifest. Nothing else changes.
pub proof fn law_probe_answers_the_manifest(
    h: HelperModel,
    image: String,
    file: Seq<char>,
    manifest: Seq<char>,
    e: Seq<char>,
)
    requires
        h.pending is Nothing,
    ensures
        ({
            let first = h.request(Request::ProbeImage { image });
            let second = first.0.checked(Ok(file));
            &&& first.1 == ActionModel::CheckImage(image@)
            &&& second.1 == ActionModel::Probe(file)
            &&& grants(second.0.performed(Ok(manifest)).1, manifest)
            &&& second.0.performed(Ok(manifest)).0 == h
            &&& refuses(second.0.performed(Err(e)).1, e)
            &&& second.0.performed(Err(e)).0 == h
        }),
{
    let second = h.request(Request::ProbeImage { image }).0.checked(Ok(file));
    assert(second.0.performed(Ok(manifest)).0 =~= h);
    assert(second.0.performed(Err(e)).0 =~= h);
}

/// What is answered at once: pings, the version, releases and cancellations.
/// Releasing takes away the one device that was named, and only while no job
/// runs.
pub proof fn law_immediate_answers(h: HelperModel, device: String)
    requires
        h.wf(),
    ensures
        grants(h.request(Request::Ping).1, "pong"@) && h.request(Request::Ping).0 == h,
        grants(h.request(Request::Version).1, "0.3.0"@) && h.request(Request::Version).0 == h,
        h.request(Request::Cancel).0 == h,
        h.job ==> h.request(Request::Cancel).1 is Stop,
        !h.job ==> refuses(h.request(Request::Cancel).1, "no active job"@),
        ({
            let r = h.request(Request::ReleaseDevice { device });
            &&& h.job ==> refuses(r.1, "a write job is active; cancel it first"@) && r.0 == h
            &&& !h.job && h.handles.contains(device@) ==> {
                &&& grants(r.1, "released"@)
                &&& !r.0.handles.contains(device@)
                &&& forall|d: Seq<char>|
                    d != device@ ==> (#[trigger] r.0.handles.contains(d) <==> h.handles.contains(d))
                &&& r.0.job == h.job && r.0.pending == h.pending
            }
            &&& !h.job && !h.handles.contains(device@) ==> refuses(
                r.1,
                "device "@ + device@ + " was not acquired"@,
            ) && r.0 == h
        }),
{
    if !h.job && h.handles.contains(device@) {
        let k = h.handles.index_of(device@);
        assert(0 <= k < h.handles.len() && h.handles[k] == device@);
        let t = h.handles.remove(k);
        assert forall|d: Seq<char>| d != device@ implies (#[trigger] t.contains(d)
            <==> h.handles.contains(d)) by {
            if t.contains(d) {
                let i = choose|i: int| 0 <= i < t.len() && t[i] == d;
                let i0 = if i < k {
                    i
                } else {
                    i + 1
                };
                assert(h.handles[i0] == d);
            }
            if h.handles.contains(d) {
                let i = choose|i: int| 0 <= i < h.handles.len() && h.handles[i] == d;
                assert(t[if i < k {
                    i
                } else {
                    i - 1
                }] == d);
            }
        }
        if t.contains(device@) {
            let i = choose|i: int| 0 <= i < t.len() && t[i] == device@;
            let i0 = if i < k {
                i
            } else {
                i + 1
            };
            assert(h.handles[i0] == device@);
        }
    }
}

/// Why a write or a plan is refused: another job runs, the device is not held,
/// the check of a path fails, or no second handle can be made.
pub proof fn law_start_refusals(
    h: HelperModel,
    device: String,
    image: String,
    verify: bool,
    plan: FlashPlan,
    bad_blocks: Option<BadBlocks>,
    e: Seq<char>,
)
    ensures
        ({
            let w = h.request(Request::WriteImage { device, image, verify });
            let p = h.request(Request::ApplyPlan { device, plan, bad_blocks });
            let absent = "device "@ + device@ + " not acquired; send acquire_device first"@;
            &&& h.job ==> refuses(w.1, "another write job is already running"@) && w.0 == h
            &&& h.job ==> refuses(p.1, "another write job is already running"@) && p.0 == h
            &&& !h.job && !h.handles.contains(device@) ==> refuses(w.1, absent) && w.0 == h
            &&& !h.job && !h.handles.contains(device@) && plan is FormatDevice ==> refuses(
                p.1,
                absent,
            )
            &&& forall|f: Seq<char>|
                !h.job && !h.handles.contains(device@) && !(plan is FormatDevice) ==> refuses(
                    (#[trigger] p.0.checked(Ok(f))).1,
                    absent,
                )
            &&& h.awaits_check() ==> refuses(h.checked(Err(e)).1, e)
            &&& h.pending is WriteClone || h.pending is PlanClone ==> refuses(
                h.performed(Err(e)).1,
                "cannot clone device handle: "@ + e,
            )
        }),
{
}

/// A device is accepted if and only if it is a block device directly under
/// `/dev` that is no partition, or a loop device where those are allowed.
pub proof fn law_device_checks(
    raw: Seq<char>,
    canon: Seq<char>,
    is_block: bool,
    allow_loop: bool,
)
    ensures
        ({
            let r = device_refusal(raw, canon, is_block, allow_loop);
            let name = file_name(canon);
            &&& !is_block ==> r == Some(raw + " is not a block device"@)
            &&& is_block && name is None ==> r == Some("bad device path"@)
            &&& is_block && name is Some && dir_part(canon) != "/dev"@ ==> r == Some(
                "refusing non-/dev device "@ + raw,
            )
            &&& is_block && name is Some && dir_part(canon) == "/dev"@ ==> {
                let n = name->0;
                let is_loop = starts_with(n, "loop"@);
                &&& is_loop && !allow_loop ==> r == Some(
                    "refusing loop device "@ + raw
                        + " (set FERRUS_ALLOW_LOOP=1 to enable loop-device testing)"@,
                )
                &&& is_loop && allow_loop ==> r is None
                &&& !is_loop && n.len() > 0 && is_digit(n.last()) ==> r == Some(
                    "refusing partition node "@ + raw,
                )
                &&& !is_loop && (n.len() == 0 || !is_digit(n.last())) ==> r is None
            }
        }),
{
}

} // verus!
