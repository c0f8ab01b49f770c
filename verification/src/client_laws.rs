//! What a session asks of the helper, and what comes of it.

use crate::client::{is_acquire, is_release, is_start, response_text, Op};
use crate::helper::{ActionModel, HelperModel, ReplyModel};
use crate::protocol::{FlashPlan, Request};
use crate::text::dec;
use vstd::prelude::*;
use vstd::string::*;

verus! {

/// The request that starts a session's job asks for this job on this device, and
/// a helper that holds the device and has no job runs it: an image is written
/// with or without verification as the session was told, and a plan is applied
/// with the scan that it was given.
pub proof fn law_session_gets_its_job(
    h: HelperModel,
    req: Request,
    device: Seq<char>,
    op: Op,
    file: Seq<char>,
    node: Seq<char>,
    t: Seq<char>,
)
    requires
        is_start(req, device, op),
        !h.job,
        h.handles.contains(device),
    ensures
        ({
            let asked = h.request(req);
            let checked = asked.0.checked(Ok(file));
            &&& op matches Op::Write { image, verify } ==> asked.1 == ActionModel::CheckImage(
                image@,
            ) && checked.0.performed(Ok(t)).1 == ActionModel::StartWrite(device, file, verify)
            &&& op matches Op::Apply(plan, bad_blocks) ==> if plan is FormatDevice {
                asked.1 == ActionModel::CheckDevice(device) && asked.0.checked(
                    Ok(node),
                ).0.performed(Ok(t)).1 == ActionModel::StartPlan(device, node, plan, bad_blocks)
            } else {
                checked.1 == ActionModel::CheckDevice(device) && checked.0.checked(
                    Ok(node),
                ).0.performed(Ok(t)).1 == ActionModel::StartPlan(device, node, plan, bad_blocks)
            }
        }),
{
}

/// What a session acquires, it releases: the device is held in between, under
/// the name that both requests give.
pub proof fn law_session_frees_its_device(
    h: HelperModel,
    first: Request,
    last: Request,
    device: Seq<char>,
    node: Seq<char>,
    t: Seq<char>,
)
    requires
        h.wf(),
        h.pending is Nothing,
        !h.job,
        !h.handles.contains(device),
        is_acquire(first, device),
        is_release(last, device),
    ensures
        ({
            let asked = h.request(first);
            let held = asked.0.checked(Ok(node)).0.performed(Ok(t)).0;
            let freed = held.request(last);
            &&& asked.1 == ActionModel::CheckDevice(device)
            &&& held.handles.contains(device)
            &&& freed.1 == ActionModel::Reply(ReplyModel::Done(Some("released"@)))
            &&& freed.0.handles == h.handles
        }),
{
    let held = h.request(first).0.checked(Ok(node)).0.performed(Ok(t)).0;
    assert(held.handles == h.handles.push(device));
    assert(held.handles[h.handles.len() as int] == device);
    let k = held.handles.index_of(device);
    assert(held.handles.contains(device));
    assert(0 <= k < held.handles.len() && held.handles[k] == device);
    if k < h.handles.len() {
        assert(h.handles[k] == device);
    }
    assert(held.handles.remove(k) =~= h.handles);
}

/// A response for a developer's eyes names its kind, its text in the quotes it
/// was given, and its numbers.
pub proof fn law_response_in_words(
    quoted: Seq<char>,
    text: Seq<char>,
    done: u64,
    total: u64,
    verifying: bool,
)
    ensures
        response_text(ReplyModel::Done(None), quoted) == "Ok(None)"@,
        response_text(ReplyModel::Done(Some(text)), quoted) == "Ok(Some("@ + quoted + "))"@,
        response_text(ReplyModel::Error(text), quoted) == "Error("@ + quoted + ")"@,
        response_text(ReplyModel::Cancelled, quoted) == "Cancelled"@,
        response_text(ReplyModel::Accepted, quoted) == "Accepted"@,
        ({
            let flag = if verifying {
                "true"@
            } else {
                "false"@
            };
            let head = "Progress { done: "@ + dec(done as nat) + ", total: "@ + dec(total as nat)
                + ", verifying: "@ + flag + ", phase: "@;
            &&& response_text(ReplyModel::Progress(done, total, verifying, None), quoted) == head
                + "None"@ + " }"@
            &&& response_text(ReplyModel::Progress(done, total, verifying, Some(text)), quoted)
                == head + ("Some("@ + quoted + ")"@) + " }"@
        }),
{
}

/// A plan in words: its kind, the sizes and the edition that were chosen, and
/// the partition table in brackets.
pub proof fn law_plan_in_words(plan: FlashPlan)
    ensures
        plan.text() == match plan {
            FlashPlan::RawDd { persistence_mb, .. } => if persistence_mb == 0 {
                "raw DD image"@
            } else {
                "raw DD image + "@ + dec(persistence_mb as nat) + " MiB persistence"@
            },
            FlashPlan::WinFat32 { split_wim, scheme, .. } => (if split_wim {
                "Windows · FAT32 + WIM split ("@
            } else {
                "Windows · FAT32 ("@
            }) + (if scheme is Gpt {
                "GPT"@
            } else {
                "MBR"@
            }) + ")"@,
            FlashPlan::WinUefiNtfs { scheme, .. } => "Windows · UEFI:NTFS ("@ + (if scheme is Gpt {
                "GPT"@
            } else {
                "MBR"@
            }) + ")"@,
            FlashPlan::IsoExtract { scheme, syslinux_bios, .. } => (if syslinux_bios {
                "Linux · extracted + SYSLINUX ("@
            } else {
                "Linux · extracted ("@
            }) + (if scheme is Gpt {
                "GPT"@
            } else {
                "MBR"@
            }) + ")"@,
            FlashPlan::FormatDevice { scheme, fs, .. } => "No bootable · "@ + fs@ + " ("@ + (
            if scheme is Gpt {
                "GPT"@
            } else {
                "MBR"@
            }) + ")"@,
            FlashPlan::WinToGo { wim_index, scheme, persist_mib, .. } => {
                let table = if scheme is Gpt {
                    "GPT"@
                } else {
                    "MBR"@
                };
                let head = if wim_index == 0 {
                    "Windows To Go ("@ + table + ")"@
                } else {
                    "Windows To Go · edition "@ + dec(wim_index as nat) + " ("@ + table + ")"@
                };
                if persist_mib == 0 {
                    head
                } else {
                    head + (", +"@ + dec(persist_mib as nat) + " MiB storage"@)
                }
            },
            FlashPlan::WinToGoVhdx { wim_index, scheme, vhdx_size_mib, .. } => {
                let table = if scheme is Gpt {
                    "GPT"@
                } else {
                    "MBR"@
                };
                let head = if wim_index == 0 {
                    "Windows To Go (VHDX) ("@ + table + ")"@
                } else {
                    "Windows To Go (VHDX) · edition "@ + dec(wim_index as nat) + " ("@ + table
                        + ")"@
                };
                if vhdx_size_mib == 0 {
                    head
                } else {
                    head + (", VHDX "@ + dec(vhdx_size_mib as nat) + " MiB"@)
                }
            },
        },
{
    match plan {
        FlashPlan::WinToGo { wim_index, scheme, persist_mib, .. } => {
            let table = scheme.text();
            let head = if wim_index == 0 {
                "Windows To Go ("@ + table + ")"@
            } else {
                "Windows To Go · edition "@ + dec(wim_index as nat) + " ("@ + table + ")"@
            };
            assert(head + Seq::<char>::empty() =~= head);
        },
        FlashPlan::WinToGoVhdx { wim_index, scheme, vhdx_size_mib, .. } => {
            let table = scheme.text();
            let head = if wim_index == 0 {
                "Windows To Go (VHDX) ("@ + table + ")"@
            } else {
                "Windows To Go (VHDX) · edition "@ + dec(wim_index as nat) + " ("@ + table + ")"@
            };
            assert(head + Seq::<char>::empty() =~= head);
        },
        _ => {},
    }
}

} // verus!
