//! A complete flashing plan as a job: its steps, and where it stands.

use crate::disk_image::{capacity, vhdx_capacity_mib};
use crate::flash::{
    after_scan, extract_program, extract_steps, fat32_program, fat32_steps, format_program, format_steps,
    raw_program, raw_steps, scan_program, scan_steps, step_models, steps_after_scan,
    uefi_ntfs_program, uefi_ntfs_steps, Facts, Step, StepModel,
};
use crate::format::opt_int;
use crate::iso::opt_text;
use crate::protocol::{BadBlocks, FlashPlan, PartitionScheme};
use crate::togo::{togo_program, togo_steps, togo_vhdx_program, togo_vhdx_steps};
use vstd::prelude::*;

verus! {

/// The steps of a plan on the device `dev`.
pub open spec fn plan_steps(dev: Seq<char>, plan: FlashPlan, facts: Facts) -> Seq<StepModel> {
    match plan {
        FlashPlan::RawDd { image, verify, persistence_mb, persistence_label } => raw_steps(
            dev,
            image@,
            verify,
            persistence_mb as int,
            opt_text(persistence_label),
        ),
        FlashPlan::FormatDevice { scheme, fs, label, cluster_bytes, old_bios_align } =>
            format_steps(dev, scheme, fs@, label@, opt_int(cluster_bytes), old_bios_align),
        FlashPlan::WinFat32 { image, split_wim, scheme, options } => fat32_steps(
            dev,
            image@,
            split_wim,
            scheme,
            options,
            facts.split_limit,
        ),
        FlashPlan::WinUefiNtfs { image, scheme, options } => uefi_ntfs_steps(
            dev,
            image@,
            scheme,
            options,
        ),
        FlashPlan::IsoExtract { image, scheme, syslinux_bios } => extract_steps(
            dev,
            image@,
            scheme,
            syslinux_bios,
        ),
        FlashPlan::WinToGo { image, wim_index, persist_mib, scheme, options } => togo_steps(
            dev,
            image@,
            wim_index as int,
            persist_mib as int,
            scheme,
            options,
            facts.sectors as int,
            facts.entry_guid@,
        ),
        FlashPlan::WinToGoVhdx {
            image,
            wim_index,
            vhdx_size_mib,
            persist_mib,
            scheme,
            options,
        } => togo_vhdx_steps(
            dev,
            image@,
            wim_index as int,
            capacity(vhdx_size_mib as int, facts.image_bytes as int),
            persist_mib as int,
            scheme,
            options,
            facts.sectors as int,
            facts.entry_guid@,
        ),
    }
}

/// The steps of a plan, behind a sector scan where one is asked for.
pub open spec fn job_steps(
    dev: Seq<char>,
    plan: FlashPlan,
    bad_blocks: Option<BadBlocks>,
    facts: Facts,
) -> Seq<StepModel> {
    match bad_blocks {
        Some(mode) => scan_steps(dev, mode) + plan_steps(dev, plan, facts),
        None => plan_steps(dev, plan, facts),
    }
}

/// The steps of a complete flashing plan against an acquired device: the sector
/// scan first, where one is asked for.
pub fn execute_plan(
    dev: &str,
    plan: &FlashPlan,
    bad_blocks: Option<BadBlocks>,
    facts: &Facts,
) -> (r: Vec<Step>)
    ensures
        step_models(r@) == job_steps(dev@, *plan, bad_blocks, *facts),
{
    let mut rest: Vec<Step> = plan_program(dev, plan, facts);
    match bad_blocks {
        Some(mode) => {
            let mut r: Vec<Step> = scan_program(dev, mode);
            let ghost scan = r@;
            let ghost steps = rest@;
            r.append(&mut rest);
            assert(step_models(r@) =~= step_models(scan) + step_models(steps));
            r
        },
        None => rest,
    }
}

/// The steps of a plan.
fn plan_program(dev: &str, plan: &FlashPlan, facts: &Facts) -> (r: Vec<Step>)
    ensures
        step_models(r@) == plan_steps(dev@, *plan, *facts),
{
    match plan {
        FlashPlan::RawDd { image, verify, persistence_mb, persistence_label } => raw_program(
            dev,
            image.as_str(),
            *verify,
            *persistence_mb,
            persistence_label,
        ),
        FlashPlan::FormatDevice { scheme, fs, label, cluster_bytes, old_bios_align } =>
            format_program(
            dev,
            *scheme,
            fs.as_str(),
            label.as_str(),
            *cluster_bytes,
            *old_bios_align,
        ),
        FlashPlan::WinFat32 { image, split_wim, scheme, options } => fat32_program(
            dev,
            image.as_str(),
            *split_wim,
            *scheme,
            *options,
            facts.split_limit,
        ),
        FlashPlan::WinUefiNtfs { image, scheme, options } => uefi_ntfs_program(
            dev,
            image.as_str(),
            *scheme,
            *options,
        ),
        FlashPlan::IsoExtract { image, scheme, syslinux_bios } => extract_program(
            dev,
            image.as_str(),
            *scheme,
            *syslinux_bios,
        ),
        FlashPlan::WinToGo { image, wim_index, persist_mib, scheme, options } => togo_program(
            dev,
            image.as_str(),
            *wim_index,
            *persist_mib,
            *scheme,
            *options,
            facts.sectors,
            facts.entry_guid.as_str(),
        ),
        FlashPlan::WinToGoVhdx {
            image,
            wim_index,
            vhdx_size_mib,
            persist_mib,
            scheme,
            options,
        } => togo_vhdx_program(
            dev,
            image.as_str(),
            *wim_index,
            vhdx_capacity_mib(*vhdx_size_mib, facts.image_bytes),
            *persist_mib,
            *scheme,
            *options,
            facts.sectors,
            facts.entry_guid.as_str(),
        ),
    }
}

/// Whether the steps of a plan depend on the size of the device.
pub fn needs_device_size(plan: &FlashPlan) -> (r: bool)
    ensures
        !r ==> forall|dev: Seq<char>, a: Facts, b: Facts|
            a.image_bytes == b.image_bytes && a.split_limit == b.split_limit && a.entry_guid
                == b.entry_guid ==> #[trigger] plan_steps(dev, *plan, a) == #[trigger] plan_steps(
                dev,
                *plan,
                b,
            ),
        r == match *plan {
            FlashPlan::WinToGo { persist_mib, scheme, .. } => persist_mib > 0 && scheme
                == PartitionScheme::Gpt,
            FlashPlan::WinToGoVhdx { persist_mib, scheme, .. } => persist_mib > 0 && scheme
                == PartitionScheme::Gpt,
            _ => false,
        },
{
    match plan {
        FlashPlan::WinToGo { persist_mib, scheme, .. } => *persist_mib > 0 && *scheme
            == PartitionScheme::Gpt,
        FlashPlan::WinToGoVhdx { persist_mib, scheme, .. } => *persist_mib > 0 && *scheme
            == PartitionScheme::Gpt,
        _ => false,
    }
}

// ---- the job ------------------------------------------------------------------------

/// A job that performs steps in order and stops at the first that fails.
pub struct Job {
    steps: Vec<Step>,
    at: usize,
    failed: bool,
}

pub struct JobModel {
    pub steps: Seq<Step>,
    pub at: int,
    pub failed: bool,
}

impl JobModel {
    /// The step to perform; None where the job is over.
    pub open spec fn current(self) -> Option<Step> {
        if self.failed || self.at >= self.steps.len() {
            None
        } else {
            Some(self.steps[self.at])
        }
    }
}

impl View for Job {
    type V = JobModel;

    closed spec fn view(&self) -> JobModel {
        JobModel { steps: self.steps@, at: self.at as int, failed: self.failed }
    }
}

impl Job {
    pub fn new(steps: Vec<Step>) -> (j: Job)
        ensures
            j@ == (JobModel { steps: steps@, at: 0, failed: false }),
    {
        Job { steps, at: 0, failed: false }
    }

    /// The step to perform; None where the job is over.
    pub fn current(&self) -> (s: Option<&Step>)
        ensures
            match s {
                Some(x) => self@.current() == Some(*x),
                None => self@.current() is None,
            },
    {
        if self.failed || self.at >= self.steps.len() {
            None
        } else {
            Some(&self.steps[self.at])
        }
    }

    /// The current step is done.
    pub fn succeed(&mut self)
        requires
            old(self)@.current() is Some,
        ensures
            final(self)@ == (JobModel { at: old(self)@.at + 1, ..old(self)@ }),
    {
        assert(self.at < self.steps.len());
        self.at = self.at + 1;
    }

    /// The current step failed: the job is over.
    pub fn fail(&mut self)
        ensures
            final(self)@ == (JobModel { failed: true, ..old(self)@ }),
            final(self)@.current() is None,
    {
        self.failed = true;
    }

    /// The current step, a sector scan, has written `out`: its verdict takes its
    /// place, and nothing follows a defect.
    pub fn scanned(&mut self, out: &str)
        requires
            old(self)@.current() matches Some(Step::Scan(_)),
        ensures
            step_models(final(self)@.steps) == steps_after_scan(
                step_models(old(self)@.steps),
                old(self)@.at,
                out@,
            ),
            final(self)@.at == old(self)@.at,
            final(self)@.failed == old(self)@.failed,
    {
        let ghost all = self.steps@;
        let ghost at = self.at as int;
        assert(self.at < self.steps.len());
        let mut rest: Vec<Step> = self.steps.split_off(self.at + 1);
        let mut front: Vec<Step> = self.steps.split_off(0);
        let scan: Option<Step> = front.pop();
        assert(front@ =~= all.take(at));
        assert(rest@ =~= all.skip(at + 1));
        let verdict = after_scan(out);
        let defect: bool = match &verdict {
            Step::Fail(_) => true,
            _ => false,
        };
        front.push(verdict);
        if !defect {
            front.append(&mut rest);
        }
        assert(step_models(front@) =~= steps_after_scan(step_models(all), at, out@));
        self.steps = front;
    }

    /// The current step turned out to be these.
    pub fn expand(&mut self, steps: Vec<Step>)
        requires
            old(self)@.current() is Some,
        ensures
            final(self)@ == (JobModel {
                steps: old(self)@.steps.take(old(self)@.at) + steps@ + old(self)@.steps.skip(
                    old(self)@.at + 1,
                ),
                ..old(self)@
            }),
    {
        let ghost all = self.steps@;
        let ghost at = self.at as int;
        let mut new_steps: Vec<Step> = steps;
        assert(self.at < self.steps.len());
        let mut rest: Vec<Step> = self.steps.split_off(self.at + 1);
        let mut front: Vec<Step> = self.steps.split_off(0);
        let dropped: Option<Step> = front.pop();
        assert(front@ =~= all.take(at));
        assert(rest@ =~= all.skip(at + 1));
        front.append(&mut new_steps);
        front.append(&mut rest);
        self.steps = front;
    }
}

} // verus!
