//! What the unprivileged front end and the root helper say to each other.
//!
//! Long-running operations emit several `Progress` responses before a terminal
//! `Done` or `Error`.

use crate::text::{dec, push_dec};
use vstd::prelude::*;
use vstd::string::*;

verus! {

/// Partition table style for plans that create their own layout.
#[derive(Debug, Clone, Copy, PartialEq, Eq, Structural)]
pub enum PartitionScheme {
    /// GPT, the default; UEFI booting.
    Gpt,
    /// MBR: legacy BIOS and UEFI-CSM targets.
    Mbr,
}

impl Default for PartitionScheme {
    fn default() -> (r: PartitionScheme)
        ensures
            r == PartitionScheme::Gpt,
    {
        PartitionScheme::Gpt
    }
}

impl PartitionScheme {
    pub open spec fn text(self) -> Seq<char> {
        match self {
            PartitionScheme::Gpt => "GPT"@,
            PartitionScheme::Mbr => "MBR"@,
        }
    }

    pub fn describe(&self) -> (s: &'static str)
        ensures
            s@ == self.text(),
    {
        match self {
            PartitionScheme::Gpt => "GPT",
            PartitionScheme::Mbr => "MBR",
        }
    }
}

/// How hard to scan a device for failing sectors before touching it.
#[derive(Debug, Clone, Copy, PartialEq, Eq, Structural)]
pub enum BadBlocks {
    /// One read-only pass.
    Fast,
    /// Destructive write-pattern pass (the device is erased anyway).
    Thorough,
}

/// Windows user-experience options, injected as an answer file.
#[derive(Debug, Clone, Copy, PartialEq, Eq, Structural)]
pub struct WinOptions {
    /// Add LabConfig bypasses (TPM, Secure Boot, RAM, CPU, storage checks).
    pub hw_bypass: bool,
    /// Hide the online-account screens so that a local account works.
    pub no_online_account: bool,
    /// Disable BitLocker automatic device encryption at first logon.
    pub no_bitlocker: bool,
}

impl Default for WinOptions {
    fn default() -> (r: WinOptions)
        ensures
            !r.hw_bypass && !r.no_online_account && !r.no_bitlocker,
    {
        WinOptions { hw_bypass: false, no_online_account: false, no_bitlocker: false }
    }
}

impl WinOptions {
    /// Whether any option is set.
    pub open spec fn some(self) -> bool {
        self.hw_bypass || self.no_online_account || self.no_bitlocker
    }

    pub fn any(&self) -> (r: bool)
        ensures
            r == self.some(),
    {
        self.hw_bypass || self.no_online_account || self.no_bitlocker
    }
}

/// How a bootable USB stick is laid out for a given image.
#[derive(Debug, Clone, PartialEq, Eq)]
pub enum FlashPlan {
    /// Sector-copy the image verbatim: every Linux hybrid ISO. Optionally
    /// followed by a `persistence_mb` ext4 partition (Debian and Ubuntu live);
    /// `persistence_label` comes from image detection (`casper-rw` or
    /// `persistence`).
    RawDd {
        image: String,
        verify: bool,
        persistence_mb: u64,
        persistence_label: Option<String>,
    },
    /// One partition holding the ISO tree; oversized WIM/ESD files split into
    /// 3.8 GiB `.swm` parts when requested.
    WinFat32 { image: String, split_wim: bool, scheme: PartitionScheme, options: WinOptions },
    /// uefi:ntfs boot partition (FAT) and NTFS partition with the full ISO
    /// tree, for images whose files exceed FAT32 limits.
    WinUefiNtfs { image: String, scheme: PartitionScheme, options: WinOptions },
    /// Windows To Go: bootable Windows from the stick itself. The ESP (FAT32)
    /// carries `bootmgfw.efi` and a generated BCD; the NTFS partition gets a
    /// full applied Windows tree with an optional answer file.
    WinToGo {
        image: String,
        /// 1-based index into the WIM; 0 = auto (first).
        wim_index: u32,
        /// Size in MiB of an extra data partition behind the Windows one;
        /// 0 = none.
        persist_mib: u64,
        scheme: PartitionScheme,
        options: WinOptions,
    },
    /// Windows To Go from a VHDX file on the NTFS partition.
    WinToGoVhdx {
        image: String,
        wim_index: u32,
        /// VHDX size in MiB; 0 = auto (image size + 25% headroom, min 64 GiB).
        vhdx_size_mib: u64,
        /// Extra data partition size in MiB; 0 = none.
        persist_mib: u64,
        scheme: PartitionScheme,
        options: WinOptions,
    },
    /// Non-hybrid Linux ISO: the ISO tree is copied onto a single FAT32
    /// partition, and SYSLINUX is installed for BIOS booting.
    IsoExtract {
        image: String,
        scheme: PartitionScheme,
        /// Install SYSLINUX bootsector and MBR (BIOS boot path).
        syslinux_bios: bool,
    },
    /// No image: just partition and format the device.
    FormatDevice {
        scheme: PartitionScheme,
        /// FAT32, NTFS, exFAT, UDF, ext2, ext3 or ext4.
        fs: String,
        label: String,
        /// Requested cluster size in bytes; None = filesystem default.
        cluster_bytes: Option<u64>,
        /// MBR only: start the first partition at sector 63 for very old
        /// BIOSes that choke on aligned starts.
        old_bios_align: bool,
    },
}

impl FlashPlan {
    /// The plan in a few words.
    pub open spec fn text(self) -> Seq<char> {
        match self {
            FlashPlan::RawDd { persistence_mb, .. } => if persistence_mb > 0 {
                "raw DD image + "@ + dec(persistence_mb as nat) + " MiB persistence"@
            } else {
                "raw DD image"@
            },
            FlashPlan::WinFat32 { split_wim, scheme, .. } => if split_wim {
                "Windows · FAT32 + WIM split ("@ + scheme.text() + ")"@
            } else {
                "Windows · FAT32 ("@ + scheme.text() + ")"@
            },
            FlashPlan::WinUefiNtfs { scheme, .. } => "Windows · UEFI:NTFS ("@ + scheme.text()
                + ")"@,
            FlashPlan::WinToGo { wim_index, scheme, persist_mib, .. } => (if wim_index > 0 {
                "Windows To Go · edition "@ + dec(wim_index as nat) + " ("@ + scheme.text() + ")"@
            } else {
                "Windows To Go ("@ + scheme.text() + ")"@
            }) + (if persist_mib > 0 {
                ", +"@ + dec(persist_mib as nat) + " MiB storage"@
            } else {
                seq![]
            }),
            FlashPlan::IsoExtract { scheme, syslinux_bios, .. } => if syslinux_bios {
                "Linux · extracted + SYSLINUX ("@ + scheme.text() + ")"@
            } else {
                "Linux · extracted ("@ + scheme.text() + ")"@
            },
            FlashPlan::WinToGoVhdx { wim_index, scheme, vhdx_size_mib, .. } => (if wim_index > 0 {
                "Windows To Go (VHDX) · edition "@ + dec(wim_index as nat) + " ("@ + scheme.text()
                    + ")"@
            } else {
                "Windows To Go (VHDX) ("@ + scheme.text() + ")"@
            }) + (if vhdx_size_mib > 0 {
                ", VHDX "@ + dec(vhdx_size_mib as nat) + " MiB"@
            } else {
                seq![]
            }),
            FlashPlan::FormatDevice { scheme, fs, .. } => "No bootable · "@ + fs@ + " ("@
                + scheme.text() + ")"@,
        }
    }

    /// Short human-readable name for status lines.
    pub fn describe(&self) -> (s: String)
        ensures
            s@ == self.text(),
    {
        match self {
            FlashPlan::RawDd { persistence_mb, .. } => {
                if *persistence_mb > 0 {
                    let mut s = "raw DD image + ".to_owned();
                    push_dec(&mut s, *persistence_mb);
                    s.append(" MiB persistence");
                    s
                } else {
                    "raw DD image".to_owned()
                }
            },
            FlashPlan::WinFat32 { split_wim, scheme, .. } => {
                if *split_wim {
                    with_scheme("Windows · FAT32 + WIM split (".to_owned(), *scheme)
                } else {
                    with_scheme("Windows · FAT32 (".to_owned(), *scheme)
                }
            },
            FlashPlan::WinUefiNtfs { scheme, .. } => {
                with_scheme("Windows · UEFI:NTFS (".to_owned(), *scheme)
            },
            FlashPlan::WinToGo { wim_index, scheme, persist_mib, .. } => {
                let mut s = with_edition(
                    "Windows To Go · edition ",
                    "Windows To Go (",
                    *wim_index,
                    *scheme,
                );
                let ghost head = s@;
                if *persist_mib > 0 {
                    s.append(", +");
                    push_dec(&mut s, *persist_mib);
                    s.append(" MiB storage");
                }
                assert(s@ =~= self.text());
                s
            },
            FlashPlan::IsoExtract { scheme, syslinux_bios, .. } => {
                if *syslinux_bios {
                    with_scheme("Linux · extracted + SYSLINUX (".to_owned(), *scheme)
                } else {
                    with_scheme("Linux · extracted (".to_owned(), *scheme)
                }
            },
            FlashPlan::WinToGoVhdx { wim_index, scheme, vhdx_size_mib, .. } => {
                let mut s = with_edition(
                    "Windows To Go (VHDX) · edition ",
                    "Windows To Go (VHDX) (",
                    *wim_index,
                    *scheme,
                );
                if *vhdx_size_mib > 0 {
                    s.append(", VHDX ");
                    push_dec(&mut s, *vhdx_size_mib);
                    s.append(" MiB");
                }
                assert(s@ =~= self.text());
                s
            },
            FlashPlan::FormatDevice { scheme, fs, .. } => {
                let mut s = "No bootable · ".to_owned();
                s.append(fs.as_str());
                s.append(" (");
                with_scheme(s, *scheme)
            },
        }
    }

    /// The image of a plan that has one.
    pub open spec fn image(self) -> Option<Seq<char>> {
        match self {
            FlashPlan::RawDd { image, .. } => Some(image@),
            FlashPlan::WinFat32 { image, .. } => Some(image@),
            FlashPlan::WinUefiNtfs { image, .. } => Some(image@),
            FlashPlan::IsoExtract { image, .. } => Some(image@),
            FlashPlan::WinToGo { image, .. } => Some(image@),
            FlashPlan::WinToGoVhdx { image, .. } => Some(image@),
            FlashPlan::FormatDevice { .. } => None,
        }
    }

    pub fn image_path(&self) -> (r: Option<&str>)
        ensures
            match r {
                Some(p) => self.image() == Some(p@),
                None => self.image() is None,
            },
    {
        match self {
            FlashPlan::RawDd { image, .. } => Some(image.as_str()),
            FlashPlan::WinFat32 { image, .. } => Some(image.as_str()),
            FlashPlan::WinUefiNtfs { image, .. } => Some(image.as_str()),
            FlashPlan::IsoExtract { image, .. } => Some(image.as_str()),
            FlashPlan::WinToGo { image, .. } => Some(image.as_str()),
            FlashPlan::WinToGoVhdx { image, .. } => Some(image.as_str()),
            FlashPlan::FormatDevice { .. } => None,
        }
    }
}

/// `head`, the scheme and a closing bracket.
fn with_scheme(head: String, scheme: PartitionScheme) -> (s: String)
    ensures
        s@ == head@ + scheme.text() + ")"@,
{
    let mut s = head;
    s.append(scheme.describe());
    s.append(")");
    s
}

fn with_edition(named: &str, plain: &str, wim_index: u32, scheme: PartitionScheme) -> (s: String)
    ensures
        s@ == if wim_index > 0 {
            named@ + dec(wim_index as nat) + " ("@ + scheme.text() + ")"@
        } else {
            plain@ + scheme.text() + ")"@
        },
{
    if wim_index > 0 {
        let mut s = named.to_owned();
        push_dec(&mut s, wim_index as u64);
        s.append(" (");
        with_scheme(s, scheme)
    } else {
        with_scheme(plain.to_owned(), scheme)
    }
}

#[derive(Debug, Clone, PartialEq, Eq)]
pub enum Request {
    /// Liveness check.
    Ping,
    /// Ask the helper for its version.
    Version,
    /// Loop-mount an image read-only and return its manifest.
    ProbeImage { image: String },
    /// Open a block device and hold it until release.
    AcquireDevice { device: String },
    /// Close a previously acquired device.
    ReleaseDevice { device: String },
    /// Begin writing `image` to an already-acquired `device` in a background
    /// job. Replies `Accepted` immediately; progress follows until a terminal
    /// `Done` or `Error`.
    WriteImage { device: String, image: String, verify: bool },
    /// Execute a full flashing plan against an already-acquired device, with
    /// an optional sector scan before it.
    ApplyPlan { device: String, plan: FlashPlan, bad_blocks: Option<BadBlocks> },
    /// Ask the active job to stop at the next chunk boundary.
    Cancel,
}

#[derive(Debug, Clone, PartialEq, Eq)]
pub enum Response {
    /// Success, with text where there is any (such as the version).
    Done(Option<String>),
    Error(String),
    /// Acknowledgement of a cancel request; a terminal `Error` still follows
    /// once the job has stopped.
    Cancelled,
    /// A job was accepted and started.
    Accepted,
    Progress { done: u64, total: u64, verifying: bool, phase: Option<String> },
}

} // verus!
