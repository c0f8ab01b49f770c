//! Where files come from, and what GUIDs look like.

use crate::assets::{
    bool_text, first_present, guid_text, hex_char, hex_text, ldlinux_at, mbr_at, syslinux_places,
    uefi_ntfs_places, v4_bytes, LoaderDirs, SyslinuxFiles, PERSISTENCE_CONF,
};
use crate::bcd::valid_guid;
use crate::path_laws::plain_dir;
use crate::paths::join;
use vstd::prelude::*;
use vstd::string::*;

verus! {

// ---- files -------------------------------------------------------------------------

/// The first place that holds a file is taken, and none only where there is
/// none.
pub proof fn law_first_is_taken(present: Seq<bool>)
    ensures
        match first_present(present) {
            Some(i) => 0 <= i < present.len() && present[i] && forall|j: int|
                0 <= j < i ==> !#[trigger] present[j],
            None => forall|j: int| 0 <= j < present.len() ==> !#[trigger] present[j],
        },
    decreases present.len(),
{
    if present.len() > 0 {
        let front = present.drop_last();
        law_first_is_taken(front);
        match first_present(front) {
            Some(i) => {
                assert(present[i] == front[i]);
                assert forall|j: int| 0 <= j < i implies !#[trigger] present[j] by {
                    assert(present[j] == front[j]);
                }
            },
            None => {
                assert forall|j: int| 0 <= j < front.len() implies !#[trigger] present[j] by {
                    assert(present[j] == front[j]);
                }
                assert(present.last() == present[present.len() - 1]);
            },
        }
    }
}

/// The directory that distributions give SYSLINUX, by place.
pub open spec fn syslinux_home(i: int) -> Seq<char> {
    if i == 0 {
        "/usr/lib/syslinux/bios"@
    } else if i == 1 {
        "/usr/lib/syslinux/modules/bios"@
    } else if i == 2 {
        "/usr/share/syslinux"@
    } else {
        "/usr/lib/SYSLINUX"@
    }
}

/// The files of SYSLINUX come from the first directory that has them; the stub
/// may come from another one than the module, and in one directory `mbr.bin` goes
/// before `mbr_br.bin`.
#[verifier::rlimit(40)]
pub proof fn law_where_syslinux_is(found: Seq<SyslinuxFiles>, i: int)
    requires
        found.len() == 4,
        0 <= i < 4,
    ensures
        found[i].ldlinux && (forall|j: int| 0 <= j < i ==> !(#[trigger] found[j]).ldlinux)
            ==> ldlinux_at(found) == Some(join(syslinux_home(i), "ldlinux.c32"@)),
        (forall|j: int| 0 <= j < 4 ==> !(#[trigger] found[j]).ldlinux) ==> ldlinux_at(found) is None,
        found[i].mbr && (forall|j: int|
            0 <= j < i ==> !(#[trigger] found[j]).mbr && !found[j].mbr_br) ==> mbr_at(found) == Some(
            join(syslinux_home(i), "mbr.bin"@),
        ),
        !found[i].mbr && found[i].mbr_br && (forall|j: int|
            0 <= j < i ==> !(#[trigger] found[j]).mbr && !found[j].mbr_br) ==> mbr_at(found) == Some(
            join(syslinux_home(i), "mbr_br.bin"@),
        ),
        (forall|j: int| 0 <= j < 4 ==> !(#[trigger] found[j]).mbr && !found[j].mbr_br) ==> mbr_at(
            found,
        ) is None,
{
    let ld = found.map_values(|f: SyslinuxFiles| f.ldlinux);
    let mb = found.map_values(|f: SyslinuxFiles| f.mbr || f.mbr_br);
    law_first_is_taken(ld);
    law_first_is_taken(mb);
    assert forall|j: int| 0 <= j < 4 implies #[trigger] ld[j] == found[j].ldlinux && mb[j] == (
    found[j].mbr || found[j].mbr_br) by {}
    assert(ld[i] == found[i].ldlinux);
    assert(mb[i] == (found[i].mbr || found[i].mbr_br));
    if first_present(ld) is Some {
        let k = first_present(ld)->0;
        assert(ld[k] == found[k].ldlinux);
        assert(syslinux_places()[k] == syslinux_home(k));
    }
    if first_present(mb) is Some {
        let k = first_present(mb)->0;
        assert(mb[k] == (found[k].mbr || found[k].mbr_br));
        assert(syslinux_places()[k] == syslinux_home(k));
    }
}

/// Whether something was found, in words.
pub proof fn law_found_in_words()
    ensures
        bool_text(true) == "true"@,
        bool_text(false) == "false"@,
{
}

/// The loader's directory is the first that is there, in this order, and
/// `isolinux` where none is.
pub proof fn law_loader_dirs(d: LoaderDirs)
    ensures
        d.chosen() == "isolinux"@ <==> d.isolinux || !(d.boot_syslinux || d.syslinux
            || d.boot_isolinux),
        d.chosen() == "boot/syslinux"@ <==> !d.isolinux && d.boot_syslinux,
        d.chosen() == "syslinux"@ <==> !d.isolinux && !d.boot_syslinux && d.syslinux,
        d.chosen() == "boot/isolinux"@ <==> !d.isolinux && !d.boot_syslinux && !d.syslinux
            && d.boot_isolinux,
        d.none() <==> !(d.isolinux || d.boot_syslinux || d.syslinux || d.boot_isolinux),
{
    reveal_strlit("isolinux");
    reveal_strlit("boot/syslinux");
    reveal_strlit("syslinux");
    reveal_strlit("boot/isolinux");
    assert("isolinux"@[0] != "syslinux"@[0]);
    assert("boot/syslinux"@[5] != "boot/isolinux"@[5]);
    assert("isolinux"@.len() == 8 && "syslinux"@.len() == 8 && "boot/syslinux"@.len() == 13
        && "boot/isolinux"@.len() == 13);
}

/// The uefi:ntfs image is looked for beside the program before it is looked for
/// in the system's directories.
pub proof fn law_where_the_loader_image_is(dir: Seq<char>)
    requires
        plain_dir(dir),
    ensures
        uefi_ntfs_places(None) == seq![
            "/usr/share/ferrus/uefi-ntfs.img"@,
            "/usr/local/share/ferrus/uefi-ntfs.img"@,
        ],
        uefi_ntfs_places(Some(dir)).len() == 5,
        uefi_ntfs_places(Some(dir))[0] == dir + "/../../res/uefi-ntfs.img"@,
        uefi_ntfs_places(Some(dir))[1] == dir + "/../share/ferrus/uefi-ntfs.img"@,
        uefi_ntfs_places(Some(dir))[2] == dir + "/uefi-ntfs.img"@,
        uefi_ntfs_places(Some(dir)).skip(3) == uefi_ntfs_places(None),
{
    reveal_strlit("../../res/uefi-ntfs.img");
    reveal_strlit("/../../res/uefi-ntfs.img");
    reveal_strlit("../share/ferrus/uefi-ntfs.img");
    reveal_strlit("/../share/ferrus/uefi-ntfs.img");
    reveal_strlit("uefi-ntfs.img");
    reveal_strlit("/uefi-ntfs.img");
    let p = uefi_ntfs_places(Some(dir));
    assert(p[0] =~= dir + "/../../res/uefi-ntfs.img"@);
    assert(p[1] =~= dir + "/../share/ferrus/uefi-ntfs.img"@);
    assert(p[2] =~= dir + "/uefi-ntfs.img"@);
    assert(uefi_ntfs_places(None) =~= seq![
        "/usr/share/ferrus/uefi-ntfs.img"@,
        "/usr/local/share/ferrus/uefi-ntfs.img"@,
    ]);
    assert(p.skip(3) =~= uefi_ntfs_places(None));
}

/// A persistence partition keeps everything: one line, which ends.
pub proof fn law_persistence_conf()
    ensures
        PERSISTENCE_CONF@ == "/ union\n"@,
{
}

// ---- GUIDs -------------------------------------------------------------------------

/// The value of a hexadecimal digit in lower case.
pub open spec fn hex_value(c: char) -> int {
    if '0' <= c <= '9' {
        c as int - 48
    } else {
        c as int - 87
    }
}

/// Whether two characters are a byte in lower case.
pub open spec fn shows_byte(s: Seq<char>, at: int, x: int) -> bool {
    &&& lower_hex(s[at]) && lower_hex(s[at + 1])
    &&& 16 * hex_value(s[at]) + hex_value(s[at + 1]) == x
}

pub open spec fn lower_hex(c: char) -> bool {
    ('0' <= c <= '9') || ('a' <= c <= 'f')
}

proof fn lemma_hex_byte(b: Seq<u8>, i: int)
    requires
        0 <= i < b.len(),
    ensures
        hex_text(b).len() == 2 * b.len(),
        shows_byte(hex_text(b), 2 * i, b[i] as int),
    decreases b.len(),
{
    let front = b.drop_last();
    let last = b.last() as int;
    if b.len() > 1 {
        lemma_hex_byte(
            front,
            if i < b.len() - 1 {
                i
            } else {
                0
            },
        );
    } else {
        assert(hex_text(front).len() == 0);
    }
    let h = hex_text(b);
    assert(h == hex_text(front).push(hex_char(last / 16)).push(hex_char(last % 16)));
    if i < b.len() - 1 {
        assert(h[2 * i] == hex_text(front)[2 * i]);
        assert(h[2 * i + 1] == hex_text(front)[2 * i + 1]);
    } else {
        assert(h[2 * i] == hex_char(last / 16));
        assert(h[2 * i + 1] == hex_char(last % 16));
    }
}

/// Where byte `i` stands in the text of a GUID.
pub open spec fn byte_place(i: int) -> int {
    if i < 4 {
        1 + 2 * i
    } else if i < 6 {
        2 + 2 * i
    } else if i < 8 {
        3 + 2 * i
    } else if i < 10 {
        4 + 2 * i
    } else {
        5 + 2 * i
    }
}

/// The text of a GUID reads back as its bytes, two digits each in lower case.
#[verifier::rlimit(40)]
pub proof fn law_guid_reads_back(b: Seq<u8>, i: int)
    requires
        b.len() == 16,
        0 <= i < 16,
    ensures
        guid_text(b).len() == 38,
        guid_text(b)[0] == '{' && guid_text(b)[37] == '}',
        guid_text(b)[9] == '-' && guid_text(b)[14] == '-' && guid_text(b)[19] == '-' && guid_text(
            b,
        )[24] == '-',
        shows_byte(guid_text(b), byte_place(i), b[i] as int),
{
    let h0 = hex_text(b.subrange(0, 4));
    let h1 = hex_text(b.subrange(4, 6));
    let h2 = hex_text(b.subrange(6, 8));
    let h3 = hex_text(b.subrange(8, 10));
    let h4 = hex_text(b.subrange(10, 16));
    lemma_hex_byte(
        b.subrange(0, 4),
        if i < 4 {
            i
        } else {
            0
        },
    );
    lemma_hex_byte(
        b.subrange(4, 6),
        if 4 <= i < 6 {
            i - 4
        } else {
            0
        },
    );
    lemma_hex_byte(
        b.subrange(6, 8),
        if 6 <= i < 8 {
            i - 6
        } else {
            0
        },
    );
    lemma_hex_byte(
        b.subrange(8, 10),
        if 8 <= i < 10 {
            i - 8
        } else {
            0
        },
    );
    lemma_hex_byte(
        b.subrange(10, 16),
        if 10 <= i {
            i - 10
        } else {
            0
        },
    );
    let s = guid_text(b);
    let p = byte_place(i);
    if i < 4 {
        assert(s[p] == h0[2 * i] && s[p + 1] == h0[2 * i + 1]);
    } else if i < 6 {
        assert(s[p] == h1[2 * (i - 4)] && s[p + 1] == h1[2 * (i - 4) + 1]);
    } else if i < 8 {
        assert(s[p] == h2[2 * (i - 6)] && s[p + 1] == h2[2 * (i - 6) + 1]);
    } else if i < 10 {
        assert(s[p] == h3[2 * (i - 8)] && s[p + 1] == h3[2 * (i - 8) + 1]);
    } else {
        assert(s[p] == h4[2 * (i - 10)] && s[p + 1] == h4[2 * (i - 10) + 1]);
    }
}

/// A random GUID keeps its random bytes, but for six bits: it is of version 4 and
/// of the common variant.
pub proof fn law_random_guid(r: Seq<u8>, i: int)
    requires
        r.len() == 16,
        0 <= i < 16,
    ensures
        v4_bytes(r).len() == 16,
        i != 6 && i != 8 ==> v4_bytes(r)[i] == r[i],
        v4_bytes(r)[6] / 16 == 4,
        v4_bytes(r)[6] % 16 == r[6] % 16,
        v4_bytes(r)[8] / 64 == 2,
        v4_bytes(r)[8] % 64 == r[8] % 64,
{
}

/// Whether a text is so many hexadecimal digits, in either case.
pub open spec fn hex_digits(s: Seq<char>, n: int) -> bool {
    &&& s.len() == n
    &&& forall|i: int|
        0 <= i < n ==> {
            ||| '0' <= #[trigger] s[i] <= '9'
            ||| 'a' <= s[i] <= 'f'
            ||| 'A' <= s[i] <= 'F'
        }
}

/// A GUID in braces with its five groups.
pub open spec fn braced(
    a: Seq<char>,
    b: Seq<char>,
    c: Seq<char>,
    d: Seq<char>,
    e: Seq<char>,
) -> Seq<char> {
    seq!['{'] + a + seq!['-'] + b + seq!['-'] + c + seq!['-'] + d + seq!['-'] + e + seq!['}']
}

/// Five groups of 8, 4, 4, 4 and 12 hexadecimal digits in braces are a GUID.
#[verifier::rlimit(40)]
pub proof fn law_groups_make_a_guid(
    a: Seq<char>,
    b: Seq<char>,
    c: Seq<char>,
    d: Seq<char>,
    e: Seq<char>,
)
    requires
        hex_digits(a, 8),
        hex_digits(b, 4),
        hex_digits(c, 4),
        hex_digits(d, 4),
        hex_digits(e, 12),
    ensures
        valid_guid(braced(a, b, c, d, e)),
{
    let s = braced(a, b, c, d, e);
    assert forall|i: int| 1 <= i < 37 implies if i == 9 || i == 14 || i == 19 || i == 24 {
        #[trigger] s[i] == '-'
    } else {
        crate::bcd::is_hex(s[i])
    } by {
        if 1 <= i < 9 {
            assert(s[i] == a[i - 1]);
        } else if 10 <= i < 14 {
            assert(s[i] == b[i - 10]);
        } else if 15 <= i < 19 {
            assert(s[i] == c[i - 15]);
        } else if 20 <= i < 24 {
            assert(s[i] == d[i - 20]);
        } else if 25 <= i < 37 {
            assert(s[i] == e[i - 25]);
        }
    }
}

/// Nothing else is a GUID: it comes apart into its five groups.
pub proof fn law_guid_has_five_groups(s: Seq<char>)
    requires
        valid_guid(s),
    ensures
        s == braced(
            s.subrange(1, 9),
            s.subrange(10, 14),
            s.subrange(15, 19),
            s.subrange(20, 24),
            s.subrange(25, 37),
        ),
        hex_digits(s.subrange(1, 9), 8),
        hex_digits(s.subrange(10, 14), 4),
        hex_digits(s.subrange(15, 19), 4),
        hex_digits(s.subrange(20, 24), 4),
        hex_digits(s.subrange(25, 37), 12),
{
    lemma_group(s, 1, 9);
    lemma_group(s, 10, 14);
    lemma_group(s, 15, 19);
    lemma_group(s, 20, 24);
    lemma_group(s, 25, 37);
    assert(s[9] == '-' && s[14] == '-' && s[19] == '-' && s[24] == '-');
    assert(s =~= braced(
        s.subrange(1, 9),
        s.subrange(10, 14),
        s.subrange(15, 19),
        s.subrange(20, 24),
        s.subrange(25, 37),
    ));
}

proof fn lemma_group(s: Seq<char>, from: int, to: int)
    requires
        valid_guid(s),
        1 <= from <= to <= 37,
        !(from <= 9 < to) && !(from <= 14 < to) && !(from <= 19 < to) && !(from <= 24 < to),
    ensures
        hex_digits(s.subrange(from, to), to - from),
{
    let g = s.subrange(from, to);
    assert forall|i: int| 0 <= i < to - from implies ('0' <= #[trigger] g[i] <= '9') || ('a'
        <= g[i] <= 'f') || ('A' <= g[i] <= 'F') by {
        assert(g[i] == s[from + i]);
    }
}

} // verus!
