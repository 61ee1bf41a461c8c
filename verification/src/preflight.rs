//! Free space: which disk a path lies on, whether there is enough, and how
//! sizes and durations are written.
use vstd::prelude::*;
use crate::double::{divide_even, nearest_double, rounded_even, to_double};
use crate::number::{nat_text, u64_text};
use crate::text::{begins_with, lower, starts_with, to_lower, views};

verus! {

/// The space on the disk that holds a path.
#[derive(Clone, Debug, PartialEq, Eq)]
pub struct DiskSpace {
    pub mount_point: String,
    pub available_bytes: u64,
}

/// A path taken apart into its components, beside its text.
#[derive(Clone, Debug, PartialEq, Eq)]
pub struct PathParts {
    pub text: String,
    pub components: Vec<String>,
}

/// A disk and the path it is mounted at.
#[derive(Clone, Debug, PartialEq, Eq)]
pub struct MountedDisk {
    pub mount_point: PathParts,
    pub available_bytes: u64,
}

// ---------------------------------------------------------------------------
// Sizes and durations in words
// ---------------------------------------------------------------------------

/// The names of the units, each 1024 times the one before.
pub open spec fn unit_name(unit: nat) -> Seq<char> {
    if unit == 0 {
        "B"@
    } else if unit == 1 {
        "KB"@
    } else if unit == 2 {
        "MB"@
    } else if unit == 3 {
        "GB"@
    } else {
        "TB"@
    }
}

/// The size of a unit in bytes.
pub open spec fn unit_bytes(unit: nat) -> nat {
    if unit == 0 {
        1
    } else if unit == 1 {
        1024
    } else if unit == 2 {
        1024 * 1024
    } else if unit == 3 {
        1024 * 1024 * 1024
    } else {
        1024 * 1024 * 1024 * 1024
    }
}

/// The largest unit that a size holds at least one of, up to the largest unit
/// there is.
pub open spec fn unit_of(bytes: nat) -> nat {
    if bytes < unit_bytes(1) {
        0
    } else if bytes < unit_bytes(2) {
        1
    } else if bytes < unit_bytes(3) {
        2
    } else if bytes < unit_bytes(4) {
        3
    } else {
        4
    }
}

/// A size in the largest unit that fits: whole numbers for bytes and from a
/// hundred on, one decimal otherwise.
pub open spec fn bytes_text(bytes: nat) -> Seq<char> {
    let size = nearest_double(bytes);
    let unit = unit_of(size);
    let one = unit_bytes(unit);
    if unit == 0 || size >= 100 * one {
        nat_text(rounded_even(size, one)) + " "@ + unit_name(unit)
    } else {
        let tenths = rounded_even(10 * size, one);
        nat_text(tenths / 10) + "."@ + nat_text(tenths % 10) + " "@ + unit_name(unit)
    }
}

/// A size in the largest unit that fits.
pub fn format_bytes(bytes: u64) -> (out: String)
    ensures
        out@ == bytes_text(bytes as nat),
{
    let size: u128 = to_double(bytes as u128);
    let (unit, one): (&str, u128) = if size < 1024 {
        ("B", 1)
    } else if size < 1024 * 1024 {
        ("KB", 1024)
    } else if size < 1024 * 1024 * 1024 {
        ("MB", 1024 * 1024)
    } else if size < 1024 * 1024 * 1024 * 1024 {
        ("GB", 1024 * 1024 * 1024)
    } else {
        ("TB", 1024 * 1024 * 1024 * 1024)
    };
    if size < 1024 || size >= 100 * one {
        let whole: u128 = divide_even(size, one);
        let mut out = u128_text(whole);
        out.append(" ");
        out.append(unit);
        out
    } else {
        let tenths: u128 = divide_even(10 * size, one);
        let mut out = u128_text(tenths / 10);
        out.append(".");
        out.append(u128_text(tenths % 10).as_str());
        out.append(" ");
        out.append(unit);
        out
    }
}

/// The decimal notation of a wide number.
pub(crate) fn u128_text(n: u128) -> (out: String)
    ensures
        out@ == nat_text(n as nat),
    decreases n,
{
    if n < 10 {
        u64_text(n as u64)
    } else {
        let mut out = u128_text(n / 10);
        out.push((48 + (n % 10) as u8) as char);
        out
    }
}

/// A duration in hours, minutes and seconds, without leading zero parts.
pub open spec fn duration_text(seconds: nat) -> Seq<char> {
    if seconds / 3600 > 0 {
        nat_text(seconds / 3600)
            + "h "@
            + nat_text(seconds % 3600 / 60)
            + "m "@
            + nat_text(seconds % 60)
            + "s"@
    } else if seconds % 3600 / 60 > 0 {
        nat_text(seconds % 3600 / 60)
            + "m "@
            + nat_text(seconds % 60)
            + "s"@
    } else {
        nat_text(seconds % 60)
            + "s"@
    }
}

/// A duration in hours, minutes and seconds.
pub fn format_duration(seconds: u64) -> (out: String)
    ensures
        out@ == duration_text(seconds as nat),
{
    let hours: u64 = seconds / 3600;
    let minutes: u64 = seconds % 3600 / 60;
    let rest: u64 = seconds % 60;
    if hours > 0 {
        let mut out = u64_text(hours).as_str().to_owned();
        out.append("h ");
        out.append(u64_text(minutes).as_str());
        out.append("m ");
        out.append(u64_text(rest).as_str());
        out.append("s");
        out
    } else if minutes > 0 {
        let mut out = u64_text(minutes).as_str().to_owned();
        out.append("m ");
        out.append(u64_text(rest).as_str());
        out.append("s");
        out
    } else {
        let mut out = u64_text(rest).as_str().to_owned();
        out.append("s");
        out
    }
}

// ---------------------------------------------------------------------------
// Where a path lies
// ---------------------------------------------------------------------------

/// Whether one path lies under another, by components.
pub open spec fn under(path: Seq<Seq<char>>, root: Seq<Seq<char>>) -> bool {
    root.len() <= path.len() && path.take(root.len() as int) == root
}

/// Whether a disk is mounted above a path, by components or by text without
/// regard to case.
pub open spec fn mounted_above(disk: MountedDisk, path: PathParts) -> bool {
    under(views(path.components@), views(disk.mount_point.components@)) || begins_with(
        lower(path.text@),
        lower(disk.mount_point.text@),
    )
}

/// Whether one path lies under another, by components.
pub fn lies_under(path: &Vec<String>, root: &Vec<String>) -> (r: bool)
    ensures
        r == under(views(path@), views(root@)),
{
    if root.len() > path.len() {
        return false;
    }
    let mut i: usize = 0;
    while i < root.len()
        invariant
            i <= root.len() <= path.len(),
            forall|j: int| 0 <= j < i ==> views(path@)[j] == views(root@)[j],
        decreases root.len() - i,
    {
        if path[i] != root[i] {
            assert(views(path@).take(root.len() as int)[i as int] != views(root@)[i as int]);
            return false;
        }
        i += 1;
    }
    assert(views(path@).take(root.len() as int) =~= views(root@));
    true
}

/// The disk that holds a path: of those mounted above it, the one with the
/// longest mount path, and of several such the last.
pub open spec fn disk_of(path: PathParts, disks: Seq<MountedDisk>, best: int) -> bool {
    &&& 0 <= best < disks.len()
    &&& mounted_above(disks[best], path)
    &&& forall|i: int|
        0 <= i < disks.len() && mounted_above(#[trigger] disks[i], path) ==> {
            ||| disks[i].mount_point.components.len() < disks[best].mount_point.components.len()
            ||| disks[i].mount_point.components.len() == disks[best].mount_point.components.len()
                && i <= best
        }
}

/// The disk that holds a path; `None` where no disk is mounted above it.
pub fn select_disk(path: &PathParts, disks: &Vec<MountedDisk>) -> (out: Option<usize>)
    ensures
        match out {
            Some(best) => disk_of(*path, disks@, best as int),
            None => forall|i: int|
                0 <= i < disks.len() ==> !mounted_above(#[trigger] disks[i], *path),
        },
{
    let mut best: Option<usize> = None;
    let mut i: usize = 0;
    let folded = to_lower(path.text.as_str());
    while i < disks.len()
        invariant
            i <= disks.len(),
            folded@ == lower(path.text@),
            match best {
                Some(b) => b < i && disk_of(*path, disks@.take(i as int), b as int),
                None => forall|j: int|
                    0 <= j < i ==> !mounted_above(#[trigger] disks[j], *path),
            },
        decreases disks.len() - i,
    {
        let disk = &disks[i];
        let above = lies_under(&path.components, &disk.mount_point.components) || starts_with(
            folded.as_str(),
            to_lower(disk.mount_point.text.as_str()).as_str(),
        );
        let ghost before = disks@.take(i as int);
        let ghost after = disks@.take(i + 1);
        assert(forall|j: int| 0 <= j < i ==> #[trigger] after[j] == before[j]);
        assert(after[i as int] == disks@[i as int]);
        if above {
            let replace = match best {
                Some(b) => disks[b].mount_point.components.len()
                    <= disk.mount_point.components.len(),
                None => true,
            };
            if replace {
                best = Some(i);
            }
        }
        i += 1;
    }
    assert(disks@.take(disks.len() as int) =~= disks@);
    best
}

/// The first of a path and its ancestors that exists, given for each, from the
/// path upwards, whether it does.
pub fn nearest_existing_parent(exists: &Vec<bool>) -> (out: Option<usize>)
    ensures
        match out {
            Some(first) => first < exists.len() && exists[first as int] && forall|i: int|
                0 <= i < first ==> !exists[i],
            None => forall|i: int| 0 <= i < exists.len() ==> !exists[i],
        },
{
    let mut i: usize = 0;
    while i < exists.len()
        invariant
            i <= exists.len(),
            forall|j: int| 0 <= j < i ==> !exists[j],
        decreases exists.len() - i,
    {
        if exists[i] {
            return Some(i);
        }
        i += 1;
    }
    None
}

// ---------------------------------------------------------------------------
// Whether there is room
// ---------------------------------------------------------------------------

/// The complaint about a disk that is too full.
pub open spec fn shortage_text(disk: DiskSpace, required: int, purpose: Seq<char>) -> Seq<char> {
    "not enough free space for "@
        + purpose
        + " on "@
        + disk.mount_point@
        + ": "@
        + bytes_text(required as nat)
        + " required (including safety headroom), but only "@
        + bytes_text(disk.available_bytes as nat)
        + " is available"@
}

/// The disk where it has the space that is asked for, and a complaint where it
/// has not.
pub fn require_disk_space(disk: DiskSpace, required_bytes: u64, purpose: &str) -> (out: Result<
    DiskSpace,
    String,
>)
    ensures
        out is Ok <==> disk.available_bytes >= required_bytes,
        out matches Ok(kept) ==> kept == disk,
        out matches Err(words) ==> words@ == shortage_text(disk, required_bytes as int, purpose@),
{
    if disk.available_bytes < required_bytes {
        let mut out = "not enough free space for ".to_owned();
        out.append(purpose);
        out.append(" on ");
        out.append(disk.mount_point.as_str());
        out.append(": ");
        out.append(format_bytes(required_bytes).as_str());
        out.append(" required (including safety headroom), but only ");
        out.append(format_bytes(disk.available_bytes).as_str());
        out.append(" is available");
        Err(out)
    } else {
        Ok(disk)
    }
}

/// A size is shown in the largest unit of which it holds at least one: it is less than
/// 1024 of it, but for the largest.
pub proof fn law_sizes_are_shown_in_their_unit(bytes: nat)
    ensures
        ({
            let unit = unit_of(bytes);
            &&& bytes > 0 ==> bytes >= unit_bytes(unit)
            &&& unit < 4 ==> bytes < 1024 * unit_bytes(unit)
            &&& unit_bytes(0) == 1
            &&& forall|u: nat| u < 4 ==> #[trigger] unit_bytes(u + 1) == 1024 * unit_bytes(u)
            &&& unit_name(0) == "B"@ && unit_name(1) == "KB"@ && unit_name(2) == "MB"@
                && unit_name(3) == "GB"@ && unit_name(4) == "TB"@
        }),
{
}

/// A duration is told by its hours, minutes and seconds, which add up to it.
pub proof fn law_durations_add_up(hours: nat, minutes: nat, seconds: nat)
    requires
        minutes < 60,
        seconds < 60,
    ensures
        hours > 0 ==> duration_text(hours * 3600 + minutes * 60 + seconds) == nat_text(hours)
            + "h "@ + nat_text(minutes) + "m "@ + nat_text(seconds) + "s"@,
        minutes > 0 ==> duration_text(minutes * 60 + seconds) == nat_text(minutes) + "m "@
            + nat_text(seconds) + "s"@,
        duration_text(seconds) == nat_text(seconds) + "s"@,
{
}

/// The disk that holds a path is found among those mounted above it, and no other such is
/// mounted deeper.
pub proof fn law_deepest_mount_holds_a_path(
    path: PathParts,
    disks: Seq<MountedDisk>,
    best: int,
    i: int,
)
    requires
        disk_of(path, disks, best),
        0 <= i < disks.len(),
        disks[i].mount_point.components.len() > disks[best].mount_point.components.len(),
    ensures
        !under(views(path.components@), views(disks[i].mount_point.components@)),
{
    assert(!mounted_above(disks[i], path));
}

} // verus!
