//! Volume roots and capacity data.
//!
//! A scan of a storage volume's mount point is overlaid with the volume's
//! capacity figures. The classifier decides from the path alone whether the
//! scan root is such a mount point; the capacity query itself is the
//! platform's business, and its answer arrives here as a plain list of
//! mounted volumes from which the most specific match is picked.

use vstd::prelude::*;

verus! {

broadcast use vstd::std_specs::vec::group_vec_axioms, vstd::seq::group_seq_axioms;

/// One mounted volume as the platform reports it.
pub struct DiskRecord {
    pub mount_point: String,
    pub total_space: u64,
    pub available_space: u64,
}

/// Capacity figures attached to the terminal batch of a volume-root scan.
#[derive(Debug, Clone, Copy, PartialEq, Eq, Structural)]
pub struct DiskInfo {
    pub total_space: u64,
    pub available_space: u64,
    pub used_space: u64,
}

/// The volume mounted at `d` holds the path: its mount point leads the path.
pub open spec fn disk_matches(path: Seq<char>, d: DiskRecord) -> bool {
    d.mount_point@.is_prefix_of(path)
}

/// `info` is the capacity report of the best match for `path` among `disks`:
/// the first of the volumes whose mount points are the longest prefix of the
/// path, with `used = total - available`.
pub open spec fn chosen_disk(path: Seq<char>, disks: Seq<DiskRecord>, i: int, info: DiskInfo) -> bool {
    &&& 0 <= i < disks.len()
    &&& disk_matches(path, disks[i])
    &&& info.total_space == disks[i].total_space
    &&& info.available_space == disks[i].available_space
    &&& info.used_space == disks[i].total_space - disks[i].available_space
    &&& forall|j: int|
        0 <= j < disks.len() && disk_matches(path, #[trigger] disks[j])
            ==> disks[j].mount_point@.len() <= disks[i].mount_point@.len()
    &&& forall|j: int|
        0 <= j < i && disk_matches(path, #[trigger] disks[j]) ==> disks[j].mount_point@.len()
            < disks[i].mount_point@.len()
}

/// Does `prefix` lead `s`?
pub fn str_starts_with(s: &str, prefix: &str) -> (r: bool)
    ensures
        r == prefix@.is_prefix_of(s@),
{
    let n = prefix.unicode_len();
    let m = s.unicode_len();
    if n > m {
        proof {
            assert(!prefix@.is_prefix_of(s@));
        }
        return false;
    }
    let mut i: usize = 0;
    while i < n
        invariant
            i <= n,
            n == prefix@.len(),
            n <= s@.len(),
            forall|j: int| 0 <= j < i ==> s@[j] == prefix@[j],
        decreases n - i,
    {
        if s.get_char(i) != prefix.get_char(i) {
            proof {
                assert(s@.subrange(0, n as int)[i as int] != prefix@[i as int]);
            }
            return false;
        }
        i = i + 1;
    }
    proof {
        assert(prefix@ =~= s@.subrange(0, n as int));
    }
    true
}

/// Pick the capacity report for `path`: the volume whose mount point is the
/// longest prefix of the path, or nothing when no mounted volume holds it.
/// Capacity reports never claim more available than total space.
pub fn get_disk_info(path: &str, disks: &Vec<DiskRecord>) -> (r: Option<DiskInfo>)
    requires
        forall|i: int|
            0 <= i < disks@.len() ==> (#[trigger] disks@[i]).available_space
                <= disks@[i].total_space,
    ensures
        (r is None) <==> (forall|i: int|
            0 <= i < disks@.len() ==> !disk_matches(path@, #[trigger] disks@[i])),
        r matches Some(info) ==> exists|i: int| chosen_disk(path@, disks@, i, info),
{
    let ghost gpath = path@;
    let mut best: Option<DiskInfo> = None;
    let mut best_len: usize = 0;
    let ghost mut best_idx: int = 0;
    let mut k: usize = 0;
    while k < disks.len()
        invariant
            k <= disks@.len(),
            forall|i: int|
                0 <= i < disks@.len() ==> (#[trigger] disks@[i]).available_space
                    <= disks@[i].total_space,
            gpath == path@,
            (best is None) ==> (forall|i: int|
                0 <= i < k ==> !disk_matches(gpath, #[trigger] disks@[i])),
            best matches Some(info) ==> {
                &&& 0 <= best_idx < k
                &&& best_len == disks@[best_idx].mount_point@.len()
                &&& disk_matches(gpath, disks@[best_idx])
                &&& info.total_space == disks@[best_idx].total_space
                &&& info.available_space == disks@[best_idx].available_space
                &&& info.used_space == disks@[best_idx].total_space
                    - disks@[best_idx].available_space
                &&& forall|j: int|
                    0 <= j < k && disk_matches(gpath, #[trigger] disks@[j])
                        ==> disks@[j].mount_point@.len() <= best_len
                &&& forall|j: int|
                    0 <= j < best_idx && disk_matches(gpath, #[trigger] disks@[j])
                        ==> disks@[j].mount_point@.len() < best_len
            },
        decreases disks@.len() - k,
    {
        let disk = &disks[k];
        if str_starts_with(path, disk.mount_point.as_str()) {
            let mount_len = disk.mount_point.as_str().unicode_len();
            if best.is_none() || mount_len > best_len {
                best = Some(
                    DiskInfo {
                        total_space: disk.total_space,
                        available_space: disk.available_space,
                        used_space: disk.total_space - disk.available_space,
                    },
                );
                best_len = mount_len;
                proof {
                    best_idx = k as int;
                }
            }
        }
        k = k + 1;
    }
    proof {
        match best {
            Some(info) => {
                assert(chosen_disk(gpath, disks@, best_idx, info));
            },
            None => {},
        }
    }
    best
}

/// No character of `s` is a path separator, and there is at least one.
pub open spec fn nonempty_no_slash(s: Seq<char>) -> bool {
    s.len() > 0 && forall|i: int| 0 <= i < s.len() ==> s[i] != '/'
}

/// `s` is exactly two nonempty separator-free components joined by one slash.
pub open spec fn two_nonempty_parts(s: Seq<char>) -> bool {
    exists|k: int|
        {
            &&& 0 < k < s.len() - 1
            &&& s[k] == '/'
            &&& nonempty_no_slash(#[trigger] s.take(k))
            &&& nonempty_no_slash(s.skip(k + 1))
        }
}

/// The path names the top of a storage volume: the filesystem root itself, a
/// volume mounted directly under the volumes directory, or a mount one or two
/// levels under the media directories.
pub open spec fn spec_is_root_directory(s: Seq<char>) -> bool {
    ||| s == "/"@
    ||| s == "\\"@
    ||| ("/Volumes/"@.is_prefix_of(s) && nonempty_no_slash(s.skip("/Volumes/"@.len() as int)))
    ||| ("/mnt/"@.is_prefix_of(s) && nonempty_no_slash(s.skip("/mnt/"@.len() as int)))
    ||| ("/media/"@.is_prefix_of(s) && two_nonempty_parts(s.skip("/media/"@.len() as int)))
}

/// Is the remainder of `s` after `from` one nonempty separator-free component?
fn tail_is_component(s: &str, from: usize) -> (r: bool)
    requires
        from <= s@.len(),
    ensures
        r == nonempty_no_slash(s@.skip(from as int)),
{
    let n = s.unicode_len();
    if from >= n {
        return false;
    }
    let mut i: usize = from;
    while i < n
        invariant
            from <= i <= n,
            n == s@.len(),
            forall|j: int| from <= j < i ==> s@[j] != '/',
        decreases n - i,
    {
        if s.get_char(i) == '/' {
            proof {
                assert(s@.skip(from as int)[i - from as int] == '/');
            }
            return false;
        }
        i = i + 1;
    }
    proof {
        assert forall|j: int| 0 <= j < s@.skip(from as int).len() implies s@.skip(from as int)[j]
            != '/' by {
            assert(s@.skip(from as int)[j] == s@[j + from]);
        }
    }
    true
}

/// Is the remainder of `s` after `from` exactly two nonempty separator-free
/// components joined by one slash?
fn tail_is_two_components(s: &str, from: usize) -> (r: bool)
    requires
        from <= s@.len(),
    ensures
        r == two_nonempty_parts(s@.skip(from as int)),
{
    let ghost tail = s@.skip(from as int);
    let n = s.unicode_len();
    // Find the first separator at or after `from`.
    let mut p: usize = from;
    while p < n && s.get_char(p) != '/'
        invariant
            from <= p <= n,
            n == s@.len(),
            forall|j: int| from <= j < p ==> s@[j] != '/',
        decreases n - p,
    {
        p = p + 1;
    }
    if p >= n {
        // No separator at all.
        proof {
            assert forall|k: int| !(0 < k < tail.len() - 1 && tail[k] == '/') by {
                if 0 < k < tail.len() - 1 {
                    assert(tail[k] == s@[k + from]);
                }
            }
        }
        return false;
    }
    let ghost gk = p - from as int;
    proof {
        assert(tail[gk] == s@[p as int]);
    }
    if p == from || p + 1 >= n {
        // Empty first component, or empty second component.
        proof {
            assert forall|k: int|
                !(0 < k < tail.len() - 1 && tail[k] == '/' && nonempty_no_slash(#[trigger] tail.take(
                    k,
                )) && nonempty_no_slash(tail.skip(k + 1))) by {
                if 0 < k < tail.len() - 1 && tail[k] == '/' {
                    if k < gk {
                        assert(tail[k] == s@[k + from]);
                        assert(s@[k + from] != '/');
                    } else if k > gk {
                        assert(tail.take(k)[gk] == '/');
                        assert(!nonempty_no_slash(tail.take(k)));
                    }
                }
            }
        }
        return false;
    }
    // Both sides of the first separator must be separator-free; the left side
    // already is, by the search above.
    let second = tail_is_component(s, p + 1);
    proof {
        if second {
            assert(tail.skip(gk + 1) =~= s@.skip(p + 1 as int));
            assert(nonempty_no_slash(tail.take(gk))) by {
                assert forall|j: int| 0 <= j < gk implies tail.take(gk)[j] != '/' by {
                    assert(tail.take(gk)[j] == s@[j + from]);
                }
            }
            assert(0 < gk < tail.len() - 1 && tail[gk] == '/');
        } else {
            assert forall|k: int|
                !(0 < k < tail.len() - 1 && tail[k] == '/' && nonempty_no_slash(#[trigger] tail.take(
                    k,
                )) && nonempty_no_slash(tail.skip(k + 1))) by {
                if 0 < k < tail.len() - 1 && tail[k] == '/' {
                    if k < gk {
                        assert(tail[k] == s@[k + from]);
                        assert(s@[k + from] != '/');
                    } else if k > gk {
                        assert(tail.take(k)[gk] == '/');
                        assert(!nonempty_no_slash(tail.take(k)));
                    } else {
                        assert(tail.skip(gk + 1) =~= s@.skip(p + 1 as int));
                    }
                }
            }
        }
    }
    second
}

/// Decide whether `path` names the top of a storage volume.
pub fn is_root_directory(path: &str) -> (r: bool)
    ensures
        r == spec_is_root_directory(path@),
{
    proof {
        reveal_strlit("/");
        reveal_strlit("\\");
        reveal_strlit("/Volumes/");
        reveal_strlit("/mnt/");
        reveal_strlit("/media/");
    }
    let n = path.unicode_len();
    if n == 1 {
        let c = path.get_char(0);
        if c == '/' {
            proof {
                assert(path@ =~= "/"@);
            }
            return true;
        }
        if c == '\\' {
            proof {
                assert(path@ =~= "\\"@);
            }
            return true;
        }
    }
    proof {
        assert(path@ != "/"@ && path@ != "\\"@) by {
            if path@ == "/"@ {
                assert(path@.len() == 1 && path@[0] == '/');
            }
            if path@ == "\\"@ {
                assert(path@.len() == 1 && path@[0] == '\\');
            }
        }
    }
    if str_starts_with(path, "/Volumes/") {
        proof {
            assert(path@[1] == 'V') by {
                assert(path@.subrange(0, 9)[1] == 'V');
            }
            assert(!"/mnt/"@.is_prefix_of(path@) && !"/media/"@.is_prefix_of(path@)) by {
                if "/mnt/"@.is_prefix_of(path@) {
                    assert(path@.subrange(0, 5)[1] == 'm');
                }
                if "/media/"@.is_prefix_of(path@) {
                    assert(path@.subrange(0, 7)[1] == 'm');
                }
            }
        }
        return tail_is_component(path, 9);
    }
    if str_starts_with(path, "/mnt/") {
        proof {
            assert(path@[1] == 'm' && path@[2] == 'n') by {
                assert(path@.subrange(0, 5)[1] == 'm');
                assert(path@.subrange(0, 5)[2] == 'n');
            }
            assert(!"/media/"@.is_prefix_of(path@)) by {
                if "/media/"@.is_prefix_of(path@) {
                    assert(path@.subrange(0, 7)[2] == 'e');
                }
            }
        }
        return tail_is_component(path, 5);
    }
    if str_starts_with(path, "/media/") {
        return tail_is_two_components(path, 7);
    }
    false
}

} // verus!
