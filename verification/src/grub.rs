//! Boot-time path resolution: how GRUB addresses the boot (and optionally
//! the store) partition, and the `search` directive used to locate it.

use vstd::prelude::*;
use vstd::string::StringExecFns;
use crate::strings::{chars_of, string_from_chars, str_eq};

verus! {

/// How a partition is identified in the generated `search` directive.
#[derive(Clone, Copy, PartialEq, Eq, Structural, Debug)]
pub enum FsIdentifier {
    Uuid,
    Label,
    Provided,
}

/// A path as GRUB sees it at boot time, with the `search` directive that
/// locates the containing filesystem (empty when the identifier is
/// `Provided`).
pub struct PathPair {
    pub path: String,
    pub search: String,
}

/// The path under which GRUB addresses `host` at boot time, given the mount
/// point of the partition holding `host`: the mount point is stripped; the
/// root filesystem, or a mount point that is no prefix, leaves `host`
/// unchanged; a path equal to its mount point becomes `/`.
pub open spec fn grub_path_of(fs: FsIdentifier, host: Seq<char>, mount: Seq<char>) -> Seq<char> {
    if fs is Provided {
        host
    } else if mount == "/"@ {
        host
    } else if host == mount {
        "/"@
    } else if mount.len() < host.len() && host.subrange(0, mount.len() as int) == mount
        && host[mount.len() as int] == '/' {
        host.subrange(mount.len() as int, host.len() as int)
    } else {
        host
    }
}

/// The `search` directive locating the filesystem, empty for `Provided`.
pub open spec fn search_of(fs: FsIdentifier, ident: Seq<char>) -> Seq<char> {
    match fs {
        FsIdentifier::Uuid => "search --set=drive1 --fs-uuid "@ + ident,
        FsIdentifier::Label => "search --set=drive1 --label "@ + ident,
        FsIdentifier::Provided => Seq::<char>::empty(),
    }
}

/// Whether a separate store pair is resolved at all: only when kernels
/// are not copied and the store partition is not the root filesystem.
pub fn wants_store_pair(copy_kernels: bool, store_dev: u64, root_dev: u64) -> (r: bool)
    ensures
        r == (!copy_kernels && store_dev != root_dev),
{
    !copy_kernels && store_dev != root_dev
}

impl PathPair {
    /// Resolves `host` against the partition mounted at `mount`, identified
    /// by `ident` (its UUID or label; ignored for `Provided`).
    pub fn resolve(fs: FsIdentifier, host: &str, mount: &str, ident: &str) -> (r: PathPair)
        ensures
            r.path@ == grub_path_of(fs, host@, mount@),
            r.search@ == search_of(fs, ident@),
    {
        let path: String = match fs {
            FsIdentifier::Provided => String::from_str(host),
            _ => {
                if str_eq(mount, "/") {
                    String::from_str(host)
                } else if str_eq(host, mount) {
                    String::from_str("/")
                } else {
                    let hc = chars_of(host);
                    let mc = chars_of(mount);
                    if mc.len() < hc.len() && crate::strings::has_prefix(&hc, &mc) && hc[mc.len()]
                        == '/' {
                        let mut rest: Vec<char> = Vec::new();
                        let mut i: usize = mc.len();
                        while i < hc.len()
                            invariant
                                mc@.len() <= i <= hc@.len(),
                                rest@ == hc@.subrange(mc@.len() as int, i as int),
                            decreases hc@.len() - i,
                        {
                            rest.push(hc[i]);
                            proof {
                                assert(hc@.subrange(mc@.len() as int, i + 1 as int) =~= hc@
                                    .subrange(mc@.len() as int, i as int).push(hc@[i as int]));
                            }
                            i = i + 1;
                        }
                        string_from_chars(&rest)
                    } else {
                        String::from_str(host)
                    }
                }
            },
        };
        let search: String = match fs {
            FsIdentifier::Uuid => {
                let mut s = String::from_str("search --set=drive1 --fs-uuid ");
                s.append(ident);
                s
            },
            FsIdentifier::Label => {
                let mut s = String::from_str("search --set=drive1 --label ");
                s.append(ident);
                s
            },
            FsIdentifier::Provided => String::new(),
        };
        PathPair { path, search }
    }
}

} // verus!
