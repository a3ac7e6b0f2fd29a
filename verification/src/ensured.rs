//! Planning a destination write: the file name, the date directory tree
//! and, for SFTP, the chain of directories to ensure. The I/O that
//! carries the plan out (mkdir, SFTP sessions, opening files) lives
//! outside the library; everything decided here is verified.

use crate::calendar::{spec_date_of, yyyymmdd_seq, date_of_timestamp, format_yyyymmdd, TIMESTAMP_LIMIT};
use crate::config::Compression;
use crate::destination::Destination;
use crate::text::{dec_seq, pad2, pad2_seq, replace_slashes, u64_to_dec, underscored};
use vstd::prelude::*;
use vstd::string::StringExecFns;

verus! {

/// Why a destination could not be prepared. The SSH and I/O variants
/// carry the underlying error's message.
#[derive(Debug)]
pub enum EnsuredError {
    Ssh(String),
    Io(String),
    MissingConfiguration,
    DuplicateConfiguration,
    RootFolderNotFound(String),
}

/// The artifact's file extension: `zfs.zst` for a compressed stream,
/// `zfs` for a bare one.
pub open spec fn file_ext_seq(compressed: bool) -> Seq<char> {
    if compressed {
        "zfs.zst"@
    } else {
        "zfs"@
    }
}

/// The artifact's file name for `dataset` written at `ts`:
/// `YYYYMMDD-<seconds>-<dataset with / replaced by _>.<ext>`.
pub open spec fn dst_file_name_seq(dataset: Seq<char>, ts: int, compressed: bool) -> Seq<char> {
    let (y, m, d) = spec_date_of(ts);
    yyyymmdd_seq(y, m, d) + "-"@ + dec_seq(ts as nat) + "-"@ + underscored(dataset) + "."@
        + file_ext_seq(compressed)
}

/// The date directory below the destination folder: `YYYY/MM/DD`.
pub open spec fn date_folder_seq(ts: int) -> Seq<char> {
    let (y, m, d) = spec_date_of(ts);
    dec_seq(y as nat) + "/"@ + pad2_seq(m as nat) + "/"@ + pad2_seq(d as nat)
}

/// Derive the artifact's file name.
pub fn dst_file_name(dataset: &str, ts: u64, compressed: bool) -> (r: String)
    requires
        ts < TIMESTAMP_LIMIT,
    ensures
        r@ == dst_file_name_seq(dataset@, ts as int, compressed),
{
    let date = date_of_timestamp(ts);
    let ext: &str = if compressed {
        "zfs.zst"
    } else {
        "zfs"
    };
    let r = format_yyyymmdd(&date).concat("-").concat(u64_to_dec(ts).as_str()).concat("-").concat(
        replace_slashes(dataset).as_str(),
    ).concat(".").concat(ext);
    proof {
        assert(r@ =~= dst_file_name_seq(dataset@, ts as int, compressed));
    }
    r
}

/// Join two path segments with a `/`.
pub fn path_join(base: &str, sub: &str) -> (r: String)
    ensures
        r@ == base@ + "/"@ + sub@,
{
    let r = String::from_str(base).concat("/").concat(sub);
    proof {
        assert(r@ =~= base@ + "/"@ + sub@);
    }
    r
}

/// A write to a local destination: create `dir` recursively, then write
/// the stream to `file_path`.
#[derive(Debug)]
pub struct LocalPlan {
    pub dir: String,
    pub file_path: String,
}

/// A write to an SFTP destination: connect to `host`, authenticate as
/// `username` with `identity_file`, verify `root_parent` exists, create
/// the missing directories of `dirs` in order with mode `chmod_dir`,
/// then open `file_path` for write and truncate with mode `chmod`.
#[derive(Debug)]
pub struct SftpPlan {
    pub username: String,
    pub identity_file: String,
    pub host: String,
    pub root_parent: Option<String>,
    pub dirs: Vec<String>,
    pub file_path: String,
    pub chmod: i32,
    pub chmod_dir: i32,
}

/// The prepared steps for one destination write.
#[derive(Debug)]
pub enum SavePlan {
    Local(LocalPlan),
    Sftp(SftpPlan),
}

/// The longest prefix of `s` before its last `/`: the parent directory
/// of a path without trailing slash, `None` when `s` has no `/`.
pub open spec fn parent_dir_seq(s: Seq<char>) -> Option<Seq<char>>
    decreases s.len(),
{
    if s.len() == 0 {
        Option::None
    } else if s[s.len() - 1] == '/' {
        Option::Some(s.subrange(0, s.len() - 1))
    } else {
        parent_dir_seq(s.subrange(0, s.len() - 1))
    }
}

/// The parent directory of `path`, `None` when it has none.
pub fn parent_dir(path: &str) -> (r: Option<String>)
    ensures
        match r {
            Option::Some(p) => parent_dir_seq(path@) == Option::Some(p@),
            Option::None => parent_dir_seq(path@) is None,
        },
{
    let n = path.unicode_len();
    let mut i: usize = n;
    proof {
        assert(path@.subrange(0, n as int) =~= path@);
    }
    while i > 0
        invariant
            i <= n,
            n == path@.len(),
            parent_dir_seq(path@) == parent_dir_seq(path@.subrange(0, i as int)),
            forall|j: int| i <= j < n ==> path@[j] != '/',
        decreases i,
    {
        let c = path.get_char(i - 1);
        proof {
            assert(path@.subrange(0, i as int)[i - 1] == path@[i - 1]);
            assert(path@.subrange(0, i as int).subrange(0, i - 1) =~= path@.subrange(0, i - 1));
        }
        if c == '/' {
            let p = path.substring_char(0, i - 1);
            proof {
                assert(p@ =~= path@.subrange(0, i as int).subrange(0, i - 1));
            }
            return Option::Some(String::from_str(p));
        }
        i = i - 1;
    }
    proof {
        assert(path@.subrange(0, 0) =~= Seq::<char>::empty());
    }
    Option::None
}

impl SavePlan {
    /// The path the stream will be written to.
    pub fn file_path(&self) -> (r: &String)
        ensures
            r == match self {
                SavePlan::Local(p) => &p.file_path,
                SavePlan::Sftp(p) => &p.file_path,
            },
    {
        match self {
            SavePlan::Local(p) => &p.file_path,
            SavePlan::Sftp(p) => &p.file_path,
        }
    }
}

/// Decide how `dataset`'s stream written at `ts` lands on `dst`: which
/// directories must exist and which file is opened. A destination with
/// neither or both of the SSH and local settings is rejected.
pub fn ensure_plan(
    dst: &Destination,
    dataset: &str,
    compression: &Option<Compression>,
    ts: u64,
) -> (r: Result<SavePlan, EnsuredError>)
    requires
        ts < TIMESTAMP_LIMIT,
    ensures
        ({
            let name = dst_file_name_seq(dataset@, ts as int, compression is Some);
            match (dst.ssh, dst.local) {
                (Option::None, Option::None) => r matches Result::Err(
                    EnsuredError::MissingConfiguration,
                ),
                (Option::Some(_), Option::Some(_)) => r matches Result::Err(
                    EnsuredError::DuplicateConfiguration,
                ),
                (Option::None, Option::Some(loc)) => r matches Result::Ok(
                    SavePlan::Local(p),
                ) && {
                    &&& p.dir@ == loc.folder@ + "/"@ + date_folder_seq(ts as int)
                    &&& p.file_path@ == p.dir@ + "/"@ + name
                },
                (Option::Some(ssh), Option::None) => r matches Result::Ok(SavePlan::Sftp(p)) && {
                    &&& p.username@ == ssh.username@
                    &&& p.identity_file@ == ssh.identity_file@
                    &&& p.host@ == ssh.host@
                    &&& match p.root_parent {
                        Option::Some(rp) => parent_dir_seq(ssh.folder@) == Option::Some(rp@),
                        Option::None => parent_dir_seq(ssh.folder@) is None,
                    }
                    &&& p.dirs@.len() == 4
                    &&& p.dirs@[0]@ == ssh.folder@
                    &&& p.dirs@[1]@ == ssh.folder@ + "/"@ + dec_seq(spec_date_of(ts as int).0 as nat)
                    &&& p.dirs@[2]@ == p.dirs@[1]@ + "/"@ + pad2_seq(spec_date_of(ts as int).1 as nat)
                    &&& p.dirs@[3]@ == p.dirs@[2]@ + "/"@ + pad2_seq(spec_date_of(ts as int).2 as nat)
                    &&& p.dirs@[3]@ == ssh.folder@ + "/"@ + date_folder_seq(ts as int)
                    &&& p.file_path@ == p.dirs@[3]@ + "/"@ + name
                    &&& p.chmod == dst.chmod
                    &&& p.chmod_dir == dst.chmod_dir
                },
            }
        }),
{
    let compressed = compression.is_some();
    let name = dst_file_name(dataset, ts, compressed);
    let date = date_of_timestamp(ts);
    match (&dst.ssh, &dst.local) {
        (Option::None, Option::None) => Result::Err(EnsuredError::MissingConfiguration),
        (Option::Some(_), Option::Some(_)) => Result::Err(EnsuredError::DuplicateConfiguration),
        (Option::None, Option::Some(loc)) => {
            let dir = path_join(loc.folder.as_str(), format_date_folder(&date).as_str());
            let file_path = path_join(dir.as_str(), name.as_str());
            proof {
                assert(dir@ =~= loc.folder@ + "/"@ + date_folder_seq(ts as int));
            }
            Result::Ok(SavePlan::Local(LocalPlan { dir, file_path }))
        },
        (Option::Some(ssh), Option::None) => {
            let root_parent = parent_dir(ssh.folder.as_str());
            let d1 = path_join(ssh.folder.as_str(), u64_to_dec(date.year).as_str());
            let d2 = path_join(d1.as_str(), pad2(date.month).as_str());
            let d3 = path_join(d2.as_str(), pad2(date.day).as_str());
            let file_path = path_join(d3.as_str(), name.as_str());
            let mut dirs: Vec<String> = Vec::new();
            dirs.push(ssh.folder.clone());
            dirs.push(d1);
            dirs.push(d2);
            dirs.push(d3);
            proof {
                assert(dirs@[3]@ =~= ssh.folder@ + "/"@ + date_folder_seq(ts as int));
            }
            Result::Ok(
                SavePlan::Sftp(
                    SftpPlan {
                        username: ssh.username.clone(),
                        identity_file: ssh.identity_file.clone(),
                        host: ssh.host.clone(),
                        root_parent,
                        dirs,
                        file_path,
                        chmod: dst.chmod,
                        chmod_dir: dst.chmod_dir,
                    },
                ),
            )
        },
    }
}

/// Format the date directory `YYYY/MM/DD`.
pub fn format_date_folder(date: &crate::calendar::CivilDate) -> (r: String)
    requires
        date.wf(),
    ensures
        r@ == dec_seq(date.year as nat) + "/"@ + pad2_seq(date.month as nat) + "/"@ + pad2_seq(
            date.day as nat,
        ),
{
    let r = u64_to_dec(date.year).concat("/").concat(pad2(date.month).as_str()).concat(
        "/",
    ).concat(pad2(date.day).as_str());
    proof {
        assert(r@ =~= dec_seq(date.year as nat) + "/"@ + pad2_seq(date.month as nat) + "/"@
            + pad2_seq(date.day as nat));
    }
    r
}

} // verus!
