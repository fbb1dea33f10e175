//! The remount planner: locate the authoritative record for a mount point
//! in a mount-table snapshot, merge the requested three-valued overrides
//! onto its current attribute bits, and add the remount marker the mount
//! call wants. Reading the live snapshot and issuing the call are the
//! caller's business.

use vstd::prelude::*;
use vstd::string::{StringExecFns, StringSliceAdditionalSpecFns};
use crate::codec::NEWLINE;
use crate::flags::{
    MountFlags, MS_REMOUNT, flags_of_options_spec, mount_options_flags, apply_to_flags_spec,
};
use crate::mountinfo::{
    find_last_byte, lemma_find_last_byte, lemma_find_last_byte_at, lemma_find_last_byte_none,
    parse_row_spec, parse_mount_point, RowOutcome, RowError, row_error_text, MountPointView,
};
use crate::text::{quoted_text, quoted_text_spec, bytes_eq};

verus! {

/// Why a remount cannot be planned or performed.
#[derive(Debug)]
pub enum RemountError {
    /// The snapshot could not be read; holds the caller's description of
    /// the failure.
    Io(String),
    /// A snapshot row scanned on the way to the mount point was
    /// malformed; holds the row error's message.
    ParseMountInfo(String),
    /// No record's mount point equals the target path.
    UnknownMountPoint(Vec<u8>),
}

/// The message each error carries.
pub open spec fn remount_error_text(e: RemountError) -> Seq<char> {
    match e {
        RemountError::Io(m) => m@,
        RemountError::ParseMountInfo(m) => m@,
        RemountError::UnknownMountPoint(p) => "Cannot find mount point: "@ + quoted_text_spec(p@),
    }
}

impl RemountError {
    /// The error's message.
    pub fn message(&self) -> (r: String)
        ensures
            r@ == remount_error_text(*self),
    {
        match self {
            RemountError::Io(m) => m.clone(),
            RemountError::ParseMountInfo(m) => m.clone(),
            RemountError::UnknownMountPoint(p) => {
                let mut s = String::from_str("Cannot find mount point: ");
                let q = quoted_text(p.as_slice());
                s.append(q.as_str());
                s
            },
        }
    }
}

/// What scanning a snapshot for a mount point yields.
pub enum LocateOutcome {
    /// No record's mount point equals the path.
    NotFound,
    /// The authoritative record: of all records whose mount point equals
    /// the path, the one latest in the buffer.
    Found(MountPointView),
    /// A row hit on the way, scanning from the end, was malformed.
    Bad(RowError),
}

/// Scan the snapshot's rows from the last to the first and stop at the
/// first record whose mount point equals `path`. Mounts stack in buffer
/// order, so the record this finds is the one most recently mounted at
/// the path: a scan must never settle for an earlier match.
pub open spec fn locate_last_spec(content: Seq<u8>, path: Seq<u8>) -> LocateOutcome
    decreases content.len(),
    via locate_last_spec_decreases
{
    let ix = find_last_byte(content, NEWLINE);
    if ix >= 0 {
        match parse_row_spec(content.skip(ix + 1)) {
            RowOutcome::Bad(e) => LocateOutcome::Bad(e),
            RowOutcome::Record(v) => {
                if v.mount_point == path {
                    LocateOutcome::Found(v)
                } else {
                    locate_last_spec(content.take(ix), path)
                }
            },
            RowOutcome::Skip => locate_last_spec(content.take(ix), path),
        }
    } else {
        match parse_row_spec(content) {
            RowOutcome::Bad(e) => LocateOutcome::Bad(e),
            RowOutcome::Record(v) => {
                if v.mount_point == path {
                    LocateOutcome::Found(v)
                } else {
                    LocateOutcome::NotFound
                }
            },
            RowOutcome::Skip => LocateOutcome::NotFound,
        }
    }
}

#[via_fn]
proof fn locate_last_spec_decreases(content: Seq<u8>, path: Seq<u8>) {
    lemma_find_last_byte(content, NEWLINE);
}

/// The index of the last occurrence of `c`, if it occurs.
fn find_last_byte_exec(v: &[u8], c: u8) -> (r: Option<usize>)
    ensures
        match r {
            Some(i) => find_last_byte(v@, c) == i,
            None => find_last_byte(v@, c) == -1,
        },
{
    let mut j: usize = v.len();
    while j > 0
        invariant
            j <= v.len(),
            forall|k: int| j <= k < v@.len() ==> v@[k] != c,
        decreases j,
    {
        if v[j - 1] == c {
            proof {
                lemma_find_last_byte_at(v@, c, j - 1);
            }
            return Some(j - 1);
        }
        j = j - 1;
    }
    proof {
        lemma_find_last_byte_none(v@, c);
    }
    None
}

/// The attribute bits of the mount most recently mounted at `path`,
/// according to the snapshot `content`: `Ok(None)` when no record
/// matches, the error of the first malformed row met while scanning
/// backwards otherwise.
pub fn get_mountpoint_flags_from(content: &[u8], path: &[u8]) -> (r: Result<
    Option<u64>,
    RemountError,
>)
    ensures
        match locate_last_spec(content@, path@) {
            LocateOutcome::NotFound => r matches Ok(None),
            LocateOutcome::Found(v) => r matches Ok(Some(f)) && f == flags_of_options_spec(
                v.mount_options,
            ),
            LocateOutcome::Bad(e) => r matches Err(re) && re matches RemountError::ParseMountInfo(
                m,
            ) && m@ == row_error_text(e),
        },
{
    let mut end: usize = content.len();
    proof {
        assert(content@.take(end as int) =~= content@);
    }
    loop
        invariant
            end <= content@.len(),
            locate_last_spec(content@.take(end as int), path@) == locate_last_spec(
                content@,
                path@,
            ),
        decreases end,
    {
        let part = &content[0..end];
        proof {
            assert(part@ =~= content@.take(end as int));
        }
        let nl = find_last_byte_exec(part, NEWLINE);
        match nl {
            Some(ix) => {
                proof {
                    lemma_find_last_byte(part@, NEWLINE);
                    assert(ix < end);
                }
                let line = &content[ix + 1..end];
                proof {
                    assert(line@ =~= part@.skip(ix + 1));
                    assert(content@.take(ix as int) =~= part@.take(ix as int));
                }
                match parse_mount_point(line) {
                    Err(e) => {
                        return Err(RemountError::ParseMountInfo(e.0));
                    },
                    Ok(Some(mp)) => {
                        if bytes_eq(mp.mount_point.as_slice(), path) {
                            return Ok(Some(mount_options_flags(mp.mount_options.as_slice())));
                        }
                        end = ix;
                    },
                    Ok(None) => {
                        end = ix;
                    },
                }
            },
            None => {
                match parse_mount_point(part) {
                    Err(e) => {
                        return Err(RemountError::ParseMountInfo(e.0));
                    },
                    Ok(Some(mp)) => {
                        if bytes_eq(mp.mount_point.as_slice(), path) {
                            return Ok(Some(mount_options_flags(mp.mount_options.as_slice())));
                        }
                        return Ok(None);
                    },
                    Ok(None) => {
                        return Ok(None);
                    },
                }
            },
        }
    }
}

/// Whether a three-valued override forces its attribute on.
pub open spec fn is_on_spec(x: Option<bool>) -> bool {
    x == Some(true)
}

/// Whether `x` forces its attribute on.
fn is_on(x: &Option<bool>) -> (r: bool)
    ensures
        r == is_on_spec(*x),
{
    match x {
        Some(b) => *b,
        None => false,
    }
}

/// `name` appended to the flag text gathered so far, preceded by a comma
/// when something was gathered already; or the text unchanged when the
/// attribute is not forced on.
pub open spec fn append_flag_text(t: Seq<char>, on: bool, name: Seq<char>) -> Seq<char> {
    if on {
        (if t.len() > 0 {
            t + ","@
        } else {
            t
        }) + name
    } else {
        t
    }
}

/// The comma-separated names of the attributes an override set forces on,
/// in a fixed order.
pub open spec fn mount_flags_text(o: MountFlags) -> Seq<char> {
    let t = append_flag_text(Seq::empty(), is_on_spec(o.bind), "bind"@);
    let t = append_flag_text(t, is_on_spec(o.readonly), "ro"@);
    let t = append_flag_text(t, is_on_spec(o.nodev), "nodev"@);
    let t = append_flag_text(t, is_on_spec(o.noexec), "noexec"@);
    let t = append_flag_text(t, is_on_spec(o.nosuid), "nosuid"@);
    let t = append_flag_text(t, is_on_spec(o.noatime), "noatime"@);
    let t = append_flag_text(t, is_on_spec(o.nodiratime), "nodiratime"@);
    let t = append_flag_text(t, is_on_spec(o.relatime), "relatime"@);
    let t = append_flag_text(t, is_on_spec(o.strictatime), "strictatime"@);
    let t = append_flag_text(t, is_on_spec(o.dirsync), "dirsync"@);
    let t = append_flag_text(t, is_on_spec(o.synchronous), "sync"@);
    append_flag_text(t, is_on_spec(o.mandlock), "mand"@)
}

/// Append `name` to `s`, preceded by a comma when `s` is not empty, when
/// the attribute is forced on.
fn push_flag(s: &mut String, on: bool, name: &str)
    ensures
        final(s)@ == append_flag_text(old(s)@, on, name@),
{
    if on {
        if !s.as_str().is_empty() {
            s.append(",");
        }
        s.append(name);
    }
}

impl MountFlags {
    /// The comma-separated names of the attributes this set forces on,
    /// as the kernel's option tokens name them.
    pub fn describe(&self) -> (r: String)
        ensures
            r@ == mount_flags_text(*self),
    {
        let mut s = String::new();
        push_flag(&mut s, is_on(&self.bind), "bind");
        push_flag(&mut s, is_on(&self.readonly), "ro");
        push_flag(&mut s, is_on(&self.nodev), "nodev");
        push_flag(&mut s, is_on(&self.noexec), "noexec");
        push_flag(&mut s, is_on(&self.nosuid), "nosuid");
        push_flag(&mut s, is_on(&self.noatime), "noatime");
        push_flag(&mut s, is_on(&self.nodiratime), "nodiratime");
        push_flag(&mut s, is_on(&self.relatime), "relatime");
        push_flag(&mut s, is_on(&self.strictatime), "strictatime");
        push_flag(&mut s, is_on(&self.dirsync), "dirsync");
        push_flag(&mut s, is_on(&self.synchronous), "sync");
        push_flag(&mut s, is_on(&self.mandlock), "mand");
        s
    }
}

/// The one-line description of a remount request: the forced-on flags, if
/// any, and the quoted target path.
pub open spec fn remount_text(o: MountFlags, path: Seq<u8>) -> Seq<char> {
    (if apply_to_flags_spec(o, 0) != 0 {
        mount_flags_text(o) + " "@
    } else {
        Seq::empty()
    }) + "remount "@ + quoted_text_spec(path)
}

/// A remount request: a target path, expected absolute as mount-table
/// records list it, and a three-valued override per attribute. With no
/// override set it plans a no-op remount.
#[derive(Clone, Debug)]
pub struct Remount {
    /// The target path, as bytes.
    pub path: Vec<u8>,
    /// The requested overrides.
    pub flags: MountFlags,
}

impl Remount {
    /// A remount of `path` that modifies no flags until some are set.
    pub fn new(path: &str) -> (r: Remount)
        ensures
            r.path@ == path.spec_bytes(),
            r.flags == MountFlags::unset_spec(),
    {
        let bytes = vstd::slice::slice_to_vec(path.as_bytes());
        Remount { path: bytes, flags: Default::default() }
    }

    /// A remount of a target given as raw path bytes.
    pub fn new_from_bytes(path: Vec<u8>) -> (r: Remount)
        ensures
            r.path@ == path@,
            r.flags == MountFlags::unset_spec(),
    {
        Remount { path, flags: Default::default() }
    }

    /// Set the bind override. A readonly remount inside an unprivileged
    /// user namespace does not work without it.
    pub fn bind(self, flag: bool) -> (r: Remount)
        ensures
            r.path == self.path,
            r.flags == (MountFlags { bind: Some(flag), ..self.flags }),
    {
        let mut s = self;
        s.flags.bind = Some(flag);
        s
    }

    /// Set the readonly override.
    pub fn readonly(self, flag: bool) -> (r: Remount)
        ensures
            r.path == self.path,
            r.flags == (MountFlags { readonly: Some(flag), ..self.flags }),
    {
        let mut s = self;
        s.flags.readonly = Some(flag);
        s
    }

    /// Set the nodev override.
    pub fn nodev(self, flag: bool) -> (r: Remount)
        ensures
            r.path == self.path,
            r.flags == (MountFlags { nodev: Some(flag), ..self.flags }),
    {
        let mut s = self;
        s.flags.nodev = Some(flag);
        s
    }

    /// Set the noexec override.
    pub fn noexec(self, flag: bool) -> (r: Remount)
        ensures
            r.path == self.path,
            r.flags == (MountFlags { noexec: Some(flag), ..self.flags }),
    {
        let mut s = self;
        s.flags.noexec = Some(flag);
        s
    }

    /// Set the nosuid override.
    pub fn nosuid(self, flag: bool) -> (r: Remount)
        ensures
            r.path == self.path,
            r.flags == (MountFlags { nosuid: Some(flag), ..self.flags }),
    {
        let mut s = self;
        s.flags.nosuid = Some(flag);
        s
    }

    /// Set the noatime override.
    pub fn noatime(self, flag: bool) -> (r: Remount)
        ensures
            r.path == self.path,
            r.flags == (MountFlags { noatime: Some(flag), ..self.flags }),
    {
        let mut s = self;
        s.flags.noatime = Some(flag);
        s
    }

    /// Set the nodiratime override.
    pub fn nodiratime(self, flag: bool) -> (r: Remount)
        ensures
            r.path == self.path,
            r.flags == (MountFlags { nodiratime: Some(flag), ..self.flags }),
    {
        let mut s = self;
        s.flags.nodiratime = Some(flag);
        s
    }

    /// Set the relatime override.
    pub fn relatime(self, flag: bool) -> (r: Remount)
        ensures
            r.path == self.path,
            r.flags == (MountFlags { relatime: Some(flag), ..self.flags }),
    {
        let mut s = self;
        s.flags.relatime = Some(flag);
        s
    }

    /// Set the strictatime override.
    pub fn strictatime(self, flag: bool) -> (r: Remount)
        ensures
            r.path == self.path,
            r.flags == (MountFlags { strictatime: Some(flag), ..self.flags }),
    {
        let mut s = self;
        s.flags.strictatime = Some(flag);
        s
    }

    /// Set the dirsync override.
    pub fn dirsync(self, flag: bool) -> (r: Remount)
        ensures
            r.path == self.path,
            r.flags == (MountFlags { dirsync: Some(flag), ..self.flags }),
    {
        let mut s = self;
        s.flags.dirsync = Some(flag);
        s
    }

    /// Set the synchronous override.
    pub fn synchronous(self, flag: bool) -> (r: Remount)
        ensures
            r.path == self.path,
            r.flags == (MountFlags { synchronous: Some(flag), ..self.flags }),
    {
        let mut s = self;
        s.flags.synchronous = Some(flag);
        s
    }

    /// Set the mandlock override.
    pub fn mandlock(self, flag: bool) -> (r: Remount)
        ensures
            r.path == self.path,
            r.flags == (MountFlags { mandlock: Some(flag), ..self.flags }),
    {
        let mut s = self;
        s.flags.mandlock = Some(flag);
        s
    }

    /// The one-line description of this request.
    pub fn describe(&self) -> (r: String)
        ensures
            r@ == remount_text(self.flags, self.path@),
    {
        let mut s = String::new();
        if self.flags.apply_to_flags(0) != 0 {
            let f = self.flags.describe();
            s.append(f.as_str());
            s.append(" ");
        }
        s.append("remount ");
        let q = quoted_text(self.path.as_slice());
        s.append(q.as_str());
        proof {
            assert(s@ =~= remount_text(self.flags, self.path@));
        }
        s
    }

    /// The flag bitset to submit to the remount call: the bits of the
    /// record most recently mounted at the target path, the overrides
    /// merged on, and the remount marker added. Fails with
    /// `UnknownMountPoint` exactly when no record matches, and with the
    /// first malformed row's error when the backward scan hits one.
    pub fn plan_flags(&self, content: &[u8]) -> (r: Result<u64, RemountError>)
        ensures
            match locate_last_spec(content@, self.path@) {
                LocateOutcome::Found(v) => r matches Ok(f) && f == (apply_to_flags_spec(
                    self.flags,
                    flags_of_options_spec(v.mount_options),
                ) | MS_REMOUNT),
                LocateOutcome::NotFound => r matches Err(re) && re
                    matches RemountError::UnknownMountPoint(p) && p@ == self.path@,
                LocateOutcome::Bad(e) => r matches Err(re) && re
                    matches RemountError::ParseMountInfo(m) && m@ == row_error_text(e),
            },
    {
        match get_mountpoint_flags_from(content, self.path.as_slice()) {
            Ok(Some(flags)) => Ok(self.flags.apply_to_flags(flags) | MS_REMOUNT),
            Ok(None) => Err(
                RemountError::UnknownMountPoint(vstd::slice::slice_to_vec(self.path.as_slice())),
            ),
            Err(e) => Err(e),
        }
    }
}

} // verus!
