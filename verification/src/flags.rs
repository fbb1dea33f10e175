//! The mount-attribute flag model: the bitset the kernel's mount call
//! takes, the mapping from per-mount option tokens to bits, and the
//! three-valued override set a remount merges onto the current bits.

use vstd::prelude::*;
use crate::codec::COMMA;
use crate::mountinfo::MountPoint;

verus! {

/// Mount the filesystem read-only.
pub const MS_RDONLY: u64 = 1;

/// Ignore suid and sgid bits.
pub const MS_NOSUID: u64 = 2;

/// Disallow access to device special files.
pub const MS_NODEV: u64 = 4;

/// Disallow program execution.
pub const MS_NOEXEC: u64 = 8;

/// Writes are synced at once.
pub const MS_SYNCHRONOUS: u64 = 16;

/// Alter the flags of a mounted filesystem.
pub const MS_REMOUNT: u64 = 32;

/// Allow mandatory locks.
pub const MS_MANDLOCK: u64 = 64;

/// Directory modifications are synchronous.
pub const MS_DIRSYNC: u64 = 128;

/// Do not update access times.
pub const MS_NOATIME: u64 = 1024;

/// Do not update directory access times.
pub const MS_NODIRATIME: u64 = 2048;

/// A bind mount.
pub const MS_BIND: u64 = 4096;

/// Move a subtree.
pub const MS_MOVE: u64 = 8192;

/// Recursive action.
pub const MS_REC: u64 = 16384;

/// Update access time relative to modification or change time.
pub const MS_RELATIME: u64 = 2097152;

/// Always update the last access time.
pub const MS_STRICTATIME: u64 = 16777216;

/// The attribute bit named by one option token, or zero for a token this
/// model does not recognize (unknown tokens are ignored, which keeps the
/// model forward-compatible with future kernel option names).
pub open spec fn token_flag_spec(t: Seq<u8>) -> u64 {
    if t == seq![114u8, 111u8] {  // "ro"
        MS_RDONLY
    } else if t == seq![110u8, 111u8, 115u8, 117u8, 105u8, 100u8] {  // "nosuid"
        MS_NOSUID
    } else if t == seq![110u8, 111u8, 100u8, 101u8, 118u8] {  // "nodev"
        MS_NODEV
    } else if t == seq![110u8, 111u8, 101u8, 120u8, 101u8, 99u8] {  // "noexec"
        MS_NOEXEC
    } else if t == seq![109u8, 97u8, 110u8, 100u8] {  // "mand"
        MS_MANDLOCK
    } else if t == seq![115u8, 121u8, 110u8, 99u8] {  // "sync"
        MS_SYNCHRONOUS
    } else if t == seq![100u8, 105u8, 114u8, 115u8, 121u8, 110u8, 99u8] {  // "dirsync"
        MS_DIRSYNC
    } else if t == seq![110u8, 111u8, 97u8, 116u8, 105u8, 109u8, 101u8] {  // "noatime"
        MS_NOATIME
    } else if t == seq![110u8, 111u8, 100u8, 105u8, 114u8, 97u8, 116u8, 105u8, 109u8, 101u8] {  // "nodiratime"
        MS_NODIRATIME
    } else if t == seq![114u8, 101u8, 108u8, 97u8, 116u8, 105u8, 109u8, 101u8] {  // "relatime"
        MS_RELATIME
    } else if t == seq![115u8, 116u8, 114u8, 105u8, 99u8, 116u8, 97u8, 116u8, 105u8, 109u8, 101u8] {  // "strictatime"
        MS_STRICTATIME
    } else {
        0
    }
}

/// The attribute bit named by `t`.
pub fn token_flag(t: &[u8]) -> (r: u64)
    ensures
        r == token_flag_spec(t@),
{
    let w_ro: Vec<u8> = vec![114, 111];
    let w_nosuid: Vec<u8> = vec![110, 111, 115, 117, 105, 100];
    let w_nodev: Vec<u8> = vec![110, 111, 100, 101, 118];
    let w_noexec: Vec<u8> = vec![110, 111, 101, 120, 101, 99];
    let w_mand: Vec<u8> = vec![109, 97, 110, 100];
    let w_sync: Vec<u8> = vec![115, 121, 110, 99];
    let w_dirsync: Vec<u8> = vec![100, 105, 114, 115, 121, 110, 99];
    let w_noatime: Vec<u8> = vec![110, 111, 97, 116, 105, 109, 101];
    let w_nodiratime: Vec<u8> = vec![110, 111, 100, 105, 114, 97, 116, 105, 109, 101];
    let w_relatime: Vec<u8> = vec![114, 101, 108, 97, 116, 105, 109, 101];
    let w_strictatime: Vec<u8> = vec![115, 116, 114, 105, 99, 116, 97, 116, 105, 109, 101];
    proof {
        assert(w_ro@ =~= seq![114u8, 111u8]);
        assert(w_nosuid@ =~= seq![110u8, 111u8, 115u8, 117u8, 105u8, 100u8]);
        assert(w_nodev@ =~= seq![110u8, 111u8, 100u8, 101u8, 118u8]);
        assert(w_noexec@ =~= seq![110u8, 111u8, 101u8, 120u8, 101u8, 99u8]);
        assert(w_mand@ =~= seq![109u8, 97u8, 110u8, 100u8]);
        assert(w_sync@ =~= seq![115u8, 121u8, 110u8, 99u8]);
        assert(w_dirsync@ =~= seq![100u8, 105u8, 114u8, 115u8, 121u8, 110u8, 99u8]);
        assert(w_noatime@ =~= seq![110u8, 111u8, 97u8, 116u8, 105u8, 109u8, 101u8]);
        assert(w_nodiratime@ =~= seq![
            110u8,
            111u8,
            100u8,
            105u8,
            114u8,
            97u8,
            116u8,
            105u8,
            109u8,
            101u8,
        ]);
        assert(w_relatime@ =~= seq![114u8, 101u8, 108u8, 97u8, 116u8, 105u8, 109u8, 101u8]);
        assert(w_strictatime@ =~= seq![
            115u8,
            116u8,
            114u8,
            105u8,
            99u8,
            116u8,
            97u8,
            116u8,
            105u8,
            109u8,
            101u8,
        ]);
    }
    if crate::text::bytes_eq(t, w_ro.as_slice()) {
        MS_RDONLY
    } else if crate::text::bytes_eq(t, w_nosuid.as_slice()) {
        MS_NOSUID
    } else if crate::text::bytes_eq(t, w_nodev.as_slice()) {
        MS_NODEV
    } else if crate::text::bytes_eq(t, w_noexec.as_slice()) {
        MS_NOEXEC
    } else if crate::text::bytes_eq(t, w_mand.as_slice()) {
        MS_MANDLOCK
    } else if crate::text::bytes_eq(t, w_sync.as_slice()) {
        MS_SYNCHRONOUS
    } else if crate::text::bytes_eq(t, w_dirsync.as_slice()) {
        MS_DIRSYNC
    } else if crate::text::bytes_eq(t, w_noatime.as_slice()) {
        MS_NOATIME
    } else if crate::text::bytes_eq(t, w_nodiratime.as_slice()) {
        MS_NODIRATIME
    } else if crate::text::bytes_eq(t, w_relatime.as_slice()) {
        MS_RELATIME
    } else if crate::text::bytes_eq(t, w_strictatime.as_slice()) {
        MS_STRICTATIME
    } else {
        0
    }
}

/// The bits named by a comma-separated option list, scanned with `cur` as
/// the token gathered so far: the union of the bits of every token.
pub open spec fn flags_rec(s: Seq<u8>, cur: Seq<u8>) -> u64
    decreases s.len(),
{
    if s.len() == 0 {
        token_flag_spec(cur)
    } else if s[0] == COMMA {
        token_flag_spec(cur) | flags_rec(s.skip(1), Seq::empty())
    } else {
        flags_rec(s.skip(1), cur.push(s[0]))
    }
}

/// The bits named by a comma-separated option list.
pub open spec fn flags_of_options_spec(s: Seq<u8>) -> u64 {
    flags_rec(s, Seq::empty())
}

/// Bitwise or of machine words is associative.
proof fn lemma_or_assoc(a: u64, b: u64, c: u64)
    by (bit_vector)
    ensures
        a | (b | c) == (a | b) | c,
{
}

/// Zero is neutral for bitwise or.
proof fn lemma_or_zero(a: u64)
    by (bit_vector)
    ensures
        0u64 | a == a,
        a | 0u64 == a,
{
}

/// The bits named by the comma-separated option list `opts`.
pub fn mount_options_flags(opts: &[u8]) -> (r: u64)
    ensures
        r == flags_of_options_spec(opts@),
{
    let mut flags: u64 = 0;
    let mut start: usize = 0;
    let mut i: usize = 0;
    proof {
        assert(opts@.skip(0) =~= opts@);
        assert(opts@.subrange(0, 0) =~= Seq::<u8>::empty());
        lemma_or_zero(flags_rec(opts@, Seq::empty()));
    }
    while i < opts.len()
        invariant
            start <= i <= opts@.len(),
            flags | flags_rec(opts@.skip(i as int), opts@.subrange(start as int, i as int))
                == flags_of_options_spec(opts@),
        decreases opts.len() - i,
    {
        let ghost cur = opts@.subrange(start as int, i as int);
        proof {
            assert(opts@.skip(i as int).skip(1) =~= opts@.skip(i as int + 1));
            assert(opts@.skip(i as int)[0] == opts@[i as int]);
        }
        if opts[i] == COMMA {
            let t = token_flag(&opts[start..i]);
            proof {
                lemma_or_assoc(flags, t, flags_rec(opts@.skip(i as int + 1), Seq::empty()));
                assert(opts@.subrange(i as int + 1, i as int + 1) =~= Seq::<u8>::empty());
            }
            flags = flags | t;
            start = i + 1;
        } else {
            proof {
                assert(cur.push(opts@[i as int]) =~= opts@.subrange(start as int, i as int + 1));
            }
        }
        i = i + 1;
    }
    proof {
        assert(opts@.skip(i as int) =~= Seq::<u8>::empty());
    }
    let t = token_flag(&opts[start..opts.len()]);
    flags | t
}

impl MountPoint {
    /// The attribute bits named by this record's per-mount options, as the
    /// mount call takes them.
    pub fn get_flags(&self) -> (r: u64)
        ensures
            r == flags_of_options_spec(self.mount_options@),
    {
        mount_options_flags(self.mount_options.as_slice())
    }
}

/// A three-valued override per attribute: `None` leaves the attribute as
/// currently mounted, `Some(true)` forces it on, `Some(false)` forces it
/// off.
#[derive(Clone, Debug)]
pub struct MountFlags {
    /// Bind-mount marker.
    pub bind: Option<bool>,
    /// Read-only.
    pub readonly: Option<bool>,
    /// No device special files.
    pub nodev: Option<bool>,
    /// No program execution.
    pub noexec: Option<bool>,
    /// No suid/sgid.
    pub nosuid: Option<bool>,
    /// No access-time updates.
    pub noatime: Option<bool>,
    /// No directory access-time updates.
    pub nodiratime: Option<bool>,
    /// Relative access-time updates.
    pub relatime: Option<bool>,
    /// Strict access-time updates.
    pub strictatime: Option<bool>,
    /// Synchronous directory modifications.
    pub dirsync: Option<bool>,
    /// Synchronous writes.
    pub synchronous: Option<bool>,
    /// Mandatory locking.
    pub mandlock: Option<bool>,
}

impl MountFlags {
    /// The override set that leaves every attribute as it is.
    pub open spec fn unset_spec() -> MountFlags {
        MountFlags {
            bind: None,
            readonly: None,
            nodev: None,
            noexec: None,
            nosuid: None,
            noatime: None,
            nodiratime: None,
            relatime: None,
            strictatime: None,
            dirsync: None,
            synchronous: None,
            mandlock: None,
        }
    }

    /// Merge the overrides onto `flags`: set or clear each mentioned bit,
    /// touch no other.
    pub fn apply_to_flags(&self, flags: u64) -> (r: u64)
        ensures
            r == apply_to_flags_spec(*self, flags),
    {
        let mut flags = flags;
        flags = apply_flag(flags, MS_BIND, self.bind);
        flags = apply_flag(flags, MS_RDONLY, self.readonly);
        flags = apply_flag(flags, MS_NODEV, self.nodev);
        flags = apply_flag(flags, MS_NOEXEC, self.noexec);
        flags = apply_flag(flags, MS_NOSUID, self.nosuid);
        flags = apply_flag(flags, MS_NOATIME, self.noatime);
        flags = apply_flag(flags, MS_NODIRATIME, self.nodiratime);
        flags = apply_flag(flags, MS_RELATIME, self.relatime);
        flags = apply_flag(flags, MS_STRICTATIME, self.strictatime);
        flags = apply_flag(flags, MS_DIRSYNC, self.dirsync);
        flags = apply_flag(flags, MS_SYNCHRONOUS, self.synchronous);
        flags = apply_flag(flags, MS_MANDLOCK, self.mandlock);
        flags
    }
}

impl Default for MountFlags {
    /// Every attribute left as currently mounted.
    fn default() -> (r: MountFlags)
        ensures
            r == MountFlags::unset_spec(),
    {
        MountFlags {
            bind: None,
            readonly: None,
            nodev: None,
            noexec: None,
            nosuid: None,
            noatime: None,
            nodiratime: None,
            relatime: None,
            strictatime: None,
            dirsync: None,
            synchronous: None,
            mandlock: None,
        }
    }
}

/// One attribute merged: forced on, forced off, or left alone.
pub open spec fn apply_flag_spec(flags: u64, flag: u64, set: Option<bool>) -> u64 {
    match set {
        Some(true) => flags | flag,
        Some(false) => flags & !flag,
        None => flags,
    }
}

/// The whole override set merged onto `flags`, attribute by attribute.
pub open spec fn apply_to_flags_spec(o: MountFlags, flags: u64) -> u64 {
    let f = apply_flag_spec(flags, MS_BIND, o.bind);
    let f = apply_flag_spec(f, MS_RDONLY, o.readonly);
    let f = apply_flag_spec(f, MS_NODEV, o.nodev);
    let f = apply_flag_spec(f, MS_NOEXEC, o.noexec);
    let f = apply_flag_spec(f, MS_NOSUID, o.nosuid);
    let f = apply_flag_spec(f, MS_NOATIME, o.noatime);
    let f = apply_flag_spec(f, MS_NODIRATIME, o.nodiratime);
    let f = apply_flag_spec(f, MS_RELATIME, o.relatime);
    let f = apply_flag_spec(f, MS_STRICTATIME, o.strictatime);
    let f = apply_flag_spec(f, MS_DIRSYNC, o.dirsync);
    let f = apply_flag_spec(f, MS_SYNCHRONOUS, o.synchronous);
    apply_flag_spec(f, MS_MANDLOCK, o.mandlock)
}

/// Merge one attribute onto `flags` per its three-valued override.
pub fn apply_flag(flags: u64, flag: u64, set: Option<bool>) -> (r: u64)
    ensures
        r == apply_flag_spec(flags, flag, set),
{
    match set {
        Some(true) => flags | flag,
        Some(false) => flags & !flag,
        None => flags,
    }
}

/// An override set with every attribute unset returns its input
/// unchanged: the merge is a pure function of its two inputs and touches
/// nothing it is not told to.
pub proof fn lemma_apply_unset_is_identity(o: MountFlags, flags: u64)
    requires
        o == MountFlags::unset_spec(),
    ensures
        apply_to_flags_spec(o, flags) == flags,
{
}

/// Forcing readonly off clears exactly the readonly bit and no other:
/// the result has the bit clear, and agrees with the input everywhere
/// else.
pub proof fn lemma_clear_readonly_exact(o: MountFlags, flags: u64)
    requires
        o.readonly == Some(false),
        o.bind is None,
        o.nodev is None,
        o.noexec is None,
        o.nosuid is None,
        o.noatime is None,
        o.nodiratime is None,
        o.relatime is None,
        o.strictatime is None,
        o.dirsync is None,
        o.synchronous is None,
        o.mandlock is None,
    ensures
        apply_to_flags_spec(o, flags) == flags & !MS_RDONLY,
        apply_to_flags_spec(o, flags) & MS_RDONLY == 0,
        apply_to_flags_spec(o, flags) | MS_RDONLY == flags | MS_RDONLY,
{
    assert(flags & !1u64 == flags & !1u64);
    assert((flags & !1u64) & 1u64 == 0 && (flags & !1u64) | 1u64 == flags | 1u64) by (bit_vector);
}

} // verus!
