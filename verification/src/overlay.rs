//! The option-string builder for overlay mounts: a single byte string of
//! the form `lowerdir=<path>[:<path>...][,upperdir=<path>,workdir=<path>]`,
//! every path escaped with the overlay codec because colon separates list
//! entries and comma separates options.

use vstd::prelude::*;
use crate::codec::{COLON, overlay_escape_spec, append_escape};

verus! {

/// The bytes of `lowerdir=`.
pub open spec fn lowerdir_key() -> Seq<u8> {
    seq![108u8, 111u8, 119u8, 101u8, 114u8, 100u8, 105u8, 114u8, 61u8]
}

/// The bytes of `,upperdir=`.
pub open spec fn upperdir_key() -> Seq<u8> {
    seq![44u8, 117u8, 112u8, 112u8, 101u8, 114u8, 100u8, 105u8, 114u8, 61u8]
}

/// The bytes of `,workdir=`.
pub open spec fn workdir_key() -> Seq<u8> {
    seq![44u8, 119u8, 111u8, 114u8, 107u8, 100u8, 105u8, 114u8, 61u8]
}

/// The lower directories, each escaped, joined by colons, the top-most
/// first.
pub open spec fn lowerdirs_text(dirs: Seq<Seq<u8>>) -> Seq<u8>
    decreases dirs.len(),
{
    if dirs.len() == 0 {
        Seq::empty()
    } else if dirs.len() == 1 {
        overlay_escape_spec(dirs[0])
    } else {
        lowerdirs_text(dirs.drop_last()) + seq![COLON] + overlay_escape_spec(dirs.last())
    }
}

/// The whole option string: the joined lower directories after
/// `lowerdir=`; when both an upper and a work directory are given, each
/// follows its own key.
pub open spec fn overlay_options_spec(
    lowerdirs: Seq<Seq<u8>>,
    upperdir: Option<Seq<u8>>,
    workdir: Option<Seq<u8>>,
) -> Seq<u8> {
    let base = lowerdir_key() + lowerdirs_text(lowerdirs);
    if upperdir is Some && workdir is Some {
        base + upperdir_key() + overlay_escape_spec(upperdir->0) + workdir_key()
            + overlay_escape_spec(workdir->0)
    } else {
        base
    }
}

/// Append every byte of `src` to `dest`.
fn push_bytes(dest: &mut Vec<u8>, src: &[u8])
    ensures
        final(dest)@ == old(dest)@ + src@,
{
    let mut i: usize = 0;
    proof {
        assert(dest@ =~= old(dest)@ + src@.take(0));
    }
    while i < src.len()
        invariant
            i <= src.len(),
            dest@ == old(dest)@ + src@.take(i as int),
        decreases src.len() - i,
    {
        dest.push(src[i]);
        proof {
            assert(old(dest)@ + src@.take(i as int + 1) =~= dest@);
        }
        i = i + 1;
    }
    proof {
        assert(src@.take(i as int) =~= src@);
        assert(dest@ =~= old(dest)@ + src@);
    }
}

/// Build the option string for an overlay mount of these directories. An
/// upper and a work directory appear only when both are given, as a
/// writable overlay needs both.
pub fn overlay_options(
    lowerdirs: &Vec<Vec<u8>>,
    upperdir: &Option<Vec<u8>>,
    workdir: &Option<Vec<u8>>,
) -> (r: Vec<u8>)
    ensures
        r@ == overlay_options_spec(lowerdirs.deep_view(), upperdir.deep_view(), workdir.deep_view()),
{
    let key: Vec<u8> = vec![108, 111, 119, 101, 114, 100, 105, 114, 61];
    proof {
        assert(key@ =~= lowerdir_key());
    }
    let mut out: Vec<u8> = Vec::new();
    push_bytes(&mut out, key.as_slice());
    proof {
        assert(out@ =~= lowerdir_key() + lowerdirs_text(lowerdirs.deep_view().take(0)));
        assert(lowerdirs.deep_view().take(0) =~= Seq::<Seq<u8>>::empty());
    }
    let mut i: usize = 0;
    while i < lowerdirs.len()
        invariant
            i <= lowerdirs@.len(),
            lowerdirs.deep_view().len() == lowerdirs@.len(),
            forall|j: int| 0 <= j < lowerdirs@.len() ==> lowerdirs.deep_view()[j] == lowerdirs@[j]@,
            out@ == lowerdir_key() + lowerdirs_text(lowerdirs.deep_view().take(i as int)),
        decreases lowerdirs.len() - i,
    {
        if i != 0 {
            out.push(COLON);
        }
        append_escape(&mut out, lowerdirs[i].as_slice());
        proof {
            let dv = lowerdirs.deep_view();
            assert(dv.take(i as int + 1).drop_last() =~= dv.take(i as int));
            assert(dv.take(i as int + 1).last() == dv[i as int]);
            assert(out@ =~= lowerdir_key() + lowerdirs_text(dv.take(i as int + 1)));
        }
        i = i + 1;
    }
    proof {
        assert(lowerdirs.deep_view().take(i as int) =~= lowerdirs.deep_view());
    }
    match (upperdir, workdir) {
        (Some(u), Some(w)) => {
            let ukey: Vec<u8> = vec![44, 117, 112, 112, 101, 114, 100, 105, 114, 61];
            let wkey: Vec<u8> = vec![44, 119, 111, 114, 107, 100, 105, 114, 61];
            proof {
                assert(ukey@ =~= upperdir_key());
                assert(wkey@ =~= workdir_key());
            }
            push_bytes(&mut out, ukey.as_slice());
            append_escape(&mut out, u.as_slice());
            push_bytes(&mut out, wkey.as_slice());
            append_escape(&mut out, w.as_slice());
            proof {
                assert(u@ =~= u.deep_view());
                assert(w@ =~= w.deep_view());
                assert(upperdir.deep_view() == Some(u.deep_view()));
                assert(workdir.deep_view() == Some(w.deep_view()));
                assert(out@ =~= overlay_options_spec(
                    lowerdirs.deep_view(),
                    upperdir.deep_view(),
                    workdir.deep_view(),
                ));
            }
            out
        },
        _ => {
            proof {
                assert(out@ =~= overlay_options_spec(
                    lowerdirs.deep_view(),
                    upperdir.deep_view(),
                    workdir.deep_view(),
                ));
            }
            out
        },
    }
}

} // verus!
