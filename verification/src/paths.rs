//! Conversion between a stored identity and its location under a root
//! directory, and the extension allow-lists of the directory scans.

use crate::text::{chars_of, matches_at, same_text, slice_of};
use vstd::prelude::*;
use vstd::string::StringExecFns;

verus! {

/// The location that `identity` names under `root`: an identity that starts
/// at the file system's root stands for itself, any other is appended to the
/// root directory, with one separator between them where the root has none.
pub open spec fn located(root: Seq<char>, identity: Seq<char>) -> Seq<char> {
    if identity.len() > 0 && identity[0] == '/' {
        identity
    } else if root.len() == 0 {
        identity
    } else if root.last() == '/' {
        root + identity
    } else {
        root + seq!['/'] + identity
    }
}

/// The root as the prefix of the locations under it: with a separator at its
/// end.
pub open spec fn root_prefix(root: Seq<char>) -> Seq<char> {
    if root.len() > 0 && root.last() == '/' {
        root
    } else {
        root + seq!['/']
    }
}

/// `location` lies under `root`: it is the root's prefix followed by an
/// identity that does not start with a separator.
pub open spec fn lies_under(root: Seq<char>, location: Seq<char>) -> bool {
    let prefix = root_prefix(root);
    &&& root.len() > 0
    &&& prefix.is_prefix_of(location)
    &&& !(location.len() > prefix.len() && location[prefix.len() as int] == '/')
}

/// The identity under which `location` is stored: a location under the root
/// is stored relative to it, any other as it is.
pub open spec fn relative(root: Seq<char>, location: Seq<char>) -> Seq<char> {
    if lies_under(root, location) {
        location.skip(root_prefix(root).len() as int)
    } else {
        location
    }
}

/// `location` is one that a stored identity can stand for: it starts at the
/// file system's root, or it lies under `root`, or there is no root.
pub open spec fn storable(root: Seq<char>, location: Seq<char>) -> bool {
    ||| root.len() == 0
    ||| (location.len() > 0 && location[0] == '/')
    ||| lies_under(root, location)
}

/// The stored identity of a storable location leads back to the location.
pub proof fn lemma_located_relative(root: Seq<char>, location: Seq<char>)
    requires
        storable(root, location),
    ensures
        located(root, relative(root, location)) == location,
{
    if lies_under(root, location) {
        let prefix = root_prefix(root);
        let rest = location.skip(prefix.len() as int);
        assert(prefix + rest =~= location);
        if rest.len() > 0 {
            assert(rest[0] == location[prefix.len() as int]);
        }
    }
}

/// A location that is not storable is one that no identity stands for.
pub proof fn lemma_not_storable(root: Seq<char>, location: Seq<char>, identity: Seq<char>)
    requires
        !storable(root, location),
    ensures
        located(root, identity) != location,
{
    if located(root, identity) == location {
        let prefix = root_prefix(root);
        assert(location =~= prefix + identity);
        assert(location.subrange(0, prefix.len() as int) =~= prefix);
        if identity.len() > 0 {
            assert(location[prefix.len() as int] == identity[0]);
        }
        assert(lies_under(root, location));
    }
}

/// The location of an identity that does not start with a separator is stored
/// as that identity.
pub proof fn lemma_relative_located(root: Seq<char>, identity: Seq<char>)
    requires
        root.len() > 0,
        !(identity.len() > 0 && identity[0] == '/'),
    ensures
        relative(root, located(root, identity)) == identity,
{
    let prefix = root_prefix(root);
    let location = located(root, identity);
    assert(location =~= prefix + identity);
    assert(location.subrange(0, prefix.len() as int) =~= prefix);
    if identity.len() > 0 {
        assert(location[prefix.len() as int] == identity[0]);
    }
    assert(location.skip(prefix.len() as int) =~= identity);
}

/// `ext` is the extension of `path`: what follows the last dot of the file
/// name, where that dot is not the file name's first character.
pub open spec fn has_extension(path: Seq<char>, ext: Seq<char>) -> bool {
    let dot = path.len() - ext.len() - 1;
    &&& dot >= 1
    &&& path[dot] == '.'
    &&& path[dot - 1] != '/'
    &&& path.skip(dot + 1) == ext
    &&& forall|k: int| 0 <= k < ext.len() ==> ext[k] != '.' && ext[k] != '/'
}

/// The extensions of the files taken for videos.
pub open spec fn video_extensions() -> Seq<Seq<char>> {
    seq![
        "mp4"@,
        "mkv"@,
        "avi"@,
        "webm"@,
        "ts"@,
        "flv"@,
        "wmv"@,
        "mov"@,
        "mpg"@,
        "mpeg"@,
    ]
}

/// The extensions of the files taken for audio tracks.
pub open spec fn audio_extensions() -> Seq<Seq<char>> {
    seq!["mp3"@, "wav"@, "ogg"@, "flac"@, "m4a"@, "aac"@]
}

/// The extension of `path` is one of `allowed`.
pub open spec fn extension_in(path: Seq<char>, allowed: Seq<Seq<char>>) -> bool {
    exists|i: int| 0 <= i < allowed.len() && has_extension(path, #[trigger] allowed[i])
}

/// A path has at most one extension.
pub proof fn lemma_extension_unique(path: Seq<char>, a: Seq<char>, b: Seq<char>)
    requires
        has_extension(path, a),
        has_extension(path, b),
    ensures
        a == b,
{
    let da = path.len() - a.len() - 1;
    let db = path.len() - b.len() - 1;
    if da < db {
        assert(path.skip(da + 1)[db - da - 1] == path[db]);
        assert(a[db - da - 1] == '.');
    } else if db < da {
        assert(path.skip(db + 1)[da - db - 1] == path[da]);
        assert(b[da - db - 1] == '.');
    }
}

/// The location of `identity` under `root`.
pub fn locate(root: &str, identity: &str) -> (r: String)
    ensures
        r@ == located(root@, identity@),
{
    let id = chars_of(identity);
    let rt = chars_of(root);
    if id.len() > 0 && id[0] == '/' {
        identity.to_owned()
    } else if rt.len() == 0 {
        identity.to_owned()
    } else if rt[rt.len() - 1] == '/' {
        root.to_owned().concat(identity)
    } else {
        proof {
            reveal_strlit("/");
            assert("/"@ =~= seq!['/']);
        }
        root.to_owned().concat("/").concat(identity)
    }
}

/// The identity under which `location` is stored.
pub fn relative_to(root: &str, location: &str) -> (r: String)
    ensures
        r@ == relative(root@, location@),
{
    let s = chars_of(location);
    let rt = chars_of(root);
    if rt.len() == 0 {
        return location.to_owned();
    }
    let closed = rt[rt.len() - 1] == '/';
    if !matches_at(&s, 0, &rt) {
        proof {
            if root_prefix(root@).is_prefix_of(location@) {
                assert(location@.subrange(0, rt@.len() as int) =~= root_prefix(root@).subrange(
                    0,
                    rt@.len() as int,
                ));
                assert(root_prefix(root@).subrange(0, rt@.len() as int) =~= rt@);
            }
        }
        return location.to_owned();
    }
    let from: usize = if closed {
        rt.len()
    } else {
        if s.len() == rt.len() || s[rt.len()] != '/' {
            proof {
                if root_prefix(root@).is_prefix_of(location@) {
                    assert(root_prefix(root@)[rt@.len() as int] == '/');
                    assert(location@.subrange(0, rt@.len() as int + 1)[rt@.len() as int] == '/');
                }
            }
            return location.to_owned();
        }
        rt.len() + 1
    };
    proof {
        assert(location@.subrange(0, from as int) =~= root_prefix(root@));
    }
    if from < s.len() && s[from] == '/' {
        return location.to_owned();
    }
    assert(s@.skip(from as int) =~= s@.subrange(from as int, s@.len() as int));
    slice_of(location, from, s.len())
}

/// The extension of `path`, if it has one.
pub fn extension_of(path: &str) -> (r: Option<String>)
    ensures
        match r {
            Some(ext) => has_extension(path@, ext@),
            None => forall|ext: Seq<char>| !has_extension(path@, ext),
        },
{
    let p = chars_of(path);
    let n = p.len();
    let mut i: usize = n;
    while i > 0 && p[i - 1] != '.' && p[i - 1] != '/'
        invariant
            i <= n,
            n == p.len(),
            forall|k: int| i <= k < n ==> p@[k] != '.' && p@[k] != '/',
        decreases i,
    {
        i = i - 1;
    }
    if i >= 2 && p[i - 1] == '.' && p[i - 2] != '/' {
        let ext = slice_of(path, i, n);
        proof {
            assert(p@.skip(i as int) =~= p@.subrange(i as int, n as int));
            assert forall|k: int| 0 <= k < ext@.len() implies ext@[k] != '.' && ext@[k] != '/' by {
                assert(ext@[k] == p@[i + k]);
            }
        }
        Some(ext)
    } else {
        proof {
            assert forall|ext: Seq<char>| !has_extension(path@, ext) by {
                if has_extension(path@, ext) {
                    let dot = n - ext.len() - 1;
                    if dot >= i {
                        assert(p@[dot] != '.');
                    } else if dot < i - 1 {
                        assert(p@.skip(dot + 1)[i - 1 - (dot + 1)] == p@[i - 1]);
                        assert(ext[i - 1 - (dot + 1)] == p@[i - 1]);
                    }
                }
            }
        }
        None
    }
}

/// Whether the extension of `path` is one of those taken for videos.
pub fn is_video_file(path: &str) -> (r: bool)
    ensures
        r == extension_in(path@, video_extensions()),
{
    match extension_of(path) {
        Some(ext) => {
            let e = ext.as_str();
            let r = same_text(e, "mp4") || same_text(e, "mkv") || same_text(e, "avi") || same_text(
                e,
                "webm",
            ) || same_text(e, "ts") || same_text(e, "flv") || same_text(e, "wmv") || same_text(
                e,
                "mov",
            ) || same_text(e, "mpg") || same_text(e, "mpeg");
            proof {
                let list = video_extensions();
                if r {
                    let i = choose|i: int| 0 <= i < list.len() && list[i] == ext@;
                    assert(has_extension(path@, list[i]));
                } else {
                    assert forall|i: int| 0 <= i < list.len() implies !has_extension(
                        path@,
                        #[trigger] list[i],
                    ) by {
                        if has_extension(path@, list[i]) {
                            lemma_extension_unique(path@, list[i], ext@);
                        }
                    }
                }
            }
            r
        },
        None => false,
    }
}

/// Whether the extension of `path` is one of those taken for audio tracks.
pub fn is_audio_file(path: &str) -> (r: bool)
    ensures
        r == extension_in(path@, audio_extensions()),
{
    match extension_of(path) {
        Some(ext) => {
            let e = ext.as_str();
            let r = same_text(e, "mp3") || same_text(e, "wav") || same_text(e, "ogg") || same_text(
                e,
                "flac",
            ) || same_text(e, "m4a") || same_text(e, "aac");
            proof {
                let list = audio_extensions();
                if r {
                    let i = choose|i: int| 0 <= i < list.len() && list[i] == ext@;
                    assert(has_extension(path@, list[i]));
                } else {
                    assert forall|i: int| 0 <= i < list.len() implies !has_extension(
                        path@,
                        #[trigger] list[i],
                    ) by {
                        if has_extension(path@, list[i]) {
                            lemma_extension_unique(path@, list[i], ext@);
                        }
                    }
                }
            }
            r
        },
        None => false,
    }
}

} // verus!
