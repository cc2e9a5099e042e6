//! File-system paths as text, and what joining a component onto one gives.

use vstd::prelude::*;

verus! {

/// Whether `s` begins with the Windows verbatim prefix `\\?\`.
pub open spec fn is_verbatim_path(s: Seq<char>) -> bool {
    s.len() >= 4 && s[0] == '\\' && s[1] == '\\' && s[2] == '?' && s[3] == '\\'
}

/// A single path component naming a file or directory: non-empty, with no
/// separator and no drive colon, and neither `.` nor `..`.
pub open spec fn is_plain_component(s: Seq<char>) -> bool {
    &&& s.len() > 0
    &&& forall|i: int| 0 <= i < s.len() ==> #[trigger] s[i] != '/' && s[i] != '\\' && s[i] != ':'
    &&& s != seq!['.']
    &&& s != seq!['.', '.']
}

/// A path separator on some platform: `/` everywhere, `\` on Windows.
pub open spec fn is_sep(c: char) -> bool {
    c == '/' || c == '\\'
}

/// A bare Windows drive such as `C:`, with nothing after the colon.
pub open spec fn is_bare_drive(s: Seq<char>) -> bool {
    &&& s.len() == 2
    &&& s[1] == ':'
    &&& (('a' <= s[0] && s[0] <= 'z') || ('A' <= s[0] && s[0] <= 'Z'))
}

/// Whether `s` ends with `suffix`.
pub open spec fn ends_with(s: Seq<char>, suffix: Seq<char>) -> bool {
    s.len() >= suffix.len() && s.skip(s.len() - suffix.len()) == suffix
}

/// `base` followed by `part`, with no separator or one (`/` or `\`) between.
pub open spec fn joined_onto(r: Seq<char>, base: Seq<char>, part: Seq<char>) -> bool {
    ||| r == base + part
    ||| r == base + seq!['/'] + part
    ||| r == base + seq!['\\'] + part
}

/// What joining the plain component `part` onto `base` gives, on every
/// platform: a path that ends with `part`; unless `base` is verbatim (whose
/// components are rebuilt), `base`, at most one separator, then `part`;
/// `part` alone when `base` is empty; no separator added when `base` ends with
/// `/`; and exactly one added when `base` ends with no separator and is not a
/// bare drive.
pub open spec fn path_joined(r: Seq<char>, base: Seq<char>, part: Seq<char>) -> bool {
    &&& ends_with(r, part)
    &&& !is_verbatim_path(base) ==> joined_onto(r, base, part)
    &&& base.len() == 0 ==> r == part
    &&& !is_verbatim_path(base) && base.len() > 0 && base.last() == '/' ==> r == base + part
    &&& !is_verbatim_path(base) && base.len() > 0 && !is_sep(base.last()) && !is_bare_drive(base)
        ==> (r == base + seq!['/'] + part || r == base + seq!['\\'] + part)
}

/// Joins `part` onto `base` with `std::path::Path::join`, as text. The
/// contract claims [`path_joined`] for a plain component `part`: `join` pushes
/// a relative component, adding the platform's separator unless `base` is
/// empty, already ends with one, or (on Windows) is a bare drive, and on a
/// verbatim `base` rebuilds the components and appends `part`. Which
/// separator is added, whether `\` counts as one, and how a verbatim `base`
/// is rebuilt depend on the platform and are left unsaid.
#[verifier::external_body]
pub(crate) fn path_join(base: &str, part: &str) -> (r: String)
    requires
        is_plain_component(part@),
    ensures
        path_joined(r@, base@, part@),
{
    std::path::Path::new(base).join(part).to_string_lossy().into_owned()
}

/// Whether `name` can stand as a single file name in a path (see
/// [`is_plain_component`]).
pub fn is_file_name(name: &str) -> (b: bool)
    ensures
        b == is_plain_component(name@),
{
    let v = crate::text::str_chars(name);
    let n = v.len();
    if n == 0 {
        return false;
    }
    let mut i: usize = 0;
    while i < n
        invariant
            i <= n == v.len(),
            v@ == name@,
            forall|j: int| 0 <= j < i ==> #[trigger] v@[j] != '/' && v@[j] != '\\' && v@[j] != ':',
        decreases n - i,
    {
        let c = v[i];
        if c == '/' || c == '\\' || c == ':' {
            return false;
        }
        i += 1;
    }
    if n == 1 && v[0] == '.' {
        assert(v@ =~= seq!['.']);
        return false;
    }
    if n == 2 && v[0] == '.' && v[1] == '.' {
        assert(v@ =~= seq!['.', '.']);
        return false;
    }
    true
}

/// The path of the sidecar of a video: the video's path with its `.mp4`
/// ending, if it has one, replaced by `.json`, else `.json` appended.
pub open spec fn sidecar_of(video_path: Seq<char>) -> Seq<char> {
    let kept = if ends_with(video_path, ".mp4"@) {
        video_path.take(video_path.len() - 4)
    } else {
        video_path
    };
    kept + ".json"@
}

/// The path of the sidecar of the video at `video_path` (see [`sidecar_of`]).
pub fn sidecar_path(video_path: &str) -> (r: String)
    ensures
        r@ == sidecar_of(video_path@),
{
    proof {
        reveal_strlit(".mp4");
    }
    let v = crate::text::str_chars(video_path);
    let n = v.len();
    let mp4 = n >= 4 && v[n - 4] == '.' && v[n - 3] == 'm' && v[n - 2] == 'p' && v[n - 1] == '4';
    proof {
        if n >= 4 {
            let tail = v@.skip(n - 4);
            assert(tail.len() == 4);
            if mp4 {
                assert(tail =~= ".mp4"@);
            } else {
                assert(tail[0] == v@[n - 4] && tail[1] == v@[n - 3] && tail[2] == v@[n - 2]
                    && tail[3] == v@[n - 1]);
                assert(tail != ".mp4"@);
            }
        }
    }
    let cut: usize = if mp4 {
        n - 4
    } else {
        n
    };
    let kept = crate::text::copy_range(&v, 0, cut);
    let out = crate::text::concat_chars(&kept, &crate::text::str_chars(".json"));
    proof {
        if mp4 {
            assert(kept@ =~= video_path@.take(n - 4));
        } else {
            assert(kept@ =~= video_path@);
        }
    }
    crate::text::string_from_chars(&out)
}

/// A path joined from `base` and `<stem>.mp4` turns, by [`sidecar_of`], into
/// the path joined from `base` and `<stem>.json`: the sidecar stands in the
/// video's directory, under the video's stem.
pub proof fn law_sidecar_beside_video(v: Seq<char>, base: Seq<char>, stem: Seq<char>)
    requires
        path_joined(v, base, stem + ".mp4"@),
    ensures
        path_joined(sidecar_of(v), base, stem + ".json"@),
{
    reveal_strlit(".mp4");
    reveal_strlit(".json");
    let mp4 = ".mp4"@;
    assert(ends_with(v, mp4)) by {
        assert(v.skip(v.len() - (stem + mp4).len()) == stem + mp4);
        assert(v.skip(v.len() - 4) =~= mp4) by {
            assert forall|i: int| 0 <= i < 4 implies #[trigger] v.skip(v.len() - 4)[i] == mp4[i] by {
                assert(v.skip(v.len() - (stem + mp4).len())[stem.len() + i] == (stem + mp4)[stem.len() + i]);
            }
        }
    }
    let json = ".json"@;
    let p = stem + mp4;
    let q = stem + json;
    let s = sidecar_of(v);
    let t = v.take(v.len() - 4);
    assert(p.len() == stem.len() + 4);
    assert(v.skip(v.len() - p.len()) =~= p);
    assert(t.skip(t.len() - stem.len()) =~= stem) by {
        assert forall|i: int| 0 <= i < stem.len() implies #[trigger] t.skip(t.len() - stem.len())[i]
            == stem[i] by {
            assert(v.skip(v.len() - p.len())[i] == p[i]);
        }
    }
    assert(s.skip(s.len() - q.len()) =~= q) by {
        assert forall|i: int| 0 <= i < q.len() implies #[trigger] s.skip(s.len() - q.len())[i]
            == q[i] by {
            if i < stem.len() {
                assert(t.skip(t.len() - stem.len())[i] == stem[i]);
            }
        }
    }
    // Every form `base + sep + p` becomes `base + sep + q` once `.mp4` is cut.
    assert forall|mid: Seq<char>| v == base + mid + p implies s == base + mid + q by {
        assert(t =~= base + mid + stem);
        assert(s =~= base + mid + q);
    }
    assert(v == base + p ==> s == base + q) by {
        if v == base + p {
            assert(v =~= base + seq![] + p);
            assert(s =~= base + seq![] + q);
        }
    }
    assert(base.len() == 0 ==> s == q) by {
        if base.len() == 0 {
            assert(v =~= base + seq![] + p);
            assert(s =~= base + seq![] + q);
            assert(base + seq![] + q =~= q);
        }
    }
}

} // verus!
