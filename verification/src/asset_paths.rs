use vstd::prelude::*;
use crate::table::TableKey;
use crate::text::chars_of;
use relative_path::{PathExt, RelativePath, RelativePathBuf};
use std::path::Path;

verus! {

/// The state of splitting `s` at `/`: the segments read so far and the
/// segment being read.
pub open spec fn segment_state(s: Seq<char>) -> (Seq<Seq<char>>, Seq<char>)
    decreases s.len(),
{
    if s.len() == 0 {
        (Seq::empty(), Seq::empty())
    } else {
        let (done, cur) = segment_state(s.drop_last());
        if s.last() == '/' {
            if cur.len() > 0 {
                (done.push(cur), Seq::empty())
            } else {
                (done, Seq::empty())
            }
        } else {
            (done, cur.push(s.last()))
        }
    }
}

/// The components of a relative path: the non-empty pieces between `/`
/// separators, in order. Two relative paths are equal when their components
/// are.
pub open spec fn path_segments(s: Seq<char>) -> Seq<Seq<char>> {
    let (done, cur) = segment_state(s);
    if cur.len() > 0 {
        done.push(cur)
    } else {
        done
    }
}

/// The views of a vector of character vectors.
pub open spec fn char_rows(v: Seq<Vec<char>>) -> Seq<Seq<char>> {
    Seq::new(v.len(), |i: int| v[i]@)
}

/// The components of `s`.
pub fn segments_of(s: &str) -> (r: Vec<Vec<char>>)
    ensures
        char_rows(r@) == path_segments(s@),
{
    let chars = chars_of(s);
    let mut done: Vec<Vec<char>> = Vec::new();
    let mut cur: Vec<char> = Vec::new();
    let mut i: usize = 0;
    while i < chars.len()
        invariant
            i <= chars@.len(),
            chars@ == s@,
            (char_rows(done@), cur@) == segment_state(s@.take(i as int)),
        decreases chars@.len() - i,
    {
        let c = chars[i];
        proof {
            assert(s@.take(i + 1).drop_last() =~= s@.take(i as int));
            assert(s@.take(i + 1).last() == c);
        }
        if c == '/' {
            if cur.len() > 0 {
                let ghost before = done@;
                let finished = cur;
                done.push(finished);
                cur = Vec::new();
                proof {
                    assert(char_rows(done@) =~= char_rows(before).push(finished@));
                }
            } else {
                cur = Vec::new();
            }
        } else {
            cur.push(c);
        }
        i = i + 1;
    }
    proof {
        assert(s@.take(chars@.len() as int) =~= s@);
    }
    if cur.len() > 0 {
        let ghost before = done@;
        let last = cur;
        done.push(last);
        proof {
            assert(char_rows(done@) =~= char_rows(before).push(last@));
        }
    }
    done
}

fn same_chars(a: &Vec<char>, b: &Vec<char>) -> (r: bool)
    ensures
        r == (a@ == b@),
{
    if a.len() != b.len() {
        return false;
    }
    let mut i: usize = 0;
    while i < a.len()
        invariant
            i <= a@.len(),
            a@.len() == b@.len(),
            forall|j: int| 0 <= j < i ==> a@[j] == b@[j],
        decreases a@.len() - i,
    {
        if a[i] != b[i] {
            return false;
        }
        i = i + 1;
    }
    proof {
        assert(a@ =~= b@);
    }
    true
}

/// A name of an asset, compared as a relative path: by its components.
pub struct PathKey {
    pub text: String,
}

impl TableKey for PathKey {
    type Key = Seq<Seq<char>>;

    open spec fn key(&self) -> Seq<Seq<char>> {
        path_segments(self.text@)
    }

    fn same_key(&self, other: &Self) -> (r: bool) {
        let a = segments_of(self.text.as_str());
        let b = segments_of(other.text.as_str());
        if a.len() != b.len() {
            proof {
                assert(char_rows(a@).len() != char_rows(b@).len());
            }
            return false;
        }
        let mut i: usize = 0;
        while i < a.len()
            invariant
                i <= a@.len(),
                a@.len() == b@.len(),
                char_rows(a@) == path_segments(self.text@),
                char_rows(b@) == path_segments(other.text@),
                forall|j: int| 0 <= j < i ==> a@[j]@ == b@[j]@,
            decreases a@.len() - i,
        {
            if !same_chars(&a[i], &b[i]) {
                proof {
                    assert(char_rows(a@)[i as int] != char_rows(b@)[i as int]);
                }
                return false;
            }
            i = i + 1;
        }
        proof {
            assert(char_rows(a@) =~= char_rows(b@));
        }
        true
    }
}

/// What `RelativePathBuf::push` makes of `base` and `tail`: one leading `/`
/// of `tail` is dropped, and a `/` joins the two unless `base` is empty or
/// already ends with one.
pub open spec fn relative_push(base: Seq<char>, tail: Seq<char>) -> Seq<char> {
    let t = if tail.len() > 0 && tail[0] == '/' {
        tail.skip(1)
    } else {
        tail
    };
    if base.len() > 0 && base.last() != '/' {
        base + seq!['/'] + t
    } else {
        base + t
    }
}

/// A `.` or `..` component starts at index `i` of the path `s`.
pub open spec fn dot_component_at(s: Seq<char>, i: int) -> bool {
    &&& s[i] == '.'
    &&& (i + 1 == s.len() || s[i + 1] == '/' || (s[i + 1] == '.' && (i + 2 == s.len() || s[i + 2] == '/')))
}

/// `s` is a clean relative path: one or more non-empty components, none of
/// them `.` or `..`, joined by single `/`, with no `/` at either end.
pub open spec fn is_clean_relative(s: Seq<char>) -> bool {
    &&& s.len() > 0
    &&& s[0] != '/'
    &&& s.last() != '/'
    &&& forall|i: int| 0 <= i < s.len() - 1 && #[trigger] s[i] == '/' ==> s[i + 1] != '/'
    &&& forall|i: int|
        0 <= i < s.len() && (i == 0 || s[i - 1] == '/') ==> !#[trigger] dot_component_at(s, i)
}

/// The last component of `s` has no `.`: every `.` has a `/` after it.
pub open spec fn last_component_undotted(s: Seq<char>) -> bool {
    forall|i: int| 0 <= i < s.len() && #[trigger] s[i] == '.' ==> exists|j: int| i < j < s.len() && s[j] == '/'
}

/// `s` is `stem` and `ext` joined by `.`, where that `.` is the last one of
/// the last component and something precedes it in that component.
pub open spec fn splits_at_last_dot(s: Seq<char>, stem: Seq<char>, ext: Seq<char>) -> bool {
    &&& s == stem + seq!['.'] + ext
    &&& stem.len() > 0
    &&& stem.last() != '/'
    &&& forall|i: int| 0 <= i < ext.len() ==> #[trigger] ext[i] != '.' && ext[i] != '/'
}

/// `path` with the extension `ext` appended with a `.`, or unchanged when
/// `ext` is empty.
pub open spec fn with_dot_extension(path: Seq<char>, ext: Seq<char>) -> Seq<char> {
    if ext.len() == 0 {
        path
    } else {
        path + seq!['.'] + ext
    }
}

/// What `RelativePath::normalize` returns for the path `s`.
pub uninterp spec fn normalized_relative(s: Seq<char>) -> Seq<char>;

/// What `RelativePath::with_extension` returns for the path `s` and the
/// extension `ext`.
pub uninterp spec fn relative_with_extension(s: Seq<char>, ext: Seq<char>) -> Seq<char>;

/// What `PathExt::relative_to` returns for `path` against `root`, the error
/// read as `None`.
pub uninterp spec fn relative_to_result(path: Seq<char>, root: Seq<char>) -> Option<Seq<char>>;

/// What `common_path::common_path` returns for two paths.
pub uninterp spec fn common_path_result(one: Seq<char>, two: Seq<char>) -> Option<Seq<char>>;

/// Whether `std::path::Path` compares the two paths as equal.
pub uninterp spec fn std_paths_equal(one: Seq<char>, two: Seq<char>) -> bool;

/// What `Path::extension` returns for `path`, read as text.
pub uninterp spec fn path_extension_result(path: Seq<char>) -> Option<Seq<char>>;

/// What `Path::file_stem` returns for `path`, read as text.
pub uninterp spec fn path_file_stem_result(path: Seq<char>) -> Option<Seq<char>>;

/// `relative_path::RelativePath::normalize` on the text of `s`: the result's
/// text is named by `normalized_relative`. As the source shows (it splits the
/// path at `/`, drops empty and `.` components, lets `..` pop, and joins the
/// rest with `/`), a clean path comes back unchanged.
#[verifier::external_body]
pub(crate) fn normalize_relative(s: &str) -> (r: String)
    ensures
        r@ == normalized_relative(s@),
        is_clean_relative(s@) ==> r@ == s@,
{
    RelativePath::new(s).normalize().into_string()
}

/// `relative_path::RelativePathBuf::push`: as its source shows, one leading
/// `/` of `tail` is dropped and a `/` joins the parts unless `base` is empty
/// or ends with one.
#[verifier::external_body]
pub(crate) fn push_relative(base: &str, tail: &str) -> (r: String)
    ensures
        r@ == relative_push(base@, tail@),
{
    let mut buf = RelativePathBuf::from(base);
    buf.push(tail);
    buf.into_string()
}

/// `relative_path::RelativePath::with_extension`: the result's text is named
/// by `relative_with_extension`. As the source shows (`set_extension` cuts the
/// path after the file stem, then appends `.` and `ext` unless `ext` is
/// empty), a clean path whose last component has no `.` keeps all of it, and
/// one whose last component is `stem.e` keeps `stem`.
#[verifier::external_body]
pub(crate) fn with_relative_extension(s: &str, ext: &str) -> (r: String)
    ensures
        r@ == relative_with_extension(s@, ext@),
        is_clean_relative(s@) && last_component_undotted(s@) ==> r@ == with_dot_extension(s@, ext@),
        forall|stem: Seq<char>, e: Seq<char>|
            is_clean_relative(s@) && #[trigger] splits_at_last_dot(s@, stem, e) ==> r@ == with_dot_extension(
                stem,
                ext@,
            ),
{
    RelativePath::new(s).with_extension(ext).into_string()
}

/// `relative_path::PathExt::relative_to` on `std::path::Path`: the result's
/// text, `None` for an error, is named by `relative_to_result`.
#[verifier::external_body]
pub(crate) fn path_relative_to(path: &str, root: &str) -> (r: Option<String>)
    ensures
        match r {
            Some(p) => relative_to_result(path@, root@) == Some(p@),
            None => relative_to_result(path@, root@) is None,
        },
{
    Path::new(path).relative_to(root).ok().map(|p| p.into_string())
}

/// `common_path::common_path`: the text of the common prefix of two paths,
/// named by `common_path_result`.
#[verifier::external_body]
pub(crate) fn common_path_of(one: &str, two: &str) -> (r: Option<String>)
    ensures
        match r {
            Some(p) => common_path_result(one@, two@) == Some(p@),
            None => common_path_result(one@, two@) is None,
        },
{
    common_path::common_path(one, two).map(|p| p.to_string_lossy().into_owned())
}

/// `<std::path::Path as PartialEq>::eq`, named by `std_paths_equal`.
#[verifier::external_body]
pub(crate) fn paths_equal(one: &str, two: &str) -> (r: bool)
    ensures
        r == std_paths_equal(one@, two@),
{
    Path::new(one) == Path::new(two)
}

/// `std::path::Path::extension`, as text: named by `path_extension_result`.
#[verifier::external_body]
pub(crate) fn path_extension(path: &str) -> (r: Option<String>)
    ensures
        match r {
            Some(e) => path_extension_result(path@) == Some(e@),
            None => path_extension_result(path@) is None,
        },
{
    Path::new(path).extension().and_then(|e| e.to_str()).map(|e| e.to_owned())
}

/// `std::path::Path::file_stem`, as text: named by `path_file_stem_result`.
#[verifier::external_body]
pub(crate) fn path_file_stem(path: &str) -> (r: Option<String>)
    ensures
        match r {
            Some(e) => path_file_stem_result(path@) == Some(e@),
            None => path_file_stem_result(path@) is None,
        },
{
    Path::new(path).file_stem().and_then(|e| e.to_str()).map(|e| e.to_owned())
}

} // verus!
