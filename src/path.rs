//! Turning a client-supplied file name into a relative path that stays
//! inside the upload directory.

use crate::string_views;
use vstd::prelude::*;
use vstd::string::StrSliceExecFns;

verus! {

/// One component of a path, as the platform's path parser splits it.
#[derive(Debug, PartialEq, Eq)]
pub enum PathComponent {
    /// A drive or share prefix (only on platforms that have them).
    Prefix,
    /// The root directory: a leading separator.
    RootDir,
    /// A leading `.`.
    CurDir,
    /// A `..`.
    ParentDir,
    /// An ordinary file or directory name.
    Normal(String),
}

/// How the platform's path parser splits a path into components.
pub uninterp spec fn components_of(path: Seq<char>) -> Seq<PathComponent>;

/// A name that stays where it is joined: not empty, without a separator, and
/// neither `.` nor `..`.
pub open spec fn is_plain_name(c: Seq<char>) -> bool {
    c.len() > 0 && !c.contains('/') && c != "."@ && c != ".."@
}

/// The directory names left after walking `cs` from an empty relative path:
/// a plain name descends into it, `..` leaves the last name (never above the
/// start), and roots, prefixes, `.` and any other name are dropped. (On
/// Windows a verbatim path does not split at `/`, so a normal component may
/// hold one there.)
pub open spec fn sanitized(cs: Seq<PathComponent>) -> Seq<Seq<char>>
    decreases cs.len(),
{
    if cs.len() == 0 {
        Seq::empty()
    } else {
        let before = sanitized(cs.drop_last());
        match cs.last() {
            PathComponent::ParentDir => if before.len() > 0 {
                before.drop_last()
            } else {
                before
            },
            PathComponent::Normal(c) => if is_plain_name(c@) {
                before.push(c@)
            } else {
                before
            },
            _ => before,
        }
    }
}

proof fn lemma_sanitized_plain(cs: Seq<PathComponent>)
    ensures
        forall|i: int|
            0 <= i < sanitized(cs).len() ==> is_plain_name(#[trigger] sanitized(cs)[i]),
    decreases cs.len(),
{
    if cs.len() > 0 {
        let before = sanitized(cs.drop_last());
        lemma_sanitized_plain(cs.drop_last());
        assert forall|i: int| 0 <= i < sanitized(cs).len() implies is_plain_name(
            #[trigger] sanitized(cs)[i],
        ) by {
            if i < before.len() {
                assert(sanitized(cs)[i] == before[i]);
            }
        }
    }
}

/// Whether `name` is a plain name: not empty, without a `/`, and neither `.`
/// nor `..`.
pub fn is_plain(name: &str) -> (r: bool)
    ensures
        r == is_plain_name(name@),
{
    proof {
        reveal_strlit(".");
        reveal_strlit("..");
    }
    let n = name.unicode_len();
    if n == 0 {
        return false;
    }
    let mut i: usize = 0;
    while i < n
        invariant
            n == name@.len(),
            i <= n,
            forall|k: int| 0 <= k < i ==> name@[k] != '/',
        decreases n - i,
    {
        if name.get_char(i) == '/' {
            return false;
        }
        i = i + 1;
    }
    if n == 1 && name.get_char(0) == '.' {
        assert(name@ =~= "."@);
        return false;
    }
    if n == 2 && name.get_char(0) == '.' && name.get_char(1) == '.' {
        assert(name@ =~= ".."@);
        return false;
    }
    assert(!name@.contains('/'));
    assert(name@ != "."@ && name@ != ".."@) by {
        if name@ == "."@ {
            assert(name@.len() == 1 && name@[0] == '.');
        }
        if name@ == ".."@ {
            assert(name@.len() == 2 && name@[0] == '.' && name@[1] == '.');
        }
    }
    true
}

/// Relies on `std::path::Path::components`, to split `path` into components;
/// each variant is carried over as it stands, a normal component as its text.
#[verifier::external_body]
fn path_components(path: &str) -> (r: Vec<PathComponent>)
    ensures
        r@ == components_of(path@),
{
    std::path::Path::new(path).components().map(|c| match c {
        std::path::Component::Prefix(_) => PathComponent::Prefix,
        std::path::Component::RootDir => PathComponent::RootDir,
        std::path::Component::CurDir => PathComponent::CurDir,
        std::path::Component::ParentDir => PathComponent::ParentDir,
        std::path::Component::Normal(n) => PathComponent::Normal(n.to_string_lossy().into_owned()),
    }).collect()
}

/// Walks `components` from an empty relative path and keeps only the plain
/// names, with each `..` removing the name before it.
pub fn sanitize_components(components: &Vec<PathComponent>) -> (out: Vec<String>)
    ensures
        string_views(out@) == sanitized(components@),
        forall|i: int| 0 <= i < out@.len() ==> is_plain_name(#[trigger] out@[i]@),
{
    let mut out: Vec<String> = Vec::new();
    let mut i: usize = 0;
    while i < components.len()
        invariant
            i <= components@.len(),
            string_views(out@) == sanitized(components@.take(i as int)),
        decreases components@.len() - i,
    {
        assert(components@.take(i as int + 1).drop_last() == components@.take(i as int));
        match &components[i] {
            PathComponent::ParentDir => {
                if out.len() > 0 {
                    out.pop();
                    assert(string_views(out@) =~= sanitized(components@.take(i as int)).drop_last());
                }
            },
            PathComponent::Normal(c) => {
                if is_plain(c.as_str()) {
                    out.push(c.clone());
                    assert(string_views(out@) =~= sanitized(components@.take(i as int)).push(c@));
                }
            },
            _ => {},
        }
        i = i + 1;
    }
    assert(components@.take(components@.len() as int) =~= components@);
    proof {
        lemma_sanitized_plain(components@);
        assert forall|i: int| 0 <= i < out@.len() implies is_plain_name(#[trigger] out@[i]@) by {
            assert(string_views(out@)[i] == out@[i]@);
        }
    }
    out
}

/// The path components of `path` with roots, prefixes, `.` and `..` resolved
/// away: the result never leaves the directory it is joined to, and never
/// names an absolute location.
pub fn sanitize_path(path: &str) -> (out: Vec<String>)
    ensures
        string_views(out@) == sanitized(components_of(path@)),
        forall|i: int| 0 <= i < out@.len() ==> is_plain_name(#[trigger] out@[i]@),
{
    let components = path_components(path);
    sanitize_components(&components)
}

} // verus!
