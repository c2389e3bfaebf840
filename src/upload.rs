//! The location that an upload answers with: where the stored file can be
//! fetched again.

use crate::path::{components_of, is_plain_name, sanitize_path, sanitized};
use crate::string_views;
use vstd::prelude::*;
use vstd::string::StringExecFns;

verus! {

/// The segments of a relative path written out with `/` between them.
pub open spec fn joined(segments: Seq<Seq<char>>) -> Seq<char>
    decreases segments.len(),
{
    if segments.len() == 0 {
        Seq::empty()
    } else if segments.len() == 1 {
        segments[0]
    } else {
        joined(segments.drop_last()) + "/"@ + segments.last()
    }
}

/// The scheme a request came in with: the forwarded one, else plain HTTP.
pub open spec fn scheme_or_default(proto: Option<Seq<char>>) -> Seq<char> {
    match proto {
        Some(p) => p,
        None => "http"@,
    }
}

/// The host a request was sent to: the one it names, else the local host.
pub open spec fn host_or_default(host: Option<Seq<char>>) -> Seq<char> {
    match host {
        Some(h) => h,
        None => "localhost"@,
    }
}

/// The answer to an upload stored under `segments`, ending with a newline.
pub open spec fn location_text(
    proto: Option<Seq<char>>,
    host: Option<Seq<char>>,
    segments: Seq<Seq<char>>,
) -> Seq<char> {
    scheme_or_default(proto) + "://"@ + host_or_default(host) + "/"@ + joined(segments) + "\n"@
}

/// The view of an optional string.
pub open spec fn opt_view(s: Option<&str>) -> Option<Seq<char>> {
    match s {
        Some(t) => Some(t@),
        None => None,
    }
}

/// The location to answer an upload with: the request's forwarded scheme (or
/// `http`), its host (or `localhost`), and the stored path.
pub fn upload_location(proto: Option<&str>, host: Option<&str>, segments: &Vec<String>) -> (r:
    String)
    ensures
        r@ == location_text(opt_view(proto), opt_view(host), string_views(segments@)),
{
    let mut r = String::new();
    match proto {
        Some(p) => r.append(p),
        None => r.append("http"),
    }
    r.append("://");
    match host {
        Some(h) => r.append(h),
        None => r.append("localhost"),
    }
    r.append("/");
    let ghost prefix = r@;
    let mut i: usize = 0;
    while i < segments.len()
        invariant
            i <= segments@.len(),
            r@ == prefix + joined(string_views(segments@).take(i as int)),
        decreases segments@.len() - i,
    {
        let ghost before = r@;
        let ghost segs = string_views(segments@);
        assert(segs.take(i as int + 1).drop_last() =~= segs.take(i as int));
        if i > 0 {
            r.append("/");
        }
        r.append(segments[i].as_str());
        proof {
            if i == 0 {
                assert(joined(segs.take(1)) == segs[0]);
                assert(joined(segs.take(0)) =~= Seq::<char>::empty());
                assert(r@ =~= prefix + joined(segs.take(1)));
            } else {
                assert(r@ =~= prefix + joined(segs.take(i as int + 1)));
            }
        }
        i = i + 1;
    }
    assert(string_views(segments@).take(segments@.len() as int) =~= string_views(segments@));
    r.append("\n");
    assert(r@ =~= location_text(opt_view(proto), opt_view(host), string_views(segments@)));
    r
}

/// The name an uploaded file is stored under where the form gives none.
pub open spec fn name_or_default(file_name: Option<&str>) -> Seq<char> {
    match file_name {
        Some(f) => f@,
        None => "untitled"@,
    }
}

/// Where an uploaded file is stored, below the upload directory: its given
/// name (or `untitled`), sanitized.
pub fn stored_path(file_name: Option<&str>) -> (r: Vec<String>)
    ensures
        string_views(r@) == sanitized(components_of(name_or_default(file_name))),
        forall|i: int| 0 <= i < r@.len() ==> is_plain_name(#[trigger] r@[i]@),
{
    match file_name {
        Some(f) => sanitize_path(f),
        None => sanitize_path("untitled"),
    }
}

} // verus!
