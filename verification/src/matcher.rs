//! The path matcher: recognizes concrete paths of the shape `/tasks/<digits>`,
//! rewrites them to the route template `/tasks/:id`, and captures the digits
//! as the `id` parameter; and the static-asset path check used by the
//! router's fallback chain.

use vstd::prelude::*;
use vstd::string::StrSliceExecFns;
use crate::request::Request;
use vstd::string::StringExecFns;
use crate::strutil::{all_digits, has_prefix, has_suffix, has_suffix_seq, is_digit, find_sub, first_match};

verus! {

/// Whether `path` matches the task constraint `/tasks/<one or more digits>`,
/// anchored at both ends.
pub open spec fn task_path_digits(path: Seq<char>) -> Option<Seq<char>> {
    if path.len() > "/tasks/"@.len() && path.take("/tasks/"@.len() as int) == "/tasks/"@
        && all_digits(path.skip("/tasks/"@.len() as int)) {
        Some(path.skip("/tasks/"@.len() as int))
    } else {
        None
    }
}

/// Applies the task constraint to a concrete path: the captured digits when
/// the path has the shape `/tasks/<digits>`, and nothing otherwise.
pub fn match_task_path(path: &str) -> (r: Option<String>)
    ensures
        match r {
            Some(id) => task_path_digits(path@) == Some(id@),
            None => task_path_digits(path@) is None,
        },
{
    let n = path.unicode_len();
    let prefix = "/tasks/";
    let plen = prefix.unicode_len();
    if n <= plen || !has_prefix(path, prefix) {
        return None;
    }
    let tail = path.substring_char(plen, n);
    proof {
        assert(tail@ =~= path@.skip("/tasks/"@.len() as int));
    }
    let tlen = tail.unicode_len();
    let mut i: usize = 0;
    while i < tlen
        invariant
            tlen == tail@.len(),
            i <= tlen,
            tail@ == path@.skip("/tasks/"@.len() as int),
            path@.len() > "/tasks/"@.len(),
            path@.take("/tasks/"@.len() as int) == "/tasks/"@,
            forall|j: int| 0 <= j < i ==> is_digit(#[trigger] tail@[j]),
        decreases tlen - i,
    {
        let c = tail.get_char(i);
        let v = c as u32;
        if v < 48 || v > 57 {
            assert(!is_digit(tail@[i as int]));
            return None;
        }
        i += 1;
    }
    Some(tail.to_owned())
}

/// The constraint list applied to a request: when the path matches
/// `/tasks/<digits>`, the route template `/tasks/:id` comes back and the
/// digits are captured into `params["id"]`, overriding any body field of
/// that name; otherwise the path passes through unchanged and the params
/// stay as they were.
pub fn apply_constraints(req: &mut Request) -> (template: String)
    ensures
        match task_path_digits(old(req).path@) {
            Some(id) => template@ == "/tasks/:id"@ && final(req).params@ == old(
                req,
            ).params@.insert("id"@, id),
            None => template@ == old(req).path@ && final(req).params@ == old(req).params@,
        },
        final(req).verb == old(req).verb,
        final(req).path == old(req).path,
        final(req).headers == old(req).headers,
        final(req).cookies == old(req).cookies,
        final(req).body == old(req).body,
{
    match match_task_path(req.path.as_str()) {
        Some(id) => {
            req.params.insert(String::from_str("id"), id);
            String::from_str("/tasks/:id")
        },
        None => req.path.clone(),
    }
}

/// Whether `path` may be served as a static asset: it must lie under the
/// `/public/` directory prefix, must not step back up with a `..` segment,
/// and must name a `.css` or `.js` file.
pub open spec fn static_asset_path(path: Seq<char>) -> bool {
    &&& path.len() >= "/public/"@.len()
    &&& path.take("/public/"@.len() as int) == "/public/"@
    &&& first_match(path, ".."@) is None
    &&& (has_suffix_seq(path, ".css"@) || has_suffix_seq(path, ".js"@))
}

/// The static-asset check of the fallback chain.
pub fn is_static_asset_path(path: &str) -> (r: bool)
    ensures
        r == static_asset_path(path@),
{
    if !has_prefix(path, "/public/") {
        return false;
    }
    if find_sub(path, "..").is_some() {
        return false;
    }
    has_suffix(path, ".css") || has_suffix(path, ".js")
}

} // verus!
