//! The wire shapes of the responses that the handlers write, as spec
//! functions over character sequences, and the route-time error kinds.

use vstd::prelude::*;
use crate::strutil::{has_suffix_seq, replace_all, dec_rep};
use crate::persistence::Task;

verus! {

/// A failure inside a handler: a required parameter or cookie is absent, or
/// the work itself cannot be done. The dispatcher converts either into the
/// internal-error response; neither ever crashes the worker.
#[derive(Clone, Copy, PartialEq, Eq, Structural, Debug)]
pub enum HandlerError {
    MissingParam,
    HandlerFailure,
}

/// The value under `k`, when `m` binds it.
pub open spec fn map_get(m: Map<Seq<char>, Seq<char>>, k: Seq<char>) -> Option<Seq<char>> {
    if m.contains_key(k) {
        Some(m[k])
    } else {
        None
    }
}

pub open spec fn ok_html_response(body: Seq<char>) -> Seq<char> {
    "HTTP/1.1 200 OK\r\n"@ + "Content-Type: text/html\r\n"@ + "\r\n"@ + body
}

/// The content type a static asset is served with, by its file extension:
/// scripts as `text/javascript`, stylesheets (the default) as `text/css`.
pub open spec fn asset_content_type(path: Seq<char>) -> Seq<char> {
    if has_suffix_seq(path, ".js"@) {
        "text/javascript"@
    } else {
        "text/css"@
    }
}

/// A served static asset: a 200 line, the content type its extension asks
/// for, and the file contents.
pub open spec fn asset_response(path: Seq<char>, body: Seq<char>) -> Seq<char> {
    "HTTP/1.1 200 OK\r\n"@ + "Content-Type: "@ + asset_content_type(path) + "\r\n"@ + "\r\n"@
        + body
}

pub open spec fn not_found_response(page: Seq<char>) -> Seq<char> {
    "HTTP/1.1 404 Not Found\r\n"@ + "Content-Type: text/html\r\n"@ + "\r\n"@ + page
}

pub open spec fn redirect_login_response() -> Seq<char> {
    "HTTP/1.1 301\r\n"@ + "Location: /login\r\n"@ + "\r\n"@
}

pub open spec fn internal_error_response() -> Seq<char> {
    "HTTP/1.1 500 Internal Server Error\r\n"@ + "\r\n"@
}

/// A login or signup page with every flash marker replaced by the message.
pub open spec fn flash_page(page: Seq<char>, msg: Seq<char>) -> Seq<char> {
    replace_all(page, "<y-flash/>"@, "<p class='flash'>"@ + msg + "</p>"@)
}

/// The login and signup pages' response: plain when no flash cookie is set;
/// with the message substituted and the cookie cleared when one is.
pub open spec fn flash_page_response(page: Seq<char>, flash: Option<Seq<char>>) -> Seq<char> {
    match flash {
        None => "HTTP/1.1 200 OK\r\n"@ + "Content-Type: text/html\r\n"@ + "\r\n"@ + page,
        Some(msg) => "HTTP/1.1 200 OK\r\n"@ + "Content-Type: text/html\r\n"@
            + "Set-Cookie: flash=; Max-Age=0\r\n"@ + "\r\n"@ + flash_page(page, msg),
    }
}

/// The index page with the username and the user's task list substituted
/// in for every occurrence of their markers.
pub open spec fn index_page(
    page: Seq<char>,
    username: Seq<char>,
    tasks: Seq<Task>,
    uid: u32,
) -> Seq<char> {
    replace_all(
        replace_all(page, "{{username}}"@, username),
        "<y-tasks/>"@,
        tasks_partial(tasks, uid),
    )
}

/// One task's list item markup.
pub open spec fn task_item(t: Task) -> Seq<char> {
    "<div class='item'><p>"@ + t.name@
        + "</p><span class='material-icons' onclick='deleteTask(this)' data-task-id='"@ + dec_rep(
        t.id as nat,
    ) + "'>delete</span></div>"@
}

/// The list items of the tasks owned by `uid`, in store order.
pub open spec fn tasks_partial(tasks: Seq<Task>, uid: u32) -> Seq<char>
    decreases tasks.len(),
{
    if tasks.len() == 0 {
        Seq::empty()
    } else {
        tasks_partial(tasks.drop_last(), uid) + if tasks.last().user_id == uid {
            task_item(tasks.last())
        } else {
            Seq::empty()
        }
    }
}

} // verus!

verus! {

/// Builds the markup for the tasks owned by `uid`.
pub fn render_tasks_partial(tasks: &Vec<Task>, uid: u32) -> (r: String)
    ensures
        r@ == tasks_partial(tasks@, uid),
{
    let n = tasks.len();
    let mut out = String::new();
    let mut i: usize = 0;
    proof {
        assert(tasks@.take(0) =~= Seq::<Task>::empty());
    }
    while i < n
        invariant
            i <= n,
            n == tasks@.len(),
            out@ == tasks_partial(tasks@.take(i as int), uid),
        decreases n - i,
    {
        proof {
            assert(tasks@.take(i + 1).drop_last() =~= tasks@.take(i as int));
            assert(tasks@.take(i + 1).last() == tasks@[i as int]);
        }
        if tasks[i].user_id == uid {
            out.append("<div class='item'><p>");
            out.append(tasks[i].name.as_str());
            out.append(
                "</p><span class='material-icons' onclick='deleteTask(this)' data-task-id='",
            );
            let id_str = crate::strutil::u32_to_string(tasks[i].id);
            out.append(id_str.as_str());
            out.append("'>delete</span></div>");
        }
        i += 1;
    }
    proof {
        assert(tasks@.take(n as int) =~= tasks@);
    }
    out
}

/// The redirect that unauthenticated page loads get.
pub fn redirect_login() -> (r: String)
    ensures
        r@ == redirect_login_response(),
{
    let mut out = String::new();
    out.append("HTTP/1.1 301\r\n");
    out.append("Location: /login\r\n");
    out.append("\r\n");
    out
}

/// The response that a failed handler is converted into.
pub fn internal_error() -> (r: String)
    ensures
        r@ == internal_error_response(),
{
    let mut out = String::new();
    out.append("HTTP/1.1 500 Internal Server Error\r\n");
    out.append("\r\n");
    out
}

} // verus!
