//! The GET handlers: the index page, the login and signup forms, and the
//! fallback chain (static assets, then the fixed 404). Each takes the page
//! contents it serves as a plain value; reading them from disk is the
//! embedding program's business.

use vstd::prelude::*;
use crate::dict::Dict;
use crate::matcher::static_asset_path;
use crate::persistence::{find_user, Task, TasksRepository, User, UsersRepository};
use crate::request::Request;
use crate::response::{
    asset_response, flash_page_response, index_page, map_get, not_found_response,
    ok_html_response, redirect_login, redirect_login_response, render_tasks_partial,
};
use crate::strutil::{has_suffix, replace_all_str, trim_leading_slashes, trim_slashes};

verus! {

/// What `index` answers: a redirect to the login page without a valid
/// `username` cookie, and the index page with the user's name and tasks
/// substituted in with one.
pub open spec fn index_response(
    page: Seq<char>,
    users: Seq<User>,
    tasks: Seq<Task>,
    cookies: Map<Seq<char>, Seq<char>>,
) -> Seq<char> {
    match map_get(cookies, "username"@) {
        None => redirect_login_response(),
        Some(u) => match find_user(users, u) {
            None => redirect_login_response(),
            Some(user) => ok_html_response(index_page(page, user.username@, tasks, user.id)),
        },
    }
}

/// Serves the index page to a logged-in user, or redirects to the login
/// page.
pub fn index(request: &Request, users: &UsersRepository, tasks: &TasksRepository, page: &str) -> (r:
    String)
    ensures
        r@ == index_response(page@, users.store@, tasks.store@, request@.cookies),
{
    match request.cookies.get("username") {
        None => redirect_login(),
        Some(cookie) => {
            match users.find_by_username(cookie.as_str()) {
                None => redirect_login(),
                Some(user) => {
                    let partial = render_tasks_partial(&tasks.store, user.id);
                    let with_name = replace_all_str(page, "{{username}}", user.username.as_str());
                    let contents = replace_all_str(
                        with_name.as_str(),
                        "<y-tasks/>",
                        partial.as_str(),
                    );
                    let mut out = String::new();
                    out.append("HTTP/1.1 200 OK\r\n");
                    out.append("Content-Type: text/html\r\n");
                    out.append("\r\n");
                    out.append(contents.as_str());
                    out
                },
            }
        },
    }
}

/// Serves a form page, substituting and clearing the flash message when the
/// `flash` cookie is set.
fn flash_form_page(request: &Request, page: &str) -> (r: String)
    ensures
        r@ == flash_page_response(page@, map_get(request@.cookies, "flash"@)),
{
    match request.cookies.get("flash") {
        None => {
            let mut out = String::new();
            out.append("HTTP/1.1 200 OK\r\n");
            out.append("Content-Type: text/html\r\n");
            out.append("\r\n");
            out.append(page);
            out
        },
        Some(message) => {
            let mut marker = String::new();
            marker.append("<p class='flash'>");
            marker.append(message.as_str());
            marker.append("</p>");
            let contents = replace_all_str(page, "<y-flash/>", marker.as_str());
            let mut out = String::new();
            out.append("HTTP/1.1 200 OK\r\n");
            out.append("Content-Type: text/html\r\n");
            out.append("Set-Cookie: flash=; Max-Age=0\r\n");
            out.append("\r\n");
            out.append(contents.as_str());
            out
        },
    }
}

/// Serves the login form.
pub fn login(request: &Request, page: &str) -> (r: String)
    ensures
        r@ == flash_page_response(page@, map_get(request@.cookies, "flash"@)),
{
    flash_form_page(request, page)
}

/// Serves the signup form.
pub fn signup(request: &Request, page: &str) -> (r: String)
    ensures
        r@ == flash_page_response(page@, map_get(request@.cookies, "flash"@)),
{
    flash_form_page(request, page)
}

/// What the fallback chain answers: the asset contents, served with the
/// content type its extension asks for, when the path names one that is
/// loaded; the fixed 404 page otherwise.
pub open spec fn second_lookup_response(
    path: Seq<char>,
    assets: Map<Seq<char>, Seq<char>>,
    not_found_page: Seq<char>,
) -> Seq<char> {
    if static_asset_path(path) && map_get(assets, trim_slashes(path)) is Some {
        asset_response(trim_slashes(path), assets[trim_slashes(path)])
    } else {
        not_found_response(not_found_page)
    }
}

/// The fallback chain: serve the path as a static asset when it lies under
/// the public directory and is loaded, else the 404 page.
pub fn second_lookup(request: &Request, assets: &Dict, not_found_page: &str) -> (r: String)
    ensures
        r@ == second_lookup_response(request@.path, assets@, not_found_page@),
{
    if crate::matcher::is_static_asset_path(request.path.as_str()) {
        let filename = trim_leading_slashes(request.path.as_str());
        match assets.get(filename) {
            Some(contents) => serve_static_file(filename, contents.as_str()),
            None => not_found(not_found_page),
        }
    } else {
        not_found(not_found_page)
    }
}

/// The fixed 404 answer.
pub fn not_found(page: &str) -> (r: String)
    ensures
        r@ == not_found_response(page@),
{
    let mut out = String::new();
    out.append("HTTP/1.1 404 Not Found\r\n");
    out.append("Content-Type: text/html\r\n");
    out.append("\r\n");
    out.append(page);
    out
}

/// A static asset's answer: the content type comes from the file's
/// extension, `text/javascript` for a script, `text/css` otherwise.
pub fn serve_static_file(filename: &str, contents: &str) -> (r: String)
    ensures
        r@ == asset_response(filename@, contents@),
{
    let mut out = String::new();
    out.append("HTTP/1.1 200 OK\r\n");
    out.append("Content-Type: ");
    if has_suffix(filename, ".js") {
        out.append("text/javascript");
    } else {
        out.append("text/css");
    }
    out.append("\r\n");
    out.append("\r\n");
    out.append(contents);
    out
}

} // verus!
