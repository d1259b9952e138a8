//! The router: handlers grouped by verb, and the dispatch that applies the
//! path constraints, resolves `(verb, template)` to exactly one handler,
//! runs it, and converts a handler failure into the internal-error response.

pub mod delete;
pub mod get;
pub mod post;

use vstd::prelude::*;
use crate::dict::Dict;
use crate::matcher::{apply_constraints, task_path_digits};
use crate::persistence::{remove_task, TasksRepository, UsersRepository};
use crate::request::Request;
use crate::response::{flash_page_response, internal_error, internal_error_response, map_get};
use crate::strutil::{dec_value, str_eq};

verus! {

/// The route table: one entry per declared `(verb, template)` pair, and the
/// fallback chain for everything else.
#[derive(Clone, Copy, PartialEq, Eq, Structural, Debug)]
pub enum Route {
    Index,
    GetLogin,
    GetSignup,
    PostLogin,
    PostSignup,
    PostLogout,
    PostTasks,
    DeleteTasks,
    Fallback,
}

/// Exact-match route lookup; every route is declared verbatim, template
/// form included.
pub open spec fn route_of(verb: Seq<char>, template: Seq<char>) -> Route {
    if verb == "GET"@ && template == "/"@ {
        Route::Index
    } else if verb == "GET"@ && template == "/login"@ {
        Route::GetLogin
    } else if verb == "GET"@ && template == "/signup"@ {
        Route::GetSignup
    } else if verb == "POST"@ && template == "/login"@ {
        Route::PostLogin
    } else if verb == "POST"@ && template == "/signup"@ {
        Route::PostSignup
    } else if verb == "POST"@ && template == "/logout"@ {
        Route::PostLogout
    } else if verb == "POST"@ && template == "/tasks"@ {
        Route::PostTasks
    } else if verb == "DELETE"@ && template == "/tasks/:id"@ {
        Route::DeleteTasks
    } else {
        Route::Fallback
    }
}

fn lookup_route(verb: &str, template: &str) -> (r: Route)
    ensures
        r == route_of(verb@, template@),
{
    proof {
        reveal_strlit("GET");
        reveal_strlit("POST");
        reveal_strlit("DELETE");
        assert("GET"@.len() == 3 && "POST"@.len() == 4 && "DELETE"@.len() == 6);
    }
    if str_eq(verb, "GET") {
        if str_eq(template, "/") {
            return Route::Index;
        }
        if str_eq(template, "/login") {
            return Route::GetLogin;
        }
        if str_eq(template, "/signup") {
            return Route::GetSignup;
        }
    } else if str_eq(verb, "POST") {
        if str_eq(template, "/login") {
            return Route::PostLogin;
        }
        if str_eq(template, "/signup") {
            return Route::PostSignup;
        }
        if str_eq(template, "/logout") {
            return Route::PostLogout;
        }
        if str_eq(template, "/tasks") {
            return Route::PostTasks;
        }
    } else if str_eq(verb, "DELETE") {
        if str_eq(template, "/tasks/:id") {
            return Route::DeleteTasks;
        }
    }
    Route::Fallback
}

/// The page contents the GET handlers serve, loaded once at startup.
pub struct Pages {
    pub login: String,
    pub signup: String,
    pub index: String,
    pub not_found: String,
}

/// Everything one worker needs to answer a request: the two stores, the
/// page contents, and the static assets keyed by file name.
pub struct AppState {
    pub users: UsersRepository,
    pub tasks: TasksRepository,
    pub pages: Pages,
    pub assets: Dict,
}

/// Resolves and answers one parsed request: applies the path constraints,
/// dispatches on `(verb, template)`, and converts a failed handler into the
/// internal-error response, never a crash. Path captures are inserted into
/// the params after the body fields, so a capture wins over a same-named
/// body field.
pub fn handle_request(request: Request, state: &mut AppState) -> (r: String)
    ensures
        final(state).pages == old(state).pages,
        final(state).assets == old(state).assets,
        ({
            let c = task_path_digits(request@.path);
            let template = if c is Some {
                "/tasks/:id"@
            } else {
                request@.path
            };
            let params2 = if c is Some {
                request@.params.insert("id"@, c->0)
            } else {
                request@.params
            };
            match route_of(request@.verb, template) {
                Route::Index => r@ == get::index_response(
                    old(state).pages.index@,
                    old(state).users.store@,
                    old(state).tasks.store@,
                    request@.cookies,
                ) && final(state).users == old(state).users && final(state).tasks == old(state).tasks,
                Route::GetLogin => r@ == flash_page_response(
                    old(state).pages.login@,
                    map_get(request@.cookies, "flash"@),
                ) && final(state).users == old(state).users && final(state).tasks == old(state).tasks,
                Route::GetSignup => r@ == flash_page_response(
                    old(state).pages.signup@,
                    map_get(request@.cookies, "flash"@),
                ) && final(state).users == old(state).users && final(state).tasks == old(state).tasks,
                Route::PostLogin => r@ == (match post::login_response_model(
                    params2,
                    old(state).users.store@,
                ) {
                    Ok(s) => s,
                    Err(_) => internal_error_response(),
                }) && final(state).users == old(state).users && final(state).tasks == old(state).tasks,
                Route::PostSignup => ({
                    let sp = post::signup_params(params2);
                    let u = (sp->0).0;
                    let p = (sp->0).1;
                    let pc = (sp->0).2;
                    &&& final(state).tasks == old(state).tasks
                    &&& (sp is None ==> r@ == internal_error_response() && final(state).users.store@ == old(state).users.store@)
                    &&& (sp is Some && p != pc ==> r@ == post::signup_mismatch_response() && final(state).users.store@ == old(state).users.store@)
                    &&& (sp is Some && p == pc ==> {
                        ||| {
                            &&& r@ == internal_error_response()
                            &&& final(state).users.store@ == old(state).users.store@
                        }
                        ||| {
                            &&& r@ == post::signup_success_response()
                            &&& final(state).users.store@.len() == old(state).users.store@.len()
                                + 1
                            &&& final(state).users.store@.drop_last() == old(state).users.store@
                            &&& final(state).users.store@.last().id == post::max_user_id(
                                old(state).users.store@,
                            ) + 1
                            &&& final(state).users.store@.last().username@ == u
                            &&& crate::trusted::bcrypt_accepts(
                                p,
                                final(state).users.store@.last().password@,
                            )
                        }
                    })
                }),
                Route::PostLogout => r@ == post::logout_response() && final(state).users == old(state).users && final(state).tasks == old(state).tasks,
                Route::PostTasks => ({
                    let cu = map_get(request@.cookies, "username"@);
                    let user = crate::persistence::find_user(old(state).users.store@, cu->0);
                    let nm = map_get(params2, "name"@);
                    &&& final(state).users == old(state).users
                    &&& (cu is None ==> r@ == internal_error_response() && final(state).tasks.store@ == old(state).tasks.store@)
                    &&& (cu is Some && user is None ==> r@ == internal_error_response() && final(state).tasks.store@ == old(state).tasks.store@)
                    &&& (cu is Some && user is Some && nm is None ==> r@
                        == internal_error_response() && final(state).tasks.store@ == old(state).tasks.store@)
                    &&& (cu is Some && user is Some && nm is Some && post::max_task_id(
                        old(state).tasks.store@,
                    ) == u32::MAX ==> r@ == internal_error_response() && final(state).tasks.store@
                        == old(state).tasks.store@)
                    &&& (cu is Some && user is Some && nm is Some && post::max_task_id(
                        old(state).tasks.store@,
                    ) < u32::MAX ==> {
                        &&& final(state).tasks.store@.len() == old(state).tasks.store@.len() + 1
                        &&& final(state).tasks.store@.drop_last() == old(state).tasks.store@
                        &&& final(state).tasks.store@.last().id == post::max_task_id(
                            old(state).tasks.store@,
                        ) + 1
                        &&& final(state).tasks.store@.last().user_id == user->0.id
                        &&& final(state).tasks.store@.last().name@ == nm->0
                        &&& r@ == post::tasks_post_response(final(state).tasks.store@, user->0.id)
                    })
                }),
                Route::DeleteTasks => ({
                    let s = map_get(params2, "id"@);
                    &&& final(state).users == old(state).users
                    &&& (s is None ==> r@ == internal_error_response() && final(state).tasks.store@
                        == old(state).tasks.store@)
                    &&& (s is Some && !delete::valid_task_id(s->0) ==> r@
                        == internal_error_response() && final(state).tasks.store@ == old(state).tasks.store@)
                    &&& (s is Some && delete::valid_task_id(s->0) ==> {
                        &&& final(state).tasks.store@ == remove_task(
                            old(state).tasks.store@,
                            dec_value(s->0) as u32,
                        )
                        &&& r@ == delete::delete_response()
                    })
                }),
                Route::Fallback => r@ == get::second_lookup_response(
                    request@.path,
                    old(state).assets@,
                    old(state).pages.not_found@,
                ) && final(state).users == old(state).users && final(state).tasks == old(state).tasks,
            }
        }),
{
    let mut request = request;
    let template = apply_constraints(&mut request);
    let route = lookup_route(request.verb.as_str(), template.as_str());
    match route {
        Route::Index => get::index(&request, &state.users, &state.tasks, state.pages.index.as_str()),
        Route::GetLogin => get::login(&request, state.pages.login.as_str()),
        Route::GetSignup => get::signup(&request, state.pages.signup.as_str()),
        Route::PostLogin => match post::login(&request, &state.users) {
            Ok(s) => s,
            Err(_) => internal_error(),
        },
        Route::PostSignup => match post::signup(&request, &mut state.users) {
            Ok(s) => s,
            Err(_) => internal_error(),
        },
        Route::PostLogout => post::logout(&request),
        Route::PostTasks => match post::tasks(&request, &state.users, &mut state.tasks) {
            Ok(s) => s,
            Err(_) => internal_error(),
        },
        Route::DeleteTasks => match delete::tasks(&request, &mut state.tasks) {
            Ok(s) => s,
            Err(_) => internal_error(),
        },
        Route::Fallback => get::second_lookup(
            &request,
            &state.assets,
            state.pages.not_found.as_str(),
        ),
    }
}

} // verus!
