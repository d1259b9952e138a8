//! The POST handlers: login, signup, logout, and task creation. Password
//! checking and hashing go through the bcrypt boundary; everything else is
//! proved exactly.

use vstd::prelude::*;
use crate::persistence::{find_user, Task, TasksRepository, User, UsersRepository};
use crate::request::Request;
use crate::response::{map_get, tasks_partial, render_tasks_partial, HandlerError};
use crate::strutil::str_eq;
use crate::trusted::{bcrypt_accepts, bcrypt_hash, bcrypt_verify};

verus! {

pub open spec fn login_success_response(username: Seq<char>) -> Seq<char> {
    "HTTP/1.1 301\r\n"@ + "Location: /\r\n"@ + "Set-Cookie: username="@ + username + "\r\n"@
        + "\r\n"@
}

pub open spec fn login_failure_response() -> Seq<char> {
    "HTTP/1.1 301\r\n"@ + "Set-Cookie: flash=Invalid Credentials\r\n"@ + "Location: /login\r\n"@
        + "\r\n"@
}

/// What `login` answers: a redirect home with the session cookie when the
/// named user exists and bcrypt accepts the password against the stored
/// hash, the invalid-credentials redirect otherwise; a missing field is a
/// handler failure.
pub open spec fn login_response_model(
    params: Map<Seq<char>, Seq<char>>,
    users: Seq<User>,
) -> Result<Seq<char>, HandlerError> {
    match map_get(params, "username"@) {
        None => Err(HandlerError::MissingParam),
        Some(u) => match map_get(params, "password"@) {
            None => Err(HandlerError::MissingParam),
            Some(p) => match find_user(users, u) {
                None => Ok(login_failure_response()),
                Some(user) => if bcrypt_accepts(p, user.password@) {
                    Ok(login_success_response(user.username@))
                } else {
                    Ok(login_failure_response())
                },
            },
        },
    }
}

/// Checks the submitted credentials and opens or refuses a session.
pub fn login(request: &Request, users: &UsersRepository) -> (r: Result<String, HandlerError>)
    ensures
        match r {
            Ok(s) => login_response_model(request@.params, users.store@) == Ok::<
                Seq<char>,
                HandlerError,
            >(s@),
            Err(e) => login_response_model(request@.params, users.store@) == Err::<
                Seq<char>,
                HandlerError,
            >(e),
        },
{
    let username = match request.params.get("username") {
        None => {
            return Err(HandlerError::MissingParam);
        },
        Some(u) => u,
    };
    let password = match request.params.get("password") {
        None => {
            return Err(HandlerError::MissingParam);
        },
        Some(p) => p,
    };
    match users.find_by_username(username.as_str()) {
        Some(user) => {
            if bcrypt_verify(password.as_str(), user.password.as_str()) {
                let mut out = String::new();
                out.append("HTTP/1.1 301\r\n");
                out.append("Location: /\r\n");
                out.append("Set-Cookie: username=");
                out.append(user.username.as_str());
                out.append("\r\n");
                out.append("\r\n");
                return Ok(out);
            }
            Ok(login_failed())
        },
        None => Ok(login_failed()),
    }
}

fn login_failed() -> (r: String)
    ensures
        r@ == login_failure_response(),
{
    let mut out = String::new();
    out.append("HTTP/1.1 301\r\n");
    out.append("Set-Cookie: flash=Invalid Credentials\r\n");
    out.append("Location: /login\r\n");
    out.append("\r\n");
    out
}

pub open spec fn signup_mismatch_response() -> Seq<char> {
    "HTTP/1.1 301\r\n"@ + "Set-Cookie: flash=Passwords do not match\r\n"@
        + "Location: /signup\r\n"@ + "\r\n"@
}

pub open spec fn signup_success_response() -> Seq<char> {
    "HTTP/1.1 301\r\n"@ + "Location: /login\r\n"@ + "\r\n"@
}

/// The three fields a signup needs, when all are present.
pub open spec fn signup_params(params: Map<Seq<char>, Seq<char>>) -> Option<
    (Seq<char>, Seq<char>, Seq<char>),
> {
    match map_get(params, "username"@) {
        None => None,
        Some(u) => match map_get(params, "password"@) {
            None => None,
            Some(p) => match map_get(params, "password_confirmation"@) {
                None => None,
                Some(pc) => Some((u, p, pc)),
            },
        },
    }
}

/// The highest user id in the store, zero when it is empty.
pub open spec fn max_user_id(s: Seq<User>) -> u32
    decreases s.len(),
{
    if s.len() == 0 {
        0
    } else if s.last().id > max_user_id(s.drop_last()) {
        s.last().id
    } else {
        max_user_id(s.drop_last())
    }
}

/// The highest task id in the store, zero when it is empty.
pub open spec fn max_task_id(s: Seq<Task>) -> u32
    decreases s.len(),
{
    if s.len() == 0 {
        0
    } else if s.last().id > max_task_id(s.drop_last()) {
        s.last().id
    } else {
        max_task_id(s.drop_last())
    }
}

fn max_user_id_of(store: &Vec<User>) -> (r: u32)
    ensures
        r == max_user_id(store@),
{
    let n = store.len();
    let mut acc: u32 = 0;
    let mut i: usize = 0;
    proof {
        assert(store@.take(0) =~= Seq::<User>::empty());
    }
    while i < n
        invariant
            i <= n,
            n == store@.len(),
            acc == max_user_id(store@.take(i as int)),
        decreases n - i,
    {
        proof {
            assert(store@.take(i + 1).drop_last() =~= store@.take(i as int));
            assert(store@.take(i + 1).last() == store@[i as int]);
        }
        if store[i].id > acc {
            acc = store[i].id;
        }
        i += 1;
    }
    proof {
        assert(store@.take(n as int) =~= store@);
    }
    acc
}

fn max_task_id_of(store: &Vec<Task>) -> (r: u32)
    ensures
        r == max_task_id(store@),
{
    let n = store.len();
    let mut acc: u32 = 0;
    let mut i: usize = 0;
    proof {
        assert(store@.take(0) =~= Seq::<Task>::empty());
    }
    while i < n
        invariant
            i <= n,
            n == store@.len(),
            acc == max_task_id(store@.take(i as int)),
        decreases n - i,
    {
        proof {
            assert(store@.take(i + 1).drop_last() =~= store@.take(i as int));
            assert(store@.take(i + 1).last() == store@[i as int]);
        }
        if store[i].id > acc {
            acc = store[i].id;
        }
        i += 1;
    }
    proof {
        assert(store@.take(n as int) =~= store@);
    }
    acc
}

/// Registers a user with an already-computed password hash, or none when
/// hashing failed. All fields must be present and the passwords must agree;
/// the new account gets the next id after the highest in the store.
pub fn signup_with_hash(
    request: &Request,
    users: &mut UsersRepository,
    hashed: Option<String>,
) -> (r: Result<String, HandlerError>)
    ensures
        ({
            let sp = signup_params(request@.params);
            let u = (sp->0).0;
            let p = (sp->0).1;
            let pc = (sp->0).2;
            &&& (sp is None ==> r == Err::<String, HandlerError>(HandlerError::MissingParam)
                && final(users).store@ == old(users).store@)
            &&& (sp is Some && p != pc ==> r is Ok && r->Ok_0@ == signup_mismatch_response()
                && final(users).store@ == old(users).store@)
            &&& (sp is Some && p == pc && (hashed is None || max_user_id(old(users).store@)
                == u32::MAX) ==> r == Err::<String, HandlerError>(HandlerError::HandlerFailure)
                && final(users).store@ == old(users).store@)
            &&& (sp is Some && p == pc && hashed is Some && max_user_id(old(users).store@)
                < u32::MAX ==> {
                &&& r is Ok
                &&& r->Ok_0@ == signup_success_response()
                &&& final(users).store@.len() == old(users).store@.len() + 1
                &&& final(users).store@.drop_last() == old(users).store@
                &&& final(users).store@.last().id == max_user_id(old(users).store@) + 1
                &&& final(users).store@.last().username@ == u
                &&& final(users).store@.last().password@ == hashed->0@
            })
        }),
{
    let username = match request.params.get("username") {
        None => {
            return Err(HandlerError::MissingParam);
        },
        Some(u) => u,
    };
    let password = match request.params.get("password") {
        None => {
            return Err(HandlerError::MissingParam);
        },
        Some(p) => p,
    };
    let confirmation = match request.params.get("password_confirmation") {
        None => {
            return Err(HandlerError::MissingParam);
        },
        Some(pc) => pc,
    };
    if !str_eq(password.as_str(), confirmation.as_str()) {
        let mut out = String::new();
        out.append("HTTP/1.1 301\r\n");
        out.append("Set-Cookie: flash=Passwords do not match\r\n");
        out.append("Location: /signup\r\n");
        out.append("\r\n");
        return Ok(out);
    }
    let encrypted = match hashed {
        None => {
            return Err(HandlerError::HandlerFailure);
        },
        Some(h) => h,
    };
    let last_id = max_user_id_of(&users.store);
    if last_id == u32::MAX {
        return Err(HandlerError::HandlerFailure);
    }
    let user = User::new(last_id + 1, username.as_str(), encrypted.as_str());
    users.save(user);
    proof {
        assert(final(users).store@.drop_last() =~= old(users).store@);
    }
    let mut out = String::new();
    out.append("HTTP/1.1 301\r\n");
    out.append("Location: /login\r\n");
    out.append("\r\n");
    Ok(out)
}

/// Registers a user: hashes the submitted password with bcrypt and stores
/// the account. Whether hashing succeeds depends on the process's
/// randomness source, so the success case promises a store extended by one
/// account whose hash bcrypt produced, and the failure case an untouched
/// store.
pub fn signup(request: &Request, users: &mut UsersRepository) -> (r: Result<String, HandlerError>)
    ensures
        ({
            let sp = signup_params(request@.params);
            let u = (sp->0).0;
            let p = (sp->0).1;
            let pc = (sp->0).2;
            &&& (sp is None ==> r == Err::<String, HandlerError>(HandlerError::MissingParam)
                && final(users).store@ == old(users).store@)
            &&& (sp is Some && p != pc ==> r is Ok && r->Ok_0@ == signup_mismatch_response()
                && final(users).store@ == old(users).store@)
            &&& (sp is Some && p == pc ==> {
                ||| {
                    &&& r == Err::<String, HandlerError>(HandlerError::HandlerFailure)
                    &&& final(users).store@ == old(users).store@
                }
                ||| {
                    &&& r is Ok
                    &&& r->Ok_0@ == signup_success_response()
                    &&& final(users).store@.len() == old(users).store@.len() + 1
                    &&& final(users).store@.drop_last() == old(users).store@
                    &&& final(users).store@.last().id == max_user_id(old(users).store@) + 1
                    &&& final(users).store@.last().username@ == u
                    &&& bcrypt_accepts(p, final(users).store@.last().password@)
                }
            })
        }),
{
    let hashed: Option<String> = match request.params.get("password") {
        None => None,
        Some(p) => bcrypt_hash(p.as_str(), 4),
    };
    signup_with_hash(request, users, hashed)
}

pub open spec fn logout_response() -> Seq<char> {
    "HTTP/1.1 301\r\n"@ + "Location: /\r\n"@ + "Set-Cookie: username=; Max-Age=0\r\n"@ + "\r\n"@
}

/// Clears the session cookie and redirects home.
pub fn logout(request: &Request) -> (r: String)
    ensures
        r@ == logout_response(),
{
    let mut out = String::new();
    out.append("HTTP/1.1 301\r\n");
    out.append("Location: /\r\n");
    out.append("Set-Cookie: username=; Max-Age=0\r\n");
    out.append("\r\n");
    out
}

pub open spec fn tasks_post_response(store: Seq<Task>, uid: u32) -> Seq<char> {
    "HTTP/1.1 200\r\n"@ + "\r\n"@ + "\r\n"@ + tasks_partial(store, uid)
}

/// Creates a task for the logged-in user and answers with the user's task
/// list. The session cookie and the `name` field must be present and the
/// named user must exist; the new task gets the next id after the highest
/// in the store.
pub fn tasks(
    request: &Request,
    users: &UsersRepository,
    tasks_repo: &mut TasksRepository,
) -> (r: Result<String, HandlerError>)
    ensures
        ({
            let cu = map_get(request@.cookies, "username"@);
            let user = find_user(users.store@, cu->0);
            let nm = map_get(request@.params, "name"@);
            &&& (cu is None ==> r == Err::<String, HandlerError>(HandlerError::MissingParam)
                && final(tasks_repo).store@ == old(tasks_repo).store@)
            &&& (cu is Some && user is None ==> r == Err::<String, HandlerError>(
                HandlerError::HandlerFailure,
            ) && final(tasks_repo).store@ == old(tasks_repo).store@)
            &&& (cu is Some && user is Some && nm is None ==> r == Err::<String, HandlerError>(
                HandlerError::MissingParam,
            ) && final(tasks_repo).store@ == old(tasks_repo).store@)
            &&& (cu is Some && user is Some && nm is Some && max_task_id(old(tasks_repo).store@)
                == u32::MAX ==> r == Err::<String, HandlerError>(HandlerError::HandlerFailure)
                && final(tasks_repo).store@ == old(tasks_repo).store@)
            &&& (cu is Some && user is Some && nm is Some && max_task_id(old(tasks_repo).store@)
                < u32::MAX ==> {
                &&& final(tasks_repo).store@.len() == old(tasks_repo).store@.len() + 1
                &&& final(tasks_repo).store@.drop_last() == old(tasks_repo).store@
                &&& final(tasks_repo).store@.last().id == max_task_id(old(tasks_repo).store@) + 1
                &&& final(tasks_repo).store@.last().user_id == user->0.id
                &&& final(tasks_repo).store@.last().name@ == nm->0
                &&& r is Ok
                &&& r->Ok_0@ == tasks_post_response(final(tasks_repo).store@, user->0.id)
            })
        }),
{
    let username = match request.cookies.get("username") {
        None => {
            return Err(HandlerError::MissingParam);
        },
        Some(u) => u,
    };
    let current_user = match users.find_by_username(username.as_str()) {
        None => {
            return Err(HandlerError::HandlerFailure);
        },
        Some(user) => user,
    };
    let name = match request.params.get("name") {
        None => {
            return Err(HandlerError::MissingParam);
        },
        Some(nm) => nm,
    };
    let last_id = max_task_id_of(&tasks_repo.store);
    if last_id == u32::MAX {
        return Err(HandlerError::HandlerFailure);
    }
    let task = Task::new(last_id + 1, current_user.id, name.as_str());
    tasks_repo.save(task);
    proof {
        assert(final(tasks_repo).store@.drop_last() =~= old(tasks_repo).store@);
    }
    let body = render_tasks_partial(&tasks_repo.store, current_user.id);
    let mut out = String::new();
    out.append("HTTP/1.1 200\r\n");
    out.append("\r\n");
    out.append("\r\n");
    out.append(body.as_str());
    Ok(out)
}

} // verus!
