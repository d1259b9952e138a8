//! The DELETE handler: task removal by the id captured from the path.

use vstd::prelude::*;
use crate::persistence::{remove_task, TasksRepository};
use crate::request::Request;
use crate::response::{map_get, HandlerError};
use crate::strutil::{all_digits, dec_value, parse_usize};

verus! {

pub open spec fn delete_response() -> Seq<char> {
    "HTTP/1.1 200 OK\r\n"@ + "\r\n"@
}

/// Whether an `id` parameter names a task id: nonempty, all digits, and in
/// range.
pub open spec fn valid_task_id(s: Seq<char>) -> bool {
    s.len() > 0 && all_digits(s) && dec_value(s) <= u32::MAX
}

/// Removes the task named by the `id` parameter, which the path capture
/// supplies. A missing parameter or one that is not a task id is a handler
/// failure and leaves the store alone.
pub fn tasks(request: &Request, tasks_repo: &mut TasksRepository) -> (r: Result<
    String,
    HandlerError,
>)
    ensures
        ({
            let s = map_get(request@.params, "id"@);
            &&& (s is None ==> r == Err::<String, HandlerError>(HandlerError::MissingParam)
                && final(tasks_repo).store@ == old(tasks_repo).store@)
            &&& (s is Some && !valid_task_id(s->0) ==> r == Err::<String, HandlerError>(
                HandlerError::HandlerFailure,
            ) && final(tasks_repo).store@ == old(tasks_repo).store@)
            &&& (s is Some && valid_task_id(s->0) ==> {
                &&& final(tasks_repo).store@ == remove_task(
                    old(tasks_repo).store@,
                    dec_value(s->0) as u32,
                )
                &&& r is Ok
                &&& r->Ok_0@ == delete_response()
            })
        }),
{
    let id_param = match request.params.get("id") {
        None => {
            return Err(HandlerError::MissingParam);
        },
        Some(s) => s,
    };
    let id: u32 = match parse_usize(id_param.as_str()) {
        None => {
            return Err(HandlerError::HandlerFailure);
        },
        Some(v) => {
            if v > u32::MAX as usize {
                return Err(HandlerError::HandlerFailure);
            }
            v as u32
        },
    };
    tasks_repo.delete(id);
    let mut out = String::new();
    out.append("HTTP/1.1 200 OK\r\n");
    out.append("\r\n");
    Ok(out)
}

} // verus!
