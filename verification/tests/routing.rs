//! Tests of the path matcher, the router dispatch, the handlers, and the
//! fallback chain, with the real bcrypt linked in.

use taskserver::dict::Dict;
use taskserver::matcher::{apply_constraints, is_static_asset_path, match_task_path};
use taskserver::persistence::{Task, TasksRepository, User, UsersRepository};
use taskserver::request::parse_request;
use taskserver::router::{handle_request, AppState, Pages};

fn lines(items: &[&str]) -> Vec<String> {
    items.iter().map(|s| s.to_string()).collect()
}

fn pages() -> Pages {
    Pages {
        login: "<html>login <y-flash/></html>".to_string(),
        signup: "<html>signup <y-flash/></html>".to_string(),
        index: "<html>Hi {{username}}<y-tasks/></html>".to_string(),
        not_found: "<html>missing</html>".to_string(),
    }
}

fn state_with_user(username: &str, password: &str) -> AppState {
    let mut users = UsersRepository::new();
    let hash = bcrypt::hash(password, 4).expect("bcrypt hash");
    users.save(User::new(1, username, &hash));
    AppState { users, tasks: TasksRepository::new(), pages: pages(), assets: Dict::new() }
}

// --- path constraints ---

#[test]
fn task_path_with_digits_matches() {
    assert_eq!(match_task_path("/tasks/42").unwrap(), "42");
}

#[test]
fn task_path_with_letters_does_not_match() {
    assert!(match_task_path("/tasks/abc").is_none());
    assert!(match_task_path("/tasks/").is_none());
    assert!(match_task_path("/tasks").is_none());
    assert!(match_task_path("/tasks/4x2").is_none());
}

#[test]
fn constraint_rewrites_template_and_captures_id() {
    let mut req = parse_request(lines(&["DELETE /tasks/42"]), String::new()).unwrap();
    let template = apply_constraints(&mut req);
    assert_eq!(template, "/tasks/:id");
    assert_eq!(req.params.get("id").unwrap(), "42");
    assert_eq!(req.path, "/tasks/42");
}

#[test]
fn unmatched_path_passes_through() {
    let mut req = parse_request(lines(&["GET /tasks/abc"]), String::new()).unwrap();
    let template = apply_constraints(&mut req);
    assert_eq!(template, "/tasks/abc");
    assert!(req.params.get("id").is_none());
}

#[test]
fn path_capture_overrides_body_field() {
    // The body says id=1, the path says 2; the capture must win.
    let mut req = parse_request(
        lines(&[
            "DELETE /tasks/2",
            "Content-Length: 4",
            "Content-Type: application/x-www-form-urlencoded",
        ]),
        "id=1".to_string(),
    )
    .unwrap();
    assert_eq!(req.params.get("id").unwrap(), "1");
    apply_constraints(&mut req);
    assert_eq!(req.params.get("id").unwrap(), "2");
}

#[test]
fn static_asset_paths_are_checked_by_prefix_and_extension() {
    assert!(is_static_asset_path("/public/css/app.css"));
    assert!(is_static_asset_path("/public/js/app.js"));
    assert!(!is_static_asset_path("/style.css"));
    assert!(!is_static_asset_path("/public/readme.txt"));
    assert!(!is_static_asset_path("/public/../secret.css"));
    assert!(!is_static_asset_path("/assets/public/app.css"));
}

// --- dispatch ---

#[test]
fn index_without_cookie_redirects_to_login() {
    let mut state = state_with_user("alice", "pw");
    let req = parse_request(lines(&["GET /"]), String::new()).unwrap();
    let response = handle_request(req, &mut state);
    assert!(response.starts_with("HTTP/1.1 301\r\n"));
    assert!(response.contains("Location: /login\r\n"));
}

#[test]
fn index_with_valid_cookie_greets_user() {
    let mut state = state_with_user("alice", "pw");
    state.tasks.save(Task::new(1, 1, "water plants"));
    state.tasks.save(Task::new(2, 9, "someone else's"));
    let req = parse_request(
        lines(&["GET /", "Cookie: username=alice"]),
        String::new(),
    )
    .unwrap();
    let response = handle_request(req, &mut state);
    assert!(response.starts_with("HTTP/1.1 200 OK\r\n"));
    assert!(response.contains("Hi alice"));
    assert!(response.contains("water plants"));
    assert!(response.contains("data-task-id='1'"));
    assert!(!response.contains("someone else's"));
}

#[test]
fn index_with_unknown_cookie_redirects() {
    let mut state = state_with_user("alice", "pw");
    let req = parse_request(
        lines(&["GET /", "Cookie: username=mallory"]),
        String::new(),
    )
    .unwrap();
    let response = handle_request(req, &mut state);
    assert!(response.contains("Location: /login\r\n"));
}

#[test]
fn login_page_shows_flash_message_once() {
    let mut state = state_with_user("alice", "pw");
    let req = parse_request(
        lines(&["GET /login", "Cookie: flash=Invalid Credentials"]),
        String::new(),
    )
    .unwrap();
    let response = handle_request(req, &mut state);
    assert!(response.contains("<p class='flash'>Invalid Credentials</p>"));
    assert!(response.contains("Set-Cookie: flash=; Max-Age=0\r\n"));
}

#[test]
fn login_page_without_flash_is_plain() {
    let mut state = state_with_user("alice", "pw");
    let req = parse_request(lines(&["GET /login"]), String::new()).unwrap();
    let response = handle_request(req, &mut state);
    assert!(response.starts_with("HTTP/1.1 200 OK\r\n"));
    assert!(response.contains("<y-flash/>"));
    assert!(!response.contains("Set-Cookie"));
}

#[test]
fn login_with_correct_password_sets_session_cookie() {
    let mut state = state_with_user("alice", "secret");
    let body = "username=alice&password=secret";
    let req = parse_request(
        lines(&[
            "POST /login",
            &format!("Content-Length: {}", body.len()),
            "Content-Type: application/x-www-form-urlencoded",
        ]),
        body.to_string(),
    )
    .unwrap();
    let response = handle_request(req, &mut state);
    assert!(response.contains("Location: /\r\n"));
    assert!(response.contains("Set-Cookie: username=alice\r\n"));
}

#[test]
fn login_with_wrong_password_flashes_invalid() {
    let mut state = state_with_user("alice", "secret");
    let body = "username=alice&password=wrong";
    let req = parse_request(
        lines(&[
            "POST /login",
            &format!("Content-Length: {}", body.len()),
            "Content-Type: application/x-www-form-urlencoded",
        ]),
        body.to_string(),
    )
    .unwrap();
    let response = handle_request(req, &mut state);
    assert!(response.contains("Set-Cookie: flash=Invalid Credentials\r\n"));
    assert!(response.contains("Location: /login\r\n"));
}

#[test]
fn login_with_unknown_user_flashes_invalid() {
    let mut state = state_with_user("alice", "secret");
    let body = "username=bob&password=secret";
    let req = parse_request(
        lines(&[
            "POST /login",
            &format!("Content-Length: {}", body.len()),
            "Content-Type: application/x-www-form-urlencoded",
        ]),
        body.to_string(),
    )
    .unwrap();
    let response = handle_request(req, &mut state);
    assert!(response.contains("Set-Cookie: flash=Invalid Credentials\r\n"));
}

#[test]
fn login_without_fields_is_internal_error() {
    let mut state = state_with_user("alice", "secret");
    let req = parse_request(lines(&["POST /login"]), String::new()).unwrap();
    let response = handle_request(req, &mut state);
    assert!(response.starts_with("HTTP/1.1 500 Internal Server Error\r\n"));
}

#[test]
fn signup_with_matching_passwords_creates_account() {
    let mut state = state_with_user("alice", "pw");
    let body = "username=bob&password=hunter&password_confirmation=hunter";
    let req = parse_request(
        lines(&[
            "POST /signup",
            &format!("Content-Length: {}", body.len()),
            "Content-Type: application/x-www-form-urlencoded",
        ]),
        body.to_string(),
    )
    .unwrap();
    let response = handle_request(req, &mut state);
    assert!(response.contains("Location: /login\r\n"));
    assert_eq!(state.users.store.len(), 2);
    let bob = state.users.find_by_username("bob").expect("bob exists");
    assert_eq!(bob.id, 2);
    assert!(bcrypt::verify("hunter", &bob.password).unwrap());
}

#[test]
fn signup_with_mismatched_passwords_flashes() {
    let mut state = state_with_user("alice", "pw");
    let body = "username=bob&password=one&password_confirmation=two";
    let req = parse_request(
        lines(&[
            "POST /signup",
            &format!("Content-Length: {}", body.len()),
            "Content-Type: application/x-www-form-urlencoded",
        ]),
        body.to_string(),
    )
    .unwrap();
    let response = handle_request(req, &mut state);
    assert!(response.contains("Set-Cookie: flash=Passwords do not match\r\n"));
    assert!(response.contains("Location: /signup\r\n"));
    assert_eq!(state.users.store.len(), 1);
}

#[test]
fn logout_clears_session_cookie() {
    let mut state = state_with_user("alice", "pw");
    let req = parse_request(lines(&["POST /logout"]), String::new()).unwrap();
    let response = handle_request(req, &mut state);
    assert!(response.contains("Location: /\r\n"));
    assert!(response.contains("Set-Cookie: username=; Max-Age=0\r\n"));
}

#[test]
fn post_tasks_appends_task_and_lists_own_tasks() {
    let mut state = state_with_user("alice", "pw");
    let body = "name=read a book";
    let req = parse_request(
        lines(&[
            "POST /tasks",
            "Cookie: username=alice",
            &format!("Content-Length: {}", body.len()),
            "Content-Type: application/x-www-form-urlencoded",
        ]),
        body.to_string(),
    )
    .unwrap();
    let response = handle_request(req, &mut state);
    assert!(response.starts_with("HTTP/1.1 200\r\n"));
    assert!(response.contains("read a book"));
    assert_eq!(state.tasks.store.len(), 1);
    assert_eq!(state.tasks.store[0].id, 1);
    assert_eq!(state.tasks.store[0].user_id, 1);
    assert_eq!(state.tasks.store[0].name, "read a book");
}

#[test]
fn delete_tasks_removes_by_captured_id() {
    let mut state = state_with_user("alice", "pw");
    state.tasks.save(Task::new(1, 1, "keep me"));
    state.tasks.save(Task::new(2, 1, "drop me"));
    let req = parse_request(lines(&["DELETE /tasks/2"]), String::new()).unwrap();
    let response = handle_request(req, &mut state);
    assert!(response.starts_with("HTTP/1.1 200 OK\r\n"));
    assert_eq!(state.tasks.store.len(), 1);
    assert_eq!(state.tasks.store[0].name, "keep me");
}

#[test]
fn unknown_route_gets_the_not_found_page() {
    let mut state = state_with_user("alice", "pw");
    let req = parse_request(lines(&["GET /nowhere"]), String::new()).unwrap();
    let response = handle_request(req, &mut state);
    assert!(response.starts_with("HTTP/1.1 404 Not Found\r\n"));
    assert!(response.contains("<html>missing</html>"));
}

#[test]
fn unknown_method_gets_the_not_found_page() {
    let mut state = state_with_user("alice", "pw");
    let req = parse_request(lines(&["PATCH /"]), String::new()).unwrap();
    let response = handle_request(req, &mut state);
    assert!(response.starts_with("HTTP/1.1 404 Not Found\r\n"));
}

#[test]
fn loaded_static_asset_is_served_as_css() {
    let mut state = state_with_user("alice", "pw");
    state.assets.insert("public/css/app.css".to_string(), "body { margin: 0 }".to_string());
    let req = parse_request(lines(&["GET /public/css/app.css"]), String::new()).unwrap();
    let response = handle_request(req, &mut state);
    assert!(response.starts_with("HTTP/1.1 200 OK\r\n"));
    assert!(response.contains("Content-Type: text/css\r\n"));
    assert!(response.contains("body { margin: 0 }"));
}

#[test]
fn missing_static_asset_falls_back_to_not_found() {
    let mut state = state_with_user("alice", "pw");
    let req = parse_request(lines(&["GET /public/css/app.css"]), String::new()).unwrap();
    let response = handle_request(req, &mut state);
    assert!(response.starts_with("HTTP/1.1 404 Not Found\r\n"));
}

#[test]
fn delete_without_id_param_is_missing_param() {
    let mut tasks = TasksRepository::new();
    tasks.save(Task::new(1, 1, "stay"));
    let req = parse_request(lines(&["DELETE /tasks"]), String::new()).unwrap();
    let r = taskserver::router::delete::tasks(&req, &mut tasks);
    assert_eq!(r.unwrap_err(), taskserver::response::HandlerError::MissingParam);
    assert_eq!(tasks.store.len(), 1);
}

#[test]
fn delete_with_out_of_range_id_is_internal_error() {
    let mut state = state_with_user("alice", "pw");
    state.tasks.save(Task::new(1, 1, "stay"));
    // The captured digits exceed what a task id can hold.
    let req = parse_request(lines(&["DELETE /tasks/99999999999999"]), String::new()).unwrap();
    let response = handle_request(req, &mut state);
    assert!(response.starts_with("HTTP/1.1 500 Internal Server Error\r\n"));
    assert_eq!(state.tasks.store.len(), 1);
}

#[test]
fn post_tasks_without_session_cookie_is_internal_error() {
    let mut state = state_with_user("alice", "pw");
    let body = "name=orphan";
    let req = parse_request(
        lines(&[
            "POST /tasks",
            &format!("Content-Length: {}", body.len()),
            "Content-Type: application/x-www-form-urlencoded",
        ]),
        body.to_string(),
    )
    .unwrap();
    let response = handle_request(req, &mut state);
    assert!(response.starts_with("HTTP/1.1 500 Internal Server Error\r\n"));
    assert_eq!(state.tasks.store.len(), 0);
}

#[test]
fn created_task_is_addressable_by_its_rendered_id() {
    let mut state = state_with_user("alice", "pw");
    let body = "name=fleeting";
    let create = parse_request(
        lines(&[
            "POST /tasks",
            "Cookie: username=alice",
            &format!("Content-Length: {}", body.len()),
            "Content-Type: application/x-www-form-urlencoded",
        ]),
        body.to_string(),
    )
    .unwrap();
    let listing = handle_request(create, &mut state);
    assert!(listing.contains("data-task-id='1'"));
    let remove = parse_request(lines(&["DELETE /tasks/1"]), String::new()).unwrap();
    let response = handle_request(remove, &mut state);
    assert!(response.starts_with("HTTP/1.1 200 OK\r\n"));
    assert_eq!(state.tasks.store.len(), 0);
}

#[test]
fn js_asset_is_served_as_javascript() {
    let mut state = state_with_user("alice", "pw");
    state.assets.insert("public/js/app.js".to_string(), "console.log(1)".to_string());
    let req = parse_request(lines(&["GET /public/js/app.js"]), String::new()).unwrap();
    let response = handle_request(req, &mut state);
    assert!(response.starts_with("HTTP/1.1 200 OK\r\n"));
    assert!(response.contains("Content-Type: text/javascript\r\n"));
    assert!(response.contains("console.log(1)"));
}

#[test]
fn repeated_markers_are_all_replaced() {
    let mut state = state_with_user("alice", "pw");
    state.pages.index = "<p>{{username}}</p><p>{{username}}</p><y-tasks/>".to_string();
    state.pages.login = "<y-flash/>|<y-flash/>".to_string();
    let req = parse_request(lines(&["GET /", "Cookie: username=alice"]), String::new()).unwrap();
    let response = handle_request(req, &mut state);
    assert!(response.contains("<p>alice</p><p>alice</p>"));
    assert!(!response.contains("{{username}}"));
    let req = parse_request(
        lines(&["GET /login", "Cookie: flash=nope"]),
        String::new(),
    )
    .unwrap();
    let response = handle_request(req, &mut state);
    assert!(response.contains("<p class='flash'>nope</p>|<p class='flash'>nope</p>"));
}

#[test]
fn signup_then_login_round_trip() {
    let mut state = state_with_user("alice", "pw");
    let body = "username=bob&password=hunter&password_confirmation=hunter";
    let signup = parse_request(
        lines(&[
            "POST /signup",
            &format!("Content-Length: {}", body.len()),
            "Content-Type: application/x-www-form-urlencoded",
        ]),
        body.to_string(),
    )
    .unwrap();
    handle_request(signup, &mut state);
    let body = "username=bob&password=hunter";
    let login = parse_request(
        lines(&[
            "POST /login",
            &format!("Content-Length: {}", body.len()),
            "Content-Type: application/x-www-form-urlencoded",
        ]),
        body.to_string(),
    )
    .unwrap();
    let response = handle_request(login, &mut state);
    assert!(response.contains("Location: /\r\n"));
    assert!(response.contains("Set-Cookie: username=bob\r\n"));
}
