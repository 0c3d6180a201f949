use pom_plugin_base::http::{
    read_step, request_needs_more, response_head, route_workspace_request, serve_step,
    AcceptOutcome, ReadStep, Route, ServerStep, MAX_REQUEST_BYTES,
};
use pom_plugin_base::numerals::upstream_token;

const TOKEN: &str = "00000000000000000000000000abcdef0000002a1f90";

fn route(request: &str) -> Route {
    route_workspace_request(request.as_bytes(), TOKEN)
}

#[test]
fn authorized_projects_request_is_served() {
    let request = format!("GET /projects HTTP/1.1\r\nHost: 127.0.0.1\r\nx-pom-plugin-token: {TOKEN}\r\n\r\n");
    assert_eq!(route(&request), Route::Projects);
}

#[test]
fn request_without_token_is_unauthorized() {
    assert_eq!(route("GET /projects HTTP/1.1\r\nHost: x\r\n\r\n"), Route::Unauthorized);
    assert_eq!(route(""), Route::Unauthorized);
    let wrong = "GET /projects HTTP/1.1\r\nx-pom-plugin-token: nope\r\n\r\n";
    assert_eq!(route(wrong), Route::Unauthorized);
}

#[test]
fn token_on_the_request_line_does_not_count() {
    let request = format!("x-pom-plugin-token: {TOKEN}\r\n\r\n");
    assert_eq!(route(&request), Route::Unauthorized);
}

#[test]
fn header_name_ignores_ascii_case_and_value_is_trimmed() {
    let request = format!("GET /projects HTTP/1.1\r\nX-POM-Plugin-Token:   {TOKEN} \t\r\n\r\n");
    assert_eq!(route(&request), Route::Projects);
    let request = format!("GET /projects HTTP/1.1\nx-pom-plugin-token:{TOKEN}");
    assert_eq!(route(&request), Route::Projects);
}

#[test]
fn query_string_is_ignored_and_other_targets_are_not_found() {
    let with_query = format!("GET /projects?x=1 HTTP/1.1\r\nx-pom-plugin-token: {TOKEN}\r\n\r\n");
    assert_eq!(route(&with_query), Route::Projects);
    let post = format!("POST /projects HTTP/1.1\r\nx-pom-plugin-token: {TOKEN}\r\n\r\n");
    assert_eq!(route(&post), Route::NotFound);
    let other = format!("GET /other HTTP/1.1\r\nx-pom-plugin-token: {TOKEN}\r\n\r\n");
    assert_eq!(route(&other), Route::NotFound);
    let bare = format!("GET\r\nx-pom-plugin-token: {TOKEN}\r\n\r\n");
    assert_eq!(route(&bare), Route::NotFound);
}

#[test]
fn request_line_splits_on_any_whitespace() {
    let request = format!("  GET\t /projects \r\nx-pom-plugin-token: {TOKEN}\r\n");
    assert_eq!(route(&request), Route::Projects);
}

#[test]
fn invalid_utf8_is_read_lossily() {
    let mut request = b"GET /projects HTTP/1.1\r\nX-Bad: \xff\xfe\r\nx-pom-plugin-token: ".to_vec();
    request.extend_from_slice(TOKEN.as_bytes());
    request.extend_from_slice(b"\r\n\r\n");
    assert_eq!(route_workspace_request(&request, TOKEN), Route::Projects);
}

#[test]
fn status_lines_match_routes() {
    assert_eq!(Route::Unauthorized.status_line(), "401 Unauthorized");
    assert_eq!(Route::Projects.status_line(), "200 OK");
    assert_eq!(Route::NotFound.status_line(), "404 Not Found");
}

#[test]
fn response_head_frames_the_body() {
    assert_eq!(
        response_head("200 OK", 42),
        "HTTP/1.1 200 OK\r\nContent-Type: application/json\r\nContent-Length: 42\r\nConnection: close\r\n\r\n"
    );
    assert!(response_head("404 Not Found", 0).contains("Content-Length: 0\r\n"));
    assert!(response_head("200 OK", 1234567).contains("Content-Length: 1234567\r\n"));
}

#[test]
fn reading_stops_at_blank_line_or_limit() {
    assert!(request_needs_more(b""));
    assert!(request_needs_more(b"GET / HTTP/1.1\r\n"));
    assert!(!request_needs_more(b"GET / HTTP/1.1\r\n\r\n"));
    assert!(!request_needs_more(&vec![b'a'; MAX_REQUEST_BYTES]));
    assert!(request_needs_more(&vec![b'a'; MAX_REQUEST_BYTES - 1]));
}

#[test]
fn accept_loop_steps() {
    assert_eq!(serve_step(AcceptOutcome::Connection), ServerStep::Serve);
    assert_eq!(serve_step(AcceptOutcome::WouldBlock), ServerStep::Wait);
    assert_eq!(serve_step(AcceptOutcome::Failed), ServerStep::Stop);
}

#[test]
fn token_spells_time_process_and_port_in_hex() {
    let token = upstream_token(0xabcdef, 42, 8080);
    assert_eq!(token, TOKEN);
    assert_eq!(token, format!("{:032x}{:08x}{:04x}", 0xabcdefu128, 42u32, 8080u16));
    let max = upstream_token(u128::MAX, u32::MAX, u16::MAX);
    assert_eq!(max.len(), 44);
    assert!(max.chars().all(|c| c == 'f'));
    assert_eq!(u16::from_str_radix(&token[40..], 16).unwrap(), 8080);
}

#[test]
fn read_steps_and_error_bodies() {
    assert_eq!(read_step(Some(12)), ReadStep::Append);
    assert_eq!(read_step(Some(0)), ReadStep::Answer);
    assert_eq!(read_step(None), ReadStep::Drop);
    assert_eq!(Route::Unauthorized.error_message(), Some("unauthorized"));
    assert_eq!(Route::NotFound.error_message(), Some("not found"));
    assert_eq!(Route::Projects.error_message(), None);
}
