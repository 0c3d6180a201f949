//! The loopback workspace endpoint: when a request has been read in full,
//! how it is routed, and the head of the reply.
//!
//! A request is read as text (`String::from_utf8_lossy`), split into lines as
//! `str::lines` does, and its first line into words as `str::split_whitespace`
//! does. It is served only when one of the following lines is an
//! `x-pom-plugin-token` header (name matched without regard to ASCII case,
//! value trimmed) that carries the endpoint's token; then `GET /projects`,
//! with any query string, lists the workspace and everything else is not found.
use vstd::prelude::*;
use vstd::utf8::{decode_utf8, valid_utf8};
use crate::numerals::{decimal_digits, push_decimal};
use crate::text::{
    is_whitespace, lemma_skip_whitespace_over, lemma_word_end_over, chars_equal, chars_of, copy_range, find_char, find_char_from, lemma_find_char_bounds,
    lemma_skip_whitespace_bounds, lemma_word_end_bounds, skip_whitespace, skip_whitespace_from,
    trim, trimmed, word_end, word_end_from,
};

verus! {

/// The largest request, in bytes, that the endpoint reads before it answers.
pub const MAX_REQUEST_BYTES: usize = 16384;

/// Where a request to the workspace endpoint goes.
#[derive(PartialEq, Eq, Structural, Debug, Clone, Copy)]
pub enum Route {
    /// No line carries the endpoint's token: `401 Unauthorized`.
    Unauthorized,
    /// `GET /projects`: `200 OK` with the workspace snapshot.
    Projects,
    /// Anything else: `404 Not Found`.
    NotFound,
}

/// What the accept loop of the endpoint does after one attempt to accept.
#[derive(PartialEq, Eq, Structural, Debug, Clone, Copy)]
pub enum AcceptOutcome {
    /// A connection was accepted.
    Connection,
    /// No connection is waiting (`ErrorKind::WouldBlock`).
    WouldBlock,
    /// Accepting failed for another reason.
    Failed,
}

/// The next step of the accept loop.
#[derive(PartialEq, Eq, Structural, Debug, Clone, Copy)]
pub enum ServerStep {
    /// Serve the accepted connection, then go on.
    Serve,
    /// Sleep briefly, then go on.
    Wait,
    /// Leave the loop.
    Stop,
}

/// What the endpoint does after one read from a connection.
#[derive(PartialEq, Eq, Structural, Debug, Clone, Copy)]
pub enum ReadStep {
    /// Keep the bytes read and read on, while `request_needs_more`.
    Append,
    /// The peer sent everything: answer what was read.
    Answer,
    /// Reading failed: close the connection without an answer.
    Drop,
}

// ---------------------------------------------------------------- specs

/// Whether `bytes` holds the blank line that ends a request head.
pub open spec fn has_head_terminator(bytes: Seq<u8>) -> bool {
    exists|i: int|
        0 <= i && i + 4 <= bytes.len() && #[trigger] bytes[i] == 13 && bytes[i + 1] == 10
            && bytes[i + 2] == 13 && bytes[i + 3] == 10
}

/// `line` without one final carriage return.
pub open spec fn strip_cr(line: Seq<char>) -> Seq<char> {
    if line.len() > 0 && line.last() == '\r' {
        line.drop_last()
    } else {
        line
    }
}

/// The line that starts at `start`, as `str::lines` yields it: a line ended
/// by `\n` loses the `\n` and then one `\r`; the last line, with no `\n`,
/// is kept whole.
pub open spec fn line_at(s: Seq<char>, start: int) -> Seq<char> {
    let end = find_char(s, '\n', start);
    if end < s.len() {
        strip_cr(s.subrange(start, end))
    } else {
        s.subrange(start, end)
    }
}

/// The lines of `s` from `start` on.
pub open spec fn lines_from(s: Seq<char>, start: int) -> Seq<Seq<char>>
    decreases s.len() - start,
{
    if start < 0 || start >= s.len() {
        seq![]
    } else {
        let end = find_char(s, '\n', start);
        if end >= s.len() {
            seq![line_at(s, start)]
        } else {
            proof {
                lemma_find_char_bounds(s, '\n', start);
            }
            seq![line_at(s, start)] + lines_from(s, end + 1)
        }
    }
}

/// `str::lines`.
pub open spec fn lines(s: Seq<char>) -> Seq<Seq<char>> {
    lines_from(s, 0)
}

/// The whitespace-separated words of `s` from `from` on.
pub open spec fn words_from(s: Seq<char>, from: int) -> Seq<Seq<char>>
    decreases s.len() - from,
{
    if from < 0 || from >= s.len() {
        seq![]
    } else {
        let a = skip_whitespace(s, from);
        if a >= s.len() {
            seq![]
        } else {
            proof {
                lemma_skip_whitespace_bounds(s, from);
                lemma_word_end_bounds(s, a + 1);
            }
            let b = word_end(s, a);
            seq![s.subrange(a, b)] + words_from(s, b)
        }
    }
}

/// `str::split_whitespace`.
pub open spec fn words(s: Seq<char>) -> Seq<Seq<char>> {
    words_from(s, 0)
}

/// Element `i` of `parts`, or the empty text when there is none
/// (`Iterator::next` followed by `unwrap_or_default`).
pub open spec fn nth_or_empty(parts: Seq<Seq<char>>, i: int) -> Seq<char> {
    if 0 <= i < parts.len() {
        parts[i]
    } else {
        seq![]
    }
}

/// A character's code with ASCII upper case folded to lower case.
pub open spec fn ascii_folded(c: char) -> int {
    if 'A' <= c && c <= 'Z' {
        (c as int) + 32
    } else {
        c as int
    }
}

/// `str::eq_ignore_ascii_case`.
pub open spec fn eq_ignore_ascii_case(a: Seq<char>, b: Seq<char>) -> bool {
    &&& a.len() == b.len()
    &&& forall|i: int| 0 <= i < a.len() ==> ascii_folded(#[trigger] a[i]) == ascii_folded(b[i])
}

/// The name of the header that carries the endpoint's token.
pub open spec fn token_header() -> Seq<char> {
    "x-pom-plugin-token"@
}

/// Whether `line` is a token header that carries `token`: split at its first
/// `:`, the name is the header's name in any ASCII case and the trimmed
/// value is the token.
pub open spec fn token_header_matches(line: Seq<char>, token: Seq<char>) -> bool {
    let colon = find_char(line, ':', 0);
    &&& colon < line.len()
    &&& eq_ignore_ascii_case(line.subrange(0, colon), token_header())
    &&& trim(line.subrange(colon + 1, line.len() as int)) == token
}

/// Whether a line after the request line carries the token.
pub open spec fn authorized(request: Seq<char>, token: Seq<char>) -> bool {
    let ls = lines(request);
    exists|i: int| 1 <= i < ls.len() && token_header_matches(#[trigger] ls[i], token)
}

/// The request line: the first line, or the empty text.
pub open spec fn request_line(request: Seq<char>) -> Seq<char> {
    nth_or_empty(lines(request), 0)
}

/// The method: the first word of the request line.
pub open spec fn request_method(request: Seq<char>) -> Seq<char> {
    nth_or_empty(words(request_line(request)), 0)
}

/// The request target: the second word of the request line.
pub open spec fn request_target(request: Seq<char>) -> Seq<char> {
    nth_or_empty(words(request_line(request)), 1)
}

/// The target's path: what precedes its first `?`.
pub open spec fn request_path(request: Seq<char>) -> Seq<char> {
    let target = request_target(request);
    target.subrange(0, find_char(target, '?', 0))
}

/// Where the endpoint sends `request` when its token is `token`.
pub open spec fn route(request: Seq<char>, token: Seq<char>) -> Route {
    if !authorized(request, token) {
        Route::Unauthorized
    } else if request_method(request) == "GET"@ && request_path(request) == "/projects"@ {
        Route::Projects
    } else {
        Route::NotFound
    }
}

/// The status line that a route is answered with.
pub open spec fn status_text(route: Route) -> Seq<char> {
    match route {
        Route::Unauthorized => "401 Unauthorized"@,
        Route::Projects => "200 OK"@,
        Route::NotFound => "404 Not Found"@,
    }
}

/// The head of a JSON reply whose body has `body_len` bytes.
pub open spec fn response_head_text(status: Seq<char>, body_len: nat) -> Seq<char> {
    "HTTP/1.1 "@ + status + "\r\nContent-Type: application/json\r\nContent-Length: "@
        + decimal_digits(body_len) + "\r\nConnection: close\r\n\r\n"@
}

/// The name of what `String::from_utf8_lossy` makes of `bytes`.
pub uninterp spec fn utf8_lossy(bytes: Seq<u8>) -> Seq<char>;

// ---------------------------------------------------------------- lemmas

proof fn lemma_lines_from_unfold(s: Seq<char>, start: int)
    requires
        0 <= start < s.len(),
    ensures
        lines_from(s, start) == seq![line_at(s, start)] + lines_from(
            s,
            find_char(s, '\n', start) + 1,
        ),
        start <= find_char(s, '\n', start) <= s.len(),
{
    lemma_find_char_bounds(s, '\n', start);
}

proof fn lemma_words_from_unfold(s: Seq<char>, from: int)
    requires
        0 <= from < s.len(),
        skip_whitespace(s, from) < s.len(),
    ensures
        words_from(s, from) == seq![
            s.subrange(skip_whitespace(s, from), word_end(s, skip_whitespace(s, from))),
        ] + words_from(s, word_end(s, skip_whitespace(s, from))),
{
}

/// The endpoint serves nothing without its token: a request that is not
/// refused as unauthorized has, after its request line, a line that is a
/// token header carrying the token; and only `GET` of `/projects`, whatever
/// its query string, reaches the workspace.
pub proof fn served_only_with_token(request: Seq<char>, token: Seq<char>)
    ensures
        route(request, token) != Route::Unauthorized ==> exists|i: int|
            1 <= i < lines(request).len() && token_header_matches(#[trigger] lines(request)[i], token),
        route(request, token) == Route::Projects ==> request_method(request) == "GET"@
            && request_path(request) == "/projects"@,
        authorized(request, token) ==> route(request, token) != Route::Unauthorized,
{
}

/// A request is served (not refused as unauthorized) exactly when some line
/// after the request line, at whatever position, is a token header that
/// carries the token.
pub proof fn authorized_iff_some_token_line(request: Seq<char>, token: Seq<char>)
    ensures
        route(request, token) != Route::Unauthorized <==> exists|i: int|
            1 <= i < lines(request).len() && token_header_matches(#[trigger] lines(request)[i], token),
{
}

proof fn lemma_find_char_shift(a: Seq<char>, b: Seq<char>, c: char, j: int)
    requires
        0 <= j,
    ensures
        find_char(a + b, c, a.len() + j) == a.len() + find_char(b, c, j),
    decreases b.len() - j,
{
    if j < b.len() {
        assert((a + b)[a.len() + j] == b[j]);
        if b[j] != c {
            lemma_find_char_shift(a, b, c, j + 1);
        }
    }
}

proof fn lemma_find_char_prefix(a: Seq<char>, b: Seq<char>, c: char, k: int)
    requires
        0 <= k,
        find_char(a, c, k) < a.len(),
    ensures
        find_char(a + b, c, k) == find_char(a, c, k),
    decreases a.len() - k,
{
    assert((a + b)[k] == a[k]);
    if a[k] != c {
        lemma_find_char_prefix(a, b, c, k + 1);
    }
}

proof fn lemma_lines_shift(a: Seq<char>, b: Seq<char>, j: int)
    requires
        0 <= j,
    ensures
        lines_from(a + b, a.len() + j) == lines_from(b, j),
    decreases b.len() - j,
{
    if j < b.len() {
        let s = a + b;
        lemma_find_char_shift(a, b, '\n', j);
        lemma_find_char_bounds(b, '\n', j);
        let e = find_char(b, '\n', j);
        assert(s.subrange(a.len() + j, a.len() + e) =~= b.subrange(j, e));
        assert(line_at(s, a.len() + j) == line_at(b, j));
        if e < b.len() {
            lemma_lines_shift(a, b, e + 1);
        }
    }
}

proof fn lemma_lines_append_from(a: Seq<char>, b: Seq<char>, k: int)
    requires
        0 <= k < a.len(),
        a.last() == '\n',
    ensures
        lines_from(a + b, k) == lines_from(a, k) + lines(b),
    decreases a.len() - k,
{
    let s = a + b;
    lemma_find_char_bounds(a, '\n', k);
    if find_char(a, '\n', k) == a.len() {
        assert(a[a.len() - 1] == '\n');
        assert(false);
    }
    let e = find_char(a, '\n', k);
    lemma_find_char_prefix(a, b, '\n', k);
    assert(s.subrange(k, e) =~= a.subrange(k, e));
    assert(line_at(s, k) == line_at(a, k));
    if e + 1 < a.len() {
        lemma_lines_append_from(a, b, e + 1);
        assert(lines_from(s, k) =~= seq![line_at(a, k)] + (lines_from(a, e + 1) + lines(b)));
    } else {
        lemma_lines_shift(a, b, 0);
        assert(lines_from(a, e + 1) =~= Seq::<Seq<char>>::empty());
        assert(lines_from(s, k) =~= seq![line_at(a, k)] + lines(b));
    }
}

/// The lines of a text that ends a line, followed by more text, are its
/// lines followed by those of the rest.
pub proof fn lines_append(a: Seq<char>, b: Seq<char>)
    requires
        a.len() > 0,
        a.last() == '\n',
    ensures
        lines(a + b) == lines(a) + lines(b),
{
    lemma_lines_append_from(a, b, 0);
}

/// The request line is the text before the first `\r\n`.
pub proof fn first_line_of(line: Seq<char>, rest: Seq<char>)
    requires
        forall|k: int| 0 <= k < line.len() ==> #[trigger] line[k] != '\n',
    ensures
        lines(line + seq!['\r', '\n'] + rest).len() >= 1,
        lines(line + seq!['\r', '\n'] + rest)[0] == line,
{
    let s = line + seq!['\r', '\n'] + rest;
    let n = line.len() as int;
    lemma_find_char_bounds(s, '\n', 0);
    assert(s[n + 1] == '\n');
    assert(s[n] == '\r');
    assert forall|k: int| 0 <= k < n implies s[k] != '\n' by {
        assert(s[k] == line[k]);
    }
    assert(find_char(s, '\n', 0) == n + 1);
    assert(s.subrange(0, n + 1).drop_last() =~= line);
}

/// A token header that carries the token authorizes a request wherever it
/// stands after the request line: after any number of other header lines,
/// and whatever follows it.
pub proof fn token_header_anywhere_authorizes(
    request_line: Seq<char>,
    headers: Seq<char>,
    header: Seq<char>,
    rest: Seq<char>,
    token: Seq<char>,
)
    requires
        forall|k: int| 0 <= k < request_line.len() ==> #[trigger] request_line[k] != '\n',
        forall|k: int| 0 <= k < header.len() ==> #[trigger] header[k] != '\n',
        headers.len() == 0 || headers.last() == '\n',
        token_header_matches(header, token),
    ensures
        route(request_line + seq!['\r', '\n'] + headers + header + seq!['\r', '\n'] + rest, token)
            != Route::Unauthorized,
{
    let crlf = seq!['\r', '\n'];
    let a = request_line + crlf;
    let c = header + crlf + rest;
    let request = request_line + crlf + headers + header + crlf + rest;
    assert(request =~= a + (headers + c));
    lines_append(a, headers + c);
    first_line_of(request_line, Seq::<char>::empty());
    assert(request_line + crlf + Seq::<char>::empty() =~= a);
    first_line_of(header, rest);
    let before: int;
    if headers.len() == 0 {
        assert(headers + c =~= c);
        before = 0;
    } else {
        lines_append(headers, c);
        before = lines(headers).len() as int;
    }
    let i = lines(a).len() + before;
    assert(lines(headers + c)[before] == header);
    assert(lines(request)[i] == header);
    assert(1 <= i < lines(request).len());
    assert(authorized(request, token));
}

/// Header names compare without regard to ASCII case, and only to it: two
/// characters match exactly when they are equal or are the upper- and
/// lower-case forms of one ASCII letter.
pub proof fn ascii_case_folding(c: char, d: char)
    ensures
        ascii_folded(c) == ascii_folded(d) <==> (c == d || ('A' <= c && c <= 'Z' && (d as int)
            == (c as int) + 32) || ('A' <= d && d <= 'Z' && (c as int) == (d as int) + 32)),
{
}

/// Two texts are equal without regard to ASCII case exactly when they have
/// the same length and each pair of characters is equal or is the upper-
/// and lower-case form of one ASCII letter.
pub proof fn eq_ignore_ascii_case_by_chars(a: Seq<char>, b: Seq<char>)
    ensures
        eq_ignore_ascii_case(a, b) <==> (a.len() == b.len() && forall|i: int|
            0 <= i < a.len() ==> (#[trigger] a[i] == b[i] || ('A' <= a[i] && a[i] <= 'Z' && (b[i] as int)
                == (a[i] as int) + 32) || ('A' <= b[i] && b[i] <= 'Z' && (a[i] as int) == (
            b[i] as int) + 32))),
{
    assert forall|i: int| 0 <= i < a.len() && i < b.len() implies (ascii_folded(#[trigger] a[i])
        == ascii_folded(b[i]) <==> (a[i] == b[i] || ('A' <= a[i] && a[i] <= 'Z' && (b[i] as int)
        == (a[i] as int) + 32) || ('A' <= b[i] && b[i] <= 'Z' && (a[i] as int) == (b[i] as int)
        + 32))) by {
        ascii_case_folding(a[i], b[i]);
    }
}

/// A header line is its name, a `:`, and its value: it carries the token
/// exactly when its name (which holds no `:`) is `x-pom-plugin-token` in
/// any ASCII case and its value, trimmed, is the token.
pub proof fn token_header_parts(name: Seq<char>, value: Seq<char>, token: Seq<char>)
    requires
        forall|k: int| 0 <= k < name.len() ==> #[trigger] name[k] != ':',
    ensures
        token_header_matches(name + seq![':'] + value, token) <==> (eq_ignore_ascii_case(
            name,
            token_header(),
        ) && trim(value) == token),
{
    let line = name + seq![':'] + value;
    lemma_find_char_bounds(line, ':', 0);
    assert(line[name.len() as int] == ':');
    assert forall|k: int| 0 <= k < name.len() implies line[k] != ':' by {
        assert(line[k] == name[k]);
    }
    assert(find_char(line, ':', 0) == name.len());
    assert(line.subrange(0, name.len() as int) =~= name);
    assert(line.subrange(name.len() as int + 1, line.len() as int) =~= value);
}

/// `split_whitespace` on a request line: after any leading whitespace, the
/// first word runs to the next whitespace, and the second word follows the
/// whitespace after it.
pub proof fn first_two_words_of(
    lead: Seq<char>,
    first: Seq<char>,
    gap: Seq<char>,
    second: Seq<char>,
    rest: Seq<char>,
)
    requires
        forall|k: int| 0 <= k < lead.len() ==> is_whitespace(#[trigger] lead[k]),
        forall|k: int| 0 <= k < gap.len() ==> is_whitespace(#[trigger] gap[k]),
        forall|k: int| 0 <= k < first.len() ==> !is_whitespace(#[trigger] first[k]),
        forall|k: int| 0 <= k < second.len() ==> !is_whitespace(#[trigger] second[k]),
        first.len() > 0,
        gap.len() > 0,
        second.len() > 0,
        rest.len() == 0 || is_whitespace(rest[0]),
    ensures
        words(lead + first + gap + second + rest).len() >= 2,
        words(lead + first + gap + second + rest)[0] == first,
        words(lead + first + gap + second + rest)[1] == second,
{
    let s = lead + first + gap + second + rest;
    let a = lead.len() as int;
    let b = a + first.len();
    let c = b + gap.len();
    let d = c + second.len();
    assert forall|k: int| 0 <= k < a implies is_whitespace(#[trigger] s[k]) by {
        assert(s[k] == lead[k]);
    }
    assert forall|k: int| a <= k < b implies !is_whitespace(#[trigger] s[k]) by {
        assert(s[k] == first[k - a]);
    }
    assert forall|k: int| b <= k < c implies is_whitespace(#[trigger] s[k]) by {
        assert(s[k] == gap[k - b]);
    }
    assert forall|k: int| c <= k < d implies !is_whitespace(#[trigger] s[k]) by {
        assert(s[k] == second[k - c]);
    }
    if d < s.len() {
        assert(s[d] == rest[0]);
    }
    lemma_skip_whitespace_over(s, 0, a);
    assert(skip_whitespace(s, a) == a);
    lemma_word_end_over(s, a, b);
    lemma_skip_whitespace_over(s, b, c);
    assert(skip_whitespace(s, c) == c);
    lemma_word_end_over(s, c, d);
    lemma_words_from_unfold(s, 0);
    lemma_words_from_unfold(s, b);
    assert(s.subrange(a, b) =~= first);
    assert(s.subrange(c, d) =~= second);
}

/// A well-formed `GET /projects` request, with any query string, that
/// carries the token in a header line anywhere after the request line, is
/// served the workspace.
pub proof fn projects_request_is_served(
    method: Seq<char>,
    path: Seq<char>,
    query: Seq<char>,
    version: Seq<char>,
    headers: Seq<char>,
    header: Seq<char>,
    rest: Seq<char>,
    token: Seq<char>,
)
    requires
        method == "GET"@,
        path == "/projects"@,
        query.len() == 0 || query[0] == '?',
        forall|k: int|
            0 <= k < query.len() ==> !is_whitespace(#[trigger] query[k]) && query[k] != '\n',
        forall|k: int| 0 <= k < version.len() ==> #[trigger] version[k] != '\n',
        forall|k: int| 0 <= k < header.len() ==> #[trigger] header[k] != '\n',
        headers.len() == 0 || headers.last() == '\n',
        token_header_matches(header, token),
    ensures
        route(
            method + seq![' '] + path + query + seq![' '] + version + seq!['\r', '\n'] + headers
                + header + seq!['\r', '\n'] + rest,
            token,
        ) == Route::Projects,
{
    reveal_strlit("GET");
    reveal_strlit("/projects");
    let target = path + query;
    let line = method + seq![' '] + target + seq![' '] + version;
    let request = method + seq![' '] + path + query + seq![' '] + version + seq!['\r', '\n']
        + headers + header + seq!['\r', '\n'] + rest;
    assert(request =~= line + seq!['\r', '\n'] + headers + header + seq!['\r', '\n'] + rest);
    assert forall|k: int| 0 <= k < line.len() implies #[trigger] line[k] != '\n' by {
        let m = method.len() as int;
        let t = target.len() as int;
        if k < m {
            assert(line[k] == method[k]);
        } else if k == m {
        } else if k < m + 1 + t {
            assert(line[k] == target[k - m - 1]);
            if k - m - 1 >= path.len() {
                assert(target[k - m - 1] == query[k - m - 1 - path.len()]);
            }
        } else if k > m + 1 + t {
            assert(line[k] == version[k - m - 2 - t]);
        }
    }
    token_header_anywhere_authorizes(line, headers, header, rest, token);
    first_line_of(line, headers + header + seq!['\r', '\n'] + rest);
    assert(line + seq!['\r', '\n'] + (headers + header + seq!['\r', '\n'] + rest) =~= request);
    assert(request_line(request) == line);
    assert forall|k: int| 0 <= k < target.len() implies !is_whitespace(#[trigger] target[k]) by {
        if k >= path.len() {
            assert(target[k] == query[k - path.len()]);
        }
    }
    first_two_words_of(
        Seq::<char>::empty(),
        method,
        seq![' '],
        target,
        seq![' '] + version,
    );
    assert(Seq::<char>::empty() + method + seq![' '] + target + (seq![' '] + version) =~= line);
    lemma_find_char_bounds(target, '?', 0);
    assert(target[path.len() as int] == '?' || query.len() == 0);
    assert forall|k: int| 0 <= k < path.len() implies target[k] != '?' by {
        assert(target[k] == path[k]);
    }
    assert(find_char(target, '?', 0) == path.len());
    assert(target.subrange(0, path.len() as int) =~= path);
}

/// The blank line that ends a request head is found at any offset: bytes
/// that hold `\r\n\r\n` anywhere are complete, and bytes that hold it
/// nowhere are not.
pub proof fn head_terminator_at_any_offset(bytes: Seq<u8>, i: int)
    ensures
        0 <= i && i + 4 <= bytes.len() && bytes.subrange(i, i + 4) == seq![13u8, 10u8, 13u8, 10u8]
            ==> has_head_terminator(bytes),
        (forall|k: int|
            0 <= k && k + 4 <= bytes.len() ==> #[trigger] bytes.subrange(k, k + 4) != seq![
                13u8,
                10u8,
                13u8,
                10u8,
            ]) ==> !has_head_terminator(bytes),
{
    if 0 <= i && i + 4 <= bytes.len() && bytes.subrange(i, i + 4) == seq![13u8, 10u8, 13u8, 10u8] {
        assert(bytes.subrange(i, i + 4)[0] == bytes[i]);
        assert(bytes.subrange(i, i + 4)[1] == bytes[i + 1]);
        assert(bytes.subrange(i, i + 4)[2] == bytes[i + 2]);
        assert(bytes.subrange(i, i + 4)[3] == bytes[i + 3]);
    }
    if has_head_terminator(bytes) {
        let k = choose|k: int|
            0 <= k && k + 4 <= bytes.len() && #[trigger] bytes[k] == 13 && bytes[k + 1] == 10
                && bytes[k + 2] == 13 && bytes[k + 3] == 10;
        assert(bytes.subrange(k, k + 4) =~= seq![13u8, 10u8, 13u8, 10u8]);
    }
}

/// No line that `lines` yields holds a line feed.
pub proof fn lines_hold_no_line_feed(s: Seq<char>, start: int)
    requires
        0 <= start,
    ensures
        forall|i: int, k: int|
            0 <= i < lines_from(s, start).len() && 0 <= k < lines_from(s, start)[i].len()
                ==> #[trigger] lines_from(s, start)[i][k] != '\n',
    decreases s.len() - start,
{
    if start < s.len() {
        let end = find_char(s, '\n', start);
        lemma_find_char_bounds(s, '\n', start);
        let line = line_at(s, start);
        assert forall|k: int| 0 <= k < line.len() implies line[k] != '\n' by {
            assert(line[k] == s[start + k]);
        }
        if end < s.len() {
            lines_hold_no_line_feed(s, end + 1);
            let all = lines_from(s, start);
            assert forall|i: int, k: int| 0 <= i < all.len() && 0 <= k < all[i].len() implies #[trigger] all[i][k]
                != '\n' by {
                if i == 0 {
                    assert(all[0] == line);
                } else {
                    assert(all[i] == lines_from(s, end + 1)[i - 1]);
                }
            }
        } else {
            assert(lines_from(s, start) =~= seq![line]);
        }
    }
}

// ---------------------------------------------------------------- code

/// `String::from_utf8_lossy`, read out as characters. The contract names the
/// result for every input and says what it is on valid UTF-8; how invalid
/// sequences are replaced by U+FFFD is left to the name.
#[verifier::external_body]
fn decode_utf8_lossy(bytes: &[u8]) -> (res: Vec<char>)
    ensures
        res@ == utf8_lossy(bytes@),
        valid_utf8(bytes@) ==> res@ == decode_utf8(bytes@),
{
    String::from_utf8_lossy(bytes).chars().collect()
}

/// Whether the endpoint reads more of a request: it stops at 16 KiB or once
/// the blank line that ends the head has arrived.
pub fn request_needs_more(request: &[u8]) -> (res: bool)
    ensures
        res == (request.len() < MAX_REQUEST_BYTES && !has_head_terminator(request@)),
{
    if request.len() >= MAX_REQUEST_BYTES {
        return false;
    }
    let mut i: usize = 0;
    while i + 4 <= request.len()
        invariant
            request.len() < MAX_REQUEST_BYTES,
            i <= request.len(),
            forall|k: int|
                0 <= k < i ==> !(#[trigger] request@[k] == 13 && request@[k + 1] == 10
                    && request@[k + 2] == 13 && request@[k + 3] == 10),
        decreases request.len() - i,
    {
        if request[i] == 13 && request[i + 1] == 10 && request[i + 2] == 13 && request[i + 3]
            == 10 {
            return false;
        }
        i = i + 1;
    }
    true
}

/// The next step of the accept loop after one attempt to accept.
pub fn serve_step(outcome: AcceptOutcome) -> (res: ServerStep)
    ensures
        outcome == AcceptOutcome::Connection ==> res == ServerStep::Serve,
        outcome == AcceptOutcome::WouldBlock ==> res == ServerStep::Wait,
        outcome == AcceptOutcome::Failed ==> res == ServerStep::Stop,
{
    match outcome {
        AcceptOutcome::Connection => ServerStep::Serve,
        AcceptOutcome::WouldBlock => ServerStep::Wait,
        AcceptOutcome::Failed => ServerStep::Stop,
    }
}

/// The next step after one read, given the number of bytes read (`None`
/// where the read failed): zero bytes mean the peer is done.
pub fn read_step(read: Option<usize>) -> (res: ReadStep)
    ensures
        res == match read {
            None => ReadStep::Drop,
            Some(n) => if n == 0 {
                ReadStep::Answer
            } else {
                ReadStep::Append
            },
        },
{
    match read {
        None => ReadStep::Drop,
        Some(0) => ReadStep::Answer,
        Some(_) => ReadStep::Append,
    }
}

/// The line that starts at `start`, and the index of the `\n` that ends it
/// (the length when none does).
fn line_from(s: &[char], start: usize) -> (res: (Vec<char>, usize))
    requires
        start < s.len(),
    ensures
        res.0@ == line_at(s@, start as int),
        res.1 == find_char(s@, '\n', start as int),
        start <= res.1 <= s.len(),
{
    let end = find_char_from(s, '\n', start);
    if end < s.len() && end > start && s[end - 1] == '\r' {
        let line = copy_range(s, start, end - 1);
        proof {
            assert(s@.subrange(start as int, end as int).drop_last() =~= line@);
        }
        (line, end)
    } else {
        (copy_range(s, start, end), end)
    }
}

/// `char::to_ascii_lowercase`, as a code.
fn ascii_folded_code(c: char) -> (res: u32)
    ensures
        res == ascii_folded(c),
{
    if 'A' <= c && c <= 'Z' {
        (c as u32) + 32
    } else {
        c as u32
    }
}

/// `str::eq_ignore_ascii_case` on character sequences.
pub fn chars_eq_ignore_ascii_case(a: &[char], b: &[char]) -> (res: bool)
    ensures
        res == eq_ignore_ascii_case(a@, b@),
{
    if a.len() != b.len() {
        return false;
    }
    let mut i: usize = 0;
    while i < a.len()
        invariant
            a.len() == b.len(),
            i <= a.len(),
            forall|k: int| 0 <= k < i ==> ascii_folded(#[trigger] a@[k]) == ascii_folded(b@[k]),
        decreases a.len() - i,
    {
        if ascii_folded_code(a[i]) != ascii_folded_code(b[i]) {
            return false;
        }
        i = i + 1;
    }
    true
}

/// Whether `line` is a token header that carries `token`.
fn header_carries_token(line: &[char], token: &[char], header: &[char]) -> (res: bool)
    requires
        header@ == token_header(),
    ensures
        res == token_header_matches(line@, token@),
{
    let colon = find_char_from(line, ':', 0);
    if colon >= line.len() {
        return false;
    }
    let name = copy_range(line, 0, colon);
    if !chars_eq_ignore_ascii_case(&name, header) {
        return false;
    }
    let value = copy_range(line, colon + 1, line.len());
    let value = trimmed(&value);
    chars_equal(&value, token)
}

/// The first two words of `line`, each the empty text where there is none.
fn first_two_words(line: &[char]) -> (res: (Vec<char>, Vec<char>))
    ensures
        res.0@ == nth_or_empty(words(line@), 0),
        res.1@ == nth_or_empty(words(line@), 1),
{
    let ghost s = line@;
    if line.len() == 0 {
        return (Vec::new(), Vec::new());
    }
    let a = skip_whitespace_from(line, 0);
    if a >= line.len() {
        return (Vec::new(), Vec::new());
    }
    let b = word_end_from(line, a);
    proof {
        lemma_words_from_unfold(s, 0);
    }
    let first = copy_range(line, a, b);
    if b >= line.len() {
        return (first, Vec::new());
    }
    let c = skip_whitespace_from(line, b);
    if c >= line.len() {
        return (first, Vec::new());
    }
    let d = word_end_from(line, c);
    proof {
        lemma_words_from_unfold(s, b as int);
    }
    let second = copy_range(line, c, d);
    (first, second)
}

/// Where the endpoint sends a request, given as text.
pub fn route_request(request: &[char], token: &[char]) -> (res: Route)
    ensures
        res == route(request@, token@),
{
    let ghost s = request@;
    if request.len() == 0 {
        assert(lines(s) =~= Seq::<Seq<char>>::empty());
        return Route::Unauthorized;
    }
    let header = chars_of("x-pom-plugin-token");
    let (first, first_end) = line_from(request, 0);
    proof {
        lemma_lines_from_unfold(s, 0);
    }
    let mut pos: usize = if first_end < request.len() {
        first_end + 1
    } else {
        request.len()
    };
    let ghost mut seen: Seq<Seq<char>> = seq![first@];
    let mut found = false;
    assert(lines(s) == seen + lines_from(s, pos as int));
    while pos < request.len() && !found
        invariant
            request@ == s,
            header@ == token_header(),
            pos <= request.len(),
            seen.len() >= 1,
            seen[0] == first@,
            lines(s) == seen + lines_from(s, pos as int),
            !found ==> forall|i: int|
                1 <= i < seen.len() ==> !token_header_matches(#[trigger] seen[i], token@),
            found ==> exists|i: int|
                1 <= i < seen.len() && token_header_matches(#[trigger] seen[i], token@),
        decreases request.len() - pos,
    {
        let (line, end) = line_from(request, pos);
        proof {
            lemma_lines_from_unfold(s, pos as int);
        }
        if header_carries_token(&line, token, &header) {
            found = true;
        }
        let ghost old_seen = seen;
        proof {
            seen = seen.push(line@);
            assert(seen[seen.len() - 1] == line@);
            assert(old_seen + (seq![line@] + lines_from(s, end + 1)) == seen + lines_from(
                s,
                end + 1,
            ));
        }
        let next = if end < request.len() {
            end + 1
        } else {
            request.len()
        };
        assert(lines_from(s, next as int) == lines_from(s, end + 1));
        pos = next;
        proof {
            if !found {
                assert forall|i: int| 1 <= i < seen.len() implies !token_header_matches(
                    #[trigger] seen[i],
                    token@,
                ) by {
                    if i < old_seen.len() {
                        assert(seen[i] == old_seen[i]);
                    }
                }
            } else {
                if token_header_matches(line@, token@) {
                    assert(token_header_matches(seen[seen.len() - 1], token@));
                } else {
                    let w = choose|i: int|
                        1 <= i < old_seen.len() && token_header_matches(
                            #[trigger] old_seen[i],
                            token@,
                        );
                    assert(seen[w] == old_seen[w]);
                }
            }
        }
    }
    if !found {
        assert(lines_from(s, pos as int) =~= Seq::<Seq<char>>::empty());
        assert(lines(s) =~= seen);
        assert(!authorized(s, token@)) by {
            if exists|i: int|
                1 <= i < lines(s).len() && token_header_matches(#[trigger] lines(s)[i], token@) {
                let w = choose|i: int|
                    1 <= i < lines(s).len() && token_header_matches(
                        #[trigger] lines(s)[i],
                        token@,
                    );
                assert(lines(s)[w] == seen[w]);
            }
        }
        return Route::Unauthorized;
    }
    proof {
        let w = choose|i: int| 1 <= i < seen.len() && token_header_matches(#[trigger] seen[i], token@);
        assert(lines(s)[w] == seen[w]);
        assert(lines(s)[0] == first@);
    }
    let (method, target) = first_two_words(&first);
    let question = find_char_from(&target, '?', 0);
    let path = copy_range(&target, 0, question);
    let get = chars_of("GET");
    let projects = chars_of("/projects");
    if chars_equal(&method, &get) && chars_equal(&path, &projects) {
        Route::Projects
    } else {
        Route::NotFound
    }
}

/// Where the endpoint sends a request, given as the bytes that were read.
pub fn route_workspace_request(request: &[u8], token: &str) -> (res: Route)
    ensures
        res == route(utf8_lossy(request@), token@),
        valid_utf8(request@) ==> res == route(decode_utf8(request@), token@),
{
    let text = decode_utf8_lossy(request);
    let token = chars_of(token);
    route_request(&text, &token)
}

impl Route {
    /// The status line of the reply.
    pub fn status_line(&self) -> (res: &'static str)
        ensures
            res@ == status_text(*self),
    {
        match self {
            Route::Unauthorized => "401 Unauthorized",
            Route::Projects => "200 OK",
            Route::NotFound => "404 Not Found",
        }
    }
}

/// The `error` text of a route's reply body, for routes answered with an
/// error (`{"error": ..}`); the projects route is answered with the
/// workspace snapshot instead.
pub open spec fn error_text(route: Route) -> Option<Seq<char>> {
    match route {
        Route::Unauthorized => Some("unauthorized"@),
        Route::Projects => None,
        Route::NotFound => Some("not found"@),
    }
}

impl Route {
    /// The `error` text of the reply body, where the route is an error.
    pub fn error_message(&self) -> (res: Option<&'static str>)
        ensures
            match res {
                Some(text) => error_text(*self) == Some(text@),
                None => error_text(*self) is None,
            },
    {
        match self {
            Route::Unauthorized => Some("unauthorized"),
            Route::Projects => None,
            Route::NotFound => Some("not found"),
        }
    }
}

/// The head of a JSON reply: status line, content type, the body's length
/// and `Connection: close`, ended by a blank line.
pub fn response_head(status: &str, body_len: usize) -> (res: String)
    ensures
        res@ == response_head_text(status@, body_len as nat),
{
    let mut head = String::from_str("HTTP/1.1 ");
    head.append(status);
    head.append("\r\nContent-Type: application/json\r\nContent-Length: ");
    push_decimal(&mut head, body_len);
    head.append("\r\nConnection: close\r\n\r\n");
    head
}

} // verus!
