//! The HTTP surface: reading the request line, routing it, and the exact
//! response texts of the control API and the stream endpoints.
use vstd::prelude::*;
use vstd::string::*;
use vstd::utf8::encode_utf8;
use crate::config::Camera;
use crate::text::{chars_of, decimal, decimal_string, digit_char, range_eq};
use crate::args::has_prefix;

verus! {

/// `char::is_whitespace`: the Unicode `White_Space` characters.
pub open spec fn is_ws(c: char) -> bool {
    ('\u{9}' <= c <= '\u{d}') || c == ' ' || c == '\u{85}' || c == '\u{a0}' || c == '\u{1680}'
        || ('\u{2000}' <= c <= '\u{200a}') || c == '\u{2028}' || c == '\u{2029}' || c == '\u{202f}'
        || c == '\u{205f}' || c == '\u{3000}'
}

/// The first line of a request: up to the first line feed, without a carriage
/// return that ends it; the whole text when there is no line feed.
pub open spec fn first_line(req: Seq<char>) -> Seq<char> {
    if exists|k: int| 0 <= k < req.len() && req[k] == '\n' {
        let k = choose|k: int|
            0 <= k < req.len() && req[k] == '\n' && forall|j: int| 0 <= j < k ==> req[j] != '\n';
        let line = req.subrange(0, k);
        if line.len() > 0 && line.last() == '\r' {
            line.drop_last()
        } else {
            line
        }
    } else {
        req
    }
}

/// The first index from `i` on that holds no whitespace (or the end).
pub open spec fn skip_ws(s: Seq<char>, i: int) -> int
    decreases s.len() - i,
{
    if 0 <= i < s.len() && is_ws(s[i]) {
        skip_ws(s, i + 1)
    } else {
        i
    }
}

/// The first index from `i` on that holds whitespace (or the end).
pub open spec fn word_end(s: Seq<char>, i: int) -> int
    decreases s.len() - i,
{
    if 0 <= i < s.len() && !is_ws(s[i]) {
        word_end(s, i + 1)
    } else {
        i
    }
}

/// The request method: the first word of the first line, or empty.
pub open spec fn request_method(req: Seq<char>) -> Seq<char> {
    let line = first_line(req);
    let b = skip_ws(line, 0);
    if b < line.len() {
        line.subrange(b, word_end(line, b))
    } else {
        seq![]
    }
}

/// The request path: the second word of the first line, or `/`.
pub open spec fn request_path(req: Seq<char>) -> Seq<char> {
    let line = first_line(req);
    let b = skip_ws(line, word_end(line, skip_ws(line, 0)));
    if b < line.len() {
        line.subrange(b, word_end(line, b))
    } else {
        "/"@
    }
}

/// The value of a sequence of decimal digits.
pub open spec fn digits_value(d: Seq<char>) -> nat
    decreases d.len(),
{
    if d.len() == 0 {
        0
    } else {
        digits_value(d.drop_last()) * 10 + ((d.last() as u32 - '0' as u32) as nat)
    }
}

pub open spec fn is_digit(c: char) -> bool {
    '0' <= c <= '9'
}

/// The text after an optional leading `+`.
pub open spec fn unsigned_digits(s: Seq<char>) -> Seq<char> {
    if s.len() > 0 && s[0] == '+' {
        s.subrange(1, s.len() as int)
    } else {
        s
    }
}

/// `usize::from_str`: an optional `+`, then one or more decimal digits whose
/// value fits in `usize`.
pub open spec fn parse_usize(s: Seq<char>) -> Option<nat> {
    let d = unsigned_digits(s);
    if d.len() == 0 || exists|i: int| 0 <= i < d.len() && !is_digit(d[i]) {
        None
    } else if digits_value(d) > usize::MAX {
        None
    } else {
        Some(digits_value(d))
    }
}

/// The camera id of a stream path: what follows `/camera/` up to the next `/`.
pub open spec fn stream_camera_id(path: Seq<char>) -> Seq<char> {
    let rest = path.subrange(8, path.len() as int);
    if exists|k: int| 0 <= k < rest.len() && rest[k] == '/' {
        rest.subrange(
            0,
            choose|k: int|
                0 <= k < rest.len() && rest[k] == '/' && forall|j: int|
                    0 <= j < k ==> rest[j] != '/',
        )
    } else {
        rest
    }
}

/// What a request asks for.
pub enum Route {
    /// A CORS preflight (`OPTIONS`, any path).
    Preflight,
    /// `/camera/{id}/stream`: the live stream of camera `id`.
    Stream(String),
    /// `GET /` or `GET /control`: the control page.
    ControlPage,
    /// `/api/grid`: show all cameras.
    Grid,
    /// `/api/solo/{index}` with a 1-based index.
    Solo(usize),
    /// `/api/solo/0`.
    SoloIndexTooSmall,
    /// `/api/solo/...` that is no index.
    SoloInvalidIndex,
    /// `/api/status`.
    Status,
    /// `/api/fullscreen`.
    Fullscreen,
    /// `/api/reload`.
    Reload,
    /// Anything else.
    NotFound,
}

pub enum RouteView {
    Preflight,
    Stream(Seq<char>),
    ControlPage,
    Grid,
    Solo(nat),
    SoloIndexTooSmall,
    SoloInvalidIndex,
    Status,
    Fullscreen,
    Reload,
    NotFound,
}

impl View for Route {
    type V = RouteView;

    open spec fn view(&self) -> RouteView {
        match self {
            Route::Preflight => RouteView::Preflight,
            Route::Stream(id) => RouteView::Stream(id@),
            Route::ControlPage => RouteView::ControlPage,
            Route::Grid => RouteView::Grid,
            Route::Solo(i) => RouteView::Solo(*i as nat),
            Route::SoloIndexTooSmall => RouteView::SoloIndexTooSmall,
            Route::SoloInvalidIndex => RouteView::SoloInvalidIndex,
            Route::Status => RouteView::Status,
            Route::Fullscreen => RouteView::Fullscreen,
            Route::Reload => RouteView::Reload,
            Route::NotFound => RouteView::NotFound,
        }
    }
}

/// Routing by method and path, rule by rule in this order.
pub open spec fn route_spec(method: Seq<char>, path: Seq<char>) -> RouteView {
    if method == "OPTIONS"@ {
        RouteView::Preflight
    } else if has_prefix(path, "/camera/"@) && path.len() >= 7 && path.subrange(
        path.len() - 7,
        path.len() as int,
    ) == "/stream"@ {
        RouteView::Stream(stream_camera_id(path))
    } else if (path == "/"@ || path == "/control"@) && method == "GET"@ {
        RouteView::ControlPage
    } else if path == "/api/grid"@ {
        RouteView::Grid
    } else if has_prefix(path, "/api/solo/"@) {
        match parse_usize(path.subrange(10, path.len() as int)) {
            Some(i) => if i >= 1 {
                RouteView::Solo(i)
            } else {
                RouteView::SoloIndexTooSmall
            },
            None => RouteView::SoloInvalidIndex,
        }
    } else if path == "/api/status"@ {
        RouteView::Status
    } else if path == "/api/fullscreen"@ {
        RouteView::Fullscreen
    } else if path == "/api/reload"@ {
        RouteView::Reload
    } else {
        RouteView::NotFound
    }
}

fn is_ws_char(c: char) -> (r: bool)
    ensures
        r == is_ws(c),
{
    ('\u{9}' <= c && c <= '\u{d}') || c == ' ' || c == '\u{85}' || c == '\u{a0}' || c
        == '\u{1680}' || ('\u{2000}' <= c && c <= '\u{200a}') || c == '\u{2028}' || c
        == '\u{2029}' || c == '\u{202f}' || c == '\u{205f}' || c == '\u{3000}'
}

/// The first index in `from..end` that holds `c`, or `end`.
fn find_char(v: &Vec<char>, from: usize, end: usize, c: char) -> (r: usize)
    requires
        from <= end <= v@.len(),
    ensures
        from <= r <= end,
        forall|j: int| from <= j < r ==> v@[j] != c,
        r < end ==> v@[r as int] == c,
{
    let mut i = from;
    while i < end
        invariant
            from <= i <= end <= v@.len(),
            forall|j: int| from <= j < i ==> v@[j] != c,
        decreases end - i,
    {
        if v[i] == c {
            return i;
        }
        i = i + 1;
    }
    i
}

/// Where the first line of the request `cs` ends.
fn first_line_end(cs: &Vec<char>) -> (e: usize)
    ensures
        e <= cs@.len(),
        cs@.subrange(0, e as int) == first_line(cs@),
{
    let len = cs.len();
    let k = find_char(cs, 0, len, '\n');
    if k == len {
        assert(!exists|j: int| 0 <= j < cs@.len() && cs@[j] == '\n');
        assert(cs@.subrange(0, len as int) =~= cs@);
        return len;
    }
    proof {
        let req = cs@;
        let kk = choose|j: int|
            0 <= j < req.len() && req[j] == '\n' && forall|i: int| 0 <= i < j ==> req[i] != '\n';
        assert(0 <= k < req.len() && req[k as int] == '\n' && forall|i: int|
            0 <= i < k ==> req[i] != '\n');
        assert(kk == k) by {
            if kk < k {
                assert(req[kk] != '\n');
            } else if kk > k {
                assert(req[k as int] != '\n');
            }
        }
    }
    if k > 0 && cs[k - 1] == '\r' {
        assert(cs@.subrange(0, k as int).drop_last() =~= cs@.subrange(0, k - 1));
        k - 1
    } else {
        k
    }
}

fn skip_ws_exec(v: &Vec<char>, i: usize) -> (r: usize)
    requires
        i <= v@.len(),
    ensures
        r as int == skip_ws(v@, i as int),
        i <= r <= v@.len(),
{
    let mut j = i;
    while j < v.len() && is_ws_char(v[j])
        invariant
            i <= j <= v@.len(),
            skip_ws(v@, j as int) == skip_ws(v@, i as int),
        decreases v@.len() - j,
    {
        j = j + 1;
    }
    j
}

fn word_end_exec(v: &Vec<char>, i: usize) -> (r: usize)
    requires
        i <= v@.len(),
    ensures
        r as int == word_end(v@, i as int),
        i <= r <= v@.len(),
{
    let mut j = i;
    while j < v.len() && !is_ws_char(v[j])
        invariant
            i <= j <= v@.len(),
            word_end(v@, j as int) == word_end(v@, i as int),
        decreases v@.len() - j,
    {
        j = j + 1;
    }
    j
}

/// The characters `v[start..end]`.
fn copy_range(v: &Vec<char>, start: usize, end: usize) -> (r: Vec<char>)
    requires
        start <= end <= v@.len(),
    ensures
        r@ == v@.subrange(start as int, end as int),
{
    let mut out: Vec<char> = Vec::new();
    let mut i = start;
    while i < end
        invariant
            start <= i <= end <= v@.len(),
            out@ == v@.subrange(start as int, i as int),
        decreases end - i,
    {
        out.push(v[i]);
        assert(v@.subrange(start as int, i + 1) =~= v@.subrange(start as int, i as int).push(
            v@[i as int],
        ));
        i = i + 1;
    }
    out
}

proof fn lemma_digits_value_grows(d: Seq<char>, k: int)
    requires
        0 <= k <= d.len(),
    ensures
        digits_value(d.subrange(0, k)) <= digits_value(d),
    decreases d.len() - k,
{
    if k < d.len() {
        lemma_digits_value_grows(d, k + 1);
        let p = d.subrange(0, k + 1);
        assert(p.drop_last() =~= d.subrange(0, k));
    } else {
        assert(d.subrange(0, k) =~= d);
    }
}

/// Reads `v[start..]` as `usize::from_str` does.
fn parse_usize_chars(v: &Vec<char>, start: usize) -> (r: Option<usize>)
    requires
        start <= v@.len(),
    ensures
        match r {
            Some(n) => parse_usize(v@.subrange(start as int, v@.len() as int)) == Some(n as nat),
            None => parse_usize(v@.subrange(start as int, v@.len() as int)) is None,
        },
{
    let len = v.len();
    let ghost s = v@.subrange(start as int, len as int);
    let mut d_start = start;
    if start < len && v[start] == '+' {
        d_start = start + 1;
    }
    let ghost d = v@.subrange(d_start as int, len as int);
    assert(d =~= unsigned_digits(s));
    if d_start == len {
        return None;
    }
    let mut acc: usize = 0;
    let mut overflow = false;
    let mut i = d_start;
    while i < len
        invariant
            d_start <= i <= len == v@.len(),
            d == v@.subrange(d_start as int, len as int),
            s == v@.subrange(start as int, len as int),
            d == unsigned_digits(s),
            d.len() > 0,
            forall|j: int| d_start <= j < i ==> is_digit(v@[j]),
            !overflow ==> acc as nat == digits_value(v@.subrange(d_start as int, i as int)),
            overflow ==> digits_value(v@.subrange(d_start as int, i as int)) > usize::MAX,
        decreases len - i,
    {
        let c = v[i];
        if !('0' <= c && c <= '9') {
            let ghost w = i - d_start;
            assert(0 <= w < d.len() && d[w] == c);
            assert(!is_digit(d[w]));
            assert(exists|j: int| 0 <= j < d.len() && !is_digit(d[j]));
            assert(parse_usize(s) is None);
            return None;
        }
        let digit = (c as u32 - '0' as u32) as usize;
        proof {
            let p = v@.subrange(d_start as int, i + 1);
            assert(p.drop_last() =~= v@.subrange(d_start as int, i as int));
            assert(digits_value(p) == digits_value(v@.subrange(d_start as int, i as int)) * 10
                + digit);
        }
        if !overflow {
            match acc.checked_mul(10) {
                Some(m) => match m.checked_add(digit) {
                    Some(n) => {
                        acc = n;
                    },
                    None => {
                        overflow = true;
                    },
                },
                None => {
                    overflow = true;
                    assert(digits_value(v@.subrange(d_start as int, i as int)) * 10 + digit
                        > usize::MAX) by (nonlinear_arith)
                        requires
                            digits_value(v@.subrange(d_start as int, i as int)) * 10 > usize::MAX,
                    ;
                },
            }
        } else {
            assert(digits_value(v@.subrange(d_start as int, i as int)) * 10 + digit
                >= digits_value(v@.subrange(d_start as int, i as int))) by (nonlinear_arith);
        }
        i = i + 1;
    }
    assert(v@.subrange(d_start as int, len as int) =~= d);
    assert forall|j: int| 0 <= j < d.len() implies is_digit(d[j]) by {
        assert(d[j] == v@[d_start + j]);
    }
    if overflow {
        None
    } else {
        Some(acc)
    }
}

/// The method and path of a request, and where the path starts in it when
/// the request has one.
fn request_line(request: &str) -> (r: (Vec<char>, Vec<char>, Option<usize>))
    ensures
        r.0@ == request_method(request@),
        r.1@ == request_path(request@),
        match r.2 {
            Some(p) => p + r.1@.len() <= usize::MAX && p + r.1@.len() <= request@.len() && request@.subrange(
                p as int,
                p + r.1@.len(),
            ) == r.1@,
            None => r.1@ == "/"@,
        },
{
    let cs = chars_of(request);
    let e = first_line_end(&cs);
    let line = copy_range(&cs, 0, e);
    assert(line@ == first_line(request@));
    let b0 = skip_ws_exec(&line, 0);
    let e0 = word_end_exec(&line, b0);
    let method = if b0 < line.len() {
        copy_range(&line, b0, e0)
    } else {
        Vec::new()
    };
    assert(method@ =~= request_method(request@));
    let b1 = skip_ws_exec(&line, e0);
    let e1 = word_end_exec(&line, b1);
    if b1 < line.len() {
        let path = copy_range(&line, b1, e1);
        assert(request@.subrange(b1 as int, e1 as int) =~= path@);
        (method, path, Some(b1))
    } else {
        (method, chars_of("/"), None)
    }
}

proof fn lemma_stream_id(path: Seq<char>, k: int)
    requires
        8 <= k <= path.len(),
        forall|j: int| 8 <= j < k ==> path[j] != '/',
        k < path.len() ==> path[k] == '/',
    ensures
        stream_camera_id(path) == path.subrange(8, k),
{
    let rest = path.subrange(8, path.len() as int);
    if k < path.len() {
        let kk = choose|j: int|
            0 <= j < rest.len() && rest[j] == '/' && forall|i: int| 0 <= i < j ==> rest[i] != '/';
        assert(rest[k - 8] == '/');
        assert(kk == k - 8) by {
            if kk < k - 8 {
                assert(path[8 + kk] != '/');
            } else if kk > k - 8 {
                assert(rest[k - 8] != '/');
            }
        }
        assert(stream_camera_id(path) =~= path.subrange(8, k));
    } else {
        assert forall|j: int| 0 <= j < rest.len() implies rest[j] != '/' by {
            assert(rest[j] == path[8 + j]);
        }
        assert(stream_camera_id(path) =~= path.subrange(8, k));
    }
}

proof fn lemma_subrange_of_subrange(outer: Seq<char>, inner: Seq<char>, p: int, a: int, b: int)
    requires
        0 <= p,
        p + inner.len() <= outer.len(),
        outer.subrange(p, p + inner.len()) == inner,
        0 <= a <= b <= inner.len(),
    ensures
        outer.subrange(p + a, p + b) == inner.subrange(a, b),
{
    assert(outer.subrange(p + a, p + b) =~= inner.subrange(a, b)) by {
        assert forall|j: int| 0 <= j < b - a implies outer.subrange(p + a, p + b)[j] == inner.subrange(
            a,
            b,
        )[j] by {
            assert(inner[a + j] == outer.subrange(p, p + inner.len())[a + j]);
        }
    }
}

/// The camera id of a stream path, as [`stream_camera_id`] says; the path
/// starts at `p` in `request`.
fn stream_id(request: &str, path: &Vec<char>, p: usize) -> (r: String)
    requires
        path@.len() >= 8,
        p + path@.len() <= usize::MAX,
        p + path@.len() <= request@.len(),
        request@.subrange(p as int, p + path@.len()) == path@,
    ensures
        r@ == stream_camera_id(path@),
{
    let plen = path.len();
    let k = find_char(path, 8, plen, '/');
    proof {
        lemma_stream_id(path@, k as int);
        lemma_subrange_of_subrange(request@, path@, p as int, 8, k as int);
    }
    String::from_str(request.substring_char(p + 8, p + k))
}

/// Routes the request whose text is `request`, as [`route_spec`] says of its
/// method and path.
pub fn route(request: &str) -> (r: Route)
    ensures
        r@ == route_spec(request_method(request@), request_path(request@)),
{
    let (method, path, start) = request_line(request);
    let plen = path.len();
    let mlen = method.len();
    assert(method@.subrange(0, mlen as int) =~= method@);
    assert(path@.subrange(0, plen as int) =~= path@);
    if range_eq(&method, 0, mlen, "OPTIONS") {
        return Route::Preflight;
    }
    let is_stream = plen >= 8 && range_eq(&path, 0, 8, "/camera/") && range_eq(
        &path,
        plen - 7,
        plen,
        "/stream",
    );
    if is_stream {
        proof {
            reveal_strlit("/");
        }
        match start {
            Some(p) => {
                return Route::Stream(stream_id(request, &path, p));
            },
            None => {
                assert(false);
                return Route::NotFound;
            },
        }
    }
    assert(!is_stream ==> !(has_prefix(path@, "/camera/"@) && path@.len() >= 7 && path@.subrange(
        path@.len() - 7,
        path@.len() as int,
    ) == "/stream"@)) by {
        reveal_strlit("/camera/");
    }
    route_api(&method, &path)
}

/// Routes the control page and the `/api/` paths.
fn route_api(method: &Vec<char>, path: &Vec<char>) -> (r: Route)
    requires
        method@ != "OPTIONS"@,
        !(has_prefix(path@, "/camera/"@) && path@.len() >= 7 && path@.subrange(
            path@.len() - 7,
            path@.len() as int,
        ) == "/stream"@),
    ensures
        r@ == route_spec(method@, path@),
{
    let plen = path.len();
    let is_get = range_eq(method, 0, method.len(), "GET");
    assert(method@.subrange(0, method@.len() as int) =~= method@);
    assert(path@.subrange(0, plen as int) =~= path@);
    if (range_eq(path, 0, plen, "/") || range_eq(path, 0, plen, "/control")) && is_get {
        return Route::ControlPage;
    }
    if range_eq(path, 0, plen, "/api/grid") {
        return Route::Grid;
    }
    proof {
        reveal_strlit("/api/solo/");
    }
    if plen >= 10 && range_eq(path, 0, 10, "/api/solo/") {
        return match parse_usize_chars(path, 10) {
            Some(i) => if i >= 1 {
                Route::Solo(i)
            } else {
                Route::SoloIndexTooSmall
            },
            None => Route::SoloInvalidIndex,
        };
    }
    if range_eq(path, 0, plen, "/api/status") {
        return Route::Status;
    }
    if range_eq(path, 0, plen, "/api/fullscreen") {
        return Route::Fullscreen;
    }
    if range_eq(path, 0, plen, "/api/reload") {
        return Route::Reload;
    }
    Route::NotFound
}

/// The lowercase hexadecimal digit for `d` (0 to 15).
pub open spec fn hex_digit(d: int) -> char {
    if d < 10 {
        digit_char(d)
    } else if d == 10 {
        'a'
    } else if d == 11 {
        'b'
    } else if d == 12 {
        'c'
    } else if d == 13 {
        'd'
    } else if d == 14 {
        'e'
    } else {
        'f'
    }
}

/// How JSON writes one character of a string: `"` and `\` after a backslash,
/// the five short escapes, any other character below U+0020 as `\u00xx`, and
/// every other character as it is.
pub open spec fn json_char_escape(c: char) -> Seq<char> {
    if c == '"' {
        seq!['\\', '"']
    } else if c == '\\' {
        seq!['\\', '\\']
    } else if c == '\u{8}' {
        seq!['\\', 'b']
    } else if c == '\u{c}' {
        seq!['\\', 'f']
    } else if c == '\n' {
        seq!['\\', 'n']
    } else if c == '\r' {
        seq!['\\', 'r']
    } else if c == '\t' {
        seq!['\\', 't']
    } else if (c as u32) < 32 {
        seq!['\\', 'u', '0', '0', hex_digit((c as u32 / 16) as int), hex_digit((c as u32 % 16) as int)]
    } else {
        seq![c]
    }
}

/// The characters of `s`, each written as [`json_char_escape`] says.
pub open spec fn json_escape(s: Seq<char>) -> Seq<char>
    decreases s.len(),
{
    if s.len() == 0 {
        seq![]
    } else {
        json_escape(s.drop_last()) + json_char_escape(s.last())
    }
}

/// A text that JSON writes as it is: no `"`, no `\\` and no character below
/// U+0020.
pub open spec fn json_plain(s: Seq<char>) -> bool {
    forall|i: int| 0 <= i < s.len() ==> s[i] != '"' && s[i] != '\\' && (s[i] as u32) >= 32
}

/// The text between double quotes.
pub open spec fn in_quotes(s: Seq<char>) -> Seq<char> {
    "\""@ + s + "\""@
}

/// The compact JSON text of a string value: escaped and quoted.
pub open spec fn json_quoted(s: Seq<char>) -> Seq<char> {
    in_quotes(json_escape(s))
}

/// A plain text is written as it is.
pub proof fn lemma_plain_text_unescaped(s: Seq<char>)
    requires
        json_plain(s),
    ensures
        json_escape(s) == s,
        json_quoted(s) == in_quotes(s),
    decreases s.len(),
{
    if s.len() > 0 {
        let p = s.drop_last();
        assert(json_plain(p)) by {
            assert forall|i: int| 0 <= i < p.len() implies p[i] != '"' && p[i] != '\\' && (
            p[i] as u32) >= 32 by {
                assert(p[i] == s[i]);
            }
        }
        lemma_plain_text_unescaped(p);
        let c = s.last();
        assert(c == s[s.len() - 1]);
        assert(c != '\u{8}' && c != '\u{c}' && c != '\n' && c != '\r' && c != '\t');
        assert(json_char_escape(c) == seq![c]);
        assert(p + seq![c] =~= s);
    }
}

/// Relies on `serde_json::Value::String` and its `Display` (through
/// `format_escaped_str`): the compact JSON text of the string value `s`,
/// escaped character by character as its escape table says, between quotes.
#[verifier::external_body]
fn json_string(s: &str) -> (r: String)
    ensures
        r@ == json_quoted(s@),
{
    serde_json::Value::String(s.to_string()).to_string()
}

/// A complete JSON response with status line `status` and body `body`.
pub open spec fn json_response_text(status: Seq<char>, body: Seq<char>) -> Seq<char> {
    "HTTP/1.1 "@ + status
        + "\r\nContent-Type: application/json\r\nAccess-Control-Allow-Origin: *\r\nContent-Length: "@
        + decimal(encode_utf8(body).len()) + "\r\nConnection: close\r\n\r\n"@ + body
}

/// Frames `body` as a JSON response with status `status` (such as `200 OK`).
pub fn json_response(status: &str, body: &str) -> (r: String)
    ensures
        r@ == json_response_text(status@, body@),
{
    let mut s = String::from_str("HTTP/1.1 ");
    s.append(status);
    s.append("\r\nContent-Type: application/json\r\nAccess-Control-Allow-Origin: *\r\nContent-Length: ");
    let n = body.as_bytes().len();
    s.append(decimal_string(n as u64).as_str());
    s.append("\r\nConnection: close\r\n\r\n");
    s.append(body);
    s
}

/// The answer to a CORS preflight.
pub fn preflight_response() -> (r: String)
    ensures
        r@ == "HTTP/1.1 204 No Content\r\nAccess-Control-Allow-Origin: *\r\nAccess-Control-Allow-Methods: GET, OPTIONS\r\nAccess-Control-Allow-Headers: Content-Type\r\nAccess-Control-Max-Age: 86400\r\nContent-Length: 0\r\nConnection: close\r\n\r\n"@,
{
    String::from_str(
        "HTTP/1.1 204 No Content\r\nAccess-Control-Allow-Origin: *\r\nAccess-Control-Allow-Methods: GET, OPTIONS\r\nAccess-Control-Allow-Headers: Content-Type\r\nAccess-Control-Max-Age: 86400\r\nContent-Length: 0\r\nConnection: close\r\n\r\n",
    )
}

/// The response head of a live fragmented-MP4 stream.
pub fn fmp4_stream_head() -> (r: String)
    ensures
        r@ == "HTTP/1.1 200 OK\r\nContent-Type: video/mp4\r\nAccess-Control-Allow-Origin: *\r\nCache-Control: no-cache, no-store, must-revalidate\r\nPragma: no-cache\r\nConnection: close\r\n\r\n"@,
{
    String::from_str(
        "HTTP/1.1 200 OK\r\nContent-Type: video/mp4\r\nAccess-Control-Allow-Origin: *\r\nCache-Control: no-cache, no-store, must-revalidate\r\nPragma: no-cache\r\nConnection: close\r\n\r\n",
    )
}

/// The response head of a live MJPEG stream.
pub fn mjpeg_stream_head() -> (r: String)
    ensures
        r@ == "HTTP/1.1 200 OK\r\nContent-Type: multipart/x-mixed-replace; boundary=frame\r\nAccess-Control-Allow-Origin: *\r\nCache-Control: no-cache, no-store, must-revalidate\r\nPragma: no-cache\r\nConnection: close\r\n\r\n"@,
{
    String::from_str(
        "HTTP/1.1 200 OK\r\nContent-Type: multipart/x-mixed-replace; boundary=frame\r\nAccess-Control-Allow-Origin: *\r\nCache-Control: no-cache, no-store, must-revalidate\r\nPragma: no-cache\r\nConnection: close\r\n\r\n",
    )
}

/// The response head of the control page, whose HTML is `html_len` bytes long.
pub fn control_page_head(html_len: usize) -> (r: String)
    ensures
        r@ == "HTTP/1.1 200 OK\r\nContent-Type: text/html; charset=utf-8\r\nAccess-Control-Allow-Origin: *\r\nContent-Length: "@
            + decimal(html_len as nat) + "\r\nConnection: close\r\n\r\n"@,
{
    let mut s = String::from_str(
        "HTTP/1.1 200 OK\r\nContent-Type: text/html; charset=utf-8\r\nAccess-Control-Allow-Origin: *\r\nContent-Length: ",
    );
    s.append(decimal_string(html_len as u64).as_str());
    s.append("\r\nConnection: close\r\n\r\n");
    s
}

/// The header of one JPEG part of an MJPEG stream, `len` bytes long.
pub open spec fn mjpeg_part_head(len: nat) -> Seq<char> {
    "--frame\r\nContent-Type: image/jpeg\r\nContent-Length: "@ + decimal(len) + "\r\n\r\n"@
}

/// One part of an MJPEG stream: its header, the JPEG bytes, and a line end,
/// in one buffer so that it is written at once.
pub fn mjpeg_part(frame: &[u8]) -> (r: Vec<u8>)
    ensures
        r@ == encode_utf8(mjpeg_part_head(frame@.len() as nat)) + frame@ + encode_utf8("\r\n"@),
{
    let mut head = String::from_str("--frame\r\nContent-Type: image/jpeg\r\nContent-Length: ");
    head.append(decimal_string(frame.len() as u64).as_str());
    head.append("\r\n\r\n");
    let mut out = head.as_str().as_bytes_vec();
    let ghost h = out@;
    let mut i: usize = 0;
    while i < frame.len()
        invariant
            i <= frame@.len(),
            out@ == h + frame@.subrange(0, i as int),
        decreases frame@.len() - i,
    {
        out.push(frame[i]);
        assert(frame@.subrange(0, i + 1) =~= frame@.subrange(0, i as int).push(frame@[i as int]));
        assert(h + frame@.subrange(0, i + 1) =~= (h + frame@.subrange(0, i as int)).push(
            frame@[i as int],
        ));
        i = i + 1;
    }
    assert(frame@.subrange(0, frame@.len() as int) =~= frame@);
    let mut tail = "\r\n".as_bytes_vec();
    out.append(&mut tail);
    out
}

/// The body after `/api/grid`.
pub fn grid_body() -> (r: String)
    ensures
        r@ == "{\"ok\":true,\"action\":\"grid\"}"@,
{
    String::from_str("{\"ok\":true,\"action\":\"grid\"}")
}

/// The body after `/api/solo/{index}`.
pub fn solo_body(index: usize) -> (r: String)
    ensures
        r@ == "{\"ok\":true,\"action\":\"solo\",\"index\":"@ + decimal(index as nat) + "}"@,
{
    let mut s = String::from_str("{\"ok\":true,\"action\":\"solo\",\"index\":");
    s.append(decimal_string(index as u64).as_str());
    s.append("}");
    s
}

/// The body of a rejected solo index: too small (zero), or no index at all.
pub fn solo_error_body(too_small: bool) -> (r: String)
    ensures
        too_small ==> r@ == "{\"ok\":false,\"error\":\"index must be >= 1\"}"@,
        !too_small ==> r@ == "{\"ok\":false,\"error\":\"invalid index\"}"@,
{
    if too_small {
        String::from_str("{\"ok\":false,\"error\":\"index must be >= 1\"}")
    } else {
        String::from_str("{\"ok\":false,\"error\":\"invalid index\"}")
    }
}

/// The body of an unknown endpoint, listing the known ones.
pub fn not_found_body() -> (r: String)
    ensures
        r@ == "{\"ok\":false,\"error\":\"unknown endpoint\",\"endpoints\":[\"/\",\"/api/solo/:index\",\"/api/grid\",\"/api/status\",\"/api/fullscreen\",\"/api/reload\"]}"@,
{
    String::from_str(
        "{\"ok\":false,\"error\":\"unknown endpoint\",\"endpoints\":[\"/\",\"/api/solo/:index\",\"/api/grid\",\"/api/status\",\"/api/fullscreen\",\"/api/reload\"]}",
    )
}

/// The body after toggling fullscreen: whether it was `entered` or `exited`.
pub fn fullscreen_body(entered: bool) -> (r: String)
    ensures
        entered ==> r@ == "{\"action\":\"fullscreen\",\"ok\":true,\"state\":\"entered\"}"@,
        !entered ==> r@ == "{\"action\":\"fullscreen\",\"ok\":true,\"state\":\"exited\"}"@,
{
    if entered {
        String::from_str("{\"action\":\"fullscreen\",\"ok\":true,\"state\":\"entered\"}")
    } else {
        String::from_str("{\"action\":\"fullscreen\",\"ok\":true,\"state\":\"exited\"}")
    }
}

/// The body after a reload.
pub fn reload_body() -> (r: String)
    ensures
        r@ == "{\"action\":\"reload\",\"ok\":true}"@,
{
    String::from_str("{\"action\":\"reload\",\"ok\":true}")
}

/// The body of an action that failed with the already-quoted message `quoted`.
pub fn error_body_quoted(quoted: &str) -> (r: String)
    ensures
        r@ == "{\"error\":"@ + quoted@ + ",\"ok\":false}"@,
{
    let mut s = String::from_str("{\"error\":");
    s.append(quoted);
    s.append(",\"ok\":false}");
    s
}

/// The body of an action that failed with `message`.
pub fn error_body(message: &str) -> (r: String)
    ensures
        r@ == "{\"error\":"@ + json_quoted(message@) + ",\"ok\":false}"@,
        json_plain(message@) ==> r@ == "{\"error\":"@ + in_quotes(message@) + ",\"ok\":false}"@,
{
    proof {
        if json_plain(message@) {
            lemma_plain_text_unescaped(message@);
        }
    }
    let q = json_string(message);
    error_body_quoted(q.as_str())
}

/// One camera of the status list: its 1-based `index` and its quoted id and name.
pub open spec fn camera_entry_json(index: nat, qid: Seq<char>, qname: Seq<char>) -> Seq<char> {
    "{\"id\":"@ + qid + ",\"index\":"@ + decimal(index) + ",\"name\":"@ + qname + "}"@
}

/// The cameras of the status list, comma-separated, numbered from 1.
pub open spec fn camera_list_json(qs: Seq<(Seq<char>, Seq<char>)>) -> Seq<char>
    decreases qs.len(),
{
    if qs.len() == 0 {
        seq![]
    } else if qs.len() == 1 {
        camera_entry_json(1, qs[0].0, qs[0].1)
    } else {
        camera_list_json(qs.drop_last()) + ","@ + camera_entry_json(
            qs.len(),
            qs.last().0,
            qs.last().1,
        )
    }
}

/// The status body over cameras whose ids and names are already quoted.
pub open spec fn status_json(qs: Seq<(Seq<char>, Seq<char>)>) -> Seq<char> {
    "{\"cameras\":["@ + camera_list_json(qs) + "],\"ok\":true}"@
}

/// The quoted id and name of each camera.
pub open spec fn quoted_cameras(cs: Seq<Camera>) -> Seq<(Seq<char>, Seq<char>)> {
    cs.map_values(|c: Camera| (json_quoted(c.id@), json_quoted(c.name@)))
}

/// The body after `/api/status`, given each camera's quoted id and name.
pub fn status_body_quoted(quoted: &Vec<(String, String)>) -> (r: String)
    requires
        quoted@.len() < usize::MAX,
    ensures
        r@ == status_json(quoted@.map_values(|q: (String, String)| (q.0@, q.1@))),
{
    let ghost qs = quoted@.map_values(|q: (String, String)| (q.0@, q.1@));
    let mut list = String::new();
    let mut i: usize = 0;
    while i < quoted.len()
        invariant
            i <= quoted@.len() < usize::MAX,
            qs == quoted@.map_values(|q: (String, String)| (q.0@, q.1@)),
            list@ == camera_list_json(qs.subrange(0, i as int)),
        decreases quoted@.len() - i,
    {
        let ghost before = list@;
        if i > 0 {
            list.append(",");
        }
        list.append("{\"id\":");
        list.append(quoted[i].0.as_str());
        list.append(",\"index\":");
        list.append(decimal_string((i + 1) as u64).as_str());
        list.append(",\"name\":");
        list.append(quoted[i].1.as_str());
        list.append("}");
        proof {
            let p = qs.subrange(0, i + 1);
            assert(p.drop_last() =~= qs.subrange(0, i as int));
            assert(p.last() == qs[i as int]);
            if i == 0 {
                assert(p[0] == qs[0]);
            }
            assert(list@ =~= camera_list_json(p));
        }
        i = i + 1;
    }
    assert(qs.subrange(0, quoted@.len() as int) =~= qs);
    let mut s = String::from_str("{\"cameras\":[");
    s.append(list.as_str());
    s.append("],\"ok\":true}");
    s
}

/// The id and name of each camera in quotes, as JSON writes them when they
/// need no escaping.
pub open spec fn plain_cameras(cs: Seq<Camera>) -> Seq<(Seq<char>, Seq<char>)> {
    cs.map_values(|c: Camera| (in_quotes(c.id@), in_quotes(c.name@)))
}

/// The body after `/api/status`: every camera with its 1-based index, id and name.
pub fn status_body(cameras: &Vec<Camera>) -> (r: String)
    requires
        cameras@.len() < usize::MAX,
    ensures
        r@ == status_json(quoted_cameras(cameras@)),
        (forall|i: int|
            0 <= i < cameras@.len() ==> json_plain(cameras@[i].id@) && json_plain(
                cameras@[i].name@,
            )) ==> r@ == status_json(plain_cameras(cameras@)),
{
    let mut quoted: Vec<(String, String)> = Vec::new();
    let mut i: usize = 0;
    while i < cameras.len()
        invariant
            i <= cameras@.len(),
            quoted@.map_values(|q: (String, String)| (q.0@, q.1@)) =~= quoted_cameras(
                cameras@.subrange(0, i as int),
            ),
        decreases cameras@.len() - i,
    {
        let id = json_string(cameras[i].id.as_str());
        let name = json_string(cameras[i].name.as_str());
        let ghost before = quoted@;
        let ghost entry = (id@, name@);
        quoted.push((id, name));
        proof {
            assert(quoted@.map_values(|q: (String, String)| (q.0@, q.1@)) =~= before.map_values(
                |q: (String, String)| (q.0@, q.1@),
            ).push(entry));
            assert(cameras@.subrange(0, i + 1) =~= cameras@.subrange(0, i as int).push(
                cameras@[i as int],
            ));
        }
        i = i + 1;
    }
    assert(cameras@.subrange(0, cameras@.len() as int) =~= cameras@);
    proof {
        if forall|i: int|
            0 <= i < cameras@.len() ==> json_plain(cameras@[i].id@) && json_plain(
                cameras@[i].name@,
            ) {
            assert forall|j: int| 0 <= j < cameras@.len() implies quoted_cameras(cameras@)[j]
                == plain_cameras(cameras@)[j] by {
                lemma_plain_text_unescaped(cameras@[j].id@);
                lemma_plain_text_unescaped(cameras@[j].name@);
            }
            assert(quoted_cameras(cameras@) =~= plain_cameras(cameras@));
        }
    }
    status_body_quoted(&quoted)
}

/// The status line and body of a route that is answered without outside
/// work: the grid and solo commands, rejected solo indexes, unknown paths.
/// `None` for the routes that need the engine, the window or a stream.
pub fn fixed_response(route: &Route) -> (r: Option<(String, String)>)
    ensures
        match route@ {
            RouteView::Grid => r is Some && r->Some_0.0@ == "200 OK"@ && r->Some_0.1@
                == "{\"ok\":true,\"action\":\"grid\"}"@,
            RouteView::Solo(i) => r is Some && r->Some_0.0@ == "200 OK"@ && r->Some_0.1@
                == "{\"ok\":true,\"action\":\"solo\",\"index\":"@ + decimal(i) + "}"@,
            RouteView::SoloIndexTooSmall => r is Some && r->Some_0.0@ == "400 Bad Request"@
                && r->Some_0.1@ == "{\"ok\":false,\"error\":\"index must be >= 1\"}"@,
            RouteView::SoloInvalidIndex => r is Some && r->Some_0.0@ == "400 Bad Request"@
                && r->Some_0.1@ == "{\"ok\":false,\"error\":\"invalid index\"}"@,
            RouteView::NotFound => r is Some && r->Some_0.0@ == "404 Not Found"@ && r->Some_0.1@
                == "{\"ok\":false,\"error\":\"unknown endpoint\",\"endpoints\":[\"/\",\"/api/solo/:index\",\"/api/grid\",\"/api/status\",\"/api/fullscreen\",\"/api/reload\"]}"@,
            _ => r is None,
        },
{
    match route {
        Route::Grid => Some((String::from_str("200 OK"), grid_body())),
        Route::Solo(i) => Some((String::from_str("200 OK"), solo_body(*i))),
        Route::SoloIndexTooSmall => Some((String::from_str("400 Bad Request"), solo_error_body(true))),
        Route::SoloInvalidIndex => Some((String::from_str("400 Bad Request"), solo_error_body(false))),
        Route::NotFound => Some((String::from_str("404 Not Found"), not_found_body())),
        _ => None,
    }
}

/// The status line and body after an action done outside (status, fullscreen,
/// reload): its body when it succeeded, else an error body with its message.
pub fn action_response(result: Result<String, String>) -> (r: (String, String))
    ensures
        match result {
            Ok(body) => r.0@ == "200 OK"@ && r.1@ == body@,
            Err(e) => r.0@ == "500 Internal Server Error"@ && r.1@ == "{\"error\":"@
                + json_quoted(e@) + ",\"ok\":false}"@,
        },
{
    match result {
        Ok(body) => (String::from_str("200 OK"), body),
        Err(e) => (String::from_str("500 Internal Server Error"), error_body(e.as_str())),
    }
}

/// The command a route sends to the user interface (`remote-command`): `grid`,
/// or `solo` with the 1-based index; `None` for the other routes.
pub fn remote_command(route: &Route) -> (r: Option<(String, Option<usize>)>)
    ensures
        match route@ {
            RouteView::Grid => r is Some && r->Some_0.0@ == "grid"@ && r->Some_0.1 is None,
            RouteView::Solo(i) => r is Some && r->Some_0.0@ == "solo"@ && r->Some_0.1 is Some
                && r->Some_0.1->Some_0 as nat == i,
            _ => r is None,
        },
{
    match route {
        Route::Grid => Some((String::from_str("grid"), None)),
        Route::Solo(i) => Some((String::from_str("solo"), Some(*i))),
        _ => None,
    }
}

} // verus!
