use vstd::prelude::*;

use crate::mime::bytes_eq;
use crate::path::{
    all_names, join_names, SLASH, join_under, lemma_resolved_path_stays_under_root, names_view,
    path_segments, resolved_segments,
};
use crate::response::{create_error_response, is_error_response, Response, METHOD_NOT_ALLOWED, NOT_FOUND};
use crate::script::{pairs_view, script_env_spec, script_environment};

verus! {

/// The request methods that the server tells apart.
#[derive(Clone, Copy, Debug, PartialEq, Eq, Structural)]
pub enum Method {
    Get,
    Post,
    Other,
}

/// The method token `GET`.
pub open spec fn get_token() -> Seq<u8> {
    seq![71u8, 69, 84]
}

/// The method token `POST`.
pub open spec fn post_token() -> Seq<u8> {
    seq![80u8, 79, 83, 84]
}

/// The method that a request-line token names, matched case-sensitively.
pub open spec fn method_of(token: Seq<u8>) -> Method {
    if token == get_token() {
        Method::Get
    } else if token == post_token() {
        Method::Post
    } else {
        Method::Other
    }
}

/// The method that the request-line token `token` names.
pub fn parse_method(token: &[u8]) -> (r: Method)
    ensures
        r == method_of(token@),
{
    let get: [u8; 3] = [71, 69, 84];
    let post: [u8; 4] = [80, 79, 83, 84];
    assert(get@ =~= get_token());
    assert(post@ =~= post_token());
    if bytes_eq(token, get.as_slice()) {
        Method::Get
    } else if bytes_eq(token, post.as_slice()) {
        Method::Post
    } else {
        Method::Other
    }
}

/// One parsed request: the method token, the raw path (with its leading
/// slash, not percent-decoded) and the headers in the order they came.
#[derive(Clone, Debug)]
pub struct Request {
    pub method: Vec<u8>,
    pub path: Vec<u8>,
    pub headers: Vec<(Vec<u8>, Vec<u8>)>,
}

/// The two startup parameters, fixed once the server runs.
#[derive(Clone, Debug)]
pub struct ServerConfig {
    pub port: u16,
    pub root: Vec<u8>,
}

/// What handling a request comes to: a response ready to write, a file or
/// directory to read and answer with, or a script to run.
#[derive(Clone, Debug)]
pub enum Action {
    Respond(Response),
    ServeStatic { path: Vec<u8> },
    RunScript { path: Vec<u8>, env: Vec<(Vec<u8>, Vec<u8>)> },
}

/// The directory name `scripts`.
pub open spec fn scripts_name() -> Seq<u8> {
    seq![115u8, 99, 114, 105, 112, 116, 115]
}

/// Names that lead to an entry inside the `scripts` directory of the root.
pub open spec fn is_script_route(names: Seq<Seq<u8>>) -> bool {
    names.len() >= 2 && names[0] == scripts_name()
}

/// What a request comes to under `root`.
pub open spec fn action_matches(r: Action, root: Seq<u8>, request: Request) -> bool {
    let path = request.path@;
    match method_of(request.method@) {
        Method::Other => r matches Action::Respond(resp) && is_error_response(
            resp,
            METHOD_NOT_ALLOWED,
        ),
        Method::Get => match resolved_segments(path) {
            None => r matches Action::Respond(resp) && is_error_response(resp, NOT_FOUND),
            Some(names) => r matches Action::ServeStatic { path: p } && p@ == join_under(
                root,
                names,
            ),
        },
        Method::Post => match resolved_segments(path) {
            Some(names) => if is_script_route(names) {
                &&& r matches Action::RunScript { path: p, env } && p@ == join_under(root, names)
                    && pairs_view(env@) == script_env_spec(
                    request.method@,
                    path,
                    pairs_view(request.headers@),
                )
            } else {
                r matches Action::Respond(resp) && is_error_response(resp, NOT_FOUND)
            },
            None => r matches Action::Respond(resp) && is_error_response(resp, NOT_FOUND),
        },
    }
}

/// Whether `names` start with `scripts` and go on below it.
fn is_script_names(names: &Vec<Vec<u8>>) -> (r: bool)
    ensures
        r == is_script_route(names_view(names@)),
{
    let scripts: [u8; 7] = [115, 99, 114, 105, 112, 116, 115];
    assert(scripts@ =~= scripts_name());
    names.len() >= 2 && bytes_eq(names[0].as_slice(), scripts.as_slice())
}

/// Routes one request under the server's root: GET reads the resolved
/// path, POST runs a script under `scripts/`, and everything else is
/// answered at once (405 for other methods, 404 for a POST outside
/// `scripts/` or a path that climbs above the root). No file is looked at
/// to decide this.
pub fn handle_request(config: &ServerConfig, request: &Request) -> (r: Action)
    ensures
        action_matches(r, config.root@, *request),
{
    let method = parse_method(request.method.as_slice());
    match method {
        Method::Other => Action::Respond(create_error_response(METHOD_NOT_ALLOWED)),
        Method::Get => match path_segments(request.path.as_slice()) {
            None => Action::Respond(create_error_response(NOT_FOUND)),
            Some(names) => Action::ServeStatic { path: join_names(config.root.as_slice(), &names) },
        },
        Method::Post => match path_segments(request.path.as_slice()) {
            None => Action::Respond(create_error_response(NOT_FOUND)),
            Some(names) => {
                if is_script_names(&names) {
                    let path = join_names(config.root.as_slice(), &names);
                    let env = script_environment(
                        request.method.as_slice(),
                        request.path.as_slice(),
                        &request.headers,
                    );
                    Action::RunScript { path, env }
                } else {
                    Action::Respond(create_error_response(NOT_FOUND))
                }
            },
        },
    }
}

/// The byte ` `.
pub const SPACE: u8 = 32;

/// The index of the first `b` in `s`, or -1 when there is none.
pub open spec fn first_index_of(s: Seq<u8>, b: u8) -> int
    decreases s.len(),
{
    if s.len() == 0 {
        -1
    } else if s[0] == b {
        0
    } else if first_index_of(s.drop_first(), b) < 0 {
        -1
    } else {
        first_index_of(s.drop_first(), b) + 1
    }
}

/// The method and target tokens of a request line `method SP target SP
/// version`: the method not empty, the target starting with a slash, the
/// version not empty, and no further space. `None` for anything else.
pub open spec fn request_line_spec(line: Seq<u8>) -> Option<(Seq<u8>, Seq<u8>)> {
    let i = first_index_of(line, SPACE);
    let rest = line.subrange(i + 1, line.len() as int);
    let j = first_index_of(rest, SPACE);
    let target = rest.subrange(0, j);
    let version = rest.subrange(j + 1, rest.len() as int);
    if i > 0 && j > 0 && target[0] == SLASH && version.len() > 0 && !version.contains(SPACE) {
        Some((line.subrange(0, i), target))
    } else {
        None
    }
}

proof fn lemma_first_index_from(s: Seq<u8>, b: u8, i: int)
    requires
        0 <= i <= s.len(),
        forall|j: int| 0 <= j < i ==> s[j] != b,
    ensures
        first_index_of(s, b) == (if first_index_of(s.subrange(i, s.len() as int), b) < 0 {
            -1
        } else {
            first_index_of(s.subrange(i, s.len() as int), b) + i
        }),
    decreases i,
{
    if i > 0 {
        let d = s.drop_first();
        assert(d.subrange(i - 1, d.len() as int) =~= s.subrange(i, s.len() as int));
        lemma_first_index_from(d, b, i - 1);
    } else {
        assert(s.subrange(0, s.len() as int) =~= s);
        lemma_first_index_range(s, b);
    }
}

proof fn lemma_first_index_range(s: Seq<u8>, b: u8)
    ensures
        -1 <= first_index_of(s, b) < s.len(),
        first_index_of(s, b) >= 0 ==> s[first_index_of(s, b)] == b,
        first_index_of(s, b) < 0 ==> !s.contains(b),
    decreases s.len(),
{
    if s.len() > 0 {
        lemma_first_index_range(s.drop_first(), b);
        if first_index_of(s, b) < 0 {
            assert forall|k: int| 0 <= k < s.len() implies s[k] != b by {
                if k > 0 {
                    assert(s[k] == s.drop_first()[k - 1]);
                }
            }
        }
    }
}

/// The index of the first `b` in `s`, if any.
pub fn find_first(s: &[u8], b: u8) -> (r: Option<usize>)
    ensures
        match r {
            None => first_index_of(s@, b) == -1,
            Some(k) => first_index_of(s@, b) == k as int,
        },
{
    let mut i: usize = 0;
    while i < s.len()
        invariant
            0 <= i <= s@.len(),
            forall|j: int| 0 <= j < i ==> s@[j] != b,
        decreases s@.len() - i,
    {
        if s[i] == b {
            proof {
                lemma_first_index_from(s@, b, i as int);
                assert(s@.subrange(i as int, s@.len() as int)[0] == b);
            }
            return Some(i);
        }
        i = i + 1;
    }
    proof {
        lemma_first_index_from(s@, b, i as int);
    }
    None
}

/// The method and target of the request line `line` (without its line
/// ending), or `None` when it is malformed and the request is answered
/// with 400.
pub fn parse_request_line(line: &[u8]) -> (r: Option<(Vec<u8>, Vec<u8>)>)
    ensures
        match r {
            None => request_line_spec(line@) is None,
            Some((m, t)) => request_line_spec(line@) == Some((m@, t@)),
        },
{
    let n: usize = line.len();
    proof {
        lemma_first_index_range(line@, SPACE);
    }
    let i = match find_first(line, SPACE) {
        None => {
            return None;
        },
        Some(i) => i,
    };
    if i == 0 {
        return None;
    }
    let rest = vstd::slice::slice_subrange(line, i + 1, n);
    proof {
        lemma_first_index_range(rest@, SPACE);
    }
    let j = match find_first(rest, SPACE) {
        None => {
            return None;
        },
        Some(j) => j,
    };
    if j == 0 {
        return None;
    }
    let target = vstd::slice::slice_subrange(rest, 0, j);
    let version = vstd::slice::slice_subrange(rest, j + 1, rest.len());
    proof {
        lemma_first_index_range(version@, SPACE);
    }
    if target[0] != SLASH || version.len() == 0 {
        return None;
    }
    match find_first(version, SPACE) {
        Some(_) => {
            proof {
                lemma_first_index_range(version@, SPACE);
            }
            None
        },
        None => {
            let method = vstd::slice::slice_subrange(line, 0, i);
            Some((vstd::slice::slice_to_vec(method), vstd::slice::slice_to_vec(target)))
        },
    }
}

/// Every path that routing hands on, to read or to run, is the root
/// followed by names alone: no request reaches outside the root by `..`,
/// `.` or extra slashes.
pub proof fn lemma_routed_paths_stay_under_root(root: Seq<u8>, request: Request, r: Action)
    requires
        action_matches(r, root, request),
    ensures
        match r {
            Action::Respond(_) => true,
            Action::ServeStatic { path } | Action::RunScript { path, .. } => {
                let names = resolved_segments(request.path@)->0;
                &&& resolved_segments(request.path@) is Some
                &&& all_names(names)
                &&& path@ == join_under(root, names)
                &&& path@.len() >= root.len()
                &&& path@.subrange(0, root.len() as int) == root
            },
        },
{
    lemma_resolved_path_stays_under_root(root, request.path@);
}

} // verus!
