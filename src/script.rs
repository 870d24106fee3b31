use vstd::prelude::*;

use crate::mime::ContentType;
use crate::response::{
    create_error_response, is_error_response, Body, Response, INTERNAL_SERVER_ERROR, NOT_FOUND,
    OK,
};

verus! {

/// A space or a horizontal tab, the whitespace that may surround a header value.
pub open spec fn is_blank(b: u8) -> bool {
    b == 32 || b == 9
}

/// `s` without its leading blanks.
pub open spec fn trim_start(s: Seq<u8>) -> Seq<u8>
    decreases s.len(),
{
    if s.len() > 0 && is_blank(s[0]) {
        trim_start(s.drop_first())
    } else {
        s
    }
}

/// `s` without its trailing blanks.
pub open spec fn trim_end(s: Seq<u8>) -> Seq<u8>
    decreases s.len(),
{
    if s.len() > 0 && is_blank(s.last()) {
        trim_end(s.drop_last())
    } else {
        s
    }
}

/// `s` without blanks at either end.
pub open spec fn trim(s: Seq<u8>) -> Seq<u8> {
    trim_end(trim_start(s))
}

/// The variable name `Method`.
pub open spec fn method_key() -> Seq<u8> {
    seq![77u8, 101, 116, 104, 111, 100]
}

/// The variable name `Path`.
pub open spec fn path_key() -> Seq<u8> {
    seq![80u8, 97, 116, 104]
}

/// The name and value bytes of each pair.
pub open spec fn pairs_view(v: Seq<(Vec<u8>, Vec<u8>)>) -> Seq<(Seq<u8>, Seq<u8>)> {
    v.map_values(|e: (Vec<u8>, Vec<u8>)| (e.0@, e.1@))
}

/// The environment of a script, in the order it is applied: `Method` and
/// `Path` first, then one entry per header, named as the header, with its
/// value trimmed.
pub open spec fn script_env_spec(
    method: Seq<u8>,
    path: Seq<u8>,
    headers: Seq<(Seq<u8>, Seq<u8>)>,
) -> Seq<(Seq<u8>, Seq<u8>)> {
    seq![(method_key(), method), (path_key(), path)] + headers.map_values(
        |h: (Seq<u8>, Seq<u8>)| (h.0, trim(h.1)),
    )
}

/// The value that a variable ends up with once `entries` are applied in
/// order: a later entry of the same name replaces an earlier one.
pub open spec fn env_value(entries: Seq<(Seq<u8>, Seq<u8>)>, key: Seq<u8>) -> Option<Seq<u8>>
    decreases entries.len(),
{
    if entries.len() == 0 {
        None
    } else if entries.last().0 == key {
        Some(entries.last().1)
    } else {
        env_value(entries.drop_last(), key)
    }
}

proof fn lemma_trim_start_skip(s: Seq<u8>, i: int)
    requires
        0 <= i <= s.len(),
        forall|j: int| 0 <= j < i ==> is_blank(s[j]),
    ensures
        trim_start(s) == trim_start(s.subrange(i, s.len() as int)),
    decreases i,
{
    if i > 0 {
        assert(s.drop_first().subrange(i - 1, s.drop_first().len() as int) =~= s.subrange(
            i,
            s.len() as int,
        ));
        lemma_trim_start_skip(s.drop_first(), i - 1);
    } else {
        assert(s.subrange(0, s.len() as int) =~= s);
    }
}

proof fn lemma_trim_end_cut(s: Seq<u8>, k: int)
    requires
        0 <= k <= s.len(),
        forall|j: int| k <= j < s.len() ==> is_blank(s[j]),
    ensures
        trim_end(s) == trim_end(s.subrange(0, k)),
    decreases s.len() - k,
{
    if k < s.len() {
        assert(s.drop_last().subrange(0, k) =~= s.subrange(0, k));
        lemma_trim_end_cut(s.drop_last(), k);
    } else {
        assert(s.subrange(0, k) =~= s);
    }
}

/// `s` without spaces or tabs at either end.
pub fn trim_blanks(s: &[u8]) -> (r: Vec<u8>)
    ensures
        r@ == trim(s@),
{
    let n: usize = s.len();
    let mut lo: usize = 0;
    while lo < n && (s[lo] == 32 || s[lo] == 9)
        invariant
            0 <= lo <= n,
            n == s@.len(),
            forall|j: int| 0 <= j < lo ==> is_blank(s@[j]),
        decreases n - lo,
    {
        lo = lo + 1;
    }
    proof {
        lemma_trim_start_skip(s@, lo as int);
    }
    let ghost t = s@.subrange(lo as int, n as int);
    assert(trim_start(t) == t);
    let mut hi: usize = n;
    while hi > lo && (s[hi - 1] == 32 || s[hi - 1] == 9)
        invariant
            lo <= hi <= n,
            n == s@.len(),
            forall|j: int| hi <= j < n ==> is_blank(s@[j]),
        decreases hi,
    {
        hi = hi - 1;
    }
    proof {
        assert forall|j: int| hi - lo <= j < t.len() implies is_blank(t[j]) by {
            assert(t[j] == s@[lo + j]);
        }
        lemma_trim_end_cut(t, hi - lo);
        let u = t.subrange(0, hi - lo);
        if u.len() > 0 {
            assert(u.last() == s@[hi - 1]);
        }
        assert(u =~= s@.subrange(lo as int, hi as int));
    }
    vstd::slice::slice_to_vec(vstd::slice::slice_subrange(s, lo, hi))
}

/// The environment of a script run for a request with method token
/// `method`, path `path` and headers `headers`, in the order the entries
/// are applied.
pub fn script_environment(method: &[u8], path: &[u8], headers: &Vec<(Vec<u8>, Vec<u8>)>) -> (r:
    Vec<(Vec<u8>, Vec<u8>)>)
    ensures
        pairs_view(r@) == script_env_spec(method@, path@, pairs_view(headers@)),
{
    let mut env: Vec<(Vec<u8>, Vec<u8>)> = Vec::new();
    let method_name: Vec<u8> = vec![77u8, 101, 116, 104, 111, 100];
    let path_name: Vec<u8> = vec![80u8, 97, 116, 104];
    assert(method_name@ =~= method_key());
    assert(path_name@ =~= path_key());
    env.push((method_name, vstd::slice::slice_to_vec(method)));
    env.push((path_name, vstd::slice::slice_to_vec(path)));
    let ghost hv = pairs_view(headers@);
    let ghost mapped = hv.map_values(|h: (Seq<u8>, Seq<u8>)| (h.0, trim(h.1)));
    assert(pairs_view(env@) =~= seq![(method_key(), method@), (path_key(), path@)]
        + mapped.subrange(0, 0));
    let mut i: usize = 0;
    while i < headers.len()
        invariant
            0 <= i <= headers@.len(),
            hv == pairs_view(headers@),
            mapped == hv.map_values(|h: (Seq<u8>, Seq<u8>)| (h.0, trim(h.1))),
            pairs_view(env@) == seq![(method_key(), method@), (path_key(), path@)]
                + mapped.subrange(0, i as int),
        decreases headers@.len() - i,
    {
        let name = vstd::slice::slice_to_vec(headers[i].0.as_slice());
        let value = trim_blanks(headers[i].1.as_slice());
        let ghost before = pairs_view(env@);
        assert(hv[i as int] == (headers@[i as int].0@, headers@[i as int].1@));
        assert(mapped[i as int] == (name@, value@));
        env.push((name, value));
        assert(pairs_view(env@) =~= before.push(mapped[i as int]));
        i = i + 1;
        assert(pairs_view(env@) =~= seq![(method_key(), method@), (path_key(), path@)]
            + mapped.subrange(0, i as int));
    }
    assert(mapped.subrange(0, i as int) =~= mapped);
    env
}

proof fn lemma_env_value_at(entries: Seq<(Seq<u8>, Seq<u8>)>, key: Seq<u8>, j: int)
    requires
        0 <= j < entries.len(),
        entries[j].0 == key,
        forall|k: int| j < k < entries.len() ==> #[trigger] entries[k].0 != key,
    ensures
        env_value(entries, key) == Some(entries[j].1),
    decreases entries.len(),
{
    if j < entries.len() - 1 {
        let d = entries.drop_last();
        assert forall|k: int| j < k < d.len() implies #[trigger] d[k].0 != key by {
            assert(d[k] == entries[k]);
        }
        lemma_env_value_at(d, key, j);
    }
}

/// Every script run sees `Method` and `Path` set to the request's method
/// and path, unless a header of the same name overrides them, and sees each
/// header under its own name with its trimmed value, unless a later header
/// of the same name overrides it.
pub proof fn lemma_script_env_carries_request(
    method: Seq<u8>,
    path: Seq<u8>,
    headers: Seq<(Seq<u8>, Seq<u8>)>,
)
    ensures
        ({
            let env = script_env_spec(method, path, headers);
            &&& env.len() == headers.len() + 2
            &&& env[0] == (method_key(), method)
            &&& env[1] == (path_key(), path)
            &&& (forall|i: int| 0 <= i < headers.len() ==> #[trigger] headers[i].0 != method_key())
                ==> env_value(env, method_key()) == Some(method)
            &&& (forall|i: int| 0 <= i < headers.len() ==> #[trigger] headers[i].0 != path_key())
                ==> env_value(env, path_key()) == Some(path)
            &&& forall|i: int|
                0 <= i < headers.len() && (forall|k: int|
                    i < k < headers.len() ==> #[trigger] headers[k].0 != headers[i].0)
                    ==> env_value(env, #[trigger] headers[i].0) == Some(trim(headers[i].1))
        }),
{
    let env = script_env_spec(method, path, headers);
    assert(method_key() != path_key()) by {
        assert(method_key().len() != path_key().len());
    }
    if forall|i: int| 0 <= i < headers.len() ==> #[trigger] headers[i].0 != method_key() {
        assert forall|k: int| 0 < k < env.len() implies #[trigger] env[k].0 != method_key() by {
            if k >= 2 {
                assert(env[k].0 == headers[k - 2].0);
            }
        }
        lemma_env_value_at(env, method_key(), 0);
    }
    if forall|i: int| 0 <= i < headers.len() ==> #[trigger] headers[i].0 != path_key() {
        assert forall|k: int| 1 < k < env.len() implies #[trigger] env[k].0 != path_key() by {
            assert(env[k].0 == headers[k - 2].0);
        }
        lemma_env_value_at(env, path_key(), 1);
    }
    assert forall|i: int|
        0 <= i < headers.len() && (forall|k: int|
            i < k < headers.len() ==> #[trigger] headers[k].0 != headers[i].0) implies env_value(
        env,
        #[trigger] headers[i].0,
    ) == Some(trim(headers[i].1)) by {
        assert(env[i + 2] == (headers[i].0, trim(headers[i].1)));
        assert forall|k: int| i + 2 < k < env.len() implies #[trigger] env[k].0 != headers[i].0 by {
            assert(env[k].0 == headers[k - 2].0);
        }
        lemma_env_value_at(env, headers[i].0, i + 2);
    }
}

/// How a script run ended.
#[derive(Clone, Debug)]
pub enum ScriptOutcome {
    /// No file stood at the script's path.
    NotFound,
    /// The file could not be started as a program.
    LaunchFailed,
    /// The program ran to its end; `success` when its exit status was 0.
    Exited { success: bool, stdout: Vec<u8>, stderr: Vec<u8> },
}

/// The response to a script run: 200 with what it wrote to stdout when it
/// exited with 0, 500 with what it wrote to stderr otherwise, 404 when there
/// was no script, and 500 when it could not be started.
pub fn script_response(outcome: ScriptOutcome) -> (r: Response)
    ensures
        match outcome {
            ScriptOutcome::NotFound => is_error_response(r, NOT_FOUND),
            ScriptOutcome::LaunchFailed => is_error_response(r, INTERNAL_SERVER_ERROR),
            ScriptOutcome::Exited { success, stdout, stderr } => {
                &&& r.status == (if success {
                    OK
                } else {
                    INTERNAL_SERVER_ERROR
                })
                &&& r.content_type == Some(ContentType::OctetStream)
                &&& r.body matches Body::Bytes(b) && b@ == (if success {
                    stdout@
                } else {
                    stderr@
                })
            },
        },
{
    match outcome {
        ScriptOutcome::NotFound => create_error_response(NOT_FOUND),
        ScriptOutcome::LaunchFailed => create_error_response(INTERNAL_SERVER_ERROR),
        ScriptOutcome::Exited { success, stdout, stderr } => {
            if success {
                Response {
                    status: OK,
                    content_type: Some(ContentType::OctetStream),
                    body: Body::Bytes(stdout),
                }
            } else {
                Response {
                    status: INTERNAL_SERVER_ERROR,
                    content_type: Some(ContentType::OctetStream),
                    body: Body::Bytes(stderr),
                }
            }
        },
    }
}

} // verus!
