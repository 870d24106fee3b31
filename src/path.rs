use vstd::prelude::*;

verus! {

/// The byte `/`.
pub const SLASH: u8 = 47;

/// The byte `.`.
pub const DOT: u8 = 46;

/// The segment `.`.
pub open spec fn is_current_segment(s: Seq<u8>) -> bool {
    s == seq![DOT]
}

/// The segment `..`.
pub open spec fn is_parent_segment(s: Seq<u8>) -> bool {
    s == seq![DOT, DOT]
}

/// A segment that names an entry of the directory it stands in: not empty,
/// neither `.` nor `..`, and free of slashes.
pub open spec fn is_name(s: Seq<u8>) -> bool {
    s.len() > 0 && !is_current_segment(s) && !is_parent_segment(s) && !s.contains(SLASH)
}

/// The byte sequences held by a vector of byte vectors.
pub open spec fn names_view(v: Seq<Vec<u8>>) -> Seq<Seq<u8>> {
    v.map_values(|s: Vec<u8>| s@)
}

/// Applies one finished segment to the stack of names walked so far: empty
/// segments and `.` change nothing, `..` drops the last name, any other
/// segment is entered. `None` when `..` would climb above the root.
pub open spec fn push_segment(stack: Seq<Seq<u8>>, seg: Seq<u8>) -> Option<Seq<Seq<u8>>> {
    if seg.len() == 0 || is_current_segment(seg) {
        Some(stack)
    } else if is_parent_segment(seg) {
        if stack.len() == 0 {
            None
        } else {
            Some(stack.drop_last())
        }
    } else {
        Some(stack.push(seg))
    }
}

/// The walk over the bytes of `p` from left to right: the stack of names
/// entered so far and the segment being read, or `None` once the walk has
/// tried to leave the root.
pub open spec fn scan(p: Seq<u8>) -> Option<(Seq<Seq<u8>>, Seq<u8>)>
    decreases p.len(),
{
    if p.len() == 0 {
        Some((Seq::empty(), Seq::empty()))
    } else {
        match scan(p.drop_last()) {
            None => None,
            Some((stack, cur)) => if p.last() == SLASH {
                match push_segment(stack, cur) {
                    None => None,
                    Some(next) => Some((next, Seq::empty())),
                }
            } else {
                Some((stack, cur.push(p.last())))
            },
        }
    }
}

/// The names that a request path leads through, once `.`, `..` and empty
/// segments are applied; `None` when the path climbs above the root.
/// A leading slash, or several, only makes empty segments.
pub open spec fn resolved_segments(p: Seq<u8>) -> Option<Seq<Seq<u8>>> {
    match scan(p) {
        None => None,
        Some((stack, cur)) => push_segment(stack, cur),
    }
}

/// `root` followed by `/name` for each name in turn.
pub open spec fn join_under(root: Seq<u8>, names: Seq<Seq<u8>>) -> Seq<u8>
    decreases names.len(),
{
    if names.len() == 0 {
        root
    } else {
        join_under(root, names.drop_last()) + seq![SLASH] + names.last()
    }
}

/// The filesystem path that a request path stands for under `root`.
pub open spec fn resolve_spec(root: Seq<u8>, p: Seq<u8>) -> Option<Seq<u8>> {
    match resolved_segments(p) {
        None => None,
        Some(names) => Some(join_under(root, names)),
    }
}

/// All entries of `names` are names.
pub open spec fn all_names(names: Seq<Seq<u8>>) -> bool {
    forall|i: int| 0 <= i < names.len() ==> #[trigger] is_name(names[i])
}

proof fn lemma_push_keeps_names(stack: Seq<Seq<u8>>, seg: Seq<u8>)
    requires
        all_names(stack),
        !seg.contains(SLASH),
    ensures
        push_segment(stack, seg) matches Some(next) ==> all_names(next),
{
    if let Some(next) = push_segment(stack, seg) {
        assert forall|i: int| 0 <= i < next.len() implies #[trigger] is_name(next[i]) by {
            if i < stack.len() {
                assert(next[i] == stack[i]);
            }
        }
    }
}

proof fn lemma_scan_keeps_names(p: Seq<u8>)
    ensures
        scan(p) matches Some((stack, cur)) ==> all_names(stack) && !cur.contains(SLASH),
    decreases p.len(),
{
    if p.len() > 0 {
        lemma_scan_keeps_names(p.drop_last());
        if let Some((stack, cur)) = scan(p.drop_last()) {
            if p.last() == SLASH {
                lemma_push_keeps_names(stack, cur);
            } else {
                assert forall|j: int| 0 <= j < cur.push(p.last()).len() implies cur.push(
                    p.last(),
                )[j] != SLASH by {
                    if j < cur.len() {
                        assert(cur.push(p.last())[j] == cur[j]);
                    }
                }
            }
        }
    }
}

proof fn lemma_scan_stays_none(p: Seq<u8>, i: int)
    requires
        0 <= i <= p.len(),
        scan(p.subrange(0, i)) is None,
    ensures
        scan(p) is None,
    decreases p.len() - i,
{
    if i < p.len() {
        assert(p.subrange(0, i + 1).drop_last() =~= p.subrange(0, i));
        lemma_scan_stays_none(p, i + 1);
    } else {
        assert(p.subrange(0, i) =~= p);
    }
}

/// Containment: whatever a request path holds (`..`, `.`, repeated or
/// leading slashes), a path that resolves at all is `root` followed by
/// names only, so it never leaves `root`. A path that would climb above
/// `root` does not resolve.
pub proof fn lemma_resolved_path_stays_under_root(root: Seq<u8>, p: Seq<u8>)
    ensures
        resolve_spec(root, p) matches Some(abs) ==> {
            let names = resolved_segments(p)->0;
            &&& all_names(names)
            &&& abs == join_under(root, names)
            &&& abs.len() >= root.len()
            &&& abs.subrange(0, root.len() as int) == root
        },
{
    lemma_scan_keeps_names(p);
    if let Some((stack, cur)) = scan(p) {
        lemma_push_keeps_names(stack, cur);
        if let Some(names) = push_segment(stack, cur) {
            lemma_join_extends_root(root, names);
        }
    }
}

proof fn lemma_join_extends_root(root: Seq<u8>, names: Seq<Seq<u8>>)
    ensures
        join_under(root, names).len() >= root.len(),
        join_under(root, names).subrange(0, root.len() as int) == root,
    decreases names.len(),
{
    if names.len() > 0 {
        lemma_join_extends_root(root, names.drop_last());
        let prev = join_under(root, names.drop_last());
        assert((prev + seq![SLASH] + names.last()).subrange(0, root.len() as int) =~= prev.subrange(
            0,
            root.len() as int,
        ));
    } else {
        assert(root.subrange(0, root.len() as int) =~= root);
    }
}

/// Applies the finished segment `seg` to `stack`; false, with `stack` left
/// as it was, when `seg` is `..` and `stack` is empty.
fn push_segment_exec(stack: &mut Vec<Vec<u8>>, seg: Vec<u8>) -> (ok: bool)
    ensures
        match push_segment(names_view(old(stack)@), seg@) {
            None => !ok,
            Some(next) => ok && names_view(final(stack)@) == next,
        },
{
    let n = seg.len();
    if n == 0 || (n == 1 && seg[0] == DOT) {
        if n == 1 {
            assert(seg@ =~= seq![DOT]);
        }
        return true;
    }
    if n == 1 {
        assert(!is_current_segment(seg@)) by {
            if seg@ == seq![DOT] {
                assert(seg@[0] == DOT);
            }
        }
    }
    if n == 2 && seg[0] == DOT && seg[1] == DOT {
        assert(seg@ =~= seq![DOT, DOT]);
        if stack.len() == 0 {
            return false;
        }
        stack.pop();
        assert(names_view(stack@) =~= names_view(old(stack)@).drop_last());
        return true;
    }
    assert(!is_parent_segment(seg@)) by {
        if seg@ == seq![DOT, DOT] {
            assert(seg@[0] == DOT && seg@[1] == DOT);
        }
    }
    stack.push(seg);
    assert(names_view(stack@) =~= names_view(old(stack)@).push(seg@));
    true
}

/// The names that `path` leads through under the root, or `None` when it
/// climbs above the root.
pub fn path_segments(path: &[u8]) -> (r: Option<Vec<Vec<u8>>>)
    ensures
        match r {
            None => resolved_segments(path@) is None,
            Some(v) => resolved_segments(path@) == Some(names_view(v@)),
        },
{
    let mut stack: Vec<Vec<u8>> = Vec::new();
    let mut cur: Vec<u8> = Vec::new();
    let mut i: usize = 0;
    assert(names_view(stack@) =~= Seq::<Seq<u8>>::empty());
    assert(path@.subrange(0, 0) =~= Seq::<u8>::empty());
    while i < path.len()
        invariant
            0 <= i <= path@.len(),
            scan(path@.subrange(0, i as int)) == Some((names_view(stack@), cur@)),
        decreases path@.len() - i,
    {
        let b = path[i];
        assert(path@.subrange(0, i + 1).drop_last() =~= path@.subrange(0, i as int));
        if b == SLASH {
            let seg = cur;
            cur = Vec::new();
            if !push_segment_exec(&mut stack, seg) {
                proof {
                    lemma_scan_stays_none(path@, i + 1);
                }
                return None;
            }
        } else {
            cur.push(b);
        }
        i = i + 1;
    }
    assert(path@.subrange(0, i as int) =~= path@);
    if push_segment_exec(&mut stack, cur) {
        Some(stack)
    } else {
        None
    }
}

/// Appends the bytes of `src` to `out`.
pub fn append_bytes(out: &mut Vec<u8>, src: &[u8])
    ensures
        final(out)@ == old(out)@ + src@,
{
    let mut i: usize = 0;
    while i < src.len()
        invariant
            0 <= i <= src@.len(),
            out@ == old(out)@ + src@.subrange(0, i as int),
        decreases src@.len() - i,
    {
        out.push(src[i]);
        i = i + 1;
        assert(out@ =~= old(out)@ + src@.subrange(0, i as int));
    }
    assert(src@.subrange(0, i as int) =~= src@);
}

/// `root` followed by `/name` for each of `names` in turn.
pub fn join_names(root: &[u8], names: &Vec<Vec<u8>>) -> (r: Vec<u8>)
    ensures
        r@ == join_under(root@, names_view(names@)),
{
    let mut out: Vec<u8> = Vec::new();
    append_bytes(&mut out, root);
    let mut i: usize = 0;
    assert(names_view(names@).subrange(0, 0) =~= Seq::<Seq<u8>>::empty());
    while i < names.len()
        invariant
            0 <= i <= names@.len(),
            out@ == join_under(root@, names_view(names@).subrange(0, i as int)),
        decreases names@.len() - i,
    {
        out.push(SLASH);
        append_bytes(&mut out, names[i].as_slice());
        proof {
            let s = names_view(names@).subrange(0, i + 1);
            assert(s.drop_last() =~= names_view(names@).subrange(0, i as int));
            assert(s.last() == names@[i as int]@);
        }
        i = i + 1;
    }
    assert(names_view(names@).subrange(0, i as int) =~= names_view(names@));
    out
}

/// The filesystem path that the request path `path` stands for under
/// `root`, or `None` when it would climb above `root`. The request path is
/// taken as raw bytes: percent escapes are not decoded, so `%2e%2e` is an
/// ordinary name. Symbolic links under `root` are followed by the
/// filesystem and can lead outside it; only the lexical path is confined.
pub fn resolve_path(root: &[u8], path: &[u8]) -> (r: Option<Vec<u8>>)
    ensures
        match r {
            None => resolve_spec(root@, path@) is None,
            Some(v) => resolve_spec(root@, path@) == Some(v@),
        },
{
    match path_segments(path) {
        None => None,
        Some(names) => Some(join_names(root, &names)),
    }
}

} // verus!
