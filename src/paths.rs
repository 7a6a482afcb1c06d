//! Joining a request path onto the content root without leaving it.
use vstd::prelude::*;

use crate::text::{chars_of, string_of, eq_ignore_ascii_case, eq_ignore_ascii_case_spec};

verus! {

/// A path component that names a child: not empty, not `.`, not `..`,
/// and free of separators.
pub open spec fn is_normal_component(c: Seq<char>) -> bool {
    &&& c.len() > 0
    &&& c != seq!['.']
    &&& c != seq!['.', '.']
    &&& forall|i: int| 0 <= i < c.len() ==> c[i] != '/'
}

/// What one segment of a request path does to the stack of components
/// below the root: `None` when a `..` would climb above it.
pub open spec fn apply_segment(stack: Seq<Seq<char>>, seg: Seq<char>) -> Option<Seq<Seq<char>>> {
    if seg.len() == 0 || seg == seq!['.'] {
        Some(stack)
    } else if seg == seq!['.', '.'] {
        if stack.len() == 0 {
            None
        } else {
            Some(stack.drop_last())
        }
    } else {
        Some(stack.push(seg))
    }
}

/// The state after reading the characters of `s`: the components kept so
/// far and the segment being read, or `None` once the root was left.
pub open spec fn scan_segments(s: Seq<char>) -> Option<(Seq<Seq<char>>, Seq<char>)>
    decreases s.len(),
{
    if s.len() == 0 {
        Some((Seq::empty(), Seq::empty()))
    } else {
        match scan_segments(s.drop_last()) {
            None => None,
            Some((stack, cur)) => {
                if s.last() == '/' {
                    match apply_segment(stack, cur) {
                        None => None,
                        Some(next) => Some((next, Seq::empty())),
                    }
                } else {
                    Some((stack, cur.push(s.last())))
                }
            },
        }
    }
}

/// The components below the root that the request path `u` names, or
/// `None` when it climbs above the root.
pub open spec fn resolve_components(u: Seq<char>) -> Option<Seq<Seq<char>>> {
    match scan_segments(u) {
        None => None,
        Some((stack, cur)) => apply_segment(stack, cur),
    }
}

/// Appending one component to a path, with a separator unless the path is
/// empty or already ends in one.
pub open spec fn push_component(p: Seq<char>, c: Seq<char>) -> Seq<char> {
    if p.len() == 0 || p.last() == '/' {
        p + c
    } else {
        p + seq!['/'] + c
    }
}

pub open spec fn join_components(base: Seq<char>, stack: Seq<Seq<char>>) -> Seq<char>
    decreases stack.len(),
{
    if stack.len() == 0 {
        base
    } else {
        push_component(join_components(base, stack.drop_last()), stack.last())
    }
}

pub open spec fn secure_join_spec(base: Seq<char>, u: Seq<char>) -> Option<Seq<char>> {
    match resolve_components(u) {
        None => None,
        Some(stack) => Some(join_components(base, stack)),
    }
}

/// `p` lies at or below `base`: `base` is a prefix of `p` that ends at a
/// component boundary.
pub open spec fn is_at_or_below(base: Seq<char>, p: Seq<char>) -> bool {
    &&& base.len() <= p.len()
    &&& p.subrange(0, base.len() as int) == base
    &&& (p.len() == base.len() || base.len() == 0 || base.last() == '/' || p[base.len() as int] == '/')
}

/// The character sequences held by a vector of components.
pub open spec fn component_views(v: Seq<Vec<char>>) -> Seq<Seq<char>> {
    Seq::new(v.len(), |i: int| v[i]@)
}

/// Once the root is left, reading more characters never comes back.
proof fn lemma_scan_stays_failed(s: Seq<char>, i: int)
    requires
        0 <= i <= s.len(),
        scan_segments(s.take(i)) is None,
    ensures
        scan_segments(s) is None,
    decreases s.len() - i,
{
    if i < s.len() {
        assert(s.take(i + 1).drop_last() == s.take(i));
        lemma_scan_stays_failed(s, i + 1);
    } else {
        assert(s.take(i) == s);
    }
}

pub open spec fn all_normal(stack: Seq<Seq<char>>) -> bool {
    forall|k: int| 0 <= k < stack.len() ==> is_normal_component(#[trigger] stack[k])
}

proof fn lemma_scan_keeps_normal(s: Seq<char>)
    ensures
        scan_segments(s) matches Some((stack, cur)) ==> all_normal(stack) && (forall|k: int|
            0 <= k < cur.len() ==> cur[k] != '/'),
    decreases s.len(),
{
    if s.len() > 0 {
        lemma_scan_keeps_normal(s.drop_last());
        if let Some((stack, cur)) = scan_segments(s.drop_last()) {
            if s.last() == '/' {
                if let Some(next) = apply_segment(stack, cur) {
                    assert(all_normal(next));
                }
            } else {
                let c2 = cur.push(s.last());
                assert forall|k: int| 0 <= k < c2.len() implies c2[k] != '/' by {
                    if k < cur.len() {
                        assert(c2[k] == cur[k]);
                    }
                }
            }
        }
    }
}

proof fn lemma_join_at_or_below(base: Seq<char>, stack: Seq<Seq<char>>)
    requires
        all_normal(stack),
    ensures
        is_at_or_below(base, join_components(base, stack)),
    decreases stack.len(),
{
    if stack.len() == 0 {
        assert(base.subrange(0, base.len() as int) =~= base);
    } else {
        let prev = stack.drop_last();
        assert(all_normal(prev)) by {
            assert forall|k: int| 0 <= k < prev.len() implies is_normal_component(#[trigger] prev[k]) by {
                assert(prev[k] == stack[k]);
            }
        }
        lemma_join_at_or_below(base, prev);
        let p = join_components(base, prev);
        let c = stack.last();
        assert(is_normal_component(stack[stack.len() - 1]));
        let q = push_component(p, c);
        assert(q.len() > p.len());
        assert(q.subrange(0, p.len() as int) =~= p);
        assert(q.subrange(0, base.len() as int) =~= p.subrange(0, base.len() as int));
        if p.len() == base.len() && base.len() > 0 && base.last() != '/' {
            assert(q[base.len() as int] == '/');
        } else if p.len() > base.len() {
            assert(q[base.len() as int] == p[base.len() as int]);
        }
    }
}

/// A join that succeeds lands at or below `base`, and what it adds are
/// child components only: none of them is `..`, `.` or empty.
pub proof fn lemma_secure_join_stays_below(base: Seq<char>, u: Seq<char>)
    ensures
        secure_join_spec(base, u) is Some ==> {
            &&& resolve_components(u) is Some
            &&& all_normal(resolve_components(u)->0)
            &&& secure_join_spec(base, u)->0 == join_components(base, resolve_components(u)->0)
            &&& is_at_or_below(base, secure_join_spec(base, u)->0)
        },
{
    lemma_scan_keeps_normal(u);
    if let Some((stack, cur)) = scan_segments(u) {
        if let Some(st) = apply_segment(stack, cur) {
            assert(all_normal(st));
            lemma_join_at_or_below(base, st);
        }
    }
}

/// A request path whose first segment is `..` climbs above `base` and is
/// refused, whatever follows it.
pub proof fn lemma_secure_join_refuses_parent_of_root(base: Seq<char>, rest: Seq<char>)
    ensures
        secure_join_spec(base, seq!['.', '.']) is None,
        secure_join_spec(base, seq!['.', '.', '/'] + rest) is None,
{
    let dd = seq!['.', '.'];
    assert(dd.drop_last() == seq!['.']);
    assert(seq!['.'].drop_last() == Seq::<char>::empty());
    assert(Seq::<char>::empty().push('.') == seq!['.']);
    assert(seq!['.'].push('.') == dd);
    assert(scan_segments(Seq::<char>::empty()) == Some((Seq::<Seq<char>>::empty(), Seq::<char>::empty())));
    assert(scan_segments(seq!['.']) == Some((Seq::<Seq<char>>::empty(), seq!['.'])));
    assert(scan_segments(dd) == Some((Seq::<Seq<char>>::empty(), dd)));
    let u = seq!['.', '.', '/'] + rest;
    assert(u.take(2) == dd);
    assert(u.take(3).drop_last() == dd);
    assert(u.take(3).last() == '/');
    assert(scan_segments(u.take(3)) is None);
    lemma_scan_stays_failed(u, 3);
}

/// A `..` that climbs above `base` makes the join fail wherever it stands:
/// when the part `v` before it leads back to `base` itself, `v/..` is
/// refused, and so is anything that follows it.
pub proof fn lemma_secure_join_refuses_climb(base: Seq<char>, v: Seq<char>, rest: Seq<char>)
    requires
        resolve_components(v) == Some(Seq::<Seq<char>>::empty()),
    ensures
        secure_join_spec(base, v + seq!['/', '.', '.']) is None,
        secure_join_spec(base, v + seq!['/', '.', '.', '/'] + rest) is None,
{
    let empty = Seq::<Seq<char>>::empty();
    let v1 = v + seq!['/'];
    let v2 = v + seq!['/', '.'];
    let v3 = v + seq!['/', '.', '.'];
    assert(v1.drop_last() == v && v1.last() == '/');
    assert(scan_segments(v1) == Some((empty, Seq::<char>::empty())));
    assert(v2.drop_last() == v1 && v2.last() == '.');
    assert(Seq::<char>::empty().push('.') == seq!['.']);
    assert(scan_segments(v2) == Some((empty, seq!['.'])));
    assert(v3.drop_last() == v2 && v3.last() == '.');
    assert(seq!['.'].push('.') == seq!['.', '.']);
    assert(scan_segments(v3) == Some((empty, seq!['.', '.'])));
    assert(resolve_components(v3) is None);
    let u = v + seq!['/', '.', '.', '/'] + rest;
    let n = v.len() as int + 4;
    assert(u.take(n).drop_last() == v3);
    assert(u.take(n).last() == '/');
    assert(scan_segments(u.take(n)) is None);
    lemma_scan_stays_failed(u, n);
}

fn apply_segment_exec(stack: &mut Vec<Vec<char>>, seg: Vec<char>) -> (ok: bool)
    ensures
        ok == apply_segment(component_views(old(stack)@), seg@) is Some,
        ok ==> apply_segment(component_views(old(stack)@), seg@) == Some(component_views(final(stack)@)),
{
    let len = seg.len();
    if len == 0 || (len == 1 && seg[0] == '.') {
        proof {
            if len == 1 {
                assert(seg@ == seq!['.']);
            }
        }
        true
    } else if len == 2 && seg[0] == '.' && seg[1] == '.' {
        assert(seg@ == seq!['.', '.']);
        if stack.len() == 0 {
            false
        } else {
            stack.pop();
            assert(component_views(stack@) == component_views(old(stack)@).drop_last());
            true
        }
    } else {
        proof {
            if len == 1 {
                assert(seg@ != seq!['.']) by {
                    assert(seq!['.'][0] == '.');
                }
            }
            if len == 2 {
                assert(seg@ != seq!['.', '.']) by {
                    assert(seq!['.', '.'][0] == '.');
                    assert(seq!['.', '.'][1] == '.');
                }
            }
        }
        stack.push(seg);
        assert(component_views(stack@) == component_views(old(stack)@).push(seg@));
        true
    }
}

fn join_exec(base: &str, stack: &Vec<Vec<char>>) -> (r: String)
    ensures
        r@ == join_components(base@, component_views(stack@)),
{
    let mut out: Vec<char> = chars_of(base);
    let mut i: usize = 0;
    while i < stack.len()
        invariant
            i <= stack.len(),
            out@ == join_components(base@, component_views(stack@).take(i as int)),
        decreases stack.len() - i,
    {
        let ghost before = out@;
        let n = out.len();
        if !(n == 0 || out[n - 1] == '/') {
            out.push('/');
        }
        let comp = &stack[i];
        let mut j: usize = 0;
        let ghost mid = out@;
        while j < comp.len()
            invariant
                j <= comp.len(),
                out@ == mid + comp@.take(j as int),
            decreases comp.len() - j,
        {
            out.push(comp[j]);
            j = j + 1;
            assert(comp@.take(j as int) == comp@.take(j - 1).push(comp@[j - 1]));
        }
        assert(comp@.take(comp@.len() as int) == comp@);
        assert(component_views(stack@).take(i + 1).drop_last() == component_views(stack@).take(i as int));
        assert(component_views(stack@).take(i + 1).last() == comp@);
        i = i + 1;
    }
    assert(component_views(stack@).take(stack.len() as int) == component_views(stack@));
    string_of(&out)
}

/// Joins the request path `user_path` onto `base`, component by component.
/// Empty and `.` segments are dropped, so a leading `/` cannot make the
/// path absolute; `..` removes the last kept component, and one that would
/// climb above `base` makes the whole join fail.
pub fn secure_join(base: &str, user_path: &str) -> (r: Option<String>)
    ensures
        match r {
            Some(p) => secure_join_spec(base@, user_path@) == Some(p@),
            None => secure_join_spec(base@, user_path@) is None,
        },
{
    let u = chars_of(user_path);
    let mut stack: Vec<Vec<char>> = Vec::new();
    let mut cur: Vec<char> = Vec::new();
    let mut i: usize = 0;
    while i < u.len()
        invariant
            i <= u.len(),
            u@ == user_path@,
            scan_segments(u@.take(i as int)) == Some((component_views(stack@), cur@)),
        decreases u.len() - i,
    {
        let c = u[i];
        assert(u@.take(i + 1).drop_last() == u@.take(i as int));
        assert(u@.take(i + 1).last() == c);
        if c == '/' {
            let mut seg: Vec<char> = Vec::new();
            std::mem::swap(&mut seg, &mut cur);
            let ok = apply_segment_exec(&mut stack, seg);
            if !ok {
                proof {
                    lemma_scan_stays_failed(user_path@, i + 1);
                }
                return None;
            }
        } else {
            cur.push(c);
        }
        i = i + 1;
    }
    assert(u@.take(u@.len() as int) == u@);
    let ok = apply_segment_exec(&mut stack, cur);
    if !ok {
        return None;
    }
    Some(join_exec(base, &stack))
}

// ---------------------------------------------------------------------
// Comparing paths component by component

/// A path segment that `Path::components` skips: empty (a doubled or
/// trailing separator) or `.`.
pub open spec fn is_skipped_segment(seg: Seq<char>) -> bool {
    seg.len() == 0 || seg == seq!['.']
}

/// The components of `p` after its head: the segments between separators,
/// without the skipped ones, and the segment being read.
pub open spec fn split_state(p: Seq<char>) -> (Seq<Seq<char>>, Seq<char>)
    decreases p.len(),
{
    if p.len() == 0 {
        (Seq::empty(), Seq::empty())
    } else {
        let (done, cur) = split_state(p.drop_last());
        if p.last() == '/' {
            if is_skipped_segment(cur) {
                (done, Seq::empty())
            } else {
                (done.push(cur), Seq::empty())
            }
        } else {
            (done, cur.push(p.last()))
        }
    }
}

pub open spec fn body_components(p: Seq<char>) -> Seq<Seq<char>> {
    let (done, cur) = split_state(p);
    if is_skipped_segment(cur) {
        done
    } else {
        done.push(cur)
    }
}

/// How a path begins: `1` for the root, `2` for a leading `.` of a
/// relative path, `0` otherwise.
pub open spec fn path_head(p: Seq<char>) -> int {
    if p.len() > 0 && p[0] == '/' {
        1
    } else if p.len() > 0 && p[0] == '.' && (p.len() == 1 || p[1] == '/') {
        2
    } else {
        0
    }
}

/// `Path::starts_with`: the same head, and the components of `base` are the
/// first components of `p`.
pub open spec fn path_starts_with(p: Seq<char>, base: Seq<char>) -> bool {
    let pc = body_components(p);
    let bc = body_components(base);
    &&& path_head(p) == path_head(base)
    &&& bc.len() <= pc.len()
    &&& pc.subrange(0, bc.len() as int) == bc
}

fn body_components_exec(p: &Vec<char>) -> (r: Vec<Vec<char>>)
    ensures
        component_views(r@) == body_components(p@),
{
    let mut done: Vec<Vec<char>> = Vec::new();
    let mut cur: Vec<char> = Vec::new();
    let mut i: usize = 0;
    while i < p.len()
        invariant
            i <= p.len(),
            split_state(p@.take(i as int)) == (component_views(done@), cur@),
        decreases p.len() - i,
    {
        let c = p[i];
        assert(p@.take(i + 1).drop_last() == p@.take(i as int));
        assert(p@.take(i + 1).last() == c);
        if c == '/' {
            let skip = cur.len() == 0 || (cur.len() == 1 && cur[0] == '.');
            proof {
                if cur.len() == 1 && cur[0] == '.' {
                    assert(cur@ == seq!['.']);
                }
                if cur.len() == 1 && cur[0] != '.' {
                    assert(cur@ != seq!['.']) by {
                        assert(seq!['.'][0] == '.');
                    }
                }
            }
            if !skip {
                let mut seg: Vec<char> = Vec::new();
                std::mem::swap(&mut seg, &mut cur);
                done.push(seg);
                assert(component_views(done@) == component_views(all_but_last(done@)).push(
                    done@.last()@,
                ));
            } else {
                cur = Vec::new();
            }
        } else {
            cur.push(c);
        }
        i = i + 1;
    }
    assert(p@.take(p@.len() as int) == p@);
    let skip = cur.len() == 0 || (cur.len() == 1 && cur[0] == '.');
    proof {
        if cur.len() == 1 && cur[0] == '.' {
            assert(cur@ == seq!['.']);
        }
        if cur.len() == 1 && cur[0] != '.' {
            assert(cur@ != seq!['.']) by {
                assert(seq!['.'][0] == '.');
            }
        }
    }
    if !skip {
        done.push(cur);
        assert(component_views(done@) == component_views(all_but_last(done@)).push(
            done@.last()@,
        ));
    }
    done
}

spec fn all_but_last(v: Seq<Vec<char>>) -> Seq<Vec<char>> {
    v.drop_last()
}

fn path_head_exec(p: &Vec<char>) -> (r: u8)
    ensures
        r as int == path_head(p@),
{
    if p.len() > 0 && p[0] == '/' {
        1
    } else if p.len() > 0 && p[0] == '.' && (p.len() == 1 || p[1] == '/') {
        2
    } else {
        0
    }
}

/// Whether `path` lies under `base`, compared as `Path::starts_with` does:
/// component by component, not character by character.
#[verifier::loop_isolation(false)]
pub fn path_starts_with_exec(path: &str, base: &str) -> (r: bool)
    ensures
        r == path_starts_with(path@, base@),
{
    let p = chars_of(path);
    let b = chars_of(base);
    if path_head_exec(&p) != path_head_exec(&b) {
        return false;
    }
    let pc = body_components_exec(&p);
    let bc = body_components_exec(&b);
    if bc.len() > pc.len() {
        return false;
    }
    let mut i: usize = 0;
    while i < bc.len()
        invariant
            i <= bc.len() <= pc.len(),
            forall|k: int| 0 <= k < i ==> pc@[k]@ == #[trigger] bc@[k]@,
        decreases bc.len() - i,
    {
        let x = &pc[i];
        let y = &bc[i];
        let ghost pv = component_views(pc@);
        let ghost bv = component_views(bc@);
        assert(pv.subrange(0, bc.len() as int)[i as int] == x@);
        assert(bv[i as int] == y@);
        if x.len() != y.len() {
            assert(pv.subrange(0, bc.len() as int)[i as int] != bv[i as int]);
            return false;
        }
        let mut j: usize = 0;
        while j < x.len()
            invariant
                j <= x.len() == y.len(),
                forall|k: int| 0 <= k < j ==> x@[k] == y@[k],
            decreases x.len() - j,
        {
            if x[j] != y[j] {
                assert(x@[j as int] != y@[j as int]);
                assert(x@ != y@);
                assert(pv.subrange(0, bc.len() as int)[i as int] != bv[i as int]);
                return false;
            }
            j = j + 1;
        }
        assert(x@ =~= y@);
        i = i + 1;
    }
    assert(component_views(pc@).subrange(0, bc.len() as int) =~= component_views(bc@));
    true
}

/// The extension that `Path::extension` reports: the text after the last
/// `.` of the file name, when that `.` is not its first character; the name
/// is the last component, and a path ending in `..` has none.
pub open spec fn extension_of(p: Seq<char>) -> Option<Seq<char>> {
    let comps = body_components(p);
    if comps.len() == 0 {
        None
    } else {
        let name = comps.last();
        if name == seq!['.', '.'] {
            None
        } else {
            match last_dot(name) {
                Some(i) if i > 0 => Some(name.subrange(i + 1, name.len() as int)),
                _ => None,
            }
        }
    }
}

pub open spec fn last_dot(s: Seq<char>) -> Option<int>
    decreases s.len(),
{
    if s.len() == 0 {
        None
    } else if s.last() == '.' {
        Some(s.len() - 1)
    } else {
        last_dot(s.drop_last())
    }
}

/// The file is Markdown: its extension is `md`, in any case.
pub open spec fn has_md_extension(p: Seq<char>) -> bool {
    extension_of(p) matches Some(e) && eq_ignore_ascii_case_spec(e, seq!['m', 'd'])
}

fn last_dot_exec(s: &Vec<char>) -> (r: Option<usize>)
    ensures
        match r {
            Some(i) => last_dot(s@) == Some(i as int) && i < s@.len(),
            None => last_dot(s@) is None,
        },
{
    let mut j: usize = s.len();
    assert(s@.take(s@.len() as int) == s@);
    while j > 0 && s[j - 1] != '.'
        invariant
            j <= s.len(),
            last_dot(s@) == last_dot(s@.take(j as int)),
        decreases j,
    {
        assert(s@.take(j as int).drop_last() == s@.take(j - 1));
        j = j - 1;
    }
    if j == 0 {
        assert(s@.take(0) == Seq::<char>::empty());
        None
    } else {
        Some(j - 1)
    }
}

/// The extension of a path (see `extension_of`).
pub fn extension_exec(p: &Vec<char>) -> (r: Option<Vec<char>>)
    ensures
        match r {
            Some(e) => extension_of(p@) == Some(e@),
            None => extension_of(p@) is None,
        },
{
    let comps = body_components_exec(p);
    if comps.len() == 0 {
        return None;
    }
    let name = &comps[comps.len() - 1];
    assert(component_views(comps@).last() == name@);
    if name.len() == 2 && name[0] == '.' && name[1] == '.' {
        assert(name@ == seq!['.', '.']);
        return None;
    }
    assert(name@ != seq!['.', '.']) by {
        if name@ == seq!['.', '.'] {
            assert(seq!['.', '.'][0] == '.' && seq!['.', '.'][1] == '.');
        }
    }
    match last_dot_exec(name) {
        Some(i) => {
            if i == 0 {
                return None;
            }
            let mut e: Vec<char> = Vec::new();
            let mut k: usize = i + 1;
            while k < name.len()
                invariant
                    i + 1 <= k <= name.len(),
                    e@ == name@.subrange(i + 1, k as int),
                decreases name.len() - k,
            {
                e.push(name[k]);
                k = k + 1;
            }
            Some(e)
        },
        None => None,
    }
}

/// Whether a path names a Markdown file by its extension.
pub fn has_md_extension_exec(path: &str) -> (r: bool)
    ensures
        r == has_md_extension(path@),
{
    let p = chars_of(path);
    match extension_exec(&p) {
        Some(e) => eq_ignore_ascii_case(e.as_slice(), &['m', 'd']),
        None => false,
    }
}

/// A static file may be served: its canonical path lies under the
/// canonical content root, and it is not a Markdown document (those are
/// only served rendered).
pub fn static_path_allowed(canonical: &str, base_canonical: &str) -> (r: bool)
    ensures
        r == (path_starts_with(canonical@, base_canonical@) && !has_md_extension(canonical@)),
{
    path_starts_with_exec(canonical, base_canonical) && !has_md_extension_exec(canonical)
}

} // verus!
