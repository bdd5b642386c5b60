//! Workspace-relative build contexts.
//!
//! A path is read as a sequence of steps: its `/`-separated segments without
//! empty segments and without `.`; a leading `/` makes it rooted. A package
//! path lies under a workspace root when both are rooted or both are not, and
//! the root's steps begin the package's steps.

use vstd::prelude::*;
use vstd::string::StringExecFns;
use crate::text::views;

verus! {

/// A segment that names a step: neither empty nor `.`.
pub open spec fn is_step(seg: Seq<char>) -> bool {
    seg.len() > 0 && seg != seq!['.']
}

/// Adds the segment just read to the finished steps, unless it names none.
pub open spec fn close(done: Seq<Seq<char>>, cur: Seq<char>) -> Seq<Seq<char>> {
    if is_step(cur) {
        done.push(cur)
    } else {
        done
    }
}

/// Reading `s` left to right: the steps finished so far and the segment
/// that is still open.
pub open spec fn scan(s: Seq<char>) -> (Seq<Seq<char>>, Seq<char>)
    decreases s.len(),
{
    if s.len() == 0 {
        (seq![], seq![])
    } else {
        let (done, cur) = scan(s.drop_last());
        if s.last() == '/' {
            (close(done, cur), seq![])
        } else {
            (done, cur.push(s.last()))
        }
    }
}

/// The steps of a path.
pub open spec fn steps(s: Seq<char>) -> Seq<Seq<char>> {
    close(scan(s).0, scan(s).1)
}

pub open spec fn is_rooted(s: Seq<char>) -> bool {
    s.len() > 0 && s[0] == '/'
}

/// `path` lies under `root`.
pub open spec fn is_under(path: Seq<char>, root: Seq<char>) -> bool {
    &&& is_rooted(path) == is_rooted(root)
    &&& steps(root).len() <= steps(path).len()
    &&& steps(path).take(steps(root).len() as int) == steps(root)
}

/// The steps that lead from `root` down to `path`.
pub open spec fn steps_below(path: Seq<char>, root: Seq<char>) -> Seq<Seq<char>> {
    steps(path).skip(steps(root).len() as int)
}

/// Steps written out with `/` between them.
pub open spec fn joined(parts: Seq<Seq<char>>) -> Seq<char>
    decreases parts.len(),
{
    if parts.len() == 0 {
        seq![]
    } else if parts.len() == 1 {
        parts[0]
    } else {
        joined(parts.drop_last()) + seq!['/'] + parts.last()
    }
}

/// `s` without any leading `./`.
pub open spec fn trim_dot_slash(s: Seq<char>) -> Seq<char>
    decreases s.len(),
{
    if s.len() >= 2 && s[0] == '.' && s[1] == '/' {
        trim_dot_slash(s.skip(2))
    } else {
        s
    }
}

/// The build context of a package: its path relative to the workspace root
/// (`.` for the root itself); a path that does not lie under the root is
/// kept as written, less any leading `./`.
pub open spec fn context_of(path: Seq<char>, root: Seq<char>) -> Seq<char> {
    if is_under(path, root) {
        if steps_below(path, root).len() == 0 {
            seq!['.']
        } else {
            joined(steps_below(path, root))
        }
    } else {
        trim_dot_slash(path)
    }
}

} // verus!

verus! {

fn names_a_step(seg: &String) -> (r: bool)
    ensures
        r == is_step(seg@),
{
    let n = seg.as_str().unicode_len();
    if n == 0 {
        false
    } else if n == 1 && seg.as_str().get_char(0) == '.' {
        assert(seg@ =~= seq!['.']);
        false
    } else {
        assert(n == 1 ==> seg@[0] != '.');
        true
    }
}

fn rooted(s: &str) -> (r: bool)
    ensures
        r == is_rooted(s@),
{
    s.unicode_len() > 0 && s.get_char(0) == '/'
}

/// The steps of a path, in order.
pub fn path_steps(s: &str) -> (r: Vec<String>)
    ensures
        views(r@) == steps(s@),
{
    let mut done: Vec<String> = Vec::new();
    let mut cur = String::new();
    for c in it: s.chars()
        invariant
            it.seq() == s@,
            (views(done@), cur@) == scan(s@.take(it.index() as int)),
    {
        proof {
            assert(s@.take(it.index() + 1).drop_last() == s@.take(it.index() as int));
            assert(s@.take(it.index() + 1).last() == c);
        }
        if c == '/' {
            if names_a_step(&cur) {
                proof {
                    assert(views(done@.push(cur)) =~= views(done@).push(cur@));
                }
                done.push(cur);
            }
            cur = String::new();
        } else {
            cur.push(c);
        }
    }
    proof {
        assert(s@.take(s@.len() as int) == s@);
    }
    if names_a_step(&cur) {
        proof {
            assert(views(done@.push(cur)) =~= views(done@).push(cur@));
        }
        done.push(cur);
    }
    done
}

/// The steps that lead from `root` down to `path`, or `None` where `path`
/// does not lie under `root`.
pub fn relative_steps(path: &str, root: &str) -> (r: Option<Vec<String>>)
    ensures
        r is Some <==> is_under(path@, root@),
        r matches Some(v) ==> views(v@) == steps_below(path@, root@),
{
    let p = path_steps(path);
    let q = path_steps(root);
    if rooted(path) != rooted(root) || q.len() > p.len() {
        return None;
    }
    let mut i: usize = 0;
    while i < q.len()
        invariant
            q.len() <= p.len(),
            views(p@) == steps(path@),
            views(q@) == steps(root@),
            i <= q.len(),
            forall|j: int| 0 <= j < i ==> p@[j]@ == q@[j]@,
        decreases q.len() - i,
    {
        if p[i] != q[i] {
            proof {
                assert(steps(path@).take(q.len() as int)[i as int] != steps(root@)[i as int]);
            }
            return None;
        }
        i += 1;
    }
    assert(steps(path@).take(q.len() as int) =~= steps(root@));
    let mut below: Vec<String> = Vec::new();
    let mut k: usize = q.len();
    while k < p.len()
        invariant
            q.len() <= k <= p.len(),
            views(p@) == steps(path@),
            views(q@) == steps(root@),
            views(below@) == steps(path@).subrange(q.len() as int, k as int),
        decreases p.len() - k,
    {
        let step = p[k].clone();
        let ghost before = below@;
        below.push(step);
        proof {
            assert(step@ == p@[k as int]@);
            assert(views(p@)[k as int] == p@[k as int]@);
            assert(below@ == before.push(step));
            assert(views(below@) =~= views(before).push(step@));
            assert(views(below@) =~= steps(path@).subrange(q.len() as int, k + 1));
        }
        k += 1;
    }
    assert(steps(path@).subrange(q.len() as int, p.len() as int) =~= steps_below(path@, root@));
    Some(below)
}

/// Steps written out with `/` between them.
pub fn join_steps(parts: &Vec<String>) -> (r: String)
    ensures
        r@ == joined(views(parts@)),
{
    let mut out = String::new();
    let mut i: usize = 0;
    while i < parts.len()
        invariant
            i <= parts.len(),
            out@ == joined(views(parts@).take(i as int)),
        decreases parts.len() - i,
    {
        let ghost before = views(parts@).take(i as int);
        let ghost after = views(parts@).take(i + 1);
        assert(after.drop_last() =~= before);
        if i > 0 {
            out.push('/');
        } else {
            assert(out@ =~= seq![]);
        }
        out.append(parts[i].as_str());
        proof {
            if i > 0 {
                assert(out@ =~= joined(before) + seq!['/'] + after.last());
            } else {
                assert(out@ =~= after[0]);
            }
        }
        i += 1;
    }
    assert(views(parts@).take(parts.len() as int) =~= views(parts@));
    out
}

/// `s` without any leading `./`.
pub fn strip_dot_slash(s: &str) -> (r: &str)
    ensures
        r@ == trim_dot_slash(s@),
{
    let n = s.unicode_len();
    let mut i: usize = 0;
    assert(s@.skip(0) =~= s@);
    while n - i >= 2 && s.get_char(i) == '.' && s.get_char(i + 1) == '/'
        invariant
            n == s@.len(),
            i <= n,
            trim_dot_slash(s@) == trim_dot_slash(s@.skip(i as int)),
        decreases n - i,
    {
        assert(s@.skip(i as int).skip(2) =~= s@.skip(i + 2));
        i += 2;
    }
    s.substring_char(i, n)
}

/// The build context of the package at `path` in the workspace at `root`.
pub fn package_context(path: &str, root: &str) -> (r: String)
    ensures
        r@ == context_of(path@, root@),
{
    match relative_steps(path, root) {
        Some(below) => {
            if below.len() == 0 {
                let mut dot = String::new();
                dot.push('.');
                dot
            } else {
                join_steps(&below)
            }
        },
        None => strip_dot_slash(path).to_owned(),
    }
}

} // verus!

verus! {

proof fn lemma_close_after(x: Seq<Seq<char>>, done: Seq<Seq<char>>, cur: Seq<char>)
    ensures
        close(x + done, cur) == x + close(done, cur),
{
    if is_step(cur) {
        assert((x + done).push(cur) =~= x + done.push(cur));
    }
}

proof fn lemma_scan_after_separator(a: Seq<char>, b: Seq<char>)
    ensures
        scan(a + seq!['/'] + b) == (steps(a) + scan(b).0, scan(b).1),
    decreases b.len(),
{
    let s = a + seq!['/'] + b;
    if b.len() == 0 {
        assert(s.drop_last() =~= a);
        assert(steps(a) + seq![] =~= steps(a));
    } else {
        let b0 = b.drop_last();
        assert(s.drop_last() =~= a + seq!['/'] + b0);
        assert(s.last() == b.last());
        lemma_scan_after_separator(a, b0);
        lemma_close_after(steps(a), scan(b0).0, scan(b0).1);
    }
}

/// Writing a path below a base path `base/path` prefixes the base's steps.
pub proof fn lemma_steps_below_base(base: Seq<char>, path: Seq<char>)
    requires
        base.len() > 0,
    ensures
        steps(base + seq!['/'] + path) == steps(base) + steps(path),
        is_rooted(base + seq!['/'] + path) == is_rooted(base),
{
    lemma_scan_after_separator(base, path);
    lemma_close_after(steps(base), scan(path).0, scan(path).1);
}

/// A build context does not depend on where the workspace is placed: for a
/// package under the workspace root, stating both paths below any base path
/// (as an absolute path does, below `/`, or a path from another working
/// directory does) gives the same context.
pub proof fn lemma_context_independent_of_base(base: Seq<char>, path: Seq<char>, root: Seq<char>)
    requires
        base.len() > 0,
        is_under(path, root),
    ensures
        is_under(base + seq!['/'] + path, base + seq!['/'] + root),
        context_of(base + seq!['/'] + path, base + seq!['/'] + root) == context_of(path, root),
{
    lemma_steps_below_base(base, path);
    lemma_steps_below_base(base, root);
    let b = steps(base);
    let p = steps(path);
    let r = steps(root);
    assert((b + p).take((b.len() + r.len()) as int) =~= b + p.take(r.len() as int));
    assert((b + p).skip((b.len() + r.len()) as int) =~= p.skip(r.len() as int));
}

} // verus!

verus! {

pub open spec fn starts_with_dot_slash(s: Seq<char>) -> bool {
    s.len() >= 2 && s[0] == '.' && s[1] == '/'
}

pub open spec fn no_separator(s: Seq<char>) -> bool {
    forall|i: int| 0 <= i < s.len() ==> s[i] != '/'
}

proof fn lemma_scan_no_separator(s: Seq<char>)
    ensures
        forall|i: int|
            0 <= i < scan(s).0.len() ==> no_separator(#[trigger] scan(s).0[i]) && is_step(
                scan(s).0[i],
            ),
        no_separator(scan(s).1),
        forall|i: int|
            0 <= i < steps(s).len() ==> no_separator(#[trigger] steps(s)[i]) && is_step(
                steps(s)[i],
            ),
    decreases s.len(),
{
    if s.len() > 0 {
        lemma_scan_no_separator(s.drop_last());
    }
    assert forall|i: int| 0 <= i < steps(s).len() implies no_separator(#[trigger] steps(s)[i])
        && is_step(steps(s)[i]) by {
        if i < scan(s).0.len() {
            assert(steps(s)[i] == scan(s).0[i]);
        }
    }
}

proof fn lemma_joined_starts_with_first(parts: Seq<Seq<char>>)
    requires
        parts.len() > 0,
    ensures
        joined(parts).len() >= parts[0].len(),
        joined(parts).take(parts[0].len() as int) == parts[0],
        parts.len() > 1 ==> joined(parts).len() > parts[0].len() && joined(parts)[parts[0].len() as int] == '/',
    decreases parts.len(),
{
    if parts.len() > 1 {
        let init = parts.drop_last();
        lemma_joined_starts_with_first(init);
        if init.len() > 1 {
            assert((joined(init) + seq!['/'] + parts.last()).take(parts[0].len() as int) =~= joined(init).take(parts[0].len() as int));
        } else {
            assert(joined(init) == parts[0]);
            assert((joined(init) + seq!['/'] + parts.last()).take(parts[0].len() as int) =~= parts[0]);
        }
    } else {
        assert(parts[0].take(parts[0].len() as int) =~= parts[0]);
    }
}

proof fn lemma_trim_dot_slash(s: Seq<char>)
    ensures
        !starts_with_dot_slash(trim_dot_slash(s)),
    decreases s.len(),
{
    if starts_with_dot_slash(s) {
        lemma_trim_dot_slash(s.skip(2));
    }
}

/// A build context never begins with `./`.
pub proof fn lemma_context_has_no_leading_dot_slash(path: Seq<char>, root: Seq<char>)
    ensures
        !starts_with_dot_slash(context_of(path, root)),
{
    if is_under(path, root) {
        let below = steps_below(path, root);
        if below.len() > 0 {
            lemma_scan_no_separator(path);
            let first = below[0];
            assert(first == steps(path)[steps(root).len() as int]);
            assert(no_separator(first));
            assert(is_step(first));
            lemma_joined_starts_with_first(below);
            let j = joined(below);
            assert(j.take(first.len() as int)[0] == first[0]);
            if first.len() == 1 {
                assert(first =~= seq![first[0]]);
                assert(j[0] != '.');
            } else {
                assert(j.take(first.len() as int)[1] == first[1]);
                assert(j[1] != '/');
            }
        }
    } else {
        lemma_trim_dot_slash(path);
    }
}

} // verus!
