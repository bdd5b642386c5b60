//! Build-target identifiers derived from manifest package names.

use vstd::prelude::*;

verus! {

/// What `str::to_lowercase` returns for a string: its lowercase equivalent
/// under Unicode's case mapping.
pub uninterp spec fn lower_of(s: Seq<char>) -> Seq<char>;

/// Relies on `str::to_lowercase`: the lowercase equivalent of the string,
/// which depends on its characters alone.
#[verifier::external_body]
fn lowercase(s: &str) -> (r: String)
    ensures
        r@ == lower_of(s@),
{
    s.to_lowercase()
}

/// A character that is not the scope marker `@`.
pub open spec fn is_kept(c: char) -> bool {
    c != '@'
}

/// The path separator `/` becomes `-`; every other character is unchanged.
pub open spec fn dash_for_slash(c: char) -> char {
    if c == '/' {
        '-'
    } else {
        c
    }
}

/// A name with every `@` removed and every `/` replaced by `-`.
pub open spec fn unscoped(name: Seq<char>) -> Seq<char> {
    name.filter(|c: char| is_kept(c)).map_values(|c: char| dash_for_slash(c))
}

/// The target identifier of a manifest name: every `@` removed, then every
/// `/` replaced by `-`, then the remainder lowercased.
pub open spec fn sanitized(name: Seq<char>) -> Seq<char> {
    lower_of(unscoped(name))
}

proof fn lemma_unscoped_push(s: Seq<char>, c: char)
    ensures
        unscoped(s.push(c)) == if is_kept(c) {
            unscoped(s).push(dash_for_slash(c))
        } else {
            unscoped(s)
        },
{
    reveal(Seq::filter);
    assert(s.push(c).drop_last() == s);
    let f = s.filter(|c: char| is_kept(c));
    assert(f.push(c).map_values(|c: char| dash_for_slash(c)) =~= f.map_values(
        |c: char| dash_for_slash(c),
    ).push(dash_for_slash(c)));
}

/// Neither `@` nor `/` occurs in `s`.
pub open spec fn has_no_scope_marks(s: Seq<char>) -> bool {
    forall|i: int| 0 <= i < s.len() ==> s[i] != '@' && s[i] != '/'
}

proof fn lemma_unscoped_keeps_plain(s: Seq<char>)
    requires
        has_no_scope_marks(s),
    ensures
        unscoped(s) == s,
    decreases s.len(),
{
    if s.len() > 0 {
        let t = s.drop_last();
        assert(t.push(s.last()) == s);
        assert(has_no_scope_marks(t)) by {
            assert forall|i: int| 0 <= i < t.len() implies t[i] != '@' && t[i] != '/' by {
                assert(t[i] == s[i]);
            }
        }
        lemma_unscoped_keeps_plain(t);
        lemma_unscoped_push(t, s.last());
    } else {
        reveal(Seq::filter);
        assert(unscoped(s) =~= s);
    }
}

/// Sanitizing a sanitized name gives it back wherever lowercasing settles:
/// when the sanitized name holds no `@` or `/` and lowercasing leaves it
/// unchanged, sanitizing it again changes nothing.
pub proof fn lemma_sanitize_idempotent_where_lowercase_settles(name: Seq<char>)
    requires
        has_no_scope_marks(sanitized(name)),
        lower_of(sanitized(name)) == sanitized(name),
    ensures
        sanitized(sanitized(name)) == sanitized(name),
{
    lemma_unscoped_keeps_plain(sanitized(name));
}

/// Maps a manifest package name to a build-target identifier: `@` removed,
/// `/` replaced by `-`, then lowercased.
pub fn sanitize_docker_name(name: &str) -> (r: String)
    ensures
        r@ == sanitized(name@),
{
    let mut out = String::new();
    for c in it: name.chars()
        invariant
            it.seq() == name@,
            out@ == unscoped(name@.take(it.index() as int)),
    {
        proof {
            assert(name@.take(it.index() + 1) == name@.take(it.index() as int).push(c));
            lemma_unscoped_push(name@.take(it.index() as int), c);
        }
        if c != '@' {
            if c == '/' {
                out.push('-');
            } else {
                out.push(c);
            }
        }
    }
    proof {
        assert(name@.take(name@.len() as int) == name@);
    }
    lowercase(out.as_str())
}

} // verus!
