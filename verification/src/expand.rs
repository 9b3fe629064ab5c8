//! Expansion of `$VAR`, `${VAR}` and a leading `~` in manifest paths,
//! against a snapshot of the process environment.
use crate::parser::Os;
use crate::strmap::{StrMap, lookup};
use crate::text;
use crate::text::{chars_of, string_from_range, to_owned};
use vstd::prelude::*;

verus! {

/// `[A-Za-z0-9_]`.
pub open spec fn is_ident_char(c: char) -> bool {
    ('a' <= c && c <= 'z') || ('A' <= c && c <= 'Z') || ('0' <= c && c <= '9') || c == '_'
}

/// Length of the longest prefix of identifier characters.
pub open spec fn ident_len(s: Seq<char>) -> nat
    decreases s.len(),
{
    if s.len() > 0 && is_ident_char(s[0]) {
        1 + ident_len(s.drop_first())
    } else {
        0
    }
}

/// An identifier prefix is never longer than the text.
pub proof fn lemma_ident_len_bound(s: Seq<char>)
    ensures
        ident_len(s) <= s.len(),
    decreases s.len(),
{
    if s.len() > 0 && is_ident_char(s[0]) {
        lemma_ident_len_bound(s.drop_first());
    }
}

/// Index of the first `c` in `s`.
pub open spec fn first_char(s: Seq<char>, c: char) -> Option<int> {
    if exists|i: int| 0 <= i < s.len() && s[i] == c && forall|j: int| 0 <= j < i ==> s[j] != c {
        Some(choose|i: int| 0 <= i < s.len() && s[i] == c && forall|j: int| 0 <= j < i ==> s[j] != c)
    } else {
        None
    }
}

/// The expansion of `s`: `${NAME}` and `$NAME` become the variable's value
/// when it is set and stay as written when it is not; a `$` that starts
/// neither form stays. Every other character is kept as it is.
pub open spec fn expand_view(s: Seq<char>, env: Seq<(String, String)>) -> Seq<char>
    decreases s.len(),
{
    if s.len() == 0 {
        Seq::empty()
    } else if s[0] != '$' {
        seq![s[0]] + expand_view(s.drop_first(), env)
    } else {
        let rest = s.drop_first();
        if rest.len() > 0 && rest[0] == '{' {
            match first_char(rest.drop_first(), '}') {
                Some(e) => {
                    let name = rest.drop_first().take(e);
                    let out = match lookup(env, name) {
                        Some(v) => v@,
                        None => "${"@ + name + "}"@,
                    };
                    out + expand_view(rest.drop_first().skip(e + 1), env)
                },
                None => seq!['$'] + expand_view(rest, env),
            }
        } else {
            let n = ident_len(rest);
            if n == 0 {
                seq!['$'] + expand_view(rest, env)
            } else {
                let name = rest.take(n as int);
                let out = match lookup(env, name) {
                    Some(v) => v@,
                    None => "$"@ + name,
                };
                proof {
                    lemma_ident_len_bound(rest);
                }
                out + expand_view(rest.skip(n as int), env)
            }
        }
    }
}

/// `s` holds no `$`.
pub open spec fn no_dollar(s: Seq<char>) -> bool {
    forall|i: int| 0 <= i < s.len() ==> s[i] != '$'
}

/// Text without `$` is kept as it is, whatever follows it.
pub proof fn lemma_expand_keeps_plain_text(pre: Seq<char>, s: Seq<char>, env: Seq<(String, String)>)
    requires
        no_dollar(pre),
    ensures
        expand_view(pre + s, env) == pre + expand_view(s, env),
    decreases pre.len(),
{
    if pre.len() > 0 {
        assert((pre + s)[0] == pre[0]);
        assert((pre + s).drop_first() == pre.drop_first() + s);
        lemma_expand_keeps_plain_text(pre.drop_first(), s, env);
        assert(seq![pre[0]] + pre.drop_first() == pre);
    } else {
        assert(pre + s == s);
    }
}

/// Expansion law: in `pre ${NAME} post`, with no `$` in `pre` and no `}`
/// in `NAME`, the reference becomes the variable's value when it is set and
/// stays as written when it is not; `pre` is kept and `post` is expanded
/// on its own. Likewise for `$NAME` with a non-empty identifier name not
/// followed by another identifier character.
pub proof fn lemma_expand_reference(
    pre: Seq<char>,
    name: Seq<char>,
    post: Seq<char>,
    env: Seq<(String, String)>,
)
    requires
        no_dollar(pre),
    ensures
        (forall|i: int| 0 <= i < name.len() ==> name[i] != '}') ==> expand_view(
            pre + "${"@ + name + "}"@ + post,
            env,
        ) == pre + match lookup(env, name) {
            Some(v) => v@,
            None => "${"@ + name + "}"@,
        } + expand_view(post, env),
        (name.len() > 0 && (forall|i: int| 0 <= i < name.len() ==> is_ident_char(name[i])) && (post.len() == 0
            || !is_ident_char(post[0]))) ==> expand_view(pre + "$"@ + name + post, env) == pre + match lookup(
            env,
            name,
        ) {
            Some(v) => v@,
            None => "$"@ + name,
        } + expand_view(post, env),
{
    reveal_strlit("${");
    reveal_strlit("}");
    reveal_strlit("$");
    if forall|i: int| 0 <= i < name.len() ==> name[i] != '}' {
        let s = "${"@ + name + "}"@ + post;
        lemma_expand_keeps_plain_text(pre, s, env);
        assert(pre + "${"@ + name + "}"@ + post == pre + s);
        let rest = s.drop_first();
        assert(s[0] == '$');
        assert(rest[0] == '{');
        let inner = rest.drop_first();
        assert(inner == name + "}"@ + post);
        assert(inner[name.len() as int] == '}');
        assert forall|j: int| 0 <= j < name.len() implies inner[j] != '}' by {
            assert(inner[j] == name[j]);
        }
        let w = choose|i: int| 0 <= i < inner.len() && inner[i] == '}' && forall|j: int| 0 <= j < i ==> inner[j] != '}';
        assert(w == name.len());
        assert(inner.take(name.len() as int) == name);
        assert(inner.skip((name.len() + 1) as int) == post);
    }
    if name.len() > 0 && (forall|i: int| 0 <= i < name.len() ==> is_ident_char(name[i])) && (post.len() == 0
        || !is_ident_char(post[0])) {
        let s = "$"@ + name + post;
        lemma_expand_keeps_plain_text(pre, s, env);
        assert(pre + "$"@ + name + post == pre + s);
        let rest = s.drop_first();
        assert(rest == name + post);
        assert(rest[0] == name[0]);
        lemma_ident_len_of(name, post);
        assert(rest.take(name.len() as int) == name);
        assert(rest.skip(name.len() as int) == post);
    }
}

proof fn lemma_ident_len_of(name: Seq<char>, post: Seq<char>)
    requires
        forall|i: int| 0 <= i < name.len() ==> is_ident_char(name[i]),
        post.len() == 0 || !is_ident_char(post[0]),
    ensures
        ident_len(name + post) == name.len(),
    decreases name.len(),
{
    if name.len() > 0 {
        assert((name + post).drop_first() == name.drop_first() + post);
        lemma_ident_len_of(name.drop_first(), post);
    } else {
        assert(name + post == post);
    }
}

fn is_ident(c: char) -> (r: bool)
    ensures
        r == is_ident_char(c),
{
    ('a' <= c && c <= 'z') || ('A' <= c && c <= 'Z') || ('0' <= c && c <= '9') || c == '_'
}

/// Length of the identifier starting at `v[i]`.
fn ident_len_at(v: &Vec<char>, i: usize) -> (r: usize)
    requires
        i <= v.len(),
    ensures
        r == ident_len(v@.skip(i as int)),
        i + r <= v.len(),
    decreases v.len() - i,
{
    if i < v.len() && is_ident(v[i]) {
        assert(v@.skip(i as int).drop_first() == v@.skip(i + 1));
        1 + ident_len_at(v, i + 1)
    } else {
        0
    }
}

/// Position of the first `}` at or after `v[i]`.
fn find_close(v: &Vec<char>, i: usize) -> (r: Option<usize>)
    requires
        i <= v.len(),
    ensures
        match r {
            Some(e) => i <= e < v.len() && first_char(v@.skip(i as int), '}') == Some(e - i),
            None => first_char(v@.skip(i as int), '}') is None,
        },
{
    let mut k = i;
    while k < v.len()
        invariant
            i <= k <= v.len(),
            forall|j: int| i <= j < k ==> v@[j] != '}',
        decreases v.len() - k,
    {
        if v[k] == '}' {
            proof {
                let s = v@.skip(i as int);
                let w = choose|w: int| 0 <= w < s.len() && s[w] == '}' && forall|j: int| 0 <= j < w ==> s[j] != '}';
                assert(s[k - i] == '}');
                assert(w == k - i);
            }
            return Some(k);
        }
        k = k + 1;
    }
    None
}

/// Expands `${VAR}` and `$VAR` using the environment snapshot `env`.
/// Unknown variables are left untouched so the failure is visible downstream.
pub fn expand_env_vars(input: &str, env: &StrMap<String>) -> (r: String)
    ensures
        r@ == expand_view(input@, env.entries@),
{
    let v = chars_of(input);
    let mut out = String::new();
    let mut i: usize = 0;
    assert(v@.skip(0) == v@);
    while i < v.len()
        invariant
            v@ == input@,
            i <= v.len(),
            out@ + expand_view(v@.skip(i as int), env.entries@) == expand_view(input@, env.entries@),
        decreases v.len() - i,
    {
        let ghost s = v@.skip(i as int);
        let c = v[i];
        assert(s[0] == c);
        if c != '$' {
            out.push(c);
            assert(s.drop_first() == v@.skip(i + 1));
            i = i + 1;
            continue;
        }
        let ghost rest = s.drop_first();
        assert(rest == v@.skip(i + 1));
        if i + 1 < v.len() && v[i + 1] == '{' {
            assert(rest[0] == '{');
            assert(rest.drop_first() == v@.skip(i + 2));
            match find_close(&v, i + 2) {
                Some(e) => {
                    let name = string_from_range(&v, i + 2, e);
                    assert(name@ == rest.drop_first().take(e - (i + 2)));
                    match env.get(name.as_str()) {
                        Some(value) => out.append(value.as_str()),
                        None => {
                            out.append("${");
                            out.append(name.as_str());
                            out.append("}");
                        },
                    }
                    assert(rest.drop_first().skip(e - (i + 2) + 1) == v@.skip(e + 1));
                    i = e + 1;
                    continue;
                },
                None => {
                    out.push('$');
                    i = i + 1;
                    continue;
                },
            }
        }
        assert(!(rest.len() > 0 && rest[0] == '{'));
        let n = ident_len_at(&v, i + 1);
        if n == 0 {
            out.push('$');
            i = i + 1;
            continue;
        }
        let name = string_from_range(&v, i + 1, i + 1 + n);
        assert(name@ == rest.take(n as int));
        match env.get(name.as_str()) {
            Some(value) => out.append(value.as_str()),
            None => {
                out.append("$");
                out.append(name.as_str());
            },
        }
        assert(rest.skip(n as int) == v@.skip(i + 1 + n));
        i = i + 1 + n;
    }
    assert(v@.skip(v.len() as int) == Seq::<char>::empty());
    out
}

/// A manifest path with variables expanded, then a leading `~` resolved
/// against `home`: `~` alone, `~/`, and on Windows also `~\\`.
pub open spec fn expand_path_view(input: Seq<char>, home: Seq<char>, env: Seq<(String, String)>, os: Os) -> Seq<char> {
    let e = expand_view(input, env);
    if e == "~"@ {
        home
    } else if text::starts_with_seq(e, "~/"@) || (os is Windows && text::starts_with_seq(e, "~\\"@)) {
        crate::paths::path_join_on(os, home, e.skip(2))
    } else {
        e
    }
}

/// Expands a manifest path: environment variables first, then a leading `~`.
pub fn expand_path(input: &str, home: &str, env: &StrMap<String>, os: Os) -> (r: String)
    ensures
        r@ == expand_path_view(input@, home@, env.entries@, os),
{
    let expanded = expand_env_vars(input, env);
    if text::str_eq(expanded.as_str(), "~") {
        return to_owned(home);
    }
    proof {
        reveal_strlit("~/");
        reveal_strlit("~\\");
    }
    let windows = match os {
        Os::Windows => true,
        _ => false,
    };
    if text::str_starts_with(expanded.as_str(), "~/") || (windows && text::str_starts_with(expanded.as_str(), "~\\")) {
        let v = chars_of(expanded.as_str());
        let rest = string_from_range(&v, 2, v.len());
        assert(rest@ == expanded@.skip(2));
        return crate::paths::join_path_on(os, home, rest.as_str());
    }
    expanded
}

} // verus!
