//! Path arithmetic on UTF-8 path strings, with `Path::join` semantics on
//! Unix hosts.
use crate::parser::Os;
use crate::text::{chars_of, string_from_range, to_owned};
use vstd::prelude::*;

verus! {

/// `base.join(rest)`: an absolute `rest` replaces `base`; otherwise a `/`
/// separates the two unless `base` is empty or already ends with one.
pub open spec fn path_join(base: Seq<char>, rest: Seq<char>) -> Seq<char> {
    if rest.len() > 0 && rest[0] == '/' {
        rest
    } else if base.len() == 0 {
        rest
    } else if base.last() == '/' {
        base + rest
    } else {
        base + "/"@ + rest
    }
}

/// Exec counterpart of [`path_join`].
pub fn join_path(base: &str, rest: &str) -> (r: String)
    ensures
        r@ == path_join(base@, rest@),
{
    let b = chars_of(base);
    let t = chars_of(rest);
    if t.len() > 0 && t[0] == '/' {
        return to_owned(rest);
    }
    if b.len() == 0 {
        return to_owned(rest);
    }
    let mut r = to_owned(base);
    if b[b.len() - 1] != '/' {
        r.append("/");
    }
    r.append(rest);
    r
}

/// A Windows path separator: `\\` or `/`.
pub open spec fn is_win_sep(c: char) -> bool {
    c == '\\' || c == '/'
}

/// `base.join(rest)` on the host `os`. On Windows a `rest` with a drive
/// (`X:`) replaces `base`, a `rest` that starts at the root keeps only the
/// drive of `base`, and `\\` separates the two; elsewhere [`path_join`].
pub open spec fn path_join_on(os: Os, base: Seq<char>, rest: Seq<char>) -> Seq<char> {
    if os is Windows {
        if rest.len() >= 2 && rest[1] == ':' {
            rest
        } else if rest.len() > 0 && is_win_sep(rest[0]) {
            if base.len() >= 2 && base[1] == ':' {
                base.take(2) + rest
            } else {
                rest
            }
        } else if base.len() == 0 {
            rest
        } else if is_win_sep(base.last()) {
            base + rest
        } else {
            base + "\\"@ + rest
        }
    } else {
        path_join(base, rest)
    }
}

/// Exec counterpart of [`path_join_on`].
pub fn join_path_on(os: Os, base: &str, rest: &str) -> (r: String)
    ensures
        r@ == path_join_on(os, base@, rest@),
{
    match os {
        Os::Windows => {},
        _ => {
            return join_path(base, rest);
        },
    }
    let b = chars_of(base);
    let t = chars_of(rest);
    if t.len() >= 2 && t[1] == ':' {
        return to_owned(rest);
    }
    if t.len() > 0 && (t[0] == '\\' || t[0] == '/') {
        if b.len() >= 2 && b[1] == ':' {
            let mut r = string_from_range(&b, 0, 2);
            r.append(rest);
            return r;
        }
        return to_owned(rest);
    }
    if b.len() == 0 {
        return to_owned(rest);
    }
    let mut r = to_owned(base);
    if !(b[b.len() - 1] == '\\' || b[b.len() - 1] == '/') {
        r.append("\\");
        proof {
            reveal_strlit("\\");
        }
    }
    r.append(rest);
    r
}

} // verus!
