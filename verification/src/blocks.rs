//! Bounded `# swiss begin/end` blocks in startup files, and the laws of
//! replacing them in place.
use crate::text;
use crate::text::{chars_of, find_from, string_from_range, to_owned};
use vstd::prelude::*;

verus! {

/// Start of a bounded block line (followed by a space and the block name).
pub const BLOCK_BEGIN: &'static str = "# swiss begin:";

/// End of a bounded block line (followed by a space and the block name).
pub const BLOCK_END: &'static str = "# swiss end:";

/// The line opening block `name`.
pub open spec fn begin_marker(name: Seq<char>) -> Seq<char> {
    BLOCK_BEGIN@ + " "@ + name
}

/// The line closing block `name`.
pub open spec fn end_marker(name: Seq<char>) -> Seq<char> {
    BLOCK_END@ + " "@ + name
}

/// A bounded block holding `content` (trailing whitespace trimmed).
pub open spec fn block_view(name: Seq<char>, content: Seq<char>) -> Seq<char> {
    begin_marker(name) + "\n"@ + text::trim_end_seq(content) + "\n"@ + end_marker(name) + "\n"@
}

/// Wraps content in a bounded, idempotent block.
pub fn render_block(name: &str, content: &str) -> (r: String)
    ensures
        r@ == block_view(name@, content@),
{
    let mut r = String::new();
    r.append(BLOCK_BEGIN);
    r.append(" ");
    r.append(name);
    r.append("\n");
    let t = text::trim_end(content);
    r.append(t.as_str());
    r.append("\n");
    r.append(BLOCK_END);
    r.append(" ");
    r.append(name);
    r.append("\n");
    r
}

/// `m` occurs in `h` at `i` and ends there: the text ends or a line break
/// follows. A marker for block `path` is thus never found inside the
/// marker of block `path2`.
pub open spec fn marker_at(h: Seq<char>, m: Seq<char>, i: int) -> bool {
    &&& text::matches_at(h, m, i)
    &&& (i + m.len() == h.len() || h[i + m.len()] == '\n')
}

/// `m` occurs in `h` and ends there (see [`marker_at`]).
pub open spec fn has_marker(h: Seq<char>, m: Seq<char>) -> bool {
    exists|i: int| marker_at(h, m, i)
}

/// `m` occurs in `h` followed by a line break of `h`.
pub open spec fn has_marker_line(h: Seq<char>, m: Seq<char>) -> bool {
    exists|i: int| text::matches_at(h, m, i) && i + m.len() < h.len() && h[i + m.len()] == '\n'
}

/// The first position at or after `from` where `m` occurs and ends.
pub open spec fn first_marker(h: Seq<char>, m: Seq<char>, from: int) -> Option<int> {
    if exists|i: int| from <= i && marker_at(h, m, i) && forall|j: int| from <= j < i ==> !marker_at(h, m, j) {
        Some(choose|i: int| from <= i && marker_at(h, m, i) && forall|j: int| from <= j < i ==> !marker_at(h, m, j))
    } else {
        None
    }
}

/// The first position at or after `from` where `n` occurs in `h`.
pub open spec fn first_match(h: Seq<char>, n: Seq<char>, from: int) -> Option<int> {
    if exists|i: int| from <= i && text::matches_at(h, n, i) && forall|j: int| from <= j < i ==> !text::matches_at(h, n, j) {
        Some(choose|i: int| from <= i && text::matches_at(h, n, i) && forall|j: int| from <= j < i ==> !text::matches_at(h, n, j))
    } else {
        None
    }
}

pub proof fn lemma_first_marker_is(h: Seq<char>, m: Seq<char>, from: int, i: int)
    requires
        from <= i,
        marker_at(h, m, i),
        forall|j: int| from <= j < i ==> !marker_at(h, m, j),
    ensures
        first_marker(h, m, from) == Some(i),
{
    let w = choose|w: int| from <= w && marker_at(h, m, w) && forall|j: int| from <= j < w ==> !marker_at(h, m, j);
    assert(w == i);
}

pub proof fn lemma_first_match_is(h: Seq<char>, n: Seq<char>, from: int, i: int)
    requires
        from <= i,
        text::matches_at(h, n, i),
        forall|j: int| from <= j < i ==> !text::matches_at(h, n, j),
    ensures
        first_match(h, n, from) == Some(i),
{
    let w = choose|w: int| from <= w && text::matches_at(h, n, w) && forall|j: int| from <= j < w ==> !text::matches_at(h, n, j);
    assert(w == i);
}

/// The first marker is a marker, and none comes before it.
pub proof fn lemma_first_marker_facts(h: Seq<char>, m: Seq<char>, from: int)
    ensures
        match first_marker(h, m, from) {
            Some(i) => from <= i && marker_at(h, m, i) && forall|j: int| from <= j < i ==> !marker_at(h, m, j),
            None => forall|j: int| from <= j ==> !marker_at(h, m, j),
        },
{
    if first_marker(h, m, from) is None {
        assert forall|j: int| from <= j implies !marker_at(h, m, j) by {
            if marker_at(h, m, j) {
                lemma_some_first_marker(h, m, from, j);
            }
        }
    }
}

proof fn lemma_some_first_marker(h: Seq<char>, m: Seq<char>, from: int, j: int)
    requires
        from <= j,
        marker_at(h, m, j),
    ensures
        first_marker(h, m, from) is Some,
    decreases j - from,
{
    if forall|k: int| from <= k < j ==> !marker_at(h, m, k) {
        lemma_first_marker_is(h, m, from, j);
    } else {
        let k = choose|k: int| from <= k < j && marker_at(h, m, k);
        lemma_some_first_marker(h, m, from, k);
    }
}

/// `existing` with `block` appended after a blank line.
pub open spec fn appended(existing: Seq<char>, block: Seq<char>) -> Seq<char> {
    if existing.len() == 0 {
        block
    } else if existing.last() == '\n' {
        existing + "\n"@ + block
    } else {
        existing + "\n\n"@ + block
    }
}

/// Where the end marker of a block that begins at `b` is found: the first
/// end marker that ends its line, or else the first occurrence of the end
/// marker's text.
pub open spec fn end_marker_pos(existing: Seq<char>, name: Seq<char>, b: int) -> Option<int> {
    match first_marker(existing, end_marker(name), b) {
        Some(x) => Some(x),
        None => first_match(existing, end_marker(name), b),
    }
}

/// The result of upserting block `name` with `content` into `existing`.
/// The block begins at the first begin marker of `name` that ends its line
/// (so the marker of a block whose name merely starts with `name` never
/// counts) and runs to the end of the line of its end marker (see
/// [`end_marker_pos`]); that span is replaced by the new block. Without a
/// begin marker, or without an end marker after it, the block is appended
/// after a blank line.
pub open spec fn upsert_view(existing: Seq<char>, name: Seq<char>, content: Seq<char>) -> Seq<char> {
    let block = block_view(name, content);
    match first_marker(existing, begin_marker(name), 0) {
        Some(b) => match end_marker_pos(existing, name, b) {
            Some(es) => {
                let end = match first_match(existing, "\n"@, es) {
                    Some(nl) => nl + 1,
                    None => existing.len() as int,
                };
                existing.subrange(0, b) + block + existing.subrange(end, existing.len() as int)
            },
            None => appended(existing, block),
        },
        None => appended(existing, block),
    }
}

/// No marker where there is no match at all.
proof fn lemma_no_match_no_marker(h: Seq<char>, m: Seq<char>, from: int, k: int, i: int)
    requires
        from <= k,
        forall|j: int| from <= j < k ==> !marker_at(h, m, j),
        forall|j: int| k <= j < i ==> !text::matches_at(h, m, j),
    ensures
        forall|j: int| from <= j < i ==> !marker_at(h, m, j),
{
    assert forall|j: int| from <= j < i implies !marker_at(h, m, j) by {
        if j >= k && marker_at(h, m, j) {
            assert(text::matches_at(h, m, j));
        }
    }
}

/// Exec search with the `first_marker` contract.
#[verifier::spinoff_prover]
#[verifier::rlimit(60)]
fn find_marker(h: &Vec<char>, m: &Vec<char>, from: usize) -> (r: Option<usize>)
    ensures
        match r {
            Some(i) => first_marker(h@, m@, from as int) == Some(i as int) && i + m@.len() <= h@.len(),
            None => first_marker(h@, m@, from as int) is None,
        },
{
    let mut k = from;
    while k <= h.len()
        invariant
            from <= k,
            forall|j: int| from <= j < k ==> !marker_at(h@, m@, j),
        decreases h.len() + 1 - k,
    {
        match find_from(h, m, k) {
            None => {
                proof {
                    lemma_no_match_no_marker(h@, m@, from as int, k as int, (h@.len() + 1) as int);
                    lemma_first_marker_facts(h@, m@, from as int);
                }
                return None;
            },
            Some(i) => {
                proof {
                    lemma_no_match_no_marker(h@, m@, from as int, k as int, i as int);
                }
                let end_ok = i + m.len() == h.len() || h[i + m.len()] == '\n';
                if end_ok {
                    proof {
                        lemma_first_marker_is(h@, m@, from as int, i as int);
                    }
                    return Some(i);
                }
                if i >= h.len() {
                    proof {
                        lemma_first_marker_facts(h@, m@, from as int);
                    }
                    return None;
                }
                k = i + 1;
            },
        }
    }
    proof {
        lemma_first_marker_facts(h@, m@, from as int);
    }
    None
}

/// Exec search with the `first_match` contract.
fn find_first(h: &Vec<char>, n: &Vec<char>, from: usize) -> (r: Option<usize>)
    ensures
        match r {
            Some(i) => first_match(h@, n@, from as int) == Some(i as int) && i + n@.len() <= h@.len(),
            None => first_match(h@, n@, from as int) is None,
        },
{
    match find_from(h, n, from) {
        Some(i) => {
            proof {
                lemma_first_match_is(h@, n@, from as int, i as int);
            }
            Some(i)
        },
        None => None,
    }
}

/// Replaces an existing bounded block or appends a new one (see
/// [`upsert_view`]).
#[verifier::spinoff_prover]
pub fn upsert_block(existing: &str, name: &str, content: &str) -> (r: String)
    ensures
        r@ == upsert_view(existing@, name@, content@),
{
    let mut bm = to_owned(BLOCK_BEGIN);
    bm.append(" ");
    bm.append(name);
    let mut em = to_owned(BLOCK_END);
    em.append(" ");
    em.append(name);
    let block = render_block(name, content);
    let ev = chars_of(existing);
    let bmv = chars_of(bm.as_str());
    let emv = chars_of(em.as_str());
    let nlv = chars_of("\n");

    if let Some(begin) = find_marker(&ev, &bmv, 0) {
        let es = match find_marker(&ev, &emv, begin) {
            Some(x) => Some(x),
            None => find_first(&ev, &emv, begin),
        };
        if let Some(end_start) = es {
            let end = match find_first(&ev, &nlv, end_start) {
                Some(nl) => {
                    proof {
                        reveal_strlit("\n");
                    }
                    assert(nl + nlv@.len() <= ev@.len());
                    nl + 1
                },
                None => ev.len(),
            };
            let mut out = string_from_range(&ev, 0, begin);
            out.append(block.as_str());
            let tail = string_from_range(&ev, end, ev.len());
            out.append(tail.as_str());
            return out;
        }
    }

    let mut out = to_owned(existing);
    let n = ev.len();
    if n > 0 && ev[n - 1] != '\n' {
        out.append("\n");
    }
    if n > 0 {
        out.append("\n");
    }
    out.append(block.as_str());
    proof {
        if n > 0 {
            assert(existing@.last() == ev@[n - 1]);
            reveal_strlit("\n");
            reveal_strlit("\n\n");
            assert(("\n"@ + "\n"@) == "\n\n"@);
        }
    }
    out
}

/// `s` holds no line break.
pub open spec fn no_newline(s: Seq<char>) -> bool {
    forall|i: int| 0 <= i < s.len() ==> s[i] != '\n'
}

/// A match of a newline-free pattern never covers a line break.
proof fn lemma_no_cross(h: Seq<char>, n: Seq<char>, i: int, k: int)
    requires
        text::matches_at(h, n, i),
        no_newline(n),
        0 <= k < h.len(),
        h[k] == '\n',
    ensures
        !(i <= k < i + n.len()),
{
    if i <= k < i + n.len() {
        assert(h.subrange(i, i + n.len())[k - i] == h[k]);
        assert(n[k - i] != '\n');
    }
}

/// The shape of the block markers.
proof fn lemma_markers(name: Seq<char>)
    requires
        no_newline(name),
    ensures
        no_newline(begin_marker(name)),
        no_newline(end_marker(name)),
        begin_marker(name).len() == name.len() + 15,
        end_marker(name).len() == name.len() + 13,
        begin_marker(name)[0] == '#',
        begin_marker(name)[2] == 's',
        end_marker(name)[0] == '#',
{
    reveal_strlit("# swiss begin:");
    reveal_strlit("# swiss end:");
    reveal_strlit(" ");
    let bm = begin_marker(name);
    let em = end_marker(name);
    assert forall|i: int| 0 <= i < bm.len() implies bm[i] != '\n' by {
        if i >= 15 {
            assert(bm[i] == name[i - 15]);
        }
    }
    assert forall|i: int| 0 <= i < em.len() implies em[i] != '\n' by {
        if i >= 13 {
            assert(em[i] == name[i - 13]);
        }
    }
}

/// The positions of the parts of `pre + block + post`.
pub open spec fn layout_facts(
    e: Seq<char>,
    pre: Seq<char>,
    bm: Seq<char>,
    t: Seq<char>,
    em: Seq<char>,
    post: Seq<char>,
) -> bool {
    let b = pre.len() as int;
    let p1 = b + bm.len();
    let p2 = p1 + 1;
    let q = p2 + t.len() + 1;
    let z = q + em.len();
    &&& e.len() == z + 1 + post.len()
    &&& forall|k: int| 0 <= k < b ==> e[k] == pre[k]
    &&& forall|k: int| 0 <= k < bm.len() ==> e[b + k] == bm[k]
    &&& e[p1] == '\n'
    &&& forall|k: int| 0 <= k < t.len() ==> e[p2 + k] == t[k]
    &&& e[q - 1] == '\n'
    &&& forall|k: int| 0 <= k < em.len() ==> e[q + k] == em[k]
    &&& e[z] == '\n'
    &&& forall|k: int| 0 <= k < post.len() ==> e[z + 1 + k] == post[k]
}

proof fn lemma_block_layout(pre: Seq<char>, old_content: Seq<char>, post: Seq<char>, name: Seq<char>)
    ensures
        layout_facts(
            pre + block_view(name, old_content) + post,
            pre,
            begin_marker(name),
            text::trim_end_seq(old_content),
            end_marker(name),
            post,
        ),
        ({
            let e = pre + block_view(name, old_content) + post;
            let z = (pre.len() + block_view(name, old_content).len()) as int;
            &&& e.subrange(0, pre.len() as int) == pre
            &&& e.subrange(z, e.len() as int) == post
            &&& block_view(name, old_content).len() == begin_marker(name).len() + text::trim_end_seq(
                old_content,
            ).len() + end_marker(name).len() + 3
        }),
{
    reveal_strlit("\n");
    assert("\n"@ =~= seq!['\n']);
    let e = pre + block_view(name, old_content) + post;
    let t = text::trim_end_seq(old_content);
    assert(e =~= pre + begin_marker(name) + seq!['\n'] + t + seq!['\n'] + end_marker(name) + seq!['\n'] + post);
    let z = (pre.len() + block_view(name, old_content).len()) as int;
    assert(e.subrange(0, pre.len() as int) =~= pre);
    assert(e.subrange(z, e.len() as int) =~= post);
}

/// In the layout, the block's begin marker is the first one that ends its
/// line.
#[verifier::spinoff_prover]
proof fn lemma_layout_begin(e: Seq<char>, pre: Seq<char>, bm: Seq<char>, t: Seq<char>, em: Seq<char>, post: Seq<char>)
    requires
        layout_facts(e, pre, bm, t, em, post),
        no_newline(bm),
        bm.len() > 0,
        bm[0] == '#',
        !has_marker_line(pre, bm),
    ensures
        first_marker(e, bm, 0) == Some(pre.len() as int),
{
    let b = pre.len() as int;
    assert(e.subrange(b, b + bm.len()) =~= bm);
    assert forall|j: int| 0 <= j < b implies !marker_at(e, bm, j) by {
        if marker_at(e, bm, j) {
            if j + bm.len() < b {
                assert(pre.subrange(j, j + bm.len()) =~= e.subrange(j, j + bm.len()));
                assert(e[j + bm.len()] == pre[j + bm.len()]);
                assert(text::matches_at(pre, bm, j) && j + bm.len() < pre.len() && pre[j + bm.len()] == '\n');
            } else if j + bm.len() == b {
                assert(e[b] == bm[0]);
            } else {
                assert(e[j + bm.len()] == bm[j + bm.len() - b]);
            }
        }
    }
    lemma_first_marker_is(e, bm, 0, b);
}

/// No end marker that ends its line lies in the block body.
proof fn lemma_end_not_in_body(
    e: Seq<char>,
    pre: Seq<char>,
    bm: Seq<char>,
    t: Seq<char>,
    em: Seq<char>,
    post: Seq<char>,
    j: int,
)
    requires
        layout_facts(e, pre, bm, t, em, post),
        !has_marker(t, em),
        pre.len() + bm.len() + 1 <= j,
        j + em.len() <= pre.len() + bm.len() + t.len() + 1,
    ensures
        !marker_at(e, em, j),
{
    if marker_at(e, em, j) {
        let p2 = pre.len() + bm.len() + 1;
        let d = j - p2;
        assert forall|k: int| 0 <= k < em.len() implies #[trigger] t.subrange(d, d + em.len())[k] == e.subrange(j, j + em.len())[k] by {
            assert(e[p2 + (d + k)] == t[d + k]);
        }
        assert(t.subrange(d, d + em.len()) =~= e.subrange(j, j + em.len()));
        if d + em.len() < t.len() {
            assert(e[p2 + (d + em.len())] == t[d + em.len()]);
        }
        assert(marker_at(t, em, d));
    }
}

/// In the layout, the block's end marker is the first one after its begin
/// marker that ends its line.
#[verifier::spinoff_prover]
#[verifier::rlimit(40)]
proof fn lemma_layout_end(e: Seq<char>, pre: Seq<char>, bm: Seq<char>, t: Seq<char>, em: Seq<char>, post: Seq<char>)
    requires
        layout_facts(e, pre, bm, t, em, post),
        no_newline(em),
        no_newline(bm),
        em.len() > 0,
        em[0] == '#',
        bm.len() == em.len() + 2,
        bm[2] == 's',
        !has_marker(t, em),
    ensures
        first_marker(e, em, pre.len() as int) == Some((pre.len() + bm.len() + t.len() + 2) as int),
{
    let b = pre.len() as int;
    let p1 = b + bm.len();
    let q = p1 + 1 + t.len() + 1;
    assert(e.subrange(q, q + em.len()) =~= em);
    assert forall|j: int| b <= j < q implies !marker_at(e, em, j) by {
        if marker_at(e, em, j) {
            let z = j + em.len();
            if z >= q {
                assert(e[z] == em[z - q]);
            } else if z == q - 1 && j < p1 + 1 {
                lemma_no_cross(e, em, j, p1);
            } else if j <= p1 && p1 < z {
                lemma_no_cross(e, em, j, p1);
            } else if z <= p1 {
                if z < p1 {
                    assert(e[z] == bm[z - b]);
                } else {
                    assert(j == b + 2);
                    assert(e.subrange(j, z)[0] == em[0]);
                    assert(e[j] == bm[2]);
                }
            } else if j == p1 {
                assert(e.subrange(j, z)[0] == em[0]);
            } else {
                lemma_end_not_in_body(e, pre, bm, t, em, post, j);
            }
        }
    }
    lemma_first_marker_is(e, em, b, q);
}

proof fn lemma_layout_newline(e: Seq<char>, pre: Seq<char>, bm: Seq<char>, t: Seq<char>, em: Seq<char>, post: Seq<char>)
    requires
        layout_facts(e, pre, bm, t, em, post),
        no_newline(em),
    ensures
        first_match(e, "\n"@, (pre.len() + bm.len() + t.len() + 2) as int) == Some(
            (pre.len() + bm.len() + t.len() + 2 + em.len()) as int,
        ),
{
    reveal_strlit("\n");
    let nl = "\n"@;
    assert(nl =~= seq!['\n']);
    let q = (pre.len() + bm.len() + t.len() + 2) as int;
    let z = q + em.len();
    assert(e.subrange(z, z + 1) =~= nl);
    assert forall|j: int| q <= j < z implies !text::matches_at(e, nl, j) by {
        if text::matches_at(e, nl, j) {
            assert(e.subrange(j, j + 1)[0] == e[j]);
            assert(e[j] == em[j - q]);
        }
    }
    lemma_first_match_is(e, nl, q, z);
}

/// Upserting into a text that holds block `name` replaces exactly that
/// block, in place: what precedes and what follows it are left as they
/// are, other blocks included, and the text before it need not end a line.
/// It holds whenever the block name is a single line, the text before the
/// block has no begin marker of `name` followed by a line break, and the old
/// block body has no end marker of `name` ending a line.
#[verifier::spinoff_prover]
pub proof fn lemma_upsert_replaces_block(
    pre: Seq<char>,
    old_content: Seq<char>,
    post: Seq<char>,
    name: Seq<char>,
    content: Seq<char>,
)
    requires
        no_newline(name),
        !has_marker_line(pre, begin_marker(name)),
        !has_marker(text::trim_end_seq(old_content), end_marker(name)),
    ensures
        upsert_view(pre + block_view(name, old_content) + post, name, content) == pre + block_view(
            name,
            content,
        ) + post,
{
    lemma_markers(name);
    let bm = begin_marker(name);
    let em = end_marker(name);
    let t = text::trim_end_seq(old_content);
    let e = pre + block_view(name, old_content) + post;
    lemma_block_layout(pre, old_content, post, name);
    lemma_layout_begin(e, pre, bm, t, em, post);
    lemma_layout_end(e, pre, bm, t, em, post);
    lemma_layout_newline(e, pre, bm, t, em, post);
    let z = (pre.len() + bm.len() + t.len() + 2 + em.len()) as int;
    assert(z + 1 == pre.len() + block_view(name, old_content).len());
}

/// Upserting the same block twice gives what upserting it once gives. It
/// holds for every text in which a begin marker of `name` that ends its line,
/// if there is one, is followed by the end marker's text, for every
/// single-line name, and for every content whose body holds no end marker of
/// `name` ending a line.
#[verifier::spinoff_prover]
#[verifier::rlimit(30)]
pub proof fn lemma_upsert_idempotent(existing: Seq<char>, name: Seq<char>, content: Seq<char>)
    requires
        no_newline(name),
        !has_marker(text::trim_end_seq(content), end_marker(name)),
        match first_marker(existing, begin_marker(name), 0) {
            Some(b) => end_marker_pos(existing, name, b) is Some,
            None => true,
        },
    ensures
        upsert_view(upsert_view(existing, name, content), name, content) == upsert_view(
            existing,
            name,
            content,
        ),
{
    reveal_strlit("\n");
    reveal_strlit("\n\n");
    lemma_markers(name);
    let bm = begin_marker(name);
    let block = block_view(name, content);
    let empty = Seq::<char>::empty();
    lemma_first_marker_facts(existing, bm, 0);
    match first_marker(existing, bm, 0) {
        Some(b) => {
            let es = end_marker_pos(existing, name, b)->0;
            let end = match first_match(existing, "\n"@, es) {
                Some(nl) => nl + 1,
                None => existing.len() as int,
            };
            let pre = existing.subrange(0, b);
            let post = existing.subrange(end, existing.len() as int);
            assert(upsert_view(existing, name, content) == pre + block + post);
            assert forall|j: int|
                text::matches_at(pre, bm, j) && j + bm.len() < pre.len() && pre[j + bm.len()] == '\n' implies false by {
                assert(existing.subrange(j, j + bm.len()) =~= pre.subrange(j, j + bm.len()));
                assert(existing[j + bm.len()] == pre[j + bm.len()]);
                assert(marker_at(existing, bm, j));
            }
            lemma_upsert_replaces_block(pre, content, post, name, content);
        },
        None => {
            let pre = if existing.len() == 0 {
                empty
            } else if existing.last() == '\n' {
                existing + "\n"@
            } else {
                existing + "\n\n"@
            };
            assert(appended(existing, block) == pre + block + empty);
            assert forall|j: int|
                text::matches_at(pre, bm, j) && j + bm.len() < pre.len() && pre[j + bm.len()] == '\n' implies false by {
                if j + bm.len() <= existing.len() {
                    assert(existing.subrange(j, j + bm.len()) =~= pre.subrange(j, j + bm.len()));
                    if j + bm.len() < existing.len() {
                        assert(existing[j + bm.len()] == pre[j + bm.len()]);
                    }
                    assert(marker_at(existing, bm, j));
                } else {
                    assert(pre[existing.len() as int] == '\n');
                    lemma_no_cross(pre, bm, j, existing.len() as int);
                }
            }
            lemma_upsert_replaces_block(pre, content, empty, name, content);
            assert(pre + block + empty =~= pre + block);
        },
    }
}

} // verus!
