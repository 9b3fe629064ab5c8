//! Manifest loading: the merged manifest and where it came from.
use crate::parser::SwissConfig;
use crate::text::{str_eq, to_owned, join_with};
use std::collections::hash_map::DefaultHasher;
use std::hash::Hasher;
use vstd::prelude::*;
use vstd::std_specs::hash::DefaultHasherAdditionalSpecFns;

verus! {

/// A manifest with includes resolved and profiles applied.
#[derive(Debug, Clone)]
pub struct LoadedManifest {
    pub config: SwissConfig,
    /// Directory of the entry manifest; `files[].source` paths resolve here.
    pub base_dir: String,
    /// Fingerprint of the merged manifest, stored in the cache after apply.
    pub fingerprint: String,
}

/// The lowercase hexadecimal digit of `d` (below 16).
pub open spec fn hex_digit(d: nat) -> char {
    if d < 10 {
        (('0' as nat) + d) as char
    } else {
        (('a' as nat) + d - 10) as char
    }
}

/// The last `k` hexadecimal digits of `n`, most significant first, padded
/// with zeros (`{:0k$x}` for values below `16^k`).
pub open spec fn hex_digits(n: nat, k: nat) -> Seq<char>
    decreases k,
{
    if k == 0 {
        Seq::empty()
    } else {
        hex_digits(n / 16, (k - 1) as nat).push(hex_digit(n % 16))
    }
}

fn hex_digits_of(n: u64, k: usize) -> (r: String)
    ensures
        r@ == hex_digits(n as nat, k as nat),
    decreases k,
{
    if k == 0 {
        String::new()
    } else {
        let mut s = hex_digits_of(n / 16, k - 1);
        let d = n % 16;
        let c = if d < 10 {
            ((48 + d) as u8) as char
        } else {
            ((87 + d) as u8) as char
        };
        assert(c == hex_digit(d as nat));
        s.push(c);
        s
    }
}

/// The fingerprint of a merged manifest's text: the `DefaultHasher` digest
/// of its bytes followed by the `0xff` terminator that string hashing
/// appends, as 16 lowercase hexadecimal digits.
pub fn manifest_fingerprint(merged: &str) -> (r: String)
    ensures
        r@ == hex_digits(
            DefaultHasher::spec_finish(seq![vstd::utf8::encode_utf8(merged@), seq![0xffu8]]) as nat,
            16,
        ),
{
    let mut hasher = DefaultHasher::new();
    hasher.write(merged.as_bytes());
    let end: [u8; 1] = [0xff];
    let tail = end.as_slice();
    assert(tail@ =~= seq![0xffu8]);
    hasher.write(tail);
    let h = hasher.finish();
    assert(hasher@ =~= seq![vstd::utf8::encode_utf8(merged@), seq![0xffu8]]);
    hex_digits_of(h, 16)
}

/// A YAML document as the manifest loader sees it.
#[derive(Debug)]
pub enum YamlValue {
    Null,
    Bool(bool),
    /// A number in its canonical textual form.
    Number(String),
    Text(String),
    Sequence(Vec<YamlValue>),
    /// Entries in document order; keys are unique.
    Mapping(Vec<(YamlValue, YamlValue)>),
    /// A tagged value, the tag written with its leading `!`.
    Tagged(String, Box<YamlValue>),
}

/// The mathematical form of a YAML value.
pub enum YamlSpec {
    Null,
    Bool(bool),
    Number(Seq<char>),
    Text(Seq<char>),
    Sequence(Seq<YamlSpec>),
    Mapping(Seq<(YamlSpec, YamlSpec)>),
    Tagged(Seq<char>, Box<YamlSpec>),
}

/// The mathematical form of a value.
pub open spec fn yaml_view(v: YamlValue) -> YamlSpec
    decreases v,
{
    match v {
        YamlValue::Null => YamlSpec::Null,
        YamlValue::Bool(b) => YamlSpec::Bool(b),
        YamlValue::Number(n) => YamlSpec::Number(n@),
        YamlValue::Text(t) => YamlSpec::Text(t@),
        YamlValue::Sequence(xs) => YamlSpec::Sequence(yaml_views(xs@)),
        YamlValue::Mapping(xs) => YamlSpec::Mapping(entry_views(xs@)),
        YamlValue::Tagged(t, x) => YamlSpec::Tagged(t@, Box::new(yaml_view(*x))),
    }
}

/// The mathematical forms of a sequence of values.
pub open spec fn yaml_views(xs: Seq<YamlValue>) -> Seq<YamlSpec>
    decreases xs,
{
    if xs.len() == 0 {
        Seq::empty()
    } else {
        yaml_views(xs.subrange(0, xs.len() - 1)).push(yaml_view(xs[xs.len() - 1]))
    }
}

/// The mathematical forms of mapping entries.
pub open spec fn entry_views(xs: Seq<(YamlValue, YamlValue)>) -> Seq<(YamlSpec, YamlSpec)>
    decreases xs,
{
    if xs.len() == 0 {
        Seq::empty()
    } else {
        entry_views(xs.subrange(0, xs.len() - 1)).push(
            (yaml_view(xs[xs.len() - 1].0), yaml_view(xs[xs.len() - 1].1)),
        )
    }
}

/// Whether `ys` holds an entry equal to `e`, key and value.
pub open spec fn has_entry(ys: Seq<(YamlSpec, YamlSpec)>, e: (YamlSpec, YamlSpec)) -> bool
    decreases e,
{
    exists|j: int|
        #![trigger ys[j]]
        0 <= j < ys.len() && yaml_equal(e.0, ys[j].0) && yaml_equal(e.1, ys[j].1)
}

/// YAML value equality: mappings compare as sets of entries, whatever
/// their order.
#[verifier::opaque]
pub open spec fn yaml_equal(a: YamlSpec, b: YamlSpec) -> bool
    decreases a,
{
    match (a, b) {
        (YamlSpec::Null, YamlSpec::Null) => true,
        (YamlSpec::Bool(x), YamlSpec::Bool(y)) => x == y,
        (YamlSpec::Number(x), YamlSpec::Number(y)) => x == y,
        (YamlSpec::Text(x), YamlSpec::Text(y)) => x == y,
        (YamlSpec::Sequence(xs), YamlSpec::Sequence(ys)) => xs.len() == ys.len() && forall|i: int|
            #![trigger xs[i]]
            0 <= i < xs.len() ==> yaml_equal(xs[i], ys[i]),
        (YamlSpec::Mapping(xs), YamlSpec::Mapping(ys)) => xs.len() == ys.len() && forall|i: int|
            #![trigger xs[i]]
            0 <= i < xs.len() ==> has_entry(ys, xs[i]),
        (YamlSpec::Tagged(t, x), YamlSpec::Tagged(u, y)) => t == u && yaml_equal(*x, *y),
        _ => false,
    }
}

/// `yaml_views` keeps length and maps each element.
pub proof fn lemma_yaml_views(xs: Seq<YamlValue>)
    ensures
        yaml_views(xs).len() == xs.len(),
        forall|i: int| 0 <= i < xs.len() ==> #[trigger] yaml_views(xs)[i] == yaml_view(xs[i]),
    decreases xs.len(),
{
    if xs.len() > 0 {
        lemma_yaml_views(xs.subrange(0, xs.len() - 1));
    }
}

/// `entry_views` keeps length and maps each entry.
pub proof fn lemma_entry_views(xs: Seq<(YamlValue, YamlValue)>)
    ensures
        entry_views(xs).len() == xs.len(),
        forall|i: int|
            0 <= i < xs.len() ==> #[trigger] entry_views(xs)[i] == (yaml_view(xs[i].0), yaml_view(xs[i].1)),
    decreases xs.len(),
{
    if xs.len() > 0 {
        lemma_entry_views(xs.subrange(0, xs.len() - 1));
    }
}

/// Equality of two values (see [`yaml_equal`]).
pub fn yaml_eq(a: &YamlValue, b: &YamlValue) -> (r: bool)
    ensures
        r == yaml_equal(yaml_view(*a), yaml_view(*b)),
    decreases a,
{
    reveal(yaml_equal);
    match (a, b) {
        (YamlValue::Null, YamlValue::Null) => true,
        (YamlValue::Bool(x), YamlValue::Bool(y)) => *x == *y,
        (YamlValue::Number(x), YamlValue::Number(y)) => str_eq(x.as_str(), y.as_str()),
        (YamlValue::Text(x), YamlValue::Text(y)) => str_eq(x.as_str(), y.as_str()),
        (YamlValue::Sequence(xs), YamlValue::Sequence(ys)) => {
            proof {
                lemma_yaml_views(xs@);
                lemma_yaml_views(ys@);
            }
            let ghost vx = yaml_views(xs@);
            let ghost vy = yaml_views(ys@);
            assert(yaml_view(*a) == YamlSpec::Sequence(vx));
            assert(yaml_view(*b) == YamlSpec::Sequence(vy));
            if xs.len() != ys.len() {
                return false;
            }
            let mut i: usize = 0;
            while i < xs.len()
                invariant
                    *a == YamlValue::Sequence(*xs),
                    yaml_view(*a) == YamlSpec::Sequence(vx),
                    yaml_view(*b) == YamlSpec::Sequence(vy),
                    i <= xs@.len(),
                    xs@.len() == ys@.len(),
                    vx.len() == xs@.len(),
                    vy.len() == ys@.len(),
                    forall|k: int| 0 <= k < xs@.len() ==> #[trigger] vx[k] == yaml_view(xs@[k]),
                    forall|k: int| 0 <= k < ys@.len() ==> #[trigger] vy[k] == yaml_view(ys@[k]),
                    forall|k: int| 0 <= k < i ==> yaml_equal(#[trigger] vx[k], vy[k]),
                decreases xs.len() - i,
            {
                proof {
                    reveal(yaml_equal);
                    assert(decreases_to!(*a => xs@[i as int]));
                }
                if !yaml_eq(&xs[i], &ys[i]) {
                    assert(!yaml_equal(vx[i as int], vy[i as int]));
                    assert(yaml_equal(YamlSpec::Sequence(vx), YamlSpec::Sequence(vy)) ==> yaml_equal(
                        vx[i as int],
                        vy[i as int],
                    ));
                    return false;
                }
                i = i + 1;
            }
            assert(yaml_equal(YamlSpec::Sequence(vx), YamlSpec::Sequence(vy)));
            true
        },
        (YamlValue::Mapping(xs), YamlValue::Mapping(ys)) => {
            proof {
                lemma_entry_views(xs@);
                lemma_entry_views(ys@);
            }
            let ghost vx = entry_views(xs@);
            let ghost vy = entry_views(ys@);
            assert(yaml_view(*a) == YamlSpec::Mapping(vx));
            assert(yaml_view(*b) == YamlSpec::Mapping(vy));
            if xs.len() != ys.len() {
                return false;
            }
            let mut i: usize = 0;
            while i < xs.len()
                invariant
                    *a == YamlValue::Mapping(*xs),
                    yaml_view(*a) == YamlSpec::Mapping(vx),
                    yaml_view(*b) == YamlSpec::Mapping(vy),
                    i <= xs@.len(),
                    xs@.len() == ys@.len(),
                    vx.len() == xs@.len(),
                    vy.len() == ys@.len(),
                    forall|k: int| 0 <= k < xs@.len() ==> #[trigger] vx[k] == (yaml_view(xs@[k].0), yaml_view(xs@[k].1)),
                    forall|k: int| 0 <= k < ys@.len() ==> #[trigger] vy[k] == (yaml_view(ys@[k].0), yaml_view(ys@[k].1)),
                    forall|k: int| #![trigger vx[k]] 0 <= k < i ==> has_entry(vy, vx[k]),
                decreases xs.len() - i,
            {
                proof {
                    reveal(yaml_equal);
                }
                let mut found = false;
                let mut j: usize = 0;
                while j < ys.len()
                    invariant
                        *a == YamlValue::Mapping(*xs),
                        yaml_view(*a) == YamlSpec::Mapping(vx),
                        yaml_view(*b) == YamlSpec::Mapping(vy),
                        i < xs@.len(),
                        j <= ys@.len(),
                        xs@.len() == ys@.len(),
                        vx.len() == xs@.len(),
                        vy.len() == ys@.len(),
                        forall|k: int| 0 <= k < xs@.len() ==> #[trigger] vx[k] == (yaml_view(xs@[k].0), yaml_view(xs@[k].1)),
                        forall|k: int| 0 <= k < ys@.len() ==> #[trigger] vy[k] == (yaml_view(ys@[k].0), yaml_view(ys@[k].1)),
                        !found ==> forall|k: int|
                            #![trigger vy[k]]
                            0 <= k < j ==> !(yaml_equal(vx[i as int].0, vy[k].0) && yaml_equal(vx[i as int].1, vy[k].1)),
                        found ==> has_entry(vy, vx[i as int]),
                    ensures
                        found ==> has_entry(vy, vx[i as int]),
                        !found ==> forall|k: int|
                            #![trigger vy[k]]
                            0 <= k < vy.len() ==> !(yaml_equal(vx[i as int].0, vy[k].0) && yaml_equal(vx[i as int].1, vy[k].1)),
                    decreases ys.len() - j,
                {
                    proof {
                        reveal(yaml_equal);
                        assert(decreases_to!(*a => *xs));
                        assert(decreases_to!(*xs => xs@));
                        assert(decreases_to!(xs@ => xs@[i as int]));
                        assert(decreases_to!(xs@[i as int] => xs@[i as int].0));
                        assert(decreases_to!(xs@[i as int] => xs@[i as int].1));
                    }
                    let ghost ex = vx[i as int];
                    let ghost ey = vy[j as int];
                    if yaml_eq(&xs[i].0, &ys[j].0) && yaml_eq(&xs[i].1, &ys[j].1) {
                        assert(has_entry(vy, vx[i as int]));
                        found = true;
                        break;
                    }
                    j = j + 1;
                }
                if !found {
                    proof {
                        if yaml_equal(yaml_view(*a), yaml_view(*b)) {
                            assert(yaml_equal(YamlSpec::Mapping(vx), YamlSpec::Mapping(vy)));
                            assert(has_entry(vy, vx[i as int]));
                            let w = choose|w: int|
                                #![trigger vy[w]]
                                0 <= w < vy.len() && yaml_equal(vx[i as int].0, vy[w].0) && yaml_equal(
                                    vx[i as int].1,
                                    vy[w].1,
                                );
                            let ey = vy[w];
                            assert(false);
                        }
                    }
                    return false;
                }
                i = i + 1;
            }
            assert(yaml_equal(YamlSpec::Mapping(vx), YamlSpec::Mapping(vy)));
            true
        },
        (YamlValue::Tagged(t, x), YamlValue::Tagged(u, y)) => {
            str_eq(t.as_str(), u.as_str()) && yaml_eq(&**x, &**y)
        },
        (YamlValue::Null, _) => false,
        (YamlValue::Bool(_), _) => false,
        (YamlValue::Number(_), _) => false,
        (YamlValue::Text(_), _) => false,
        (YamlValue::Sequence(_), _) => false,
        (YamlValue::Mapping(_), _) => false,
        (YamlValue::Tagged(_, _), _) => false,
    }
}

/// A deep copy of a value.
pub fn clone_yaml(v: &YamlValue) -> (r: YamlValue)
    ensures
        yaml_view(r) == yaml_view(*v),
    decreases v,
{
    match v {
        YamlValue::Null => YamlValue::Null,
        YamlValue::Bool(b) => YamlValue::Bool(*b),
        YamlValue::Number(n) => YamlValue::Number(to_owned(n.as_str())),
        YamlValue::Text(t) => YamlValue::Text(to_owned(t.as_str())),
        YamlValue::Sequence(xs) => {
            let mut out: Vec<YamlValue> = Vec::new();
            let mut i: usize = 0;
            while i < xs.len()
                invariant
                    *v == YamlValue::Sequence(*xs),
                    i <= xs@.len(),
                    out@.len() == i,
                    forall|k: int| 0 <= k < i ==> yaml_view(#[trigger] out@[k]) == yaml_view(xs@[k]),
                decreases xs.len() - i,
            {
                proof {
                    assert(*xs == (*v)->Sequence_0);
                    assert(decreases_to!(*v => (*v)->Sequence_0));
                    assert(decreases_to!(*xs => xs@));
                    assert(decreases_to!(xs@ => xs@[i as int]));
                }
                out.push(clone_yaml(&xs[i]));
                i = i + 1;
            }
            proof {
                lemma_yaml_views(out@);
                lemma_yaml_views(xs@);
                assert(yaml_views(out@) =~= yaml_views(xs@));
            }
            YamlValue::Sequence(out)
        },
        YamlValue::Mapping(xs) => {
            let mut out: Vec<(YamlValue, YamlValue)> = Vec::new();
            let mut i: usize = 0;
            while i < xs.len()
                invariant
                    *v == YamlValue::Mapping(*xs),
                    i <= xs@.len(),
                    out@.len() == i,
                    forall|k: int|
                        0 <= k < i ==> yaml_view(#[trigger] out@[k].0) == yaml_view(xs@[k].0) && yaml_view(out@[k].1)
                            == yaml_view(xs@[k].1),
                decreases xs.len() - i,
            {
                proof {
                    assert(*xs == (*v)->Mapping_0);
                    assert(decreases_to!(*v => (*v)->Mapping_0));
                    assert(decreases_to!(*xs => xs@));
                    assert(decreases_to!(xs@ => xs@[i as int]));
                    assert(decreases_to!(xs@[i as int] => xs@[i as int].0));
                    assert(decreases_to!(xs@[i as int] => xs@[i as int].1));
                }
                let k = clone_yaml(&xs[i].0);
                let w = clone_yaml(&xs[i].1);
                out.push((k, w));
                i = i + 1;
            }
            proof {
                lemma_entry_views(out@);
                lemma_entry_views(xs@);
                assert(entry_views(out@) =~= entry_views(xs@));
            }
            YamlValue::Mapping(out)
        },
        YamlValue::Tagged(t, x) => YamlValue::Tagged(to_owned(t.as_str()), Box::new(clone_yaml(&**x))),
    }
}

/// Index of the first entry whose key equals `k`.
pub open spec fn find_key(entries: Seq<(YamlSpec, YamlSpec)>, k: YamlSpec) -> Option<int> {
    if exists|i: int|
        #![trigger entries[i]]
        0 <= i < entries.len() && yaml_equal(k, entries[i].0) && forall|j: int|
            #![trigger entries[j]]
            0 <= j < i ==> !yaml_equal(k, entries[j].0) {
        Some(
            choose|i: int|
                #![trigger entries[i]]
                0 <= i < entries.len() && yaml_equal(k, entries[i].0) && forall|j: int|
                    #![trigger entries[j]]
                    0 <= j < i ==> !yaml_equal(k, entries[j].0),
        )
    } else {
        None
    }
}

/// Whether `s` holds a value equal to `x`.
pub open spec fn seq_has(s: Seq<YamlSpec>, x: YamlSpec) -> bool {
    exists|i: int| #![trigger s[i]] 0 <= i < s.len() && yaml_equal(s[i], x)
}

/// `Vec::swap_remove` on sequences: the last entry takes position `p`.
pub open spec fn swap_remove_view<T>(s: Seq<T>, p: int) -> Seq<T> {
    s.update(p, s.last()).drop_last()
}

/// Appends the overlay items that the base does not already hold.
pub open spec fn merge_seq(base: Seq<YamlSpec>, over: Seq<YamlSpec>) -> Seq<YamlSpec>
    decreases over.len(),
{
    if over.len() == 0 {
        base
    } else {
        let acc = merge_seq(base, over.drop_last());
        if seq_has(acc, over.last()) {
            acc
        } else {
            acc.push(over.last())
        }
    }
}

/// Deep merge (see [`merge_values`]).
pub open spec fn merge_view(b: YamlSpec, o: YamlSpec) -> YamlSpec
    decreases o,
{
    match o {
        YamlSpec::Null => b,
        YamlSpec::Mapping(om) => match b {
            YamlSpec::Mapping(bm) => YamlSpec::Mapping(merge_entries(bm, om)),
            _ => o,
        },
        YamlSpec::Sequence(os) => match b {
            YamlSpec::Sequence(bs) => YamlSpec::Sequence(merge_seq(bs, os)),
            _ => o,
        },
        _ => o,
    }
}

/// Merges the overlay entries one by one: an entry whose key the map has
/// is taken out (the last entry fills its place) and put back at the end
/// with the merged value; a new key goes to the end.
pub open spec fn merge_entries(base: Seq<(YamlSpec, YamlSpec)>, over: Seq<(YamlSpec, YamlSpec)>) -> Seq<
    (YamlSpec, YamlSpec),
>
    decreases over,
{
    if over.len() == 0 {
        base
    } else {
        let acc = merge_entries(base, over.subrange(0, over.len() - 1));
        let k = over[over.len() - 1].0;
        let ov = over[over.len() - 1].1;
        match find_key(acc, k) {
            Some(p) => swap_remove_view(acc, p).push((k, merge_view(acc[p].1, ov))),
            None => acc.push((k, ov)),
        }
    }
}

/// Position of the first entry whose key equals `key`.
fn find_key_index(entries: &Vec<(YamlValue, YamlValue)>, key: &YamlValue) -> (r: Option<usize>)
    ensures
        match r {
            Some(p) => p < entries@.len() && find_key(entry_views(entries@), yaml_view(*key)) == Some(p as int),
            None => find_key(entry_views(entries@), yaml_view(*key)) is None,
        },
{
    proof {
        lemma_entry_views(entries@);
    }
    let ghost ev = entry_views(entries@);
    let ghost kv = yaml_view(*key);
    let mut j: usize = 0;
    while j < entries.len()
        invariant
            ev == entry_views(entries@),
            kv == yaml_view(*key),
            ev.len() == entries@.len(),
            forall|k: int| 0 <= k < entries@.len() ==> #[trigger] ev[k] == (yaml_view(entries@[k].0), yaml_view(entries@[k].1)),
            j <= entries@.len(),
            forall|l: int| #![trigger ev[l]] 0 <= l < j ==> !yaml_equal(kv, ev[l].0),
        decreases entries.len() - j,
    {
        if yaml_eq(key, &entries[j].0) {
            proof {
                assert(yaml_equal(kv, ev[j as int].0));
                let w = choose|i: int|
                    #![trigger ev[i]]
                    0 <= i < ev.len() && yaml_equal(kv, ev[i].0) && forall|l: int|
                        #![trigger ev[l]]
                        0 <= l < i ==> !yaml_equal(kv, ev[l].0);
                if w < j {
                    let e = ev[w];
                } else if w > j {
                    let e = ev[j as int];
                }
            }
            return Some(j);
        }
        j = j + 1;
    }
    None
}

/// Whether `s` holds a value equal to `x`.
fn vec_has(s: &Vec<YamlValue>, x: &YamlValue) -> (r: bool)
    ensures
        r == seq_has(yaml_views(s@), yaml_view(*x)),
{
    proof {
        lemma_yaml_views(s@);
    }
    let ghost sv = yaml_views(s@);
    let mut j: usize = 0;
    while j < s.len()
        invariant
            sv == yaml_views(s@),
            sv.len() == s@.len(),
            forall|k: int| 0 <= k < s@.len() ==> #[trigger] sv[k] == yaml_view(s@[k]),
            j <= s@.len(),
            forall|l: int| #![trigger sv[l]] 0 <= l < j ==> !yaml_equal(sv[l], yaml_view(*x)),
        decreases s.len() - j,
    {
        if yaml_eq(&s[j], x) {
            assert(yaml_equal(sv[j as int], yaml_view(*x)));
            return true;
        }
        j = j + 1;
    }
    false
}

/// Deep merge of `overlay` into `base` (see [`merge_view`]).
fn merge_into(base: YamlValue, overlay: &YamlValue) -> (r: YamlValue)
    ensures
        yaml_view(r) == merge_view(yaml_view(base), yaml_view(*overlay)),
    decreases overlay,
{
    match overlay {
        YamlValue::Null => base,
        YamlValue::Mapping(om) => match base {
            YamlValue::Mapping(bm) => {
                let ghost bv = entry_views(bm@);
                let ghost ov = entry_views(om@);
                proof {
                    lemma_entry_views(om@);
                }
                let mut map = bm;
                let mut i: usize = 0;
                assert(ov.subrange(0, 0) =~= Seq::<(YamlSpec, YamlSpec)>::empty());
                while i < om.len()
                    invariant
                        *overlay == YamlValue::Mapping(*om),
                        ov == entry_views(om@),
                        ov.len() == om@.len(),
                        forall|k: int| 0 <= k < om@.len() ==> #[trigger] ov[k] == (yaml_view(om@[k].0), yaml_view(om@[k].1)),
                        i <= om@.len(),
                        entry_views(map@) == merge_entries(bv, ov.subrange(0, i as int)),
                    decreases om.len() - i,
                {
                    proof {
                        assert(*om == (*overlay)->Mapping_0);
                        assert(decreases_to!(*overlay => (*overlay)->Mapping_0));
                        assert(decreases_to!(*om => om@));
                        assert(decreases_to!(om@ => om@[i as int]));
                        assert(decreases_to!(om@[i as int] => om@[i as int].1));
                        let t = ov.subrange(0, i + 1);
                        assert(t.subrange(0, t.len() - 1) =~= ov.subrange(0, i as int));
                        assert(t[t.len() - 1] == ov[i as int]);
                        lemma_entry_views(map@);
                    }
                    let ghost acc = entry_views(map@);
                    let key = &om[i].0;
                    match find_key_index(&map, key) {
                        Some(p) => {
                            let ghost before = map@;
                            let (_, old_value) = map.swap_remove(p);
                            let merged = merge_into(old_value, &om[i].1);
                            let k = clone_yaml(key);
                            let ghost mid = map@;
                            map.push((k, merged));
                            proof {
                                lemma_entry_views(mid);
                                lemma_entry_views(map@);
                                assert(mid == before.update(p as int, before.last()).drop_last());
                                assert(entry_views(map@) =~= swap_remove_view(acc, p as int).push(
                                    (ov[i as int].0, merge_view(acc[p as int].1, ov[i as int].1)),
                                ));
                            }
                        },
                        None => {
                            let k = clone_yaml(key);
                            let w = clone_yaml(&om[i].1);
                            let ghost before = map@;
                            map.push((k, w));
                            proof {
                                lemma_entry_views(map@);
                                assert(entry_views(map@) =~= acc.push((ov[i as int].0, ov[i as int].1)));
                            }
                        },
                    }
                    i = i + 1;
                }
                assert(ov.subrange(0, om@.len() as int) =~= ov);
                YamlValue::Mapping(map)
            },
            _ => clone_yaml(overlay),
        },
        YamlValue::Sequence(os) => match base {
            YamlValue::Sequence(bs) => {
                let ghost bv = yaml_views(bs@);
                let ghost ov = yaml_views(os@);
                proof {
                    lemma_yaml_views(os@);
                }
                let mut seq = bs;
                let mut i: usize = 0;
                assert(ov.take(0) =~= Seq::<YamlSpec>::empty());
                while i < os.len()
                    invariant
                        ov == yaml_views(os@),
                        ov.len() == os@.len(),
                        forall|k: int| 0 <= k < os@.len() ==> #[trigger] ov[k] == yaml_view(os@[k]),
                        i <= os@.len(),
                        yaml_views(seq@) == merge_seq(bv, ov.take(i as int)),
                    decreases os.len() - i,
                {
                    proof {
                        let t = ov.take(i + 1);
                        assert(t.drop_last() =~= ov.take(i as int));
                        assert(t.last() == ov[i as int]);
                    }
                    if !vec_has(&seq, &os[i]) {
                        let ghost before = seq@;
                        seq.push(clone_yaml(&os[i]));
                        proof {
                            lemma_yaml_views(before);
                            lemma_yaml_views(seq@);
                            assert(yaml_views(seq@) =~= yaml_views(before).push(ov[i as int]));
                        }
                    }
                    i = i + 1;
                }
                assert(ov.take(os@.len() as int) =~= ov);
                YamlValue::Sequence(seq)
            },
            _ => clone_yaml(overlay),
        },
        _ => clone_yaml(overlay),
    }
}

/// Deep merge: maps merge per key, sequences concatenate (skipping exact
/// duplicates), scalars are overridden by the overlay. A null overlay keeps
/// the base value, so `ripgrep:`-style empty keys do not erase earlier data.
pub fn merge_values(base: YamlValue, overlay: YamlValue) -> (r: YamlValue)
    ensures
        yaml_view(r) == merge_view(yaml_view(base), yaml_view(overlay)),
{
    merge_into(base, &overlay)
}

/// The key holding the files a manifest includes.
pub const INCLUDES_KEY: &'static str = "includes";

/// The key holding the named profile overlays.
pub const PROFILES_KEY: &'static str = "profiles";

/// A value with any tags stripped.
pub open spec fn untag(v: YamlSpec) -> YamlSpec
    decreases v,
{
    match v {
        YamlSpec::Tagged(_, x) => untag(*x),
        _ => v,
    }
}

/// The view of an optional value.
pub open spec fn opt_yaml_view(o: Option<YamlValue>) -> Option<YamlSpec> {
    match o {
        Some(v) => Some(yaml_view(v)),
        None => None,
    }
}

/// Removes the entry with text key `key` from the (untagged) mapping,
/// the last entry taking its place; other values are left as they are.
pub open spec fn take_key_view(v: YamlSpec, key: Seq<char>) -> (YamlSpec, Option<YamlSpec>)
    decreases v,
{
    match v {
        YamlSpec::Mapping(es) => match find_key(es, YamlSpec::Text(key)) {
            Some(p) => (YamlSpec::Mapping(swap_remove_view(es, p)), Some(es[p].1)),
            None => (v, None),
        },
        YamlSpec::Tagged(t, x) => {
            let inner = take_key_view(*x, key);
            (YamlSpec::Tagged(t, Box::new(inner.0)), inner.1)
        },
        _ => (v, None),
    }
}

/// Removes the entry with text key `key` (see [`take_key_view`]).
pub fn take_key(v: YamlValue, key: &str) -> (r: (YamlValue, Option<YamlValue>))
    ensures
        yaml_view(r.0) == take_key_view(yaml_view(v), key@).0,
        opt_yaml_view(r.1) == take_key_view(yaml_view(v), key@).1,
    decreases v,
{
    match v {
        YamlValue::Mapping(es) => {
            let k = YamlValue::Text(to_owned(key));
            match find_key_index(&es, &k) {
                Some(p) => {
                    let ghost before = es@;
                    let mut es = es;
                    let (_, value) = es.swap_remove(p);
                    proof {
                        lemma_entry_views(before);
                        lemma_entry_views(es@);
                        assert(entry_views(es@) =~= swap_remove_view(entry_views(before), p as int));
                    }
                    (YamlValue::Mapping(es), Some(value))
                },
                None => (YamlValue::Mapping(es), None),
            }
        },
        YamlValue::Tagged(t, x) => {
            let (inner, found) = take_key(*x, key);
            (YamlValue::Tagged(t, Box::new(inner)), found)
        },
        other => (other, None),
    }
}

/// Whether a value is null once untagged.
fn is_null(v: &YamlValue) -> (r: bool)
    ensures
        r == (untag(yaml_view(*v)) is Null),
    decreases v,
{
    match v {
        YamlValue::Null => true,
        YamlValue::Tagged(_, x) => is_null(&**x),
        _ => false,
    }
}

/// The untagged value.
fn untagged(v: &YamlValue) -> (r: &YamlValue)
    ensures
        yaml_view(*r) == untag(yaml_view(*v)),
    decreases v,
{
    match v {
        YamlValue::Tagged(_, x) => untagged(&**x),
        _ => v,
    }
}

/// Prefix of the error for an `includes` entry that is not a string.
pub const INCLUDE_ENTRY_NOT_STRING: &'static str = "'includes' entries must be strings in ";

/// Prefix of the error for an `includes` value that is not a list.
pub const INCLUDES_NOT_LIST: &'static str = "'includes' must be a list of paths in ";

/// An include entry: its path, or the error it raises when reached.
pub open spec fn include_entry_view(item: YamlSpec, path: Seq<char>) -> Result<Seq<char>, Seq<char>> {
    match untag(item) {
        YamlSpec::Text(s) => Ok(s),
        _ => Err(INCLUDE_ENTRY_NOT_STRING@ + path),
    }
}

/// The view of a string result.
pub open spec fn str_result_view(r: Result<String, String>) -> Result<Seq<char>, Seq<char>> {
    match r {
        Ok(s) => Ok(s@),
        Err(e) => Err(e@),
    }
}

/// A loaded manifest file split into its own content and its includes: a
/// null document counts as an empty mapping; `includes` must be a list.
pub open spec fn document_view(value: YamlSpec, path: Seq<char>) -> Result<
    (YamlSpec, Seq<Result<Seq<char>, Seq<char>>>),
    Seq<char>,
> {
    let v = if untag(value) is Null {
        YamlSpec::Mapping(Seq::empty())
    } else {
        value
    };
    let split = take_key_view(v, INCLUDES_KEY@);
    match split.1 {
        None => Ok((split.0, Seq::empty())),
        Some(i) => match untag(i) {
            YamlSpec::Sequence(items) => Ok(
                (split.0, items.map_values(|x: YamlSpec| include_entry_view(x, path))),
            ),
            _ => Err(INCLUDES_NOT_LIST@ + path),
        },
    }
}

/// Splits a manifest file into its content and its include entries (see
/// [`document_view`]); `path` is how the file is shown in messages.
pub fn split_document(value: YamlValue, path: &str) -> (r: Result<(YamlValue, Vec<Result<String, String>>), String>)
    ensures
        match r {
            Ok((doc, includes)) => document_view(yaml_view(value), path@) == Ok::<
                (YamlSpec, Seq<Result<Seq<char>, Seq<char>>>),
                Seq<char>,
            >((yaml_view(doc), includes@.map_values(|e: Result<String, String>| str_result_view(e)))),
            Err(e) => document_view(yaml_view(value), path@) == Err::<
                (YamlSpec, Seq<Result<Seq<char>, Seq<char>>>),
                Seq<char>,
            >(e@),
        },
{
    let v = if is_null(&value) {
        YamlValue::Mapping(Vec::new())
    } else {
        value
    };
    proof {
        let e: Seq<(YamlValue, YamlValue)> = Seq::empty();
        assert(entry_views(e) =~= Seq::<(YamlSpec, YamlSpec)>::empty());
    }
    let (doc, found) = take_key(v, INCLUDES_KEY);
    match found {
        None => {
            let out: Vec<Result<String, String>> = Vec::new();
            assert(out@.map_values(|e: Result<String, String>| str_result_view(e)) =~= Seq::<
                Result<Seq<char>, Seq<char>>,
            >::empty());
            Ok((doc, out))
        },
        Some(inc) => {
            let list = untagged(&inc);
            match list {
                YamlValue::Sequence(items) => {
                    proof {
                        lemma_yaml_views(items@);
                    }
                    let ghost iv = yaml_views(items@);
                    let mut out: Vec<Result<String, String>> = Vec::new();
                    let mut i: usize = 0;
                    while i < items.len()
                        invariant
                            iv == yaml_views(items@),
                            iv.len() == items@.len(),
                            forall|k: int| 0 <= k < items@.len() ==> #[trigger] iv[k] == yaml_view(items@[k]),
                            i <= items@.len(),
                            out@.len() == i,
                            forall|k: int|
                                0 <= k < i ==> str_result_view(#[trigger] out@[k]) == include_entry_view(iv[k], path@),
                        decreases items.len() - i,
                    {
                        match untagged(&items[i]) {
                            YamlValue::Text(s) => out.push(Ok(to_owned(s.as_str()))),
                            _ => {
                                let mut m = to_owned(INCLUDE_ENTRY_NOT_STRING);
                                m.append(path);
                                out.push(Err(m));
                            },
                        }
                        i = i + 1;
                    }
                    assert(out@.map_values(|e: Result<String, String>| str_result_view(e)) =~= iv.map_values(
                        |x: YamlSpec| include_entry_view(x, path@),
                    ));
                    Ok((doc, out))
                },
                _ => {
                    let mut m = to_owned(INCLUDES_NOT_LIST);
                    m.append(path);
                    Err(m)
                },
            }
        },
    }
}

/// Prefix of the error for a manifest file that is not valid YAML.
pub const INVALID_YAML: &'static str = "Invalid YAML in ";

/// Prefix of the error for a manifest file that cannot be found.
pub const MANIFEST_NOT_FOUND: &'static str = "Manifest not found: ";

/// The error for a manifest file shown as `path` whose YAML parser failed
/// with `cause`.
pub open spec fn invalid_yaml_message(path: Seq<char>, cause: Seq<char>) -> Seq<char> {
    INVALID_YAML@ + path + ": "@ + cause
}

/// The error for an include entry `entry` of the file shown as `path` that
/// failed to load with `cause`.
pub open spec fn include_failure_message(entry: Seq<char>, path: Seq<char>, cause: Seq<char>) -> Seq<char> {
    "Failed to load include '"@ + entry + "' from "@ + path + ": "@ + cause
}

/// What a manifest file contributes, from the outcome of parsing its text:
/// a parse failure becomes the invalid-YAML error naming the file;
/// otherwise the document is split as [`document_view`] says.
pub open spec fn load_document_view(parsed: Result<YamlSpec, Seq<char>>, path: Seq<char>) -> Result<
    (YamlSpec, Seq<Result<Seq<char>, Seq<char>>>),
    Seq<char>,
> {
    match parsed {
        Err(cause) => Err(invalid_yaml_message(path, cause)),
        Ok(v) => document_view(v, path),
    }
}

/// Turns the outcome of parsing a manifest file into its content and its
/// include entries (see [`load_document_view`]).
pub fn load_document(parsed: Result<YamlValue, String>, path: &str) -> (r: Result<
    (YamlValue, Vec<Result<String, String>>),
    String,
>)
    ensures
        match r {
            Ok((doc, includes)) => load_document_view(yaml_result_view(parsed), path@) == Ok::<
                (YamlSpec, Seq<Result<Seq<char>, Seq<char>>>),
                Seq<char>,
            >((yaml_view(doc), includes@.map_values(|e: Result<String, String>| str_result_view(e)))),
            Err(e) => load_document_view(yaml_result_view(parsed), path@) == Err::<
                (YamlSpec, Seq<Result<Seq<char>, Seq<char>>>),
                Seq<char>,
            >(e@),
        },
{
    match parsed {
        Err(cause) => {
            let mut m = to_owned(INVALID_YAML);
            m.append(path);
            m.append(": ");
            m.append(cause.as_str());
            Err(m)
        },
        Ok(v) => split_document(v, path),
    }
}

/// The view of a parse outcome.
pub open spec fn yaml_result_view(r: Result<YamlValue, String>) -> Result<YamlSpec, Seq<char>> {
    match r {
        Ok(v) => Ok(yaml_view(v)),
        Err(e) => Err(e@),
    }
}

/// The error for an include that failed to load (see
/// [`include_failure_message`]).
pub fn include_failure(entry: &str, path: &str, cause: &str) -> (r: String)
    ensures
        r@ == include_failure_message(entry@, path@, cause@),
{
    let mut m = to_owned("Failed to load include '");
    m.append(entry);
    m.append("' from ");
    m.append(path);
    m.append(": ");
    m.append(cause);
    m
}

/// The error for a manifest file that cannot be found.
pub fn manifest_not_found(path: &str, cause: &str) -> (r: String)
    ensures
        r@ == MANIFEST_NOT_FOUND@ + path@ + ": "@ + cause@,
{
    let mut m = to_owned(MANIFEST_NOT_FOUND);
    m.append(path);
    m.append(": ");
    m.append(cause);
    m
}

/// Folds the included documents over an empty mapping, then the document
/// itself on top: the including file always wins over its includes.
pub open spec fn combine_view(included: Seq<YamlSpec>, doc: YamlSpec) -> YamlSpec {
    merge_view(fold_merge(included), doc)
}

/// The included documents merged in order over an empty mapping.
pub open spec fn fold_merge(included: Seq<YamlSpec>) -> YamlSpec
    decreases included.len(),
{
    if included.len() == 0 {
        YamlSpec::Mapping(Seq::empty())
    } else {
        merge_view(fold_merge(included.drop_last()), included.last())
    }
}

/// Merges the included documents, in order, then the document on top.
pub fn combine_documents(included: Vec<YamlValue>, doc: YamlValue) -> (r: YamlValue)
    ensures
        yaml_view(r) == combine_view(yaml_views(included@), yaml_view(doc)),
{
    proof {
        lemma_yaml_views(included@);
        let e: Seq<(YamlValue, YamlValue)> = Seq::empty();
        assert(entry_views(e) =~= Seq::<(YamlSpec, YamlSpec)>::empty());
    }
    let ghost iv = yaml_views(included@);
    let mut base = YamlValue::Mapping(Vec::new());
    assert(iv.take(0) =~= Seq::<YamlSpec>::empty());
    let mut i: usize = 0;
    for item in it: included.into_iter()
        invariant
            it.seq() == included@,
            iv.len() == included@.len(),
            forall|k: int| 0 <= k < included@.len() ==> #[trigger] iv[k] == yaml_view(included@[k]),
            yaml_view(base) == fold_merge(iv.take(it.index() as int)),
    {
        proof {
            let t = iv.take(it.index() + 1);
            assert(t.drop_last() =~= iv.take(it.index() as int));
            assert(t.last() == iv[it.index() as int]);
        }
        base = merge_values(base, item);
    }
    assert(iv.take(iv.len() as int) =~= iv);
    merge_values(base, doc)
}

/// The files already loaded while resolving includes.
#[derive(Debug)]
pub struct IncludeVisits {
    pub visited: Vec<String>,
}

impl IncludeVisits {
    pub fn new() -> (r: Self)
        ensures
            r.visited@.len() == 0,
    {
        IncludeVisits { visited: Vec::new() }
    }

    /// Records a file by its canonical path; a file seen before is a
    /// circular include, reported with the path as written (`shown`).
    pub fn visit(&mut self, canonical: &str, shown: &str) -> (r: Result<(), String>)
        ensures
            match r {
                Ok(_) => !strs_view_of(old(self).visited@).contains(canonical@)
                    && final(self).visited@.len() == old(self).visited@.len() + 1
                    && strs_view_of(final(self).visited@) == strs_view_of(old(self).visited@).push(canonical@),
                Err(m) => strs_view_of(old(self).visited@).contains(canonical@)
                    && m@ == "Circular include detected at "@ + shown@
                    && final(self).visited@ == old(self).visited@,
            },
    {
        if crate::text::contains_string(&self.visited, canonical) {
            let mut m = to_owned("Circular include detected at ");
            m.append(shown);
            return Err(m);
        }
        let ghost before = self.visited@;
        self.visited.push(to_owned(canonical));
        assert(strs_view_of(self.visited@) =~= strs_view_of(before).push(canonical@));
        Ok(())
    }
}

/// The views of a sequence of strings.
pub open spec fn strs_view_of(s: Seq<String>) -> Seq<Seq<char>> {
    crate::text::strs_view(s)
}

/// The text keys of mapping entries, in order (other keys are skipped).
pub open spec fn text_keys(es: Seq<(YamlSpec, YamlSpec)>) -> Seq<Seq<char>>
    decreases es.len(),
{
    if es.len() == 0 {
        Seq::empty()
    } else {
        text_keys(es.drop_last()) + match untag(es.last().0) {
            YamlSpec::Text(s) => seq![s],
            _ => Seq::empty(),
        }
    }
}

/// The message for an unknown profile when no profile is defined.
pub open spec fn no_profiles_message(profile: Seq<char>) -> Seq<char> {
    "Unknown profile '"@ + profile + "': the manifest defines no profiles"@
}

/// The overlay of a profile, or the error naming the available ones.
pub open spec fn lookup_profile_view(defs: Option<YamlSpec>, profile: Seq<char>) -> Result<YamlSpec, Seq<char>> {
    match defs {
        None => Err(no_profiles_message(profile)),
        Some(d) => match untag(d) {
            YamlSpec::Mapping(es) => match find_key(es, YamlSpec::Text(profile)) {
                Some(p) => Ok(es[p].1),
                None => Err(
                    "Unknown profile '"@ + profile + "'. Available profiles: "@ + join_with(text_keys(es), ", "@),
                ),
            },
            _ => Err(no_profiles_message(profile)),
        },
    }
}

/// The overlay of `profile` among the profile definitions.
pub fn lookup_profile(definitions: Option<&YamlValue>, profile: &str) -> (r: Result<YamlValue, String>)
    ensures
        match r {
            Ok(v) => lookup_profile_view(opt_ref_view(definitions), profile@) == Ok::<YamlSpec, Seq<char>>(
                yaml_view(v),
            ),
            Err(m) => lookup_profile_view(opt_ref_view(definitions), profile@) == Err::<YamlSpec, Seq<char>>(
                m@,
            ),
        },
{
    let mut none = to_owned("Unknown profile '");
    none.append(profile);
    none.append("': the manifest defines no profiles");
    let defs = match definitions {
        Some(d) => d,
        None => {
            return Err(none);
        },
    };
    match untagged(defs) {
        YamlValue::Mapping(es) => {
            let key = YamlValue::Text(to_owned(profile));
            match find_key_index(es, &key) {
                Some(p) => {
                    proof {
                        lemma_entry_views(es@);
                    }
                    Ok(clone_yaml(&es[p].1))
                },
                None => {
                    let mut m = to_owned("Unknown profile '");
                    m.append(profile);
                    m.append("'. Available profiles: ");
                    let names = text_key_strings(es);
                    crate::text::push_joined(&mut m, &names, ", ");
                    Err(m)
                },
            }
        },
        _ => Err(none),
    }
}

/// The view of an optional reference.
pub open spec fn opt_ref_view(o: Option<&YamlValue>) -> Option<YamlSpec> {
    match o {
        Some(v) => Some(yaml_view(*v)),
        None => None,
    }
}

fn text_key_strings(es: &Vec<(YamlValue, YamlValue)>) -> (r: Vec<String>)
    ensures
        crate::text::strs_view(r@) == text_keys(entry_views(es@)),
{
    proof {
        lemma_entry_views(es@);
    }
    let ghost ev = entry_views(es@);
    let mut out: Vec<String> = Vec::new();
    let mut i: usize = 0;
    assert(crate::text::strs_view(out@) =~= text_keys(ev.take(0)));
    while i < es.len()
        invariant
            ev == entry_views(es@),
            ev.len() == es@.len(),
            forall|k: int| 0 <= k < es@.len() ==> #[trigger] ev[k] == (yaml_view(es@[k].0), yaml_view(es@[k].1)),
            i <= es@.len(),
            crate::text::strs_view(out@) == text_keys(ev.take(i as int)),
        decreases es.len() - i,
    {
        proof {
            let t = ev.take(i + 1);
            assert(t.drop_last() =~= ev.take(i as int));
            assert(t.last() == ev[i as int]);
        }
        let ghost before = out@;
        match untagged(&es[i].0) {
            YamlValue::Text(s) => {
                out.push(to_owned(s.as_str()));
                assert(crate::text::strs_view(out@) =~= crate::text::strs_view(before) + seq![s@]);
            },
            _ => {
                assert(crate::text::strs_view(out@) =~= crate::text::strs_view(before) + Seq::<Seq<char>>::empty());
            },
        }
        i = i + 1;
    }
    assert(ev.take(ev.len() as int) =~= ev);
    out
}

/// The selected profiles merged in order over the manifest, stopping at
/// the first unknown profile.
pub open spec fn fold_profiles(
    v: YamlSpec,
    defs: Option<YamlSpec>,
    profiles: Seq<Seq<char>>,
) -> Result<YamlSpec, Seq<char>>
    decreases profiles.len(),
{
    if profiles.len() == 0 {
        Ok(v)
    } else {
        match fold_profiles(v, defs, profiles.drop_last()) {
            Err(e) => Err(e),
            Ok(acc) => match lookup_profile_view(defs, profiles.last()) {
                Err(e) => Err(e),
                Ok(o) => Ok(merge_view(acc, o)),
            },
        }
    }
}

/// Takes the `profiles` definitions out of the manifest, then overlays
/// the selected profiles in the order given.
pub open spec fn profiles_view(value: YamlSpec, profiles: Seq<Seq<char>>) -> Result<YamlSpec, Seq<char>> {
    let split = take_key_view(value, PROFILES_KEY@);
    fold_profiles(split.0, split.1, profiles)
}

/// Once a prefix of the profiles fails, the whole list fails the same way.
proof fn lemma_profiles_error_sticks(v: YamlSpec, defs: Option<YamlSpec>, profiles: Seq<Seq<char>>, n: int)
    requires
        0 <= n <= profiles.len(),
        fold_profiles(v, defs, profiles.take(n)) is Err,
    ensures
        fold_profiles(v, defs, profiles) == fold_profiles(v, defs, profiles.take(n)),
    decreases profiles.len() - n,
{
    if n < profiles.len() {
        let t = profiles.take(n + 1);
        assert(t.drop_last() == profiles.take(n));
        lemma_profiles_error_sticks(v, defs, profiles, n + 1);
    } else {
        assert(profiles.take(n) == profiles);
    }
}

/// Applies the selected profiles (see [`profiles_view`]).
pub fn apply_profiles(value: YamlValue, profiles: &Vec<String>) -> (r: Result<YamlValue, String>)
    ensures
        match r {
            Ok(v) => profiles_view(yaml_view(value), crate::text::strs_view(profiles@)) == Ok::<
                YamlSpec,
                Seq<char>,
            >(yaml_view(v)),
            Err(m) => profiles_view(yaml_view(value), crate::text::strs_view(profiles@)) == Err::<
                YamlSpec,
                Seq<char>,
            >(m@),
        },
{
    let ghost ps = crate::text::strs_view(profiles@);
    let ghost vin = yaml_view(value);
    let (mut current, defs) = take_key(value, PROFILES_KEY);
    let ghost v0 = yaml_view(current);
    let ghost d0 = opt_yaml_view(defs);
    let mut i: usize = 0;
    assert(ps.take(0) =~= Seq::<Seq<char>>::empty());
    while i < profiles.len()
        invariant
            ps == crate::text::strs_view(profiles@),
            d0 == opt_yaml_view(defs),
            vin == yaml_view(value),
            profiles_view(vin, ps) == fold_profiles(v0, d0, ps),
            i <= profiles@.len(),
            fold_profiles(v0, d0, ps.take(i as int)) == Ok::<YamlSpec, Seq<char>>(yaml_view(current)),
        decreases profiles.len() - i,
    {
        proof {
            let t = ps.take(i + 1);
            assert(t.drop_last() =~= ps.take(i as int));
            assert(t.last() == profiles@[i as int]@);
        }
        match lookup_profile(defs.as_ref(), profiles[i].as_str()) {
            Ok(overlay) => {
                current = merge_values(current, overlay);
            },
            Err(m) => {
                proof {
                    lemma_profiles_error_sticks(v0, d0, ps, i as int + 1);
                }
                return Err(m);
            },
        }
        i = i + 1;
    }
    assert(ps.take(ps.len() as int) =~= ps);
    Ok(current)
}

/// Every value equals itself.
pub proof fn lemma_yaml_equal_reflexive(a: YamlSpec)
    ensures
        yaml_equal(a, a),
    decreases a,
{
    reveal(yaml_equal);
    match a {
        YamlSpec::Sequence(xs) => {
            assert forall|i: int| #![trigger xs[i]] 0 <= i < xs.len() implies yaml_equal(xs[i], xs[i]) by {
                lemma_yaml_equal_reflexive(xs[i]);
            }
        },
        YamlSpec::Mapping(xs) => {
            assert forall|i: int| #![trigger xs[i]] 0 <= i < xs.len() implies has_entry(xs, xs[i]) by {
                lemma_yaml_equal_reflexive(xs[i].0);
                lemma_yaml_equal_reflexive(xs[i].1);
                assert(yaml_equal(xs[i].0, xs[i].0) && yaml_equal(xs[i].1, xs[i].1));
            }
        },
        YamlSpec::Tagged(t, x) => {
            lemma_yaml_equal_reflexive(*x);
        },
        _ => {},
    }
}

/// Merge law: a null overlay keeps the base value, so an empty key never
/// erases earlier data.
pub proof fn lemma_null_overlay_keeps_base(base: YamlSpec)
    ensures
        merge_view(base, YamlSpec::Null) == base,
{
}

/// Merge law: a scalar overlay (boolean, number, string, tagged value)
/// replaces the base value.
pub proof fn lemma_scalar_overlay_wins(base: YamlSpec, overlay: YamlSpec)
    requires
        overlay is Bool || overlay is Number || overlay is Text || overlay is Tagged,
    ensures
        merge_view(base, overlay) == overlay,
{
}

/// Merge law: an overlay of another kind than the base replaces it.
pub proof fn lemma_other_kind_overlay_wins(base: YamlSpec, overlay: YamlSpec)
    requires
        overlay is Mapping ==> !(base is Mapping),
        overlay is Sequence ==> !(base is Sequence),
        !(overlay is Null),
    ensures
        merge_view(base, overlay) == overlay,
{
}

/// Merge law for lists: the base items come first, unchanged and in order.
pub proof fn lemma_merge_list_keeps_base(base: Seq<YamlSpec>, over: Seq<YamlSpec>)
    ensures
        merge_seq(base, over).len() >= base.len(),
        merge_seq(base, over).take(base.len() as int) == base,
    decreases over.len(),
{
    if over.len() > 0 {
        lemma_merge_list_keeps_base(base, over.drop_last());
        let acc = merge_seq(base, over.drop_last());
        if !seq_has(acc, over.last()) {
            assert(acc.push(over.last()).take(base.len() as int) =~= acc.take(base.len() as int));
        }
    } else {
        assert(base.take(base.len() as int) =~= base);
    }
}

/// Merge law for lists: every overlay item ends up in the merged list (an
/// item already present is not added twice).
pub proof fn lemma_merge_list_has_overlay(base: Seq<YamlSpec>, over: Seq<YamlSpec>)
    ensures
        forall|i: int| #![trigger over[i]] 0 <= i < over.len() ==> seq_has(merge_seq(base, over), over[i]),
    decreases over.len(),
{
    if over.len() > 0 {
        let init = over.drop_last();
        lemma_merge_list_has_overlay(base, init);
        let acc = merge_seq(base, init);
        let r = merge_seq(base, over);
        assert forall|i: int| #![trigger over[i]] 0 <= i < over.len() implies seq_has(r, over[i]) by {
            if i < over.len() - 1 {
                assert(init[i] == over[i]);
                let w = choose|w: int| #![trigger acc[w]] 0 <= w < acc.len() && yaml_equal(acc[w], init[i]);
                if !seq_has(acc, over.last()) {
                    assert(r[w] == acc[w]);
                }
                assert(yaml_equal(r[w], over[i]));
            } else {
                if !seq_has(acc, over.last()) {
                    lemma_yaml_equal_reflexive(over.last());
                    assert(r[acc.len() as int] == over.last());
                }
            }
        }
    }
}

/// Whether the entries hold exactly the pair `e`.
pub open spec fn holds_entry(es: Seq<(YamlSpec, YamlSpec)>, e: (YamlSpec, YamlSpec)) -> bool {
    exists|i: int| #![trigger es[i]] 0 <= i < es.len() && es[i] == e
}

/// Merge law for maps: an entry of the base whose key no overlay key
/// equals is kept, with its value.
pub proof fn lemma_merge_map_keeps_untouched(
    base: Seq<(YamlSpec, YamlSpec)>,
    over: Seq<(YamlSpec, YamlSpec)>,
    e: (YamlSpec, YamlSpec),
)
    requires
        holds_entry(base, e),
        forall|j: int| #![trigger over[j]] 0 <= j < over.len() ==> !yaml_equal(over[j].0, e.0),
    ensures
        holds_entry(merge_entries(base, over), e),
    decreases over.len(),
{
    if over.len() > 0 {
        let init = over.subrange(0, over.len() - 1);
        assert forall|j: int| #![trigger init[j]] 0 <= j < init.len() implies !yaml_equal(init[j].0, e.0) by {
            assert(init[j] == over[j]);
        }
        lemma_merge_map_keeps_untouched(base, init, e);
        let acc = merge_entries(base, init);
        let k = over[over.len() - 1].0;
        let w = choose|w: int| #![trigger acc[w]] 0 <= w < acc.len() && acc[w] == e;
        match find_key(acc, k) {
            Some(p) => {
                let ip = choose|i: int|
                    #![trigger acc[i]]
                    0 <= i < acc.len() && yaml_equal(k, acc[i].0) && forall|j: int|
                        #![trigger acc[j]]
                        0 <= j < i ==> !yaml_equal(k, acc[j].0);
                assert(p == ip);
                assert(!yaml_equal(k, e.0));
                assert(p != w);
                let r = merge_entries(base, over);
                let sr = swap_remove_view(acc, p);
                if w == acc.len() - 1 {
                    assert(sr[p] == e);
                    assert(r[p] == e);
                } else {
                    assert(sr[w] == e);
                    assert(r[w] == e);
                }
            },
            None => {
                let r = merge_entries(base, over);
                assert(r[w] == e);
            },
        }
    }
}

/// Whether some entry has exactly the key `k`.
pub open spec fn holds_key(es: Seq<(YamlSpec, YamlSpec)>, k: YamlSpec) -> bool {
    exists|i: int| #![trigger es[i]] 0 <= i < es.len() && es[i].0 == k
}

/// No key occurs twice.
pub open spec fn distinct_keys(es: Seq<(YamlSpec, YamlSpec)>) -> bool {
    forall|i: int, j: int| #![trigger es[i], es[j]] 0 <= i < j < es.len() ==> es[i].0 != es[j].0
}

/// `k` is a key of the base or of the overlay.
pub open spec fn key_of_either(base: Seq<(YamlSpec, YamlSpec)>, over: Seq<(YamlSpec, YamlSpec)>, k: YamlSpec) -> bool {
    holds_key(base, k) || holds_key(over, k)
}

/// Among the keys of both maps, YAML equality is plain identity: no two
/// different keys compare equal. Scalar keys (null, booleans, numbers,
/// strings) always qualify.
pub open spec fn separated_keys(base: Seq<(YamlSpec, YamlSpec)>, over: Seq<(YamlSpec, YamlSpec)>) -> bool {
    forall|x: YamlSpec, y: YamlSpec|
        #![trigger yaml_equal(x, y)]
        key_of_either(base, over, x) && key_of_either(base, over, y) && yaml_equal(x, y) ==> x == y
}

/// A null, boolean, number or string.
pub open spec fn is_scalar(v: YamlSpec) -> bool {
    v is Null || v is Bool || v is Number || v is Text
}

/// A scalar equals only itself.
pub proof fn lemma_scalar_equal(x: YamlSpec, y: YamlSpec)
    requires
        is_scalar(x) || is_scalar(y),
        yaml_equal(x, y),
    ensures
        x == y,
{
    reveal(yaml_equal);
}

/// Maps whose keys are all scalars have separated keys.
pub proof fn lemma_scalar_keys_separated(base: Seq<(YamlSpec, YamlSpec)>, over: Seq<(YamlSpec, YamlSpec)>)
    requires
        forall|i: int| #![trigger base[i]] 0 <= i < base.len() ==> is_scalar(base[i].0),
        forall|i: int| #![trigger over[i]] 0 <= i < over.len() ==> is_scalar(over[i].0),
    ensures
        separated_keys(base, over),
{
    assert forall|x: YamlSpec, y: YamlSpec|
        #![trigger yaml_equal(x, y)]
        key_of_either(base, over, x) && key_of_either(base, over, y) && yaml_equal(x, y) implies x == y by {
        if holds_key(base, x) {
            let i = choose|i: int| #![trigger base[i]] 0 <= i < base.len() && base[i].0 == x;
        } else {
            let i = choose|i: int| #![trigger over[i]] 0 <= i < over.len() && over[i].0 == x;
        }
        lemma_scalar_equal(x, y);
    }
}

/// The value stored under key `k`, if any.
pub open spec fn value_of(es: Seq<(YamlSpec, YamlSpec)>, k: YamlSpec) -> Option<YamlSpec> {
    if exists|i: int| #![trigger es[i]] 0 <= i < es.len() && es[i].0 == k {
        Some(es[choose|i: int| #![trigger es[i]] 0 <= i < es.len() && es[i].0 == k].1)
    } else {
        None
    }
}

/// The value a merged map holds for a key: the deep merge of both values
/// when both maps hold it, otherwise whichever value there is.
pub open spec fn merged_value(b: Option<YamlSpec>, o: Option<YamlSpec>) -> Option<YamlSpec> {
    match (b, o) {
        (Some(x), Some(y)) => Some(merge_view(x, y)),
        (None, Some(y)) => Some(y),
        (x, None) => x,
    }
}

proof fn lemma_value_at(es: Seq<(YamlSpec, YamlSpec)>, i: int)
    requires
        distinct_keys(es),
        0 <= i < es.len(),
    ensures
        value_of(es, es[i].0) == Some(es[i].1),
{
    let w = choose|w: int| #![trigger es[w]] 0 <= w < es.len() && es[w].0 == es[i].0;
    if w != i {
        if w < i {
            assert(es[w].0 != es[i].0);
        } else {
            assert(es[i].0 != es[w].0);
        }
    }
}

/// A text key equal to some key of the entries has a first match.
proof fn lemma_find_key_some(es: Seq<(YamlSpec, YamlSpec)>, k: YamlSpec, i: int)
    requires
        0 <= i < es.len(),
        yaml_equal(k, es[i].0),
    ensures
        find_key(es, k) is Some,
    decreases i,
{
    if forall|j: int| #![trigger es[j]] 0 <= j < i ==> !yaml_equal(k, es[j].0) {
        assert(0 <= i < es.len() && yaml_equal(k, es[i].0) && forall|j: int|
            #![trigger es[j]]
            0 <= j < i ==> !yaml_equal(k, es[j].0));
    } else {
        let j = choose|j: int| #![trigger es[j]] 0 <= j < i && yaml_equal(k, es[j].0);
        lemma_find_key_some(es, k, j);
    }
}

/// One step of a map merge on distinct, separated keys.
#[verifier::spinoff_prover]
#[verifier::rlimit(40)]
proof fn lemma_merge_map_step(
    base: Seq<(YamlSpec, YamlSpec)>,
    acc: Seq<(YamlSpec, YamlSpec)>,
    init: Seq<(YamlSpec, YamlSpec)>,
    over: Seq<(YamlSpec, YamlSpec)>,
)
    requires
        over.len() > 0,
        init == over.subrange(0, over.len() - 1),
        distinct_keys(over),
        distinct_keys(acc),
        separated_keys(base, over),
        forall|i: int| #![trigger acc[i]] 0 <= i < acc.len() ==> key_of_either(base, init, acc[i].0),
        forall|k: YamlSpec| #[trigger] value_of(acc, k) == merged_value(value_of(base, k), value_of(init, k)),
        acc == merge_entries(base, init),
    ensures
        distinct_keys(merge_entries(base, over)),
        forall|i: int|
            #![trigger merge_entries(base, over)[i]]
            0 <= i < merge_entries(base, over).len() ==> key_of_either(base, over, merge_entries(base, over)[i].0),
        forall|k: YamlSpec|
            #[trigger] value_of(merge_entries(base, over), k) == merged_value(value_of(base, k), value_of(over, k)),
{
    let n = over.len() - 1;
    let kn = over[n].0;
    let vo = over[n].1;
    let r = merge_entries(base, over);
    assert forall|x: YamlSpec| key_of_either(base, init, x) implies key_of_either(base, over, x) by {
        if holds_key(init, x) {
            let i = choose|i: int| #![trigger init[i]] 0 <= i < init.len() && init[i].0 == x;
            assert(over[i] == init[i]);
        }
    }
    assert(holds_key(over, kn));
    assert(distinct_keys(init)) by {
        assert forall|i: int, j: int| #![trigger init[i], init[j]] 0 <= i < j < init.len() implies init[i].0
            != init[j].0 by {
            assert(init[i] == over[i]);
            assert(init[j] == over[j]);
        }
    }
    assert(value_of(init, kn) is None) by {
        if exists|i: int| #![trigger init[i]] 0 <= i < init.len() && init[i].0 == kn {
            let i = choose|i: int| #![trigger init[i]] 0 <= i < init.len() && init[i].0 == kn;
            assert(init[i] == over[i]);
            assert(over[i].0 != over[n].0);
        }
    }
    lemma_value_at(over, n);
    assert forall|k: YamlSpec| k != kn implies #[trigger] value_of(over, k) == value_of(init, k) by {
        if exists|i: int| #![trigger over[i]] 0 <= i < over.len() && over[i].0 == k {
            let i = choose|i: int| #![trigger over[i]] 0 <= i < over.len() && over[i].0 == k;
            lemma_value_at(over, i);
            assert(init[i] == over[i]);
            lemma_value_at(init, i);
        } else {
            assert forall|i: int| #![trigger init[i]] 0 <= i < init.len() implies init[i].0 != k by {
                assert(init[i] == over[i]);
            }
        }
    }
    match find_key(acc, kn) {
        Some(p) => {
            let ip = choose|x: int|
                #![trigger acc[x]]
                0 <= x < acc.len() && yaml_equal(kn, acc[x].0) && forall|j: int|
                    #![trigger acc[j]]
                    0 <= j < x ==> !yaml_equal(kn, acc[j].0);
            assert(p == ip);
            assert(key_of_either(base, init, acc[p].0));
            assert(key_of_either(base, over, acc[p].0));
            assert(key_of_either(base, over, kn));
            assert(acc[p].0 == kn);
            let sr = swap_remove_view(acc, p);
            let m = acc.len() - 1;
            assert(r == sr.push((kn, merge_view(acc[p].1, vo))));
            lemma_value_at(acc, p);
            // `sr` holds every entry of `acc` but the one at `p`.
            assert forall|i: int| #![trigger sr[i]] 0 <= i < sr.len() implies (if i == p {
                sr[i] == acc[m]
            } else {
                sr[i] == acc[i]
            }) by {}
            assert forall|i: int| #![trigger r[i]] 0 <= i < r.len() implies key_of_either(base, over, r[i].0) by {
                if i < sr.len() {
                    assert(r[i] == sr[i]);
                    let ai = if i == p { m } else { i };
                    assert(r[i] == acc[ai]);
                    assert(key_of_either(base, init, acc[ai].0));
                }
            }
            assert forall|i: int, j: int| #![trigger r[i], r[j]] 0 <= i < j < r.len() implies r[i].0 != r[j].0 by {
                let ai = if i == p { m } else { i };
                assert(r[i] == sr[i]);
                assert(r[i] == acc[ai]);
                assert(ai != p);
                if j == r.len() - 1 {
                    if ai < p {
                        assert(acc[ai].0 != acc[p].0);
                    } else {
                        assert(acc[p].0 != acc[ai].0);
                    }
                } else {
                    let aj = if j == p { m } else { j };
                    assert(r[j] == sr[j]);
                    assert(r[j] == acc[aj]);
                    assert(ai != aj);
                    if ai < aj {
                        assert(acc[ai].0 != acc[aj].0);
                    } else {
                        assert(acc[aj].0 != acc[ai].0);
                    }
                }
            }
            assert forall|k: YamlSpec| #[trigger] value_of(r, k) == merged_value(value_of(base, k), value_of(over, k)) by {
                if k == kn {
                    lemma_value_at(r, r.len() - 1);
                } else {
                    assert(value_of(acc, k) == merged_value(value_of(base, k), value_of(init, k)));
                    if exists|i: int| #![trigger acc[i]] 0 <= i < acc.len() && acc[i].0 == k {
                        let i = choose|i: int| #![trigger acc[i]] 0 <= i < acc.len() && acc[i].0 == k;
                        lemma_value_at(acc, i);
                        assert(i != p);
                        let ri = if i == m { p } else { i };
                        assert(r[ri] == sr[ri]);
                        assert(r[ri] == acc[i]);
                        lemma_value_at(r, ri);
                    } else {
                        assert forall|i: int| #![trigger r[i]] 0 <= i < r.len() implies r[i].0 != k by {
                            if i < sr.len() {
                                assert(r[i] == sr[i]);
                                if i == p {
                                    assert(sr[i] == acc[m]);
                                } else {
                                    assert(sr[i] == acc[i]);
                                }
                            }
                        }
                    }
                }
            }
        },
        None => {
            assert(r == acc.push((kn, vo)));
            assert forall|i: int| 0 <= i < acc.len() implies #[trigger] acc[i].0 != kn by {
                if acc[i].0 == kn {
                    lemma_yaml_equal_reflexive(kn);
                    lemma_find_key_some(acc, kn, i);
                }
            }
            assert(value_of(acc, kn) is None);
            assert forall|i: int| #![trigger r[i]] 0 <= i < r.len() implies key_of_either(base, over, r[i].0) by {
                if i < acc.len() {
                    assert(r[i] == acc[i]);
                    assert(key_of_either(base, init, acc[i].0));
                }
            }
            assert forall|i: int, j: int| #![trigger r[i], r[j]] 0 <= i < j < r.len() implies r[i].0 != r[j].0 by {
                assert(r[i] == acc[i]);
                if j < acc.len() {
                    assert(r[j] == acc[j]);
                }
            }
            assert forall|k: YamlSpec| #[trigger] value_of(r, k) == merged_value(value_of(base, k), value_of(over, k)) by {
                if k == kn {
                    lemma_value_at(r, r.len() - 1);
                } else {
                    assert(value_of(acc, k) == merged_value(value_of(base, k), value_of(init, k)));
                    if exists|i: int| #![trigger acc[i]] 0 <= i < acc.len() && acc[i].0 == k {
                        let i = choose|i: int| #![trigger acc[i]] 0 <= i < acc.len() && acc[i].0 == k;
                        lemma_value_at(acc, i);
                        assert(r[i] == acc[i]);
                        lemma_value_at(r, i);
                    } else {
                        assert forall|i: int| #![trigger r[i]] 0 <= i < r.len() implies r[i].0 != k by {
                            if i < acc.len() {
                                assert(r[i] == acc[i]);
                            }
                        }
                    }
                }
            }
        },
    }
}

/// Merge law for maps: when neither map repeats a key and no two different
/// keys of the two maps are YAML-equal (as with the text keys of a
/// manifest, or any scalar keys), the merged map holds the keys of both
/// maps, once each; a key both maps hold gets the deep merge of its two
/// values, and any other key keeps its value.
#[verifier::spinoff_prover]
#[verifier::rlimit(50)]
pub proof fn lemma_merge_map_values(base: Seq<(YamlSpec, YamlSpec)>, over: Seq<(YamlSpec, YamlSpec)>)
    requires
        distinct_keys(base),
        distinct_keys(over),
        separated_keys(base, over),
    ensures
        distinct_keys(merge_entries(base, over)),
        forall|i: int|
            #![trigger merge_entries(base, over)[i]]
            0 <= i < merge_entries(base, over).len() ==> key_of_either(base, over, merge_entries(base, over)[i].0),
        forall|k: YamlSpec|
            #[trigger] value_of(merge_entries(base, over), k) == merged_value(value_of(base, k), value_of(over, k)),
    decreases over.len(),
{
    if over.len() == 0 {
        assert forall|k: YamlSpec| #[trigger] value_of(merge_entries(base, over), k) == merged_value(
            value_of(base, k),
            value_of(over, k),
        ) by {}
        assert forall|i: int|
            #![trigger merge_entries(base, over)[i]]
            0 <= i < merge_entries(base, over).len() implies key_of_either(base, over, merge_entries(base, over)[i].0) by {
            assert(base[i] == merge_entries(base, over)[i]);
        }
    } else {
        let init = over.subrange(0, over.len() - 1);
        assert(distinct_keys(init)) by {
            assert forall|i: int, j: int| #![trigger init[i], init[j]] 0 <= i < j < init.len() implies init[i].0
                != init[j].0 by {
                assert(init[i] == over[i]);
                assert(init[j] == over[j]);
            }
        }
        assert(separated_keys(base, init)) by {
            assert forall|x: YamlSpec| key_of_either(base, init, x) implies key_of_either(base, over, x) by {
                if holds_key(init, x) {
                    let i = choose|i: int| #![trigger init[i]] 0 <= i < init.len() && init[i].0 == x;
                    assert(over[i] == init[i]);
                }
            }
        }
        lemma_merge_map_values(base, init);
        lemma_merge_map_step(base, merge_entries(base, init), init, over);
    }
}

/// The positions in `over` of the items a list merge appends, in order:
/// those not already in the list built so far.
pub open spec fn appended_positions(base: Seq<YamlSpec>, over: Seq<YamlSpec>) -> Seq<int>
    decreases over.len(),
{
    if over.len() == 0 {
        Seq::empty()
    } else {
        let prev = appended_positions(base, over.drop_last());
        if seq_has(merge_seq(base, over.drop_last()), over.last()) {
            prev
        } else {
            prev.push(over.len() - 1)
        }
    }
}

/// Merge law for lists: the merged list is the base list followed by the
/// overlay items, in overlay order, each one added exactly when an equal
/// item is not already in the list built so far.
#[verifier::spinoff_prover]
#[verifier::rlimit(50)]
pub proof fn lemma_merge_list_order(base: Seq<YamlSpec>, over: Seq<YamlSpec>)
    ensures
        ({
            let m = merge_seq(base, over);
            let ps = appended_positions(base, over);
            &&& m.len() == base.len() + ps.len()
            &&& m.take(base.len() as int) == base
            &&& forall|j: int|
                0 <= j < ps.len() ==> 0 <= #[trigger] ps[j] < over.len() && m[base.len() + j] == over[ps[j]]
                    && !seq_has(merge_seq(base, over.take(ps[j])), over[ps[j]])
            &&& forall|i: int, j: int| 0 <= i < j < ps.len() ==> #[trigger] ps[i] < #[trigger] ps[j]
            &&& forall|i: int|
                0 <= i < over.len() && !ps.contains(i) ==> seq_has(merge_seq(base, over.take(i)), #[trigger] over[i])
        }),
    decreases over.len(),
{
    lemma_merge_list_keeps_base(base, over);
    if over.len() > 0 {
        let n = over.len() - 1;
        let init = over.drop_last();
        lemma_merge_list_order(base, init);
        let acc = merge_seq(base, init);
        let prev = appended_positions(base, init);
        let m = merge_seq(base, over);
        let ps = appended_positions(base, over);
        assert(over.take(n) == init);
        assert forall|i: int| 0 <= i <= n implies #[trigger] over.take(i) == init.take(i) by {}
        assert forall|j: int| 0 <= j < ps.len() implies 0 <= #[trigger] ps[j] < over.len() && m[base.len() + j]
            == over[ps[j]] && !seq_has(merge_seq(base, over.take(ps[j])), over[ps[j]]) by {
            if j < prev.len() {
                assert(ps[j] == prev[j]);
                assert(init[prev[j]] == over[prev[j]]);
                assert(over.take(prev[j]) == init.take(prev[j]));
                if !seq_has(acc, over.last()) {
                    assert(m[base.len() + j] == acc[base.len() + j]);
                }
            } else {
                assert(ps[j] == n);
            }
        }
        assert forall|i: int, j: int| 0 <= i < j < ps.len() implies #[trigger] ps[i] < #[trigger] ps[j] by {
            if j < prev.len() {
                assert(ps[i] == prev[i] && ps[j] == prev[j]);
            } else {
                assert(ps[i] == prev[i]);
            }
        }
        assert forall|i: int| 0 <= i < over.len() && !ps.contains(i) implies seq_has(
            merge_seq(base, over.take(i)),
            #[trigger] over[i],
        ) by {
            if i < n {
                assert(init[i] == over[i]);
                assert(over.take(i) == init.take(i));
                if prev.contains(i) {
                    let w = choose|w: int| 0 <= w < prev.len() && prev[w] == i;
                    assert(ps[w] == prev[w]);
                }
            } else {
                if !seq_has(acc, over.last()) {
                    assert(ps[prev.len() as int] == n);
                }
            }
        }
    }
}


/// All keys of the entries are scalars.
pub open spec fn scalar_keys(es: Seq<(YamlSpec, YamlSpec)>) -> bool {
    forall|i: int| #![trigger es[i]] 0 <= i < es.len() ==> is_scalar(es[i].0)
}

/// Merging maps with distinct scalar keys gives a map with distinct scalar
/// keys, holding for each key the merged value (see [`merged_value`]).
pub proof fn lemma_merge_scalar_maps(base: Seq<(YamlSpec, YamlSpec)>, over: Seq<(YamlSpec, YamlSpec)>)
    requires
        distinct_keys(base),
        distinct_keys(over),
        scalar_keys(base),
        scalar_keys(over),
    ensures
        distinct_keys(merge_entries(base, over)),
        scalar_keys(merge_entries(base, over)),
        forall|k: YamlSpec|
            #[trigger] value_of(merge_entries(base, over), k) == merged_value(value_of(base, k), value_of(over, k)),
{
    lemma_scalar_keys_separated(base, over);
    lemma_merge_map_values(base, over);
    let r = merge_entries(base, over);
    assert forall|i: int| #![trigger r[i]] 0 <= i < r.len() implies is_scalar(r[i].0) by {
        assert(key_of_either(base, over, r[i].0));
        if holds_key(base, r[i].0) {
            let j = choose|j: int| #![trigger base[j]] 0 <= j < base.len() && base[j].0 == r[i].0;
        } else {
            let j = choose|j: int| #![trigger over[j]] 0 <= j < over.len() && over[j].0 == r[i].0;
        }
    }
}

/// Includes are merged in order: adding one more include merges it over
/// what the earlier ones give.
pub proof fn lemma_fold_merge_push(included: Seq<YamlSpec>, x: YamlSpec)
    ensures
        fold_merge(included.push(x)) == merge_view(fold_merge(included), x),
{
    assert(included.push(x).drop_last() == included);
}

/// The later include wins: with two included mappings and a document, all
/// with distinct scalar keys, a key the document does not set takes the
/// value the second include gives it when that value is a boolean, number
/// or string, whatever the first include says.
pub proof fn lemma_later_include_wins(
    a: Seq<(YamlSpec, YamlSpec)>,
    b: Seq<(YamlSpec, YamlSpec)>,
    doc: Seq<(YamlSpec, YamlSpec)>,
    k: YamlSpec,
    v: YamlSpec,
)
    requires
        distinct_keys(a),
        distinct_keys(b),
        distinct_keys(doc),
        scalar_keys(a),
        scalar_keys(b),
        scalar_keys(doc),
        value_of(b, k) == Some(v),
        v is Bool || v is Number || v is Text,
        value_of(doc, k) is None,
    ensures
        combine_view(seq![YamlSpec::Mapping(a), YamlSpec::Mapping(b)], YamlSpec::Mapping(doc)) matches YamlSpec::Mapping(
            r,
        ) && value_of(r, k) == Some(v),
{
    let empty = Seq::<(YamlSpec, YamlSpec)>::empty();
    let inc = seq![YamlSpec::Mapping(a), YamlSpec::Mapping(b)];
    lemma_fold_merge_push(seq![YamlSpec::Mapping(a)], YamlSpec::Mapping(b));
    lemma_fold_merge_push(Seq::<YamlSpec>::empty(), YamlSpec::Mapping(a));
    assert(seq![YamlSpec::Mapping(a)].push(YamlSpec::Mapping(b)) == inc);
    assert(Seq::<YamlSpec>::empty().push(YamlSpec::Mapping(a)) == seq![YamlSpec::Mapping(a)]);
    assert(fold_merge(Seq::<YamlSpec>::empty()) == YamlSpec::Mapping(empty));
    lemma_merge_scalar_maps(empty, a);
    let m1 = merge_entries(empty, a);
    lemma_merge_scalar_maps(m1, b);
    let m2 = merge_entries(m1, b);
    lemma_merge_scalar_maps(m2, doc);
    let m3 = merge_entries(m2, doc);
    assert(fold_merge(inc) == YamlSpec::Mapping(m2));
    assert(combine_view(inc, YamlSpec::Mapping(doc)) == YamlSpec::Mapping(m3));
    assert(value_of(m1, k) == merged_value(value_of(empty, k), value_of(a, k)));
    assert(value_of(m2, k) == merged_value(value_of(m1, k), Some(v)));
    match value_of(m1, k) {
        Some(x) => {
            lemma_scalar_overlay_wins(x, v);
        },
        None => {},
    }
    assert(value_of(m2, k) == Some(v));
    assert(value_of(m3, k) == merged_value(value_of(m2, k), value_of(doc, k)));
}

} // verus!
