//! Field-level differences between two JSON documents, one line per
//! changed, added or removed field, in key order.
use crate::compose::{lemma_sorted_unique, sorted_texts, strictly_sorted, texts};
use crate::json::{entries_view, json_display, json_eq, json_same, json_text, lemma_json_same_reflexive, lemma_entries_view_keys, has_key, unique_keys, Json, JsonV};
use crate::provenance::{lemma_lex_irreflexive, lemma_lex_total, lemma_lex_transitive, lex_lt};
use crate::text::{append_chars, append_str, chars_of, push_char, str_eq};
use vstd::prelude::*;

verus! {

/// How a value is shown in a diff line: its compact JSON text, cut to 119
/// characters and an ellipsis when it is longer than 120.
pub open spec fn compact_text(v: JsonV) -> Seq<char> {
    let t = json_text(v);
    if t.len() > 120 {
        t.take(119).push('…')
    } else {
        t
    }
}

/// The compact rendering of `v`; see [`compact_text`].
pub fn compact(v: &Json) -> (r: String)
    ensures
        r@ == compact_text(v.view_json()),
{
    let text = json_display(v);
    let c = chars_of(text.as_str());
    if c.len() > 120 {
        let mut out = String::new();
        let head = crate::text::slice_chars(c.as_slice(), 0, 119);
        append_chars(&mut out, head.as_slice());
        push_char(&mut out, '…');
        assert(head@ == c@.take(119));
        out
    } else {
        text
    }
}

/// Position of the first entry keyed `k`, from `i` on (-1 if none).
pub open spec fn key_index(es: Seq<(String, Json)>, k: Seq<char>, i: int) -> int
    decreases es.len() - i,
{
    if i < 0 || i >= es.len() {
        -1
    } else if es[i].0@ == k {
        i
    } else {
        key_index(es, k, i + 1)
    }
}

/// The root fields left out of a diff: derived or diagnostic.
pub open spec fn excluded_root(k: Seq<char>) -> bool {
    k == "content_hash"@ || k == "provenance"@
}

/// The path of field `k` below `path`.
pub open spec fn child_path(path: Seq<char>, k: Seq<char>) -> Seq<char> {
    if path.len() == 0 {
        k
    } else {
        path + "."@ + k
    }
}

/// The keys of both objects, in code-point order.
pub open spec fn union_keys(l: Seq<(String, Json)>, r: Seq<(String, Json)>) -> Seq<Seq<char>> {
    sorted_texts(entries_view(l).dom().union(entries_view(r).dom()))
}

/// The difference lines between `l` and `r` at `path`: objects are
/// compared key by key, in key order; any other pair of values that are not
/// equal as JSON ([`json_same`]: `0.0` and `-0.0` are equal) is one line
/// `path: left -> right`.
pub open spec fn spec_diff(path: Seq<char>, l: Json, r: Json) -> Seq<Seq<char>>
    decreases l, 1nat,
{
    match (l, r) {
        (Json::Object(les), Json::Object(res)) => spec_diff_keys(
            path,
            l,
            r,
            union_keys(les@, res@),
            0,
        ),
        _ => if !json_same(l.view_json(), r.view_json()) {
            seq![path + ": "@ + compact_text(l.view_json()) + " -> "@ + compact_text(r.view_json())]
        } else {
            Seq::empty()
        },
    }
}

/// The difference lines of keys `keys[i..]` of the objects `l` and `r`.
pub open spec fn spec_diff_keys(path: Seq<char>, l: Json, r: Json, keys: Seq<Seq<char>>, i: int) -> Seq<
    Seq<char>,
>
    decreases l, 0nat, keys.len() - i,
{
    if i < 0 || i >= keys.len() {
        Seq::empty()
    } else {
        match (l, r) {
            (Json::Object(les), Json::Object(res)) => {
                let k = keys[i];
                let rest = spec_diff_keys(path, l, r, keys, i + 1);
                if path.len() == 0 && excluded_root(k) {
                    rest
                } else {
                    let child = child_path(path, k);
                    let li = key_index(les@, k, 0);
                    let ri = key_index(res@, k, 0);
                    if 0 <= li < les@.len() && 0 <= ri < res@.len() {
                        spec_diff(child, les@[li].1, res@[ri].1) + rest
                    } else if 0 <= li < les@.len() {
                        seq![child + ": "@ + compact_text(les@[li].1.view_json()) + " -> <absent>"@]
                            + rest
                    } else if 0 <= ri < res@.len() {
                        seq![child + ": <absent> -> "@ + compact_text(res@[ri].1.view_json())]
                            + rest
                    } else {
                        rest
                    }
                }
            },
            _ => Seq::empty(),
        }
    }
}

/// Inserts `key` into the strictly sorted `out`, unless it is there.
pub fn insert_key_pub(out: &mut Vec<String>, key: &String)
    requires
        strictly_sorted(texts(old(out)@)),
    ensures
        strictly_sorted(texts(final(out)@)),
        texts(final(out)@).to_set() == texts(old(out)@).to_set().insert(key@),
{
    insert_key(out, key)
}

fn insert_key(out: &mut Vec<String>, key: &String)
    requires
        strictly_sorted(texts(old(out)@)),
    ensures
        strictly_sorted(texts(final(out)@)),
        texts(final(out)@).to_set() == texts(old(out)@).to_set().insert(key@),
{
    let ghost before = texts(out@);
    let mut p: usize = 0;
    while p < out.len() && crate::compose::text_less_pub(&out[p], key)
        invariant
            p <= out@.len(),
            before == texts(out@),
            forall|q: int| 0 <= q < p ==> lex_lt(#[trigger] before[q], key@),
        decreases out@.len() - p,
    {
        p = p + 1;
    }
    if p < out.len() && str_eq(out[p].as_str(), key.as_str()) {
        proof {
            assert(before[p as int] == key@);
            assert(before.to_set().insert(key@) =~= before.to_set());
        }
        return;
    }
    proof {
        if p < before.len() {
            assert(!lex_lt(before[p as int], key@));
            assert(before[p as int] != key@);
            lemma_lex_total(before[p as int], key@);
        }
    }
    out.insert(p, key.clone());
    proof {
        let now = texts(out@);
        assert(now =~= before.insert(p as int, key@));
        assert forall|x: int, y: int| 0 <= x < y < now.len() implies lex_lt(#[trigger] now[x], #[trigger] now[y]) by {
            if y < p {
            } else if x < p && y == p {
            } else if x < p && y > p {
                assert(now[y] == before[y - 1]);
                assert(lex_lt(key@, before[y - 1])) by {
                    if y - 1 > p {
                        lemma_lex_transitive(key@, before[p as int], before[y - 1]);
                    }
                }
                lemma_lex_transitive(before[x], key@, before[y - 1]);
            } else if x == p {
                assert(now[y] == before[y - 1]);
                if y - 1 > p {
                    lemma_lex_transitive(key@, before[p as int], before[y - 1]);
                }
            } else {
                assert(now[x] == before[x - 1]);
                assert(now[y] == before[y - 1]);
            }
        }
        assert(now.to_set() =~= before.to_set().insert(key@)) by {
            assert forall|k: Seq<char>| now.to_set().contains(k) implies before.to_set().insert(key@).contains(k) by {
                let m = choose|m: int| 0 <= m < now.len() && now[m] == k;
                if m < p {
                    assert(before[m] == k);
                } else if m > p {
                    assert(before[m - 1] == k);
                }
            }
            assert forall|k: Seq<char>| before.to_set().insert(key@).contains(k) implies now.to_set().contains(k) by {
                if k == key@ {
                    assert(now[p as int] == k);
                } else {
                    let m = choose|m: int| 0 <= m < before.len() && before[m] == k;
                    if m < p {
                        assert(now[m] == k);
                    } else {
                        assert(now[m + 1] == k);
                    }
                }
            }
        }
    }
}

/// The keys of the first `i` entries.
pub open spec fn keys_upto(es: Seq<(String, Json)>, i: int) -> Set<Seq<char>> {
    Set::new(|k: Seq<char>| exists|j: int| 0 <= j < i && #[trigger] es[j].0@ == k)
}

proof fn lemma_keys_upto_step(es: Seq<(String, Json)>, i: int)
    requires
        0 <= i < es.len(),
    ensures
        keys_upto(es, i + 1) == keys_upto(es, i).insert(es[i].0@),
{
    assert forall|k: Seq<char>| #[trigger] keys_upto(es, i + 1).contains(k) implies keys_upto(es, i).insert(es[i].0@).contains(k) by {
        let j = choose|j: int| 0 <= j < i + 1 && #[trigger] es[j].0@ == k;
        if j < i {
            assert(keys_upto(es, i).contains(k));
        }
    }
    assert forall|k: Seq<char>| #[trigger] keys_upto(es, i).insert(es[i].0@).contains(k) implies keys_upto(es, i + 1).contains(k) by {
        if k == es[i].0@ {
        } else {
            let j = choose|j: int| 0 <= j < i && #[trigger] es[j].0@ == k;
            assert(es[j].0@ == k);
        }
    }
    assert(keys_upto(es, i + 1) =~= keys_upto(es, i).insert(es[i].0@));
}

/// Adds the keys of `es` to the strictly sorted `out`.
fn insert_keys(out: &mut Vec<String>, es: &Vec<(String, Json)>)
    requires
        strictly_sorted(texts(old(out)@)),
    ensures
        strictly_sorted(texts(final(out)@)),
        texts(final(out)@).to_set() == texts(old(out)@).to_set().union(entries_view(es@).dom()),
{
    let ghost start = texts(out@).to_set();
    let mut i: usize = 0;
    proof {
        lemma_entries_view_keys(es@);
        assert(keys_upto(es@, 0) =~= Set::<Seq<char>>::empty());
        assert(start.union(keys_upto(es@, 0)) =~= start);
    }
    while i < es.len()
        invariant
            i <= es@.len(),
            strictly_sorted(texts(out@)),
            texts(out@).to_set() == start.union(keys_upto(es@, i as int)),
        decreases es@.len() - i,
    {
        insert_key(out, &es[i].0);
        proof {
            lemma_keys_upto_step(es@, i as int);
            assert(start.union(keys_upto(es@, i as int)).insert(es@[i as int].0@) =~= start.union(
                keys_upto(es@, i + 1),
            ));
        }
        i = i + 1;
    }
    proof {
        assert forall|k: Seq<char>| #[trigger] keys_upto(es@, es@.len() as int).contains(k) <==> entries_view(es@).dom().contains(k) by {
            if has_key(es@, k) {
                let j = choose|j: int| 0 <= j < es@.len() && #[trigger] es@[j].0@ == k;
                assert(es@[j].0@ == k);
            }
        }
        assert(keys_upto(es@, es@.len() as int) =~= entries_view(es@).dom());
    }
}

/// The keys of both objects, in code-point order; see [`union_keys`].
fn sorted_union(l: &Vec<(String, Json)>, r: &Vec<(String, Json)>) -> (out: Vec<String>)
    ensures
        texts(out@) == union_keys(l@, r@),
{
    let mut out: Vec<String> = Vec::new();
    proof {
        assert(texts(out@).to_set() =~= Set::<Seq<char>>::empty());
    }
    insert_keys(&mut out, l);
    insert_keys(&mut out, r);
    proof {
        let d = entries_view(l@).dom().union(entries_view(r@).dom());
        assert(texts(out@).to_set() =~= d);
        let s = sorted_texts(d);
        assert(strictly_sorted(texts(out@)) && texts(out@).to_set() == d);
        assert(strictly_sorted(s) && s.to_set() == d);
        lemma_sorted_unique(texts(out@), s);
    }
    out
}

/// The first entry keyed `k`; see [`key_index`].
fn key_at(es: &Vec<(String, Json)>, k: &str) -> (r: Option<usize>)
    ensures
        match r {
            Some(i) => i as int == key_index(es@, k@, 0) && i < es@.len(),
            None => key_index(es@, k@, 0) == -1,
        },
{
    let mut i: usize = 0;
    while i < es.len()
        invariant
            i <= es@.len(),
            key_index(es@, k@, 0) == key_index(es@, k@, i as int),
        decreases es@.len() - i,
    {
        if str_eq(es[i].0.as_str(), k) {
            return Some(i);
        }
        i = i + 1;
    }
    None
}

proof fn lemma_texts_push(v: Seq<String>, x: String)
    ensures
        texts(v.push(x)) == texts(v).push(x@),
{
    assert(texts(v.push(x)) =~= texts(v).push(x@));
}

/// Appends to `lines` the difference lines between `l` and `r` at `path`;
/// see [`spec_diff`].
pub fn diff(path: &str, l: &Json, r: &Json, lines: &mut Vec<String>)
    requires
        l.wf(),
        r.wf(),
    ensures
        texts(final(lines)@) == texts(old(lines)@) + spec_diff(path@, *l, *r),
    decreases l,
{
    match (l, r) {
        (Json::Object(les), Json::Object(res)) => {
            let keys = sorted_union(les, res);
            let ghost ks = texts(keys@);
            let ghost start = texts(lines@);
            let mut i: usize = 0;
            proof {
                assert(start + spec_diff_keys(path@, *l, *r, ks, 0) =~= texts(lines@) + spec_diff_keys(path@, *l, *r, ks, 0));
            }
            while i < keys.len()
                invariant
                    l.wf(),
                    r.wf(),
                    *l == Json::Object(*les),
                    *r == Json::Object(*res),
                    ks == texts(keys@),
                    ks == union_keys(les@, res@),
                    spec_diff(path@, *l, *r) == spec_diff_keys(path@, *l, *r, ks, 0),
                    i <= keys@.len(),
                    start + spec_diff_keys(path@, *l, *r, ks, 0) == texts(lines@) + spec_diff_keys(path@, *l, *r, ks, i as int),
                decreases keys@.len() - i,
            {
                let k = keys[i].as_str();
                assert(ks[i as int] == k@);
                let ghost rest = spec_diff_keys(path@, *l, *r, ks, i + 1);
                let ghost before = texts(lines@);
                if path.is_empty() && (str_eq(k, "content_hash") || str_eq(k, "provenance")) {
                    proof {
                        assert(spec_diff_keys(path@, *l, *r, ks, i as int) == rest);
                    }
                } else {
                    let mut child = String::new();
                    if !path.is_empty() {
                        append_str(&mut child, path);
                        append_str(&mut child, ".");
                    }
                    append_str(&mut child, k);
                    assert(child@ == child_path(path@, k@));
                    let li = key_at(les, k);
                    let ri = key_at(res, k);
                    match (li, ri) {
                        (Some(a), Some(b)) => {
                            diff(child.as_str(), &les[a].1, &res[b].1, lines);
                        },
                        (Some(a), None) => {
                            let mut line = child.clone();
                            append_str(&mut line, ": ");
                            let shown = compact(&les[a].1);
                            append_str(&mut line, shown.as_str());
                            append_str(&mut line, " -> <absent>");
                            let ghost pre = lines@;
                            lines.push(line);
                            proof {
                                lemma_texts_push(pre, line);
                            }
                        },
                        (None, Some(b)) => {
                            let mut line = child.clone();
                            append_str(&mut line, ": <absent> -> ");
                            let shown = compact(&res[b].1);
                            append_str(&mut line, shown.as_str());
                            let ghost pre = lines@;
                            lines.push(line);
                            proof {
                                lemma_texts_push(pre, line);
                            }
                        },
                        (None, None) => {},
                    }
                    proof {
                        let x = texts(lines@).subrange(before.len() as int, texts(lines@).len() as int);
                        assert(texts(lines@) =~= before + x);
                        assert(spec_diff_keys(path@, *l, *r, ks, i as int) == x + rest);
                    }
                }
                proof {
                    assert(start + spec_diff_keys(path@, *l, *r, ks, 0) =~= texts(lines@) + rest);
                }
                i = i + 1;
            }
        },
        _ => {
            if !json_eq(l, r) {
                let mut line = String::new();
                append_str(&mut line, path);
                append_str(&mut line, ": ");
                let a = compact(l);
                append_str(&mut line, a.as_str());
                append_str(&mut line, " -> ");
                let b = compact(r);
                append_str(&mut line, b.as_str());
                let ghost pre = lines@;
                lines.push(line);
                proof {
                    lemma_texts_push(pre, line);
                }
            } else {
                assert(texts(lines@) =~= texts(old(lines)@) + Seq::<Seq<char>>::empty());
            }
        },
    }
}

/// The difference lines between two documents (derived and diagnostic root
/// fields left out), in key order.
pub fn diff_documents(left: &Json, right: &Json) -> (r: Vec<String>)
    requires
        left.wf(),
        right.wf(),
    ensures
        texts(r@) == spec_diff(Seq::empty(), *left, *right),
{
    let mut lines: Vec<String> = Vec::new();
    proof {
        reveal_strlit("");
        assert(""@ =~= Seq::<char>::empty());
        assert(texts(lines@) =~= Seq::<Seq<char>>::empty());
    }
    diff("", left, right, &mut lines);
    assert(texts(lines@) =~= spec_diff(Seq::empty(), *left, *right));
    lines
}

/// A document compared with itself has no differences, at any path.
pub proof fn law_diff_with_itself_is_empty(path: Seq<char>, v: Json)
    ensures
        spec_diff(path, v, v) == Seq::<Seq<char>>::empty(),
    decreases v, 1nat,
{
    match v {
        Json::Object(es) => lemma_diff_keys_with_itself(path, v, union_keys(es@, es@), 0),
        _ => lemma_json_same_reflexive(v.view_json()),
    }
}

proof fn lemma_diff_keys_with_itself(path: Seq<char>, v: Json, keys: Seq<Seq<char>>, i: int)
    requires
        v is Object,
    ensures
        spec_diff_keys(path, v, v, keys, i) == Seq::<Seq<char>>::empty(),
    decreases v, 0nat, keys.len() - i,
{
    if 0 <= i < keys.len() {
        lemma_diff_keys_with_itself(path, v, keys, i + 1);
        match v {
            Json::Object(es) => {
                let k = keys[i];
                if !(path.len() == 0 && excluded_root(k)) {
                    let li = key_index(es@, k, 0);
                    if 0 <= li < es@.len() {
                        law_diff_with_itself_is_empty(child_path(path, k), es@[li].1);
                        assert(spec_diff(child_path(path, k), es@[li].1, es@[li].1) + Seq::<Seq<char>>::empty()
                            =~= Seq::<Seq<char>>::empty());
                    }
                }
            },
            _ => {},
        }
    }
}

/// `s` with `x` inserted in code-point order (kept once).
pub open spec fn insert_text(s: Seq<Seq<char>>, x: Seq<char>) -> Seq<Seq<char>>
    decreases s.len(),
{
    if s.len() == 0 {
        seq![x]
    } else if s[0] == x {
        s
    } else if lex_lt(x, s[0]) {
        seq![x] + s
    } else {
        seq![s[0]] + insert_text(s.drop_first(), x)
    }
}

/// The texts of `s` in code-point order, each once.
pub open spec fn sort_texts(s: Seq<Seq<char>>) -> Seq<Seq<char>>
    decreases s.len(),
{
    if s.len() == 0 {
        Seq::empty()
    } else {
        insert_text(sort_texts(s.drop_last()), s.last())
    }
}

proof fn lemma_insert_text(s: Seq<Seq<char>>, x: Seq<char>)
    requires
        strictly_sorted(s),
    ensures
        strictly_sorted(insert_text(s, x)),
        insert_text(s, x).to_set() == s.to_set().insert(x),
        insert_text(s, x).len() > 0,
        insert_text(s, x)[0] == x || (s.len() > 0 && insert_text(s, x)[0] == s[0]),
    decreases s.len(),
{
    let t = insert_text(s, x);
    if s.len() == 0 {
        assert(t.to_set() =~= s.to_set().insert(x)) by {
            assert(t[0] == x);
        }
    } else if s[0] == x {
        assert(t.to_set() =~= s.to_set().insert(x)) by {
            assert(s.to_set().contains(s[0]));
        }
    } else if lex_lt(x, s[0]) {
        assert forall|i: int, j: int| 0 <= i < j < t.len() implies lex_lt(#[trigger] t[i], #[trigger] t[j]) by {
            if i == 0 {
                if j > 1 {
                    lemma_lex_transitive(x, s[0], s[j - 1]);
                }
            } else {
                assert(t[i] == s[i - 1] && t[j] == s[j - 1]);
            }
        }
        assert(t.to_set() =~= s.to_set().insert(x)) by {
            assert forall|y: Seq<char>| t.to_set().contains(y) implies s.to_set().insert(x).contains(y) by {
                let k = choose|k: int| 0 <= k < t.len() && t[k] == y;
                if k > 0 {
                    assert(s[k - 1] == y);
                }
            }
            assert forall|y: Seq<char>| s.to_set().insert(x).contains(y) implies t.to_set().contains(y) by {
                if y == x {
                    assert(t[0] == y);
                } else {
                    let k = choose|k: int| 0 <= k < s.len() && s[k] == y;
                    assert(t[k + 1] == y);
                }
            }
        }
    } else {
        let r = s.drop_first();
        assert forall|i: int, j: int| 0 <= i < j < r.len() implies lex_lt(#[trigger] r[i], #[trigger] r[j]) by {
            assert(r[i] == s[i + 1] && r[j] == s[j + 1]);
        }
        lemma_insert_text(r, x);
        let u = insert_text(r, x);
        lemma_lex_total(x, s[0]);
        assert(lex_lt(s[0], x));
        assert forall|i: int, j: int| 0 <= i < j < t.len() implies lex_lt(#[trigger] t[i], #[trigger] t[j]) by {
            if i == 0 {
                assert(t[j] == u[j - 1]);
                assert(u.to_set().contains(u[j - 1]));
                assert(r.to_set().insert(x).contains(u[j - 1]));
                if u[j - 1] != x {
                    let k = choose|k: int| 0 <= k < r.len() && r[k] == u[j - 1];
                    assert(r[k] == s[k + 1]);
                }
            } else {
                assert(t[i] == u[i - 1] && t[j] == u[j - 1]);
            }
        }
        assert(t.to_set() =~= s.to_set().insert(x)) by {
            assert forall|y: Seq<char>| t.to_set().contains(y) implies s.to_set().insert(x).contains(y) by {
                let k = choose|k: int| 0 <= k < t.len() && t[k] == y;
                if k > 0 {
                    assert(u[k - 1] == y);
                    assert(u.to_set().contains(y));
                    if y != x {
                        let m = choose|m: int| 0 <= m < r.len() && r[m] == y;
                        assert(s[m + 1] == y);
                    }
                }
            }
            assert forall|y: Seq<char>| s.to_set().insert(x).contains(y) implies t.to_set().contains(y) by {
                if y == s[0] {
                    assert(t[0] == y);
                } else if y == x {
                    assert(u.to_set().contains(y));
                    let k = choose|k: int| 0 <= k < u.len() && u[k] == y;
                    assert(t[k + 1] == y);
                } else {
                    let m = choose|m: int| 0 <= m < s.len() && s[m] == y;
                    assert(m > 0);
                    assert(r[m - 1] == y);
                    assert(u.to_set().contains(y));
                    let k = choose|k: int| 0 <= k < u.len() && u[k] == y;
                    assert(t[k + 1] == y);
                }
            }
        }
    }
}

proof fn lemma_sort_texts(s: Seq<Seq<char>>)
    ensures
        strictly_sorted(sort_texts(s)),
        sort_texts(s).to_set() == s.to_set(),
    decreases s.len(),
{
    if s.len() == 0 {
        assert(sort_texts(s).to_set() =~= s.to_set());
    } else {
        lemma_sort_texts(s.drop_last());
        lemma_insert_text(sort_texts(s.drop_last()), s.last());
        assert(s.to_set() =~= s.drop_last().to_set().insert(s.last())) by {
            assert forall|y: Seq<char>| s.to_set().contains(y) implies s.drop_last().to_set().insert(s.last()).contains(y) by {
                let k = choose|k: int| 0 <= k < s.len() && s[k] == y;
                if k < s.len() - 1 {
                    assert(s.drop_last()[k] == y);
                }
            }
            assert forall|y: Seq<char>| s.drop_last().to_set().insert(s.last()).contains(y) implies s.to_set().contains(y) by {
                if y != s.last() {
                    let k = choose|k: int| 0 <= k < s.drop_last().len() && s.drop_last()[k] == y;
                    assert(s[k] == y);
                }
            }
        }
    }
}

/// The keys of object entries, in order.
pub open spec fn entry_keys(es: Seq<(String, Json)>) -> Seq<Seq<char>> {
    es.map_values(|e: (String, Json)| e.0@)
}

/// The union of the keys of two objects is listed, in code-point order,
/// by [`union_keys`].
proof fn lemma_union_keys(l: Seq<(String, Json)>, r: Seq<(String, Json)>)
    ensures
        strictly_sorted(union_keys(l, r)),
        union_keys(l, r).to_set() == entries_view(l).dom().union(entries_view(r).dom()),
{
    let d = entries_view(l).dom().union(entries_view(r).dom());
    let all = entry_keys(l) + entry_keys(r);
    lemma_entries_view_keys(l);
    lemma_entries_view_keys(r);
    assert(all.to_set() =~= d) by {
        assert forall|k: Seq<char>| all.to_set().contains(k) implies d.contains(k) by {
            let m = choose|m: int| 0 <= m < all.len() && all[m] == k;
            if m < l.len() {
                assert(l[m].0@ == k);
                assert(has_key(l, k));
            } else {
                assert(r[m - l.len()].0@ == k);
                assert(has_key(r, k));
            }
        }
        assert forall|k: Seq<char>| d.contains(k) implies all.to_set().contains(k) by {
            if has_key(l, k) {
                let m = choose|m: int| 0 <= m < l.len() && #[trigger] l[m].0@ == k;
                assert(all[m] == k);
            } else {
                assert(has_key(r, k));
                let m = choose|m: int| 0 <= m < r.len() && #[trigger] r[m].0@ == k;
                assert(all[l.len() + m] == k);
            }
        }
    }
    lemma_sort_texts(all);
    assert(strictly_sorted(sort_texts(all)) && sort_texts(all).to_set() == d);
}

proof fn lemma_key_index(es: Seq<(String, Json)>, i: int, t: int)
    requires
        unique_keys(es),
        0 <= t <= i < es.len(),
    ensures
        key_index(es, es[i].0@, t) == i,
    decreases i - t,
{
    if t < i {
        assert(es[t].0@ != es[i].0@);
        lemma_key_index(es, i, t + 1);
    }
}

/// Every line of `lines` is in `all`.
pub open spec fn all_lines_in(lines: Seq<Seq<char>>, all: Seq<Seq<char>>) -> bool {
    forall|n: int| 0 <= n < lines.len() ==> all.contains(#[trigger] lines[n])
}

proof fn lemma_diff_keys_contains(path: Seq<char>, l: Json, r: Json, keys: Seq<Seq<char>>, t: int, m: int, x: Seq<Seq<char>>)
    requires
        l is Object,
        r is Object,
        0 <= t <= m < keys.len(),
        !(path.len() == 0 && excluded_root(keys[m])),
        0 <= key_index(l->Object_0@, keys[m], 0) < l->Object_0@.len(),
        0 <= key_index(r->Object_0@, keys[m], 0) < r->Object_0@.len(),
        x == spec_diff(
            child_path(path, keys[m]),
            l->Object_0@[key_index(l->Object_0@, keys[m], 0)].1,
            r->Object_0@[key_index(r->Object_0@, keys[m], 0)].1,
        ),
    ensures
        all_lines_in(x, spec_diff_keys(path, l, r, keys, t)),
    decreases m - t,
{
    let here = spec_diff_keys(path, l, r, keys, t);
    let rest = spec_diff_keys(path, l, r, keys, t + 1);
    if t == m {
        assert(here == x + rest);
        assert forall|n: int| 0 <= n < x.len() implies here.contains(#[trigger] x[n]) by {
            assert(here[n] == x[n]);
        }
    } else {
        lemma_diff_keys_contains(path, l, r, keys, t + 1, m, x);
        assert forall|n: int| 0 <= n < x.len() implies here.contains(#[trigger] x[n]) by {
            let q = choose|q: int| 0 <= q < rest.len() && rest[q] == x[n];
            let prefix = here.len() - rest.len();
            assert(prefix >= 0);
            assert(here.subrange(prefix, here.len() as int) =~= rest);
            assert(here[prefix + q] == x[n]);
        }
    }
}

/// Every difference inside a member that both objects have is reported in
/// the difference of the objects, at the member's path (the root members
/// `content_hash` and `provenance` are the only ones left out). A member
/// whose values are not both objects and differ is one line.
pub proof fn law_member_differences_are_reported(path: Seq<char>, l: Json, r: Json, i: int, j: int)
    requires
        l.wf(),
        r.wf(),
        l is Object,
        r is Object,
        0 <= i < l->Object_0@.len(),
        0 <= j < r->Object_0@.len(),
        l->Object_0@[i].0@ == r->Object_0@[j].0@,
        path.len() > 0 || (l->Object_0@[i].0@ != "content_hash"@ && l->Object_0@[i].0@ != "provenance"@),
    ensures
        all_lines_in(
            spec_diff(
                if path.len() == 0 {
                    l->Object_0@[i].0@
                } else {
                    path + "."@ + l->Object_0@[i].0@
                },
                l->Object_0@[i].1,
                r->Object_0@[j].1,
            ),
            spec_diff(path, l, r),
        ),
        !(l->Object_0@[i].1 is Object && r->Object_0@[j].1 is Object) && !json_same(
            l->Object_0@[i].1.view_json(),
            r->Object_0@[j].1.view_json(),
        ) ==> spec_diff(path, l, r).contains(
            (if path.len() == 0 {
                l->Object_0@[i].0@
            } else {
                path + "."@ + l->Object_0@[i].0@
            }) + ": "@ + compact_text(l->Object_0@[i].1.view_json()) + " -> "@ + compact_text(
                r->Object_0@[j].1.view_json(),
            ),
        ),
{
    let les = l->Object_0@;
    let res = r->Object_0@;
    let k = les[i].0@;
    let keys = union_keys(les, res);
    lemma_union_keys(les, res);
    lemma_entries_view_keys(les);
    assert(has_key(les, k));
    assert(keys.to_set().contains(k));
    let m = choose|m: int| 0 <= m < keys.len() && keys[m] == k;
    lemma_key_index(les, i, 0);
    lemma_key_index(res, j, 0);
    let x = spec_diff(child_path(path, k), les[i].1, res[j].1);
    lemma_diff_keys_contains(path, l, r, keys, 0, m, x);
    if !(les[i].1 is Object && res[j].1 is Object) && !json_same(les[i].1.view_json(), res[j].1.view_json()) {
        assert(x[0] == child_path(path, k) + ": "@ + compact_text(les[i].1.view_json()) + " -> "@
            + compact_text(res[j].1.view_json()));
    }
}

} // verus!
