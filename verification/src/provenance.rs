//! Provenance: which layer last set each dotted path of a merged document,
//! and the byte-wise (code point) ordering of keys.
use crate::text::{chars_of, spec_starts_with, starts_with};
use vstd::prelude::*;

verus! {

/// Lexicographic order of texts by code point: the order of `String` keys
/// in a sorted map.
pub open spec fn lex_lt(a: Seq<char>, b: Seq<char>) -> bool
    decreases a.len(),
{
    if b.len() == 0 {
        false
    } else if a.len() == 0 {
        true
    } else if a[0] != b[0] {
        a[0] < b[0]
    } else {
        lex_lt(a.drop_first(), b.drop_first())
    }
}

pub proof fn lemma_lex_irreflexive(a: Seq<char>)
    ensures
        !lex_lt(a, a),
    decreases a.len(),
{
    if a.len() > 0 {
        lemma_lex_irreflexive(a.drop_first());
    }
}

pub proof fn lemma_lex_total(a: Seq<char>, b: Seq<char>)
    ensures
        a == b || lex_lt(a, b) || lex_lt(b, a),
        !(lex_lt(a, b) && lex_lt(b, a)),
    decreases a.len(),
{
    if a.len() > 0 && b.len() > 0 {
        lemma_lex_total(a.drop_first(), b.drop_first());
        if a[0] == b[0] && a.drop_first() == b.drop_first() {
            assert forall|i: int| 0 <= i < a.len() implies a[i] == b[i] by {
                if i > 0 {
                    assert(a[i] == a.drop_first()[i - 1]);
                    assert(b[i] == b.drop_first()[i - 1]);
                }
            }
            assert(a =~= b);
        }
    } else if a.len() == 0 && b.len() == 0 {
        assert(a =~= b);
    }
}

pub proof fn lemma_lex_transitive(a: Seq<char>, b: Seq<char>, c: Seq<char>)
    requires
        lex_lt(a, b),
        lex_lt(b, c),
    ensures
        lex_lt(a, c),
    decreases a.len(),
{
    if a.len() > 0 && b.len() > 0 && c.len() > 0 {
        if a[0] == b[0] && b[0] == c[0] {
            lemma_lex_transitive(a.drop_first(), b.drop_first(), c.drop_first());
        }
    }
}

/// Strict code-point order of two texts.
pub fn lex_less(a: &[char], b: &[char]) -> (r: bool)
    ensures
        r == lex_lt(a@, b@),
{
    let mut i: usize = 0;
    assert(a@.skip(0) =~= a@);
    assert(b@.skip(0) =~= b@);
    while i < a.len() && i < b.len() && a[i] == b[i]
        invariant
            i <= a@.len(),
            i <= b@.len(),
            lex_lt(a@, b@) == lex_lt(a@.skip(i as int), b@.skip(i as int)),
        decreases a@.len() - i,
    {
        assert(a@.skip(i as int).drop_first() =~= a@.skip(i + 1));
        assert(b@.skip(i as int).drop_first() =~= b@.skip(i + 1));
        i = i + 1;
    }
    if i == b.len() {
        false
    } else if i == a.len() {
        true
    } else {
        a[i] < b[i]
    }
}

/// The map that a list of `(key, value)` text pairs denotes (a later pair
/// wins).
pub open spec fn pairs_view(s: Seq<(String, String)>) -> Map<Seq<char>, Seq<char>>
    decreases s.len(),
{
    if s.len() == 0 {
        Map::empty()
    } else {
        pairs_view(s.drop_last()).insert(s.last().0@, s.last().1@)
    }
}

pub open spec fn unique_pair_keys(s: Seq<(String, String)>) -> bool {
    forall|i: int, j: int| 0 <= i < j < s.len() ==> #[trigger] s[i].0@ != #[trigger] s[j].0@
}

proof fn lemma_pairs_view(s: Seq<(String, String)>)
    requires
        unique_pair_keys(s),
    ensures
        forall|k: Seq<char>|
            #[trigger] pairs_view(s).contains_key(k) <==> exists|i: int|
                0 <= i < s.len() && #[trigger] s[i].0@ == k,
        forall|i: int| 0 <= i < s.len() ==> #[trigger] pairs_view(s)[s[i].0@] == s[i].1@,
    decreases s.len(),
{
    if s.len() > 0 {
        let t = s.drop_last();
        lemma_pairs_view(t);
        assert forall|k: Seq<char>| #[trigger] pairs_view(s).contains_key(k) <==> exists|i: int|
            0 <= i < s.len() && #[trigger] s[i].0@ == k by {
            if pairs_view(t).contains_key(k) {
                let i = choose|i: int| 0 <= i < t.len() && #[trigger] t[i].0@ == k;
                assert(s[i].0@ == k);
            }
            if k == s.last().0@ {
                assert(s[s.len() - 1].0@ == k);
            }
            if exists|i: int| 0 <= i < s.len() && #[trigger] s[i].0@ == k {
                let i = choose|i: int| 0 <= i < s.len() && #[trigger] s[i].0@ == k;
                if i < s.len() - 1 {
                    assert(t[i].0@ == k);
                }
            }
        }
        assert forall|i: int| 0 <= i < s.len() implies #[trigger] pairs_view(s)[s[i].0@]
            == s[i].1@ by {
            if i < s.len() - 1 {
                assert(t[i] == s[i]);
                assert(s[i].0@ != s[s.len() - 1].0@);
                assert(pairs_view(t)[t[i].0@] == t[i].1@);
            } else {
                assert(s[i] == s.last());
            }
        }
    }
}

/// Provenance of a merged document: for each dotted path, the layer that
/// last set it (`"<layer> (deleted)"` for a deletion).
#[derive(Debug)]
pub struct Provenance {
    entries: Vec<(String, String)>,
}

impl View for Provenance {
    type V = Map<Seq<char>, Seq<char>>;

    closed spec fn view(&self) -> Map<Seq<char>, Seq<char>> {
        pairs_view(self.entries@)
    }
}

impl Provenance {
    /// Distinct paths.
    pub closed spec fn wf(&self) -> bool {
        unique_pair_keys(self.entries@)
    }

    /// No provenance yet.
    pub fn new() -> (r: Provenance)
        ensures
            r.wf(),
            r@ == Map::<Seq<char>, Seq<char>>::empty(),
    {
        Provenance { entries: Vec::new() }
    }

    /// The recorded `(path, layer)` pairs.
    pub fn entries(&self) -> (r: &Vec<(String, String)>)
        ensures
            pairs_view(r@) == self@,
            self.wf() ==> unique_pair_keys(r@),
    {
        &self.entries
    }

    /// The layer recorded for `path`.
    #[verifier::loop_isolation(false)]
    pub fn get(&self, path: &str) -> (r: Option<&String>)
        requires
            self.wf(),
        ensures
            match r {
                Some(l) => self@.contains_key(path@) && self@[path@] == l@,
                None => !self@.contains_key(path@),
            },
    {
        proof {
            lemma_pairs_view(self.entries@);
        }
        let mut i: usize = 0;
        while i < self.entries.len()
            invariant
                self.wf(),
                i <= self.entries@.len(),
                forall|j: int| 0 <= j < i ==> self.entries@[j].0@ != path@,
            decreases self.entries@.len() - i,
        {
            if crate::text::str_eq(self.entries[i].0.as_str(), path) {
                return Some(&self.entries[i].1);
            }
            i = i + 1;
        }
        None
    }

    /// Records `layer` for `path`, replacing any earlier record.
    #[verifier::loop_isolation(false)]
    pub fn insert(&mut self, path: String, layer: String)
        requires
            old(self).wf(),
        ensures
            final(self).wf(),
            final(self)@ == old(self)@.insert(path@, layer@),
    {
        proof {
            lemma_pairs_view(self.entries@);
        }
        let mut i: usize = 0;
        while i < self.entries.len()
            invariant
                self.entries@ == old(self).entries@,
                unique_pair_keys(self.entries@),
                i <= self.entries@.len(),
                forall|j: int| 0 <= j < i ==> self.entries@[j].0@ != path@,
            decreases self.entries@.len() - i,
        {
            if crate::text::str_eq(self.entries[i].0.as_str(), path.as_str()) {
                let ghost s = self.entries@;
                self.entries.set(i, (path, layer));
                proof {
                    let t = self.entries@;
                    assert(unique_pair_keys(t)) by {
                        assert forall|a: int, b: int| 0 <= a < b < t.len() implies #[trigger] t[a].0@
                            != #[trigger] t[b].0@ by {
                            assert(s[a].0@ != s[b].0@);
                        }
                    }
                    lemma_pairs_view(t);
                    assert forall|k: Seq<char>| #[trigger] pairs_view(t).contains_key(k)
                        <==> pairs_view(s).insert(path@, layer@).contains_key(k) by {
                        if exists|j: int| 0 <= j < s.len() && #[trigger] s[j].0@ == k {
                            let j = choose|j: int| 0 <= j < s.len() && #[trigger] s[j].0@ == k;
                            assert(t[j].0@ == k);
                        }
                        if exists|j: int| 0 <= j < t.len() && #[trigger] t[j].0@ == k {
                            let j = choose|j: int| 0 <= j < t.len() && #[trigger] t[j].0@ == k;
                            if j != i {
                                assert(s[j].0@ == k);
                            }
                        }
                    }
                    assert forall|k: Seq<char>| #[trigger] pairs_view(t).contains_key(k) implies pairs_view(
                        t,
                    )[k] == pairs_view(s).insert(path@, layer@)[k] by {
                        let j = choose|j: int| 0 <= j < t.len() && #[trigger] t[j].0@ == k;
                        if j != i {
                            assert(s[j] == t[j]);
                        }
                    }
                    assert(pairs_view(t) =~= pairs_view(s).insert(path@, layer@));
                }
                return;
            }
            i = i + 1;
        }
        let ghost s = self.entries@;
        self.entries.push((path, layer));
        proof {
            let t = self.entries@;
            assert(t.drop_last() =~= s);
            assert(unique_pair_keys(t)) by {
                assert forall|a: int, b: int| 0 <= a < b < t.len() implies #[trigger] t[a].0@
                    != #[trigger] t[b].0@ by {
                    if b == t.len() - 1 {
                        assert(s[a].0@ != path@);
                    } else {
                        assert(s[a].0@ != s[b].0@);
                    }
                }
            }
        }
    }
}

pub open spec fn is_user_layer(layer: Seq<char>) -> bool {
    spec_starts_with(layer, "overlay:"@) || spec_starts_with(layer, "api:"@)
}

/// True for layers that carry explicit user intent: user overlays and
/// programmatic API layers.
pub fn user_layer(layer: &str) -> (r: bool)
    ensures
        r == is_user_layer(layer@),
{
    let l = chars_of(layer);
    starts_with(l.as_slice(), "overlay:") || starts_with(l.as_slice(), "api:")
}

/// A user-intent record strictly below `path` (its key extends `path.`).
pub open spec fn user_below(prov: Map<Seq<char>, Seq<char>>, path: Seq<char>, k: Seq<char>) -> bool {
    prov.contains_key(k) && spec_starts_with(k, path + "."@) && is_user_layer(prov[k])
}

/// The first (in key order) user-intent record strictly below `path`.
pub open spec fn spec_first_user_below(prov: Map<Seq<char>, Seq<char>>, path: Seq<char>) -> Option<
    (Seq<char>, Seq<char>),
> {
    if exists|k: Seq<char>| user_below(prov, path, k) {
        let k = choose|k: Seq<char>|
            user_below(prov, path, k) && forall|k2: Seq<char>|
                user_below(prov, path, k2) ==> !lex_lt(k2, k);
        Some((k, prov[k]))
    } else {
        None
    }
}

/// The user-intent record at `path` or, failing that, the first (in key
/// order) user-intent record below it.
pub open spec fn spec_user_provenance(prov: Map<Seq<char>, Seq<char>>, path: Seq<char>) -> Option<
    (Seq<char>, Seq<char>),
> {
    if prov.contains_key(path) && is_user_layer(prov[path]) {
        Some((path, prov[path]))
    } else {
        spec_first_user_below(prov, path)
    }
}

fn first_user_below(prov: &Provenance, path: &str) -> (r: Option<(String, String)>)
    requires
        prov.wf(),
    ensures
        match (r, spec_first_user_below(prov@, path@)) {
            (Some((k, l)), Some((sk, sl))) => k@ == sk && l@ == sl,
            (None, None) => true,
            _ => false,
        },
{
    let mut prefix = path.to_owned();
    crate::text::append_str(&mut prefix, ".");
    let es = prov.entries();
    proof {
        lemma_pairs_view(es@);
    }
    let mut best: Option<usize> = None;
    let mut i: usize = 0;
    while i < es.len()
        invariant
            pairs_view(es@) == prov@,
            unique_pair_keys(es@),
            forall|k: Seq<char>|
                #[trigger] prov@.contains_key(k) <==> exists|j: int|
                    0 <= j < es@.len() && #[trigger] es@[j].0@ == k,
            forall|j: int| 0 <= j < es@.len() ==> #[trigger] prov@[es@[j].0@] == es@[j].1@,
            prefix@ == path@ + "."@,
            i <= es@.len(),
            match best {
                Some(b) => b < i && user_below(prov@, path@, es@[b as int].0@) && forall|j: int|
                    0 <= j < i && user_below(prov@, path@, #[trigger] es@[j].0@) ==> !lex_lt(
                        es@[j].0@,
                        es@[b as int].0@,
                    ),
                None => forall|j: int| 0 <= j < i ==> !user_below(prov@, path@, #[trigger] es@[j].0@),
            },
        decreases es@.len() - i,
    {
        let key = chars_of(es[i].0.as_str());
        assert(prov@.contains_key(es@[i as int].0@));
        assert(prov@[es@[i as int].0@] == es@[i as int].1@);
        if starts_with(key.as_slice(), prefix.as_str()) && user_layer(es[i].1.as_str()) {
            assert(user_below(prov@, path@, es@[i as int].0@));
            match best {
                None => {
                    best = Some(i);
                    proof {
                        lemma_lex_irreflexive(es@[i as int].0@);
                    }
                },
                Some(b) => {
                    let bk = chars_of(es[b].0.as_str());
                    if lex_less(key.as_slice(), bk.as_slice()) {
                        proof {
                            lemma_lex_irreflexive(es@[i as int].0@);
                            assert forall|j: int|
                                0 <= j < i + 1 && user_below(
                                    prov@,
                                    path@,
                                    #[trigger] es@[j].0@,
                                ) implies !lex_lt(es@[j].0@, es@[i as int].0@) by {
                                if j < i && lex_lt(es@[j].0@, es@[i as int].0@) {
                                    lemma_lex_transitive(
                                        es@[j].0@,
                                        es@[i as int].0@,
                                        es@[b as int].0@,
                                    );
                                }
                            }
                        }
                        best = Some(i);
                    } else {
                        proof {
                            lemma_lex_total(es@[i as int].0@, es@[b as int].0@);
                        }
                    }
                },
            }
        }
        i = i + 1;
    }
    match best {
        None => {
            proof {
                if exists|k: Seq<char>| user_below(prov@, path@, k) {
                    let k = choose|k: Seq<char>| user_below(prov@, path@, k);
                    let j = choose|j: int| 0 <= j < es@.len() && #[trigger] es@[j].0@ == k;
                    assert(!user_below(prov@, path@, es@[j].0@));
                }
            }
            None
        },
        Some(b) => {
            proof {
                let bk = es@[b as int].0@;
                assert forall|k2: Seq<char>| user_below(prov@, path@, k2) implies !lex_lt(k2, bk) by {
                    let j = choose|j: int| 0 <= j < es@.len() && #[trigger] es@[j].0@ == k2;
                }
                let k = choose|k: Seq<char>|
                    user_below(prov@, path@, k) && forall|k2: Seq<char>|
                        user_below(prov@, path@, k2) ==> !lex_lt(k2, k);
                lemma_lex_total(k, bk);
            }
            Some((es[b].0.as_str().to_owned(), es[b].1.as_str().to_owned()))
        },
    }
}

/// Finds a user-intent provenance record at `path` or anywhere beneath it.
pub fn user_provenance(prov: &Provenance, path: &str) -> (r: Option<(String, String)>)
    requires
        prov.wf(),
    ensures
        match (r, spec_user_provenance(prov@, path@)) {
            (Some((k, l)), Some((sk, sl))) => k@ == sk && l@ == sl,
            (None, None) => true,
            _ => false,
        },
{
    if let Some(layer) = prov.get(path) {
        if user_layer(layer.as_str()) {
            return Some((path.to_owned(), layer.as_str().to_owned()));
        }
    }
    first_user_below(prov, path)
}

} // verus!
