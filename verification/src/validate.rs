//! Profile validation rules over plain values.
use crate::error::ModelError;
use crate::text::{
    chars_of, is_ascii_alphanumeric, is_whitespace, spec_is_ascii_alphanumeric,
    spec_is_whitespace,
};
use vstd::prelude::*;
use vstd::string::StringSliceAdditionalSpecFns;

verus! {

/// A validation failure with `message`.
pub fn invalid(message: String) -> (r: ModelError)
    ensures
        r == ModelError::Validation(message),
{
    ModelError::Validation(message)
}

pub open spec fn is_reserved_key_char(c: char) -> bool {
    c == '*' || c == '$' || c == '?' || c == '#'
}

/// Why `text` cannot be a single transport key, if it cannot.
pub open spec fn spec_key_expression_problem(t: Seq<char>) -> Option<Seq<char>> {
    if exists|i: int| 0 <= i < t.len() && spec_is_whitespace(#[trigger] t[i]) {
        Some("contains whitespace"@)
    } else if t.len() > 0 && (t[0] == '/' || t[t.len() - 1] == '/') {
        Some("starts or ends with '/'"@)
    } else if exists|i: int| 0 <= i < t.len() - 1 && #[trigger] t[i] == '/' && t[i + 1] == '/' {
        Some("contains an empty '//' segment"@)
    } else if exists|i: int| 0 <= i < t.len() && is_reserved_key_char(#[trigger] t[i]) {
        Some("contains a wildcard or reserved character (one of * $ ? #)"@)
    } else {
        None
    }
}

/// Why `text` cannot be a single transport key (whitespace, a leading,
/// trailing or doubled `/`, or a wildcard/reserved character), if it cannot.
#[verifier::loop_isolation(false)]
pub fn key_expression_problem(text: &str) -> (r: Option<&'static str>)
    ensures
        match (r, spec_key_expression_problem(text@)) {
            (Some(p), Some(q)) => p@ == q,
            (None, None) => true,
            _ => false,
        },
{
    let t = chars_of(text);
    let n = t.len();
    let mut i: usize = 0;
    while i < n
        invariant
            n == t@.len(),
            t@ == text@,
            i <= n,
            forall|j: int| 0 <= j < i ==> !spec_is_whitespace(#[trigger] t@[j]),
        decreases n - i,
    {
        if is_whitespace(t[i]) {
            return Some("contains whitespace");
        }
        i = i + 1;
    }
    if n > 0 && (t[0] == '/' || t[n - 1] == '/') {
        return Some("starts or ends with '/'");
    }
    let mut i: usize = 0;
    while i < n
        invariant
            n == t@.len(),
            t@ == text@,
            i <= n,
            forall|j: int| 0 <= j < i && j < n - 1 ==> !(#[trigger] t@[j] == '/' && t@[j + 1] == '/'),
        decreases n - i,
    {
        if i + 1 < n && t[i] == '/' && t[i + 1] == '/' {
            return Some("contains an empty '//' segment");
        }
        i = i + 1;
    }
    let mut i: usize = 0;
    while i < n
        invariant
            n == t@.len(),
            t@ == text@,
            i <= n,
            forall|j: int| 0 <= j < i ==> !is_reserved_key_char(#[trigger] t@[j]),
        decreases n - i,
    {
        let c = t[i];
        if c == '*' || c == '$' || c == '?' || c == '#' {
            return Some("contains a wildcard or reserved character (one of * $ ? #)");
        }
        i = i + 1;
    }
    None
}

pub open spec fn is_extension_char(c: char) -> bool {
    spec_is_ascii_alphanumeric(c) || c == '_' || c == '-'
}

/// Number of occurrences of `c` in `s`.
pub open spec fn count_char(s: Seq<char>, c: char) -> nat
    decreases s.len(),
{
    if s.len() == 0 {
        0
    } else {
        count_char(s.drop_last(), c) + if s.last() == c {
            1nat
        } else {
            0nat
        }
    }
}

/// A vendor capability id: at least three non-empty `.`-separated segments
/// of ASCII letters, digits, `_` and `-`.
pub open spec fn spec_valid_extension_id(id: Seq<char>) -> bool {
    &&& id.len() > 0
    &&& id[0] != '.'
    &&& id[id.len() - 1] != '.'
    &&& forall|i: int| 0 <= i < id.len() ==> (#[trigger] id[i] == '.' || is_extension_char(id[i]))
    &&& forall|i: int| 0 <= i < id.len() - 1 && #[trigger] id[i] == '.' ==> id[i + 1] != '.'
    &&& count_char(id, '.') >= 2
}

pub fn valid_extension_id(id: &str) -> (r: bool)
    ensures
        r == spec_valid_extension_id(id@),
{
    let t = chars_of(id);
    let n = t.len();
    if n == 0 || t[0] == '.' || t[n - 1] == '.' {
        return false;
    }
    let mut dots: usize = 0;
    let mut i: usize = 0;
    while i < n
        invariant
            n == t@.len(),
            t@ == id@,
            i <= n,
            dots == count_char(t@.subrange(0, i as int), '.'),
            dots <= i,
            forall|j: int| 0 <= j < i ==> (#[trigger] t@[j] == '.' || is_extension_char(t@[j])),
            forall|j: int| 0 <= j < i && j < n - 1 && #[trigger] t@[j] == '.' ==> t@[j + 1] != '.',
        decreases n - i,
    {
        let c = t[i];
        assert(t@.subrange(0, i + 1).drop_last() =~= t@.subrange(0, i as int));
        if c == '.' {
            if i + 1 < n && t[i + 1] == '.' {
                return false;
            }
            dots = dots + 1;
        } else if !(is_ascii_alphanumeric(c) || c == '_' || c == '-') {
            return false;
        }
        i = i + 1;
    }
    assert(t@.subrange(0, n as int) =~= t@);
    dots >= 2
}

/// Levenshtein distance of two byte strings.
pub open spec fn lev(a: Seq<u8>, b: Seq<u8>) -> nat
    decreases a.len() + b.len(),
{
    if a.len() == 0 {
        b.len()
    } else if b.len() == 0 {
        a.len()
    } else {
        let sub = lev(a.drop_last(), b.drop_last()) + if a.last() == b.last() {
            0nat
        } else {
            1nat
        };
        let del = lev(a.drop_last(), b) + 1;
        let ins = lev(a, b.drop_last()) + 1;
        if sub <= del && sub <= ins {
            sub
        } else if del <= ins {
            del
        } else {
            ins
        }
    }
}

fn min3(x: u128, y: u128, z: u128) -> (r: u128)
    ensures
        r == (if x <= y && x <= z {
            x
        } else if y <= z {
            y
        } else {
            z
        }),
{
    if x <= y && x <= z {
        x
    } else if y <= z {
        y
    } else {
        z
    }
}

proof fn lemma_lev_bound(a: Seq<u8>, b: Seq<u8>)
    ensures
        lev(a, b) <= a.len() + b.len(),
    decreases a.len() + b.len(),
{
    if a.len() > 0 && b.len() > 0 {
        lemma_lev_bound(a.drop_last(), b);
    }
}

/// Levenshtein distance over bytes; metadata keys are ASCII identifiers.
pub fn edit_distance(left: &str, right: &str) -> (r: usize)
    ensures
        r == lev(left.spec_bytes(), right.spec_bytes()),
{
    let a = left.as_bytes();
    let b = right.as_bytes();
    let la = a.len();
    let lb = b.len();
    let mut previous: Vec<u128> = Vec::new();
    previous.push(0);
    let mut j: usize = 0;
    while j < lb
        invariant
            lb == b@.len(),
            j <= lb,
            previous@.len() == j + 1,
            forall|k: int| 0 <= k <= j ==> #[trigger] previous@[k] == lev(Seq::empty(), b@.take(k)),
        decreases lb - j,
    {
        j = j + 1;
        previous.push(j as u128);
    }
    assert(a@.take(0) =~= Seq::<u8>::empty());
    let mut row: usize = 0;
    while row < la
        invariant
            la == a@.len(),
            lb == b@.len(),
            row <= la,
            previous@.len() == lb + 1,
            forall|k: int|
                0 <= k <= lb ==> #[trigger] previous@[k] == lev(a@.take(row as int), b@.take(k)),
        decreases la - row,
    {
        let mut current: Vec<u128> = Vec::new();
        current.push((row + 1) as u128);
        proof {
            assert(a@.take(row + 1).len() == row + 1);
            assert(b@.take(0).len() == 0);
        }
        let mut col: usize = 0;
        while col < lb
            invariant
                la == a@.len(),
                lb == b@.len(),
                row < la,
                col <= lb,
                previous@.len() == lb + 1,
                forall|k: int|
                    0 <= k <= lb ==> #[trigger] previous@[k] == lev(a@.take(row as int), b@.take(k)),
                current@.len() == col + 1,
                forall|k: int|
                    0 <= k <= col ==> #[trigger] current@[k] == lev(a@.take(row + 1), b@.take(k)),
            decreases lb - col,
        {
            let ghost ar = a@.take(row + 1);
            let ghost bc = b@.take(col + 1);
            proof {
                assert(ar.drop_last() =~= a@.take(row as int));
                assert(bc.drop_last() =~= b@.take(col as int));
                assert(ar.last() == a@[row as int]);
                assert(bc.last() == b@[col as int]);
                lemma_lev_bound(a@.take(row as int), b@.take(col as int));
                lemma_lev_bound(a@.take(row as int), bc);
                lemma_lev_bound(ar, b@.take(col as int));
            }
            let cost: u128 = if a[row] == b[col] {
                0
            } else {
                1
            };
            let v = min3(previous[col] + cost, previous[col + 1] + 1, current[col] + 1);
            current.push(v);
            col = col + 1;
        }
        previous = current;
        row = row + 1;
    }
    proof {
        assert(a@.take(la as int) =~= a@);
        assert(b@.take(lb as int) =~= b@);
        lemma_lev_bound(a@, b@);
        let big = lev(a@, b@);
        if a@.len() == 0 || b@.len() == 0 {
        } else {
            lemma_lev_max(a@, b@);
        }
    }
    previous[lb] as usize
}

proof fn lemma_lev_max(a: Seq<u8>, b: Seq<u8>)
    ensures
        lev(a, b) <= if a.len() >= b.len() {
            a.len()
        } else {
            b.len()
        },
    decreases a.len() + b.len(),
{
    if a.len() > 0 && b.len() > 0 {
        lemma_lev_max(a.drop_last(), b.drop_last());
    }
}

/// `key` is within two edits of `known`, or the longer of the two starts
/// with the shorter and the shorter has at least ten bytes (a dropped or
/// spelled-out unit suffix).
pub open spec fn spec_near_miss(key: Seq<u8>, known: Seq<u8>) -> bool {
    lev(key, known) <= 2 || if key.len() < known.len() {
        long_prefix(key, known)
    } else {
        long_prefix(known, key)
    }
}

/// `short` has at least ten bytes and `long` starts with it.
pub open spec fn long_prefix(short: Seq<u8>, long: Seq<u8>) -> bool {
    short.len() >= 10 && short.len() <= long.len() && long.subrange(0, short.len() as int) == short
}

fn is_long_prefix(short: &[u8], long: &[u8]) -> (r: bool)
    ensures
        r == long_prefix(short@, long@),
{
    if short.len() < 10 || short.len() > long.len() {
        return false;
    }
    let mut i: usize = 0;
    while i < short.len()
        invariant
            short@.len() <= long@.len(),
            i <= short@.len(),
            forall|j: int| 0 <= j < i ==> short@[j] == long@[j],
        decreases short@.len() - i,
    {
        if short[i] != long[i] {
            assert(long@.subrange(0, short@.len() as int)[i as int] != short@[i as int]);
            return false;
        }
        i = i + 1;
    }
    assert(long@.subrange(0, short@.len() as int) =~= short@);
    true
}

/// A key within two edits of `known`, or one that drops or spells out its
/// unit suffix (`state_max_age`, `max_linear_velocity`).
pub fn near_miss(key: &str, known: &str) -> (r: bool)
    ensures
        r == spec_near_miss(key.spec_bytes(), known.spec_bytes()),
{
    let kb = key.as_bytes();
    let nb = known.as_bytes();
    if edit_distance(key, known) <= 2 {
        return true;
    }
    if kb.len() < nb.len() {
        is_long_prefix(kb, nb)
    } else {
        is_long_prefix(nb, kb)
    }
}

} // verus!
