//! Built-in profile names and the `ROBOT_NAME` → profile rule set.
use crate::error::ModelError;
use crate::text::{
    chars_eq_str, chars_of, ends_with, find_char, is_ascii_alphanumeric, lower, slice_chars, spec_ascii_lower, spec_ascii_lower_char,
    spec_ends_with, spec_find, spec_is_ascii_alphanumeric, spec_is_whitespace, spec_starts_with, spec_trim,
    starts_with, trim, trim_end_index, trim_start_index,
};
use vstd::prelude::*;

verus! {

/// The three Vega body variants a robot identity can name.
#[derive(Debug, Clone, Copy, PartialEq, Eq, Structural)]
pub enum Variant {
    Vega1,
    Vega1u,
    Vega1p,
}

pub open spec fn variant_name(v: Variant) -> Seq<char> {
    match v {
        Variant::Vega1 => "vega_1"@,
        Variant::Vega1u => "vega_1u"@,
        Variant::Vega1p => "vega_1p"@,
    }
}

pub fn variant_str(v: Variant) -> (r: &'static str)
    ensures
        r@ == variant_name(v),
{
    match v {
        Variant::Vega1 => "vega_1",
        Variant::Vega1u => "vega_1u",
        Variant::Vega1p => "vega_1p",
    }
}

/// The built-in profile names, in catalog order.
pub open spec fn profile_names() -> Seq<Seq<char>> {
    seq![
        "vega_1"@,
        "vega_1_f5d6"@,
        "vega_1_gripper"@,
        "vega_1p"@,
        "vega_1p_f5d6"@,
        "vega_1p_gripper"@,
        "vega_1u"@,
        "vega_1u_f5d6"@,
        "vega_1u_gripper"@,
    ]
}

/// The built-in robot profiles.
pub fn available_profiles() -> (r: &'static [&'static str])
    ensures
        r@.len() == profile_names().len(),
        forall|i: int| 0 <= i < r@.len() ==> #[trigger] r@[i]@ == profile_names()[i],
{
    &[
        "vega_1",
        "vega_1_f5d6",
        "vega_1_gripper",
        "vega_1p",
        "vega_1p_f5d6",
        "vega_1p_gripper",
        "vega_1u",
        "vega_1u_f5d6",
        "vega_1u_gripper",
    ]
}

/// The legacy version suffix `1`, `1u` or `1p`.
pub open spec fn spec_version_variant(s: Seq<char>) -> Option<Variant> {
    if s == seq!['1'] {
        Some(Variant::Vega1)
    } else if s == seq!['1', 'u'] {
        Some(Variant::Vega1u)
    } else if s == seq!['1', 'p'] {
        Some(Variant::Vega1p)
    } else {
        None
    }
}

/// The identity-v2 model token `vg1`, `vg1u` or `vg1p`.
pub open spec fn spec_token_variant(s: Seq<char>) -> Option<Variant> {
    if s == seq!['v', 'g', '1'] {
        Some(Variant::Vega1)
    } else if s == seq!['v', 'g', '1', 'u'] {
        Some(Variant::Vega1u)
    } else if s == seq!['v', 'g', '1', 'p'] {
        Some(Variant::Vega1p)
    } else {
        None
    }
}

/// Non-empty text of ASCII letters and digits only.
pub open spec fn spec_alnum_text(s: Seq<char>) -> bool {
    s.len() > 0 && forall|i: int| 0 <= i < s.len() ==> spec_is_ascii_alphanumeric(#[trigger] s[i])
}

/// Text whose `-`-separated segments are all non-empty ASCII letters and
/// digits.
pub open spec fn spec_dashed_alnum(s: Seq<char>) -> bool {
    &&& s.len() > 0
    &&& s[0] != '-'
    &&& s[s.len() - 1] != '-'
    &&& forall|i: int| 0 <= i < s.len() ==> (#[trigger] s[i] == '-' || spec_is_ascii_alphanumeric(s[i]))
    &&& forall|i: int| 0 <= i < s.len() - 1 && #[trigger] s[i] == '-' ==> s[i + 1] != '-'
}

/// The identity after a `dm/` or `dm-` prefix.
pub open spec fn spec_strip_dm(s: Seq<char>) -> Option<Seq<char>> {
    if spec_starts_with(s, seq!['d', 'm', '/']) || spec_starts_with(s, seq!['d', 'm', '-']) {
        Some(s.skip(3))
    } else {
        None
    }
}

pub open spec fn reason_empty() -> Seq<char> {
    "the name is empty"@
}

pub open spec fn reason_not_identity() -> Seq<char> {
    "it is neither a built-in profile name nor a dm/<model>-<serial> identity"@
}

pub open spec fn reason_no_segment() -> Seq<char> {
    "the identity has no serial or version segment"@
}

pub open spec fn reason_bad_segment() -> Seq<char> {
    "a serial or check segment is empty or not alphanumeric"@
}

pub open spec fn reason_contradiction() -> Seq<char> {
    "the model token and the version suffix select different variants"@
}

pub open spec fn reason_unknown_token() -> Seq<char> {
    "the model token is not known to this build"@
}

pub open spec fn reason_unknown_version() -> Seq<char> {
    "the version suffix is not known to this build"@
}

/// A legacy serial-number token: `vg` plus a ten-character serial.
pub open spec fn spec_legacy_token(t: Seq<char>) -> bool {
    t.len() == 12 && spec_alnum_text(t) && t[0] == 'v' && t[1] == 'g'
}

/// A trailing legacy version suffix that names another variant than `p`.
pub open spec fn spec_contradicts(rest: Seq<char>, p: Variant) -> bool {
    ||| (spec_ends_with(rest, seq!['-', '1', 'u']) && p != Variant::Vega1u)
    ||| (spec_ends_with(rest, seq!['-', '1', 'p']) && p != Variant::Vega1p)
}

/// The rule set for an identity `dm/<token>-<rest>` (after the prefix).
pub open spec fn spec_identity_profile(identity: Seq<char>) -> Result<Seq<char>, Seq<char>> {
    match spec_find(identity, '-') {
        None => Err(reason_no_segment()),
        Some(i) => {
            let token = identity.take(i);
            let rest = identity.skip(i + 1);
            match spec_token_variant(token) {
                Some(p) => if !spec_dashed_alnum(rest) {
                    Err(reason_bad_segment())
                } else if spec_contradicts(rest, p) {
                    Err(reason_contradiction())
                } else {
                    Ok(variant_name(p))
                },
                None => if !spec_legacy_token(token) {
                    Err(reason_unknown_token())
                } else {
                    match spec_version_variant(rest) {
                        Some(v) => Ok(variant_name(v)),
                        None => Err(reason_unknown_version()),
                    }
                },
            }
        },
    }
}

/// The profile a robot name selects (`Ok`), or why it selects none (`Err`).
#[verifier::opaque]
pub open spec fn spec_try_profile(name: Seq<char>) -> Result<Seq<char>, Seq<char>> {
    let lowered = spec_ascii_lower(spec_trim(name));
    if lowered.len() == 0 {
        Err(reason_empty())
    } else if profile_names().contains(lowered) {
        Ok(lowered)
    } else {
        match spec_strip_dm(lowered) {
            None => Err(reason_not_identity()),
            Some(identity) => spec_identity_profile(identity),
        }
    }
}

/// The first `-`-separated segment of `s`.
pub open spec fn spec_first_segment(s: Seq<char>) -> Seq<char> {
    match spec_find(s, '-') {
        Some(i) => s.take(i),
        None => s,
    }
}

/// The legacy guess used when the rule set selects nothing.
pub open spec fn spec_fallback_profile(name: Seq<char>) -> Seq<char> {
    let lowered = spec_ascii_lower(name);
    let token = match spec_strip_dm(lowered) {
        Some(identity) => spec_token_variant(spec_first_segment(identity)),
        None => None,
    };
    match token {
        Some(v) => variant_name(v),
        None => if spec_ends_with(lowered, seq!['-', '1', 'u']) {
            variant_name(Variant::Vega1u)
        } else if spec_ends_with(lowered, seq!['-', '1', 'p']) {
            variant_name(Variant::Vega1p)
        } else {
            variant_name(Variant::Vega1)
        },
    }
}

/// The total, legacy form of [`spec_try_profile`].
pub open spec fn spec_profile_for(name: Seq<char>) -> Seq<char> {
    match spec_try_profile(name) {
        Ok(p) => p,
        Err(_) => spec_fallback_profile(name),
    }
}

fn version_variant(s: &[char]) -> (r: Option<Variant>)
    ensures
        r == spec_version_variant(s@),
{
    proof {
        reveal_strlit("1");
        reveal_strlit("1u");
        reveal_strlit("1p");
        assert("1"@ =~= seq!['1']);
        assert("1u"@ =~= seq!['1', 'u']);
        assert("1p"@ =~= seq!['1', 'p']);
    }
    if chars_eq_str(s, "1") {
        Some(Variant::Vega1)
    } else if chars_eq_str(s, "1u") {
        Some(Variant::Vega1u)
    } else if chars_eq_str(s, "1p") {
        Some(Variant::Vega1p)
    } else {
        None
    }
}

fn token_variant(s: &[char]) -> (r: Option<Variant>)
    ensures
        r == spec_token_variant(s@),
{
    proof {
        reveal_strlit("vg1");
        reveal_strlit("vg1u");
        reveal_strlit("vg1p");
        assert("vg1"@ =~= seq!['v', 'g', '1']);
        assert("vg1u"@ =~= seq!['v', 'g', '1', 'u']);
        assert("vg1p"@ =~= seq!['v', 'g', '1', 'p']);
    }
    if chars_eq_str(s, "vg1") {
        Some(Variant::Vega1)
    } else if chars_eq_str(s, "vg1u") {
        Some(Variant::Vega1u)
    } else if chars_eq_str(s, "vg1p") {
        Some(Variant::Vega1p)
    } else {
        None
    }
}

fn alnum_text(s: &[char]) -> (r: bool)
    ensures
        r == spec_alnum_text(s@),
{
    if s.len() == 0 {
        return false;
    }
    let mut i: usize = 0;
    while i < s.len()
        invariant
            i <= s@.len(),
            forall|j: int| 0 <= j < i ==> spec_is_ascii_alphanumeric(#[trigger] s@[j]),
        decreases s@.len() - i,
    {
        if !is_ascii_alphanumeric(s[i]) {
            return false;
        }
        i = i + 1;
    }
    true
}

fn dashed_alnum(s: &[char]) -> (r: bool)
    ensures
        r == spec_dashed_alnum(s@),
{
    let n = s.len();
    if n == 0 || s[0] == '-' || s[n - 1] == '-' {
        return false;
    }
    let mut i: usize = 0;
    while i < n
        invariant
            n == s@.len(),
            i <= n,
            forall|j: int| 0 <= j < i ==> (#[trigger] s@[j] == '-' || spec_is_ascii_alphanumeric(s@[j])),
            forall|j: int| 0 <= j < i && j < n - 1 && #[trigger] s@[j] == '-' ==> s@[j + 1] != '-',
        decreases n - i,
    {
        let c = s[i];
        if c != '-' && !is_ascii_alphanumeric(c) {
            return false;
        }
        if c == '-' && i + 1 < n && s[i + 1] == '-' {
            return false;
        }
        i = i + 1;
    }
    true
}

fn strip_dm(s: &[char]) -> (r: Option<Vec<char>>)
    ensures
        match r {
            Some(v) => spec_strip_dm(s@) == Some(v@),
            None => spec_strip_dm(s@) is None,
        },
{
    proof {
        reveal_strlit("dm/");
        reveal_strlit("dm-");
        assert("dm/"@ =~= seq!['d', 'm', '/']);
        assert("dm-"@ =~= seq!['d', 'm', '-']);
    }
    if starts_with(s, "dm/") || starts_with(s, "dm-") {
        let r = slice_chars(s, 3, s.len());
        assert(r@ =~= s@.skip(3));
        Some(r)
    } else {
        None
    }
}

fn unknown_name(name: &str, reason: &'static str) -> (e: ModelError)
    ensures
        e == (ModelError::UnknownRobotName { name: e->name, reason: e->reason }),
        e->name@ == name@,
        e->reason@ == reason@,
{
    ModelError::UnknownRobotName { name: name.to_owned(), reason: reason.to_owned() }
}

/// The built-in profile whose name is exactly `s`, if any.
fn find_profile(s: &[char]) -> (r: Option<&'static str>)
    ensures
        match r {
            Some(p) => p@ == s@ && profile_names().contains(s@),
            None => !profile_names().contains(s@),
        },
{
    let profiles = available_profiles();
    let mut k: usize = 0;
    while k < profiles.len()
        invariant
            profiles@.len() == profile_names().len(),
            forall|i: int| 0 <= i < profiles@.len() ==> #[trigger] profiles@[i]@ == profile_names()[i],
            k <= profiles@.len(),
            forall|i: int| 0 <= i < k ==> profile_names()[i] != s@,
        decreases profiles@.len() - k,
    {
        if chars_eq_str(s, profiles[k]) {
            assert(profile_names()[k as int] == s@);
            return Some(profiles[k]);
        }
        k = k + 1;
    }
    None
}

/// The rule set for `identity`, the text after a `dm/` or `dm-` prefix:
/// the selected profile, or the reason it selects none.
fn identity_profile(identity: &[char]) -> (r: core::result::Result<&'static str, &'static str>)
    ensures
        match (r, spec_identity_profile(identity@)) {
            (Ok(p), Ok(q)) => p@ == q,
            (Err(m), Err(q)) => m@ == q,
            _ => false,
        },
{
    let dash = match find_char(identity, '-') {
        Some(i) => i,
        None => {
            return Err("the identity has no serial or version segment");
        },
    };
    let token = slice_chars(identity, 0, dash);
    assert(dash < identity.len());
    let rest = slice_chars(identity, dash + 1, identity.len());
    assert(token@ == identity@.take(dash as int));
    assert(rest@ == identity@.skip(dash + 1));
    match token_variant(token.as_slice()) {
        Some(p) => {
            if !dashed_alnum(rest.as_slice()) {
                return Err("a serial or check segment is empty or not alphanumeric");
            }
            proof {
                reveal_strlit("-1u");
                reveal_strlit("-1p");
                assert("-1u"@ =~= seq!['-', '1', 'u']);
                assert("-1p"@ =~= seq!['-', '1', 'p']);
            }
            let ends_u = ends_with(rest.as_slice(), "-1u");
            let ends_p = ends_with(rest.as_slice(), "-1p");
            if (ends_u && p != Variant::Vega1u) || (ends_p && p != Variant::Vega1p) {
                return Err("the model token and the version suffix select different variants");
            }
            Ok(variant_str(p))
        },
        None => {
            let legacy = token.len() == 12 && alnum_text(token.as_slice()) && token[0] == 'v'
                && token[1] == 'g';
            if !legacy {
                return Err("the model token is not known to this build");
            }
            match version_variant(rest.as_slice()) {
                Some(v) => Ok(variant_str(v)),
                None => Err("the version suffix is not known to this build"),
            }
        },
    }
}

/// Maps a `ROBOT_NAME`-style robot identifier to the built-in profile that
/// serves it, failing closed on anything it does not recognise. Surrounding
/// white space is ignored and matching is ASCII-case-insensitive:
///
/// 1. A string that names a built-in profile selects it.
/// 2. Identity-v2 names (`dm/vg1p-<serial>` or `dm-vg1p-<serial>`) select
///    their variant from the `vg1`, `vg1u` or `vg1p` model token; every
///    following `-`-separated segment must be alphanumeric, and a trailing
///    legacy version segment `1u`/`1p` must agree with the token.
/// 3. Legacy serial names `dm/vg<ten characters>-<version>` select `vega_1`,
///    `vega_1u` or `vega_1p` from the version `1`, `1u` or `1p`.
/// 4. Anything else is [`ModelError::UnknownRobotName`].
pub fn try_profile_for_robot_name(name: &str) -> (r: Result<&'static str, ModelError>)
    ensures
        match (r, spec_try_profile(name@)) {
            (Ok(p), Ok(q)) => p@ == q,
            (Err(ModelError::UnknownRobotName { name: n, reason }), Err(q)) => n@ == name@
                && reason@ == q,
            _ => false,
        },
{
    reveal(spec_try_profile);
    let chars = chars_of(name);
    let trimmed = trim(chars.as_slice());
    let lowered = lower(trimmed.as_slice());
    assert(lowered@ == spec_ascii_lower(spec_trim(name@)));
    if lowered.len() == 0 {
        return Err(unknown_name(name, "the name is empty"));
    }
    if let Some(p) = find_profile(lowered.as_slice()) {
        return Ok(p);
    }
    let identity = match strip_dm(lowered.as_slice()) {
        Some(identity) => identity,
        None => {
            return Err(
                unknown_name(
                    name,
                    "it is neither a built-in profile name nor a dm/<model>-<serial> identity",
                ),
            );
        },
    };
    match identity_profile(identity.as_slice()) {
        Ok(p) => Ok(p),
        Err(reason) => Err(unknown_name(name, reason)),
    }
}

/// Legacy, total form of [`try_profile_for_robot_name`]: every name the
/// fallible form accepts maps identically, and anything it rejects falls
/// back to the historical guess -- a `vg1`/`vg1u`/`vg1p` model token, then
/// the case-insensitive `-1u`/`-1p` suffix, then `"vega_1"`.
pub fn profile_for_robot_name(name: &str) -> (r: &'static str)
    ensures
        r@ == spec_profile_for(name@),
{
    match try_profile_for_robot_name(name) {
        Ok(p) => p,
        Err(_) => {
            let chars = chars_of(name);
            let lowered = lower(chars.as_slice());
            let token = match strip_dm(lowered.as_slice()) {
                Some(identity) => {
                    let first = match find_char(identity.as_slice(), '-') {
                        Some(i) => {
                            let f = slice_chars(identity.as_slice(), 0, i);
                            assert(f@ == identity@.take(i as int));
                            f
                        },
                        None => identity,
                    };
                    token_variant(first.as_slice())
                },
                None => None,
            };
            match token {
                Some(v) => variant_str(v),
                None => {
                    proof {
                        reveal_strlit("-1u");
                        reveal_strlit("-1p");
                        assert("-1u"@ =~= seq!['-', '1', 'u']);
                        assert("-1p"@ =~= seq!['-', '1', 'p']);
                    }
                    if ends_with(lowered.as_slice(), "-1u") {
                        "vega_1u"
                    } else if ends_with(lowered.as_slice(), "-1p") {
                        "vega_1p"
                    } else {
                        "vega_1"
                    }
                },
            }
        },
    }
}

/// Every profile the rule set selects is a built-in profile.
pub proof fn law_selected_profile_is_built_in(name: Seq<char>)
    ensures
        spec_try_profile(name) matches Ok(p) ==> profile_names().contains(p),
{
    reveal(spec_try_profile);
    lemma_variant_names_are_built_in();
    let lowered = spec_ascii_lower(spec_trim(name));
    if lowered.len() != 0 && !profile_names().contains(lowered) {
        if let Some(identity) = spec_strip_dm(lowered) {
            lemma_identity_selects_a_variant(identity);
        }
    }
}

proof fn lemma_identity_selects_a_variant(identity: Seq<char>)
    ensures
        spec_identity_profile(identity) matches Ok(p) ==> exists|v: Variant| p == variant_name(v),
{
    if let Some(i) = spec_find(identity, '-') {
        let token = identity.take(i);
        let rest = identity.skip(i + 1);
        match spec_token_variant(token) {
            Some(p) => {
                assert(variant_name(p) == variant_name(p));
            },
            None => {
                if let Some(v) = spec_version_variant(rest) {
                    assert(variant_name(v) == variant_name(v));
                }
            },
        }
    }
}

proof fn lemma_variant_names_are_built_in()
    ensures
        forall|v: Variant| profile_names().contains(#[trigger] variant_name(v)),
{
    assert(profile_names()[0] == variant_name(Variant::Vega1));
    assert(profile_names()[6] == variant_name(Variant::Vega1u));
    assert(profile_names()[3] == variant_name(Variant::Vega1p));
    assert forall|v: Variant| profile_names().contains(#[trigger] variant_name(v)) by {
        match v {
            Variant::Vega1 => assert(profile_names()[0] == variant_name(v)),
            Variant::Vega1u => assert(profile_names()[6] == variant_name(v)),
            Variant::Vega1p => assert(profile_names()[3] == variant_name(v)),
        }
    }
}

/// The total form maps every name the fallible form accepts identically,
/// and always names a built-in profile.
pub proof fn law_total_form_agrees_with_fallible_form(name: Seq<char>)
    ensures
        spec_try_profile(name) matches Ok(p) ==> spec_profile_for(name) == p,
        profile_names().contains(spec_profile_for(name)),
{
    law_selected_profile_is_built_in(name);
    lemma_variant_names_are_built_in();
}

/// Selection ignores ASCII case and surrounding white space: two names that
/// agree after trimming and lower-casing select the same profile, or fail
/// for the same reason.
pub proof fn law_selection_ignores_case_and_surrounding_space(a: Seq<char>, b: Seq<char>)
    requires
        spec_ascii_lower(spec_trim(a)) == spec_ascii_lower(spec_trim(b)),
    ensures
        spec_try_profile(a) == spec_try_profile(b),
{
    reveal(spec_try_profile);
}

proof fn lemma_first_non_space(a: Seq<char>, i: int)
    requires
        0 <= i < a.len(),
        !spec_is_whitespace(a[i]),
    ensures
        exists|s: int|
            0 <= s < a.len() && !spec_is_whitespace(a[s]) && forall|j: int| 0 <= j < s ==> spec_is_whitespace(#[trigger] a[j]),
    decreases i,
{
    if exists|j: int| 0 <= j < i && !spec_is_whitespace(#[trigger] a[j]) {
        let j = choose|j: int| 0 <= j < i && !spec_is_whitespace(#[trigger] a[j]);
        lemma_first_non_space(a, j);
    } else {
        assert(forall|j: int| 0 <= j < i ==> spec_is_whitespace(#[trigger] a[j]));
    }
}

proof fn lemma_last_non_space(a: Seq<char>, i: int)
    requires
        0 <= i < a.len(),
        !spec_is_whitespace(a[i]),
    ensures
        exists|k: int|
            0 <= k < a.len() && !spec_is_whitespace(a[k]) && forall|j: int| k < j < a.len() ==> spec_is_whitespace(#[trigger] a[j]),
    decreases a.len() - i,
{
    if exists|j: int| i < j < a.len() && !spec_is_whitespace(#[trigger] a[j]) {
        let j = choose|j: int| i < j < a.len() && !spec_is_whitespace(#[trigger] a[j]);
        lemma_last_non_space(a, j);
    } else {
        assert(forall|j: int| i < j < a.len() ==> spec_is_whitespace(#[trigger] a[j]));
    }
}

proof fn lemma_trim_bounds(a: Seq<char>)
    requires
        !(forall|i: int| 0 <= i < a.len() ==> spec_is_whitespace(#[trigger] a[i])),
    ensures
        0 <= trim_start_index(a) < trim_end_index(a) <= a.len(),
        !spec_is_whitespace(a[trim_start_index(a)]),
        !spec_is_whitespace(a[trim_end_index(a) - 1]),
{
    let i = choose|i: int| 0 <= i < a.len() && !spec_is_whitespace(#[trigger] a[i]);
    lemma_first_non_space(a, i);
    lemma_last_non_space(a, i);
    let s = trim_start_index(a);
    let k = trim_end_index(a) - 1;
    assert(!spec_is_whitespace(a[s]));
    assert(!spec_is_whitespace(a[k]));
    if k < s {
        assert(spec_is_whitespace(a[s]));
    }
}

#[verifier::spinoff_prover]
#[verifier::rlimit(40)]
proof fn lemma_trim_ends(a: Seq<char>, t: Seq<char>)
    requires
        t == spec_trim(a),
        t.len() > 0,
    ensures
        !spec_is_whitespace(t[0]),
        !spec_is_whitespace(t[t.len() - 1]),
{
    let all_space = forall|i: int| 0 <= i < a.len() ==> spec_is_whitespace(#[trigger] a[i]);
    if all_space {
        assert(t.len() == 0);
    } else {
        lemma_trim_bounds(a);
        let s = trim_start_index(a);
        let e = trim_end_index(a);
        assert(t == a.subrange(s, e));
        assert(t[0] == a[s]);
        assert(t[t.len() - 1] == a[e - 1]);
    }
}

proof fn lemma_trim_fixed(t: Seq<char>)
    requires
        t.len() > 0,
        !spec_is_whitespace(t[0]),
        !spec_is_whitespace(t[t.len() - 1]),
    ensures
        spec_trim(t) == t,
{
    assert(!spec_is_whitespace(t[0]));
    let s = trim_start_index(t);
    if s > 0 {
        assert(spec_is_whitespace(t[0]));
    }
    let k = trim_end_index(t) - 1;
    if k < t.len() - 1 {
        assert(spec_is_whitespace(t[t.len() - 1]));
    }
    assert(spec_trim(t) =~= t);
}

proof fn lemma_lower_char(c: char)
    ensures
        spec_ascii_lower_char(spec_ascii_lower_char(c)) == spec_ascii_lower_char(c),
        spec_is_whitespace(spec_ascii_lower_char(c)) == spec_is_whitespace(c),
{
    if 'A' <= c && c <= 'Z' {
        let u = (c as u32) + 32;
        assert(0x61 <= u <= 0x7a);
        assert((u as char) as u32 == u);
    }
}

/// The name as selection reads it: trimmed, then lower-cased.
pub open spec fn normalized_name(name: Seq<char>) -> Seq<char> {
    spec_ascii_lower(spec_trim(name))
}

/// Trimming and lower-casing a name selects what the name itself selects:
/// the same profile, or the same failure.
pub proof fn law_selection_of_the_normalized_name(name: Seq<char>)
    ensures
        spec_try_profile(name) == spec_try_profile(normalized_name(name)),
{
    let t = spec_trim(name);
    let l = spec_ascii_lower(t);
    if t.len() > 0 {
        lemma_trim_ends(name, t);
        lemma_lower_char(t[0]);
        lemma_lower_char(t[t.len() - 1]);
        assert(l[0] == spec_ascii_lower_char(t[0]));
        assert(l[l.len() - 1] == spec_ascii_lower_char(t[t.len() - 1]));
        lemma_trim_fixed(l);
    } else {
        assert(spec_trim(l) =~= l);
    }
    assert forall|i: int| 0 <= i < l.len() implies #[trigger] spec_ascii_lower(l)[i] == l[i] by {
        lemma_lower_char(t[i]);
    }
    assert(spec_ascii_lower(l) =~= l);
    law_selection_ignores_case_and_surrounding_space(name, l);
}

proof fn lemma_plain_name_selects_itself(p: Seq<char>)
    requires
        profile_names().contains(p),
        forall|i: int|
            0 <= i < p.len() ==> ('a' <= #[trigger] p[i] <= 'z' || '0' <= p[i] <= '9' || p[i]
                == '_'),
        p.len() > 0,
    ensures
        spec_try_profile(p) == Ok::<Seq<char>, Seq<char>>(p),
{
    reveal(spec_try_profile);
    assert(!spec_is_whitespace(p[0]));
    assert(forall|i: int| 0 <= i < p.len() ==> !spec_is_whitespace(#[trigger] p[i]));
    let a = trim_start_index(p);
    if a > 0 {
        assert(spec_is_whitespace(p[0]));
    }
    let k = trim_end_index(p) - 1;
    if k < p.len() - 1 {
        assert(spec_is_whitespace(p[p.len() - 1]));
    }
    assert(spec_trim(p) =~= p);
    assert(spec_ascii_lower(p) =~= p);
}

/// Every built-in profile name selects itself.
pub proof fn law_profile_names_select_themselves(i: int)
    requires
        0 <= i < profile_names().len(),
    ensures
        spec_try_profile(profile_names()[i]) == Ok::<Seq<char>, Seq<char>>(profile_names()[i]),
{
    reveal_strlit("vega_1");
    reveal_strlit("vega_1_f5d6");
    reveal_strlit("vega_1_gripper");
    reveal_strlit("vega_1p");
    reveal_strlit("vega_1p_f5d6");
    reveal_strlit("vega_1p_gripper");
    reveal_strlit("vega_1u");
    reveal_strlit("vega_1u_f5d6");
    reveal_strlit("vega_1u_gripper");
    let p = profile_names()[i];
    assert(profile_names().contains(p));
    lemma_plain_name_selects_itself(p);
}

} // verus!
