//! The content hash of a resolved configuration: SHA-256 of its semantic
//! payload, as lowercase hexadecimal.
use crate::json::{
    copy_json, copy_string, entries_view, has_key, json_display, json_text, lemma_entries_push,
    lemma_entries_view_keys, unique_keys, Json, JsonV,
};
use crate::text::{push_char, str_eq};
#[allow(unused_imports)]
use sha2::Digest;
use vstd::prelude::*;
use vstd::utf8::encode_utf8;

verus! {

/// The SHA-256 digest of a byte string.
pub uninterp spec fn sha256_digest(data: Seq<u8>) -> Seq<u8>;

/// SHA-256 of `data` (`sha2::Sha256::digest`): 32 bytes that depend on
/// the bytes of `data` alone.
#[verifier::external_body]
fn sha256(data: &[u8]) -> (r: Vec<u8>)
    ensures
        r@ == sha256_digest(data@),
        r@.len() == 32,
{
    sha2::Sha256::digest(data).to_vec()
}

/// The lowercase hexadecimal digit of a nibble.
pub open spec fn hex_digit(n: u8) -> char {
    if n < 10 {
        ((n + 48) as u32) as char
    } else {
        ((n + 87) as u32) as char
    }
}

/// Two lowercase hexadecimal digits per byte, most significant first.
pub open spec fn spec_hex(bytes: Seq<u8>) -> Seq<char>
    decreases bytes.len(),
{
    if bytes.len() == 0 {
        Seq::empty()
    } else {
        spec_hex(bytes.drop_last()).push(hex_digit(bytes.last() / 16)).push(
            hex_digit(bytes.last() % 16),
        )
    }
}

fn digit(n: u8) -> (c: char)
    requires
        n < 16,
    ensures
        c == hex_digit(n),
{
    if n < 10 {
        crate::text::char_from_ascii((n + 48) as u32)
    } else {
        crate::text::char_from_ascii((n + 87) as u32)
    }
}

/// Lowercase hexadecimal text of `bytes`.
pub fn hex(bytes: &[u8]) -> (r: String)
    ensures
        r@ == spec_hex(bytes@),
{
    let mut s = String::new();
    let mut i: usize = 0;
    while i < bytes.len()
        invariant
            i <= bytes@.len(),
            s@ == spec_hex(bytes@.take(i as int)),
        decreases bytes@.len() - i,
    {
        let b = bytes[i];
        push_char(&mut s, digit(b / 16));
        push_char(&mut s, digit(b % 16));
        proof {
            assert(bytes@.take(i + 1).drop_last() =~= bytes@.take(i as int));
            assert(bytes@.take(i + 1).last() == b);
        }
        i = i + 1;
    }
    proof {
        assert(bytes@.take(bytes@.len() as int) =~= bytes@);
    }
    s
}

/// The content hash of a configuration whose semantic payload (its compact
/// JSON without `content_hash`, `provenance` and `profile_name`) is
/// `payload`: SHA-256 as 64 lowercase hexadecimal digits.
pub fn content_hash(payload: &[u8]) -> (r: String)
    ensures
        r@ == spec_hex(sha256_digest(payload@)),
{
    let digest = sha256(payload);
    hex(digest.as_slice())
}

/// The root members that are not part of a configuration's semantic
/// payload: the stored hash itself, the diagnostic provenance map, and the
/// profile name, which is only a label.
pub open spec fn unhashed(k: Seq<char>) -> bool {
    k == "content_hash"@ || k == "provenance"@ || k == "profile_name"@
}

/// The members of `m` that the content hash covers.
pub open spec fn hashed_members(m: Map<Seq<char>, JsonV>) -> Map<Seq<char>, JsonV> {
    m.remove("content_hash"@).remove("provenance"@).remove("profile_name"@)
}

/// The semantic payload of a configuration document: the document without
/// its unhashed root members.
pub open spec fn spec_payload(v: JsonV) -> JsonV {
    match v {
        JsonV::Object(m) => JsonV::Object(hashed_members(m)),
        _ => v,
    }
}

/// The content hash of a configuration document: SHA-256 of the UTF-8
/// bytes of its payload's compact JSON text, in lowercase hexadecimal.
pub open spec fn spec_document_hash(v: JsonV) -> Seq<char> {
    spec_hex(sha256_digest(encode_utf8(json_text(spec_payload(v)))))
}

fn is_unhashed(k: &str) -> (r: bool)
    ensures
        r == unhashed(k@),
{
    str_eq(k, "content_hash") || str_eq(k, "provenance") || str_eq(k, "profile_name")
}

/// The semantic payload of the configuration document `doc`; see
/// [`spec_payload`].
pub fn semantic_payload(doc: &Json) -> (r: Json)
    requires
        doc.wf(),
    ensures
        r.wf(),
        r.view_json() == spec_payload(doc.view_json()),
{
    match doc {
        Json::Object(es) => {
            let mut out: Vec<(String, Json)> = Vec::new();
            let mut i: usize = 0;
            proof {
                assert(es@.take(0) =~= Seq::<(String, Json)>::empty());
                assert(entries_view(out@) =~= hashed_members(entries_view(es@.take(0))));
            }
            while i < es.len()
                invariant
                    i <= es@.len(),
                    unique_keys(es@),
                    forall|k: int| 0 <= k < es@.len() ==> (#[trigger] es@[k]).1.wf(),
                    unique_keys(out@),
                    forall|k: int| 0 <= k < out@.len() ==> (#[trigger] out@[k]).1.wf(),
                    entries_view(out@) == hashed_members(entries_view(es@.take(i as int))),
                decreases es@.len() - i,
            {
                let ghost before = entries_view(es@.take(i as int));
                proof {
                    assert(es@.take(i + 1).drop_last() =~= es@.take(i as int));
                    assert(es@.take(i + 1).last() == es@[i as int]);
                }
                if !is_unhashed(es[i].0.as_str()) {
                    let k = copy_string(&es[i].0);
                    let v = copy_json(&es[i].1);
                    proof {
                        lemma_entries_view_keys(out@);
                        lemma_entries_view_keys(es@.take(i as int));
                        if has_key(out@, k@) {
                            assert(entries_view(out@).contains_key(k@));
                            assert(before.contains_key(k@));
                            let j = choose|j: int| 0 <= j < es@.take(i as int).len() && #[trigger] es@.take(i as int)[j].0@ == k@;
                            assert(es@[j].0@ == es@[i as int].0@);
                        }
                        lemma_entries_push(out@, k, v);
                    }
                    let ghost prev = out@;
                    out.push((k, v));
                    proof {
                        assert(out@ == prev.push((k, v)));
                        assert(entries_view(out@) =~= hashed_members(entries_view(es@.take(i + 1))));
                        assert forall|t: int| 0 <= t < out@.len() implies (#[trigger] out@[t]).1.wf() by {
                            if t < prev.len() {
                                assert(out@[t] == prev[t]);
                            }
                        }
                    }
                } else {
                    proof {
                        assert(entries_view(out@) =~= hashed_members(entries_view(es@.take(i + 1))));
                    }
                }
                i = i + 1;
            }
            proof {
                assert(es@.take(es@.len() as int) =~= es@);
            }
            Json::Object(out)
        },
        _ => copy_json(doc),
    }
}

/// The content hash of the configuration document `doc`; see
/// [`spec_document_hash`].
pub fn document_hash(doc: &Json) -> (r: String)
    requires
        doc.wf(),
    ensures
        r@ == spec_document_hash(doc.view_json()),
{
    let payload = semantic_payload(doc);
    let text = json_display(&payload);
    content_hash(text.as_str().as_bytes())
}

/// Whether `stored` is the content hash of the configuration document
/// `doc`.
pub fn document_hash_matches(stored: &str, doc: &Json) -> (r: bool)
    requires
        doc.wf(),
    ensures
        r == (stored@ == spec_document_hash(doc.view_json())),
{
    let computed = document_hash(doc);
    str_eq(computed.as_str(), stored)
}

/// The content hash depends on the semantic payload alone: two documents
/// whose root members agree except for `content_hash`, `provenance` and
/// `profile_name` hash alike.
pub proof fn law_hash_ignores_unhashed_members(a: Map<Seq<char>, JsonV>, b: Map<Seq<char>, JsonV>)
    requires
        forall|k: Seq<char>| !unhashed(k) ==> (#[trigger] a.contains_key(k) <==> b.contains_key(k)),
        forall|k: Seq<char>| !unhashed(k) && #[trigger] a.contains_key(k) ==> a[k] == b[k],
    ensures
        spec_document_hash(JsonV::Object(a)) == spec_document_hash(JsonV::Object(b)),
{
    assert(hashed_members(a) =~= hashed_members(b));
}

/// Recording or changing the stored hash, the provenance map or the
/// profile name of a configuration document leaves its content hash as it
/// was.
pub proof fn law_hash_ignores_relabelling(m: Map<Seq<char>, JsonV>, k: Seq<char>, v: JsonV)
    requires
        unhashed(k),
    ensures
        spec_document_hash(JsonV::Object(m.insert(k, v))) == spec_document_hash(JsonV::Object(m)),
{
    assert(hashed_members(m.insert(k, v)) =~= hashed_members(m));
}

/// The payload of a configuration object keeps every root member except
/// `content_hash`, `provenance` and `profile_name`, unchanged, and drops
/// those three.
pub proof fn law_payload_keeps_every_other_member(m: Map<Seq<char>, JsonV>, k: Seq<char>)
    ensures
        spec_payload(JsonV::Object(m)) is Object,
        k != "content_hash"@ && k != "provenance"@ && k != "profile_name"@ ==> (
        spec_payload(JsonV::Object(m))->Object_0.contains_key(k) == m.contains_key(k) && (m.contains_key(k)
            ==> spec_payload(JsonV::Object(m))->Object_0[k] == m[k])),
        k == "content_hash"@ || k == "provenance"@ || k == "profile_name"@ ==> !spec_payload(
            JsonV::Object(m),
        )->Object_0.contains_key(k),
{
}

/// Two configuration objects that differ in a root member other than
/// `content_hash`, `provenance` and `profile_name` have different payloads,
/// so their hashes are taken over different texts.
pub proof fn law_payload_differs_where_a_hashed_member_differs(
    a: Map<Seq<char>, JsonV>,
    b: Map<Seq<char>, JsonV>,
    k: Seq<char>,
)
    requires
        k != "content_hash"@ && k != "provenance"@ && k != "profile_name"@,
        a.contains_key(k) != b.contains_key(k) || (a.contains_key(k) && a[k] != b[k]),
    ensures
        spec_payload(JsonV::Object(a)) != spec_payload(JsonV::Object(b)),
{
    law_payload_keeps_every_other_member(a, k);
    law_payload_keeps_every_other_member(b, k);
}

} // verus!
