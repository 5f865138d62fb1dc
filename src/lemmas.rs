use vstd::prelude::*;

use crate::parser::{
    block_name, children_from, header_at, header_words, node_at, property_at, props_from,
    tag_at, tag_of, tree_at, NodeModel, ParseError, PropertyModel, Tag, TreeModel,
};
use crate::util::{align_up, be_u32, find_zero, lemma_find_zero_found};

verus! {

/// Exactly the five words 1, 2, 3, 9 and 0xd00dfeed are tags; every other
/// word is refused as an invalid tag.
pub proof fn lemma_tag_words(v: u32)
    ensures
        tag_of(v) is Ok <==> (v == 1 || v == 2 || v == 3 || v == 9 || v == 0xd00dfeed),
        tag_of(v) is Err ==> tag_of(v) == Err::<Tag, ParseError>(ParseError::InvalidTag),
{
}

/// The header reads exactly as many words as its version calls for: it is
/// decoded exactly when they are all present, and a field that the version
/// lacks is zero rather than read.
pub proof fn lemma_header_schedule(b: Seq<u8>, p: int)
    requires
        0 <= p && p + 24 <= b.len(),
    ensures
        header_at(b, p) is Some <==> p + 4 * header_words(be_u32(b, p + 16)) <= b.len(),
        header_at(b, p) matches Some(h) ==> {
            &&& h.version == be_u32(b, p + 16)
            &&& h.boot_cpuid_phys == (if h.version > 2 { be_u32(b, p + 24) } else { 0 })
            &&& h.size_dt_strings == (if h.version > 3 { be_u32(b, p + 28) } else { 0 })
            &&& h.size_dt_struct == (if h.version > 17 { be_u32(b, p + 32) } else { 0 })
        },
        header_words(2) == 6,
        header_words(20) == 9,
{
}

/// A property whose payload would run past the end of the blob is refused,
/// never read from what lies beyond.
pub proof fn lemma_payload_past_end(b: Seq<u8>, so: int, p: int)
    requires
        0 <= p && p + 8 <= b.len(),
        p + 8 + be_u32(b, p) > b.len(),
    ensures
        property_at(b, so, p) == Err::<(PropertyModel, int), ParseError>(ParseError::ReadError),
{
}

/// A property whose payload would run past the start of a strings block
/// that follows the payload's start is refused, never read from that block.
pub proof fn lemma_payload_into_strings(b: Seq<u8>, so: int, p: int)
    requires
        0 <= p && p + 8 <= b.len(),
        p + 8 <= so,
        p + 8 + be_u32(b, p) > so,
    ensures
        property_at(b, so, p) == Err::<(PropertyModel, int), ParseError>(ParseError::ReadError),
{
}

/// Resolving a property's name leaves no trace on where decoding goes on:
/// the next record starts after the payload and its padding, wherever the
/// name lies, and the payload is the bytes that follow the record's two words.
pub proof fn lemma_property_resumes_after_payload(b: Seq<u8>, so: int, p: int)
    ensures
        property_at(b, so, p) matches Ok((m, a)) ==> {
            &&& a == align_up(p + 8 + be_u32(b, p))
            &&& m.data == b.subrange(p + 8, p + 8 + be_u32(b, p))
        },
{
}

/// The first zero byte at or after `p` is the one at `z` when the bytes
/// between are all nonzero.
pub proof fn lemma_find_zero_at(b: Seq<u8>, p: int, z: int)
    requires
        0 <= p <= z < b.len(),
        b[z] == 0,
        forall|i: int| p <= i < z ==> b[i] != 0,
    ensures
        find_zero(b, p) == Some(z),
    decreases z - p,
{
    if p < z {
        lemma_find_zero_at(b, p + 1, z);
    }
}

/// A node name of `k` bytes is returned whole, without its padding, and
/// decoding goes on at the first block boundary after its terminator,
/// whichever byte of its block the terminator is.
pub proof fn lemma_block_name(b: Seq<u8>, p: int, k: int)
    requires
        0 <= p,
        0 <= k,
        p + 4 * (k / 4 + 1) <= b.len(),
        b[p + k] == 0,
        forall|i: int| p <= i < p + k ==> b[i] != 0,
    ensures
        block_name(b, p) == Ok::<(Seq<u8>, int), ParseError>(
            (b.subrange(p, p + k), p + 4 * (k / 4 + 1)),
        ),
{
    lemma_find_zero_at(b, p, p + k);
}

// Cutting a blob short: `c` is `b` cut to its first `k` bytes. Each step of
// decoding `c` either comes out as it does on `b`, having read nothing past
// the cut, or fails to read.
/// A node name is the bytes before the first zero at or after its start,
/// however many of its block's bytes the zero and the padding take; decoding
/// goes on after the whole blocks that hold it.
pub proof fn lemma_block_name_first_zero(b: Seq<u8>, p: int)
    requires
        0 <= p,
        find_zero(b, p) matches Some(z) && p + 4 * ((z - p) / 4 + 1) <= b.len(),
    ensures
        ({
            let z = find_zero(b, p)->Some_0;
            block_name(b, p) == Ok::<(Seq<u8>, int), ParseError>(
                (b.subrange(p, z), p + 4 * ((z - p) / 4 + 1)),
            )
        }),
        ({
            let z = find_zero(b, p)->Some_0;
            &&& b[z] == 0
            &&& forall|i: int| p <= i < z ==> b[i] != 0
        }),
{
    lemma_find_zero_first(b, p);
}

/// What `find_zero` returns is a zero with no zero before it.
proof fn lemma_find_zero_first(b: Seq<u8>, p: int)
    ensures
        find_zero(b, p) matches Some(z) ==> {
            &&& p <= z < b.len()
            &&& b[z] == 0
            &&& forall|i: int| p <= i < z ==> b[i] != 0
        },
    decreases b.len() - p,
{
    if 0 <= p < b.len() && b[p] != 0 {
        lemma_find_zero_first(b, p + 1);
    }
}

/// A node whose properties and children are complete but which is followed
/// by a tag other than its end tag fails with an unexpected tag: an
/// unbalanced begin tag is never merged or dropped.
pub proof fn lemma_unclosed_node(b: Seq<u8>, so: int, p: int, q: int, r: int, t: int)
    requires
        tag_at(b, p) == Ok::<Tag, ParseError>(Tag::BeginNode),
        block_name(b, p + 4) is Ok,
        block_name(b, p + 4)->Ok_0.1 == q,
        props_from(b, so, q, seq![]) is Ok,
        props_from(b, so, q, seq![])->Ok_0.1 == r,
        p < r <= b.len(),
        children_from(b, so, r, seq![]) is Ok,
        children_from(b, so, r, seq![])->Ok_0.1 == t,
        tag_at(b, t) is Ok,
        tag_at(b, t)->Ok_0 != Tag::EndNode,
    ensures
        node_at(b, so, p) == Err::<Option<(NodeModel, int)>, ParseError>(
            ParseError::UnexpectedTag,
        ),
{
}

proof fn lemma_cut_word(b: Seq<u8>, k: int, p: int)
    requires
        0 <= k <= b.len(),
        0 <= p && p + 4 <= k,
    ensures
        be_u32(b.subrange(0, k), p) == be_u32(b, p),
{
}

proof fn lemma_cut_tag(b: Seq<u8>, k: int, p: int)
    requires
        0 <= k <= b.len(),
    ensures
        tag_at(b.subrange(0, k), p) == (if 0 <= p && p + 4 <= k {
            tag_at(b, p)
        } else {
            Err(ParseError::ReadError)
        }),
{
    if 0 <= p && p + 4 <= k {
        lemma_cut_word(b, k, p);
    }
}

proof fn lemma_cut_find_zero(b: Seq<u8>, k: int, p: int)
    requires
        0 <= k <= b.len(),
    ensures
        find_zero(b.subrange(0, k), p) == (match find_zero(b, p) {
            Some(z) => if z < k {
                Some(z)
            } else {
                None
            },
            None => None,
        }),
    decreases b.len() - p,
{
    lemma_find_zero_found(b, p);
    if 0 <= p < k && b[p] != 0 {
        lemma_cut_find_zero(b, k, p + 1);
    }
}

proof fn lemma_cut_block_name(b: Seq<u8>, k: int, p: int)
    requires
        0 <= k <= b.len(),
    ensures
        ({
            let r = block_name(b, p);
            let c = block_name(b.subrange(0, k), p);
            c == Err::<(Seq<u8>, int), ParseError>(ParseError::ReadError)
                || (c == r && (r matches Ok((_, e)) ==> e <= k))
        }),
{
    lemma_cut_find_zero(b, k, p);
    lemma_find_zero_found(b, p);
    if let Some(z) = find_zero(b, p) {
        if z < k {
            assert(b.subrange(0, k).subrange(p, z) =~= b.subrange(p, z));
        }
    }
}

proof fn lemma_cut_property(b: Seq<u8>, k: int, so: int, p: int)
    requires
        0 <= k <= b.len(),
    ensures
        ({
            let r = property_at(b, so, p);
            let c = property_at(b.subrange(0, k), so, p);
            c == Err::<(PropertyModel, int), ParseError>(ParseError::ReadError)
                || (c == r && (r matches Ok((_, a)) ==> a < k))
        }),
{
    let c = b.subrange(0, k);
    if 0 <= p && p + 8 <= k {
        lemma_cut_word(b, k, p);
        lemma_cut_word(b, k, p + 4);
        let s = so + be_u32(b, p + 4) as int;
        lemma_cut_find_zero(b, k, s);
        lemma_find_zero_found(b, s);
        let e = p + 8 + be_u32(b, p) as int;
        if align_up(e) < k && s < k && find_zero(c, s) is Some {
            let z = find_zero(b, s)->Some_0;
            assert(c.subrange(s, z) =~= b.subrange(s, z));
            assert(c.subrange(p + 8, e) =~= b.subrange(p + 8, e));
        }
    }
}

proof fn lemma_cut_props(b: Seq<u8>, k: int, so: int, p: int, acc: Seq<PropertyModel>)
    requires
        0 <= k <= b.len(),
    ensures
        ({
            let r = props_from(b, so, p, acc);
            let c = props_from(b.subrange(0, k), so, p, acc);
            c == Err::<(Seq<PropertyModel>, int), ParseError>(ParseError::ReadError) || (c == r
                && (r matches Ok((_, e)) ==> e <= k))
        }),
    decreases b.len() - p,
{
    lemma_cut_tag(b, k, p);
    lemma_cut_property(b, k, so, p + 4);
    if let Ok(Tag::Property) = tag_at(b, p) {
        if let Ok((pr, q)) = property_at(b, so, p + 4) {
            if p < q <= b.len() {
                lemma_cut_props(b, k, so, q, acc.push(pr));
            }
        }
    }
}

proof fn lemma_cut_node(b: Seq<u8>, k: int, so: int, p: int)
    requires
        0 <= k <= b.len(),
    ensures
        ({
            let r = node_at(b, so, p);
            let c = node_at(b.subrange(0, k), so, p);
            c == Err::<Option<(NodeModel, int)>, ParseError>(ParseError::ReadError) || (c == r && (
            r matches Ok(Some((_, q))) ==> q <= k))
        }),
    decreases b.len() - p, 0int,
{
    lemma_cut_tag(b, k, p);
    lemma_cut_block_name(b, k, p + 4);
    if let Ok(Tag::BeginNode) = tag_at(b, p) {
        if let Ok((name, q)) = block_name(b, p + 4) {
            lemma_cut_props(b, k, so, q, seq![]);
            if let Ok((props, r)) = props_from(b, so, q, seq![]) {
                if p < r <= b.len() {
                    lemma_cut_children(b, k, so, r, seq![]);
                    if let Ok((kids, t)) = children_from(b, so, r, seq![]) {
                        lemma_cut_tag(b, k, t);
                    }
                }
            }
        }
    }
}

proof fn lemma_cut_children(b: Seq<u8>, k: int, so: int, p: int, acc: Seq<NodeModel>)
    requires
        0 <= k <= b.len(),
    ensures
        ({
            let r = children_from(b, so, p, acc);
            let c = children_from(b.subrange(0, k), so, p, acc);
            c == Err::<(Seq<NodeModel>, int), ParseError>(ParseError::ReadError) || (c == r && (
            r matches Ok((_, e)) ==> e <= k))
        }),
    decreases b.len() - p, 1int,
{
    if p <= k {
        lemma_cut_node(b, k, so, p);
        if let Ok(Some((n, q))) = node_at(b, so, p) {
            if p < q <= b.len() {
                lemma_cut_children(b, k, so, q, acc.push(n));
            }
        }
    }
}

/// Where the root node's end tag finishes, in a blob that decodes.
pub open spec fn root_end(b: Seq<u8>) -> int {
    match header_at(b, 4) {
        Some(h) => match node_at(b, h.off_dt_strings as int, h.off_dt_struct as int) {
            Ok(Some((_, q))) => q,
            _ => 0,
        },
        None => 0,
    }
}

/// A blob that decodes, cut anywhere before the end of its root's end tag,
/// fails to read: it never yields a tree.
pub proof fn lemma_truncated_blob_fails(b: Seq<u8>, k: int)
    requires
        tree_at(b, 0) is Ok,
        0 <= k < root_end(b),
    ensures
        tree_at(b.subrange(0, k), 0) == Err::<TreeModel, ParseError>(ParseError::ReadError),
{
    let c = b.subrange(0, k);
    let h = header_at(b, 4)->Some_0;
    lemma_cut_tag(b, k, 0);
    if k >= 28 {
        lemma_cut_word(b, k, 4);
        lemma_cut_word(b, k, 8);
        lemma_cut_word(b, k, 12);
        lemma_cut_word(b, k, 16);
        lemma_cut_word(b, k, 20);
        lemma_cut_word(b, k, 24);
        if k >= 32 {
            lemma_cut_word(b, k, 28);
        }
        if k >= 36 {
            lemma_cut_word(b, k, 32);
        }
        if k >= 40 {
            lemma_cut_word(b, k, 36);
        }
        lemma_cut_node(b, k, h.off_dt_strings as int, h.off_dt_struct as int);
    }
}

} // verus!
