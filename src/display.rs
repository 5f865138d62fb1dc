use vstd::prelude::*;
use vstd::string::StringExecFns;

use crate::parser::{Node, NodeModel, PropertyModel};
use crate::util::{from_utf8_safe, utf8_decoded};

verus! {

/// What Rust's debug formatting makes of a text: quoted, with escapes.
pub uninterp spec fn debug_text(s: Seq<char>) -> Seq<char>;

/// Relies on `<str as Debug>::fmt`: the text quoted and escaped as `{:?}`
/// shows it.
#[verifier::external_body]
fn debug_quote(s: &str) -> (r: String)
    ensures
        r@ == debug_text(s@),
{
    format!("{:?}", s)
}

/// Bytes shown as text: what they encode, or a marker where they are not
/// UTF-8.
pub open spec fn shown(b: Seq<u8>) -> Seq<char> {
    match utf8_decoded(b) {
        Some(s) => s,
        None => "utf8!invalid"@,
    }
}

/// Three spaces for each level of depth.
pub open spec fn indent_text(n: nat) -> Seq<char>
    decreases n,
{
    if n == 0 {
        seq![]
    } else {
        indent_text((n - 1) as nat) + "   "@
    }
}

/// The line that opens a node: `/` for the root's empty name, else the
/// quoted name.
pub open spec fn heading(name: Seq<u8>, pad: Seq<char>) -> Seq<char> {
    if name.len() == 0 {
        pad + "|- /\n"@
    } else {
        pad + "|- "@ + debug_text(shown(name)) + "\n"@
    }
}

/// The line of a property: its name and its payload, as text.
pub open spec fn property_line(p: PropertyModel, pad: Seq<char>) -> Seq<char> {
    pad + "   "@ + shown(p.name) + ": "@ + shown(p.data) + "\n"@
}

/// The lines of the first `n` properties of `ps`.
pub open spec fn property_lines(ps: Seq<PropertyModel>, pad: Seq<char>, n: int) -> Seq<char> {
    Seq::new(n as nat, |j: int| property_line(ps[j], pad)).flatten()
}

/// The text of each child of `m`, one level deeper than `pad`.
pub open spec fn child_texts(m: NodeModel, pad: Seq<char>) -> Seq<Seq<char>>
    decreases m, 0int,
{
    Seq::new(
        m.children.len(),
        |i: int|
            if 0 <= i < m.children.len() {
                node_text(m.children[i], pad + "   "@)
            } else {
                seq![]
            },
    )
}

/// A node shown as text: its heading, its properties, then each child one
/// level deeper.
pub open spec fn node_text(m: NodeModel, pad: Seq<char>) -> Seq<char>
    decreases m, 1int,
{
    heading(m.name, pad) + property_lines(m.properties, pad, m.properties.len() as int)
        + child_texts(m, pad).flatten()
}

fn render(node: &Node, pad: &str, out: &mut String)
    ensures
        final(out)@ == old(out)@ + node_text(node@, pad@),
    decreases node,
{
    let ghost start = out@;
    out.append(pad);
    if node.name.len() == 0 {
        out.append("|- /\n");
    } else {
        out.append("|- ");
        let q = debug_quote(from_utf8_safe(node.name.as_slice()));
        out.append(q.as_str());
        out.append("\n");
    }
    assert(out@ =~= start + heading(node@.name, pad@));
    let ghost head = out@;
    let ghost ps = node@.properties;
    let mut i: usize = 0;
    while i < node.properties.len()
        invariant
            i <= node.properties@.len(),
            ps == node@.properties,
            ps.len() == node.properties@.len(),
            out@ == head + property_lines(ps, pad@, i as int),
        decreases node.properties@.len() - i,
    {
        let p = &node.properties[i];
        let ghost before = out@;
        out.append(pad);
        out.append("   ");
        out.append(from_utf8_safe(p.name()));
        out.append(": ");
        out.append(from_utf8_safe(p.data()));
        out.append("\n");
        proof {
            let lines = Seq::new(i as nat, |j: int| property_line(ps[j], pad@));
            let more = Seq::new((i + 1) as nat, |j: int| property_line(ps[j], pad@));
            assert(more =~= lines.push(property_line(ps[i as int], pad@)));
            lines.lemma_flatten_push(property_line(ps[i as int], pad@));
            assert(out@ =~= before + property_line(ps[i as int], pad@));
        }
        i = i + 1;
    }
    let ghost mid = out@;
    let mut child_pad = pad.to_owned();
    child_pad.append("   ");
    let ghost cp = child_pad@;
    assert(cp == pad@ + "   "@);
    let mut k: usize = 0;
    while k < node.children.len()
        invariant
            k <= node.children@.len(),
            child_pad@ == cp,
            out@ == mid + Seq::new(k as nat, |j: int| node_text(node.children@[j]@, cp)).flatten(),
        decreases node.children@.len() - k,
    {
        let ghost before = out@;
        render(&node.children[k], child_pad.as_str(), out);
        proof {
            let done = Seq::new(k as nat, |j: int| node_text(node.children@[j]@, cp));
            let more = Seq::new((k + 1) as nat, |j: int| node_text(node.children@[j]@, cp));
            assert(more =~= done.push(node_text(node.children@[k as int]@, cp)));
            done.lemma_flatten_push(node_text(node.children@[k as int]@, cp));
        }
        k = k + 1;
    }
    proof {
        let kids = child_texts(node@, pad@);
        assert(kids =~= Seq::new(
            node.children@.len() as nat,
            |j: int| node_text(node.children@[j]@, cp),
        ));
        assert(out@ =~= start + node_text(node@, pad@));
    }
}

/// A node and everything below it as text, `indent` levels deep: one line
/// for the node, one for each property, then the children one level deeper.
pub fn display_node(node: &Node, indent: u32) -> (r: String)
    ensures
        r@ == node_text(node@, indent_text(indent as nat)),
{
    let mut indt = String::new();
    let mut i: u32 = 0;
    while i < indent
        invariant
            i <= indent,
            indt@ == indent_text(i as nat),
        decreases indent - i,
    {
        indt.append("   ");
        i = i + 1;
    }
    let mut out = String::new();
    render(node, indt.as_str(), &mut out);
    assert(out@ =~= node_text(node@, indent_text(indent as nat)));
    out
}

} // verus!
