//! The canonical textual form of markup elements.
//!
//! An element renders as an opening tag carrying space-separated
//! `key="value"` pairs in declaration order, a body of newline-joined
//! children, and a closing tag; a self-closing element renders as
//! `<tag attrs />`.  Attribute values are always wrapped in double quotes
//! and no character escaping is performed.

use vstd::prelude::*;
use crate::casing::join;

verus! {

/// `v` wrapped in double quotes.
pub open spec fn quoted(v: Seq<char>) -> Seq<char> {
    seq!['"'] + v + seq!['"']
}

/// One `key="value"` pair.
pub open spec fn property_spec(k: Seq<char>, v: Seq<char>) -> Seq<char> {
    k + seq!['='] + quoted(v)
}

pub open spec fn pairs_views(ps: Seq<(String, String)>) -> Seq<Seq<char>> {
    ps.map_values(|p: (String, String)| property_spec(p.0@, p.1@))
}

/// The opening tag: the attribute block and the space before it are
/// omitted entirely when there are no attributes.
pub open spec fn opening_tag_spec(tag_name: Seq<char>, props: Seq<char>) -> Seq<char> {
    if props.len() == 0 {
        seq!['<'] + tag_name + seq!['>']
    } else {
        seq!['<'] + tag_name + seq![' '] + props + seq!['>']
    }
}

/// A full element: opening tag, newline, body, newline, closing tag.
pub open spec fn tag_spec(tag_name: Seq<char>, props: Seq<char>, body: Seq<char>) -> Seq<char> {
    opening_tag_spec(tag_name, props) + seq!['\n'] + body + seq!['\n', '<', '/'] + tag_name
        + seq!['>']
}

/// A self-closing element: no body, no closing tag.
pub open spec fn self_closing_spec(tag_name: Seq<char>, props: Seq<char>) -> Seq<char> {
    if props.len() == 0 {
        seq!['<'] + tag_name + seq![' ', '/', '>']
    } else {
        seq!['<'] + tag_name + seq![' '] + props + seq![' ', '/', '>']
    }
}

/// Surround an expression in quotes, useful for building markup elements.
pub fn quotes(value: &str) -> (r: String)
    ensures
        r@ == quoted(value@),
{
    let mut out = String::from_str("\"");
    out.append(value);
    out.append("\"");
    proof {
        reveal_strlit("\"");
        assert("\""@ =~= seq!['"']);
        assert(out@ =~= quoted(value@));
    }
    out
}

/// One markup property: `key="value"`.
pub fn property(key: &str, value: &str) -> (r: String)
    ensures
        r@ == property_spec(key@, value@),
{
    let mut out = key.to_owned();
    out.append("=");
    let q = quotes(value);
    out.append(q.as_str());
    proof {
        reveal_strlit("=");
        assert("="@ =~= seq!['=']);
        assert(out@ =~= property_spec(key@, value@));
    }
    out
}

fn properties_tail(pairs: &Vec<(String, String)>, i: usize) -> (r: String)
    requires
        i <= pairs@.len(),
    ensures
        r@ == join(pairs_views(pairs@.skip(i as int)), seq![' ']),
    decreases pairs@.len() - i,
{
    let ghost ws = pairs_views(pairs@.skip(i as int));
    if i >= pairs.len() {
        proof {
            assert(ws.len() == 0);
        }
        return String::new();
    }
    let first = property(pairs[i].0.as_str(), pairs[i].1.as_str());
    proof {
        assert(ws[0] == property_spec(pairs@[i as int].0@, pairs@[i as int].1@));
    }
    if i + 1 == pairs.len() {
        proof {
            assert(ws.len() == 1);
        }
        first
    } else {
        let rest = properties_tail(pairs, i + 1);
        let mut out = first;
        out.append(" ");
        out.append(rest.as_str());
        proof {
            reveal_strlit(" ");
            assert(" "@ =~= seq![' ']);
            assert(ws.drop_first() =~= pairs_views(pairs@.skip(i + 1 as int)));
            assert(out@ == ws[0] + seq![' '] + join(ws.drop_first(), seq![' ']));
        }
        out
    }
}

/// All properties of one element, space-separated, in declaration order.
pub fn properties(pairs: &Vec<(String, String)>) -> (r: String)
    ensures
        r@ == join(pairs_views(pairs@), seq![' ']),
{
    let r = properties_tail(pairs, 0);
    proof {
        assert(pairs@.skip(0) =~= pairs@);
    }
    r
}

/// The opening tag of an element; the attribute block is omitted when
/// `properties` is empty.
pub fn create_opening_tag(tag_name: &str, properties: &str) -> (r: String)
    ensures
        r@ == opening_tag_spec(tag_name@, properties@),
{
    let mut out = String::from_str("<");
    out.append(tag_name);
    if !properties.is_empty() {
        out.append(" ");
        out.append(properties);
    }
    out.append(">");
    proof {
        reveal_strlit("<");
        reveal_strlit(" ");
        reveal_strlit(">");
        assert("<"@ =~= seq!['<']);
        assert(" "@ =~= seq![' ']);
        assert(">"@ =~= seq!['>']);
        assert(out@ =~= opening_tag_spec(tag_name@, properties@));
    }
    out
}

/// A full element as a string: opening tag, body between newlines, closing
/// tag.
pub fn tag(name: &str, properties: &str, body: &str) -> (r: String)
    ensures
        r@ == tag_spec(name@, properties@, body@),
{
    let mut out = create_opening_tag(name, properties);
    out.append("\n");
    out.append(body);
    out.append("\n</");
    out.append(name);
    out.append(">");
    proof {
        reveal_strlit("\n");
        reveal_strlit("\n</");
        reveal_strlit(">");
        assert("\n"@ =~= seq!['\n']);
        assert("\n</"@ =~= seq!['\n', '<', '/']);
        assert(">"@ =~= seq!['>']);
        assert(out@ =~= tag_spec(name@, properties@, body@));
    }
    out
}

/// A self-closing element as a string, used only for elements declared to
/// have no children.
pub fn self_closing_tag(name: &str, properties: &str) -> (r: String)
    ensures
        r@ == self_closing_spec(name@, properties@),
{
    let mut out = String::from_str("<");
    out.append(name);
    if !properties.is_empty() {
        out.append(" ");
        out.append(properties);
    }
    out.append(" />");
    proof {
        reveal_strlit("<");
        reveal_strlit(" ");
        reveal_strlit(" />");
        assert("<"@ =~= seq!['<']);
        assert(" "@ =~= seq![' ']);
        assert(" />"@ =~= seq![' ', '/', '>']);
        assert(out@ =~= self_closing_spec(name@, properties@));
    }
    out
}

/// One resolved child of a markup node: literal text or a nested element.
pub enum Child {
    Text(String),
    Element(MarkupNode),
}

/// The runtime realization of one element: a tag, resolved attribute
/// pairs, and resolved children, owned exclusively by one render call.
pub struct MarkupNode {
    pub tag: String,
    pub attrs: Vec<(String, String)>,
    pub children: Vec<Child>,
    pub self_closing: bool,
}

/// Attribute keys are unique within one node.
pub open spec fn keys_unique(ps: Seq<(String, String)>) -> bool {
    forall|a: int, b: int| 0 <= a < b < ps.len() ==> ps[a].0@ != ps[b].0@
}

pub open spec fn child_wf(c: Child) -> bool
    decreases c, 0int,
{
    match c {
        Child::Text(_) => true,
        Child::Element(n) => node_wf(n),
    }
}

/// The invariant of a markup node: a non-empty tag, unique attribute keys,
/// no children on a self-closing node, and well-formed children.
pub open spec fn node_wf(n: MarkupNode) -> bool
    decreases n, 1int,
{
    &&& n.tag@.len() > 0
    &&& keys_unique(n.attrs@)
    &&& (n.self_closing ==> n.children@.len() == 0)
    &&& forall|i: int| 0 <= i < n.children@.len() ==> child_wf(#[trigger] n.children@[i])
}

pub open spec fn child_spec(c: Child) -> Seq<char>
    decreases c, 1int,
{
    match c {
        Child::Text(t) => t@,
        Child::Element(n) => render_spec(n),
    }
}

/// The newline-joined renderings of the children from position `i` on.
pub open spec fn render_children_from(cs: Seq<Child>, i: int) -> Seq<char>
    decreases cs, cs.len() - i,
{
    if i < 0 || i >= cs.len() {
        Seq::empty()
    } else if i == cs.len() - 1 {
        child_spec(cs[i])
    } else {
        child_spec(cs[i]) + seq!['\n'] + render_children_from(cs, i + 1)
    }
}

/// The canonical text of a node: its attribute block in declaration order,
/// its children newline-joined, wrapped in the opening and closing tags,
/// or the self-closing form.
pub open spec fn render_spec(n: MarkupNode) -> Seq<char>
    decreases n, 2int,
{
    let props = join(pairs_views(n.attrs@), seq![' ']);
    if n.self_closing {
        self_closing_spec(n.tag@, props)
    } else {
        tag_spec(n.tag@, props, render_children_from(n.children@, 0))
    }
}

fn render_children(cs: &Vec<Child>, i: usize) -> (r: String)
    requires
        i <= cs@.len(),
    ensures
        r@ == render_children_from(cs@, i as int),
    decreases *cs, cs@.len() - i,
{
    if i >= cs.len() {
        return String::new();
    }
    let c = &cs[i];
    let head: String = match c {
        Child::Text(t) => t.clone(),
        Child::Element(n) => {
            proof {
                assert(decreases_to!(*cs => cs[i as int]));
            }
            n.render()
        },
    };
    proof {
        assert(head@ == child_spec(cs@[i as int]));
    }
    if i + 1 == cs.len() {
        head
    } else {
        let mut out = head;
        out.append("\n");
        let rest = render_children(cs, i + 1);
        out.append(rest.as_str());
        proof {
            reveal_strlit("\n");
            assert("\n"@ =~= seq!['\n']);
            assert(out@ =~= child_spec(cs@[i as int]) + seq!['\n'] + render_children_from(
                cs@,
                i + 1 as int,
            ));
        }
        out
    }
}

impl MarkupNode {
    /// Render this node into its canonical textual form.
    pub fn render(&self) -> (r: String)
        ensures
            r@ == render_spec(*self),
        decreases *self, 3int,
    {
        let props = properties(&self.attrs);
        if self.self_closing {
            self_closing_tag(self.tag.as_str(), props.as_str())
        } else {
            let body = render_children(&self.children, 0);
            tag(self.tag.as_str(), props.as_str(), body.as_str())
        }
    }
}

/// A value that renders itself into markup text.
pub trait HTMLElement {
    /// The exact text this element renders to.
    spec fn render_view(&self) -> Seq<char>;

    fn render(&self) -> (r: String)
        ensures
            r@ == self.render_view(),
    ;
}

/// A head element with a fixed example title and language.
pub struct Head<'a> {
    pub title: &'a str,
    pub lang: &'a str,
}

impl<'a> core::default::Default for Head<'a> {
    fn default() -> (r: Head<'a>)
        ensures
            r.title@.len() == 0,
            r.lang@.len() == 0,
    {
        proof {
            reveal_strlit("");
        }
        Head { title: "", lang: "" }
    }
}

pub open spec fn head_view() -> Seq<char> {
    tag_spec(
        "head"@,
        Seq::empty(),
        tag_spec("title"@, Seq::empty(), "test page"@) + seq!['\n'] + tag_spec(
            "lang"@,
            Seq::empty(),
            "en-gb"@,
        ),
    )
}

impl HTMLElement for Head<'_> {
    open spec fn render_view(&self) -> Seq<char> {
        head_view()
    }

    fn render(&self) -> (r: String) {
        let title_tag = tag("title", "", "test page");
        let lang_tag = tag("lang", "", "en-gb");
        let mut body = title_tag;
        body.append("\n");
        body.append(lang_tag.as_str());
        let out = tag("head", "", body.as_str());
        proof {
            reveal_strlit("");
            reveal_strlit("\n");
            assert(""@ =~= Seq::<char>::empty());
            assert("\n"@ =~= seq!['\n']);
            assert(out@ =~= head_view());
        }
        out
    }
}

/// A div holding literal text content.
pub struct Div<'a> {
    pub content: &'a str,
}

impl HTMLElement for Div<'_> {
    open spec fn render_view(&self) -> Seq<char> {
        tag_spec("div"@, Seq::empty(), self.content@)
    }

    fn render(&self) -> (r: String) {
        let out = tag("div", "", self.content);
        proof {
            reveal_strlit("");
            assert(""@ =~= Seq::<char>::empty());
        }
        out
    }
}

} // verus!
