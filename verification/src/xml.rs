//! XML parsing and serialization.
//!
//! The document source is XML text. Parsing is delegated to an outside
//! parser behind a trusted boundary and lands in `XmlNode`, a plain tree of
//! strings the rest of the library works on. Serialization back to XML text
//! is the library's own verified code, so a rebuilt sub-document can be
//! re-parsed through the same trusted boundary.

use vstd::prelude::*;

verus! {

/// One XML element: its tag name, its attributes in document order, its
/// direct text content, and its element children in document order.
#[derive(Debug)]
pub struct XmlNode {
    pub tag: String,
    pub attrs: Vec<(String, String)>,
    pub text: String,
    pub children: Vec<XmlNode>,
}

/// The ghost image of an XML element tree.
#[verifier::ext_equal]
pub ghost struct XmlTree {
    pub tag: Seq<char>,
    pub attrs: Seq<(Seq<char>, Seq<char>)>,
    pub text: Seq<char>,
    pub children: Seq<XmlTree>,
}

/// The ghost image of an XML node, recursively.
pub open spec fn xml_view(n: &XmlNode) -> XmlTree
    decreases *n,
{
    XmlTree {
        tag: n.tag@,
        attrs: n.attrs@.map(|_k: int, a: (String, String)| (a.0@, a.1@)),
        text: n.text@,
        children: xml_children_view(n.children@),
    }
}

/// The ghost images of a child list, in order.
pub open spec fn xml_children_view(cs: Seq<XmlNode>) -> Seq<XmlTree>
    decreases cs,
{
    if cs.len() == 0 {
        Seq::empty()
    } else {
        xml_children_view(cs.drop_last()).push(xml_view(&cs.last()))
    }
}

/// The child list's ghost images, element by element.
pub proof fn lemma_xml_children_view(cs: Seq<XmlNode>)
    ensures
        xml_children_view(cs).len() == cs.len(),
        forall|t: int| 0 <= t < cs.len() ==> #[trigger] xml_children_view(cs)[t] == cs[t]@,
    decreases cs,
{
    if cs.len() > 0 {
        lemma_xml_children_view(cs.drop_last());
        assert(forall|t: int|
            0 <= t < cs.len() - 1 ==> #[trigger] xml_children_view(cs)[t] == xml_children_view(
                cs.drop_last(),
            )[t]);
        assert(forall|t: int| 0 <= t < cs.len() - 1 ==> #[trigger] cs.drop_last()[t] == cs[t]);
        assert(xml_children_view(cs)[cs.len() - 1] == cs.last()@);
    }
}

impl View for XmlNode {
    type V = XmlTree;

    open spec fn view(&self) -> XmlTree {
        xml_view(self)
    }
}

/// What the outside XML parser returns for a given input text: a function
/// of the text alone. `None` stands for a parse failure.
pub uninterp spec fn parsed_xml(s: Seq<char>) -> Option<XmlTree>;

/// Relies on roxmltree's `Document::parse`: parsing is a pure function of
/// the input text; a malformed input is reported as an error and a
/// well-formed one yields the document's element tree, converted here into
/// the library's own plain tree.
#[verifier::external_body]
pub(crate) fn parse_xml(s: &str) -> (r: Option<XmlNode>)
    ensures
        match r {
            Some(n) => parsed_xml(s@) == Some(n@),
            None => parsed_xml(s@) is None,
        },
{
    match roxmltree::Document::parse(s) {
        Ok(doc) => Some(convert_node(doc.root_element())),
        Err(_) => None,
    }
}

/// Relies on `String::push`: appends exactly one character.
#[verifier::external_body]
pub(crate) fn push_char(s: &mut String, c: char)
    ensures
        final(s)@ == old(s)@.push(c),
{
    s.push(c);
}

/// The XML entity escape of one character: the five characters with
/// structural meaning become entities, every other character stands for
/// itself.
pub open spec fn escape_char(c: char) -> Seq<char> {
    if c == '&' {
        seq!['&', 'a', 'm', 'p', ';']
    } else if c == '<' {
        seq!['&', 'l', 't', ';']
    } else if c == '>' {
        seq!['&', 'g', 't', ';']
    } else if c == '"' {
        seq!['&', 'q', 'u', 'o', 't', ';']
    } else {
        seq![c]
    }
}

/// The XML entity escape of a text, character by character.
pub open spec fn escaped(s: Seq<char>) -> Seq<char>
    decreases s.len(),
{
    if s.len() == 0 {
        Seq::empty()
    } else {
        escaped(s.drop_last()) + escape_char(s.last())
    }
}

/// The serialized attribute list: one leading space, the name, and the
/// escaped value in double quotes, per attribute in order.
pub open spec fn attrs_text(attrs: Seq<(Seq<char>, Seq<char>)>) -> Seq<char>
    decreases attrs.len(),
{
    if attrs.len() == 0 {
        Seq::empty()
    } else {
        attrs_text(attrs.drop_last()) + seq![' '] + attrs.last().0 + seq!['=', '"'] + escaped(
            attrs.last().1,
        ) + seq!['"']
    }
}

/// The serialized form of an element: its start tag with attributes, its
/// escaped text, its children in order, and its end tag.
pub open spec fn xml_text(t: XmlTree) -> Seq<char>
    decreases t,
{
    seq!['<'] + t.tag + attrs_text(t.attrs) + seq!['>'] + escaped(t.text) + children_text(
        t.children,
    ) + seq!['<', '/'] + t.tag + seq!['>']
}

/// The serialized forms of a child list, concatenated in order.
pub open spec fn children_text(cs: Seq<XmlTree>) -> Seq<char>
    decreases cs,
{
    if cs.len() == 0 {
        Seq::empty()
    } else {
        children_text(cs.drop_last()) + xml_text(cs.last())
    }
}

/// Appends the XML entity escape of `s`.
fn append_escaped(out: &mut String, s: &str)
    ensures
        final(out)@ == old(out)@ + escaped(s@),
{
    let n = s.unicode_len();
    let mut k: usize = 0;
    assert(out@ =~= old(out)@ + escaped(s@.subrange(0, 0)));
    while k < n
        invariant
            n == s@.len(),
            k <= n,
            out@ == old(out)@ + escaped(s@.subrange(0, k as int)),
        decreases n - k,
    {
        let c = s.get_char(k);
        if c == '&' {
            push_char(out, '&');
            push_char(out, 'a');
            push_char(out, 'm');
            push_char(out, 'p');
            push_char(out, ';');
        } else if c == '<' {
            push_char(out, '&');
            push_char(out, 'l');
            push_char(out, 't');
            push_char(out, ';');
        } else if c == '>' {
            push_char(out, '&');
            push_char(out, 'g');
            push_char(out, 't');
            push_char(out, ';');
        } else if c == '"' {
            push_char(out, '&');
            push_char(out, 'q');
            push_char(out, 'u');
            push_char(out, 'o');
            push_char(out, 't');
            push_char(out, ';');
        } else {
            push_char(out, c);
        }
        proof {
            let p = s@.subrange(0, k as int);
            let p1 = s@.subrange(0, k + 1);
            assert(p1.drop_last() =~= p);
            assert(escaped(p1) == escaped(p) + escape_char(s@[k as int]));
            assert(out@ =~= old(out)@ + escaped(p1));
        }
        k = k + 1;
    }
    assert(s@.subrange(0, n as int) =~= s@);
}

/// Appends the serialized form of an element.
pub fn append_xml(n: &XmlNode, out: &mut String)
    ensures
        final(out)@ == old(out)@ + xml_text(n@),
    decreases *n,
{
    push_char(out, '<');
    out.append(n.tag.as_str());
    let mut k: usize = 0;
    assert(out@ =~= old(out)@ + seq!['<'] + n.tag@ + attrs_text(n@.attrs.subrange(0, 0)));
    while k < n.attrs.len()
        invariant
            k <= n.attrs@.len(),
            n@.attrs.len() == n.attrs@.len(),
            out@ == old(out)@ + seq!['<'] + n.tag@ + attrs_text(n@.attrs.subrange(0, k as int)),
        decreases n.attrs@.len() - k,
    {
        push_char(out, ' ');
        let pair = &n.attrs[k];
        out.append(pair.0.as_str());
        push_char(out, '=');
        push_char(out, '"');
        append_escaped(out, pair.1.as_str());
        push_char(out, '"');
        proof {
            let p = n@.attrs.subrange(0, k as int);
            let p1 = n@.attrs.subrange(0, k + 1);
            assert(p1.drop_last() =~= p);
            assert(p1.last() == n@.attrs[k as int]);
            assert(n@.attrs[k as int] == (n.attrs@[k as int].0@, n.attrs@[k as int].1@));
            assert(attrs_text(p1) == attrs_text(p) + seq![' '] + p1.last().0 + seq!['=', '"']
                + escaped(p1.last().1) + seq!['"']);
            assert(out@ =~= old(out)@ + seq!['<'] + n.tag@ + attrs_text(p1));
        }
        k = k + 1;
    }
    assert(n@.attrs.subrange(0, n.attrs@.len() as int) =~= n@.attrs);
    push_char(out, '>');
    append_escaped(out, n.text.as_str());
    let ghost head = old(out)@ + seq!['<'] + n.tag@ + attrs_text(n@.attrs) + seq!['>'] + escaped(
        n.text@,
    );
    let mut k: usize = 0;
    proof {
        lemma_xml_children_view(n.children@);
    }
    assert(out@ =~= head + children_text(n@.children.subrange(0, 0)));
    while k < n.children.len()
        invariant
            k <= n.children@.len(),
            n@.children.len() == n.children@.len(),
            out@ == head + children_text(n@.children.subrange(0, k as int)),
        decreases n.children@.len() - k,
    {
        append_xml(&n.children[k], out);
        proof {
            lemma_xml_children_view(n.children@);
            let p = n@.children.subrange(0, k as int);
            let p1 = n@.children.subrange(0, k + 1);
            assert(p1.drop_last() =~= p);
            assert(p1.last() == n@.children[k as int]);
            assert(n@.children[k as int] == n.children@[k as int]@);
            assert(children_text(p1) == children_text(p) + xml_text(p1.last()));
            assert(out@ =~= head + children_text(p1));
        }
        k = k + 1;
    }
    assert(n@.children.subrange(0, n.children@.len() as int) =~= n@.children);
    push_char(out, '<');
    push_char(out, '/');
    out.append(n.tag.as_str());
    push_char(out, '>');
    assert(out@ =~= old(out)@ + xml_text(n@));
}

/// Serializes an element to XML text.
pub fn xml_to_string(n: &XmlNode) -> (r: String)
    ensures
        r@ == xml_text(n@),
{
    let mut out = String::new();
    append_xml(n, &mut out);
    assert(out@ =~= xml_text(n@));
    out
}

/// Declares roxmltree's node handle so the conversion below can take it.
#[verifier::external_type_specification]
#[verifier::external_body]
pub struct ExNode<'a, 'input>(roxmltree::Node<'a, 'input>)
    where 'input: 'a;

/// Relies on roxmltree's node accessors (`tag_name`, `attributes`,
/// `children`, `is_element`, `is_text`, `text`) to copy one element and its
/// descendants into the library's own tree, in document order.
#[verifier::external_body]
fn convert_node(n: roxmltree::Node<'_, '_>) -> XmlNode {
    let mut attrs: Vec<(String, String)> = Vec::new();
    let mut text = String::new();
    let mut children: Vec<XmlNode> = Vec::new();
    for a in n.attributes() {
        attrs.push((a.name().to_string(), a.value().to_string()));
    }
    for c in n.children() {
        if c.is_element() {
            children.push(convert_node(c));
        } else if c.is_text() {
            text.push_str(c.text().unwrap_or(""));
        }
    }
    XmlNode { tag: n.tag_name().name().to_string(), attrs, text, children }
}

} // verus!
