//! A small element tree read from XML text.
use vstd::prelude::*;
use crate::trusted::{next_xml_token, xml_event, XmlTokens};

verus! {

/// An XML element: its name, the character data directly inside it, and its
/// child elements in document order. Attributes are not kept.
#[derive(Debug, PartialEq)]
pub struct XmlElement {
    pub name: String,
    pub text: String,
    pub children: Vec<XmlElement>,
}

/// The mathematical value of an element tree.
pub struct XmlNode {
    pub name: Seq<char>,
    pub text: Seq<char>,
    pub children: Seq<XmlNode>,
}

impl XmlElement {
    pub open spec fn node(self) -> XmlNode
        decreases self,
    {
        XmlNode { name: self.name@, text: self.text@, children: nodes_of(self.children@) }
    }
}

/// The values of a sequence of element trees.
pub open spec fn nodes_of(s: Seq<XmlElement>) -> Seq<XmlNode>
    decreases s,
{
    if s.len() == 0 {
        Seq::empty()
    } else {
        nodes_of(s.drop_last()).push(s.last().node())
    }
}

/// The values of a sequence of trees are the values of its trees, in order.
pub proof fn lemma_nodes_of(v: Seq<XmlElement>)
    ensures
        nodes_of(v).len() == v.len(),
        forall|i: int| 0 <= i < v.len() ==> #[trigger] nodes_of(v)[i] == v[i].node(),
    decreases v.len(),
{
    if v.len() > 0 {
        lemma_nodes_of(v.drop_last());
        assert forall|i: int| 0 <= i < v.len() implies #[trigger] nodes_of(v)[i] == v[i].node() by {
            if i < v.len() - 1 {
                assert(v.drop_last()[i] == v[i]);
            }
        }
    }
}

/// One step of reading XML text.
#[derive(Debug, PartialEq)]
pub enum XmlToken {
    /// A start tag, with the element's name.
    Open(String),
    /// An end tag, with the element's name.
    Close(String),
    /// An empty-element tag `<name/>`.
    Leaf(String),
    /// Character data, unescaped.
    Text(String),
    /// A comment, declaration, processing instruction or doctype.
    Skip,
    /// The end of the text.
    End,
}

/// The element that starts at token `i`, and the index of the token after it.
pub open spec fn parse_element(t: Seq<XmlToken>, i: int) -> Option<(XmlNode, int)>
    decreases t.len() - i, 0int,
{
    if 0 <= i < t.len() {
        match t[i] {
            XmlToken::Leaf(n) => Some(
                (XmlNode { name: n@, text: Seq::empty(), children: Seq::empty() }, i + 1),
            ),
            XmlToken::Open(n) => match parse_content(t, i + 1, Seq::empty(), Seq::empty()) {
                Some((text, kids, j)) => if 0 <= j < t.len() && (t[j] matches XmlToken::Close(m)
                    && m@ == n@) {
                    Some((XmlNode { name: n@, text, children: kids }, j + 1))
                } else {
                    None
                },
                None => None,
            },
            _ => None,
        }
    } else {
        None
    }
}

/// The content of an element from token `i` on, after `text` and `kids` were
/// read: all its text, its children, and the index of its end tag.
pub open spec fn parse_content(t: Seq<XmlToken>, i: int, text: Seq<char>, kids: Seq<XmlNode>) -> Option<
    (Seq<char>, Seq<XmlNode>, int),
>
    decreases t.len() - i, 1int,
{
    if 0 <= i < t.len() {
        match t[i] {
            XmlToken::Close(_) => Some((text, kids, i)),
            XmlToken::Text(s) => parse_content(t, i + 1, text + s@, kids),
            XmlToken::Skip => parse_content(t, i + 1, text, kids),
            XmlToken::End => None,
            _ => match parse_element(t, i) {
                Some((c, j)) => if i < j <= t.len() {
                    parse_content(t, j, text, kids.push(c))
                } else {
                    None
                },
                None => None,
            },
        }
    } else {
        None
    }
}

/// The index of the first token at or after `i` that is not skipped.
pub open spec fn skip_from(t: Seq<XmlToken>, i: int) -> int
    decreases t.len() - i,
{
    if 0 <= i < t.len() && (t[i] is Skip || t[i] matches XmlToken::Text(_)) {
        skip_from(t, i + 1)
    } else {
        i
    }
}

/// The document that a token sequence spells: one root element, with only
/// skipped tokens around it, then the end.
pub open spec fn parse_document(t: Seq<XmlToken>) -> Option<XmlNode> {
    match parse_element(t, skip_from(t, 0)) {
        Some((root, j)) => {
            let k = skip_from(t, j);
            if 0 <= k < t.len() && t[k] is End {
                Some(root)
            } else {
                None
            }
        },
        None => None,
    }
}

fn skip_tokens(t: &Vec<XmlToken>, i: usize) -> (r: usize)
    ensures
        r as int == skip_from(t@, i as int),
{
    let mut k = i;
    while k < t.len()
        invariant
            i <= k,
            skip_from(t@, i as int) == skip_from(t@, k as int),
        decreases t.len() - k,
    {
        match &t[k] {
            XmlToken::Skip => {},
            XmlToken::Text(_) => {},
            _ => {
                return k;
            },
        }
        k = k + 1;
    }
    k
}

fn build_element(t: &Vec<XmlToken>, i: usize) -> (r: Option<(XmlElement, usize)>)
    ensures
        match parse_element(t@, i as int) {
            Some((node, j)) => r matches Some((e, k)) && e.node() == node && k == j,
            None => r is None,
        },
    decreases t@.len() - i, 0int,
{
    if i >= t.len() {
        return None;
    }
    match &t[i] {
        XmlToken::Leaf(n) => {
            let e = XmlElement { name: n.clone(), text: String::new(), children: Vec::new() };
            proof {
                assert(nodes_of(e.children@) =~= Seq::<XmlNode>::empty());
            }
            Some((e, i + 1))
        },
        XmlToken::Open(n) => {
            match build_content(t, i + 1) {
                Some((text, children, j)) => {
                    if j < t.len() {
                        match &t[j] {
                            XmlToken::Close(m) => {
                                if m.eq(n) {
                                    let e = XmlElement { name: n.clone(), text, children };
                                    Some((e, j + 1))
                                } else {
                                    None
                                }
                            },
                            _ => None,
                        }
                    } else {
                        None
                    }
                },
                None => None,
            }
        },
        _ => None,
    }
}

fn build_content(t: &Vec<XmlToken>, i: usize) -> (r: Option<(String, Vec<XmlElement>, usize)>)
    ensures
        match parse_content(t@, i as int, Seq::empty(), Seq::empty()) {
            Some((text, kids, j)) => r matches Some((s, v, k)) && s@ == text && nodes_of(v@)
                == kids && k == j,
            None => r is None,
        },
    decreases t@.len() - i, 1int,
{
    let mut text = String::new();
    let mut kids: Vec<XmlElement> = Vec::new();
    let mut k = i;
    proof {
        assert(nodes_of(kids@) =~= Seq::<XmlNode>::empty());
    }
    while k < t.len()
        invariant
            i <= k,
            parse_content(t@, i as int, Seq::empty(), Seq::empty()) == parse_content(
                t@,
                k as int,
                text@,
                nodes_of(kids@),
            ),
        decreases t.len() - k,
    {
        match &t[k] {
            XmlToken::Close(_) => {
                return Some((text, kids, k));
            },
            XmlToken::Text(s) => {
                text.append(s.as_str());
                k = k + 1;
            },
            XmlToken::Skip => {
                k = k + 1;
            },
            XmlToken::End => {
                return None;
            },
            _ => {
                match build_element(t, k) {
                    Some((c, j)) => {
                        if j <= k {
                            return None;
                        }
                        proof {
                            assert(kids@.push(c).drop_last() =~= kids@);
                        }
                        kids.push(c);
                        k = j;
                    },
                    None => {
                        return None;
                    },
                }
            },
        }
    }
    None
}

/// The element tree that a token sequence spells.
pub fn build_document(t: &Vec<XmlToken>) -> (r: Option<XmlElement>)
    ensures
        match parse_document(t@) {
            Some(root) => r matches Some(e) && e.node() == root,
            None => r is None,
        },
{
    let i = skip_tokens(t, 0);
    match build_element(t, i) {
        Some((root, j)) => {
            let k = skip_tokens(t, j);
            if k < t.len() {
                match &t[k] {
                    XmlToken::End => Some(root),
                    _ => None,
                }
            } else {
                None
            }
        },
        None => None,
    }
}

/// The index just past the end token of `s`, reading from the `k`-th event
/// on, if every event up to the end reads without error and the end comes
/// within `|s| + 1` events (every other event takes at least one character).
pub open spec fn token_end(s: Seq<char>, k: nat) -> Option<nat>
    decreases s.len() + 1 - k,
{
    if k > s.len() {
        None
    } else {
        match xml_event(s, k) {
            None => None,
            Some(XmlToken::End) => Some(k + 1),
            Some(_) => token_end(s, k + 1),
        }
    }
}

/// The tokens of `s`, up to and including the end, if they read.
pub open spec fn xml_tokens(s: Seq<char>) -> Option<Seq<XmlToken>> {
    match token_end(s, 0) {
        Some(n) => Some(Seq::new(n, |k: int| xml_event(s, k as nat)->Some_0)),
        None => None,
    }
}

/// The element tree of the XML text `s`, if it has one.
pub open spec fn xml_document(s: Seq<char>) -> Option<XmlNode> {
    match xml_tokens(s) {
        Some(t) => parse_document(t),
        None => None,
    }
}

/// Why XML text could not be read as an element tree.
#[derive(Debug)]
pub enum XmlError {
    /// The XML reader refused the text.
    Syntax(quick_xml::Error),
    /// The text is not one root element with properly nested children.
    Malformed,
}

/// Reads the tokens of `s`, up to and including the end.
pub fn read_tokens(s: &str) -> (r: Result<Vec<XmlToken>, XmlError>)
    ensures
        r is Ok <==> xml_tokens(s@) is Some,
        r matches Ok(v) ==> v@ == xml_tokens(s@)->Some_0,
{
    let mut tokens = XmlTokens::new(s);
    let n = s.unicode_len();
    let mut out: Vec<XmlToken> = Vec::new();
    let mut k: usize = 0;
    loop
        invariant
            n == s@.len(),
            k <= n,
            tokens.source() == s@,
            tokens.position() == k,
            out@ == Seq::new(k as nat, |j: int| xml_event(s@, j as nat)->Some_0),
            token_end(s@, 0) == token_end(s@, k as nat),
            forall|j: int| 0 <= j < k ==> (#[trigger] xml_event(s@, j as nat)) is Some,
        decreases n - k,
    {
        match next_xml_token(&mut tokens) {
            Ok(tok) => {
                let done = match &tok {
                    XmlToken::End => true,
                    _ => false,
                };
                out.push(tok);
                proof {
                    assert(out@ =~= Seq::new((k + 1) as nat, |j: int| xml_event(s@, j as nat)->Some_0));
                }
                if done {
                    return Ok(out);
                }
            },
            Err(e) => {
                return Err(XmlError::Syntax(e));
            },
        }
        if k == n {
            return Err(XmlError::Malformed);
        }
        k = k + 1;
    }
}

/// Reads XML text as an element tree.
pub fn parse_xml(s: &str) -> (r: Result<XmlElement, XmlError>)
    ensures
        r is Ok <==> xml_document(s@) is Some,
        r matches Ok(e) ==> xml_document(s@) == Some(e.node()),
{
    let tokens = read_tokens(s)?;
    match build_document(&tokens) {
        Some(root) => Ok(root),
        None => Err(XmlError::Malformed),
    }
}

} // verus!
