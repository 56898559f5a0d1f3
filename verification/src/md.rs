//! The markdown document model the note extractor reads: a tree of the
//! node kinds that matter to it (links, headings, plain text), every other
//! construct folded into `Other`. The markdown crate parses the text; the
//! tree it yields is converted node for node into this shape, and all
//! reading of the tree is done here, in verified code.
use vstd::prelude::*;

verus! {

/// The markdown parser's own node type, declared so it can stand in a
/// signature; nothing is read of it in verified code.
#[verifier::external_type_specification]
#[verifier::external_body]
pub struct ExMdastNode(markdown::mdast::Node);

/// The parsed form of a markdown document, as the extractor sees it.
pub enum MdNode {
    Link { url: String, children: Vec<MdNode> },
    Heading { depth: u8, children: Vec<MdNode> },
    Text { value: String },
    Other { children: Vec<MdNode> },
}

/// The mathematical value of an `MdNode` tree.
pub enum MdTree {
    Link { url: Seq<char>, children: Seq<MdTree> },
    Heading { depth: u8, children: Seq<MdTree> },
    Text { value: Seq<char> },
    Other { children: Seq<MdTree> },
}

pub open spec fn md_view(n: MdNode) -> MdTree
    decreases n,
{
    match n {
        MdNode::Link { url, children } => MdTree::Link {
            url: url@,
            children: md_views(children@, 0),
        },
        MdNode::Heading { depth, children } => MdTree::Heading {
            depth,
            children: md_views(children@, 0),
        },
        MdNode::Text { value } => MdTree::Text { value: value@ },
        MdNode::Other { children } => MdTree::Other { children: md_views(children@, 0) },
    }
}

pub open spec fn md_views(s: Seq<MdNode>, i: int) -> Seq<MdTree>
    decreases s, s.len() - i,
{
    if i < 0 || i >= s.len() {
        Seq::empty()
    } else {
        seq![md_view(s[i])] + md_views(s, i + 1)
    }
}

/// How `md_views` lines up with the nodes it views.
pub proof fn lemma_md_views(s: Seq<MdNode>, i: int)
    requires
        0 <= i <= s.len(),
    ensures
        md_views(s, i).len() == s.len() - i,
        forall|j: int| 0 <= j < s.len() - i ==> #[trigger] md_views(s, i)[j] == md_view(s[i + j]),
    decreases s.len() - i,
{
    if i < s.len() {
        lemma_md_views(s, i + 1);
    }
}

/// What the markdown parser yields for a text: a function of the text
/// alone; `None` stands for a text the parser rejects.
pub uninterp spec fn md_tree_of(content: Seq<char>) -> Option<MdTree>;

/// Relies on markdown::to_mdast with default options: parsing is a function
/// of the text alone, and the tree that comes back is converted node for
/// node by `convert_node`.
#[verifier::external_body]
pub fn parse_markdown(content: &str) -> (r: Option<MdNode>)
    ensures
        (match (r, md_tree_of(content@)) {
            (Some(n), Some(t)) => md_view(n) == t,
            (None, None) => true,
            _ => false,
        }),
{
    let options = markdown::ParseOptions::default();
    match markdown::to_mdast(content, &options) {
        Ok(ast) => Some(convert_node(&ast)),
        Err(_) => None,
    }
}

/// Relies on markdown::mdast::Node::children: converts the parser's tree
/// into the library's, keeping the url of a link, the depth of a heading
/// and the value of a text, and folding every other kind into `Other` with
/// its children.
#[verifier::external_body]
fn convert_node(n: &markdown::mdast::Node) -> MdNode {
    let children: Vec<MdNode> = match n.children() {
        Some(c) => c.iter().map(convert_node).collect(),
        None => Vec::new(),
    };
    match n {
        markdown::mdast::Node::Link(l) => MdNode::Link { url: l.url.clone(), children },
        markdown::mdast::Node::Heading(h) => MdNode::Heading { depth: h.depth, children },
        markdown::mdast::Node::Text(t) => MdNode::Text { value: t.value.clone() },
        _ => MdNode::Other { children },
    }
}

} // verus!
