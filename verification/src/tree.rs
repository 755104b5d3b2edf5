//! The document tree that the serializer walks, and the errors it reports.
//!
//! Trees are supplied by an external provider and are read-only here. All
//! textual content (tag names, attribute keys and values, namespace aliases
//! and URIs, text and tails) is carried as UTF-8 bytes. Tag names and
//! attribute keys may use the braced form `{uri}local` to qualify the local
//! name with a namespace URI.

use vstd::prelude::*;

verus! {

/// One attribute of an element: a key (possibly `{uri}local`-qualified) and a
/// value, both UTF-8 bytes.
pub struct Attribute {
    /// Attribute name, optionally qualified as `{uri}local`.
    pub key: Vec<u8>,
    /// Attribute value.
    pub value: Vec<u8>,
}

/// The mathematical value of an attribute: its key and value byte sequences.
#[verifier::ext_equal]
pub ghost struct AttrV {
    /// Attribute name.
    pub key: Seq<u8>,
    /// Attribute value.
    pub value: Seq<u8>,
}

impl View for Attribute {
    type V = AttrV;

    open spec fn view(&self) -> AttrV {
        AttrV { key: self.key@, value: self.value@ }
    }
}

/// The mathematical value of a namespace binding.
#[verifier::ext_equal]
pub ghost struct NsPairV {
    /// The short prefix.
    pub alias: Seq<u8>,
    /// The namespace URI the prefix stands for.
    pub uri: Seq<u8>,
}

impl View for NsBinding {
    type V = NsPairV;

    open spec fn view(&self) -> NsPairV {
        NsPairV { alias: self.alias@, uri: self.uri@ }
    }
}

/// The mathematical values of a sequence of attributes.
pub open spec fn attrs_view(s: Seq<Attribute>) -> Seq<AttrV> {
    s.map_values(|a: Attribute| a@)
}

/// The mathematical values of a sequence of namespace bindings.
pub open spec fn scope_view(s: Seq<NsBinding>) -> Seq<NsPairV> {
    s.map_values(|b: NsBinding| b@)
}

/// One namespace-alias binding: `alias` is bound to `uri`. An empty alias
/// stands for the default namespace and is declared as plain `xmlns`.
pub struct NsBinding {
    /// The short prefix.
    pub alias: Vec<u8>,
    /// The namespace URI the prefix stands for.
    pub uri: Vec<u8>,
}

/// An element node: tag, attributes in declaration order, the namespace
/// aliases this node newly declares, its children, optional leading text and
/// optional trailing text (the tail belongs to the parent's content stream).
pub struct Element {
    /// Tag name, optionally qualified as `{uri}local`.
    pub tag: Vec<u8>,
    /// Attributes in their declaration order.
    pub attributes: Vec<Attribute>,
    /// Namespace aliases declared at this node, inherited by descendants.
    pub nsmap: Vec<NsBinding>,
    /// Child nodes in document order.
    pub children: Vec<Node>,
    /// Text before the first child.
    pub text: Option<Vec<u8>>,
    /// Text following this node, before its next sibling.
    pub tail: Option<Vec<u8>>,
}

/// A comment node with its text and optional tail.
pub struct Comment {
    /// The comment's textual content.
    pub text: Vec<u8>,
    /// Text following this node, before its next sibling.
    pub tail: Option<Vec<u8>>,
}

/// One node of the document tree. `Other` stands for any node kind the
/// serializer does not support (processing instructions, entities, ...).
pub enum Node {
    /// An element with attributes and children.
    Element(Element),
    /// A comment.
    Comment(Comment),
    /// Any unsupported node kind.
    Other,
}

/// A tree to serialize: the root node together with its siblings, which are
/// only consulted when sibling serialization is requested.
pub struct Tree {
    /// Siblings before the root, in document order.
    pub preceding: Vec<Node>,
    /// The root node; it must be an element.
    pub root: Node,
    /// Siblings after the root, in document order.
    pub following: Vec<Node>,
}

/// Why a serialization call was aborted. Trees are expected to come from a
/// provider that has already validated them; any violation found here is
/// reported as an error rather than tolerated.
#[derive(Clone, Copy, Debug, PartialEq, Eq, Structural)]
pub enum SerializeError {
    /// The root node is not an element.
    TypeMismatch,
    /// Text content outside the serialized subtree, or a non-comment sibling.
    FormatError,
    /// A namespace URI is not resolvable through the in-scope alias map.
    NamespaceResolutionError,
    /// A name is empty, opens a `{` without a closing `}`, or names an empty
    /// namespace URI.
    MalformedName,
    /// A child node is neither an element nor a comment.
    UnsupportedNodeKind,
}

} // verus!
