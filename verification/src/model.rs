//! The mathematical model of serialization: what byte stream a tree turns
//! into. The executable serializer is proved to produce exactly the output
//! these functions describe.

use vstd::prelude::*;

use crate::consts::spec_key_xmi_id;
use crate::consts::spec_key_xmi_type;
use crate::consts::spec_key_xmi_version;
use crate::consts::spec_key_xsi_type;
use crate::consts::spec_local_id;
use crate::consts::spec_local_type;
use crate::consts::spec_local_version;
use crate::consts::spec_tag_bodies;
use crate::consts::spec_tag_semantic_resources;
use crate::consts::spec_xmi_uri;
use crate::consts::spec_xmlns;
use crate::consts::spec_xsi_uri;
use crate::escape::EscapeContext;
use crate::escape::escape_byte;
use crate::escape::escape_seq;
use crate::names::merge_scope;
use crate::names::parse_name;
use crate::names::resolve_uri;
use crate::names::sort_scope;
use crate::names::has_uri;
use crate::output::WState;
use crate::output::sp_linebreak;
use crate::output::sp_raw;
use crate::output::st_init;
use crate::tree::AttrV;
use crate::tree::Element;
use crate::tree::Node;
use crate::tree::NsPairV;
use crate::tree::SerializeError;
use crate::tree::Tree;
use crate::tree::attrs_view;
use crate::tree::scope_view;

verus! {

/// The rendered form of a resolved name: `alias:local`, or the bare local
/// name when there is no alias or the alias is the default (empty) one.
pub open spec fn qname_bytes(alias: Option<Seq<u8>>, local: Seq<u8>) -> Seq<u8> {
    match alias {
        Option::Some(a) => if a.len() == 0 {
            local
        } else {
            a + seq![58u8] + local
        },
        Option::None => local,
    }
}

/// Resolves a parsed name against the in-scope alias map; a namespace URI
/// with no binding is an error.
pub open spec fn resolve_name(scope: Seq<NsPairV>, ns: Option<Seq<u8>>, local: Seq<u8>) -> Result<
    (Option<Seq<u8>>, Seq<u8>),
    SerializeError,
> {
    match ns {
        Option::None => Result::Ok((Option::None, local)),
        Option::Some(u) => match resolve_uri(scope, u) {
            Option::None => Result::Err(SerializeError::NamespaceResolutionError),
            Option::Some(a) => Result::Ok((Option::Some(a), local)),
        },
    }
}

/// The separator before an attribute: a single space, or a line break with
/// two extra indent levels when the line is full or a break is forced.
pub open spec fn sp_sep(st: WState, indent: nat, llen: nat, force: bool) -> WState {
    if force || st.pos > llen {
        sp_linebreak(st, indent + 2)
    } else {
        sp_raw(st, seq![32u8])
    }
}

/// One attribute: `name="value"` with the value escaped for the attribute
/// context.
pub open spec fn sp_attr(st: WState, alias: Option<Seq<u8>>, local: Seq<u8>, value: Seq<u8>) -> WState {
    let st1 = sp_raw(st, qname_bytes(alias, local));
    let st2 = sp_raw(st1, seq![61u8, 34u8]);
    let st3 = sp_raw(st2, escape_seq(EscapeContext::Attribute, value));
    sp_raw(st3, seq![34u8])
}

/// Multiline content: each byte is escaped for its context, except line
/// feeds, which become structural line breaks at indentation level zero.
pub open spec fn sp_multiline(st: WState, s: Seq<u8>, ctx: EscapeContext) -> WState
    decreases s.len(),
{
    if s.len() == 0 {
        st
    } else if s[0] == 10 {
        sp_multiline(sp_linebreak(st, 0), s.drop_first(), ctx)
    } else {
        sp_multiline(sp_raw(st, escape_byte(ctx, s[0])), s.drop_first(), ctx)
    }
}

/// A comment: `<!--` text `-->` with the text escaped for the comment
/// context.
pub open spec fn sp_comment(st: WState, text: Seq<u8>) -> WState {
    sp_raw(
        sp_multiline(sp_raw(st, seq![60u8, 33u8, 45u8, 45u8]), text, EscapeContext::Comment),
        seq![45u8, 45u8, 62u8],
    )
}

/// The first value in `attrs` stored under `key`.
pub open spec fn lookup_attr(attrs: Seq<AttrV>, key: Seq<u8>) -> Option<Seq<u8>>
    decreases attrs.len(),
{
    if attrs.len() == 0 {
        Option::None
    } else if attrs[0].key == key {
        Option::Some(attrs[0].value)
    } else {
        lookup_attr(attrs.drop_first(), key)
    }
}

/// Emits one pinned attribute if it is present: its key is looked up
/// verbatim, its namespace URI must resolve in the scope, and the separator
/// is chosen by the line-wrap rule.
pub open spec fn sp_pinned_one(
    st: WState,
    attrs: Seq<AttrV>,
    key: Seq<u8>,
    uri: Seq<u8>,
    local: Seq<u8>,
    scope: Seq<NsPairV>,
    indent: nat,
    llen: nat,
) -> Result<WState, SerializeError> {
    match lookup_attr(attrs, key) {
        Option::None => Result::Ok(st),
        Option::Some(v) => match resolve_uri(scope, uri) {
            Option::None => Result::Err(SerializeError::NamespaceResolutionError),
            Option::Some(a) => Result::Ok(
                sp_attr(sp_sep(st, indent, llen, false), Option::Some(a), local, v),
            ),
        },
    }
}

/// Emits the pinned attributes in their fixed order: the XMI version, type
/// and id attributes, then the schema-instance type attribute.
pub open spec fn sp_pinned(
    st: WState,
    attrs: Seq<AttrV>,
    scope: Seq<NsPairV>,
    indent: nat,
    llen: nat,
) -> Result<WState, SerializeError> {
    match sp_pinned_one(
        st,
        attrs,
        spec_key_xmi_version(),
        spec_xmi_uri(),
        spec_local_version(),
        scope,
        indent,
        llen,
    ) {
        Result::Err(e) => Result::Err(e),
        Result::Ok(st1) => match sp_pinned_one(
            st1,
            attrs,
            spec_key_xmi_type(),
            spec_xmi_uri(),
            spec_local_type(),
            scope,
            indent,
            llen,
        ) {
            Result::Err(e) => Result::Err(e),
            Result::Ok(st2) => match sp_pinned_one(
                st2,
                attrs,
                spec_key_xmi_id(),
                spec_xmi_uri(),
                spec_local_id(),
                scope,
                indent,
                llen,
            ) {
                Result::Err(e) => Result::Err(e),
                Result::Ok(st3) => sp_pinned_one(
                    st3,
                    attrs,
                    spec_key_xsi_type(),
                    spec_xsi_uri(),
                    spec_local_type(),
                    scope,
                    indent,
                    llen,
                ),
            },
        },
    }
}

/// The alias declarations emitted at a node: the bindings of its sorted
/// scope whose URI the parent scope does not already bind, in sorted order.
pub open spec fn emitted_decls(scope: Seq<NsPairV>, parent: Seq<NsPairV>) -> Seq<NsPairV>
    decreases scope.len(),
{
    if scope.len() == 0 {
        Seq::empty()
    } else {
        emitted_decls(scope.drop_last(), parent) + if has_uri(parent, scope.last().uri) {
            Seq::<NsPairV>::empty()
        } else {
            seq![scope.last()]
        }
    }
}

/// The attribute name that declares an alias: `xmlns:alias`, or plain
/// `xmlns` for the default (empty) alias.
pub open spec fn xmlns_name(alias: Seq<u8>) -> (Option<Seq<u8>>, Seq<u8>) {
    if alias.len() == 0 {
        (Option::None, spec_xmlns())
    } else {
        (Option::Some(spec_xmlns()), alias)
    }
}

/// Emits a list of alias declarations as attributes.
pub open spec fn sp_nsdecls(st: WState, decls: Seq<NsPairV>, indent: nat, llen: nat) -> WState
    decreases decls.len(),
{
    if decls.len() == 0 {
        st
    } else {
        let q = xmlns_name(decls[0].alias);
        sp_nsdecls(
            sp_attr(sp_sep(st, indent, llen, false), q.0, q.1, decls[0].uri),
            decls.drop_first(),
            indent,
            llen,
        )
    }
}

/// Whether `k` is one of the four pinned attribute keys.
pub open spec fn is_pinned_key(k: Seq<u8>) -> bool {
    k == spec_key_xmi_version() || k == spec_key_xmi_type() || k == spec_key_xmi_id() || k
        == spec_key_xsi_type()
}

/// Emits the non-pinned attributes in declaration order. An unprefixed
/// attribute named `id` on a non-root element is always preceded by a forced
/// line break.
pub open spec fn sp_rest_attrs(
    st: WState,
    attrs: Seq<AttrV>,
    scope: Seq<NsPairV>,
    indent: nat,
    llen: nat,
    is_root: bool,
) -> Result<WState, SerializeError>
    decreases attrs.len(),
{
    if attrs.len() == 0 {
        Result::Ok(st)
    } else if is_pinned_key(attrs[0].key) {
        sp_rest_attrs(st, attrs.drop_first(), scope, indent, llen, is_root)
    } else {
        match parse_name(attrs[0].key) {
            Result::Err(e) => Result::Err(e),
            Result::Ok(q) => match resolve_name(scope, q.0, q.1) {
                Result::Err(e) => Result::Err(e),
                Result::Ok(r) => {
                    let force = !is_root && q.0 is None && q.1 == spec_local_id();
                    let st1 = sp_attr(sp_sep(st, indent, llen, force), r.0, r.1, attrs[0].value);
                    sp_rest_attrs(st1, attrs.drop_first(), scope, indent, llen, is_root)
                },
            },
        }
    }
}

/// Whether an element may be written in self-closing form: no text, no
/// children, and its resolved tag is not one of the always-expanded tags.
pub open spec fn self_closing(e: Element, alias: Option<Seq<u8>>, local: Seq<u8>) -> bool {
    e.text is None && e.children@.len() == 0 && !(alias is None && (local == spec_tag_bodies()
        || local == spec_tag_semantic_resources()))
}

/// Emits the children of an element in order. `trailing` says whether the
/// preceding content was text; a child is put on a fresh, indented line only
/// when it was not. Returns the state and whether the last content was text.
pub open spec fn sp_children(
    st: WState,
    children: Seq<Node>,
    indent: nat,
    scope: Seq<NsPairV>,
    llen: nat,
    trailing: bool,
) -> Result<(WState, bool), SerializeError>
    decreases children,
{
    if children.len() == 0 {
        Result::Ok((st, trailing))
    } else {
        let st0 = if trailing {
            st
        } else {
            sp_linebreak(st, indent + 1)
        };
        match children[0] {
            Node::Other => Result::Err(SerializeError::UnsupportedNodeKind),
            Node::Comment(c) => {
                let st1 = sp_comment(st0, c.text@);
                let st2 = match c.tail {
                    Option::Some(t) => sp_multiline(st1, t@, EscapeContext::Text),
                    Option::None => st1,
                };
                sp_children(st2, children.drop_first(), indent, scope, llen, c.tail is Some)
            },
            Node::Element(el) => match sp_element(st0, el, indent + 1, scope, llen, false) {
                Result::Err(e) => Result::Err(e),
                Result::Ok(st1) => {
                    let st2 = match el.tail {
                        Option::Some(t) => sp_multiline(st1, t@, EscapeContext::Text),
                        Option::None => st1,
                    };
                    sp_children(st2, children.drop_first(), indent, scope, llen, el.tail is Some)
                },
            },
        }
    }
}

/// The in-scope alias map of an element: the parent scope with the element's
/// own declarations merged in, in sorted order.
pub open spec fn element_scope(e: Element, parent: Seq<NsPairV>) -> Seq<NsPairV> {
    sort_scope(merge_scope(parent, scope_view(e.nsmap@)))
}

/// Emits one element: tag, pinned attributes, new alias declarations,
/// remaining attributes, then either the self-closing form or text, children
/// and the closing tag.
pub open spec fn sp_element(
    st: WState,
    e: Element,
    indent: nat,
    parent_scope: Seq<NsPairV>,
    llen: nat,
    is_root: bool,
) -> Result<WState, SerializeError>
    decreases e,
{
    let scope = element_scope(e, parent_scope);
    match parse_name(e.tag@) {
        Result::Err(er) => Result::Err(er),
        Result::Ok(q) => match resolve_name(scope, q.0, q.1) {
            Result::Err(er) => Result::Err(er),
            Result::Ok(r) => {
                let st1 = sp_raw(st, seq![60u8] + qname_bytes(r.0, r.1));
                match sp_pinned(st1, attrs_view(e.attributes@), scope, indent, llen) {
                    Result::Err(er) => Result::Err(er),
                    Result::Ok(st2) => {
                        let st3 = sp_nsdecls(
                            st2,
                            emitted_decls(scope, parent_scope),
                            indent,
                            llen,
                        );
                        match sp_rest_attrs(
                            st3,
                            attrs_view(e.attributes@),
                            scope,
                            indent,
                            llen,
                            is_root,
                        ) {
                            Result::Err(er) => Result::Err(er),
                            Result::Ok(st4) => if self_closing(e, r.0, r.1) {
                                Result::Ok(sp_raw(st4, seq![47u8, 62u8]))
                            } else {
                                let st5 = sp_raw(st4, seq![62u8]);
                                let st6 = match e.text {
                                    Option::Some(t) => sp_multiline(st5, t@, EscapeContext::Text),
                                    Option::None => st5,
                                };
                                match sp_children(
                                    st6,
                                    e.children@,
                                    indent,
                                    scope,
                                    llen,
                                    e.text is Some,
                                ) {
                                    Result::Err(er) => Result::Err(er),
                                    Result::Ok(p) => {
                                        let st8 = if e.children@.len() > 0 && !p.1 {
                                            sp_linebreak(p.0, indent)
                                        } else {
                                            p.0
                                        };
                                        Result::Ok(
                                            sp_raw(
                                                st8,
                                                seq![60u8, 47u8] + qname_bytes(r.0, r.1) + seq![
                                                    62u8,
                                                ],
                                            ),
                                        )
                                    },
                                }
                            },
                        }
                    },
                }
            },
        },
    }
}

/// Whether a node has no tail, or only an empty one.
pub open spec fn tail_empty(n: Node) -> bool {
    match n {
        Node::Element(e) => match e.tail {
            Option::Some(t) => t@.len() == 0,
            Option::None => true,
        },
        Node::Comment(c) => match c.tail {
            Option::Some(t) => t@.len() == 0,
            Option::None => true,
        },
        Node::Other => true,
    }
}

/// Emits the sibling comments around the root. Every sibling must be a
/// comment without a tail. Siblings before the root are each followed by a
/// line break; siblings after it are each preceded by one.
pub open spec fn sp_top_comments(st: WState, nodes: Seq<Node>, before: bool) -> Result<
    WState,
    SerializeError,
>
    decreases nodes.len(),
{
    if nodes.len() == 0 {
        Result::Ok(st)
    } else {
        match nodes[0] {
            Node::Comment(c) => if !tail_empty(nodes[0]) {
                Result::Err(SerializeError::FormatError)
            } else {
                let st1 = if before {
                    sp_linebreak(sp_comment(st, c.text@), 0)
                } else {
                    sp_comment(sp_linebreak(st, 0), c.text@)
                };
                sp_top_comments(st1, nodes.drop_first(), before)
            },
            _ => Result::Err(SerializeError::FormatError),
        }
    }
}

/// Serializes a whole tree into an output state: the root must be an
/// element; when siblings are included they must be tail-less comments and
/// the root itself must have no tail.
pub open spec fn sp_feed(st: WState, t: Tree, llen: nat, siblings: bool) -> Result<
    WState,
    SerializeError,
> {
    match t.root {
        Node::Element(root) => if siblings {
            match sp_top_comments(st, t.preceding@, true) {
                Result::Err(e) => Result::Err(e),
                Result::Ok(st1) => if !tail_empty(t.root) {
                    Result::Err(SerializeError::FormatError)
                } else {
                    match sp_element(st1, root, 0, Seq::empty(), llen, true) {
                        Result::Err(e) => Result::Err(e),
                        Result::Ok(st2) => sp_top_comments(st2, t.following@, false),
                    }
                },
            }
        } else {
            sp_element(st, root, 0, Seq::empty(), llen, true)
        },
        _ => Result::Err(SerializeError::TypeMismatch),
    }
}

/// The byte stream a tree serializes to, or the error that aborts the call.
/// A final line break always ends the output of a successful call.
pub open spec fn sp_serialize(t: Tree, llen: nat, siblings: bool) -> Result<Seq<u8>, SerializeError> {
    match sp_feed(st_init(), t, llen, siblings) {
        Result::Err(e) => Result::Err(e),
        Result::Ok(st) => Result::Ok(sp_linebreak(st, 0).out),
    }
}

/// The nesting depth of a node: one for the node itself plus the depth of
/// its deepest child.
pub open spec fn node_depth(n: Node) -> nat
    decreases n,
{
    match n {
        Node::Element(e) => 1 + children_depth(e.children@),
        _ => 1,
    }
}

/// The greatest nesting depth among a sequence of nodes.
pub open spec fn children_depth(s: Seq<Node>) -> nat
    decreases s,
{
    if s.len() == 0 {
        0
    } else if node_depth(s[0]) > children_depth(s.drop_first()) {
        node_depth(s[0])
    } else {
        children_depth(s.drop_first())
    }
}

/// Every node in a sequence is at most as deep as the sequence's depth.
pub proof fn lemma_children_depth_bound(s: Seq<Node>, k: int)
    requires
        0 <= k < s.len(),
    ensures
        node_depth(s[k]) <= children_depth(s),
    decreases s.len(),
{
    if k > 0 {
        lemma_children_depth_bound(s.drop_first(), k - 1);
    }
}

} // verus!
