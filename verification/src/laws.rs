//! The general properties the serializer guarantees, each stated and proved
//! over the model that the executable functions are verified against.

use vstd::prelude::*;

use crate::model::element_scope;
use crate::model::emitted_decls;
use crate::model::qname_bytes;
use crate::model::resolve_name;
use crate::model::self_closing;
use crate::model::sp_element;
use crate::model::is_pinned_key;
use crate::model::sp_attr;
use crate::model::sp_rest_attrs;
use crate::model::sp_serialize;
use crate::names::has_uri;
use crate::names::parse_name;
use crate::consts::spec_local_id;
use crate::output::LINESEP;
use crate::output::WState;
use crate::output::indent_bytes;
use crate::output::indent_cols;
use crate::output::sp_linebreak;
use crate::tree::AttrV;
use crate::tree::Element;
use crate::tree::NsPairV;
use crate::tree::SerializeError;
use crate::tree::Tree;

verus! {

/// Determinism: the output is a function of the tree and the call arguments
/// alone, so two results of calls with identical arguments are byte-equal.
pub proof fn lemma_serialize_deterministic(
    t: Tree,
    llen: nat,
    siblings: bool,
    r1: Result<Seq<u8>, SerializeError>,
    r2: Result<Seq<u8>, SerializeError>,
)
    requires
        r1 == sp_serialize(t, llen, siblings),
        r2 == sp_serialize(t, llen, siblings),
    ensures
        r1 == r2,
{
}

/// Namespace minimality: an alias declaration is emitted at a node exactly
/// when it stands in the node's sorted scope and no ancestor's scope already
/// binds its URI.
pub proof fn lemma_namespace_minimality(scope: Seq<NsPairV>, parent: Seq<NsPairV>, p: NsPairV)
    ensures
        emitted_decls(scope, parent).contains(p) <==> scope.contains(p) && !has_uri(
            parent,
            p.uri,
        ),
    decreases scope.len(),
{
    broadcast use vstd::seq_lib::group_seq_properties;

    if scope.len() == 0 {
    } else {
        lemma_namespace_minimality(scope.drop_last(), parent, p);
        assert(scope.contains(p) <==> scope.drop_last().contains(p) || scope.last() == p) by {
            assert(scope =~= scope.drop_last().push(scope.last()));
        }
        let tail: Seq<NsPairV> = if has_uri(parent, scope.last().uri) {
            Seq::empty()
        } else {
            seq![scope.last()]
        };
        assert(emitted_decls(scope, parent) =~= emitted_decls(scope.drop_last(), parent) + tail);
        assert(emitted_decls(scope, parent).contains(p) <==> emitted_decls(
            scope.drop_last(),
            parent,
        ).contains(p) || tail.contains(p));
    }
}

/// Indentation: a line break inserts the separator byte and then exactly two
/// space characters per nesting level, and resets the column to their count.
pub proof fn lemma_indentation(st: WState, indent: nat)
    ensures
        sp_linebreak(st, indent).out == st.out + seq![LINESEP] + indent_bytes(indent),
        indent_bytes(indent).len() == 2 * indent,
        forall|k: int| 0 <= k < indent_bytes(indent).len() ==> indent_bytes(indent)[k] == 32u8,
        sp_linebreak(st, indent).pos == indent_cols(indent),
{
}

/// Forced break: on a non-root element, an attribute whose key is literally
/// `id` (no namespace) is emitted right after a line break, whatever the
/// current column is.
pub proof fn lemma_forced_break(
    st: WState,
    attrs: Seq<AttrV>,
    scope: Seq<NsPairV>,
    indent: nat,
    llen: nat,
)
    requires
        attrs.len() > 0,
        attrs[0].key == spec_local_id(),
    ensures
        sp_rest_attrs(st, attrs, scope, indent, llen, false) == sp_rest_attrs(
            sp_attr(sp_linebreak(st, indent + 2), Option::None, spec_local_id(), attrs[0].value),
            attrs.drop_first(),
            scope,
            indent,
            llen,
            false,
        ),
{
    assert(!is_pinned_key(attrs[0].key)) by {
        assert(spec_local_id().len() == 2);
    }
    assert(parse_name(attrs[0].key) == Result::<(Option<Seq<u8>>, Seq<u8>), SerializeError>::Ok(
        (Option::None, spec_local_id()),
    ));
}

/// Self-closing correctness: an element whose name parses and resolves, and
/// whose local name is non-empty and does not end in a slash, serializes to
/// output ending in `/>` exactly when it has no text, no children and its
/// resolved tag is not one of the always-expanded tags.
pub proof fn lemma_self_closing(
    st: WState,
    e: Element,
    indent: nat,
    parent: Seq<NsPairV>,
    llen: nat,
    is_root: bool,
    ns: Option<Seq<u8>>,
    alias: Option<Seq<u8>>,
    local: Seq<u8>,
    st1: WState,
)
    requires
        parse_name(e.tag@) == Result::<(Option<Seq<u8>>, Seq<u8>), SerializeError>::Ok(
            (ns, local),
        ),
        resolve_name(element_scope(e, parent), ns, local) == Result::<
            (Option<Seq<u8>>, Seq<u8>),
            SerializeError,
        >::Ok((alias, local)),
        local.len() > 0,
        local.last() != 47,
        sp_element(st, e, indent, parent, llen, is_root) == Result::<
            WState,
            SerializeError,
        >::Ok(st1),
    ensures
        self_closing(e, alias, local) <==> (st1.out.len() >= 2 && st1.out.subrange(
            st1.out.len() - 2,
            st1.out.len() as int,
        ) == seq![47u8, 62u8]),
{
    let qn = qname_bytes(alias, local);
    assert(qn.len() > 0 && qn.last() == local.last()) by {
        match alias {
            Option::Some(a) => {
                if a.len() > 0 {
                    assert(qn =~= a + seq![58u8] + local);
                    assert(qn.last() == local.last());
                }
            },
            Option::None => {},
        }
    }
    if self_closing(e, alias, local) {
        assert(st1.out.subrange(st1.out.len() - 2, st1.out.len() as int) =~= seq![47u8, 62u8]);
    } else {
        let closing = seq![60u8, 47u8] + qn + seq![62u8];
        assert(closing.len() >= 4);
        assert(closing[closing.len() - 2] == qn.last());
        assert(st1.out[st1.out.len() - 2] == qn.last());
        assert(st1.out.len() >= 2 ==> st1.out.subrange(st1.out.len() - 2, st1.out.len() as int)
            != seq![47u8, 62u8]) by {
            if st1.out.len() >= 2 {
                assert(st1.out.subrange(st1.out.len() - 2, st1.out.len() as int)[0] == qn.last());
            }
        }
    }
}

} // verus!
