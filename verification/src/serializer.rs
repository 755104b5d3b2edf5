//! The executable serializer. It walks the tree, writes into a bounded
//! in-memory buffer and is proved to produce exactly the byte stream that the
//! model in `model` describes.

use vstd::prelude::*;

use crate::bytes_eq;
use crate::consts::key_xmi_id;
use crate::consts::key_xmi_type;
use crate::consts::key_xmi_version;
use crate::consts::key_xsi_type;
use crate::consts::local_id;
use crate::consts::local_type;
use crate::consts::local_version;
use crate::consts::tag_bodies;
use crate::consts::tag_semantic_resources;
use crate::consts::xmi_uri;
use crate::consts::xmlns;
use crate::consts::xsi_uri;
use crate::copy_bytes;
use crate::escape::EscapeContext;
use crate::escape::escape;
use crate::escape::escape_seq;
use crate::escape::push_escape_byte;
use crate::model::lemma_children_depth_bound;
use crate::model::emitted_decls;
use crate::model::lookup_attr;
use crate::model::node_depth;
use crate::model::qname_bytes;
use crate::model::resolve_name;
use crate::model::self_closing;
use crate::model::sp_attr;
use crate::model::sp_children;
use crate::model::sp_comment;
use crate::model::sp_element;
use crate::model::sp_feed;
use crate::model::sp_multiline;
use crate::model::sp_nsdecls;
use crate::model::sp_pinned;
use crate::model::sp_pinned_one;
use crate::model::sp_rest_attrs;
use crate::model::sp_sep;
use crate::model::sp_serialize;
use crate::model::sp_top_comments;
use crate::model::tail_empty;
use crate::model::xmlns_name;
use crate::model::is_pinned_key;
use crate::names::has_uri_exec;
use crate::names::merge_scope_exec;
use crate::names::merge_scope;
use crate::names::opt_bytes_view;
use crate::names::parse_name_exec;
use crate::names::qname_view;
use crate::names::resolve_uri_exec;
use crate::names::sort_scope;
use crate::names::sort_scope_exec;
use crate::output::CAPACITY;
use crate::output::LINESEP;
use crate::output::WState;
use crate::output::indent_bytes;
use crate::output::indent_cols;
use crate::output::lemma_raw_concat;
use crate::output::sp_linebreak;
use crate::output::sp_raw;
use crate::output::st_init;
use crate::tree::Attribute;
use crate::tree::AttrV;
use crate::tree::Comment;
use crate::tree::Element;
use crate::tree::Node;
use crate::tree::NsBinding;
use crate::tree::NsPairV;
use crate::tree::SerializeError;
use crate::tree::Tree;
use crate::tree::attrs_view;
use crate::tree::scope_view;

verus! {

/// The concatenation of a sequence of byte chunks.
pub open spec fn concat_chunks(cs: Seq<Vec<u8>>) -> Seq<u8> {
    cs.flat_map(|c: Vec<u8>| c@)
}

/// A serialization in progress: the output buffer, the chunks already taken
/// out of it, and the column counter driving line-wrap decisions.
pub struct Serializer {
    buf: Vec<u8>,
    chunks: Vec<Vec<u8>>,
    chunked: bool,
    pos: usize,
    line_length: usize,
}

impl Serializer {
    /// All bytes emitted so far.
    pub closed spec fn out(&self) -> Seq<u8> {
        concat_chunks(self.chunks@) + self.buf@
    }

    /// The abstract output state this serializer is in.
    pub closed spec fn st(&self) -> WState {
        WState { out: self.out(), pos: self.pos as nat }
    }

    /// Whether output is taken out of the buffer in capacity-bounded chunks.
    pub closed spec fn is_chunked(&self) -> bool {
        self.chunked
    }

    /// The column limit beyond which attributes wrap onto fresh lines.
    pub closed spec fn llen(&self) -> nat {
        self.line_length as nat
    }

    /// The buffer invariant: chunks exist only in chunked mode, and in
    /// chunked mode neither the buffer nor any chunk exceeds the capacity.
    pub closed spec fn wf(&self) -> bool {
        &&& (!self.chunked ==> self.chunks@.len() == 0)
        &&& (self.chunked ==> self.buf@.len() <= CAPACITY
            && (forall|i: int| 0 <= i < self.chunks@.len() ==> self.chunks@[i]@.len() <= CAPACITY))
    }

    /// Appends one byte, taking a full buffer out as a chunk first when in
    /// chunked mode.
    fn put_byte(&mut self, b: u8)
        requires
            old(self).wf(),
        ensures
            final(self).wf(),
            final(self).st() == sp_raw(old(self).st(), seq![b]),
            final(self).is_chunked() == old(self).is_chunked(),
            final(self).llen() == old(self).llen(),
    {
        if self.chunked && self.buf.len() == CAPACITY {
            let ghost cs0 = self.chunks@;
            let ghost b0 = self.buf@;
            let mut full: Vec<u8> = Vec::new();
            core::mem::swap(&mut full, &mut self.buf);
            let ghost fullv = full;
            self.chunks.push(full);
            proof {
                cs0.lemma_flat_map_push(|c: Vec<u8>| c@, fullv);
                assert(concat_chunks(self.chunks@) + self.buf@ =~= concat_chunks(cs0) + b0);
            }
        }
        let ghost out0 = self.out();
        self.buf.push(b);
        self.pos = if self.pos < usize::MAX {
            self.pos + 1
        } else {
            usize::MAX
        };
        proof {
            assert(self.out() =~= out0 + seq![b]);
            assert(self.st() =~= sp_raw(old(self).st(), seq![b]));
        }
    }

    /// Appends raw bytes to the output.
    fn emit_raw(&mut self, s: &[u8])
        requires
            old(self).wf(),
        ensures
            final(self).wf(),
            final(self).st() == sp_raw(old(self).st(), s@),
            final(self).is_chunked() == old(self).is_chunked(),
            final(self).llen() == old(self).llen(),
    {
        let mut i: usize = 0;
        proof {
            assert(sp_raw(old(self).st(), s@.take(0)) =~= old(self).st());
        }
        while i < s.len()
            invariant
                0 <= i <= s.len(),
                self.wf(),
                self.st() == sp_raw(old(self).st(), s@.take(i as int)),
                self.is_chunked() == old(self).is_chunked(),
                self.llen() == old(self).llen(),
            decreases s.len() - i,
        {
            self.put_byte(s[i]);
            proof {
                lemma_raw_concat(old(self).st(), s@.take(i as int), seq![s@[i as int]]);
                assert(s@.take(i as int) + seq![s@[i as int]] =~= s@.take(i + 1));
            }
            i += 1;
        }
        proof {
            assert(s@.take(s@.len() as int) =~= s@);
        }
    }

    /// Emits a line break followed by the indentation for `indent` levels and
    /// resets the column.
    fn emit_linebreak(&mut self, indent: usize)
        requires
            old(self).wf(),
        ensures
            final(self).wf(),
            final(self).st() == sp_linebreak(old(self).st(), indent as nat),
            final(self).is_chunked() == old(self).is_chunked(),
            final(self).llen() == old(self).llen(),
    {
        self.put_byte(LINESEP);
        let mut j: usize = 0;
        proof {
            assert(old(self).st().out + seq![LINESEP] + indent_bytes(0) =~= self.st().out);
        }
        while j < indent
            invariant
                0 <= j <= indent,
                self.wf(),
                self.st().out == old(self).st().out + seq![LINESEP] + indent_bytes(j as nat),
                self.is_chunked() == old(self).is_chunked(),
                self.llen() == old(self).llen(),
            decreases indent - j,
        {
            self.put_byte(32);
            self.put_byte(32);
            proof {
                assert(old(self).st().out + seq![LINESEP] + indent_bytes(j as nat) + seq![32u8]
                    + seq![32u8] =~= old(self).st().out + seq![LINESEP] + indent_bytes(
                    (j + 1) as nat,
                ));
            }
            j += 1;
        }
        self.pos = if indent <= usize::MAX / 2 {
            2 * indent
        } else {
            usize::MAX
        };
        proof {
            assert(self.pos as nat == indent_cols(indent as nat));
            assert(self.st() =~= sp_linebreak(old(self).st(), indent as nat));
        }
    }

    /// Emits a byte sequence escaped for the given context.
    fn digest_string(&mut self, s: &[u8], ctx: EscapeContext)
        requires
            old(self).wf(),
        ensures
            final(self).wf(),
            final(self).st() == sp_raw(old(self).st(), escape_seq(ctx, s@)),
            final(self).is_chunked() == old(self).is_chunked(),
            final(self).llen() == old(self).llen(),
    {
        let e = escape(ctx, s);
        self.emit_raw(e.as_slice());
    }

    /// Emits multiline content: bytes escaped for the context, line feeds as
    /// structural line breaks.
    fn digest_multiline(&mut self, s: &[u8], ctx: EscapeContext)
        requires
            old(self).wf(),
        ensures
            final(self).wf(),
            final(self).st() == sp_multiline(old(self).st(), s@, ctx),
            final(self).is_chunked() == old(self).is_chunked(),
            final(self).llen() == old(self).llen(),
    {
        let mut i: usize = 0;
        proof {
            assert(s@.skip(0) =~= s@);
        }
        while i < s.len()
            invariant
                0 <= i <= s.len(),
                self.wf(),
                sp_multiline(old(self).st(), s@, ctx) == sp_multiline(
                    self.st(),
                    s@.skip(i as int),
                    ctx,
                ),
                self.is_chunked() == old(self).is_chunked(),
                self.llen() == old(self).llen(),
            decreases s.len() - i,
        {
            proof {
                assert(s@.skip(i as int)[0] == s@[i as int]);
                assert(s@.skip(i as int).drop_first() =~= s@.skip(i + 1));
            }
            if s[i] == 10 {
                self.emit_linebreak(0);
            } else {
                let mut tmp: Vec<u8> = Vec::new();
                push_escape_byte(&mut tmp, ctx, s[i]);
                proof {
                    assert(tmp@ =~= crate::escape::escape_byte(ctx, s@[i as int]));
                }
                self.emit_raw(tmp.as_slice());
            }
            i += 1;
        }
        proof {
            assert(s@.skip(s@.len() as int) =~= Seq::<u8>::empty());
        }
    }

    /// Emits a resolved name: `alias:local`, or the bare local name.
    fn digest_qname(&mut self, alias: &Option<Vec<u8>>, local: &[u8])
        requires
            old(self).wf(),
        ensures
            final(self).wf(),
            final(self).st() == sp_raw(
                old(self).st(),
                qname_bytes(opt_bytes_view(*alias), local@),
            ),
            final(self).is_chunked() == old(self).is_chunked(),
            final(self).llen() == old(self).llen(),
    {
        match alias {
            Option::Some(a) => if a.len() > 0 {
                self.emit_raw(a.as_slice());
                self.put_byte(58);
                self.emit_raw(local);
                proof {
                    lemma_raw_concat(old(self).st(), a@, seq![58u8]);
                    lemma_raw_concat(old(self).st(), a@ + seq![58u8], local@);
                    assert(a@ + seq![58u8] + local@ =~= qname_bytes(
                        opt_bytes_view(*alias),
                        local@,
                    ));
                }
            } else {
                self.emit_raw(local);
            },
            Option::None => {
                self.emit_raw(local);
            },
        }
    }

    /// Emits the separator before an attribute: a space, or a forced or
    /// wrap-induced line break at two extra indent levels.
    fn sep(&mut self, indent: usize, force: bool)
        requires
            old(self).wf(),
            indent <= usize::MAX - 2,
        ensures
            final(self).wf(),
            final(self).st() == sp_sep(old(self).st(), indent as nat, old(self).llen(), force),
            final(self).is_chunked() == old(self).is_chunked(),
            final(self).llen() == old(self).llen(),
    {
        if force || self.pos > self.line_length {
            self.emit_linebreak(indent + 2);
        } else {
            self.put_byte(32);
        }
    }

    /// Emits one attribute: `name="value"` with the value escaped.
    fn digest_attr_pair(&mut self, alias: &Option<Vec<u8>>, local: &[u8], value: &[u8])
        requires
            old(self).wf(),
        ensures
            final(self).wf(),
            final(self).st() == sp_attr(
                old(self).st(),
                opt_bytes_view(*alias),
                local@,
                value@,
            ),
            final(self).is_chunked() == old(self).is_chunked(),
            final(self).llen() == old(self).llen(),
    {
        self.digest_qname(alias, local);
        let ghost st1 = self.st();
        self.put_byte(61);
        self.put_byte(34);
        proof {
            lemma_raw_concat(st1, seq![61u8], seq![34u8]);
            assert(seq![61u8] + seq![34u8] =~= seq![61u8, 34u8]);
        }
        self.digest_string(value, EscapeContext::Attribute);
        self.put_byte(34);
    }

    /// Emits a comment: `<!--` body `-->`.
    fn eat_comment(&mut self, c: &Comment)
        requires
            old(self).wf(),
        ensures
            final(self).wf(),
            final(self).st() == sp_comment(old(self).st(), c.text@),
            final(self).is_chunked() == old(self).is_chunked(),
            final(self).llen() == old(self).llen(),
    {
        let open: [u8; 4] = [60, 33, 45, 45];
        proof {
            assert(open@ =~= seq![60u8, 33u8, 45u8, 45u8]);
        }
        self.emit_raw(open.as_slice());
        self.digest_multiline(c.text.as_slice(), EscapeContext::Comment);
        let close: [u8; 3] = [45, 45, 62];
        proof {
            assert(close@ =~= seq![45u8, 45u8, 62u8]);
        }
        self.emit_raw(close.as_slice());
    }
}

proof fn lemma_nsdecls_snoc(st: WState, d: Seq<NsPairV>, p: NsPairV, indent: nat, llen: nat)
    ensures
        sp_nsdecls(st, d.push(p), indent, llen) == sp_attr(
            sp_sep(sp_nsdecls(st, d, indent, llen), indent, llen, false),
            xmlns_name(p.alias).0,
            xmlns_name(p.alias).1,
            p.uri,
        ),
    decreases d.len(),
{
    if d.len() == 0 {
        reveal_with_fuel(sp_nsdecls, 3);
        assert(d.push(p).drop_first() =~= Seq::<NsPairV>::empty());
        assert(d.push(p)[0] == p);
    } else {
        let st1 = sp_attr(
            sp_sep(st, indent, llen, false),
            xmlns_name(d[0].alias).0,
            xmlns_name(d[0].alias).1,
            d[0].uri,
        );
        lemma_nsdecls_snoc(st1, d.drop_first(), p, indent, llen);
        assert(d.push(p).drop_first() =~= d.drop_first().push(p));
        assert(d.push(p)[0] == d[0]);
    }
}

impl Serializer {
    /// Emits one pinned attribute if present in `attrs`.
    fn eat_pinned_one(
        &mut self,
        attrs: &Vec<Attribute>,
        key: &[u8],
        uri: &[u8],
        local: &[u8],
        scope: &Vec<NsBinding>,
        indent: usize,
    ) -> (r: Result<(), SerializeError>)
        requires
            old(self).wf(),
            indent <= usize::MAX - 2,
        ensures
            final(self).wf(),
            final(self).is_chunked() == old(self).is_chunked(),
            final(self).llen() == old(self).llen(),
            match sp_pinned_one(
                old(self).st(),
                attrs_view(attrs@),
                key@,
                uri@,
                local@,
                scope_view(scope@),
                indent as nat,
                old(self).llen(),
            ) {
                Result::Ok(st) => r is Ok && final(self).st() == st,
                Result::Err(e) => r matches Result::Err(e2) && e2 == e,
            },
    {
        match lookup_attr_exec(attrs, key) {
            Option::None => Result::Ok(()),
            Option::Some(v) => match resolve_uri_exec(scope, uri) {
                Option::None => Result::Err(SerializeError::NamespaceResolutionError),
                Option::Some(a) => {
                    self.sep(indent, false);
                    let al = Option::Some(a);
                    self.digest_attr_pair(&al, local, v.as_slice());
                    Result::Ok(())
                },
            },
        }
    }

    /// Emits the four pinned attributes in their fixed order.
    fn eat_pinned(
        &mut self,
        attrs: &Vec<Attribute>,
        scope: &Vec<NsBinding>,
        indent: usize,
    ) -> (r: Result<(), SerializeError>)
        requires
            old(self).wf(),
            indent <= usize::MAX - 2,
        ensures
            final(self).wf(),
            final(self).is_chunked() == old(self).is_chunked(),
            final(self).llen() == old(self).llen(),
            match sp_pinned(
                old(self).st(),
                attrs_view(attrs@),
                scope_view(scope@),
                indent as nat,
                old(self).llen(),
            ) {
                Result::Ok(st) => r is Ok && final(self).st() == st,
                Result::Err(e) => r matches Result::Err(e2) && e2 == e,
            },
    {
        let k1 = key_xmi_version();
        let u1 = xmi_uri();
        let l1 = local_version();
        match self.eat_pinned_one(attrs, k1.as_slice(), u1.as_slice(), l1.as_slice(), scope, indent) {
            Result::Err(e) => {
                return Result::Err(e);
            },
            Result::Ok(()) => {},
        }
        let k2 = key_xmi_type();
        let l2 = local_type();
        match self.eat_pinned_one(attrs, k2.as_slice(), u1.as_slice(), l2.as_slice(), scope, indent) {
            Result::Err(e) => {
                return Result::Err(e);
            },
            Result::Ok(()) => {},
        }
        let k3 = key_xmi_id();
        let l3 = local_id();
        match self.eat_pinned_one(attrs, k3.as_slice(), u1.as_slice(), l3.as_slice(), scope, indent) {
            Result::Err(e) => {
                return Result::Err(e);
            },
            Result::Ok(()) => {},
        }
        let k4 = key_xsi_type();
        let u4 = xsi_uri();
        match self.eat_pinned_one(attrs, k4.as_slice(), u4.as_slice(), l2.as_slice(), scope, indent) {
            Result::Err(e) => {
                return Result::Err(e);
            },
            Result::Ok(()) => {},
        }
        Result::Ok(())
    }

    /// Emits the alias declarations that are new at this node.
    fn eat_nsdecls(
        &mut self,
        scope: &Vec<NsBinding>,
        parent: &Vec<NsBinding>,
        indent: usize,
    )
        requires
            old(self).wf(),
            indent <= usize::MAX - 2,
        ensures
            final(self).wf(),
            final(self).is_chunked() == old(self).is_chunked(),
            final(self).llen() == old(self).llen(),
            final(self).st() == sp_nsdecls(
                old(self).st(),
                emitted_decls(scope_view(scope@), scope_view(parent@)),
                indent as nat,
                old(self).llen(),
            ),
    {
        let mut i: usize = 0;
        proof {
            assert(scope_view(scope@).take(0) =~= Seq::<NsPairV>::empty());
        }
        while i < scope.len()
            invariant
                0 <= i <= scope.len(),
                self.wf(),
                indent <= usize::MAX - 2,
                self.is_chunked() == old(self).is_chunked(),
                self.llen() == old(self).llen(),
                self.st() == sp_nsdecls(
                    old(self).st(),
                    emitted_decls(scope_view(scope@).take(i as int), scope_view(parent@)),
                    indent as nat,
                    old(self).llen(),
                ),
            decreases scope.len() - i,
        {
            let ghost p = scope@[i as int]@;
            let ghost dprev = emitted_decls(
                scope_view(scope@).take(i as int),
                scope_view(parent@),
            );
            proof {
                assert(scope_view(scope@).take(i + 1).drop_last() =~= scope_view(scope@).take(
                    i as int,
                ));
                assert(scope_view(scope@).take(i + 1).last() == p);
            }
            if !has_uri_exec(parent, scope[i].uri.as_slice()) {
                self.sep(indent, false);
                if scope[i].alias.len() == 0 {
                    let aln: Option<Vec<u8>> = Option::None;
                    let xn = xmlns();
                    self.digest_attr_pair(&aln, xn.as_slice(), scope[i].uri.as_slice());
                } else {
                    let xv = copy_bytes(xmlns().as_slice());
                    let aln: Option<Vec<u8>> = Option::Some(xv);
                    self.digest_attr_pair(
                        &aln,
                        scope[i].alias.as_slice(),
                        scope[i].uri.as_slice(),
                    );
                }
                proof {
                    lemma_nsdecls_snoc(
                        old(self).st(),
                        dprev,
                        p,
                        indent as nat,
                        old(self).llen(),
                    );
                    assert(dprev + seq![p] =~= dprev.push(p));
                    assert(emitted_decls(
                        scope_view(scope@).take(i + 1),
                        scope_view(parent@),
                    ) =~= dprev.push(p));
                }
            } else {
                proof {
                    assert(emitted_decls(
                        scope_view(scope@).take(i + 1),
                        scope_view(parent@),
                    ) =~= dprev);
                }
            }
            i += 1;
        }
        proof {
            assert(scope_view(scope@).take(scope@.len() as int) =~= scope_view(scope@));
        }
    }
}

/// Whether `key` is one of the four pinned attribute keys; executable form of
/// `is_pinned_key`.
fn is_pinned_exec(key: &[u8]) -> (r: bool)
    ensures
        r == is_pinned_key(key@),
{
    let k1 = key_xmi_version();
    let k2 = key_xmi_type();
    let k3 = key_xmi_id();
    let k4 = key_xsi_type();
    bytes_eq(key, k1.as_slice()) || bytes_eq(key, k2.as_slice()) || bytes_eq(key, k3.as_slice())
        || bytes_eq(key, k4.as_slice())
}

/// Resolves a parsed name against the scope; executable form of
/// `resolve_name`.
fn resolve_name_exec(scope: &Vec<NsBinding>, q: (Option<Vec<u8>>, Vec<u8>)) -> (r: Result<
    (Option<Vec<u8>>, Vec<u8>),
    SerializeError,
>)
    ensures
        match resolve_name(scope_view(scope@), qname_view(q).0, qname_view(q).1) {
            Result::Ok(rr) => r matches Result::Ok(r2) && qname_view(r2) == rr,
            Result::Err(e) => r matches Result::Err(e2) && e2 == e,
        },
{
    match q.0 {
        Option::None => Result::Ok((Option::None, q.1)),
        Option::Some(u) => match resolve_uri_exec(scope, u.as_slice()) {
            Option::None => Result::Err(SerializeError::NamespaceResolutionError),
            Option::Some(a) => Result::Ok((Option::Some(a), q.1)),
        },
    }
}

impl Serializer {
    /// Emits the non-pinned attributes in declaration order, with the forced
    /// break before an unprefixed `id` on a non-root element.
    fn eat_rest_attrs(
        &mut self,
        attrs: &Vec<Attribute>,
        scope: &Vec<NsBinding>,
        indent: usize,
        is_root: bool,
    ) -> (r: Result<(), SerializeError>)
        requires
            old(self).wf(),
            indent <= usize::MAX - 2,
        ensures
            final(self).wf(),
            final(self).is_chunked() == old(self).is_chunked(),
            final(self).llen() == old(self).llen(),
            match sp_rest_attrs(
                old(self).st(),
                attrs_view(attrs@),
                scope_view(scope@),
                indent as nat,
                old(self).llen(),
                is_root,
            ) {
                Result::Ok(st) => r is Ok && final(self).st() == st,
                Result::Err(e) => r matches Result::Err(e2) && e2 == e,
            },
    {
        let ghost goal = sp_rest_attrs(
            old(self).st(),
            attrs_view(attrs@),
            scope_view(scope@),
            indent as nat,
            old(self).llen(),
            is_root,
        );
        let mut i: usize = 0;
        proof {
            assert(attrs_view(attrs@).skip(0) =~= attrs_view(attrs@));
        }
        while i < attrs.len()
            invariant
                0 <= i <= attrs.len(),
                self.wf(),
                indent <= usize::MAX - 2,
                self.is_chunked() == old(self).is_chunked(),
                self.llen() == old(self).llen(),
                goal == sp_rest_attrs(
                    old(self).st(),
                    attrs_view(attrs@),
                    scope_view(scope@),
                    indent as nat,
                    old(self).llen(),
                    is_root,
                ),
                goal == sp_rest_attrs(
                    self.st(),
                    attrs_view(attrs@).skip(i as int),
                    scope_view(scope@),
                    indent as nat,
                    old(self).llen(),
                    is_root,
                ),
            decreases attrs.len() - i,
        {
            proof {
                assert(attrs_view(attrs@).skip(i as int)[0] == attrs@[i as int]@);
                assert(attrs_view(attrs@).skip(i as int).drop_first() =~= attrs_view(
                    attrs@,
                ).skip(i + 1));
            }
            if !is_pinned_exec(attrs[i].key.as_slice()) {
                let q = match parse_name_exec(attrs[i].key.as_slice()) {
                    Result::Err(e) => {
                        return Result::Err(e);
                    },
                    Result::Ok(q) => q,
                };
                let lid = local_id();
                let force = !is_root && q.0.is_none() && bytes_eq(q.1.as_slice(), lid.as_slice());
                let rn = match resolve_name_exec(scope, q) {
                    Result::Err(e) => {
                        return Result::Err(e);
                    },
                    Result::Ok(rn) => rn,
                };
                self.sep(indent, force);
                self.digest_attr_pair(&rn.0, rn.1.as_slice(), attrs[i].value.as_slice());
            }
            i += 1;
        }
        proof {
            assert(attrs_view(attrs@).skip(attrs@.len() as int) =~= Seq::<AttrV>::empty());
        }
        Result::Ok(())
    }
}

/// Finds the first value stored under `key`; executable form of
/// `lookup_attr`.
fn lookup_attr_exec(attrs: &Vec<Attribute>, key: &[u8]) -> (r: Option<Vec<u8>>)
    ensures
        match lookup_attr(attrs_view(attrs@), key@) {
            Option::None => r is None,
            Option::Some(v) => r matches Option::Some(v2) && v2@ == v,
        },
{
    let mut i: usize = 0;
    proof {
        assert(attrs_view(attrs@).skip(0) =~= attrs_view(attrs@));
    }
    while i < attrs.len()
        invariant
            0 <= i <= attrs.len(),
            lookup_attr(attrs_view(attrs@), key@) == lookup_attr(
                attrs_view(attrs@).skip(i as int),
                key@,
            ),
        decreases attrs.len() - i,
    {
        proof {
            assert(attrs_view(attrs@).skip(i as int)[0] == attrs@[i as int]@);
            assert(attrs_view(attrs@).skip(i as int).drop_first() =~= attrs_view(attrs@).skip(
                i + 1,
            ));
        }
        if bytes_eq(attrs[i].key.as_slice(), key) {
            return Option::Some(copy_bytes(attrs[i].value.as_slice()));
        }
        i += 1;
    }
    Option::None
}

impl Serializer {
    /// Serializes one element: open tag, attributes, then the self-closing
    /// form or text, children and closing tag.
    #[verifier::rlimit(100)]
    #[verifier::spinoff_prover]
    fn eat_element(
        &mut self,
        e: &Element,
        indent: usize,
        parent_scope: &Vec<NsBinding>,
        is_root: bool,
    ) -> (r: Result<(), SerializeError>)
        requires
            old(self).wf(),
            indent + node_depth(Node::Element(*e)) + 1 <= usize::MAX,
        ensures
            final(self).wf(),
            final(self).is_chunked() == old(self).is_chunked(),
            final(self).llen() == old(self).llen(),
            match sp_element(
                old(self).st(),
                *e,
                indent as nat,
                scope_view(parent_scope@),
                old(self).llen(),
                is_root,
            ) {
                Result::Ok(st) => r is Ok && final(self).st() == st,
                Result::Err(er) => r matches Result::Err(e2) && e2 == er,
            },
        decreases node_depth(Node::Element(*e)),
    {
        let ghost goal = sp_element(
            old(self).st(),
            *e,
            indent as nat,
            scope_view(parent_scope@),
            old(self).llen(),
            is_root,
        );
        let merged = merge_scope_exec(parent_scope, &e.nsmap);
        let scope = sort_scope_exec(&merged);
        proof {
            assert(scope_view(scope@) == sort_scope(
                merge_scope(scope_view(parent_scope@), scope_view(e.nsmap@)),
            ));
        }
        let q = match parse_name_exec(e.tag.as_slice()) {
            Result::Err(er) => {
                return Result::Err(er);
            },
            Result::Ok(q) => q,
        };
        let ghost qv = qname_view(q);
        let rn = match resolve_name_exec(&scope, q) {
            Result::Err(er) => {
                return Result::Err(er);
            },
            Result::Ok(rn) => rn,
        };
        proof {
            assert(qname_view(rn) == (opt_bytes_view(rn.0), rn.1@));
        }
        self.put_byte(60);
        self.digest_qname(&rn.0, rn.1.as_slice());
        proof {
            lemma_raw_concat(
                old(self).st(),
                seq![60u8],
                qname_bytes(opt_bytes_view(rn.0), rn.1@),
            );
        }
        match self.eat_pinned(&e.attributes, &scope, indent) {
            Result::Err(er) => {
                return Result::Err(er);
            },
            Result::Ok(()) => {},
        }
        self.eat_nsdecls(&scope, parent_scope, indent);
        match self.eat_rest_attrs(&e.attributes, &scope, indent, is_root) {
            Result::Err(er) => {
                return Result::Err(er);
            },
            Result::Ok(()) => {},
        }
        let tb = tag_bodies();
        let tsr = tag_semantic_resources();
        let always_expanded = rn.0.is_none() && (bytes_eq(rn.1.as_slice(), tb.as_slice())
            || bytes_eq(rn.1.as_slice(), tsr.as_slice()));
        if e.text.is_none() && e.children.len() == 0 && !always_expanded {
            proof {
                assert(self_closing(*e, opt_bytes_view(rn.0), rn.1@));
            }
            let ghost st4 = self.st();
            self.put_byte(47);
            self.put_byte(62);
            proof {
                lemma_raw_concat(st4, seq![47u8], seq![62u8]);
                assert(seq![47u8] + seq![62u8] =~= seq![47u8, 62u8]);
            }
            return Result::Ok(());
        }
        proof {
            assert(!self_closing(*e, opt_bytes_view(rn.0), rn.1@));
        }
        self.put_byte(62);
        let mut trailing: bool;
        match &e.text {
            Option::Some(t) => {
                self.digest_multiline(t.as_slice(), EscapeContext::Text);
                trailing = true;
            },
            Option::None => {
                trailing = false;
            },
        }
        let mut j: usize = 0;
        proof {
            assert(e.children@.skip(0) =~= e.children@);
        }
        while j < e.children.len()
            invariant
                0 <= j <= e.children.len(),
                self.wf(),
                self.is_chunked() == old(self).is_chunked(),
                self.llen() == old(self).llen(),
                indent + node_depth(Node::Element(*e)) + 1 <= usize::MAX,
                scope_view(scope@) == sort_scope(
                    merge_scope(scope_view(parent_scope@), scope_view(e.nsmap@)),
                ),
                goal == sp_element(
                    old(self).st(),
                    *e,
                    indent as nat,
                    scope_view(parent_scope@),
                    old(self).llen(),
                    is_root,
                ),
                match sp_children(
                    self.st(),
                    e.children@.skip(j as int),
                    indent as nat,
                    scope_view(scope@),
                    old(self).llen(),
                    trailing,
                ) {
                    Result::Ok(p) => goal == Result::<WState, SerializeError>::Ok(
                        sp_raw(
                            if e.children@.len() > 0 && !p.1 {
                                sp_linebreak(p.0, indent as nat)
                            } else {
                                p.0
                            },
                            seq![60u8, 47u8] + qname_bytes(opt_bytes_view(rn.0), rn.1@) + seq![
                                62u8,
                            ],
                        ),
                    ),
                    Result::Err(er) => goal == Result::<WState, SerializeError>::Err(er),
                },
            decreases e.children.len() - j,
        {
            proof {
                assert(e.children@.skip(j as int)[0] == e.children@[j as int]);
                assert(e.children@.skip(j as int).drop_first() =~= e.children@.skip(j + 1));
            }
            if !trailing {
                self.emit_linebreak(indent + 1);
            }
            match &e.children[j] {
                Node::Other => {
                    return Result::Err(SerializeError::UnsupportedNodeKind);
                },
                Node::Comment(c) => {
                    self.eat_comment(c);
                    match &c.tail {
                        Option::Some(t) => {
                            self.digest_multiline(t.as_slice(), EscapeContext::Text);
                            trailing = true;
                        },
                        Option::None => {
                            trailing = false;
                        },
                    }
                },
                Node::Element(ch) => {
                    proof {
                        lemma_children_depth_bound(e.children@, j as int);
                    }
                    match self.eat_element(ch, indent + 1, &scope, false) {
                        Result::Err(er) => {
                            return Result::Err(er);
                        },
                        Result::Ok(()) => {},
                    }
                    match &ch.tail {
                        Option::Some(t) => {
                            self.digest_multiline(t.as_slice(), EscapeContext::Text);
                            trailing = true;
                        },
                        Option::None => {
                            trailing = false;
                        },
                    }
                },
            }
            j += 1;
        }
        proof {
            assert(e.children@.skip(e.children@.len() as int) =~= Seq::<Node>::empty());
        }
        if e.children.len() > 0 && !trailing {
            self.emit_linebreak(indent);
        }
        let ghost st8 = self.st();
        self.put_byte(60);
        self.put_byte(47);
        self.digest_qname(&rn.0, rn.1.as_slice());
        self.put_byte(62);
        proof {
            lemma_raw_concat(st8, seq![60u8], seq![47u8]);
            lemma_raw_concat(st8, seq![60u8] + seq![47u8], qname_bytes(opt_bytes_view(rn.0), rn.1@));
            lemma_raw_concat(
                st8,
                seq![60u8] + seq![47u8] + qname_bytes(opt_bytes_view(rn.0), rn.1@),
                seq![62u8],
            );
            assert(seq![60u8] + seq![47u8] + qname_bytes(opt_bytes_view(rn.0), rn.1@) + seq![62u8]
                =~= seq![60u8, 47u8] + qname_bytes(opt_bytes_view(rn.0), rn.1@) + seq![62u8]);
        }
        Result::Ok(())
    }

    /// Emits the sibling comments on one side of the root.
    fn eat_top_comments(&mut self, nodes: &Vec<Node>, before: bool) -> (r: Result<
        (),
        SerializeError,
    >)
        requires
            old(self).wf(),
        ensures
            final(self).wf(),
            final(self).is_chunked() == old(self).is_chunked(),
            final(self).llen() == old(self).llen(),
            match sp_top_comments(old(self).st(), nodes@, before) {
                Result::Ok(st) => r is Ok && final(self).st() == st,
                Result::Err(er) => r matches Result::Err(e2) && e2 == er,
            },
    {
        let ghost goal = sp_top_comments(old(self).st(), nodes@, before);
        let mut i: usize = 0;
        proof {
            assert(nodes@.skip(0) =~= nodes@);
        }
        while i < nodes.len()
            invariant
                0 <= i <= nodes.len(),
                self.wf(),
                self.is_chunked() == old(self).is_chunked(),
                self.llen() == old(self).llen(),
                goal == sp_top_comments(old(self).st(), nodes@, before),
                goal == sp_top_comments(self.st(), nodes@.skip(i as int), before),
            decreases nodes.len() - i,
        {
            proof {
                assert(nodes@.skip(i as int)[0] == nodes@[i as int]);
                assert(nodes@.skip(i as int).drop_first() =~= nodes@.skip(i + 1));
            }
            match &nodes[i] {
                Node::Comment(c) => {
                    let tail_bad = match &c.tail {
                        Option::Some(t) => t.len() > 0,
                        Option::None => false,
                    };
                    if tail_bad {
                        return Result::Err(SerializeError::FormatError);
                    }
                    if before {
                        self.eat_comment(c);
                        self.emit_linebreak(0);
                    } else {
                        self.emit_linebreak(0);
                        self.eat_comment(c);
                    }
                },
                _ => {
                    return Result::Err(SerializeError::FormatError);
                },
            }
            i += 1;
        }
        proof {
            assert(nodes@.skip(nodes@.len() as int) =~= Seq::<Node>::empty());
        }
        Result::Ok(())
    }

    /// Serializes the whole tree, except for the final line break.
    fn feed_tree(&mut self, tree: &Tree, siblings: bool) -> (r: Result<(), SerializeError>)
        requires
            old(self).wf(),
            node_depth(tree.root) < usize::MAX,
        ensures
            final(self).wf(),
            final(self).is_chunked() == old(self).is_chunked(),
            final(self).llen() == old(self).llen(),
            match sp_feed(old(self).st(), *tree, old(self).llen(), siblings) {
                Result::Ok(st) => r is Ok && final(self).st() == st,
                Result::Err(er) => r matches Result::Err(e2) && e2 == er,
            },
    {
        let root = match &tree.root {
            Node::Element(root) => root,
            _ => {
                return Result::Err(SerializeError::TypeMismatch);
            },
        };
        let empty_scope: Vec<NsBinding> = Vec::new();
        proof {
            assert(scope_view(empty_scope@) =~= Seq::<NsPairV>::empty());
        }
        if siblings {
            match self.eat_top_comments(&tree.preceding, true) {
                Result::Err(er) => {
                    return Result::Err(er);
                },
                Result::Ok(()) => {},
            }
            let tail_bad = match &root.tail {
                Option::Some(t) => t.len() > 0,
                Option::None => false,
            };
            if tail_bad {
                proof {
                    assert(!tail_empty(tree.root));
                }
                return Result::Err(SerializeError::FormatError);
            }
            proof {
                assert(tail_empty(tree.root));
            }
            match self.eat_element(root, 0, &empty_scope, true) {
                Result::Err(er) => {
                    return Result::Err(er);
                },
                Result::Ok(()) => {},
            }
            match self.eat_top_comments(&tree.following, false) {
                Result::Err(er) => {
                    return Result::Err(er);
                },
                Result::Ok(()) => {},
            }
            Result::Ok(())
        } else {
            match self.eat_element(root, 0, &empty_scope, true) {
                Result::Err(er) => {
                    return Result::Err(er);
                },
                Result::Ok(()) => {},
            }
            Result::Ok(())
        }
    }
}

/// Serializes a tree into one in-memory byte vector.
///
/// The result is exactly the byte stream of the model, `sp_serialize`: a
/// deterministic function of the tree, the line length and the sibling flag.
/// On an error nothing is returned. The nesting depth must fit the machine
/// word, which every in-memory tree satisfies.
pub fn serialize(tree: &Tree, line_length: usize, siblings: bool) -> (r: Result<
    Vec<u8>,
    SerializeError,
>)
    requires
        node_depth(tree.root) < usize::MAX,
    ensures
        match sp_serialize(*tree, line_length as nat, siblings) {
            Result::Ok(out) => r matches Result::Ok(v) && v@ == out,
            Result::Err(e) => r matches Result::Err(e2) && e2 == e,
        },
{
    let mut s = Serializer {
        buf: Vec::new(),
        chunks: Vec::new(),
        chunked: false,
        pos: 0,
        line_length,
    };
    proof {
        assert(concat_chunks(s.chunks@) =~= Seq::<u8>::empty());
        assert(s.st() =~= st_init());
    }
    match s.feed_tree(tree, siblings) {
        Result::Err(e) => Result::Err(e),
        Result::Ok(()) => {
            s.emit_linebreak(0);
            proof {
                assert(concat_chunks(s.chunks@) =~= Seq::<u8>::empty());
                assert(s.buf@ =~= s.out());
            }
            Result::Ok(s.buf)
        },
    }
}

/// Serializes a tree into a sequence of chunks, each at most `CAPACITY`
/// bytes, whose concatenation is exactly the byte stream of the model.
///
/// The internal buffer is bounded by `CAPACITY` throughout the call; a
/// consumer that writes each chunk to a sink as it arrives therefore needs
/// only bounded memory. On an error nothing is returned.
pub fn serialize_chunked(tree: &Tree, line_length: usize, siblings: bool) -> (r: Result<
    Vec<Vec<u8>>,
    SerializeError,
>)
    requires
        node_depth(tree.root) < usize::MAX,
    ensures
        match sp_serialize(*tree, line_length as nat, siblings) {
            Result::Ok(out) => r matches Result::Ok(cs) && concat_chunks(cs@) == out && (forall|
                i: int,
            | 0 <= i < cs@.len() ==> cs@[i]@.len() <= CAPACITY),
            Result::Err(e) => r matches Result::Err(e2) && e2 == e,
        },
{
    let mut s = Serializer {
        buf: Vec::new(),
        chunks: Vec::new(),
        chunked: true,
        pos: 0,
        line_length,
    };
    proof {
        assert(concat_chunks(s.chunks@) =~= Seq::<u8>::empty());
        assert(s.st() =~= st_init());
    }
    match s.feed_tree(tree, siblings) {
        Result::Err(e) => Result::Err(e),
        Result::Ok(()) => {
            s.emit_linebreak(0);
            let ghost cs0 = s.chunks@;
            let mut rest: Vec<u8> = Vec::new();
            core::mem::swap(&mut rest, &mut s.buf);
            let ghost restv = rest;
            s.chunks.push(rest);
            proof {
                cs0.lemma_flat_map_push(|c: Vec<u8>| c@, restv);
            }
            Result::Ok(s.chunks)
        },
    }
}

} // verus!
