//! Qualified names and namespace scopes.
//!
//! A tag or attribute key is either a plain local name or the braced form
//! `{uri}local`. The in-scope alias map of an element is its parent's scope
//! with the element's own declarations merged in (local wins on an alias
//! conflict), kept as a list sorted with the two bootstrap namespace URIs
//! first and ties broken by ascending alias. A URI resolves to the alias of
//! its last binding in that sorted order.

use vstd::prelude::*;

use crate::bytes_eq;
use crate::bytes_lt;
use crate::bytes_lt_exec;
use crate::copy_range;
use crate::copy_bytes;
use crate::consts::spec_xmi_uri;
use crate::consts::spec_xsi_uri;
use crate::consts::xmi_uri;
use crate::consts::xsi_uri;
use crate::tree::NsBinding;
use crate::tree::NsPairV;
use crate::tree::SerializeError;
use crate::tree::scope_view;

verus! {

/// Splits the remainder of a braced name (everything after `{`) at the first
/// closing brace into the URI and the local part; nothing without a `}`.
pub open spec fn split_clark(s: Seq<u8>) -> Option<(Seq<u8>, Seq<u8>)>
    decreases s.len(),
{
    if s.len() == 0 {
        Option::None
    } else if s[0] == 125 {
        Option::Some((Seq::empty(), s.drop_first()))
    } else {
        match split_clark(s.drop_first()) {
            Option::None => Option::None,
            Option::Some(p) => Option::Some((seq![s[0]] + p.0, p.1)),
        }
    }
}

/// Parses a possibly `{uri}local`-qualified name into its namespace URI and
/// local part. Empty names, a `{` without `}`, and empty URIs are malformed.
pub open spec fn parse_name(name: Seq<u8>) -> Result<(Option<Seq<u8>>, Seq<u8>), SerializeError> {
    if name.len() == 0 {
        Result::Err(SerializeError::MalformedName)
    } else if name[0] != 123 {
        Result::Ok((Option::None, name))
    } else {
        match split_clark(name.drop_first()) {
            Option::None => Result::Err(SerializeError::MalformedName),
            Option::Some(p) => if p.0.len() == 0 {
                Result::Err(SerializeError::MalformedName)
            } else {
                Result::Ok((Option::Some(p.0), p.1))
            },
        }
    }
}

proof fn lemma_split_clark_found(s: Seq<u8>, j: int)
    requires
        0 <= j < s.len(),
        s[j] == 125,
        forall|k: int| 0 <= k < j ==> s[k] != 125,
    ensures
        split_clark(s) == Option::Some(
            (s.take(j), s.subrange(j + 1, s.len() as int)),
        ),
    decreases j,
{
    if j == 0 {
        assert(s.drop_first() =~= s.subrange(1, s.len() as int));
        assert(s.take(0) =~= Seq::<u8>::empty());
    } else {
        lemma_split_clark_found(s.drop_first(), j - 1);
        assert(seq![s[0]] + s.drop_first().take(j - 1) =~= s.take(j));
        assert(s.drop_first().subrange(j, s.len() - 1) =~= s.subrange(j + 1, s.len() as int));
    }
}

proof fn lemma_split_clark_none(s: Seq<u8>)
    requires
        forall|k: int| 0 <= k < s.len() ==> s[k] != 125,
    ensures
        split_clark(s) is None,
    decreases s.len(),
{
    if s.len() > 0 {
        lemma_split_clark_none(s.drop_first());
    }
}

/// The mathematical value of an optional byte vector.
pub open spec fn opt_bytes_view(o: Option<Vec<u8>>) -> Option<Seq<u8>> {
    match o {
        Option::Some(v) => Option::Some(v@),
        Option::None => Option::None,
    }
}

/// The mathematical value of a parsed name.
pub open spec fn qname_view(q: (Option<Vec<u8>>, Vec<u8>)) -> (Option<Seq<u8>>, Seq<u8>) {
    (
        match q.0 {
            Option::Some(u) => Option::Some(u@),
            Option::None => Option::None,
        },
        q.1@,
    )
}

/// Parses a possibly `{uri}local`-qualified name; executable form of
/// `parse_name`.
pub fn parse_name_exec(name: &[u8]) -> (r: Result<(Option<Vec<u8>>, Vec<u8>), SerializeError>)
    ensures
        match parse_name(name@) {
            Result::Err(e) => r matches Result::Err(e2) && e2 == e,
            Result::Ok(q) => r matches Result::Ok(q2) && qname_view(q2) == q,
        },
{
    if name.len() == 0 {
        return Result::Err(SerializeError::MalformedName);
    }
    if name[0] != 123 {
        return Result::Ok((Option::None, copy_bytes(name)));
    }
    let mut j: usize = 1;
    while j < name.len() && name[j] != 125
        invariant
            1 <= j <= name.len(),
            forall|k: int| 1 <= k < j ==> name@[k] != 125,
        decreases name.len() - j,
    {
        j += 1;
    }
    if j == name.len() {
        proof {
            assert(forall|k: int| 0 <= k < name@.drop_first().len() ==> name@.drop_first()[k]
                != 125);
            lemma_split_clark_none(name@.drop_first());
        }
        return Result::Err(SerializeError::MalformedName);
    }
    proof {
        assert(name@.drop_first()[j - 1] == 125);
        assert(forall|k: int| 0 <= k < j - 1 ==> name@.drop_first()[k] != 125);
        lemma_split_clark_found(name@.drop_first(), j - 1);
        assert(name@.drop_first().take(j - 1) =~= name@.subrange(1, j as int));
        assert(name@.drop_first().subrange(j as int, name@.len() - 1) =~= name@.subrange(
            j + 1,
            name@.len() as int,
        ));
    }
    if j == 1 {
        return Result::Err(SerializeError::MalformedName);
    }
    let uri = copy_range(name, 1, j);
    let local = copy_range(name, j + 1, name.len());
    Result::Ok((Option::Some(uri), local))
}

/// Whether `u` is one of the two bootstrap namespace URIs that sort before
/// all others.
pub open spec fn early(u: Seq<u8>) -> bool {
    u == spec_xmi_uri() || u == spec_xsi_uri()
}

/// Executable form of `early`.
pub fn early_exec(u: &[u8]) -> (r: bool)
    ensures
        r == early(u@),
{
    let xmi = xmi_uri();
    let xsi = xsi_uri();
    bytes_eq(u, xmi.as_slice()) || bytes_eq(u, xsi.as_slice())
}

/// The order of namespace declarations: bindings of the two bootstrap URIs
/// come first; within each partition, ascending alias.
pub open spec fn ns_lt(a: NsPairV, b: NsPairV) -> bool {
    (early(a.uri) && !early(b.uri)) || (early(a.uri) == early(b.uri) && bytes_lt(a.alias, b.alias))
}

/// Executable form of `ns_lt`.
pub fn ns_lt_exec(a: &NsBinding, b: &NsBinding) -> (r: bool)
    ensures
        r == ns_lt(a@, b@),
{
    let ea = early_exec(a.uri.as_slice());
    let eb = early_exec(b.uri.as_slice());
    (ea && !eb) || (ea == eb && bytes_lt_exec(a.alias.as_slice(), b.alias.as_slice()))
}

/// Whether some binding in `s` uses the alias `a`.
pub open spec fn has_alias(s: Seq<NsPairV>, a: Seq<u8>) -> bool
    decreases s.len(),
{
    if s.len() == 0 {
        false
    } else {
        s.last().alias == a || has_alias(s.drop_last(), a)
    }
}

/// Whether some binding in `s` binds the URI `u`.
pub open spec fn has_uri(s: Seq<NsPairV>, u: Seq<u8>) -> bool
    decreases s.len(),
{
    if s.len() == 0 {
        false
    } else {
        s.last().uri == u || has_uri(s.drop_last(), u)
    }
}

/// The parent bindings that survive a merge: those whose alias the local map
/// does not redeclare, in their original order.
pub open spec fn keep_pairs(parent: Seq<NsPairV>, local: Seq<NsPairV>) -> Seq<NsPairV>
    decreases parent.len(),
{
    if parent.len() == 0 {
        Seq::empty()
    } else {
        keep_pairs(parent.drop_last(), local) + if has_alias(local, parent.last().alias) {
            Seq::<NsPairV>::empty()
        } else {
            seq![parent.last()]
        }
    }
}

/// The merged alias scope of a node: the parent's scope minus redeclared
/// aliases, followed by the node's own declarations.
pub open spec fn merge_scope(parent: Seq<NsPairV>, local: Seq<NsPairV>) -> Seq<NsPairV> {
    keep_pairs(parent, local) + local
}

/// Inserts `p` into the sorted sequence `s`, after any entry it does not
/// strictly precede.
pub open spec fn insert_sorted(s: Seq<NsPairV>, p: NsPairV) -> Seq<NsPairV>
    decreases s.len(),
{
    if s.len() == 0 {
        seq![p]
    } else if ns_lt(p, s[0]) {
        seq![p] + s
    } else {
        seq![s[0]] + insert_sorted(s.drop_first(), p)
    }
}

/// Sorts a scope by `ns_lt` (insertion sort, stable).
pub open spec fn sort_scope(s: Seq<NsPairV>) -> Seq<NsPairV>
    decreases s.len(),
{
    if s.len() == 0 {
        Seq::empty()
    } else {
        insert_sorted(sort_scope(s.drop_last()), s.last())
    }
}

/// The alias for `u` in the scope `s`: that of its last binding.
pub open spec fn resolve_uri(s: Seq<NsPairV>, u: Seq<u8>) -> Option<Seq<u8>>
    decreases s.len(),
{
    if s.len() == 0 {
        Option::None
    } else if s.last().uri == u {
        Option::Some(s.last().alias)
    } else {
        resolve_uri(s.drop_last(), u)
    }
}

/// Duplicates a namespace binding.
fn clone_binding(b: &NsBinding) -> (r: NsBinding)
    ensures
        r@ == b@,
{
    NsBinding { alias: copy_bytes(b.alias.as_slice()), uri: copy_bytes(b.uri.as_slice()) }
}

/// Whether some binding in `s` uses the alias `a`; executable form of
/// `has_alias`.
pub fn has_alias_exec(s: &Vec<NsBinding>, a: &[u8]) -> (r: bool)
    ensures
        r == has_alias(scope_view(s@), a@),
{
    let mut i: usize = 0;
    let mut found = false;
    proof {
        assert(scope_view(s@).take(0) =~= Seq::<NsPairV>::empty());
    }
    while i < s.len()
        invariant
            0 <= i <= s.len(),
            found == has_alias(scope_view(s@).take(i as int), a@),
        decreases s.len() - i,
    {
        proof {
            assert(scope_view(s@).take(i + 1).drop_last() =~= scope_view(s@).take(i as int));
            assert(scope_view(s@).take(i + 1).last() == s@[i as int]@);
        }
        if bytes_eq(s[i].alias.as_slice(), a) {
            found = true;
        }
        i += 1;
    }
    proof {
        assert(scope_view(s@).take(s@.len() as int) =~= scope_view(s@));
    }
    found
}

/// Whether some binding in `s` binds the URI `u`; executable form of
/// `has_uri`.
pub fn has_uri_exec(s: &Vec<NsBinding>, u: &[u8]) -> (r: bool)
    ensures
        r == has_uri(scope_view(s@), u@),
{
    let mut i: usize = 0;
    let mut found = false;
    proof {
        assert(scope_view(s@).take(0) =~= Seq::<NsPairV>::empty());
    }
    while i < s.len()
        invariant
            0 <= i <= s.len(),
            found == has_uri(scope_view(s@).take(i as int), u@),
        decreases s.len() - i,
    {
        proof {
            assert(scope_view(s@).take(i + 1).drop_last() =~= scope_view(s@).take(i as int));
            assert(scope_view(s@).take(i + 1).last() == s@[i as int]@);
        }
        if bytes_eq(s[i].uri.as_slice(), u) {
            found = true;
        }
        i += 1;
    }
    proof {
        assert(scope_view(s@).take(s@.len() as int) =~= scope_view(s@));
    }
    found
}

/// Resolves a URI to its alias in the scope; executable form of
/// `resolve_uri`.
pub fn resolve_uri_exec(s: &Vec<NsBinding>, u: &[u8]) -> (r: Option<Vec<u8>>)
    ensures
        match resolve_uri(scope_view(s@), u@) {
            Option::None => r is None,
            Option::Some(a) => r matches Option::Some(a2) && a2@ == a,
        },
{
    let mut i: usize = s.len();
    proof {
        assert(scope_view(s@).take(s@.len() as int) =~= scope_view(s@));
    }
    while i > 0
        invariant
            0 <= i <= s.len(),
            resolve_uri(scope_view(s@), u@) == resolve_uri(scope_view(s@).take(i as int), u@),
        decreases i,
    {
        proof {
            assert(scope_view(s@).take(i as int).drop_last() =~= scope_view(s@).take(i - 1));
            assert(scope_view(s@).take(i as int).last() == s@[i - 1]@);
        }
        if bytes_eq(s[i - 1].uri.as_slice(), u) {
            return Option::Some(copy_bytes(s[i - 1].alias.as_slice()));
        }
        i -= 1;
    }
    proof {
        assert(scope_view(s@).take(0) =~= Seq::<NsPairV>::empty());
    }
    Option::None
}

/// Merges a node's own declarations into the parent scope; executable form of
/// `merge_scope`.
pub fn merge_scope_exec(parent: &Vec<NsBinding>, local: &Vec<NsBinding>) -> (r: Vec<NsBinding>)
    ensures
        scope_view(r@) == merge_scope(scope_view(parent@), scope_view(local@)),
{
    let mut r: Vec<NsBinding> = Vec::new();
    let mut i: usize = 0;
    proof {
        assert(scope_view(parent@).take(0) =~= Seq::<NsPairV>::empty());
        assert(scope_view(r@) =~= Seq::<NsPairV>::empty());
    }
    while i < parent.len()
        invariant
            0 <= i <= parent.len(),
            scope_view(r@) == keep_pairs(
                scope_view(parent@).take(i as int),
                scope_view(local@),
            ),
        decreases parent.len() - i,
    {
        proof {
            assert(scope_view(parent@).take(i + 1).drop_last() =~= scope_view(parent@).take(
                i as int,
            ));
            assert(scope_view(parent@).take(i + 1).last() == parent@[i as int]@);
        }
        if !has_alias_exec(local, parent[i].alias.as_slice()) {
            let ghost r0 = r@;
            let b = clone_binding(&parent[i]);
            r.push(b);
            proof {
                assert(scope_view(r@) =~= scope_view(r0) + seq![parent@[i as int]@]);
            }
        }
        proof {
            assert(scope_view(r@) =~= keep_pairs(
                scope_view(parent@).take(i + 1),
                scope_view(local@),
            ));
        }
        i += 1;
    }
    proof {
        assert(scope_view(parent@).take(parent@.len() as int) =~= scope_view(parent@));
    }
    let mut j: usize = 0;
    proof {
        assert(scope_view(local@).take(0) =~= Seq::<NsPairV>::empty());
        assert(scope_view(r@) + scope_view(local@).take(0) =~= scope_view(r@));
    }
    while j < local.len()
        invariant
            0 <= j <= local.len(),
            scope_view(r@) == keep_pairs(scope_view(parent@), scope_view(local@)) + scope_view(
                local@,
            ).take(j as int),
        decreases local.len() - j,
    {
        let ghost r0 = r@;
        let b = clone_binding(&local[j]);
        r.push(b);
        proof {
            assert(scope_view(r@) =~= scope_view(r0) + seq![local@[j as int]@]);
            assert(scope_view(r@) =~= keep_pairs(scope_view(parent@), scope_view(local@))
                + scope_view(local@).take(j + 1));
        }
        j += 1;
    }
    proof {
        assert(scope_view(local@).take(local@.len() as int) =~= scope_view(local@));
    }
    r
}

proof fn lemma_insert_sorted_at(s: Seq<NsPairV>, p: NsPairV, j: int)
    requires
        0 <= j <= s.len(),
        forall|k: int| 0 <= k < j ==> !ns_lt(p, s[k]),
        j < s.len() ==> ns_lt(p, s[j]),
    ensures
        insert_sorted(s, p) == s.take(j) + seq![p] + s.skip(j),
    decreases j,
{
    if j == 0 {
        assert(insert_sorted(s, p) =~= s.take(0) + seq![p] + s.skip(0));
    } else {
        lemma_insert_sorted_at(s.drop_first(), p, j - 1);
        assert(s.drop_first().take(j - 1) =~= s.take(j).drop_first());
        assert(s.drop_first().skip(j - 1) =~= s.skip(j));
        assert(insert_sorted(s, p) =~= s.take(j) + seq![p] + s.skip(j));
    }
}

/// Sorts a scope by `ns_lt`; executable form of `sort_scope`.
pub fn sort_scope_exec(scope: &Vec<NsBinding>) -> (r: Vec<NsBinding>)
    ensures
        scope_view(r@) == sort_scope(scope_view(scope@)),
{
    let mut r: Vec<NsBinding> = Vec::new();
    let mut i: usize = 0;
    proof {
        assert(scope_view(scope@).take(0) =~= Seq::<NsPairV>::empty());
        assert(scope_view(r@) =~= Seq::<NsPairV>::empty());
    }
    while i < scope.len()
        invariant
            0 <= i <= scope.len(),
            scope_view(r@) == sort_scope(scope_view(scope@).take(i as int)),
        decreases scope.len() - i,
    {
        let ghost p = scope@[i as int]@;
        let mut j: usize = 0;
        while j < r.len() && !ns_lt_exec(&scope[i], &r[j])
            invariant
                0 <= j <= r.len(),
                i < scope.len(),
                p == scope@[i as int]@,
                forall|k: int| 0 <= k < j ==> !ns_lt(p, scope_view(r@)[k]),
            decreases r.len() - j,
        {
            j += 1;
        }
        let ghost r0 = scope_view(r@);
        let b = clone_binding(&scope[i]);
        r.insert(j, b);
        proof {
            lemma_insert_sorted_at(r0, p, j as int);
            assert(scope_view(r@) =~= r0.take(j as int) + seq![p] + r0.skip(j as int));
            assert(scope_view(scope@).take(i + 1).drop_last() =~= scope_view(scope@).take(
                i as int,
            ));
            assert(scope_view(scope@).take(i + 1).last() == p);
            assert(scope_view(r@) =~= sort_scope(scope_view(scope@).take(i + 1)));
        }
        i += 1;
    }
    proof {
        assert(scope_view(scope@).take(scope@.len() as int) =~= scope_view(scope@));
    }
    r
}

} // verus!
