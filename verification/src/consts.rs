//! Fixed byte strings of the output format: the two early namespace URIs,
//! the pinned attribute keys, the always-expanded tag names, and `xmlns`.

use vstd::prelude::*;

verus! {

/// `http://www.omg.org/XMI`: the XMI namespace URI.
pub open spec fn spec_xmi_uri() -> Seq<u8> {
    seq![104u8, 116u8, 116u8, 112u8, 58u8, 47u8, 47u8, 119u8, 119u8, 119u8, 46u8, 111u8, 109u8, 103u8, 46u8, 111u8, 114u8, 103u8, 47u8, 88u8, 77u8, 73u8]
}

/// `http://www.omg.org/XMI` as bytes, for executable comparisons and emission.
pub fn xmi_uri() -> (r: [u8; 22])
    ensures
        r@ == spec_xmi_uri(),
{
    let r: [u8; 22] = [104, 116, 116, 112, 58, 47, 47, 119, 119, 119, 46, 111, 109, 103, 46, 111, 114, 103, 47, 88, 77, 73];
    proof {
        assert(r@ =~= spec_xmi_uri());
    }
    r
}

/// `http://www.w3.org/2001/XMLSchema-instance`: the XML Schema instance namespace URI.
pub open spec fn spec_xsi_uri() -> Seq<u8> {
    seq![104u8, 116u8, 116u8, 112u8, 58u8, 47u8, 47u8, 119u8, 119u8, 119u8, 46u8, 119u8, 51u8, 46u8, 111u8, 114u8, 103u8, 47u8, 50u8, 48u8, 48u8, 49u8, 47u8, 88u8, 77u8, 76u8, 83u8, 99u8, 104u8, 101u8, 109u8, 97u8, 45u8, 105u8, 110u8, 115u8, 116u8, 97u8, 110u8, 99u8, 101u8]
}

/// `http://www.w3.org/2001/XMLSchema-instance` as bytes, for executable comparisons and emission.
pub fn xsi_uri() -> (r: [u8; 41])
    ensures
        r@ == spec_xsi_uri(),
{
    let r: [u8; 41] = [104, 116, 116, 112, 58, 47, 47, 119, 119, 119, 46, 119, 51, 46, 111, 114, 103, 47, 50, 48, 48, 49, 47, 88, 77, 76, 83, 99, 104, 101, 109, 97, 45, 105, 110, 115, 116, 97, 110, 99, 101];
    proof {
        assert(r@ =~= spec_xsi_uri());
    }
    r
}

/// `{http://www.omg.org/XMI}version`: the pinned versioning attribute key.
pub open spec fn spec_key_xmi_version() -> Seq<u8> {
    seq![123u8, 104u8, 116u8, 116u8, 112u8, 58u8, 47u8, 47u8, 119u8, 119u8, 119u8, 46u8, 111u8, 109u8, 103u8, 46u8, 111u8, 114u8, 103u8, 47u8, 88u8, 77u8, 73u8, 125u8, 118u8, 101u8, 114u8, 115u8, 105u8, 111u8, 110u8]
}

/// `{http://www.omg.org/XMI}version` as bytes, for executable comparisons and emission.
pub fn key_xmi_version() -> (r: [u8; 31])
    ensures
        r@ == spec_key_xmi_version(),
{
    let r: [u8; 31] = [123, 104, 116, 116, 112, 58, 47, 47, 119, 119, 119, 46, 111, 109, 103, 46, 111, 114, 103, 47, 88, 77, 73, 125, 118, 101, 114, 115, 105, 111, 110];
    proof {
        assert(r@ =~= spec_key_xmi_version());
    }
    r
}

/// `{http://www.omg.org/XMI}type`: the pinned XMI type attribute key.
pub open spec fn spec_key_xmi_type() -> Seq<u8> {
    seq![123u8, 104u8, 116u8, 116u8, 112u8, 58u8, 47u8, 47u8, 119u8, 119u8, 119u8, 46u8, 111u8, 109u8, 103u8, 46u8, 111u8, 114u8, 103u8, 47u8, 88u8, 77u8, 73u8, 125u8, 116u8, 121u8, 112u8, 101u8]
}

/// `{http://www.omg.org/XMI}type` as bytes, for executable comparisons and emission.
pub fn key_xmi_type() -> (r: [u8; 28])
    ensures
        r@ == spec_key_xmi_type(),
{
    let r: [u8; 28] = [123, 104, 116, 116, 112, 58, 47, 47, 119, 119, 119, 46, 111, 109, 103, 46, 111, 114, 103, 47, 88, 77, 73, 125, 116, 121, 112, 101];
    proof {
        assert(r@ =~= spec_key_xmi_type());
    }
    r
}

/// `{http://www.omg.org/XMI}id`: the pinned identifier attribute key.
pub open spec fn spec_key_xmi_id() -> Seq<u8> {
    seq![123u8, 104u8, 116u8, 116u8, 112u8, 58u8, 47u8, 47u8, 119u8, 119u8, 119u8, 46u8, 111u8, 109u8, 103u8, 46u8, 111u8, 114u8, 103u8, 47u8, 88u8, 77u8, 73u8, 125u8, 105u8, 100u8]
}

/// `{http://www.omg.org/XMI}id` as bytes, for executable comparisons and emission.
pub fn key_xmi_id() -> (r: [u8; 26])
    ensures
        r@ == spec_key_xmi_id(),
{
    let r: [u8; 26] = [123, 104, 116, 116, 112, 58, 47, 47, 119, 119, 119, 46, 111, 109, 103, 46, 111, 114, 103, 47, 88, 77, 73, 125, 105, 100];
    proof {
        assert(r@ =~= spec_key_xmi_id());
    }
    r
}

/// `{http://www.w3.org/2001/XMLSchema-instance}type`: the pinned schema-instance type attribute key.
pub open spec fn spec_key_xsi_type() -> Seq<u8> {
    seq![123u8, 104u8, 116u8, 116u8, 112u8, 58u8, 47u8, 47u8, 119u8, 119u8, 119u8, 46u8, 119u8, 51u8, 46u8, 111u8, 114u8, 103u8, 47u8, 50u8, 48u8, 48u8, 49u8, 47u8, 88u8, 77u8, 76u8, 83u8, 99u8, 104u8, 101u8, 109u8, 97u8, 45u8, 105u8, 110u8, 115u8, 116u8, 97u8, 110u8, 99u8, 101u8, 125u8, 116u8, 121u8, 112u8, 101u8]
}

/// `{http://www.w3.org/2001/XMLSchema-instance}type` as bytes, for executable comparisons and emission.
pub fn key_xsi_type() -> (r: [u8; 47])
    ensures
        r@ == spec_key_xsi_type(),
{
    let r: [u8; 47] = [123, 104, 116, 116, 112, 58, 47, 47, 119, 119, 119, 46, 119, 51, 46, 111, 114, 103, 47, 50, 48, 48, 49, 47, 88, 77, 76, 83, 99, 104, 101, 109, 97, 45, 105, 110, 115, 116, 97, 110, 99, 101, 125, 116, 121, 112, 101];
    proof {
        assert(r@ =~= spec_key_xsi_type());
    }
    r
}

/// `version`: the local name of the pinned versioning attribute.
pub open spec fn spec_local_version() -> Seq<u8> {
    seq![118u8, 101u8, 114u8, 115u8, 105u8, 111u8, 110u8]
}

/// `version` as bytes, for executable comparisons and emission.
pub fn local_version() -> (r: [u8; 7])
    ensures
        r@ == spec_local_version(),
{
    let r: [u8; 7] = [118, 101, 114, 115, 105, 111, 110];
    proof {
        assert(r@ =~= spec_local_version());
    }
    r
}

/// `type`: the local name of the pinned type attributes.
pub open spec fn spec_local_type() -> Seq<u8> {
    seq![116u8, 121u8, 112u8, 101u8]
}

/// `type` as bytes, for executable comparisons and emission.
pub fn local_type() -> (r: [u8; 4])
    ensures
        r@ == spec_local_type(),
{
    let r: [u8; 4] = [116, 121, 112, 101];
    proof {
        assert(r@ =~= spec_local_type());
    }
    r
}

/// `id`: the local name of identifier attributes.
pub open spec fn spec_local_id() -> Seq<u8> {
    seq![105u8, 100u8]
}

/// `id` as bytes, for executable comparisons and emission.
pub fn local_id() -> (r: [u8; 2])
    ensures
        r@ == spec_local_id(),
{
    let r: [u8; 2] = [105, 100];
    proof {
        assert(r@ =~= spec_local_id());
    }
    r
}

/// `bodies`: an always-expanded tag.
pub open spec fn spec_tag_bodies() -> Seq<u8> {
    seq![98u8, 111u8, 100u8, 105u8, 101u8, 115u8]
}

/// `bodies` as bytes, for executable comparisons and emission.
pub fn tag_bodies() -> (r: [u8; 6])
    ensures
        r@ == spec_tag_bodies(),
{
    let r: [u8; 6] = [98, 111, 100, 105, 101, 115];
    proof {
        assert(r@ =~= spec_tag_bodies());
    }
    r
}

/// `semanticResources`: an always-expanded tag.
pub open spec fn spec_tag_semantic_resources() -> Seq<u8> {
    seq![115u8, 101u8, 109u8, 97u8, 110u8, 116u8, 105u8, 99u8, 82u8, 101u8, 115u8, 111u8, 117u8, 114u8, 99u8, 101u8, 115u8]
}

/// `semanticResources` as bytes, for executable comparisons and emission.
pub fn tag_semantic_resources() -> (r: [u8; 17])
    ensures
        r@ == spec_tag_semantic_resources(),
{
    let r: [u8; 17] = [115, 101, 109, 97, 110, 116, 105, 99, 82, 101, 115, 111, 117, 114, 99, 101, 115];
    proof {
        assert(r@ =~= spec_tag_semantic_resources());
    }
    r
}

/// `xmlns`: the attribute prefix that declares a namespace alias.
pub open spec fn spec_xmlns() -> Seq<u8> {
    seq![120u8, 109u8, 108u8, 110u8, 115u8]
}

/// `xmlns` as bytes, for executable comparisons and emission.
pub fn xmlns() -> (r: [u8; 5])
    ensures
        r@ == spec_xmlns(),
{
    let r: [u8; 5] = [120, 109, 108, 110, 115];
    proof {
        assert(r@ =~= spec_xmlns());
    }
    r
}

} // verus!
