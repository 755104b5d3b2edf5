//! The abstract output state of a serialization in progress: the bytes
//! emitted so far and the current output column. Every emitting step of the
//! serializer is specified as a function on this state.

use vstd::prelude::*;

verus! {

/// Bytes are delivered to a consumer in chunks of at most this many bytes,
/// and the internal buffer never grows beyond it.
pub const CAPACITY: usize = 2 * 1024 * 1024;

/// The line separator byte (LF).
pub const LINESEP: u8 = 10;

/// Output state: everything emitted so far, and the column counter used for
/// line-wrap decisions. The column counts bytes since the last line break and
/// saturates at the machine word limit.
#[verifier::ext_equal]
pub ghost struct WState {
    /// All bytes emitted since the start of the call.
    pub out: Seq<u8>,
    /// Bytes emitted since the last line break (saturating).
    pub pos: nat,
}

/// The empty output state at the start of a call.
pub open spec fn st_init() -> WState {
    WState { out: Seq::empty(), pos: 0 }
}

/// Addition that saturates at the machine word limit, mirroring the
/// executable column counter.
pub open spec fn sat_add(a: nat, b: nat) -> nat {
    if a + b > usize::MAX as nat {
        usize::MAX as nat
    } else {
        a + b
    }
}

/// The column right after indenting to `indent` levels: two spaces per level,
/// saturating at the machine word limit.
pub open spec fn indent_cols(indent: nat) -> nat {
    if 2 * indent > usize::MAX as nat {
        usize::MAX as nat
    } else {
        2 * indent
    }
}

/// The indentation prefix for `indent` nesting levels: exactly two space
/// characters per level.
pub open spec fn indent_bytes(indent: nat) -> Seq<u8> {
    Seq::new(2 * indent, |i: int| 32u8)
}

/// Appends raw bytes to the output and advances the column.
pub open spec fn sp_raw(st: WState, s: Seq<u8>) -> WState {
    WState { out: st.out + s, pos: sat_add(st.pos, s.len()) }
}

/// Emits a line break followed by the indentation for `indent` levels and
/// resets the column to the indentation width.
pub open spec fn sp_linebreak(st: WState, indent: nat) -> WState {
    WState { out: st.out + seq![LINESEP] + indent_bytes(indent), pos: indent_cols(indent) }
}

/// Two consecutive raw emissions equal one emission of the concatenation.
pub proof fn lemma_raw_concat(st: WState, a: Seq<u8>, b: Seq<u8>)
    ensures
        sp_raw(sp_raw(st, a), b) == sp_raw(st, a + b),
{
    assert(sp_raw(sp_raw(st, a), b).out =~= sp_raw(st, a + b).out);
    assert(sp_raw(sp_raw(st, a), b) =~= sp_raw(st, a + b));
}

} // verus!
