//! Context-sensitive character escaping for attribute values, text content
//! and comment bodies, together with a decoder and a proof that decoding
//! undoes the escaping.
//!
//! All three contexts escape the C0 control characters other than line feed,
//! and DEL, as hexadecimal numeric character references `&#xH;`. Attribute
//! values additionally escape tab, `"`, `&` and `<`; text additionally
//! escapes `"`, `&` and `<`; comments additionally escape only `>`.

use vstd::prelude::*;

verus! {

/// In which syntactic context a piece of text is being emitted; the context
/// decides which characters must be escaped.
#[derive(Clone, Copy, Debug, PartialEq, Eq, Structural)]
pub enum EscapeContext {
    /// An attribute value, between double quotes.
    Attribute,
    /// A comment body, between `<!--` and `-->`.
    Comment,
    /// Element text or tail content.
    Text,
}

/// Bytes escaped in every context: C0 controls except line feed, and DEL.
pub open spec fn base_escape(b: u8) -> bool {
    b <= 8 || (10 <= b && b <= 31) || b == 127
}

/// Whether `b` must be escaped when emitted in context `ctx`.
pub open spec fn needs_escape(ctx: EscapeContext, b: u8) -> bool {
    base_escape(b) || match ctx {
        EscapeContext::Attribute => b == 9 || b == 34 || b == 38 || b == 60,
        EscapeContext::Text => b == 34 || b == 38 || b == 60,
        EscapeContext::Comment => b == 62,
    }
}

/// The byte for a hexadecimal digit value below 16, using upper-case letters.
pub open spec fn hex_digit(n: nat) -> u8 {
    if n < 10 {
        (48 + n) as u8
    } else {
        (55 + n) as u8
    }
}

/// The value of a hexadecimal digit byte, inverse of `hex_digit`.
pub open spec fn hex_val(b: u8) -> nat {
    if 48 <= b && b <= 57 {
        (b - 48) as nat
    } else {
        (b - 55) as nat
    }
}

/// Whether `b` is an upper-case hexadecimal digit byte.
pub open spec fn is_hex_digit(b: u8) -> bool {
    (48 <= b && b <= 57) || (65 <= b && b <= 70)
}

/// The shortest upper-case hexadecimal rendering of `b` (one or two digits).
pub open spec fn hex_bytes(b: u8) -> Seq<u8> {
    if b < 16 {
        seq![hex_digit(b as nat)]
    } else {
        seq![hex_digit((b / 16) as nat), hex_digit((b % 16) as nat)]
    }
}

/// The numeric character reference `&#xH;` for `b`.
pub open spec fn numeric_escape(b: u8) -> Seq<u8> {
    seq![38u8, 35u8, 120u8] + hex_bytes(b) + seq![59u8]
}

/// What is emitted for the byte `b` in context `ctx`: the byte itself, one of
/// the four named references, or a numeric reference.
pub open spec fn escape_byte(ctx: EscapeContext, b: u8) -> Seq<u8> {
    if !needs_escape(ctx, b) {
        seq![b]
    } else if b == 38 {
        seq![38u8, 97u8, 109u8, 112u8, 59u8]
    } else if b == 60 {
        seq![38u8, 108u8, 116u8, 59u8]
    } else if b == 62 {
        seq![38u8, 103u8, 116u8, 59u8]
    } else if b == 34 {
        seq![38u8, 113u8, 117u8, 111u8, 116u8, 59u8]
    } else {
        numeric_escape(b)
    }
}

/// The escaped rendering of a whole byte sequence in context `ctx`.
pub open spec fn escape_seq(ctx: EscapeContext, s: Seq<u8>) -> Seq<u8>
    decreases s.len(),
{
    if s.len() == 0 {
        Seq::empty()
    } else {
        escape_byte(ctx, s[0]) + escape_seq(ctx, s.drop_first())
    }
}

/// Escaping a sequence extended by one byte appends that byte's escape.
pub proof fn lemma_escape_seq_snoc(ctx: EscapeContext, s: Seq<u8>, b: u8)
    ensures
        escape_seq(ctx, s.push(b)) == escape_seq(ctx, s) + escape_byte(ctx, b),
    decreases s.len(),
{
    if s.len() == 0 {
        reveal_with_fuel(escape_seq, 2);
        assert(s.push(b).drop_first() =~= Seq::<u8>::empty());
        assert(escape_seq(ctx, s.push(b)) =~= escape_seq(ctx, s) + escape_byte(ctx, b));
    } else {
        lemma_escape_seq_snoc(ctx, s.drop_first(), b);
        assert(s.push(b).drop_first() =~= s.drop_first().push(b));
        assert(escape_seq(ctx, s.push(b)) =~= escape_seq(ctx, s) + escape_byte(ctx, b));
    }
}

/// Whether `b` must be escaped in `ctx`; executable form of `needs_escape`.
pub fn needs_escape_exec(ctx: EscapeContext, b: u8) -> (r: bool)
    ensures
        r == needs_escape(ctx, b),
{
    let base = b <= 8 || (10 <= b && b <= 31) || b == 127;
    base || match ctx {
        EscapeContext::Attribute => b == 9 || b == 34 || b == 38 || b == 60,
        EscapeContext::Text => b == 34 || b == 38 || b == 60,
        EscapeContext::Comment => b == 62,
    }
}

/// Appends the escape of one byte to `out`.
pub(crate) fn push_escape_byte(out: &mut Vec<u8>, ctx: EscapeContext, b: u8)
    ensures
        final(out)@ == old(out)@ + escape_byte(ctx, b),
{
    if !needs_escape_exec(ctx, b) {
        out.push(b);
        assert(out@ =~= old(out)@ + escape_byte(ctx, b));
    } else if b == 38 {
        out.push(38);
        out.push(97);
        out.push(109);
        out.push(112);
        out.push(59);
        assert(out@ =~= old(out)@ + escape_byte(ctx, b));
    } else if b == 60 {
        out.push(38);
        out.push(108);
        out.push(116);
        out.push(59);
        assert(out@ =~= old(out)@ + escape_byte(ctx, b));
    } else if b == 62 {
        out.push(38);
        out.push(103);
        out.push(116);
        out.push(59);
        assert(out@ =~= old(out)@ + escape_byte(ctx, b));
    } else if b == 34 {
        out.push(38);
        out.push(113);
        out.push(117);
        out.push(111);
        out.push(116);
        out.push(59);
        assert(out@ =~= old(out)@ + escape_byte(ctx, b));
    } else {
        out.push(38);
        out.push(35);
        out.push(120);
        if b < 16 {
            out.push(hex_digit_exec(b));
        } else {
            out.push(hex_digit_exec(b / 16));
            out.push(hex_digit_exec(b % 16));
        }
        out.push(59);
        assert(out@ =~= old(out)@ + escape_byte(ctx, b));
    }
}

/// The upper-case hexadecimal digit byte for a value below 16.
fn hex_digit_exec(n: u8) -> (r: u8)
    requires
        n < 16,
    ensures
        r == hex_digit(n as nat),
{
    if n < 10 {
        48 + n
    } else {
        55 + n
    }
}

/// Escapes a whole byte sequence for emission in context `ctx`.
pub fn escape(ctx: EscapeContext, s: &[u8]) -> (r: Vec<u8>)
    ensures
        r@ == escape_seq(ctx, s@),
{
    let mut out: Vec<u8> = Vec::new();
    let mut i: usize = 0;
    while i < s.len()
        invariant
            0 <= i <= s.len(),
            out@ == escape_seq(ctx, s@.take(i as int)),
        decreases s.len() - i,
    {
        proof {
            lemma_escape_seq_snoc(ctx, s@.take(i as int), s@[i as int]);
            assert(s@.take(i as int).push(s@[i as int]) =~= s@.take(i + 1));
        }
        push_escape_byte(&mut out, ctx, s[i]);
        i += 1;
    }
    proof {
        assert(s@.take(s@.len() as int) =~= s@);
    }
    out
}

/// Decodes the named and numeric character references that this library's
/// escaper produces (numeric references of one or two upper-case hexadecimal
/// digits). Returns nothing when a `&` is not followed by such a reference.
pub open spec fn unescape(s: Seq<u8>) -> Option<Seq<u8>>
    decreases s.len(),
{
    if s.len() == 0 {
        Some(Seq::empty())
    } else if s[0] != 38 {
        match unescape(s.drop_first()) {
            Option::None => Option::None,
            Option::Some(r) => Option::Some(seq![s[0]] + r),
        }
    } else if s.len() >= 5 && s.take(5) == seq![38u8, 97u8, 109u8, 112u8, 59u8] {
        match unescape(s.skip(5)) {
            Option::None => Option::None,
            Option::Some(r) => Option::Some(seq![38u8] + r),
        }
    } else if s.len() >= 4 && s.take(4) == seq![38u8, 108u8, 116u8, 59u8] {
        match unescape(s.skip(4)) {
            Option::None => Option::None,
            Option::Some(r) => Option::Some(seq![60u8] + r),
        }
    } else if s.len() >= 4 && s.take(4) == seq![38u8, 103u8, 116u8, 59u8] {
        match unescape(s.skip(4)) {
            Option::None => Option::None,
            Option::Some(r) => Option::Some(seq![62u8] + r),
        }
    } else if s.len() >= 6 && s.take(6) == seq![38u8, 113u8, 117u8, 111u8, 116u8, 59u8] {
        match unescape(s.skip(6)) {
            Option::None => Option::None,
            Option::Some(r) => Option::Some(seq![34u8] + r),
        }
    } else if s.len() >= 5 && s[1] == 35 && s[2] == 120 && is_hex_digit(s[3]) && s[4] == 59 {
        match unescape(s.skip(5)) {
            Option::None => Option::None,
            Option::Some(r) => Option::Some(seq![hex_val(s[3]) as u8] + r),
        }
    } else if s.len() >= 6 && s[1] == 35 && s[2] == 120 && is_hex_digit(s[3]) && is_hex_digit(s[4])
        && s[5] == 59 {
        match unescape(s.skip(6)) {
            Option::None => Option::None,
            Option::Some(r) => Option::Some(seq![(hex_val(s[3]) * 16 + hex_val(s[4])) as u8] + r),
        }
    } else {
        Option::None
    }
}

proof fn lemma_hex_digit_inverse(n: nat)
    requires
        n < 16,
    ensures
        is_hex_digit(hex_digit(n)),
        hex_val(hex_digit(n)) == n,
        hex_digit(n) != 59,
{
}

proof fn lemma_unescape_byte(ctx: EscapeContext, b: u8, t: Seq<u8>, dt: Seq<u8>)
    requires
        unescape(t) == Option::Some(dt),
        ctx is Comment ==> b != 38,
    ensures
        unescape(escape_byte(ctx, b) + t) == Option::Some(seq![b] + dt),
{
    let e0 = escape_byte(ctx, b);
    let u = e0 + t;
    if !needs_escape(ctx, b) {
        assert(b != 38);
        assert(u[0] == b);
        assert(u.drop_first() =~= t);
    } else if b == 38 {
        assert(u.take(5) =~= seq![38u8, 97u8, 109u8, 112u8, 59u8]);
        assert(u.skip(5) =~= t);
    } else if b == 60 {
        assert(u[1] == 108);
        assert(u.len() >= 5 ==> u.take(5) != seq![38u8, 97u8, 109u8, 112u8, 59u8]) by {
            if u.len() >= 5 {
                assert(u.take(5)[1] == 108);
            }
        }
        assert(u.take(4) =~= seq![38u8, 108u8, 116u8, 59u8]);
        assert(u.skip(4) =~= t);
    } else if b == 62 {
        assert(u[1] == 103);
        assert(u.len() >= 5 ==> u.take(5) != seq![38u8, 97u8, 109u8, 112u8, 59u8]) by {
            if u.len() >= 5 {
                assert(u.take(5)[1] == 103);
            }
        }
        assert(u.take(4) != seq![38u8, 108u8, 116u8, 59u8]) by {
            assert(u.take(4)[1] == 103);
        }
        assert(u.take(4) =~= seq![38u8, 103u8, 116u8, 59u8]);
        assert(u.skip(4) =~= t);
    } else if b == 34 {
        assert(u[1] == 113);
        assert(u.len() >= 5 ==> u.take(5) != seq![38u8, 97u8, 109u8, 112u8, 59u8]) by {
            if u.len() >= 5 {
                assert(u.take(5)[1] == 113);
            }
        }
        assert(u.take(4) != seq![38u8, 108u8, 116u8, 59u8]) by {
            assert(u.take(4)[1] == 113);
        }
        assert(u.take(4) != seq![38u8, 103u8, 116u8, 59u8]) by {
            assert(u.take(4)[1] == 113);
        }
        assert(u.take(6) =~= seq![38u8, 113u8, 117u8, 111u8, 116u8, 59u8]);
        assert(u.skip(6) =~= t);
    } else {
        assert(u[1] == 35);
        assert(u.len() >= 5 ==> u.take(5) != seq![38u8, 97u8, 109u8, 112u8, 59u8]) by {
            if u.len() >= 5 {
                assert(u.take(5)[1] == 35);
            }
        }
        assert(u.len() >= 4 ==> u.take(4) != seq![38u8, 108u8, 116u8, 59u8] && u.take(4) != seq![
            38u8,
            103u8,
            116u8,
            59u8,
        ]) by {
            if u.len() >= 4 {
                assert(u.take(4)[1] == 35);
            }
        }
        assert(u.len() >= 6 ==> u.take(6) != seq![38u8, 113u8, 117u8, 111u8, 116u8, 59u8]) by {
            if u.len() >= 6 {
                assert(u.take(6)[1] == 35);
            }
        }
        if b < 16 {
            lemma_hex_digit_inverse(b as nat);
            assert(u[3] == hex_digit(b as nat) && u[4] == 59);
            assert(hex_val(u[3]) as u8 == b);
            assert(u.skip(5) =~= t);
        } else {
            lemma_hex_digit_inverse((b / 16) as nat);
            lemma_hex_digit_inverse((b % 16) as nat);
            assert(u[3] == hex_digit((b / 16) as nat) && u[4] == hex_digit((b % 16) as nat)
                && u[5] == 59);
            assert(u[4] != 59);
            assert(hex_val(u[3]) * 16 + hex_val(u[4]) == b);
            assert(u.skip(6) =~= t);
        }
    }
    assert(unescape(u) == Option::Some(seq![b] + dt));
}

/// Round trip: decoding the escaped rendering of any content reproduces that
/// content exactly. In the comment context this holds of content without a
/// literal `&`, which that context leaves unescaped; the other two contexts
/// escape `&` and round-trip unconditionally.
pub proof fn lemma_escape_round_trip(ctx: EscapeContext, s: Seq<u8>)
    requires
        ctx is Comment ==> forall|k: int| 0 <= k < s.len() ==> s[k] != 38,
    ensures
        unescape(escape_seq(ctx, s)) == Option::Some(s),
    decreases s.len(),
{
    if s.len() == 0 {
        assert(unescape(escape_seq(ctx, s)) =~= Option::Some(Seq::<u8>::empty()));
        assert(s =~= Seq::<u8>::empty());
    } else {
        assert(ctx is Comment ==> forall|k: int|
            0 <= k < s.drop_first().len() ==> s.drop_first()[k] != 38);
        lemma_escape_round_trip(ctx, s.drop_first());
        lemma_unescape_byte(ctx, s[0], escape_seq(ctx, s.drop_first()), s.drop_first());
        assert(seq![s[0]] + s.drop_first() =~= s);
    }
}

} // verus!
