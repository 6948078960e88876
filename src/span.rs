//! Source locations: absolute offsets and compact byte ranges.

use crate::symbol::{interned, keywords, Interner};
use vstd::prelude::*;

verus! {

/// Absolute zero-based byte position in a source text.
#[derive(Clone, Copy, PartialEq, Eq, Structural, Hash, PartialOrd, Ord, Debug)]
pub struct Offset(pub u32);

/// A span expanded into its two absolute offsets.
#[derive(Clone, Copy, PartialEq, Eq, Structural, Debug)]
pub struct SpanData {
    pub hi: Offset,
    pub lo: Offset,
}

/// Location of a token inside a source text: a start offset and a length.
///
/// The length is kept in 16 bits, so a span built from a wider range keeps
/// only the low 16 bits of its width.
#[derive(Clone, Copy, PartialEq, Eq, Structural, Hash, Debug)]
pub struct Span {
    offs: u32,
    len: u16,
}

/// The span that `Span::new` builds from the offsets `a` and `b`, taken in
/// either order: start at the smaller, width truncated to 16 bits.
pub open spec fn span_of(a: int, b: int) -> (int, int) {
    let lo = if a <= b { a } else { b };
    let hi = if a <= b { b } else { a };
    (lo, (hi - lo) % 0x10000)
}

impl Span {
    /// Start offset of the span.
    pub closed spec fn start(self) -> int {
        self.offs as int
    }

    /// Width of the span in bytes.
    pub closed spec fn width(self) -> int {
        self.len as int
    }

    /// Two spans are equal exactly when their starts and widths are.
    pub proof fn lemma_eq(self, other: Span)
        ensures
            (self.start() == other.start() && self.width() == other.width()) <==> self == other,
    {
    }

    pub proof fn lemma_bounds(self)
        ensures
            0 <= self.start() <= u32::MAX,
            0 <= self.width() <= u16::MAX,
    {
    }

    /// The "no location" span: offset 0, length 0.
    pub fn dummy() -> (r: Span)
        ensures
            r.start() == 0,
            r.width() == 0,
    {
        Span { offs: 0, len: 0 }
    }

    /// Builds the span between two offsets given in either order.
    pub fn new(lo: Offset, hi: Offset) -> (r: Span)
        ensures
            (r.start(), r.width()) == span_of(lo.0 as int, hi.0 as int),
    {
        let (a, b) = if lo.0 > hi.0 {
            (hi.0, lo.0)
        } else {
            (lo.0, hi.0)
        };
        let w: u32 = b - a;
        let len: u16 = #[verifier::truncate] (w as u16);
        proof {
            assert(len as u32 == w % 0x10000) by (bit_vector)
                requires
                    len == #[verifier::truncate] (w as u16),
            ;
        }
        Span { offs: a, len }
    }

    /// The pair of absolute offsets that the span covers.
    pub fn data(&self) -> (r: SpanData)
        requires
            self.start() + self.width() <= u32::MAX,
        ensures
            r.lo.0 == self.start(),
            r.hi.0 == self.start() + self.width(),
    {
        let len = self.len as u32;
        SpanData { lo: Offset(self.offs), hi: Offset(self.offs + len) }
    }
}

impl Default for Span {
    fn default() -> (r: Span)
        ensures
            r.start() == 0,
            r.width() == 0,
    {
        Span::dummy()
    }
}

/// Spans built from the same two offsets in either order are equal.
pub proof fn lemma_span_order_independent(a: u32, b: u32, s: Span, t: Span)
    requires
        (s.start(), s.width()) == span_of(a as int, b as int),
        (t.start(), t.width()) == span_of(b as int, a as int),
    ensures
        s == t,
{
    s.lemma_eq(t);
}

/// Index of an interned string; only the interner hands these out.
#[derive(Clone, Copy, PartialEq, Eq, Structural, PartialOrd, Ord, Hash, Debug)]
pub struct SymbolIdx {
    priv_idx: u32,
}

impl SymbolIdx {
    pub closed spec fn value(self) -> nat {
        self.priv_idx as nat
    }

    /// Two indices are equal exactly when their values are.
    pub proof fn lemma_eq(self, other: SymbolIdx)
        ensures
            self.value() == other.value() <==> self == other,
    {
    }

    pub fn from_u32(idx: u32) -> (r: SymbolIdx)
        ensures
            r.value() == idx,
    {
        SymbolIdx { priv_idx: idx }
    }
}

/// An interned string, identified by its index in the interner.
#[derive(Clone, Copy, PartialEq, Eq, Structural, PartialOrd, Ord, Hash, Debug)]
pub struct Symbol(SymbolIdx);

impl Symbol {
    /// Position of the symbol's string in the interner, in order of first sight.
    pub closed spec fn index(self) -> nat {
        self.0.value()
    }

    /// Two symbols are equal exactly when their indices are.
    pub proof fn lemma_eq(self, other: Symbol)
        ensures
            self.index() == other.index() <==> self == other,
    {
        self.0.lemma_eq(other.0);
    }

    pub fn new(idx: u32) -> (r: Symbol)
        ensures
            r.index() == idx,
    {
        Symbol(SymbolIdx::from_u32(idx))
    }

    /// Interns `string` in the session's interner.
    pub fn intern(sess: &mut SessionGlobals, string: &str) -> (r: Symbol)
        requires
            old(sess).interner.wf(),
            old(sess).interner@.len() < u32::MAX,
        ensures
            final(sess).interner.wf(),
            (final(sess).interner@, r.index()) == interned(old(sess).interner@, string@),
    {
        let f = |s: &mut SessionGlobals| -> (r: Symbol)
            requires
                old(s).interner.wf(),
                old(s).interner@.len() < u32::MAX,
            ensures
                (final(s).interner@, r.index()) == interned(old(s).interner@, string@),
                final(s).interner.wf(),
            {
                s.interner.intern(string)
            };
        with_session_globals(sess, f)
    }
}

/// An interned identifier together with where it occurred.
pub struct Ident {
    name: Symbol,
    span: Span,
}

/// State shared by the stages of one compilation.
pub struct SessionGlobals {
    pub interner: Interner,
}

impl SessionGlobals {
    pub fn new() -> (r: SessionGlobals)
        ensures
            r.interner.wf(),
            r.interner@ == keywords(),
    {
        SessionGlobals { interner: Interner::fresh() }
    }
}

/// Hands `f` exclusive access to the session and returns what it computes;
/// the session ends as `f` leaves it.
pub fn with_session_globals<R, F>(sess: &mut SessionGlobals, f: F) -> (r: R)
    where
        F: FnOnce(&mut SessionGlobals) -> R,
    requires
        forall|s: &mut SessionGlobals| *s == *old(sess) ==> f.requires((s,)),
    ensures
        exists|s: &mut SessionGlobals|
            *s == *old(sess) && *final(s) == *final(sess) && f.ensures((s,), r),
{
    f(sess)
}

} // verus!
