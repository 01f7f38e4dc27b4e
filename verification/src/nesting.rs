//! A measure of how deeply the tags of a document are nested, taken byte by
//! byte before the document is handed to the feed's reader.
//!
//! The scan never counts fewer open tags than a reader of markup would: an
//! end tag, or the end of an empty element, is counted only where no comment,
//! instruction or attribute value can hide it, and every document in which
//! one could is refused.

use vstd::prelude::*;

verus! {

/// The deepest nesting of tags that a document may show.
pub const MAX_NESTING: usize = 64;

/// Where in the markup a scan stands.
#[derive(Clone, Copy, Debug, PartialEq, Eq, Structural)]
pub enum Mode {
    /// Between tags.
    Text,
    /// Directly behind `<`.
    Open,
    /// In a start tag.
    Start,
    /// In an end tag.
    End,
    /// Behind `<!`, while the opener of a character data section is matched.
    Bang,
    /// Behind `<!-`.
    BangDash,
    /// In a character data section.
    Cdata,
    /// In a comment.
    Comment,
    /// In a processing instruction.
    Pi,
    /// The document is not taken.
    Refused,
}

/// The state of a scan. `aux` counts, by mode: in a tag, 1 inside single
/// quotes and 2 inside double quotes; behind `<!`, the bytes of the opener
/// matched so far; in a section or comment, the closing marks just read, up
/// to two; in an instruction, 1 behind a question mark. `slash` tells
/// whether the last byte of a tag was a slash, and `depth` is the number of
/// tags open.
#[derive(Clone, Copy, Debug, PartialEq, Eq, Structural)]
pub struct Scan {
    pub mode: Mode,
    pub aux: u8,
    pub slash: bool,
    pub depth: usize,
}

/// The byte at place `k` of `[CDATA[`.
pub open spec fn opener_byte(k: u8) -> u8 {
    if k == 0 {
        0x5Bu8
    } else if k == 1 {
        0x43u8
    } else if k == 2 {
        0x44u8
    } else if k == 3 {
        0x41u8
    } else if k == 4 {
        0x54u8
    } else if k == 5 {
        0x41u8
    } else {
        0x5Bu8
    }
}

/// The scan before the first byte.
pub open spec fn start() -> Scan {
    Scan { mode: Mode::Text, aux: 0, slash: false, depth: 0 }
}

/// The scan that refuses the document.
pub open spec fn refused(s: Scan) -> Scan {
    Scan { mode: Mode::Refused, ..s }
}

/// The scan after the byte `>` that ends a tag: an end tag and an empty
/// element close one tag.
pub open spec fn tag_closed(s: Scan) -> Scan {
    if (s.mode == Mode::End || s.slash) && s.depth > 0 {
        Scan { mode: Mode::Text, aux: 0, slash: false, depth: (s.depth - 1) as usize }
    } else {
        Scan { mode: Mode::Text, aux: 0, slash: false, depth: s.depth }
    }
}

/// The scan after one byte inside a tag. A `<` in a tag, and a `>` inside
/// quotes, refuse the document.
pub open spec fn in_tag(s: Scan, b: u8) -> Scan {
    if b == 0x3C {
        refused(s)
    } else if s.aux == 0 {
        if b == 0x3E {
            tag_closed(s)
        } else if b == 0x27 {
            Scan { aux: 1, slash: false, ..s }
        } else if b == 0x22 {
            Scan { aux: 2, slash: false, ..s }
        } else {
            Scan { slash: b == 0x2F, ..s }
        }
    } else if b == 0x3E {
        refused(s)
    } else if (s.aux == 1 && b == 0x27) || (s.aux == 2 && b == 0x22) {
        Scan { aux: 0, slash: false, ..s }
    } else {
        Scan { slash: false, ..s }
    }
}

/// The scan after one more byte.
pub open spec fn step(s: Scan, b: u8) -> Scan {
    match s.mode {
        Mode::Text => if b == 0x3C {
            Scan { mode: Mode::Open, aux: 0, slash: false, depth: s.depth }
        } else {
            s
        },
        Mode::Open => if b == 0x2F {
            Scan { mode: Mode::End, aux: 0, slash: false, depth: s.depth }
        } else if b == 0x21 {
            Scan { mode: Mode::Bang, aux: 0, slash: false, depth: s.depth }
        } else if b == 0x3F {
            Scan { mode: Mode::Pi, aux: 0, slash: false, depth: s.depth }
        } else if s.depth >= MAX_NESTING {
            refused(s)
        } else {
            in_tag(
                Scan { mode: Mode::Start, aux: 0, slash: false, depth: (s.depth + 1) as usize },
                b,
            )
        },
        Mode::Start => in_tag(s, b),
        Mode::End => in_tag(s, b),
        Mode::Bang => if s.aux <= 6 && b == opener_byte(s.aux) {
            if s.aux == 6 {
                Scan { mode: Mode::Cdata, aux: 0, ..s }
            } else {
                Scan { aux: (s.aux + 1) as u8, ..s }
            }
        } else if s.aux == 0 && b == 0x2D {
            Scan { mode: Mode::BangDash, ..s }
        } else {
            refused(s)
        },
        Mode::BangDash => if b == 0x2D {
            Scan { mode: Mode::Comment, aux: 0, ..s }
        } else {
            refused(s)
        },
        Mode::Cdata => if b == 0x3E && s.aux >= 2 {
            Scan { mode: Mode::Text, aux: 0, ..s }
        } else if b == 0x5D {
            Scan { aux: if s.aux >= 1 { 2u8 } else { 1u8 }, ..s }
        } else {
            Scan { aux: 0, ..s }
        },
        Mode::Comment => if b == 0x3C {
            refused(s)
        } else if b == 0x3E && s.aux >= 2 {
            Scan { mode: Mode::Text, aux: 0, ..s }
        } else if b == 0x2D {
            Scan { aux: if s.aux >= 1 { 2u8 } else { 1u8 }, ..s }
        } else {
            Scan { aux: 0, ..s }
        },
        Mode::Pi => if b == 0x3C {
            refused(s)
        } else if b == 0x3E && s.aux >= 1 {
            Scan { mode: Mode::Text, aux: 0, ..s }
        } else {
            Scan { aux: if b == 0x3F { 1u8 } else { 0u8 }, ..s }
        },
        Mode::Refused => s,
    }
}

/// The scan after all of `bytes`.
pub open spec fn scan(bytes: Seq<u8>) -> Scan
    decreases bytes.len(),
{
    if bytes.len() == 0 {
        start()
    } else {
        step(scan(bytes.drop_last()), bytes.last())
    }
}

/// Whether a document is taken: at no point more than `MAX_NESTING` tags
/// are open, no tag holds `<` or a quoted `>`, no comment or instruction
/// holds `<`, and behind `<!` stands a comment or a character data section.
pub open spec fn shallow(document: Seq<char>) -> bool {
    scan(vstd::utf8::encode_utf8(document)).mode != Mode::Refused
}

/// A scan never counts more open tags than the limit.
pub proof fn lemma_scan_depth_bounded(bytes: Seq<u8>)
    ensures
        scan(bytes).depth <= MAX_NESTING,
    decreases bytes.len(),
{
    if bytes.len() > 0 {
        lemma_scan_depth_bounded(bytes.drop_last());
    }
}

/// A document that was refused stays refused, whatever follows.
pub proof fn lemma_refused_stays(bytes: Seq<u8>, more: Seq<u8>)
    requires
        scan(bytes).mode == Mode::Refused,
    ensures
        scan(bytes + more).mode == Mode::Refused,
    decreases more.len(),
{
    if more.len() == 0 {
        assert(bytes + more =~= bytes);
    } else {
        lemma_refused_stays(bytes, more.drop_last());
        assert((bytes + more).drop_last() =~= bytes + more.drop_last());
        assert((bytes + more).last() == more.last());
    }
}

fn opener(k: u8) -> (b: u8)
    ensures
        b == opener_byte(k),
{
    if k == 0 {
        0x5B
    } else if k == 1 {
        0x43
    } else if k == 2 {
        0x44
    } else if k == 3 {
        0x41
    } else if k == 4 {
        0x54
    } else if k == 5 {
        0x41
    } else {
        0x5B
    }
}

fn advance_in_tag(s: Scan, b: u8) -> (next: Scan)
    ensures
        next == in_tag(s, b),
{
    if b == 0x3C {
        Scan { mode: Mode::Refused, ..s }
    } else if s.aux == 0 {
        if b == 0x3E {
            let closes = match s.mode {
                Mode::End => true,
                _ => s.slash,
            };
            if closes && s.depth > 0 {
                Scan { mode: Mode::Text, aux: 0, slash: false, depth: s.depth - 1 }
            } else {
                Scan { mode: Mode::Text, aux: 0, slash: false, depth: s.depth }
            }
        } else if b == 0x27 {
            Scan { aux: 1, slash: false, ..s }
        } else if b == 0x22 {
            Scan { aux: 2, slash: false, ..s }
        } else {
            Scan { slash: b == 0x2F, ..s }
        }
    } else if b == 0x3E {
        Scan { mode: Mode::Refused, ..s }
    } else if (s.aux == 1 && b == 0x27) || (s.aux == 2 && b == 0x22) {
        Scan { aux: 0, slash: false, ..s }
    } else {
        Scan { slash: false, ..s }
    }
}

/// Takes the scan over one more byte.
pub fn advance(s: Scan, b: u8) -> (next: Scan)
    ensures
        next == step(s, b),
{
    match s.mode {
        Mode::Text => if b == 0x3C {
            Scan { mode: Mode::Open, aux: 0, slash: false, depth: s.depth }
        } else {
            s
        },
        Mode::Open => if b == 0x2F {
            Scan { mode: Mode::End, aux: 0, slash: false, depth: s.depth }
        } else if b == 0x21 {
            Scan { mode: Mode::Bang, aux: 0, slash: false, depth: s.depth }
        } else if b == 0x3F {
            Scan { mode: Mode::Pi, aux: 0, slash: false, depth: s.depth }
        } else if s.depth >= MAX_NESTING {
            Scan { mode: Mode::Refused, ..s }
        } else {
            advance_in_tag(Scan { mode: Mode::Start, aux: 0, slash: false, depth: s.depth + 1 }, b)
        },
        Mode::Start => advance_in_tag(s, b),
        Mode::End => advance_in_tag(s, b),
        Mode::Bang => if s.aux <= 6 && b == opener(s.aux) {
            if s.aux == 6 {
                Scan { mode: Mode::Cdata, aux: 0, ..s }
            } else {
                Scan { aux: s.aux + 1, ..s }
            }
        } else if s.aux == 0 && b == 0x2D {
            Scan { mode: Mode::BangDash, ..s }
        } else {
            Scan { mode: Mode::Refused, ..s }
        },
        Mode::BangDash => if b == 0x2D {
            Scan { mode: Mode::Comment, aux: 0, ..s }
        } else {
            Scan { mode: Mode::Refused, ..s }
        },
        Mode::Cdata => if b == 0x3E && s.aux >= 2 {
            Scan { mode: Mode::Text, aux: 0, ..s }
        } else if b == 0x5D {
            Scan { aux: if s.aux >= 1 { 2 } else { 1 }, ..s }
        } else {
            Scan { aux: 0, ..s }
        },
        Mode::Comment => if b == 0x3C {
            Scan { mode: Mode::Refused, ..s }
        } else if b == 0x3E && s.aux >= 2 {
            Scan { mode: Mode::Text, aux: 0, ..s }
        } else if b == 0x2D {
            Scan { aux: if s.aux >= 1 { 2 } else { 1 }, ..s }
        } else {
            Scan { aux: 0, ..s }
        },
        Mode::Pi => if b == 0x3C {
            Scan { mode: Mode::Refused, ..s }
        } else if b == 0x3E && s.aux >= 1 {
            Scan { mode: Mode::Text, aux: 0, ..s }
        } else {
            Scan { aux: if b == 0x3F { 1 } else { 0 }, ..s }
        },
        Mode::Refused => s,
    }
}

/// Scans a document and tells whether it is taken.
pub fn is_shallow(document: &str) -> (ok: bool)
    ensures
        ok == shallow(document@),
{
    let bytes = document.as_bytes();
    let mut s = Scan { mode: Mode::Text, aux: 0, slash: false, depth: 0 };
    let mut i: usize = 0;
    while i < bytes.len()
        invariant
            i <= bytes.len(),
            s == scan(bytes@.take(i as int)),
        decreases bytes.len() - i,
    {
        proof {
            assert(bytes@.take(i as int + 1).drop_last() =~= bytes@.take(i as int));
        }
        s = advance(s, bytes[i]);
        i += 1;
    }
    assert(bytes@.take(i as int) =~= bytes@);
    match s.mode {
        Mode::Refused => false,
        _ => true,
    }
}

} // verus!
