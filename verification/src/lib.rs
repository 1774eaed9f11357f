//! Signal bitmap interpretation for a process.
//!
//! A process's status records five kinds of signal sets (pending,
//! shared-pending, blocked, ignored, caught), each exposed as a 64-bit
//! hexadecimal bitmap. This library resolves signal indices to their
//! canonical short names, interprets a bitmap as an ordered list of
//! names, and renders the result as a fixed-width text block.
use vstd::prelude::*;

pub mod bitmap;
pub mod reader;
pub mod render;
pub mod signals;

pub use bitmap::interpret;

verus! {

/// The kind of signal bitmap tracked for a process.
#[derive(Clone, Copy, Debug, PartialEq, Eq, Structural)]
pub enum BitmapType {
    /// Pending signals (thread).
    SigPnd,
    /// Pending signals (shared between threads in a process).
    ShdPnd,
    /// Blocked signals.
    SigBlk,
    /// Ignored signals.
    SigIgn,
    /// Caught signals.
    SigCgt,
}

impl Default for BitmapType {
    fn default() -> (r: Self)
        ensures
            r == BitmapType::SigPnd,
    {
        BitmapType::SigPnd
    }
}

impl BitmapType {
    /// The label of this bitmap kind: its short name followed by a
    /// colon. The label prefixes the data line in the status text and
    /// names the kind in the rendered output.
    pub open spec fn spec_label(self) -> Seq<char> {
        match self {
            BitmapType::SigPnd => "SigPnd:"@,
            BitmapType::ShdPnd => "ShdPnd:"@,
            BitmapType::SigBlk => "SigBlk:"@,
            BitmapType::SigIgn => "SigIgn:"@,
            BitmapType::SigCgt => "SigCgt:"@,
        }
    }

    /// The short name of this bitmap kind.
    pub open spec fn spec_short_name(self) -> Seq<char> {
        match self {
            BitmapType::SigPnd => "SigPnd"@,
            BitmapType::ShdPnd => "ShdPnd"@,
            BitmapType::SigBlk => "SigBlk"@,
            BitmapType::SigIgn => "SigIgn"@,
            BitmapType::SigCgt => "SigCgt"@,
        }
    }

    /// Returns the label of this bitmap kind.
    pub fn label(&self) -> (r: &'static str)
        ensures
            r@ == self.spec_label(),
    {
        match self {
            BitmapType::SigPnd => "SigPnd:",
            BitmapType::ShdPnd => "ShdPnd:",
            BitmapType::SigBlk => "SigBlk:",
            BitmapType::SigIgn => "SigIgn:",
            BitmapType::SigCgt => "SigCgt:",
        }
    }
}

/// Each bitmap kind's label contains its short name: the label is
/// exactly the short name followed by a colon, so the short name is
/// the leading part of the label.
pub proof fn lemma_label_contains_short_name(t: BitmapType)
    ensures
        t.spec_label() == t.spec_short_name().push(':'),
        t.spec_label().len() == t.spec_short_name().len() + 1,
        t.spec_label().subrange(0, t.spec_short_name().len() as int) == t.spec_short_name(),
{
    reveal_strlit("SigPnd:");
    reveal_strlit("ShdPnd:");
    reveal_strlit("SigBlk:");
    reveal_strlit("SigIgn:");
    reveal_strlit("SigCgt:");
    reveal_strlit("SigPnd");
    reveal_strlit("ShdPnd");
    reveal_strlit("SigBlk");
    reveal_strlit("SigIgn");
    reveal_strlit("SigCgt");
    assert(t.spec_label() =~= t.spec_short_name().push(':'));
    assert(t.spec_label().subrange(0, t.spec_short_name().len() as int) =~= t.spec_short_name());
}

/// A process id together with the kind of bitmap to interpret.
pub struct SigBitmapArgs {
    /// PID of the process.
    pub pid: u32,
    /// Type of bitmap to interpret.
    pub map: BitmapType,
}

} // verus!
