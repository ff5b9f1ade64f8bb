//! Capture buffer format negotiation.
//!
//! The compositor advertises candidate (fourcc, modifier list) pairs; the
//! recorder accepts the first candidate, in a fixed preference order of
//! pixel encodings, whose modifier list contains either the linear layout
//! or the driver's "don't care" sentinel.

use vstd::prelude::*;

verus! {

/// Fourcc code of the 8-bit XRGB pixel encoding.
pub const FOURCC_XRGB8888: u32 = 0x34325258;

/// Fourcc code of the 8-bit XBGR pixel encoding.
pub const FOURCC_XBGR8888: u32 = 0x34324258;

/// Fourcc code of the 10-bit XRGB pixel encoding.
pub const FOURCC_XRGB2101010: u32 = 0x30335258;

/// Buffer layout modifier: plain linear (untiled, uncompressed) layout.
pub const MODIFIER_LINEAR: u64 = 0;

/// Buffer layout modifier: the "invalid / don't care" sentinel. Some
/// drivers report only this instead of listing linear explicitly.
pub const MODIFIER_INVALID: u64 = 0x00ff_ffff_ffff_ffff;

/// One candidate format advertised by the compositor: a pixel encoding and
/// the buffer layout modifiers it can be produced with.
#[derive(Clone, Debug)]
pub struct DmabufPotentialFormat {
    pub fourcc: u32,
    pub modifiers: Vec<u64>,
}

/// The negotiated capture buffer format: pixel encoding, size, and the
/// modifiers the buffers may use.
#[derive(Clone, Debug)]
pub struct DmabufFormat {
    pub width: i32,
    pub height: i32,
    pub fourcc: u32,
    pub modifiers: Vec<u64>,
}

impl DmabufFormat {
    /// Value comparison, used to tell a real format change (which forces a
    /// pipeline rebuild) from a no-op renegotiation.
    pub fn same_as(&self, other: &DmabufFormat) -> (r: bool)
        ensures
            r == (self.width == other.width && self.height == other.height && self.fourcc
                == other.fourcc && self.modifiers@ == other.modifiers@),
    {
        if self.width != other.width || self.height != other.height || self.fourcc != other.fourcc
            || self.modifiers.len() != other.modifiers.len() {
            return false;
        }
        let mut i: usize = 0;
        while i < self.modifiers.len()
            invariant
                i <= self.modifiers.len(),
                self.modifiers@.len() == other.modifiers@.len(),
                forall|j: int| 0 <= j < i ==> self.modifiers@[j] == other.modifiers@[j],
            decreases self.modifiers.len() - i,
        {
            if self.modifiers[i] != other.modifiers[i] {
                return false;
            }
            i += 1;
        }
        proof {
            assert(self.modifiers@ =~= other.modifiers@);
        }
        true
    }
}

/// The pixel layouts capture buffers can be read as, named after how the
/// encoder library spells them.
#[derive(Clone, Copy, Debug, PartialEq, Eq, Structural)]
pub enum CapturePixelFormat {
    /// 8-bit blue/green/red with an unused byte: what 8-bit XRGB buffers
    /// decode as.
    Bgrz,
    /// 10-bit XRGB, little endian.
    X2rgb10le,
}

/// The pixel layout a negotiated fourcc is read as. Only the two XRGB
/// encodings can be consumed downstream; handing any other fourcc in is a
/// negotiation bug.
pub fn dmabuf_to_av(fourcc: u32) -> (r: CapturePixelFormat)
    requires
        fourcc == FOURCC_XRGB8888 || fourcc == FOURCC_XRGB2101010,
    ensures
        r == (if fourcc == FOURCC_XRGB8888 {
            CapturePixelFormat::Bgrz
        } else {
            CapturePixelFormat::X2rgb10le
        }),
{
    if fourcc == FOURCC_XRGB8888 {
        CapturePixelFormat::Bgrz
    } else {
        CapturePixelFormat::X2rgb10le
    }
}

/// A modifier list is acceptable when the buffers can be laid out linearly,
/// or when the driver declines to say (the invalid sentinel).
pub open spec fn spec_modifiers_acceptable(mods: Seq<u64>) -> bool {
    mods.contains(MODIFIER_LINEAR) || mods.contains(MODIFIER_INVALID)
}

/// An acceptable candidate with the given pixel encoding exists.
pub open spec fn has_acceptable(cands: Seq<DmabufPotentialFormat>, fourcc: u32) -> bool {
    exists|i: int|
        0 <= i < cands.len() && cands[i].fourcc == fourcc && spec_modifiers_acceptable(
            cands[i].modifiers@,
        )
}

/// `i` is the first candidate with the given encoding and an acceptable
/// modifier list.
pub open spec fn is_first_acceptable(
    cands: Seq<DmabufPotentialFormat>,
    fourcc: u32,
    i: int,
) -> bool {
    &&& 0 <= i < cands.len()
    &&& cands[i].fourcc == fourcc
    &&& spec_modifiers_acceptable(cands[i].modifiers@)
    &&& forall|j: int|
        0 <= j < i ==> !(cands[j].fourcc == fourcc && spec_modifiers_acceptable(
            cands[j].modifiers@,
        ))
}

/// The pixel encoding negotiation settles on: the first of the preference
/// order (8-bit XRGB, then 8-bit XBGR, then 10-bit XRGB) that has an
/// acceptable candidate, if any.
pub open spec fn chosen_fourcc(cands: Seq<DmabufPotentialFormat>) -> Option<u32> {
    if has_acceptable(cands, FOURCC_XRGB8888) {
        Some(FOURCC_XRGB8888)
    } else if has_acceptable(cands, FOURCC_XBGR8888) {
        Some(FOURCC_XBGR8888)
    } else if has_acceptable(cands, FOURCC_XRGB2101010) {
        Some(FOURCC_XRGB2101010)
    } else {
        None
    }
}

/// No candidate offered any of the supported pixel encodings with an
/// acceptable modifier list; negotiation cannot proceed. The error
/// carries the candidates that were tried, so the fatal diagnostic can
/// name them.
#[derive(Clone, Debug)]
pub enum NegotiationError {
    NoAcceptableFormat { attempted: Vec<DmabufPotentialFormat> },
}

fn modifiers_acceptable(mods: &Vec<u64>) -> (r: bool)
    ensures
        r == spec_modifiers_acceptable(mods@),
{
    let mut i: usize = 0;
    while i < mods.len()
        invariant
            i <= mods.len(),
            forall|j: int| 0 <= j < i ==> mods@[j] != MODIFIER_LINEAR && mods@[j] != MODIFIER_INVALID,
        decreases mods.len() - i,
    {
        if mods[i] == MODIFIER_LINEAR || mods[i] == MODIFIER_INVALID {
            return true;
        }
        i += 1;
    }
    false
}

fn find_first_acceptable(cands: &Vec<DmabufPotentialFormat>, fourcc: u32) -> (r: Option<usize>)
    ensures
        r matches Some(i) ==> is_first_acceptable(cands@, fourcc, i as int),
        r is None ==> !has_acceptable(cands@, fourcc),
{
    let mut i: usize = 0;
    while i < cands.len()
        invariant
            i <= cands.len(),
            forall|j: int|
                0 <= j < i ==> !(cands@[j].fourcc == fourcc && spec_modifiers_acceptable(
                    cands@[j].modifiers@,
                )),
        decreases cands.len() - i,
    {
        if cands[i].fourcc == fourcc && modifiers_acceptable(&cands[i].modifiers) {
            return Some(i);
        }
        i += 1;
    }
    None
}

/// Picks the capture format: tries the preferred pixel encodings in order
/// and accepts the first candidate whose modifiers allow a linear (or
/// unspecified) layout. The buffer size is fixed by the compositor and is
/// carried through unchanged.
pub fn negotiate_format(cands: &Vec<DmabufPotentialFormat>, width: i32, height: i32) -> (r: Result<
    DmabufFormat,
    NegotiationError,
>)
    ensures
        r is Ok <==> chosen_fourcc(cands@) is Some,
        r matches Ok(f) ==> {
            &&& Some(f.fourcc) == chosen_fourcc(cands@)
            &&& f.width == width
            &&& f.height == height
            &&& exists|i: int|
                is_first_acceptable(cands@, f.fourcc, i) && f.modifiers@ == cands@[i].modifiers@
        },
        r matches Err(e) ==> e matches NegotiationError::NoAcceptableFormat { attempted } && {
            &&& attempted@.len() == cands@.len()
            &&& forall|i: int|
                0 <= i < cands@.len() ==> (#[trigger] attempted@[i]).fourcc == cands@[i].fourcc
                    && attempted@[i].modifiers@ == cands@[i].modifiers@
        },
{
    let prefs: [u32; 3] = [FOURCC_XRGB8888, FOURCC_XBGR8888, FOURCC_XRGB2101010];
    let mut p: usize = 0;
    while p < 3
        invariant
            p <= 3,
            prefs@ =~= seq![FOURCC_XRGB8888, FOURCC_XBGR8888, FOURCC_XRGB2101010],
            forall|q: int| 0 <= q < p ==> !has_acceptable(cands@, prefs@[q]),
        decreases 3 - p,
    {
        if let Some(i) = find_first_acceptable(cands, prefs[p]) {
            return Ok(
                DmabufFormat {
                    width,
                    height,
                    fourcc: prefs[p],
                    modifiers: cands[i].modifiers.clone(),
                },
            );
        }
        p += 1;
    }
    let mut attempted: Vec<DmabufPotentialFormat> = Vec::new();
    let mut i: usize = 0;
    while i < cands.len()
        invariant
            i <= cands@.len(),
            attempted@.len() == i,
            forall|j: int|
                0 <= j < i ==> (#[trigger] attempted@[j]).fourcc == cands@[j].fourcc
                    && attempted@[j].modifiers@ == cands@[j].modifiers@,
        decreases cands@.len() - i,
    {
        attempted.push(
            DmabufPotentialFormat { fourcc: cands[i].fourcc, modifiers: cands[i].modifiers.clone() },
        );
        i += 1;
    }
    Err(NegotiationError::NoAcceptableFormat { attempted })
}

/// Candidates offering 8-bit XRGB with an acceptable layout always win,
/// even when an acceptable 10-bit XRGB candidate is also present.
pub proof fn lemma_negotiation_prefers_8bit(cands: Seq<DmabufPotentialFormat>)
    requires
        has_acceptable(cands, FOURCC_XRGB8888),
    ensures
        chosen_fourcc(cands) == Some(FOURCC_XRGB8888),
{
}

/// When only the 10-bit XRGB encoding has an acceptable candidate, it is
/// selected.
pub proof fn lemma_negotiation_takes_10bit_alone(cands: Seq<DmabufPotentialFormat>)
    requires
        !has_acceptable(cands, FOURCC_XRGB8888),
        !has_acceptable(cands, FOURCC_XBGR8888),
        has_acceptable(cands, FOURCC_XRGB2101010),
    ensures
        chosen_fourcc(cands) == Some(FOURCC_XRGB2101010),
{
}

} // verus!
