//! Compositor output bookkeeping and capture target selection.
//!
//! Outputs are discovered incrementally from compositor events; once every
//! output has reported, exactly one output and a region of interest inside
//! it are chosen from the command-line selectors.

use vstd::prelude::*;

use crate::history::Rational;
use crate::transform::{spec_is_transposed, transpose_if_transform_transposed, Rect, Transform};

verus! {

/// Everything the recorder needs to know of one output, as a snapshot.
pub struct OutputInfo {
    /// The compositor's global id for the output.
    pub global_name: u32,
    /// The output's name, e.g. a connector name.
    pub name: String,
    /// Logical position in the global screen layout.
    pub loc: (i32, i32),
    /// Logical size (scaled units) in the global screen layout.
    pub logical_size: (i32, i32),
    /// Native size in pixels.
    pub size_pixels: (i32, i32),
    /// Refresh rate.
    pub refresh: Rational,
    /// How the output is rotated or flipped.
    pub transform: Transform,
}

/// An output under discovery: fields arrive one compositor event at a
/// time, and the snapshot is complete only when all of them are present.
pub struct PartialOutputInfo {
    pub global_name: u32,
    pub name: Option<String>,
    pub loc: Option<(i32, i32)>,
    pub logical_size: Option<(i32, i32)>,
    pub size_pixels: Option<(i32, i32)>,
    pub refresh: Option<Rational>,
    pub has_recvd_done: bool,
    pub transform: Option<Transform>,
}

/// The finished snapshot a fully reported partial yields; nothing while
/// a field is still missing. A missing transform defaults to no
/// rotation.
pub open spec fn spec_complete(p: PartialOutputInfo) -> Option<OutputInfo> {
    match (p.name, p.loc, p.logical_size, p.size_pixels, p.refresh) {
        (Some(name), Some(loc), Some(logical_size), Some(size_pixels), Some(refresh)) => Some(
            OutputInfo {
                global_name: p.global_name,
                name,
                loc,
                logical_size,
                size_pixels,
                refresh,
                transform: match p.transform {
                    Some(t) => t,
                    None => Transform::Normal,
                },
            },
        ),
        _ => None,
    }
}

impl PartialOutputInfo {
    /// The finished snapshot, once every field has been reported; a
    /// missing transform defaults to no rotation.
    pub fn complete(&self) -> (r: Option<OutputInfo>)
        ensures
            r == spec_complete(*self),
            r is Some <==> (self.name is Some && self.loc is Some && self.logical_size is Some
                && self.size_pixels is Some && self.refresh is Some),
            r matches Some(info) ==> {
                &&& info.global_name == self.global_name
                &&& Some(info.name) == self.name
                &&& Some(info.loc) == self.loc
                &&& Some(info.logical_size) == self.logical_size
                &&& Some(info.size_pixels) == self.size_pixels
                &&& Some(info.refresh) == self.refresh
                &&& info.transform == (match self.transform {
                    Some(t) => t,
                    None => Transform::Normal,
                })
            },
    {
        if let (Some(name), Some(loc), Some(logical_size), Some(size_pixels), Some(refresh)) = (
            &self.name,
            &self.loc,
            &self.logical_size,
            &self.size_pixels,
            &self.refresh,
        ) {
            Some(
                OutputInfo {
                    global_name: self.global_name,
                    name: name.clone(),
                    loc: *loc,
                    logical_size: *logical_size,
                    size_pixels: *size_pixels,
                    refresh: *refresh,
                    transform: match self.transform {
                        Some(t) => t,
                        None => Transform::Normal,
                    },
                },
            )
        } else {
            None
        }
    }
}

/// A logical length scaled into pixels: `l * px / lsz`, rounded to the
/// nearest integer (halves away from zero).
pub open spec fn spec_logical_to_pixel(l: int, px: int, lsz: int) -> int {
    (2 * l * px + lsz) / (2 * lsz)
}

/// The output's pixel size as seen in screen space: transposed when the
/// transform swaps the axes.
pub open spec fn spec_size_screen_space(o: OutputInfo) -> (i32, i32) {
    if spec_is_transposed(o.transform) {
        (o.size_pixels.1, o.size_pixels.0)
    } else {
        o.size_pixels
    }
}

/// The screen-space rectangle `(x, y)..(x+w, y+h)` lies entirely within
/// the output's logical extent.
pub open spec fn spec_contains_region(o: OutputInfo, x: int, y: int, w: int, h: int) -> bool {
    &&& x >= o.loc.0
    &&& x + w <= o.loc.0 + o.logical_size.0
    &&& y >= o.loc.1
    &&& y + h <= o.loc.1 + o.logical_size.1
}

impl OutputInfo {
    /// Scales one logical coordinate into pixels using the output's
    /// fractional scale (pixel width over logical width), rounding to
    /// nearest.
    pub fn logical_to_pixel(&self, logical: i32) -> (r: i32)
        requires
            0 <= logical <= 0x1000_0000,
            1 <= self.logical_size.0 <= 0x1000_0000,
            0 <= self.size_pixels.0 <= 0x1000_0000,
            spec_logical_to_pixel(
                logical as int,
                self.size_pixels.0 as int,
                self.logical_size.0 as int,
            ) <= i32::MAX,
        ensures
            r == spec_logical_to_pixel(
                logical as int,
                self.size_pixels.0 as int,
                self.logical_size.0 as int,
            ),
            r >= 0,
    {
        let l = logical as u64;
        let px = self.size_pixels.0 as u64;
        let lsz = self.logical_size.0 as u64;
        proof {
            vstd::arithmetic::mul::lemma_mul_upper_bound(
                2 * (l as int),
                0x2000_0000int,
                px as int,
                0x1000_0000,
            );
            vstd::arithmetic::div_mod::lemma_div_is_ordered(
                0,
                2 * (l as int) * (px as int) + lsz as int,
                2 * lsz as int,
            );
        }
        let r = (2 * l * px + lsz) / (2 * lsz);
        r as i32
    }

    /// The output's pixel size in screen-space orientation.
    pub fn size_screen_space(&self) -> (r: (i32, i32))
        ensures
            r == spec_size_screen_space(*self),
    {
        transpose_if_transform_transposed(self.size_pixels, self.transform)
    }
}

/// Why no capture target could be selected; each is a configuration error
/// reported before any capture starts.
#[derive(Clone, Copy, Debug, PartialEq, Eq, Structural)]
pub enum SelectionError {
    /// Several outputs are enabled but neither a name nor a region was
    /// given.
    MultipleOutputsNoSelector,
    /// No enabled output carries the requested name.
    OutputNotFound,
    /// The requested region is not contained in any single output.
    RegionNotInOneOutput,
    /// The requested region is contained in more than one output, so the
    /// choice would be ambiguous.
    RegionInMultipleOutputs,
    /// A name and a region were both given; they are mutually exclusive.
    BothGeometryAndOutput,
}

/// The scaled value never exceeds the pixel extent while the logical
/// value is within the logical extent.
proof fn lemma_ltp_le_px(l: int, px: int, lsz: int)
    requires
        0 <= l <= lsz,
        1 <= lsz,
        0 <= px,
    ensures
        0 <= spec_logical_to_pixel(l, px, lsz) <= px,
{
    assert(2 * l * px <= 2 * lsz * px) by (nonlinear_arith)
        requires
            0 <= l <= lsz,
            0 <= px,
    ;
    vstd::arithmetic::div_mod::lemma_div_is_ordered(2 * l * px + lsz, 2 * lsz * px + lsz, 2 * lsz);
    assert((2 * lsz * px + lsz) / (2 * lsz) == px) by (nonlinear_arith)
        requires
            1 <= lsz,
            0 <= px,
    ;
    vstd::arithmetic::div_mod::lemma_div_is_ordered(0, 2 * l * px + lsz, 2 * lsz);
}

/// Scaling is monotone in the logical value.
proof fn lemma_ltp_monotone(l1: int, l2: int, px: int, lsz: int)
    requires
        0 <= l1 <= l2,
        1 <= lsz,
        0 <= px,
    ensures
        spec_logical_to_pixel(l1, px, lsz) <= spec_logical_to_pixel(l2, px, lsz),
{
    assert(2 * l1 * px <= 2 * l2 * px) by (nonlinear_arith)
        requires
            0 <= l1 <= l2,
            0 <= px,
    ;
    vstd::arithmetic::div_mod::lemma_div_is_ordered(
        2 * l1 * px + lsz,
        2 * l2 * px + lsz,
        2 * lsz,
    );
}

/// The whole-output capture rectangle: the output's screen-space size
/// anchored at the origin.
pub open spec fn spec_full_rect(o: OutputInfo) -> Rect {
    Rect { x: 0, y: 0, w: spec_size_screen_space(o).0, h: spec_size_screen_space(o).1 }
}

/// Bounds under which output selection arithmetic cannot overflow: all
/// coordinates are moderate, and the pixel scale of the largest logical
/// extent still fits.
pub open spec fn spec_outputs_bounded(outputs: Seq<OutputInfo>) -> bool {
    forall|k: int|
        0 <= k < outputs.len() ==> {
            let o = #[trigger] outputs[k];
            &&& 1 <= o.logical_size.0 <= 0x1000_0000
            &&& 1 <= o.logical_size.1 <= 0x1000_0000
            &&& 0 <= o.size_pixels.0 <= 0x1000_0000
            &&& -0x1000_0000 <= o.loc.0 <= 0x1000_0000
            &&& -0x1000_0000 <= o.loc.1 <= 0x1000_0000
            &&& spec_logical_to_pixel(
                if o.logical_size.1 >= o.logical_size.0 {
                    o.logical_size.1 as int
                } else {
                    o.logical_size.0 as int
                },
                o.size_pixels.0 as int,
                o.logical_size.0 as int,
            ) <= i32::MAX
        }
}

/// Chooses which output to capture and the region of interest inside it,
/// from the enabled outputs and the command-line selectors. With no
/// selector there must be exactly one output and it is captured whole. A
/// name selects the first output carrying it, captured whole. A region
/// must lie entirely within exactly one output — containment in none or
/// in several is a fatal configuration error — and is scaled into that
/// output's pixels. Giving both selectors is an error.
pub fn select_output(
    outputs: &Vec<OutputInfo>,
    geometry: Option<(i32, i32, u32, u32)>,
    output_name: &String,
) -> (r: Result<(usize, Rect), SelectionError>)
    requires
        spec_outputs_bounded(outputs@),
        geometry matches Some((x, y, w, h)) ==> -0x1000_0000 <= x <= 0x1000_0000 && -0x1000_0000
            <= y <= 0x1000_0000 && w <= 0x1000_0000 && h <= 0x1000_0000,
    ensures
        geometry is Some && output_name@.len() > 0 ==> r == Err::<(usize, Rect), SelectionError>(
            SelectionError::BothGeometryAndOutput,
        ),
        geometry is None && output_name@.len() == 0 ==> {
            if outputs@.len() == 1 {
                r matches Ok((i, rect)) && i == 0 && rect == spec_full_rect(outputs@[0])
            } else {
                r == Err::<(usize, Rect), SelectionError>(SelectionError::MultipleOutputsNoSelector)
            }
        },
        geometry is None && output_name@.len() > 0 ==> {
            match r {
                Ok((i, rect)) => {
                    &&& i < outputs@.len()
                    &&& outputs@[i as int].name@ == output_name@
                    &&& forall|j: int| 0 <= j < i ==> outputs@[j].name@ != output_name@
                    &&& rect == spec_full_rect(outputs@[i as int])
                },
                Err(e) => e == SelectionError::OutputNotFound && forall|j: int|
                    0 <= j < outputs@.len() ==> outputs@[j].name@ != output_name@,
            }
        },
        geometry matches Some((x, y, w, h)) ==> output_name@.len() == 0 ==> {
            match r {
                Ok((i, rect)) => {
                    let o = outputs@[i as int];
                    &&& i < outputs@.len()
                    &&& spec_contains_region(o, x as int, y as int, w as int, h as int)
                    &&& forall|j: int|
                        0 <= j < outputs@.len() && j != i ==> !spec_contains_region(
                            outputs@[j],
                            x as int,
                            y as int,
                            w as int,
                            h as int,
                        )
                    &&& rect.x == spec_logical_to_pixel(
                        x - o.loc.0,
                        o.size_pixels.0 as int,
                        o.logical_size.0 as int,
                    )
                    &&& rect.y == spec_logical_to_pixel(
                        y - o.loc.1,
                        o.size_pixels.0 as int,
                        o.logical_size.0 as int,
                    )
                    &&& rect.w == spec_logical_to_pixel(
                        w as int,
                        o.size_pixels.0 as int,
                        o.logical_size.0 as int,
                    )
                    &&& rect.h == spec_logical_to_pixel(
                        h as int,
                        o.size_pixels.0 as int,
                        o.logical_size.0 as int,
                    )
                },
                Err(e) => if exists|j: int|
                    0 <= j < outputs@.len() && #[trigger] spec_contains_region(
                        outputs@[j],
                        x as int,
                        y as int,
                        w as int,
                        h as int,
                    ) {
                    e == SelectionError::RegionInMultipleOutputs && exists|j1: int, j2: int|
                        0 <= j1 < j2 < outputs@.len() && spec_contains_region(
                            outputs@[j1],
                            x as int,
                            y as int,
                            w as int,
                            h as int,
                        ) && spec_contains_region(outputs@[j2], x as int, y as int, w as int, h as int)
                } else {
                    e == SelectionError::RegionNotInOneOutput
                },
            }
        },
{
    let name_given = output_name.as_str().unicode_len() > 0;
    match (geometry, name_given) {
        (Some(_), true) => Err(SelectionError::BothGeometryAndOutput),
        (None, false) => {
            if outputs.len() == 1 {
                let rect = Rect::new((0, 0), outputs[0].size_screen_space());
                Ok((0, rect))
            } else {
                Err(SelectionError::MultipleOutputsNoSelector)
            }
        },
        (None, true) => {
            let mut i: usize = 0;
            while i < outputs.len()
                invariant
                    i <= outputs@.len(),
                    geometry is None,
                    output_name@.len() > 0,
                    forall|j: int| 0 <= j < i ==> outputs@[j].name@ != output_name@,
                decreases outputs@.len() - i,
            {
                if outputs[i].name.eq(output_name) {
                    let rect = Rect::new((0, 0), outputs[i].size_screen_space());
                    return Ok((i, rect));
                }
                i += 1;
            }
            Err(SelectionError::OutputNotFound)
        },
        (Some((x, y, w, h)), false) => {
            let w = w as i32;
            let h = h as i32;
            let n = outputs.len();
            let mut first: Option<usize> = None;
            let mut i: usize = 0;
            while i < n
                invariant_except_break
                    first is None,
                invariant
                    i <= n,
                    n == outputs@.len(),
                    -0x1000_0000 <= x <= 0x1000_0000,
                    -0x1000_0000 <= y <= 0x1000_0000,
                    0 <= w <= 0x1000_0000,
                    0 <= h <= 0x1000_0000,
                    spec_outputs_bounded(outputs@),
                    forall|j: int|
                        0 <= j < i ==> !spec_contains_region(
                            outputs@[j],
                            x as int,
                            y as int,
                            w as int,
                            h as int,
                        ),
                ensures
                    match first {
                        Some(f) => f < n && spec_contains_region(
                            outputs@[f as int],
                            x as int,
                            y as int,
                            w as int,
                            h as int,
                        ) && forall|j: int|
                            0 <= j < f ==> !spec_contains_region(
                                outputs@[j],
                                x as int,
                                y as int,
                                w as int,
                                h as int,
                            ),
                        None => forall|j: int|
                            0 <= j < n ==> !spec_contains_region(
                                outputs@[j],
                                x as int,
                                y as int,
                                w as int,
                                h as int,
                            ),
                    },
                decreases n - i,
            {
                let o = &outputs[i];
                if x >= o.loc.0 && x + w <= o.loc.0 + o.logical_size.0 && y >= o.loc.1 && y + h
                    <= o.loc.1 + o.logical_size.1 {
                    first = Some(i);
                    break ;
                }
                i += 1;
            }
            let f = match first {
                Some(f) => f,
                None => {
                    return Err(SelectionError::RegionNotInOneOutput);
                },
            };
            // containment in a second output would make the choice
            // ambiguous
            let mut i: usize = f + 1;
            while i < n
                invariant
                    f < i <= n,
                    n == outputs@.len(),
                    output_name@.len() == 0,
                    geometry matches Some((gx, gy, gw, gh)) && gx == x && gy == y && gw == w as u32
                        && gh == h as u32,
                    -0x1000_0000 <= x <= 0x1000_0000,
                    -0x1000_0000 <= y <= 0x1000_0000,
                    0 <= w <= 0x1000_0000,
                    0 <= h <= 0x1000_0000,
                    spec_outputs_bounded(outputs@),
                    spec_contains_region(outputs@[f as int], x as int, y as int, w as int, h as int),
                    forall|j: int|
                        0 <= j < i && j != f ==> !spec_contains_region(
                            outputs@[j],
                            x as int,
                            y as int,
                            w as int,
                            h as int,
                        ),
                decreases n - i,
            {
                let o = &outputs[i];
                if x >= o.loc.0 && x + w <= o.loc.0 + o.logical_size.0 && y >= o.loc.1 && y + h
                    <= o.loc.1 + o.logical_size.1 {
                    return Err(SelectionError::RegionInMultipleOutputs);
                }
                i += 1;
            }
            let o = &outputs[f];
            proof {
                let px = o.size_pixels.0 as int;
                let lsz = o.logical_size.0 as int;
                let worst = if o.logical_size.1 >= o.logical_size.0 {
                    o.logical_size.1 as int
                } else {
                    o.logical_size.0 as int
                };
                lemma_ltp_le_px(x - o.loc.0, px, lsz);
                lemma_ltp_le_px(w as int, px, lsz);
                lemma_ltp_monotone(y - o.loc.1, worst, px, lsz);
                lemma_ltp_monotone(h as int, worst, px, lsz);
                lemma_ltp_le_px(0, px, lsz);
                lemma_ltp_monotone(0, y - o.loc.1, px, lsz);
                lemma_ltp_monotone(0, h as int, px, lsz);
            }
            let rect = Rect {
                x: o.logical_to_pixel(x - o.loc.0),
                y: o.logical_to_pixel(y - o.loc.1),
                w: o.logical_to_pixel(w),
                h: o.logical_to_pixel(h),
            };
            Ok((f, rect))
        },
    }
}

/// One compositor event about an output under discovery.
pub enum OutputEvent {
    Name(String),
    LogicalPosition(i32, i32),
    LogicalSize(i32, i32),
    PixelSize(i32, i32),
    Refresh(Rational),
    TransformChanged(Transform),
    /// The compositor finished one round of description events.
    Done,
}

/// One output being probed: its identity, the fields collected so far,
/// and the finished snapshot once probing it is over.
pub struct ProbeEntry {
    /// The protocol object id the events arrive under.
    pub id: u64,
    pub partial: PartialOutputInfo,
    pub ready: Option<OutputInfo>,
}

/// The output discovery ledger: every known output with its probing
/// progress. The probe is complete once every known output has a
/// finished snapshot.
pub struct OutputProbe {
    pub entries: Vec<ProbeEntry>,
}

/// The ledger holds an entry for this id.
pub open spec fn probe_has_id(entries: Seq<ProbeEntry>, id: u64) -> bool {
    exists|i: int| 0 <= i < entries.len() && entries[i].id == id
}

/// Ids name at most one entry each.
pub open spec fn probe_ids_unique(entries: Seq<ProbeEntry>) -> bool {
    forall|i: int, j: int|
        0 <= i < j < entries.len() ==> (#[trigger] entries[i]).id != (#[trigger] entries[j]).id
}

/// Every known output has reported completely.
pub open spec fn spec_probe_complete(entries: Seq<ProbeEntry>) -> bool {
    forall|i: int| 0 <= i < entries.len() ==> (#[trigger] entries[i]).ready is Some
}

/// A partial snapshot with one field updated by the event (`Done` leaves
/// the fields alone).
pub open spec fn spec_apply_event(p: PartialOutputInfo, ev: OutputEvent) -> PartialOutputInfo {
    match ev {
        OutputEvent::Name(n) => PartialOutputInfo { name: Some(n), ..p },
        OutputEvent::LogicalPosition(x, y) => PartialOutputInfo { loc: Some((x, y)), ..p },
        OutputEvent::LogicalSize(w, h) => PartialOutputInfo { logical_size: Some((w, h)), ..p },
        OutputEvent::PixelSize(w, h) => PartialOutputInfo { size_pixels: Some((w, h)), ..p },
        OutputEvent::Refresh(r) => PartialOutputInfo { refresh: Some(r), ..p },
        OutputEvent::TransformChanged(t) => PartialOutputInfo { transform: Some(t), ..p },
        OutputEvent::Done => p,
    }
}

impl OutputProbe {
    /// An empty ledger.
    pub fn new() -> (r: OutputProbe)
        ensures
            r.entries@ == Seq::<ProbeEntry>::empty(),
    {
        OutputProbe { entries: Vec::new() }
    }

    /// Starts probing a newly announced output.
    pub fn register(&mut self, id: u64, global_name: u32)
        requires
            !probe_has_id(old(self).entries@, id),
        ensures
            final(self).entries@.len() == old(self).entries@.len() + 1,
            final(self).entries@.subrange(0, old(self).entries@.len() as int) == old(
                self,
            ).entries@,
            ({
                let e = final(self).entries@.last();
                &&& e.id == id
                &&& e.ready is None
                &&& e.partial == (PartialOutputInfo {
                    global_name,
                    name: None::<String>,
                    loc: None::<(i32, i32)>,
                    logical_size: None::<(i32, i32)>,
                    size_pixels: None::<(i32, i32)>,
                    refresh: None::<Rational>,
                    has_recvd_done: false,
                    transform: None::<Transform>,
                })
            }),
            probe_ids_unique(old(self).entries@) ==> probe_ids_unique(final(self).entries@),
    {
        proof {
            assert forall|i: int|
                0 <= i < self.entries@.len() implies (#[trigger] self.entries@[i]).id != id by {}
        }
        self.entries.push(
            ProbeEntry {
                id,
                partial: PartialOutputInfo {
                    global_name,
                    name: None,
                    loc: None,
                    logical_size: None,
                    size_pixels: None,
                    refresh: None,
                    has_recvd_done: false,
                    transform: None,
                },
                ready: None,
            },
        );
    }

    /// Forgets everything; used when discovery restarts from scratch.
    pub fn clear(&mut self)
        ensures
            final(self).entries@ == Seq::<ProbeEntry>::empty(),
    {
        self.entries.clear();
    }

    /// Feeds one event about the output `id` into the ledger and says
    /// whether, afterwards, every known output has reported completely.
    /// Description events fill in the partial snapshot. Each output sends
    /// two rounds of events, each ended by `Done`; only the second round
    /// carries the extended description, so only then is the snapshot
    /// taken, and only if every field has arrived.
    pub fn on_event(&mut self, id: u64, ev: OutputEvent) -> (probe_complete: bool)
        requires
            probe_has_id(old(self).entries@, id),
            probe_ids_unique(old(self).entries@),
        ensures
            final(self).entries@.len() == old(self).entries@.len(),
            probe_ids_unique(final(self).entries@),
            probe_complete == spec_probe_complete(final(self).entries@),
            forall|i: int|
                0 <= i < old(self).entries@.len() && (#[trigger] old(self).entries@[i]).id != id
                    ==> final(self).entries@[i] == old(self).entries@[i],
            forall|i: int|
                0 <= i < old(self).entries@.len() && (#[trigger] old(self).entries@[i]).id == id
                    ==> {
                    let before = old(self).entries@[i];
                    let after = final(self).entries@[i];
                    &&& after.id == before.id
                    &&& (match ev {
                        OutputEvent::Done => {
                            if !before.partial.has_recvd_done {
                                after.partial == (PartialOutputInfo {
                                    has_recvd_done: true,
                                    ..before.partial
                                }) && after.ready == before.ready
                            } else {
                                after.partial == before.partial && after.ready == (match spec_complete(
                                    before.partial,
                                ) {
                                    Some(info) => Some(info),
                                    None => before.ready,
                                })
                            }
                        },
                        _ => after.partial == spec_apply_event(before.partial, ev) && after.ready
                            == before.ready,
                    })
                },
    {
        let n = self.entries.len();
        let ghost entries0 = self.entries@;
        let mut idx: usize = 0;
        let mut found: bool = false;
        while idx < n
            invariant_except_break
                !found,
            invariant
                idx <= n,
                n == self.entries@.len(),
                self.entries@ == entries0,
                forall|j: int| 0 <= j < idx ==> (#[trigger] entries0[j]).id != id,
            ensures
                found ==> idx < n && entries0[idx as int].id == id,
                !found ==> forall|j: int| 0 <= j < n ==> (#[trigger] entries0[j]).id != id,
            decreases n - idx,
        {
            if self.entries[idx].id == id {
                found = true;
                break ;
            }
            idx += 1;
        }
        if found {
            let mut entry = self.entries.remove(idx);
            match ev {
                OutputEvent::Name(name) => entry.partial.name = Some(name),
                OutputEvent::LogicalPosition(x, y) => entry.partial.loc = Some((x, y)),
                OutputEvent::LogicalSize(w, h) => entry.partial.logical_size = Some((w, h)),
                OutputEvent::PixelSize(w, h) => entry.partial.size_pixels = Some((w, h)),
                OutputEvent::Refresh(r) => entry.partial.refresh = Some(r),
                OutputEvent::TransformChanged(t) => entry.partial.transform = Some(t),
                OutputEvent::Done => {
                    if !entry.partial.has_recvd_done {
                        entry.partial.has_recvd_done = true;
                    } else {
                        if let Some(info) = entry.partial.complete() {
                            entry.ready = Some(info);
                        }
                    }
                },
            }
            self.entries.insert(idx, entry);
            proof {
                assert(self.entries@ =~= entries0.update(
                    idx as int,
                    self.entries@[idx as int],
                ));
            }
        }
        let mut all_ready = true;
        let mut i: usize = 0;
        while i < self.entries.len()
            invariant
                i <= self.entries@.len(),
                all_ready == (forall|j: int|
                    0 <= j < i ==> (#[trigger] self.entries@[j]).ready is Some),
            decreases self.entries@.len() - i,
        {
            if self.entries[i].ready.is_none() {
                all_ready = false;
            }
            i += 1;
        }
        all_ready
    }
}

} // verus!
