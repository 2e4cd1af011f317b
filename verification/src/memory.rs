//! The allocator of physical page frames: a list of address ranges that are
//! free, from which frames are cut and to which they return.

use itertools::Itertools;
use vstd::prelude::*;

verus! {

/// A range of physical addresses, from `start` up to but not including
/// `end`.
#[derive(Debug, Clone, Copy, PartialEq, Eq, Structural)]
pub struct FrameRange {
    pub start: u64,
    pub end: u64,
}

impl FrameRange {
    /// Whether the range holds the address `addr`.
    pub open spec fn holds(self, addr: u64) -> bool {
        self.start <= addr < self.end
    }
}

/// What two ranges that touch become: if the first ends where the second
/// starts they are joined in that order, if the second ends where the first
/// starts in the other. Ranges that do not touch are not joined.
pub open spec fn joined(x: FrameRange, y: FrameRange) -> Option<FrameRange> {
    if x.end == y.start {
        Some(FrameRange { start: x.start, end: y.end })
    } else if y.end == x.start {
        Some(FrameRange { start: y.start, end: x.end })
    } else {
        None
    }
}

/// Joins two ranges that touch, or hands both back.
pub fn join_ranges(x: FrameRange, y: FrameRange) -> (r: Result<FrameRange, (FrameRange, FrameRange)>)
    ensures
        joined(x, y).is_some() ==> r == Ok::<FrameRange, (FrameRange, FrameRange)>(
            joined(x, y).unwrap(),
        ),
        joined(x, y).is_none() ==> r == Err::<FrameRange, (FrameRange, FrameRange)>((x, y)),
{
    if x.end == y.start {
        Ok(FrameRange { start: x.start, end: y.end })
    } else if y.end == x.start {
        Ok(FrameRange { start: y.start, end: x.end })
    } else {
        Err((x, y))
    }
}

/// `ranges`, which are in order of their start, with `x` put behind the last
/// range that starts no later than `x`.
pub open spec fn insert_by_start(ranges: Seq<FrameRange>, x: FrameRange) -> Seq<FrameRange>
    decreases ranges.len(),
{
    if ranges.len() == 0 {
        seq![x]
    } else if ranges.last().start <= x.start {
        ranges.push(x)
    } else {
        insert_by_start(ranges.drop_last(), x).push(ranges.last())
    }
}

/// `ranges` in order of their start; ranges with the same start keep their
/// order.
pub open spec fn sorted_by_start(ranges: Seq<FrameRange>) -> Seq<FrameRange>
    decreases ranges.len(),
{
    if ranges.len() == 0 {
        Seq::<FrameRange>::empty()
    } else {
        insert_by_start(sorted_by_start(ranges.drop_last()), ranges.last())
    }
}

/// Inserting leaves the ranges before the place as they are, and moves the
/// others up by one.
proof fn lemma_insert_at(ranges: Seq<FrameRange>, x: FrameRange, place: int)
    requires
        0 <= place <= ranges.len(),
        place > 0 ==> ranges[place - 1].start <= x.start,
        forall|j: int| place <= j < ranges.len() ==> ranges[j].start > x.start,
    ensures
        insert_by_start(ranges, x) == ranges.insert(place, x),
    decreases ranges.len(),
{
    if ranges.len() == 0 {
        assert(ranges.insert(place, x) =~= seq![x]);
    } else if place == ranges.len() {
        assert(ranges.insert(place, x) =~= ranges.push(x));
    } else {
        lemma_insert_at(ranges.drop_last(), x, place);
        assert(ranges.drop_last().insert(place, x).push(ranges.last()) =~= ranges.insert(place, x));
    }
}

/// Puts `x` into `ranges` behind the last range that starts no later.
fn insert_range(ranges: &mut Vec<FrameRange>, x: FrameRange)
    ensures
        final(ranges)@ == insert_by_start(old(ranges)@, x),
{
    let mut place: usize = ranges.len();
    while place > 0 && ranges[place - 1].start > x.start
        invariant
            place <= ranges.len(),
            ranges@ == old(ranges)@,
            forall|j: int| place <= j < ranges.len() ==> ranges[j].start > x.start,
        decreases place,
    {
        place = place - 1;
    }
    proof {
        lemma_insert_at(ranges@, x, place as int);
    }
    ranges.insert(place, x);
}

/// Puts `ranges` in order of their start; ranges with the same start keep
/// their order.
pub fn sort_by_start(ranges: &Vec<FrameRange>) -> (sorted: Vec<FrameRange>)
    ensures
        sorted@ == sorted_by_start(ranges@),
{
    let mut sorted: Vec<FrameRange> = Vec::new();
    let mut i: usize = 0;
    while i < ranges.len()
        invariant
            i <= ranges.len(),
            sorted@ == sorted_by_start(ranges@.take(i as int)),
        decreases ranges.len() - i,
    {
        proof {
            assert(ranges@.take(i as int + 1).drop_last() =~= ranges@.take(i as int));
        }
        insert_range(&mut sorted, ranges[i]);
        i = i + 1;
    }
    proof {
        assert(ranges@.take(ranges.len() as int) =~= ranges@);
    }
    sorted
}

/// What is left of `rest` once `previous` has been carried through it:
/// `previous` is joined with each next range as long as they touch; where
/// they do not, `previous` is put out and the next range is carried on. What
/// is carried at the end is put out too.
pub open spec fn coalesced_from(previous: FrameRange, rest: Seq<FrameRange>) -> Seq<FrameRange>
    decreases rest.len(),
{
    if rest.len() == 0 {
        seq![previous]
    } else {
        match joined(previous, rest[0]) {
            Some(both) => coalesced_from(both, rest.drop_first()),
            None => seq![previous] + coalesced_from(rest[0], rest.drop_first()),
        }
    }
}

/// `ranges` with consecutive ranges that touch joined.
pub open spec fn coalesced(ranges: Seq<FrameRange>) -> Seq<FrameRange> {
    if ranges.len() == 0 {
        Seq::<FrameRange>::empty()
    } else {
        coalesced_from(ranges[0], ranges.drop_first())
    }
}

/// `Itertools::coalesce` with [`join_ranges`]: the iterator carries a
/// previous element along; where the closure joins it with the current one,
/// the joined element is carried on, and where it does not, the previous one
/// is put out and the current one is carried on. The element carried at the
/// end is put out as well.
#[verifier::external_body]
fn coalesce_ranges(ranges: Vec<FrameRange>) -> (r: Vec<FrameRange>)
    ensures
        r@ == coalesced(ranges@),
{
    ranges.into_iter().coalesce(|x, y| join_ranges(x, y)).collect()
}

/// `ranges` without those that start where they end.
pub open spec fn without_empty(ranges: Seq<FrameRange>) -> Seq<FrameRange> {
    ranges.filter(|r: FrameRange| r.start != r.end)
}

/// Drops the ranges that start where they end.
pub fn drop_empty(ranges: &Vec<FrameRange>) -> (kept: Vec<FrameRange>)
    ensures
        kept@ == without_empty(ranges@),
{
    let mut kept: Vec<FrameRange> = Vec::new();
    let mut i: usize = 0;
    proof {
        reveal(Seq::filter);
        assert(ranges@.take(0) =~= Seq::<FrameRange>::empty());
    }
    while i < ranges.len()
        invariant
            i <= ranges.len(),
            kept@ == without_empty(ranges@.take(i as int)),
        decreases ranges.len() - i,
    {
        let r = ranges[i];
        proof {
            reveal(Seq::filter);
            assert(ranges@.take(i as int + 1).drop_last() =~= ranges@.take(i as int));
            assert(ranges@.take(i as int + 1).last() == r);
        }
        if r.start != r.end {
            kept.push(r);
        }
        i = i + 1;
    }
    proof {
        assert(ranges@.take(ranges.len() as int) =~= ranges@);
    }
    kept
}

/// The greatest multiple of `align` that is not above `addr`.
pub fn align_down(addr: u64, align: u64) -> (aligned: u64)
    requires
        align > 0,
    ensures
        aligned == addr - addr % align,
{
    assert(addr % align <= addr) by (nonlinear_arith)
        requires
            align > 0,
    ;
    addr - addr % align
}

/// The free ranges once they are tidied: put in order of their start,
/// touching neighbours joined, empty ranges dropped.
pub open spec fn tidied(ranges: Seq<FrameRange>) -> Seq<FrameRange> {
    without_empty(coalesced(sorted_by_start(ranges)))
}

/// The first range at or after `from` that has room for `size` bytes, or
/// the number of ranges if none has.
pub open spec fn first_fit(ranges: Seq<FrameRange>, size: u64, from: int) -> int
    decreases ranges.len() - from,
{
    if from >= ranges.len() {
        ranges.len() as int
    } else if from >= 0 && ranges[from].start + size <= ranges[from].end {
        from
    } else {
        first_fit(ranges, size, from + 1)
    }
}

/// Whether one of `ranges` holds the address `addr`.
pub open spec fn covers(ranges: Seq<FrameRange>, addr: u64) -> bool
    decreases ranges.len(),
{
    ranges.len() > 0 && (ranges.last().holds(addr) || covers(ranges.drop_last(), addr))
}

/// Whether no range of `ranges` ends before it starts.
pub open spec fn all_ordered(ranges: Seq<FrameRange>) -> bool {
    forall|i: int| 0 <= i < ranges.len() ==> (#[trigger] ranges[i]).start <= ranges[i].end
}

proof fn lemma_covers_none(addr: u64)
    ensures
        !covers(Seq::<FrameRange>::empty(), addr),
{
}

proof fn lemma_covers_push(ranges: Seq<FrameRange>, x: FrameRange, addr: u64)
    ensures
        covers(ranges.push(x), addr) <==> covers(ranges, addr) || x.holds(addr),
{
    assert(ranges.push(x).drop_last() =~= ranges);
    assert(ranges.push(x).last() == x);
}

proof fn lemma_covers_front(x: FrameRange, rest: Seq<FrameRange>, addr: u64)
    ensures
        covers(seq![x] + rest, addr) <==> x.holds(addr) || covers(rest, addr),
    decreases rest.len(),
{
    let all = seq![x] + rest;
    if rest.len() == 0 {
        assert(all =~= Seq::<FrameRange>::empty().push(x));
        lemma_covers_push(Seq::<FrameRange>::empty(), x, addr);
        lemma_covers_none(addr);
        assert(rest =~= Seq::<FrameRange>::empty());
    } else {
        lemma_covers_front(x, rest.drop_last(), addr);
        assert(all =~= (seq![x] + rest.drop_last()).push(rest.last()));
        lemma_covers_push(seq![x] + rest.drop_last(), rest.last(), addr);
        assert(rest =~= rest.drop_last().push(rest.last()));
        lemma_covers_push(rest.drop_last(), rest.last(), addr);
    }
}

proof fn lemma_insert_covers(ranges: Seq<FrameRange>, x: FrameRange, addr: u64)
    ensures
        covers(insert_by_start(ranges, x), addr) <==> covers(ranges, addr) || x.holds(addr),
    decreases ranges.len(),
{
    if ranges.len() == 0 {
        assert(seq![x] =~= Seq::<FrameRange>::empty().push(x));
        lemma_covers_push(Seq::<FrameRange>::empty(), x, addr);
        lemma_covers_none(addr);
        assert(ranges =~= Seq::<FrameRange>::empty());
    } else if ranges.last().start <= x.start {
        lemma_covers_push(ranges, x, addr);
    } else {
        lemma_insert_covers(ranges.drop_last(), x, addr);
        lemma_covers_push(insert_by_start(ranges.drop_last(), x), ranges.last(), addr);
        assert(ranges =~= ranges.drop_last().push(ranges.last()));
        lemma_covers_push(ranges.drop_last(), ranges.last(), addr);
    }
}

proof fn lemma_insert_ordered(ranges: Seq<FrameRange>, x: FrameRange)
    requires
        all_ordered(ranges),
        x.start <= x.end,
    ensures
        all_ordered(insert_by_start(ranges, x)),
    decreases ranges.len(),
{
    if ranges.len() > 0 && ranges.last().start > x.start {
        lemma_insert_ordered(ranges.drop_last(), x);
    }
}

proof fn lemma_sorted_covers(ranges: Seq<FrameRange>, addr: u64)
    ensures
        covers(sorted_by_start(ranges), addr) <==> covers(ranges, addr),
    decreases ranges.len(),
{
    if ranges.len() > 0 {
        lemma_sorted_covers(ranges.drop_last(), addr);
        lemma_insert_covers(sorted_by_start(ranges.drop_last()), ranges.last(), addr);
    }
}

proof fn lemma_sorted_ordered(ranges: Seq<FrameRange>)
    requires
        all_ordered(ranges),
    ensures
        all_ordered(sorted_by_start(ranges)),
    decreases ranges.len(),
{
    if ranges.len() > 0 {
        lemma_sorted_ordered(ranges.drop_last());
        lemma_insert_ordered(sorted_by_start(ranges.drop_last()), ranges.last());
    }
}

proof fn lemma_coalesced_from_covers(previous: FrameRange, rest: Seq<FrameRange>, addr: u64)
    requires
        previous.start <= previous.end,
        all_ordered(rest),
    ensures
        covers(coalesced_from(previous, rest), addr) <==> previous.holds(addr) || covers(rest, addr),
    decreases rest.len(),
{
    if rest.len() == 0 {
        assert(seq![previous] =~= Seq::<FrameRange>::empty().push(previous));
        lemma_covers_push(Seq::<FrameRange>::empty(), previous, addr);
        lemma_covers_none(addr);
        assert(rest =~= Seq::<FrameRange>::empty());
    } else {
        let next = rest[0];
        let tail = rest.drop_first();
        assert(rest =~= seq![next] + tail);
        lemma_covers_front(next, tail, addr);
        assert(next.start <= next.end);
        assert(all_ordered(tail)) by {
            assert forall|i: int| 0 <= i < tail.len() implies (#[trigger] tail[i]).start
                <= tail[i].end by {
                assert(tail[i] == rest[i + 1]);
            }
        }
        match joined(previous, next) {
            Some(both) => {
                assert(both.holds(addr) <==> previous.holds(addr) || next.holds(addr));
                lemma_coalesced_from_covers(both, tail, addr);
            },
            None => {
                lemma_coalesced_from_covers(next, tail, addr);
                lemma_covers_front(previous, coalesced_from(next, tail), addr);
            },
        }
    }
}

proof fn lemma_without_empty_covers(ranges: Seq<FrameRange>, addr: u64)
    ensures
        covers(without_empty(ranges), addr) <==> covers(ranges, addr),
    decreases ranges.len(),
{
    reveal(Seq::filter);
    if ranges.len() == 0 {
        assert(without_empty(ranges) =~= ranges);
    } else {
        lemma_without_empty_covers(ranges.drop_last(), addr);
        let kept = without_empty(ranges.drop_last());
        assert(ranges =~= ranges.drop_last().push(ranges.last()));
        lemma_covers_push(ranges.drop_last(), ranges.last(), addr);
        if ranges.last().start != ranges.last().end {
            assert(without_empty(ranges) == kept.push(ranges.last()));
            lemma_covers_push(kept, ranges.last(), addr);
        } else {
            assert(without_empty(ranges) == kept);
        }
    }
}

/// Tidying the free ranges neither loses nor gains an address, as long as no
/// range ends before it starts.
pub proof fn lemma_tidying_keeps_the_addresses(ranges: Seq<FrameRange>, addr: u64)
    requires
        all_ordered(ranges),
    ensures
        covers(tidied(ranges), addr) <==> covers(ranges, addr),
{
    let sorted = sorted_by_start(ranges);
    lemma_sorted_covers(ranges, addr);
    lemma_sorted_ordered(ranges);
    if sorted.len() > 0 {
        assert(sorted =~= seq![sorted[0]] + sorted.drop_first());
        lemma_covers_front(sorted[0], sorted.drop_first(), addr);
        lemma_coalesced_from_covers(sorted[0], sorted.drop_first(), addr);
    }
    lemma_without_empty_covers(coalesced(sorted), addr);
}

/// An allocator of page frames over a list of free address ranges.
#[derive(Debug)]
pub struct SmartFrameAllocator {
    memory_ranges: Vec<FrameRange>,
}

impl SmartFrameAllocator {
    /// The free ranges, in the order they are searched.
    pub closed spec fn ranges(&self) -> Seq<FrameRange> {
        self.memory_ranges@
    }

    /// An allocator over the given free ranges.
    pub fn new(memory_ranges: Vec<FrameRange>) -> (allocator: Self)
        ensures
            allocator.ranges() == memory_ranges@,
    {
        SmartFrameAllocator { memory_ranges }
    }

    /// The number of free ranges.
    pub fn len(&self) -> (n: usize)
        ensures
            n == self.ranges().len(),
    {
        self.memory_ranges.len()
    }

    /// The free range at `index`.
    pub fn range(&self, index: usize) -> (range: FrameRange)
        requires
            index < self.ranges().len(),
        ensures
            range == self.ranges()[index as int],
    {
        self.memory_ranges[index]
    }

    /// Tidies the free ranges: see [`tidied`].
    pub fn coallesce(&mut self)
        ensures
            final(self).ranges() == tidied(old(self).ranges()),
    {
        let sorted = sort_by_start(&self.memory_ranges);
        let coalesced = coalesce_ranges(sorted);
        self.memory_ranges = drop_empty(&coalesced);
    }

    /// Cuts a frame of `size` bytes off the start of the first free range
    /// that has room for it, and returns the address of the frame that holds
    /// the range's old start. `None` if no range has room; then nothing
    /// changes.
    pub fn allocate_frame(&mut self, size: u64) -> (frame: Option<u64>)
        requires
            size > 0,
        ensures
            0 <= first_fit(old(self).ranges(), size, 0) <= old(self).ranges().len(),
            first_fit(old(self).ranges(), size, 0) == old(self).ranges().len() ==> frame.is_none()
                && final(self).ranges() == old(self).ranges(),
            first_fit(old(self).ranges(), size, 0) < old(self).ranges().len() ==> ({
                let i = first_fit(old(self).ranges(), size, 0);
                let found = old(self).ranges()[i];
                &&& frame == Some((found.start - found.start % size) as u64)
                &&& final(self).ranges() == old(self).ranges().update(
                    i,
                    FrameRange { start: (found.start + size) as u64, end: found.end },
                )
            }),
    {
        let mut i: usize = 0;
        while i < self.memory_ranges.len()
            invariant
                size > 0,
                i <= self.memory_ranges.len(),
                self.ranges() == old(self).ranges(),
                first_fit(self.ranges(), size, 0) == first_fit(self.ranges(), size, i as int),
            decreases self.memory_ranges.len() - i,
        {
            let range = self.memory_ranges[i];
            let fits = match range.start.checked_add(size) {
                Some(new_start) => new_start <= range.end,
                None => false,
            };
            if fits {
                let new_start = range.start + size;
                self.memory_ranges[i] = FrameRange { start: new_start, end: range.end };
                return Some(align_down(range.start, size));
            }
            i = i + 1;
        }
        None
    }

    /// Returns the frame of `size` bytes at `address` to the free ranges, as
    /// a range of its own behind the others, and tidies them.
    pub fn deallocate_frame(&mut self, address: u64, size: u64)
        requires
            address + size <= u64::MAX,
        ensures
            final(self).ranges() == tidied(
                old(self).ranges().push(FrameRange { start: address, end: (address + size) as u64 }),
            ),
    {
        self.memory_ranges.push(FrameRange { start: address, end: address + size });
        self.coallesce();
    }
}

/// The size of a page frame in bytes.
pub const FRAME_SIZE: u64 = 4096;

/// What a region of the memory map is used for.
#[derive(Debug, Clone, Copy, PartialEq, Eq, Structural)]
pub enum MemoryRegionKind {
    /// Free for the kernel to use.
    Usable,
    /// In use by the boot loader.
    Bootloader,
    /// A kind that the firmware reported and the boot loader does not know.
    UnknownUefi(u32),
    /// A kind that the BIOS reported and the boot loader does not know.
    UnknownBios(u32),
}

/// A region of the memory map handed over at boot.
#[derive(Debug, Clone, Copy, PartialEq, Eq, Structural)]
pub struct MemoryRegion {
    pub start: u64,
    pub end: u64,
    pub kind: MemoryRegionKind,
}

impl MemoryRegion {
    /// The addresses of the region.
    pub open spec fn range(self) -> FrameRange {
        FrameRange { start: self.start, end: self.end }
    }
}

/// What a request for a frame leads to, given the memory map, the number of
/// the next region to look at and the range being cut up: the frame if there
/// is one, and the new number and range. A range with room gives the frame
/// that holds its start and loses that much; a range without room is given
/// up, and the next usable region takes its place; with no region left there
/// is no frame.
pub open spec fn frame_from(regions: Seq<MemoryRegion>, next: int, current: Option<FrameRange>) -> (
    Option<u64>,
    int,
    Option<FrameRange>,
)
    decreases regions.len() - next, (if current.is_some() {
        1int
    } else {
        0int
    }),
{
    match current {
        Some(range) => if range.start + FRAME_SIZE <= range.end {
            (
                Some((range.start - range.start % FRAME_SIZE) as u64),
                next,
                Some(FrameRange { start: (range.start + FRAME_SIZE) as u64, end: range.end }),
            )
        } else {
            frame_from(regions, next, None)
        },
        None => if next < 0 || next >= regions.len() {
            (None, next, None)
        } else if regions[next].kind == MemoryRegionKind::Usable {
            frame_from(regions, next + 1, Some(regions[next].range()))
        } else {
            frame_from(regions, next + 1, None)
        },
    }
}

/// The ranges of the regions of `regions` that are not marked usable, in
/// order.
pub open spec fn ranges_not_usable(regions: Seq<MemoryRegion>) -> Seq<FrameRange>
    decreases regions.len(),
{
    if regions.len() == 0 {
        Seq::<FrameRange>::empty()
    } else if regions.last().kind != MemoryRegionKind::Usable {
        ranges_not_usable(regions.drop_last()).push(regions.last().range())
    } else {
        ranges_not_usable(regions.drop_last())
    }
}

/// The allocator of the first hour: it walks the memory map once and cuts
/// frames off its usable regions, one region after the other.
pub struct BootInfoFrameAllocator {
    memory_map: Vec<MemoryRegion>,
    next: usize,
    current_region: Option<FrameRange>,
}

impl BootInfoFrameAllocator {
    /// The memory map.
    pub closed spec fn regions(&self) -> Seq<MemoryRegion> {
        self.memory_map@
    }

    /// The number of the next region to look at.
    pub closed spec fn position(&self) -> int {
        self.next as int
    }

    /// The range that frames are being cut from.
    pub closed spec fn current(&self) -> Option<FrameRange> {
        self.current_region
    }

    /// The position is within the memory map or at its end.
    pub open spec fn wf(&self) -> bool {
        0 <= self.position() <= self.regions().len()
    }

    /// An allocator at the start of the memory map. The caller vouches that
    /// the regions marked usable are unused.
    pub fn init(memory_map: Vec<MemoryRegion>) -> (allocator: Self)
        ensures
            allocator.wf(),
            allocator.regions() == memory_map@,
            allocator.position() == 0,
            allocator.current().is_none(),
    {
        BootInfoFrameAllocator { memory_map, next: 0, current_region: None }
    }

    /// Hands out the next frame: see [`frame_from`].
    pub fn allocate_frame(&mut self) -> (frame: Option<u64>)
        requires
            old(self).wf(),
        ensures
            final(self).wf(),
            final(self).regions() == old(self).regions(),
            (frame, final(self).position(), final(self).current()) == frame_from(
                old(self).regions(),
                old(self).position(),
                old(self).current(),
            ),
    {
        loop
            invariant
                self.wf(),
                self.regions() == old(self).regions(),
                frame_from(self.regions(), self.position(), self.current()) == frame_from(
                    old(self).regions(),
                    old(self).position(),
                    old(self).current(),
                ),
            decreases
                    self.memory_map.len() - self.next,
                    (if self.current_region.is_some() {
                        1int
                    } else {
                        0int
                    }),
        {
            match self.current_region {
                Some(range) => {
                    let fits = match range.start.checked_add(FRAME_SIZE) {
                        Some(new_start) => new_start <= range.end,
                        None => false,
                    };
                    if fits {
                        self.current_region = Some(
                            FrameRange { start: range.start + FRAME_SIZE, end: range.end },
                        );
                        return Some(align_down(range.start, FRAME_SIZE));
                    } else {
                        self.current_region = None;
                    }
                },
                None => {
                    if self.next >= self.memory_map.len() {
                        return None;
                    }
                    let region = self.memory_map[self.next];
                    self.next = self.next + 1;
                    match region.kind {
                        MemoryRegionKind::Usable => {
                            self.current_region = Some(
                                FrameRange { start: region.start, end: region.end },
                            );
                        },
                        _ => {},
                    }
                },
            }
        }
    }
}

impl SmartFrameAllocator {
    /// The allocator that takes over from the first one: its free ranges are
    /// those of the regions not yet looked at that are not marked usable, in
    /// order, followed by what is left of the range that was being cut up.
    pub fn init(first: BootInfoFrameAllocator) -> (allocator: Self)
        requires
            first.wf(),
        ensures
            allocator.ranges() == ranges_not_usable(
                first.regions().skip(first.position()),
            ) + match first.current() {
                Some(range) => seq![range],
                None => Seq::<FrameRange>::empty(),
            },
    {
        let mut memory_ranges: Vec<FrameRange> = Vec::new();
        let mut i: usize = first.next;
        let ghost rest = first.regions().skip(first.position());
        proof {
            assert(rest.take(0) =~= Seq::<MemoryRegion>::empty());
        }
        while i < first.memory_map.len()
            invariant
                first.next <= i <= first.memory_map.len(),
                rest == first.regions().skip(first.position()),
                memory_ranges@ == ranges_not_usable(rest.take(i - first.next)),
            decreases first.memory_map.len() - i,
        {
            let region = first.memory_map[i];
            proof {
                let upto = rest.take(i - first.next + 1);
                assert(upto.drop_last() =~= rest.take(i - first.next));
                assert(upto.last() == region);
            }
            match region.kind {
                MemoryRegionKind::Usable => {},
                _ => {
                    memory_ranges.push(FrameRange { start: region.start, end: region.end });
                },
            }
            i = i + 1;
        }
        proof {
            assert(rest.take(rest.len() as int) =~= rest);
        }
        match first.current_region {
            Some(range) => {
                memory_ranges.push(range);
                assert(memory_ranges@ =~= ranges_not_usable(rest) + seq![range]);
            },
            None => {
                assert(memory_ranges@ =~= ranges_not_usable(rest) + Seq::<FrameRange>::empty());
            },
        }
        SmartFrameAllocator { memory_ranges }
    }
}

} // verus!
