use vstd::prelude::*;

use crate::page::{BufferId, PageId, PAGE_SIZE};

verus! {

/// A page held in memory: which page it is, its bytes, and whether those bytes
/// differ from what the heap file holds.
pub struct Buffer {
    pub page_id: PageId,
    pub page: Vec<u8>,
    pub is_dirty: bool,
}

/// Model of a page resident in a frame.
pub struct ResidentPage {
    pub id: u64,
    pub data: Seq<u8>,
    pub dirty: bool,
}

/// Model of a frame: its usage count, its pin count and the page it holds, if any.
pub struct FrameView {
    pub usage: nat,
    pub pins: nat,
    pub resident: Option<ResidentPage>,
}

/// Model of the pool: its frames in order and the position of the clock hand.
pub struct PoolView {
    pub frames: Seq<FrameView>,
    pub cursor: nat,
}

impl Buffer {
    /// Model of this buffer as a resident page.
    pub open spec fn resident_view(&self) -> ResidentPage {
        ResidentPage { id: self.page_id.0, data: self.page@, dirty: self.is_dirty }
    }
}

/// A slot of the pool, holding at most one page.
pub struct Frame {
    usage_count: u64,
    pin_count: u64,
    buffer: Option<Buffer>,
}

impl View for Frame {
    type V = FrameView;

    closed spec fn view(&self) -> FrameView {
        FrameView {
            usage: self.usage_count as nat,
            pins: self.pin_count as nat,
            resident: match self.buffer {
                Some(b) => Some(b.resident_view()),
                None => None,
            },
        }
    }
}

/// A fixed number of frames and the clock hand of the eviction sweep.
pub struct BufferPool {
    buffers: Vec<Frame>,
    next_victim_id: BufferId,
}

impl View for BufferPool {
    type V = PoolView;

    closed spec fn view(&self) -> PoolView {
        PoolView {
            frames: self.buffers@.map_values(|f: Frame| f@),
            cursor: self.next_victim_id.0 as nat,
        }
    }
}

/// Every frame's own invariant: a pinned frame has a positive usage count, and a
/// resident page is exactly one page long.
pub open spec fn frame_wf(f: FrameView) -> bool {
    &&& f.pins > 0 ==> f.usage > 0
    &&& f.usage <= u64::MAX
    &&& f.pins <= u64::MAX
    &&& f.resident matches Some(p) ==> p.data.len() == PAGE_SIZE
}

/// The pool's invariant: the hand points at a frame (when there is one), and every frame
/// keeps its own invariant.
pub open spec fn pool_wf(v: PoolView) -> bool {
    &&& v.frames.len() <= u64::MAX
    &&& v.frames.len() == 0 ==> v.cursor == 0
    &&& v.frames.len() > 0 ==> v.cursor < v.frames.len()
    &&& forall|i: int| 0 <= i < v.frames.len() ==> #[trigger] frame_wf(v.frames[i])
}

/// Number of steps the clock hand takes from `from` to reach `to` on a dial of `n` frames.
pub open spec fn clock_distance(n: nat, from: nat, to: nat) -> nat {
    if to >= from {
        (to - from) as nat
    } else {
        (to + n - from) as nat
    }
}

/// The step of the sweep, counted from `cursor`, at which frame `i` would be taken if it
/// stayed unpinned: each full turn of the hand removes one from its usage count.
pub open spec fn clock_key(frames: Seq<FrameView>, cursor: nat, i: int) -> int {
    (frames[i].usage * frames.len() + clock_distance(frames.len(), cursor, i as nat)) as int
}

/// `v` is the unpinned frame that the sweep from `cursor` reaches first with a usage count of 0.
pub open spec fn is_clock_victim(frames: Seq<FrameView>, cursor: nat, v: int) -> bool {
    &&& 0 <= v < frames.len()
    &&& frames[v].pins == 0
    &&& forall|g: int|
        0 <= g < frames.len() && g != v && #[trigger] frames[g].pins == 0 ==> clock_key(
            frames,
            cursor,
            v,
        ) < clock_key(frames, cursor, g)
}

/// The frame that the sweep from `cursor` selects, or `None` when there is none.
pub open spec fn clock_victim(frames: Seq<FrameView>, cursor: nat) -> Option<int> {
    if exists|v: int| is_clock_victim(frames, cursor, v) {
        Some(choose|v: int| is_clock_victim(frames, cursor, v))
    } else {
        None
    }
}

/// The frames once the sweep from `cursor` has stopped at `v`: every unpinned frame lost one
/// usage for each time the hand passed it; pinned frames are untouched.
pub open spec fn after_sweep(frames: Seq<FrameView>, cursor: nat, v: int) -> Seq<FrameView> {
    Seq::new(
        frames.len(),
        |g: int|
            if frames[g].pins > 0 {
                frames[g]
            } else {
                FrameView {
                    usage: ((clock_key(frames, cursor, g) - clock_key(frames, cursor, v)
                        - clock_distance(frames.len(), v as nat, g as nat)) / (
                    frames.len() as int)) as nat,
                    pins: frames[g].pins,
                    resident: frames[g].resident,
                }
            },
    )
}

/// Position of the hand `j` steps before `i`, for `j <= n`.
spec fn steps_back(n: nat, i: nat, j: int) -> int {
    if i >= j {
        i - j
    } else {
        i + n - j
    }
}

/// Position of the hand one step after `i`.
pub open spec fn clock_next(n: nat, i: nat) -> nat {
    if i + 1 >= n {
        0
    } else {
        i + 1
    }
}

/// Every frame is pinned (vacuously so when there are none).
pub open spec fn all_pinned(frames: Seq<FrameView>) -> bool {
    forall|i: int| 0 <= i < frames.len() ==> #[trigger] frames[i].pins > 0
}

impl BufferPool {
    /// The pool's invariant, which every operation keeps.
    pub open spec fn wf(&self) -> bool {
        pool_wf(self@)
    }

    proof fn lemma_view(&self)
        ensures
            self@.frames.len() == self.buffers.len(),
            forall|i: int| 0 <= i < self.buffers.len() ==> #[trigger] self@.frames[i] == self.buffers@[i]@,
    {
    }

    /// A pool of `pool_size` empty frames, with the clock hand on the first.
    pub fn new(pool_size: usize) -> (r: BufferPool)
        ensures
            r.wf(),
            r@.frames.len() == pool_size,
            r@.cursor == 0,
            forall|i: int|
                0 <= i < pool_size ==> #[trigger] r@.frames[i] == (FrameView {
                    usage: 0,
                    pins: 0,
                    resident: None,
                }),
    {
        let mut buffers: Vec<Frame> = Vec::new();
        let mut i: usize = 0;
        while i < pool_size
            invariant
                i <= pool_size,
                buffers.len() == i,
                forall|j: int|
                    0 <= j < i ==> (#[trigger] buffers@[j])@ == (FrameView {
                        usage: 0,
                        pins: 0,
                        resident: None,
                    }),
            decreases pool_size - i,
        {
            buffers.push(Frame { usage_count: 0, pin_count: 0, buffer: None });
            i = i + 1;
        }
        BufferPool { buffers, next_victim_id: BufferId(0) }
    }

    /// Number of frames.
    pub fn size(&self) -> (r: usize)
        ensures
            r == self@.frames.len(),
    {
        self.buffers.len()
    }

    /// Clock sweep: picks the frame to reclaim. From the hand onwards, an unpinned frame whose
    /// usage count is 0 is taken and the hand left just past it; any other unpinned frame loses
    /// one usage and is passed; a pinned frame is passed untouched. When the hand has passed as
    /// many pinned frames in a row as the pool has frames, there is no victim.
    pub fn evict(&mut self) -> (r: Option<BufferId>)
        requires
            old(self).wf(),
        ensures
            final(self).wf(),
            final(self)@.frames.len() == old(self)@.frames.len(),
            r is None <==> all_pinned(old(self)@.frames),
            match r {
                None => final(self)@ == old(self)@,
                Some(v) => {
                    &&& clock_victim(old(self)@.frames, old(self)@.cursor) == Some(v.0 as int)
                    &&& old(self)@.frames[v.0 as int].pins == 0
                    &&& final(self)@.frames == after_sweep(
                        old(self)@.frames,
                        old(self)@.cursor,
                        v.0 as int,
                    )
                    &&& final(self)@.frames[v.0 as int].usage == 0
                    &&& final(self)@.cursor == clock_next(old(self)@.frames.len(), v.0 as nat)
                },
            },
    {
        let pool_size = self.size();
        if pool_size == 0 {
            return None;
        }
        let ghost start = self@;
        let ghost n = pool_size as nat;
        let ghost c = start.cursor;
        let ghost some_unpinned = !all_pinned(start.frames);
        let ghost g0 = if some_unpinned {
            choose|g: int| 0 <= g < n && !(#[trigger] start.frames[g].pins > 0)
        } else {
            0
        };
        let ghost mut t: int = 0;
        let mut consecutive_pinned: usize = 0;
        loop
            invariant
                self.buffers.len() == pool_size,
                pool_size > 0,
                n == pool_size,
                self@.frames.len() == n,
                start.frames.len() == n,
                start == old(self)@,
                pool_wf(start),
                pool_wf(self@),
                c == start.cursor,
                0 <= consecutive_pinned <= t,
                consecutive_pinned < n,
                some_unpinned == !all_pinned(start.frames),
                some_unpinned ==> 0 <= g0 < n && start.frames[g0].pins == 0,
                forall|g: int|
                    0 <= g < n ==> (#[trigger] self@.frames[g]).pins == start.frames[g].pins
                        && self@.frames[g].resident == start.frames[g].resident,
                forall|g: int|
                    0 <= g < n && start.frames[g].pins > 0 ==> (#[trigger] self@.frames[g]).usage
                        == start.frames[g].usage,
                forall|g: int|
                    0 <= g < n && start.frames[g].pins == 0 ==> (#[trigger] self@.frames[g]).usage
                        * n + clock_distance(n, self@.cursor, g as nat) + t == clock_key(
                        start.frames,
                        c,
                        g,
                    ),
                forall|j: int|
                    1 <= j <= consecutive_pinned ==> start.frames[#[trigger] steps_back(
                        n,
                        self@.cursor,
                        j,
                    )].pins > 0,
                !some_unpinned ==> t == consecutive_pinned && clock_distance(n, c, self@.cursor)
                    == t,
            decreases
                (if some_unpinned {
                    clock_key(start.frames, c, g0) - t
                } else {
                    n - t
                }),
        {
            let idx = self.next_victim_id.0 as usize;
            let ghost before = self@;
            let next = if idx + 1 >= pool_size {
                0
            } else {
                idx + 1
            };
            proof {
                assert(before.frames[idx as int] == self.buffers@[idx as int]@);
                assert(frame_wf(before.frames[idx as int]));
                if some_unpinned {
                    assert(before.frames[g0].usage * n >= 0) by (nonlinear_arith);
                }
            }
            if self.buffers[idx].usage_count == 0 {
                self.next_victim_id = BufferId(next as u64);
                proof {
                    let v = idx as int;
                    let fr = start.frames;
                    assert(fr[v].pins == 0);
                    assert(before.frames[v].usage == 0);
                    assert(clock_key(fr, c, v) == t);
                    assert forall|g: int|
                        0 <= g < n && g != v && #[trigger] fr[g].pins == 0 implies clock_key(
                            fr,
                            c,
                            v,
                        ) < clock_key(fr, c, g) by {
                        assert(before.frames[g].usage * n >= 0) by (nonlinear_arith);
                    }
                    assert(is_clock_victim(fr, c, v));
                    lemma_clock_victim_unique(fr, c, v);
                    let after = after_sweep(fr, c, v);
                    assert(self@.frames =~= before.frames);
                    assert forall|g: int| 0 <= g < n implies #[trigger] self@.frames[g] == after[g] by {
                        if fr[g].pins == 0 {
                            let u = before.frames[g].usage as int;
                            let d = clock_key(fr, c, g) - clock_key(fr, c, v)
                                - clock_distance(n, v as nat, g as nat);
                            assert(d == u * n);
                            assert((u * n) / (n as int) == u) by (nonlinear_arith)
                                requires
                                    n > 0,
                                    u >= 0,
                            ;
                        }
                    }
                    assert(self@.frames =~= after);
                }
                return Some(BufferId(idx as u64));
            }
            if self.buffers[idx].pin_count == 0 {
                let u = self.buffers[idx].usage_count;
                self.buffers[idx].usage_count = u - 1;
                consecutive_pinned = 0;
                proof {
                    let un = u as int;
                    assert((un - 1) * n + n == un * n) by (nonlinear_arith);
                }
            } else {
                consecutive_pinned = consecutive_pinned + 1;
            }
            self.next_victim_id = BufferId(next as u64);
            proof {
                t = t + 1;
                assert forall|g: int| 0 <= g < n && g != idx implies #[trigger] self@.frames[g]
                    == before.frames[g] by {
                    assert(self@.frames[g] == self.buffers@[g]@);
                }
                assert(self@.frames[idx as int] == self.buffers@[idx as int]@);
                assert forall|j: int|
                    1 <= j <= consecutive_pinned implies start.frames[#[trigger] steps_back(
                    n,
                    self@.cursor,
                    j,
                )].pins > 0 by {
                    if j > 1 {
                        assert(steps_back(n, self@.cursor, j) == steps_back(
                            n,
                            before.cursor,
                            j - 1,
                        ));
                    } else {
                        assert(steps_back(n, self@.cursor, j) == idx);
                    }
                }
            }
            if consecutive_pinned >= pool_size {
                proof {
                    assert forall|i: int| 0 <= i < n implies #[trigger] start.frames[i].pins > 0 by {
                        let j = if i < self@.cursor {
                            self@.cursor - i
                        } else {
                            self@.cursor + n - i
                        };
                        assert(1 <= j <= consecutive_pinned);
                        assert(steps_back(n, self@.cursor, j) == i);
                    }
                    assert(self@.frames =~= start.frames);
                }
                return None;
            }
        }
    }

    /// Usage count of frame `id`.
    pub fn usage_count(&self, id: BufferId) -> (r: u64)
        requires
            self.wf(),
            id.0 < self@.frames.len(),
        ensures
            r == self@.frames[id.0 as int].usage,
    {
        proof {
            self.lemma_view();
        }
        self.buffers[id.0 as usize].usage_count
    }

    /// Pin count of frame `id`.
    pub fn pin_count(&self, id: BufferId) -> (r: u64)
        requires
            self.wf(),
            id.0 < self@.frames.len(),
        ensures
            r == self@.frames[id.0 as int].pins,
    {
        proof {
            self.lemma_view();
        }
        self.buffers[id.0 as usize].pin_count
    }

    /// The page that frame `id` holds, if any.
    pub fn page_id(&self, id: BufferId) -> (r: Option<PageId>)
        requires
            self.wf(),
            id.0 < self@.frames.len(),
        ensures
            match self@.frames[id.0 as int].resident {
                Some(p) => r == Some(PageId(p.id)),
                None => r is None,
            },
    {
        proof {
            self.lemma_view();
        }
        match &self.buffers[id.0 as usize].buffer {
            Some(b) => Some(b.page_id),
            None => None,
        }
    }

    /// Whether frame `id` holds a dirty page.
    pub fn is_dirty(&self, id: BufferId) -> (r: bool)
        requires
            self.wf(),
            id.0 < self@.frames.len(),
        ensures
            r == (self@.frames[id.0 as int].resident matches Some(p) && p.dirty),
    {
        proof {
            self.lemma_view();
        }
        match &self.buffers[id.0 as usize].buffer {
            Some(b) => b.is_dirty,
            None => false,
        }
    }

    /// The hand of the clock sweep.
    pub fn next_victim(&self) -> (r: BufferId)
        requires
            self.wf(),
        ensures
            r.0 == self@.cursor,
    {
        self.next_victim_id
    }

    /// Puts `buffer` into the unpinned frame `id`, pinned once and used once, and hands back
    /// the page that the frame held.
    pub fn install(&mut self, id: BufferId, buffer: Buffer) -> (r: Option<Buffer>)
        requires
            old(self).wf(),
            id.0 < old(self)@.frames.len(),
            old(self)@.frames[id.0 as int].pins == 0,
            buffer.page@.len() == PAGE_SIZE,
        ensures
            final(self).wf(),
            final(self)@ == (PoolView {
                frames: old(self)@.frames.update(
                    id.0 as int,
                    FrameView { usage: 1, pins: 1, resident: Some(buffer.resident_view()) },
                ),
                cursor: old(self)@.cursor,
            }),
            old(self)@.frames[id.0 as int].resident == match r {
                Some(b) => Some(b.resident_view()),
                None => None,
            },
    {
        proof {
            old(self).lemma_view();
        }
        let i = id.0 as usize;
        let old_buffer = self.buffers[i].buffer.take();
        self.buffers[i].buffer = Some(buffer);
        self.buffers[i].usage_count = 1;
        self.buffers[i].pin_count = 1;
        proof {
            assert(frame_wf(old(self)@.frames[id.0 as int]));
            assert forall|k: int| 0 <= k < self@.frames.len() implies #[trigger] frame_wf(
                self@.frames[k],
            ) by {
                if k != id.0 {
                    assert(frame_wf(old(self)@.frames[k]));
                }
            }
            assert(self@.frames =~= old(self)@.frames.update(
                id.0 as int,
                FrameView { usage: 1, pins: 1, resident: Some(buffer.resident_view()) },
            ));
        }
        old_buffer
    }

    /// Pins frame `id` once more and counts one more use (the use count stops at its
    /// largest value). Refused, with nothing changed, when the pin count is at its largest.
    pub fn pin(&mut self, id: BufferId) -> (r: bool)
        requires
            old(self).wf(),
            id.0 < old(self)@.frames.len(),
        ensures
            final(self).wf(),
            r == (old(self)@.frames[id.0 as int].pins < u64::MAX),
            final(self)@ == if r {
                PoolView {
                    frames: old(self)@.frames.update(
                        id.0 as int,
                        FrameView {
                            usage: if old(self)@.frames[id.0 as int].usage < u64::MAX {
                                old(self)@.frames[id.0 as int].usage + 1
                            } else {
                                old(self)@.frames[id.0 as int].usage
                            },
                            pins: old(self)@.frames[id.0 as int].pins + 1,
                            resident: old(self)@.frames[id.0 as int].resident,
                        },
                    ),
                    cursor: old(self)@.cursor,
                }
            } else {
                old(self)@
            },
    {
        proof {
            old(self).lemma_view();
        }
        let i = id.0 as usize;
        let pins = self.buffers[i].pin_count;
        if pins == u64::MAX {
            return false;
        }
        let usage = self.buffers[i].usage_count;
        self.buffers[i].pin_count = pins + 1;
        self.buffers[i].usage_count = usage.saturating_add(1);
        proof {
            assert(frame_wf(old(self)@.frames[id.0 as int]));
            assert forall|k: int| 0 <= k < self@.frames.len() implies #[trigger] frame_wf(
                self@.frames[k],
            ) by {
                if k != id.0 {
                    assert(frame_wf(old(self)@.frames[k]));
                }
            }
            let f = old(self)@.frames[id.0 as int];
            assert(self@.frames =~= old(self)@.frames.update(
                id.0 as int,
                FrameView {
                    usage: if f.usage < u64::MAX {
                        f.usage + 1
                    } else {
                        f.usage
                    },
                    pins: f.pins + 1,
                    resident: f.resident,
                },
            ));
        }
        true
    }

    /// Releases one pin of frame `id`; a page it holds becomes dirty if `is_dirty`, and stays
    /// dirty if it was. Refused, with nothing changed, when the frame is not pinned.
    pub fn unpin(&mut self, id: BufferId, is_dirty: bool) -> (r: bool)
        requires
            old(self).wf(),
            id.0 < old(self)@.frames.len(),
        ensures
            final(self).wf(),
            r == (old(self)@.frames[id.0 as int].pins > 0),
            final(self)@ == if r {
                PoolView {
                    frames: old(self)@.frames.update(
                        id.0 as int,
                        FrameView {
                            usage: old(self)@.frames[id.0 as int].usage,
                            pins: (old(self)@.frames[id.0 as int].pins - 1) as nat,
                            resident: match old(self)@.frames[id.0 as int].resident {
                                Some(p) => Some(
                                    ResidentPage { id: p.id, data: p.data, dirty: p.dirty || is_dirty },
                                ),
                                None => None,
                            },
                        },
                    ),
                    cursor: old(self)@.cursor,
                }
            } else {
                old(self)@
            },
    {
        proof {
            old(self).lemma_view();
        }
        let i = id.0 as usize;
        let pins = self.buffers[i].pin_count;
        if pins == 0 {
            return false;
        }
        self.buffers[i].pin_count = pins - 1;
        if is_dirty {
            if let Some(b) = &mut self.buffers[i].buffer {
                b.is_dirty = true;
            }
        }
        proof {
            assert(frame_wf(old(self)@.frames[id.0 as int]));
            assert forall|k: int| 0 <= k < self@.frames.len() implies #[trigger] frame_wf(
                self@.frames[k],
            ) by {
                if k != id.0 {
                    assert(frame_wf(old(self)@.frames[k]));
                }
            }
            let f = old(self)@.frames[id.0 as int];
            assert(self@.frames =~= old(self)@.frames.update(
                id.0 as int,
                FrameView {
                    usage: f.usage,
                    pins: (f.pins - 1) as nat,
                    resident: match f.resident {
                        Some(p) => Some(
                            ResidentPage { id: p.id, data: p.data, dirty: p.dirty || is_dirty },
                        ),
                        None => None,
                    },
                },
            ));
        }
        true
    }

    /// When frame `id` holds a dirty page: marks it clean and returns a copy of its bytes, to
    /// be written to the heap file. Otherwise changes nothing and returns `None`.
    pub fn take_dirty(&mut self, id: BufferId) -> (r: Option<Vec<u8>>)
        requires
            old(self).wf(),
            id.0 < old(self)@.frames.len(),
        ensures
            final(self).wf(),
            match old(self)@.frames[id.0 as int].resident {
                Some(p) if p.dirty => {
                    &&& r matches Some(d) && d@ == p.data
                    &&& final(self)@ == (PoolView {
                        frames: old(self)@.frames.update(
                            id.0 as int,
                            FrameView {
                                resident: Some(ResidentPage { id: p.id, data: p.data, dirty: false }),
                                ..old(self)@.frames[id.0 as int]
                            },
                        ),
                        cursor: old(self)@.cursor,
                    })
                },
                _ => r is None && final(self)@ == old(self)@,
            },
    {
        proof {
            old(self).lemma_view();
        }
        let i = id.0 as usize;
        let mut out: Option<Vec<u8>> = None;
        if let Some(b) = &mut self.buffers[i].buffer {
            if b.is_dirty {
                b.is_dirty = false;
                out = Some(b.page.clone());
            }
        }
        proof {
            assert(frame_wf(old(self)@.frames[id.0 as int]));
            assert forall|k: int| 0 <= k < self@.frames.len() implies #[trigger] frame_wf(
                self@.frames[k],
            ) by {
                if k != id.0 {
                    assert(frame_wf(old(self)@.frames[k]));
                }
            }
            match old(self)@.frames[id.0 as int].resident {
                Some(p) if p.dirty => {
                    assert(self@.frames =~= old(self)@.frames.update(
                        id.0 as int,
                        FrameView {
                            resident: Some(ResidentPage { id: p.id, data: p.data, dirty: false }),
                            ..old(self)@.frames[id.0 as int]
                        },
                    ));
                },
                _ => {
                    assert(self@.frames =~= old(self)@.frames);
                },
            }
        }
        out
    }

    /// The bytes of the page that frame `id` holds, if any.
    pub fn page(&self, id: BufferId) -> (r: Option<&Vec<u8>>)
        requires
            self.wf(),
            id.0 < self@.frames.len(),
        ensures
            match self@.frames[id.0 as int].resident {
                Some(p) => r matches Some(d) && d@ == p.data,
                None => r is None,
            },
    {
        proof {
            self.lemma_view();
        }
        match &self.buffers[id.0 as usize].buffer {
            Some(b) => Some(&b.page),
            None => None,
        }
    }

    /// Replaces the bytes of the page that frame `id` holds.
    pub fn write_page(&mut self, id: BufferId, data: Vec<u8>)
        requires
            old(self).wf(),
            id.0 < old(self)@.frames.len(),
            old(self)@.frames[id.0 as int].resident is Some,
            data@.len() == PAGE_SIZE,
        ensures
            final(self).wf(),
            final(self)@ == (PoolView {
                frames: old(self)@.frames.update(
                    id.0 as int,
                    FrameView {
                        resident: Some(
                            ResidentPage {
                                data: data@,
                                ..old(self)@.frames[id.0 as int].resident.unwrap()
                            },
                        ),
                        ..old(self)@.frames[id.0 as int]
                    },
                ),
                cursor: old(self)@.cursor,
            }),
    {
        proof {
            old(self).lemma_view();
        }
        let i = id.0 as usize;
        if let Some(b) = &mut self.buffers[i].buffer {
            b.page = data;
        }
        proof {
            assert(frame_wf(old(self)@.frames[id.0 as int]));
            assert forall|k: int| 0 <= k < self@.frames.len() implies #[trigger] frame_wf(
                self@.frames[k],
            ) by {
                if k != id.0 {
                    assert(frame_wf(old(self)@.frames[k]));
                }
            }
            let f = old(self)@.frames[id.0 as int];
            assert(self@.frames =~= old(self)@.frames.update(
                id.0 as int,
                FrameView {
                    resident: Some(ResidentPage { data: data@, ..f.resident.unwrap() }),
                    ..f
                },
            ));
        }
    }
}

/// Two frames cannot both be the victim of one sweep.
pub proof fn lemma_clock_victim_unique(frames: Seq<FrameView>, cursor: nat, v: int)
    requires
        is_clock_victim(frames, cursor, v),
    ensures
        clock_victim(frames, cursor) == Some(v),
{
    let w = choose|w: int| is_clock_victim(frames, cursor, w);
    assert(is_clock_victim(frames, cursor, w));
    if w != v {
        assert(frames[w].pins == 0);
        assert(frames[v].pins == 0);
        assert(clock_key(frames, cursor, v) < clock_key(frames, cursor, w));
        assert(clock_key(frames, cursor, w) < clock_key(frames, cursor, v));
    }
}

/// A sweep finds no victim exactly when every frame is pinned.
pub proof fn lemma_no_victim_when_all_pinned(frames: Seq<FrameView>, cursor: nat)
    requires
        all_pinned(frames),
    ensures
        clock_victim(frames, cursor) is None,
{
    if exists|v: int| is_clock_victim(frames, cursor, v) {
        let v = choose|v: int| is_clock_victim(frames, cursor, v);
        assert(frames[v].pins > 0);
    }
}

/// Two frames never share a sweep key: the distance part tells them apart.
proof fn lemma_keys_distinct(frames: Seq<FrameView>, cursor: nat, a: int, b: int)
    requires
        cursor < frames.len(),
        0 <= a < frames.len(),
        0 <= b < frames.len(),
        a != b,
    ensures
        clock_key(frames, cursor, a) != clock_key(frames, cursor, b),
{
    let n = frames.len() as int;
    let da = clock_distance(frames.len(), cursor, a as nat) as int;
    let db = clock_distance(frames.len(), cursor, b as nat) as int;
    let ua = frames[a].usage as int;
    let ub = frames[b].usage as int;
    assert(da != db);
    assert(0 <= da < n && 0 <= db < n);
    assert(ua * n + da != ub * n + db) by (nonlinear_arith)
        requires
            0 <= da < n,
            0 <= db < n,
            da != db,
            ua >= 0,
            ub >= 0,
    {
        if ua == ub {
        } else if ua < ub {
            assert(ua * n + n <= ub * n);
        } else {
            assert(ub * n + n <= ua * n);
        }
    }
}

/// Among the frames before `k`, the unpinned one with the smallest sweep key.
proof fn lemma_smallest_key(frames: Seq<FrameView>, cursor: nat, k: int) -> (b: int)
    requires
        cursor < frames.len(),
        0 < k <= frames.len(),
        exists|i: int| 0 <= i < k && #[trigger] frames[i].pins == 0,
    ensures
        0 <= b < k,
        frames[b].pins == 0,
        forall|g: int|
            0 <= g < k && g != b && #[trigger] frames[g].pins == 0 ==> clock_key(frames, cursor, b)
                < clock_key(frames, cursor, g),
    decreases k,
{
    if exists|i: int| 0 <= i < k - 1 && #[trigger] frames[i].pins == 0 {
        let b0 = lemma_smallest_key(frames, cursor, k - 1);
        if frames[k - 1].pins == 0 {
            lemma_keys_distinct(frames, cursor, k - 1, b0);
            if clock_key(frames, cursor, k - 1) < clock_key(frames, cursor, b0) {
                k - 1
            } else {
                b0
            }
        } else {
            b0
        }
    } else {
        let i = choose|i: int| 0 <= i < k && #[trigger] frames[i].pins == 0;
        assert(i == k - 1);
        k - 1
    }
}

/// The sweep finds a victim whenever some frame is unpinned.
pub proof fn lemma_victim_when_some_unpinned(frames: Seq<FrameView>, cursor: nat)
    requires
        cursor < frames.len(),
        !all_pinned(frames),
    ensures
        clock_victim(frames, cursor) matches Some(v) && 0 <= v < frames.len() && frames[v].pins == 0,
{
    let i = choose|i: int| 0 <= i < frames.len() && !(#[trigger] frames[i].pins > 0);
    assert(frames[i].pins == 0);
    let b = lemma_smallest_key(frames, cursor, frames.len() as int);
    assert(is_clock_victim(frames, cursor, b));
    lemma_clock_victim_unique(frames, cursor, b);
}

/// The victim that the sweep selects is unpinned.
pub proof fn lemma_clock_victim_chosen(frames: Seq<FrameView>, cursor: nat)
    requires
        clock_victim(frames, cursor) is Some,
    ensures
        is_clock_victim(frames, cursor, clock_victim(frames, cursor).unwrap()),
        frames[clock_victim(frames, cursor).unwrap()].pins == 0,
{
}

} // verus!
