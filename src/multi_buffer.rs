//! The excerpt list: an ordered sequence of excerpts drawn from one or more text
//! buffers, presented as a single document.
//!
//! Every excerpt that was ever inserted keeps its slot in the sequence; removing an
//! excerpt only marks its slot. The marked slots are never shown, but they keep the
//! place where the excerpt used to sit, so that an anchor into a removed excerpt still
//! orders and resolves against its old neighbours instead of failing.
use std::cmp::Ordering;
use vstd::prelude::*;

verus! {

/// Identifies an excerpt within one multi-buffer.
///
/// `ExcerptId::min()` and `ExcerptId::max()` are sentinels that sort before and after
/// every real excerpt; real excerpts carry ids strictly between them.
#[derive(Clone, Copy, Debug, PartialEq, Eq, Structural)]
pub struct ExcerptId(pub u64);

/// Identifies a text buffer. Zero is not a valid buffer id.
#[derive(Clone, Copy, Debug, PartialEq, Eq, Structural)]
pub struct BufferId(pub u64);

/// Which neighbouring character an anchor sticks to.
#[derive(Clone, Copy, Debug, PartialEq, Eq, Structural)]
pub enum Bias {
    Left,
    Right,
}

/// A position inside one text buffer: the version of the buffer it was taken at, an
/// offset into the text, and the side it sticks to.
#[derive(Clone, Copy, Debug, PartialEq, Eq, Structural)]
pub struct TextAnchor {
    pub version: u64,
    pub offset: u64,
    pub bias: Bias,
}

/// A range of buffer anchors.
#[derive(Clone, Copy, Debug, PartialEq, Eq, Structural)]
pub struct TextRange {
    pub start: TextAnchor,
    pub end: TextAnchor,
}

/// The part of a buffer that an excerpt quotes, and the focal part within it.
#[derive(Clone, Copy, Debug, PartialEq, Eq, Structural)]
pub struct ExcerptRange {
    pub context: TextRange,
    pub primary: Option<TextRange>,
}

/// One excerpt of a multi-buffer.
#[derive(Clone, Copy, Debug, PartialEq, Eq, Structural)]
pub struct Excerpt {
    pub id: ExcerptId,
    pub buffer_id: BufferId,
    pub range: ExcerptRange,
}

/// What a multi-buffer knows of a text buffer: its id, the length of its text, and
/// whether its file is private to this peer.
#[derive(Clone, Copy, Debug, PartialEq, Eq, Structural)]
pub struct Buffer {
    pub id: BufferId,
    pub len: u64,
    pub private: bool,
}

/// A place in the excerpt sequence: the excerpt, and whether it has been removed.
#[derive(Clone, Copy, Debug, PartialEq, Eq, Structural)]
pub struct Slot {
    pub excerpt: Excerpt,
    pub removed: bool,
}

/// A position in a multi-buffer: an excerpt and a position in that excerpt's buffer.
#[derive(Clone, Copy, Debug, PartialEq, Eq, Structural)]
pub struct Anchor {
    pub excerpt_id: ExcerptId,
    pub buffer_id: Option<BufferId>,
    pub text_anchor: TextAnchor,
}

/// An ordered sequence of excerpts presented as one document.
pub struct MultiBuffer {
    slots: Vec<Slot>,
    singleton: Option<Buffer>,
    title: Option<String>,
    next_excerpt_id: u64,
    private_buffers: Vec<BufferId>,
}

/// The mathematical state of a multi-buffer.
pub struct MultiBufferModel {
    /// Every excerpt ever inserted, in display order, removed ones included.
    pub slots: Seq<Slot>,
    /// The buffer that the multi-buffer wraps whole, when it is a singleton.
    pub singleton: Option<Buffer>,
    pub title: Option<Seq<char>>,
    /// The id that the next pushed excerpt receives.
    pub next_id: nat,
    /// The buffers whose files are private to this peer, among those excerpts were
    /// taken from.
    pub private_buffers: Seq<BufferId>,
}

/// What a reader of a multi-buffer can observe: the excerpts shown, in order, the
/// singleton buffer and the title shown.
pub struct ObservedState {
    pub excerpts: Seq<Excerpt>,
    pub singleton: Option<Buffer>,
    pub title: Seq<char>,
}

/// The title shown for a multi-buffer: the one it was given, else "untitled".
pub open spec fn display_title(t: Option<Seq<char>>) -> Seq<char> {
    match t {
        Some(x) => x,
        None => "untitled"@,
    }
}

pub open spec fn is_real_excerpt_id(id: ExcerptId) -> bool {
    0 < id.0 < u64::MAX
}

impl TextRange {
    pub open spec fn wf(self) -> bool {
        self.start.offset <= self.end.offset
    }
}

impl ExcerptRange {
    /// The context range is ordered, and the primary range, when present, lies inside it.
    pub open spec fn wf(self) -> bool {
        &&& self.context.wf()
        &&& self.primary matches Some(p) ==> {
            &&& p.wf()
            &&& self.context.start.offset <= p.start.offset
            &&& p.end.offset <= self.context.end.offset
        }
    }

    pub fn is_well_formed(&self) -> (r: bool)
        ensures
            r == self.wf(),
    {
        if self.context.start.offset > self.context.end.offset {
            return false;
        }
        match self.primary {
            None => true,
            Some(p) => p.start.offset <= p.end.offset && self.context.start.offset
                <= p.start.offset && p.end.offset <= self.context.end.offset,
        }
    }
}

/// The excerpts shown, in order: the slots that were not removed.
pub open spec fn live(s: Seq<Slot>) -> Seq<Excerpt>
    decreases s.len(),
{
    if s.len() == 0 {
        Seq::empty()
    } else {
        let rest = live(s.drop_last());
        if s.last().removed {
            rest
        } else {
            rest.push(s.last().excerpt)
        }
    }
}

pub open spec fn contains_id(v: Seq<Excerpt>, id: ExcerptId) -> bool {
    exists|k: int| 0 <= k < v.len() && (#[trigger] v[k]).id == id
}

/// The index of the last excerpt with the given id, or -1 when there is none.
pub open spec fn position_of(v: Seq<Excerpt>, id: ExcerptId) -> int
    decreases v.len(),
{
    if v.len() == 0 {
        -1
    } else if v.last().id == id {
        v.len() - 1
    } else {
        position_of(v.drop_last(), id)
    }
}

/// The index of the slot holding the given excerpt id, or -1 when there is none.
pub open spec fn slot_index(s: Seq<Slot>, id: ExcerptId) -> int
    decreases s.len(),
{
    if s.len() == 0 {
        -1
    } else if s.last().excerpt.id == id {
        s.len() - 1
    } else {
        slot_index(s.drop_last(), id)
    }
}

pub open spec fn slot_ids_unique(s: Seq<Slot>) -> bool {
    forall|i: int, j: int|
        0 <= i < j < s.len() ==> (#[trigger] s[i]).excerpt.id != (#[trigger] s[j]).excerpt.id
}

pub open spec fn ids_unique(v: Seq<Excerpt>) -> bool {
    forall|i: int, j: int| 0 <= i < j < v.len() ==> (#[trigger] v[i]).id != (#[trigger] v[j]).id
}

/// Inserts `e` right after the excerpt `prev`, or at the start when `prev` is absent
/// (as `ExcerptId::min()` always is).
pub open spec fn insert_after(v: Seq<Excerpt>, prev: ExcerptId, e: Excerpt) -> Seq<Excerpt> {
    v.insert(position_of(v, prev) + 1, e)
}

/// Whether an incoming excerpt can join the sequence `v`.
pub open spec fn admissible(v: Seq<Excerpt>, e: Excerpt) -> bool {
    is_real_excerpt_id(e.id) && !contains_id(v, e.id) && e.range.wf()
}

/// Inserts a run of excerpts, one after the other, after `prev`; an excerpt whose id
/// is a sentinel or already shown, or whose range is malformed, is skipped.
pub open spec fn insert_run(v: Seq<Excerpt>, prev: ExcerptId, run: Seq<Excerpt>) -> Seq<Excerpt>
    decreases run.len(),
{
    if run.len() == 0 {
        v
    } else if admissible(v, run[0]) {
        insert_run(insert_after(v, prev, run[0]), run[0].id, run.drop_first())
    } else {
        insert_run(v, prev, run.drop_first())
    }
}

/// The excerpts of one buffer, with ids chosen by the caller.
pub open spec fn excerpts_of(buffer_id: BufferId, run: Seq<(ExcerptId, ExcerptRange)>) -> Seq<Excerpt> {
    Seq::new(run.len(), |i: int| Excerpt { id: run[i].0, buffer_id, range: run[i].1 })
}

/// The excerpt sequence after inserting a run after `prev`: unchanged when `prev` is
/// neither shown nor the start sentinel.
pub open spec fn insert_excerpts_spec(
    v: Seq<Excerpt>,
    prev: ExcerptId,
    buffer_id: BufferId,
    run: Seq<(ExcerptId, ExcerptRange)>,
) -> Seq<Excerpt> {
    if prev == ExcerptId(0) || contains_id(v, prev) {
        insert_run(v, prev, excerpts_of(buffer_id, run))
    } else {
        v
    }
}

/// The excerpt sequence without the excerpts whose ids are listed.
pub open spec fn remove_ids(v: Seq<Excerpt>, ids: Seq<ExcerptId>) -> Seq<Excerpt>
    decreases v.len(),
{
    if v.len() == 0 {
        v
    } else if ids.contains(v.last().id) {
        remove_ids(v.drop_last(), ids)
    } else {
        remove_ids(v.drop_last(), ids).push(v.last())
    }
}

/// The singleton buffer after an operation took the shown excerpts from `before` to
/// `after`: a multi-buffer stops being a singleton once its excerpts change.
pub open spec fn singleton_after(
    s: Option<Buffer>,
    before: Seq<Excerpt>,
    after: Seq<Excerpt>,
) -> Option<Buffer> {
    if before.len() == after.len() {
        s
    } else {
        None
    }
}

/// A change of the excerpt list, as a follower receives it.
pub enum ExcerptOp {
    Insert { prev: ExcerptId, buffer_id: BufferId, run: Seq<(ExcerptId, ExcerptRange)> },
    Remove { ids: Seq<ExcerptId> },
}

/// The observed state after one change.
pub open spec fn apply_op(s: ObservedState, op: ExcerptOp) -> ObservedState {
    let after = match op {
        ExcerptOp::Insert { prev, buffer_id, run } => insert_excerpts_spec(
            s.excerpts,
            prev,
            buffer_id,
            run,
        ),
        ExcerptOp::Remove { ids } => remove_ids(s.excerpts, ids),
    };
    ObservedState {
        excerpts: after,
        singleton: singleton_after(s.singleton, s.excerpts, after),
        title: s.title,
    }
}

/// The observed state after a sequence of changes, applied in order.
pub open spec fn replay(s: ObservedState, ops: Seq<ExcerptOp>) -> ObservedState
    decreases ops.len(),
{
    if ops.len() == 0 {
        s
    } else {
        replay(apply_op(s, ops[0]), ops.drop_first())
    }
}

/// The excerpt that a singleton multi-buffer holds: the whole buffer.
pub open spec fn whole_buffer_excerpt(b: Buffer) -> Excerpt {
    Excerpt {
        id: ExcerptId(1),
        buffer_id: b.id,
        range: ExcerptRange {
            context: TextRange {
                start: TextAnchor { version: 0, offset: 0, bias: Bias::Left },
                end: TextAnchor { version: 0, offset: b.len, bias: Bias::Right },
            },
            primary: None,
        },
    }
}

impl MultiBufferModel {
    pub open spec fn wf(self) -> bool {
        &&& slot_ids_unique(self.slots)
        &&& forall|i: int|
            0 <= i < self.slots.len() ==> {
                &&& is_real_excerpt_id(#[trigger] self.slots[i].excerpt.id)
                &&& self.slots[i].excerpt.id.0 < self.next_id
                &&& self.slots[i].excerpt.range.wf()
            }
        &&& 1 <= self.next_id <= u64::MAX
        &&& self.singleton matches Some(b) ==> {
            &&& b.private ==> self.private_buffers.contains(b.id)
            &&& self.slots.len() == 1
            &&& self.slots[0] == Slot { excerpt: whole_buffer_excerpt(b), removed: false }
        }
    }

    /// The excerpts shown, in display order.
    pub open spec fn excerpts(self) -> Seq<Excerpt> {
        live(self.slots)
    }

    pub open spec fn observed(self) -> ObservedState {
        ObservedState {
            excerpts: live(self.slots),
            singleton: self.singleton,
            title: display_title(self.title),
        }
    }

    /// Whether some shown excerpt comes from a private buffer.
    pub open spec fn shows_private(self) -> bool {
        exists|k: int|
            0 <= k < live(self.slots).len() && self.private_buffers.contains(
                (#[trigger] live(self.slots)[k]).buffer_id,
            )
    }

    /// The rank of an excerpt id in the sequence: the start sentinel first, then the
    /// slots in order (removed ones included), then ids this multi-buffer never held,
    /// then the end sentinel.
    pub open spec fn rank(self, id: ExcerptId) -> int {
        if id == ExcerptId(0) {
            0
        } else if id == ExcerptId(u64::MAX) {
            self.slots.len() + 2int
        } else if slot_index(self.slots, id) >= 0 {
            slot_index(self.slots, id) + 1
        } else {
            self.slots.len() + 1int
        }
    }

    /// The buffer of a shown excerpt.
    pub open spec fn buffer_id_for_excerpt(self, id: ExcerptId) -> Option<BufferId> {
        let v = live(self.slots);
        if contains_id(v, id) {
            Some(v[position_of(v, id)].buffer_id)
        } else {
            None
        }
    }
}

impl View for MultiBuffer {
    type V = MultiBufferModel;

    closed spec fn view(&self) -> MultiBufferModel {
        MultiBufferModel {
            slots: self.slots@,
            singleton: self.singleton,
            title: match self.title {
                Some(t) => Some(t@),
                None => None,
            },
            next_id: self.next_excerpt_id as nat,
            private_buffers: self.private_buffers@,
        }
    }
}

pub proof fn lemma_live_concat(a: Seq<Slot>, b: Seq<Slot>)
    ensures
        live(a + b) == live(a) + live(b),
    decreases b.len(),
{
    if b.len() == 0 {
        assert(a + b =~= a);
        assert(live(a) + live(b) =~= live(a));
    } else {
        lemma_live_concat(a, b.drop_last());
        assert((a + b).drop_last() =~= a + b.drop_last());
        assert((a + b).last() == b.last());
        if !b.last().removed {
            assert(live(a) + live(b.drop_last()).push(b.last().excerpt) =~= (live(a) + live(
                b.drop_last(),
            )).push(b.last().excerpt));
        }
    }
}

pub proof fn lemma_live_contains(s: Seq<Slot>, id: ExcerptId)
    ensures
        contains_id(live(s), id) <==> exists|i: int|
            0 <= i < s.len() && (#[trigger] s[i]).excerpt.id == id && !s[i].removed,
    decreases s.len(),
{
    if s.len() > 0 {
        let p = s.drop_last();
        lemma_live_contains(p, id);
        if contains_id(live(s), id) {
            let k = choose|k: int| 0 <= k < live(s).len() && (#[trigger] live(s)[k]).id == id;
            if !s.last().removed && k == live(p).len() {
                assert(s[s.len() - 1].excerpt.id == id);
            } else {
                assert(live(p)[k].id == id);
                let i = choose|i: int|
                    0 <= i < p.len() && (#[trigger] p[i]).excerpt.id == id && !p[i].removed;
                assert(s[i] == p[i]);
            }
        }
        if exists|i: int| 0 <= i < s.len() && (#[trigger] s[i]).excerpt.id == id && !s[i].removed {
            let i = choose|i: int|
                0 <= i < s.len() && (#[trigger] s[i]).excerpt.id == id && !s[i].removed;
            if i == s.len() - 1 {
                assert(live(s)[live(s).len() - 1].id == id);
            } else {
                assert(p[i] == s[i]);
                let k = choose|k: int| 0 <= k < live(p).len() && (#[trigger] live(p)[k]).id == id;
                assert(live(s)[k] == live(p)[k]);
            }
        }
    }
}

pub proof fn lemma_live_unique(s: Seq<Slot>)
    requires
        slot_ids_unique(s),
    ensures
        ids_unique(live(s)),
    decreases s.len(),
{
    if s.len() > 0 {
        let p = s.drop_last();
        assert(slot_ids_unique(p)) by {
            assert forall|i: int, j: int| 0 <= i < j < p.len() implies (#[trigger] p[i]).excerpt.id
                != (#[trigger] p[j]).excerpt.id by {
                assert(p[i] == s[i] && p[j] == s[j]);
            }
        }
        lemma_live_unique(p);
        if !s.last().removed {
            lemma_live_contains(p, s.last().excerpt.id);
            if contains_id(live(p), s.last().excerpt.id) {
                let i = choose|i: int|
                    0 <= i < p.len() && (#[trigger] p[i]).excerpt.id == s.last().excerpt.id
                        && !p[i].removed;
                assert(s[i] == p[i]);
                assert(false);
            }
            let v = live(s);
            assert forall|i: int, j: int| 0 <= i < j < v.len() implies (#[trigger] v[i]).id != (
            #[trigger] v[j]).id by {
                if j == v.len() - 1 {
                    assert(v[i] == live(p)[i]);
                } else {
                    assert(v[i] == live(p)[i] && v[j] == live(p)[j]);
                }
            }
        }
    }
}

pub proof fn lemma_position_of(v: Seq<Excerpt>, id: ExcerptId)
    ensures
        -1 <= position_of(v, id) < v.len(),
        position_of(v, id) >= 0 <==> contains_id(v, id),
        position_of(v, id) >= 0 ==> v[position_of(v, id)].id == id,
        ids_unique(v) ==> forall|k: int|
            0 <= k < v.len() && (#[trigger] v[k]).id == id ==> k == position_of(v, id),
    decreases v.len(),
{
    if v.len() > 0 {
        let p = v.drop_last();
        lemma_position_of(p, id);
        if contains_id(v, id) && v.last().id != id {
            let k = choose|k: int| 0 <= k < v.len() && (#[trigger] v[k]).id == id;
            assert(p[k] == v[k]);
        }
        if position_of(v, id) >= 0 && v.last().id != id {
            assert(v[position_of(v, id)] == p[position_of(v, id)]);
        }
        if ids_unique(v) {
            assert(ids_unique(p)) by {
                assert forall|i: int, j: int| 0 <= i < j < p.len() implies (#[trigger] p[i]).id
                    != (#[trigger] p[j]).id by {
                    assert(p[i] == v[i] && p[j] == v[j]);
                }
            }
            assert forall|k: int| 0 <= k < v.len() && (#[trigger] v[k]).id == id implies k
                == position_of(v, id) by {
                if k < v.len() - 1 {
                    assert(p[k] == v[k]);
                    if v.last().id == id {
                        assert(v[k].id != v[v.len() - 1].id);
                    }
                }
            }
        }
    } else {
        if contains_id(v, id) {
            let k = choose|k: int| 0 <= k < v.len() && (#[trigger] v[k]).id == id;
        }
    }
}

pub proof fn lemma_slot_index(s: Seq<Slot>, id: ExcerptId)
    ensures
        -1 <= slot_index(s, id) < s.len(),
        slot_index(s, id) >= 0 ==> s[slot_index(s, id)].excerpt.id == id,
        slot_index(s, id) < 0 ==> forall|i: int| 0 <= i < s.len() ==> (#[trigger] s[i]).excerpt.id != id,
        slot_ids_unique(s) ==> forall|i: int|
            0 <= i < s.len() && (#[trigger] s[i]).excerpt.id == id ==> i == slot_index(s, id),
    decreases s.len(),
{
    if s.len() > 0 {
        let p = s.drop_last();
        lemma_slot_index(p, id);
        if slot_index(s, id) >= 0 && s.last().excerpt.id != id {
            assert(s[slot_index(s, id)] == p[slot_index(s, id)]);
        }
        if slot_index(s, id) < 0 {
            assert forall|i: int| 0 <= i < s.len() implies (#[trigger] s[i]).excerpt.id != id by {
                if i < s.len() - 1 {
                    assert(p[i] == s[i]);
                }
            }
        }
        if slot_ids_unique(s) {
            assert(slot_ids_unique(p)) by {
                assert forall|i: int, j: int| 0 <= i < j < p.len() implies (#[trigger] p[i]).excerpt.id
                    != (#[trigger] p[j]).excerpt.id by {
                    assert(p[i] == s[i] && p[j] == s[j]);
                }
            }
            assert forall|i: int| 0 <= i < s.len() && (#[trigger] s[i]).excerpt.id == id implies i
                == slot_index(s, id) by {
                if i < s.len() - 1 {
                    assert(p[i] == s[i]);
                    if s.last().excerpt.id == id {
                        assert(s[i].excerpt.id != s[s.len() - 1].excerpt.id);
                    }
                }
            }
        }
    }
}

impl ExcerptId {
    /// The sentinel that sorts before every excerpt.
    pub fn min() -> (r: ExcerptId)
        ensures
            r == ExcerptId(0),
    {
        ExcerptId(0)
    }

    /// The sentinel that sorts after every excerpt.
    pub fn max() -> (r: ExcerptId)
        ensures
            r == ExcerptId(u64::MAX),
    {
        ExcerptId(u64::MAX)
    }

    pub fn to_proto(&self) -> (r: u64)
        ensures
            r == self.0,
    {
        self.0
    }

    pub fn from_proto(id: u64) -> (r: ExcerptId)
        ensures
            r == ExcerptId(id),
    {
        ExcerptId(id)
    }
}

impl MultiBuffer {
    /// An empty multi-buffer.
    pub fn new() -> (r: MultiBuffer)
        ensures
            r@.wf(),
            r@.slots.len() == 0,
            r@.singleton is None,
            r@.title is None,
            r@.private_buffers.len() == 0,
    {
        MultiBuffer {
            slots: Vec::new(),
            singleton: None,
            title: None,
            next_excerpt_id: 1,
            private_buffers: Vec::new(),
        }
    }

    /// A multi-buffer that wraps one whole buffer.
    pub fn singleton(buffer: Buffer) -> (r: MultiBuffer)
        ensures
            r@.wf(),
            r@.slots == seq![Slot { excerpt: whole_buffer_excerpt(buffer), removed: false }],
            r@.singleton == Some(buffer),
            r@.title is None,
            r@.private_buffers == if buffer.private {
                seq![buffer.id]
            } else {
                Seq::empty()
            },
    {
        let excerpt = Excerpt {
            id: ExcerptId(1),
            buffer_id: buffer.id,
            range: ExcerptRange {
                context: TextRange {
                    start: TextAnchor { version: 0, offset: 0, bias: Bias::Left },
                    end: TextAnchor { version: 0, offset: buffer.len, bias: Bias::Right },
                },
                primary: None,
            },
        };
        let mut slots: Vec<Slot> = Vec::new();
        slots.push(Slot { excerpt, removed: false });
        let mut private_buffers: Vec<BufferId> = Vec::new();
        if buffer.private {
            private_buffers.push(buffer.id);
        }
        let r = MultiBuffer {
            slots,
            singleton: Some(buffer),
            title: None,
            next_excerpt_id: 2,
            private_buffers,
        };
        if buffer.private {
            assert(r@.private_buffers[0] == buffer.id);
        }
        assert(r@.private_buffers =~= if buffer.private {
            seq![buffer.id]
        } else {
            Seq::empty()
        });
        assert(r@.slots =~= seq![Slot { excerpt: whole_buffer_excerpt(buffer), removed: false }]);
        r
    }

    /// The same multi-buffer with the given title.
    pub fn with_title(self, title: String) -> (r: MultiBuffer)
        ensures
            r@ == (MultiBufferModel { title: Some(title@), ..self@ }),
    {
        MultiBuffer { title: Some(title), ..self }
    }

    /// The title shown for this multi-buffer: the one it was given, else "untitled".
    pub fn title(&self) -> (r: String)
        ensures
            r@ == display_title(self@.title),
    {
        match &self.title {
            Some(t) => t.clone(),
            None => "untitled".to_owned(),
        }
    }

    /// Whether a buffer was recorded as private.
    fn is_private_buffer(&self, id: BufferId) -> (r: bool)
        ensures
            r == self@.private_buffers.contains(id),
    {
        let mut i: usize = 0;
        while i < self.private_buffers.len()
            invariant
                i <= self.private_buffers@.len(),
                self@.private_buffers == self.private_buffers@,
                forall|j: int| 0 <= j < i ==> self.private_buffers@[j] != id,
            decreases self.private_buffers@.len() - i,
        {
            if self.private_buffers[i] == id {
                return true;
            }
            i += 1;
        }
        false
    }

    /// Whether some shown excerpt comes from a private buffer.
    pub fn shows_private(&self) -> (r: bool)
        ensures
            r == self@.shows_private(),
    {
        let v = self.excerpts();
        let mut k: usize = 0;
        while k < v.len()
            invariant
                k <= v@.len(),
                v@ == live(self@.slots),
                forall|j: int| 0 <= j < k ==> !self@.private_buffers.contains(#[trigger] v@[j].buffer_id),
            decreases v@.len() - k,
        {
            if self.is_private_buffer(v[k].buffer_id) {
                return true;
            }
            k += 1;
        }
        false
    }

    /// A singleton over a private buffer shows a private excerpt.
    pub proof fn lemma_singleton_shows_private(&self)
        requires
            self@.wf(),
            self@.singleton matches Some(b) && b.private,
        ensures
            self@.shows_private(),
    {
        let s = self@.slots;
        let b = self@.singleton->0;
        assert(s.drop_last() =~= Seq::<Slot>::empty());
        assert(live(s.drop_last()) =~= Seq::<Excerpt>::empty());
        assert(live(s) =~= seq![whole_buffer_excerpt(b)]);
        assert(self@.private_buffers.contains(live(s)[0].buffer_id));
    }

    /// Records that excerpts of `buffer` were taken into this multi-buffer.
    fn note_buffer(&mut self, buffer: Buffer)
        requires
            old(self)@.wf(),
        ensures
            final(self)@.wf(),
            final(self)@ == (MultiBufferModel {
                private_buffers: if buffer.private {
                    old(self)@.private_buffers.push(buffer.id)
                } else {
                    old(self)@.private_buffers
                },
                ..old(self)@
            }),
    {
        let ghost before = self.private_buffers@;
        if buffer.private {
            self.private_buffers.push(buffer.id);
            proof {
                if let Some(b) = self@.singleton {
                    if b.private {
                        let k = choose|k: int| 0 <= k < before.len() && before[k] == b.id;
                        assert(self.private_buffers@[k] == b.id);
                    }
                }
            }
        }
    }

    /// Whether this multi-buffer wraps exactly one whole buffer.
    pub fn is_singleton(&self) -> (r: bool)
        ensures
            r == self@.singleton is Some,
    {
        self.singleton.is_some()
    }

    /// The buffer that this multi-buffer wraps whole, if it is a singleton.
    pub fn as_singleton(&self) -> (r: Option<Buffer>)
        ensures
            r == self@.singleton,
    {
        self.singleton
    }

    /// The excerpts shown, in display order.
    pub fn excerpts(&self) -> (r: Vec<Excerpt>)
        ensures
            r@ == live(self@.slots),
    {
        let mut r: Vec<Excerpt> = Vec::new();
        let mut i: usize = 0;
        while i < self.slots.len()
            invariant
                i <= self.slots@.len(),
                r@ == live(self.slots@.take(i as int)),
            decreases self.slots@.len() - i,
        {
            assert(self.slots@.take(i + 1).drop_last() =~= self.slots@.take(i as int));
            if !self.slots[i].removed {
                r.push(self.slots[i].excerpt);
            }
            i += 1;
        }
        assert(self.slots@.take(i as int) =~= self.slots@);
        r
    }

    /// The slot that holds an excerpt id, removed or not.
    fn index_of(&self, id: ExcerptId) -> (r: Option<usize>)
        requires
            slot_ids_unique(self@.slots),
        ensures
            r matches Some(i) ==> i == slot_index(self@.slots, id),
            r is None ==> slot_index(self@.slots, id) == -1,
    {
        proof {
            lemma_slot_index(self@.slots, id);
        }
        let mut i: usize = 0;
        while i < self.slots.len()
            invariant
                i <= self.slots@.len(),
                self@.slots == self.slots@,
                slot_ids_unique(self@.slots),
                forall|j: int| 0 <= j < i ==> (#[trigger] self.slots@[j]).excerpt.id != id,
                -1 <= slot_index(self@.slots, id) < self@.slots.len(),
                slot_index(self@.slots, id) >= 0 ==> self@.slots[slot_index(self@.slots, id)].excerpt.id == id,
                slot_index(self@.slots, id) < 0 ==> forall|i: int| 0 <= i < self@.slots.len() ==> (#[trigger] self@.slots[i]).excerpt.id != id,
                forall|i: int|
                    0 <= i < self@.slots.len() && (#[trigger] self@.slots[i]).excerpt.id == id ==> i == slot_index(self@.slots, id),
            decreases self.slots@.len() - i,
        {
            if self.slots[i].excerpt.id == id {
                return Some(i);
            }
            i += 1;
        }
        None
    }

    /// The buffer of a shown excerpt.
    pub fn buffer_id_for_excerpt(&self, id: ExcerptId) -> (r: Option<BufferId>)
        requires
            self@.wf(),
        ensures
            r == self@.buffer_id_for_excerpt(id),
    {
        proof {
            lemma_slot_index(self@.slots, id);
            lemma_live_contains(self@.slots, id);
        }
        match self.index_of(id) {
            Some(i) => {
                if self.slots[i].removed {
                    proof {
                        if contains_id(live(self@.slots), id) {
                            let j = choose|j: int|
                                0 <= j < self@.slots.len() && (#[trigger] self@.slots[j]).excerpt.id == id
                                    && !self@.slots[j].removed;
                        }
                    }
                    None
                } else {
                    proof {
                        self.lemma_live_split(i as int);
                    }
                    Some(self.slots[i].excerpt.buffer_id)
                }
            },
            None => None,
        }
    }

    /// A shown slot sits in the shown sequence right after the shown slots before it.
    proof fn lemma_live_split(&self, i: int)
        requires
            self@.wf(),
            0 <= i < self@.slots.len(),
            !self@.slots[i].removed,
        ensures
            live(self@.slots) == live(self@.slots.take(i)) + seq![self@.slots[i].excerpt] + live(
                self@.slots.skip(i + 1),
            ),
            position_of(live(self@.slots), self@.slots[i].excerpt.id) == live(self@.slots.take(i)).len(),
            contains_id(live(self@.slots), self@.slots[i].excerpt.id),
    {
        let s = self@.slots;
        lemma_split_live(s, i);
        lemma_live_unique(s);
        let v = live(s);
        let k = live(s.take(i)).len() as int;
        assert(v[k] == s[i].excerpt);
        lemma_position_of(v, s[i].excerpt.id);
    }

    /// Appends excerpts of one buffer at the end, with fresh ids, and returns those ids
    /// in input order.
    pub fn push_excerpts(&mut self, buffer: Buffer, ranges: &Vec<ExcerptRange>) -> (r: Vec<
        ExcerptId,
    >)
        requires
            old(self)@.wf(),
            old(self)@.next_id + ranges@.len() < u64::MAX,
            forall|i: int| 0 <= i < ranges@.len() ==> (#[trigger] ranges@[i]).wf(),
        ensures
            final(self)@.wf(),
            r@.len() == ranges@.len(),
            forall|i: int|
                0 <= i < r@.len() ==> (#[trigger] r@[i]) == ExcerptId((old(self)@.next_id + i) as u64),
            final(self)@.slots == old(self)@.slots + Seq::new(
                ranges@.len(),
                |i: int|
                    Slot {
                        excerpt: Excerpt { id: r@[i], buffer_id: buffer.id, range: ranges@[i] },
                        removed: false,
                    },
            ),
            final(self)@.excerpts() == old(self)@.excerpts() + excerpts_of(
                buffer.id,
                Seq::new(ranges@.len(), |i: int| (r@[i], ranges@[i])),
            ),
            final(self)@.singleton == singleton_after(
                old(self)@.singleton,
                old(self)@.excerpts(),
                final(self)@.excerpts(),
            ),
            final(self)@.title == old(self)@.title,
            final(self)@.private_buffers == if buffer.private {
                old(self)@.private_buffers.push(buffer.id)
            } else {
                old(self)@.private_buffers
            },
    {
        let buffer_id = buffer.id;
        let ghost old_slots = self.slots@;
        let mut ids: Vec<ExcerptId> = Vec::new();
        let mut i: usize = 0;
        while i < ranges.len()
            invariant
                i <= ranges@.len(),
                old(self)@.wf(),
                old_slots == old(self)@.slots,
                old(self)@.next_id + ranges@.len() < u64::MAX,
                forall|j: int| 0 <= j < ranges@.len() ==> (#[trigger] ranges@[j]).wf(),
                self.next_excerpt_id == old(self)@.next_id + i,
                self.singleton == old(self)@.singleton,
                self.title == old(self).title,
                self.private_buffers == old(self).private_buffers,
                ids@.len() == i,
                forall|j: int|
                    0 <= j < i ==> (#[trigger] ids@[j]) == ExcerptId((old(self)@.next_id + j) as u64),
                self.slots@ == old_slots + Seq::new(
                    i as nat,
                    |j: int|
                        Slot {
                            excerpt: Excerpt { id: ids@[j], buffer_id: buffer.id, range: ranges@[j] },
                            removed: false,
                        },
                ),
            decreases ranges@.len() - i,
        {
            let id = ExcerptId(self.next_excerpt_id);
            let ghost prev_slots = self.slots@;
            self.slots.push(
                Slot { excerpt: Excerpt { id, buffer_id: buffer.id, range: ranges[i] }, removed: false },
            );
            ids.push(id);
            self.next_excerpt_id = self.next_excerpt_id + 1;
            i += 1;
            assert(self.slots@ =~= old_slots + Seq::new(
                i as nat,
                |j: int|
                    Slot {
                        excerpt: Excerpt { id: ids@[j], buffer_id: buffer.id, range: ranges@[j] },
                        removed: false,
                    },
            ));
        }
        let ghost added = Seq::new(
            ranges@.len(),
            |j: int|
                Slot {
                    excerpt: Excerpt { id: ids@[j], buffer_id: buffer.id, range: ranges@[j] },
                    removed: false,
                },
        );
        proof {
            lemma_live_concat(old_slots, added);
            lemma_live_all_shown(added);
            assert(live(added) =~= excerpts_of(
                buffer.id,
                Seq::new(ranges@.len(), |j: int| (ids@[j], ranges@[j])),
            ));
        }
        if ranges.len() > 0 {
            self.singleton = None;
        } else {
            assert(added =~= Seq::<Slot>::empty());
        }
        proof {
            let s = self@.slots;
            assert forall|a: int, b: int| 0 <= a < b < s.len() implies (#[trigger] s[a]).excerpt.id
                != (#[trigger] s[b]).excerpt.id by {
                if b >= old_slots.len() {
                    assert(s[b].excerpt.id.0 >= old(self)@.next_id);
                    if a < old_slots.len() {
                        assert(s[a] == old_slots[a]);
                    }
                } else {
                    assert(s[a] == old_slots[a] && s[b] == old_slots[b]);
                }
            }
            assert forall|a: int| 0 <= a < s.len() implies {
                &&& is_real_excerpt_id(#[trigger] s[a].excerpt.id)
                &&& s[a].excerpt.id.0 < self@.next_id
                &&& s[a].excerpt.range.wf()
            } by {
                if a < old_slots.len() {
                    assert(s[a] == old_slots[a]);
                }
            }
        }
        self.note_buffer(buffer);
        ids
    }
}


impl MultiBuffer {
    /// Whether an excerpt with this id is shown.
    fn is_shown(&self, id: ExcerptId) -> (r: bool)
        requires
            self@.wf(),
        ensures
            r == contains_id(live(self@.slots), id),
    {
        proof {
            lemma_slot_index(self@.slots, id);
            lemma_live_contains(self@.slots, id);
        }
        match self.index_of(id) {
            Some(i) => {
                proof {
                    if contains_id(live(self@.slots), id) {
                        let j = choose|j: int|
                            0 <= j < self@.slots.len() && (#[trigger] self@.slots[j]).excerpt.id
                                == id && !self@.slots[j].removed;
                    }
                }
                !self.slots[i].removed
            },
            None => false,
        }
    }

    /// Inserts a run of excerpts of one buffer, with the given ids, right after the
    /// excerpt `prev` (at the start when `prev` is `ExcerptId::min()`). Nothing happens
    /// when `prev` is not shown; an excerpt whose id is a sentinel or already shown, or
    /// whose range is malformed, is skipped.
    pub fn insert_excerpts_with_ids_after(
        &mut self,
        prev: ExcerptId,
        buffer: Buffer,
        new_excerpts: &Vec<(ExcerptId, ExcerptRange)>,
    )
        requires
            old(self)@.wf(),
        ensures
            final(self)@.wf(),
            final(self)@.excerpts() == insert_excerpts_spec(
                old(self)@.excerpts(),
                prev,
                buffer.id,
                new_excerpts@,
            ),
            final(self)@.singleton == singleton_after(
                old(self)@.singleton,
                old(self)@.excerpts(),
                final(self)@.excerpts(),
            ),
            final(self)@.title == old(self)@.title,
            final(self)@.observed() == apply_op(
                old(self)@.observed(),
                ExcerptOp::Insert { prev, buffer_id: buffer.id, run: new_excerpts@ },
            ),
            final(self)@.private_buffers == if buffer.private {
                old(self)@.private_buffers.push(buffer.id)
            } else {
                old(self)@.private_buffers
            },
    {
        let buffer_id = buffer.id;
        self.note_buffer(buffer);
        let ghost noted = self@;
        if prev.0 != 0 && !self.is_shown(prev) {
            return ;
        }
        let ghost v0 = live(self@.slots);
        let ghost run = excerpts_of(buffer_id, new_excerpts@);
        let ghost target = insert_run(v0, prev, run);
        let mut anchor = prev;
        let mut inserted = false;
        let mut i: usize = 0;
        assert(run.skip(0) =~= run);
        while i < new_excerpts.len()
            invariant
                self@.wf(),
                i <= new_excerpts@.len(),
                run == excerpts_of(buffer_id, new_excerpts@),
                v0 == old(self)@.excerpts(),
                target == insert_run(v0, prev, run),
                insert_run(live(self@.slots), anchor, run.skip(i as int)) == target,
                anchor == ExcerptId(0) || contains_id(live(self@.slots), anchor),
                self@.title == old(self)@.title,
                self@.private_buffers == noted.private_buffers,
                inserted ==> live(self@.slots).len() > v0.len() && self@.singleton is None,
                !inserted ==> live(self@.slots) == v0 && self@.singleton == old(self)@.singleton,
                live(self@.slots).len() >= v0.len(),
            decreases new_excerpts@.len() - i,
        {
            let (id, range) = new_excerpts[i];
            let ghost e = Excerpt { id, buffer_id, range };
            assert(run.skip(i as int)[0] == e);
            assert(run.skip(i as int).drop_first() =~= run.skip(i + 1));
            if id.0 != 0 && id.0 != u64::MAX && range.is_well_formed() && !self.is_shown(id) {
                self.insert_one(anchor, Excerpt { id, buffer_id, range });
                anchor = id;
                inserted = true;
            }
            i += 1;
        }
        assert(run.skip(i as int) =~= Seq::<Excerpt>::empty());
    }

    /// The slot index right after the shown excerpt `anchor`, or 0 for the start sentinel.
    fn insertion_point(&self, anchor: ExcerptId) -> (pos: usize)
        requires
            self@.wf(),
            anchor == ExcerptId(0) || contains_id(live(self@.slots), anchor),
        ensures
            anchor == ExcerptId(0) ==> pos == 0,
            anchor != ExcerptId(0) ==> 1 <= pos <= self@.slots.len() && self@.slots[pos
                - 1].excerpt.id == anchor && !self@.slots[pos - 1].removed,
    {
        if anchor.0 == 0 {
            return 0;
        }
        proof {
            lemma_live_contains(self@.slots, anchor);
            lemma_slot_index(self@.slots, anchor);
        }
        let ghost j = choose|j: int|
            0 <= j < self@.slots.len() && (#[trigger] self@.slots[j]).excerpt.id == anchor
                && !self@.slots[j].removed;
        match self.index_of(anchor) {
            Some(q) => {
                assert(q == j);
                assert(self.slots@ == self@.slots);
                assert(q < self.slots.len());
                q + 1
            },
            None => {
                assert(false);
                0
            },
        }
    }

    /// Drops the removed slot that holds `id`, if there is one.
    fn drop_removed_slot(&mut self, id: ExcerptId)
        requires
            old(self)@.wf(),
            !contains_id(live(old(self)@.slots), id),
        ensures
            final(self)@.wf(),
            live(final(self)@.slots) == live(old(self)@.slots),
            forall|i: int|
                0 <= i < final(self)@.slots.len() ==> (#[trigger] final(self)@.slots[i]).excerpt.id != id,
            final(self)@.singleton == old(self)@.singleton,
            final(self)@.title == old(self)@.title,
            final(self)@.next_id == old(self)@.next_id,
            final(self)@.private_buffers == old(self)@.private_buffers,
    {
        proof {
            lemma_slot_index(self@.slots, id);
            lemma_live_contains(self@.slots, id);
        }
        match self.index_of(id) {
            Some(t) => {
                let ghost s = self@.slots;
                assert(s[t as int].removed);
                proof {
                    lemma_drop_removed_slot(s, t as int);
                }
                self.slots.remove(t);
                proof {
                    let n = self@.slots;
                    assert forall|i: int| 0 <= i < n.len() implies (#[trigger] n[i]).excerpt.id
                        != id by {
                        if i < t {
                            assert(n[i] == s[i]);
                        } else {
                            assert(n[i] == s[i + 1]);
                        }
                    }
                    assert forall|i: int| 0 <= i < n.len() implies {
                        &&& is_real_excerpt_id(#[trigger] n[i].excerpt.id)
                        &&& n[i].excerpt.id.0 < self@.next_id
                        &&& n[i].excerpt.range.wf()
                    } by {
                        if i < t {
                            assert(n[i] == s[i]);
                        } else {
                            assert(n[i] == s[i + 1]);
                        }
                    }
                }
            },
            None => {},
        }
    }

    /// Inserts one excerpt, not shown before, right after `anchor`; a removed slot
    /// that held the same id gives way to it.
    fn insert_one(&mut self, anchor: ExcerptId, e: Excerpt)
        requires
            old(self)@.wf(),
            anchor == ExcerptId(0) || contains_id(live(old(self)@.slots), anchor),
            admissible(live(old(self)@.slots), e),
        ensures
            final(self)@.wf(),
            live(final(self)@.slots) == insert_after(live(old(self)@.slots), anchor, e),
            live(final(self)@.slots).len() == live(old(self)@.slots).len() + 1,
            contains_id(live(final(self)@.slots), e.id),
            final(self)@.singleton is None,
            final(self)@.title == old(self)@.title,
            final(self)@.private_buffers == old(self)@.private_buffers,
    {
        self.drop_removed_slot(e.id);
        let ghost s = self.slots@;
        let pos = self.insertion_point(anchor);
        let slot = Slot { excerpt: e, removed: false };
        proof {
            lemma_insert_shown(s, anchor, pos as int, slot);
            lemma_insert_slot_wf(s, pos as int, slot, self@.next_id);
        }
        self.slots.insert(pos, slot);
        if e.id.0 >= self.next_excerpt_id {
            self.next_excerpt_id = e.id.0 + 1;
        }
        self.singleton = None;
        proof {
            let n = self@.slots;
            assert(n =~= s.insert(pos as int, slot));
            assert forall|a: int| 0 <= a < n.len() implies (#[trigger] n[a]).excerpt.id.0
                < self@.next_id by {
                if a < pos {
                    assert(n[a] == s[a]);
                } else if a > pos {
                    assert(n[a] == s[a - 1]);
                }
            }
            lemma_live_contains(n, e.id);
            assert(n[pos as int].excerpt.id == e.id);
        }
    }

    /// Removes the excerpts with the given ids; ids that are not shown are ignored.
    /// Removal marks each excerpt at its own place, so the order of `ids` does not matter.
    pub fn remove_excerpts(&mut self, ids: &Vec<ExcerptId>)
        requires
            old(self)@.wf(),
        ensures
            final(self)@.wf(),
            final(self)@.excerpts() == remove_ids(old(self)@.excerpts(), ids@),
            final(self)@.singleton == singleton_after(
                old(self)@.singleton,
                old(self)@.excerpts(),
                final(self)@.excerpts(),
            ),
            final(self)@.title == old(self)@.title,
            final(self)@.observed() == apply_op(old(self)@.observed(), ExcerptOp::Remove { ids: ids@ }),
            final(self)@.private_buffers == old(self)@.private_buffers,
    {
        let ghost old_slots = self.slots@;
        let mut new_slots: Vec<Slot> = Vec::new();
        let mut changed = false;
        let mut i: usize = 0;
        while i < self.slots.len()
            invariant
                old_slots == self.slots@,
                i <= old_slots.len(),
                new_slots@.len() == i,
                forall|j: int| 0 <= j < i ==> (#[trigger] new_slots@[j]).excerpt == old_slots[j].excerpt,
                live(new_slots@) == remove_ids(live(old_slots.take(i as int)), ids@),
                !changed ==> new_slots@ == old_slots.take(i as int),
                changed ==> live(new_slots@).len() < live(old_slots.take(i as int)).len(),
            decreases old_slots.len() - i,
        {
            let slot = self.slots[i];
            let hit = !slot.removed && contains_excerpt_id(ids, slot.excerpt.id);
            let ghost before = new_slots@;
            let ghost x = live(old_slots.take(i as int));
            proof {
                lemma_remove_ids_len(x, ids@);
            }
            new_slots.push(Slot { excerpt: slot.excerpt, removed: slot.removed || hit });
            assert(old_slots.take(i + 1).drop_last() =~= old_slots.take(i as int));
            assert(new_slots@.drop_last() =~= before);
            if !slot.removed {
                assert(x.push(slot.excerpt).drop_last() =~= x);
            }
            if hit {
                changed = true;
            }
            i += 1;
            assert(!changed ==> new_slots@ =~= old_slots.take(i as int));
        }
        assert(old_slots.take(i as int) =~= old_slots);
        self.slots = new_slots;
        if changed {
            self.singleton = None;
        }
        proof {
            let n = self@.slots;
            assert forall|a: int, b: int| 0 <= a < b < n.len() implies (#[trigger] n[a]).excerpt.id
                != (#[trigger] n[b]).excerpt.id by {
                assert(n[a].excerpt == old_slots[a].excerpt && n[b].excerpt == old_slots[b].excerpt);
            }
            assert forall|a: int| 0 <= a < n.len() implies {
                &&& is_real_excerpt_id(#[trigger] n[a].excerpt.id)
                &&& n[a].excerpt.id.0 < self@.next_id
                &&& n[a].excerpt.range.wf()
            } by {
                assert(n[a].excerpt == old_slots[a].excerpt);
            }
        }
    }
}


/// Inserting a shown excerpt right after the slot of `anchor` (or first, for the start
/// sentinel) shows it right after `anchor`.
proof fn lemma_insert_shown(s: Seq<Slot>, anchor: ExcerptId, pos: int, slot: Slot)
    requires
        slot_ids_unique(s),
        forall|i: int| 0 <= i < s.len() ==> is_real_excerpt_id(#[trigger] s[i].excerpt.id),
        !slot.removed,
        anchor == ExcerptId(0) ==> pos == 0,
        anchor != ExcerptId(0) ==> 1 <= pos <= s.len() && s[pos - 1].excerpt.id == anchor
            && !s[pos - 1].removed,
    ensures
        live(s.insert(pos, slot)) == insert_after(live(s), anchor, slot.excerpt),
        live(s.insert(pos, slot)).len() == live(s).len() + 1,
{
    lemma_live_insert(s, pos, slot);
    let v = live(s);
    lemma_position_of(v, anchor);
    lemma_live_contains(s, anchor);
    if anchor.0 == 0 {
        if contains_id(v, anchor) {
            let j = choose|j: int|
                0 <= j < s.len() && (#[trigger] s[j]).excerpt.id == anchor && !s[j].removed;
        }
        assert(s.take(0) =~= Seq::<Slot>::empty());
        assert(s.skip(0) =~= s);
        assert(live(Seq::<Slot>::empty()) =~= Seq::<Excerpt>::empty());
    } else {
        let q = pos - 1;
        lemma_split_live(s, q);
        lemma_live_unique(s);
        assert(s.take(q + 1) =~= s.take(q).push(s[q]));
        assert(s.take(q + 1).drop_last() =~= s.take(q));
        let k = live(s.take(q)).len() as int;
        assert(v[k] == s[q].excerpt);
    }
    assert(live(s.insert(pos, slot)) =~= v.insert(position_of(v, anchor) + 1, slot.excerpt));
}

/// Inserting a slot whose id no slot holds keeps the ids unique and real.
proof fn lemma_insert_slot_wf(s: Seq<Slot>, pos: int, slot: Slot, next_id: nat)
    requires
        0 <= pos <= s.len(),
        slot_ids_unique(s),
        forall|i: int| 0 <= i < s.len() ==> (#[trigger] s[i]).excerpt.id != slot.excerpt.id,
        forall|i: int|
            0 <= i < s.len() ==> is_real_excerpt_id(#[trigger] s[i].excerpt.id)
                && s[i].excerpt.range.wf(),
        is_real_excerpt_id(slot.excerpt.id),
        slot.excerpt.range.wf(),
    ensures
        slot_ids_unique(s.insert(pos, slot)),
        forall|i: int|
            0 <= i < s.len() + 1 ==> is_real_excerpt_id(#[trigger] s.insert(pos, slot)[i].excerpt.id)
                && s.insert(pos, slot)[i].excerpt.range.wf(),
{
    let n = s.insert(pos, slot);
    assert forall|a: int, b: int| 0 <= a < b < n.len() implies (#[trigger] n[a]).excerpt.id
        != (#[trigger] n[b]).excerpt.id by {
        if a < pos && b < pos {
            assert(n[a] == s[a] && n[b] == s[b]);
        } else if a < pos && b == pos {
            assert(n[a] == s[a]);
        } else if a < pos {
            assert(n[a] == s[a] && n[b] == s[b - 1]);
        } else if a == pos {
            assert(n[b] == s[b - 1]);
        } else {
            assert(n[a] == s[a - 1] && n[b] == s[b - 1]);
        }
    }
    assert forall|a: int| 0 <= a < s.len() + 1 implies is_real_excerpt_id(
        #[trigger] n[a].excerpt.id,
    ) && n[a].excerpt.range.wf() by {
        if a < pos {
            assert(n[a] == s[a]);
        } else if a > pos {
            assert(n[a] == s[a - 1]);
        }
    }
}


/// The order of two buffer anchors: by offset, then bias (left first), then version.
pub open spec fn text_anchor_cmp(a: TextAnchor, b: TextAnchor) -> Ordering {
    let ba: int = if a.bias is Left { 0 } else { 1 };
    let bb: int = if b.bias is Left { 0 } else { 1 };
    if a.offset < b.offset {
        Ordering::Less
    } else if a.offset > b.offset {
        Ordering::Greater
    } else if ba < bb {
        Ordering::Less
    } else if ba > bb {
        Ordering::Greater
    } else if a.version < b.version {
        Ordering::Less
    } else if a.version > b.version {
        Ordering::Greater
    } else {
        Ordering::Equal
    }
}

/// The order of two anchors in a multi-buffer: by the place of their excerpts in the
/// sequence (see `MultiBufferModel::rank`), then by excerpt id, then by their position
/// in the buffer.
pub open spec fn anchor_cmp(m: MultiBufferModel, a: Anchor, b: Anchor) -> Ordering {
    let ra = m.rank(a.excerpt_id);
    let rb = m.rank(b.excerpt_id);
    if ra < rb {
        Ordering::Less
    } else if ra > rb {
        Ordering::Greater
    } else if a.excerpt_id.0 < b.excerpt_id.0 {
        Ordering::Less
    } else if a.excerpt_id.0 > b.excerpt_id.0 {
        Ordering::Greater
    } else {
        text_anchor_cmp(a.text_anchor, b.text_anchor)
    }
}

/// `a` sorts before `b` or with it.
pub open spec fn anchor_le(m: MultiBufferModel, a: Anchor, b: Anchor) -> bool {
    anchor_cmp(m, a, b) != Ordering::Greater
}

/// An anchor resolved against `m`: its buffer is the one `m` shows for its excerpt.
pub open spec fn resolved_in(m: MultiBufferModel, a: Anchor) -> bool {
    a.buffer_id == m.buffer_id_for_excerpt(a.excerpt_id)
}

/// Anchor order is a total order on the anchors resolved against one multi-buffer:
/// every anchor equals itself, swapping the two sides flips the result, `<=` is
/// transitive, and two anchors that are each `<=` the other are equal.
pub proof fn lemma_anchor_order_is_total(m: MultiBufferModel, a: Anchor, b: Anchor, c: Anchor)
    requires
        m.wf(),
        resolved_in(m, a),
        resolved_in(m, b),
        resolved_in(m, c),
    ensures
        anchor_cmp(m, a, a) == Ordering::Equal,
        anchor_cmp(m, a, b) == Ordering::Less <==> anchor_cmp(m, b, a) == Ordering::Greater,
        anchor_cmp(m, a, b) == Ordering::Equal <==> anchor_cmp(m, b, a) == Ordering::Equal,
        anchor_le(m, a, b) && anchor_le(m, b, c) ==> anchor_le(m, a, c),
        anchor_le(m, a, b) && anchor_le(m, b, a) ==> a == b,
        anchor_le(m, a, b) || anchor_le(m, b, a),
{
    lemma_anchor_order_transitive(m, a, b, c);
    if anchor_le(m, a, b) && anchor_le(m, b, a) {
        assert(a.excerpt_id == b.excerpt_id);
        assert(a.text_anchor.bias == b.text_anchor.bias);
        assert(a.text_anchor == b.text_anchor);
    }
}

/// `<=` on anchors is transitive, and `<` is too, whatever the anchors.
pub proof fn lemma_anchor_order_transitive(m: MultiBufferModel, a: Anchor, b: Anchor, c: Anchor)
    ensures
        anchor_le(m, a, b) && anchor_le(m, b, c) ==> anchor_le(m, a, c),
        anchor_cmp(m, a, b) == Ordering::Less && anchor_le(m, b, c) ==> anchor_cmp(m, a, c)
            == Ordering::Less,
        anchor_le(m, a, b) && anchor_cmp(m, b, c) == Ordering::Less ==> anchor_cmp(m, a, c)
            == Ordering::Less,
        anchor_cmp(m, a, b) != Ordering::Less <==> anchor_le(m, b, a),
{
}

/// Removing a set of excerpts gives the same sequence whatever order the ids come in.
pub proof fn lemma_removal_order_independent(s: ObservedState, a: Seq<ExcerptId>, b: Seq<ExcerptId>)
    requires
        forall|id: ExcerptId| a.contains(id) <==> b.contains(id),
    ensures
        apply_op(s, ExcerptOp::Remove { ids: a }) == apply_op(s, ExcerptOp::Remove { ids: b }),
{
    lemma_remove_ids_same_set(s.excerpts, a, b);
}

proof fn lemma_remove_ids_same_set(v: Seq<Excerpt>, a: Seq<ExcerptId>, b: Seq<ExcerptId>)
    requires
        forall|id: ExcerptId| a.contains(id) <==> b.contains(id),
    ensures
        remove_ids(v, a) == remove_ids(v, b),
    decreases v.len(),
{
    if v.len() > 0 {
        lemma_remove_ids_same_set(v.drop_last(), a, b);
        assert(a.contains(v.last().id) == b.contains(v.last().id));
    }
}

impl Anchor {
    /// Compares two anchors in the order of `snapshot`.
    pub fn cmp(&self, other: &Anchor, snapshot: &MultiBuffer) -> (r: Ordering)
        requires
            snapshot@.wf(),
        ensures
            r == anchor_cmp(snapshot@, *self, *other),
    {
        let ra = snapshot.rank(self.excerpt_id);
        let rb = snapshot.rank(other.excerpt_id);
        if ra < rb {
            Ordering::Less
        } else if ra > rb {
            Ordering::Greater
        } else if self.excerpt_id.0 < other.excerpt_id.0 {
            Ordering::Less
        } else if self.excerpt_id.0 > other.excerpt_id.0 {
            Ordering::Greater
        } else {
            text_anchor_cmp_exec(&self.text_anchor, &other.text_anchor)
        }
    }
}

fn text_anchor_cmp_exec(a: &TextAnchor, b: &TextAnchor) -> (r: Ordering)
    ensures
        r == text_anchor_cmp(*a, *b),
{
    let ba: u8 = match a.bias {
        Bias::Left => 0,
        Bias::Right => 1,
    };
    let bb: u8 = match b.bias {
        Bias::Left => 0,
        Bias::Right => 1,
    };
    if a.offset < b.offset {
        Ordering::Less
    } else if a.offset > b.offset {
        Ordering::Greater
    } else if ba < bb {
        Ordering::Less
    } else if ba > bb {
        Ordering::Greater
    } else if a.version < b.version {
        Ordering::Less
    } else if a.version > b.version {
        Ordering::Greater
    } else {
        Ordering::Equal
    }
}

impl MultiBuffer {
    /// The rank of an excerpt id, as `MultiBufferModel::rank` defines it.
    fn rank(&self, id: ExcerptId) -> (r: u128)
        requires
            self@.wf(),
        ensures
            r == self@.rank(id),
    {
        proof {
            lemma_slot_index(self@.slots, id);
        }
        let n = self.slots.len() as u128;
        if id.0 == 0 {
            0
        } else if id.0 == u64::MAX {
            n + 2
        } else {
            match self.index_of(id) {
                Some(i) => i as u128 + 1,
                None => n + 1,
            }
        }
    }
}


impl MultiBuffer {
    /// The ids in the order of this multi-buffer's excerpt sequence (removed excerpts
    /// at their old places); ids it never held go after its excerpts.
    pub fn sort_by_display_order(&self, ids: &Vec<ExcerptId>) -> (r: Vec<ExcerptId>)
        requires
            self@.wf(),
        ensures
            r@.to_multiset() == ids@.to_multiset(),
            forall|i: int, j: int|
                0 <= i <= j < r@.len() ==> self@.rank(#[trigger] r@[i]) <= self@.rank(#[trigger] r@[j]),
    {
        broadcast use vstd::seq_lib::group_to_multiset_ensures;

        let mut r: Vec<ExcerptId> = Vec::new();
        let mut ranks: Vec<u128> = Vec::new();
        let mut i: usize = 0;
        assert(ids@.take(0) =~= Seq::<ExcerptId>::empty());
        while i < ids.len()
            invariant
                self@.wf(),
                i <= ids@.len(),
                r@.to_multiset() == ids@.take(i as int).to_multiset(),
                ranks@.len() == r@.len(),
                forall|k: int| 0 <= k < r@.len() ==> ranks@[k] == self@.rank(#[trigger] r@[k]),
                forall|a: int, b: int|
                    0 <= a <= b < r@.len() ==> self@.rank(#[trigger] r@[a]) <= self@.rank(#[trigger] r@[b]),
            decreases ids@.len() - i,
        {
            let id = ids[i];
            let rank = self.rank(id);
            let mut p: usize = 0;
            while p < r.len() && ranks[p] <= rank
                invariant
                    p <= r@.len(),
                    ranks@.len() == r@.len(),
                    forall|k: int| 0 <= k < r@.len() ==> ranks@[k] == self@.rank(#[trigger] r@[k]),
                    forall|k: int| 0 <= k < p ==> self@.rank(#[trigger] r@[k]) <= rank,
                decreases r@.len() - p,
            {
                p += 1;
            }
            let ghost before = r@;
            r.insert(p, id);
            ranks.insert(p, rank);
            proof {
                before.insert_ensures(p as int, id);
                assert(r@.remove(p as int) =~= before);
                assert(ids@.take(i + 1) =~= ids@.take(i as int).push(id));
                assert(r@[p as int] == id);
                r@.to_multiset_ensures();
                before.to_multiset_ensures();
                assert(before.to_multiset() =~= r@.to_multiset().remove(id));
                assert(r@.contains(id));
                assert(r@.to_multiset().count(id) > 0);
                assert(r@.to_multiset() =~= before.to_multiset().insert(id));
                ids@.take(i as int).to_multiset_ensures();
                assert(ids@.take(i + 1).to_multiset() =~= ids@.take(i as int).to_multiset().insert(id));
                assert forall|a: int, b: int| 0 <= a <= b < r@.len() implies self@.rank(
                    #[trigger] r@[a],
                ) <= self@.rank(#[trigger] r@[b]) by {
                    if a < p && b < p {
                        assert(r@[a] == before[a] && r@[b] == before[b]);
                    } else if a < p && b == p {
                        assert(r@[a] == before[a]);
                    } else if a < p {
                        assert(r@[a] == before[a] && r@[b] == before[b - 1]);
                    } else if a == p && b > p {
                        assert(r@[b] == before[b - 1]);
                        if p < before.len() {
                            assert(self@.rank(before[p as int]) > rank);
                            assert(self@.rank(before[p as int]) <= self@.rank(before[b - 1]));
                        }
                    } else if a > p {
                        assert(r@[a] == before[a - 1] && r@[b] == before[b - 1]);
                    }
                }
                assert forall|k: int| 0 <= k < r@.len() implies ranks@[k] == self@.rank(#[trigger] r@[k]) by {
                    if k < p {
                        assert(r@[k] == before[k]);
                    } else if k > p {
                        assert(r@[k] == before[k - 1]);
                    }
                }
            }
            i += 1;
        }
        assert(ids@.take(i as int) =~= ids@);
        r
    }
}


/// The length of an excerpt's context, in buffer offsets.
pub open spec fn excerpt_len(e: Excerpt) -> int {
    e.range.context.end.offset - e.range.context.start.offset
}

/// The total length of the shown excerpts among `s`.
pub open spec fn shown_len(s: Seq<Slot>) -> int
    decreases s.len(),
{
    if s.len() == 0 {
        0
    } else if s.last().removed {
        shown_len(s.drop_last())
    } else {
        shown_len(s.drop_last()) + excerpt_len(s.last().excerpt)
    }
}

/// The offset in the multi-buffer that an anchor resolves to. An anchor into a shown
/// excerpt lands inside it, clamped to its context; an anchor into a removed excerpt
/// lands where that excerpt used to start; the start sentinel resolves to 0, and the
/// end sentinel and unknown excerpts to the end.
pub open spec fn resolve(m: MultiBufferModel, a: Anchor) -> int {
    let i = slot_index(m.slots, a.excerpt_id);
    if a.excerpt_id == ExcerptId(0) {
        0
    } else if a.excerpt_id == ExcerptId(u64::MAX) || i < 0 {
        shown_len(m.slots)
    } else {
        let e = m.slots[i].excerpt;
        let before = shown_len(m.slots.take(i));
        if m.slots[i].removed {
            before
        } else {
            let within = a.text_anchor.offset - e.range.context.start.offset;
            before + if within < 0 {
                0
            } else if within > excerpt_len(e) {
                excerpt_len(e)
            } else {
                within
            }
        }
    }
}

pub open spec fn saturate(x: int) -> int {
    if x > u64::MAX {
        u64::MAX as int
    } else {
        x
    }
}

impl MultiBuffer {
    /// The total length of the shown excerpts up to slot `end`, saturating at `u64::MAX`.
    fn shown_len_upto(&self, end: usize) -> (r: u64)
        requires
            self@.wf(),
            end <= self@.slots.len(),
        ensures
            r == saturate(shown_len(self@.slots.take(end as int))),
    {
        let mut acc: u64 = 0;
        let mut k: usize = 0;
        assert(self@.slots.take(0) =~= Seq::<Slot>::empty());
        while k < end
            invariant
                self@.wf(),
                self.slots@ == self@.slots,
                k <= end <= self@.slots.len(),
                acc == saturate(shown_len(self@.slots.take(k as int))),
                shown_len(self@.slots.take(k as int)) >= 0,
            decreases end - k,
        {
            let slot = self.slots[k];
            assert(self@.slots.take(k + 1).drop_last() =~= self@.slots.take(k as int));
            assert(self@.slots.take(k + 1).last() == self@.slots[k as int]);
            if !slot.removed {
                let len = slot.excerpt.range.context.end.offset - slot.excerpt.range.context.start.offset;
                acc = acc.saturating_add(len);
            }
            k += 1;
        }
        acc
    }

    /// The offset an anchor resolves to, saturating at `u64::MAX`; see `resolve`.
    pub fn resolve_offset(&self, anchor: &Anchor) -> (r: u64)
        requires
            self@.wf(),
        ensures
            r == saturate(resolve(self@, *anchor)),
    {
        proof {
            lemma_slot_index(self@.slots, anchor.excerpt_id);
            assert(self@.slots.take(self@.slots.len() as int) =~= self@.slots);
        }
        if anchor.excerpt_id.0 == 0 {
            return 0;
        }
        let i = match self.index_of(anchor.excerpt_id) {
            Some(i) => i,
            None => return self.shown_len_upto(self.slots.len()),
        };
        if anchor.excerpt_id.0 == u64::MAX {
            return self.shown_len_upto(self.slots.len());
        }
        let before = self.shown_len_upto(i);
        let slot = self.slots[i];
        if slot.removed {
            return before;
        }
        let start = slot.excerpt.range.context.start.offset;
        let len = slot.excerpt.range.context.end.offset - start;
        let within = if anchor.text_anchor.offset < start {
            0
        } else if anchor.text_anchor.offset - start > len {
            len
        } else {
            anchor.text_anchor.offset - start
        };
        before.saturating_add(within)
    }
}


/// Whether an offset lies past the end `end` of an excerpt, for an anchor with `bias`: a
/// left-biased offset at the very end still belongs to the excerpt, a right-biased one
/// belongs to the next.
pub open spec fn passes(bias: Bias, target: int, end: int) -> bool {
    if bias is Left {
        target > end
    } else {
        target >= end
    }
}

/// The end offset of the shown slot `j` in the multi-buffer.
pub open spec fn end_of(s: Seq<Slot>, j: int) -> int {
    shown_len(s.take(j)) + excerpt_len(s[j].excerpt)
}

/// What `anchor_at` promises: the anchor has the asked bias, is resolved against `m`,
/// resolves to the offset clamped to the document, and sits in the first shown
/// excerpt that the offset does not pass (the last one, when it passes them all).
pub open spec fn anchor_at_spec(m: MultiBufferModel, offset: int, bias: Bias, r: Anchor) -> bool {
    let total = shown_len(m.slots);
    let target = if offset > total { total } else { offset };
    let i = slot_index(m.slots, r.excerpt_id);
    &&& r.text_anchor.bias == bias
    &&& resolved_in(m, r)
    &&& resolve(m, r) == target
    &&& live(m.slots).len() == 0 ==> r.excerpt_id == ExcerptId(0)
    &&& live(m.slots).len() > 0 ==> {
        &&& 0 <= i < m.slots.len()
        &&& !m.slots[i].removed
        &&& forall|j: int| 0 <= j < i && !(#[trigger] m.slots[j]).removed ==> passes(bias, target, end_of(m.slots, j))
        &&& !passes(bias, target, end_of(m.slots, i)) || forall|j: int| i < j < m.slots.len() ==> (#[trigger] m.slots[j]).removed
    }
}

proof fn lemma_shown_len_step(s: Seq<Slot>, k: int)
    requires
        0 <= k < s.len(),
    ensures
        shown_len(s.take(k + 1)) == shown_len(s.take(k)) + if s[k].removed { 0 } else { excerpt_len(s[k].excerpt) },
{
    assert(s.take(k + 1).drop_last() =~= s.take(k));
    assert(s.take(k + 1).last() == s[k]);
}

proof fn lemma_shown_len_nonneg(s: Seq<Slot>)
    requires
        forall|i: int| 0 <= i < s.len() ==> (#[trigger] s[i]).excerpt.range.wf(),
    ensures
        shown_len(s) >= 0,
    decreases s.len(),
{
    if s.len() > 0 {
        assert forall|i: int| 0 <= i < s.drop_last().len() implies (#[trigger] s.drop_last()[i]).excerpt.range.wf() by {
            assert(s.drop_last()[i] == s[i]);
        }
        lemma_shown_len_nonneg(s.drop_last());
    }
}

impl MultiBuffer {
    /// The anchor for an offset of the multi-buffer, with the given bias; see
    /// `anchor_at_spec`. Offsets past the end are clamped to it.
    pub fn anchor_at(&self, offset: u64, bias: Bias) -> (r: Anchor)
        requires
            self@.wf(),
            shown_len(self@.slots) <= u64::MAX,
        ensures
            anchor_at_spec(self@, offset as int, bias, r),
    {
        let ghost s = self@.slots;
        let total = self.shown_len_upto(self.slots.len());
        proof {
            assert(s.take(s.len() as int) =~= s);
        }
        let target = if offset > total { total } else { offset };
        let mut acc: u64 = 0;
        let mut last: Option<usize> = None;
        let mut k: usize = 0;
        assert(s.take(0) =~= Seq::<Slot>::empty());
        while k < self.slots.len()
            invariant
                self@.wf(),
                s == self@.slots,
                self.slots@ == s,
                shown_len(s) <= u64::MAX,
                total == shown_len(s),
                target <= total,
                target == if offset > total { total } else { offset },
                k <= s.len(),
                acc == shown_len(s.take(k as int)),
                acc <= target,
                forall|j: int| 0 <= j < k && !(#[trigger] s[j]).removed ==> passes(bias, target as int, end_of(s, j)),
                match last {
                    Some(j) => j < k && !s[j as int].removed && end_of(s, j as int) == acc
                        && forall|x: int| j < x < k ==> (#[trigger] s[x]).removed,
                    None => acc == 0 && forall|x: int| 0 <= x < k ==> (#[trigger] s[x]).removed,
                },
            decreases s.len() - k,
        {
            proof {
                lemma_shown_len_step(s, k as int);
                self.lemma_ranges_wf();
                lemma_shown_len_prefix_bound(s, k as int + 1);
                assert(is_real_excerpt_id(s[k as int].excerpt.id));
            }
            let slot = self.slots[k];
            if !slot.removed {
                let start = slot.excerpt.range.context.start.offset;
                let len = slot.excerpt.range.context.end.offset - start;
                let end = acc + len;
                let inside = match bias {
                    Bias::Left => target <= end,
                    Bias::Right => target < end,
                };
                if inside {
                    let r = Anchor {
                        excerpt_id: slot.excerpt.id,
                        buffer_id: Some(slot.excerpt.buffer_id),
                        text_anchor: TextAnchor {
                            version: slot.excerpt.range.context.end.version,
                            offset: start + (target - acc),
                            bias,
                        },
                    };
                    proof {
                        self.lemma_shown_slot(k as int);
                        assert(end_of(s, k as int) == acc + len);
                        assert(slot_index(s, r.excerpt_id) == k);
                        assert(resolve(self@, r) == target);
                    }
                    return r;
                }
                last = Some(k);
            }
            acc = if slot.removed { acc } else { acc + (slot.excerpt.range.context.end.offset - slot.excerpt.range.context.start.offset) };
            k += 1;
        }
        proof {
            assert(s.take(k as int) =~= s);
        }
        match last {
            Some(j) => {
                let slot = self.slots[j];
                proof {
                    self.lemma_shown_slot(j as int);
                    assert(is_real_excerpt_id(s[j as int].excerpt.id));
                    assert(end_of(s, j as int) == total);
                    if bias is Left {
                        assert(passes(bias, target as int, end_of(s, j as int)));
                        assert(false);
                    }
                    assert(target == total);
                    assert(slot_index(s, slot.excerpt.id) == j);
                }
                let r = Anchor {
                    excerpt_id: slot.excerpt.id,
                    buffer_id: Some(slot.excerpt.buffer_id),
                    text_anchor: TextAnchor {
                        version: slot.excerpt.range.context.end.version,
                        offset: slot.excerpt.range.context.end.offset,
                        bias,
                    },
                };
                proof {
                    assert(resolve(self@, r) == end_of(s, j as int));
                    assert(forall|x: int| 0 <= x < j && !(#[trigger] s[x]).removed ==> passes(bias, target as int, end_of(s, x)));
                }
                r
            },
            None => {
                proof {
                    lemma_live_tail_removed(s, 0);
                    assert(s.take(0) =~= Seq::<Slot>::empty());
                    assert(live(Seq::<Slot>::empty()) =~= Seq::<Excerpt>::empty());
                    lemma_live_contains(s, ExcerptId(0));
                }
                Anchor {
                    excerpt_id: ExcerptId(0),
                    buffer_id: None,
                    text_anchor: TextAnchor { version: 0, offset: 0, bias },
                }
            },
        }
    }

    /// The anchor for an offset, sticking to the text before it.
    pub fn anchor_before(&self, offset: u64) -> (r: Anchor)
        requires
            self@.wf(),
            shown_len(self@.slots) <= u64::MAX,
        ensures
            anchor_at_spec(self@, offset as int, Bias::Left, r),
    {
        self.anchor_at(offset, Bias::Left)
    }

    /// The anchor for an offset, sticking to the text after it.
    pub fn anchor_after(&self, offset: u64) -> (r: Anchor)
        requires
            self@.wf(),
            shown_len(self@.slots) <= u64::MAX,
        ensures
            anchor_at_spec(self@, offset as int, Bias::Right, r),
    {
        self.anchor_at(offset, Bias::Right)
    }

    proof fn lemma_ranges_wf(&self)
        requires
            self@.wf(),
        ensures
            forall|i: int| 0 <= i < self@.slots.len() ==> (#[trigger] self@.slots[i]).excerpt.range.wf(),
    {
        assert forall|i: int| 0 <= i < self@.slots.len() implies (#[trigger] self@.slots[i]).excerpt.range.wf() by {
            assert(is_real_excerpt_id(self@.slots[i].excerpt.id));
        }
    }

    /// What holds of a shown slot: it is the slot of its id, its buffer is the one shown
    /// for that id, and its context is well formed.
    proof fn lemma_shown_slot(&self, k: int)
        requires
            self@.wf(),
            0 <= k < self@.slots.len(),
            !self@.slots[k].removed,
        ensures
            slot_index(self@.slots, self@.slots[k].excerpt.id) == k,
            self@.buffer_id_for_excerpt(self@.slots[k].excerpt.id) == Some(self@.slots[k].excerpt.buffer_id),
            live(self@.slots).len() > 0,
    {
        let s = self@.slots;
        lemma_slot_index(s, s[k].excerpt.id);
        self.lemma_live_split(k);
        lemma_live_unique(s);
        let v = live(s);
        lemma_position_of(v, s[k].excerpt.id);
    }
}

/// A prefix of the slots shows no more than all of them.
proof fn lemma_shown_len_prefix_bound(s: Seq<Slot>, k: int)
    requires
        0 <= k <= s.len(),
        forall|i: int| 0 <= i < s.len() ==> (#[trigger] s[i]).excerpt.range.wf(),
    ensures
        0 <= shown_len(s.take(k)) <= shown_len(s),
    decreases s.len() - k,
{
    if k < s.len() {
        lemma_shown_len_prefix_bound(s, k + 1);
        lemma_shown_len_step(s, k);
    } else {
        assert(s.take(k) =~= s);
    }
    assert forall|i: int| 0 <= i < s.take(k).len() implies (#[trigger] s.take(k)[i]).excerpt.range.wf() by {
        assert(s.take(k)[i] == s[i]);
    }
    lemma_shown_len_nonneg(s.take(k));
}

/// Whether `id` is listed in `ids`.
pub fn contains_excerpt_id(ids: &Vec<ExcerptId>, id: ExcerptId) -> (r: bool)
    ensures
        r == ids@.contains(id),
{
    let mut i: usize = 0;
    while i < ids.len()
        invariant
            i <= ids@.len(),
            forall|j: int| 0 <= j < i ==> ids@[j] != id,
        decreases ids@.len() - i,
    {
        if ids[i] == id {
            return true;
        }
        i += 1;
    }
    false
}

pub proof fn lemma_remove_ids_len(v: Seq<Excerpt>, ids: Seq<ExcerptId>)
    ensures
        remove_ids(v, ids).len() <= v.len(),
    decreases v.len(),
{
    if v.len() > 0 {
        lemma_remove_ids_len(v.drop_last(), ids);
    }
}

/// Dropping a removed slot leaves the shown excerpts as they were.
pub proof fn lemma_drop_removed_slot(s: Seq<Slot>, t: int)
    requires
        0 <= t < s.len(),
        s[t].removed,
    ensures
        live(s.remove(t)) == live(s),
        slot_ids_unique(s) ==> slot_ids_unique(s.remove(t)),
        forall|i: int|
            0 <= i < s.len() - 1 ==> (#[trigger] s.remove(t)[i]) == if i < t {
                s[i]
            } else {
                s[i + 1]
            },
{
    assert(s =~= s.take(t) + (seq![s[t]] + s.skip(t + 1)));
    assert(s.remove(t) =~= s.take(t) + s.skip(t + 1));
    lemma_live_concat(s.take(t), seq![s[t]] + s.skip(t + 1));
    lemma_live_concat(seq![s[t]], s.skip(t + 1));
    lemma_live_concat(s.take(t), s.skip(t + 1));
    let one = seq![s[t]];
    assert(one.drop_last() =~= Seq::<Slot>::empty());
    assert(one.last() == s[t]);
    assert(live(one.drop_last()) =~= Seq::<Excerpt>::empty());
    assert(live(one) =~= Seq::<Excerpt>::empty());
    assert(live(s.take(t)) + Seq::<Excerpt>::empty() + live(s.skip(t + 1)) =~= live(s.take(t))
        + live(s.skip(t + 1)));
    let r = s.remove(t);
    if slot_ids_unique(s) {
        assert forall|a: int, b: int| 0 <= a < b < r.len() implies (#[trigger] r[a]).excerpt.id
            != (#[trigger] r[b]).excerpt.id by {
            let a2 = if a < t { a } else { a + 1 };
            let b2 = if b < t { b } else { b + 1 };
            assert(r[a] == s[a2] && r[b] == s[b2]);
        }
    }
}

/// Inserting a shown slot shows its excerpt between the shown slots around it.
pub proof fn lemma_live_insert(s: Seq<Slot>, pos: int, slot: Slot)
    requires
        0 <= pos <= s.len(),
        !slot.removed,
    ensures
        live(s.insert(pos, slot)) == live(s.take(pos)) + seq![slot.excerpt] + live(s.skip(pos)),
        live(s) == live(s.take(pos)) + live(s.skip(pos)),
{
    assert(s =~= s.take(pos) + s.skip(pos));
    lemma_live_concat(s.take(pos), s.skip(pos));
    let n = s.insert(pos, slot);
    assert(n =~= s.take(pos) + (seq![slot] + s.skip(pos)));
    lemma_live_concat(s.take(pos), seq![slot] + s.skip(pos));
    lemma_live_concat(seq![slot], s.skip(pos));
    let one = seq![slot];
    assert(one.drop_last() =~= Seq::<Slot>::empty());
    assert(one.last() == slot);
    assert(live(one.drop_last()) =~= Seq::<Excerpt>::empty());
    assert(live(one) =~= seq![slot.excerpt]);
    assert(live(s.take(pos)) + (seq![slot.excerpt] + live(s.skip(pos))) =~= live(s.take(pos))
        + seq![slot.excerpt] + live(s.skip(pos)));
}


/// Every shown excerpt sits in some slot, so it has what every slot has.
pub proof fn lemma_live_member(s: Seq<Slot>, k: int)
    requires
        0 <= k < live(s).len(),
    ensures
        exists|i: int| 0 <= i < s.len() && (#[trigger] s[i]).excerpt == live(s)[k],
    decreases s.len(),
{
    let p = s.drop_last();
    if !s.last().removed && k == live(p).len() {
        assert(s[s.len() - 1].excerpt == live(s)[k]);
    } else {
        assert(live(s)[k] == live(p)[k]);
        lemma_live_member(p, k);
        let i = choose|i: int| 0 <= i < p.len() && (#[trigger] p[i]).excerpt == live(p)[k];
        assert(s[i] == p[i]);
    }
}

impl MultiBuffer {
    /// The id of the last shown excerpt, or the start sentinel when none is shown.
    pub fn last_excerpt_id(&self) -> (r: ExcerptId)
        requires
            self@.wf(),
        ensures
            r == (if live(self@.slots).len() == 0 {
                ExcerptId(0)
            } else {
                live(self@.slots).last().id
            }),
    {
        let mut i: usize = self.slots.len();
        while i > 0
            invariant
                i <= self.slots@.len(),
                self.slots@ == self@.slots,
                forall|j: int| i <= j < self.slots@.len() ==> (#[trigger] self.slots@[j]).removed,
            decreases i,
        {
            if !self.slots[i - 1].removed {
                proof {
                    lemma_live_tail_removed(self@.slots, i as int);
                }
                return self.slots[i - 1].excerpt.id;
            }
            i -= 1;
        }
        proof {
            lemma_live_tail_removed(self@.slots, 0);
            assert(self@.slots.take(0) =~= Seq::<Slot>::empty());
        }
        ExcerptId(0)
    }
}

/// When every slot from `i` on is removed, the shown excerpts are those of the first `i`.
pub proof fn lemma_live_tail_removed(s: Seq<Slot>, i: int)
    requires
        0 <= i <= s.len(),
        forall|j: int| i <= j < s.len() ==> (#[trigger] s[j]).removed,
    ensures
        live(s) == live(s.take(i)),
    decreases s.len() - i,
{
    if i < s.len() {
        lemma_live_tail_removed(s.drop_last(), i);
        assert(s.drop_last().take(i) =~= s.take(i));
    } else {
        assert(s.take(i) =~= s);
    }
}

/// Splits the shown sequence around a shown slot.
pub proof fn lemma_split_live(s: Seq<Slot>, i: int)
    requires
        0 <= i < s.len(),
        !s[i].removed,
    ensures
        live(s) == live(s.take(i)) + seq![s[i].excerpt] + live(s.skip(i + 1)),
{
    assert(s =~= s.take(i) + (seq![s[i]] + s.skip(i + 1)));
    lemma_live_concat(s.take(i), seq![s[i]] + s.skip(i + 1));
    lemma_live_concat(seq![s[i]], s.skip(i + 1));
    let one = seq![s[i]];
    assert(one.drop_last() =~= Seq::<Slot>::empty());
    assert(one.last() == s[i]);
    assert(live(one.drop_last()) =~= Seq::<Excerpt>::empty());
    assert(live(one) =~= seq![s[i].excerpt]);
}

/// Slots that are all shown show their excerpts in order.
pub proof fn lemma_live_all_shown(s: Seq<Slot>)
    requires
        forall|i: int| 0 <= i < s.len() ==> !(#[trigger] s[i]).removed,
    ensures
        live(s) == s.map_values(|x: Slot| x.excerpt),
    decreases s.len(),
{
    if s.len() > 0 {
        lemma_live_all_shown(s.drop_last());
        assert(s.map_values(|x: Slot| x.excerpt) =~= s.drop_last().map_values(|x: Slot| x.excerpt).push(
            s.last().excerpt,
        ));
    } else {
        assert(s.map_values(|x: Slot| x.excerpt) =~= Seq::<Excerpt>::empty());
    }
}

} // verus!
