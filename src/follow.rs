//! The follow protocol: a leader serializes its view of a multi-buffer (excerpts,
//! selections, scroll position) into wire messages, and a follower applies them to
//! its own multi-buffer.
//!
//! The steps that wait on the outside world (opening buffers by id, waiting until a
//! buffer has received the operations that anchors depend on) are left to the caller:
//! the functions here say which buffers to open and which anchors to wait for, and take
//! what was opened as an argument.
//!
//! Pixel offsets travel, and are kept, as the bit patterns of IEEE-754
//! single-precision numbers.
use crate::multi_buffer::{
    admissible, apply_op, contains_id, excerpts_of, insert_after, insert_excerpts_spec,
    display_title, insert_run, is_real_excerpt_id, lemma_live_unique, lemma_position_of, live,
    position_of,
    replay, whole_buffer_excerpt, Anchor, Bias, Buffer, BufferId, Excerpt, ExcerptId, ExcerptOp,
    ExcerptRange, MultiBuffer, MultiBufferModel, ObservedState, Slot, TextAnchor, TextRange,
};
use vstd::prelude::*;

verus! {

/// A buffer anchor on the wire. The bias is 0 for left and 1 for right.
#[derive(Clone, Copy, Debug, PartialEq, Eq, Structural)]
pub struct TextAnchorWire {
    pub version: u64,
    pub offset: u64,
    pub bias: i32,
}

/// An excerpt on the wire.
#[derive(Clone, Copy, Debug, PartialEq, Eq, Structural)]
pub struct ExcerptWire {
    pub id: u64,
    pub buffer_id: u64,
    pub context_start: Option<TextAnchorWire>,
    pub context_end: Option<TextAnchorWire>,
    pub primary_start: Option<TextAnchorWire>,
    pub primary_end: Option<TextAnchorWire>,
}

/// A multi-buffer anchor on the wire.
#[derive(Clone, Copy, Debug, PartialEq, Eq, Structural)]
pub struct AnchorWire {
    pub excerpt_id: u64,
    pub anchor: Option<TextAnchorWire>,
}

/// A selection on the wire.
#[derive(Clone, Copy, Debug, PartialEq, Eq, Structural)]
pub struct SelectionWire {
    pub id: u64,
    pub start: Option<AnchorWire>,
    pub end: Option<AnchorWire>,
    pub reversed: bool,
}

/// The full state of a followed view.
#[derive(Clone, Debug)]
pub struct ViewSnapshot {
    pub singleton: bool,
    pub title: Option<String>,
    pub excerpts: Vec<ExcerptWire>,
    pub selections: Vec<SelectionWire>,
    pub pending_selection: Option<SelectionWire>,
    pub scroll_top_anchor: Option<AnchorWire>,
    pub scroll_x: u32,
    pub scroll_y: u32,
}

/// An excerpt inserted after `previous_excerpt_id`; an insertion without one follows
/// the insertion before it.
#[derive(Clone, Copy, Debug, PartialEq, Eq, Structural)]
pub struct ExcerptInsertion {
    pub previous_excerpt_id: Option<u64>,
    pub excerpt: Option<ExcerptWire>,
}

/// An incremental change of a followed view.
#[derive(Clone, Debug)]
pub struct ViewUpdate {
    pub inserted_excerpts: Vec<ExcerptInsertion>,
    pub deleted_excerpts: Vec<u64>,
    pub selections: Vec<SelectionWire>,
    pub pending_selection: Option<SelectionWire>,
    pub scroll_top_anchor: Option<AnchorWire>,
    pub scroll_x: u32,
    pub scroll_y: u32,
}

/// A selection; `reversed` tells that the caret is at `start`.
#[derive(Clone, Copy, Debug, PartialEq, Eq, Structural)]
pub struct Selection {
    pub id: u64,
    pub start: Anchor,
    pub end: Anchor,
    pub reversed: bool,
}

/// The top of the viewport: an anchor and an offset within the anchored line.
#[derive(Clone, Copy, Debug, PartialEq, Eq, Structural)]
pub struct ScrollAnchor {
    pub anchor: Anchor,
    pub offset_x: u32,
    pub offset_y: u32,
}

/// An editor view over a multi-buffer, as the follow protocol sees it.
pub struct Editor {
    pub buffer: MultiBuffer,
    pub selections: Vec<Selection>,
    pub pending_selection: Option<Selection>,
    pub scroll_anchor: ScrollAnchor,
    pub remote_id: Option<u64>,
    pub leader_peer_id: Option<u64>,
}

/// What an editor reports to the rest of the application.
pub enum EditorEvent {
    Edited,
    ExcerptsAdded { buffer_id: BufferId, predecessor: ExcerptId, excerpts: Vec<(ExcerptId, ExcerptRange)> },
    ExcerptsRemoved { ids: Vec<ExcerptId> },
    SelectionsChanged { local: bool },
    ScrollPositionChanged { local: bool, autoscroll: bool },
    Focused,
    Blurred,
    Saved,
    TitleChanged,
    Closed,
}

/// What following makes of an editor event.
#[derive(Clone, Copy, Debug, PartialEq, Eq, Structural)]
pub enum FollowEvent {
    Unfollow,
}

/// How a newly opened item relates to an open one.
#[derive(Clone, Copy, Debug, PartialEq, Eq, Structural)]
pub enum Dedup {
    KeepExisting,
    CloseExisting,
}

pub open spec fn serialize_text_anchor_spec(a: TextAnchor) -> TextAnchorWire {
    TextAnchorWire {
        version: a.version,
        offset: a.offset,
        bias: if a.bias is Left {
            0
        } else {
            1
        },
    }
}

pub open spec fn deserialize_text_anchor_spec(w: TextAnchorWire) -> Option<TextAnchor> {
    if w.bias == 0 {
        Some(TextAnchor { version: w.version, offset: w.offset, bias: Bias::Left })
    } else if w.bias == 1 {
        Some(TextAnchor { version: w.version, offset: w.offset, bias: Bias::Right })
    } else {
        None
    }
}

pub open spec fn serialize_excerpt_spec(e: Excerpt) -> ExcerptWire {
    ExcerptWire {
        id: e.id.0,
        buffer_id: e.buffer_id.0,
        context_start: Some(serialize_text_anchor_spec(e.range.context.start)),
        context_end: Some(serialize_text_anchor_spec(e.range.context.end)),
        primary_start: match e.range.primary {
            Some(p) => Some(serialize_text_anchor_spec(p.start)),
            None => None,
        },
        primary_end: match e.range.primary {
            Some(p) => Some(serialize_text_anchor_spec(p.end)),
            None => None,
        },
    }
}

/// The range of an excerpt on the wire: `None` when a context endpoint is missing or
/// malformed; the primary range is kept only when both its endpoints are present and
/// well formed.
pub open spec fn deserialize_excerpt_range_spec(w: ExcerptWire) -> Option<ExcerptRange> {
    match (w.context_start, w.context_end) {
        (Some(cs), Some(ce)) => match (
            deserialize_text_anchor_spec(cs),
            deserialize_text_anchor_spec(ce),
        ) {
            (Some(s), Some(e)) => Some(
                ExcerptRange {
                    context: TextRange { start: s, end: e },
                    primary: match (w.primary_start, w.primary_end) {
                        (Some(ps), Some(pe)) => match (
                            deserialize_text_anchor_spec(ps),
                            deserialize_text_anchor_spec(pe),
                        ) {
                            (Some(a), Some(b)) => Some(TextRange { start: a, end: b }),
                            _ => None,
                        },
                        _ => None,
                    },
                },
            ),
            _ => None,
        },
        _ => None,
    }
}

pub open spec fn serialize_anchor_spec(a: Anchor) -> AnchorWire {
    AnchorWire { excerpt_id: a.excerpt_id.0, anchor: Some(serialize_text_anchor_spec(a.text_anchor)) }
}

pub open spec fn serialize_selection_spec(s: Selection) -> SelectionWire {
    SelectionWire {
        id: s.id,
        start: Some(serialize_anchor_spec(s.start)),
        end: Some(serialize_anchor_spec(s.end)),
        reversed: s.reversed,
    }
}

/// An anchor on the wire, resolved against `m`: its buffer is the one `m` shows for
/// its excerpt.
pub open spec fn deserialize_anchor_spec(m: MultiBufferModel, w: AnchorWire) -> Option<Anchor> {
    match w.anchor {
        Some(t) => match deserialize_text_anchor_spec(t) {
            Some(ta) => Some(
                Anchor {
                    excerpt_id: ExcerptId(w.excerpt_id),
                    text_anchor: ta,
                    buffer_id: m.buffer_id_for_excerpt(ExcerptId(w.excerpt_id)),
                },
            ),
            None => None,
        },
        None => None,
    }
}

pub open spec fn deserialize_selection_spec(m: MultiBufferModel, w: SelectionWire) -> Option<
    Selection,
> {
    match (w.start, w.end) {
        (Some(s), Some(e)) => match (deserialize_anchor_spec(m, s), deserialize_anchor_spec(m, e)) {
            (Some(a), Some(b)) => Some(Selection { id: w.id, start: a, end: b, reversed: w.reversed }),
            _ => None,
        },
        _ => None,
    }
}

/// Whether a snapshot of this multi-buffer may leave this peer: not when any excerpt
/// it shows comes from a private buffer.
pub open spec fn shareable(m: MultiBufferModel) -> bool {
    !m.shows_private()
}

pub fn serialize_text_anchor(a: &TextAnchor) -> (r: TextAnchorWire)
    ensures
        r == serialize_text_anchor_spec(*a),
{
    TextAnchorWire {
        version: a.version,
        offset: a.offset,
        bias: match a.bias {
            Bias::Left => 0,
            Bias::Right => 1,
        },
    }
}

pub fn deserialize_text_anchor(w: &TextAnchorWire) -> (r: Option<TextAnchor>)
    ensures
        r == deserialize_text_anchor_spec(*w),
{
    if w.bias == 0 {
        Some(TextAnchor { version: w.version, offset: w.offset, bias: Bias::Left })
    } else if w.bias == 1 {
        Some(TextAnchor { version: w.version, offset: w.offset, bias: Bias::Right })
    } else {
        None
    }
}

/// Serializes an excerpt of the given buffer.
pub fn serialize_excerpt(buffer_id: BufferId, id: &ExcerptId, range: &ExcerptRange) -> (r: ExcerptWire)
    ensures
        r == serialize_excerpt_spec(Excerpt { id: *id, buffer_id, range: *range }),
{
    ExcerptWire {
        id: id.to_proto(),
        buffer_id: buffer_id.0,
        context_start: Some(serialize_text_anchor(&range.context.start)),
        context_end: Some(serialize_text_anchor(&range.context.end)),
        primary_start: match &range.primary {
            Some(p) => Some(serialize_text_anchor(&p.start)),
            None => None,
        },
        primary_end: match &range.primary {
            Some(p) => Some(serialize_text_anchor(&p.end)),
            None => None,
        },
    }
}

pub fn serialize_anchor(anchor: &Anchor) -> (r: AnchorWire)
    ensures
        r == serialize_anchor_spec(*anchor),
{
    AnchorWire {
        excerpt_id: anchor.excerpt_id.to_proto(),
        anchor: Some(serialize_text_anchor(&anchor.text_anchor)),
    }
}

pub fn serialize_selection(selection: &Selection) -> (r: SelectionWire)
    ensures
        r == serialize_selection_spec(*selection),
{
    SelectionWire {
        id: selection.id,
        start: Some(serialize_anchor(&selection.start)),
        end: Some(serialize_anchor(&selection.end)),
        reversed: selection.reversed,
    }
}

pub fn deserialize_excerpt_range(excerpt: &ExcerptWire) -> (r: Option<ExcerptRange>)
    ensures
        r == deserialize_excerpt_range_spec(*excerpt),
{
    let cs = match excerpt.context_start {
        Some(a) => a,
        None => return None,
    };
    let ce = match excerpt.context_end {
        Some(a) => a,
        None => return None,
    };
    let start = match deserialize_text_anchor(&cs) {
        Some(a) => a,
        None => return None,
    };
    let end = match deserialize_text_anchor(&ce) {
        Some(a) => a,
        None => return None,
    };
    let primary = match (excerpt.primary_start, excerpt.primary_end) {
        (Some(ps), Some(pe)) => match (deserialize_text_anchor(&ps), deserialize_text_anchor(&pe)) {
            (Some(a), Some(b)) => Some(TextRange { start: a, end: b }),
            _ => None,
        },
        _ => None,
    };
    Some(ExcerptRange { context: TextRange { start, end }, primary })
}

pub fn deserialize_anchor(buffer: &MultiBuffer, anchor: &AnchorWire) -> (r: Option<Anchor>)
    requires
        buffer@.wf(),
    ensures
        r == deserialize_anchor_spec(buffer@, *anchor),
{
    let excerpt_id = ExcerptId::from_proto(anchor.excerpt_id);
    let text = match anchor.anchor {
        Some(t) => t,
        None => return None,
    };
    let text_anchor = match deserialize_text_anchor(&text) {
        Some(t) => t,
        None => return None,
    };
    Some(Anchor { excerpt_id, text_anchor, buffer_id: buffer.buffer_id_for_excerpt(excerpt_id) })
}

pub fn deserialize_selection(buffer: &MultiBuffer, selection: &SelectionWire) -> (r: Option<
    Selection,
>)
    requires
        buffer@.wf(),
    ensures
        r == deserialize_selection_spec(buffer@, *selection),
{
    let s = match selection.start {
        Some(s) => s,
        None => return None,
    };
    let e = match selection.end {
        Some(e) => e,
        None => return None,
    };
    let start = match deserialize_anchor(buffer, &s) {
        Some(a) => a,
        None => return None,
    };
    let end = match deserialize_anchor(buffer, &e) {
        Some(a) => a,
        None => return None,
    };
    Some(Selection { id: selection.id, start, end, reversed: selection.reversed })
}

/// Serializes every selection, in order.
pub fn serialize_selections(selections: &Vec<Selection>) -> (r: Vec<SelectionWire>)
    ensures
        r@ == selections@.map_values(|s: Selection| serialize_selection_spec(s)),
{
    let mut r: Vec<SelectionWire> = Vec::new();
    let mut i: usize = 0;
    while i < selections.len()
        invariant
            i <= selections@.len(),
            r@ == selections@.take(i as int).map_values(|s: Selection| serialize_selection_spec(s)),
        decreases selections@.len() - i,
    {
        r.push(serialize_selection(&selections[i]));
        i += 1;
        assert(r@ =~= selections@.take(i as int).map_values(|s: Selection| serialize_selection_spec(s)));
    }
    assert(selections@.take(i as int) =~= selections@);
    r
}

/// Serializes the excerpts shown, in order.
pub fn serialize_excerpts(excerpts: &Vec<Excerpt>) -> (r: Vec<ExcerptWire>)
    ensures
        r@ == excerpts@.map_values(|e: Excerpt| serialize_excerpt_spec(e)),
{
    let mut r: Vec<ExcerptWire> = Vec::new();
    let mut i: usize = 0;
    while i < excerpts.len()
        invariant
            i <= excerpts@.len(),
            r@ == excerpts@.take(i as int).map_values(|e: Excerpt| serialize_excerpt_spec(e)),
        decreases excerpts@.len() - i,
    {
        let e = excerpts[i];
        r.push(serialize_excerpt(e.buffer_id, &e.id, &e.range));
        i += 1;
        assert(r@ =~= excerpts@.take(i as int).map_values(|e: Excerpt| serialize_excerpt_spec(e)));
    }
    assert(excerpts@.take(i as int) =~= excerpts@);
    r
}

/// Whether following reacts to an editor event by stopping: any edit, and any change
/// of selections or scroll position made on this peer, stops following; changes that
/// came from the leader do not.
pub open spec fn unfollows(event: EditorEvent) -> bool {
    match event {
        EditorEvent::Edited => true,
        EditorEvent::SelectionsChanged { local } => local,
        EditorEvent::ScrollPositionChanged { local, .. } => local,
        _ => false,
    }
}


/// The insertions a pending update already holds: none when there is no update yet.
pub open spec fn base_insertions(old: Option<ViewUpdate>) -> Seq<ExcerptInsertion> {
    match old {
        Some(o) => o.inserted_excerpts@,
        None => Seq::empty(),
    }
}

/// The deletions a pending update already holds: none when there is no update yet.
pub open spec fn base_deletions(old: Option<ViewUpdate>) -> Seq<u64> {
    match old {
        Some(o) => o.deleted_excerpts@,
        None => Seq::empty(),
    }
}

/// `u` holds the insertions that the pending update held.
pub open spec fn keeps_insertions(u: ViewUpdate, old: Option<ViewUpdate>) -> bool {
    u.inserted_excerpts@ == base_insertions(old)
}

/// `u` holds the deletions that the pending update held.
pub open spec fn keeps_deletions(u: ViewUpdate, old: Option<ViewUpdate>) -> bool {
    u.deleted_excerpts@ == base_deletions(old)
}

/// `u` holds the selections that the pending update held (none without one).
pub open spec fn keeps_selections(u: ViewUpdate, old: Option<ViewUpdate>) -> bool {
    match old {
        Some(o) => u.selections@ == o.selections@ && u.pending_selection == o.pending_selection,
        None => u.selections@.len() == 0 && u.pending_selection is None,
    }
}

/// `u` holds the scroll position that the pending update held (none without one).
pub open spec fn keeps_scroll(u: ViewUpdate, old: Option<ViewUpdate>) -> bool {
    match old {
        Some(o) => u.scroll_top_anchor == o.scroll_top_anchor && u.scroll_x == o.scroll_x
            && u.scroll_y == o.scroll_y,
        None => u.scroll_top_anchor is None && u.scroll_x == 0 && u.scroll_y == 0,
    }
}

/// The insertions that announce excerpts added after `predecessor`: the first names
/// its predecessor, the others follow it.
pub open spec fn insertions_for(
    buffer_id: BufferId,
    predecessor: ExcerptId,
    excerpts: Seq<(ExcerptId, ExcerptRange)>,
) -> Seq<ExcerptInsertion> {
    Seq::new(
        excerpts.len(),
        |i: int|
            ExcerptInsertion {
                previous_excerpt_id: if i == 0 {
                    Some(predecessor.0)
                } else {
                    None
                },
                excerpt: Some(
                    serialize_excerpt_spec(
                        Excerpt { id: excerpts[i].0, buffer_id, range: excerpts[i].1 },
                    ),
                ),
            },
    )
}


/// Whether a buffer with the given id is among `buffers`.
pub open spec fn has_buffer(buffers: Seq<Buffer>, id: u64) -> bool {
    exists|k: int| 0 <= k < buffers.len() && (#[trigger] buffers[k]).id.0 == id
}

/// The excerpt that a wire excerpt stands for, when its buffer is known and its range
/// deserializes.
pub open spec fn incoming_excerpt(w: ExcerptWire, buffers: Seq<Buffer>) -> Option<Excerpt> {
    if w.buffer_id != 0 && has_buffer(buffers, w.buffer_id) {
        match deserialize_excerpt_range_spec(w) {
            Some(range) => Some(Excerpt { id: ExcerptId(w.id), buffer_id: BufferId(w.buffer_id), range }),
            None => None,
        }
    } else {
        None
    }
}

/// The excerpts that a follower shows after appending the excerpts of a snapshot in
/// order: each one whose buffer is known and whose range deserializes, unless its id
/// is a sentinel or already taken.
pub open spec fn appended(w: Seq<ExcerptWire>, buffers: Seq<Buffer>) -> Seq<Excerpt>
    decreases w.len(),
{
    if w.len() == 0 {
        Seq::empty()
    } else {
        let v = appended(w.drop_last(), buffers);
        match incoming_excerpt(w.last(), buffers) {
            Some(e) => if admissible(v, e) {
                v.push(e)
            } else {
                v
            },
            None => v,
        }
    }
}

/// The excerpts a follower builds from a snapshot, given the buffers it opened: a
/// singleton snapshot over one opened buffer wraps that buffer whole.
pub open spec fn built_excerpts(singleton: bool, w: Seq<ExcerptWire>, buffers: Seq<Buffer>) -> Seq<
    Excerpt,
> {
    if singleton && buffers.len() == 1 {
        seq![whole_buffer_excerpt(buffers[0])]
    } else {
        appended(w, buffers)
    }
}

/// The id after which an excerpt is appended: the last shown one, or the start
/// sentinel when nothing is shown.
pub open spec fn last_shown_id(v: Seq<Excerpt>) -> ExcerptId {
    if v.len() == 0 {
        ExcerptId(0)
    } else {
        v.last().id
    }
}

/// The buffer ids a snapshot's excerpts refer to, each once.
pub open spec fn distinct_buffer_ids(w: Seq<ExcerptWire>, r: Seq<u64>) -> bool {
    &&& forall|i: int, j: int| 0 <= i < j < r.len() ==> r[i] != r[j]
    &&& forall|id: u64| r.contains(id) <==> exists|k: int| 0 <= k < w.len() && (#[trigger] w[k]).buffer_id == id
}

/// Appending one excerpt after the last shown one appends it when it is admissible.
proof fn lemma_append_one(v: Seq<Excerpt>, e: Excerpt)
    requires
        crate::multi_buffer::ids_unique(v),
    ensures
        insert_excerpts_spec(v, last_shown_id(v), e.buffer_id, seq![(e.id, e.range)]) == if admissible(
            v,
            e,
        ) {
            v.push(e)
        } else {
            v
        },
{
    let run = excerpts_of(e.buffer_id, seq![(e.id, e.range)]);
    assert(run =~= seq![e]);
    assert(run.drop_first() =~= Seq::<Excerpt>::empty());
    let last = last_shown_id(v);
    if v.len() > 0 {
        assert(v[v.len() - 1].id == last);
        lemma_position_of(v, last);
        assert(position_of(v, last) == v.len() - 1);
    } else {
        assert(position_of(v, last) == -1);
    }
    if admissible(v, e) {
        assert(insert_after(v, last, e) =~= v.push(e));
        assert(insert_run(v.push(e), e.id, run.drop_first()) == v.push(e));
    } else {
        assert(insert_run(v, last, run.drop_first()) == v);
    }
}

/// Finds a buffer by id.
pub fn buffer_for_id(buffers: &Vec<Buffer>, id: u64) -> (r: Option<Buffer>)
    ensures
        r is Some <==> has_buffer(buffers@, id),
        r matches Some(b) ==> b.id.0 == id,
{
    let mut i: usize = 0;
    while i < buffers.len()
        invariant
            i <= buffers@.len(),
            forall|k: int| 0 <= k < i ==> (#[trigger] buffers@[k]).id.0 != id,
        decreases buffers@.len() - i,
    {
        if buffers[i].id.0 == id {
            return Some(buffers[i]);
        }
        i += 1;
    }
    None
}

/// The buffer ids that a snapshot's excerpts refer to, each once: the buffers a
/// follower opens before it builds its view.
pub fn referenced_buffer_ids(snapshot: &ViewSnapshot) -> (r: Vec<u64>)
    ensures
        distinct_buffer_ids(snapshot.excerpts@, r@),
{
    let w = &snapshot.excerpts;
    let mut r: Vec<u64> = Vec::new();
    let mut i: usize = 0;
    while i < w.len()
        invariant
            i <= w@.len(),
            distinct_buffer_ids(w@.take(i as int), r@),
        decreases w@.len() - i,
    {
        let id = w[i].buffer_id;
        let mut found = false;
        let mut k: usize = 0;
        while k < r.len()
            invariant
                k <= r@.len(),
                found <==> exists|t: int| 0 <= t < k && r@[t] == id,
            decreases r@.len() - k,
        {
            if r[k] == id {
                found = true;
            }
            k += 1;
        }
        assert(found <==> r@.contains(id));
        let ghost before = r@;
        if !found {
            r.push(id);
        }
        i += 1;
        proof {
            let wi = w@.take(i as int);
            assert forall|x: u64| r@.contains(x) <==> exists|j: int|
                0 <= j < wi.len() && (#[trigger] wi[j]).buffer_id == x by {
                if r@.contains(x) {
                    if x == id {
                        assert(wi[i - 1].buffer_id == x);
                    } else {
                        let t = choose|t: int| 0 <= t < r@.len() && r@[t] == x;
                        if found || t < before.len() {
                            assert(before[t] == x);
                            assert(before.contains(x));
                            let j = choose|j: int|
                                0 <= j < w@.take(i - 1).len() && (#[trigger] w@.take(i - 1)[j]).buffer_id == x;
                            assert(wi[j] == w@.take(i - 1)[j]);
                        }
                    }
                }
                if exists|j: int| 0 <= j < wi.len() && (#[trigger] wi[j]).buffer_id == x {
                    let j = choose|j: int| 0 <= j < wi.len() && (#[trigger] wi[j]).buffer_id == x;
                    if j == i - 1 {
                        if found {
                            assert(before.contains(x));
                        } else {
                            assert(r@[r@.len() - 1] == x);
                        }
                    } else {
                        assert(w@.take(i - 1)[j] == wi[j]);
                        assert(before.contains(x));
                        let t = choose|t: int| 0 <= t < before.len() && before[t] == x;
                        assert(r@[t] == x);
                    }
                }
            }
        }
    }
    assert(w@.take(i as int) =~= w@);
    r
}

/// Builds a follower's multi-buffer from a leader's snapshot and the buffers opened
/// for it. Excerpts keep the leader's ids; an excerpt whose buffer is missing or whose
/// range does not deserialize is skipped.
pub fn build_multi_buffer(snapshot: &ViewSnapshot, buffers: &Vec<Buffer>) -> (r: MultiBuffer)
    ensures
        r@.wf(),
        r@.excerpts() == built_excerpts(snapshot.singleton, snapshot.excerpts@, buffers@),
        r@.singleton == if snapshot.singleton && buffers@.len() == 1 {
            Some(buffers@[0])
        } else {
            None
        },
        r@.title == match snapshot.title {
            Some(t) => Some(t@),
            None => None,
        },
{
    let mut mb = if snapshot.singleton && buffers.len() == 1 {
        let m = MultiBuffer::singleton(buffers[0]);
        proof {
            let one = seq![Slot { excerpt: whole_buffer_excerpt(buffers@[0]), removed: false }];
            assert(one.drop_last() =~= Seq::<Slot>::empty());
            assert(live(one.drop_last()) =~= Seq::<Excerpt>::empty());
            assert(live(one) =~= seq![whole_buffer_excerpt(buffers@[0])]);
        }
        m
    } else {
        let mut m = MultiBuffer::new();
        let w = &snapshot.excerpts;
        let mut i: usize = 0;
        assert(live(m@.slots) =~= Seq::<Excerpt>::empty());
        assert(w@.take(0) =~= Seq::<ExcerptWire>::empty());
        while i < w.len()
            invariant
                i <= w@.len(),
                m@.wf(),
                m@.singleton is None,
                m@.title is None,
                m@.excerpts() == appended(w@.take(i as int), buffers@),
            decreases w@.len() - i,
        {
            let x = w[i];
            let ghost v = m@.excerpts();
            assert(w@.take(i + 1).drop_last() =~= w@.take(i as int));
            assert(w@.take(i + 1).last() == x);
            proof {
                lemma_live_unique(m@.slots);
            }
            if x.buffer_id != 0 {
                if let Some(b) = buffer_for_id(buffers, x.buffer_id) {
                    if let Some(range) = deserialize_excerpt_range(&x) {
                        let last = m.last_excerpt_id();
                        let mut run: Vec<(ExcerptId, ExcerptRange)> = Vec::new();
                        run.push((ExcerptId::from_proto(x.id), range));
                        let ghost e = Excerpt { id: ExcerptId(x.id), buffer_id: BufferId(x.buffer_id), range };
                        proof {
                            lemma_append_one(v, e);
                            assert(run@ =~= seq![(e.id, e.range)]);
                        }
                        m.insert_excerpts_with_ids_after(last, b, &run);
                    }
                }
            }
            i += 1;
        }
        assert(w@.take(i as int) =~= w@);
        m
    };
    match &snapshot.title {
        Some(t) => {
            mb = mb.with_title(t.clone());
        },
        None => {},
    }
    mb
}


/// Whether insertion `x` continues the run of excerpts of buffer `g`.
pub open spec fn continues_run(g: Option<u64>, x: ExcerptInsertion) -> bool {
    &&& g is Some
    &&& x.previous_excerpt_id is None
    &&& x.excerpt matches Some(e) && e.buffer_id == g->0
}

/// Whether insertion `x` starts a run: it names its predecessor, and its buffer is
/// known to the follower.
pub open spec fn starts_run(x: ExcerptInsertion, buffers: Seq<Buffer>) -> bool {
    &&& x.previous_excerpt_id is Some
    &&& x.excerpt matches Some(e) && e.buffer_id != 0 && has_buffer(buffers, e.buffer_id)
}

/// The id and range an incoming excerpt contributes to its run: nothing when its
/// range does not deserialize.
pub open spec fn entry_of(e: ExcerptWire) -> Seq<(ExcerptId, ExcerptRange)> {
    match deserialize_excerpt_range_spec(e) {
        Some(r) => seq![(ExcerptId(e.id), r)],
        None => Seq::empty(),
    }
}

/// The buffer of the run that a sequence of insertions ends in, if it ends in one.
pub open spec fn open_run(ins: Seq<ExcerptInsertion>, buffers: Seq<Buffer>) -> Option<u64>
    decreases ins.len(),
{
    if ins.len() == 0 {
        None
    } else {
        let g = open_run(ins.drop_last(), buffers);
        let x = ins.last();
        if continues_run(g, x) {
            g
        } else if starts_run(x, buffers) {
            Some(x.excerpt->0.buffer_id)
        } else {
            None
        }
    }
}

/// The excerpt changes that a sequence of insertions stands for: each run becomes one
/// insertion after the run's predecessor. An insertion that neither starts nor
/// continues a run (no predecessor, no excerpt, unknown buffer) is dropped.
pub open spec fn insertion_ops(ins: Seq<ExcerptInsertion>, buffers: Seq<Buffer>) -> Seq<ExcerptOp>
    decreases ins.len(),
{
    if ins.len() == 0 {
        Seq::empty()
    } else {
        let ops = insertion_ops(ins.drop_last(), buffers);
        let g = open_run(ins.drop_last(), buffers);
        let x = ins.last();
        if continues_run(g, x) {
            match ops.last() {
                ExcerptOp::Insert { prev, buffer_id, run } => ops.update(
                    ops.len() - 1,
                    ExcerptOp::Insert { prev, buffer_id, run: run + entry_of(x.excerpt->0) },
                ),
                _ => ops,
            }
        } else if starts_run(x, buffers) {
            ops.push(
                ExcerptOp::Insert {
                    prev: ExcerptId(x.previous_excerpt_id->0),
                    buffer_id: BufferId(x.excerpt->0.buffer_id),
                    run: entry_of(x.excerpt->0),
                },
            )
        } else {
            ops
        }
    }
}

/// The excerpt changes that an update stands for: its insertions, then the removal of
/// the deleted excerpts.
pub open spec fn update_ops(u: ViewUpdate, buffers: Seq<Buffer>) -> Seq<ExcerptOp> {
    insertion_ops(u.inserted_excerpts@, buffers).push(
        ExcerptOp::Remove { ids: u.deleted_excerpts@.map_values(|id: u64| ExcerptId(id)) },
    )
}

pub proof fn lemma_replay_push(s: ObservedState, ops: Seq<ExcerptOp>, op: ExcerptOp)
    ensures
        replay(s, ops.push(op)) == apply_op(replay(s, ops), op),
    decreases ops.len(),
{
    if ops.len() == 0 {
        assert(ops.push(op).drop_first() =~= Seq::<ExcerptOp>::empty());
        assert(replay(apply_op(s, op), Seq::<ExcerptOp>::empty()) == apply_op(s, op));
    } else {
        assert(ops.push(op).drop_first() =~= ops.drop_first().push(op));
        lemma_replay_push(apply_op(s, ops[0]), ops.drop_first(), op);
    }
}

/// Whether an insertion carries an excerpt of buffer `id`.
pub open spec fn refers_to(x: ExcerptInsertion, id: u64) -> bool {
    x.excerpt matches Some(e) && e.buffer_id == id
}

/// The buffer ids that an update's inserted excerpts refer to, each once: the buffers
/// a follower opens before it applies the update.
pub fn inserted_buffer_ids(update: &ViewUpdate) -> (r: Vec<u64>)
    ensures
        forall|i: int, j: int| 0 <= i < j < r@.len() ==> r@[i] != r@[j],
        forall|id: u64|
            r@.contains(id) <==> exists|k: int|
                0 <= k < update.inserted_excerpts@.len() && #[trigger] refers_to(update.inserted_excerpts@[k], id),
{
    let ins = &update.inserted_excerpts;
    let mut r: Vec<u64> = Vec::new();
    let mut i: usize = 0;
    while i < ins.len()
        invariant
            i <= ins@.len(),
            forall|a: int, b: int| 0 <= a < b < r@.len() ==> r@[a] != r@[b],
            forall|id: u64|
                r@.contains(id) <==> exists|k: int|
                    0 <= k < i && #[trigger] refers_to(ins@[k], id),
        decreases ins@.len() - i,
    {
        if let Some(e) = ins[i].excerpt {
            let id = e.buffer_id;
            let mut found = false;
            let mut k: usize = 0;
            while k < r.len()
                invariant
                    k <= r@.len(),
                    found <==> exists|t: int| 0 <= t < k && r@[t] == id,
                decreases r@.len() - k,
            {
                if r[k] == id {
                    found = true;
                }
                k += 1;
            }
            let ghost before = r@;
            if !found {
                r.push(id);
            }
            proof {
                assert forall|x: u64| r@.contains(x) <==> exists|k: int|
                    0 <= k < i + 1 && #[trigger] refers_to(ins@[k], x) by {
                    if r@.contains(x) && x != id {
                        let t = choose|t: int| 0 <= t < r@.len() && r@[t] == x;
                        assert(before[t] == x);
                        assert(before.contains(x));
                    }
                    if x == id {
                        assert(refers_to(ins@[i as int], x));
                        if found {
                            let t = choose|t: int| 0 <= t < before.len() && before[t] == id;
                            assert(r@[t] == x);
                        } else {
                            assert(r@[r@.len() - 1] == x);
                        }
                    } else if exists|k: int|
                        0 <= k < i + 1 && #[trigger] refers_to(ins@[k], x) {
                        let k = choose|k: int| 0 <= k < i + 1 && #[trigger] refers_to(ins@[k], x);
                        assert(k < i);
                        assert(before.contains(x));
                        let t = choose|t: int| 0 <= t < before.len() && before[t] == x;
                        assert(r@[t] == x);
                    }
                }
            }
        } else {
            assert forall|x: u64| r@.contains(x) <==> exists|k: int|
                0 <= k < i + 1 && #[trigger] refers_to(ins@[k], x) by {
                if exists|k: int|
                    0 <= k < i + 1 && #[trigger] refers_to(ins@[k], x) {
                    let k = choose|k: int|
                        0 <= k < i + 1 && #[trigger] refers_to(ins@[k], x);
                    assert(k != i);
                }
            }
        }
        i += 1;
    }
    r
}

/// A run of incoming excerpts waiting to be inserted.
struct PendingRun {
    prev: ExcerptId,
    buffer: Buffer,
    run: Vec<(ExcerptId, ExcerptRange)>,
}

/// Applies the excerpt changes of an update to a follower's multi-buffer, given the
/// buffers the follower knows: first the insertions, each run after its stated
/// predecessor (a run whose predecessor is gone is dropped), then the removals.
pub fn apply_excerpt_changes(buffer: &mut MultiBuffer, update: &ViewUpdate, buffers: &Vec<Buffer>)
    requires
        old(buffer)@.wf(),
    ensures
        final(buffer)@.wf(),
        final(buffer)@.observed() == replay(old(buffer)@.observed(), update_ops(*update, buffers@)),
{
    let mut removed: Vec<ExcerptId> = Vec::new();
    let mut k: usize = 0;
    while k < update.deleted_excerpts.len()
        invariant
            k <= update.deleted_excerpts@.len(),
            removed@ == update.deleted_excerpts@.take(k as int).map_values(|id: u64| ExcerptId(id)),
        decreases update.deleted_excerpts@.len() - k,
    {
        removed.push(ExcerptId::from_proto(update.deleted_excerpts[k]));
        k += 1;
        assert(removed@ =~= update.deleted_excerpts@.take(k as int).map_values(|id: u64| ExcerptId(id)));
    }
    assert(update.deleted_excerpts@.take(k as int) =~= update.deleted_excerpts@);
    // Removals go in the current display order, whatever order the message lists them in.
    let sorted = buffer.sort_by_display_order(&removed);
    let ins = &update.inserted_excerpts;
    let ghost s0 = buffer@.observed();
    let ghost mut flushed: Seq<ExcerptOp> = Seq::empty();
    let mut pending: Option<PendingRun> = None;
    let mut i: usize = 0;
    assert(ins@.take(0) =~= Seq::<ExcerptInsertion>::empty());
    while i < ins.len()
        invariant
            i <= ins@.len(),
            buffer@.wf(),
            buffer@.observed() == replay(s0, flushed),
            match pending {
                Some(p) => {
                    &&& open_run(ins@.take(i as int), buffers@) == Some(p.buffer.id.0)
                    &&& insertion_ops(ins@.take(i as int), buffers@) == flushed.push(
                        ExcerptOp::Insert { prev: p.prev, buffer_id: p.buffer.id, run: p.run@ },
                    )
                },
                None => {
                    &&& open_run(ins@.take(i as int), buffers@) is None
                    &&& insertion_ops(ins@.take(i as int), buffers@) == flushed
                },
            },
        decreases ins@.len() - i,
    {
        let x = ins[i];
        let ghost pre = ins@.take(i as int);
        assert(ins@.take(i + 1).drop_last() =~= pre);
        assert(ins@.take(i + 1).last() == x);
        let continues = match (&pending, x.previous_excerpt_id, x.excerpt) {
            (Some(p), None, Some(e)) => e.buffer_id == p.buffer.id.0,
            _ => false,
        };
        if continues {
            let e = x.excerpt.unwrap();
            let mut p = pending.take().unwrap();
            let ghost old_run = p.run@;
            if let Some(range) = deserialize_excerpt_range(&e) {
                p.run.push((ExcerptId::from_proto(e.id), range));
            }
            assert(p.run@ =~= old_run + entry_of(e));
            pending = Some(p);
        } else {
            if let Some(p) = pending.take() {
                let ghost op = ExcerptOp::Insert { prev: p.prev, buffer_id: p.buffer.id, run: p.run@ };
                proof {
                    lemma_replay_push(s0, flushed, op);
                }
                buffer.insert_excerpts_with_ids_after(p.prev, p.buffer, &p.run);
                proof {
                    flushed = flushed.push(op);
                }
            }
            pending = match (x.previous_excerpt_id, x.excerpt) {
                (Some(prev), Some(e)) => {
                    match if e.buffer_id != 0 { buffer_for_id(buffers, e.buffer_id) } else { None } {
                        Some(b) => {
                            let mut run: Vec<(ExcerptId, ExcerptRange)> = Vec::new();
                            if let Some(range) = deserialize_excerpt_range(&e) {
                                run.push((ExcerptId::from_proto(e.id), range));
                            }
                            assert(run@ =~= entry_of(e));
                            Some(PendingRun { prev: ExcerptId::from_proto(prev), buffer: b, run })
                        },
                        None => None,
                    }
                },
                _ => None,
            };
        }
        i += 1;
    }
    assert(ins@.take(i as int) =~= ins@);
    if let Some(p) = pending.take() {
        let ghost op = ExcerptOp::Insert { prev: p.prev, buffer_id: p.buffer.id, run: p.run@ };
        proof {
            lemma_replay_push(s0, flushed, op);
        }
        buffer.insert_excerpts_with_ids_after(p.prev, p.buffer, &p.run);
        proof {
            flushed = flushed.push(op);
        }
    }
    let ghost rop = ExcerptOp::Remove { ids: removed@ };
    proof {
        lemma_replay_push(s0, flushed, rop);
        removed@.to_multiset_ensures();
        sorted@.to_multiset_ensures();
        assert forall|id: ExcerptId| sorted@.contains(id) <==> removed@.contains(id) by {
            assert(sorted@.to_multiset().count(id) == removed@.to_multiset().count(id));
        }
        crate::multi_buffer::lemma_removal_order_independent(
            replay(s0, flushed),
            sorted@,
            removed@,
        );
    }
    buffer.remove_excerpts(&sorted);
}

/// The selections and scroll position that a message carries, resolved against the
/// follower's multi-buffer after its excerpts were updated.
pub struct RemoteViewState {
    pub selections: Vec<Selection>,
    pub pending_selection: Option<Selection>,
    pub scroll_top_anchor: Option<Anchor>,
}

/// The selections that deserialize, in order; the others are dropped.
pub open spec fn deserialized_selections(m: MultiBufferModel, w: Seq<SelectionWire>) -> Seq<Selection>
    decreases w.len(),
{
    if w.len() == 0 {
        Seq::empty()
    } else {
        let r = deserialized_selections(m, w.drop_last());
        match deserialize_selection_spec(m, w.last()) {
            Some(s) => r.push(s),
            None => r,
        }
    }
}

/// Resolves the selections and scroll anchor of a message against `buffer`.
pub fn deserialize_view_state(
    buffer: &MultiBuffer,
    selections: &Vec<SelectionWire>,
    pending_selection: &Option<SelectionWire>,
    scroll_top_anchor: &Option<AnchorWire>,
) -> (r: RemoteViewState)
    requires
        buffer@.wf(),
    ensures
        r.selections@ == deserialized_selections(buffer@, selections@),
        r.pending_selection == match *pending_selection {
            Some(w) => deserialize_selection_spec(buffer@, w),
            None => None,
        },
        r.scroll_top_anchor == match *scroll_top_anchor {
            Some(w) => deserialize_anchor_spec(buffer@, w),
            None => None,
        },
{
    let mut out: Vec<Selection> = Vec::new();
    let mut i: usize = 0;
    while i < selections.len()
        invariant
            buffer@.wf(),
            i <= selections@.len(),
            out@ == deserialized_selections(buffer@, selections@.take(i as int)),
        decreases selections@.len() - i,
    {
        assert(selections@.take(i + 1).drop_last() =~= selections@.take(i as int));
        assert(selections@.take(i + 1).last() == selections@[i as int]);
        if let Some(s) = deserialize_selection(buffer, &selections[i]) {
            out.push(s);
        }
        i += 1;
    }
    assert(selections@.take(i as int) =~= selections@);
    let pending = match pending_selection {
        Some(w) => deserialize_selection(buffer, w),
        None => None,
    };
    let scroll = match scroll_top_anchor {
        Some(w) => deserialize_anchor(buffer, w),
        None => None,
    };
    RemoteViewState { selections: out, pending_selection: pending, scroll_top_anchor: scroll }
}

/// The anchors a state refers to: both ends of each selection, then of the pending
/// selection, then the scroll anchor.
pub open spec fn referenced_anchors(st: RemoteViewState) -> Seq<Anchor> {
    let sels = match st.pending_selection {
        Some(p) => st.selections@.push(p),
        None => st.selections@,
    };
    let ends = Seq::new(2 * sels.len(), |i: int| if i % 2 == 0 { sels[i / 2].start } else { sels[i / 2].end });
    match st.scroll_top_anchor {
        Some(a) => ends.push(a),
        None => ends,
    }
}

/// The anchors that the follower's buffers must be able to resolve before the state
/// is applied.
pub fn anchors_to_wait_for(state: &RemoteViewState) -> (r: Vec<Anchor>)
    ensures
        r@ == referenced_anchors(*state),
{
    let ghost sels = match state.pending_selection {
        Some(p) => state.selections@.push(p),
        None => state.selections@,
    };
    let mut r: Vec<Anchor> = Vec::new();
    let mut i: usize = 0;
    while i < state.selections.len()
        invariant
            i <= state.selections@.len(),
            sels.len() >= state.selections@.len(),
            forall|k: int| 0 <= k < state.selections@.len() ==> sels[k] == state.selections@[k],
            r@ == Seq::new(2 * i as nat, |j: int| if j % 2 == 0 { sels[j / 2].start } else { sels[j / 2].end }),
        decreases state.selections@.len() - i,
    {
        r.push(state.selections[i].start);
        r.push(state.selections[i].end);
        i += 1;
        assert(r@ =~= Seq::new(2 * i as nat, |j: int| if j % 2 == 0 { sels[j / 2].start } else { sels[j / 2].end }));
    }
    if let Some(p) = state.pending_selection {
        r.push(p.start);
        r.push(p.end);
        assert(r@ =~= Seq::new(2 * sels.len(), |j: int| if j % 2 == 0 { sels[j / 2].start } else { sels[j / 2].end }));
    }
    if let Some(a) = state.scroll_top_anchor {
        r.push(a);
    }
    r
}


/// What a follower built from a leader's snapshot shows, given the buffers it opened.
pub open spec fn follower_state(m: MultiBufferModel, buffers: Seq<Buffer>) -> ObservedState {
    ObservedState {
        excerpts: built_excerpts(
            m.singleton is Some,
            m.excerpts().map_values(|e: Excerpt| serialize_excerpt_spec(e)),
            buffers,
        ),
        singleton: if m.singleton is Some && buffers.len() == 1 {
            Some(buffers[0])
        } else {
            None
        },
        title: if m.singleton is Some {
            display_title(None)
        } else {
            display_title(m.title)
        },
    }
}

/// The replay law: a follower built from a leader's snapshot, with every referenced
/// buffer opened, shows what the leader shows, and keeps doing so when both apply the
/// same excerpt insertions and removals, in the same order. (A singleton leader sends
/// no title, so the law asks that it have none.)
pub proof fn lemma_follower_tracks_leader(m: MultiBufferModel, buffers: Seq<Buffer>, ops: Seq<ExcerptOp>)
    requires
        m.wf(),
        forall|k: int|
            0 <= k < m.excerpts().len() ==> (#[trigger] m.excerpts()[k]).buffer_id.0 != 0
                && has_buffer(buffers, m.excerpts()[k].buffer_id.0),
        m.singleton matches Some(b) ==> buffers == seq![b] && m.title is None,
    ensures
        follower_state(m, buffers) == m.observed(),
        replay(follower_state(m, buffers), ops) == replay(m.observed(), ops),
{
    lemma_snapshot_round_trip(m, buffers);
}


/// An excerpt survives serialization: its range deserializes back.
proof fn lemma_excerpt_round_trip(e: Excerpt)
    ensures
        deserialize_excerpt_range_spec(serialize_excerpt_spec(e)) == Some(e.range),
{
}

/// The insertions that announce a run of excerpts stand for one insertion of that run
/// after its predecessor, when the follower knows the buffer.
proof fn lemma_insertions_replay(
    bid: BufferId,
    pred: ExcerptId,
    ex: Seq<(ExcerptId, ExcerptRange)>,
    buffers: Seq<Buffer>,
    k: int,
)
    requires
        bid.0 != 0,
        has_buffer(buffers, bid.0),
        1 <= k <= ex.len(),
    ensures
        open_run(insertions_for(bid, pred, ex).take(k), buffers) == Some(bid.0),
        insertion_ops(insertions_for(bid, pred, ex).take(k), buffers) == seq![
            ExcerptOp::Insert { prev: pred, buffer_id: bid, run: ex.take(k) },
        ],
    decreases k,
{
    let ins = insertions_for(bid, pred, ex);
    let t = ins.take(k);
    assert(t.drop_last() =~= ins.take(k - 1));
    let x = t.last();
    assert(x == ins[k - 1]);
    let e = Excerpt { id: ex[k - 1].0, buffer_id: bid, range: ex[k - 1].1 };
    lemma_excerpt_round_trip(e);
    assert(entry_of(x.excerpt->0) =~= seq![(ex[k - 1].0, ex[k - 1].1)]);
    if k == 1 {
        assert(ins.take(0) =~= Seq::<ExcerptInsertion>::empty());
        assert(ex.take(1) =~= seq![(ex[0].0, ex[0].1)]);
        assert(open_run(t.drop_last(), buffers) is None);
        assert(insertion_ops(t.drop_last(), buffers) =~= Seq::<ExcerptOp>::empty());
        assert(x.previous_excerpt_id == Some(pred.0));
        assert(ExcerptId(pred.0) == pred);
        assert(BufferId(bid.0) == bid);
        assert(starts_run(x, buffers));
        assert(insertion_ops(t, buffers) =~= seq![
            ExcerptOp::Insert { prev: pred, buffer_id: bid, run: ex.take(1) },
        ]);
    } else {
        lemma_insertions_replay(bid, pred, ex, buffers, k - 1);
        assert(ex.take(k - 1) + seq![(ex[k - 1].0, ex[k - 1].1)] =~= ex.take(k));
        assert(insertion_ops(t, buffers) =~= seq![
            ExcerptOp::Insert { prev: pred, buffer_id: bid, run: ex.take(k) },
        ]);
    }
}

/// The incremental law: take a follower built from a leader's snapshot, with every
/// referenced buffer opened. The leader inserts a run of excerpts of a buffer the
/// follower knows, then removes some excerpts, and records both events into one
/// update (as `add_event_to_update_proto` does). The follower, applying that update,
/// shows what the leader shows after the two changes.
pub proof fn lemma_update_replays_leader_changes(
    m: MultiBufferModel,
    buffers: Seq<Buffer>,
    bid: BufferId,
    pred: ExcerptId,
    ex: Seq<(ExcerptId, ExcerptRange)>,
    ids: Seq<ExcerptId>,
    u: ViewUpdate,
)
    requires
        m.wf(),
        forall|k: int|
            0 <= k < m.excerpts().len() ==> (#[trigger] m.excerpts()[k]).buffer_id.0 != 0
                && has_buffer(buffers, m.excerpts()[k].buffer_id.0),
        m.singleton matches Some(b) ==> buffers == seq![b] && m.title is None,
        bid.0 != 0,
        has_buffer(buffers, bid.0),
        ex.len() > 0,
        u.inserted_excerpts@ == insertions_for(bid, pred, ex),
        u.deleted_excerpts@ == ids.map_values(|id: ExcerptId| id.0),
    ensures
        replay(follower_state(m, buffers), update_ops(u, buffers)) == replay(
            m.observed(),
            seq![
                ExcerptOp::Insert { prev: pred, buffer_id: bid, run: ex },
                ExcerptOp::Remove { ids },
            ],
        ),
{
    lemma_follower_tracks_leader(m, buffers, Seq::empty());
    lemma_insertions_replay(bid, pred, ex, buffers, ex.len() as int);
    let ins = insertions_for(bid, pred, ex);
    assert(ins.take(ex.len() as int) =~= ins);
    assert(ex.take(ex.len() as int) =~= ex);
    assert(u.deleted_excerpts@.map_values(|id: u64| ExcerptId(id)) =~= ids);
    assert(update_ops(u, buffers) =~= seq![
        ExcerptOp::Insert { prev: pred, buffer_id: bid, run: ex },
        ExcerptOp::Remove { ids },
    ]);
}

/// Tells the updates of one followed view apart, so that an update that finished
/// after a newer one started is dropped rather than applied over it.
pub struct UpdateGeneration {
    latest: u64,
}

impl UpdateGeneration {
    pub fn new() -> (r: UpdateGeneration)
        ensures
            r.latest_spec() == 0,
    {
        UpdateGeneration { latest: 0 }
    }

    pub closed spec fn latest_spec(&self) -> nat {
        self.latest as nat
    }

    /// Starts an update and returns its token; every earlier token goes stale.
    pub fn begin(&mut self) -> (token: u64)
        ensures
            old(self).latest_spec() < u64::MAX ==> final(self).latest_spec() == old(self).latest_spec() + 1,
            old(self).latest_spec() == u64::MAX ==> final(self).latest_spec() == 0,
            token == final(self).latest_spec(),
    {
        self.latest = if self.latest == u64::MAX {
            0
        } else {
            self.latest + 1
        };
        self.latest
    }

    /// Whether the update with this token is still the latest one.
    pub fn is_current(&self, token: u64) -> (r: bool)
        ensures
            r == (token == self.latest_spec()),
    {
        token == self.latest
    }
}

/// The snapshot law: serializing a leader's excerpts and building a follower from
/// them, with every referenced buffer opened, gives back the same excerpts, ids,
/// buffers and ranges, in the same order.
pub proof fn lemma_snapshot_round_trip(m: MultiBufferModel, buffers: Seq<Buffer>)
    requires
        m.wf(),
        forall|k: int|
            0 <= k < m.excerpts().len() ==> (#[trigger] m.excerpts()[k]).buffer_id.0 != 0
                && has_buffer(buffers, m.excerpts()[k].buffer_id.0),
        m.singleton matches Some(b) ==> buffers == seq![b],
    ensures
        built_excerpts(
            m.singleton is Some,
            m.excerpts().map_values(|e: Excerpt| serialize_excerpt_spec(e)),
            buffers,
        ) == m.excerpts(),
{
    if let Some(b) = m.singleton {
        let one = m.slots;
        assert(one.drop_last() =~= Seq::<Slot>::empty());
        assert(live(one.drop_last()) =~= Seq::<Excerpt>::empty());
        assert(live(one) =~= seq![whole_buffer_excerpt(b)]);
    } else {
        lemma_live_unique(m.slots);
        assert forall|k: int| 0 <= k < m.excerpts().len() implies is_real_excerpt_id(
            #[trigger] m.excerpts()[k].id,
        ) && m.excerpts()[k].range.wf() by {
            crate::multi_buffer::lemma_live_member(m.slots, k);
        }
        lemma_appended_serialized(m.excerpts(), buffers);
    }
}

proof fn lemma_appended_serialized(v: Seq<Excerpt>, buffers: Seq<Buffer>)
    requires
        crate::multi_buffer::ids_unique(v),
        forall|k: int|
            0 <= k < v.len() ==> is_real_excerpt_id(#[trigger] v[k].id) && v[k].range.wf()
                && v[k].buffer_id.0 != 0 && has_buffer(buffers, v[k].buffer_id.0),
    ensures
        appended(v.map_values(|e: Excerpt| serialize_excerpt_spec(e)), buffers) == v,
    decreases v.len(),
{
    let w = v.map_values(|e: Excerpt| serialize_excerpt_spec(e));
    if v.len() > 0 {
        let p = v.drop_last();
        assert(w.drop_last() =~= p.map_values(|e: Excerpt| serialize_excerpt_spec(e)));
        assert(crate::multi_buffer::ids_unique(p)) by {
            assert forall|i: int, j: int| 0 <= i < j < p.len() implies (#[trigger] p[i]).id
                != (#[trigger] p[j]).id by {
                assert(p[i] == v[i] && p[j] == v[j]);
            }
        }
        assert forall|k: int| 0 <= k < p.len() implies is_real_excerpt_id(#[trigger] p[k].id)
            && p[k].range.wf() && p[k].buffer_id.0 != 0 && has_buffer(buffers, p[k].buffer_id.0) by {
            assert(p[k] == v[k]);
        }
        lemma_appended_serialized(p, buffers);
        let e = v.last();
        assert(v[v.len() - 1] == e);
        lemma_excerpt_round_trip(e);
        assert(w.last() == serialize_excerpt_spec(e));
        assert(incoming_excerpt(w.last(), buffers) == Some(e));
        if contains_id(p, e.id) {
            let k = choose|k: int| 0 <= k < p.len() && (#[trigger] p[k]).id == e.id;
            assert(p[k] == v[k]);
        }
        assert(p.push(e) =~= v);
    } else {
        assert(v =~= Seq::<Excerpt>::empty());
    }
}


impl Editor {
    /// An editor over a multi-buffer, with one empty selection at its start.
    pub fn for_multibuffer(buffer: MultiBuffer, remote_id: Option<u64>) -> (r: Editor)
        ensures
            r.buffer@ == buffer@,
            r.remote_id == remote_id,
            r.leader_peer_id is None,
            r.pending_selection is None,
    {
        let start = Anchor {
            excerpt_id: ExcerptId::min(),
            buffer_id: None,
            text_anchor: TextAnchor { version: 0, offset: 0, bias: Bias::Left },
        };
        let mut selections: Vec<Selection> = Vec::new();
        selections.push(Selection { id: 0, start, end: start, reversed: false });
        Editor {
            buffer,
            selections,
            pending_selection: None,
            scroll_anchor: ScrollAnchor { anchor: start, offset_x: 0, offset_y: 0 },
            remote_id,
            leader_peer_id: None,
        }
    }


    /// Applies a leader's state: its selections when it sent any (or a pending one),
    /// else its scroll position when it sent one; never both.
    pub fn apply_remote_view_state(&mut self, state: RemoteViewState, scroll_x: u32, scroll_y: u32)
        ensures
            final(self).buffer@ == old(self).buffer@,
            ({
                let sel = state.selections@.len() > 0 || state.pending_selection is Some;
                &&& sel ==> final(self).selections@ == state.selections@
                    && final(self).pending_selection == state.pending_selection
                    && final(self).scroll_anchor == old(self).scroll_anchor
                &&& !sel ==> final(self).selections@ == old(self).selections@
                    && final(self).pending_selection == old(self).pending_selection
                &&& !sel && state.scroll_top_anchor is Some ==> final(self).scroll_anchor == (
                ScrollAnchor {
                    anchor: state.scroll_top_anchor->0,
                    offset_x: scroll_x,
                    offset_y: scroll_y,
                })
                &&& !sel && state.scroll_top_anchor is None ==> final(self).scroll_anchor
                    == old(self).scroll_anchor
            }),
    {
        if state.selections.len() > 0 || state.pending_selection.is_some() {
            self.selections = state.selections;
            self.pending_selection = state.pending_selection;
        } else if let Some(anchor) = state.scroll_top_anchor {
            self.scroll_anchor = ScrollAnchor { anchor, offset_x: scroll_x, offset_y: scroll_y };
        }
    }

    pub fn remote_id(&self) -> (r: Option<u64>)
        ensures
            r == self.remote_id,
    {
        self.remote_id
    }

    /// Serializes the full state of this view; `None` when the view wraps a private
    /// buffer, whatever else holds.
    pub fn to_state_proto(&self) -> (r: Option<ViewSnapshot>)
        requires
            self.buffer@.wf(),
        ensures
            r is None <==> !shareable(self.buffer@),
            self.buffer@.singleton matches Some(b) && b.private ==> r is None,
            r matches Some(s) ==> {
                &&& s.singleton == self.buffer@.singleton is Some
                &&& s.singleton ==> s.title is None
                &&& !s.singleton ==> (s.title matches Some(t) && t@ == display_title(
                    self.buffer@.title,
                ))
                &&& s.excerpts@ == self.buffer@.excerpts().map_values(
                    |e: Excerpt| serialize_excerpt_spec(e),
                )
                &&& s.selections@ == self.selections@.map_values(
                    |x: Selection| serialize_selection_spec(x),
                )
                &&& s.pending_selection == match self.pending_selection {
                    Some(p) => Some(serialize_selection_spec(p)),
                    None => None,
                }
                &&& s.scroll_top_anchor == Some(serialize_anchor_spec(self.scroll_anchor.anchor))
                &&& s.scroll_x == self.scroll_anchor.offset_x
                &&& s.scroll_y == self.scroll_anchor.offset_y
            },
    {
        proof {
            if let Some(b) = self.buffer@.singleton {
                if b.private {
                    self.buffer.lemma_singleton_shows_private();
                }
            }
        }
        if self.buffer.shows_private() {
            return None;
        }
        let singleton = self.buffer.is_singleton();
        let title = if singleton {
            None
        } else {
            Some(self.buffer.title())
        };
        let excerpts = serialize_excerpts(&self.buffer.excerpts());
        Some(
            ViewSnapshot {
                singleton,
                title,
                excerpts,
                selections: serialize_selections(&self.selections),
                pending_selection: match &self.pending_selection {
                    Some(p) => Some(serialize_selection(p)),
                    None => None,
                },
                scroll_top_anchor: Some(serialize_anchor(&self.scroll_anchor.anchor)),
                scroll_x: self.scroll_anchor.offset_x,
                scroll_y: self.scroll_anchor.offset_y,
            },
        )
    }

    /// What following makes of an editor event.
    pub fn to_follow_event(event: &EditorEvent) -> (r: Option<FollowEvent>)
        ensures
            r == if unfollows(*event) {
                Some(FollowEvent::Unfollow)
            } else {
                None
            },
    {
        match event {
            EditorEvent::Edited => Some(FollowEvent::Unfollow),
            EditorEvent::SelectionsChanged { local } | EditorEvent::ScrollPositionChanged {
                local,
                ..
            } => {
                if *local {
                    Some(FollowEvent::Unfollow)
                } else {
                    None
                }
            },
            _ => None,
        }
    }

    /// Records an event in the pending outgoing update, creating an empty one first if
    /// there is none. Each kind of change sets its own fields, so changes of several
    /// kinds in one cycle travel in one message. Returns whether the event mattered.
    pub fn add_event_to_update_proto(&self, event: &EditorEvent, update: &mut Option<ViewUpdate>) -> (r:
        bool)
        ensures
            r == match *event {
                EditorEvent::ExcerptsAdded { .. } | EditorEvent::ExcerptsRemoved { .. }
                | EditorEvent::SelectionsChanged { .. } => true,
                EditorEvent::ScrollPositionChanged { autoscroll, .. } => !autoscroll,
                _ => false,
            },
            *final(update) is Some,
            ({
                let u = (*final(update))->0;
                let o = *old(update);
                match *event {
                    EditorEvent::ExcerptsAdded { buffer_id, predecessor, excerpts } => {
                        &&& u.inserted_excerpts@ == base_insertions(o) + insertions_for(
                            buffer_id,
                            predecessor,
                            excerpts@,
                        )
                        &&& keeps_deletions(u, o)
                        &&& keeps_selections(u, o)
                        &&& keeps_scroll(u, o)
                    },
                    EditorEvent::ExcerptsRemoved { ids } => {
                        &&& u.deleted_excerpts@ == base_deletions(o) + ids@.map_values(
                            |id: ExcerptId| id.0,
                        )
                        &&& keeps_insertions(u, o)
                        &&& keeps_selections(u, o)
                        &&& keeps_scroll(u, o)
                    },
                    EditorEvent::ScrollPositionChanged { autoscroll, .. } => {
                        &&& keeps_insertions(u, o)
                        &&& keeps_deletions(u, o)
                        &&& keeps_selections(u, o)
                        &&& autoscroll ==> keeps_scroll(u, o)
                        &&& !autoscroll ==> {
                            &&& u.scroll_top_anchor == Some(
                                serialize_anchor_spec(self.scroll_anchor.anchor),
                            )
                            &&& u.scroll_x == self.scroll_anchor.offset_x
                            &&& u.scroll_y == self.scroll_anchor.offset_y
                        }
                    },
                    EditorEvent::SelectionsChanged { .. } => {
                        &&& keeps_insertions(u, o)
                        &&& keeps_deletions(u, o)
                        &&& keeps_scroll(u, o)
                        &&& u.selections@ == self.selections@.map_values(
                            |x: Selection| serialize_selection_spec(x),
                        )
                        &&& u.pending_selection == match self.pending_selection {
                            Some(p) => Some(serialize_selection_spec(p)),
                            None => None,
                        }
                    },
                    _ => {
                        &&& keeps_insertions(u, o)
                        &&& keeps_deletions(u, o)
                        &&& keeps_selections(u, o)
                        &&& keeps_scroll(u, o)
                    },
                }
            }),
    {
        let mut u = match update.take() {
            Some(u) => u,
            None => ViewUpdate {
                inserted_excerpts: Vec::new(),
                deleted_excerpts: Vec::new(),
                selections: Vec::new(),
                pending_selection: None,
                scroll_top_anchor: None,
                scroll_x: 0,
                scroll_y: 0,
            },
        };
        let ghost u0 = u;
        let handled = match event {
            EditorEvent::ExcerptsAdded { buffer_id, predecessor, excerpts } => {
                let ghost start = u.inserted_excerpts@;
                let mut i: usize = 0;
                while i < excerpts.len()
                    invariant
                        i <= excerpts@.len(),
                        u.inserted_excerpts@ == start + insertions_for(
                            *buffer_id,
                            *predecessor,
                            excerpts@,
                        ).take(i as int),
                        u.deleted_excerpts@ == u0.deleted_excerpts@,
                        u.selections@ == u0.selections@,
                        u.pending_selection == u0.pending_selection,
                        u.scroll_top_anchor == u0.scroll_top_anchor,
                        u.scroll_x == u0.scroll_x,
                        u.scroll_y == u0.scroll_y,
                    decreases excerpts@.len() - i,
                {
                    let (id, range) = excerpts[i];
                    let previous_excerpt_id = if i == 0 {
                        Some(predecessor.to_proto())
                    } else {
                        None
                    };
                    u.inserted_excerpts.push(
                        ExcerptInsertion {
                            previous_excerpt_id,
                            excerpt: Some(serialize_excerpt(*buffer_id, &id, &range)),
                        },
                    );
                    i += 1;
                    assert(u.inserted_excerpts@ =~= start + insertions_for(
                        *buffer_id,
                        *predecessor,
                        excerpts@,
                    ).take(i as int));
                }
                assert(insertions_for(*buffer_id, *predecessor, excerpts@).take(i as int)
                    =~= insertions_for(*buffer_id, *predecessor, excerpts@));
                true
            },
            EditorEvent::ExcerptsRemoved { ids } => {
                let ghost start = u.deleted_excerpts@;
                let mut i: usize = 0;
                while i < ids.len()
                    invariant
                        i <= ids@.len(),
                        u.deleted_excerpts@ == start + ids@.take(i as int).map_values(
                            |id: ExcerptId| id.0,
                        ),
                        u.inserted_excerpts@ == u0.inserted_excerpts@,
                        u.selections@ == u0.selections@,
                        u.pending_selection == u0.pending_selection,
                        u.scroll_top_anchor == u0.scroll_top_anchor,
                        u.scroll_x == u0.scroll_x,
                        u.scroll_y == u0.scroll_y,
                    decreases ids@.len() - i,
                {
                    u.deleted_excerpts.push(ids[i].to_proto());
                    i += 1;
                    assert(u.deleted_excerpts@ =~= start + ids@.take(i as int).map_values(
                        |id: ExcerptId| id.0,
                    ));
                }
                assert(ids@.take(i as int) =~= ids@);
                true
            },
            EditorEvent::ScrollPositionChanged { autoscroll, .. } => {
                if !*autoscroll {
                    u.scroll_top_anchor = Some(serialize_anchor(&self.scroll_anchor.anchor));
                    u.scroll_x = self.scroll_anchor.offset_x;
                    u.scroll_y = self.scroll_anchor.offset_y;
                    true
                } else {
                    false
                }
            },
            EditorEvent::SelectionsChanged { .. } => {
                u.selections = serialize_selections(&self.selections);
                u.pending_selection = match &self.pending_selection {
                    Some(p) => Some(serialize_selection(p)),
                    None => None,
                };
                true
            },
            _ => false,
        };
        *update = Some(u);
        handled
    }

    /// Whether opening `self` beside `existing` should keep the existing one: both wrap
    /// the same whole buffer.
    pub fn dedup(&self, existing: &Editor) -> (r: Option<Dedup>)
        ensures
            r == match (self.buffer@.singleton, existing.buffer@.singleton) {
                (Some(a), Some(b)) => if a == b {
                    Some(Dedup::KeepExisting)
                } else {
                    None
                },
                _ => None,
            },
    {
        let a = match self.buffer.as_singleton() {
            Some(a) => a,
            None => return None,
        };
        let b = match existing.buffer.as_singleton() {
            Some(b) => b,
            None => return None,
        };
        if a == b {
            Some(Dedup::KeepExisting)
        } else {
            None
        }
    }
}

} // verus!
