use editsync_core::multi_buffer::{
    Anchor, Bias, Buffer, BufferId, ExcerptId, ExcerptRange, MultiBuffer, TextAnchor, TextRange,
};
use std::cmp::Ordering;

fn anchor_at(offset: u64, bias: Bias) -> TextAnchor {
    TextAnchor { version: 0, offset, bias }
}

fn range(start: u64, end: u64) -> ExcerptRange {
    ExcerptRange {
        context: TextRange { start: anchor_at(start, Bias::Left), end: anchor_at(end, Bias::Right) },
        primary: None,
    }
}

fn buf(id: u64) -> Buffer {
    Buffer { id: BufferId(id), len: 100, private: false }
}

fn ids(mb: &MultiBuffer) -> Vec<u64> {
    mb.excerpts().iter().map(|e| e.id.0).collect()
}

fn three_excerpts() -> MultiBuffer {
    let mut mb = MultiBuffer::new();
    let pushed = mb.push_excerpts(buf(7), &vec![range(0, 5), range(10, 20), range(30, 40)]);
    assert_eq!(pushed, vec![ExcerptId(1), ExcerptId(2), ExcerptId(3)]);
    mb
}

#[test]
fn push_appends_with_fresh_ids_in_input_order() {
    let mut mb = three_excerpts();
    let more = mb.push_excerpts(buf(8), &vec![range(1, 2)]);
    assert_eq!(more, vec![ExcerptId(4)]);
    assert_eq!(ids(&mb), vec![1, 2, 3, 4]);
    assert_eq!(mb.excerpts()[3].buffer_id, BufferId(8));
    assert_eq!(mb.excerpts()[1].range, range(10, 20));
}

#[test]
fn insert_after_predecessor_places_run_in_order() {
    let mut mb = three_excerpts();
    mb.insert_excerpts_with_ids_after(
        ExcerptId(1),
        buf(9),
        &vec![(ExcerptId(10), range(0, 1)), (ExcerptId(11), range(2, 3))],
    );
    assert_eq!(ids(&mb), vec![1, 10, 11, 2, 3]);
}

#[test]
fn insert_after_start_sentinel_goes_first() {
    let mut mb = three_excerpts();
    mb.insert_excerpts_with_ids_after(ExcerptId::min(), buf(9), &vec![(ExcerptId(10), range(0, 1))]);
    assert_eq!(ids(&mb), vec![10, 1, 2, 3]);
}

#[test]
fn insert_after_missing_predecessor_is_a_no_op() {
    let mut mb = three_excerpts();
    mb.insert_excerpts_with_ids_after(ExcerptId(99), buf(9), &vec![(ExcerptId(10), range(0, 1))]);
    assert_eq!(ids(&mb), vec![1, 2, 3]);
    mb.remove_excerpts(&vec![ExcerptId(2)]);
    mb.insert_excerpts_with_ids_after(ExcerptId(2), buf(9), &vec![(ExcerptId(10), range(0, 1))]);
    assert_eq!(ids(&mb), vec![1, 3]);
}

#[test]
fn duplicate_sentinel_and_malformed_excerpts_are_skipped() {
    let mut mb = three_excerpts();
    let backwards = range(9, 3);
    mb.insert_excerpts_with_ids_after(
        ExcerptId(3),
        buf(9),
        &vec![
            (ExcerptId(2), range(0, 1)),
            (ExcerptId::max(), range(0, 1)),
            (ExcerptId(12), backwards),
            (ExcerptId(13), range(0, 1)),
        ],
    );
    assert_eq!(ids(&mb), vec![1, 2, 3, 13]);
}

#[test]
fn removed_excerpt_can_come_back() {
    let mut mb = three_excerpts();
    mb.remove_excerpts(&vec![ExcerptId(2)]);
    mb.insert_excerpts_with_ids_after(ExcerptId(3), buf(7), &vec![(ExcerptId(2), range(10, 20))]);
    assert_eq!(ids(&mb), vec![1, 3, 2]);
}

#[test]
fn removal_order_does_not_matter() {
    let mut a = three_excerpts();
    let mut b = three_excerpts();
    a.remove_excerpts(&vec![ExcerptId(1), ExcerptId(3)]);
    b.remove_excerpts(&vec![ExcerptId(3), ExcerptId(1)]);
    assert_eq!(ids(&a), vec![2]);
    assert_eq!(a.excerpts(), b.excerpts());
}

#[test]
fn removing_unknown_ids_changes_nothing() {
    let mut mb = three_excerpts();
    mb.remove_excerpts(&vec![ExcerptId(42)]);
    assert_eq!(ids(&mb), vec![1, 2, 3]);
}

#[test]
fn singleton_wraps_one_whole_buffer() {
    let buffer = Buffer { id: BufferId(5), len: 12, private: false };
    let mut mb = MultiBuffer::singleton(buffer);
    assert!(mb.is_singleton());
    assert_eq!(mb.as_singleton(), Some(buffer));
    assert_eq!(mb.excerpts().len(), 1);
    assert_eq!(mb.excerpts()[0].range.context.end.offset, 12);
    mb.push_excerpts(buf(6), &vec![range(0, 1)]);
    assert!(!mb.is_singleton());
    assert_eq!(mb.as_singleton(), None);
}

#[test]
fn title_is_kept() {
    let mb = MultiBuffer::new().with_title("Search results".to_string());
    assert_eq!(mb.title(), "Search results");
    assert_eq!(MultiBuffer::new().title(), "untitled");
}

fn anchor(mb: &MultiBuffer, excerpt: u64, offset: u64, bias: Bias) -> Anchor {
    let excerpt_id = ExcerptId(excerpt);
    Anchor { excerpt_id, buffer_id: mb.buffer_id_for_excerpt(excerpt_id), text_anchor: anchor_at(offset, bias) }
}

#[test]
fn anchors_order_by_excerpt_then_position() {
    let mut mb = three_excerpts();
    mb.insert_excerpts_with_ids_after(ExcerptId(1), buf(9), &vec![(ExcerptId(10), range(0, 1))]);
    let a = anchor(&mb, 10, 50, Bias::Left);
    let b = anchor(&mb, 2, 0, Bias::Left);
    let c = anchor(&mb, 2, 0, Bias::Right);
    let d = anchor(&mb, 1, 100, Bias::Right);
    assert_eq!(d.cmp(&a, &mb), Ordering::Less);
    assert_eq!(a.cmp(&b, &mb), Ordering::Less);
    assert_eq!(b.cmp(&c, &mb), Ordering::Less);
    assert_eq!(c.cmp(&b, &mb), Ordering::Greater);
    assert_eq!(b.cmp(&b, &mb), Ordering::Equal);
}

#[test]
fn anchor_order_is_total_on_a_sample() {
    let mb = three_excerpts();
    let mut anchors = Vec::new();
    for excerpt in [0, 1, 2, 3, u64::MAX, 77] {
        for offset in [0, 4, 9] {
            for bias in [Bias::Left, Bias::Right] {
                anchors.push(anchor(&mb, excerpt, offset, bias));
            }
        }
    }
    for a in &anchors {
        assert_eq!(a.cmp(a, &mb), Ordering::Equal);
        for b in &anchors {
            let ab = a.cmp(b, &mb);
            assert_eq!(ab, b.cmp(a, &mb).reverse());
            if ab == Ordering::Equal {
                assert_eq!(a, b);
            }
            for c in &anchors {
                if ab != Ordering::Greater && b.cmp(c, &mb) != Ordering::Greater {
                    assert_ne!(a.cmp(c, &mb), Ordering::Greater);
                }
            }
        }
    }
}

#[test]
fn anchor_in_removed_excerpt_keeps_its_place() {
    let mut mb = three_excerpts();
    let in_second = anchor(&mb, 2, 15, Bias::Left);
    mb.remove_excerpts(&vec![ExcerptId(2)]);
    let first = anchor(&mb, 1, 4, Bias::Left);
    let third = anchor(&mb, 3, 30, Bias::Left);
    assert_eq!(mb.buffer_id_for_excerpt(ExcerptId(2)), None);
    assert_eq!(first.cmp(&in_second, &mb), Ordering::Less);
    assert_eq!(in_second.cmp(&third, &mb), Ordering::Less);
}

#[test]
fn sentinels_bound_every_anchor() {
    let mb = three_excerpts();
    let min = anchor(&mb, 0, 0, Bias::Left);
    let max = anchor(&mb, u64::MAX, 0, Bias::Left);
    let inner = anchor(&mb, 3, 1000, Bias::Right);
    assert_eq!(min.cmp(&inner, &mb), Ordering::Less);
    assert_eq!(max.cmp(&inner, &mb), Ordering::Greater);
}

#[test]
fn sort_by_display_order_follows_the_sequence() {
    let mut mb = three_excerpts();
    mb.insert_excerpts_with_ids_after(ExcerptId::min(), buf(9), &vec![(ExcerptId(10), range(0, 1))]);
    let sorted = mb.sort_by_display_order(&vec![ExcerptId(3), ExcerptId(42), ExcerptId(1), ExcerptId(10), ExcerptId(3)]);
    assert_eq!(sorted, vec![ExcerptId(10), ExcerptId(1), ExcerptId(3), ExcerptId(3), ExcerptId(42)]);
}

#[test]
fn last_excerpt_id_skips_removed_excerpts() {
    let mut mb = three_excerpts();
    assert_eq!(mb.last_excerpt_id(), ExcerptId(3));
    mb.remove_excerpts(&vec![ExcerptId(3)]);
    assert_eq!(mb.last_excerpt_id(), ExcerptId(2));
    assert_eq!(MultiBuffer::new().last_excerpt_id(), ExcerptId::min());
}

#[test]
fn range_well_formedness() {
    assert!(range(1, 4).is_well_formed());
    assert!(!range(4, 1).is_well_formed());
    let mut r = range(0, 10);
    r.primary = Some(TextRange { start: anchor_at(2, Bias::Left), end: anchor_at(3, Bias::Right) });
    assert!(r.is_well_formed());
    r.primary = Some(TextRange { start: anchor_at(2, Bias::Left), end: anchor_at(11, Bias::Right) });
    assert!(!r.is_well_formed());
}

#[test]
fn anchors_resolve_or_clamp_to_offsets() {
    let mut mb = three_excerpts();
    assert_eq!(mb.resolve_offset(&anchor(&mb, 2, 15, Bias::Left)), 10);
    assert_eq!(mb.resolve_offset(&anchor(&mb, 2, 25, Bias::Left)), 15);
    assert_eq!(mb.resolve_offset(&anchor(&mb, 2, 3, Bias::Left)), 5);
    assert_eq!(mb.resolve_offset(&anchor(&mb, 0, 3, Bias::Left)), 0);
    assert_eq!(mb.resolve_offset(&anchor(&mb, u64::MAX, 3, Bias::Left)), 25);
    assert_eq!(mb.resolve_offset(&anchor(&mb, 77, 3, Bias::Left)), 25);
    let in_second = anchor(&mb, 2, 15, Bias::Left);
    mb.remove_excerpts(&vec![ExcerptId(2)]);
    assert_eq!(mb.resolve_offset(&in_second), 5);
    assert_eq!(mb.resolve_offset(&anchor(&mb, 3, 35, Bias::Left)), 10);
}

#[test]
fn offsets_become_anchors_biased_at_boundaries() {
    let mut mb = three_excerpts();
    let before = mb.anchor_before(5);
    assert_eq!((before.excerpt_id, before.text_anchor.offset, before.text_anchor.bias), (ExcerptId(1), 5, Bias::Left));
    let after = mb.anchor_after(5);
    assert_eq!((after.excerpt_id, after.text_anchor.offset, after.text_anchor.bias), (ExcerptId(2), 10, Bias::Right));
    let clamped = mb.anchor_before(100);
    assert_eq!((clamped.excerpt_id, clamped.text_anchor.offset), (ExcerptId(3), 40));
    let end = mb.anchor_after(25);
    assert_eq!((end.excerpt_id, end.text_anchor.offset), (ExcerptId(3), 40));
    mb.remove_excerpts(&vec![ExcerptId(2)]);
    let after = mb.anchor_after(5);
    assert_eq!((after.excerpt_id, after.text_anchor.offset), (ExcerptId(3), 30));
    assert_eq!(MultiBuffer::new().anchor_before(3).excerpt_id, ExcerptId::min());
}

#[test]
fn offset_anchors_resolve_back() {
    let mut mb = three_excerpts();
    mb.insert_excerpts_with_ids_after(ExcerptId(2), buf(9), &vec![(ExcerptId(10), range(7, 7))]);
    for offset in 0..30u64 {
        for anchor in [mb.anchor_before(offset), mb.anchor_after(offset)] {
            assert_eq!(mb.resolve_offset(&anchor), offset.min(25));
            assert_eq!(anchor.buffer_id, mb.buffer_id_for_excerpt(anchor.excerpt_id));
        }
    }
}
