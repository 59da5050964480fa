use editsync_core::multi_buffer::{Anchor, Bias, Buffer, BufferId, ExcerptId, ExcerptRange, MultiBuffer, TextAnchor, TextRange};
use editsync_core::search::BufferText;
use editsync_core::search::{
    active_match_index, deserialize_path_matches, expand_escapes, literal_matches_in,
    match_index_for_direction, whole_word_source, AnchorRange, Direction, PathMatcher, SearchInputKind,
    SearchQuery, SearchQueryError, SearchQueryWire,
};

fn no_paths() -> PathMatcher {
    PathMatcher::new(&vec![]).unwrap()
}

fn text_query(q: &str, whole_word: bool, case_sensitive: bool) -> SearchQuery {
    SearchQuery::text(q, whole_word, case_sensitive, false, no_paths(), no_paths(), None).unwrap()
}

fn regex_query(q: &str, whole_word: bool, case_sensitive: bool) -> SearchQuery {
    SearchQuery::regex(q, whole_word, case_sensitive, false, no_paths(), no_paths(), None).unwrap()
}

#[test]
fn whole_word_text_search_skips_parts_of_words() {
    let q = text_query("cat", true, true);
    assert_eq!(q.search("concatenate cat scatter", None), vec![(12, 15)]);
}

#[test]
fn text_search_without_whole_word_finds_every_occurrence() {
    let q = text_query("cat", false, true);
    assert_eq!(q.search("concatenate cat scatter", None), vec![(3, 6), (12, 15), (17, 20)]);
}

#[test]
fn case_insensitive_text_search() {
    let q = text_query("Cat", false, false);
    assert_eq!(q.search("CAT cat", None), vec![(0, 3), (4, 7)]);
    let q = text_query("Cat", false, true);
    assert_eq!(q.search("CAT cat", None), Vec::<(usize, usize)>::new());
}

#[test]
fn offsets_count_characters() {
    let q = text_query("wörld", false, true);
    assert_eq!(q.search("héllo wörld", None), vec![(6, 11)]);
}

#[test]
fn subrange_offsets_are_relative() {
    let q = text_query("ab", false, true);
    assert_eq!(q.search("ab ab ab", Some((2, 8))), vec![(1, 3), (4, 6)]);
}

#[test]
fn empty_query_matches_nothing() {
    let q = text_query("", false, true);
    assert!(q.is_empty());
    assert!(q.search("anything", None).is_empty());
    assert!(!q.detect("anything"));
}

#[test]
fn regex_replacement_swaps_capture_groups() {
    let q = regex_query(r"(\w+)@(\w+)", false, true).with_replacement("$2@$1".to_string());
    assert_eq!(q.replacement_for("user@host"), Some("host@user".to_string()));
}

#[test]
fn regex_replacement_expands_escapes_first() {
    let q = regex_query(r"(\w+) (\w+)", false, true).with_replacement(r"$1\n$2\t\\".to_string());
    assert_eq!(q.replacement_for("left right"), Some("left\nright\t\\".to_string()));
}

#[test]
fn text_replacement_is_verbatim() {
    let q = text_query("a", false, true);
    assert_eq!(q.replacement_for("a"), None);
    let q = q.with_replacement(r"x\n".to_string());
    assert_eq!(q.replacement(), Some(r"x\n"));
    assert_eq!(q.replacement_for("a"), Some(r"x\n".to_string()));
}

#[test]
fn escape_expansion() {
    assert_eq!(expand_escapes(r"a\nb\tc\\d\qe"), "a\nb\tc\\d\\qe");
    assert_eq!(expand_escapes(r"\"), "\\");
    assert_eq!(expand_escapes(r"\\n"), "\\n");
}

#[test]
fn regex_search_line_by_line() {
    let q = regex_query("o.", false, true);
    assert_eq!(q.search("foo\nbor", None), vec![(1, 3), (5, 7)]);
    assert!(q.is_regex());
}

#[test]
fn multiline_regex_spans_lines() {
    let q = regex_query(r"o\nb", false, true);
    assert_eq!(q.search("foo\nbar", None), vec![(2, 5)]);
    let line_by_line = regex_query("o.b", false, true);
    assert!(line_by_line.search("foo\nbar", None).is_empty());
}

#[test]
fn whole_word_regex_gets_boundaries() {
    let q = regex_query("cat", true, true);
    assert_eq!(q.search("concatenate cat scatter", None), vec![(12, 15)]);
    assert!(q.whole_word());
    assert_eq!(whole_word_source("cat", true, true), r"\bcat\b");
    assert_eq!(whole_word_source("(x", false, true), r"(x\b");
}

#[test]
fn invalid_regex_is_rejected() {
    let r = SearchQuery::regex("(", false, true, false, no_paths(), no_paths(), None);
    assert_eq!(r.err(), Some(SearchQueryError::InvalidRegex));
}

#[test]
fn detect_ignores_whole_word() {
    let q = text_query("cat", true, true);
    assert!(q.detect("concatenate"));
    assert!(!q.detect("dog"));
    let q = regex_query("d.g", false, false);
    assert!(q.detect("a DOG"));
}

#[test]
fn literal_matches_in_converts_and_filters() {
    assert_eq!(literal_matches_in("ab cab", &vec![(0, 2), (4, 6)], true), vec![(0, 2)]);
    assert_eq!(literal_matches_in("é ab", &vec![(3, 5), (1, 2)], false), vec![(2, 4)]);
}

#[test]
fn accessors_report_options() {
    let q = SearchQuery::text("x", true, false, true, no_paths(), no_paths(), Some(vec![BufferId(3)])).unwrap();
    assert_eq!(q.as_str(), "x");
    assert!(q.whole_word() && !q.case_sensitive() && q.include_ignored() && !q.is_regex());
    assert!(q.is_opened_only());
    assert_eq!(q.buffers(), Some(&vec![BufferId(3)]));
    assert!(!q.filters_path());
    assert_eq!(q.as_inner().as_str(), "x");
}

#[test]
fn file_filters_look_at_ancestors() {
    let inc = deserialize_path_matches("src").unwrap();
    let exc = deserialize_path_matches("src/generated/*.rs").unwrap();
    let q = SearchQuery::text("x", false, true, false, inc, exc, None).unwrap();
    assert!(q.filters_path());
    assert!(q.file_matches("src/lib.rs"));
    assert!(!q.file_matches("src/generated/a.rs"));
    assert!(!q.file_matches("docs/a.md"));
    let open = text_query("x", false, true);
    assert!(open.file_matches("anything/at/all"));
}

#[test]
fn query_wire_round_trip() {
    let inc = deserialize_path_matches("a/*.rs, b").unwrap();
    let q = SearchQuery::regex("fo+", true, false, true, inc, no_paths(), None).unwrap();
    let wire = q.to_proto();
    assert_eq!(wire.files_to_include, "a/*.rs,b");
    assert_eq!(wire.files_to_exclude, "");
    let back = SearchQuery::from_proto(&wire).unwrap();
    assert!(back.is_regex() && back.whole_word() && !back.case_sensitive() && back.include_ignored());
    assert_eq!(back.as_str(), "fo+");
    assert_eq!(back.files_to_include().sources(), &vec!["a/*.rs".to_string(), "b".to_string()]);
    let bad = SearchQueryWire { files_to_exclude: "[".to_string(), ..wire };
    assert_eq!(SearchQuery::from_proto(&bad).err(), Some(SearchQueryError::InvalidGlob));
}

#[test]
fn search_input_kinds_differ() {
    assert_ne!(SearchInputKind::Query, SearchInputKind::Include);
    assert_eq!(SearchInputKind::Exclude, SearchInputKind::Exclude);
}

fn ta(offset: u64) -> TextAnchor {
    TextAnchor { version: 0, offset, bias: Bias::Left }
}

fn snapshot() -> MultiBuffer {
    let mut mb = MultiBuffer::new();
    mb.push_excerpts(
        Buffer { id: BufferId(1), len: 100, private: false },
        &vec![ExcerptRange { context: TextRange { start: ta(0), end: ta(100) }, primary: None }],
    );
    mb
}

fn at(mb: &MultiBuffer, offset: u64) -> Anchor {
    Anchor { excerpt_id: ExcerptId(1), buffer_id: mb.buffer_id_for_excerpt(ExcerptId(1)), text_anchor: ta(offset) }
}

fn matches(mb: &MultiBuffer) -> Vec<AnchorRange> {
    [(10, 12), (20, 25), (40, 41)].iter().map(|&(s, e)| AnchorRange { start: at(mb, s), end: at(mb, e) }).collect()
}

#[test]
fn active_match_index_clamps() {
    let mb = snapshot();
    let m = matches(&mb);
    assert_eq!(active_match_index(&vec![], &at(&mb, 5), &mb), None);
    assert_eq!(active_match_index(&m, &at(&mb, 0), &mb), Some(0));
    assert_eq!(active_match_index(&m, &at(&mb, 11), &mb), Some(0));
    assert_eq!(active_match_index(&m, &at(&mb, 15), &mb), Some(1));
    assert_eq!(active_match_index(&m, &at(&mb, 22), &mb), Some(1));
    assert_eq!(active_match_index(&m, &at(&mb, 99), &mb), Some(2));
}

#[test]
fn match_navigation_wraps_around() {
    let mb = snapshot();
    let m = matches(&mb);
    assert_eq!(match_index_for_direction(&m, 0, Direction::Next, 1, None, &mb), 1);
    assert_eq!(match_index_for_direction(&m, 2, Direction::Next, 1, None, &mb), 0);
    assert_eq!(match_index_for_direction(&m, 0, Direction::Prev, 1, None, &mb), 2);
    assert_eq!(match_index_for_direction(&m, 1, Direction::Next, 3, None, &mb), 1);
    // The cursor sits before the current match: the first step lands on it.
    assert_eq!(match_index_for_direction(&m, 1, Direction::Next, 1, Some(at(&mb, 15)), &mb), 1);
    // The cursor sits past the current match: going back lands on it.
    assert_eq!(match_index_for_direction(&m, 1, Direction::Prev, 1, Some(at(&mb, 30)), &mb), 1);
}

#[test]
fn find_matches_searches_each_excerpt() {
    let mut mb = MultiBuffer::new();
    mb.push_excerpts(
        Buffer { id: BufferId(1), len: 100, private: false },
        &vec![ExcerptRange { context: TextRange { start: ta(4), end: ta(14) }, primary: None }],
    );
    mb.push_excerpts(
        Buffer { id: BufferId(2), len: 100, private: false },
        &vec![ExcerptRange { context: TextRange { start: ta(0), end: ta(3) }, primary: None }],
    );
    mb.push_excerpts(
        Buffer { id: BufferId(3), len: 100, private: false },
        &vec![ExcerptRange { context: TextRange { start: ta(0), end: ta(3) }, primary: None }],
    );
    let texts = vec![
        BufferText { id: BufferId(1), text: "cat concat cat".to_string() },
        BufferText { id: BufferId(2), text: "cat".to_string() },
    ];
    let q = text_query("cat", false, true);
    let found = q.find_matches(&mb, &texts);
    let offsets: Vec<(u64, u64, u64)> =
        found.iter().map(|r| (r.start.excerpt_id.0, r.start.text_anchor.offset, r.end.text_anchor.offset)).collect();
    assert_eq!(offsets, vec![(1, 7, 10), (1, 11, 14), (2, 0, 3)]);
    assert_eq!(found[0].start.text_anchor.bias, Bias::Right);
    assert_eq!(found[0].end.text_anchor.bias, Bias::Left);
}

#[test]
fn backslash_group_references_substitute_captures() {
    let q = regex_query(r"(\w+)@(\w+)", false, true).with_replacement(r"\2@\1".to_string());
    assert_eq!(q.replacement_for("user@host"), Some("host@user".to_string()));
    assert_eq!(expand_escapes(r"\2@\1"), "${2}@${1}");
}

#[test]
fn failing_regex_search_ends() {
    let q = regex_query(r"(a|b|ab)*(?=c)", false, true);
    let text = "ab".repeat(20000);
    let found = q.search(&text, None);
    assert!(found.len() <= text.len());
    let multi = regex_query(r"(a|b|ab)*(?=c)\n", false, true);
    assert!(multi.search(&text, None).len() <= text.len());
}
