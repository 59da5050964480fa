//! Text and regex search queries, the path filters that go with them, and the choice of
//! the active match.
use crate::multi_buffer::{
    anchor_cmp, anchor_le, lemma_anchor_order_transitive, Anchor, Bias, BufferId, Excerpt,
    MultiBuffer, MultiBufferModel, TextAnchor,
};
use crate::outside::{
    alphanumeric, chars_of, check_glob, check_regex, find_literal, find_regex, glob_match,
    glob_matches, has_non_boundary, is_alphanumeric, is_whitespace, literal_matches,
    literal_search_ok, ascii_word, MAX_GLOB_CHARS, parent_of, path_parent, path_prefix, path_starts_with,
    push_char, regex_compiles, regex_matches, regex_replacement, replace_first, valid_glob,
    whitespace,
};
use crate::utf8_offsets::{char_at_byte, char_offset_of_byte};
use std::cmp::Ordering;
use vstd::prelude::*;

verus! {

/// Which input of the search bar a value belongs to.
#[derive(Clone, Copy, Debug, PartialEq, Eq, Structural)]
pub enum SearchInputKind {
    Query,
    Include,
    Exclude,
}

/// A range between two multi-buffer anchors.
#[derive(Clone, Copy, Debug, PartialEq, Eq, Structural)]
pub struct AnchorRange {
    pub start: Anchor,
    pub end: Anchor,
}

/// A set of path globs. A path matches when one of the globs matches it, when it
/// starts with one of them as a path, or when a glob matches it with a separator
/// appended.
#[derive(Debug)]
pub struct PathMatcher {
    sources: Vec<String>,
}

impl PathMatcher {
    /// Every glob is short enough to hand to globset.
    #[verifier::type_invariant]
    spec fn globs_fit(self) -> bool {
        forall|i: int| 0 <= i < self.sources@.len() ==> (#[trigger] self.sources@[i])@.len() < MAX_GLOB_CHARS
    }
}

impl View for PathMatcher {
    type V = Seq<Seq<char>>;

    closed spec fn view(&self) -> Seq<Seq<char>> {
        self.sources@.map_values(|s: String| s@)
    }
}

/// Whether one glob of a matcher matches a path.
pub open spec fn source_matches(src: Seq<char>, path: Seq<char>) -> bool {
    ||| path_prefix(path, src)
    ||| valid_glob(src) && glob_match(src, path)
    ||| !(path.len() > 0 && path.last() == '/') && valid_glob(src) && glob_match(src, path.push('/'))
}

pub open spec fn matcher_matches(srcs: Seq<Seq<char>>, path: Seq<char>) -> bool {
    exists|i: int| 0 <= i < srcs.len() && source_matches(#[trigger] srcs[i], path)
}

/// The text split at every comma.
pub open spec fn split_commas(s: Seq<char>) -> Seq<Seq<char>>
    decreases s.len(),
{
    if s.len() == 0 {
        seq![Seq::empty()]
    } else {
        let p = split_commas(s.drop_last());
        if s.last() == ',' {
            p.push(Seq::empty())
        } else {
            p.update(p.len() - 1, p.last().push(s.last()))
        }
    }
}

/// The text without leading whitespace.
pub open spec fn trim_start(s: Seq<char>) -> Seq<char>
    decreases s.len(),
{
    if s.len() > 0 && whitespace(s[0]) {
        trim_start(s.drop_first())
    } else {
        s
    }
}

/// The text without trailing whitespace.
pub open spec fn trim_end(s: Seq<char>) -> Seq<char>
    decreases s.len(),
{
    if s.len() > 0 && whitespace(s.last()) {
        trim_end(s.drop_last())
    } else {
        s
    }
}

pub open spec fn trim(s: Seq<char>) -> Seq<char> {
    trim_end(trim_start(s))
}

/// The pieces, trimmed, without the empty ones.
pub open spec fn trimmed_nonempty(p: Seq<Seq<char>>) -> Seq<Seq<char>>
    decreases p.len(),
{
    if p.len() == 0 {
        Seq::empty()
    } else {
        let r = trimmed_nonempty(p.drop_last());
        if trim(p.last()).len() > 0 {
            r.push(trim(p.last()))
        } else {
            r
        }
    }
}

/// The globs of a comma-separated list: each trimmed, empty ones dropped.
pub open spec fn glob_list(s: Seq<char>) -> Seq<Seq<char>> {
    trimmed_nonempty(split_commas(s))
}

/// The characters of `v` as a string.
pub fn string_of(v: &Vec<char>, from: usize, to: usize) -> (r: String)
    requires
        from <= to <= v@.len(),
    ensures
        r@ == v@.subrange(from as int, to as int),
{
    let mut s = String::new();
    let mut i = from;
    while i < to
        invariant
            from <= i <= to <= v@.len(),
            s@ == v@.subrange(from as int, i as int),
        decreases to - i,
    {
        push_char(&mut s, v[i]);
        i += 1;
        assert(s@ =~= v@.subrange(from as int, i as int));
    }
    s
}

/// The characters of `v[from..to]` without leading and trailing whitespace.
fn trimmed(v: &Vec<char>, from: usize, to: usize) -> (r: String)
    requires
        from <= to <= v@.len(),
    ensures
        r@ == trim(v@.subrange(from as int, to as int)),
        r@.len() <= to - from,
{
    let mut a = from;
    while a < to && is_whitespace(v[a])
        invariant
            from <= a <= to <= v@.len(),
            trim_start(v@.subrange(from as int, to as int)) == trim_start(v@.subrange(a as int, to as int)),
        decreases to - a,
    {
        assert(v@.subrange(a as int, to as int).drop_first() =~= v@.subrange(a + 1, to as int));
        a += 1;
    }
    assert(trim_start(v@.subrange(a as int, to as int)) == v@.subrange(a as int, to as int));
    let mut b = to;
    while b > a && is_whitespace(v[b - 1])
        invariant
            from <= a <= b <= to <= v@.len(),
            trim_end(v@.subrange(a as int, to as int)) == trim_end(v@.subrange(a as int, b as int)),
        decreases b - a,
    {
        assert(v@.subrange(a as int, b as int).drop_last() =~= v@.subrange(a as int, b - 1));
        b -= 1;
    }
    assert(trim_end(v@.subrange(a as int, b as int)) == v@.subrange(a as int, b as int));
    string_of(v, a, b)
}

impl PathMatcher {
    /// A matcher for the given globs; fails on the first glob that is not valid.
    pub fn new(globs: &Vec<String>) -> (r: Result<PathMatcher, globset::Error>)
        requires
            forall|i: int| 0 <= i < globs@.len() ==> (#[trigger] globs@[i])@.len() < MAX_GLOB_CHARS,
        ensures
            r is Ok <==> forall|i: int| 0 <= i < globs@.len() ==> valid_glob(#[trigger] globs@[i]@),
            r matches Ok(m) ==> m@ == globs@.map_values(|s: String| s@),
    {
        let mut sources: Vec<String> = Vec::new();
        let mut i: usize = 0;
        while i < globs.len()
            invariant
                i <= globs@.len(),
                forall|j: int| 0 <= j < i ==> valid_glob(#[trigger] globs@[j]@),
                sources@.len() == i,
                forall|j: int| 0 <= j < globs@.len() ==> (#[trigger] globs@[j])@.len() < MAX_GLOB_CHARS,
                forall|j: int| 0 <= j < i ==> (#[trigger] sources@[j])@.len() < MAX_GLOB_CHARS,
                sources@.map_values(|s: String| s@) == globs@.take(i as int).map_values(
                    |s: String| s@,
                ),
            decreases globs@.len() - i,
        {
            match check_glob(globs[i].as_str()) {
                Ok(()) => {},
                Err(e) => return Err(e),
            }
            let src = globs[i].as_str().to_owned();
            assert(src@ == globs@[i as int]@);
            let ghost before = sources@;
            sources.push(src);
            i += 1;
            assert forall|j: int| 0 <= j < i implies #[trigger] sources@[j]@ == globs@.take(i as int)[j]@ by {
                if j < i - 1 {
                    assert(sources@[j] == before[j]);
                    assert(before.map_values(|s: String| s@)[j] == before[j]@);
                    assert(globs@.take(i - 1).map_values(|s: String| s@)[j] == globs@.take(i - 1)[j]@);
                }
            }
            assert(sources@.map_values(|s: String| s@) =~= globs@.take(i as int).map_values(
                |s: String| s@,
            ));
        }
        assert(globs@.take(i as int) =~= globs@);
        Ok(PathMatcher { sources })
    }

    /// The globs this matcher was made from.
    pub fn sources(&self) -> (r: &Vec<String>)
        ensures
            r@.map_values(|s: String| s@) == self@,
    {
        &self.sources
    }

    /// Whether the matcher matches a path.
    pub fn is_match(&self, path: &str) -> (r: bool)
        ensures
            r == matcher_matches(self@, path@),
    {
        proof {
            use_type_invariant(self);
        }
        let chars = chars_of(path);
        let ends_with_separator = chars.len() > 0 && chars[chars.len() - 1] == '/';
        let mut with_separator = path.to_owned();
        push_char(&mut with_separator, '/');
        let mut i: usize = 0;
        while i < self.sources.len()
            invariant
                i <= self.sources@.len(),
                self@ == self.sources@.map_values(|s: String| s@),
                forall|j: int| 0 <= j < self.sources@.len() ==> (#[trigger] self.sources@[j])@.len() < MAX_GLOB_CHARS,
                ends_with_separator == (path@.len() > 0 && path@.last() == '/'),
                with_separator@ == path@.push('/'),
                forall|j: int| 0 <= j < i ==> !source_matches(#[trigger] self@[j], path@),
            decreases self.sources@.len() - i,
        {
            let src = self.sources[i].as_str();
            assert(self@[i as int] == src@);
            assert(self.sources@[i as int]@.len() < MAX_GLOB_CHARS);
            if path_starts_with(path, src) || glob_matches(src, path) || (!ends_with_separator
                && glob_matches(src, with_separator.as_str())) {
                return true;
            }
            i += 1;
        }
        false
    }
}

/// Parses a comma-separated list of globs into a matcher; each glob is trimmed and
/// empty ones are dropped.
pub fn deserialize_path_matches(glob_set: &str) -> (r: Result<PathMatcher, globset::Error>)
    requires
        glob_set@.len() < MAX_GLOB_CHARS,
    ensures
        r is Ok <==> forall|i: int|
            0 <= i < glob_list(glob_set@).len() ==> valid_glob(#[trigger] glob_list(glob_set@)[i]),
        r matches Ok(m) ==> m@ == glob_list(glob_set@),
{
    let v = chars_of(glob_set);
    let mut globs: Vec<String> = Vec::new();
    let mut start: usize = 0;
    let mut i: usize = 0;
    proof {
        assert(v@.take(0) =~= Seq::<char>::empty());
        assert(v@.subrange(0, 0) =~= Seq::<char>::empty());
    }
    while i < v.len()
        invariant
            v@ == glob_set@,
            v@.len() < MAX_GLOB_CHARS,
            forall|j: int| 0 <= j < globs@.len() ==> (#[trigger] globs@[j])@.len() <= v@.len(),
            start <= i <= v@.len(),
            split_commas(v@.take(i as int)).len() > 0,
            split_commas(v@.take(i as int)).last() == v@.subrange(start as int, i as int),
            globs@.map_values(|s: String| s@) == trimmed_nonempty(
                split_commas(v@.take(i as int)).drop_last(),
            ),
        decreases v@.len() - i,
    {
        let ghost p = split_commas(v@.take(i as int));
        assert(v@.take(i + 1).drop_last() =~= v@.take(i as int));
        assert(v@.take(i + 1).last() == v@[i as int]);
        if v[i] == ',' {
            let piece = trimmed(&v, start, i);
            let ghost before = globs@;
            if piece.unicode_len() > 0 {
                globs.push(piece);
            }
            let ghost q = split_commas(v@.take(i + 1));
            assert(q == p.push(Seq::empty()));
            assert(q.drop_last() =~= p);
            assert(p.drop_last().push(p.last()) =~= p);
            assert(globs@.map_values(|s: String| s@) =~= trimmed_nonempty(q.drop_last()));
            start = i + 1;
            i += 1;
            assert(v@.subrange(start as int, i as int) =~= Seq::<char>::empty());
        } else {
            let ghost q = split_commas(v@.take(i + 1));
            assert(q.drop_last() =~= p.drop_last());
            i += 1;
            assert(v@.subrange(start as int, i as int) =~= v@.subrange(start as int, i - 1).push(
                v@[i - 1],
            ));
        }
    }
    let piece = trimmed(&v, start, i);
    let ghost before = globs@;
    if piece.unicode_len() > 0 {
        globs.push(piece);
    }
    proof {
        let p = split_commas(v@.take(i as int));
        assert(v@.take(i as int) =~= glob_set@);
        assert(p.drop_last().push(p.last()) =~= p);
        assert(globs@.map_values(|s: String| s@) =~= trimmed_nonempty(p));
    }
    let ghost gl = glob_list(glob_set@);
    assert(globs@.map_values(|s: String| s@) == gl);
    assert(globs@.len() == gl.len());
    assert(forall|k: int| 0 <= k < gl.len() ==> #[trigger] gl[k] == globs@[k]@);
    let r = PathMatcher::new(&globs);
    proof {
        if r is Ok {
            assert forall|k: int| 0 <= k < gl.len() implies valid_glob(#[trigger] gl[k]) by {
                assert(gl[k] == globs@[k]@);
            }
        } else {
            let k = choose|k: int| 0 <= k < globs@.len() && !valid_glob(#[trigger] globs@[k]@);
            assert(gl[k] == globs@[k]@);
        }
    }
    r
}


/// Why a query could not be built.
#[derive(Clone, Copy, Debug, PartialEq, Eq, Structural)]
pub enum SearchQueryError {
    /// The automaton for a text query could not be built.
    InvalidText,
    /// A path filter holds a glob that is not valid, or is too long for the glob engine.
    InvalidGlob,
    /// A regex query does not compile.
    InvalidRegex,
}

/// The inputs of a search: the query as typed, the path filters, and the buffers to
/// search when the search is limited to open buffers.
#[derive(Debug)]
pub struct SearchInputs {
    query: String,
    files_to_include: PathMatcher,
    files_to_exclude: PathMatcher,
    buffers: Option<Vec<BufferId>>,
}

pub struct SearchInputsModel {
    pub query: Seq<char>,
    pub files_to_include: Seq<Seq<char>>,
    pub files_to_exclude: Seq<Seq<char>>,
    pub buffers: Option<Seq<BufferId>>,
}

impl View for SearchInputs {
    type V = SearchInputsModel;

    closed spec fn view(&self) -> SearchInputsModel {
        SearchInputsModel {
            query: self.query@,
            files_to_include: self.files_to_include@,
            files_to_exclude: self.files_to_exclude@,
            buffers: match self.buffers {
                Some(b) => Some(b@),
                None => None,
            },
        }
    }
}

impl SearchInputs {
    pub fn as_str(&self) -> (r: &str)
        ensures
            r@ == self@.query,
    {
        self.query.as_str()
    }

    pub fn files_to_include(&self) -> (r: &PathMatcher)
        ensures
            r@ == self@.files_to_include,
    {
        &self.files_to_include
    }

    pub fn files_to_exclude(&self) -> (r: &PathMatcher)
        ensures
            r@ == self@.files_to_exclude,
    {
        &self.files_to_exclude
    }

    pub fn buffers(&self) -> (r: &Option<Vec<BufferId>>)
        ensures
            self@.buffers == match *r {
                Some(b) => Some(b@),
                None => None,
            },
    {
        &self.buffers
    }
}

/// A search query. A regex query keeps the expression it searches with, which for a
/// whole-word query carries word-boundary anchors that the query as typed lacks.
#[derive(Debug)]
pub enum SearchQuery {
    Text {
        replacement: Option<String>,
        whole_word: bool,
        case_sensitive: bool,
        include_ignored: bool,
        inner: SearchInputs,
    },
    Regex {
        regex: String,
        replacement: Option<String>,
        multiline: bool,
        whole_word: bool,
        case_sensitive: bool,
        include_ignored: bool,
        inner: SearchInputs,
    },
}

/// Whether `c` counts as part of a word.
pub open spec fn word_char(c: char) -> bool {
    alphanumeric(c) || c == '_'
}

/// Whether the range `[s, e)` of `t` is a whole word: it neither continues a word
/// across its start nor across its end.
pub open spec fn whole_word_at(t: Seq<char>, s: int, e: int) -> bool {
    &&& !(0 < s < t.len() && word_char(t[s - 1]) && word_char(t[s]))
    &&& !(0 < e < t.len() && word_char(t[e - 1]) && word_char(t[e]))
}

/// Byte ranges of `t`, as character ranges; a range whose ends do not fall on
/// character boundaries is dropped.
pub open spec fn char_ranges(t: Seq<char>, m: Seq<(usize, usize)>) -> Seq<(usize, usize)>
    decreases m.len(),
{
    if m.len() == 0 {
        Seq::empty()
    } else {
        let r = char_ranges(t, m.drop_last());
        match (char_at_byte(t, m.last().0 as int), char_at_byte(t, m.last().1 as int)) {
            (Some(a), Some(b)) => r.push((a as usize, b as usize)),
            _ => r,
        }
    }
}

/// The ranges that are whole words of `t`.
pub open spec fn whole_words(t: Seq<char>, m: Seq<(usize, usize)>) -> Seq<(usize, usize)>
    decreases m.len(),
{
    if m.len() == 0 {
        Seq::empty()
    } else {
        let r = whole_words(t, m.drop_last());
        if whole_word_at(t, m.last().0 as int, m.last().1 as int) {
            r.push(m.last())
        } else {
            r
        }
    }
}

/// The character ranges of a text search for one literal in `t`.
pub open spec fn text_search(q: Seq<char>, case_sensitive: bool, whole_word: bool, t: Seq<char>) -> Seq<
    (usize, usize),
> {
    if !literal_search_ok(q, !case_sensitive) {
        Seq::empty()
    } else {
        let c = char_ranges(t, literal_matches(q, !case_sensitive, t));
        if whole_word {
            whole_words(t, c)
        } else {
            c
        }
    }
}

/// The offset of the first newline in `t`, or its length when it has none.
pub open spec fn first_newline(t: Seq<char>) -> int
    decreases t.len(),
{
    if t.len() == 0 || t[0] == '\n' {
        0
    } else {
        1 + first_newline(t.drop_first())
    }
}

pub open spec fn shifted(m: Seq<(usize, usize)>, d: int) -> Seq<(usize, usize)> {
    m.map_values(|p: (usize, usize)| ((p.0 + d) as usize, (p.1 + d) as usize))
}

/// The matches of a regex in each line of `t`, which starts at `offset` in the text
/// searched, as character ranges of that text.
pub open spec fn line_matches(p: Seq<char>, ci: bool, t: Seq<char>, offset: int) -> Seq<(usize, usize)>
    decreases t.len(),
{
    let n = first_newline(t);
    let line = t.take(n);
    let here = shifted(char_ranges(line, regex_matches(p, ci, line)), offset);
    if 0 <= n < t.len() {
        here + line_matches(p, ci, t.skip(n + 1), offset + n + 1)
    } else {
        here
    }
}

/// The character ranges of a regex search in `t`: over the whole text in multiline
/// mode, else line by line.
pub open spec fn regex_search(p: Seq<char>, case_sensitive: bool, multiline: bool, t: Seq<char>) -> Seq<
    (usize, usize),
> {
    if !regex_compiles(p, !case_sensitive) {
        Seq::empty()
    } else if multiline {
        char_ranges(t, regex_matches(p, !case_sensitive, t))
    } else {
        line_matches(p, !case_sensitive, t, 0)
    }
}

/// Whether a whole-word query needs a word-boundary anchor beside the character `c`:
/// when `c` takes one byte and is itself a word character, as the expression `\B`
/// tells by not matching it.
pub open spec fn needs_boundary(c: char) -> bool {
    (c as u32) < 0x80 && ascii_word(c)
}

/// The expression a regex query searches with.
pub open spec fn regex_source(q: Seq<char>, whole_word: bool) -> Seq<char> {
    if whole_word && q.len() > 0 {
        whole_word_source_spec(q, needs_boundary(q[0]), needs_boundary(q.last()))
    } else {
        q
    }
}

pub open spec fn whole_word_source_spec(q: Seq<char>, at_start: bool, at_end: bool) -> Seq<char> {
    (if at_start {
        seq!['\\', 'b']
    } else {
        Seq::empty()
    }) + q + (if at_end {
        seq!['\\', 'b']
    } else {
        Seq::empty()
    })
}

pub open spec fn has_pair(s: Seq<char>, a: char, b: char) -> bool {
    exists|i: int| 0 <= i < s.len() - 1 && s[i] == a && #[trigger] s[i + 1] == b
}

/// Whether an expression can match across lines: it holds a newline, or the escapes
/// `\n` or `\s`.
pub open spec fn is_multiline(s: Seq<char>) -> bool {
    s.contains('\n') || has_pair(s, '\\', 'n') || has_pair(s, '\\', 's')
}

/// The replacement template with the escapes `\\`, `\n` and `\t` expanded, and each
/// group reference `\N` (one digit) written as `${N}`, from left to right.
pub open spec fn expand_escapes_spec(t: Seq<char>) -> Seq<char>
    decreases t.len(),
{
    if t.len() >= 2 && t[0] == '\\' && '0' <= t[1] && t[1] <= '9' {
        seq!['$', '{', t[1], '}'] + expand_escapes_spec(t.skip(2))
    } else if t.len() >= 2 && t[0] == '\\' && (t[1] == '\\' || t[1] == 'n' || t[1] == 't') {
        seq![
            if t[1] == '\\' {
                '\\'
            } else if t[1] == 'n' {
                '\n'
            } else {
                '\t'
            },
        ] + expand_escapes_spec(t.skip(2))
    } else if t.len() == 0 {
        Seq::empty()
    } else {
        seq![t[0]] + expand_escapes_spec(t.skip(1))
    }
}

/// Expands the escapes `\\`, `\n` and `\t` of a replacement template, and writes each
/// group reference `\N` as `${N}`, the form the regex replacement reads.
pub fn expand_escapes(template: &str) -> (r: String)
    ensures
        r@ == expand_escapes_spec(template@),
{
    let t = chars_of(template);
    let mut out = String::new();
    let mut i: usize = 0;
    assert(t@.skip(0) =~= t@);
    while i < t.len()
        invariant
            i <= t@.len(),
            t@ == template@,
            out@ + expand_escapes_spec(t@.skip(i as int)) == expand_escapes_spec(t@),
        decreases t@.len() - i,
    {
        let ghost rest = t@.skip(i as int);
        if i + 1 < t.len() && t[i] == '\\' && '0' <= t[i + 1] && t[i + 1] <= '9' {
            let d = t[i + 1];
            assert(rest[0] == t@[i as int] && rest[1] == t@[i + 1]);
            assert(rest.skip(2) =~= t@.skip(i + 2));
            let ghost before = out@;
            push_char(&mut out, '$');
            push_char(&mut out, '{');
            push_char(&mut out, d);
            push_char(&mut out, '}');
            i += 2;
            assert(out@ =~= before + seq!['$', '{', d, '}']);
            assert(out@ + expand_escapes_spec(t@.skip(i as int)) =~= before + (seq!['$', '{', d, '}']
                + expand_escapes_spec(t@.skip(i as int))));
        } else if i + 1 < t.len() && t[i] == '\\' && (t[i + 1] == '\\' || t[i + 1] == 'n' || t[i + 1] == 't') {
            let c = if t[i + 1] == '\\' {
                '\\'
            } else if t[i + 1] == 'n' {
                '\n'
            } else {
                '\t'
            };
            assert(rest[0] == t@[i as int] && rest[1] == t@[i + 1]);
            assert(rest.skip(2) =~= t@.skip(i + 2));
            push_char(&mut out, c);
            i += 2;
            assert(out@ + expand_escapes_spec(t@.skip(i as int)) =~= (out@.drop_last() + seq![c])
                + expand_escapes_spec(t@.skip(i as int)));
        } else {
            assert(rest[0] == t@[i as int]);
            if i + 1 < t.len() {
                assert(rest[1] == t@[i + 1]);
            }
            assert(rest.skip(1) =~= t@.skip(i + 1));
            push_char(&mut out, t[i]);
            i += 1;
        }
    }
    assert(t@.skip(i as int) =~= Seq::<char>::empty());
    assert(out@ + Seq::<char>::empty() =~= out@);
    out
}

/// The expression of a whole-word regex query, given whether each end of the query
/// needs a word-boundary anchor.
pub fn whole_word_source(query: &str, at_start: bool, at_end: bool) -> (r: String)
    ensures
        r@ == whole_word_source_spec(query@, at_start, at_end),
{
    let q = chars_of(query);
    let mut out = String::new();
    if at_start {
        push_char(&mut out, '\\');
        push_char(&mut out, 'b');
    }
    let ghost head = out@;
    let mut i: usize = 0;
    while i < q.len()
        invariant
            i <= q@.len(),
            out@ == head + q@.take(i as int),
        decreases q@.len() - i,
    {
        push_char(&mut out, q[i]);
        i += 1;
        assert(out@ =~= head + q@.take(i as int));
    }
    assert(q@.take(i as int) =~= query@);
    if at_end {
        push_char(&mut out, '\\');
        push_char(&mut out, 'b');
    }
    assert(out@ =~= whole_word_source_spec(query@, at_start, at_end));
    out
}

/// Whether a word-boundary anchor is needed beside `c`.
fn boundary_needed(c: char) -> (r: bool)
    ensures
        r == needs_boundary(c),
{
    if (c as u32) >= 0x80 {
        return false;
    }
    let mut s = String::new();
    push_char(&mut s, c);
    assert(s@ =~= seq![c]);
    match has_non_boundary(s.as_str()) {
        Some(false) => true,
        _ => false,
    }
}

/// Whether `s` can match across lines.
pub fn detect_multiline(s: &str) -> (r: bool)
    ensures
        r == is_multiline(s@),
{
    let v = chars_of(s);
    let mut i: usize = 0;
    while i < v.len()
        invariant
            i <= v@.len(),
            v@ == s@,
            forall|j: int| 0 <= j < i ==> v@[j] != '\n',
            forall|j: int| 0 <= j < i && j + 1 < v@.len() ==> !(v@[j] == '\\' && #[trigger] v@[j + 1] == 'n'),
            forall|j: int| 0 <= j < i && j + 1 < v@.len() ==> !(v@[j] == '\\' && #[trigger] v@[j + 1] == 's'),
        decreases v@.len() - i,
    {
        if v[i] == '\n' {
            return true;
        }
        if i + 1 < v.len() && v[i] == '\\' && (v[i + 1] == 'n' || v[i + 1] == 's') {
            return true;
        }
        i += 1;
    }
    proof {
        if v@.contains('\n') {
            let j = choose|j: int| 0 <= j < v@.len() && v@[j] == '\n';
        }
    }
    false
}

/// Character ranges of `t` for byte ranges of its encoding; ranges that do not fall
/// on character boundaries are dropped.
fn to_char_ranges(t: &Vec<char>, m: &Vec<(usize, usize)>) -> (r: Vec<(usize, usize)>)
    ensures
        r@ == char_ranges(t@, m@),
        forall|i: int| 0 <= i < r@.len() ==> (#[trigger] r@[i]).0 <= t@.len() && r@[i].1 <= t@.len(),
{
    let mut r: Vec<(usize, usize)> = Vec::new();
    let mut k: usize = 0;
    let mut bytes: usize = 0;
    let mut i: usize = 0;
    assert(t@.take(0) =~= Seq::<char>::empty());
    assert(vstd::utf8::encode_utf8(Seq::<char>::empty()) =~= Seq::<u8>::empty());
    assert(m@.take(0) =~= Seq::<(usize, usize)>::empty());
    while i < m.len()
        invariant
            i <= m@.len(),
            k <= t@.len(),
            bytes == crate::utf8_offsets::byte_len(t@.take(k as int)),
            r@ == char_ranges(t@, m@.take(i as int)),
            forall|j: int| 0 <= j < r@.len() ==> (#[trigger] r@[j]).0 <= t@.len() && r@[j].1 <= t@.len(),
        decreases m@.len() - i,
    {
        let (bs, be) = m[i];
        assert(m@.take(i + 1).drop_last() =~= m@.take(i as int));
        assert(m@.take(i + 1).last() == m@[i as int]);
        let a = char_offset_of_byte(t, &mut k, &mut bytes, bs);
        let b = char_offset_of_byte(t, &mut k, &mut bytes, be);
        match (a, b) {
            (Some(a), Some(b)) => {
                r.push((a, b));
            },
            _ => {},
        }
        i += 1;
    }
    assert(m@.take(i as int) =~= m@);
    r
}

/// The ranges that are whole words of `t`.
fn keep_whole_words(t: &Vec<char>, m: &Vec<(usize, usize)>) -> (r: Vec<(usize, usize)>)
    ensures
        r@ == whole_words(t@, m@),
        (forall|j: int| 0 <= j < m@.len() ==> (#[trigger] m@[j]).0 <= t@.len() && m@[j].1 <= t@.len())
            ==> forall|i: int| 0 <= i < r@.len() ==> (#[trigger] r@[i]).0 <= t@.len() && r@[i].1 <= t@.len(),
{
    let mut r: Vec<(usize, usize)> = Vec::new();
    let mut i: usize = 0;
    assert(m@.take(0) =~= Seq::<(usize, usize)>::empty());
    while i < m.len()
        invariant
            i <= m@.len(),
            r@ == whole_words(t@, m@.take(i as int)),
            (forall|j: int| 0 <= j < m@.len() ==> (#[trigger] m@[j]).0 <= t@.len() && m@[j].1 <= t@.len())
                ==> forall|x: int| 0 <= x < r@.len() ==> (#[trigger] r@[x]).0 <= t@.len() && r@[x].1 <= t@.len(),
        decreases m@.len() - i,
    {
        let (s, e) = m[i];
        assert(m@.take(i + 1).drop_last() =~= m@.take(i as int));
        assert(m@.take(i + 1).last() == m@[i as int]);
        let across_start = 0 < s && s < t.len() && is_word_char(t[s - 1]) && is_word_char(t[s]);
        let across_end = 0 < e && e < t.len() && is_word_char(t[e - 1]) && is_word_char(t[e]);
        if !across_start && !across_end {
            r.push((s, e));
        }
        i += 1;
    }
    assert(m@.take(i as int) =~= m@);
    r
}

fn is_word_char(c: char) -> (r: bool)
    ensures
        r == word_char(c),
{
    c == '_' || is_alphanumeric(c)
}

/// The matches of a text query in `text`, given the byte ranges that the literal
/// search reported: as character ranges, and only the whole words when asked.
pub fn literal_matches_in(text: &str, byte_ranges: &Vec<(usize, usize)>, whole_word: bool) -> (r:
    Vec<(usize, usize)>)
    ensures
        r@ == if whole_word {
            whole_words(text@, char_ranges(text@, byte_ranges@))
        } else {
            char_ranges(text@, byte_ranges@)
        },
{
    let t = chars_of(text);
    let c = to_char_ranges(&t, byte_ranges);
    if whole_word {
        keep_whole_words(&t, &c)
    } else {
        c
    }
}

proof fn lemma_first_newline(t: Seq<char>, n: int)
    requires
        0 <= n <= t.len(),
        forall|k: int| 0 <= k < n ==> t[k] != '\n',
        n == t.len() || t[n] == '\n',
    ensures
        first_newline(t) == n,
    decreases n,
{
    if n > 0 {
        lemma_first_newline(t.drop_first(), n - 1);
    }
}

/// A copy of `v[from..to]`.
fn sub_vec(v: &Vec<char>, from: usize, to: usize) -> (r: Vec<char>)
    requires
        from <= to <= v@.len(),
    ensures
        r@ == v@.subrange(from as int, to as int),
{
    let mut r: Vec<char> = Vec::new();
    let mut i = from;
    while i < to
        invariant
            from <= i <= to <= v@.len(),
            r@ == v@.subrange(from as int, i as int),
        decreases to - i,
    {
        r.push(v[i]);
        i += 1;
        assert(r@ =~= v@.subrange(from as int, i as int));
    }
    r
}

/// Searches `t` line by line.
fn search_lines(pattern: &str, case_insensitive: bool, t: &Vec<char>) -> (r: Vec<(usize, usize)>)
    requires
        regex_compiles(pattern@, case_insensitive),
    ensures
        r@ == line_matches(pattern@, case_insensitive, t@, 0),
        forall|i: int| 0 <= i < r@.len() ==> (#[trigger] r@[i]).0 <= t@.len() && r@[i].1 <= t@.len(),
{
    let mut out: Vec<(usize, usize)> = Vec::new();
    let mut start: usize = 0;
    assert(t@.skip(0) =~= t@);
    loop
        invariant
            start <= t@.len(),
            regex_compiles(pattern@, case_insensitive),
            out@ + line_matches(pattern@, case_insensitive, t@.skip(start as int), start as int)
                == line_matches(pattern@, case_insensitive, t@, 0),
            forall|i: int| 0 <= i < out@.len() ==> (#[trigger] out@[i]).0 <= t@.len() && out@[i].1 <= t@.len(),
        decreases t@.len() - start,
    {
        let mut j = start;
        while j < t.len() && t[j] != '\n'
            invariant
                start <= j <= t@.len(),
                forall|k: int| start <= k < j ==> t@[k] != '\n',
            decreases t@.len() - j,
        {
            j += 1;
        }
        let ghost rest = t@.skip(start as int);
        proof {
            lemma_first_newline(rest, j - start);
            assert(rest.take(j - start) =~= t@.subrange(start as int, j as int));
        }
        let line = string_of(t, start, j);
        let line_chars = sub_vec(t, start, j);
        let found = find_regex(pattern, case_insensitive, line.as_str());
        let ranges = match found {
            Some(v) => v,
            None => Vec::new(),
        };
        let conv = to_char_ranges(&line_chars, &ranges);
        let ghost before = out@;
        let mut k: usize = 0;
        while k < conv.len()
            invariant
                k <= conv@.len(),
                start <= j <= t@.len(),
                forall|x: int| 0 <= x < conv@.len() ==> (#[trigger] conv@[x]).0 <= j - start && conv@[x].1 <= j - start,
                out@ == before + shifted(conv@.take(k as int), start as int),
                forall|x: int| 0 <= x < out@.len() ==> (#[trigger] out@[x]).0 <= t@.len() && out@[x].1 <= t@.len(),
            decreases conv@.len() - k,
        {
            let (a, b) = conv[k];
            out.push((a + start, b + start));
            k += 1;
            assert(out@ =~= before + shifted(conv@.take(k as int), start as int));
        }
        assert(conv@.take(k as int) =~= conv@);
        if j >= t.len() {
            assert(line_matches(pattern@, case_insensitive, rest, start as int) == shifted(conv@, start as int));
            assert(out@ + Seq::<(usize, usize)>::empty() =~= out@);
            proof {
                assert(t@.skip(j as int) =~= Seq::<char>::empty());
            }
            return out;
        }
        assert(rest.skip(j - start + 1) =~= t@.skip(j + 1));
        assert(before + (shifted(conv@, start as int) + line_matches(pattern@, case_insensitive, t@.skip(j + 1), j + 1)) =~= out@ + line_matches(pattern@, case_insensitive, t@.skip(j + 1), j + 1));
        start = j + 1;
    }
}

impl SearchQuery {
    /// A query for one literal text.
    pub fn text(
        query: &str,
        whole_word: bool,
        case_sensitive: bool,
        include_ignored: bool,
        files_to_include: PathMatcher,
        files_to_exclude: PathMatcher,
        buffers: Option<Vec<BufferId>>,
    ) -> (r: Result<SearchQuery, SearchQueryError>)
        ensures
            r is Ok <==> literal_search_ok(query@, !case_sensitive),
            r is Err ==> r == Err::<SearchQuery, SearchQueryError>(SearchQueryError::InvalidText),
            r matches Ok(q) ==> q is Text && q.replacement_spec() is None && q.whole_word_spec() == whole_word
                && q.case_sensitive_spec() == case_sensitive && q.include_ignored_spec() == include_ignored
                && q.inner_spec()@ == (SearchInputsModel {
                    query: query@,
                    files_to_include: files_to_include@,
                    files_to_exclude: files_to_exclude@,
                    buffers: match buffers {
                        Some(b) => Some(b@),
                        None => None,
                    },
                }),
    {
        // Building the automaton is what can fail; a search of the empty text builds it.
        match find_literal(query, !case_sensitive, "") {
            Some(_) => {},
            None => return Err(SearchQueryError::InvalidText),
        }
        let inner = SearchInputs { query: query.to_owned(), files_to_include, files_to_exclude, buffers };
        Ok(SearchQuery::Text { replacement: None, whole_word, case_sensitive, include_ignored, inner })
    }

    /// A query for a regular expression; a whole-word query gets word-boundary anchors
    /// at the ends that need them.
    pub fn regex(
        query: &str,
        whole_word: bool,
        case_sensitive: bool,
        include_ignored: bool,
        files_to_include: PathMatcher,
        files_to_exclude: PathMatcher,
        buffers: Option<Vec<BufferId>>,
    ) -> (r: Result<SearchQuery, SearchQueryError>)
        ensures
            r is Ok <==> regex_compiles(regex_source(query@, whole_word), !case_sensitive),
            r is Err ==> r == Err::<SearchQuery, SearchQueryError>(SearchQueryError::InvalidRegex),
            r matches Ok(q) ==> q matches SearchQuery::Regex { regex, multiline, .. } && regex@
                == regex_source(query@, whole_word) && multiline == is_multiline(regex@)
                && q.replacement_spec() is None && q.whole_word_spec() == whole_word
                && q.case_sensitive_spec() == case_sensitive && q.include_ignored_spec() == include_ignored
                && q.inner_spec()@ == (SearchInputsModel {
                    query: query@,
                    files_to_include: files_to_include@,
                    files_to_exclude: files_to_exclude@,
                    buffers: match buffers {
                        Some(b) => Some(b@),
                        None => None,
                    },
                }),
    {
        let q = chars_of(query);
        let regex = if whole_word && q.len() > 0 {
            let at_start = boundary_needed(q[0]);
            let at_end = boundary_needed(q[q.len() - 1]);
            whole_word_source(query, at_start, at_end)
        } else {
            query.to_owned()
        };
        let multiline = detect_multiline(regex.as_str());
        match check_regex(regex.as_str(), !case_sensitive) {
            Ok(()) => {},
            Err(_) => return Err(SearchQueryError::InvalidRegex),
        }
        let inner = SearchInputs { query: query.to_owned(), files_to_include, files_to_exclude, buffers };
        Ok(
            SearchQuery::Regex {
                regex,
                replacement: None,
                multiline,
                whole_word,
                case_sensitive,
                include_ignored,
                inner,
            },
        )
    }

    pub open spec fn replacement_spec(&self) -> Option<Seq<char>> {
        match self {
            SearchQuery::Text { replacement, .. } | SearchQuery::Regex { replacement, .. } => match replacement {
                Some(r) => Some(r@),
                None => None,
            },
        }
    }

    pub open spec fn whole_word_spec(&self) -> bool {
        match self {
            SearchQuery::Text { whole_word, .. } | SearchQuery::Regex { whole_word, .. } => *whole_word,
        }
    }

    pub open spec fn case_sensitive_spec(&self) -> bool {
        match self {
            SearchQuery::Text { case_sensitive, .. } | SearchQuery::Regex { case_sensitive, .. } => *case_sensitive,
        }
    }

    pub open spec fn include_ignored_spec(&self) -> bool {
        match self {
            SearchQuery::Text { include_ignored, .. } | SearchQuery::Regex { include_ignored, .. } => *include_ignored,
        }
    }

    pub open spec fn inner_spec(&self) -> SearchInputs {
        match self {
            SearchQuery::Text { inner, .. } | SearchQuery::Regex { inner, .. } => *inner,
        }
    }

    /// The same query, with a replacement text.
    pub fn with_replacement(self, new_replacement: String) -> (r: SearchQuery)
        ensures
            r.replacement_spec() == Some(new_replacement@),
            r.whole_word_spec() == self.whole_word_spec(),
            r.case_sensitive_spec() == self.case_sensitive_spec(),
            r.include_ignored_spec() == self.include_ignored_spec(),
            r.inner_spec() == self.inner_spec(),
            r is Text <==> self is Text,
            self matches SearchQuery::Regex { regex, multiline, .. } ==> r matches SearchQuery::Regex {
                regex: r2,
                multiline: m2,
                ..
            } && r2 == regex && m2 == multiline,
    {
        match self {
            SearchQuery::Text { whole_word, case_sensitive, include_ignored, inner, .. } => SearchQuery::Text {
                replacement: Some(new_replacement),
                whole_word,
                case_sensitive,
                include_ignored,
                inner,
            },
            SearchQuery::Regex { regex, multiline, whole_word, case_sensitive, include_ignored, inner, .. } => {
                SearchQuery::Regex {
                    regex,
                    replacement: Some(new_replacement),
                    multiline,
                    whole_word,
                    case_sensitive,
                    include_ignored,
                    inner,
                }
            },
        }
    }

    /// The replacement text of this query.
    pub fn replacement(&self) -> (r: Option<&str>)
        ensures
            match r {
                Some(s) => self.replacement_spec() == Some(s@),
                None => self.replacement_spec() is None,
            },
    {
        match self {
            SearchQuery::Text { replacement, .. } | SearchQuery::Regex { replacement, .. } => match replacement {
                Some(r) => Some(r.as_str()),
                None => None,
            },
        }
    }

    /// The text that replaces a match, `text`, of this query: a text query's
    /// replacement as it is; for a regex query, the replacement with its escapes
    /// expanded, then its capture groups filled from `text`. `None` without a
    /// replacement, or when the regex search fails at run time.
    pub fn replacement_for(&self, text: &str) -> (r: Option<String>)
        ensures
            match self {
                SearchQuery::Text { replacement, .. } => match replacement {
                    Some(rep) => r matches Some(s) && s@ == rep@,
                    None => r is None,
                },
                SearchQuery::Regex { regex, replacement, case_sensitive, .. } => match replacement {
                    Some(rep) => if regex_compiles(regex@, !*case_sensitive) {
                        match regex_replacement(regex@, !*case_sensitive, text@, expand_escapes_spec(rep@)) {
                            Some(t) => r matches Some(s) && s@ == t,
                            None => r is None,
                        }
                    } else {
                        r is None
                    },
                    None => r is None,
                },
            },
    {
        match self {
            SearchQuery::Text { replacement, .. } => match replacement {
                Some(rep) => Some(rep.clone()),
                None => None,
            },
            SearchQuery::Regex { regex, replacement, case_sensitive, .. } => match replacement {
                Some(rep) => {
                    let template = expand_escapes(rep.as_str());
                    replace_first(regex.as_str(), !*case_sensitive, text, template.as_str())
                },
                None => None,
            },
        }
    }

    /// The matches of this query in `text`, or in `text[start..end]` when a subrange is
    /// given, as character ranges of the part searched. An empty query matches nothing.
    pub fn search(&self, text: &str, subrange: Option<(usize, usize)>) -> (r: Vec<(usize, usize)>)
        requires
            subrange matches Some((s, e)) ==> s <= e <= text@.len(),
        ensures
            r@ == search_result(
                *self,
                match subrange {
                    Some((s, e)) => text@.subrange(s as int, e as int),
                    None => text@,
                },
            ),
            forall|i: int|
                0 <= i < r@.len() ==> (#[trigger] r@[i]).0 <= (match subrange {
                    Some((s, e)) => e - s,
                    None => text@.len() as int,
                }) && r@[i].1 <= (match subrange {
                    Some((s, e)) => e - s,
                    None => text@.len() as int,
                }),
    {
        if self.is_empty() {
            return Vec::new();
        }
        let all = chars_of(text);
        let (s, e) = match subrange {
            Some((s, e)) => (s, e),
            None => (0, all.len()),
        };
        assert(all@.subrange(0, all@.len() as int) =~= all@);
        let t = sub_vec(&all, s, e);
        let slice = string_of(&all, s, e);
        match self {
            SearchQuery::Text { whole_word, case_sensitive, inner, .. } => {
                match find_literal(inner.as_str(), !*case_sensitive, slice.as_str()) {
                    Some(found) => {
                        let c = to_char_ranges(&t, &found);
                        if *whole_word {
                            keep_whole_words(&t, &c)
                        } else {
                            c
                        }
                    },
                    None => Vec::new(),
                }
            },
            SearchQuery::Regex { regex, multiline, case_sensitive, .. } => {
                if *multiline {
                    match find_regex(regex.as_str(), !*case_sensitive, slice.as_str()) {
                        Some(found) => to_char_ranges(&t, &found),
                        None => Vec::new(),
                    }
                } else {
                    match check_regex(regex.as_str(), !*case_sensitive) {
                        Ok(()) => search_lines(regex.as_str(), !*case_sensitive, &t),
                        Err(_) => Vec::new(),
                    }
                }
            },
        }
    }


    /// Whether this query matches anywhere in `text`. A text query does not apply its
    /// whole-word option here. An empty query matches nothing.
    pub fn detect(&self, text: &str) -> (r: bool)
        ensures
            r == if self.inner_spec()@.query.len() == 0 {
                false
            } else {
                match self {
                    SearchQuery::Text { case_sensitive, inner, .. } => literal_search_ok(inner@.query, !*case_sensitive)
                        && literal_matches(inner@.query, !*case_sensitive, text@).len() > 0,
                    SearchQuery::Regex { regex, multiline, case_sensitive, .. } => regex_search(
                        regex@,
                        *case_sensitive,
                        *multiline,
                        text@,
                    ).len() > 0,
                }
            },
    {
        if self.is_empty() {
            return false;
        }
        match self {
            SearchQuery::Text { case_sensitive, inner, .. } => match find_literal(inner.as_str(), !*case_sensitive, text) {
                Some(found) => found.len() > 0,
                None => false,
            },
            SearchQuery::Regex { .. } => {
                assert(text@.subrange(0, text@.len() as int) =~= text@);
                self.search(text, Some((0, text.unicode_len()))).len() > 0
            },
        }
    }

    /// Whether a file at `path` passes the path filters: no exclusion glob matches, and
    /// an inclusion glob does (or there are none), looking at the path and then at each
    /// of its ancestors in turn.
    pub fn file_matches(&self, path: &str) -> (r: bool)
        ensures
            r == file_matches_spec(
                self.inner_spec()@.files_to_include,
                self.inner_spec()@.files_to_exclude,
                path@,
            ),
    {
        let inclusions = self.files_to_include();
        let exclusions = self.files_to_exclude();
        let mut current = path.to_owned();
        loop
            invariant
                inclusions@ == self.inner_spec()@.files_to_include,
                exclusions@ == self.inner_spec()@.files_to_exclude,
                file_matches_spec(inclusions@, exclusions@, current@) == file_matches_spec(inclusions@, exclusions@, path@),
            decreases current@.len(),
        {
            if exclusions.is_match(current.as_str()) {
                return false;
            } else if inclusions.sources().len() == 0 || inclusions.is_match(current.as_str()) {
                return true;
            } else {
                match path_parent(current.as_str()) {
                    Some(parent) => {
                        current = parent;
                    },
                    None => return false,
                }
            }
        }
    }

    /// The wire form of this query.
    pub fn to_proto(&self) -> (r: SearchQueryWire)
        ensures
            r.query@ == self.inner_spec()@.query,
            r.regex == self is Regex,
            r.whole_word == self.whole_word_spec(),
            r.case_sensitive == self.case_sensitive_spec(),
            r.include_ignored == self.include_ignored_spec(),
            r.files_to_include@ == join_commas(self.inner_spec()@.files_to_include),
            r.files_to_exclude@ == join_commas(self.inner_spec()@.files_to_exclude),
    {
        SearchQueryWire {
            query: self.as_str().to_owned(),
            regex: self.is_regex(),
            whole_word: self.whole_word(),
            case_sensitive: self.case_sensitive(),
            include_ignored: self.include_ignored(),
            files_to_include: join_sources(self.files_to_include()),
            files_to_exclude: join_sources(self.files_to_exclude()),
        }
    }

    /// A query from its wire form; a query received this way searches every buffer,
    /// not only open ones.
    pub fn from_proto(message: &SearchQueryWire) -> (r: Result<SearchQuery, SearchQueryError>)
        ensures
            r is Ok <==> ({
                &&& message.files_to_include@.len() < MAX_GLOB_CHARS
                &&& message.files_to_exclude@.len() < MAX_GLOB_CHARS
                &&& forall|i: int| 0 <= i < glob_list(message.files_to_include@).len()
                    ==> valid_glob(#[trigger] glob_list(message.files_to_include@)[i])
                &&& forall|i: int| 0 <= i < glob_list(message.files_to_exclude@).len()
                    ==> valid_glob(#[trigger] glob_list(message.files_to_exclude@)[i])
                &&& if message.regex {
                    regex_compiles(regex_source(message.query@, message.whole_word), !message.case_sensitive)
                } else {
                    literal_search_ok(message.query@, !message.case_sensitive)
                }
            }),
            r matches Ok(q) ==> {
                &&& q is Regex == message.regex
                &&& q.whole_word_spec() == message.whole_word
                &&& q.case_sensitive_spec() == message.case_sensitive
                &&& q.include_ignored_spec() == message.include_ignored
                &&& q.inner_spec()@.query == message.query@
                &&& q.inner_spec()@.files_to_include == glob_list(message.files_to_include@)
                &&& q.inner_spec()@.files_to_exclude == glob_list(message.files_to_exclude@)
                &&& q.inner_spec()@.buffers is None
            },
    {
        // Filters too long for the glob engine are refused like invalid ones.
        if message.files_to_include.unicode_len() >= MAX_GLOB_CHARS
            || message.files_to_exclude.unicode_len() >= MAX_GLOB_CHARS {
            return Err(SearchQueryError::InvalidGlob);
        }
        let inclusions = match deserialize_path_matches(message.files_to_include.as_str()) {
            Ok(m) => m,
            Err(_) => return Err(SearchQueryError::InvalidGlob),
        };
        let exclusions = match deserialize_path_matches(message.files_to_exclude.as_str()) {
            Ok(m) => m,
            Err(_) => return Err(SearchQueryError::InvalidGlob),
        };
        if message.regex {
            SearchQuery::regex(
                message.query.as_str(),
                message.whole_word,
                message.case_sensitive,
                message.include_ignored,
                inclusions,
                exclusions,
                None,
            )
        } else {
            SearchQuery::text(
                message.query.as_str(),
                message.whole_word,
                message.case_sensitive,
                message.include_ignored,
                inclusions,
                exclusions,
                None,
            )
        }
    }

    pub fn is_empty(&self) -> (r: bool)
        ensures
            r == (self.inner_spec()@.query.len() == 0),
    {
        self.as_str().unicode_len() == 0
    }

    /// The query as typed.
    pub fn as_str(&self) -> (r: &str)
        ensures
            r@ == self.inner_spec()@.query,
    {
        self.as_inner().as_str()
    }

    pub fn whole_word(&self) -> (r: bool)
        ensures
            r == self.whole_word_spec(),
    {
        match self {
            SearchQuery::Text { whole_word, .. } => *whole_word,
            SearchQuery::Regex { whole_word, .. } => *whole_word,
        }
    }

    pub fn case_sensitive(&self) -> (r: bool)
        ensures
            r == self.case_sensitive_spec(),
    {
        match self {
            SearchQuery::Text { case_sensitive, .. } => *case_sensitive,
            SearchQuery::Regex { case_sensitive, .. } => *case_sensitive,
        }
    }

    pub fn include_ignored(&self) -> (r: bool)
        ensures
            r == self.include_ignored_spec(),
    {
        match self {
            SearchQuery::Text { include_ignored, .. } => *include_ignored,
            SearchQuery::Regex { include_ignored, .. } => *include_ignored,
        }
    }

    pub fn is_regex(&self) -> (r: bool)
        ensures
            r == self is Regex,
    {
        matches!(self, SearchQuery::Regex { .. })
    }

    pub fn files_to_include(&self) -> (r: &PathMatcher)
        ensures
            r@ == self.inner_spec()@.files_to_include,
    {
        self.as_inner().files_to_include()
    }

    pub fn files_to_exclude(&self) -> (r: &PathMatcher)
        ensures
            r@ == self.inner_spec()@.files_to_exclude,
    {
        self.as_inner().files_to_exclude()
    }

    pub fn buffers(&self) -> (r: Option<&Vec<BufferId>>)
        ensures
            self.inner_spec()@.buffers == match r {
                Some(b) => Some(b@),
                None => None,
            },
    {
        match self.as_inner().buffers() {
            Some(b) => Some(b),
            None => None,
        }
    }

    /// Whether the search is limited to open buffers.
    pub fn is_opened_only(&self) -> (r: bool)
        ensures
            r == self.inner_spec()@.buffers is Some,
    {
        self.as_inner().buffers().is_some()
    }

    /// Whether the query filters paths at all.
    pub fn filters_path(&self) -> (r: bool)
        ensures
            r == !(self.inner_spec()@.files_to_exclude.len() == 0
                && self.inner_spec()@.files_to_include.len() == 0),
    {
        !(self.files_to_exclude().sources().len() == 0 && self.files_to_include().sources().len() == 0)
    }

    pub fn as_inner(&self) -> (r: &SearchInputs)
        ensures
            *r == self.inner_spec(),
    {
        match self {
            SearchQuery::Regex { inner, .. } | SearchQuery::Text { inner, .. } => inner,
        }
    }
}



/// The matches of a query in `t`, as character ranges; an empty query matches nothing.
pub open spec fn search_result(q: SearchQuery, t: Seq<char>) -> Seq<(usize, usize)> {
    if q.inner_spec()@.query.len() == 0 {
        Seq::empty()
    } else {
        match q {
            SearchQuery::Text { whole_word, case_sensitive, inner, .. } => text_search(
                inner@.query,
                case_sensitive,
                whole_word,
                t,
            ),
            SearchQuery::Regex { regex, multiline, case_sensitive, .. } => regex_search(
                regex@,
                case_sensitive,
                multiline,
                t,
            ),
        }
    }
}

/// The text of a buffer, by id.
#[derive(Clone, Debug)]
pub struct BufferText {
    pub id: BufferId,
    pub text: String,
}

/// The text of buffer `id` among `texts`: the first one listed.
pub open spec fn text_of(texts: Seq<BufferText>, id: BufferId) -> Option<Seq<char>>
    decreases texts.len(),
{
    if texts.len() == 0 {
        None
    } else if texts[0].id == id {
        Some(texts[0].text@)
    } else {
        text_of(texts.drop_first(), id)
    }
}

/// A match inside an excerpt, as a range of anchors: the start sticks to the text
/// after it and the end to the text before it.
pub open spec fn match_anchors(e: Excerpt, m: (usize, usize)) -> AnchorRange {
    let base = e.range.context.start;
    AnchorRange {
        start: Anchor {
            excerpt_id: e.id,
            buffer_id: Some(e.buffer_id),
            text_anchor: TextAnchor { version: base.version, offset: (base.offset + m.0) as u64, bias: Bias::Right },
        },
        end: Anchor {
            excerpt_id: e.id,
            buffer_id: Some(e.buffer_id),
            text_anchor: TextAnchor { version: base.version, offset: (base.offset + m.1) as u64, bias: Bias::Left },
        },
    }
}

/// The matches of a query in one excerpt: none when its buffer's text is not known or
/// does not hold the excerpt's context.
pub open spec fn excerpt_matches(q: SearchQuery, e: Excerpt, texts: Seq<BufferText>) -> Seq<AnchorRange> {
    match text_of(texts, e.buffer_id) {
        Some(t) => if e.range.context.start.offset <= e.range.context.end.offset <= t.len() {
            search_result(q, t.subrange(e.range.context.start.offset as int, e.range.context.end.offset as int)).map_values(
                |m: (usize, usize)| match_anchors(e, m),
            )
        } else {
            Seq::empty()
        },
        None => Seq::empty(),
    }
}

/// The matches of a query in each of the excerpts, in order.
pub open spec fn all_excerpt_matches(q: SearchQuery, v: Seq<Excerpt>, texts: Seq<BufferText>) -> Seq<AnchorRange>
    decreases v.len(),
{
    if v.len() == 0 {
        Seq::empty()
    } else {
        all_excerpt_matches(q, v.drop_last(), texts) + excerpt_matches(q, v.last(), texts)
    }
}

fn find_text<'a>(texts: &'a Vec<BufferText>, id: BufferId) -> (r: Option<&'a String>)
    ensures
        match text_of(texts@, id) {
            Some(t) => r matches Some(s) && s@ == t,
            None => r is None,
        },
{
    let mut i: usize = 0;
    assert(texts@.skip(0) =~= texts@);
    while i < texts.len()
        invariant
            i <= texts@.len(),
            text_of(texts@, id) == text_of(texts@.skip(i as int), id),
        decreases texts@.len() - i,
    {
        assert(texts@.skip(i as int)[0] == texts@[i as int]);
        assert(texts@.skip(i as int).drop_first() =~= texts@.skip(i + 1));
        if texts[i].id == id {
            return Some(&texts[i].text);
        }
        i += 1;
    }
    assert(texts@.skip(i as int) =~= Seq::<BufferText>::empty());
    None
}

impl SearchQuery {
    /// The matches of this query in every shown excerpt of `buffer`, in display order,
    /// as anchor ranges; `texts` holds the text of the excerpts' buffers.
    pub fn find_matches(&self, buffer: &MultiBuffer, texts: &Vec<BufferText>) -> (r: Vec<AnchorRange>)
        requires
            buffer@.wf(),
        ensures
            r@ == all_excerpt_matches(*self, buffer@.excerpts(), texts@),
    {
        let excerpts = buffer.excerpts();
        let mut out: Vec<AnchorRange> = Vec::new();
        let mut i: usize = 0;
        assert(excerpts@.take(0) =~= Seq::<Excerpt>::empty());
        while i < excerpts.len()
            invariant
                i <= excerpts@.len(),
                out@ == all_excerpt_matches(*self, excerpts@.take(i as int), texts@),
            decreases excerpts@.len() - i,
        {
            let e = excerpts[i];
            assert(excerpts@.take(i + 1).drop_last() =~= excerpts@.take(i as int));
            assert(excerpts@.take(i + 1).last() == e);
            let ghost before = out@;
            if let Some(text) = find_text(texts, e.buffer_id) {
                let start = e.range.context.start.offset;
                let end = e.range.context.end.offset;
                let len = text.unicode_len();
                if start <= end && end <= len as u64 {
                    let found = self.search(text.as_str(), Some((start as usize, end as usize)));
                    let mut k: usize = 0;
                    while k < found.len()
                        invariant
                            k <= found@.len(),
                            out@ == before + found@.take(k as int).map_values(|m: (usize, usize)| match_anchors(e, m)),
                            forall|x: int| 0 <= x < found@.len() ==> (#[trigger] found@[x]).0 <= end - start && found@[x].1 <= end - start,
                            start <= end,
                            start == e.range.context.start.offset,
                        decreases found@.len() - k,
                    {
                        let (ms, me) = found[k];
                        out.push(
                            AnchorRange {
                                start: Anchor {
                                    excerpt_id: e.id,
                                    buffer_id: Some(e.buffer_id),
                                    text_anchor: TextAnchor {
                                        version: e.range.context.start.version,
                                        offset: start + ms as u64,
                                        bias: Bias::Right,
                                    },
                                },
                                end: Anchor {
                                    excerpt_id: e.id,
                                    buffer_id: Some(e.buffer_id),
                                    text_anchor: TextAnchor {
                                        version: e.range.context.start.version,
                                        offset: start + me as u64,
                                        bias: Bias::Left,
                                    },
                                },
                            },
                        );
                        assert(found@[k as int] == (ms, me));
                        assert(out@.last() == match_anchors(e, found@[k as int]));
                        assert(found@.take(k + 1) =~= found@.take(k as int).push(found@[k as int]));
                        k += 1;
                        assert(out@ =~= before + found@.take(k as int).map_values(|m: (usize, usize)| match_anchors(e, m)));
                    }
                    assert(found@.take(k as int) =~= found@);
                }
            }
            i += 1;
        }
        assert(excerpts@.take(i as int) =~= excerpts@);
        out
    }
}

/// A search query on the wire.
#[derive(Clone, Debug)]
pub struct SearchQueryWire {
    pub query: String,
    pub regex: bool,
    pub whole_word: bool,
    pub case_sensitive: bool,
    pub include_ignored: bool,
    pub files_to_include: String,
    pub files_to_exclude: String,
}

/// Whether a file passes the path filters, looking at the path and then at each
/// ancestor in turn.
pub open spec fn file_matches_spec(inclusions: Seq<Seq<char>>, exclusions: Seq<Seq<char>>, path: Seq<char>) -> bool
    decreases path.len(),
{
    if matcher_matches(exclusions, path) {
        false
    } else if inclusions.len() == 0 || matcher_matches(inclusions, path) {
        true
    } else {
        match parent_of(path) {
            Some(p) => if p.len() < path.len() {
                file_matches_spec(inclusions, exclusions, p)
            } else {
                false
            },
            None => false,
        }
    }
}

/// The globs joined with commas.
pub open spec fn join_commas(g: Seq<Seq<char>>) -> Seq<char>
    decreases g.len(),
{
    if g.len() == 0 {
        Seq::empty()
    } else if g.len() == 1 {
        g[0]
    } else {
        join_commas(g.drop_last()) + seq![','] + g.last()
    }
}

fn join_sources(m: &PathMatcher) -> (r: String)
    ensures
        r@ == join_commas(m@),
{
    let sources = m.sources();
    let mut r = String::new();
    let mut i: usize = 0;
    while i < sources.len()
        invariant
            i <= sources@.len(),
            sources@.map_values(|s: String| s@) == m@,
            r@ == join_commas(m@.take(i as int)),
        decreases sources@.len() - i,
    {
        assert(m@.take(i + 1).drop_last() =~= m@.take(i as int));
        assert(m@.take(i + 1).last() == sources@[i as int]@);
        let ghost before = r@;
        if i > 0 {
            push_char(&mut r, ',');
        }
        let piece = chars_of(sources[i].as_str());
        let mut k: usize = 0;
        let ghost mid = r@;
        while k < piece.len()
            invariant
                k <= piece@.len(),
                r@ == mid + piece@.take(k as int),
            decreases piece@.len() - k,
        {
            push_char(&mut r, piece[k]);
            k += 1;
            assert(r@ =~= mid + piece@.take(k as int));
        }
        assert(piece@.take(k as int) =~= piece@);
        if i == 0 {
            assert(m@.take(1) =~= seq![m@[0]]);
            assert(r@ =~= join_commas(m@.take(1)));
        } else {
            assert(r@ =~= join_commas(m@.take(i + 1)));
        }
        i += 1;
    }
    assert(m@.take(i as int) =~= m@);
    r
}

/// Which way to move through the matches.
#[derive(Clone, Copy, Debug, PartialEq, Eq, Structural)]
pub enum Direction {
    Prev,
    Next,
}

/// The index `count` matches away from `current_index`, going round the ends. When the
/// view has one selection, `sole_cursor` is its head, and the first step is taken up
/// by the current match when the cursor lies before its start (going forward) or past
/// its end (going back).
pub fn match_index_for_direction(
    matches: &Vec<AnchorRange>,
    current_index: usize,
    direction: Direction,
    count: usize,
    sole_cursor: Option<Anchor>,
    buffer: &MultiBuffer,
) -> (r: usize)
    requires
        buffer@.wf(),
        current_index < matches@.len(),
    ensures
        r < matches@.len(),
        ({
            let n = matches@.len() as int;
            let position = match sole_cursor {
                Some(c) => c,
                None => matches@[current_index as int].start,
            };
            let c = count as int % n;
            let m = matches@[current_index as int];
            r == if c == 0 {
                current_index as int
            } else {
                match direction {
                    Direction::Next => {
                        let c2 = if anchor_cmp(buffer@, m.start, position) == Ordering::Greater { c - 1 } else { c };
                        (current_index + c2) % n
                    },
                    Direction::Prev => {
                        let c2 = if anchor_cmp(buffer@, m.end, position) == Ordering::Less { c - 1 } else { c };
                        if current_index >= c2 { current_index - c2 } else { n - (c2 - current_index) }
                    },
                }
            }
        }),
{
    let n = matches.len();
    let position = match sole_cursor {
        Some(c) => c,
        None => matches[current_index].start,
    };
    let mut count = count % n;
    if count == 0 {
        return current_index;
    }
    match direction {
        Direction::Next => {
            let after = match matches[current_index].start.cmp(&position, buffer) {
                Ordering::Greater => true,
                _ => false,
            };
            if after {
                count -= 1;
            }
            ((current_index as u128 + count as u128) % (n as u128)) as usize
        },
        Direction::Prev => {
            let before = match matches[current_index].end.cmp(&position, buffer) {
                Ordering::Less => true,
                _ => false,
            };
            if before {
                count -= 1;
            }
            if current_index >= count {
                current_index - count
            } else {
                n - (count - current_index)
            }
        },
    }
}

/// The partition point of the matches for a cursor: the first match that does not end
/// before the cursor.
pub open spec fn ends_before(m: MultiBufferModel, r: AnchorRange, cursor: Anchor) -> bool {
    anchor_cmp(m, r.end, cursor) == Ordering::Less
}

/// Matches sorted by their ends.
pub open spec fn sorted_by_end(m: MultiBufferModel, ranges: Seq<AnchorRange>) -> bool {
    forall|i: int, j: int| 0 <= i <= j < ranges.len() ==> anchor_le(m, #[trigger] ranges[i].end, #[trigger] ranges[j].end)
}

/// The index of the match to activate for a cursor: the first match that does not end
/// before the cursor, or the last match when all do. `None` only for no matches.
pub fn active_match_index(ranges: &Vec<AnchorRange>, cursor: &Anchor, buffer: &MultiBuffer) -> (r:
    Option<usize>)
    requires
        buffer@.wf(),
    ensures
        r is None <==> ranges@.len() == 0,
        r matches Some(i) ==> i < ranges@.len(),
        sorted_by_end(buffer@, ranges@) && ranges@.len() > 0 && !ends_before(buffer@, ranges@[0], *cursor)
            ==> r == Some(0usize),
        sorted_by_end(buffer@, ranges@) && ranges@.len() > 0 && anchor_cmp(
            buffer@,
            *cursor,
            ranges@[0].start,
        ) == Ordering::Less && anchor_le(buffer@, ranges@[0].start, ranges@[0].end) ==> r == Some(
            0usize,
        ),
        sorted_by_end(buffer@, ranges@) && ranges@.len() > 0 && ends_before(
            buffer@,
            ranges@[ranges@.len() - 1],
            *cursor,
        ) ==> r == Some((ranges@.len() - 1) as usize),
        r matches Some(i) ==> (sorted_by_end(buffer@, ranges@) ==> {
            &&& forall|j: int| 0 <= j < i ==> ends_before(buffer@, #[trigger] ranges@[j], *cursor)
            &&& i == ranges@.len() - 1 || !ends_before(buffer@, ranges@[i as int], *cursor)
        }),
{
    if ranges.len() == 0 {
        return None;
    }
    let ghost m = buffer@;
    let mut lo: usize = 0;
    let mut hi: usize = ranges.len();
    while lo < hi
        invariant
            lo <= hi <= ranges@.len(),
            m == buffer@,
            buffer@.wf(),
            sorted_by_end(m, ranges@) ==> forall|j: int|
                0 <= j < lo ==> ends_before(m, #[trigger] ranges@[j], *cursor),
            sorted_by_end(m, ranges@) ==> forall|j: int|
                hi <= j < ranges@.len() ==> !ends_before(m, #[trigger] ranges@[j], *cursor),
        decreases hi - lo,
    {
        let mid = lo + (hi - lo) / 2;
        let before = match ranges[mid].end.cmp(cursor, buffer) {
            Ordering::Less => true,
            _ => false,
        };
        if before {
            proof {
                if sorted_by_end(m, ranges@) {
                    assert forall|j: int| 0 <= j < mid + 1 implies ends_before(
                        m,
                        #[trigger] ranges@[j],
                        *cursor,
                    ) by {
                        if j < mid {
                            assert(anchor_le(m, ranges@[j].end, ranges@[mid as int].end));
                            lemma_anchor_order_transitive(m, ranges@[j].end, ranges@[mid as int].end, *cursor);
                        }
                    }
                }
            }
            lo = mid + 1;
        } else {
            proof {
                if sorted_by_end(m, ranges@) {
                    assert forall|j: int| mid <= j < ranges@.len() implies !ends_before(
                        m,
                        #[trigger] ranges@[j],
                        *cursor,
                    ) by {
                        if j > mid {
                            assert(anchor_le(m, ranges@[mid as int].end, ranges@[j].end));
                            lemma_anchor_order_transitive(m, *cursor, ranges@[mid as int].end, ranges@[j].end);
                            lemma_anchor_order_transitive(m, ranges@[j].end, *cursor, ranges@[mid as int].end);
                        }
                    }
                }
            }
            hi = mid;
        }
    }
    proof {
        lemma_anchor_order_transitive(m, *cursor, ranges@[0].start, ranges@[0].end);
        lemma_anchor_order_transitive(m, ranges@[0].end, *cursor, ranges@[0].start);
    }
    if lo < ranges.len() {
        Some(lo)
    } else {
        Some(ranges.len() - 1)
    }
}

} // verus!
