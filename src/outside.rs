//! The calls this library makes into other crates and into std, each behind a small
//! wrapper whose contract states what the called function's documentation promises.
//! Results that take pages to state carry a name; the library's own contracts speak of
//! those names.
use crate::utf8_offsets::byte_len;
use vstd::prelude::*;

verus! {

#[verifier::external_type_specification]
#[verifier::external_body]
pub struct ExGlobError(globset::Error);

#[verifier::external_type_specification]
#[verifier::external_body]
pub struct ExRegexError(fancy_regex::Error);

#[verifier::external_type_specification]
#[verifier::external_body]
#[verifier::reject_recursive_types(K)]
#[verifier::reject_recursive_types(V)]
#[verifier::reject_recursive_types(S)]
pub struct ExIndexMap<K, V, S>(indexmap::IndexMap<K, V, S>);

/// The entries of an insertion-ordered map of ranks, in their order.
pub uninterp spec fn index_map_entries(m: indexmap::IndexMap<usize, u32>) -> Seq<(usize, u32)>;

/// Globs handed to globset stay shorter than this many characters. Longer ones could
/// overflow the state limits of the literal automaton that a glob set builds, where
/// globset unwraps rather than reports the error.
pub const MAX_GLOB_CHARS: usize = 0x1000_0000;

/// Whether `s` is a valid glob pattern that compiles into a glob set.
pub uninterp spec fn valid_glob(s: Seq<char>) -> bool;

/// Whether the glob `glob` matches the path `path`.
pub uninterp spec fn glob_match(glob: Seq<char>, path: Seq<char>) -> bool;

/// Whether the path `path` starts with the path `base`, component by component.
pub uninterp spec fn path_prefix(path: Seq<char>, base: Seq<char>) -> bool;

/// The path without its final component, if it has one.
pub uninterp spec fn parent_of(path: Seq<char>) -> Option<Seq<char>>;

/// Whether a character is alphabetic or numeric in Unicode's sense.
pub uninterp spec fn alphanumeric(c: char) -> bool;

/// Whether a character has Unicode's White_Space property.
pub uninterp spec fn whitespace(c: char) -> bool;

/// Whether the automaton for one literal pattern builds and can run a plain search.
pub uninterp spec fn literal_search_ok(pattern: Seq<char>, ascii_case_insensitive: bool) -> bool;

/// The byte ranges of the non-overlapping occurrences of a literal pattern in `text`, as
/// an Aho-Corasick automaton with standard match semantics reports them.
pub uninterp spec fn literal_matches(
    pattern: Seq<char>,
    ascii_case_insensitive: bool,
    text: Seq<char>,
) -> Seq<(usize, usize)>;

/// Whether a regular expression compiles.
pub uninterp spec fn regex_compiles(pattern: Seq<char>, case_insensitive: bool) -> bool;

/// The byte ranges of the non-overlapping matches of a regular expression in `text`,
/// in order, up to the first search that failed at run time (which ends the list).
pub uninterp spec fn regex_matches(pattern: Seq<char>, case_insensitive: bool, text: Seq<char>) -> Seq<
    (usize, usize),
>;

/// The text with the first match of a regular expression replaced by the template,
/// whose `$n` and `${name}` stand for capture groups; `None` when the search failed
/// at run time.
pub uninterp spec fn regex_replacement(
    pattern: Seq<char>,
    case_insensitive: bool,
    text: Seq<char>,
    template: Seq<char>,
) -> Option<Seq<char>>;

/// An ASCII word character: a letter, a digit or `_`.
pub open spec fn ascii_word(c: char) -> bool {
    ('a' <= c && c <= 'z') || ('A' <= c && c <= 'Z') || ('0' <= c && c <= '9') || c == '_'
}

/// Relies on indexmap::IndexMap::new: a new map is empty.
#[verifier::external_body]
pub(crate) fn rank_map_new() -> (r: indexmap::IndexMap<usize, u32>)
    ensures
        index_map_entries(r) == Seq::<(usize, u32)>::empty(),
{
    indexmap::IndexMap::new()
}

/// Relies on indexmap::IndexMap::insert: a key that is not in the map goes last in
/// order; a key that is keeps its place and takes the new value.
#[verifier::external_body]
pub(crate) fn rank_map_insert(m: &mut indexmap::IndexMap<usize, u32>, key: usize, value: u32)
    ensures
        (forall|i: int| 0 <= i < index_map_entries(*old(m)).len() ==> (#[trigger] index_map_entries(*old(m))[i]).0 != key)
            ==> index_map_entries(*final(m)) == index_map_entries(*old(m)).push((key, value)),
        forall|i: int| 0 <= i < index_map_entries(*old(m)).len() && (#[trigger] index_map_entries(*old(m))[i]).0 == key
            ==> index_map_entries(*final(m)) == index_map_entries(*old(m)).update(i, (key, value)),
{
    m.insert(key, value);
}

/// Relies on indexmap::IndexMap::iter: the entries in their order.
#[verifier::external_body]
pub(crate) fn rank_map_entries(m: &indexmap::IndexMap<usize, u32>) -> (r: Vec<(usize, u32)>)
    ensures
        r@ == index_map_entries(*m),
{
    m.iter().map(|(k, v)| (*k, *v)).collect()
}

/// Relies on globset::Glob::new and GlobSetBuilder::build, which report a glob that
/// does not parse or whose regex does not compile as an error.
#[verifier::external_body]
pub(crate) fn check_glob(glob: &str) -> (r: Result<(), globset::Error>)
    requires
        glob@.len() < MAX_GLOB_CHARS,
    ensures
        r is Ok <==> valid_glob(glob@),
{
    let g = globset::Glob::new(glob)?;
    match globset::GlobSetBuilder::new().add(g).build() {
        Ok(_) => Ok(()),
        Err(e) => Err(e),
    }
}

/// Relies on globset::Glob::new, GlobSetBuilder::build and GlobSet::is_match: whether
/// the glob matches the path; a glob that is not valid matches nothing.
#[verifier::external_body]
pub(crate) fn glob_matches(glob: &str, path: &str) -> (r: bool)
    requires
        glob@.len() < MAX_GLOB_CHARS,
    ensures
        r == (valid_glob(glob@) && glob_match(glob@, path@)),
{
    let g = match globset::Glob::new(glob) {
        Ok(g) => g,
        Err(_) => return false,
    };
    match globset::GlobSetBuilder::new().add(g).build() {
        Ok(set) => set.is_match(path),
        Err(_) => false,
    }
}

/// Relies on std::path::Path::starts_with.
#[verifier::external_body]
pub(crate) fn path_starts_with(path: &str, base: &str) -> (r: bool)
    ensures
        r == path_prefix(path@, base@),
{
    std::path::Path::new(path).starts_with(base)
}

/// Relies on std::path::Path::parent: the path without its final component, which
/// is shorter than the path.
#[verifier::external_body]
pub(crate) fn path_parent(path: &str) -> (r: Option<String>)
    ensures
        r matches Some(p) ==> parent_of(path@) == Some(p@) && p@.len() < path@.len(),
        r is None ==> parent_of(path@) is None,
{
    match std::path::Path::new(path).parent() {
        Some(p) => Some(p.to_string_lossy().into_owned()),
        None => None,
    }
}

/// Relies on char::is_alphanumeric; among ASCII characters, the letters and digits are
/// exactly the alphanumeric ones.
#[verifier::external_body]
pub(crate) fn is_alphanumeric(c: char) -> (r: bool)
    ensures
        r == alphanumeric(c),
        (c as u32) < 0x80 ==> (r <==> (('a' <= c && c <= 'z') || ('A' <= c && c <= 'Z') || ('0'
            <= c && c <= '9'))),
{
    c.is_alphanumeric()
}

/// Relies on char::is_whitespace.
#[verifier::external_body]
pub(crate) fn is_whitespace(c: char) -> (r: bool)
    ensures
        r == whitespace(c),
{
    c.is_whitespace()
}

/// Relies on str::chars: the characters of the text, in order.
#[verifier::external_body]
pub(crate) fn chars_of(s: &str) -> (r: Vec<char>)
    ensures
        r@ == s@,
{
    s.chars().collect()
}

/// Relies on String::push: appends one character.
#[verifier::external_body]
pub(crate) fn push_char(s: &mut String, c: char)
    ensures
        final(s)@ == old(s)@.push(c),
{
    s.push(c)
}

/// Relies on aho_corasick::AhoCorasickBuilder::build (with ASCII case folding as asked)
/// and AhoCorasick::try_find_iter: the byte ranges of the occurrences of one pattern;
/// `None` when the automaton cannot be built or cannot search.
#[verifier::external_body]
pub(crate) fn find_literal(pattern: &str, ascii_case_insensitive: bool, text: &str) -> (r: Option<
    Vec<(usize, usize)>,
>)
    ensures
        r is Some <==> literal_search_ok(pattern@, ascii_case_insensitive),
        r matches Some(v) ==> v@ == literal_matches(pattern@, ascii_case_insensitive, text@),
        r matches Some(v) ==> forall|i: int|
            0 <= i < v@.len() ==> (#[trigger] v@[i]).0 <= v@[i].1 <= byte_len(text@),
        r matches Some(v) ==> forall|i: int, j: int|
            0 <= i < j < v@.len() ==> (#[trigger] v@[i]).1 <= (#[trigger] v@[j]).0,
{
    let ac = aho_corasick::AhoCorasickBuilder::new()
        .ascii_case_insensitive(ascii_case_insensitive)
        .build([pattern])
        .ok()?;
    let found = ac.try_find_iter(text).ok()?;
    Some(found.map(|m| (m.start(), m.end())).collect())
}

/// Relies on fancy_regex::RegexBuilder::build: whether the expression compiles.
#[verifier::external_body]
pub(crate) fn check_regex(pattern: &str, case_insensitive: bool) -> (r: Result<(), fancy_regex::Error>)
    ensures
        r is Ok <==> regex_compiles(pattern@, case_insensitive),
{
    match fancy_regex::RegexBuilder::new(pattern).case_insensitive(case_insensitive).build() {
        Ok(_) => Ok(()),
        Err(e) => Err(e),
    }
}

/// Relies on fancy_regex::RegexBuilder::build and Regex::find_iter: the byte ranges of
/// the matches; `None` when the expression does not compile.
#[verifier::external_body]
pub(crate) fn find_regex(pattern: &str, case_insensitive: bool, text: &str) -> (r: Option<
    Vec<(usize, usize)>,
>)
    ensures
        r is Some <==> regex_compiles(pattern@, case_insensitive),
        r matches Some(v) ==> v@ == regex_matches(pattern@, case_insensitive, text@),
{
    let re = fancy_regex::RegexBuilder::new(pattern).case_insensitive(case_insensitive).build().ok()?;
    Some(re.find_iter(text).map_while(|m| m.ok()).map(|m| (m.start(), m.end())).collect())
}

/// Relies on fancy_regex::RegexBuilder::build and Regex::try_replacen with a limit of
/// one: the text with its first match replaced by the expanded template; `None` when
/// the expression does not compile or the search fails at run time.
#[verifier::external_body]
pub(crate) fn replace_first(pattern: &str, case_insensitive: bool, text: &str, template: &str) -> (r:
    Option<String>)
    ensures
        !regex_compiles(pattern@, case_insensitive) ==> r is None,
        regex_compiles(pattern@, case_insensitive) ==> match regex_replacement(
            pattern@,
            case_insensitive,
            text@,
            template@,
        ) {
            Some(t) => r matches Some(s) && s@ == t,
            None => r is None,
        },
{
    let re = fancy_regex::RegexBuilder::new(pattern).case_insensitive(case_insensitive).build().ok()?;
    re.try_replacen(text, 1, template).ok().map(|s| s.into_owned())
}

/// Relies on fancy_regex::Regex::new and Regex::is_match with the expression `\B` (a
/// position that is not a word boundary), on a text of one ASCII character: both ends
/// of a word character are boundaries, and neither end of another character is.
#[verifier::external_body]
pub(crate) fn has_non_boundary(s: &str) -> (r: Option<bool>)
    requires
        s@.len() == 1,
        (s@[0] as u32) < 0x80,
    ensures
        r == Some(!ascii_word(s@[0])),
{
    fancy_regex::Regex::new(r"\B").ok()?.is_match(s).ok()
}

} // verus!
