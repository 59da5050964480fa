//! Syntax token kinds of the editor's themes, and how they map to the scopes of
//! VS Code themes.
use crate::outside::{index_map_entries, rank_map_entries, rank_map_insert, rank_map_new};
use crate::release_channel::str_eq;
use vstd::prelude::*;

verus! {

/// The scope selector of a VS Code token color rule: one scope or several.
#[derive(Debug, PartialEq, Eq)]
pub enum VsCodeTokenScope {
    One(String),
    Many(Vec<String>),
}

/// A VS Code token color rule.
#[derive(Debug)]
pub struct VsCodeTokenColor {
    pub name: Option<String>,
    pub scope: Option<VsCodeTokenScope>,
    pub settings: VsCodeTokenColorSettings,
}

/// The colors and font style of a VS Code token color rule.
#[derive(Debug)]
pub struct VsCodeTokenColorSettings {
    pub foreground: Option<String>,
    pub background: Option<String>,
    pub font_style: Option<String>,
}

/// A syntax token kind of the editor's themes.
#[derive(Debug, PartialEq, Eq, Copy, Clone, Structural)]
pub enum EditsyncSyntaxToken {
    Attribute,
    Boolean,
    Comment,
    CommentDoc,
    Constant,
    Constructor,
    Embedded,
    Emphasis,
    EmphasisStrong,
    Enum,
    Function,
    Hint,
    Keyword,
    Label,
    LinkText,
    LinkUri,
    Number,
    Operator,
    Predictive,
    Preproc,
    Primary,
    Property,
    Punctuation,
    PunctuationBracket,
    PunctuationDelimiter,
    PunctuationListMarker,
    PunctuationSpecial,
    String,
    StringEscape,
    StringRegex,
    StringSpecial,
    StringSpecialSymbol,
    Tag,
    TextLiteral,
    Title,
    Type,
    Variable,
    VariableSpecial,
    Variant,
}

/// The name of a token kind in the editor's themes.
pub open spec fn token_name(t: EditsyncSyntaxToken) -> Seq<char> {
    match t {
        EditsyncSyntaxToken::Attribute => "attribute"@,
        EditsyncSyntaxToken::Boolean => "boolean"@,
        EditsyncSyntaxToken::Comment => "comment"@,
        EditsyncSyntaxToken::CommentDoc => "comment.doc"@,
        EditsyncSyntaxToken::Constant => "constant"@,
        EditsyncSyntaxToken::Constructor => "constructor"@,
        EditsyncSyntaxToken::Embedded => "embedded"@,
        EditsyncSyntaxToken::Emphasis => "emphasis"@,
        EditsyncSyntaxToken::EmphasisStrong => "emphasis.strong"@,
        EditsyncSyntaxToken::Enum => "enum"@,
        EditsyncSyntaxToken::Function => "function"@,
        EditsyncSyntaxToken::Hint => "hint"@,
        EditsyncSyntaxToken::Keyword => "keyword"@,
        EditsyncSyntaxToken::Label => "label"@,
        EditsyncSyntaxToken::LinkText => "link_text"@,
        EditsyncSyntaxToken::LinkUri => "link_uri"@,
        EditsyncSyntaxToken::Number => "number"@,
        EditsyncSyntaxToken::Operator => "operator"@,
        EditsyncSyntaxToken::Predictive => "predictive"@,
        EditsyncSyntaxToken::Preproc => "preproc"@,
        EditsyncSyntaxToken::Primary => "primary"@,
        EditsyncSyntaxToken::Property => "property"@,
        EditsyncSyntaxToken::Punctuation => "punctuation"@,
        EditsyncSyntaxToken::PunctuationBracket => "punctuation.bracket"@,
        EditsyncSyntaxToken::PunctuationDelimiter => "punctuation.delimiter"@,
        EditsyncSyntaxToken::PunctuationListMarker => "punctuation.list_marker"@,
        EditsyncSyntaxToken::PunctuationSpecial => "punctuation.special"@,
        EditsyncSyntaxToken::String => "string"@,
        EditsyncSyntaxToken::StringEscape => "string.escape"@,
        EditsyncSyntaxToken::StringRegex => "string.regex"@,
        EditsyncSyntaxToken::StringSpecial => "string.special"@,
        EditsyncSyntaxToken::StringSpecialSymbol => "string.special.symbol"@,
        EditsyncSyntaxToken::Tag => "tag"@,
        EditsyncSyntaxToken::TextLiteral => "text.literal"@,
        EditsyncSyntaxToken::Title => "title"@,
        EditsyncSyntaxToken::Type => "type"@,
        EditsyncSyntaxToken::Variable => "variable"@,
        EditsyncSyntaxToken::VariableSpecial => "variable.special"@,
        EditsyncSyntaxToken::Variant => "variant"@,
    }
}

/// The VS Code scopes a token kind corresponds to, the most telling first.
pub open spec fn vscode_scopes(t: EditsyncSyntaxToken) -> Seq<Seq<char>> {
    match t {
        EditsyncSyntaxToken::Attribute => seq!["entity.other.attribute-name"@],
        EditsyncSyntaxToken::Boolean => seq!["constant.language"@],
        EditsyncSyntaxToken::Comment => seq!["comment"@],
        EditsyncSyntaxToken::CommentDoc => seq!["comment.block.documentation"@],
        EditsyncSyntaxToken::Constant => seq!["constant"@, "constant.language"@, "constant.character"@],
        EditsyncSyntaxToken::Constructor => seq!["entity.name.tag"@, "entity.name.function.definition.special.constructor"@],
        EditsyncSyntaxToken::Embedded => seq!["meta.embedded"@],
        EditsyncSyntaxToken::Emphasis => seq!["markup.italic"@],
        EditsyncSyntaxToken::EmphasisStrong => seq!["markup.bold"@, "markup.italic markup.bold"@, "markup.bold markup.italic"@],
        EditsyncSyntaxToken::Enum => seq!["support.type.enum"@],
        EditsyncSyntaxToken::Function => seq!["entity.function"@, "entity.name.function"@, "variable.function"@],
        EditsyncSyntaxToken::Hint => seq![],
        EditsyncSyntaxToken::Keyword => seq!["keyword"@, "keyword.other.fn.rust"@, "keyword.control"@, "keyword.control.fun"@, "keyword.control.class"@, "punctuation.accessor"@, "entity.name.tag"@],
        EditsyncSyntaxToken::Label => seq!["label"@, "entity.name"@, "entity.name.import"@, "entity.name.package"@],
        EditsyncSyntaxToken::LinkText => seq!["markup.underline.link"@, "string.other.link"@],
        EditsyncSyntaxToken::LinkUri => seq!["markup.underline.link"@, "string.other.link"@],
        EditsyncSyntaxToken::Number => seq!["constant.numeric"@, "number"@],
        EditsyncSyntaxToken::Operator => seq!["operator"@, "keyword.operator"@],
        EditsyncSyntaxToken::Predictive => seq![],
        EditsyncSyntaxToken::Preproc => seq!["preproc"@, "meta.preprocessor"@, "punctuation.definition.preprocessor"@],
        EditsyncSyntaxToken::Primary => seq![],
        EditsyncSyntaxToken::Property => seq!["variable.member"@, "support.type.property-name"@, "variable.object.property"@, "variable.other.field"@],
        EditsyncSyntaxToken::Punctuation => seq!["punctuation"@, "punctuation.section"@, "punctuation.accessor"@, "punctuation.separator"@, "punctuation.definition.tag"@],
        EditsyncSyntaxToken::PunctuationBracket => seq!["punctuation.bracket"@, "punctuation.definition.tag.begin"@, "punctuation.definition.tag.end"@],
        EditsyncSyntaxToken::PunctuationDelimiter => seq!["punctuation.delimiter"@, "punctuation.separator"@, "punctuation.terminator"@],
        EditsyncSyntaxToken::PunctuationListMarker => seq!["markup.list punctuation.definition.list.begin"@],
        EditsyncSyntaxToken::PunctuationSpecial => seq!["punctuation.special"@],
        EditsyncSyntaxToken::String => seq!["string"@],
        EditsyncSyntaxToken::StringEscape => seq!["string.escape"@, "constant.character"@, "constant.other"@],
        EditsyncSyntaxToken::StringRegex => seq!["string.regex"@],
        EditsyncSyntaxToken::StringSpecial => seq!["string.special"@, "constant.other.symbol"@],
        EditsyncSyntaxToken::StringSpecialSymbol => seq!["string.special.symbol"@, "constant.other.symbol"@],
        EditsyncSyntaxToken::Tag => seq!["tag"@, "entity.name.tag"@, "meta.tag.sgml"@],
        EditsyncSyntaxToken::TextLiteral => seq!["text.literal"@, "string"@],
        EditsyncSyntaxToken::Title => seq!["title"@, "entity.name"@],
        EditsyncSyntaxToken::Type => seq!["entity.name.type"@, "entity.name.type.primitive"@, "entity.name.type.numeric"@, "keyword.type"@, "support.type"@, "support.type.primitive"@, "support.class"@],
        EditsyncSyntaxToken::Variable => seq!["variable"@, "variable.language"@, "variable.member"@, "variable.parameter"@, "variable.parameter.function-call"@],
        EditsyncSyntaxToken::VariableSpecial => seq!["variable.special"@, "variable.member"@, "variable.annotation"@, "variable.language"@],
        EditsyncSyntaxToken::Variant => seq!["variant"@],
    }
}

/// The token kinds a theme falls back on when it has no style for `t`.
pub open spec fn fallbacks_of(t: EditsyncSyntaxToken) -> Seq<EditsyncSyntaxToken> {
    match t {
        EditsyncSyntaxToken::CommentDoc => seq![EditsyncSyntaxToken::Comment],
        EditsyncSyntaxToken::Number => seq![EditsyncSyntaxToken::Constant],
        EditsyncSyntaxToken::VariableSpecial => seq![EditsyncSyntaxToken::Variable],
        EditsyncSyntaxToken::PunctuationBracket => seq![EditsyncSyntaxToken::Punctuation],
        EditsyncSyntaxToken::PunctuationDelimiter => seq![EditsyncSyntaxToken::Punctuation],
        EditsyncSyntaxToken::PunctuationListMarker => seq![EditsyncSyntaxToken::Punctuation],
        EditsyncSyntaxToken::PunctuationSpecial => seq![EditsyncSyntaxToken::Punctuation],
        EditsyncSyntaxToken::StringEscape => seq![EditsyncSyntaxToken::String],
        EditsyncSyntaxToken::StringRegex => seq![EditsyncSyntaxToken::String],
        EditsyncSyntaxToken::StringSpecial => seq![EditsyncSyntaxToken::String],
        EditsyncSyntaxToken::StringSpecialSymbol => seq![EditsyncSyntaxToken::String],
        _ => Seq::empty(),
    }
}

impl EditsyncSyntaxToken {
    /// The name of this token kind, such as `comment.doc`.
    pub fn name(&self) -> (r: &'static str)
        ensures
            r@ == token_name(*self),
    {
        match self {
            EditsyncSyntaxToken::Attribute => "attribute",
            EditsyncSyntaxToken::Boolean => "boolean",
            EditsyncSyntaxToken::Comment => "comment",
            EditsyncSyntaxToken::CommentDoc => "comment.doc",
            EditsyncSyntaxToken::Constant => "constant",
            EditsyncSyntaxToken::Constructor => "constructor",
            EditsyncSyntaxToken::Embedded => "embedded",
            EditsyncSyntaxToken::Emphasis => "emphasis",
            EditsyncSyntaxToken::EmphasisStrong => "emphasis.strong",
            EditsyncSyntaxToken::Enum => "enum",
            EditsyncSyntaxToken::Function => "function",
            EditsyncSyntaxToken::Hint => "hint",
            EditsyncSyntaxToken::Keyword => "keyword",
            EditsyncSyntaxToken::Label => "label",
            EditsyncSyntaxToken::LinkText => "link_text",
            EditsyncSyntaxToken::LinkUri => "link_uri",
            EditsyncSyntaxToken::Number => "number",
            EditsyncSyntaxToken::Operator => "operator",
            EditsyncSyntaxToken::Predictive => "predictive",
            EditsyncSyntaxToken::Preproc => "preproc",
            EditsyncSyntaxToken::Primary => "primary",
            EditsyncSyntaxToken::Property => "property",
            EditsyncSyntaxToken::Punctuation => "punctuation",
            EditsyncSyntaxToken::PunctuationBracket => "punctuation.bracket",
            EditsyncSyntaxToken::PunctuationDelimiter => "punctuation.delimiter",
            EditsyncSyntaxToken::PunctuationListMarker => "punctuation.list_marker",
            EditsyncSyntaxToken::PunctuationSpecial => "punctuation.special",
            EditsyncSyntaxToken::String => "string",
            EditsyncSyntaxToken::StringEscape => "string.escape",
            EditsyncSyntaxToken::StringRegex => "string.regex",
            EditsyncSyntaxToken::StringSpecial => "string.special",
            EditsyncSyntaxToken::StringSpecialSymbol => "string.special.symbol",
            EditsyncSyntaxToken::Tag => "tag",
            EditsyncSyntaxToken::TextLiteral => "text.literal",
            EditsyncSyntaxToken::Title => "title",
            EditsyncSyntaxToken::Type => "type",
            EditsyncSyntaxToken::Variable => "variable",
            EditsyncSyntaxToken::VariableSpecial => "variable.special",
            EditsyncSyntaxToken::Variant => "variant",
        }
    }

    /// The token kinds a theme falls back on when it has no style for this one.
    pub fn fallbacks(&self) -> (r: Vec<EditsyncSyntaxToken>)
        ensures
            r@ == fallbacks_of(*self),
    {
        let mut r: Vec<EditsyncSyntaxToken> = Vec::new();
        match self {
            EditsyncSyntaxToken::CommentDoc => r.push(EditsyncSyntaxToken::Comment),
            EditsyncSyntaxToken::Number => r.push(EditsyncSyntaxToken::Constant),
            EditsyncSyntaxToken::VariableSpecial => r.push(EditsyncSyntaxToken::Variable),
            EditsyncSyntaxToken::PunctuationBracket | EditsyncSyntaxToken::PunctuationDelimiter | EditsyncSyntaxToken::PunctuationListMarker | EditsyncSyntaxToken::PunctuationSpecial => r.push(EditsyncSyntaxToken::Punctuation),
            EditsyncSyntaxToken::StringEscape | EditsyncSyntaxToken::StringRegex | EditsyncSyntaxToken::StringSpecial | EditsyncSyntaxToken::StringSpecialSymbol => r.push(EditsyncSyntaxToken::String),
            _ => {},
        }
        assert(r@ =~= fallbacks_of(*self));
        r
    }

    /// The VS Code scopes this token kind corresponds to, the most telling first.
    fn to_vscode(self) -> (r: Vec<&'static str>)
        ensures
            r@.map_values(|s: &'static str| s@) == vscode_scopes(self),
            r@.len() <= 7,
    {
        let mut r: Vec<&'static str> = Vec::new();
        match self {
            EditsyncSyntaxToken::Attribute => { r.push("entity.other.attribute-name"); },
            EditsyncSyntaxToken::Boolean => { r.push("constant.language"); },
            EditsyncSyntaxToken::Comment => { r.push("comment"); },
            EditsyncSyntaxToken::CommentDoc => { r.push("comment.block.documentation"); },
            EditsyncSyntaxToken::Constant => { r.push("constant"); r.push("constant.language"); r.push("constant.character"); },
            EditsyncSyntaxToken::Constructor => { r.push("entity.name.tag"); r.push("entity.name.function.definition.special.constructor"); },
            EditsyncSyntaxToken::Embedded => { r.push("meta.embedded"); },
            EditsyncSyntaxToken::Emphasis => { r.push("markup.italic"); },
            EditsyncSyntaxToken::EmphasisStrong => { r.push("markup.bold"); r.push("markup.italic markup.bold"); r.push("markup.bold markup.italic"); },
            EditsyncSyntaxToken::Enum => { r.push("support.type.enum"); },
            EditsyncSyntaxToken::Function => { r.push("entity.function"); r.push("entity.name.function"); r.push("variable.function"); },
            EditsyncSyntaxToken::Hint => {  },
            EditsyncSyntaxToken::Keyword => { r.push("keyword"); r.push("keyword.other.fn.rust"); r.push("keyword.control"); r.push("keyword.control.fun"); r.push("keyword.control.class"); r.push("punctuation.accessor"); r.push("entity.name.tag"); },
            EditsyncSyntaxToken::Label => { r.push("label"); r.push("entity.name"); r.push("entity.name.import"); r.push("entity.name.package"); },
            EditsyncSyntaxToken::LinkText => { r.push("markup.underline.link"); r.push("string.other.link"); },
            EditsyncSyntaxToken::LinkUri => { r.push("markup.underline.link"); r.push("string.other.link"); },
            EditsyncSyntaxToken::Number => { r.push("constant.numeric"); r.push("number"); },
            EditsyncSyntaxToken::Operator => { r.push("operator"); r.push("keyword.operator"); },
            EditsyncSyntaxToken::Predictive => {  },
            EditsyncSyntaxToken::Preproc => { r.push("preproc"); r.push("meta.preprocessor"); r.push("punctuation.definition.preprocessor"); },
            EditsyncSyntaxToken::Primary => {  },
            EditsyncSyntaxToken::Property => { r.push("variable.member"); r.push("support.type.property-name"); r.push("variable.object.property"); r.push("variable.other.field"); },
            EditsyncSyntaxToken::Punctuation => { r.push("punctuation"); r.push("punctuation.section"); r.push("punctuation.accessor"); r.push("punctuation.separator"); r.push("punctuation.definition.tag"); },
            EditsyncSyntaxToken::PunctuationBracket => { r.push("punctuation.bracket"); r.push("punctuation.definition.tag.begin"); r.push("punctuation.definition.tag.end"); },
            EditsyncSyntaxToken::PunctuationDelimiter => { r.push("punctuation.delimiter"); r.push("punctuation.separator"); r.push("punctuation.terminator"); },
            EditsyncSyntaxToken::PunctuationListMarker => { r.push("markup.list punctuation.definition.list.begin"); },
            EditsyncSyntaxToken::PunctuationSpecial => { r.push("punctuation.special"); },
            EditsyncSyntaxToken::String => { r.push("string"); },
            EditsyncSyntaxToken::StringEscape => { r.push("string.escape"); r.push("constant.character"); r.push("constant.other"); },
            EditsyncSyntaxToken::StringRegex => { r.push("string.regex"); },
            EditsyncSyntaxToken::StringSpecial => { r.push("string.special"); r.push("constant.other.symbol"); },
            EditsyncSyntaxToken::StringSpecialSymbol => { r.push("string.special.symbol"); r.push("constant.other.symbol"); },
            EditsyncSyntaxToken::Tag => { r.push("tag"); r.push("entity.name.tag"); r.push("meta.tag.sgml"); },
            EditsyncSyntaxToken::TextLiteral => { r.push("text.literal"); r.push("string"); },
            EditsyncSyntaxToken::Title => { r.push("title"); r.push("entity.name"); },
            EditsyncSyntaxToken::Type => { r.push("entity.name.type"); r.push("entity.name.type.primitive"); r.push("entity.name.type.numeric"); r.push("keyword.type"); r.push("support.type"); r.push("support.type.primitive"); r.push("support.class"); },
            EditsyncSyntaxToken::Variable => { r.push("variable"); r.push("variable.language"); r.push("variable.member"); r.push("variable.parameter"); r.push("variable.parameter.function-call"); },
            EditsyncSyntaxToken::VariableSpecial => { r.push("variable.special"); r.push("variable.member"); r.push("variable.annotation"); r.push("variable.language"); },
            EditsyncSyntaxToken::Variant => { r.push("variant"); },
        }
        assert(r@.map_values(|s: &'static str| s@) =~= vscode_scopes(self));
        r
    }

    /// How well a VS Code rule matches this token kind: for each of this kind's scopes
    /// that the rule names, one plus a weight that falls with the scope's position.
    /// `None` when the rule names no scope.
    pub fn rank_match(&self, token_color: &VsCodeTokenColor) -> (r: Option<u32>)
        ensures
            match token_color.scope {
                None => r is None,
                Some(scope) => r == Some(rank_spec(vscode_scopes(*self), candidate_scopes(scope), vscode_scopes(*self).len() as int) as u32),
            },
    {
        let scope = match &token_color.scope {
            Some(s) => s,
            None => return None,
        };
        let scopes = self.to_vscode();
        let n = scopes.len();
        let ghost target = vscode_scopes(*self);
        let mut matches: u32 = 0;
        let mut ix: usize = 0;
        while ix < n
            invariant
                n == scopes@.len(),
                n <= 7,
                ix <= n,
                scopes@.map_values(|s: &'static str| s@) == target,
                matches as nat == rank_spec(target, candidate_scopes(*scope), ix as int),
                matches <= 8 * ix,
            decreases n - ix,
        {
            let weight = (n - ix) as u32;
            assert(target[ix as int] == scopes@[ix as int]@);
            if scope_listed(scope, scopes[ix]) {
                matches = matches + 1 + weight;
            }
            ix += 1;
        }
        Some(matches)
    }

    /// The rule that best matches this token kind among those that set a foreground:
    /// the one with the highest positive rank, the last of them on a tie.
    pub fn find_best_token_color_match<'a>(&self, token_colors: &'a Vec<VsCodeTokenColor>) -> (r: Option<
        &'a VsCodeTokenColor,
    >)
        ensures
            match best_of(ranked(*self, token_colors@)) {
                Some(i) => r matches Some(c) && *c == token_colors@[ranked(*self, token_colors@)[i].0 as int],
                None => r is None,
            },
    {
        let mut ranked_matches = rank_map_new();
        let mut ix: usize = 0;
        assert(token_colors@.take(0) =~= Seq::<VsCodeTokenColor>::empty());
        while ix < token_colors.len()
            invariant
                ix <= token_colors@.len(),
                index_map_entries(ranked_matches) == ranked_from(*self, token_colors@.take(ix as int), 0),
                forall|k: int| 0 <= k < index_map_entries(ranked_matches).len() ==> (#[trigger] index_map_entries(ranked_matches)[k]).0 < ix,
            decreases token_colors@.len() - ix,
        {
            let token_color = &token_colors[ix];
            assert(token_colors@.take(ix + 1).drop_last() =~= token_colors@.take(ix as int));
            assert(token_colors@.take(ix + 1).last() == token_colors@[ix as int]);
            proof {
                lemma_ranked_from_push(*self, token_colors@.take(ix as int), token_colors@[ix as int]);
            }
            if token_color.settings.foreground.is_some() {
                if let Some(rank) = self.rank_match(token_color) {
                    if rank > 0 {
                        rank_map_insert(&mut ranked_matches, ix, rank);
                    }
                }
            }
            ix += 1;
        }
        assert(token_colors@.take(ix as int) =~= token_colors@);
        let entries = rank_map_entries(&ranked_matches);
        let mut best: Option<usize> = None;
        let mut k: usize = 0;
        while k < entries.len()
            invariant
                k <= entries@.len(),
                entries@ == ranked(*self, token_colors@),
                match best {
                    Some(b) => best_of(entries@.take(k as int)) == Some(b as int),
                    None => best_of(entries@.take(k as int)) is None,
                },
                best matches Some(b) ==> b < k,
                forall|j: int| 0 <= j < entries@.len() ==> (#[trigger] entries@[j]).0 < token_colors@.len(),
            decreases entries@.len() - k,
        {
            assert(entries@.take(k + 1).drop_last() =~= entries@.take(k as int));
            assert(entries@.take(k + 1).last() == entries@[k as int]);
            best = match best {
                None => Some(k),
                Some(j) => if entries[k].1 >= entries[j].1 {
                    Some(k)
                } else {
                    Some(j)
                },
            };
            k += 1;
        }
        assert(entries@.take(k as int) =~= entries@);
        match best {
            Some(j) => Some(&token_colors[entries[j].0]),
            None => None,
        }
    }
}

/// Whether a rule's scope selector names `scope`.
fn scope_listed(selector: &VsCodeTokenScope, scope: &str) -> (r: bool)
    ensures
        r == candidate_scopes(*selector).contains(scope@),
{
    match selector {
        VsCodeTokenScope::One(s) => {
            let r = str_eq(s.as_str(), scope);
            proof {
                if candidate_scopes(*selector).contains(scope@) {
                    let k = choose|k: int| 0 <= k < 1 && candidate_scopes(*selector)[k] == scope@;
                }
                if r {
                    assert(candidate_scopes(*selector)[0] == scope@);
                }
            }
            r
        },
        VsCodeTokenScope::Many(v) => {
            let mut i: usize = 0;
            while i < v.len()
                invariant
                    i <= v@.len(),
                    candidate_scopes(*selector) == v@.map_values(|s: String| s@),
                    forall|j: int| 0 <= j < i ==> v@[j]@ != scope@,
                decreases v@.len() - i,
            {
                if str_eq(v[i].as_str(), scope) {
                    assert(candidate_scopes(*selector)[i as int] == scope@);
                    return true;
                }
                i += 1;
            }
            proof {
                if candidate_scopes(*selector).contains(scope@) {
                    let k = choose|k: int| 0 <= k < v@.len() && candidate_scopes(*selector)[k] == scope@;
                    assert(v@[k]@ == scope@);
                }
            }
            false
        },
    }
}

/// The scopes a rule's selector names.
pub open spec fn candidate_scopes(s: VsCodeTokenScope) -> Seq<Seq<char>> {
    match s {
        VsCodeTokenScope::One(x) => seq![x@],
        VsCodeTokenScope::Many(v) => v@.map_values(|x: String| x@),
    }
}

/// The rank a rule gets from the first `k` of a token kind's scopes.
pub open spec fn rank_spec(scopes: Seq<Seq<char>>, candidates: Seq<Seq<char>>, k: int) -> nat
    decreases k,
{
    if k <= 0 {
        0
    } else {
        rank_spec(scopes, candidates, k - 1) + if candidates.contains(scopes[k - 1]) {
            (1 + scopes.len() - (k - 1)) as nat
        } else {
            0
        }
    }
}

/// The rank of a rule for a token kind, when the rule sets a foreground and names a scope.
pub open spec fn rule_rank(t: EditsyncSyntaxToken, c: VsCodeTokenColor) -> Option<u32> {
    match (c.settings.foreground, c.scope) {
        (Some(_), Some(scope)) => Some(rank_spec(vscode_scopes(t), candidate_scopes(scope), vscode_scopes(t).len() as int) as u32),
        _ => None,
    }
}

/// The rules with a positive rank, as (position + `base`, rank), in order.
pub open spec fn ranked_from(t: EditsyncSyntaxToken, colors: Seq<VsCodeTokenColor>, base: int) -> Seq<(usize, u32)>
    decreases colors.len(),
{
    if colors.len() == 0 {
        Seq::empty()
    } else {
        let r = ranked_from(t, colors.drop_last(), base);
        match rule_rank(t, colors.last()) {
            Some(rank) => if rank > 0 {
                r.push(((base + colors.len() - 1) as usize, rank))
            } else {
                r
            },
            None => r,
        }
    }
}

pub open spec fn ranked(t: EditsyncSyntaxToken, colors: Seq<VsCodeTokenColor>) -> Seq<(usize, u32)> {
    ranked_from(t, colors, 0)
}

/// The position of the highest rank, the last of them on a tie.
pub open spec fn best_of(entries: Seq<(usize, u32)>) -> Option<int>
    decreases entries.len(),
{
    if entries.len() == 0 {
        None
    } else {
        match best_of(entries.drop_last()) {
            None => Some(entries.len() - 1),
            Some(j) => if entries.last().1 >= entries[j].1 {
                Some(entries.len() - 1)
            } else {
                Some(j)
            },
        }
    }
}

proof fn lemma_ranked_from_push(t: EditsyncSyntaxToken, colors: Seq<VsCodeTokenColor>, c: VsCodeTokenColor)
    ensures
        ranked_from(t, colors.push(c), 0) == match rule_rank(t, c) {
            Some(rank) => if rank > 0 {
                ranked_from(t, colors, 0).push((colors.len() as usize, rank))
            } else {
                ranked_from(t, colors, 0)
            },
            None => ranked_from(t, colors, 0),
        },
{
    assert(colors.push(c).drop_last() =~= colors);
}

} // verus!
