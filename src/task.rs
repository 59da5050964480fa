//! Task identifiers and the variables that task templates refer to.
use crate::outside::chars_of;
use vstd::prelude::*;
use vstd::string::StringExecFns;

verus! {

/// A task identifier, unique within the application; task reruns and terminal tabs are
/// managed by it.
#[derive(Debug, Clone, PartialEq, Eq, Hash, PartialOrd, Ord)]
pub struct TaskId(pub String);

/// A variable available to task templates. A name is a valid shell variable
/// identifier: letters, digits and underscores, not starting with a digit.
#[derive(Debug, Clone, PartialEq, Eq, Hash)]
pub enum VariableName {
    /// An absolute path of the currently opened file.
    File,
    /// A path of the currently opened file, relative to the worktree root.
    RelativeFile,
    /// The currently opened file's name.
    Filename,
    /// The path to the parent directory of the currently opened file.
    Dirname,
    /// The file name without its extension.
    Stem,
    /// An absolute path of the worktree that holds the file.
    WorktreeRoot,
    /// The symbol at the latest cursor or selection position.
    Symbol,
    /// The row of the latest cursor or selection position.
    Row,
    /// The column of the latest cursor or selection position.
    Column,
    /// The text of the latest selection.
    SelectedText,
    /// The symbol tagged as runnable by the syntax queries.
    RunnableSymbol,
    /// A variable provided by a plugin or another outside source; printed with the
    /// `CUSTOM_` prefix to avoid clashes with the others.
    Custom(String),
}

/// The prefix of every variable's name.
pub const EDITSYNC_VARIABLE_NAME_PREFIX: &'static str = "EDITSYNC_";

const EDITSYNC_CUSTOM_VARIABLE_NAME_PREFIX: &'static str = "CUSTOM_";

/// The part of a variable's name after the common prefix.
pub open spec fn name_suffix(v: VariableName) -> Seq<char> {
    match v {
        VariableName::File => "FILE"@,
        VariableName::Filename => "FILENAME"@,
        VariableName::RelativeFile => "RELATIVE_FILE"@,
        VariableName::Dirname => "DIRNAME"@,
        VariableName::Stem => "STEM"@,
        VariableName::WorktreeRoot => "WORKTREE_ROOT"@,
        VariableName::Symbol => "SYMBOL"@,
        VariableName::Row => "ROW"@,
        VariableName::Column => "COLUMN"@,
        VariableName::SelectedText => "SELECTED_TEXT"@,
        VariableName::RunnableSymbol => "RUNNABLE_SYMBOL"@,
        VariableName::Custom(s) => "CUSTOM_"@ + s@,
    }
}

/// A variable's full name, as it appears in environment variables and templates.
pub open spec fn variable_name(v: VariableName) -> Seq<char> {
    "EDITSYNC_"@ + name_suffix(v)
}

impl VariableName {
    fn suffix(&self) -> (r: String)
        ensures
            r@ == name_suffix(*self),
    {
        match self {
            VariableName::File => "FILE".to_owned(),
            VariableName::Filename => "FILENAME".to_owned(),
            VariableName::RelativeFile => "RELATIVE_FILE".to_owned(),
            VariableName::Dirname => "DIRNAME".to_owned(),
            VariableName::Stem => "STEM".to_owned(),
            VariableName::WorktreeRoot => "WORKTREE_ROOT".to_owned(),
            VariableName::Symbol => "SYMBOL".to_owned(),
            VariableName::Row => "ROW".to_owned(),
            VariableName::Column => "COLUMN".to_owned(),
            VariableName::SelectedText => "SELECTED_TEXT".to_owned(),
            VariableName::RunnableSymbol => "RUNNABLE_SYMBOL".to_owned(),
            VariableName::Custom(s) => {
                let mut r = EDITSYNC_CUSTOM_VARIABLE_NAME_PREFIX.to_owned();
                r.append(s.as_str());
                r
            },
        }
    }

    /// The variable's full name, such as `EDITSYNC_FILE`.
    pub fn name(&self) -> (r: String)
        ensures
            r@ == variable_name(*self),
    {
        let mut r = EDITSYNC_VARIABLE_NAME_PREFIX.to_owned();
        let s = self.suffix();
        r.append(s.as_str());
        r
    }

    /// A `$VARIABLE`-like value to be used in templates.
    pub fn template_value(&self) -> (r: String)
        ensures
            r@ == "$"@ + variable_name(*self),
    {
        let mut r = "$".to_owned();
        let n = self.name();
        r.append(n.as_str());
        r
    }

    /// A `"$VARIABLE"`-like value, for expansions that may hold spaces or special
    /// characters.
    pub fn template_value_with_whitespace(&self) -> (r: String)
        ensures
            r@ == "\"$"@ + variable_name(*self) + "\""@,
    {
        let mut r = "\"$".to_owned();
        let n = self.name();
        r.append(n.as_str());
        r.append("\"");
        r
    }

    /// Parses a variable from its full name.
    pub fn from_str(s: &str) -> (r: Result<VariableName, ()>)
        ensures
            r matches Ok(v) ==> variable_name(v) == s@,
            r is Err ==> forall|v: VariableName| variable_name(v) != s@,
    {
        proof {
            reveal_strlit("EDITSYNC_");
            reveal_strlit("CUSTOM_");
            reveal_strlit("FILE");
            reveal_strlit("FILENAME");
            reveal_strlit("RELATIVE_FILE");
            reveal_strlit("DIRNAME");
            reveal_strlit("STEM");
            reveal_strlit("WORKTREE_ROOT");
            reveal_strlit("SYMBOL");
            reveal_strlit("ROW");
            reveal_strlit("COLUMN");
            reveal_strlit("SELECTED_TEXT");
            reveal_strlit("RUNNABLE_SYMBOL");
        }
        let v = chars_of(s);
        let rest = match strip_prefix(&v, 0, EDITSYNC_VARIABLE_NAME_PREFIX) {
            Some(n) => n,
            None => {
                proof {
                    assert forall|x: VariableName| variable_name(x) != s@ by {
                        if variable_name(x) == s@ {
                            assert(s@.subrange(0, 9) =~= "EDITSYNC_"@);
                        }
                    }
                }
                return Err(());
            },
        };
        let ghost tail = s@.subrange(9, s@.len() as int);
        assert(s@ =~= "EDITSYNC_"@ + tail);
        let r = if is_exactly(&v, rest, "FILE") {
            Ok(VariableName::File)
        } else if is_exactly(&v, rest, "FILENAME") {
            Ok(VariableName::Filename)
        } else if is_exactly(&v, rest, "RELATIVE_FILE") {
            Ok(VariableName::RelativeFile)
        } else if is_exactly(&v, rest, "DIRNAME") {
            Ok(VariableName::Dirname)
        } else if is_exactly(&v, rest, "STEM") {
            Ok(VariableName::Stem)
        } else if is_exactly(&v, rest, "WORKTREE_ROOT") {
            Ok(VariableName::WorktreeRoot)
        } else if is_exactly(&v, rest, "SYMBOL") {
            Ok(VariableName::Symbol)
        } else if is_exactly(&v, rest, "RUNNABLE_SYMBOL") {
            Ok(VariableName::RunnableSymbol)
        } else if is_exactly(&v, rest, "SELECTED_TEXT") {
            Ok(VariableName::SelectedText)
        } else if is_exactly(&v, rest, "ROW") {
            Ok(VariableName::Row)
        } else if is_exactly(&v, rest, "COLUMN") {
            Ok(VariableName::Column)
        } else {
            match strip_prefix(&v, rest, EDITSYNC_CUSTOM_VARIABLE_NAME_PREFIX) {
                Some(n) => {
                    let name = crate::search::string_of(&v, n, v.len());
                    assert(tail =~= "CUSTOM_"@ + name@);
                    Ok(VariableName::Custom(name))
                },
                None => Err(()),
            }
        };
        proof {
            assert(tail =~= v@.subrange(9, v@.len() as int));
            if r is Err {
                assert forall|x: VariableName| variable_name(x) != s@ by {
                    if variable_name(x) == s@ {
                        assert(name_suffix(x) =~= tail);
                        if let VariableName::Custom(c) = x {
                            assert(tail.subrange(0, 7) =~= "CUSTOM_"@);
                            assert(v@.subrange(9, 16) =~= tail.subrange(0, 7));
                        }
                    }
                }
            }
        }
        r
    }
}

/// Whether `v[at..]` starts with `prefix`; if so, the index right after it.
fn strip_prefix(v: &Vec<char>, at: usize, prefix: &str) -> (r: Option<usize>)
    requires
        at <= v@.len(),
    ensures
        r is Some <==> (at + prefix@.len() <= v@.len() && v@.subrange(at as int, at + prefix@.len())
            == prefix@),
        r matches Some(n) ==> n == at + prefix@.len(),
{
    let p = chars_of(prefix);
    if p.len() > v.len() - at {
        return None;
    }
    let mut i: usize = 0;
    while i < p.len()
        invariant
            p@ == prefix@,
            at + p@.len() <= v.len(),
            i <= p@.len(),
            forall|j: int| 0 <= j < i ==> v@[at + j] == p@[j],
        decreases p@.len() - i,
    {
        let j = at + i;
        if v[j] != p[i] {
            assert(v@.subrange(at as int, at + prefix@.len())[i as int] != prefix@[i as int]);
            return None;
        }
        i += 1;
    }
    assert(v@.subrange(at as int, at + prefix@.len()) =~= prefix@);
    Some(at + p.len())
}

/// Whether `v[at..]` is exactly `word`.
fn is_exactly(v: &Vec<char>, at: usize, word: &str) -> (r: bool)
    requires
        at <= v@.len(),
    ensures
        r == (v@.subrange(at as int, v@.len() as int) == word@),
{
    match strip_prefix(v, at, word) {
        Some(n) => {
            if n == v.len() {
                true
            } else {
                proof {
                    if v@.subrange(at as int, v@.len() as int) == word@ {
                        assert(false);
                    }
                }
                false
            }
        },
        None => {
            proof {
                if v@.subrange(at as int, v@.len() as int) == word@ {
                    assert(v@.subrange(at as int, at + word@.len()) =~= word@);
                }
            }
            false
        },
    }
}

} // verus!
