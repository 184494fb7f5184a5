//! The search-arguments value object, validation of the search form, and
//! root-directory defaulting.

use vstd::prelude::*;
use vstd::string::StrSliceExecFns;
use vstd::string::StringExecFns;

verus! {

/// The arguments of one query: the name to look for, the root directory,
/// and the switches that shape the match predicate.
pub struct Argument {
    /// The token an entry's name must contain (or equal, in strict mode).
    pub name: String,
    /// The root directory of the walk; empty means the current directory.
    pub target: String,
    /// When set, hidden entries are not pruned during descent.
    pub search_hidden: bool,
    /// When set, directories never match.
    pub file_only: bool,
    /// When set, the name must equal `name` instead of containing it.
    pub strict_mode: bool,
    /// When set, name comparison folds case.
    pub case_miss: bool,
    /// A comma-separated list of suffixes; empty means no suffix filter.
    pub suffix: String,
}

/// The outcome of validating the search form's input before a query runs.
pub struct ParamCheck {
    /// `1` when the input was rejected, `2` when it passed.
    pub status: i32,
    /// The message to show the user when the input was rejected.
    pub message: String,
}

/// Validates the name the user typed: an empty search name is rejected
/// with a displayable message, anything else passes.
pub fn check_search_param(search_name: &str) -> (r: ParamCheck)
    ensures
        search_name@.len() == 0 ==> r.status == 1 && r.message@ == "搜索关键字不能为空"@,
        search_name@.len() > 0 ==> r.status == 2 && r.message@ == Seq::<char>::empty(),
{
    if search_name.unicode_len() == 0 {
        ParamCheck { status: 1, message: String::from_str("搜索关键字不能为空") }
    } else {
        ParamCheck { status: 2, message: String::new() }
    }
}

/// The root the walk starts from: the target itself, or the current
/// directory when the target is empty.
pub open spec fn resolved_target(target: Seq<char>) -> Seq<char> {
    if target.len() == 0 {
        "."@
    } else {
        target
    }
}

/// Resolves the root directory: an empty target defaults to `"."`.
pub fn resolve_target(target: &str) -> (r: &str)
    ensures
        r@ == resolved_target(target@),
{
    if target.unicode_len() == 0 {
        "."
    } else {
        target
    }
}

/// An empty root behaves exactly as the current directory: resolving the
/// empty target and resolving `"."` name the same root.
pub proof fn lemma_empty_target_defaults()
    ensures
        resolved_target(""@) == resolved_target("."@),
{
    reveal_strlit("");
    reveal_strlit(".");
}

} // verus!
