use vstd::prelude::*;

verus! {

/// What `str::to_lowercase` makes of a string.
pub uninterp spec fn lower_of(s: Seq<char>) -> Seq<char>;

/// `p` occurs in `s` as a contiguous run.
pub open spec fn has_infix(s: Seq<char>, p: Seq<char>) -> bool {
    exists|i: int| 0 <= i && i + p.len() <= s.len() && #[trigger] s.subrange(i, i + p.len()) == p
}

/// The category of an already lower-cased prompt: the first keyword pair that matches wins.
pub open spec fn task_type_of(s: Seq<char>) -> Seq<char> {
    if has_infix(s, "lint"@) || has_infix(s, "format"@) {
        "lint"@
    } else if has_infix(s, "explain"@) || has_infix(s, "what"@) {
        "explain"@
    } else if has_infix(s, "create"@) || has_infix(s, "build"@) {
        "create"@
    } else if has_infix(s, "architect"@) || has_infix(s, "design"@) {
        "architect"@
    } else {
        "debug"@
    }
}

/// Relies on `str::to_lowercase`: the result depends on the characters alone.
#[verifier::external_body]
fn lowercase(s: &str) -> (r: String)
    ensures
        r@ == lower_of(s@),
{
    s.to_lowercase()
}

/// Relies on `str::contains` with a `&str` pattern: true exactly when the
/// pattern occurs in the string as a contiguous run.
#[verifier::external_body]
fn contains(s: &str, p: &str) -> (r: bool)
    ensures
        r == has_infix(s@, p@),
{
    s.contains(p)
}

/// Classifies a prompt that is already lower case.
pub fn detect_task_type_lowered(lower: &str) -> (r: &'static str)
    ensures
        r@ == task_type_of(lower@),
{
    if contains(lower, "lint") || contains(lower, "format") {
        "lint"
    } else if contains(lower, "explain") || contains(lower, "what") {
        "explain"
    } else if contains(lower, "create") || contains(lower, "build") {
        "create"
    } else if contains(lower, "architect") || contains(lower, "design") {
        "architect"
    } else {
        "debug"
    }
}

/// Routes a prompt to a task category by keywords, ignoring case.
pub fn detect_task_type(prompt: &str) -> (r: &'static str)
    ensures
        r@ == task_type_of(lower_of(prompt@)),
{
    let lower = lowercase(prompt);
    detect_task_type_lowered(lower.as_str())
}

} // verus!
