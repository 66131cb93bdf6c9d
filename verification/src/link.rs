//! The markup of cross-reference links and of inert code spans.

use vstd::prelude::*;
use vstd::string::*;

verus! {

/// Inline code that links nowhere.
pub open spec fn code_span(text: Seq<char>) -> Seq<char> {
    "`"@ + text + "`"@
}

/// Link to a type or to a global constant.
pub open spec fn item_link(name: Seq<char>) -> Seq<char> {
    "[`"@ + name + "`][crate::"@ + name + "]"@
}

/// Link to a member of an enumeration or of a flag type.
pub open spec fn member_link(owner: Seq<char>, member: Seq<char>) -> Seq<char> {
    "[`"@ + owner + "::"@ + member + "`][crate::"@ + owner + "::"@ + member + "]"@
}

/// Link to a function of a type: `visible` is the type as the reader sees
/// it, `owner` the path that the link targets.
pub open spec fn method_link(owner: Seq<char>, visible: Seq<char>, function: Seq<char>) -> Seq<char> {
    "[`"@ + visible + "::"@ + function + "()`][crate::"@ + owner + "::"@ + function + "()]"@
}

/// Link to a free function.
pub open spec fn function_link(function: Seq<char>) -> Seq<char> {
    "[`"@ + function + "()`][crate::"@ + function + "()]"@
}

/// Inline code that links nowhere.
pub fn make_code_span(text: &str) -> (out: String)
    ensures
        out@ == code_span(text@),
{
    let mut out = String::from_str("`");
    out.append(text);
    out.append("`");
    out
}

/// Link to a type or to a global constant.
pub fn make_item_link(name: &str) -> (out: String)
    ensures
        out@ == item_link(name@),
{
    let mut out = String::from_str("[`");
    out.append(name);
    out.append("`][crate::");
    out.append(name);
    out.append("]");
    out
}

/// Link to a member of an enumeration or of a flag type.
pub fn make_member_link(owner: &str, member: &str) -> (out: String)
    ensures
        out@ == member_link(owner@, member@),
{
    let mut out = String::from_str("[`");
    out.append(owner);
    out.append("::");
    out.append(member);
    out.append("`][crate::");
    out.append(owner);
    out.append("::");
    out.append(member);
    out.append("]");
    out
}

/// Link to a function of a type.
pub fn make_method_link(owner: &str, visible: &str, function: &str) -> (out: String)
    ensures
        out@ == method_link(owner@, visible@, function@),
{
    let mut out = String::from_str("[`");
    out.append(visible);
    out.append("::");
    out.append(function);
    out.append("()`][crate::");
    out.append(owner);
    out.append("::");
    out.append(function);
    out.append("()]");
    out
}

/// Link to a free function.
pub fn make_function_link(function: &str) -> (out: String)
    ensures
        out@ == function_link(function@),
{
    let mut out = String::from_str("[`");
    out.append(function);
    out.append("()`][crate::");
    out.append(function);
    out.append("()]");
    out
}

} // verus!
