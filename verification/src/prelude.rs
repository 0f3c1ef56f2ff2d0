//! Small shared decisions: debug mode, and the `jq` query over a JSON file.
use vstd::prelude::*;

verus! {

/// Debug mode is on when `WEBMAN_DEBUG` is set to `1`.
pub fn debug_mode(var: Option<&str>) -> (r: bool)
    ensures
        r == match var {
            Some(v) => v@ == "1"@,
            None => false,
        },
{
    match var {
        Some(v) => crate::text::str_eq(v, "1"),
        None => false,
    }
}

/// The shell command that selects, with `jq`, the items of the JSON array
/// in `tmp_file` for which `query` holds; `None` where the query holds a
/// single quote, which would end the quoted filter.
pub fn query_command(tmp_file: &str, query: &str) -> (r: Option<String>)
    ensures
        crate::text::has_char(query@, '\'') ==> r is None,
        !crate::text::has_char(query@, '\'') ==> (r matches Some(c) && c@ == "cat \""@ + tmp_file@
            + "\" | jq '.[] | select("@ + query@ + ")' | jq -s '.'"@),
{
    let q = crate::text::chars_of(query);
    if crate::text::contains_char(&q, '\'') {
        return None;
    }
    let mut c = "cat \"".to_owned();
    c.append(tmp_file);
    c.append("\" | jq '.[] | select(");
    c.append(query);
    c.append(")' | jq -s '.'");
    Some(c)
}

} // verus!
