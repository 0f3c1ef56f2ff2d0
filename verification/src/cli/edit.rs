//! `webman node edit`: editing a node's settings in a text editor.
use vstd::prelude::*;

verus! {

/// The node to edit.
pub struct Args {
    pub node_id: String,
}

/// The command that opens `file` in the editor.
pub fn editor_command(file: &str) -> (r: String)
    ensures
        r@ == "nano \""@ + file@ + "\""@,
{
    let mut r = "nano \"".to_owned();
    r.append(file);
    r.append("\"");
    r
}

/// The command that shows what changed between `before` and `after`.
pub fn diff_command(before: &str, after: &str) -> (r: String)
    ensures
        r@ == "git diff --no-index \""@ + before@ + "\" \""@ + after@ + "\" "@,
{
    let mut r = "git diff --no-index \"".to_owned();
    r.append(before);
    r.append("\" \"");
    r.append(after);
    r.append("\" ");
    r
}

/// The text saved for editing: the settings followed by a line feed.
pub fn editable_text(settings: &str) -> (r: String)
    ensures
        r@ == settings@.push('\n'),
{
    let mut r = settings.to_owned();
    crate::text::string_push(&mut r, '\n');
    r
}

} // verus!
