//! Notifications on the desktop.

use vstd::prelude::*;

use crate::text;

verus! {

/// A text with a backslash before each quote.
pub open spec fn escaped(s: Seq<char>) -> Seq<char> {
    text::replaced(s, "\""@, "\\\""@)
}

/// The script that shows a notification on macOS.
pub open spec fn script_of(title: Seq<char>, body: Seq<char>) -> Seq<char> {
    "display notification \""@ + escaped(body) + "\" with title \""@ + escaped(title) + "\""@
}

/// The script that shows a notification on macOS.
pub fn notification_script(title: &str, body: &str) -> (r: String)
    ensures
        r@ == script_of(title@, body@),
{
    let body = text::replace(body, "\"", "\\\"");
    let title = text::replace(title, "\"", "\\\"");
    let mut out = text::join3("display notification \"", body.as_str(), "\" with title \"");
    out.append(title.as_str());
    out.append("\"");
    out
}

/// The line that tells of a notification in a terminal.
pub fn notification_line(title: &str, body: &str) -> (r: String)
    ensures
        r@ == "  🔔 "@ + title@ + " — "@ + body@,
{
    let mut out = text::join3("  🔔 ", title, " — ");
    out.append(body);
    out
}

/// A notification shows its title and its text, each with a backslash before its quotes.
pub proof fn notifications_show_title_and_text(title: Seq<char>, body: Seq<char>)
    ensures
        script_of(title, body) == "display notification \""@ + text::replaced(
            body,
            "\""@,
            "\\\""@,
        ) + "\" with title \""@ + text::replaced(title, "\""@, "\\\""@) + "\""@,
{
}

} // verus!
