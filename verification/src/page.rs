//! The HTML page that presents a share.
//!
//! The page is a fixed frame around the share's id, which appears twice: in the
//! title, and in the script that tells the viewer which share to load.

use vstd::prelude::*;
use vstd::string::StringExecFns;

verus! {

/// The frame up to the id in the title.
pub open spec fn page_head() -> Seq<char> {
    r#"
<!DOCTYPE html>
<html lang="en">
<head>
    <meta charset="UTF-8">
    <meta name="viewport" content="width=device-width, initial-scale=1.0">
    <title>Opencode Share - "#@
}

/// The frame between the title and the script's copy of the id.
pub open spec fn page_middle() -> Seq<char> {
    r#"</title>
    <meta name="robots" content="noindex, nofollow">
    <meta name="description" content="opencode - The AI coding agent built for the terminal.">
    <script>
        window.SHARE_ID = ""#@
}

/// The frame after the script's copy of the id.
pub open spec fn page_tail() -> Seq<char> {
    r#"";
    </script>
    <script src="/static/share.js" defer></script>
    <link rel="stylesheet" href="/static/share.css">
</head>
<body>
    <div id="app">
        <div class="loading-container">
            <div class="loading-spinner"></div>
            <p>Loading share...</p>
        </div>
    </div>
    
    <div id="error-container" style="display: none;">
        <div class="error-content">
            <h1>Share Not Found</h1>
            <p>The share you're looking for doesn't exist or has been removed.</p>
            <a href="/">Go Home</a>
        </div>
    </div>
</body>
</html>
    "#@
}

/// The whole page for the share `share_id`.
pub open spec fn share_page(share_id: Seq<char>) -> Seq<char> {
    page_head() + share_id + page_middle() + share_id + page_tail()
}

fn head_text() -> (text: &'static str)
    ensures
        text@ == page_head(),
{
    r#"
<!DOCTYPE html>
<html lang="en">
<head>
    <meta charset="UTF-8">
    <meta name="viewport" content="width=device-width, initial-scale=1.0">
    <title>Opencode Share - "#
}

fn middle_text() -> (text: &'static str)
    ensures
        text@ == page_middle(),
{
    r#"</title>
    <meta name="robots" content="noindex, nofollow">
    <meta name="description" content="opencode - The AI coding agent built for the terminal.">
    <script>
        window.SHARE_ID = ""#
}

fn tail_text() -> (text: &'static str)
    ensures
        text@ == page_tail(),
{
    r#"";
    </script>
    <script src="/static/share.js" defer></script>
    <link rel="stylesheet" href="/static/share.css">
</head>
<body>
    <div id="app">
        <div class="loading-container">
            <div class="loading-spinner"></div>
            <p>Loading share...</p>
        </div>
    </div>
    
    <div id="error-container" style="display: none;">
        <div class="error-content">
            <h1>Share Not Found</h1>
            <p>The share you're looking for doesn't exist or has been removed.</p>
            <a href="/">Go Home</a>
        </div>
    </div>
</body>
</html>
    "#
}

/// Renders the page for a share. The id is placed as given, without escaping.
pub fn generate_share_page(share_id: &str) -> (html: String)
    ensures
        html@ == share_page(share_id@),
{
    let mut html = String::from_str(head_text());
    html.append(share_id);
    html.append(middle_text());
    html.append(share_id);
    html.append(tail_text());
    html
}

} // verus!
