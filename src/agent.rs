//! Scripts that drive a page in an automated browser window: each moves a
//! visible cursor to the element that a CSS selector names, then acts on it.
use vstd::prelude::*;
use vstd::string::StrSliceExecFns;
use crate::text::{joined, new_unique_id};

verus! {

/// The cursor script up to the selector: it makes sure the cursor element exists.
pub const CURSOR_HEAD: &'static str = r#"
        (async function() {
            // 1. Ensure Cursor Exists
            let cursor = document.getElementById('agent-cursor');
            if (!cursor) {
                cursor = document.createElement('div');
                cursor.id = 'agent-cursor';
                cursor.style.cssText = `
                    position: fixed;
                    top: 0;
                    left: 0;
                    width: 20px;
                    height: 20px;
                    z-index: 2147483647;
                    pointer-events: none;
                    transition: transform 0.8s cubic-bezier(0.22, 1, 0.36, 1);
                    filter: drop-shadow(0 2px 4px rgba(0,0,0,0.2));
                `;
                cursor.innerHTML = `
                    <svg width="24" height="24" viewBox="0 0 24 24" fill="none" stroke="black" stroke-width="2" stroke-linecap="round" stroke-linejoin="round" style="fill: #3b82f6; stroke: white; transform: rotate(-15deg);">
                        <path d="M3 3l7.07 16.97 2.51-7.39 7.39-2.51L3 3z"></path>
                    </svg>
                    <div style="
                        position: absolute;
                        left: 24px;
                        top: 12px;
                        background: #3b82f6;
                        color: white;
                        padding: 2px 6px;
                        border-radius: 4px;
                        font-family: sans-serif;
                        font-size: 10px;
                        font-weight: bold;
                        white-space: nowrap;
                    ">Agent</div>
                `;
                document.body.appendChild(cursor);
            }

            // 2. Find Element and Calculate Position
            const el = document.querySelector(""#;

/// The cursor script between the selector and the action: it moves the cursor to the element's centre and pulses it.
pub const CURSOR_MIDDLE: &'static str = r#"");
            if (el) {
                const rect = el.getBoundingClientRect();
                // Target center of element
                const x = rect.left + (rect.width / 2);
                const y = rect.top + (rect.height / 2);
                
                // 3. Move Cursor
                cursor.style.transform = `translate(${x}px, ${y}px)`;
                
                // small visual cue for click
                cursor.querySelector('svg').style.transform = 'rotate(-15deg) scale(1)';

                // 4. Wait for animation
                await new Promise(r => setTimeout(r, 800));

                // 5. Click Effect (Pulse)
                cursor.querySelector('svg').style.transform = 'rotate(-15deg) scale(0.8)';
                setTimeout(() => cursor.querySelector('svg').style.transform = 'rotate(-15deg) scale(1)', 150);

                // 6. Execute Action
                "#;

/// The end of the cursor script.
pub const CURSOR_TAIL: &'static str = r#"
            }
        })();
    "#;

/// The action that clicks the element.
pub const CLICK_ACTION: &'static str = r#"
        el.click();
        const mouseEvent = new MouseEvent('click', {
            view: window,
            bubbles: true,
            cancelable: true
        });
        el.dispatchEvent(mouseEvent);
    "#;

/// The action that moves the mouse over the element.
pub const HOVER_ACTION: &'static str = r#"
        const mouseover = new MouseEvent('mouseover', {
            view: window,
            bubbles: true,
            cancelable: true
        });
        const mouseenter = new MouseEvent('mouseenter', {
            view: window,
            bubbles: true,
            cancelable: true
        });
        el.dispatchEvent(mouseover);
        el.dispatchEvent(mouseenter);
    "#;

/// The typing action up to the text.
pub const TYPE_HEAD: &'static str = r#"
        el.focus();
        el.value = ""#;

/// The typing action after the text: it signals input and change.
pub const TYPE_TAIL: &'static str = r#"";
        el.dispatchEvent(new Event('input', { bubbles: true }));
        el.dispatchEvent(new Event('change', { bubbles: true }));
    "#;

/// The scrolling script up to the selector.
pub const SCROLL_HEAD: &'static str = r#"
        (async function() {
             // Ensure Cursor
            let cursor = document.getElementById('agent-cursor');
            if (!cursor) {
                 cursor = document.createElement('div');
                 cursor.id = 'agent-cursor';
                 // ... (inject style same as above for consistency, abbreviated here but should be full)
                 cursor.style.cssText = `position: fixed; top: 0; left: 0; width: 20px; height: 20px; z-index: 2147483647; pointer-events: none; transition: transform 0.8s cubic-bezier(0.22, 1, 0.36, 1); filter: drop-shadow(0 2px 4px rgba(0,0,0,0.2));`;
                 cursor.innerHTML = `<svg width="24" height="24" viewBox="0 0 24 24" fill="none" stroke="black" stroke-width="2" stroke-linecap="round" stroke-linejoin="round" style="fill: #3b82f6; stroke: white; transform: rotate(-15deg);"><path d="M3 3l7.07 16.97 2.51-7.39 7.39-2.51L3 3z"></path></svg><div style="position: absolute; left: 24px; top: 12px; background: #3b82f6; color: white; padding: 2px 6px; border-radius: 4px; font-family: sans-serif; font-size: 10px; font-weight: bold; white-space: nowrap;">Agent</div>`;
                 document.body.appendChild(cursor);
            }

            const el = document.querySelector(""#;

/// The scrolling script after the selector: it scrolls the element into view, then moves the cursor to it.
pub const SCROLL_TAIL: &'static str = r#"");
            if (el) {
                el.scrollIntoView({ behavior: 'smooth', block: 'center' });
                
                // Update cursor pos after scroll
                await new Promise(r => setTimeout(r, 500));
                const rect = el.getBoundingClientRect();
                const x = rect.left + (rect.width / 2);
                const y = rect.top + (rect.height / 2);
                cursor.style.transform = `translate(${x}px, ${y}px)`;
            }
        })();
    "#;

/// `s` with each double quote preceded by a backslash, so that it can stand
/// inside a double-quoted script string.
pub open spec fn escape_quotes(s: Seq<char>) -> Seq<char>
    decreases s.len(),
{
    if s.len() == 0 {
        Seq::empty()
    } else if s.last() == '"' {
        escape_quotes(s.drop_last()) + seq!['\\', '"']
    } else {
        escape_quotes(s.drop_last()).push(s.last())
    }
}

/// `s` with every `"` written as `\"`.
pub fn escape_quotes_text(s: &str) -> (r: String)
    ensures
        r@ == escape_quotes(s@),
{
    let n = s.unicode_len();
    let mut out = "".to_owned();
    let mut i: usize = 0;
    proof {
        reveal_strlit("");
        assert(s@.subrange(0, 0) =~= Seq::<char>::empty());
    }
    while i < n
        invariant
            i <= n == s@.len(),
            out@ == escape_quotes(s@.subrange(0, i as int)),
        decreases n - i,
    {
        let c = s.get_char(i);
        assert(s@.subrange(0, i + 1).drop_last() =~= s@.subrange(0, i as int));
        if c == '"' {
            proof {
                reveal_strlit("\\\"");
                assert("\\\""@ =~= seq!['\\', '"']);
            }
            out.append("\\\"");
        } else {
            let one = s.substring_char(i, i + 1);
            assert(one@ =~= seq![c]);
            out.append(one);
            assert(out@ =~= escape_quotes(s@.subrange(0, i as int)).push(c));
        }
        i = i + 1;
    }
    assert(s@.subrange(0, i as int) =~= s@);
    out
}

/// The script that brings the cursor to the element that `selector` names
/// and then runs `action_script` there, with the element bound to `el`.
pub fn with_cursor(selector: &str, action_script: &str) -> (r: String)
    ensures
        r@ == CURSOR_HEAD@ + escape_quotes(selector@) + CURSOR_MIDDLE@ + action_script@ + CURSOR_TAIL@,
{
    let mut out = CURSOR_HEAD.to_owned();
    let escaped = escape_quotes_text(selector);
    out.append(escaped.as_str());
    out.append(CURSOR_MIDDLE);
    out.append(action_script);
    out.append(CURSOR_TAIL);
    out
}

/// The script that clicks the element that `selector` names.
pub fn click_script(selector: &str) -> (r: String)
    ensures
        r@ == CURSOR_HEAD@ + escape_quotes(selector@) + CURSOR_MIDDLE@ + CLICK_ACTION@ + CURSOR_TAIL@,
{
    with_cursor(selector, CLICK_ACTION)
}

/// The script that hovers over the element that `selector` names.
pub fn hover_script(selector: &str) -> (r: String)
    ensures
        r@ == CURSOR_HEAD@ + escape_quotes(selector@) + CURSOR_MIDDLE@ + HOVER_ACTION@ + CURSOR_TAIL@,
{
    with_cursor(selector, HOVER_ACTION)
}

/// The script that types `text` into the element that `selector` names.
pub fn type_script(selector: &str, text: &str) -> (r: String)
    ensures
        r@ == CURSOR_HEAD@ + escape_quotes(selector@) + CURSOR_MIDDLE@ + (TYPE_HEAD@
            + escape_quotes(text@) + TYPE_TAIL@) + CURSOR_TAIL@,
{
    let mut action = TYPE_HEAD.to_owned();
    let escaped = escape_quotes_text(text);
    action.append(escaped.as_str());
    action.append(TYPE_TAIL);
    with_cursor(selector, action.as_str())
}

/// The script that scrolls the element that `selector` names into view and
/// then brings the cursor to it.
pub fn scroll_script(selector: &str) -> (r: String)
    ensures
        r@ == SCROLL_HEAD@ + escape_quotes(selector@) + SCROLL_TAIL@,
{
    let mut out = SCROLL_HEAD.to_owned();
    let escaped = escape_quotes_text(selector);
    out.append(escaped.as_str());
    out.append(SCROLL_TAIL);
    out
}

/// The script that copies the page's text into its title, after the marker.
pub const CONTENT_SCRIPT: &'static str = r#"
        (function() {
            const content = document.body.innerText;
            // Limit length to avoid OS issues, maybe truncate
            const safeContent = content.substring(0, 5000).replace(/\n/g, " "); 
            document.title = "AGENT_RES:" + safeContent;
        })();
    "#;

/// What the content script puts before the page text in the title.
pub const CONTENT_MARKER: &'static str = "AGENT_RES:";

/// `s` without every copy of the marker at its start.
pub open spec fn strip_markers(s: Seq<char>) -> Seq<char>
    decreases s.len(),
{
    if s.len() >= CONTENT_MARKER@.len() && CONTENT_MARKER@.len() > 0 && s.subrange(
        0,
        CONTENT_MARKER@.len() as int,
    ) == CONTENT_MARKER@ {
        strip_markers(s.skip(CONTENT_MARKER@.len() as int))
    } else {
        s
    }
}

pub open spec fn starts_with_marker(s: Seq<char>) -> bool {
    s.len() >= CONTENT_MARKER@.len() && s.subrange(0, CONTENT_MARKER@.len() as int)
        == CONTENT_MARKER@
}

/// The page text that a window title carries, once the content script has
/// run: the title without the leading markers. `None` while the title does
/// not start with the marker yet.
pub fn content_from_title(title: &str) -> (r: Option<String>)
    ensures
        starts_with_marker(title@) ==> (r matches Some(c) && c@ == strip_markers(title@)),
        !starts_with_marker(title@) ==> r is None,
{
    proof {
        reveal_strlit("AGENT_RES:");
    }
    let n = title.unicode_len();
    let marker = CONTENT_MARKER.to_owned();
    let m: usize = 10;
    assert(marker@.len() == m);
    if n < m || title.substring_char(0, m).to_owned() != marker {
        return None;
    }
    let mut i: usize = 0;
    assert(title@.skip(0) =~= title@);
    while i <= n - m && title.substring_char(i, i + m).to_owned() == marker
        invariant
            i <= n == title@.len(),
            m == 10 <= n,
            m == CONTENT_MARKER@.len(),
            marker@ == CONTENT_MARKER@,
            strip_markers(title@) == strip_markers(title@.skip(i as int)),
        decreases n - i,
    {
        proof {
            let rest = title@.skip(i as int);
            assert(rest.subrange(0, m as int) =~= title@.subrange(i as int, i + m));
            assert(rest.skip(m as int) =~= title@.skip(i + m));
        }
        i = i + m;
    }
    proof {
        let rest = title@.skip(i as int);
        if rest.len() >= m {
            assert(rest.subrange(0, m as int) =~= title@.subrange(i as int, i + m));
        }
        assert(strip_markers(rest) == rest);
        assert(title@.subrange(i as int, n as int) =~= rest);
        assert(title@.subrange(0, m as int) =~= title@.subrange(0, m as int));
    }
    Some(title.substring_char(i, n).to_owned())
}

/// The fixed start of every automation window's label.
pub const LABEL_PREFIX: &'static str = "agent-";

/// A fresh label for an automation window: the prefix, then a random
/// identifier in hyphenated form.
pub fn new_agent_label() -> (r: String)
    ensures
        r@.len() == LABEL_PREFIX@.len() + 36,
        r@.subrange(0, LABEL_PREFIX@.len() as int) == LABEL_PREFIX@,
{
    let id = new_unique_id();
    let r = joined(LABEL_PREFIX, id.as_str());
    assert(r@.subrange(0, LABEL_PREFIX@.len() as int) =~= LABEL_PREFIX@);
    r
}

} // verus!
