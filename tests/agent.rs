use session_engine::agent::{
    content_from_title, new_agent_label, CONTENT_SCRIPT,
    click_script, escape_quotes_text, hover_script, scroll_script, type_script, with_cursor, CLICK_ACTION,
    CURSOR_HEAD, CURSOR_MIDDLE, CURSOR_TAIL,
};

#[test]
fn escape_quotes_in_selector() {
    assert_eq!(escape_quotes_text(r#"a[href="x"]"#), r#"a[href=\"x\"]"#);
    assert_eq!(escape_quotes_text("plain"), "plain");
    assert_eq!(escape_quotes_text(""), "");
}

#[test]
fn with_cursor_places_selector_and_action() {
    let s = with_cursor("#go", "el.click();");
    assert_eq!(s, format!("{}#go{}el.click();{}", CURSOR_HEAD, CURSOR_MIDDLE, CURSOR_TAIL));
    assert!(s.contains("document.querySelector(\"#go\");"));
    assert!(s.contains("cursor.style.transform = `translate(${x}px, ${y}px)`;"));
    assert!(s.trim_end().ends_with("})();"));
}

#[test]
fn click_hover_type_scroll_scripts() {
    assert_eq!(click_script("b"), with_cursor("b", CLICK_ACTION));
    assert!(hover_script("b").contains("mouseenter"));
    let t = type_script("input", "say \"hi\"");
    assert!(t.contains("el.value = \"say \\\"hi\\\"\";"));
    assert!(t.contains("new Event('input', { bubbles: true })"));
    let s = scroll_script("div[id=\"m\"]");
    assert!(s.contains("document.querySelector(\"div[id=\\\"m\\\"]\");"));
    assert!(s.contains("el.scrollIntoView({ behavior: 'smooth', block: 'center' });"));
}

#[test]
fn content_is_read_from_marked_title() {
    assert_eq!(content_from_title("Agent Browser"), None);
    assert_eq!(content_from_title("AGENT_RES"), None);
    assert_eq!(content_from_title("AGENT_RES:Hello page"), Some("Hello page".to_string()));
    assert_eq!(content_from_title("AGENT_RES:AGENT_RES:x"), Some("x".to_string()));
    assert_eq!(content_from_title("AGENT_RES:"), Some(String::new()));
    assert!(CONTENT_SCRIPT.contains("document.title = \"AGENT_RES:\" + safeContent;"));
}

#[test]
fn agent_labels_are_fresh() {
    let a = new_agent_label();
    let b = new_agent_label();
    assert!(a.starts_with("agent-"));
    assert_eq!(a.len(), 42);
    assert_ne!(a, b);
}
