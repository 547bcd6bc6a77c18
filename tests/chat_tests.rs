use tt::chat::{
    build_system_prompt, current_os_display_name, current_shell_display_name,
    response_header_line, ChatSession,
};
use tt::render::ResponseRenderer;

#[test]
fn session_prints_header_once_and_renders_growing_text() {
    let mut s = ChatSession::new(ResponseRenderer::new(termimad::MadSkin::default()));
    let a = s.on_text("  ");
    assert!(a.stop_loader && a.print_header);
    assert!(a.repaint.is_none());
    let b = s.on_text("Hello");
    assert!(!b.stop_loader && !b.print_header);
    assert!(b.repaint.is_some());
    let c = s.on_text("");
    assert!(c.repaint.is_some());
    assert!(s.on_end());
    assert!(!s.on_end());
}

#[test]
fn session_with_no_text_reports_empty() {
    let mut s = ChatSession::new(ResponseRenderer::new(termimad::MadSkin::default()));
    assert!(!s.on_end());
    let mut s = ChatSession::new(ResponseRenderer::new(termimad::MadSkin::default()));
    s.on_text("x");
    s.on_failure();
    assert!(!s.on_end());
}

#[test]
fn system_prompt_names_environment() {
    let p = build_system_prompt("m1", "Linux", "/bin/zsh");
    assert!(p.starts_with("You are the command line assistant `tt-cli`."));
    assert!(p.contains("\n- OS: Linux\n- Shell: /bin/zsh\n- Model: m1\n\nRules:\n"));
    assert!(p.ends_with("--dry-run/-n when available."));
}

#[test]
fn os_and_shell_names() {
    assert_eq!(current_os_display_name("macos"), "macOS");
    assert_eq!(current_os_display_name("freebsd"), "FreeBSD");
    assert_eq!(current_os_display_name("haiku"), "haiku");
    assert_eq!(current_shell_display_name(Some(" /bin/bash "), Some("cmd")), "/bin/bash");
    assert_eq!(current_shell_display_name(None, Some("cmd.exe")), "cmd.exe");
    assert_eq!(current_shell_display_name(Some("  "), Some("cmd.exe")), "unknown");
    assert_eq!(current_shell_display_name(None, None), "unknown");
}

#[test]
fn header_line_layout() {
    let line = response_header_line(40, "2s", "m");
    assert_eq!(line.chars().count(), 40);
    assert!(line.starts_with("─ Thought for 2s ─"));
    assert!(line.ends_with("─ m ─"));
    let narrow = response_header_line(5, "2s", "a-very-long-model-name");
    assert_eq!(narrow, "─ Thought for 2s ───");
    assert_eq!(narrow.chars().count(), 20);
}
