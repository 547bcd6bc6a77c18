use tt::render::{count_common_prefix, split_display_lines, ResponseRenderer};

#[test]
fn repaint_twice_writes_nothing_the_second_time() {
    let mut r = ResponseRenderer::new(termimad::MadSkin::default());
    let first = r.repaint("line one\nline two\n");
    assert_eq!(first.clear_lines, 0);
    assert_eq!(first.lines, vec!["line one\n".to_string(), "line two\n".to_string()]);
    let second = r.repaint("line one\nline two\n");
    assert_eq!(second.clear_lines, 0);
    assert!(second.lines.is_empty());
}

#[test]
fn repaint_rewrites_only_the_changed_suffix() {
    let mut r = ResponseRenderer::new(termimad::MadSkin::default());
    r.repaint("a\nb\nc");
    let plan = r.repaint("a\nB\nc\nd\n");
    assert_eq!(plan.clear_lines, 2);
    assert_eq!(plan.lines, vec!["B\n".to_string(), "c\n".to_string(), "d\n".to_string()]);
}

#[test]
fn output_appears_and_stays_until_finish() {
    let mut r = ResponseRenderer::new(termimad::MadSkin::default());
    assert!(!r.has_output());
    assert!(r.render("   \n").is_none());
    assert!(!r.has_output());
    assert!(r.render("Hello").is_some());
    assert!(r.has_output());
    assert!(r.render("Hello **world**").is_some());
    assert!(r.has_output());
    let again = r.render("Hello **world**").expect("plan");
    assert_eq!(again.clear_lines, 0);
    assert!(again.lines.is_empty());
    r.finish();
    assert!(!r.has_output());
}

#[test]
fn display_lines_and_common_prefix() {
    assert_eq!(split_display_lines("x"), vec!["x\n".to_string()]);
    assert_eq!(split_display_lines(""), vec!["\n".to_string()]);
    assert_eq!(
        split_display_lines("a\n\nb\n"),
        vec!["a\n".to_string(), "\n".to_string(), "b\n".to_string()]
    );
    let a = vec!["1".to_string(), "2".to_string(), "3".to_string()];
    let b = vec!["1".to_string(), "2".to_string(), "x".to_string(), "4".to_string()];
    assert_eq!(count_common_prefix(&a, &b), 2);
    assert_eq!(count_common_prefix(&a, &a), 3);
    assert_eq!(count_common_prefix(&[], &a), 0);
}

#[test]
fn output_stays_over_many_growing_renders() {
    let mut r = ResponseRenderer::new(termimad::MadSkin::default());
    assert!(!r.has_output());
    let mut text = String::from("# Title");
    for piece in [" more", "\n\n- item", " ", "\n```\ncode\n```", "!"] {
        assert!(r.render(&text).is_some());
        assert!(r.has_output());
        text.push_str(piece);
    }
    r.finish();
    assert!(!r.has_output());
}
