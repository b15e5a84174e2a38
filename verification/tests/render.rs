use ndir::{decimal_text, format_path, line_parts, Entry, Line, NavState, Renderer, Style};

fn make_state(cwd: &str) -> NavState {
    NavState {
        cwd: cwd.to_string(),
        selected: 0,
        query: String::new(),
        show_hidden: false,
        show_files: false,
        scroll_offset: 0,
    }
}

fn dirs(n: usize) -> Vec<Entry> {
    (0..n).map(|i| Entry { name: format!("d{}", i), is_dir: true }).collect()
}

#[test]
fn format_path_replaces_home_with_tilde() {
    let home = "/home/someone";
    let path = format!("{}/projects/ndir", home);
    assert_eq!(format_path(&path, Some(home)), "~/projects/ndir");
}

#[test]
fn format_path_returns_full_path_outside_home() {
    assert_eq!(format_path("/tmp/some/path", Some("/home/someone")), "/tmp/some/path");
    assert_eq!(format_path("/tmp/some/path", None), "/tmp/some/path");
}

#[test]
fn format_path_home_itself() {
    let home = "/home/someone";
    assert_eq!(format_path(home, Some(home)), "~/");
}

#[test]
fn format_path_needs_whole_components() {
    assert_eq!(format_path("/home/someoneelse/x", Some("/home/someone")), "/home/someoneelse/x");
}

#[test]
fn render_empty_listing() {
    let r = Renderer::new();
    let frame = r.render(&make_state("/tmp"), &[], None);
    assert_eq!(frame.rewind, 0);
    assert_eq!(frame.clear, 0);
    assert_eq!(frame.lines.len(), 3);
    assert!(matches!(&frame.lines[0], Line::Header { path, hidden: false, files: false } if path == "/tmp"));
    assert!(matches!(frame.lines[1], Line::Empty));
    assert!(matches!(frame.lines[2], Line::Footer));
}

#[test]
fn render_shows_query_selection_and_more_counts() {
    let r = Renderer::new();
    let mut state = make_state("/home/someone/x");
    state.query = "d".into();
    state.show_hidden = true;
    state.selected = 7;
    state.scroll_offset = 2;
    let entries = dirs(20);
    let frame = r.render(&state, &entries, Some("/home/someone"));
    // header, query, "(2 more)", 15 entries, "(3 more)", footer
    assert_eq!(frame.lines.len(), 1 + 1 + 1 + 15 + 1 + 1);
    assert!(matches!(&frame.lines[0], Line::Header { path, hidden: true, files: false } if path == "~/x"));
    assert!(matches!(&frame.lines[1], Line::Query(q) if q == "d"));
    assert!(matches!(frame.lines[2], Line::More(2)));
    assert!(matches!(&frame.lines[3], Line::Item { name, is_dir: true, selected: false } if name == "d2"));
    assert!(matches!(&frame.lines[8], Line::Item { name, selected: true, .. } if name == "d7"));
    assert!(matches!(frame.lines[18], Line::More(3)));
    assert!(matches!(frame.lines[19], Line::Footer));
    let selected = frame
        .lines
        .iter()
        .filter(|l| matches!(l, Line::Item { selected: true, .. }))
        .count();
    assert_eq!(selected, 1);
}

#[test]
fn render_flash_shown_once_and_frames_rewind() {
    let mut r = Renderer::new();
    let state = make_state("/tmp");
    let entries = dirs(2);
    r.set_flash("Copied!");
    let first = r.render(&state, &entries, None);
    assert_eq!(first.lines.len(), 5);
    assert!(matches!(&first.lines[3], Line::Flash(m) if m == "Copied!"));
    r.flash_shown();
    r.frame_shown(&first);
    let second = r.render(&state, &entries, None);
    assert_eq!(second.rewind, 5);
    assert_eq!(second.lines.len(), 4);
    assert_eq!(second.clear, 1);
    assert!(!second.lines.iter().any(|l| matches!(l, Line::Flash(_))));
    r.frame_shown(&second);
    assert_eq!(r.lines_on_screen(), 4);
    r.cleanup();
    assert_eq!(r.lines_on_screen(), 0);
    r.cleanup();
    assert_eq!(r.lines_on_screen(), 0);
    assert_eq!(r.render(&state, &entries, None).rewind, 0);
}

#[test]
fn render_keeps_state_until_frame_is_shown() {
    let mut r = Renderer::new();
    let state = make_state("/tmp");
    r.set_flash("Copied!");
    let first = r.render(&state, &dirs(1), None);
    // the frame was never drawn: the message is still pending, nothing is on screen
    let again = r.render(&state, &dirs(1), None);
    assert_eq!(again.rewind, 0);
    assert!(again.lines.iter().any(|l| matches!(l, Line::Flash(m) if m == "Copied!")));
    assert_eq!(first.lines.len(), again.lines.len());
}

fn texts(line: &Line) -> Vec<(Style, String)> {
    line_parts(line).into_iter().map(|p| (p.style, p.text)).collect()
}

#[test]
fn line_parts_of_header_and_items() {
    let header = Line::Header { path: "~/projects".into(), hidden: true, files: true };
    assert_eq!(
        texts(&header),
        vec![
            (Style::Heading, "  ~/projects".to_string()),
            (Style::Marker, " [H]".to_string()),
            (Style::Marker, " [F]".to_string()),
        ]
    );
    let selected = Line::Item { name: "frontend".into(), is_dir: true, selected: true };
    assert_eq!(texts(&selected), vec![(Style::Highlight, " > frontend/".to_string())]);
    let dir = Line::Item { name: "backend".into(), is_dir: true, selected: false };
    assert_eq!(texts(&dir), vec![(Style::Directory, "   backend/".to_string())]);
    let file = Line::Item { name: "notes.txt".into(), is_dir: false, selected: false };
    assert_eq!(texts(&file), vec![(Style::Dim, "   notes.txt".to_string())]);
    let selected_file = Line::Item { name: "notes.txt".into(), is_dir: false, selected: true };
    assert_eq!(texts(&selected_file), vec![(Style::Highlight, " > notes.txt".to_string())]);
}

#[test]
fn line_parts_of_other_lines() {
    assert_eq!(texts(&Line::Query("ab".into())), vec![(Style::Plain, "  > ab".to_string())]);
    assert_eq!(texts(&Line::Empty), vec![(Style::Dim, "  (empty)".to_string())]);
    assert_eq!(texts(&Line::More(12)), vec![(Style::Dim, "  (12 more)".to_string())]);
    assert_eq!(texts(&Line::Flash("Copied!".into())), vec![(Style::Message, "  Copied!".to_string())]);
    assert_eq!(
        texts(&Line::Footer),
        vec![(
            Style::Dim,
            "  enter:cd  tab:here  arrows:navigate  esc:quit".to_string()
        )]
    );
}

#[test]
fn decimal_text_writes_numbers() {
    assert_eq!(decimal_text(0), "0");
    assert_eq!(decimal_text(7), "7");
    assert_eq!(decimal_text(10), "10");
    assert_eq!(decimal_text(1234567890), "1234567890");
    assert_eq!(decimal_text(usize::MAX), usize::MAX.to_string());
}

#[test]
fn readme_demo_frame() {
    let r = Renderer::new();
    let state = make_state("/home/u/projects");
    let entries: Vec<Entry> = ["frontend", "backend", "scripts", "docs"]
        .iter()
        .map(|n| Entry { name: n.to_string(), is_dir: true })
        .collect();
    let frame = r.render(&state, &entries, Some("/home/u"));
    let text: Vec<String> = frame
        .lines
        .iter()
        .map(|l| line_parts(l).into_iter().map(|p| p.text).collect::<String>())
        .collect();
    assert_eq!(
        text,
        vec![
            "  ~/projects",
            " > frontend/",
            "   backend/",
            "   scripts/",
            "   docs/",
            "  enter:cd  tab:here  arrows:navigate  esc:quit",
        ]
    );
}
