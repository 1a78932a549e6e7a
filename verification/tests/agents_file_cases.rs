use kanbus::agents_management::{
    build_new_agents_file, find_insert_index, find_kanbus_sections, find_section_end,
    insert_kanbus_section, is_in_sections, join_lines, kanbus_section_lines, kanbus_section_text,
    parse_header, replace_sections, text_lines, SectionMatch,
};

fn lines(text: &[&str]) -> Vec<String> {
    text.iter().map(|line| line.to_string()).collect()
}

#[test]
fn parse_header_accepts_only_real_headers() {
    assert_eq!(parse_header("plain text"), None);
    assert_eq!(parse_header("####### too many"), None);
    assert_eq!(parse_header("#NoSpace"), None);
    assert_eq!(parse_header("# "), None);
    assert_eq!(parse_header("# Header"), Some((1, "Header".to_string())));
    assert_eq!(parse_header("##\tTabbed  \r\n"), Some((2, "Tabbed".to_string())));
}

#[test]
fn find_kanbus_sections_spans_to_next_header_of_same_level() {
    let text = lines(&[
        "# Agent Instructions",
        "",
        "## Project management with KANBUS",
        "old line",
        "### Details",
        "more",
        "## Other",
        "keep",
    ]);
    let sections = find_kanbus_sections(&text);
    assert_eq!(sections.len(), 1);
    assert_eq!((sections[0].start, sections[0].end), (2, 6));
    assert_eq!(find_section_end(&text, 3, 2), 6);
    assert_eq!(find_section_end(&lines(&["No headers"]), 0, 1), 1);
    assert!(is_in_sections(4, &sections));
    assert!(!is_in_sections(6, &sections));
}

#[test]
fn replace_sections_puts_new_section_where_the_first_was() {
    let text = lines(&["# Title", "## Kanbus", "old", "## Other", "keep"]);
    let sections = find_kanbus_sections(&text);
    let primary = SectionMatch { start: sections[0].start, end: sections[0].end };
    let updated = replace_sections(&text, &sections, &primary, &lines(&["## Kanbus", "new"]));
    assert_eq!(updated, "# Title\n## Kanbus\nnew\n## Other\nkeep\n");
    let appended = replace_sections(
        &lines(&["# Header"]),
        &Vec::new(),
        &SectionMatch { start: 1, end: 1 },
        &lines(&["## Project management with Kanbus"]),
    );
    assert_eq!(appended, "# Header\n## Project management with Kanbus\n");
}

#[test]
fn insert_kanbus_section_goes_after_title_and_blank_lines() {
    let text = lines(&["# Title", "", "Intro"]);
    assert_eq!(find_insert_index(&text), 2);
    let updated = insert_kanbus_section(&text, &lines(&["## Kanbus", ""]));
    assert_eq!(updated, "# Title\n\n\n## Kanbus\n\nIntro\n");
    let tight = insert_kanbus_section(&lines(&["# Title", "Intro"]), &lines(&["## Kanbus"]));
    assert_eq!(tight, "# Title\n\n## Kanbus\nIntro\n");
    assert_eq!(find_insert_index(&lines(&["No header here"])), 0);
}

#[test]
fn join_and_split_lines_round_trip() {
    assert_eq!(join_lines(&Vec::new()), "\n");
    assert_eq!(join_lines(&lines(&["a", "b"])), "a\nb\n");
    assert_eq!(text_lines("a\r\nb\n\nc"), lines(&["a", "b", "", "c"]));
    assert_eq!(text_lines("a\n"), lines(&["a"]));
    assert!(text_lines("").is_empty());
}

#[test]
fn kanbus_section_text_has_the_canonical_lines() {
    let text = kanbus_section_text();
    assert!(text.starts_with("## Project management with Kanbus\n\nUse Kanbus for task management.\n"));
    assert_eq!(text.lines().count(), kanbus_section_lines().len());
    let new_file = build_new_agents_file();
    assert!(new_file.starts_with("# Agent Instructions\n\n## Project management with Kanbus\n"));
    assert!(new_file.ends_with("only through Kanbus.\n\n"));
}
