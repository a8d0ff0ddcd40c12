use aetheris_app::ansi::parse_ansi_line;

#[test]
fn parse_ansi_line_strips_escape_codes_from_plain_text() {
    let segments = parse_ansi_line("no colors here");
    assert_eq!(segments, vec![(String::from("no colors here"), vec![])]);
}

#[test]
fn parse_ansi_line_extracts_a_single_color() {
    let segments = parse_ansi_line("\u{1b}[32mINFO\u{1b}[0m starting up");
    assert_eq!(
        segments,
        vec![
            (String::from("INFO"), vec!["ansi-fg-green"]),
            (String::from(" starting up"), vec![]),
        ]
    );
}

#[test]
fn parse_ansi_line_combines_bold_and_color_in_one_sequence() {
    let segments = parse_ansi_line("\u{1b}[1;31mERROR\u{1b}[0m failed");
    assert_eq!(
        segments,
        vec![
            (String::from("ERROR"), vec!["ansi-bold", "ansi-fg-red"]),
            (String::from(" failed"), vec![]),
        ]
    );
}

#[test]
fn parse_ansi_line_maps_bright_colors_to_the_base_tag() {
    let segments = parse_ansi_line("\u{1b}[93mWARN\u{1b}[0m");
    assert_eq!(
        segments,
        vec![(String::from("WARN"), vec!["ansi-fg-yellow"])]
    );
}
