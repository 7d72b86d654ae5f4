use herald::board::Color;
use herald::markup::{parse_color_markup, ColoredChar};

fn chars_text(chars: &[ColoredChar]) -> String {
    chars.iter().map(|c| c.ch).collect()
}

#[test]
fn plain_text_no_markup() {
    let result = parse_color_markup("HELLO");
    assert_eq!(result.len(), 5);
    assert_eq!(chars_text(&result), "HELLO");
    assert!(result.iter().all(|c| c.color.is_none()));
}

#[test]
fn single_color_tag() {
    let result = parse_color_markup("{red}HI{/red}");
    assert_eq!(result.len(), 2);
    assert_eq!(result[0], ColoredChar { ch: 'H', color: Some(Color::Red) });
    assert_eq!(result[1], ColoredChar { ch: 'I', color: Some(Color::Red) });
}

#[test]
fn shorthand_close() {
    let result = parse_color_markup("{red}HI{}");
    assert_eq!(result.len(), 2);
    assert_eq!(result[0], ColoredChar { ch: 'H', color: Some(Color::Red) });
    assert_eq!(result[1], ColoredChar { ch: 'I', color: Some(Color::Red) });
}

#[test]
fn mixed_colored_and_plain() {
    let result = parse_color_markup("A{blue}BC{}D");
    assert_eq!(result.len(), 4);
    assert_eq!(result[0], ColoredChar { ch: 'A', color: None });
    assert_eq!(result[1], ColoredChar { ch: 'B', color: Some(Color::Blue) });
    assert_eq!(result[2], ColoredChar { ch: 'C', color: Some(Color::Blue) });
    assert_eq!(result[3], ColoredChar { ch: 'D', color: None });
}

#[test]
fn nested_colors() {
    let result = parse_color_markup("{red}A{blue}B{/blue}C{/red}");
    assert_eq!(result.len(), 3);
    assert_eq!(result[0], ColoredChar { ch: 'A', color: Some(Color::Red) });
    assert_eq!(result[1], ColoredChar { ch: 'B', color: Some(Color::Blue) });
    assert_eq!(result[2], ColoredChar { ch: 'C', color: Some(Color::Red) });
}

#[test]
fn invalid_tag_rendered_literally() {
    let result = parse_color_markup("{invalid}HI");
    assert_eq!(chars_text(&result), "{invalid}HI");
    assert!(result.iter().all(|c| c.color.is_none()));
}

#[test]
fn empty_input() {
    let result = parse_color_markup("");
    assert!(result.is_empty());
}

#[test]
fn unclosed_brace() {
    let result = parse_color_markup("{red");
    assert_eq!(chars_text(&result), "{red");
    assert!(result.iter().all(|c| c.color.is_none()));
}

#[test]
fn close_without_open() {
    let result = parse_color_markup("{/red}HI");
    assert_eq!(chars_text(&result), "{/red}HI");
    assert!(result.iter().all(|c| c.color.is_none()));
}

#[test]
fn all_colors_supported() {
    let colors = [
        ("red", Color::Red),
        ("orange", Color::Orange),
        ("yellow", Color::Yellow),
        ("green", Color::Green),
        ("blue", Color::Blue),
        ("violet", Color::Violet),
        ("white", Color::White),
        ("black", Color::Black),
    ];
    for (name, expected) in colors {
        let input = format!("{{{name}}}X{{/{name}}}");
        let result = parse_color_markup(&input);
        assert_eq!(result.len(), 1, "failed for {name}");
        assert_eq!(result[0].color, Some(expected), "wrong color for {name}");
        assert_eq!(result[0].ch, 'X');
    }
}

#[test]
fn case_insensitive_tags() {
    let result = parse_color_markup("{RED}HI{/RED}");
    assert_eq!(result.len(), 2);
    assert_eq!(result[0], ColoredChar { ch: 'H', color: Some(Color::Red) });
    assert_eq!(result[1], ColoredChar { ch: 'I', color: Some(Color::Red) });
}

#[test]
fn adjacent_tags() {
    let result = parse_color_markup("{red}A{/red}{blue}B{/blue}");
    assert_eq!(result.len(), 2);
    assert_eq!(result[0], ColoredChar { ch: 'A', color: Some(Color::Red) });
    assert_eq!(result[1], ColoredChar { ch: 'B', color: Some(Color::Blue) });
}

#[test]
fn color_with_spaces() {
    let result = parse_color_markup("{red}A B{/red}");
    assert_eq!(result.len(), 3);
    assert_eq!(result[0], ColoredChar { ch: 'A', color: Some(Color::Red) });
    assert_eq!(result[1], ColoredChar { ch: ' ', color: Some(Color::Red) });
    assert_eq!(result[2], ColoredChar { ch: 'B', color: Some(Color::Red) });
}

#[test]
fn markup_never_lengthens_text() {
    for input in ["{red}A{/red}", "plain", "{x}{y}", "{blue}AB{}{green}C"] {
        let result = parse_color_markup(input);
        assert!(result.len() <= input.chars().count(), "input {input:?}");
    }
}

#[test]
fn markup_free_text_is_copied_uncoloured() {
    let result = parse_color_markup("NO TAGS HERE 123");
    assert_eq!(chars_text(&result), "NO TAGS HERE 123");
    assert!(result.iter().all(|c| c.color.is_none()));
}
