use syntect::parsing::SyntaxSet;
use held::normal_mode::NormalRenderer;
use held::status_line::StatusLineData;
use held::style::{CharStyle, Colors};
use held::workspace::{BufferHandle, Workspace};

fn workspace_with(n: usize) -> Workspace {
    let mut w = Workspace::new(SyntaxSet::load_defaults_newlines());
    for _ in 0..n {
        w.add_buffer(BufferHandle { id: None, absolute_path: None, ino: None, syntax_definition: None });
    }
    for id in 1..=n {
        w.observe_buffer(id);
    }
    w
}

#[test]
fn render_all_draws_current_buffer_last_with_cursor() {
    let mut w = workspace_with(3);
    assert!(w.select_buffer(1));
    // screen is now 2, 3, 1 and buffer 1 is current
    assert_eq!(NormalRenderer::render_all(&w), vec![(0, false), (1, false), (2, true)]);
}

#[test]
fn render_all_without_current_buffer_places_no_cursor() {
    let w = workspace_with(2);
    assert_eq!(NormalRenderer::render_all(&w), vec![(0, false), (1, false)]);
}

#[test]
fn render_all_of_empty_workspace_draws_nothing() {
    let w = Workspace::new(SyntaxSet::load_defaults_newlines());
    assert!(NormalRenderer::render_all(&w).is_empty());
}

#[test]
fn render_draws_only_the_current_buffer() {
    let mut w = workspace_with(3);
    assert!(NormalRenderer::render(&w).is_empty());
    assert!(w.select_buffer(2));
    assert_eq!(NormalRenderer::render(&w), vec![(2, true)]);
}

#[test]
fn render_line_status_puts_mode_name_first() {
    let buffer_part = StatusLineData { content: "main.rs".to_string(), color: Colors::Default, style: CharStyle::Default };
    let datas = NormalRenderer::render_line_status(buffer_part);
    assert_eq!(datas.len(), 2);
    assert_eq!(datas[0].content, " NORMAL ");
    assert_eq!(datas[0].color, Colors::Inverted);
    assert_eq!(datas[0].style, CharStyle::Bold);
    assert_eq!(datas[1].content, "main.rs");
}
