use bema::terminal_runner::{TermCmd, TerminalRunner};
use bema::SlideItem;

#[test]
fn text_item_renders_centered_lines() {
    let runner = TerminalRunner {};
    let item = SlideItem::Text { text: "ab\ncdef".to_string() };
    let cmds = runner.render_item(&item, 0, 10);
    assert_eq!(cmds.len(), 2);
    match (&cmds[0], &cmds[1]) {
        (
            TermCmd::TextLine { indent: i1, text: t1 },
            TermCmd::TextLine { indent: i2, text: t2 },
        ) => {
            // the longer line decides: (10 - 4) / 2 = 3
            assert_eq!((*i1, t1.as_str()), (3, "ab"));
            assert_eq!((*i2, t2.as_str()), (3, "cdef"));
        },
        _ => panic!("expected two text lines"),
    }
}

#[test]
fn cols_gives_children_their_own_origins() {
    let runner = TerminalRunner {};
    let item = SlideItem::Cols {
        items: vec![
            SlideItem::Text { text: "a".to_string() },
            SlideItem::Text { text: "b".to_string() },
        ],
    };
    let cmds = runner.render_item(&item, 0, 10);
    assert_eq!(cmds.len(), 2);
    match (&cmds[0], &cmds[1]) {
        (
            TermCmd::TextLine { indent: i1, text: t1 },
            TermCmd::TextLine { indent: i2, text: t2 },
        ) => {
            // shares of width 5: offsets 0 + (5-1)/2 and 5 + (5-1)/2
            assert_eq!((*i1, t1.as_str()), (2, "a"));
            assert_eq!((*i2, t2.as_str()), (7, "b"));
        },
        _ => panic!("expected two text lines"),
    }
}

#[test]
fn framed_draws_rules_around_children() {
    let runner = TerminalRunner {};
    let item = SlideItem::Framed { items: vec![SlideItem::Text { text: "x".to_string() }] };
    let cmds = runner.render_item(&item, 1, 8);
    assert_eq!(cmds.len(), 3);
    assert!(matches!(cmds[0], TermCmd::Rule { indent: 1, width: 8 }));
    assert!(matches!(cmds[1], TermCmd::TextLine { .. }));
    assert!(matches!(cmds[2], TermCmd::Rule { indent: 1, width: 8 }));
}

#[test]
fn image_item_is_delegated_with_its_bytes() {
    let runner = TerminalRunner {};
    let item = SlideItem::Image {
        image: vec![1u8, 2, 3],
        extension: ".png".to_string(),
        width: Some(40),
    };
    let cmds = runner.render_item(&item, 0, 80);
    assert_eq!(cmds.len(), 1);
    match &cmds[0] {
        TermCmd::ShowImage { bytes, extension } => {
            assert_eq!(bytes, &vec![1u8, 2, 3]);
            assert_eq!(extension, ".png");
        },
        _ => panic!("expected the image command"),
    }
}

#[test]
fn known_language_yields_colored_runs() {
    let runner = TerminalRunner {};
    let item = SlideItem::Code {
        extension: "rs".to_string(),
        source: "fn main() {}".to_string(),
    };
    let cmds = runner.render_item(&item, 0, 80);
    assert_eq!(cmds.len(), 1);
    match &cmds[0] {
        TermCmd::CodeLine { indent, runs } => {
            // justification over the split source: (80 - 12) / 2 = 34
            assert_eq!(*indent, 34);
            assert!(!runs.is_empty());
            let joined: String = runs.iter().map(|r| r.text.as_str()).collect();
            assert_eq!(joined, "fn main() {}");
        },
        _ => panic!("expected a highlighted code line"),
    }
}

#[test]
fn unknown_language_falls_back_to_plain_text() {
    let runner = TerminalRunner {};
    let item = SlideItem::Code {
        extension: "zzzznotalanguage".to_string(),
        source: "plain".to_string(),
    };
    let cmds = runner.render_item(&item, 0, 11);
    assert_eq!(cmds.len(), 1);
    match &cmds[0] {
        TermCmd::TextLine { indent, text } => {
            assert_eq!(*indent, 3);
            assert_eq!(text, "plain");
        },
        _ => panic!("expected the plain-text fallback"),
    }
}

#[test]
fn slide_renders_title_then_items() {
    let runner = TerminalRunner {};
    let slide = bema::Slide {
        title: "hi".to_string(),
        items: vec![SlideItem::Text { text: "body".to_string() }],
    };
    let cmds = runner.render_slide(&slide, 10);
    assert_eq!(cmds.len(), 2);
    match &cmds[0] {
        TermCmd::Title { indent, text } => {
            assert_eq!(*indent, 4);
            assert_eq!(text, "hi");
        },
        _ => panic!("expected the title"),
    }
    assert!(matches!(&cmds[1], TermCmd::TextLine { .. }));
}
