use bema::hovercraft_runner::ExportOp;
use bema::SlideItem;
use bema::{slides, Helper, HovercraftRunner};

fn line(op: &ExportOp) -> &str {
    match op {
        ExportOp::Line { text } => text.as_str(),
        ExportOp::ImageFile { .. } => panic!("expected a line"),
    }
}

#[test]
fn export_round_trip() {
    let input_bytes = vec![1u8, 2, 3, 4];
    let expected = input_bytes.clone();
    let deck = slides(move |b| {
        b.slide("t", move |s| {
            s.text("a").code("c", "x").image(vec![1u8, 2, 3, 4], ".png", None)
        })
    });
    let ops = HovercraftRunner {}.render(&deck);
    assert_eq!(ops.len(), 11);
    assert_eq!(line(&ops[0]), "");
    assert_eq!(line(&ops[1]), "t");
    assert_eq!(line(&ops[2]), "=");
    assert_eq!(line(&ops[3]), "");
    assert_eq!(line(&ops[4]), "a");
    assert_eq!(line(&ops[5]), ".. code:: c");
    assert_eq!(line(&ops[6]), "");
    assert_eq!(line(&ops[7]), "  x");
    match &ops[8] {
        ExportOp::ImageFile { path, bytes } => {
            assert_eq!(path, "bema_0.png");
            assert_eq!(bytes, &expected);
        },
        _ => panic!("expected the image file"),
    }
    assert_eq!(line(&ops[9]), ".. image:: bema_0.png");
    assert_eq!(line(&ops[10]), "");
}

#[test]
fn export_separates_slides_and_numbers_images() {
    let deck = slides(|b| {
        b.slide("one", |s| s.image(vec![9u8], ".png", None))
            .slide("two", |s| s.image(vec![8u8], ".gif", Some(12)))
    });
    let ops = HovercraftRunner {}.render(&deck);
    let lines: Vec<String> = ops
        .iter()
        .filter_map(|op| match op {
            ExportOp::Line { text } => Some(text.clone()),
            _ => None,
        })
        .collect();
    assert!(lines.contains(&"----".to_string()));
    assert!(lines.contains(&".. image:: bema_0.png".to_string()));
    assert!(lines.contains(&".. image:: bema_1.gif".to_string()));
    assert!(lines.contains(&"   :width: 12 px".to_string()));
    assert!(lines.contains(&"===".to_string()));
}

#[test]
fn export_splits_code_and_text_lines() {
    let deck = slides(|b| b.slide("s", |s| s.code("c", "l1\nl2").t("hello")));
    let ops = HovercraftRunner {}.render(&deck);
    let lines: Vec<String> = ops
        .iter()
        .map(|op| line(op).to_string())
        .collect();
    assert_eq!(
        lines,
        vec!["", "s", "=", "", ".. code:: c", "", "  l1", "  l2", "hello", ""]
    );
}

#[test]
fn export_flattens_containers_in_order() {
    let deck = slides(|b| {
        b.slide("s", |s| {
            s.cols(|c| c.t("left").t("right")).framed(|f| f.t("boxed")).rows(|r| r.t("below"))
        })
    });
    let ops = HovercraftRunner {}.render(&deck);
    let lines: Vec<String> = ops.iter().map(|op| line(op).to_string()).collect();
    assert_eq!(lines, vec!["", "s", "=", "", "left", "right", "boxed", "below", ""]);
}

#[test]
fn render_item_threads_image_counter() {
    let deck = slides(|b| {
        b.slide("s", |s| s.image(vec![1u8], ".png", None).image(vec![2u8], ".png", None))
    });
    let slide = &deck.slides[0];
    let mut img_i = 0usize;
    let runner = HovercraftRunner {};
    let mut all = Vec::new();
    for item in &slide.items {
        all.extend(runner.render_item(item, &mut img_i));
    }
    assert_eq!(img_i, 2);
    let paths: Vec<String> = all
        .iter()
        .filter_map(|op| match op {
            ExportOp::ImageFile { path, .. } => Some(path.clone()),
            _ => None,
        })
        .collect();
    assert_eq!(paths, vec!["bema_0.png".to_string(), "bema_1.png".to_string()]);
}

#[test]
fn builder_preserves_order_and_payloads() {
    let deck = slides(|b| b.slide("title", |s| s.t("x").text("y")));
    assert_eq!(deck.slides.len(), 1);
    assert_eq!(deck.slides[0].title, "title");
    let items = &deck.slides[0].items;
    assert_eq!(items.len(), 2);
    match (&items[0], &items[1]) {
        (SlideItem::Text { text: a }, SlideItem::Text { text: b }) => {
            assert_eq!(a, "x");
            assert_eq!(b, "y");
        },
        _ => panic!("expected two text items"),
    }
}

#[test]
fn deck_clone_is_deeply_equal() {
    let deck = slides(|b| b.slide("t", |s| s.t("x").code("c", "y")));
    let copy = deck.clone();
    assert_eq!(copy.slides.len(), 1);
    assert_eq!(copy.slides[0].title, "t");
    match &copy.slides[0].items[1] {
        bema::SlideItem::Code { extension, source } => {
            assert_eq!(extension, "c");
            assert_eq!(source, "y");
        },
        _ => panic!("expected the code item"),
    }
}
