use bema::gui_runner::{
    draw_slide, help_deck, image_items, transition_offset, visible_slides, GuiCmd, GuiInput,
    GuiState, TextureCache,
};
use bema::runner::{fit_image_bytes, prepare_texture_bytes};
use bema::{slides, Helper, SlideItem};

fn no_input() -> GuiInput {
    GuiInput {
        next: false,
        prev: false,
        quit: false,
        scale_up: false,
        scale_down: false,
        toggle_help: false,
        toggle_decoration: false,
        toggle_white: false,
        screenshot: false,
        first: false,
    }
}

#[test]
fn debounce_admits_one_transition() {
    let mut s = GuiState::new(1000);
    let next = GuiInput { next: true, ..no_input() };
    // still inside the quantum of the session start: ignored
    s.capture_input(next, 1100, 3);
    assert_eq!(s.i, 0);
    // the quantum has passed: accepted
    s.capture_input(next, 1200, 3);
    assert_eq!(s.i, 1);
    assert_eq!(s.transition_direction, -1);
    // a second press within the quantum: ignored, exactly one transition
    s.capture_input(next, 1350, 3);
    assert_eq!(s.i, 1);
}

#[test]
fn navigation_wraps_and_restarts_transition() {
    let mut s = GuiState::new(0);
    let prev = GuiInput { prev: true, ..no_input() };
    s.capture_input(prev, 500, 3);
    assert_eq!(s.i, 2);
    assert_eq!(s.transition_direction, 1);
    assert_eq!(s.transition_ms, 500);
    assert_eq!(s.antibounce_ms, 500);
}

#[test]
fn toggles_flip_and_navigation_closes_help() {
    let mut s = GuiState::new(0);
    let esc = GuiInput { toggle_help: true, ..no_input() };
    s.capture_input(esc, 300, 2);
    assert!(s.help);
    let both = GuiInput { next: true, toggle_decoration: true, toggle_white: true, ..no_input() };
    s.capture_input(both, 600, 2);
    assert!(!s.help);
    assert!(!s.decoration);
    assert!(s.white_mode);
}

#[test]
fn actions_report_quit_scale_and_screenshot() {
    let mut s = GuiState::new(0);
    let inp = GuiInput { next: true, quit: true, scale_up: true, screenshot: true, ..no_input() };
    let a = s.capture_input(inp, 400, 3);
    assert!(a.quit);
    assert!(a.scale_up);
    assert!(!a.scale_down);
    assert_eq!(a.screenshot, Some(1));
}

#[test]
fn first_slide_key_jumps_home() {
    let mut s = GuiState::new(0);
    let prev = GuiInput { prev: true, ..no_input() };
    s.capture_input(prev, 300, 5);
    assert_eq!(s.i, 4);
    let home = GuiInput { first: true, ..no_input() };
    s.capture_input(home, 600, 5);
    assert_eq!(s.i, 0);
}

#[test]
fn transition_slides_by_elapsed_share() {
    assert_eq!(transition_offset(-1, 100, 1000), (-1, -500));
    assert_eq!(transition_offset(1, 50, 1000), (1, 250));
    assert_eq!(transition_offset(-1, 201, 1000), (0, 0));
    assert_eq!(transition_offset(0, 10, 1000), (0, 0));
    // the last animated frame: the whole width has slid in
    assert_eq!(transition_offset(1, 200, 1000), (1, 1000));
    assert_eq!(transition_offset(-1, 0, 1000), (-1, 0));
}

#[test]
fn framed_consumes_inner_height_behind_a_border() {
    let deck = slides(|b| b.slide("t", |s| s.framed(|f| f.t("a").t("b")).t("after")));
    let cache = TextureCache::new();
    let cmds = draw_slide(&deck, 0, 0, 800, 80, 20, 60, &cache);
    match cmds.iter().find(|c| matches!(c, GuiCmd::Border { .. })).unwrap() {
        GuiCmd::Border { x, y, w, h } => {
            assert_eq!((*x, *y, *w, *h), (0, 260, 800, 120));
        },
        _ => unreachable!(),
    }
    let after_y = cmds
        .iter()
        .filter_map(|c| match c {
            GuiCmd::Text { y, text, .. } if text == "after" => Some(*y),
            _ => None,
        })
        .next()
        .unwrap();
    assert_eq!(after_y, 260 + 120);
}

#[test]
fn out_of_range_index_is_wrapped_when_drawing() {
    let deck = slides(|b| b.slide("a", |s| s.t("x")).slide("b", |s| s.t("y")));
    let cache = TextureCache::new();
    let cmds = draw_slide(&deck, -1, 0, 800, 80, 20, 60, &cache);
    match &cmds[1] {
        GuiCmd::IndexText { text, .. } => assert_eq!(text, "2/2"),
        _ => panic!("expected the slide number"),
    }
}

#[test]
fn three_slides_visible_during_transition() {
    assert_eq!(visible_slides(2, 0, 0, 800), vec![(2, 0)]);
    assert_eq!(
        visible_slides(2, -1, -300, 800),
        vec![(0, -1100), (1, -300), (2, 500)]
    );
}

#[test]
fn texture_cache_keeps_first_dimensions() {
    let mut c = TextureCache::new();
    assert_eq!(c.get(0, 0), None);
    c.insert(0, 0, 64, 32);
    assert_eq!(c.get(0, 0), Some((64, 32)));
    c.insert(0, 0, 9, 9);
    assert_eq!(c.get(0, 0), Some((64, 32)));
    c.insert(1, 0, 7, 8);
    assert_eq!(c.get(1, 0), Some((7, 8)));
    assert_eq!(c.get(0, 1), None);
}

#[test]
fn slide_plan_has_bar_index_title_then_body() {
    let deck = slides(|b| b.slide("hi", |s| s.t("ab\ncd")));
    let cache = TextureCache::new();
    let cmds = draw_slide(&deck, 0, 0, 800, 80, 20, 60, &cache);
    assert!(matches!(cmds[0], GuiCmd::Bar { x: 0, y: 0, w: 800, .. }));
    match &cmds[1] {
        GuiCmd::IndexText { x, y, size, text } => {
            assert_eq!((*x, *y, *size), (20, 20, 20));
            assert_eq!(text, "1/1");
        },
        _ => panic!("expected the slide number"),
    }
    match &cmds[2] {
        GuiCmd::Title { y, size, text, .. } => {
            assert_eq!((*y, *size), (100, 80));
            assert_eq!(text, "hi");
        },
        _ => panic!("expected the title"),
    }
    // two body lines at the text size, stacked below the title block
    match (&cmds[3], &cmds[4]) {
        (GuiCmd::Text { y: y1, text: t1, .. }, GuiCmd::Text { y: y2, text: t2, .. }) => {
            assert_eq!(*y1, 260);
            assert_eq!(*y2, 320);
            assert_eq!(t1, "ab");
            assert_eq!(t2, "cd");
        },
        _ => panic!("expected two text lines"),
    }
    assert_eq!(cmds.len(), 5);
}

#[test]
fn rows_height_is_sum_and_cols_height_is_max() {
    // Rows of two one-line texts consume 2 * 60; Cols of the same consume 60.
    // An extra line under the rows lands 120 below; under the cols, 60 below.
    let rows_deck = slides(|b| {
        b.slide("t", |s| s.rows(|r| r.t("a").t("b")).t("after"))
    });
    let cols_deck = slides(|b| {
        b.slide("t", |s| s.cols(|c| c.t("a").t("b")).t("after"))
    });
    let cache = TextureCache::new();
    let y_after = |cmds: &Vec<GuiCmd>| -> i64 {
        cmds.iter()
            .filter_map(|c| match c {
                GuiCmd::Text { y, text, .. } if text == "after" => Some(*y),
                _ => None,
            })
            .next()
            .unwrap()
    };
    let rows_cmds = draw_slide(&rows_deck, 0, 0, 800, 80, 20, 60, &cache);
    let cols_cmds = draw_slide(&cols_deck, 0, 0, 800, 80, 20, 60, &cache);
    assert_eq!(y_after(&rows_cmds), 260 + 120);
    assert_eq!(y_after(&cols_cmds), 260 + 60);
}

#[test]
fn cols_children_share_the_cursor() {
    let deck = slides(|b| b.slide("t", |s| s.cols(|c| c.t("a").t("b"))));
    let cache = TextureCache::new();
    let cmds = draw_slide(&deck, 0, 0, 800, 80, 20, 60, &cache);
    let ys: Vec<i64> = cmds
        .iter()
        .filter_map(|c| match c {
            GuiCmd::Text { y, .. } => Some(*y),
            _ => None,
        })
        .collect();
    assert_eq!(ys, vec![260, 260]);
}

#[test]
fn uncached_image_is_skipped_and_cached_image_consumes_its_height() {
    let deck = slides(|b| {
        b.slide("t", |s| s.image(vec![1u8], ".png", None).t("after"))
    });
    let empty = TextureCache::new();
    let cmds = draw_slide(&deck, 0, 0, 800, 80, 20, 60, &empty);
    // no texture yet: the image renders nothing and consumes nothing
    assert!(cmds.iter().all(|c| !matches!(c, GuiCmd::Image { .. })));
    let mut cache = TextureCache::new();
    cache.insert(0, 0, 100, 40);
    let cmds = draw_slide(&deck, 0, 0, 800, 80, 20, 60, &cache);
    match cmds.iter().find(|c| matches!(c, GuiCmd::Image { .. })).unwrap() {
        GuiCmd::Image { slide, pos, x, y } => {
            assert_eq!((*slide, *pos), (0, 0));
            assert_eq!(*x, 350);
            assert_eq!(*y, 260);
        },
        _ => unreachable!(),
    }
    // the line after the image sits below its height
    let after_y = cmds
        .iter()
        .filter_map(|c| match c {
            GuiCmd::Text { y, text, .. } if text == "after" => Some(*y),
            _ => None,
        })
        .next()
        .unwrap();
    assert_eq!(after_y, 300);
}

#[test]
fn image_items_number_positions_in_tree_order() {
    let deck = slides(|b| {
        b.slide("t", |s| {
            s.image(vec![1u8], ".png", None).rows(|r| r.image(vec![2u8], ".jpg", Some(5)))
        })
    });
    let refs = image_items(&deck.slides[0]);
    assert_eq!(refs.len(), 2);
    assert_eq!(refs[0].pos, 0);
    assert_eq!(refs[0].bytes, vec![1u8]);
    assert_eq!(refs[0].extension, ".png");
    assert_eq!(refs[1].pos, 1);
    assert_eq!(refs[1].extension, ".jpg");
    assert_eq!(refs[1].width, Some(5));
}

#[test]
fn help_deck_lists_keys_and_toggle_state() {
    let deck = help_deck(true, false);
    assert_eq!(deck.slides.len(), 1);
    assert_eq!(deck.slides[0].title, "bema help");
    assert_eq!(deck.slides[0].items.len(), 3);
    match &deck.slides[0].items[2] {
        SlideItem::Text { text } => {
            assert!(text.contains("[x]  decoration      D"));
            assert!(text.contains("[ ]  white mode      C"));
            assert!(text.contains("next slide"));
        },
        _ => panic!("expected the key listing"),
    }
}

fn tiny_png() -> Vec<u8> {
    let img = image::RgbImage::new(2, 2);
    let mut out = std::io::Cursor::new(Vec::new());
    image::DynamicImage::ImageRgb8(img)
        .write_to(&mut out, image::ImageFormat::Png)
        .unwrap();
    out.into_inner()
}

fn tiny_jpg() -> Vec<u8> {
    let img = image::RgbImage::new(8, 8);
    let mut out = std::io::Cursor::new(Vec::new());
    image::DynamicImage::ImageRgb8(img)
        .write_to(&mut out, image::ImageFormat::Jpeg)
        .unwrap();
    out.into_inner()
}

#[test]
fn fit_image_decodes_and_reencodes_as_png() {
    let png = tiny_png();
    let out = fit_image_bytes(&png, &None, &".png".to_string()).unwrap();
    assert_eq!(&out[..4], &[0x89u8, b'P', b'N', b'G']);
    let resized = fit_image_bytes(&png, &Some(1), &".png".to_string()).unwrap();
    let back = image::load_from_memory(&resized).unwrap();
    assert_eq!(back.width(), 1);
}

#[test]
fn fit_image_rejects_bytes_of_another_codec() {
    assert!(fit_image_bytes(&[0u8, 1, 2, 3], &None, &".png".to_string()).is_none());
    assert!(fit_image_bytes(&tiny_png(), &None, &".nosuch".to_string()).is_none());
}

#[test]
fn texture_bytes_pass_through_except_jpeg() {
    let png = tiny_png();
    let kept = prepare_texture_bytes(&png, &".png".to_string(), &None).unwrap();
    assert_eq!(kept, png);
    let jpg = tiny_jpg();
    let converted = prepare_texture_bytes(&jpg, &".jpg".to_string(), &None).unwrap();
    assert_ne!(converted, jpg);
    assert_eq!(&converted[..4], &[0x89u8, b'P', b'N', b'G']);
    assert!(prepare_texture_bytes(&vec![0u8, 1], &".jpg".to_string(), &None).is_none());
}
