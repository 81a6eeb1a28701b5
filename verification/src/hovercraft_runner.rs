use vstd::prelude::*;

use crate::bema::{Bema, Slide, SlideItem};
use crate::bema::clone_bytes;
use crate::runner::{
    spec_split_lines, strings_view, split_string_lines, dec_str, usize_to_string, repeat_char,
    equals_line,
};

verus! {

/// One effect of an export run, in document order: either one line of the
/// static document, or an image file to create before its reference line.
pub enum ExportOp {
    Line { text: String },
    ImageFile { path: String, bytes: Vec<u8> },
}

/// The mathematical shape of an export effect.
pub enum ExportOpView {
    Line { text: Seq<char> },
    ImageFile { path: Seq<char>, bytes: Seq<u8> },
}

impl ExportOp {
    /// The mathematical shape of this effect.
    pub open spec fn view_op(self) -> ExportOpView {
        match self {
            ExportOp::Line { text } => ExportOpView::Line { text: text@ },
            ExportOp::ImageFile { path, bytes } => ExportOpView::ImageFile {
                path: path@,
                bytes: bytes@,
            },
        }
    }
}

/// The mathematical shape of a sequence of export effects.
pub open spec fn ops_view(ops: Seq<ExportOp>) -> Seq<ExportOpView> {
    ops.map_values(|op: ExportOp| op.view_op())
}

/// The file name given to the `img_i`-th exported image with extension `ext`.
pub open spec fn image_path(img_i: int, ext: Seq<char>) -> Seq<char> {
    "bema_"@ + dec_str(img_i) + ext
}

/// How many images the subtree of `item` embeds.
pub open spec fn image_count(item: SlideItem) -> int
    decreases item,
{
    match item {
        SlideItem::Image { .. } => 1,
        SlideItem::Rows { items } => images_count(items@, 0),
        SlideItem::Cols { items } => images_count(items@, 0),
        SlideItem::Framed { items } => images_count(items@, 0),
        _ => 0,
    }
}

/// How many images the items of `items` from position `i` on embed.
pub open spec fn images_count(items: Seq<SlideItem>, i: int) -> int
    decreases items, items.len() - i,
{
    if i < 0 || i >= items.len() {
        0
    } else {
        image_count(items[i]) + images_count(items, i + 1)
    }
}

/// How many images the slides from position `i` on embed.
pub open spec fn slides_images_count(slides: Seq<Slide>, i: int) -> int
    decreases slides.len() - i,
{
    if i < 0 || i >= slides.len() {
        0
    } else {
        images_count(slides[i].items@, 0) + slides_images_count(slides, i + 1)
    }
}

/// The export of one content item, with `img_i` images already exported:
/// the effects it emits and the image counter afterwards.  Text is emitted
/// verbatim; code becomes a directive line, a blank line, and each source
/// line indented by two spaces; an image becomes its file and a reference
/// line with an optional width directive; container geometry is ignored and
/// children are flattened in order.
pub open spec fn export_item(item: SlideItem, img_i: int) -> (Seq<ExportOpView>, int)
    decreases item,
{
    match item {
        SlideItem::Text { text } => (seq![ExportOpView::Line { text: text@ }], img_i),
        SlideItem::Code { extension, source } => (
            seq![
                ExportOpView::Line { text: ".. code:: "@ + extension@ },
                ExportOpView::Line { text: Seq::<char>::empty() },
            ] + spec_split_lines(source@).map_values(
                |l: Seq<char>| ExportOpView::Line { text: "  "@ + l },
            ),
            img_i,
        ),
        SlideItem::Image { image, extension, width } => {
            let path = image_path(img_i, extension@);
            let head = seq![
                ExportOpView::ImageFile { path: path, bytes: image@ },
                ExportOpView::Line { text: ".. image:: "@ + path },
            ];
            let ops = match width {
                Some(w) => head.push(
                    ExportOpView::Line { text: "   :width: "@ + dec_str(w as int) + " px"@ },
                ),
                None => head,
            };
            (ops, img_i + 1)
        },
        SlideItem::Rows { items } => export_items(items@, 0, img_i),
        SlideItem::Cols { items } => export_items(items@, 0, img_i),
        SlideItem::Framed { items } => export_items(items@, 0, img_i),
    }
}

/// The export of the items of `items` from position `i` on.
pub open spec fn export_items(items: Seq<SlideItem>, i: int, img_i: int) -> (Seq<ExportOpView>, int)
    decreases items, items.len() - i,
{
    if i < 0 || i >= items.len() {
        (Seq::<ExportOpView>::empty(), img_i)
    } else {
        let head = export_item(items[i], img_i);
        let rest = export_items(items, i + 1, head.1);
        (head.0 + rest.0, rest.1)
    }
}

/// The export of one slide: an optional separator (absent only for the first
/// slide), a blank line, the title, an underline of equals signs matching the
/// title length, a blank line, the flattened items, and a closing blank line.
pub open spec fn export_slide(slide: Slide, first: bool, img_i: int) -> (Seq<ExportOpView>, int) {
    let sep: Seq<ExportOpView> = if first {
        Seq::<ExportOpView>::empty()
    } else {
        seq![ExportOpView::Line { text: "----"@ }]
    };
    let head = sep + seq![
        ExportOpView::Line { text: Seq::<char>::empty() },
        ExportOpView::Line { text: slide.title@ },
        ExportOpView::Line { text: repeat_char('=', slide.title@.len() as int) },
        ExportOpView::Line { text: Seq::<char>::empty() },
    ];
    let body = export_items(slide.items@, 0, img_i);
    (head + body.0 + seq![ExportOpView::Line { text: Seq::<char>::empty() }], body.1)
}

/// The export of the slides from position `i` on.
pub open spec fn export_slides(slides: Seq<Slide>, i: int, img_i: int) -> (
    Seq<ExportOpView>,
    int,
)
    decreases slides.len() - i,
{
    if i < 0 || i >= slides.len() {
        (Seq::<ExportOpView>::empty(), img_i)
    } else {
        let head = export_slide(slides[i], i == 0, img_i);
        let rest = export_slides(slides, i + 1, head.1);
        (head.0 + rest.0, rest.1)
    }
}

/// The whole export of a deck, images numbered from zero in document order.
pub open spec fn export_deck(b: Bema) -> Seq<ExportOpView> {
    export_slides(b.slides@, 0, 0).0
}

/// Exporting an item advances the image counter by exactly its image count,
/// which is never negative.
pub proof fn lemma_export_item_count(item: SlideItem, img_i: int)
    ensures
        export_item(item, img_i).1 == img_i + image_count(item),
        image_count(item) >= 0,
    decreases item,
{
    match item {
        SlideItem::Rows { items } => lemma_export_items_count(items@, 0, img_i),
        SlideItem::Cols { items } => lemma_export_items_count(items@, 0, img_i),
        SlideItem::Framed { items } => lemma_export_items_count(items@, 0, img_i),
        _ => {},
    }
}

/// Exporting a run of items advances the image counter by exactly their
/// image count, which is never negative.
pub proof fn lemma_export_items_count(items: Seq<SlideItem>, i: int, img_i: int)
    ensures
        export_items(items, i, img_i).1 == img_i + images_count(items, i),
        images_count(items, i) >= 0,
    decreases items, items.len() - i,
{
    if 0 <= i < items.len() {
        lemma_export_item_count(items[i], img_i);
        lemma_export_items_count(items, i + 1, img_i + image_count(items[i]));
    }
}

/// The one-shot, non-interactive exporter: flattens a deck into the effects
/// a static document writer performs.
pub struct HovercraftRunner {}

impl HovercraftRunner {
    /// Computes the export effects of one item; `img_i` counts the images
    /// exported so far and is advanced past this item's images.
    pub fn render_item(&self, item: &SlideItem, img_i: &mut usize) -> (ops: Vec<ExportOp>)
        requires
            *old(img_i) + image_count(*item) <= usize::MAX,
        ensures
            ops_view(ops@) =~= export_item(*item, *old(img_i) as int).0,
            *final(img_i) == export_item(*item, *old(img_i) as int).1,
        decreases *item,
    {
        let mut ops: Vec<ExportOp> = Vec::new();
        match item {
            SlideItem::Text { text } => {
                ops.push(ExportOp::Line { text: text.clone() });
            },
            SlideItem::Code { extension, source } => {
                let mut head = ".. code:: ".to_owned();
                head.append(extension.as_str());
                ops.push(ExportOp::Line { text: head });
                ops.push(ExportOp::Line { text: String::new() });
                let splits = split_string_lines(source.as_str());
                let ghost lines = spec_split_lines(source@);
                let ghost mapped = lines.map_values(
                    |l: Seq<char>| ExportOpView::Line { text: "  "@ + l },
                );
                let mut j: usize = 0;
                while j < splits.len()
                    invariant
                        j <= splits@.len(),
                        lines == spec_split_lines(source@),
                        strings_view(splits@) =~= lines,
                        mapped == lines.map_values(
                            |l: Seq<char>| ExportOpView::Line { text: "  "@ + l },
                        ),
                        ops_view(ops@) =~= export_item(
                            SlideItem::Code { extension: *extension, source: *source },
                            0,
                        ).0.take(2 + j as int),
                    decreases splits@.len() - j,
                {
                    let mut l = "  ".to_owned();
                    l.append(splits[j].as_str());
                    proof {
                        assert(l@ == "  "@ + lines[j as int]);
                        assert(mapped[j as int] == (ExportOpView::Line { text: "  "@ + lines[j as int] }));
                    }
                    ops.push(ExportOp::Line { text: l });
                    proof {
                        let full = export_item(
                            SlideItem::Code { extension: *extension, source: *source },
                            0,
                        ).0;
                        assert(full.len() == 2 + lines.len());
                        assert(full[2 + j as int] == (ExportOpView::Line {
                            text: "  "@ + lines[j as int],
                        }));
                        assert(full[2 + j as int] == mapped[j as int]);
                        assert(full.take(2 + j as int + 1) =~= full.take(2 + j as int).push(mapped[j as int]));
                        assert(ops_view(ops@) =~= full.take(2 + j as int + 1));
                    }
                    j += 1;
                }
                proof {
                    let full = export_item(
                        SlideItem::Code { extension: *extension, source: *source },
                        0,
                    ).0;
                    assert(full.take(2 + splits@.len() as int) =~= full);
                }
            },
            SlideItem::Image { image, extension, width } => {
                let mut path = "bema_".to_owned();
                path.append(usize_to_string(*img_i).as_str());
                path.append(extension.as_str());
                let mut reference = ".. image:: ".to_owned();
                reference.append(path.as_str());
                ops.push(ExportOp::ImageFile { path, bytes: clone_bytes(image) });
                ops.push(ExportOp::Line { text: reference });
                match width {
                    Some(w) => {
                        let mut wline = "   :width: ".to_owned();
                        wline.append(usize_to_string(*w).as_str());
                        wline.append(" px");
                        ops.push(ExportOp::Line { text: wline });
                    },
                    None => {},
                }
                *img_i = *img_i + 1;
            },
            SlideItem::Rows { items } => {
                ops = self.render_items(items, img_i);
            },
            SlideItem::Cols { items } => {
                ops = self.render_items(items, img_i);
            },
            SlideItem::Framed { items } => {
                ops = self.render_items(items, img_i);
            },
        }
        proof {
            lemma_export_item_count(*item, *old(img_i) as int);
        }
        ops
    }

    /// Computes the export effects of a run of items, threading the image
    /// counter left to right.
    fn render_items(&self, items: &Vec<SlideItem>, img_i: &mut usize) -> (ops: Vec<ExportOp>)
        requires
            *old(img_i) + images_count(items@, 0) <= usize::MAX,
        ensures
            ops_view(ops@) =~= export_items(items@, 0, *old(img_i) as int).0,
            *final(img_i) == export_items(items@, 0, *old(img_i) as int).1,
        decreases items@,
    {
        let ghost c0 = *img_i as int;
        let mut ops: Vec<ExportOp> = Vec::new();
        let mut j: usize = 0;
        proof {
            lemma_export_items_count(items@, 0, c0);
        }
        while j < items.len()
            invariant
                j <= items@.len(),
                *img_i == export_items(items@, j as int, *img_i as int).1 - images_count(
                    items@,
                    j as int,
                ),
                export_items(items@, 0, c0).0 =~= ops_view(ops@) + export_items(
                    items@,
                    j as int,
                    *img_i as int,
                ).0,
                export_items(items@, 0, c0).1 == export_items(items@, j as int, *img_i as int).1,
                *img_i as int + images_count(items@, j as int) <= usize::MAX,
            decreases items@.len() - j,
        {
            proof {
                lemma_export_items_count(items@, j as int, *img_i as int);
                lemma_export_item_count(items@[j as int], *img_i as int);
                lemma_export_items_count(items@, j as int + 1, 0);
            }
            let ghost ops_before = ops@;
            let mut more = self.render_item(&items[j], img_i);
            let ghost more_view = more@;
            ops.append(&mut more);
            proof {
                assert(ops@ == ops_before + more_view);
                assert(ops_view(ops_before + more_view) =~= ops_view(ops_before) + ops_view(
                    more_view,
                ));
            }
            j += 1;
        }
        proof {
            assert(ops_view(ops@) =~= export_items(items@, 0, c0).0);
        }
        ops
    }

    /// Computes the whole export of `bema`: the document lines and the image
    /// files to write, in order, as `export_deck` describes.
    pub fn render(&self, bema: &Bema) -> (ops: Vec<ExportOp>)
        requires
            slides_images_count(bema.slides@, 0) <= usize::MAX,
        ensures
            ops_view(ops@) =~= export_deck(*bema),
    {
        let slides = &bema.slides;
        let mut ops: Vec<ExportOp> = Vec::new();
        let mut img_i: usize = 0;
        let mut i: usize = 0;
        proof {
            lemma_export_slides_count(slides@, 0, 0);
        }
        while i < slides.len()
            invariant
                i <= slides@.len(),
                export_slides(slides@, 0, 0).0 =~= ops_view(ops@) + export_slides(
                    slides@,
                    i as int,
                    img_i as int,
                ).0,
                export_slides(slides@, 0, 0).1 == export_slides(slides@, i as int, img_i as int).1,
                img_i as int + slides_images_count(slides@, i as int) <= usize::MAX,
            decreases slides@.len() - i,
        {
            let ghost s_all = slides@;
            let ghost c_before = img_i as int;
            let ghost first = i == 0;
            proof {
                lemma_export_slides_count(s_all, i as int, c_before);
                lemma_export_slides_count(s_all, i as int + 1, export_slide(
                    s_all[i as int],
                    first,
                    c_before,
                ).1);
                lemma_export_items_count(s_all[i as int].items@, 0, c_before);
            }
            let ghost ops_start = ops@;
            let slide = &slides[i];
            if i > 0 {
                ops.push(ExportOp::Line { text: "----".to_owned() });
            }
            ops.push(ExportOp::Line { text: String::new() });
            ops.push(ExportOp::Line { text: slide.title.clone() });
            ops.push(ExportOp::Line { text: equals_line(slide.title.as_str().unicode_len()) });
            ops.push(ExportOp::Line { text: String::new() });
            let ghost ops_head = ops@;
            let mut body = self.render_items(&slide.items, &mut img_i);
            let ghost body_view = body@;
            ops.append(&mut body);
            ops.push(ExportOp::Line { text: String::new() });
            proof {
                let sl = export_slide(s_all[i as int], first, c_before);
                let body_spec = export_items(s_all[i as int].items@, 0, c_before);
                let sep: Seq<ExportOpView> = if first {
                    Seq::<ExportOpView>::empty()
                } else {
                    seq![ExportOpView::Line { text: "----"@ }]
                };
                let head_spec = sep + seq![
                    ExportOpView::Line { text: Seq::<char>::empty() },
                    ExportOpView::Line { text: s_all[i as int].title@ },
                    ExportOpView::Line {
                        text: repeat_char('=', s_all[i as int].title@.len() as int),
                    },
                    ExportOpView::Line { text: Seq::<char>::empty() },
                ];
                assert(ops_view(ops_head) =~= ops_view(ops_start) + head_spec);
                assert(ops@.drop_last() =~= ops_head + body_view);
                assert(ops@.last().view_op() == (ExportOpView::Line {
                    text: Seq::<char>::empty(),
                }));
                assert(ops_view(ops@) =~= ops_view(ops_head) + ops_view(body_view) + seq![
                    ExportOpView::Line { text: Seq::<char>::empty() },
                ]);
                assert(ops_view(body_view) =~= body_spec.0);
                assert(sl.0 =~= head_spec + body_spec.0 + seq![
                    ExportOpView::Line { text: Seq::<char>::empty() },
                ]);
                assert(ops_view(ops@) =~= ops_view(ops_start) + sl.0);
                assert(img_i as int == sl.1);
                assert(export_slides(s_all, i as int, c_before).0 =~= sl.0 + export_slides(
                    s_all,
                    i as int + 1,
                    sl.1,
                ).0);
            }
            i += 1;
        }
        proof {
            assert(ops_view(ops@) =~= export_slides(slides@, 0, 0).0);
        }
        ops
    }
}

/// Exporting a run of slides advances the image counter by exactly their
/// image count, which is never negative.
pub proof fn lemma_export_slides_count(slides: Seq<Slide>, i: int, img_i: int)
    ensures
        export_slides(slides, i, img_i).1 == img_i + slides_images_count(slides, i),
        slides_images_count(slides, i) >= 0,
    decreases slides.len() - i,
{
    if 0 <= i < slides.len() {
        lemma_export_items_count(slides[i].items@, 0, img_i);
        lemma_export_slides_count(slides, i + 1, img_i + images_count(slides[i].items@, 0));
    }
}

} // verus!
