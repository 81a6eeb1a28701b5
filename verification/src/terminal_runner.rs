use vstd::prelude::*;

use crate::bema::{Slide, SlideItem};
use crate::runner::{
    center_offset, seq_lens, spec_split_lines, strings_view, split_string_lines, text_lens,
    get_justify, justify_of_lines, split_width, lemma_split_width_equal_share, highlight_outcome,
    highlight_source, runs_view, runs_lines_view, CodeRun, code_run_view, dec_str, usize_to_string,
};

verus! {

/// Wraps a candidate slide index into `[0, n)`: past the end restarts at the
/// first slide, before the start jumps to the last slide.
pub open spec fn spec_normalize(i: int, n: int) -> int {
    if i >= n {
        0
    } else if i < 0 {
        n - 1
    } else {
        i
    }
}

/// The candidate index a navigation key asks for, before wrapping:
/// `n`/`j`/`l` step forward, `p`/`k`/`h` step back, `g` jumps to the first
/// slide, `G` to the last, and any other key stays put.
pub open spec fn nav_raw(c: char, i: int, n: int) -> int {
    if c == 'g' {
        0
    } else if c == 'G' {
        n - 1
    } else if c == 'n' || c == 'j' || c == 'l' {
        i + 1
    } else if c == 'p' || c == 'k' || c == 'h' {
        i - 1
    } else {
        i
    }
}

/// The slide index shown after key `c` is pressed at index `i` of `n`
/// slides: the requested index, wrapped into range.
pub open spec fn spec_key_step(c: char, i: int, n: int) -> int {
    spec_normalize(nav_raw(c, i, n), n)
}

/// The index reached after pressing `keys` in order, starting from `start`
/// (itself wrapped first).
pub open spec fn nav_run(start: int, keys: Seq<char>, n: int) -> int
    decreases keys.len(),
{
    if keys.len() == 0 {
        spec_normalize(start, n)
    } else {
        spec_key_step(keys.last(), nav_run(start, keys.drop_last(), n), n)
    }
}

/// Navigation never leaves `[0, n)`: whatever the starting index and
/// whatever keys are pressed, the shown index stays a valid slide index.
pub proof fn lemma_nav_run_in_range(start: int, keys: Seq<char>, n: int)
    requires
        n >= 1,
    ensures
        0 <= nav_run(start, keys, n) < n,
    decreases keys.len(),
{
    if keys.len() > 0 {
        lemma_nav_run_in_range(start, keys.drop_last(), n);
    }
}

/// Wraps a candidate index into `[0, n)` as `spec_normalize` describes.
pub fn normalize_index(i: i64, n: usize) -> (r: usize)
    requires
        1 <= n,
        n <= i64::MAX,
    ensures
        r == spec_normalize(i as int, n as int),
        r < n,
{
    if i >= n as i64 {
        0
    } else if i < 0 {
        n - 1
    } else {
        i as usize
    }
}

/// Applies one keypress to the current slide index: returns the wrapped new
/// index and whether the key asked to quit.
pub fn apply_key(c: char, i: usize, n: usize) -> (r: (usize, bool))
    requires
        n >= 1,
        i < n,
    ensures
        r.0 == spec_key_step(c, i as int, n as int),
        r.0 < n,
        r.1 <==> c == 'q',
{
    let next: usize = if c == 'g' {
        0
    } else if c == 'G' {
        n - 1
    } else if c == 'n' || c == 'j' || c == 'l' {
        if i + 1 >= n {
            0
        } else {
            i + 1
        }
    } else if c == 'p' || c == 'k' || c == 'h' {
        if i == 0 {
            n - 1
        } else {
            i - 1
        }
    } else {
        i
    };
    (next, c == 'q')
}

/// The blocking, keypress-driven slide viewer on a monospace grid.  Its
/// screen work stays outside the library; the navigation above and the
/// render plan below decide everything it shows.
pub struct TerminalRunner {}

/// One drawing command of the terminal backend, in emission order.
pub enum TermCmd {
    /// One centered text line: move right by `indent`, print `text`, newline.
    TextLine { indent: usize, text: String },
    /// One highlighted code line: move right by `indent`, print each run in
    /// its color, newline.
    CodeLine { indent: usize, runs: Vec<CodeRun> },
    /// Hand the image bytes to the terminal's external image display.
    ShowImage { bytes: Vec<u8>, extension: String },
    /// One horizontal border line of a framed container.
    Rule { indent: usize, width: usize },
    /// The slide title, centered and in the title style.
    Title { indent: usize, text: String },
}

/// The mathematical shape of one terminal drawing command.
pub enum TermCmdView {
    TextLine { indent: int, text: Seq<char> },
    CodeLine { indent: int, runs: Seq<((u8, u8, u8, u8), Seq<char>)> },
    ShowImage { bytes: Seq<u8>, extension: Seq<char> },
    Rule { indent: int, width: int },
    Title { indent: int, text: Seq<char> },
}

impl TermCmd {
    /// The mathematical shape of this command.
    pub open spec fn view_cmd(self) -> TermCmdView {
        match self {
            TermCmd::TextLine { indent, text } => TermCmdView::TextLine {
                indent: indent as int,
                text: text@,
            },
            TermCmd::CodeLine { indent, runs } => TermCmdView::CodeLine {
                indent: indent as int,
                runs: runs_view(runs@),
            },
            TermCmd::ShowImage { bytes, extension } => TermCmdView::ShowImage {
                bytes: bytes@,
                extension: extension@,
            },
            TermCmd::Rule { indent, width } => TermCmdView::Rule {
                indent: indent as int,
                width: width as int,
            },
            TermCmd::Title { indent, text } => TermCmdView::Title {
                indent: indent as int,
                text: text@,
            },
        }
    }
}

/// The mathematical shape of a command sequence.
pub open spec fn cmds_view(cmds: Seq<TermCmd>) -> Seq<TermCmdView> {
    cmds.map_values(|c: TermCmd| c.view_cmd())
}

/// A block of plain text lines, centered as one block within `w` columns
/// starting at column `base`.
pub open spec fn text_block(s: Seq<char>, base: int, w: int) -> Seq<TermCmdView> {
    let lines = spec_split_lines(s);
    let ws = center_offset(w, seq_lens(lines));
    lines.map_values(|l: Seq<char>| TermCmdView::TextLine { indent: base + ws, text: l })
}

/// The terminal commands of one content item rendered at column `base` into
/// `w` columns: text and code are centered as blocks; code uses the
/// highlighter's runs when its tag has a grammar and falls back to plain
/// text otherwise; an image is delegated to the external display; `Rows`
/// stacks children at the full width, `Cols` gives each child an equal share
/// and its own origin, and `Framed` stacks between two border lines.
pub open spec fn term_item(item: SlideItem, base: int, w: int) -> Seq<TermCmdView>
    decreases item,
{
    match item {
        SlideItem::Text { text } => text_block(text@, base, w),
        SlideItem::Code { extension, source } => match highlight_outcome(extension@, source@) {
            Some(lines_runs) => {
                let ws = center_offset(w, seq_lens(spec_split_lines(source@)));
                lines_runs.map_values(
                    |runs: Seq<((u8, u8, u8, u8), Seq<char>)>| TermCmdView::CodeLine {
                        indent: base + ws,
                        runs: runs,
                    },
                )
            },
            None => text_block(source@, base, w),
        },
        SlideItem::Image { image, extension, width: _ } => seq![
            TermCmdView::ShowImage { bytes: image@, extension: extension@ },
        ],
        SlideItem::Rows { items } => term_stack(items@, 0, base, w),
        SlideItem::Cols { items } => {
            if items@.len() == 0 {
                Seq::<TermCmdView>::empty()
            } else {
                term_cols(items@, 0, base, w / items@.len() as int)
            }
        },
        SlideItem::Framed { items } => seq![TermCmdView::Rule { indent: base, width: w }]
            + term_stack(items@, 0, base, w) + seq![TermCmdView::Rule { indent: base, width: w }],
    }
}

/// The commands of the children from position `i` on, stacked one after
/// another at the same origin and full width.
pub open spec fn term_stack(items: Seq<SlideItem>, i: int, base: int, w: int) -> Seq<TermCmdView>
    decreases items, items.len() - i,
{
    if i < 0 || i >= items.len() {
        Seq::<TermCmdView>::empty()
    } else {
        term_item(items[i], base, w) + term_stack(items, i + 1, base, w)
    }
}

/// The commands of the children from position `i` on, each rendered within
/// its own share of the width, offset by its position times the share.
pub open spec fn term_cols(items: Seq<SlideItem>, i: int, base: int, share: int) -> Seq<
    TermCmdView,
>
    decreases items, items.len() - i,
{
    if i < 0 || i >= items.len() {
        Seq::<TermCmdView>::empty()
    } else {
        term_item(items[i], base + i * share, share) + term_cols(items, i + 1, base, share)
    }
}

/// The commands of one whole slide: the centered title, then the items
/// stacked from the left edge at the full width.
pub open spec fn term_slide(slide: Slide, w: int) -> Seq<TermCmdView> {
    seq![
        TermCmdView::Title {
            indent: center_offset(w, seq![slide.title@.len() as int]),
            text: slide.title@,
        },
    ] + term_stack(slide.items@, 0, 0, w)
}

impl Clone for CodeRun {
    /// A clone paints the same characters in the same color.
    fn clone(&self) -> (r: Self)
        ensures
            code_run_view(r) == code_run_view(*self),
    {
        CodeRun { r: self.r, g: self.g, b: self.b, a: self.a, text: self.text.clone() }
    }
}

/// Clones every run of a highlighted line.
fn clone_runs(runs: &Vec<CodeRun>) -> (r: Vec<CodeRun>)
    ensures
        runs_view(r@) =~= runs_view(runs@),
{
    let mut r: Vec<CodeRun> = Vec::new();
    let mut i: usize = 0;
    while i < runs.len()
        invariant
            i <= runs@.len(),
            r@.len() == i,
            forall|k: int| 0 <= k < i ==> code_run_view(r@[k]) == code_run_view(runs@[k]),
        decreases runs@.len() - i,
    {
        r.push(runs[i].clone());
        i += 1;
    }
    r
}

impl TerminalRunner {
    /// Renders one content item into terminal commands, at column `base`
    /// within `width` columns, as `term_item` describes.
    pub fn render_item(&self, item: &SlideItem, base: usize, width: usize) -> (cmds: Vec<TermCmd>)
        requires
            base + width <= usize::MAX,
        ensures
            cmds_view(cmds@) =~= term_item(*item, base as int, width as int),
        decreases *item,
    {
        match item {
            SlideItem::Text { text } => self.render_text_block(text, base, width),
            SlideItem::Code { extension, source } => {
                match highlight_source(extension.as_str(), source.as_str()) {
                    Some(lines_runs) => {
                        let ghost v = highlight_outcome(extension@, source@)->Some_0;
                        let splits = split_string_lines(source.as_str());
                        let ws = justify_of_lines(width, &splits);
                        let indent = base + ws;
                        let mut cmds: Vec<TermCmd> = Vec::new();
                        let ghost target = term_item(*item, base as int, width as int);
                        let mut j: usize = 0;
                        while j < lines_runs.len()
                            invariant
                                j <= lines_runs@.len(),
                                runs_lines_view(lines_runs@) == v,
                                target == v.map_values(
                                    |runs: Seq<((u8, u8, u8, u8), Seq<char>)>|
                                        TermCmdView::CodeLine {
                                            indent: indent as int,
                                            runs: runs,
                                        },
                                ),
                                cmds_view(cmds@) =~= target.take(j as int),
                            decreases lines_runs@.len() - j,
                        {
                            let ghost cmds_before = cmds@;
                            let runs = clone_runs(&lines_runs[j]);
                            let ghost runs_v = runs_view(runs@);
                            cmds.push(TermCmd::CodeLine { indent, runs });
                            proof {
                                assert(runs_v == v[j as int]);
                                assert(target[j as int] == (TermCmdView::CodeLine {
                                    indent: indent as int,
                                    runs: v[j as int],
                                }));
                                assert(cmds@.drop_last() =~= cmds_before);
                                assert(cmds@.last().view_cmd() == target[j as int]);
                                assert(cmds_view(cmds@) =~= cmds_view(cmds_before).push(
                                    target[j as int],
                                ));
                                assert(target.take(j as int + 1) =~= target.take(j as int).push(
                                    target[j as int],
                                ));
                                assert(cmds_view(cmds@) =~= target.take(j as int + 1));
                            }
                            j += 1;
                        }
                        proof {
                            assert(target.take(target.len() as int) =~= target);
                        }
                        cmds
                    },
                    None => self.render_text_block(source, base, width),
                }
            },
            SlideItem::Image { image, extension, width: _ } => {
                let mut cmds: Vec<TermCmd> = Vec::new();
                cmds.push(
                    TermCmd::ShowImage {
                        bytes: crate::bema::clone_bytes(image),
                        extension: extension.clone(),
                    },
                );
                cmds
            },
            SlideItem::Rows { items } => self.render_stack(items, base, width),
            SlideItem::Cols { items } => {
                let k = items.len();
                if k == 0 {
                    Vec::new()
                } else {
                    let share = split_width(width, k);
                    proof {
                        lemma_split_width_equal_share(width as int, k as int);
                        vstd::arithmetic::mul::lemma_mul_is_commutative(
                            k as int,
                            width as int / k as int,
                        );
                    }
                    self.render_cols(items, base, share)
                }
            },
            SlideItem::Framed { items } => {
                let mut cmds: Vec<TermCmd> = Vec::new();
                cmds.push(TermCmd::Rule { indent: base, width });
                let mut inner = self.render_stack(items, base, width);
                let ghost inner_view = inner@;
                cmds.append(&mut inner);
                cmds.push(TermCmd::Rule { indent: base, width });
                proof {
                    assert(cmds@.drop_last() =~= seq![
                        TermCmd::Rule { indent: base, width },
                    ] + inner_view);
                    assert(cmds_view(cmds@) =~= seq![
                        TermCmdView::Rule { indent: base as int, width: width as int },
                    ] + cmds_view(inner_view) + seq![
                        TermCmdView::Rule { indent: base as int, width: width as int },
                    ]);
                }
                cmds
            },
        }
    }

    /// Renders a text payload as one centered block of lines.
    fn render_text_block(&self, text: &String, base: usize, width: usize) -> (cmds: Vec<TermCmd>)
        requires
            base + width <= usize::MAX,
        ensures
            cmds_view(cmds@) =~= text_block(text@, base as int, width as int),
    {
        let splits = split_string_lines(text.as_str());
        let ws = justify_of_lines(width, &splits);
        let indent = base + ws;
        let ghost lines = spec_split_lines(text@);
        let ghost target = text_block(text@, base as int, width as int);
        let mut cmds: Vec<TermCmd> = Vec::new();
        let mut j: usize = 0;
        while j < splits.len()
            invariant
                j <= splits@.len(),
                lines == spec_split_lines(text@),
                strings_view(splits@) =~= lines,
                target == text_block(text@, base as int, width as int),
                target == lines.map_values(
                    |l: Seq<char>| TermCmdView::TextLine { indent: indent as int, text: l },
                ),
                cmds_view(cmds@) =~= target.take(j as int),
            decreases splits@.len() - j,
        {
            let ghost cmds_before = cmds@;
            let line = splits[j].clone();
            let ghost line_view = line@;
            cmds.push(TermCmd::TextLine { indent, text: line });
            proof {
                assert(line_view == lines[j as int]);
                assert(target[j as int] == (TermCmdView::TextLine {
                    indent: indent as int,
                    text: lines[j as int],
                }));
                assert(cmds@.drop_last() =~= cmds_before);
                assert(cmds@.last().view_cmd() == target[j as int]);
                assert(cmds_view(cmds@) =~= cmds_view(cmds_before).push(target[j as int]));
                assert(target.take(j as int + 1) =~= target.take(j as int).push(target[j as int]));
                assert(cmds_view(cmds@) =~= target.take(j as int + 1));
            }
            j += 1;
        }
        proof {
            assert(target.take(target.len() as int) =~= target);
        }
        cmds
    }

    /// Renders children one below another at the same origin and width.
    fn render_stack(&self, items: &Vec<SlideItem>, base: usize, width: usize) -> (cmds: Vec<
        TermCmd,
    >)
        requires
            base + width <= usize::MAX,
        ensures
            cmds_view(cmds@) =~= term_stack(items@, 0, base as int, width as int),
        decreases items@,
    {
        let mut cmds: Vec<TermCmd> = Vec::new();
        let mut j: usize = 0;
        while j < items.len()
            invariant
                j <= items@.len(),
                base + width <= usize::MAX,
                term_stack(items@, 0, base as int, width as int) =~= cmds_view(cmds@) + term_stack(
                    items@,
                    j as int,
                    base as int,
                    width as int,
                ),
            decreases items@.len() - j,
        {
            let ghost cmds_before = cmds@;
            let mut more = self.render_item(&items[j], base, width);
            let ghost more_view = more@;
            cmds.append(&mut more);
            proof {
                assert(cmds_view(cmds_before + more_view) =~= cmds_view(cmds_before) + cmds_view(
                    more_view,
                ));
            }
            j += 1;
        }
        cmds
    }

    /// Renders children side by side, each in its own equal share of the
    /// width.
    fn render_cols(&self, items: &Vec<SlideItem>, base: usize, share: usize) -> (cmds: Vec<
        TermCmd,
    >)
        requires
            base + items@.len() * share <= usize::MAX,
        ensures
            cmds_view(cmds@) =~= term_cols(items@, 0, base as int, share as int),
        decreases items@,
    {
        let mut cmds: Vec<TermCmd> = Vec::new();
        let mut j: usize = 0;
        proof {
            if items@.len() > 0 {
                vstd::arithmetic::mul::lemma_mul_inequality(1, items@.len() as int, share as int);
            }
        }
        while j < items.len()
            invariant
                j <= items@.len(),
                base + items@.len() * share <= usize::MAX,
                j * share + share <= items@.len() * share || j == items@.len(),
                term_cols(items@, 0, base as int, share as int) =~= cmds_view(cmds@) + term_cols(
                    items@,
                    j as int,
                    base as int,
                    share as int,
                ),
            decreases items@.len() - j,
        {
            proof {
                vstd::arithmetic::mul::lemma_mul_inequality(
                    j as int + 1,
                    items@.len() as int,
                    share as int,
                );
                assert((j + 1) * share == j * share + share) by (nonlinear_arith);
            }
            let child_base = base + j * share;
            let ghost cmds_before = cmds@;
            let mut more = self.render_item(&items[j], child_base, share);
            let ghost more_view = more@;
            cmds.append(&mut more);
            proof {
                assert(cmds_view(cmds_before + more_view) =~= cmds_view(cmds_before) + cmds_view(
                    more_view,
                ));
                if j + 1 < items@.len() {
                    vstd::arithmetic::mul::lemma_mul_inequality(
                        j as int + 2,
                        items@.len() as int,
                        share as int,
                    );
                    assert((j + 2) * share == (j + 1) * share + share) by (nonlinear_arith);
                }
            }
            j += 1;
        }
        cmds
    }

    /// Renders one whole slide: centered title, then the items at the full
    /// width, as `term_slide` describes.
    pub fn render_slide(&self, slide: &Slide, width: usize) -> (cmds: Vec<TermCmd>)
        ensures
            cmds_view(cmds@) =~= term_slide(*slide, width as int),
    {
        let mut refs: Vec<&String> = Vec::new();
        refs.push(&slide.title);
        proof {
            assert(text_lens(refs@) =~= seq![slide.title@.len() as int]);
        }
        let ws = get_justify(width, refs);
        let mut cmds: Vec<TermCmd> = Vec::new();
        cmds.push(TermCmd::Title { indent: ws, text: slide.title.clone() });
        let mut body = self.render_stack(&slide.items, 0, width);
        let ghost cmds_before = cmds@;
        let ghost body_view = body@;
        cmds.append(&mut body);
        proof {
            assert(cmds_view(cmds_before + body_view) =~= cmds_view(cmds_before) + cmds_view(
                body_view,
            ));
        }
        cmds
    }
}

/// The header line shown above a slide: the one-based slide number over the
/// deck size.
pub fn header_line(i: usize, n: usize) -> (r: String)
    requires
        i < usize::MAX,
    ensures
        r@ =~= dec_str(i as int + 1) + "/"@ + dec_str(n as int),
{
    let mut s = usize_to_string(i + 1);
    s.append("/");
    s.append(usize_to_string(n).as_str());
    s
}

} // verus!
