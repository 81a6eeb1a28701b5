use vstd::prelude::*;

use crate::bema::{Bema, Slide, SlideItem};
use crate::is_text_item;
use crate::hovercraft_runner::{
    image_count, images_count, lemma_export_item_count, lemma_export_items_count,
    lemma_export_slides_count, slides_images_count,
};
use crate::runner::{
    center_offset, seq_lens, spec_split_lines, strings_view, split_string_lines, highlight_outcome,
    highlight_source, dec_str, justify_of_lines, lemma_split_width_equal_share, runs_view,
    runs_lines_view, CodeRun, code_run_view,
};
use crate::terminal_runner::{header_line, normalize_index, spec_normalize};

verus! {

/// The debounce quantum and the length of a slide transition, in
/// milliseconds.
pub const TRANSITION_DURATION_MS: u64 = 200;

/// The base font sizes of the graphical backend at scale one: the slide
/// number, the title, and body text keep these fixed ratios.
pub const INDEX_FONT_SIZE: u16 = 20;

pub const TITLE_FONT_SIZE: u16 = 80;

pub const TEXT_FONT_SIZE: u16 = 60;

/// The state the graphical backend's frame loop carries between frames:
/// the shown slide, the two timestamps driving debouncing and the slide-in
/// animation, the animation direction, and the three display toggles.
#[derive(Clone, Copy, PartialEq, Eq, Structural)]
pub struct GuiState {
    pub i: usize,
    pub antibounce_ms: u64,
    pub transition_ms: u64,
    pub transition_direction: i8,
    pub help: bool,
    pub decoration: bool,
    pub white_mode: bool,
}

/// The keys and buttons sampled in one frame, already grouped by meaning.
#[derive(Clone, Copy, PartialEq, Eq, Structural)]
pub struct GuiInput {
    pub next: bool,
    pub prev: bool,
    pub quit: bool,
    pub scale_up: bool,
    pub scale_down: bool,
    pub toggle_help: bool,
    pub toggle_decoration: bool,
    pub toggle_white: bool,
    pub screenshot: bool,
    pub first: bool,
}

/// What the frame loop must do outside the state: exit, rescale the fonts,
/// or export a screenshot of the named slide.
#[derive(Clone, Copy, PartialEq, Eq, Structural)]
pub struct GuiActions {
    pub quit: bool,
    pub scale_up: bool,
    pub scale_down: bool,
    pub screenshot: Option<usize>,
}

/// The actions of a frame in which nothing was accepted.
pub open spec fn no_actions() -> GuiActions {
    GuiActions { quit: false, scale_up: false, scale_down: false, screenshot: None }
}

/// One debounced input step of the graphical backend.  Input is ignored
/// wholesale until the debounce quantum has passed since the last accepted
/// frame.  An accepted frame steps the index by the navigation keys (a
/// backward key wins the animation direction over a forward one), jumps to
/// the first slide on demand, wraps the index into range, restarts the
/// debounce clock, and, exactly when navigation changed the index, restarts
/// the transition clock and closes the help overlay.  The toggles flip, and
/// quit, rescaling and a screenshot of the (new) current slide are handed
/// out as actions.
pub open spec fn gui_step(s: GuiState, inp: GuiInput, now: u64, n: int) -> (GuiState, GuiActions) {
    if now < s.antibounce_ms + TRANSITION_DURATION_MS {
        (s, no_actions())
    } else {
        let changed = inp.next || inp.prev;
        let raw = s.i + (if inp.next {
            1int
        } else {
            0int
        }) - (if inp.prev {
            1int
        } else {
            0int
        });
        let dir: i8 = if inp.prev {
            1i8
        } else if inp.next {
            -1i8
        } else {
            s.transition_direction
        };
        let target = if inp.first {
            0int
        } else {
            raw
        };
        let i2 = spec_normalize(target, n);
        let s2 = GuiState {
            i: i2 as usize,
            antibounce_ms: now,
            transition_ms: if changed {
                now
            } else {
                s.transition_ms
            },
            transition_direction: dir,
            help: if changed {
                false
            } else if inp.toggle_help {
                !s.help
            } else {
                s.help
            },
            decoration: if inp.toggle_decoration {
                !s.decoration
            } else {
                s.decoration
            },
            white_mode: if inp.toggle_white {
                !s.white_mode
            } else {
                s.white_mode
            },
        };
        let a = GuiActions {
            quit: inp.quit,
            scale_up: inp.scale_up,
            scale_down: inp.scale_down,
            screenshot: if inp.screenshot {
                Some(i2 as usize)
            } else {
                None
            },
        };
        (s2, a)
    }
}

impl GuiState {
    /// The state of a freshly started session: first slide, clocks at the
    /// start instant, no animation, decoration on.
    pub fn new(now_ms: u64) -> (s: GuiState)
        ensures
            s == (GuiState {
                i: 0,
                antibounce_ms: now_ms,
                transition_ms: now_ms,
                transition_direction: 0i8,
                help: false,
                decoration: true,
                white_mode: false,
            }),
    {
        GuiState {
            i: 0,
            antibounce_ms: now_ms,
            transition_ms: now_ms,
            transition_direction: 0,
            help: false,
            decoration: true,
            white_mode: false,
        }
    }

    /// Applies one frame of sampled input at time `now_ms` to the session
    /// state, exactly as `gui_step` describes, and returns the actions the
    /// frame loop must perform.
    pub fn capture_input(&mut self, inp: GuiInput, now_ms: u64, n: usize) -> (a: GuiActions)
        requires
            1 <= n,
            n <= i64::MAX,
            old(self).i < n,
            old(self).antibounce_ms <= now_ms,
        ensures
            *final(self) == gui_step(*old(self), inp, now_ms, n as int).0,
            a == gui_step(*old(self), inp, now_ms, n as int).1,
            final(self).i < n,
    {
        if now_ms - self.antibounce_ms < TRANSITION_DURATION_MS {
            return GuiActions { quit: false, scale_up: false, scale_down: false, screenshot: None };
        }
        let changed = inp.next || inp.prev;
        let mut raw: i64 = self.i as i64;
        if inp.next {
            raw = raw + 1;
        }
        if inp.prev {
            raw = raw - 1;
        }
        if inp.first {
            raw = 0;
        }
        let i2 = normalize_index(raw, n);
        let dir: i8 = if inp.prev {
            1
        } else if inp.next {
            -1
        } else {
            self.transition_direction
        };
        if changed {
            self.transition_ms = now_ms;
            self.help = false;
        } else if inp.toggle_help {
            self.help = !self.help;
        }
        if inp.toggle_decoration {
            self.decoration = !self.decoration;
        }
        if inp.toggle_white {
            self.white_mode = !self.white_mode;
        }
        self.i = i2;
        self.antibounce_ms = now_ms;
        self.transition_direction = dir;
        GuiActions {
            quit: inp.quit,
            scale_up: inp.scale_up,
            scale_down: inp.scale_down,
            screenshot: if inp.screenshot {
                Some(i2)
            } else {
                None
            },
        }
    }
}

/// Debouncing admits one transition per quantum: after a frame accepted at
/// `t1`, any input arriving before the quantum has elapsed leaves the state
/// untouched and performs nothing, so two state-changing key events closer
/// than the quantum yield exactly one accepted transition.
pub proof fn lemma_debounce_one_transition(
    s: GuiState,
    in1: GuiInput,
    in2: GuiInput,
    t1: u64,
    t2: u64,
    n: int,
)
    requires
        s.antibounce_ms + TRANSITION_DURATION_MS <= t1,
        t2 < t1 + TRANSITION_DURATION_MS,
    ensures
        gui_step(gui_step(s, in1, t1, n).0, in2, t2, n).0 == gui_step(s, in1, t1, n).0,
        gui_step(gui_step(s, in1, t1, n).0, in2, t2, n).1 == no_actions(),
{
}

/// The animation state of one frame: `elapsed` past the quantum, or no
/// direction, means the transition is over and the current slide sits at
/// offset zero; otherwise the deck is shifted by the elapsed share of the
/// width, signed by the direction.
pub open spec fn spec_transition(dir: int, elapsed: int, w: int) -> (int, int) {
    if dir == 0 || elapsed > TRANSITION_DURATION_MS {
        (0, 0)
    } else {
        (dir, dir * ((w * elapsed) / (TRANSITION_DURATION_MS as int)))
    }
}

/// Computes the animation direction and pixel offset of the current frame,
/// as `spec_transition` describes; the offset never exceeds the width.
pub fn transition_offset(dir: i8, elapsed_ms: u64, width: u32) -> (r: (i8, i64))
    requires
        dir == -1i8 || dir == 0i8 || dir == 1i8,
    ensures
        (r.0 as int, r.1 as int) == spec_transition(dir as int, elapsed_ms as int, width as int),
        -(width as int) <= r.1 as int <= width as int,
{
    if dir == 0 || elapsed_ms > TRANSITION_DURATION_MS {
        (0, 0)
    } else {
        proof {
            assert(width as int * elapsed_ms as int <= width as int * 200) by (nonlinear_arith)
                requires
                    elapsed_ms <= 200,
                    width >= 0,
            ;
            assert(width as int * 200 < 0x10000000000) by (nonlinear_arith)
                requires
                    width <= 0xffffffff,
            ;
        }
        let mag: u64 = (width as u64) * elapsed_ms / TRANSITION_DURATION_MS;
        proof {
            vstd::arithmetic::div_mod::lemma_div_is_ordered(
                width as int * elapsed_ms as int,
                width as int * 200,
                200,
            );
            assert(width as int * 200 / 200 == width as int) by (nonlinear_arith);
            assert(mag <= width);
        }
        let dxv: i64 = if dir == -1 {
            -(mag as i64)
        } else {
            mag as i64
        };
        (dir, dxv)
    }
}

/// The slides a frame shows and their horizontal offsets: only the current
/// slide at rest, and the two neighbours of the arriving slide on either
/// side of it during a transition.  Indices are as requested and may lie
/// outside the deck; drawing wraps them.
pub open spec fn spec_visible_slides(i: int, dir: int, dx: int, w: int) -> Seq<(int, int)> {
    if dir == 0 {
        seq![(i, dx)]
    } else {
        seq![(i - 1 + dir, dx - w), (i + dir, dx), (i + 1 + dir, dx + w)]
    }
}

/// Computes which slides the current frame draws and where, as
/// `spec_visible_slides` describes.
pub fn visible_slides(i: usize, dir: i8, dx: i64, width: u32) -> (r: Vec<(i64, i64)>)
    requires
        dir == -1i8 || dir == 0i8 || dir == 1i8,
        i <= i64::MAX - 2,
        -(i64::MAX as int) + (width as int) <= dx <= i64::MAX - (width as int),
    ensures
        r@.map_values(|p: (i64, i64)| (p.0 as int, p.1 as int)) =~= spec_visible_slides(
            i as int,
            dir as int,
            dx as int,
            width as int,
        ),
{
    let mut r: Vec<(i64, i64)> = Vec::new();
    if dir == 0 {
        r.push((i as i64, dx));
    } else {
        r.push((i as i64 - 1 + dir as i64, dx - width as i64));
        r.push((i as i64 + dir as i64, dx));
        r.push((i as i64 + 1 + dir as i64, dx + width as i64));
    }
    r
}

/// The first entry of `entries` with key `(slide, pos)`, as width and
/// height, if any.
spec fn cache_lookup(entries: Seq<(usize, usize, u32, u32)>, slide: int, pos: int) -> Option<
    (u32, u32),
>
    decreases entries.len(),
{
    if entries.len() == 0 {
        None
    } else if entries[0].0 == slide && entries[0].1 == pos {
        Some((entries[0].2, entries[0].3))
    } else {
        cache_lookup(entries.drop_first(), slide, pos)
    }
}

/// A key absent from `entries` is found in `entries.push(e)` exactly when
/// `e` carries it.
proof fn lemma_cache_lookup_push(
    entries: Seq<(usize, usize, u32, u32)>,
    e: (usize, usize, u32, u32),
    slide: int,
    pos: int,
)
    ensures
        cache_lookup(entries.push(e), slide, pos) == if cache_lookup(entries, slide, pos) is Some {
            cache_lookup(entries, slide, pos)
        } else if e.0 == slide && e.1 == pos {
            Some((e.2, e.3))
        } else {
            None::<(u32, u32)>
        },
    decreases entries.len(),
{
    let pushed = entries.push(e);
    if entries.len() == 0 {
        assert(pushed[0] == e);
        assert(pushed.drop_first() =~= entries);
        assert(cache_lookup(entries, slide, pos) is None);
        if !(e.0 == slide && e.1 == pos) {
            assert(cache_lookup(pushed, slide, pos) == cache_lookup(pushed.drop_first(), slide, pos));
            assert(cache_lookup(pushed.drop_first(), slide, pos) is None);
        }
    } else {
        assert(pushed[0] == entries[0]);
        assert(pushed.drop_first() =~= entries.drop_first().push(e));
        lemma_cache_lookup_push(entries.drop_first(), e, slide, pos);
        if entries[0].0 == slide && entries[0].1 == pos {
            assert(cache_lookup(pushed, slide, pos) == Some((entries[0].2, entries[0].3)));
        } else {
            assert(cache_lookup(pushed, slide, pos) == cache_lookup(
                entries.drop_first().push(e),
                slide,
                pos,
            ));
            assert(cache_lookup(entries, slide, pos) == cache_lookup(
                entries.drop_first(),
                slide,
                pos,
            ));
        }
    }
}

/// The graphical backend's per-session asset cache: the decoded dimensions
/// of each image, keyed by slide index and the image's position within the
/// slide.  It only grows: an entry, once stored, never changes.
pub struct TextureCache {
    entries: Vec<(usize, usize, u32, u32)>,
}

impl TextureCache {
    /// The stored dimensions of the image at `(slide, pos)`, if any.
    pub closed spec fn dims(&self, slide: int, pos: int) -> Option<(u32, u32)> {
        cache_lookup(self.entries@, slide, pos)
    }

    /// An empty cache.
    pub fn new() -> (c: TextureCache)
        ensures
            forall|s: int, p: int| c.dims(s, p) is None,
    {
        let c = TextureCache { entries: Vec::new() };
        proof {
            assert forall|s: int, p: int| c.dims(s, p) is None by {
                assert(cache_lookup(c.entries@, s, p) is None);
            }
        }
        c
    }

    /// Looks an image's dimensions up.
    pub fn get(&self, slide: usize, pos: usize) -> (r: Option<(u32, u32)>)
        ensures
            r == self.dims(slide as int, pos as int),
    {
        let mut i: usize = 0;
        proof {
            assert(self.entries@.skip(0) =~= self.entries@);
        }
        while i < self.entries.len()
            invariant
                i <= self.entries@.len(),
                self.dims(slide as int, pos as int) == cache_lookup(
                    self.entries@.skip(i as int),
                    slide as int,
                    pos as int,
                ),
            decreases self.entries@.len() - i,
        {
            let e = self.entries[i];
            proof {
                assert(self.entries@.skip(i as int)[0] == self.entries@[i as int]);
                assert(self.entries@.skip(i as int).drop_first() =~= self.entries@.skip(
                    i as int + 1,
                ));
            }
            if e.0 == slide && e.1 == pos {
                return Some((e.2, e.3));
            }
            i += 1;
        }
        None
    }

    /// Stores the dimensions of the image at `(slide, pos)` if none are
    /// stored yet; an existing entry is kept, every other entry is
    /// untouched.
    pub fn insert(&mut self, slide: usize, pos: usize, w: u32, h: u32)
        ensures
            final(self).dims(slide as int, pos as int) == if old(self).dims(
                slide as int,
                pos as int,
            ) is Some {
                old(self).dims(slide as int, pos as int)
            } else {
                Some((w, h))
            },
            forall|s2: int, p2: int|
                !(s2 == slide as int && p2 == pos as int) ==> final(self).dims(s2, p2) == old(
                    self,
                ).dims(s2, p2),
    {
        if self.get(slide, pos).is_none() {
            let ghost before = self.entries@;
            self.entries.push((slide, pos, w, h));
            proof {
                lemma_cache_lookup_push(before, (slide, pos, w, h), slide as int, pos as int);
                assert forall|s2: int, p2: int|
                    !(s2 == slide as int && p2 == pos as int) implies final(self).dims(s2, p2)
                    == old(self).dims(s2, p2) by {
                    lemma_cache_lookup_push(before, (slide, pos, w, h), s2, p2);
                }
            }
        }
    }
}

/// Run columns further right than this are clamped when code runs are laid
/// out, so pixel positions stay representable.
pub const RUN_COLUMN_CAP: u64 = 0x100000000;

/// The width in pixels of one monospace character at font size `size`.
pub open spec fn font_width(size: int) -> int {
    size / 2
}

/// The pixel centering offset of a block of lines within `w` pixels: the
/// character offset against the width measured in characters, scaled back to
/// pixels; zero when the font is too small to have a width.
pub open spec fn px_offset(size: int, lens: Seq<int>, w: int) -> int {
    if font_width(size) <= 0 {
        0
    } else {
        font_width(size) * center_offset(w / font_width(size), lens)
    }
}

/// One drawing command of the graphical backend.  Coordinates are pixels
/// from the frame origin; `x` may be negative during a slide transition.
pub enum GuiCmd {
    /// The progress bar across the top.
    Bar { x: i64, y: i64, w: u64, h: u64 },
    /// The small slide-number line, in the bar color.
    IndexText { x: i64, y: i64, size: u16, text: String },
    /// The slide title, centered, in the title size.
    Title { x: i64, y: i64, size: u16, text: String },
    /// One body text line, centered as a block.
    Text { x: i64, y: i64, size: u16, text: String },
    /// One colored run of a highlighted code line.
    RunText { x: i64, y: i64, size: u16, color: (u8, u8, u8, u8), text: String },
    /// The cached texture of the image at `(slide, pos)`, drawn centered.
    Image { slide: usize, pos: usize, x: i64, y: i64 },
    /// The border of a framed container, drawn before its children.
    Border { x: i64, y: i64, w: u64, h: u64 },
}

/// The mathematical shape of one graphical drawing command.
pub enum GuiCmdView {
    Bar { x: int, y: int, w: int, h: int },
    IndexText { x: int, y: int, size: int, text: Seq<char> },
    Title { x: int, y: int, size: int, text: Seq<char> },
    Text { x: int, y: int, size: int, text: Seq<char> },
    RunText { x: int, y: int, size: int, color: (u8, u8, u8, u8), text: Seq<char> },
    Image { slide: int, pos: int, x: int, y: int },
    Border { x: int, y: int, w: int, h: int },
}

impl GuiCmd {
    /// The mathematical shape of this command.
    pub open spec fn view_cmd(self) -> GuiCmdView {
        match self {
            GuiCmd::Bar { x, y, w, h } => GuiCmdView::Bar {
                x: x as int,
                y: y as int,
                w: w as int,
                h: h as int,
            },
            GuiCmd::IndexText { x, y, size, text } => GuiCmdView::IndexText {
                x: x as int,
                y: y as int,
                size: size as int,
                text: text@,
            },
            GuiCmd::Title { x, y, size, text } => GuiCmdView::Title {
                x: x as int,
                y: y as int,
                size: size as int,
                text: text@,
            },
            GuiCmd::Text { x, y, size, text } => GuiCmdView::Text {
                x: x as int,
                y: y as int,
                size: size as int,
                text: text@,
            },
            GuiCmd::RunText { x, y, size, color, text } => GuiCmdView::RunText {
                x: x as int,
                y: y as int,
                size: size as int,
                color: color,
                text: text@,
            },
            GuiCmd::Image { slide, pos, x, y } => GuiCmdView::Image {
                slide: slide as int,
                pos: pos as int,
                x: x as int,
                y: y as int,
            },
            GuiCmd::Border { x, y, w, h } => GuiCmdView::Border {
                x: x as int,
                y: y as int,
                w: w as int,
                h: h as int,
            },
        }
    }
}

/// The mathematical shape of a command sequence.
pub open spec fn gui_cmds_view(cmds: Seq<GuiCmd>) -> Seq<GuiCmdView> {
    cmds.map_values(|c: GuiCmd| c.view_cmd())
}

/// The text commands of the lines from position `j` on, stacked downward
/// from `y` at the shared left edge `x`, one font height apart.
pub open spec fn gui_text_ops(lines: Seq<Seq<char>>, x: int, y: int, size: int, j: int) -> Seq<
    GuiCmdView,
>
    decreases lines.len() - j,
{
    if j < 0 || j >= lines.len() {
        Seq::<GuiCmdView>::empty()
    } else {
        seq![GuiCmdView::Text { x: x, y: y, size: size, text: lines[j] }] + gui_text_ops(
            lines,
            x,
            y + size,
            size,
            j + 1,
        )
    }
}

/// The run commands of one highlighted line from run `k` on: each run sits
/// `c` (clamped) character widths right of the line's left edge `x0`, and
/// advances `c` by its character count.
pub open spec fn gui_run_ops(
    runs: Seq<((u8, u8, u8, u8), Seq<char>)>,
    x0: int,
    y: int,
    size: int,
    c: int,
    k: int,
) -> Seq<GuiCmdView>
    decreases runs.len() - k,
{
    if k < 0 || k >= runs.len() {
        Seq::<GuiCmdView>::empty()
    } else {
        let color = runs[k].0;
        let text = runs[k].1;
        let c2 = if c + text.len() > RUN_COLUMN_CAP {
            RUN_COLUMN_CAP as int
        } else {
            c + text.len()
        };
        seq![
            GuiCmdView::RunText {
                x: x0 + c * font_width(size),
                y: y,
                size: size,
                color: color,
                text: text,
            },
        ] + gui_run_ops(runs, x0, y, size, c2, k + 1)
    }
}

/// The commands of the highlighted lines from line `j` on, stacked downward
/// one font height apart.
pub open spec fn gui_code_ops(
    lines_runs: Seq<Seq<((u8, u8, u8, u8), Seq<char>)>>,
    x0: int,
    y: int,
    size: int,
    j: int,
) -> Seq<GuiCmdView>
    decreases lines_runs.len() - j,
{
    if j < 0 || j >= lines_runs.len() {
        Seq::<GuiCmdView>::empty()
    } else {
        gui_run_ops(lines_runs[j], x0, y, size, 0, 0) + gui_code_ops(
            lines_runs,
            x0,
            y + size,
            size,
            j + 1,
        )
    }
}

/// The graphical layout of one content item within slide `k`: the commands
/// it draws, the vertical height it consumes, and the image position counter
/// after it.  Text and code are centered blocks of lines, one font height
/// each; an image is drawn centered at its decoded width and consumes its
/// decoded height, or is skipped (consuming nothing) while its texture is
/// not cached yet; `Rows` stacks children at the full width and consumes
/// the sum of their heights, `Cols` splits the width into equal shares,
/// renders every child at the same cursor, and consumes the tallest child's
/// height; `Framed` stacks like `Rows` behind a border drawn first, sized to
/// the union bounds of its children.
pub open spec fn gui_item(
    item: SlideItem,
    k: int,
    img: int,
    dx: int,
    y: int,
    w: int,
    size: int,
    cache: TextureCache,
) -> (Seq<GuiCmdView>, int, int)
    decreases item,
{
    match item {
        SlideItem::Text { text } => {
            let lines = spec_split_lines(text@);
            let x = dx + px_offset(size, seq_lens(lines), w);
            (gui_text_ops(lines, x, y, size, 0), lines.len() * size, img)
        },
        SlideItem::Code { extension, source } => match highlight_outcome(extension@, source@) {
            Some(lines_runs) => {
                let x = dx + px_offset(size, seq_lens(spec_split_lines(source@)), w);
                (gui_code_ops(lines_runs, x, y, size, 0), lines_runs.len() * size, img)
            },
            None => {
                let lines = spec_split_lines(source@);
                let x = dx + px_offset(size, seq_lens(lines), w);
                (gui_text_ops(lines, x, y, size, 0), lines.len() * size, img)
            },
        },
        SlideItem::Image { .. } => match cache.dims(k, img) {
            Some(d) => {
                let x = if w < d.0 as int {
                    0int
                } else {
                    (w - d.0 as int) / 2
                };
                (
                    seq![GuiCmdView::Image { slide: k, pos: img, x: dx + x, y: y }],
                    d.1 as int,
                    img + 1,
                )
            },
            None => (Seq::<GuiCmdView>::empty(), 0, img + 1),
        },
        SlideItem::Rows { items } => gui_stack(items@, 0, k, img, dx, y, w, size, cache),
        SlideItem::Cols { items } => {
            if items@.len() == 0 {
                (Seq::<GuiCmdView>::empty(), 0, img)
            } else {
                gui_cols(items@, 0, k, img, dx, y, w / items@.len() as int, size, cache)
            }
        },
        SlideItem::Framed { items } => {
            let inner = gui_stack(items@, 0, k, img, dx, y, w, size, cache);
            (
                seq![GuiCmdView::Border { x: dx, y: y, w: w, h: inner.1 }] + inner.0,
                inner.1,
                inner.2,
            )
        },
    }
}

/// The layout of the children from position `i` on, stacked downward: each
/// child starts where the one before it ended, and the heights add up.
pub open spec fn gui_stack(
    items: Seq<SlideItem>,
    i: int,
    k: int,
    img: int,
    dx: int,
    y: int,
    w: int,
    size: int,
    cache: TextureCache,
) -> (Seq<GuiCmdView>, int, int)
    decreases items, items.len() - i,
{
    if i < 0 || i >= items.len() {
        (Seq::<GuiCmdView>::empty(), 0, img)
    } else {
        let head = gui_item(items[i], k, img, dx, y, w, size, cache);
        let rest = gui_stack(items, i + 1, k, head.2, dx, y + head.1, w, size, cache);
        (head.0 + rest.0, head.1 + rest.1, rest.2)
    }
}

/// The layout of the children from position `i` on, side by side: every
/// child starts at the same cursor, child `i` sits `i` shares right of the
/// container, and the total height is the tallest child's.
pub open spec fn gui_cols(
    items: Seq<SlideItem>,
    i: int,
    k: int,
    img: int,
    dx: int,
    y: int,
    share: int,
    size: int,
    cache: TextureCache,
) -> (Seq<GuiCmdView>, int, int)
    decreases items, items.len() - i,
{
    if i < 0 || i >= items.len() {
        (Seq::<GuiCmdView>::empty(), 0, img)
    } else {
        let head = gui_item(items[i], k, img, dx + i * share, y, share, size, cache);
        let rest = gui_cols(items, i + 1, k, head.2, dx, y, share, size, cache);
        (head.0 + rest.0, if head.1 >= rest.1 {
            head.1
        } else {
            rest.1
        }, rest.2)
    }
}

/// The whole layout of one slide at horizontal offset `dx`: the progress
/// bar, the slide-number line, the centered title, and the items stacked
/// below, in the three font sizes.
pub open spec fn gui_slide(
    slide: Slide,
    k: int,
    n: int,
    dx: int,
    w: int,
    title_size: int,
    index_size: int,
    text_size: int,
    cache: TextureCache,
) -> Seq<GuiCmdView> {
    seq![
        GuiCmdView::Bar { x: dx, y: 0, w: w * (k + 1) / n, h: index_size / 10 },
        GuiCmdView::IndexText {
            x: dx + 20,
            y: index_size,
            size: index_size,
            text: dec_str(k + 1) + "/"@ + dec_str(n),
        },
        GuiCmdView::Title {
            x: dx + px_offset(title_size, seq![slide.title@.len() as int], w),
            y: index_size + title_size,
            size: title_size,
            text: slide.title@,
        },
    ] + gui_stack(
        slide.items@,
        0,
        k,
        0,
        dx,
        index_size + 3 * title_size,
        w,
        text_size,
        cache,
    ).0
}

/// Every layout consumes a nonnegative height, and advances the image
/// counter by exactly the subtree's image count.
pub proof fn lemma_gui_item_measures(
    item: SlideItem,
    k: int,
    img: int,
    dx: int,
    y: int,
    w: int,
    size: int,
    cache: TextureCache,
)
    requires
        size >= 0,
    ensures
        gui_item(item, k, img, dx, y, w, size, cache).1 >= 0,
        gui_item(item, k, img, dx, y, w, size, cache).2 == img + image_count(item),
    decreases item,
{
    match item {
        SlideItem::Text { text } => {
            let lines = spec_split_lines(text@);
            assert(lines.len() * size >= 0) by (nonlinear_arith)
                requires
                    lines.len() >= 0,
                    size >= 0,
            ;
        },
        SlideItem::Code { extension, source } => {
            match highlight_outcome(extension@, source@) {
                Some(lines_runs) => {
                    assert(lines_runs.len() * size >= 0) by (nonlinear_arith)
                        requires
                            lines_runs.len() >= 0,
                            size >= 0,
                    ;
                },
                None => {
                    let lines = spec_split_lines(source@);
                    assert(lines.len() * size >= 0) by (nonlinear_arith)
                        requires
                            lines.len() >= 0,
                            size >= 0,
                    ;
                },
            }
        },
        SlideItem::Rows { items } => {
            lemma_gui_stack_measures(items@, 0, k, img, dx, y, w, size, cache);
        },
        SlideItem::Cols { items } => {
            if items@.len() > 0 {
                lemma_gui_cols_measures(
                    items@,
                    0,
                    k,
                    img,
                    dx,
                    y,
                    w / items@.len() as int,
                    size,
                    cache,
                );
            }
        },
        SlideItem::Framed { items } => {
            lemma_gui_stack_measures(items@, 0, k, img, dx, y, w, size, cache);
        },
        _ => {},
    }
}

/// As `lemma_gui_item_measures`, for a stacked run of children.
pub proof fn lemma_gui_stack_measures(
    items: Seq<SlideItem>,
    i: int,
    k: int,
    img: int,
    dx: int,
    y: int,
    w: int,
    size: int,
    cache: TextureCache,
)
    requires
        size >= 0,
    ensures
        gui_stack(items, i, k, img, dx, y, w, size, cache).1 >= 0,
        gui_stack(items, i, k, img, dx, y, w, size, cache).2 == img + images_count(items, i),
    decreases items, items.len() - i,
{
    if 0 <= i < items.len() {
        let head = gui_item(items[i], k, img, dx, y, w, size, cache);
        lemma_gui_item_measures(items[i], k, img, dx, y, w, size, cache);
        lemma_gui_stack_measures(items, i + 1, k, head.2, dx, y + head.1, w, size, cache);
    }
}

/// As `lemma_gui_item_measures`, for children side by side.
pub proof fn lemma_gui_cols_measures(
    items: Seq<SlideItem>,
    i: int,
    k: int,
    img: int,
    dx: int,
    y: int,
    share: int,
    size: int,
    cache: TextureCache,
)
    requires
        size >= 0,
    ensures
        gui_cols(items, i, k, img, dx, y, share, size, cache).1 >= 0,
        gui_cols(items, i, k, img, dx, y, share, size, cache).2 == img + images_count(items, i),
    decreases items, items.len() - i,
{
    if 0 <= i < items.len() {
        let head = gui_item(items[i], k, img, dx + i * share, y, share, size, cache);
        lemma_gui_item_measures(items[i], k, img, dx + i * share, y, share, size, cache);
        lemma_gui_cols_measures(items, i + 1, k, head.2, dx, y, share, size, cache);
    }
}

/// The heights the stacked children from position `i` on consume, in order.
pub open spec fn stack_heights(
    items: Seq<SlideItem>,
    i: int,
    k: int,
    img: int,
    dx: int,
    y: int,
    w: int,
    size: int,
    cache: TextureCache,
) -> Seq<int>
    decreases items, items.len() - i,
{
    if i < 0 || i >= items.len() {
        Seq::<int>::empty()
    } else {
        let head = gui_item(items[i], k, img, dx, y, w, size, cache);
        seq![head.1] + stack_heights(items, i + 1, k, head.2, dx, y + head.1, w, size, cache)
    }
}

/// The heights the side-by-side children from position `i` on consume, in
/// order, each within its own share.
pub open spec fn cols_heights(
    items: Seq<SlideItem>,
    i: int,
    k: int,
    img: int,
    dx: int,
    y: int,
    share: int,
    size: int,
    cache: TextureCache,
) -> Seq<int>
    decreases items, items.len() - i,
{
    if i < 0 || i >= items.len() {
        Seq::<int>::empty()
    } else {
        let head = gui_item(items[i], k, img, dx + i * share, y, share, size, cache);
        seq![head.1] + cols_heights(items, i + 1, k, head.2, dx, y, share, size, cache)
    }
}

/// The sum of a sequence of heights.
pub open spec fn seq_sum(s: Seq<int>) -> int
    decreases s.len(),
{
    if s.len() == 0 {
        0
    } else {
        s.first() + seq_sum(s.drop_first())
    }
}

/// The largest of a nonempty sequence of heights.
pub open spec fn seq_max(s: Seq<int>) -> int
    decreases s.len(),
{
    if s.len() <= 1 {
        s[0]
    } else if s.first() >= seq_max(s.drop_first()) {
        s.first()
    } else {
        seq_max(s.drop_first())
    }
}

/// A vertical stack of children of individual heights consumes exactly
/// their sum.
pub proof fn lemma_rows_height_is_sum(
    items: Seq<SlideItem>,
    i: int,
    k: int,
    img: int,
    dx: int,
    y: int,
    w: int,
    size: int,
    cache: TextureCache,
)
    ensures
        gui_stack(items, i, k, img, dx, y, w, size, cache).1 == seq_sum(
            stack_heights(items, i, k, img, dx, y, w, size, cache),
        ),
    decreases items, items.len() - i,
{
    if 0 <= i < items.len() {
        let head = gui_item(items[i], k, img, dx, y, w, size, cache);
        lemma_rows_height_is_sum(items, i + 1, k, head.2, dx, y + head.1, w, size, cache);
        assert(stack_heights(items, i, k, img, dx, y, w, size, cache).drop_first()
            =~= stack_heights(items, i + 1, k, head.2, dx, y + head.1, w, size, cache));
    }
}

/// A horizontal split of children of individual heights consumes exactly
/// the largest of them (and nothing when there are no children).
pub proof fn lemma_cols_height_is_max(
    items: Seq<SlideItem>,
    i: int,
    k: int,
    img: int,
    dx: int,
    y: int,
    share: int,
    size: int,
    cache: TextureCache,
)
    requires
        0 <= i <= items.len(),
        size >= 0,
    ensures
        i < items.len() ==> gui_cols(items, i, k, img, dx, y, share, size, cache).1 == seq_max(
            cols_heights(items, i, k, img, dx, y, share, size, cache),
        ),
        i == items.len() ==> gui_cols(items, i, k, img, dx, y, share, size, cache).1 == 0,
        cols_heights(items, i, k, img, dx, y, share, size, cache).len() == items.len() - i,
    decreases items, items.len() - i,
{
    if i < items.len() {
        let head = gui_item(items[i], k, img, dx + i * share, y, share, size, cache);
        lemma_gui_item_measures(items[i], k, img, dx + i * share, y, share, size, cache);
        lemma_cols_height_is_max(items, i + 1, k, head.2, dx, y, share, size, cache);
        let hs = cols_heights(items, i, k, img, dx, y, share, size, cache);
        assert(hs.drop_first() =~= cols_heights(items, i + 1, k, head.2, dx, y, share, size, cache));
        assert(hs[0] == head.1);
    }
}

/// The largest height is one of the heights, and no height exceeds it.
pub proof fn lemma_seq_max_props(s: Seq<int>)
    requires
        s.len() >= 1,
    ensures
        s.contains(seq_max(s)),
        forall|i: int| 0 <= i < s.len() ==> s[i] <= seq_max(s),
    decreases s.len(),
{
    if s.len() > 1 {
        lemma_seq_max_props(s.drop_first());
        let m = seq_max(s);
        if s.first() >= seq_max(s.drop_first()) {
            assert(s[0] == m);
        } else {
            let j = choose|j: int| 0 <= j < s.drop_first().len() && s.drop_first()[j] == m;
            assert(s[j + 1] == m);
        }
        assert forall|i: int| 0 <= i < s.len() implies s[i] <= m by {
            if i > 0 {
                assert(s.drop_first()[i - 1] == s[i]);
            }
        }
    }
}

/// Computes the pixel centering offset of the block `lines` within `w`
/// pixels at font size `size`, as `px_offset` describes; never beyond `w`.
pub fn px_justify(size: u16, lines: &Vec<String>, w: u32) -> (r: u64)
    ensures
        r == px_offset(size as int, seq_lens(strings_view(lines@)), w as int),
        r <= w,
{
    let fw: u16 = size / 2;
    if fw == 0 {
        0
    } else {
        let chars_w: u32 = w / fw as u32;
        let ws = justify_of_lines(chars_w as usize, lines);
        proof {
            vstd::arithmetic::mul::lemma_mul_upper_bound(
                fw as int,
                0x10000,
                ws as int,
                0x100000000,
            );
            vstd::arithmetic::mul::lemma_mul_inequality(ws as int, chars_w as int, fw as int);
            vstd::arithmetic::mul::lemma_mul_is_commutative(ws as int, fw as int);
            vstd::arithmetic::mul::lemma_mul_is_commutative(chars_w as int, fw as int);
            vstd::arithmetic::div_mod::lemma_fundamental_div_mod(w as int, fw as int);
            vstd::arithmetic::div_mod::lemma_mod_bound(w as int, fw as int);
        }
        (fw as u64) * (ws as u64)
    }
}

/// Renders one content item at horizontal offset `dx` and cursor `y` within
/// `w` pixels, exactly as `gui_item` describes; returns the commands and the
/// consumed height, and advances the image position counter.
pub fn draw_item(
    item: &SlideItem,
    k: usize,
    img: &mut usize,
    dx: i64,
    y: i64,
    w: u32,
    size: u16,
    cache: &TextureCache,
) -> (r: (Vec<GuiCmd>, i64))
    requires
        *old(img) + image_count(*item) <= usize::MAX,
        0 <= y,
        y + gui_item(
            *item,
            k as int,
            *old(img) as int,
            dx as int,
            y as int,
            w as int,
            size as int,
            *cache,
        ).1 <= 0x2000000000000000,
        -0x400000000 <= dx,
        dx + 2 * (w as int) <= 0x400000000,
    ensures
        gui_cmds_view(r.0@) =~= gui_item(
            *item,
            k as int,
            *old(img) as int,
            dx as int,
            y as int,
            w as int,
            size as int,
            *cache,
        ).0,
        r.1 as int == gui_item(
            *item,
            k as int,
            *old(img) as int,
            dx as int,
            y as int,
            w as int,
            size as int,
            *cache,
        ).1,
        *final(img) == gui_item(
            *item,
            k as int,
            *old(img) as int,
            dx as int,
            y as int,
            w as int,
            size as int,
            *cache,
        ).2,
        0 <= r.1,
    decreases *item,
{
    proof {
        lemma_gui_item_measures(
            *item,
            k as int,
            *old(img) as int,
            dx as int,
            y as int,
            w as int,
            size as int,
            *cache,
        );
    }
    match item {
        SlideItem::Text { text } => {
            let splits = split_string_lines(text.as_str());
            draw_text_lines(&splits, Ghost(text@), dx, y, w, size)
        },
        SlideItem::Code { extension, source } => {
            match highlight_source(extension.as_str(), source.as_str()) {
                Some(lines_runs) => {
                    let ghost v = highlight_outcome(extension@, source@)->Some_0;
                    let splits = split_string_lines(source.as_str());
                    let px = px_justify(size, &splits, w);
                    let x0: i64 = dx + px as i64;
                    proof {
                        assert(strings_view(splits@) =~= spec_split_lines(source@));
                        assert(seq_lens(strings_view(splits@)) =~= seq_lens(
                            spec_split_lines(source@),
                        ));
                    }
                    let ghost target = gui_code_ops(v, x0 as int, y as int, size as int, 0);
                    let mut cmds: Vec<GuiCmd> = Vec::new();
                    let mut y_cur: i64 = y;
                    let mut j: usize = 0;
                    proof {
                        assert((lines_runs@.len() as int) * (size as int) == gui_item(
                            *item,
                            k as int,
                            *old(img) as int,
                            dx as int,
                            y as int,
                            w as int,
                            size as int,
                            *cache,
                        ).1);
                        vstd::arithmetic::mul::lemma_mul_nonnegative(
                            lines_runs@.len() as int,
                            size as int,
                        );
                    }
                    while j < lines_runs.len()
                        invariant
                            j <= lines_runs@.len(),
                            runs_lines_view(lines_runs@) == v,
                            v.len() == lines_runs@.len(),
                            target == gui_code_ops(v, x0 as int, y as int, size as int, 0),
                            y_cur == y + j * (size as int),
                            0 <= y,
                            y + v.len() * (size as int) <= 0x2000000000000000,
                            -0x400000000 <= x0 <= 0x500000000,
                            target =~= gui_cmds_view(cmds@) + gui_code_ops(
                                v,
                                x0 as int,
                                y_cur as int,
                                size as int,
                                j as int,
                            ),
                        decreases lines_runs@.len() - j,
                    {
                        proof {
                            vstd::arithmetic::mul::lemma_mul_inequality(
                                j as int + 1,
                                v.len() as int,
                                size as int,
                            );
                            assert((j + 1) * (size as int) == j * (size as int) + size as int)
                                by (nonlinear_arith);
                        }
                        let ghost cmds_before = cmds@;
                        let mut line_cmds = draw_run_line(&lines_runs[j], x0, y_cur, size);
                        let ghost line_view = line_cmds@;
                        cmds.append(&mut line_cmds);
                        proof {
                            assert(runs_view(lines_runs@[j as int]@) == v[j as int]);
                            assert(gui_cmds_view(cmds_before + line_view) =~= gui_cmds_view(
                                cmds_before,
                            ) + gui_cmds_view(line_view));
                        }
                        y_cur = y_cur + size as i64;
                        j += 1;
                    }
                    let height: i64 = y_cur - y;
                    proof {
                        assert(gui_code_ops(v, x0 as int, y_cur as int, size as int, j as int)
                            =~= Seq::<GuiCmdView>::empty());
                        assert(height as int == v.len() * (size as int));
                    }
                    (cmds, height)
                },
                None => {
                    let splits = split_string_lines(source.as_str());
                    draw_text_lines(&splits, Ghost(source@), dx, y, w, size)
                },
            }
        },
        SlideItem::Image { .. } => {
            let mut cmds: Vec<GuiCmd> = Vec::new();
            let pos = *img;
            let height: i64 = match cache.get(k, pos) {
                Some(d) => {
                    let x: i64 = if w < d.0 {
                        0
                    } else {
                        ((w - d.0) / 2) as i64
                    };
                    cmds.push(GuiCmd::Image { slide: k, pos, x: dx + x, y });
                    d.1 as i64
                },
                None => 0,
            };
            *img = *img + 1;
            (cmds, height)
        },
        SlideItem::Rows { items } => draw_stack(items, k, img, dx, y, w, size, cache),
        SlideItem::Cols { items } => {
            let len = items.len();
            if len == 0 {
                (Vec::new(), 0)
            } else {
                let share: u32 = if (len as u64) > (w as u64) {
                    0
                } else {
                    w / (len as u32)
                };
                proof {
                    if len as u64 <= w as u64 {
                        lemma_split_width_equal_share(w as int, len as int);
                        vstd::arithmetic::mul::lemma_mul_is_commutative(
                            len as int,
                            w as int / len as int,
                        );
                    } else {
                        assert(w as int / len as int == 0) by {
                            vstd::arithmetic::div_mod::lemma_basic_div(w as int, len as int);
                        }
                        assert(items@.len() * (share as int) == 0) by (nonlinear_arith)
                            requires
                                share == 0,
                        ;
                    }
                }
                draw_cols(items, k, img, dx, y, share, size, cache, Ghost(w as int))
            }
        },
        SlideItem::Framed { items } => {
            let ghost inner_spec = gui_stack(
                items@,
                0,
                k as int,
                *old(img) as int,
                dx as int,
                y as int,
                w as int,
                size as int,
                *cache,
            );
            let inner = draw_stack(items, k, img, dx, y, w, size, cache);
            let mut cmds: Vec<GuiCmd> = Vec::new();
            cmds.push(GuiCmd::Border { x: dx, y, w: w as u64, h: inner.1 as u64 });
            let mut body = inner.0;
            let ghost body_view = body@;
            cmds.append(&mut body);
            proof {
                assert(gui_cmds_view(cmds@) =~= seq![
                    GuiCmdView::Border { x: dx as int, y: y as int, w: w as int, h: inner_spec.1 },
                ] + gui_cmds_view(body_view));
            }
            (cmds, inner.1)
        },
    }
}

/// Renders an already-split block of text lines as a centered column of
/// text commands; `original` is the unsplit text the block came from.
fn draw_text_lines(
    splits: &Vec<String>,
    original: Ghost<Seq<char>>,
    dx: i64,
    y: i64,
    w: u32,
    size: u16,
) -> (r: (Vec<GuiCmd>, i64))
    requires
        strings_view(splits@) == spec_split_lines(original@),
        0 <= y,
        y + spec_split_lines(original@).len() * (size as int) <= 0x2000000000000000,
        -0x400000000 <= dx,
        dx + 2 * (w as int) <= 0x400000000,
    ensures
        gui_cmds_view(r.0@) =~= gui_text_ops(
            spec_split_lines(original@),
            dx as int + px_offset(size as int, seq_lens(spec_split_lines(original@)), w as int),
            y as int,
            size as int,
            0,
        ),
        r.1 as int == spec_split_lines(original@).len() * (size as int),
        0 <= r.1,
{
    let ghost lines = spec_split_lines(original@);
    let px = px_justify(size, splits, w);
    let x: i64 = dx + px as i64;
    proof {
        assert(seq_lens(strings_view(splits@)) =~= seq_lens(lines));
        vstd::arithmetic::mul::lemma_mul_nonnegative(lines.len() as int, size as int);
    }
    let ghost target = gui_text_ops(lines, x as int, y as int, size as int, 0);
    let mut cmds: Vec<GuiCmd> = Vec::new();
    let mut y_cur: i64 = y;
    let mut j: usize = 0;
    while j < splits.len()
        invariant
            j <= splits@.len(),
            lines == spec_split_lines(original@),
            strings_view(splits@) == lines,
            target == gui_text_ops(lines, x as int, y as int, size as int, 0),
            y_cur == y + j * (size as int),
            0 <= y,
            y + lines.len() * (size as int) <= 0x2000000000000000,
            target =~= gui_cmds_view(cmds@) + gui_text_ops(
                lines,
                x as int,
                y_cur as int,
                size as int,
                j as int,
            ),
        decreases splits@.len() - j,
    {
        proof {
            vstd::arithmetic::mul::lemma_mul_inequality(
                j as int + 1,
                lines.len() as int,
                size as int,
            );
            assert((j + 1) * (size as int) == j * (size as int) + size as int) by (nonlinear_arith);
        }
        let ghost cmds_before = cmds@;
        let line = splits[j].clone();
        let ghost line_view = line@;
        cmds.push(GuiCmd::Text { x, y: y_cur, size, text: line });
        proof {
            assert(line_view == lines[j as int]);
            assert(cmds@.drop_last() =~= cmds_before);
            assert(gui_cmds_view(cmds@) =~= gui_cmds_view(cmds_before).push(
                GuiCmdView::Text { x: x as int, y: y_cur as int, size: size as int, text: lines[j as int] },
            ));
        }
        y_cur = y_cur + size as i64;
        j += 1;
    }
    let height: i64 = y_cur - y;
    proof {
        assert(gui_text_ops(lines, x as int, y_cur as int, size as int, j as int) =~= Seq::<
            GuiCmdView,
        >::empty());
    }
    (cmds, height)
}

/// Renders one highlighted code line: each run at its cumulative (clamped)
/// character column right of the line's left edge `x0`.
fn draw_run_line(runs: &Vec<CodeRun>, x0: i64, y: i64, size: u16) -> (r: Vec<GuiCmd>)
    requires
        -0x400000000 <= x0 <= 0x500000000,
    ensures
        gui_cmds_view(r@) =~= gui_run_ops(runs_view(runs@), x0 as int, y as int, size as int, 0, 0),
{
    let ghost rv = runs_view(runs@);
    let ghost target = gui_run_ops(rv, x0 as int, y as int, size as int, 0, 0);
    let fw: u16 = size / 2;
    let mut cmds: Vec<GuiCmd> = Vec::new();
    let mut c: u64 = 0;
    let mut kk: usize = 0;
    while kk < runs.len()
        invariant
            kk <= runs@.len(),
            rv == runs_view(runs@),
            rv.len() == runs@.len(),
            target == gui_run_ops(rv, x0 as int, y as int, size as int, 0, 0),
            c <= RUN_COLUMN_CAP,
            fw == size / 2,
            -0x400000000 <= x0 <= 0x500000000,
            target =~= gui_cmds_view(cmds@) + gui_run_ops(
                rv,
                x0 as int,
                y as int,
                size as int,
                c as int,
                kk as int,
            ),
        decreases runs@.len() - kk,
    {
        let run = &runs[kk];
        proof {
            vstd::arithmetic::mul::lemma_mul_upper_bound(
                c as int,
                0x100000000,
                fw as int,
                0x10000,
            );
            vstd::arithmetic::mul::lemma_mul_nonnegative(c as int, fw as int);
            assert(rv[kk as int] == code_run_view(runs@[kk as int]));
        }
        let xr: i64 = x0 + (c as i64) * (fw as i64);
        let ghost cmds_before = cmds@;
        let text = run.text.clone();
        let ghost text_view = text@;
        cmds.push(
            GuiCmd::RunText { x: xr, y, size, color: (run.r, run.g, run.b, run.a), text },
        );
        let tl = run.text.as_str().unicode_len();
        c = if (tl as u64) >= RUN_COLUMN_CAP - c {
            RUN_COLUMN_CAP
        } else {
            c + tl as u64
        };
        proof {
            assert(cmds@.drop_last() =~= cmds_before);
            assert(gui_cmds_view(cmds@) =~= gui_cmds_view(cmds_before).push(
                GuiCmdView::RunText {
                    x: xr as int,
                    y: y as int,
                    size: size as int,
                    color: rv[kk as int].0,
                    text: rv[kk as int].1,
                },
            ));
        }
        kk += 1;
    }
    proof {
        assert(gui_run_ops(rv, x0 as int, y as int, size as int, c as int, kk as int) =~= Seq::<
            GuiCmdView,
        >::empty());
    }
    cmds
}

/// Renders children one below another, as `gui_stack` describes.
fn draw_stack(
    items: &Vec<SlideItem>,
    k: usize,
    img: &mut usize,
    dx: i64,
    y: i64,
    w: u32,
    size: u16,
    cache: &TextureCache,
) -> (r: (Vec<GuiCmd>, i64))
    requires
        *old(img) + images_count(items@, 0) <= usize::MAX,
        0 <= y,
        y + gui_stack(
            items@,
            0,
            k as int,
            *old(img) as int,
            dx as int,
            y as int,
            w as int,
            size as int,
            *cache,
        ).1 <= 0x2000000000000000,
        -0x400000000 <= dx,
        dx + 2 * (w as int) <= 0x400000000,
    ensures
        gui_cmds_view(r.0@) =~= gui_stack(
            items@,
            0,
            k as int,
            *old(img) as int,
            dx as int,
            y as int,
            w as int,
            size as int,
            *cache,
        ).0,
        r.1 as int == gui_stack(
            items@,
            0,
            k as int,
            *old(img) as int,
            dx as int,
            y as int,
            w as int,
            size as int,
            *cache,
        ).1,
        *final(img) == gui_stack(
            items@,
            0,
            k as int,
            *old(img) as int,
            dx as int,
            y as int,
            w as int,
            size as int,
            *cache,
        ).2,
        0 <= r.1,
    decreases items@,
{
    let ghost img0 = *img as int;
    let ghost full = gui_stack(
        items@,
        0,
        k as int,
        img0,
        dx as int,
        y as int,
        w as int,
        size as int,
        *cache,
    );
    proof {
        lemma_gui_stack_measures(
            items@,
            0,
            k as int,
            img0,
            dx as int,
            y as int,
            w as int,
            size as int,
            *cache,
        );
        lemma_export_items_count(items@, 0, img0);
    }
    let mut cmds: Vec<GuiCmd> = Vec::new();
    let mut y_cur: i64 = y;
    let mut j: usize = 0;
    while j < items.len()
        invariant
            j <= items@.len(),
            full == gui_stack(
                items@,
                0,
                k as int,
                img0,
                dx as int,
                y as int,
                w as int,
                size as int,
                *cache,
            ),
            0 <= y <= y_cur,
            -0x400000000 <= dx,
            dx + 2 * (w as int) <= 0x400000000,
            *img as int + images_count(items@, j as int) <= usize::MAX,
            full.0 =~= gui_cmds_view(cmds@) + gui_stack(
                items@,
                j as int,
                k as int,
                *img as int,
                dx as int,
                y_cur as int,
                w as int,
                size as int,
                *cache,
            ).0,
            full.1 == (y_cur - y) + gui_stack(
                items@,
                j as int,
                k as int,
                *img as int,
                dx as int,
                y_cur as int,
                w as int,
                size as int,
                *cache,
            ).1,
            full.2 == gui_stack(
                items@,
                j as int,
                k as int,
                *img as int,
                dx as int,
                y_cur as int,
                w as int,
                size as int,
                *cache,
            ).2,
            y + full.1 <= 0x2000000000000000,
        decreases items@.len() - j,
    {
        proof {
            lemma_gui_stack_measures(
                items@,
                j as int,
                k as int,
                *img as int,
                dx as int,
                y_cur as int,
                w as int,
                size as int,
                *cache,
            );
            lemma_gui_item_measures(
                items@[j as int],
                k as int,
                *img as int,
                dx as int,
                y_cur as int,
                w as int,
                size as int,
                *cache,
            );
            lemma_gui_stack_measures(
                items@,
                j as int + 1,
                k as int,
                *img as int + image_count(items@[j as int]),
                dx as int,
                y_cur as int + gui_item(
                    items@[j as int],
                    k as int,
                    *img as int,
                    dx as int,
                    y_cur as int,
                    w as int,
                    size as int,
                    *cache,
                ).1,
                w as int,
                size as int,
                *cache,
            );
            lemma_export_items_count(items@, j as int, *img as int);
            lemma_export_item_count(items@[j as int], *img as int);
            lemma_export_items_count(items@, j as int + 1, 0);
        }
        let ghost cmds_before = cmds@;
        let child = draw_item(&items[j], k, img, dx, y_cur, w, size, cache);
        let mut child_cmds = child.0;
        let ghost child_view = child_cmds@;
        cmds.append(&mut child_cmds);
        proof {
            assert(gui_cmds_view(cmds_before + child_view) =~= gui_cmds_view(cmds_before)
                + gui_cmds_view(child_view));
        }
        y_cur = y_cur + child.1;
        j += 1;
    }
    (cmds, y_cur - y)
}

/// Renders children side by side in equal shares, as `gui_cols` describes;
/// `w_total` is the surrounding container's width, which the shares never
/// exceed.
fn draw_cols(
    items: &Vec<SlideItem>,
    k: usize,
    img: &mut usize,
    dx: i64,
    y: i64,
    share: u32,
    size: u16,
    cache: &TextureCache,
    w_total: Ghost<int>,
) -> (r: (Vec<GuiCmd>, i64))
    requires
        *old(img) + images_count(items@, 0) <= usize::MAX,
        0 <= y,
        y + gui_cols(
            items@,
            0,
            k as int,
            *old(img) as int,
            dx as int,
            y as int,
            share as int,
            size as int,
            *cache,
        ).1 <= 0x2000000000000000,
        -0x400000000 <= dx,
        dx + 2 * w_total@ <= 0x400000000,
        0 <= w_total@ <= 0x100000000,
        share as int <= w_total@,
        items@.len() * (share as int) <= w_total@,
    ensures
        gui_cmds_view(r.0@) =~= gui_cols(
            items@,
            0,
            k as int,
            *old(img) as int,
            dx as int,
            y as int,
            share as int,
            size as int,
            *cache,
        ).0,
        r.1 as int == gui_cols(
            items@,
            0,
            k as int,
            *old(img) as int,
            dx as int,
            y as int,
            share as int,
            size as int,
            *cache,
        ).1,
        *final(img) == gui_cols(
            items@,
            0,
            k as int,
            *old(img) as int,
            dx as int,
            y as int,
            share as int,
            size as int,
            *cache,
        ).2,
        0 <= r.1,
    decreases items@,
{
    let ghost img0 = *img as int;
    let ghost full = gui_cols(
        items@,
        0,
        k as int,
        img0,
        dx as int,
        y as int,
        share as int,
        size as int,
        *cache,
    );
    proof {
        lemma_gui_cols_measures(
            items@,
            0,
            k as int,
            img0,
            dx as int,
            y as int,
            share as int,
            size as int,
            *cache,
        );
        lemma_export_items_count(items@, 0, img0);
    }
    let mut cmds: Vec<GuiCmd> = Vec::new();
    let mut best: i64 = 0;
    let mut dx_cur: i64 = dx;
    let mut j: usize = 0;
    while j < items.len()
        invariant
            j <= items@.len(),
            full == gui_cols(
                items@,
                0,
                k as int,
                img0,
                dx as int,
                y as int,
                share as int,
                size as int,
                *cache,
            ),
            0 <= y,
            dx_cur == dx + j * (share as int),
            -0x400000000 <= dx,
            dx + 2 * w_total@ <= 0x400000000,
            0 <= w_total@ <= 0x100000000,
            share as int <= w_total@,
            items@.len() * (share as int) <= w_total@,
            *img as int + images_count(items@, j as int) <= usize::MAX,
            0 <= best,
            full.0 =~= gui_cmds_view(cmds@) + gui_cols(
                items@,
                j as int,
                k as int,
                *img as int,
                dx as int,
                y as int,
                share as int,
                size as int,
                *cache,
            ).0,
            full.1 == if best as int >= gui_cols(
                items@,
                j as int,
                k as int,
                *img as int,
                dx as int,
                y as int,
                share as int,
                size as int,
                *cache,
            ).1 {
                best as int
            } else {
                gui_cols(
                    items@,
                    j as int,
                    k as int,
                    *img as int,
                    dx as int,
                    y as int,
                    share as int,
                    size as int,
                    *cache,
                ).1
            },
            full.2 == gui_cols(
                items@,
                j as int,
                k as int,
                *img as int,
                dx as int,
                y as int,
                share as int,
                size as int,
                *cache,
            ).2,
            y + full.1 <= 0x2000000000000000,
            best as int <= full.1,
        decreases items@.len() - j,
    {
        proof {
            lemma_gui_cols_measures(
                items@,
                j as int,
                k as int,
                *img as int,
                dx as int,
                y as int,
                share as int,
                size as int,
                *cache,
            );
            lemma_gui_item_measures(
                items@[j as int],
                k as int,
                *img as int,
                dx as int + (j as int) * (share as int),
                y as int,
                share as int,
                size as int,
                *cache,
            );
            lemma_gui_cols_measures(
                items@,
                j as int + 1,
                k as int,
                *img as int + image_count(items@[j as int]),
                dx as int,
                y as int,
                share as int,
                size as int,
                *cache,
            );
            lemma_export_items_count(items@, j as int, *img as int);
            lemma_export_item_count(items@[j as int], *img as int);
            lemma_export_items_count(items@, j as int + 1, 0);
            vstd::arithmetic::mul::lemma_mul_inequality(
                j as int + 1,
                items@.len() as int,
                share as int,
            );
            assert((j + 1) * (share as int) == j * (share as int) + share as int)
                by (nonlinear_arith);
        }
        let ghost cmds_before = cmds@;
        let child = draw_item(&items[j], k, img, dx_cur, y, share, size, cache);
        let mut child_cmds = child.0;
        let ghost child_view = child_cmds@;
        cmds.append(&mut child_cmds);
        proof {
            assert(gui_cmds_view(cmds_before + child_view) =~= gui_cmds_view(cmds_before)
                + gui_cmds_view(child_view));
        }
        if child.1 > best {
            best = child.1;
        }
        dx_cur = dx_cur + share as i64;
        j += 1;
    }
    (cmds, best)
}

/// One slide's images embed no more images than the whole deck.
proof fn lemma_slide_images_within(slides: Seq<Slide>, t: int, j: int)
    requires
        0 <= t <= j < slides.len(),
    ensures
        images_count(slides[j].items@, 0) <= slides_images_count(slides, t),
    decreases j - t,
{
    lemma_export_items_count(slides[t].items@, 0, 0);
    if t < j {
        lemma_slide_images_within(slides, t + 1, j);
    } else {
        lemma_export_slides_count(slides, t + 1, 0);
    }
}

/// Renders one whole slide of the deck at horizontal offset `dx`, exactly
/// as `gui_slide` describes; `i` may lie outside the deck and is wrapped
/// first.
pub fn draw_slide(
    bema: &Bema,
    i: i64,
    dx: i64,
    w: u32,
    title_size: u16,
    index_size: u16,
    text_size: u16,
    cache: &TextureCache,
) -> (r: Vec<GuiCmd>)
    requires
        1 <= bema.slides@.len(),
        bema.slides@.len() <= i64::MAX,
        slides_images_count(bema.slides@, 0) <= usize::MAX,
        -0x200000000 <= dx <= 0x200000000,
        index_size as int + 3 * (title_size as int) + gui_stack(
            bema.slides@[spec_normalize(i as int, bema.slides@.len() as int)].items@,
            0,
            spec_normalize(i as int, bema.slides@.len() as int),
            0,
            dx as int,
            index_size as int + 3 * (title_size as int),
            w as int,
            text_size as int,
            *cache,
        ).1 <= 0x2000000000000000,
    ensures
        gui_cmds_view(r@) =~= gui_slide(
            bema.slides@[spec_normalize(i as int, bema.slides@.len() as int)],
            spec_normalize(i as int, bema.slides@.len() as int),
            bema.slides@.len() as int,
            dx as int,
            w as int,
            title_size as int,
            index_size as int,
            text_size as int,
            *cache,
        ),
{
    let n = bema.slides.len();
    let k = normalize_index(i, n);
    let slide = &bema.slides[k];
    let mut cmds: Vec<GuiCmd> = Vec::new();
    proof {
        vstd::arithmetic::mul::lemma_mul_inequality(k as int + 1, n as int, w as int);
        vstd::arithmetic::mul::lemma_mul_is_commutative(k as int + 1, w as int);
        vstd::arithmetic::mul::lemma_mul_is_commutative(n as int, w as int);
        vstd::arithmetic::div_mod::lemma_div_is_ordered(
            w as int * (k as int + 1),
            w as int * n as int,
            n as int,
        );
        vstd::arithmetic::div_mod::lemma_div_multiples_vanish(w as int, n as int);
        vstd::arithmetic::mul::lemma_mul_nonnegative(w as int, k as int + 1);
        assert((w as int) * (k as int + 1) < 0x1000000000000000000000000) by (nonlinear_arith)
            requires
                0 <= w <= 0xffffffff,
                0 <= k <= 0xffffffffffffffff,
        ;
    }
    let prod: u128 = (w as u128) * ((k as u128) + 1);
    let q: u128 = prod / (n as u128);
    proof {
        assert(q as int == (w as int) * (k as int + 1) / (n as int));
        assert(q <= w);
    }
    let barw: u64 = q as u64;
    cmds.push(GuiCmd::Bar { x: dx, y: 0, w: barw, h: (index_size / 10) as u64 });
    let header = header_line(k, n);
    cmds.push(
        GuiCmd::IndexText { x: dx + 20, y: index_size as i64, size: index_size, text: header },
    );
    let mut title_lines: Vec<String> = Vec::new();
    title_lines.push(slide.title.clone());
    proof {
        assert(seq_lens(strings_view(title_lines@)) =~= seq![slide.title@.len() as int]);
    }
    let px = px_justify(title_size, &title_lines, w);
    cmds.push(
        GuiCmd::Title {
            x: dx + px as i64,
            y: index_size as i64 + title_size as i64,
            size: title_size,
            text: slide.title.clone(),
        },
    );
    let ghost head_view = gui_cmds_view(cmds@);
    let y0: i64 = index_size as i64 + 3 * (title_size as i64);
    let mut img: usize = 0;
    proof {
        lemma_slide_images_within(bema.slides@, 0, k as int);
    }
    let body = draw_stack(&slide.items, k, &mut img, dx, y0, w, text_size, cache);
    let mut body_cmds = body.0;
    let ghost body_view = body_cmds@;
    cmds.append(&mut body_cmds);
    proof {
        assert(gui_cmds_view(cmds@) =~= head_view + gui_cmds_view(body_view));
    }
    cmds
}

/// The images embedded in `item`, in position order: each one's position
/// key, bytes, extension, and requested width.
pub open spec fn item_image_list(item: SlideItem, img: int) -> Seq<
    (int, Seq<u8>, Seq<char>, Option<usize>),
>
    decreases item,
{
    match item {
        SlideItem::Image { image, extension, width } => seq![(img, image@, extension@, width)],
        SlideItem::Rows { items } => items_image_list(items@, 0, img),
        SlideItem::Cols { items } => items_image_list(items@, 0, img),
        SlideItem::Framed { items } => items_image_list(items@, 0, img),
        _ => Seq::<(int, Seq<u8>, Seq<char>, Option<usize>)>::empty(),
    }
}

/// The images embedded in the children from position `i` on.
pub open spec fn items_image_list(items: Seq<SlideItem>, i: int, img: int) -> Seq<
    (int, Seq<u8>, Seq<char>, Option<usize>),
>
    decreases items, items.len() - i,
{
    if i < 0 || i >= items.len() {
        Seq::<(int, Seq<u8>, Seq<char>, Option<usize>)>::empty()
    } else {
        item_image_list(items[i], img) + items_image_list(
            items,
            i + 1,
            img + image_count(items[i]),
        )
    }
}

/// One image of a slide, with the position key the layout will look its
/// texture up under.
pub struct ImageRef {
    pub pos: usize,
    pub bytes: Vec<u8>,
    pub extension: String,
    pub width: Option<usize>,
}

/// The mathematical shape of one image reference.
pub open spec fn image_ref_view(r: ImageRef) -> (int, Seq<u8>, Seq<char>, Option<usize>) {
    (r.pos as int, r.bytes@, r.extension@, r.width)
}

/// The mathematical shape of a sequence of image references.
pub open spec fn image_refs_view(rs: Seq<ImageRef>) -> Seq<
    (int, Seq<u8>, Seq<char>, Option<usize>),
> {
    rs.map_values(|r: ImageRef| image_ref_view(r))
}

/// Lists the images of one item, with their position keys, for the texture
/// pass; `img` counts the image positions already passed.
fn collect_images(item: &SlideItem, img: &mut usize) -> (r: Vec<ImageRef>)
    requires
        *old(img) + image_count(*item) <= usize::MAX,
    ensures
        image_refs_view(r@) =~= item_image_list(*item, *old(img) as int),
        *final(img) == *old(img) + image_count(*item),
    decreases *item,
{
    let mut r: Vec<ImageRef> = Vec::new();
    match item {
        SlideItem::Image { image, extension, width } => {
            r.push(
                ImageRef {
                    pos: *img,
                    bytes: crate::bema::clone_bytes(image),
                    extension: extension.clone(),
                    width: *width,
                },
            );
            *img = *img + 1;
        },
        SlideItem::Rows { items } => {
            r = collect_images_of(items, img);
        },
        SlideItem::Cols { items } => {
            r = collect_images_of(items, img);
        },
        SlideItem::Framed { items } => {
            r = collect_images_of(items, img);
        },
        _ => {},
    }
    proof {
        lemma_export_item_count(*item, *old(img) as int);
    }
    r
}

/// Lists the images of a run of children, threading the position counter.
fn collect_images_of(items: &Vec<SlideItem>, img: &mut usize) -> (r: Vec<ImageRef>)
    requires
        *old(img) + images_count(items@, 0) <= usize::MAX,
    ensures
        image_refs_view(r@) =~= items_image_list(items@, 0, *old(img) as int),
        *final(img) == *old(img) + images_count(items@, 0),
    decreases items@,
{
    let ghost c0 = *img as int;
    let mut r: Vec<ImageRef> = Vec::new();
    let mut j: usize = 0;
    proof {
        lemma_export_items_count(items@, 0, c0);
    }
    while j < items.len()
        invariant
            j <= items@.len(),
            *img as int == c0 + images_count(items@, 0) - images_count(items@, j as int),
            *img as int + images_count(items@, j as int) <= usize::MAX,
            items_image_list(items@, 0, c0) =~= image_refs_view(r@) + items_image_list(
                items@,
                j as int,
                *img as int,
            ),
        decreases items@.len() - j,
    {
        proof {
            lemma_export_items_count(items@, j as int, *img as int);
            lemma_export_item_count(items@[j as int], *img as int);
            lemma_export_items_count(items@, j as int + 1, 0);
        }
        let ghost r_before = r@;
        let mut more = collect_images(&items[j], img);
        let ghost more_view = more@;
        r.append(&mut more);
        proof {
            assert(image_refs_view(r_before + more_view) =~= image_refs_view(r_before)
                + image_refs_view(more_view));
        }
        j += 1;
    }
    r
}

/// Lists the images of one slide in position order, for the texture pass.
pub fn image_items(slide: &Slide) -> (r: Vec<ImageRef>)
    requires
        images_count(slide.items@, 0) <= usize::MAX,
    ensures
        image_refs_view(r@) =~= items_image_list(slide.items@, 0, 0),
{
    let mut img: usize = 0;
    collect_images_of(&slide.items, &mut img)
}

/// The key bindings text of the help overlay, with the current state of the
/// two toggles boxed in.
pub open spec fn help_text(decoration: bool, white_mode: bool) -> Seq<char> {
    "next slide      right, down, L, J, N\nprevious slide  left, up, H, K, P\nfirst slide     G\nexit            Q\nscale up        M\nscale down      R\nscreenshot      S\n["@
        + (if decoration {
        "x"@
    } else {
        " "@
    }) + "]  decoration      D\n["@ + (if white_mode {
        "x"@
    } else {
        " "@
    }) + "]  white mode      C\n[x]  help            Escape"@
}

/// Builds the synthesized help overlay deck: one slide listing the key
/// bindings, with the decoration and white-mode toggles shown.
pub fn help_deck(decoration: bool, white_mode: bool) -> (b: Bema)
    ensures
        b.slides@.len() == 1,
        b.slides@[0].title@ == "bema help"@,
        b.slides@[0].items@.len() == 3,
        is_text_item(b.slides@[0].items@[0], "keys:"@),
        is_text_item(b.slides@[0].items@[1], ""@),
        is_text_item(b.slides@[0].items@[2], help_text(decoration, white_mode)),
{
    let mut body =
        "next slide      right, down, L, J, N\nprevious slide  left, up, H, K, P\nfirst slide     G\nexit            Q\nscale up        M\nscale down      R\nscreenshot      S\n[".to_owned();
    body.append(if decoration {
        "x"
    } else {
        " "
    });
    body.append("]  decoration      D\n[");
    body.append(if white_mode {
        "x"
    } else {
        " "
    });
    body.append("]  white mode      C\n[x]  help            Escape");
    let mut items: Vec<SlideItem> = Vec::new();
    items.push(SlideItem::Text { text: "keys:".to_owned() });
    items.push(SlideItem::Text { text: "".to_owned() });
    items.push(SlideItem::Text { text: body });
    let slide = Slide { title: "bema help".to_owned(), items };
    let mut slides: Vec<Slide> = Vec::new();
    slides.push(slide);
    Bema { slides }
}

/// The largest height depends only on which heights occur, not on their
/// order: two height lists holding the same multiset have the same maximum.
pub proof fn lemma_seq_max_order_independent(a: Seq<int>, b: Seq<int>)
    requires
        a.len() >= 1,
        a.to_multiset() == b.to_multiset(),
    ensures
        seq_max(a) == seq_max(b),
{
    a.to_multiset_ensures();
    b.to_multiset_ensures();
    assert(b.len() == a.len());
    lemma_seq_max_props(a);
    lemma_seq_max_props(b);
    assert(a.to_multiset().count(seq_max(a)) > 0);
    assert(b.contains(seq_max(a)));
    assert(b.to_multiset().count(seq_max(b)) > 0);
    assert(a.contains(seq_max(b)));
    let ia = choose|i: int| 0 <= i < b.len() && b[i] == seq_max(a);
    let ib = choose|i: int| 0 <= i < a.len() && a[i] == seq_max(b);
    assert(seq_max(a) <= seq_max(b));
    assert(seq_max(b) <= seq_max(a));
}

} // verus!
