use vstd::prelude::*;

verus! {

/// Centering offset of a single line of length `len` within width `w`:
/// half the slack, or zero once the line does not fit.
pub open spec fn line_offset(w: int, len: int) -> int {
    if len < w {
        (w - len) / 2
    } else {
        0
    }
}

/// Centering offset of a block of lines with lengths `lens` within width `w`:
/// the minimum of the per-line offsets, so the longest line decides and no
/// line is pushed past the left edge; `w` itself when the block is empty.
pub open spec fn center_offset(w: int, lens: Seq<int>) -> int
    decreases lens.len(),
{
    if lens.len() == 0 {
        w
    } else {
        let rest = center_offset(w, lens.drop_last());
        let o = line_offset(w, lens.last());
        if o < rest {
            o
        } else {
            rest
        }
    }
}

/// The character counts of `texts`, in order.
pub open spec fn text_lens(texts: Seq<&String>) -> Seq<int> {
    texts.map_values(|t: &String| t@.len() as int)
}

/// Computes the centering offset of the block `texts` within `size` columns.
pub fn get_justify(size: usize, texts: Vec<&String>) -> (r: usize)
    ensures
        r == center_offset(size as int, text_lens(texts@)),
        r <= size,
{
    let ghost lens = text_lens(texts@);
    let mut whitespaces: usize = size;
    let mut idx: usize = 0;
    proof {
        assert(lens.take(0) =~= Seq::<int>::empty());
    }
    while idx < texts.len()
        invariant
            idx <= texts.len(),
            lens == text_lens(texts@),
            lens.len() == texts@.len(),
            whitespaces == center_offset(size as int, lens.take(idx as int)),
            whitespaces <= size,
        decreases texts.len() - idx,
    {
        let t: &String = texts[idx];
        let tl = t.as_str().unicode_len();
        let new_whitespaces: usize = if tl < size {
            (size - tl) / 2
        } else {
            0
        };
        proof {
            assert(lens[idx as int] == t@.len() as int);
            assert(new_whitespaces == line_offset(size as int, lens[idx as int]));
            assert(lens.take(idx + 1).drop_last() =~= lens.take(idx as int));
            assert(lens.take(idx + 1).last() == lens[idx as int]);
        }
        if new_whitespaces < whitespaces {
            whitespaces = new_whitespaces;
        }
        idx += 1;
    }
    proof {
        assert(lens.take(texts@.len() as int) =~= lens);
    }
    whitespaces
}

/// The offset of a block never leaves `[0, w]`, and is zero as soon as one
/// line's length reaches the available width.
pub proof fn lemma_center_offset_range(w: int, lens: Seq<int>)
    requires
        w >= 0,
        forall|i: int| 0 <= i < lens.len() ==> lens[i] >= 0,
    ensures
        0 <= center_offset(w, lens) <= w,
        (exists|i: int| 0 <= i < lens.len() && lens[i] >= w) ==> center_offset(w, lens) == 0,
    decreases lens.len(),
{
    if lens.len() > 0 {
        lemma_center_offset_range(w, lens.drop_last());
        assert(0 <= line_offset(w, lens.last()) <= w);
        if exists|i: int| 0 <= i < lens.len() && lens[i] >= w {
            let i = choose|i: int| 0 <= i < lens.len() && lens[i] >= w;
            if i < lens.len() - 1 {
                assert(lens.drop_last()[i] >= w);
            } else {
                assert(line_offset(w, lens.last()) == 0);
            }
        }
    }
}

/// Equal-share subdivision of `width` among `n` container children; child
/// `k` starts at origin `k * split_width(width, n)`, trailing slack stays
/// unassigned.
pub fn split_width(width: usize, n: usize) -> (r: usize)
    requires
        n >= 1,
    ensures
        r == width as int / n as int,
{
    width / n
}

/// The lines of `s`: maximal runs of characters between newline characters.
/// Splitting the empty text gives one empty line; every newline separates
/// two lines, so `"a\n"` gives `["a", ""]`.
pub open spec fn spec_split_lines(s: Seq<char>) -> Seq<Seq<char>>
    decreases s.len(),
{
    if s.len() == 0 {
        seq![Seq::<char>::empty()]
    } else if s[0] == '\n' {
        seq![Seq::<char>::empty()] + spec_split_lines(s.drop_first())
    } else {
        let rest = spec_split_lines(s.drop_first());
        seq![seq![s[0]] + rest[0]] + rest.drop_first()
    }
}

/// Splitting yields at least one line.
pub proof fn lemma_split_lines_nonempty(s: Seq<char>)
    ensures
        spec_split_lines(s).len() >= 1,
    decreases s.len(),
{
    if s.len() > 0 {
        lemma_split_lines_nonempty(s.drop_first());
    }
}

/// Peeling the first line: if the first newline of `t` stands at `k`, the
/// lines of `t` are `t[..k]` followed by the lines of `t[k+1..]`; if `t` has
/// no newline, `t` is its own single line.
pub proof fn lemma_split_lines_peel(t: Seq<char>, k: int)
    requires
        0 <= k <= t.len(),
        forall|j: int| 0 <= j < k ==> t[j] != '\n',
        k < t.len() ==> t[k] == '\n',
    ensures
        k == t.len() ==> spec_split_lines(t) =~= seq![t],
        k < t.len() ==> spec_split_lines(t) =~= seq![t.take(k)] + spec_split_lines(
            t.skip(k + 1),
        ),
    decreases t.len(),
{
    if t.len() == 0 {
        assert(t =~= Seq::<char>::empty());
        assert(spec_split_lines(t) =~= seq![t]);
    } else if k == 0 {
        if k < t.len() {
            assert(t.drop_first() =~= t.skip(1));
            assert(t.take(0) =~= Seq::<char>::empty());
        }
    } else {
        let t2 = t.drop_first();
        lemma_split_lines_peel(t2, k - 1);
        lemma_split_lines_nonempty(t2.skip(k));
        if k == t.len() {
            assert(spec_split_lines(t2) =~= seq![t2]);
            assert(seq![t[0]] + t2 =~= t);
        } else {
            assert(t2.take(k - 1) =~= t.take(k).drop_first());
            assert(t2.skip(k) =~= t.skip(k + 1));
            assert(seq![t[0]] + t.take(k).drop_first() =~= t.take(k));
        }
    }
}

/// The characters of each string of `v`, in order.
pub open spec fn strings_view(v: Seq<String>) -> Seq<Seq<char>> {
    v.map_values(|t: String| t@)
}

/// Splits `s` into its lines, as `spec_split_lines` describes.
pub fn split_string_lines(s: &str) -> (r: Vec<String>)
    ensures
        strings_view(r@) =~= spec_split_lines(s@),
{
    let n = s.unicode_len();
    let mut r: Vec<String> = Vec::new();
    let mut start: usize = 0;
    let mut i: usize = 0;
    proof {
        assert(s@.skip(0) =~= s@);
        assert(strings_view(r@) =~= Seq::<Seq<char>>::empty());
    }
    while i < n
        invariant
            0 <= start <= i <= n,
            n == s@.len(),
            forall|j: int| start <= j < i ==> s@[j] != '\n',
            spec_split_lines(s@) =~= strings_view(r@) + spec_split_lines(s@.skip(start as int)),
        decreases n - i,
    {
        let c = s.get_char(i);
        if c == '\n' {
            let line = s.substring_char(start, i);
            let ghost old_r = r@;
            r.push(line.to_owned());
            proof {
                let t = s@.skip(start as int);
                lemma_split_lines_peel(t, i - start);
                assert(t.take(i - start) =~= s@.subrange(start as int, i as int));
                assert(t.skip(i - start + 1) =~= s@.skip(i + 1));
                assert(strings_view(r@) =~= strings_view(old_r) + seq![line@]);
            }
            start = i + 1;
        }
        i += 1;
    }
    let line = s.substring_char(start, n);
    let ghost old_r = r@;
    r.push(line.to_owned());
    proof {
        let t = s@.skip(start as int);
        lemma_split_lines_peel(t, n - start);
        assert(t.take(n - start) =~= t);
        assert(t =~= s@.subrange(start as int, n as int));
        assert(strings_view(r@) =~= strings_view(old_r) + seq![line@]);
    }
    r
}

/// The decimal digit character for `d`.
pub open spec fn dec_digit(d: int) -> char {
    if d == 0 {
        '0'
    } else if d == 1 {
        '1'
    } else if d == 2 {
        '2'
    } else if d == 3 {
        '3'
    } else if d == 4 {
        '4'
    } else if d == 5 {
        '5'
    } else if d == 6 {
        '6'
    } else if d == 7 {
        '7'
    } else if d == 8 {
        '8'
    } else {
        '9'
    }
}

/// The decimal notation of `n >= 0`, without leading zeros (except for zero
/// itself).
pub open spec fn dec_str(n: int) -> Seq<char>
    decreases n,
{
    if n < 10 {
        seq![dec_digit(n)]
    } else {
        dec_str(n / 10).push(dec_digit(n % 10))
    }
}

/// The one-character string of the decimal digit `d`.
fn digit_str(d: usize) -> (r: &'static str)
    requires
        d < 10,
    ensures
        r@ =~= seq![dec_digit(d as int)],
{
    let r: &'static str = match d {
        0 => "0",
        1 => "1",
        2 => "2",
        3 => "3",
        4 => "4",
        5 => "5",
        6 => "6",
        7 => "7",
        8 => "8",
        _ => "9",
    };
    proof {
        reveal_strlit("0");
        reveal_strlit("1");
        reveal_strlit("2");
        reveal_strlit("3");
        reveal_strlit("4");
        reveal_strlit("5");
        reveal_strlit("6");
        reveal_strlit("7");
        reveal_strlit("8");
        reveal_strlit("9");
    }
    r
}

/// Writes `n` in decimal notation.
pub fn usize_to_string(n: usize) -> (r: String)
    ensures
        r@ =~= dec_str(n as int),
    decreases n,
{
    if n < 10 {
        digit_str(n).to_owned()
    } else {
        let mut s = usize_to_string(n / 10);
        s.append(digit_str(n % 10));
        proof {
            assert(dec_str(n as int) =~= dec_str(n as int / 10).push(dec_digit(n as int % 10)));
            assert(dec_str(n as int / 10).push(dec_digit(n as int % 10)) =~= dec_str(
                n as int / 10,
            ) + seq![dec_digit(n as int % 10)]);
        }
        s
    }
}

/// `n` copies of `c`.
pub open spec fn repeat_char(c: char, n: int) -> Seq<char>
    decreases n,
{
    if n <= 0 {
        Seq::<char>::empty()
    } else {
        repeat_char(c, n - 1).push(c)
    }
}

/// A line of `n` equals signs, as underlines a title.
pub fn equals_line(n: usize) -> (r: String)
    ensures
        r@ =~= repeat_char('=', n as int),
{
    let mut s = String::new();
    let mut i: usize = 0;
    while i < n
        invariant
            i <= n,
            s@ =~= repeat_char('=', i as int),
        decreases n - i,
    {
        s.append("=");
        proof {
            reveal_strlit("=");
        }
        i += 1;
    }
    s
}

/// One colored run of highlighted source: the RGBA foreground color chosen
/// by the highlighter, and the characters it paints.
pub struct CodeRun {
    pub r: u8,
    pub g: u8,
    pub b: u8,
    pub a: u8,
    pub text: String,
}

/// The mathematical shape of one colored run.
pub open spec fn code_run_view(run: CodeRun) -> ((u8, u8, u8, u8), Seq<char>) {
    ((run.r, run.g, run.b, run.a), run.text@)
}

/// The mathematical shape of one highlighted line.
pub open spec fn runs_view(runs: Seq<CodeRun>) -> Seq<((u8, u8, u8, u8), Seq<char>)> {
    runs.map_values(|run: CodeRun| code_run_view(run))
}

/// The mathematical shape of a highlighted source: one run sequence per line.
pub open spec fn runs_lines_view(lines: Seq<Vec<CodeRun>>) -> Seq<
    Seq<((u8, u8, u8, u8), Seq<char>)>,
> {
    lines.map_values(|l: Vec<CodeRun>| runs_view(l@))
}

/// What highlighting a source against the grammar selected by a language tag
/// yields: `None` when no grammar matches the tag (or the grammar rejects
/// the source), otherwise the colored runs of each line.  The outcome
/// depends on the tag and source characters alone.
pub uninterp spec fn highlight_outcome(ext: Seq<char>, source: Seq<char>) -> Option<
    Seq<Seq<((u8, u8, u8, u8), Seq<char>)>>,
>;

/// Relies on syntect: `SyntaxSet::load_defaults_newlines` and
/// `ThemeSet::load_defaults` load grammar and theme data compiled into the
/// crate, `find_syntax_by_extension` selects a grammar by the tag alone, and
/// `HighlightLines::highlight_line` colors each line from the grammar, the
/// fixed theme and the characters alone, so the whole outcome is a function
/// of the two arguments.
#[verifier::external_body]
pub(crate) fn highlight_source(extension: &str, source: &str) -> (r: Option<Vec<Vec<CodeRun>>>)
    ensures
        match r {
            Some(lines) => highlight_outcome(extension@, source@) matches Some(v)
                && runs_lines_view(lines@) == v,
            None => highlight_outcome(extension@, source@) is None,
        },
{
    let ps = syntect::parsing::SyntaxSet::load_defaults_newlines();
    let ts = syntect::highlighting::ThemeSet::load_defaults();
    let syntax = ps.find_syntax_by_extension(extension)?;
    let mut h = syntect::easy::HighlightLines::new(syntax, &ts.themes["base16-ocean.dark"]);
    let mut out: Vec<Vec<CodeRun>> = Vec::new();
    for line in syntect::util::LinesWithEndings::from(source) {
        let ranges = h.highlight_line(line, &ps).ok()?;
        out.push(ranges.iter().map(|p| {
            let f = p.0.foreground;
            CodeRun { r: f.r, g: f.g, b: f.b, a: f.a, text: p.1.to_string() }
        }).collect());
    }
    Some(out)
}

/// What decoding image bytes by the codec their extension names, resizing to
/// a requested width (twice the width as height bound, aspect preserved),
/// and re-encoding as PNG yields: `None` when the extension names no codec
/// or the bytes do not decode under it.  The outcome depends on the three
/// arguments alone.
pub uninterp spec fn fitted_png(bytes: Seq<u8>, width: Option<usize>, ext: Seq<char>) -> Option<
    Seq<u8>,
>;

/// Relies on the image crate: `ImageFormat::from_extension` maps the
/// dot-stripped extension to a codec, `ImageReader::with_format` + `decode`
/// decode the bytes under it, `DynamicImage::resize` scales within the
/// requested bounds with the Lanczos filter preserving aspect ratio, and
/// `write_to` encodes the pixels as PNG; each computes from its arguments
/// alone.
#[verifier::external_body]
pub fn fit_image_bytes(bytes: &[u8], width: &Option<usize>, extension: &String) -> (r: Option<
    Vec<u8>,
>)
    ensures
        match r {
            Some(v) => fitted_png(bytes@, *width, extension@) matches Some(s) && v@ == s,
            None => fitted_png(bytes@, *width, extension@) is None,
        },
{
    let format = image::ImageFormat::from_extension(extension.replace(".", ""))?;
    let mut img = image::ImageReader::with_format(std::io::Cursor::new(bytes), format)
        .decode()
        .ok()?;
    if let Some(w) = width {
        img = img.resize(*w as u32, w.saturating_mul(2) as u32, image::imageops::FilterType::Lanczos3);
    }
    let mut out: Vec<u8> = Vec::new();
    img.write_to(&mut std::io::Cursor::new(&mut out), image::ImageFormat::Png).ok()?;
    Some(out)
}

/// Prepares an image leaf's bytes for the graphics texture loader: JPEG
/// bytes are decoded, fit to the requested width and re-encoded as PNG
/// (failing when they do not decode); any other format is handed over
/// unchanged.
pub fn prepare_texture_bytes(image: &Vec<u8>, extension: &String, width: &Option<usize>) -> (r:
    Option<Vec<u8>>)
    ensures
        extension@ == ".jpg"@ ==> match r {
            Some(v) => fitted_png(image@, *width, extension@) matches Some(s) && v@ == s,
            None => fitted_png(image@, *width, extension@) is None,
        },
        extension@ != ".jpg"@ ==> (r matches Some(v) && v@ == image@),
{
    let jpg = ".jpg".to_owned();
    if extension.eq(&jpg) {
        fit_image_bytes(image.as_slice(), width, extension)
    } else {
        Some(crate::bema::clone_bytes(image))
    }
}

/// The character counts of a block of lines.
pub open spec fn seq_lens(lines: Seq<Seq<char>>) -> Seq<int> {
    lines.map_values(|l: Seq<char>| l.len() as int)
}

/// Computes the centering offset of the already-split block `lines` within
/// `size` columns.
pub fn justify_of_lines(size: usize, lines: &Vec<String>) -> (r: usize)
    ensures
        r == center_offset(size as int, seq_lens(strings_view(lines@))),
        r <= size,
{
    let mut refs: Vec<&String> = Vec::new();
    let mut j: usize = 0;
    while j < lines.len()
        invariant
            j <= lines@.len(),
            refs@.len() == j,
            forall|k: int| 0 <= k < j ==> refs@[k] == &lines@[k],
        decreases lines@.len() - j,
    {
        refs.push(&lines[j]);
        j += 1;
    }
    proof {
        assert(text_lens(refs@) =~= seq_lens(strings_view(lines@)));
    }
    get_justify(size, refs)
}

/// Equal shares cover the width up to a remainder below `n`:
/// `(w / n) * n <= w < (w / n) * n + n`.
pub proof fn lemma_split_width_equal_share(w: int, n: int)
    requires
        w >= 0,
        n >= 1,
    ensures
        (w / n) * n <= w < (w / n) * n + n,
{
    vstd::arithmetic::div_mod::lemma_fundamental_div_mod(w, n);
    vstd::arithmetic::div_mod::lemma_mod_bound(w, n);
    vstd::arithmetic::mul::lemma_mul_is_commutative(n, w / n);
}

} // verus!
