use vstd::prelude::*;

verus! {

/// One node of a slide's content tree: three leaf kinds (text, source code,
/// raw image bytes) and three containers (vertical stack, horizontal split,
/// bordered stack). Children order is render order.
pub enum SlideItem {
    Code { extension: String, source: String },
    Image { image: Vec<u8>, extension: String, width: Option<usize> },
    Text { text: String },
    Rows { items: Vec<SlideItem> },
    Cols { items: Vec<SlideItem> },
    Framed { items: Vec<SlideItem> },
}

/// One slide: a centered title and the root sequence of content items.
pub struct Slide {
    pub title: String,
    pub items: Vec<SlideItem>,
}

/// A deck: the ordered slides a backend renders.
pub struct Bema {
    pub slides: Vec<Slide>,
}

/// Deep equality of two content items: same shape, and leaf payloads with
/// the same characters and bytes.
pub open spec fn item_like(a: SlideItem, b: SlideItem) -> bool
    decreases a,
{
    match (a, b) {
        (SlideItem::Code { extension: e1, source: s1 }, SlideItem::Code { extension: e2, source: s2 }) => {
            e1@ == e2@ && s1@ == s2@
        },
        (
            SlideItem::Image { image: i1, extension: e1, width: w1 },
            SlideItem::Image { image: i2, extension: e2, width: w2 },
        ) => i1@ == i2@ && e1@ == e2@ && w1 == w2,
        (SlideItem::Text { text: t1 }, SlideItem::Text { text: t2 }) => t1@ == t2@,
        (SlideItem::Rows { items: c1 }, SlideItem::Rows { items: c2 }) => items_like(c1@, c2@),
        (SlideItem::Cols { items: c1 }, SlideItem::Cols { items: c2 }) => items_like(c1@, c2@),
        (SlideItem::Framed { items: c1 }, SlideItem::Framed { items: c2 }) => items_like(c1@, c2@),
        _ => false,
    }
}

/// Pointwise deep equality of the child sequences from position `i` on.
pub open spec fn items_like_from(a: Seq<SlideItem>, b: Seq<SlideItem>, i: int) -> bool
    decreases a, a.len() - i,
{
    if i < 0 {
        false
    } else if i >= a.len() {
        true
    } else {
        i < b.len() && item_like(a[i], b[i]) && items_like_from(a, b, i + 1)
    }
}

/// Pointwise deep equality of two child sequences.
pub open spec fn items_like(a: Seq<SlideItem>, b: Seq<SlideItem>) -> bool
    decreases a, a.len() + 1,
{
    a.len() == b.len() && items_like_from(a, b, 0)
}

/// `items_like` holds exactly when the sequences have one length and every
/// pair of children at one position is deeply equal.
pub proof fn lemma_items_like_pointwise(a: Seq<SlideItem>, b: Seq<SlideItem>)
    ensures
        items_like(a, b) <==> (a.len() == b.len() && forall|j: int|
            0 <= j < a.len() ==> #[trigger] item_like(a[j], b[j])),
{
    if a.len() == b.len() {
        lemma_items_like_from_pointwise(a, b, 0);
    }
}

proof fn lemma_items_like_from_pointwise(a: Seq<SlideItem>, b: Seq<SlideItem>, i: int)
    requires
        0 <= i <= a.len(),
        a.len() == b.len(),
    ensures
        items_like_from(a, b, i) <==> (forall|j: int|
            i <= j < a.len() ==> #[trigger] item_like(a[j], b[j])),
    decreases a.len() - i,
{
    if i < a.len() {
        lemma_items_like_from_pointwise(a, b, i + 1);
        if items_like_from(a, b, i) {
            assert forall|j: int| i <= j < a.len() implies #[trigger] item_like(a[j], b[j]) by {
                if j == i {
                    assert(item_like(a[i], b[i]));
                }
            }
        }
        if forall|j: int| i <= j < a.len() ==> #[trigger] item_like(a[j], b[j]) {
            assert(item_like(a[i], b[i]));
            assert(items_like_from(a, b, i + 1));
            assert(items_like_from(a, b, i));
        }
    }
}

/// Deep equality of two slides.
pub open spec fn slide_like(a: Slide, b: Slide) -> bool {
    a.title@ == b.title@ && items_like(a.items@, b.items@)
}

impl Clone for SlideItem {
    /// A clone is deeply equal to the original.
    fn clone(&self) -> (r: Self)
        ensures
            item_like(*self, r),
        decreases *self,
    {
        match self {
            SlideItem::Code { extension, source } => SlideItem::Code {
                extension: extension.clone(),
                source: source.clone(),
            },
            SlideItem::Image { image, extension, width } => SlideItem::Image {
                image: clone_bytes(image),
                extension: extension.clone(),
                width: *width,
            },
            SlideItem::Text { text } => SlideItem::Text { text: text.clone() },
            SlideItem::Rows { items } => SlideItem::Rows { items: clone_items(items) },
            SlideItem::Cols { items } => SlideItem::Cols { items: clone_items(items) },
            SlideItem::Framed { items } => SlideItem::Framed { items: clone_items(items) },
        }
    }
}

/// Copies a byte vector.
pub(crate) fn clone_bytes(bytes: &Vec<u8>) -> (r: Vec<u8>)
    ensures
        r@ == bytes@,
{
    let mut r: Vec<u8> = Vec::new();
    let mut i: usize = 0;
    while i < bytes.len()
        invariant
            i <= bytes@.len(),
            r@ =~= bytes@.take(i as int),
        decreases bytes@.len() - i,
    {
        r.push(bytes[i]);
        i += 1;
    }
    proof {
        assert(bytes@.take(bytes@.len() as int) =~= bytes@);
    }
    r
}

/// Clones every child of a container.
fn clone_items(items: &Vec<SlideItem>) -> (r: Vec<SlideItem>)
    ensures
        items_like(items@, r@),
    decreases items@,
{
    let mut r: Vec<SlideItem> = Vec::new();
    let mut i: usize = 0;
    while i < items.len()
        invariant
            i <= items@.len(),
            r@.len() == i,
            forall|j: int| 0 <= j < i ==> #[trigger] item_like(items@[j], r@[j]),
        decreases items@.len() - i,
    {
        r.push(items[i].clone());
        i += 1;
    }
    proof {
        lemma_items_like_pointwise(items@, r@);
    }
    r
}

impl Clone for Slide {
    /// A clone is deeply equal to the original.
    fn clone(&self) -> (r: Self)
        ensures
            slide_like(*self, r),
    {
        Slide { title: self.title.clone(), items: clone_items(&self.items) }
    }
}

impl Clone for Bema {
    /// A clone holds deeply equal slides, in the same order.
    fn clone(&self) -> (r: Self)
        ensures
            r.slides@.len() == self.slides@.len(),
            forall|i: int|
                0 <= i < self.slides@.len() ==> #[trigger] slide_like(self.slides@[i], r.slides@[i]),
    {
        let mut slides: Vec<Slide> = Vec::new();
        let mut i: usize = 0;
        while i < self.slides.len()
            invariant
                i <= self.slides@.len(),
                slides@.len() == i,
                forall|j: int|
                    0 <= j < i ==> #[trigger] slide_like(self.slides@[j], slides@[j]),
            decreases self.slides@.len() - i,
        {
            slides.push(self.slides[i].clone());
            i += 1;
        }
        Bema { slides }
    }
}

} // verus!
