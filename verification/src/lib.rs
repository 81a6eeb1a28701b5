use vstd::prelude::*;

pub mod bema;
pub mod gui_runner;
pub mod hovercraft_runner;
pub mod runner;
pub mod terminal_runner;

pub use crate::bema::{Bema, Slide, SlideItem};
pub use crate::hovercraft_runner::HovercraftRunner;
pub use crate::terminal_runner::TerminalRunner;

verus! {

/// Entry point of the builder API: hands an empty deck to the caller's
/// closure and returns whatever deck the closure built.
pub fn slides(f: impl Fn(Bema) -> Bema) -> (r: Bema)
    requires
        forall|b: Bema| b.slides@ =~= Seq::<Slide>::empty() ==> call_requires(f, (b,)),
    ensures
        exists|b: Bema| b.slides@ =~= Seq::<Slide>::empty() && #[trigger] call_ensures(f, (b,), r),
{
    let b = Bema { slides: Vec::new() };
    proof {
        assert(b.slides@ =~= Seq::<Slide>::empty());
    }
    f(b)
}

/// Holds if `it` is a text leaf whose characters are `s`.
pub open spec fn is_text_item(it: SlideItem, s: Seq<char>) -> bool {
    &&& it matches SlideItem::Text { text } && text@ == s
}

/// Holds if `it` is a code leaf carrying language tag `ext` and source `src`.
pub open spec fn is_code_item(it: SlideItem, ext: Seq<char>, src: Seq<char>) -> bool {
    &&& it matches SlideItem::Code { extension, source } && extension@ == ext && source@ == src
}

/// Holds if `it` is an image leaf with bytes `bytes`, extension `ext` and
/// target width `w`.
pub open spec fn is_image_item(it: SlideItem, bytes: Seq<u8>, ext: Seq<char>, w: Option<usize>) -> bool {
    &&& it matches SlideItem::Image { image, extension, width } && image@ == bytes
        && extension@ == ext && width == w
}

impl Bema {
    /// Appends one slide: opens a fresh slide titled `title`, lets `f`
    /// populate it, and pushes the finished slide onto the deck.
    pub fn slide(self, title: &str, f: impl Fn(Slide) -> Slide) -> (r: Bema)
        requires
            forall|s: Slide| s.title@ == title@ && s.items@ =~= Seq::<SlideItem>::empty()
                ==> call_requires(f, (s,)),
        ensures
            r.slides@.len() == self.slides@.len() + 1,
            r.slides@.take(self.slides@.len() as int) =~= self.slides@,
            exists|s0: Slide|
                s0.title@ == title@ && s0.items@ =~= Seq::<SlideItem>::empty()
                    && #[trigger] call_ensures(f, (s0,), r.slides@.last()),
    {
        let s = Slide { title: title.to_owned(), items: Vec::new() };
        proof {
            assert(s.items@ =~= Seq::<SlideItem>::empty());
        }
        let ghost s0 = s;
        let built = f(s);
        let ghost built0 = built;
        let mut slides = self.slides;
        slides.push(built);
        proof {
            assert(slides@.take(slides@.len() - 1) =~= slides@.drop_last());
            assert(slides@.last() == built0);
            assert(call_ensures(f, (s0,), slides@.last()));
        }
        Bema { slides }
    }
}

/// An open container of items being filled by the builder closures.
pub struct SlideItems {
    items: Vec<SlideItem>,
}

impl SlideItems {
    /// The items appended so far, in order.
    pub closed spec fn view_items(&self) -> Seq<SlideItem> {
        self.items@
    }
}

/// The fluent construction surface shared by slides and sub-containers:
/// append-only, order-preserving, never failing.
pub trait Helper: Sized {
    /// The items appended so far, in order.
    spec fn items_view(&self) -> Seq<SlideItem>;

    /// Appends one finished item.
    fn push(self, item: SlideItem) -> (r: Self)
        ensures
            r.items_view() =~= self.items_view().push(item),
    ;

    /// Appends a text leaf holding `s`.
    fn text(self, s: &str) -> (r: Self)
        ensures
            r.items_view().len() == self.items_view().len() + 1,
            r.items_view().drop_last() =~= self.items_view(),
            is_text_item(r.items_view().last(), s@),
    {
        let it = SlideItem::Text { text: s.to_owned() };
        let r = self.push(it);
        proof {
            assert(r.items_view().drop_last() =~= self.items_view());
        }
        r
    }

    /// Alias of `text`.
    fn t(self, s: &str) -> (r: Self)
        ensures
            r.items_view().len() == self.items_view().len() + 1,
            r.items_view().drop_last() =~= self.items_view(),
            is_text_item(r.items_view().last(), s@),
    {
        self.text(s)
    }

    /// Appends a code leaf: `extension` selects the highlighting grammar for
    /// `source` at render time.
    fn code(self, extension: &str, source: &str) -> (r: Self)
        ensures
            r.items_view().len() == self.items_view().len() + 1,
            r.items_view().drop_last() =~= self.items_view(),
            is_code_item(r.items_view().last(), extension@, source@),
    {
        let it = SlideItem::Code { extension: extension.to_owned(), source: source.to_owned() };
        let r = self.push(it);
        proof {
            assert(r.items_view().drop_last() =~= self.items_view());
        }
        r
    }

    /// Appends an image leaf: raw encoded bytes, the extension naming their
    /// codec, and an optional target width for fit-resizing.
    fn image(self, image: Vec<u8>, extension: &str, width: Option<usize>) -> (r: Self)
        ensures
            r.items_view().len() == self.items_view().len() + 1,
            r.items_view().drop_last() =~= self.items_view(),
            is_image_item(r.items_view().last(), image@, extension@, width),
    {
        let ghost bytes = image@;
        let it = SlideItem::Image { image, extension: extension.to_owned(), width };
        let r = self.push(it);
        proof {
            assert(r.items_view().drop_last() =~= self.items_view());
        }
        r
    }

    /// Appends a horizontal-split container populated by `f`.
    fn cols(self, f: impl Fn(SlideItems) -> SlideItems) -> (r: Self)
        requires
            forall|si: SlideItems| si.view_items() =~= Seq::<SlideItem>::empty()
                ==> call_requires(f, (si,)),
        ensures
            r.items_view().len() == self.items_view().len() + 1,
            r.items_view().drop_last() =~= self.items_view(),
            exists|si0: SlideItems, si1: SlideItems|
                {
                    &&& si0.view_items() =~= Seq::<SlideItem>::empty()
                    &&& #[trigger] call_ensures(f, (si0,), si1)
                    &&& r.items_view().last() matches SlideItem::Cols { items }
                        && items@ == si1.view_items()
                },
    {
        let si = SlideItems { items: Vec::new() };
        proof {
            assert(si.view_items() =~= Seq::<SlideItem>::empty());
        }
        let built = f(si);
        let r = self.push(SlideItem::Cols { items: built.items });
        proof {
            assert(r.items_view().drop_last() =~= self.items_view());
        }
        r
    }

    /// Appends a vertical-stack container populated by `f`.
    fn rows(self, f: impl Fn(SlideItems) -> SlideItems) -> (r: Self)
        requires
            forall|si: SlideItems| si.view_items() =~= Seq::<SlideItem>::empty()
                ==> call_requires(f, (si,)),
        ensures
            r.items_view().len() == self.items_view().len() + 1,
            r.items_view().drop_last() =~= self.items_view(),
            exists|si0: SlideItems, si1: SlideItems|
                {
                    &&& si0.view_items() =~= Seq::<SlideItem>::empty()
                    &&& #[trigger] call_ensures(f, (si0,), si1)
                    &&& r.items_view().last() matches SlideItem::Rows { items }
                        && items@ == si1.view_items()
                },
    {
        let si = SlideItems { items: Vec::new() };
        proof {
            assert(si.view_items() =~= Seq::<SlideItem>::empty());
        }
        let built = f(si);
        let r = self.push(SlideItem::Rows { items: built.items });
        proof {
            assert(r.items_view().drop_last() =~= self.items_view());
        }
        r
    }

    /// Appends a bordered vertical-stack container populated by `f`.
    fn framed(self, f: impl Fn(SlideItems) -> SlideItems) -> (r: Self)
        requires
            forall|si: SlideItems| si.view_items() =~= Seq::<SlideItem>::empty()
                ==> call_requires(f, (si,)),
        ensures
            r.items_view().len() == self.items_view().len() + 1,
            r.items_view().drop_last() =~= self.items_view(),
            exists|si0: SlideItems, si1: SlideItems|
                {
                    &&& si0.view_items() =~= Seq::<SlideItem>::empty()
                    &&& #[trigger] call_ensures(f, (si0,), si1)
                    &&& r.items_view().last() matches SlideItem::Framed { items }
                        && items@ == si1.view_items()
                },
    {
        let si = SlideItems { items: Vec::new() };
        proof {
            assert(si.view_items() =~= Seq::<SlideItem>::empty());
        }
        let built = f(si);
        let r = self.push(SlideItem::Framed { items: built.items });
        proof {
            assert(r.items_view().drop_last() =~= self.items_view());
        }
        r
    }
}

impl Helper for SlideItems {
    closed spec fn items_view(&self) -> Seq<SlideItem> {
        self.items@
    }


    fn push(self, item: SlideItem) -> (r: Self) {
        let mut items = self.items;
        items.push(item);
        SlideItems { items }
    }
}

impl Helper for Slide {
    open spec fn items_view(&self) -> Seq<SlideItem> {
        self.items@
    }

    fn push(self, item: SlideItem) -> (r: Self) {
        let mut items = self.items;
        items.push(item);
        Slide { title: self.title, items }
    }
}

} // verus!
