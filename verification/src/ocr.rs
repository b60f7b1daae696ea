//! Putting together the text that OCR read from the pages of a scanned PDF.

use vstd::prelude::*;
use vstd::string::StringExecFns;
use crate::models::opt_string_view;
use crate::text::{str_chars, trim, trim_chars};

verus! {

/// Image width, in pixels, at which a page is rendered for OCR.
pub const OCR_RENDER_WIDTH: u32 = 2000;

/// The views of a sequence of optional strings.
pub open spec fn pages_view(pages: Seq<Option<String>>) -> Seq<Option<Seq<char>>> {
    Seq::new(pages.len(), |i: int| opt_string_view(pages[i]))
}

/// The text of all pages: that of each page that was read, followed by a
/// blank line; pages that could not be read leave nothing.
pub open spec fn joined_pages(pages: Seq<Option<Seq<char>>>) -> Seq<char>
    decreases pages.len(),
{
    if pages.len() == 0 {
        Seq::empty()
    } else {
        match pages.last() {
            Some(text) => joined_pages(pages.drop_last()) + text + "\n\n"@,
            None => joined_pages(pages.drop_last()),
        }
    }
}

/// The outcome of OCR over a document: the text of its pages, unless that
/// is blank.
pub open spec fn ocr_outcome(pages: Seq<Option<Seq<char>>>) -> Option<Seq<char>> {
    if trim(joined_pages(pages)).len() == 0 {
        None
    } else {
        Some(joined_pages(pages))
    }
}

/// Puts together what OCR read. `pages` holds, for each page in order, the
/// text that was read from it, or `None` where rendering or reading
/// failed. The result is `None` exactly if no text was read at all.
pub fn assemble_ocr_text(pages: &Vec<Option<String>>) -> (r: Option<String>)
    ensures
        opt_string_view(r) == ocr_outcome(pages_view(pages@)),
{
    let ghost all = pages_view(pages@);
    let mut text = String::new();
    let mut i: usize = 0;
    assert(all.take(0) =~= Seq::<Option<Seq<char>>>::empty());
    while i < pages.len()
        invariant
            i <= pages@.len(),
            all == pages_view(pages@),
            text@ == joined_pages(all.take(i as int)),
        decreases pages.len() - i,
    {
        proof {
            assert(all.take(i as int + 1).drop_last() =~= all.take(i as int));
            assert(all.take(i as int + 1).last() == opt_string_view(pages@[i as int]));
        }
        match &pages[i] {
            Some(page) => {
                text.append(page.as_str());
                text.append("\n\n");
            },
            None => {},
        }
        i += 1;
    }
    assert(all.take(pages@.len() as int) =~= all);
    if trim_chars(&str_chars(text.as_str())).len() == 0 {
        None
    } else {
        Some(text)
    }
}

} // verus!
