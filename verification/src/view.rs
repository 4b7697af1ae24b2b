//! View composition: pure construction of the HTML for the page shell,
//! search box, author facet panel and book grid.
//!
//! Every dynamic value lands in the markup HTML-escaped. No component
//! performs I/O; all data is resolved before composition.

use vstd::prelude::*;

use crate::book::{Book, BookView, book_views};
use crate::codec::{split_names, split_authors};
use crate::facets::{AuthorFacet, FacetView, facet_views, facet_index};
use crate::render::RenderMode;
use crate::selection::{contains_name, dedup_exact, resolved_books, selection_contains,
    dedup_selection, resolve_books};
use crate::facets::build_author_facets;
use crate::str_views;

verus! {

/// The escape of one character in HTML text or attribute position.
pub open spec fn esc_char(c: char) -> Seq<char> {
    if c == '&' {
        seq!['&', 'a', 'm', 'p', ';']
    } else if c == '<' {
        seq!['&', 'l', 't', ';']
    } else if c == '>' {
        seq!['&', 'g', 't', ';']
    } else if c == '"' {
        seq!['&', 'q', 'u', 'o', 't', ';']
    } else if c == '\'' {
        seq!['&', '#', '3', '9', ';']
    } else {
        seq![c]
    }
}

/// The HTML escape of a text.
pub open spec fn esc(s: Seq<char>) -> Seq<char>
    decreases s.len(),
{
    if s.len() == 0 {
        Seq::empty()
    } else {
        esc(s.drop_last()) + esc_char(s.last())
    }
}

/// Appends the HTML escape of `s`.
fn push_escaped(out: &mut String, s: &str)
    ensures
        final(out)@ == old(out)@ + esc(s@),
{
    let len = s.unicode_len();
    let mut i: usize = 0;
    proof {
        assert(old(out)@ + esc(s@.take(0)) =~= old(out)@);
    }
    while i < len
        invariant
            i <= len,
            len == s@.len(),
            out@ == old(out)@ + esc(s@.take(i as int)),
        decreases len - i,
    {
        let c = s.get_char(i);
        proof {
            assert(s@.take(i + 1).drop_last() =~= s@.take(i as int));
            assert(s@.take(i + 1).last() == s@[i as int]);
            reveal_strlit("&amp;");
            reveal_strlit("&lt;");
            reveal_strlit("&gt;");
            reveal_strlit("&quot;");
            reveal_strlit("&#39;");
            assert("&amp;"@ =~= seq!['&', 'a', 'm', 'p', ';']);
            assert("&lt;"@ =~= seq!['&', 'l', 't', ';']);
            assert("&gt;"@ =~= seq!['&', 'g', 't', ';']);
            assert("&quot;"@ =~= seq!['&', 'q', 'u', 'o', 't', ';']);
            assert("&#39;"@ =~= seq!['&', '#', '3', '9', ';']);
        }
        let ghost before = out@;
        if c == '&' {
            out.append("&amp;");
        } else if c == '<' {
            out.append("&lt;");
        } else if c == '>' {
            out.append("&gt;");
        } else if c == '"' {
            out.append("&quot;");
        } else if c == '\'' {
            out.append("&#39;");
        } else {
            out.push(c);
            proof {
                assert(out@ =~= before + seq![c]);
            }
        }
        proof {
            assert(out@ =~= old(out)@ + esc(s@.take(i + 1)));
        }
        i += 1;
    }
    proof {
        assert(s@.take(s@.len() as int) =~= s@);
    }
}

/// The decimal digit `d` as a character.
pub open spec fn digit_char(d: nat) -> char {
    ((d + 48) as u8) as char
}

/// The decimal numeral of `n`, most significant digit first.
pub open spec fn dec_digits(n: nat) -> Seq<char>
    decreases n,
{
    if n < 10 {
        seq![digit_char(n)]
    } else {
        dec_digits(n / 10).push(digit_char(n % 10))
    }
}

/// Appends the decimal numeral of `n`.
fn push_decimal(out: &mut String, n: usize)
    ensures
        final(out)@ == old(out)@ + dec_digits(n as nat),
    decreases n,
{
    if n < 10 {
        let ghost before = out@;
        out.push(((n as u8) + 48) as char);
        proof {
            assert(out@ =~= before + seq![digit_char(n as nat)]);
        }
    } else {
        push_decimal(out, n / 10);
        let ghost mid = out@;
        out.push((((n % 10) as u8) + 48) as char);
        proof {
            assert(out@ =~= mid.push(digit_char((n % 10) as nat)));
            assert(out@ =~= old(out)@ + dec_digits(n as nat));
        }
    }
}

/// The search box markup; present in the shell, not wired to any filter.
pub open spec fn search_box() -> Seq<char> {
    "<input type=\"search\" name=\"search\" class=\"w-full rounded-md p-2.5 dark:text-black outline-0\"/>"@
}

/// One cell of the book grid: the cover image of one book.
pub open spec fn book_cell(b: BookView) -> Seq<char> {
    "<img class=\"object-fit w-full h-full transform transition duration-150 hover:scale-110 cursor-pointer rounded-md\" src=\""@
        + esc(b.cover_img) + "\"/>"@
}

/// The cells of the book grid, in listing order.
pub open spec fn book_cells(books: Seq<BookView>) -> Seq<char>
    decreases books.len(),
{
    if books.len() == 0 {
        Seq::empty()
    } else {
        book_cells(books.drop_last()) + book_cell(books.last())
    }
}

/// The book grid: one image per resolved book, in order.
pub open spec fn book_list_markup(books: Seq<BookView>) -> Seq<char> {
    "<div id=\"BookList\" class=\"col-span-9\"><div class=\"grid grid-cols-5 gap-4\">"@
        + book_cells(books) + "</div></div>"@
}

/// Renders the book grid.
pub fn book_list_html(books: &Vec<Book>) -> (r: String)
    ensures
        r@ == book_list_markup(book_views(books@)),
{
    let mut out = String::new();
    out.append("<div id=\"BookList\" class=\"col-span-9\"><div class=\"grid grid-cols-5 gap-4\">");
    let ghost head = out@;
    let mut i: usize = 0;
    proof {
        assert(head + book_cells(book_views(books@).take(0)) =~= head);
    }
    while i < books.len()
        invariant
            i <= books.len(),
            out@ == head + book_cells(book_views(books@).take(i as int)),
            head == "<div id=\"BookList\" class=\"col-span-9\"><div class=\"grid grid-cols-5 gap-4\">"@,
        decreases books.len() - i,
    {
        let ghost before = out@;
        out.append(
            "<img class=\"object-fit w-full h-full transform transition duration-150 hover:scale-110 cursor-pointer rounded-md\" src=\"",
        );
        push_escaped(&mut out, books[i].cover_img.as_str());
        out.append("\"/>");
        proof {
            assert(book_views(books@).take(i + 1).drop_last() =~= book_views(books@).take(
                i as int,
            ));
            assert(book_views(books@).take(i + 1).last() == books@[i as int]@);
            assert(out@ =~= before + book_cell(books@[i as int]@));
            assert(out@ =~= head + book_cells(book_views(books@).take(i + 1)));
        }
        i += 1;
    }
    out.append("</div></div>");
    proof {
        assert(book_views(books@).take(book_views(books@).len() as int) =~= book_views(books@));
        assert(out@ =~= book_list_markup(book_views(books@)));
    }
    out
}

/// One row of a facet bucket: the checkbox and name of one author,
/// pre-checked when the author is in the current selection.
pub open spec fn author_row(name: Seq<char>, sel: Seq<Seq<char>>) -> Seq<char> {
    "<div class=\"flex gap-2\"><input type=\"checkbox\" name=\"author\" value=\""@ + esc(name) + (
    if contains_name(sel, name) {
        "\" checked=\"checked\"/>"@
    } else {
        "\"/>"@
    }) + "<span class=\"text-sm\">"@ + esc(name) + "</span></div>"@
}

/// The rows of one bucket, in the bucket's order.
pub open spec fn author_rows(names: Seq<Seq<char>>, sel: Seq<Seq<char>>) -> Seq<char>
    decreases names.len(),
{
    if names.len() == 0 {
        Seq::empty()
    } else {
        author_rows(names.drop_last(), sel) + author_row(names.last(), sel)
    }
}

/// The disclosure arrow of a bucket's summary line.
pub open spec fn summary_svg() -> Seq<char> {
    "<svg class=\"rotate-0 transform transition-all duration-150\" fill=\"none\" height=\"20\" width=\"20\" stroke=\"currentColor\" stroke-linecap=\"round\" stroke-linejoin=\"round\" stroke-width=\"2\" viewBox=\"0 0 24 24\"><polyline points=\"6 9 12 15 18 9\"></polyline></svg>"@
}

/// One collapsible bucket: its summary line — letter and count — and its
/// author rows, split out of the joined `authors` field.
pub open spec fn facet_block(f: FacetView, sel: Seq<Seq<char>>) -> Seq<char> {
    "<details class=\"[&_svg]:open:-rotate-180 select-none\"><summary class=\"flex justify-between cursor-pointer dark:hover:bg-zinc-600 hover:bg-zinc-100 p-1 rounded-md items-center\"><div class=\"flex gap-2\"><div>"@
        + esc(f.letter) + "</div><div>("@ + dec_digits(f.author_count as nat) + ")</div></div>"@
        + summary_svg() + "</summary>"@ + author_rows(split_names(f.authors), sel)
        + "</details>"@
}

/// The buckets of the facet panel, in index order.
pub open spec fn facet_blocks(facets: Seq<FacetView>, sel: Seq<Seq<char>>) -> Seq<char>
    decreases facets.len(),
{
    if facets.len() == 0 {
        Seq::empty()
    } else {
        facet_blocks(facets.drop_last(), sel) + facet_block(facets.last(), sel)
    }
}

/// The author facet panel: a filter form of collapsible buckets whose
/// submission replaces the book grid region.
pub open spec fn authors_panel_markup(facets: Seq<FacetView>, sel: Seq<Seq<char>>) -> Seq<char> {
    "<div class=\"col-span-3 bg-white shadow-sm dark:bg-zinc-800 lg:h-[70vh] h-80 overflow-y-auto p-4 rounded-md\"><h1 class=\"text-lg font-bold\">Authors</h1><form x-get=\"/\" x-replace=\"BookList\">"@
        + facet_blocks(facets, sel) + "<input type=\"submit\" value=\"submit\"/></form></div>"@
}

/// Appends the rows of one bucket.
fn push_author_rows(out: &mut String, names: &Vec<String>, sel: &Vec<String>)
    ensures
        final(out)@ == old(out)@ + author_rows(str_views(names@), str_views(sel@)),
{
    let mut i: usize = 0;
    proof {
        assert(old(out)@ + author_rows(str_views(names@).take(0), str_views(sel@)) =~= old(out)@);
    }
    while i < names.len()
        invariant
            i <= names.len(),
            out@ == old(out)@ + author_rows(str_views(names@).take(i as int), str_views(sel@)),
        decreases names.len() - i,
    {
        let ghost before = out@;
        let name = &names[i];
        out.append("<div class=\"flex gap-2\"><input type=\"checkbox\" name=\"author\" value=\"");
        push_escaped(out, name.as_str());
        if selection_contains(sel, name.as_str()) {
            out.append("\" checked=\"checked\"/>");
        } else {
            out.append("\"/>");
        }
        out.append("<span class=\"text-sm\">");
        push_escaped(out, name.as_str());
        out.append("</span></div>");
        proof {
            assert(str_views(names@).take(i + 1).drop_last() =~= str_views(names@).take(i as int));
            assert(str_views(names@).take(i + 1).last() == names@[i as int]@);
            assert(out@ =~= before + author_row(names@[i as int]@, str_views(sel@)));
            assert(out@ =~= old(out)@ + author_rows(
                str_views(names@).take(i + 1),
                str_views(sel@),
            ));
        }
        i += 1;
    }
    proof {
        assert(str_views(names@).take(str_views(names@).len() as int) =~= str_views(names@));
    }
}

/// Renders the author facet panel over the current selection.
pub fn authors_panel_html(facets: &Vec<AuthorFacet>, sel: &Vec<String>) -> (r: String)
    ensures
        r@ == authors_panel_markup(facet_views(facets@), str_views(sel@)),
{
    let mut out = String::new();
    out.append(
        "<div class=\"col-span-3 bg-white shadow-sm dark:bg-zinc-800 lg:h-[70vh] h-80 overflow-y-auto p-4 rounded-md\"><h1 class=\"text-lg font-bold\">Authors</h1><form x-get=\"/\" x-replace=\"BookList\">",
    );
    let ghost head = out@;
    let mut i: usize = 0;
    proof {
        assert(head + facet_blocks(facet_views(facets@).take(0), str_views(sel@)) =~= head);
    }
    while i < facets.len()
        invariant
            i <= facets.len(),
            out@ == head + facet_blocks(facet_views(facets@).take(i as int), str_views(sel@)),
        decreases facets.len() - i,
    {
        let ghost before = out@;
        let f = &facets[i];
        out.append(
            "<details class=\"[&_svg]:open:-rotate-180 select-none\"><summary class=\"flex justify-between cursor-pointer dark:hover:bg-zinc-600 hover:bg-zinc-100 p-1 rounded-md items-center\"><div class=\"flex gap-2\"><div>",
        );
        push_escaped(&mut out, f.letter.as_str());
        out.append("</div><div>(");
        push_decimal(&mut out, f.author_count);
        out.append(")</div></div>");
        out.append(
            "<svg class=\"rotate-0 transform transition-all duration-150\" fill=\"none\" height=\"20\" width=\"20\" stroke=\"currentColor\" stroke-linecap=\"round\" stroke-linejoin=\"round\" stroke-width=\"2\" viewBox=\"0 0 24 24\"><polyline points=\"6 9 12 15 18 9\"></polyline></svg>",
        );
        out.append("</summary>");
        let names = split_authors(f.authors.as_str());
        push_author_rows(&mut out, &names, sel);
        out.append("</details>");
        proof {
            assert(facet_views(facets@).take(i + 1).drop_last() =~= facet_views(facets@).take(
                i as int,
            ));
            assert(facet_views(facets@).take(i + 1).last() == facets@[i as int]@);
            assert(out@ =~= before + facet_block(facets@[i as int]@, str_views(sel@)));
            assert(out@ =~= head + facet_blocks(
                facet_views(facets@).take(i + 1),
                str_views(sel@),
            ));
        }
        i += 1;
    }
    out.append("<input type=\"submit\" value=\"submit\"/></form></div>");
    proof {
        assert(facet_views(facets@).take(facet_views(facets@).len() as int) =~= facet_views(
            facets@,
        ));
        assert(out@ =~= authors_panel_markup(facet_views(facets@), str_views(sel@)));
    }
    out
}

/// The inner content of a response: the facet panel and the book grid.
pub open spec fn content_markup(
    facets: Seq<FacetView>,
    sel: Seq<Seq<char>>,
    books: Seq<BookView>,
) -> Seq<char> {
    authors_panel_markup(facets, sel) + book_list_markup(books)
}

/// The page shell: document wrapper holding the search box and the
/// two-region grid of panel and book grid.
pub open spec fn page_markup(inner: Seq<char>) -> Seq<char> {
    "<!DOCTYPE html><html><head></head><body class=\"font-sans flex flex-col max-w-screen-xl mx-auto mt-8 gap-8 bg-gray-100 dark:bg-zinc-950 dark:text-white\"><div class=\"\">"@
        + search_box() + "</div><div class=\"grid grid-cols-12 gap-4\">"@ + inner
        + "</div></body></html>"@
}

/// Wraps the inner content in the page shell.
pub fn page_html(inner: &str) -> (r: String)
    ensures
        r@ == page_markup(inner@),
{
    let mut out = String::new();
    out.append(
        "<!DOCTYPE html><html><head></head><body class=\"font-sans flex flex-col max-w-screen-xl mx-auto mt-8 gap-8 bg-gray-100 dark:bg-zinc-950 dark:text-white\"><div class=\"\">",
    );
    out.append(
        "<input type=\"search\" name=\"search\" class=\"w-full rounded-md p-2.5 dark:text-black outline-0\"/>",
    );
    out.append("</div><div class=\"grid grid-cols-12 gap-4\">");
    out.append(inner);
    out.append("</div></body></html>");
    proof {
        assert(out@ =~= page_markup(inner@));
    }
    out
}

/// The whole response to one request: the composed content, wrapped in the
/// page shell except when the render mode says the bare fragment.
pub open spec fn respond_markup(cat: Seq<BookView>, raw: Seq<Seq<char>>, mode: RenderMode) -> Seq<
    char,
> {
    let inner = content_markup(facet_index(cat), dedup_exact(raw), resolved_books(cat, raw));
    if mode == RenderMode::Fragment {
        inner
    } else {
        page_markup(inner)
    }
}

/// Handles one request against the snapshot: resolves the selection, builds
/// the facet index, composes the view and applies the render mode.
pub fn respond(catalog: &Vec<Book>, raw: &Vec<String>, mode: RenderMode) -> (r: String)
    ensures
        r@ == respond_markup(book_views(catalog@), str_views(raw@), mode),
{
    let facets = build_author_facets(catalog);
    let sel = dedup_selection(raw);
    let books = resolve_books(catalog, raw);
    let mut inner = authors_panel_html(&facets, &sel);
    let grid = book_list_html(&books);
    inner.append(grid.as_str());
    match mode {
        RenderMode::Fragment => inner,
        RenderMode::Full => page_html(inner.as_str()),
    }
}

} // verus!
