//! Checks of the composed HTML: grid, facet panel, escaping, page shell.

use book_facets::book::Book;
use book_facets::facets::build_author_facets;
use book_facets::render::RenderMode;
use book_facets::selection::{dedup_selection, resolve_books};
use book_facets::view::{authors_panel_html, book_list_html, page_html, respond};

fn book(author: &str, cover: &str, num_ratings: &str) -> Book {
    Book {
        book_id: String::new(),
        title: String::new(),
        series: String::new(),
        author: author.to_string(),
        rating: String::new(),
        description: String::new(),
        language: String::new(),
        isbn: String::new(),
        genres: String::new(),
        characters: String::new(),
        book_format: String::new(),
        edition: String::new(),
        pages: String::new(),
        publisher: String::new(),
        publish_date: String::new(),
        first_publish_date: String::new(),
        awards: String::new(),
        num_ratings: num_ratings.to_string(),
        ratings_by_stars: String::new(),
        liked_percent: String::new(),
        setting: String::new(),
        cover_img: cover.to_string(),
        bbe_score: String::new(),
        bbe_votes: String::new(),
        price: String::new(),
    }
}

#[test]
fn book_grid_lists_covers_in_order() {
    let books = vec![book("A", "one.jpg", "2"), book("B", "two.jpg", "1")];
    let html = book_list_html(&books);
    assert!(html.starts_with("<div id=\"BookList\""));
    let one = html.find("src=\"one.jpg\"").unwrap();
    let two = html.find("src=\"two.jpg\"").unwrap();
    assert!(one < two);
    assert!(html.ends_with("</div></div>"));
}

#[test]
fn cover_url_is_escaped() {
    let books = vec![book("A", "a&b\"c.jpg", "1")];
    let html = book_list_html(&books);
    assert!(html.contains("src=\"a&amp;b&quot;c.jpg\""));
    assert!(!html.contains("src=\"a&b"));
}

#[test]
fn panel_shows_letter_count_and_checked_state() {
    let catalog = vec![
        book("Adams", "a.jpg", "1"),
        book("apple", "b.jpg", "2"),
        book("Baker", "c.jpg", "3"),
    ];
    let facets = build_author_facets(&catalog);
    let sel = dedup_selection(&vec!["apple".to_string()]);
    let html = authors_panel_html(&facets, &sel);
    assert!(html.contains("<div>a</div><div>(2)</div>"));
    assert!(html.contains("<div>b</div><div>(1)</div>"));
    assert!(html.contains("value=\"apple\" checked=\"checked\"/>"));
    assert!(html.contains("value=\"Adams\"/>"));
    assert!(html.contains("value=\"Baker\"/>"));
    assert!(html.contains("<span class=\"text-sm\">Adams</span>"));
}

#[test]
fn counts_render_multi_digit() {
    let mut catalog = Vec::new();
    for i in 0..12 {
        catalog.push(book(&format!("Author{}", i), "x.jpg", "1"));
    }
    let facets = build_author_facets(&catalog);
    let html = authors_panel_html(&facets, &Vec::new());
    assert!(html.contains("<div>a</div><div>(12)</div>"));
}

#[test]
fn shell_wraps_fragment() {
    let inner = "<p>content</p>";
    let page = page_html(inner);
    assert!(page.starts_with("<!DOCTYPE html><html><head></head><body"));
    assert!(page.contains("<input type=\"search\""));
    assert!(page.contains(inner));
    assert!(page.ends_with("</div></body></html>"));
}

#[test]
fn respond_full_wraps_respond_fragment() {
    let catalog = vec![book("Adams", "a.jpg", "1")];
    let raw = vec!["Adams".to_string()];
    let fragment = respond(&catalog, &raw, RenderMode::Fragment);
    let full = respond(&catalog, &raw, RenderMode::Full);
    assert!(fragment.starts_with("<div class=\"col-span-3"));
    assert!(!fragment.contains("<!DOCTYPE html>"));
    assert!(full.starts_with("<!DOCTYPE html>"));
    assert!(full.contains(fragment.as_str()));
}

#[test]
fn respond_fragment_holds_resolved_books() {
    let catalog = vec![
        book("Adams", "a.jpg", "5"),
        book("Baker", "b.jpg", "9"),
    ];
    let none: Vec<String> = Vec::new();
    let fragment = respond(&catalog, &none, RenderMode::Fragment);
    let top = resolve_books(&catalog, &none);
    assert_eq!(top.len(), 2);
    let b = fragment.find("src=\"b.jpg\"").unwrap();
    let a = fragment.find("src=\"a.jpg\"").unwrap();
    assert!(b < a);
}
