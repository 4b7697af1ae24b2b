//! End-to-end checks of the faceted query-and-render pipeline on concrete
//! catalogs.

use book_facets::book::Book;
use book_facets::codec::{join_authors, split_authors};
use book_facets::facets::build_author_facets;
use book_facets::numcast::rating_value;
use book_facets::render::{render_mode, RenderMode};
use book_facets::selection::{dedup_selection, resolve_books};
use book_facets::store::{list_books_by_author, list_top_books};

fn book(author: &str, cover: &str, num_ratings: &str) -> Book {
    Book {
        book_id: String::new(),
        title: String::new(),
        series: String::new(),
        author: author.to_string(),
        rating: String::new(),
        description: String::new(),
        language: String::new(),
        isbn: String::new(),
        genres: String::new(),
        characters: String::new(),
        book_format: String::new(),
        edition: String::new(),
        pages: String::new(),
        publisher: String::new(),
        publish_date: String::new(),
        first_publish_date: String::new(),
        awards: String::new(),
        num_ratings: num_ratings.to_string(),
        ratings_by_stars: String::new(),
        liked_percent: String::new(),
        setting: String::new(),
        cover_img: cover.to_string(),
        bbe_score: String::new(),
        bbe_votes: String::new(),
        price: String::new(),
    }
}

fn covers(books: &[Book]) -> Vec<String> {
    books.iter().map(|b| b.cover_img.clone()).collect()
}

#[test]
fn facets_mixed_case_scenario() {
    let catalog = vec![
        book("Adams", "a.jpg", "10"),
        book("Baker", "b.jpg", "20"),
        book("apple", "c.jpg", "30"),
    ];
    let facets = build_author_facets(&catalog);
    assert_eq!(facets.len(), 2);
    assert_eq!(facets[0].letter, "a");
    assert_eq!(facets[0].authors, "Adams,,,apple");
    assert_eq!(facets[0].author_count, 2);
    assert_eq!(facets[1].letter, "b");
    assert_eq!(facets[1].authors, "Baker");
    assert_eq!(facets[1].author_count, 1);
}

#[test]
fn facets_sorted_counts_match_segments() {
    let catalog = vec![
        book("zeta", "z.jpg", "1"),
        book("Alpha", "a.jpg", "2"),
        book("ALPHA", "a2.jpg", "3"),
        book("alder", "d.jpg", "4"),
        book("Zen", "n.jpg", "5"),
    ];
    let facets = build_author_facets(&catalog);
    assert_eq!(facets.len(), 2);
    assert_eq!(facets[0].letter, "a");
    assert_eq!(facets[0].authors, "alder,,,Alpha");
    assert_eq!(facets[0].author_count, 2);
    assert_eq!(facets[1].letter, "z");
    assert_eq!(facets[1].authors, "Zen,,,zeta");
    assert_eq!(facets[1].author_count, 2);
    for f in &facets {
        let parts = split_authors(&f.authors);
        assert_eq!(parts.len(), f.author_count);
    }
}

#[test]
fn facets_dedup_keeps_first_spelling() {
    let catalog = vec![book("McCarthy", "m.jpg", "5"), book("MCCARTHY", "m2.jpg", "6")];
    let facets = build_author_facets(&catalog);
    assert_eq!(facets.len(), 1);
    assert_eq!(facets[0].authors, "McCarthy");
    assert_eq!(facets[0].author_count, 1);
}

#[test]
fn facets_empty_author_degenerate_bucket() {
    let catalog = vec![book("", "x.jpg", "1"), book("Ann", "y.jpg", "2")];
    let facets = build_author_facets(&catalog);
    assert_eq!(facets.len(), 2);
    assert_eq!(facets[0].letter, "");
    assert_eq!(facets[0].authors, "");
    assert_eq!(facets[0].author_count, 1);
    assert_eq!(facets[1].letter, "a");
    assert_eq!(facets[1].authors, "Ann");
}

#[test]
fn split_join_round_trip() {
    let joined = "Adams,,,apple,,,Baker";
    let parts = split_authors(joined);
    assert_eq!(parts, vec!["Adams", "apple", "Baker"]);
    assert_eq!(join_authors(&parts), joined);

    let names = vec!["x".to_string(), "y".to_string(), "z".to_string()];
    let parts2 = split_authors(&join_authors(&names));
    assert_eq!(parts2, names);

    let single = split_authors("solo");
    assert_eq!(single, vec!["solo"]);
    assert_eq!(join_authors(&single), "solo");
}

#[test]
fn empty_selection_equals_top_listing() {
    let catalog = vec![
        book("A", "1.jpg", "5"),
        book("B", "2.jpg", "9"),
        book("C", "", "100"),
        book("D", "3.jpg", "7"),
    ];
    let resolved = resolve_books(&catalog, &Vec::new());
    let top = list_top_books(&catalog);
    assert_eq!(covers(&resolved), covers(&top));
    assert_eq!(covers(&resolved), vec!["2.jpg", "3.jpg", "1.jpg"]);
}

#[test]
fn two_author_selection_concatenates() {
    let catalog = vec![
        book("Baker", "b1.jpg", "5"),
        book("Adams", "a1.jpg", "9"),
        book("Baker", "b2.jpg", "7"),
        book("Cole", "c1.jpg", "100"),
    ];
    let raw = vec!["Adams".to_string(), "Baker".to_string()];
    let resolved = resolve_books(&catalog, &raw);
    let a = list_books_by_author(&catalog, &"Adams".to_string());
    let b = list_books_by_author(&catalog, &"Baker".to_string());
    let mut expected = covers(&a);
    expected.extend(covers(&b));
    assert_eq!(covers(&resolved), expected);
    assert_eq!(covers(&resolved), vec!["a1.jpg", "b2.jpg", "b1.jpg"]);
}

#[test]
fn selection_dedup_first_occurrence_order() {
    let raw = vec![
        "B".to_string(),
        "A".to_string(),
        "B".to_string(),
        "A".to_string(),
        "C".to_string(),
    ];
    let sel = dedup_selection(&raw);
    assert_eq!(sel, vec!["B", "A", "C"]);
}

#[test]
fn selection_matches_author_case_insensitively() {
    let catalog = vec![book("Baker", "b1.jpg", "5")];
    let raw = vec!["baker".to_string()];
    let resolved = resolve_books(&catalog, &raw);
    assert_eq!(covers(&resolved), vec!["b1.jpg"]);
}

#[test]
fn author_cap_at_thirty_descending() {
    let mut catalog = Vec::new();
    for i in 1..=31 {
        catalog.push(book("Baker", &format!("{}.jpg", i), &i.to_string()));
    }
    let raw = vec!["Baker".to_string()];
    let resolved = resolve_books(&catalog, &raw);
    assert_eq!(resolved.len(), 30);
    assert_eq!(resolved[0].cover_img, "31.jpg");
    assert_eq!(resolved[29].cover_img, "2.jpg");
    for w in resolved.windows(2) {
        let hi = rating_value(&w[0].num_ratings);
        let lo = rating_value(&w[1].num_ratings);
        assert!(hi >= lo);
    }
}

#[test]
fn rating_sort_is_numeric_not_lexicographic() {
    let catalog = vec![book("A", "nine.jpg", "9"), book("A", "thirty.jpg", "30")];
    let top = list_top_books(&catalog);
    assert_eq!(covers(&top), vec!["thirty.jpg", "nine.jpg"]);
}

#[test]
fn rating_sort_ties_keep_snapshot_order() {
    let catalog = vec![
        book("A", "first.jpg", "7"),
        book("B", "second.jpg", "7"),
        book("C", "third.jpg", "8"),
    ];
    let top = list_top_books(&catalog);
    assert_eq!(covers(&top), vec!["third.jpg", "first.jpg", "second.jpg"]);
}

#[test]
fn empty_cover_never_appears() {
    let catalog = vec![
        book("Ghost", "", "1000"),
        book("Seen", "s.jpg", "1"),
    ];
    let top = list_top_books(&catalog);
    assert_eq!(covers(&top), vec!["s.jpg"]);
    let by = list_books_by_author(&catalog, &"Ghost".to_string());
    assert!(by.is_empty());
    let facets = build_author_facets(&catalog);
    assert_eq!(facets.len(), 1);
    assert_eq!(facets[0].authors, "Seen");
}

#[test]
fn rating_value_exact() {
    assert_eq!(rating_value("123"), 123);
    assert_eq!(rating_value(""), 0);
    assert_eq!(rating_value("abc"), 0);
    assert_eq!(rating_value("42nd"), 42);
    assert_eq!(rating_value("  77"), 77);
    assert_eq!(rating_value("-5"), -5);
    assert_eq!(rating_value("+7"), 7);
    assert_eq!(rating_value("-"), 0);
    assert_eq!(rating_value("99999999999999999999999999"), i64::MAX);
    assert_eq!(rating_value("-99999999999999999999999999"), i64::MIN);
    assert_eq!(rating_value("9223372036854775807"), i64::MAX);
    assert_eq!(rating_value("9223372036854775808"), i64::MAX);
    assert_eq!(rating_value("-9223372036854775808"), i64::MIN);
}

#[test]
fn render_mode_exactly_true() {
    let t = "true".to_string();
    assert_eq!(render_mode(Some(&t)), RenderMode::Fragment);
    for other in ["True", "TRUE", "false", "", " true", "true ", "1"] {
        let v = other.to_string();
        assert_eq!(render_mode(Some(&v)), RenderMode::Full);
    }
    assert_eq!(render_mode(None), RenderMode::Full);
}
