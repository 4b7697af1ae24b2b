//! The book record: a flat row of free-form text columns, read-only once
//! loaded. A book is eligible for display only while its cover image URL is
//! non-empty.

use vstd::prelude::*;

use crate::numcast::cast_num;

verus! {

/// One catalog row. Every column is free-form text; `num_ratings` is read
/// numerically when listings are ordered.
pub struct Book {
    pub book_id: String,
    pub title: String,
    pub series: String,
    pub author: String,
    pub rating: String,
    pub description: String,
    pub language: String,
    pub isbn: String,
    pub genres: String,
    pub characters: String,
    pub book_format: String,
    pub edition: String,
    pub pages: String,
    pub publisher: String,
    pub publish_date: String,
    pub first_publish_date: String,
    pub awards: String,
    pub num_ratings: String,
    pub ratings_by_stars: String,
    pub liked_percent: String,
    pub setting: String,
    pub cover_img: String,
    pub bbe_score: String,
    pub bbe_votes: String,
    pub price: String,
}

/// The mathematical image of a book: each column as a character sequence.
#[verifier::ext_equal]
pub struct BookView {
    pub book_id: Seq<char>,
    pub title: Seq<char>,
    pub series: Seq<char>,
    pub author: Seq<char>,
    pub rating: Seq<char>,
    pub description: Seq<char>,
    pub language: Seq<char>,
    pub isbn: Seq<char>,
    pub genres: Seq<char>,
    pub characters: Seq<char>,
    pub book_format: Seq<char>,
    pub edition: Seq<char>,
    pub pages: Seq<char>,
    pub publisher: Seq<char>,
    pub publish_date: Seq<char>,
    pub first_publish_date: Seq<char>,
    pub awards: Seq<char>,
    pub num_ratings: Seq<char>,
    pub ratings_by_stars: Seq<char>,
    pub liked_percent: Seq<char>,
    pub setting: Seq<char>,
    pub cover_img: Seq<char>,
    pub bbe_score: Seq<char>,
    pub bbe_votes: Seq<char>,
    pub price: Seq<char>,
}

impl View for Book {
    type V = BookView;

    open spec fn view(&self) -> BookView {
        BookView {
            book_id: self.book_id@,
            title: self.title@,
            series: self.series@,
            author: self.author@,
            rating: self.rating@,
            description: self.description@,
            language: self.language@,
            isbn: self.isbn@,
            genres: self.genres@,
            characters: self.characters@,
            book_format: self.book_format@,
            edition: self.edition@,
            pages: self.pages@,
            publisher: self.publisher@,
            publish_date: self.publish_date@,
            first_publish_date: self.first_publish_date@,
            awards: self.awards@,
            num_ratings: self.num_ratings@,
            ratings_by_stars: self.ratings_by_stars@,
            liked_percent: self.liked_percent@,
            setting: self.setting@,
            cover_img: self.cover_img@,
            bbe_score: self.bbe_score@,
            bbe_votes: self.bbe_votes@,
            price: self.price@,
        }
    }
}

/// A book may be shown only while its cover image URL is non-empty.
pub open spec fn eligible(b: BookView) -> bool {
    b.cover_img.len() > 0
}

/// The key listings are ordered by, descending: the rating count.
pub open spec fn rating_key(b: BookView) -> int {
    cast_num(b.num_ratings)
}

/// The images of a sequence of books.
pub open spec fn book_views(s: Seq<Book>) -> Seq<BookView> {
    s.map_values(|b: Book| b@)
}

impl Book {
    /// A field-for-field copy of the record.
    pub fn duplicate(&self) -> (r: Book)
        ensures
            r@ == self@,
    {
        let r = Book {
            book_id: self.book_id.clone(),
            title: self.title.clone(),
            series: self.series.clone(),
            author: self.author.clone(),
            rating: self.rating.clone(),
            description: self.description.clone(),
            language: self.language.clone(),
            isbn: self.isbn.clone(),
            genres: self.genres.clone(),
            characters: self.characters.clone(),
            book_format: self.book_format.clone(),
            edition: self.edition.clone(),
            pages: self.pages.clone(),
            publisher: self.publisher.clone(),
            publish_date: self.publish_date.clone(),
            first_publish_date: self.first_publish_date.clone(),
            awards: self.awards.clone(),
            num_ratings: self.num_ratings.clone(),
            ratings_by_stars: self.ratings_by_stars.clone(),
            liked_percent: self.liked_percent.clone(),
            setting: self.setting.clone(),
            cover_img: self.cover_img.clone(),
            bbe_score: self.bbe_score.clone(),
            bbe_votes: self.bbe_votes.clone(),
            price: self.price.clone(),
        };
        proof {
            assert(r@ =~= self@);
        }
        r
    }
}

} // verus!
