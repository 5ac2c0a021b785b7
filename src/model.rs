//! Paper records, their publications, and the remote hits matched against them.

use vstd::prelude::*;
use crate::similarity::views;

verus! {

/// One venue-specific appearance of a paper.
#[derive(Clone, Debug, PartialEq)]
pub struct Publication {
    pub name: String,
    pub url: Option<String>,
    pub year: Option<i32>,
    pub month: Option<u32>,
    pub day: Option<u32>,
    pub dblp_key: Option<String>,
    pub bibtex: Option<String>,
}

/// A paper record: title, surnames of its authors, labels and publications.
#[derive(Clone, Debug, PartialEq)]
pub struct Paper {
    pub title: String,
    pub authors: Option<String>,
    pub labels: Vec<String>,
    pub publications: Vec<Publication>,
}

/// A hit of the preprint search, already extracted from the response.
#[derive(Clone, Debug, PartialEq)]
pub struct ArxivHit {
    pub title: String,
    pub authors: Vec<String>,
    /// The publication timestamp as RFC 3339 text.
    pub published: Option<String>,
    /// The identifier URL, possibly with a version suffix.
    pub id: Option<String>,
}

/// A hit of the indexed publication search, already extracted from the response.
#[derive(Clone, Debug, PartialEq)]
pub struct DblpHit {
    pub title: String,
    pub authors: Vec<String>,
    pub venue: String,
    /// The year as text.
    pub year: Option<String>,
    pub key: Option<String>,
    pub url: Option<String>,
}

/// The character content of an optional string.
pub open spec fn opt_view(o: Option<String>) -> Option<Seq<char>> {
    match o {
        Some(s) => Some(s@),
        None => None,
    }
}

/// The mathematical content of a `Publication`.
pub struct PublicationV {
    pub name: Seq<char>,
    pub url: Option<Seq<char>>,
    pub year: Option<i32>,
    pub month: Option<u32>,
    pub day: Option<u32>,
    pub dblp_key: Option<Seq<char>>,
    pub bibtex: Option<Seq<char>>,
}

/// The mathematical content of a `Paper`.
pub struct PaperV {
    pub title: Seq<char>,
    pub authors: Option<Seq<char>>,
    pub labels: Seq<Seq<char>>,
    pub publications: Seq<PublicationV>,
}

impl View for Publication {
    type V = PublicationV;

    open spec fn view(&self) -> PublicationV {
        PublicationV {
            name: self.name@,
            url: opt_view(self.url),
            year: self.year,
            month: self.month,
            day: self.day,
            dblp_key: opt_view(self.dblp_key),
            bibtex: opt_view(self.bibtex),
        }
    }
}

/// The contents of a list of publications.
pub open spec fn pub_views(v: Seq<Publication>) -> Seq<PublicationV> {
    v.map_values(|p: Publication| p@)
}

impl View for Paper {
    type V = PaperV;

    open spec fn view(&self) -> PaperV {
        PaperV {
            title: self.title@,
            authors: opt_view(self.authors),
            labels: views(self.labels@),
            publications: pub_views(self.publications@),
        }
    }
}

/// A copy of an optional string.
pub fn clone_opt(o: &Option<String>) -> (r: Option<String>)
    ensures
        opt_view(r) == opt_view(*o),
{
    match o {
        Some(s) => Some(s.clone()),
        None => None,
    }
}

} // verus!
