//! Where an operator's rule comes from: a citation of Alexander's text.

use vstd::prelude::*;

verus! {

/// A citation of the source a pattern operator implements.
#[derive(Debug, Clone)]
pub struct SourceCitation {
    pub id: String,
    pub display: String,
    pub url: Option<String>,
}

/// What a [`SourceCitation`] says, as mathematical values.
pub struct CitationView {
    pub id: Seq<char>,
    pub display: Seq<char>,
    pub url: Option<Seq<char>>,
}

impl View for SourceCitation {
    type V = CitationView;

    open spec fn view(&self) -> CitationView {
        CitationView {
            id: self.id@,
            display: self.display@,
            url: match self.url {
                Some(u) => Some(u@),
                None => None,
            },
        }
    }
}

/// A citation with an id, a display text and a link.
pub fn cite(id: &str, display: &str, url: &str) -> (c: SourceCitation)
    ensures
        c@ == (CitationView { id: id@, display: display@, url: Some(url@) }),
{
    SourceCitation { id: id.to_owned(), display: display.to_owned(), url: Some(url.to_owned()) }
}

} // verus!
