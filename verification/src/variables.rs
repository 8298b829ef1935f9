//! The variable vocabulary of the style language: ordinary (text)
//! variables, numeric variables, name variables and date variables, plus
//! the sum of all four that the style's conditionals test.

use vstd::prelude::*;

verus! {

/// Ordinary (text) variables.
#[derive(Debug, Clone, Copy, PartialEq, Eq, Hash, Structural)]
pub enum Variable {
    /// abstract of the item (e.g. the abstract of a journal article)
    Abstract,
    /// reader's notes about the item content
    Annote,
    /// archive storing the item
    Archive,
    /// storage location within an archive (e.g. a box and folder number)
    ArchiveLocation,
    /// geographic location of the archive
    ArchivePlace,
    /// issuing or judicial authority
    Authority,
    /// call number (to locate the item in a library)
    CallNumber,
    /// label identifying the item in in-text citations of label styles
    CitationLabel,
    /// index (starting at 1) of the cited reference in the bibliography
    CitationNumber,
    /// title of the collection holding the item
    CollectionTitle,
    /// title of the container holding the item
    ContainerTitle,
    /// short/abbreviated form of "container-title"
    ContainerTitleShort,
    /// physical or temporal dimensions of the item
    Dimensions,
    /// Digital Object Identifier
    DOI,
    /// name of the related event
    Event,
    /// geographic location of the related event
    EventPlace,
    /// number of a preceding note containing the first reference to the item
    FirstReferenceNoteNumber,
    /// class, type or genre of the item
    Genre,
    /// International Standard Book Number
    ISBN,
    /// International Standard Serial Number
    ISSN,
    /// geographic scope of relevance
    Jurisdiction,
    /// keyword(s) or tag(s) attached to the item
    Keyword,
    /// a cite-specific pinpointer within the item
    Locator,
    /// medium description
    Medium,
    /// (short) inline note giving additional item details
    Note,
    /// original publisher, for items republished by a different publisher
    OriginalPublisher,
    /// geographic location of the original publisher
    OriginalPublisherPlace,
    /// title of the original version
    OriginalTitle,
    /// range of pages the item covers in a container
    Page,
    /// first page of the range of pages the item covers in a container
    PageFirst,
    /// PubMed Central reference number
    PMCID,
    /// PubMed reference number
    PMID,
    /// publisher
    Publisher,
    /// geographic location of the publisher
    PublisherPlace,
    /// resources related to the procedural history of a legal case
    References,
    /// title of the item reviewed by the current item
    ReviewedTitle,
    /// scale of e.g. a map
    Scale,
    /// container section holding the item
    Section,
    /// from whence the item originates
    Source,
    /// (publication) status of the item
    Status,
    /// primary title of the item
    Title,
    /// short/abbreviated form of "title"
    TitleShort,
    /// URL
    URL,
    /// version of the item
    Version,
    /// disambiguating year suffix in author-date styles
    YearSuffix,
    /// locale-specific alternative rendering of the item
    Hereinafter,
    /// date the item became available
    AvailableDate,
    /// placeholder variable with no content
    Dummy,
    /// additional locator content
    LocatorExtra,
    /// title of the volume holding the item
    VolumeTitle,
}

/// Numeric variables.
#[derive(Debug, Clone, Copy, PartialEq, Eq, Hash, Structural)]
pub enum NumberVariable {
    ChapterNumber,
    CollectionNumber,
    Edition,
    Issue,
    Number,
    NumberOfPages,
    NumberOfVolumes,
    Volume,
    Locator,
    Page,
    PageFirst,
    PublicationNumber,
    Supplement,
    Authority,
    CitationNumber,
    FirstReferenceNoteNumber,
}

/// Name variables: each holds a list of person or literal names.
#[derive(Debug, Clone, Copy, PartialEq, Eq, Hash, Structural)]
pub enum NameVariable {
    /// author
    Author,
    /// editor of the collection holding the item
    CollectionEditor,
    /// composer (e.g. of a musical score)
    Composer,
    /// author of the container holding the item
    ContainerAuthor,
    /// director (e.g. of a film)
    Director,
    /// editor
    Editor,
    /// managing editor
    EditorialDirector,
    /// illustrator (e.g. of a children's book)
    Illustrator,
    /// interviewer (e.g. of an interview)
    Interviewer,
    /// author of the original version
    OriginalAuthor,
    /// recipient (e.g. of a letter)
    Recipient,
    /// author of the item reviewed by the current item
    ReviewedAuthor,
    /// translator
    Translator,
}

/// Date variables.
#[derive(Debug, Clone, Copy, PartialEq, Eq, Hash, Structural)]
pub enum DateVariable {
    /// date the item has been accessed
    Accessed,
    /// date of the container holding the item
    Container,
    /// date the related event took place
    EventDate,
    /// date the item was issued/published
    Issued,
    /// (issue) date of the original version
    OriginalDate,
    /// date the item has been submitted for publication
    Submitted,
    /// date attached to the locator
    LocatorDate,
    /// publication date
    PublicationDate,
}

/// Any of the four variable kinds, as tested by the style's conditionals.
#[derive(Debug, Clone, Copy, PartialEq, Eq, Hash, Structural)]
pub enum AnyVariable {
    Ordinary(Variable),
    Number(NumberVariable),
    Name(NameVariable),
    Date(DateVariable),
}

} // verus!
