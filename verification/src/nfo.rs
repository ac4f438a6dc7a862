//! The NFO data model: the typed pieces a media-centre record is made of,
//! and the generator configuration that decides which flavour of NFO file
//! is produced. Serialising to XML and writing files stay with the caller;
//! this module owns the data and the naming decisions.

use vstd::prelude::*;

use crate::text::{sanitize_filename_text, sanitize_spec};

verus! {

/// The media-centre flavour an NFO file is produced for.
#[derive(Clone, Copy, PartialEq, Eq, Structural, Debug)]
pub enum MediaCenterType {
    /// One format compatible with the common media centres.
    Universal,
}

/// One credited performer.
pub struct Actor {
    pub name: String,
    pub role: String,
    pub thumb: String,
    pub order: Option<u32>,
}

/// A series or collection the movie belongs to.
pub struct MovieSet {
    pub name: String,
    pub overview: String,
}

/// One external identifier, such as an IMDB id.
pub struct UniqueId {
    pub id_type: String,
    pub default: Option<bool>,
    pub value: String,
}

/// A set of backdrop images.
pub struct FanArt {
    pub thumbs: Vec<FanArtThumb>,
}

/// One backdrop image, with an optional preview.
pub struct FanArtThumb {
    pub preview: Option<String>,
    pub url: String,
}

/// The artwork bundle of a record.
pub struct ArtWork {
    pub poster: String,
    pub fanart: Option<FanArt>,
    pub thumb: String,
}

/// The typed record an NFO file is generated from; only the fields the
/// naming decisions read are modelled here.
pub struct MovieNfo {
    pub title: String,
    pub original_title: String,
    pub year: Option<i32>,
    pub set: Option<MovieSet>,
    pub actors: Vec<Actor>,
    pub directors: Vec<String>,
    pub studios: Vec<String>,
    pub genres: Vec<String>,
    pub imdb_id: String,
    pub unique_ids: Vec<UniqueId>,
}

impl MovieNfo {
    /// An empty record.
    pub fn new() -> (r: MovieNfo)
        ensures
            r.title@ == Seq::<char>::empty(),
            r.actors@.len() == 0,
    {
        MovieNfo {
            title: String::new(),
            original_title: String::new(),
            year: None,
            set: None,
            actors: Vec::new(),
            directors: Vec::new(),
            studios: Vec::new(),
            genres: Vec::new(),
            imdb_id: String::new(),
            unique_ids: Vec::new(),
        }
    }
}

/// Produces NFO content and file names for one media-centre flavour.
pub struct NfoGenerator {
    pub media_center_type: MediaCenterType,
}

/// Saved generator settings.
pub struct NfoGeneratorConfig {
    pub media_center_type: MediaCenterType,
    pub generate_multiple_formats: bool,
    pub custom_xml_header: Option<String>,
}

impl NfoGenerator {
    /// A generator for the universal format.
    pub fn new() -> (r: NfoGenerator)
        ensures
            r.media_center_type == MediaCenterType::Universal,
    {
        NfoGenerator { media_center_type: MediaCenterType::Universal }
    }

    /// A generator for the given media centre.
    pub fn for_media_center(media_center: MediaCenterType) -> (r: NfoGenerator)
        ensures
            r.media_center_type == media_center,
    {
        NfoGenerator { media_center_type: media_center }
    }

    /// A file name cleaned for the file system.
    pub fn sanitize_filename(&self, filename: &str) -> (r: String)
        ensures
            r@ == sanitize_spec(filename@),
    {
        sanitize_filename_text(filename)
    }
}

impl Default for NfoGenerator {
    fn default() -> (r: NfoGenerator)
        ensures
            r.media_center_type == MediaCenterType::Universal,
    {
        NfoGenerator::new()
    }
}

/// Step-by-step construction of an [`NfoGenerator`].
pub struct NfoGeneratorBuilder {
    pub media_center_type: MediaCenterType,
    pub generate_multiple_formats: bool,
    pub custom_xml_header: Option<String>,
}

impl NfoGeneratorBuilder {
    pub fn new() -> (r: NfoGeneratorBuilder)
        ensures
            r.media_center_type == MediaCenterType::Universal,
            r.generate_multiple_formats == false,
            r.custom_xml_header is None,
    {
        NfoGeneratorBuilder {
            media_center_type: MediaCenterType::Universal,
            generate_multiple_formats: false,
            custom_xml_header: None,
        }
    }

    pub fn for_media_center(self, media_center: MediaCenterType) -> (r: NfoGeneratorBuilder)
        ensures
            r.media_center_type == media_center,
            r.generate_multiple_formats == self.generate_multiple_formats,
            r.custom_xml_header == self.custom_xml_header,
    {
        NfoGeneratorBuilder { media_center_type: media_center, ..self }
    }

    pub fn generate_multiple_formats(self, enabled: bool) -> (r: NfoGeneratorBuilder)
        ensures
            r.generate_multiple_formats == enabled,
            r.media_center_type == self.media_center_type,
            r.custom_xml_header == self.custom_xml_header,
    {
        NfoGeneratorBuilder { generate_multiple_formats: enabled, ..self }
    }

    pub fn with_custom_xml_header(self, header: String) -> (r: NfoGeneratorBuilder)
        ensures
            r.custom_xml_header == Some(header),
            r.media_center_type == self.media_center_type,
            r.generate_multiple_formats == self.generate_multiple_formats,
    {
        NfoGeneratorBuilder { custom_xml_header: Some(header), ..self }
    }

    /// The generator these settings describe.
    pub fn build(self) -> (r: NfoGenerator)
        ensures
            r.media_center_type == self.media_center_type,
    {
        NfoGenerator { media_center_type: self.media_center_type }
    }
}

impl Default for NfoGeneratorBuilder {
    fn default() -> (r: NfoGeneratorBuilder)
        ensures
            r.media_center_type == MediaCenterType::Universal,
    {
        NfoGeneratorBuilder::new()
    }
}

} // verus!
