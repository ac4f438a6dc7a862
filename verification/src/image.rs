//! Image naming: the image kinds a record carries and the file names each
//! media centre expects for them. Downloading stays with the caller.

use vstd::prelude::*;

use vstd::string::StringExecFns;

verus! {

/// One kind of artwork image.
pub enum ImageType {
    /// The main poster or cover.
    Poster,
    /// A backdrop or still.
    Fanart,
    /// A thumbnail.
    Thumb,
    /// A preview-set image.
    Preview,
    /// A performer's portrait, by name.
    ActorThumb(String),
}

/// One file-name rule for an image: the name to save under and what it is
/// for.
pub struct ImageNamingRule {
    pub filename: String,
    pub description: String,
}

/// The name `movie_id` extended by the poster suffix `.jpg`.
pub open spec fn poster_name_spec(movie_id: Seq<char>) -> Seq<char> {
    movie_id + seq!['.', 'j', 'p', 'g']
}

/// The common naming rules every media centre understands: the id-named
/// poster first, then the generic poster, backdrop and thumbnail names.
pub fn common_naming_rules(movie_id: &str) -> (r: Vec<(ImageType, ImageNamingRule)>)
    ensures
        r@.len() == 5,
        r@[0].1.filename@ == poster_name_spec(movie_id@),
{
    let mut rules: Vec<(ImageType, ImageNamingRule)> = Vec::new();
    let mut id_name = String::new();
    id_name.append(movie_id);
    id_name.append(".jpg");
    proof {
        reveal_strlit(".jpg");
        assert(id_name@ =~= poster_name_spec(movie_id@));
    }
    rules.push((ImageType::Poster, rule(id_name, "main poster, named by id")));
    rules.push((ImageType::Poster, rule(text("poster.jpg"), "main poster, generic name")));
    rules.push((ImageType::Fanart, rule(text("backdrop.jpg"), "backdrop")));
    rules.push((ImageType::Fanart, rule(text("fanart.jpg"), "backdrop, alternative name")));
    rules.push((ImageType::Thumb, rule(text("thumb.jpg"), "thumbnail")));
    rules
}

/// One rule from its parts.
fn rule(filename: String, description: &str) -> (r: ImageNamingRule)
    ensures
        r.filename == filename,
        r.description@ == description@,
{
    let mut d = String::new();
    d.append(description);
    ImageNamingRule { filename, description: d }
}

/// An owned copy of a literal.
fn text(s: &str) -> (r: String)
    ensures
        r@ == s@,
{
    let mut out = String::new();
    out.append(s);
    out
}

} // verus!
