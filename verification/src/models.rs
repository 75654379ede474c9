//! The values that go in and out of the service.

use vstd::prelude::*;
use crate::text::view_opt_string;

verus! {

/// The body of an extraction request.
#[derive(Debug)]
pub struct ExtractRequest {
    pub url: String,
}

/// An image found in an article.
#[derive(Debug, Clone)]
pub struct ImageInfo {
    /// Absolute URL of the image.
    pub url: String,
    pub alt: Option<String>,
    pub caption: Option<String>,
}

/// The mathematical value of an image.
pub ghost struct ImageView {
    pub url: Seq<char>,
    pub alt: Option<Seq<char>>,
    pub caption: Option<Seq<char>>,
}

impl View for ImageInfo {
    type V = ImageView;

    open spec fn view(&self) -> ImageView {
        ImageView {
            url: self.url@,
            alt: view_opt_string(self.alt),
            caption: view_opt_string(self.caption),
        }
    }
}

/// The views of a run of images.
pub open spec fn image_views(images: Seq<ImageInfo>) -> Seq<ImageView> {
    Seq::new(images.len(), |i: int| images[i]@)
}

/// The views of a run with one image more are the views of the run and
/// the view of that image.
pub proof fn lemma_image_views_push(images: Seq<ImageInfo>, image: ImageInfo)
    ensures
        image_views(images.push(image)) == image_views(images).push(image@),
{
    assert(image_views(images.push(image)) =~= image_views(images).push(image@));
}

/// The body of a successful response.
#[derive(Debug)]
pub struct ExtractResponse {
    pub markdown: String,
    pub title: Option<String>,
    pub source_url: String,
    pub images: Vec<ImageInfo>,
}

} // verus!
