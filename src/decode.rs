//! What the job learns from a decoded image.

use vstd::prelude::*;
use image::GenericImageView;
use crate::pipeline::JobEvent;

verus! {

#[verifier::external_type_specification]
#[verifier::external_body]
pub struct ExDynamicImage(image::DynamicImage);

/// The width and height that `GenericImageView::dimensions` gives for `img`.
pub uninterp spec fn dimensions_of(img: image::DynamicImage) -> (u32, u32);

/// The channel count that `ColorType::channel_count` gives for the colour type of `img`.
pub uninterp spec fn channels_of(img: image::DynamicImage) -> u8;

/// Relies on `GenericImageView::dimensions` of `image::DynamicImage`: the
/// width and height of the image in pixels.
#[verifier::external_body]
fn image_dimensions(img: &image::DynamicImage) -> (r: (u32, u32))
    ensures
        r == dimensions_of(*img),
{
    img.dimensions()
}

/// Relies on `image::DynamicImage::color` and `image::ColorType::channel_count`:
/// every colour type of a decoded image has one to four channels.
#[verifier::external_body]
fn image_channel_count(img: &image::DynamicImage) -> (r: u8)
    ensures
        r == channels_of(*img),
        1 <= r <= 4,
{
    img.color().channel_count()
}

/// The event that reports `img` decoded: its size and its channel count,
/// which the job then holds for all of its widths.
pub fn decoded_event(img: &image::DynamicImage) -> (e: JobEvent)
    ensures
        e == (JobEvent::Decoded {
            width: dimensions_of(*img).0,
            height: dimensions_of(*img).1,
            channels: channels_of(*img),
        }),
        1 <= channels_of(*img) <= 4,
{
    let (width, height) = image_dimensions(img);
    let channels = image_channel_count(img);
    JobEvent::Decoded { width, height, channels }
}

} // verus!
