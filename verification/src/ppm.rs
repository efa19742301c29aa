//! The plain-text portable pixmap of an image.

use crate::color::Color;
use crate::text::{
    integer_text, lemma_integer_text_on_one_line, lemma_line_feeds_joined,
    lemma_line_feeds_single, line_feeds, push_integer,
};
use vstd::prelude::*;
use vstd::string::StringExecFns;

verus! {

/// The three header lines: the magic `P3`, the width and the height with a
/// blank between, and the greatest channel value 255.
pub open spec fn header(width: i32, height: i32) -> Seq<char> {
    seq!['P', '3', '\n'] + integer_text(width as int) + seq![' '] + integer_text(height as int)
        + seq!['\n', '2', '5', '5', '\n']
}

/// One line for each pixel, in order: its three bytes and a line feed.
pub open spec fn pixel_lines(pixels: Seq<Color>) -> Seq<char>
    decreases pixels.len(),
{
    if pixels.len() == 0 {
        Seq::empty()
    } else {
        pixel_lines(pixels.drop_last()) + pixels.last().text() + seq!['\n']
    }
}

/// The whole text: the header, then the pixel lines.
pub open spec fn image_text(width: i32, height: i32, pixels: Seq<Color>) -> Seq<char> {
    header(width, height) + pixel_lines(pixels)
}

/// The text of the image of the given size whose pixels, row by row from
/// the top and each row from the left, are `pixels`.
pub fn ppm_text(width: i32, height: i32, pixels: &Vec<Color>) -> (text: String)
    ensures
        text@ == image_text(width, height, pixels@),
{
    let mut text = String::new();
    proof {
        reveal_strlit("P3\n");
        reveal_strlit(" ");
        reveal_strlit("\n255\n");
        reveal_strlit("\n");
    }
    text.append("P3\n");
    push_integer(&mut text, width);
    text.append(" ");
    push_integer(&mut text, height);
    text.append("\n255\n");
    assert(text@ =~= header(width, height));
    let mut k: usize = 0;
    while k < pixels.len()
        invariant
            k <= pixels.len(),
            text@ == header(width, height) + pixel_lines(pixels@.take(k as int)),
        decreases pixels.len() - k,
    {
        let ghost before = text@;
        pixels[k].push_text(&mut text);
        text.append("\n");
        proof {
            reveal_strlit("\n");
            let seen = pixels@.take(k as int + 1);
            assert(seen.drop_last() =~= pixels@.take(k as int));
            assert(seen.last() == pixels@[k as int]);
            assert(text@ =~= header(width, height) + pixel_lines(seen));
        }
        k = k + 1;
    }
    assert(pixels@.take(k as int) =~= pixels@);
    text
}

/// The pixel lines hold one line feed for each pixel.
pub proof fn lemma_pixel_lines_counted(pixels: Seq<Color>)
    ensures
        line_feeds(pixel_lines(pixels)) == pixels.len(),
    decreases pixels.len(),
{
    if pixels.len() > 0 {
        lemma_pixel_lines_counted(pixels.drop_last());
        pixels.last().lemma_text_on_one_line();
        lemma_line_feeds_single('\n');
        lemma_line_feeds_joined(pixel_lines(pixels.drop_last()), pixels.last().text());
        lemma_line_feeds_joined(
            pixel_lines(pixels.drop_last()) + pixels.last().text(),
            seq!['\n'],
        );
    }
}

/// The text of an image begins with the line `P3`, goes on with the line of
/// the width and the height and the line `255`, and holds three lines and
/// one more for each pixel.
pub proof fn lemma_image_text_lines(width: i32, height: i32, pixels: Seq<Color>)
    ensures
        image_text(width, height, pixels) == seq!['P', '3', '\n'] + (integer_text(width as int)
            + seq![' '] + integer_text(height as int)) + seq!['\n'] + seq!['2', '5', '5', '\n']
            + pixel_lines(pixels),
        line_feeds(integer_text(width as int) + seq![' '] + integer_text(height as int)) == 0,
        line_feeds(image_text(width, height, pixels)) == 3 + pixels.len(),
{
    let magic = seq!['P', '3', '\n'];
    let sizes = integer_text(width as int) + seq![' '] + integer_text(height as int);
    let depth = seq!['2', '5', '5', '\n'];
    let feed = seq!['\n'];
    assert(image_text(width, height, pixels) =~= magic + sizes + feed + depth + pixel_lines(
        pixels,
    ));
    lemma_integer_text_on_one_line(width as int);
    lemma_integer_text_on_one_line(height as int);
    lemma_line_feeds_single(' ');
    lemma_line_feeds_joined(integer_text(width as int), seq![' ']);
    lemma_line_feeds_joined(integer_text(width as int) + seq![' '], integer_text(height as int));
    lemma_line_feeds_single('\n');
    lemma_line_feeds_single('P');
    lemma_line_feeds_single('3');
    lemma_line_feeds_single('2');
    lemma_line_feeds_single('5');
    assert(magic =~= seq!['P'] + seq!['3'] + seq!['\n']);
    lemma_line_feeds_joined(seq!['P'], seq!['3']);
    lemma_line_feeds_joined(seq!['P'] + seq!['3'], seq!['\n']);
    assert(depth =~= seq!['2'] + seq!['5'] + seq!['5'] + seq!['\n']);
    lemma_line_feeds_joined(seq!['2'], seq!['5']);
    lemma_line_feeds_joined(seq!['2'] + seq!['5'], seq!['5']);
    lemma_line_feeds_joined(seq!['2'] + seq!['5'] + seq!['5'], seq!['\n']);
    lemma_pixel_lines_counted(pixels);
    lemma_line_feeds_joined(magic, sizes);
    lemma_line_feeds_joined(magic + sizes, feed);
    lemma_line_feeds_joined(magic + sizes + feed, depth);
    lemma_line_feeds_joined(magic + sizes + feed + depth, pixel_lines(pixels));
}

} // verus!
