//! PNG images with embedded view state ("bookmark").
//!
//! The complete view state is stored as JSON in an iTXt chunk, so any exported
//! image can be reopened to exactly the view that produced it. The `png` crate
//! writes and reads the format; files are bytes here.

use std::io::Cursor;

use vstd::prelude::*;
use vstd::string::StringExecFns;
use vstd::utf8::encode_utf8;

use crate::text::decimal_chars;

verus! {

/// iTXt keyword under which the bookmark JSON is stored.
pub const BOOKMARK_KEYWORD: &'static str = "fractalx-bookmark";

/// Keyword used by older exports; still accepted on load.
pub const LEGACY_BOOKMARK_KEYWORD: &'static str = "selfsame-bookmark";

/// The bytes that the decoder allows itself.
pub const DECODER_BYTES: usize = 0x400_0000;

/// The image of a PNG, as stored: the codes of its color type and bit depth,
/// and its samples.
#[derive(Debug)]
pub struct Frame {
    pub width: u32,
    pub height: u32,
    pub color: u8,
    pub depth: u8,
    pub data: Vec<u8>,
}

/// What a `Frame` holds.
#[verifier::ext_equal]
pub struct FrameView {
    pub width: u32,
    pub height: u32,
    pub color: u8,
    pub depth: u8,
    pub data: Seq<u8>,
}

impl View for Frame {
    type V = FrameView;

    open spec fn view(&self) -> FrameView {
        FrameView {
            width: self.width,
            height: self.height,
            color: self.color,
            depth: self.depth,
            data: self.data@,
        }
    }
}

/// The code of RGB samples.
pub const COLOR_RGB: u8 = 2;

/// The code of RGBA samples.
pub const COLOR_RGBA: u8 = 6;

/// The keywords of the UTF-8 text chunks ahead of the image, in order, or the
/// decoder's error, where its allowance does not end the reading.
pub uninterp spec fn png_keywords(png: Seq<u8>) -> Result<Seq<Seq<char>>, Seq<char>>;

/// The text of such a chunk, by its place, or the decoder's error, where its
/// allowance does not end the reading.
pub uninterp spec fn png_text(png: Seq<u8>, index: nat) -> Result<Seq<char>, Seq<char>>;

/// The image, or the decoder's error, where its allowance does not end the
/// reading.
pub uninterp spec fn png_frame(png: Seq<u8>) -> Result<FrameView, Seq<char>>;

/// The decoder's allowance can end the reading: for some capacity that its
/// chunk buffer may have, the allowance is used up, or the image has more
/// bytes than `most`, the greatest machine integer, can count.
pub uninterp spec fn png_tight(png: Seq<u8>, most: nat) -> bool;

/// The decoder's error where its allowance ends the reading.
pub open spec fn limit_words() -> Seq<char> {
    "limits are exceeded"@
}

/// An error that the allowance is to blame for.
pub open spec fn limited(png: Seq<u8>, error: Seq<char>) -> bool {
    error == limit_words() && png_tight(png, usize::MAX as nat)
}

/// The encoder's error for an image of no size, or for samples that do not
/// fill it.
pub open spec fn encode_error(width: u32, height: u32, samples: nat) -> Seq<char> {
    if width == 0 {
        "Zero width not allowed"@
    } else if height == 0 {
        "Zero height not allowed"@
    } else {
        "wrong data size, expected "@ + decimal_chars((4 * width * height) as nat) + " got "@
            + decimal_chars(samples)
    }
}

/// Strings by their characters.
pub open spec fn texts(strings: Seq<String>) -> Seq<Seq<char>> {
    Seq::new(strings.len(), |i: int| strings[i]@)
}

/// Strings, and an image, are viewed by what they hold.
pub proof fn law_views_hold_what_is_there(strings: Seq<String>, i: int, frame: Frame)
    requires
        0 <= i < strings.len(),
    ensures
        texts(strings).len() == strings.len(),
        texts(strings)[i] == strings[i]@,
        frame_view(Some(frame)) == Some(
            FrameView {
                width: frame.width,
                height: frame.height,
                color: frame.color,
                depth: frame.depth,
                data: frame.data@,
            },
        ),
        frame_view(None) is None,
{
}

/// A keyword that every encoding of text chunks can carry.
pub open spec fn plain_keyword(keyword: Seq<char>) -> bool {
    &&& 0 < keyword.len() < 80
    &&& forall|i: int|
        0 <= i < keyword.len() ==> ('a' <= #[trigger] keyword[i] <= 'z') || keyword[i] == '-'
}

/// An image that samples fill.
pub open spec fn filled(width: u32, height: u32, samples: nat) -> bool {
    width > 0 && height > 0 && samples == 4 * width * height
}

/// An image is written where it has a width and a height, and four samples for
/// every pixel; else the first of these that fails is named.
pub proof fn law_only_filled_images_are_written(width: u32, height: u32, samples: nat)
    ensures
        filled(width, height, samples) <==> width > 0 && height > 0 && samples == 4 * width
            * height,
        width == 0 ==> encode_error(width, height, samples) == "Zero width not allowed"@,
        width > 0 && height == 0 ==> encode_error(width, height, samples)
            == "Zero height not allowed"@,
        width > 0 && height > 0 ==> encode_error(width, height, samples)
            == "wrong data size, expected "@ + decimal_chars((4 * width * height) as nat)
            + " got "@ + decimal_chars(samples),
{
}

/// The bytes of an iTXt chunk: the keyword, five bytes of separators and
/// flags, and the text.
pub open spec fn chunk_bytes(keyword: Seq<char>, text: Seq<char>) -> nat {
    keyword.len() + 5 + encode_utf8(text).len()
}

/// A chunk and an image that the decoder reads within the bytes that it
/// allows itself. It counts the chunk, a row of the image, and whatever the
/// buffer for the chunk grew by; that buffer at least doubles, and only while
/// it is too small, so it grew by less than two chunks, whatever its capacity.
pub open spec fn readable(width: u32, keyword: Seq<char>, text: Seq<char>) -> bool {
    3 * chunk_bytes(keyword, text) + 4 * width <= DECODER_BYTES
}

/// A chunk and an image whose sizes the format can count: both are kept whole,
/// whether or not the decoder's allowance is enough to read them back.
pub open spec fn storable(width: u32, height: u32, keyword: Seq<char>, text: Seq<char>) -> bool {
    &&& chunk_bytes(keyword, text) <= 0x7FFF_FFFF
    &&& 4 * width <= 0x7FFF_FFFF
    &&& height <= 0x7FFF_FFFF
}

/// What is written is read back as long as three times the chunk and a row of
/// the image fit into 64 mebibytes.
pub proof fn law_how_much_is_read_back(width: u32, keyword: Seq<char>, text: Seq<char>)
    ensures
        readable(width, keyword, text) <==> 3 * (keyword.len() + 5 + encode_utf8(text).len()) + 4
            * width <= 64 * 1024 * 1024,
        forall|height: u32| #[trigger]
            storable(width, height, keyword, text) <==> keyword.len() + 5 + encode_utf8(text).len()
                < 0x8000_0000 && 4 * width < 0x8000_0000 && height < 0x8000_0000,
{
}

/// `png::Encoder`: an 8-bit RGBA image as PNG bytes, with one iTXt chunk.
/// An image of no size and samples that do not fill the image are refused;
/// everything else is encoded. Within the decoder's allowance the decoder
/// reads back the one chunk and the same samples, whatever the capacity of
/// its buffer; beyond the allowance it reads back the same or says that the
/// allowance is used up.
#[verifier::external_body]
pub(crate) fn encode(width: u32, height: u32, rgba: &[u8], keyword: &str, text: &str) -> (r: Result<
    Vec<u8>,
    String,
>)
    requires
        (4 * width + 1) * height <= usize::MAX,
        plain_keyword(keyword@),
    ensures
        r is Ok <==> filled(width, height, rgba@.len()),
        r matches Err(e) ==> e@ == encode_error(width, height, rgba@.len()),
        r matches Ok(file) ==> readable(width, keyword@, text@) ==> {
            &&& png_keywords(file@) == Ok::<Seq<Seq<char>>, Seq<char>>(seq![keyword@])
            &&& png_text(file@, 0) == Ok::<Seq<char>, Seq<char>>(text@)
            &&& png_frame(file@) == Ok::<FrameView, Seq<char>>(
                FrameView { width, height, color: COLOR_RGBA, depth: 8, data: rgba@ },
            )
            &&& !png_tight(file@, usize::MAX as nat)
        },
        r matches Ok(file) ==> storable(width, height, keyword@, text@) ==> {
            &&& png_keywords(file@) == Ok::<Seq<Seq<char>>, Seq<char>>(seq![keyword@])
            &&& png_text(file@, 0) == Ok::<Seq<char>, Seq<char>>(text@)
            &&& png_frame(file@) == Ok::<FrameView, Seq<char>>(
                FrameView { width, height, color: COLOR_RGBA, depth: 8, data: rgba@ },
            )
        },
{
    let mut bytes = Vec::new();
    let mut encoder = png::Encoder::new(&mut bytes, width, height);
    encoder.set_color(png::ColorType::Rgba);
    encoder.set_depth(png::BitDepth::Eight);
    encoder.add_itxt_chunk(keyword.to_owned(), text.to_owned()).map_err(|e| e.to_string())?;
    let mut writer = encoder.write_header().map_err(|e| e.to_string())?;
    writer.write_image_data(rgba).map_err(|e| e.to_string())?;
    drop(writer);
    Ok(bytes)
}

/// `png::Decoder::read_info`: the keywords of the UTF-8 text chunks. The
/// decoder charges its allowance with the capacity of its chunk buffer, which
/// is up to the allocator; so where the allowance is tight it may be used up
/// or not, and nothing is stated of which.
#[verifier::external_body]
pub(crate) fn keywords(png: &[u8]) -> (r: Result<Vec<String>, String>)
    ensures
        match r {
            Ok(words) => png_keywords(png@) == Ok::<Seq<Seq<char>>, Seq<char>>(texts(words@)),
            Err(e) => png_keywords(png@) == Err::<Seq<Seq<char>>, Seq<char>>(e@) || limited(
                png@,
                e@,
            ),
        },
{
    let reader = png::Decoder::new(Cursor::new(png)).read_info().map_err(|e| e.to_string())?;
    Ok(reader.info().utf8_text.iter().map(|chunk| chunk.keyword.clone()).collect())
}

/// `png::text_metadata::ITXtChunk::get_text`: the text of a chunk that
/// `keywords` has listed. Where the allowance is tight, listing the chunks
/// again may use it up.
#[verifier::external_body]
pub(crate) fn text_at(png: &[u8], index: usize) -> (r: Result<String, String>)
    requires
        png_keywords(png@) matches Ok(words) && index < words.len(),
    ensures
        match r {
            Ok(text) => png_text(png@, index as nat) == Ok::<Seq<char>, Seq<char>>(text@),
            Err(e) => png_text(png@, index as nat) == Err::<Seq<char>, Seq<char>>(e@) || limited(
                png@,
                e@,
            ),
        },
{
    let reader = png::Decoder::new(Cursor::new(png)).read_info().map_err(|e| e.to_string())?;
    reader.info().utf8_text[index].get_text().map_err(|e| e.to_string())
}

/// `png::Reader::next_frame`: the image, with the codes that the format has
/// for its color type and bit depth. `None` where a machine integer cannot
/// count its bytes, which depends on the machine.
#[verifier::external_body]
pub(crate) fn frame(png: &[u8]) -> (r: Result<Option<Frame>, String>)
    ensures
        match r {
            Ok(Some(f)) => png_frame(png@) == Ok::<FrameView, Seq<char>>(f@),
            Ok(None) => png_tight(png@, usize::MAX as nat),
            Err(e) => png_frame(png@) == Err::<FrameView, Seq<char>>(e@) || limited(png@, e@),
        },
{
    let mut reader = png::Decoder::new(Cursor::new(png)).read_info().map_err(|e| e.to_string())?;
    let Some(size) = reader.output_buffer_size() else { return Ok(None) };
    let mut data = vec![0u8; size];
    let info = reader.next_frame(&mut data).map_err(|e| e.to_string())?;
    data.truncate(info.buffer_size());
    let (color, depth) = (info.color_type as u8, info.bit_depth as u8);
    Ok(Some(Frame { width: info.width, height: info.height, color, depth, data }))
}

/// Whether a keyword marks a bookmark.
pub open spec fn marks_bookmark(keyword: Seq<char>) -> bool {
    keyword == BOOKMARK_KEYWORD@ || keyword == LEGACY_BOOKMARK_KEYWORD@
}

/// The first keyword that marks a bookmark.
pub open spec fn first_bookmark(words: Seq<Seq<char>>) -> Option<nat>
    decreases words.len(),
{
    if words.len() == 0 {
        None
    } else {
        match first_bookmark(words.drop_last()) {
            Some(i) => Some(i),
            None => if marks_bookmark(words.last()) {
                Some((words.len() - 1) as nat)
            } else {
                None
            },
        }
    }
}

/// The first keyword that marks a bookmark marks one, and none before it does;
/// where there is no first, none does.
pub proof fn law_the_first_bookmark_is_found(words: Seq<Seq<char>>)
    ensures
        match first_bookmark(words) {
            Some(i) => {
                &&& i < words.len()
                &&& words[i as int] == BOOKMARK_KEYWORD@ || words[i as int]
                    == LEGACY_BOOKMARK_KEYWORD@
                &&& forall|j: int|
                    0 <= j < i ==> #[trigger] words[j] != BOOKMARK_KEYWORD@ && words[j]
                        != LEGACY_BOOKMARK_KEYWORD@
            },
            None => forall|j: int|
                0 <= j < words.len() ==> #[trigger] words[j] != BOOKMARK_KEYWORD@ && words[j]
                    != LEGACY_BOOKMARK_KEYWORD@,
        },
    decreases words.len(),
{
    if words.len() > 0 {
        let front = words.drop_last();
        law_the_first_bookmark_is_found(front);
        assert(words.last() == words[words.len() - 1]);
        assert forall|j: int| 0 <= j < front.len() implies front[j] == #[trigger] words[j] by {}
    }
}

/// The place of the first text chunk that holds a bookmark.
pub fn bookmark_index(words: &Vec<String>) -> (r: Option<usize>)
    ensures
        match r {
            Some(i) => first_bookmark(texts(words@)) == Some(i as nat) && i < words@.len(),
            None => first_bookmark(texts(words@)) is None,
        },
{
    let current: String = BOOKMARK_KEYWORD.to_owned();
    let legacy: String = LEGACY_BOOKMARK_KEYWORD.to_owned();
    let mut i: usize = 0;
    while i < words.len()
        invariant
            i <= words.len(),
            current@ == BOOKMARK_KEYWORD@,
            legacy@ == LEGACY_BOOKMARK_KEYWORD@,
            first_bookmark(texts(words@.take(i as int))) is None,
        decreases words.len() - i,
    {
        let ghost (now, next) = (texts(words@.take(i as int)), texts(words@.take(i + 1)));
        assert(next.drop_last() =~= now);
        assert(next.last() == words@[i as int]@);
        if words[i] == current || words[i] == legacy {
            proof {
                lemma_first_bookmark_stays(texts(words@), next.len() as int);
                assert(texts(words@).take(next.len() as int) =~= next);
            }
            return Some(i);
        }
        i += 1;
    }
    assert(texts(words@.take(words@.len() as int)) =~= texts(words@));
    None
}

proof fn lemma_first_bookmark_stays(words: Seq<Seq<char>>, n: int)
    requires
        0 <= n <= words.len(),
    ensures
        first_bookmark(words.take(n)) is Some ==> first_bookmark(words) == first_bookmark(
            words.take(n),
        ),
    decreases words.len() - n,
{
    if n == words.len() {
        assert(words.take(n) =~= words);
    } else {
        lemma_first_bookmark_stays(words, n + 1);
        assert(words.take(n + 1).drop_last() =~= words.take(n));
    }
}

/// The bookmark JSON of a PNG, or why there is none, where the decoder's
/// allowance does not end the reading.
pub open spec fn bookmark_of(png: Seq<u8>) -> Result<Seq<char>, Seq<char>> {
    match png_keywords(png) {
        Err(e) => Err(e),
        Ok(words) => match first_bookmark(words) {
            None => Err("no FractalX bookmark found in this PNG"@),
            Some(i) => png_text(png, i),
        },
    }
}

/// A bookmark is the text of the first chunk that is marked as one, whatever
/// other chunks there are.
pub proof fn law_a_bookmark_is_the_first_marked_text(
    png: Seq<u8>,
    words: Seq<Seq<char>>,
    place: nat,
)
    requires
        png_keywords(png) == Ok::<Seq<Seq<char>>, Seq<char>>(words),
    ensures
        place < words.len() && (words[place as int] == BOOKMARK_KEYWORD@ || words[place as int]
            == LEGACY_BOOKMARK_KEYWORD@) && (forall|j: int|
            0 <= j < place ==> #[trigger] words[j] != BOOKMARK_KEYWORD@ && words[j]
                != LEGACY_BOOKMARK_KEYWORD@) ==> bookmark_of(png) == png_text(png, place),
        (forall|j: int|
            0 <= j < words.len() ==> #[trigger] words[j] != BOOKMARK_KEYWORD@ && words[j]
                != LEGACY_BOOKMARK_KEYWORD@) ==> bookmark_of(png) == Err::<Seq<char>, Seq<char>>(
            "no FractalX bookmark found in this PNG"@,
        ),
{
    law_the_first_bookmark_is_found(words);
}

/// What the decoder says of a file that it cannot read is what is said of its
/// bookmark and of its pixels.
pub proof fn law_unreadable_files_have_nothing(png: Seq<u8>)
    ensures
        png_keywords(png) matches Err(e) ==> bookmark_of(png) == Err::<Seq<char>, Seq<char>>(e),
        png_frame(png) matches Err(e) ==> pixels_of(png) == Err::<
            (u32, u32, Seq<u8>),
            Seq<char>,
        >(e),
{
}

/// Extract the bookmark JSON from a PNG. Where the decoder's allowance is
/// tight, it may be used up instead.
pub fn load_bookmark_json(png: &[u8]) -> (r: Result<String, String>)
    ensures
        match r {
            Ok(json) => bookmark_of(png@) == Ok::<Seq<char>, Seq<char>>(json@),
            Err(e) => bookmark_of(png@) == Err::<Seq<char>, Seq<char>>(e@) || limited(png@, e@),
        },
{
    let words = match keywords(png) {
        Ok(words) => words,
        Err(e) => return Err(e),
    };
    match bookmark_index(&words) {
        Some(i) => text_at(png, i),
        None => Err("no FractalX bookmark found in this PNG".to_owned()),
    }
}

/// The name of a color type by its code.
pub open spec fn color_words(color: u8) -> Seq<char> {
    if color == 0 {
        "Grayscale"@
    } else if color == 2 {
        "Rgb"@
    } else if color == 3 {
        "Indexed"@
    } else if color == 4 {
        "GrayscaleAlpha"@
    } else {
        "Rgba"@
    }
}

/// The name of a bit depth by its code.
pub open spec fn depth_words(depth: u8) -> Seq<char> {
    if depth == 1 {
        "One"@
    } else if depth == 2 {
        "Two"@
    } else if depth == 4 {
        "Four"@
    } else if depth == 8 {
        "Eight"@
    } else {
        "Sixteen"@
    }
}

fn color_name(color: u8) -> (name: &'static str)
    ensures
        name@ == color_words(color),
{
    if color == 0 {
        "Grayscale"
    } else if color == 2 {
        "Rgb"
    } else if color == 3 {
        "Indexed"
    } else if color == 4 {
        "GrayscaleAlpha"
    } else {
        "Rgba"
    }
}

fn depth_name(depth: u8) -> (name: &'static str)
    ensures
        name@ == depth_words(depth),
{
    if depth == 1 {
        "One"
    } else if depth == 2 {
        "Two"
    } else if depth == 4 {
        "Four"
    } else if depth == 8 {
        "Eight"
    } else {
        "Sixteen"
    }
}

/// RGB samples with an opaque alpha put behind each pixel; samples that fill
/// no pixel are dropped.
pub open spec fn with_alpha(rgb: Seq<u8>) -> Seq<u8> {
    Seq::new(
        (rgb.len() / 3 * 4) as nat,
        |i: int|
            if i % 4 == 3 {
                255u8
            } else {
                rgb[i / 4 * 3 + i % 4]
            },
    )
}

/// Each whole RGB pixel keeps its red, green and blue and gets an opaque
/// alpha; nothing else is added.
pub proof fn law_alpha_is_put_behind_each_pixel(rgb: Seq<u8>, pixel: int, k: int)
    requires
        0 <= pixel < rgb.len() as int / 3,
        0 <= k < 3,
    ensures
        with_alpha(rgb).len() == 4 * (rgb.len() as int / 3),
        with_alpha(rgb)[4 * pixel + k] == rgb[3 * pixel + k],
        with_alpha(rgb)[4 * pixel + 3] == 255,
{
    assert((4 * pixel + k) / 4 == pixel && (4 * pixel + k) % 4 == k);
    assert((4 * pixel + 3) % 4 == 3);
}

/// Put an opaque alpha behind each RGB pixel.
pub fn expand_rgb(rgb: &[u8]) -> (rgba: Vec<u8>)
    ensures
        rgba@ == with_alpha(rgb@),
{
    let mut rgba: Vec<u8> = Vec::new();
    let mut i: usize = 0;
    let whole: usize = rgb.len() / 3;
    while i < whole
        invariant
            i <= whole,
            whole == rgb.len() / 3,
            rgba@.len() == 4 * i,
            forall|k: int| 0 <= k < 4 * i ==> #[trigger] rgba@[k] == with_alpha(rgb@)[k],
        decreases whole - i,
    {
        rgba.push(rgb[3 * i]);
        rgba.push(rgb[3 * i + 1]);
        rgba.push(rgb[3 * i + 2]);
        rgba.push(255);
        i += 1;
    }
    assert(rgba@ =~= with_alpha(rgb@));
    rgba
}

/// What an image is as RGBA8, or why it is not.
pub open spec fn pixels_in(frame: Option<FrameView>) -> Result<(u32, u32, Seq<u8>), Seq<char>> {
    match frame {
        None => Err("PNG too large to decode"@),
        Some(f) => if f.color == COLOR_RGBA && f.depth == 8 {
            Ok((f.width, f.height, f.data))
        } else if f.color == COLOR_RGB && f.depth == 8 {
            Ok((f.width, f.height, with_alpha(f.data)))
        } else {
            Err("unsupported PNG format "@ + color_words(f.color) + "/"@ + depth_words(f.depth))
        },
    }
}

/// Images of eight bits a sample are taken, RGBA as they are and RGB with an
/// alpha, at their size; of all others the format is named.
pub proof fn law_eight_bit_color_is_taken(f: FrameView)
    ensures
        f.color == 6 && f.depth == 8 ==> pixels_in(Some(f)) == Ok::<
            (u32, u32, Seq<u8>),
            Seq<char>,
        >((f.width, f.height, f.data)),
        f.color == 2 && f.depth == 8 ==> pixels_in(Some(f)) == Ok::<
            (u32, u32, Seq<u8>),
            Seq<char>,
        >((f.width, f.height, with_alpha(f.data))),
        f.depth != 8 || (f.color != 6 && f.color != 2) ==> pixels_in(Some(f)) == Err::<
            (u32, u32, Seq<u8>),
            Seq<char>,
        >("unsupported PNG format "@ + color_words(f.color) + "/"@ + depth_words(f.depth)),
        pixels_in(None) == Err::<(u32, u32, Seq<u8>), Seq<char>>("PNG too large to decode"@),
        f.color == 0 ==> color_words(f.color) == "Grayscale"@,
        f.color == 2 ==> color_words(f.color) == "Rgb"@,
        f.color == 3 ==> color_words(f.color) == "Indexed"@,
        f.color == 4 ==> color_words(f.color) == "GrayscaleAlpha"@,
        f.color == 6 ==> color_words(f.color) == "Rgba"@,
        f.depth == 1 ==> depth_words(f.depth) == "One"@,
        f.depth == 2 ==> depth_words(f.depth) == "Two"@,
        f.depth == 4 ==> depth_words(f.depth) == "Four"@,
        f.depth == 8 ==> depth_words(f.depth) == "Eight"@,
        f.depth == 16 ==> depth_words(f.depth) == "Sixteen"@,
{
}

/// The pixels of a file are those of its image.
pub proof fn law_the_pixels_are_those_of_the_image(png: Seq<u8>, f: FrameView)
    requires
        png_frame(png) == Ok::<FrameView, Seq<char>>(f),
    ensures
        f.color == 6 && f.depth == 8 ==> pixels_of(png) == Ok::<(u32, u32, Seq<u8>), Seq<char>>(
            (f.width, f.height, f.data),
        ),
        pixels_of(png) == pixels_in(Some(f)),
{
}

/// The view of an optional image.
pub open spec fn frame_view(frame: Option<Frame>) -> Option<FrameView> {
    match frame {
        Some(f) => Some(f@),
        None => None,
    }
}

/// The pixels of a decoded image as RGBA8: 8-bit RGBA as it is, 8-bit RGB
/// expanded.
pub fn frame_rgba(frame: Option<Frame>) -> (r: Result<(u32, u32, Vec<u8>), String>)
    ensures
        match r {
            Ok(p) => pixels_in(frame_view(frame)) == Ok::<(u32, u32, Seq<u8>), Seq<char>>(
                (p.0, p.1, p.2@),
            ),
            Err(e) => pixels_in(frame_view(frame)) == Err::<(u32, u32, Seq<u8>), Seq<char>>(e@),
        },
{
    let frame = match frame {
        Some(f) => f,
        None => return Err("PNG too large to decode".to_owned()),
    };
    if frame.color == COLOR_RGBA && frame.depth == 8 {
        Ok((frame.width, frame.height, frame.data))
    } else if frame.color == COLOR_RGB && frame.depth == 8 {
        Ok((frame.width, frame.height, expand_rgb(frame.data.as_slice())))
    } else {
        let mut message: String = "unsupported PNG format ".to_owned();
        message.append(color_name(frame.color));
        message.append("/");
        message.append(depth_name(frame.depth));
        Err(message)
    }
}

/// The pixels of a PNG as RGBA8, or why there are none, where the decoder's
/// allowance does not end the reading.
pub open spec fn pixels_of(png: Seq<u8>) -> Result<(u32, u32, Seq<u8>), Seq<char>> {
    match png_frame(png) {
        Ok(frame) => pixels_in(Some(frame)),
        Err(e) => Err(e),
    }
}

/// Decode a PNG's pixels as RGBA8 (8-bit RGB is tolerated and expanded).
/// Where the decoder's allowance is tight, it may be used up instead, or the
/// image may be too large for the machine.
pub fn read_png_rgba(png: &[u8]) -> (r: Result<(u32, u32, Vec<u8>), String>)
    ensures
        match r {
            Ok(p) => pixels_of(png@) == Ok::<(u32, u32, Seq<u8>), Seq<char>>((p.0, p.1, p.2@)),
            Err(e) => {
                ||| pixels_of(png@) == Err::<(u32, u32, Seq<u8>), Seq<char>>(e@)
                ||| limited(png@, e@)
                ||| e@ == "PNG too large to decode"@ && png_tight(png@, usize::MAX as nat)
            },
        },
{
    match frame(png) {
        Ok(f) => frame_rgba(f),
        Err(e) => Err(e),
    }
}

/// An RGBA8 image as PNG bytes that carry a bookmark. What is written can be
/// read back: the bookmark is the same text, the pixels are the same bytes.
pub fn save_png(width: u32, height: u32, rgba: &[u8], bookmark_json: &str) -> (r: Result<
    Vec<u8>,
    String,
>)
    requires
        (4 * width + 1) * height <= usize::MAX,
    ensures
        r is Ok <==> filled(width, height, rgba@.len()),
        r matches Err(e) ==> e@ == encode_error(width, height, rgba@.len()),
        r matches Ok(file) ==> readable(width, BOOKMARK_KEYWORD@, bookmark_json@) ==> {
            &&& bookmark_of(file@) == Ok::<Seq<char>, Seq<char>>(bookmark_json@)
            &&& pixels_of(file@) == Ok::<(u32, u32, Seq<u8>), Seq<char>>((width, height, rgba@))
            &&& !png_tight(file@, usize::MAX as nat)
        },
        r matches Ok(file) ==> storable(width, height, BOOKMARK_KEYWORD@, bookmark_json@) ==> {
            &&& bookmark_of(file@) == Ok::<Seq<char>, Seq<char>>(bookmark_json@)
            &&& pixels_of(file@) == Ok::<(u32, u32, Seq<u8>), Seq<char>>((width, height, rgba@))
        },
{
    proof {
        reveal_strlit("fractalx-bookmark");
        let words = seq![BOOKMARK_KEYWORD@];
        assert(words.drop_last() =~= Seq::<Seq<char>>::empty());
        assert(first_bookmark(words.drop_last()) is None);
        assert(first_bookmark(words) == Some(0nat));
    }
    encode(width, height, rgba, BOOKMARK_KEYWORD, bookmark_json)
}

} // verus!
