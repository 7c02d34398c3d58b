//! Names from what an image shows: the image made ready for a vision model,
//! the request to the model, and what becomes of its answers.
//!
//! Sending the request is left to the caller. Each outcome of a send is
//! handed to `attempt_ai_request`, which says whether to send once more or
//! what the name is.

use crate::case::{
    case_style_from_lowercase, convert_case, converted, style_of_name, unicode_lowercase, CaseStyle,
};
use crate::exif::{date_text, format_system_time, Timestamp};
use crate::numeral::{decimal, push_decimal};
use crate::text::{
    ascii_lower_seq, chars_of, contains, contains_text, is_ascii_text, push_all, string_of,
    trim_range, trimmed,
};
use vstd::prelude::*;

verus! {

/// A decoded image.
#[verifier::external_type_specification]
#[verifier::external_body]
pub struct ExDynamicImage(::image::DynamicImage);

/// The error that decoding or encoding an image gives.
#[verifier::external_type_specification]
#[verifier::external_body]
pub struct ExImageError(::image::ImageError);

/// An image file format.
#[verifier::external_type_specification]
#[verifier::external_body]
pub struct ExImageFormat(::image::ImageFormat);

/// No side of an image that is sent to the model is longer than this.
pub const MAX_IMAGE_SIDE: u32 = 1024;

/// How many seconds a request to the model may take.
pub const REQUEST_TIMEOUT_SECONDS: u64 = 30;

/// Whether the date that stands in for a name of the model is the day alone:
/// it is not, it is written with the time.
pub const FALLBACK_DATE_ONLY: bool = false;

/// How many milliseconds to wait before the request is sent again.
pub const RETRY_DELAY_MILLIS: u64 = 2000;

/// What is sent to the model.
pub struct OllamaRequest {
    pub model: String,
    pub prompt: String,
    pub images: Vec<String>,
    pub stream: bool,
}

/// The answer of the model, as far as it is read.
pub struct OllamaResponse {
    pub response: String,
}

/// Why an image could not be made ready.
pub enum ImageFailure {
    /// The file's extension names no image format.
    UnknownExtension,
    /// The file does not hold an image of the format that its extension names.
    InvalidFormat,
    /// The image is too large to be written as text.
    TooLarge,
    /// Anything else, with the message of the error.
    Other(String),
}

/// What sending the request gave.
pub enum SendOutcome {
    /// The request did not reach the model, or no answer came back.
    TransportError,
    /// An answer came back: whether its status reports success, and what it
    /// holds, which is nothing where it could not be read.
    Reply { success: bool, response: Option<OllamaResponse> },
}

/// What to do after a send.
pub enum RetryStep {
    /// Wait, then send the request again.
    Retry { wait_millis: u64 },
    /// The exchange is over, with this name or without one.
    Done { name: Option<String> },
}

/// A `RetryStep` with its name as a sequence of characters.
pub enum RetryStepView {
    Retry { wait_millis: u64 },
    Done { name: Option<Seq<char>> },
}

impl View for RetryStep {
    type V = RetryStepView;

    open spec fn view(&self) -> RetryStepView {
        match *self {
            RetryStep::Retry { wait_millis } => RetryStepView::Retry { wait_millis },
            RetryStep::Done { name } => RetryStepView::Done {
                name: match name {
                    Some(n) => Some(n@),
                    None => None,
                },
            },
        }
    }
}

/// The text that the Base64 standard alphabet with padding gives for bytes.
pub uninterp spec fn base64_standard(bytes: Seq<u8>) -> Seq<char>;

/// Whether a file extension in lowercase names an image format.
pub open spec fn is_format_extension(ext: Seq<char>) -> bool {
    ||| ext == "avif"@
    ||| ext == "jpg"@
    ||| ext == "jpeg"@
    ||| ext == "jfif"@
    ||| ext == "png"@
    ||| ext == "apng"@
    ||| ext == "gif"@
    ||| ext == "webp"@
    ||| ext == "tif"@
    ||| ext == "tiff"@
    ||| ext == "tga"@
    ||| ext == "dds"@
    ||| ext == "bmp"@
    ||| ext == "ico"@
    ||| ext == "hdr"@
    ||| ext == "exr"@
    ||| ext == "pbm"@
    ||| ext == "pam"@
    ||| ext == "ppm"@
    ||| ext == "pgm"@
    ||| ext == "pnm"@
    ||| ext == "ff"@
    ||| ext == "qoi"@
}

/// Whether a file extension names an image format, whatever the case of its
/// letters.
pub open spec fn names_image_format(extension: Seq<char>) -> bool {
    is_format_extension(ascii_lower_seq(extension))
}

/// All that a decoded image holds: its pixels, their layout and its size.
pub uninterp spec fn image_data(image: ::image::DynamicImage) -> Seq<u8>;

/// The number that stands for an image format.
pub uninterp spec fn format_number(format: ::image::ImageFormat) -> u8;

/// The number of the format that `image::ImageFormat::from_extension` gives
/// for an extension in lowercase.
pub uninterp spec fn extension_format(ext: Seq<char>) -> u8;

/// The message of an image error, as its `Display` writes it.
pub uninterp spec fn error_text(error: ::image::ImageError) -> Seq<char>;

/// What `image::ImageReader::decode` makes of bytes taken to be of the format
/// with the given number: what the image holds, or the message of the error.
pub uninterp spec fn decoded_data(bytes: Seq<u8>, format: u8) -> Result<Seq<u8>, Seq<char>>;

/// Width and height of an image, by what it holds.
pub uninterp spec fn data_size(data: Seq<u8>) -> (u32, u32);

/// What `image::DynamicImage::write_to` writes of an image as JPEG: the bytes,
/// or the message of the error.
pub uninterp spec fn jpeg_data(data: Seq<u8>) -> Result<Seq<u8>, Seq<char>>;

/// `image::ImageFormat::from_extension`: the format that a file extension
/// names, if it names one. It names one exactly where its ASCII lowercase
/// form is one of the extensions that the function lists, and which one it
/// names depends on that lowercase form alone.
#[verifier::external_body]
fn image_format(extension: &str) -> (format: Option<::image::ImageFormat>)
    ensures
        format is Some <==> names_image_format(extension@),
        format matches Some(f) ==> format_number(f) == extension_format(
            ascii_lower_seq(extension@),
        ),
{
    ::image::ImageFormat::from_extension(extension)
}

/// `image::ImageReader::decode` on bytes that are taken to be of the given
/// format: the image, or the error that the decoder reports. Both depend on
/// the bytes and the format alone.
#[verifier::external_body]
fn decode_image(bytes: &[u8], format: ::image::ImageFormat) -> (decoded: Result<
    ::image::DynamicImage,
    ::image::ImageError,
>)
    ensures
        match decoded {
            Ok(image) => decoded_data(bytes@, format_number(format)) == Ok::<
                Seq<u8>,
                Seq<char>,
            >(image_data(image)),
            Err(error) => decoded_data(bytes@, format_number(format)) == Err::<
                Seq<u8>,
                Seq<char>,
            >(error_text(error)),
        },
{
    ::image::ImageReader::with_format(std::io::Cursor::new(bytes), format).decode()
}

/// `image::GenericImageView::dimensions`: width and height of the image.
#[verifier::external_body]
fn image_dimensions(image: &::image::DynamicImage) -> (size: (u32, u32))
    ensures
        size == data_size(image_data(*image)),
{
    ::image::GenericImageView::dimensions(image)
}

/// `image::DynamicImage::resize` with the Lanczos filter: the image scaled to
/// fit the given width and height. No side of the result is longer than asked
/// for, a side of zero being taken as one. Nothing is said of its pixels: the
/// filter works in floating point, and machines may differ in what they give.
#[verifier::external_body]
fn resize_image(image: &::image::DynamicImage, width: u32, height: u32) -> (scaled:
    ::image::DynamicImage)
    ensures
        data_size(image_data(scaled)).0 <= width || data_size(image_data(scaled)).0 == 1,
        data_size(image_data(scaled)).1 <= height || data_size(image_data(scaled)).1 == 1,
{
    image.resize(width, height, ::image::imageops::FilterType::Lanczos3)
}

/// `image::DynamicImage::write_to` for JPEG: the bytes of the encoded image,
/// or the error that the encoder reports. Both depend on the image alone.
#[verifier::external_body]
fn encode_image_to_jpeg(image: &::image::DynamicImage) -> (encoded: Result<
    Vec<u8>,
    ::image::ImageError,
>)
    ensures
        match encoded {
            Ok(jpeg) => jpeg_data(image_data(*image)) == Ok::<Seq<u8>, Seq<char>>(jpeg@),
            Err(error) => jpeg_data(image_data(*image)) == Err::<Seq<u8>, Seq<char>>(
                error_text(error),
            ),
        },
{
    let mut buffer = Vec::new();
    image.write_to(&mut std::io::Cursor::new(&mut buffer), ::image::ImageFormat::Jpeg)?;
    Ok(buffer)
}

/// The message of an image error, as its `Display` writes it.
#[verifier::external_body]
fn image_error_message(error: &::image::ImageError) -> (message: String)
    ensures
        message@ == error_text(*error),
{
    error.to_string()
}

/// `base64::Engine::encode` of the standard engine: the bytes as Base64 text.
/// The engine fails where the length of the text does not fit in `usize`.
#[verifier::external_body]
fn base64_encode(bytes: &Vec<u8>) -> (text: String)
    requires
        bytes@.len() / 3 < usize::MAX / 4,
    ensures
        text@ == base64_standard(bytes@),
{
    ::base64::Engine::encode(&::base64::engine::general_purpose::STANDARD, bytes)
}

/// The longer of two sides.
pub open spec fn longer_side(width: int, height: int) -> int {
    if width >= height {
        width
    } else {
        height
    }
}

/// Width and height of an image made to fit a square of side `max_size`: as
/// they are where both fit, else both scaled by `max_size` over the longer
/// side, rounded down.
pub open spec fn resized(width: int, height: int, max_size: int) -> (int, int) {
    let longer = longer_side(width, height);
    if longer <= max_size {
        (width, height)
    } else {
        ((width * max_size) / longer, (height * max_size) / longer)
    }
}

/// Whether the message of an image error tells of data that is no image of
/// the expected format.
pub open spec fn tells_invalid_format(message: Seq<char>) -> bool {
    contains_text(message, "invalid JPEG format"@) || contains_text(message, "Format error"@)
}

/// The failure that stands for an image error with the given message:
/// `InvalidFormat` where the message tells of an invalid format, else `Other`
/// with the message.
pub open spec fn is_failure_of(failure: ImageFailure, message: Seq<char>) -> bool {
    if tells_invalid_format(message) {
        failure is InvalidFormat
    } else {
        failure matches ImageFailure::Other(m) && m@ == message
    }
}

/// No side is longer than `MAX_IMAGE_SIDE`.
pub open spec fn fits_model(size: (u32, u32)) -> bool {
    size.0 <= MAX_IMAGE_SIDE && size.1 <= MAX_IMAGE_SIDE
}

/// `jpeg` is what encoding the image that holds `data` as JPEG comes to: the
/// bytes, or the failure that stands for the encoder's error.
pub open spec fn is_jpeg_of(jpeg: Result<Vec<u8>, ImageFailure>, data: Seq<u8>) -> bool {
    match jpeg_data(data) {
        Ok(bytes) => (jpeg matches Ok(j) && j@ == bytes),
        Err(message) => (jpeg matches Err(failure) && is_failure_of(failure, message)),
    }
}

/// `text` is what writing the image that holds `data` for the model comes to:
/// the Base64 form of its JPEG bytes, `TooLarge` where they are too many to be
/// written so, or the failure that stands for the encoder's error.
pub open spec fn is_image_text_of(text: Result<String, ImageFailure>, data: Seq<u8>) -> bool {
    match jpeg_data(data) {
        Ok(bytes) => if bytes.len() / 3 < usize::MAX / 4 {
            text matches Ok(t) && t@ == base64_standard(bytes)
        } else {
            text matches Err(failure) && failure is TooLarge
        },
        Err(message) => (text matches Err(failure) && is_failure_of(failure, message)),
    }
}

/// The first `max` characters of `s`, or all of `s` where it has no more.
pub open spec fn truncated(s: Seq<char>, max: nat) -> Seq<char> {
    if s.len() > max {
        s.take(max as int)
    } else {
        s
    }
}

/// The name that the text of an answer gives: nothing where the text is empty
/// once trimmed, else the trimmed text in the given style, cut to `max_chars`
/// characters.
pub open spec fn name_of_text(text: Seq<char>, style: CaseStyle, max_chars: nat) -> Option<
    Seq<char>,
> {
    if trimmed(text).len() == 0 {
        None
    } else {
        Some(truncated(converted(trimmed(text), style), max_chars))
    }
}

/// The name that an answer gives: nothing unless its status reports success
/// and it could be read.
pub open spec fn name_of_reply(
    success: bool,
    response: Option<OllamaResponse>,
    style: CaseStyle,
    max_chars: nat,
) -> Option<Seq<char>> {
    match response {
        Some(answer) => if success {
            name_of_text(answer.response@, style, max_chars)
        } else {
            None
        },
        None => None,
    }
}

/// What follows the outcome of the send with the given number, counted from
/// 1: an answer ends the exchange with its name; a failed first send is
/// followed by a second one after the delay; any other failed send ends the
/// exchange without a name.
pub open spec fn next_step(attempt: nat, outcome: SendOutcome, style: CaseStyle, max_chars: nat) -> RetryStepView {
    match outcome {
        SendOutcome::Reply { success, response } => RetryStepView::Done {
            name: name_of_reply(success, response, style, max_chars),
        },
        SendOutcome::TransportError => if attempt == 1 {
            RetryStepView::Retry { wait_millis: RETRY_DELAY_MILLIS }
        } else {
            RetryStepView::Done { name: None }
        },
    }
}

/// The name at the end of an exchange in which the sends, from the one with
/// the number `attempt` on, have the given outcomes; nothing where the
/// outcomes end before the exchange does.
pub open spec fn exchange_from(
    attempt: nat,
    outcomes: Seq<SendOutcome>,
    style: CaseStyle,
    max_chars: nat,
) -> Option<Seq<char>>
    decreases outcomes.len(),
{
    if outcomes.len() == 0 {
        None
    } else {
        match next_step(attempt, outcomes[0], style, max_chars) {
            RetryStepView::Done { name } => name,
            RetryStepView::Retry { .. } => exchange_from(
                attempt + 1,
                outcomes.drop_first(),
                style,
                max_chars,
            ),
        }
    }
}

/// How many of the outcomes an exchange uses, that is how often the request
/// is sent.
pub open spec fn sends_from(attempt: nat, outcomes: Seq<SendOutcome>, style: CaseStyle, max_chars: nat) -> nat
    decreases outcomes.len(),
{
    if outcomes.len() == 0 {
        0
    } else {
        match next_step(attempt, outcomes[0], style, max_chars) {
            RetryStepView::Done { .. } => 1,
            RetryStepView::Retry { .. } => 1 + sends_from(
                attempt + 1,
                outcomes.drop_first(),
                style,
                max_chars,
            ),
        }
    }
}

/// The words that ask the model for a name, `lowered` being the name of the
/// case style in lowercase: a name that holds `snake` adds a hint on
/// underscores.
pub open spec fn prompt_for(
    case: Seq<char>,
    lowered: Seq<char>,
    max_chars: nat,
    language: Seq<char>,
) -> Seq<char> {
    let hint = if contains_text(lowered, "snake"@) {
        " (separate_words_with_underscores)"@
    } else {
        Seq::empty()
    };
    "Look at this image and generate a descriptive filename.\n\nRules:\n- Use "@ + case
        + " case format"@ + hint + "\n- Maximum "@ + decimal(max_chars) + " characters\n- "@
        + language
        + " language only\n- No file extension\n- No special characters except underscores\n- Describe the main subject/action\n- Be concise and specific\n\nRespond with ONLY the filename, nothing else."@
}

/// The words that ask the model for a name.
pub open spec fn prompt_text(case: Seq<char>, max_chars: nat, language: Seq<char>) -> Seq<char> {
    prompt_for(case, unicode_lowercase(case), max_chars, language)
}

/// The content part of a name where a model was asked: the model's name, or
/// else the date, or else the present time.
pub open spec fn content_or_date(
    ai_name: Option<Seq<char>>,
    date: Option<Seq<char>>,
    now: Timestamp,
) -> Seq<char> {
    match ai_name {
        Some(name) => name,
        None => match date {
            Some(d) => d,
            None => date_text(now, false),
        },
    }
}

/// Width and height of an image made to fit a square of side `max_size`.
pub fn calculate_resize_dimensions(width: u32, height: u32, max_size: u32) -> (size: (u32, u32))
    ensures
        (size.0 as int, size.1 as int) == resized(width as int, height as int, max_size as int),
{
    let longer = if width >= height {
        width
    } else {
        height
    };
    if longer <= max_size {
        (width, height)
    } else {
        proof {
            lemma_scaled_side(width as int, longer as int, max_size as int);
            lemma_scaled_side(height as int, longer as int, max_size as int);
        }
        let new_width: u64 = (width as u64 * max_size as u64) / (longer as u64);
        let new_height: u64 = (height as u64 * max_size as u64) / (longer as u64);
        (new_width as u32, new_height as u32)
    }
}

/// A side scaled down is no longer than the bound.
proof fn lemma_scaled_side(side: int, longer: int, max_size: int)
    requires
        0 <= side <= longer,
        0 < longer <= 0xffff_ffff,
        0 <= max_size <= 0xffff_ffff,
    ensures
        0 <= side * max_size <= 0xffff_ffff * 0xffff_ffff,
        0 <= (side * max_size) / longer <= max_size,
        side == longer ==> (side * max_size) / longer == max_size,
{
    assert(0 <= side * max_size <= 0xffff_ffff * 0xffff_ffff) by (nonlinear_arith)
        requires
            0 <= side <= 0xffff_ffff,
            0 <= max_size <= 0xffff_ffff,
    ;
    assert(side * max_size <= max_size * longer) by (nonlinear_arith)
        requires
            0 <= side <= longer,
            0 <= max_size,
    ;
    assert(0 <= (side * max_size) / longer <= max_size) by (nonlinear_arith)
        requires
            0 <= side * max_size <= max_size * longer,
            0 < longer,
    ;
    assert(side == longer ==> (side * max_size) / longer == max_size) by (nonlinear_arith)
        requires
            0 < longer,
    ;
}

/// An image scaled to fit has no side longer than the bound, and where it was
/// scaled down its longer side is as long as the bound.
pub proof fn lemma_resized_fits(width: int, height: int, max_size: int)
    requires
        0 <= width <= 0xffff_ffff,
        0 <= height <= 0xffff_ffff,
        0 <= max_size <= 0xffff_ffff,
    ensures
        longer_side(resized(width, height, max_size).0, resized(width, height, max_size).1)
            <= max_size,
        longer_side(width, height) > max_size ==> longer_side(
            resized(width, height, max_size).0,
            resized(width, height, max_size).1,
        ) == max_size,
        longer_side(width, height) <= max_size ==> resized(width, height, max_size) == (
            width,
            height,
        ),
{
    let longer = longer_side(width, height);
    if longer > max_size {
        lemma_scaled_side(width, longer, max_size);
        lemma_scaled_side(height, longer, max_size);
    }
}

/// The failure that the message of an image error stands for.
pub fn classify_image_error(message: String) -> (failure: ImageFailure)
    ensures
        is_failure_of(failure, message@),
{
    let chars = chars_of(message.as_str());
    if contains(&chars, &chars_of("invalid JPEG format")) || contains(
        &chars,
        &chars_of("Format error"),
    ) {
        ImageFailure::InvalidFormat
    } else {
        ImageFailure::Other(message)
    }
}

/// The bytes of an image as Base64 text, unless they are too many.
pub fn encode_image_text(jpeg: &Vec<u8>) -> (text: Result<String, ImageFailure>)
    ensures
        match text {
            Ok(t) => jpeg@.len() / 3 < usize::MAX / 4 && t@ == base64_standard(jpeg@),
            Err(failure) => jpeg@.len() / 3 >= usize::MAX / 4 && failure is TooLarge,
        },
{
    if jpeg.len() / 3 < usize::MAX / 4 {
        Ok(base64_encode(jpeg))
    } else {
        Err(ImageFailure::TooLarge)
    }
}

/// The JPEG bytes of an image, or the failure that stands for the error of
/// the encoder.
pub fn encode_scaled(scaled: &::image::DynamicImage) -> (jpeg: Result<Vec<u8>, ImageFailure>)
    ensures
        match jpeg_data(image_data(*scaled)) {
            Ok(bytes) => (jpeg matches Ok(j) && j@ == bytes),
            Err(message) => (jpeg matches Err(failure) && is_failure_of(failure, message)),
        },
{
    match encode_image_to_jpeg(scaled) {
        Ok(jpeg) => Ok(jpeg),
        Err(error) => Err(failure_of(&error)),
    }
}

/// The image in the bytes of a file, scaled down to `MAX_IMAGE_SIDE` and
/// encoded as JPEG.
///
/// An extension that names no image format gives `UnknownExtension`, and
/// nothing else does. With any other extension, bytes that cannot be decoded
/// give the failure that stands for the decoder's error. Bytes that can be
/// decoded give what encoding some image comes to, no side of which is longer
/// than `MAX_IMAGE_SIDE`: which image is left open, since the scaling filter
/// works in floating point.
pub fn resize_image_for_ai(bytes: &[u8], extension: &str) -> (jpeg: Result<Vec<u8>, ImageFailure>)
    ensures
        !names_image_format(extension@) <==> jpeg == Err::<Vec<u8>, ImageFailure>(
            ImageFailure::UnknownExtension,
        ),
        names_image_format(extension@) ==> match decoded_data(
            bytes@,
            extension_format(ascii_lower_seq(extension@)),
        ) {
            Ok(data) => exists|scaled: Seq<u8>|
                fits_model(data_size(scaled)) && #[trigger] is_jpeg_of(jpeg, scaled),
            Err(message) => (jpeg matches Err(failure) && is_failure_of(failure, message)),
        },
{
    let format = match image_format(extension) {
        Some(f) => f,
        None => {
            return Err(ImageFailure::UnknownExtension);
        },
    };
    let image = match decode_image(bytes, format) {
        Ok(image) => image,
        Err(error) => {
            return Err(failure_of(&error));
        },
    };
    let (width, height) = image_dimensions(&image);
    let (new_width, new_height) = calculate_resize_dimensions(width, height, MAX_IMAGE_SIDE);
    proof {
        lemma_resized_fits(width as int, height as int, MAX_IMAGE_SIDE as int);
    }
    let scaled = resize_image(&image, new_width, new_height);
    let jpeg = encode_scaled(&scaled);
    assert(fits_model(data_size(image_data(scaled))) && is_jpeg_of(jpeg, image_data(scaled)));
    jpeg
}

/// The failure that an image error stands for, by its message.
fn failure_of(error: &::image::ImageError) -> (failure: ImageFailure)
    ensures
        is_failure_of(failure, error_text(*error)),
{
    classify_image_error(image_error_message(error))
}

/// The image in the bytes of a file as the model takes it: scaled down,
/// encoded as JPEG and written as Base64 text.
///
/// An extension that names no image format gives `UnknownExtension`, and
/// nothing else does. With any other extension, bytes that cannot be decoded
/// give the failure that stands for the decoder's error. Bytes that can be
/// decoded give what writing some image for the model comes to, no side of
/// which is longer than `MAX_IMAGE_SIDE`.
pub fn prepare_image_for_ai(bytes: &[u8], extension: &str) -> (text: Result<String, ImageFailure>)
    ensures
        !names_image_format(extension@) <==> text == Err::<String, ImageFailure>(
            ImageFailure::UnknownExtension,
        ),
        names_image_format(extension@) ==> match decoded_data(
            bytes@,
            extension_format(ascii_lower_seq(extension@)),
        ) {
            Ok(data) => exists|scaled: Seq<u8>|
                fits_model(data_size(scaled)) && #[trigger] is_image_text_of(text, scaled),
            Err(message) => (text matches Err(failure) && is_failure_of(failure, message)),
        },
{
    let jpeg = resize_image_for_ai(bytes, extension);
    let ghost decoded = decoded_data(bytes@, extension_format(ascii_lower_seq(extension@)));
    let text = match jpeg {
        Ok(data) => encode_image_text(&data),
        Err(failure) => Err(failure),
    };
    proof {
        if names_image_format(extension@) && decoded is Ok {
            let scaled = choose|scaled: Seq<u8>|
                fits_model(data_size(scaled)) && #[trigger] is_jpeg_of(jpeg, scaled);
            assert(fits_model(data_size(scaled)) && is_image_text_of(text, scaled));
        }
    }
    text
}

/// The words that ask the model for a name in the given case style and
/// language, of `max_chars` characters at most.
pub fn build_ai_prompt(case: &str, max_chars: u32, language: &str) -> (prompt: String)
    ensures
        prompt@ == prompt_text(case@, max_chars as nat, language@),
        is_ascii_text(case@) ==> prompt@ == prompt_for(
            case@,
            ascii_lower_seq(case@),
            max_chars as nat,
            language@,
        ),
{
    let lowered = case.to_lowercase();
    let snake = contains(&chars_of(lowered.as_str()), &chars_of("snake"));
    let mut text = chars_of(
        "Look at this image and generate a descriptive filename.\n\nRules:\n- Use ",
    );
    push_all(&mut text, &chars_of(case));
    push_all(&mut text, &chars_of(" case format"));
    if snake {
        push_all(&mut text, &chars_of(" (separate_words_with_underscores)"));
    }
    push_all(&mut text, &chars_of("\n- Maximum "));
    push_decimal(&mut text, max_chars as u64);
    push_all(&mut text, &chars_of(" characters\n- "));
    push_all(&mut text, &chars_of(language));
    push_all(
        &mut text,
        &chars_of(
            " language only\n- No file extension\n- No special characters except underscores\n- Describe the main subject/action\n- Be concise and specific\n\nRespond with ONLY the filename, nothing else.",
        ),
    );
    assert(text@ =~= prompt_text(case@, max_chars as nat, language@));
    string_of(&text)
}

/// The request that asks the model to name the image.
pub fn build_ai_request(
    base64_image: String,
    model: &str,
    max_chars: u32,
    case: &str,
    language: &str,
) -> (request: OllamaRequest)
    ensures
        request.model@ == model@,
        request.prompt@ == prompt_text(case@, max_chars as nat, language@),
        is_ascii_text(case@) ==> request.prompt@ == prompt_for(
            case@,
            ascii_lower_seq(case@),
            max_chars as nat,
            language@,
        ),
        request.images@ == seq![base64_image],
        !request.stream,
{
    let prompt = build_ai_prompt(case, max_chars, language);
    let mut images: Vec<String> = Vec::new();
    images.push(base64_image);
    OllamaRequest { model: model.to_owned(), prompt, images, stream: false }
}

/// The first `max_chars` characters of the text, or all of it where it has
/// no more.
pub fn truncate_chars(text: &str, max_chars: u32) -> (r: String)
    ensures
        r@ == truncated(text@, max_chars as nat),
{
    let chars = chars_of(text);
    let max: usize = max_chars as usize;
    if chars.len() > max {
        let mut kept: Vec<char> = Vec::new();
        let mut i: usize = 0;
        while i < max
            invariant
                i <= max < chars.len(),
                kept@ == chars@.take(i as int),
            decreases max - i,
        {
            kept.push(chars[i]);
            assert(chars@.take(i + 1) == chars@.take(i as int).push(chars@[i as int]));
            i += 1;
        }
        string_of(&kept)
    } else {
        string_of(&chars)
    }
}

/// The name that the text of an answer gives.
pub fn name_from_text(text: &str, style: CaseStyle, max_chars: u32) -> (name: Option<String>)
    ensures
        crate::exif::optional_view(name) == name_of_text(text@, style, max_chars as nat),
{
    let chars = chars_of(text);
    assert(chars@.subrange(0, chars@.len() as int) == chars@);
    let kept = trim_range(&chars, 0, chars.len());
    if kept.len() == 0 {
        return None;
    }
    let filename = convert_case(string_of(&kept).as_str(), style);
    Some(truncate_chars(filename.as_str(), max_chars))
}

/// The name that an answer gives, the case style being known.
pub fn name_from_reply(
    success: bool,
    response: Option<OllamaResponse>,
    style: CaseStyle,
    max_chars: u32,
) -> (name: Option<String>)
    ensures
        crate::exif::optional_view(name) == name_of_reply(
            success,
            response,
            style,
            max_chars as nat,
        ),
{
    match response {
        Some(answer) => if success {
            name_from_text(answer.response.as_str(), style, max_chars)
        } else {
            None
        },
        None => None,
    }
}

/// The name that an answer gives: nothing unless its status reports success
/// and it could be read; else the trimmed text of the answer in the style
/// that `case` names, cut to `max_chars` characters, and nothing where the
/// trimmed text is empty.
pub fn process_ai_response(
    success: bool,
    response: Option<OllamaResponse>,
    case: &str,
    max_chars: u32,
) -> (name: Option<String>)
    ensures
        crate::exif::optional_view(name) == name_of_reply(
            success,
            response,
            style_of_name(unicode_lowercase(case@)),
            max_chars as nat,
        ),
        is_ascii_text(case@) ==> crate::exif::optional_view(name) == name_of_reply(
            success,
            response,
            style_of_name(ascii_lower_seq(case@)),
            max_chars as nat,
        ),
{
    let style = case_style_from_lowercase(case.to_lowercase().as_str());
    name_from_reply(success, response, style, max_chars)
}

/// What follows the outcome of the send with the given number, the case style
/// being known.
pub fn retry_step(attempt: u32, outcome: SendOutcome, style: CaseStyle, max_chars: u32) -> (step:
    RetryStep)
    ensures
        step@ == next_step(attempt as nat, outcome, style, max_chars as nat),
{
    match outcome {
        SendOutcome::Reply { success, response } => RetryStep::Done {
            name: name_from_reply(success, response, style, max_chars),
        },
        SendOutcome::TransportError => if attempt == 1 {
            RetryStep::Retry { wait_millis: RETRY_DELAY_MILLIS }
        } else {
            RetryStep::Done { name: None }
        },
    }
}

/// What follows the outcome of the send with the given number, counted from
/// 1: whether to send once more, or the name that the exchange ends with.
pub fn attempt_ai_request(attempt: u32, outcome: SendOutcome, case: &str, max_chars: u32) -> (step:
    RetryStep)
    ensures
        step@ == next_step(
            attempt as nat,
            outcome,
            style_of_name(unicode_lowercase(case@)),
            max_chars as nat,
        ),
        is_ascii_text(case@) ==> step@ == next_step(
            attempt as nat,
            outcome,
            style_of_name(ascii_lower_seq(case@)),
            max_chars as nat,
        ),
{
    let style = case_style_from_lowercase(case.to_lowercase().as_str());
    retry_step(attempt, outcome, style, max_chars)
}

/// The content part of a name where a model was asked: the model's name, or
/// else the date, or else the present time.
pub fn generate_ai_content(ai_name: Option<String>, date: Option<String>, now: &Timestamp) -> (content:
    String)
    ensures
        content@ == content_or_date(
            crate::exif::optional_view(ai_name),
            crate::exif::optional_view(date),
            *now,
        ),
{
    match ai_name {
        Some(name) => name,
        None => match date {
            Some(d) => d,
            None => format_system_time(now, false),
        },
    }
}

/// A name is never longer than the bound, and a longer text is cut to the
/// bound exactly, character by character.
pub proof fn lemma_truncated_length(s: Seq<char>, max: nat)
    ensures
        truncated(s, max).len() <= max,
        s.len() > max ==> truncated(s, max).len() == max,
        s.len() <= max ==> truncated(s, max) == s,
        forall|i: int| 0 <= i < truncated(s, max).len() ==> truncated(s, max)[i] == s[i],
{
}

/// An answer's name is never longer than the bound.
pub proof fn lemma_name_within_bound(text: Seq<char>, style: CaseStyle, max_chars: nat)
    ensures
        name_of_text(text, style, max_chars) matches Some(name) ==> name.len() <= max_chars,
{
    lemma_truncated_length(converted(trimmed(text), style), max_chars);
}

/// A request that fails once and is then answered gives the name of that
/// answer, and one that fails twice gives none; an answer to the first send
/// gives its name at once. The request is sent twice at most.
pub proof fn lemma_retry_once(
    success: bool,
    response: Option<OllamaResponse>,
    later: Seq<SendOutcome>,
    style: CaseStyle,
    max_chars: nat,
)
    ensures
        exchange_from(
            1,
            seq![SendOutcome::TransportError, SendOutcome::Reply { success, response }] + later,
            style,
            max_chars,
        ) == name_of_reply(success, response, style, max_chars),
        exchange_from(
            1,
            seq![SendOutcome::TransportError, SendOutcome::TransportError] + later,
            style,
            max_chars,
        ) is None,
        exchange_from(1, seq![SendOutcome::Reply { success, response }] + later, style, max_chars)
            == name_of_reply(success, response, style, max_chars),
{
    reveal_with_fuel(exchange_from, 3);
    let reply = SendOutcome::Reply { success, response };
    let failed = SendOutcome::TransportError;
    let failed_then_answered = seq![failed, reply] + later;
    assert(failed_then_answered[0] == failed);
    assert(failed_then_answered.drop_first().len() > 0);
    assert(failed_then_answered.drop_first()[0] == reply);
    assert(next_step(1, failed, style, max_chars) is Retry);
    assert(next_step(2, reply, style, max_chars) == RetryStepView::Done {
        name: name_of_reply(success, response, style, max_chars),
    });
    let failed_twice = seq![failed, failed] + later;
    assert(failed_twice[0] == failed);
    assert(failed_twice.drop_first().len() > 0);
    assert(failed_twice.drop_first()[0] == failed);
    assert(next_step(2, failed, style, max_chars) == RetryStepView::Done { name: None });
    let answered = seq![reply] + later;
    assert(answered[0] == reply);
    assert(next_step(1, reply, style, max_chars) == RetryStepView::Done {
        name: name_of_reply(success, response, style, max_chars),
    });
}

/// Whatever the outcomes, the request is sent twice at most.
pub proof fn lemma_two_sends_at_most(outcomes: Seq<SendOutcome>, style: CaseStyle, max_chars: nat)
    ensures
        sends_from(1, outcomes, style, max_chars) <= 2,
{
    reveal_with_fuel(sends_from, 3);
    if outcomes.len() > 0 {
        let rest = outcomes.drop_first();
        if rest.len() > 0 {
            assert(next_step(2, rest[0], style, max_chars) is Done);
        }
    }
}

} // verus!
