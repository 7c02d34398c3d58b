//! A batch of image files: which files belong to it, what each file's new
//! name is made of, and the order in which the work on the batch is done.
//!
//! The work itself (reading files, asking services, renaming) is left to the
//! caller. `Batch::step` takes what has just happened and says what to do
//! next.

use crate::ai::{content_or_date, generate_ai_content};
use crate::cache::GPSCache;
use crate::exif::{optional_view, Timestamp};
use crate::gps::{
    build_nominatim_url, cache_key_text, gps_to_place, nominatim_url, resolved_place, to_cache_key,
    Coordinate, NominatimResponse,
};
use crate::numeral::{decimal, padded_decimal, push_decimal, push_padded_decimal};
use crate::text::{ascii_lower_seq, chars_of, push_all, string_of, to_ascii_lower};
use crate::utils::{
    allocated_name, create_date_folder_path, date_folder_path, join, join_path, taken_names,
    unique_filename,
};
use vstd::prelude::*;

verus! {

/// Whether a file extension in lowercase is one of an image format that is
/// worked on.
pub open spec fn is_supported_lowercase(ext: Seq<char>) -> bool {
    ||| ext == "jpg"@
    ||| ext == "jpeg"@
    ||| ext == "png"@
    ||| ext == "tiff"@
    ||| ext == "tif"@
    ||| ext == "bmp"@
    ||| ext == "webp"@
    ||| ext == "heic"@
    ||| ext == "heif"@
    ||| ext == "raw"@
    ||| ext == "cr2"@
    ||| ext == "nef"@
    ||| ext == "arw"@
}

/// Whether four bytes are the beginning of a JPEG, PNG, GIF, BMP or RIFF
/// file.
pub open spec fn is_image_signature(b: Seq<u8>) -> bool {
    b.len() == 4 && {
        ||| (b[0] == 0xFF && b[1] == 0xD8)
        ||| (b[0] == 0x89 && b[1] == 0x50 && b[2] == 0x4E && b[3] == 0x47)
        ||| (b[0] == 0x47 && b[1] == 0x49 && b[2] == 0x46 && (b[3] == 0x38 || b[3] == 0x39))
        ||| (b[0] == 0x42 && b[1] == 0x4D)
        ||| (b[0] == 0x52 && b[1] == 0x49 && b[2] == 0x46 && b[3] == 0x46)
    }
}

/// Whether a file name begins with `._`, as the companion files do that some
/// systems write beside a file.
pub open spec fn is_resource_fork(name: Seq<char>) -> bool {
    name.len() >= 2 && name[0] == '.' && name[1] == '_'
}

/// Whether a file is an image to work on: it has an extension, which is a
/// supported one, and its first four bytes could be read and begin an image.
pub open spec fn is_image_file(extension: Option<Seq<char>>, signature: Option<Seq<u8>>) -> bool {
    match (extension, signature) {
        (Some(e), Some(s)) => is_supported_lowercase(ascii_lower_seq(e)) && is_image_signature(s),
        _ => false,
    }
}

/// The base name of a file: the date, an underscore and the content, or the
/// content alone where there is no date.
pub open spec fn base_filename(date: Option<Seq<char>>, content: Seq<char>) -> Seq<char> {
    match date {
        Some(d) => d + seq!['_'] + content,
        None => content,
    }
}

/// The content part of a name where the place is asked for: `NoGPS` for a
/// file without a position.
pub open spec fn no_gps() -> Seq<char> {
    "NoGPS"@
}

/// What the content part of a name is taken from.
#[derive(Clone, Copy, Debug, PartialEq, Eq, Structural)]
pub enum ContentSource {
    /// What a vision model says the image shows.
    Model,
    /// The place where the image was taken.
    Place,
}

/// Whether a file's name begins with its date, and what its content part is
/// taken from: the date is left out where none is wanted, and the model is
/// asked where that is wanted, else the place.
pub open spec fn planned(ai_content: bool, no_date: bool) -> (bool, ContentSource) {
    (
        !no_date,
        if ai_content {
            ContentSource::Model
        } else {
            ContentSource::Place
        },
    )
}

/// A span of time as it is shown: minutes and seconds from a minute on,
/// seconds with three decimal places from a second on, else milliseconds.
pub open spec fn duration_text(total_secs: nat, millis: nat) -> Seq<char> {
    if total_secs >= 60 {
        decimal(total_secs / 60) + "m "@ + decimal(total_secs % 60) + "s"@
    } else if total_secs > 0 {
        decimal(total_secs) + "."@ + padded_decimal(millis, 3) + "s"@
    } else {
        decimal(millis) + "ms"@
    }
}

/// Whether a file extension, whatever the case of its letters, is one of an
/// image format that is worked on.
pub fn is_supported_image_extension(extension: &str) -> (r: bool)
    ensures
        r == is_supported_lowercase(ascii_lower_seq(extension@)),
{
    let lowered = string_of(&to_ascii_lower(&chars_of(extension)));
    let ext = lowered.as_str();
    ext.eq("jpg") || ext.eq("jpeg") || ext.eq("png") || ext.eq("tiff") || ext.eq("tif") || ext.eq(
        "bmp",
    ) || ext.eq("webp") || ext.eq("heic") || ext.eq("heif") || ext.eq("raw") || ext.eq("cr2")
        || ext.eq("nef") || ext.eq("arw")
}

/// Whether the first four bytes of a file are the beginning of an image file.
pub fn is_valid_image_signature(buffer: &[u8; 4]) -> (r: bool)
    ensures
        r == is_image_signature(buffer@),
{
    let b0 = buffer[0];
    let b1 = buffer[1];
    let b2 = buffer[2];
    let b3 = buffer[3];
    (b0 == 0xFF && b1 == 0xD8) || (b0 == 0x89 && b1 == 0x50 && b2 == 0x4E && b3 == 0x47) || (b0
        == 0x47 && b1 == 0x49 && b2 == 0x46 && (b3 == 0x38 || b3 == 0x39)) || (b0 == 0x42 && b1
        == 0x4D) || (b0 == 0x52 && b1 == 0x49 && b2 == 0x46 && b3 == 0x46)
}

/// Whether a file name does not begin with `._`.
pub fn is_not_resource_fork(file_name: &str) -> (r: bool)
    ensures
        r == !is_resource_fork(file_name@),
{
    let chars = chars_of(file_name);
    !(chars.len() >= 2 && chars[0] == '.' && chars[1] == '_')
}

/// Whether a file is an image to work on: its extension is a supported one
/// and its first four bytes, where they could be read, begin an image.
pub fn is_valid_image(extension: Option<&str>, signature: Option<[u8; 4]>) -> (r: bool)
    ensures
        r == is_image_file(
            match extension {
                Some(e) => Some(e@),
                None => None,
            },
            match signature {
                Some(s) => Some(s@),
                None => None,
            },
        ),
{
    match extension {
        Some(e) => {
            if is_supported_image_extension(e) {
                match signature {
                    Some(s) => is_valid_image_signature(&s),
                    None => false,
                }
            } else {
                false
            }
        },
        None => false,
    }
}

/// The base name of a file: the date, an underscore and the content, or the
/// content alone where there is no date.
pub fn create_base_filename(date: Option<String>, content: String) -> (name: String)
    ensures
        name@ == base_filename(optional_view(date), content@),
{
    match date {
        Some(d) => {
            let mut name = chars_of(d.as_str());
            name.push('_');
            push_all(&mut name, &chars_of(content.as_str()));
            string_of(&name)
        },
        None => content,
    }
}

/// The address to ask the geocoder at for a file's place, where it has to be
/// asked: the file has a position and the cache does not hold it.
pub fn location_request(coordinate: &Option<Coordinate>, cache: &GPSCache) -> (url: Option<String>)
    requires
        cache.wf(),
        coordinate matches Some(c) ==> c.wf(),
    ensures
        optional_view(url) == match *coordinate {
            Some(c) => if cache@.contains_key(cache_key_text(c.key())) {
                None
            } else {
                Some(nominatim_url(c.key()))
            },
            None => None,
        },
{
    match coordinate {
        Some(c) => {
            let key = to_cache_key(c);
            match cache.get(key.as_str()) {
                Some(_) => None,
                None => Some(build_nominatim_url(c)),
            }
        },
        None => None,
    }
}

/// The place that stands in a file's name, and whether the cache was changed
/// for it: `NoGPS` for a file without a position, else what `gps_to_place`
/// gives for the position.
pub fn resolve_gps_location(
    coordinate: &Option<Coordinate>,
    cache: &mut GPSCache,
    response: Option<NominatimResponse>,
) -> (result: (String, bool))
    requires
        old(cache).wf(),
        coordinate matches Some(c) ==> c.wf(),
    ensures
        final(cache).wf(),
        match *coordinate {
            None => result.0@ == no_gps() && !result.1 && final(cache)@ == old(cache)@,
            Some(c) => {
                let key = cache_key_text(c.key());
                if old(cache)@.contains_key(key) {
                    &&& result.0@ == old(cache)@[key]
                    &&& !result.1
                    &&& final(cache)@ == old(cache)@
                } else {
                    &&& result.0@ == resolved_place(response)
                    &&& result.1
                    &&& final(cache)@ == old(cache)@.insert(key, resolved_place(response))
                }
            },
        },
{
    match coordinate {
        Some(c) => {
            let (place, updated) = gps_to_place(c, cache, response);
            match place {
                Some(p) => (p, updated),
                None => ("UnknownPlace".to_owned(), updated),
            }
        },
        None => ("NoGPS".to_owned(), false),
    }
}

/// Whether a file's name begins with its date, and what its content part is
/// taken from.
pub fn plan_name(ai_content: bool, no_date: bool) -> (plan: (bool, ContentSource))
    ensures
        plan == planned(ai_content, no_date),
{
    (
        !no_date,
        if ai_content {
            ContentSource::Model
        } else {
            ContentSource::Place
        },
    )
}

/// The content part of a name where a model was asked, and whether the cache
/// was changed for it, which it never is: the model's name, or else the date,
/// or else the present time.
pub fn ai_content_part(ai_name: Option<String>, date: Option<String>, now: &Timestamp) -> (r: (
    String,
    bool,
))
    ensures
        r.0@ == content_or_date(optional_view(ai_name), optional_view(date), *now),
        !r.1,
{
    (generate_ai_content(ai_name, date, now), false)
}

/// The new name of a file: its base name made of date and content, with its
/// extension, made to collide with none of the entries `existing` of its
/// directory.
pub fn build_new_name(
    date: Option<String>,
    content: String,
    extension: &str,
    existing: &Vec<String>,
) -> (name: Option<String>)
    ensures
        optional_view(name) == allocated_name(
            taken_names(existing@),
            base_filename(optional_view(date), content@),
            extension@,
        ),
        existing@.len() <= crate::utils::MAX_COUNTER ==> name is Some,
{
    let base_name = create_base_filename(date, content);
    unique_filename(existing, base_name.as_str(), extension)
}

/// The path that a file is moved to: inside the folder of its date below
/// `base_folder` where files are sorted by date, else in `folder`, the
/// directory that the file stands in.
pub fn get_target_path(folder: &str, base_folder: &str, new_name: &str, organize_by_date: bool) -> (path:
    String)
    ensures
        path@ == if organize_by_date {
            date_folder_path(base_folder@, new_name@)
        } else {
            join_path(folder@, new_name@)
        },
{
    if organize_by_date {
        create_date_folder_path(base_folder, new_name)
    } else {
        string_of(&join(&chars_of(folder), &chars_of(new_name)))
    }
}

/// A span of time as it is shown.
pub fn format_duration(total_secs: u64, millis: u32) -> (text: String)
    ensures
        text@ == duration_text(total_secs as nat, millis as nat),
{
    let mut out: Vec<char> = Vec::new();
    if total_secs >= 60 {
        push_decimal(&mut out, total_secs / 60);
        push_all(&mut out, &chars_of("m "));
        push_decimal(&mut out, total_secs % 60);
        push_all(&mut out, &chars_of("s"));
    } else if total_secs > 0 {
        push_decimal(&mut out, total_secs);
        push_all(&mut out, &chars_of("."));
        push_padded_decimal(&mut out, millis as u64, 3);
        push_all(&mut out, &chars_of("s"));
    } else {
        push_decimal(&mut out, millis as u64);
        push_all(&mut out, &chars_of("ms"));
    }
    assert(out@ =~= duration_text(total_secs as nat, millis as nat));
    string_of(&out)
}

/// Where the work on a batch stands.
#[derive(Clone, Copy, Debug, PartialEq, Eq, Structural)]
pub enum BatchState {
    /// Nothing has been done.
    Idle,
    /// The cache is being loaded.
    Loaded,
    /// The name of the file with the number `processed` is being made.
    ProcessingFile,
    /// That file is being renamed.
    Renaming,
    /// The new name of that file is being shown, as nothing is to be changed.
    DryRunLogging,
    /// The cache is being stored.
    Persisting,
    /// All is done.
    Done,
}

/// What has just happened.
#[derive(Clone, Copy, Debug, PartialEq, Eq, Structural)]
pub enum BatchEvent {
    /// The files of the batch are known.
    Started,
    /// The cache is loaded.
    CacheLoaded,
    /// The work on a file's name is over: whether there is a name, and whether
    /// the cache was changed.
    Named { named: bool, cache_updated: bool },
    /// The file was renamed or its new name was shown, or that failed.
    Applied,
    /// The cache was stored, or that failed.
    Persisted,
}

/// What to do next.
#[derive(Clone, Copy, Debug, PartialEq, Eq, Structural)]
pub enum BatchAction {
    LoadCache,
    /// Make the name of the file with this number.
    ProcessFile { index: usize },
    /// Rename the file with this number.
    Rename { index: usize },
    /// Show the new name of the file with this number.
    LogDryRun { index: usize },
    PersistCache,
    Finish,
}

/// A batch of files and where the work on it stands.
#[derive(Clone, Copy, Debug, PartialEq, Eq, Structural)]
pub struct Batch {
    pub state: BatchState,
    /// How many files the batch holds.
    pub total_files: usize,
    /// How many files are worked on at most, if there is such a bound.
    pub max_images: Option<usize>,
    /// Whether new names are shown only.
    pub dry_run: bool,
    /// Whether the cache was changed.
    pub cache_updated: bool,
    /// How many files the work is over for.
    pub processed: usize,
}

impl Batch {
    /// Whether another file is to be worked on.
    pub open spec fn has_next(self) -> bool {
        self.processed < self.total_files && (self.max_images matches Some(max) ==> self.processed
            < max)
    }

    /// The batch is in order: no more files are done than it holds or than
    /// the bound allows, a file that is worked on is one of its files within
    /// the bound, and the cache is stored only where it was changed.
    pub open spec fn wf(self) -> bool {
        &&& self.processed <= self.total_files
        &&& self.max_images matches Some(max) ==> self.processed <= max
        &&& (self.state is ProcessingFile || self.state is Renaming || self.state is DryRunLogging)
            ==> self.has_next()
        &&& (self.state is Idle || self.state is Loaded) ==> self.processed == 0
            && !self.cache_updated
        &&& self.state is Persisting ==> self.cache_updated
    }

    /// The batch once the work on the files goes on or ends, and what to do
    /// then: the next file, or else storing the cache where it was changed,
    /// or else nothing more.
    pub open spec fn advanced(self) -> (Batch, BatchAction) {
        if self.has_next() {
            (
                Batch { state: BatchState::ProcessingFile, ..self },
                BatchAction::ProcessFile { index: self.processed },
            )
        } else if self.cache_updated {
            (Batch { state: BatchState::Persisting, ..self }, BatchAction::PersistCache)
        } else {
            (Batch { state: BatchState::Done, ..self }, BatchAction::Finish)
        }
    }

    /// The batch after an event and what to do next; the batch as it was and
    /// nothing to do where the event is none that the state waits for.
    pub open spec fn next(self, event: BatchEvent) -> (Batch, Option<BatchAction>) {
        match (self.state, event) {
            (BatchState::Idle, BatchEvent::Started) => (
                Batch { state: BatchState::Loaded, ..self },
                Some(BatchAction::LoadCache),
            ),
            (BatchState::Loaded, BatchEvent::CacheLoaded) => (
                self.advanced().0,
                Some(self.advanced().1),
            ),
            (BatchState::ProcessingFile, BatchEvent::Named { named, cache_updated }) => {
                let noted = Batch { cache_updated: self.cache_updated || cache_updated, ..self };
                if !named {
                    let over = Batch { processed: (self.processed + 1) as usize, ..noted };
                    (over.advanced().0, Some(over.advanced().1))
                } else if self.dry_run {
                    (
                        Batch { state: BatchState::DryRunLogging, ..noted },
                        Some(BatchAction::LogDryRun { index: self.processed }),
                    )
                } else {
                    (
                        Batch { state: BatchState::Renaming, ..noted },
                        Some(BatchAction::Rename { index: self.processed }),
                    )
                }
            },
            (BatchState::Renaming, BatchEvent::Applied) | (
                BatchState::DryRunLogging,
                BatchEvent::Applied,
            ) => {
                let over = Batch { processed: (self.processed + 1) as usize, ..self };
                (over.advanced().0, Some(over.advanced().1))
            },
            (BatchState::Persisting, BatchEvent::Persisted) => (
                Batch { state: BatchState::Done, ..self },
                Some(BatchAction::Finish),
            ),
            _ => (self, None),
        }
    }

    /// Whether the batch is in order.
    pub fn is_valid(&self) -> (ok: bool)
        ensures
            ok == self.wf(),
    {
        let within = match self.max_images {
            Some(max) => self.processed <= max,
            None => true,
        };
        let next = self.processed < self.total_files && match self.max_images {
            Some(max) => self.processed < max,
            None => true,
        };
        let at_file = match self.state {
            BatchState::ProcessingFile | BatchState::Renaming | BatchState::DryRunLogging => true,
            _ => false,
        };
        let at_start = match self.state {
            BatchState::Idle | BatchState::Loaded => true,
            _ => false,
        };
        let storing = match self.state {
            BatchState::Persisting => true,
            _ => false,
        };
        self.processed <= self.total_files && within && (!at_file || next) && (!at_start || (
        self.processed == 0 && !self.cache_updated)) && (!storing || self.cache_updated)
    }

    /// A batch of `total_files` files on which nothing has been done.
    pub fn new(total_files: usize, max_images: Option<usize>, dry_run: bool) -> (batch: Batch)
        ensures
            batch.wf(),
            batch == (Batch {
                state: BatchState::Idle,
                total_files,
                max_images,
                dry_run,
                cache_updated: false,
                processed: 0,
            }),
    {
        Batch {
            state: BatchState::Idle,
            total_files,
            max_images,
            dry_run,
            cache_updated: false,
            processed: 0,
        }
    }

    fn advance(&mut self) -> (action: BatchAction)
        requires
            old(self).processed <= old(self).total_files,
        ensures
            (*final(self), action) == old(self).advanced(),
    {
        let within = match self.max_images {
            Some(max) => self.processed < max,
            None => true,
        };
        if self.processed < self.total_files && within {
            self.state = BatchState::ProcessingFile;
            BatchAction::ProcessFile { index: self.processed }
        } else if self.cache_updated {
            self.state = BatchState::Persisting;
            BatchAction::PersistCache
        } else {
            self.state = BatchState::Done;
            BatchAction::Finish
        }
    }

    /// Takes what has just happened and says what to do next; nothing where
    /// the event is none that the batch waits for.
    pub fn step(&mut self, event: BatchEvent) -> (action: Option<BatchAction>)
        requires
            old(self).wf(),
        ensures
            final(self).wf(),
            (*final(self), action) == old(self).next(event),
    {
        match (self.state, event) {
            (BatchState::Idle, BatchEvent::Started) => {
                self.state = BatchState::Loaded;
                Some(BatchAction::LoadCache)
            },
            (BatchState::Loaded, BatchEvent::CacheLoaded) => { Some(self.advance()) },
            (BatchState::ProcessingFile, BatchEvent::Named { named, cache_updated }) => {
                self.cache_updated = self.cache_updated || cache_updated;
                if !named {
                    self.processed = self.processed + 1;
                    Some(self.advance())
                } else if self.dry_run {
                    self.state = BatchState::DryRunLogging;
                    Some(BatchAction::LogDryRun { index: self.processed })
                } else {
                    self.state = BatchState::Renaming;
                    Some(BatchAction::Rename { index: self.processed })
                }
            },
            (BatchState::Renaming, BatchEvent::Applied) => {
                self.processed = self.processed + 1;
                Some(self.advance())
            },
            (BatchState::DryRunLogging, BatchEvent::Applied) => {
                self.processed = self.processed + 1;
                Some(self.advance())
            },
            (BatchState::Persisting, BatchEvent::Persisted) => {
                self.state = BatchState::Done;
                Some(BatchAction::Finish)
            },
            _ => None,
        }
    }
}

/// Whatever happens, a batch in order stays in order: no more files are
/// worked on than the bound allows, the files are taken in their order, and
/// the cache is stored only where a file's name changed it.
pub proof fn lemma_step_keeps_order(batch: Batch, event: BatchEvent)
    requires
        batch.wf(),
    ensures
        batch.next(event).0.wf(),
        batch.next(event).0.processed == batch.processed || batch.next(event).0.processed
            == batch.processed + 1,
        batch.next(event).0.total_files == batch.total_files,
        batch.next(event).0.max_images == batch.max_images,
        batch.cache_updated ==> batch.next(event).0.cache_updated,
        batch.next(event).1 == Some(BatchAction::PersistCache) ==> batch.next(
            event,
        ).0.cache_updated,
        batch.next(event).1 matches Some(BatchAction::ProcessFile { index }) ==> index
            == batch.next(event).0.processed && batch.next(event).0.has_next(),
        batch.next(event).1 == Some(BatchAction::Finish) && !(batch.state is Persisting)
            ==> !batch.next(event).0.cache_updated,
{
}

} // verus!
