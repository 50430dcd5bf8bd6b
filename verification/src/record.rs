//! Metadata records and the catalogue entries made from them.

use vstd::prelude::*;
use vstd::string::*;
use crate::date::{
    civil_from_timestamp, compact_day, day_from_compact, is_upload_date_error, midnight_of,
    utc_fields, EntryDate,
};
use crate::error::OrganizerError;
use crate::seqs::{lemma_filter_empty, lemma_filter_push};
use crate::text::{
    chars_end_with, chars_of, ends_with, file_stem, lemma_last_dot_unique, stem_is,
};

verus! {

/// What a metadata file describes.
#[derive(Debug, Clone, PartialEq, Eq)]
pub enum InfoJson {
    /// One video.
    Video(VideoJson),
    /// A playlist; nothing of it is used.
    Playlist,
}

/// The metadata of one video.
#[derive(Debug, Clone, PartialEq, Eq)]
pub struct VideoJson {
    pub id: String,
    pub title: String,
    pub channel: String,
    pub fulltitle: String,
    /// The day of upload, as year, month and day written one after the other.
    pub upload_date: String,
    /// The instant of upload in seconds since the Unix epoch, if known.
    pub timestamp: Option<i64>,
    /// The address of the listing that the video was taken from, if any.
    pub playlist_webpage_url: Option<String>,
}

/// The mathematical value of a `VideoJson`.
pub struct VideoJsonView {
    pub id: Seq<char>,
    pub title: Seq<char>,
    pub channel: Seq<char>,
    pub fulltitle: Seq<char>,
    pub upload_date: Seq<char>,
    pub timestamp: Option<i64>,
    pub playlist_webpage_url: Option<Seq<char>>,
}

impl View for VideoJson {
    type V = VideoJsonView;

    open spec fn view(&self) -> VideoJsonView {
        VideoJsonView {
            id: self.id@,
            title: self.title@,
            channel: self.channel@,
            fulltitle: self.fulltitle@,
            upload_date: self.upload_date@,
            timestamp: self.timestamp,
            playlist_webpage_url: match self.playlist_webpage_url {
                Some(u) => Some(u@),
                None => None,
            },
        }
    }
}

/// The end of the address of a listing of short-form videos.
pub open spec fn shorts_suffix() -> Seq<char> {
    seq!['/', 's', 'h', 'o', 'r', 't', 's']
}

/// The double suffix that the name of a metadata file ends with.
pub open spec fn metadata_suffix() -> Seq<char> {
    seq!['.', 'i', 'n', 'f', 'o', '.', 'j', 's', 'o', 'n']
}

impl VideoJsonView {
    /// Whether the video comes from a listing of short-form videos.
    pub open spec fn is_short(self) -> bool {
        match self.playlist_webpage_url {
            Some(u) => shorts_suffix().is_suffix_of(u),
            None => false,
        }
    }

    /// The date of the video: that of its timestamp where it has one,
    /// whatever the upload date says; else midnight of its upload date.
    /// `None` where the source that counts gives no date.
    pub open spec fn date(self) -> Option<EntryDate> {
        match self.timestamp {
            Some(t) => match utc_fields(t) {
                Some(f) => Some(EntryDate { year: f.0, month: f.1, day: f.2, second: f.3 }),
                None => None,
            },
            None => match compact_day(self.upload_date) {
                Some(d) => Some(midnight_of(d)),
                None => None,
            },
        }
    }

    /// Whether `e` is the error that this record gives where it has no date:
    /// it names the timestamp where there is one, else the upload date.
    pub open spec fn is_date_error(self, e: OrganizerError) -> bool {
        match self.timestamp {
            Some(t) => e == OrganizerError::TimestampOutOfRange(t),
            None => is_upload_date_error(self.upload_date, e),
        }
    }

    /// The title under which the video is shown: the full title where it has
    /// more than one character, else the plain title.
    pub open spec fn display_title(self) -> Seq<char> {
        if self.fulltitle.len() > 1 {
            self.fulltitle
        } else {
            self.title
        }
    }
}

impl VideoJson {
    /// Resolves the date of the video. A timestamp takes precedence over the
    /// upload date; the error says which of the two gave no date.
    pub fn get_date(&self) -> (r: Result<EntryDate, OrganizerError>)
        ensures
            match r {
                Ok(d) => self@.date() == Some(d),
                Err(e) => self@.date() is None && self@.is_date_error(e),
            },
    {
        match self.timestamp {
            Some(t) => EntryDate::from_timestamp_fields(t, civil_from_timestamp(t)),
            None => match day_from_compact(self.upload_date.as_str()) {
                Ok(day) => EntryDate::from_upload_day(self.upload_date.as_str(), Some(day)),
                Err(_) => EntryDate::from_upload_day(self.upload_date.as_str(), None),
            },
        }
    }

    /// Whether the video comes from a listing of short-form videos.
    pub fn is_short(&self) -> (r: bool)
        ensures
            r == self@.is_short(),
    {
        match &self.playlist_webpage_url {
            Some(u) => {
                proof {
                    reveal_strlit("/shorts");
                    assert("/shorts"@ =~= shorts_suffix());
                }
                ends_with(u.as_str(), "/shorts")
            },
            None => false,
        }
    }
}

/// Where a record has a timestamp, its date is that of the timestamp, whatever
/// its upload date says: two records with the same timestamp have the same
/// date.
pub proof fn lemma_timestamp_takes_precedence(a: VideoJsonView, b: VideoJsonView)
    requires
        a.timestamp is Some,
        a.timestamp == b.timestamp,
    ensures
        a.date() == b.date(),
{
}

/// Without a timestamp the date is midnight of the upload date.
pub proof fn lemma_upload_date_is_midnight(a: VideoJsonView)
    requires
        a.timestamp is None,
        a.date() is Some,
    ensures
        a.date()->0.second == 0,
        compact_day(a.upload_date) == Some(
            (a.date()->0.year, a.date()->0.month, a.date()->0.day),
        ),
{
}

/// A file of the archive: its path, the last component of that path, and
/// whether it is a regular file.
#[derive(Debug, Clone, PartialEq, Eq)]
pub struct SourceFile {
    pub path: String,
    pub file_name: String,
    pub is_file: bool,
}

/// The mathematical value of a `SourceFile`.
pub struct SourceFileView {
    pub path: Seq<char>,
    pub file_name: Seq<char>,
    pub is_file: bool,
}

impl View for SourceFile {
    type V = SourceFileView;

    open spec fn view(&self) -> SourceFileView {
        SourceFileView { path: self.path@, file_name: self.file_name@, is_file: self.is_file }
    }
}

impl SourceFile {
    /// A copy of the file's description.
    pub fn duplicate(&self) -> (r: SourceFile)
        ensures
            r@ == self@,
    {
        SourceFile {
            path: self.path.clone(),
            file_name: self.file_name.clone(),
            is_file: self.is_file,
        }
    }
}

/// The values of the files in `files`, in order.
pub open spec fn file_views(files: Seq<SourceFile>) -> Seq<SourceFileView> {
    files.map_values(|f: SourceFile| f@)
}

/// The test that picks, from a directory, the regular files whose stem is
/// `base`.
pub open spec fn has_stem(base: Seq<char>) -> spec_fn(SourceFileView) -> bool {
    |f: SourceFileView| f.is_file && file_stem(f.file_name) == base
}

/// The files that belong to the video described by the metadata file `meta`,
/// which lies in a directory that holds `listing`: the metadata file itself,
/// then, where its name ends in the metadata suffix, every regular file of the
/// directory whose stem is that name without the suffix, in the order of the
/// listing.
pub open spec fn sidecars(meta: SourceFileView, listing: Seq<SourceFileView>) -> Seq<
    SourceFileView,
> {
    if metadata_suffix().is_suffix_of(meta.file_name) {
        seq![meta] + listing.filter(
            has_stem(meta.file_name.take(meta.file_name.len() - metadata_suffix().len())),
        )
    } else {
        seq![meta]
    }
}

/// One video of the catalogue.
#[derive(Debug, Clone, PartialEq, Eq)]
pub struct CatalogueEntry {
    /// The date by which the video is ordered.
    pub date: EntryDate,
    /// The metadata of the video.
    pub json: VideoJson,
    /// The files of the video, the metadata file first.
    pub path: Vec<SourceFile>,
}

/// The mathematical value of a `CatalogueEntry`.
pub struct EntryView {
    pub date: EntryDate,
    pub json: VideoJsonView,
    pub path: Seq<SourceFileView>,
}

impl View for CatalogueEntry {
    type V = EntryView;

    open spec fn view(&self) -> EntryView {
        EntryView { date: self.date, json: self.json@, path: file_views(self.path@) }
    }
}

/// What reading the record `info` from the metadata file `meta` adds to the
/// catalogue, where `listing` is what the file's directory holds: nothing for
/// a playlist or a short-form video, else the entry of the video, which needs
/// the video's date.
pub open spec fn entry_of(info: InfoJson, meta: SourceFileView, listing: Seq<SourceFileView>)
    -> Option<EntryView> {
    match info {
        InfoJson::Video(v) => if v@.is_short() {
            None
        } else {
            match v@.date() {
                Some(d) => Some(EntryView { date: d, json: v@, path: sidecars(meta, listing) }),
                None => None,
            }
        },
        InfoJson::Playlist => None,
    }
}

/// Whether reading the record `info` fails: it describes a video that is not
/// short-form and has no date.
pub open spec fn entry_fails(info: InfoJson) -> bool {
    info matches InfoJson::Video(v) && !v@.is_short() && v@.date() is None
}

/// No record of a short-form video gives an entry, whatever else it holds;
/// nor is it an error.
pub proof fn lemma_short_form_gives_no_entry(
    v: VideoJson,
    meta: SourceFileView,
    listing: Seq<SourceFileView>,
)
    requires
        v@.is_short(),
    ensures
        entry_of(InfoJson::Video(v), meta, listing) is None,
        !entry_fails(InfoJson::Video(v)),
{
}

/// The files of a video begin with its metadata file.
pub proof fn lemma_metadata_file_comes_first(meta: SourceFileView, listing: Seq<SourceFileView>)
    ensures
        sidecars(meta, listing).len() > 0,
        sidecars(meta, listing)[0] == meta,
{
}

/// The metadata file of a video is none of the files picked from the listing
/// of its directory: its own stem is longer than the stem they share.
pub proof fn lemma_metadata_file_is_not_picked(meta: SourceFileView)
    requires
        metadata_suffix().is_suffix_of(meta.file_name),
    ensures
        !has_stem(meta.file_name.take(meta.file_name.len() - metadata_suffix().len()))(meta),
{
    let name = meta.file_name;
    let start = name.len() - 10;
    let tail = name.subrange(start, name.len() as int);
    let dot = name.len() - 5;
    assert forall|i: int| dot < i < name.len() implies name[i] != '.' by {
        assert(name[i] == tail[i - start]);
    }
    assert(name[dot] == tail[5]);
    lemma_last_dot_unique(name, dot);
    assert(file_stem(name).len() == dot);
}

impl CatalogueEntry {
    /// The date by which the video is ordered.
    pub fn get_date(&self) -> (r: EntryDate)
        ensures
            r == self.date,
    {
        self.date
    }

    /// The title under which the video is shown.
    pub fn get_title(&self) -> (r: String)
        ensures
            r@ == self@.json.display_title(),
    {
        if self.json.fulltitle.as_str().unicode_len() > 1 {
            self.json.fulltitle.clone()
        } else {
            self.json.title.clone()
        }
    }

    /// Makes the catalogue entry for the record `info` that was read from the
    /// metadata file `meta`, whose directory holds `listing`. Playlists and
    /// short-form videos give no entry; a video without a date is an error.
    pub fn new(meta: &SourceFile, info: InfoJson, listing: &Vec<SourceFile>) -> (r: Result<
        Option<CatalogueEntry>,
        OrganizerError,
    >)
        ensures
            match r {
                Ok(Some(e)) => entry_of(info, meta@, file_views(listing@)) == Some(e@),
                Ok(None) => entry_of(info, meta@, file_views(listing@)) is None && !entry_fails(
                    info,
                ),
                Err(e) => entry_fails(info) && match info {
                    InfoJson::Video(v) => v@.is_date_error(e),
                    InfoJson::Playlist => false,
                },
            },
    {
        match info {
            InfoJson::Video(video_json) => {
                if video_json.is_short() {
                    Ok(None)
                } else {
                    match video_json.get_date() {
                        Ok(date) => {
                            let path = CatalogueEntry::get_other_files(meta, listing);
                            Ok(Some(CatalogueEntry { date, json: video_json, path }))
                        },
                        Err(e) => Err(e),
                    }
                }
            },
            InfoJson::Playlist => Ok(None),
        }
    }

    /// Collects the files of the video whose metadata file is `meta`, from
    /// the listing of the directory in which that file lies.
    pub fn get_other_files(meta: &SourceFile, listing: &Vec<SourceFile>) -> (r: Vec<SourceFile>)
        ensures
            file_views(r@) == sidecars(meta@, file_views(listing@)),
    {
        let mut r: Vec<SourceFile> = Vec::new();
        r.push(meta.duplicate());
        assert(file_views(r@) =~= seq![meta@]);
        let name = chars_of(meta.file_name.as_str());
        let suffix = chars_of(".info.json");
        proof {
            reveal_strlit(".info.json");
            assert(".info.json"@ =~= metadata_suffix());
        }
        if !chars_end_with(&name, &suffix) {
            return r;
        }
        let mut base = name;
        base.truncate(base.len() - suffix.len());
        assert(base@ =~= meta.file_name@.take(meta.file_name@.len() - metadata_suffix().len()));
        let ghost views = file_views(listing@);
        proof {
            lemma_filter_empty(has_stem(base@));
            assert(views.take(0) =~= Seq::<SourceFileView>::empty());
        }
        let mut i: usize = 0;
        while i < listing.len()
            invariant
                i <= listing.len(),
                views == file_views(listing@),
                file_views(r@) == seq![meta@] + views.take(i as int).filter(has_stem(base@)),
            decreases listing.len() - i,
        {
            let e = &listing[i];
            let ghost before = file_views(r@);
            proof {
                assert(views.take(i + 1) =~= views.take(i as int).push(e@));
                lemma_filter_push(views.take(i as int), has_stem(base@), e@);
            }
            if e.is_file && stem_is(e.file_name.as_str(), &base) {
                r.push(e.duplicate());
                assert(file_views(r@) =~= before.push(e@));
            }
            assert(file_views(r@) =~= seq![meta@] + views.take(i + 1).filter(has_stem(base@)));
            i += 1;
        }
        assert(views.take(i as int) =~= views);
        r
    }
}

} // verus!
