//! The catalogue: every video found in one scan of the archive, and its
//! division into channels and seasons.

use vstd::prelude::*;
use vstd::string::*;
use crate::error::OrganizerError;
use crate::ordering::sort_by_date;
use crate::record::{
    entry_fails, entry_of, file_views, CatalogueEntry, EntryView, InfoJson, SourceFile,
};
use crate::seasons::{
    chunk_by_year, is_seasons_of, run_views, season_videos, Season, SeasonedStructure,
};
use crate::text::{extension_of, file_extension, str_eq};

verus! {

/// A file of the archive as the scan found it: the file, the record read from
/// it, and what the directory it lies in holds.
#[derive(Debug, Clone, PartialEq, Eq)]
pub struct ScannedFile {
    pub file: SourceFile,
    pub info: InfoJson,
    pub listing: Vec<SourceFile>,
}

/// The extension that marks a metadata file.
pub open spec fn metadata_extension() -> Seq<char> {
    seq!['j', 's', 'o', 'n']
}

/// Whether a file of this name is taken for a metadata file.
pub open spec fn is_metadata_name(name: Seq<char>) -> bool {
    file_extension(name) == Some(metadata_extension())
}

impl ScannedFile {
    /// The entry that the file adds to the catalogue, if any: files that are
    /// no metadata files add none.
    pub open spec fn entry(self) -> Option<EntryView> {
        if is_metadata_name(self.file.file_name@) {
            entry_of(self.info, self.file@, file_views(self.listing@))
        } else {
            None
        }
    }

    /// Whether the scan fails at this file.
    pub open spec fn fails(self) -> bool {
        is_metadata_name(self.file.file_name@) && entry_fails(self.info)
    }

    /// Whether `e` is the error with which the scan fails at this file.
    pub open spec fn is_error(self, e: OrganizerError) -> bool {
        match self.info {
            InfoJson::Video(v) => v@.is_date_error(e),
            InfoJson::Playlist => false,
        }
    }
}

/// The entries that `files` add to the catalogue, in the order of the files.
pub open spec fn catalogued(files: Seq<ScannedFile>) -> Seq<EntryView>
    decreases files.len(),
{
    if files.len() == 0 {
        Seq::empty()
    } else {
        match files.last().entry() {
            Some(e) => catalogued(files.drop_last()).push(e),
            None => catalogued(files.drop_last()),
        }
    }
}

/// The catalogue of a scan holds no short-form video, and every entry of it
/// has its metadata file as its first file.
pub proof fn lemma_catalogued_holds_no_short_form(files: Seq<ScannedFile>)
    ensures
        forall|i: int|
            0 <= i < catalogued(files).len() ==> !(#[trigger] catalogued(files)[i]).json.is_short()
                && catalogued(files)[i].path.len() > 0,
    decreases files.len(),
{
    if files.len() > 0 {
        lemma_catalogued_holds_no_short_form(files.drop_last());
    }
}

/// The values of `entries`, in order.
pub open spec fn entry_views(entries: Seq<CatalogueEntry>) -> Seq<EntryView> {
    entries.map_values(|e: CatalogueEntry| e@)
}

/// The entries of `raw`, by reference.
pub open spec fn entry_refs<'a>(raw: Seq<CatalogueEntry>) -> Seq<&'a CatalogueEntry> {
    Seq::new(raw.len(), |i: int| &raw[i])
}

/// The test for the entries of the channel `name`.
pub open spec fn in_channel<'a>(name: Seq<char>) -> spec_fn(&'a CatalogueEntry) -> bool {
    |e: &'a CatalogueEntry| e.json.channel@ == name
}

/// The entries of the channel `name`, in the order of the catalogue.
pub open spec fn channel_entries<'a>(raw: Seq<CatalogueEntry>, name: Seq<char>) -> Seq<
    &'a CatalogueEntry,
> {
    entry_refs(raw).filter(in_channel(name))
}

/// Whether one of `groups` is that of the channel `name`.
pub open spec fn has_group(groups: Seq<(String, Vec<&CatalogueEntry>)>, name: Seq<char>) -> bool {
    exists|g: int| 0 <= g < groups.len() && (#[trigger] groups[g]).0@ == name
}

/// Whether one of `channels` is the channel `name`.
pub open spec fn has_channel(channels: Seq<SeasonedStructure>, name: Seq<char>) -> bool {
    exists|c: int| 0 <= c < channels.len() && (#[trigger] channels[c]).channel_name@ == name
}

/// Whether `groups` divides the entries `raw` by channel: each group holds
/// the name of a channel that occurs and the entries of that channel in the
/// order of `raw`; no channel has two groups; every entry's channel has one.
/// The order of the groups is left open.
pub open spec fn is_grouping(raw: Seq<CatalogueEntry>, groups: Seq<(String, Vec<&CatalogueEntry>)>)
    -> bool {
    &&& forall|g: int|
        0 <= g < groups.len() ==> (#[trigger] groups[g]).1@ == channel_entries(raw, groups[g].0@)
            && groups[g].1@.len() > 0
    &&& forall|g: int, h: int|
        0 <= g < h < groups.len() ==> (#[trigger] groups[g]).0@ != (#[trigger] groups[h]).0@
    &&& forall|i: int| 0 <= i < raw.len() ==> has_group(groups, (#[trigger] raw[i]).json.channel@)
}

/// Whether `channels` are the channels of the entries `raw` with their
/// seasons: each structure bears the name of a channel that occurs and holds
/// the seasons of that channel's entries, taken in the order of `raw`; no
/// channel has two structures; every entry's channel has one. The order of the
/// structures is left open.
pub open spec fn is_channel_list(raw: Seq<CatalogueEntry>, channels: Seq<SeasonedStructure>)
    -> bool {
    &&& forall|c: int|
        0 <= c < channels.len() ==> is_seasons_of(
            channel_entries(raw, (#[trigger] channels[c]).channel_name@),
            channels[c].seasons@,
        ) && channel_entries(raw, channels[c].channel_name@).len() > 0
    &&& forall|c: int, d: int|
        0 <= c < d < channels.len() ==> (#[trigger] channels[c]).channel_name@ != (
        #[trigger] channels[d]).channel_name@
    &&& forall|i: int|
        0 <= i < raw.len() ==> has_channel(channels, (#[trigger] raw[i]).json.channel@)
}

/// Whether a file of this name is taken for a metadata file.
pub fn is_metadata_file(name: &str) -> (r: bool)
    ensures
        r == is_metadata_name(name@),
{
    match extension_of(name) {
        Some(ext) => {
            proof {
                reveal_strlit("json");
                assert("json"@ =~= metadata_extension());
            }
            str_eq(ext.as_str(), "json")
        },
        None => false,
    }
}

/// The videos found in one scan. It holds no short-form video, and every
/// entry has at least one file.
pub struct VideoCatalogue {
    raw: Vec<CatalogueEntry>,
}

impl View for VideoCatalogue {
    type V = Seq<CatalogueEntry>;

    closed spec fn view(&self) -> Seq<CatalogueEntry> {
        self.raw@
    }
}

impl VideoCatalogue {
    /// What holds of every catalogue: none of its entries is a short-form
    /// video, and each has a file.
    #[verifier::type_invariant]
    spec fn holds_only_catalogued_videos(&self) -> bool {
        forall|i: int|
            0 <= i < self.raw@.len() ==> !(#[trigger] self.raw@[i])@.json.is_short()
                && self.raw@[i]@.path.len() > 0
    }

    /// Builds the catalogue from the files of a scan, in their order. Files
    /// that are no metadata files, playlists and short-form videos add
    /// nothing. The first video without a date ends the scan with its error.
    pub fn build(files: Vec<ScannedFile>) -> (r: Result<VideoCatalogue, OrganizerError>)
        ensures
            match r {
                Ok(c) => entry_views(c@) == catalogued(files@) && forall|k: int|
                    0 <= k < files@.len() ==> !(#[trigger] files@[k]).fails(),
                Err(e) => exists|k: int|
                    0 <= k < files@.len() && (#[trigger] files@[k]).fails() && files@[k].is_error(e)
                        && forall|j: int| 0 <= j < k ==> !(#[trigger] files@[j]).fails(),
            },
    {
        let mut cat: Vec<CatalogueEntry> = Vec::new();
        let ghost all = files@;
        assert(entry_views(cat@) =~= catalogued(all.take(0)));
        for f in it: files
            invariant
                it.seq() == all,
                entry_views(cat@) == catalogued(all.take(it.index() as int)),
                forall|j: int| 0 <= j < it.index() ==> !(#[trigger] all[j]).fails(),
                forall|i: int|
                    0 <= i < cat@.len() ==> !(#[trigger] cat@[i])@.json.is_short()
                        && cat@[i]@.path.len() > 0,
        {
            let ghost k = it.index() as int;
            let ghost before = entry_views(cat@);
            assert(all.take(k + 1).drop_last() =~= all.take(k));
            assert(all.take(k + 1).last() == f);
            let ScannedFile { file, info, listing } = f;
            if is_metadata_file(file.file_name.as_str()) {
                match CatalogueEntry::new(&file, info, &listing) {
                    Ok(Some(entry)) => {
                        cat.push(entry);
                        assert(entry_views(cat@) =~= before.push(entry@));
                    },
                    Ok(None) => {},
                    Err(e) => {
                        assert(all[k].fails() && all[k].is_error(e));
                        return Err(e);
                    },
                }
            }
        }
        assert(all.take(all.len() as int) =~= all);
        Ok(VideoCatalogue { raw: cat })
    }

    /// The entries of the catalogue, in the order of the scan. None of them
    /// is a short-form video, and each has a file.
    pub fn entries(&self) -> (r: &Vec<CatalogueEntry>)
        ensures
            r@ == self@,
            forall|i: int|
                0 <= i < r@.len() ==> !(#[trigger] r@[i])@.json.is_short() && r@[i]@.path.len()
                    > 0,
    {
        proof {
            use_type_invariant(self);
        }
        &self.raw
    }

    /// Groups the entries with itertools' `into_group_map_by`, keyed by the
    /// name of the channel, and hands out the groups of the map it returns.
    /// The contract says what that function documents: each key is mapped to
    /// the entries that have it, in the order in which they came. A hash map
    /// is walked in no fixed order, so nothing is said of the order of the
    /// groups.
    #[verifier::external_body]
    fn by_channel<'a>(&'a self) -> (groups: Vec<(String, Vec<&'a CatalogueEntry>)>)
        ensures
            is_grouping(self@, groups@),
    {
        itertools::Itertools::into_group_map_by(self.raw.iter(), |e| e.json.channel.clone())
            .into_iter()
            .collect()
    }

    /// The channels of the catalogue, each with its seasons, in no fixed
    /// order.
    pub fn build_seasons<'a>(&'a self) -> (r: Vec<SeasonedStructure<'a>>)
        ensures
            is_channel_list(self@, r@),
    {
        let chans = self.by_channel();
        let ghost groups = chans@;
        let r = VideoCatalogue::seasons_of_groups(chans);
        proof {
            assert forall|c: int| 0 <= c < r@.len() implies is_seasons_of(
                channel_entries(self@, (#[trigger] r@[c]).channel_name@),
                r@[c].seasons@,
            ) && channel_entries(self@, r@[c].channel_name@).len() > 0 by {
                assert(groups[c].1@ == channel_entries(self@, groups[c].0@));
            }
            assert forall|c: int, d: int| 0 <= c < d < r@.len() implies (
            #[trigger] r@[c]).channel_name@ != (#[trigger] r@[d]).channel_name@ by {
                assert(groups[c].0@ != groups[d].0@);
            }
            assert forall|i: int| 0 <= i < self@.len() implies has_channel(
                r@,
                (#[trigger] self@[i]).json.channel@,
            ) by {
                assert(has_group(groups, self@[i].json.channel@));
                let h = choose|h: int|
                    0 <= h < groups.len() && (#[trigger] groups[h]).0@ == self@[i].json.channel@;
                assert(r@[h].channel_name@ == groups[h].0@);
            }
        }
        r
    }

    /// The seasons of each of `groups`, a group being the name of a channel
    /// and its entries: one structure for each group, in the order of the
    /// groups.
    pub fn seasons_of_groups<'a>(groups: Vec<(String, Vec<&'a CatalogueEntry>)>) -> (r: Vec<
        SeasonedStructure<'a>,
    >)
        ensures
            r@.len() == groups@.len(),
            forall|c: int|
                0 <= c < r@.len() ==> (#[trigger] r@[c]).channel_name@ == groups@[c].0@
                    && is_seasons_of(groups@[c].1@, r@[c].seasons@),
    {
        let mut r: Vec<SeasonedStructure<'a>> = Vec::new();
        let ghost all = groups@;
        for group in it: groups
            invariant
                it.seq() == all,
                r@.len() == it.index(),
                forall|c: int|
                    0 <= c < r@.len() ==> (#[trigger] r@[c]).channel_name@ == all[c].0@
                        && is_seasons_of(all[c].1@, r@[c].seasons@),
        {
            let (name, vids) = group;
            r.push(VideoCatalogue::build_channel(name.as_str(), vids));
        }
        r
    }

    /// The seasons of the channel `name`, whose entries are `vids`: the
    /// entries are ordered by date, entries of equal date staying as they
    /// came, and split where the year changes; the seasons are numbered from
    /// 1 in that order.
    pub fn build_channel<'a>(name: &str, vids: Vec<&'a CatalogueEntry>) -> (r: SeasonedStructure<
        'a,
    >)
        ensures
            r.channel_name@ == name@,
            is_seasons_of(vids@, r.seasons@),
    {
        let mut seasons: Vec<Season<'a>> = Vec::new();
        let sorted = sort_by_date(&vids);
        let runs = chunk_by_year(&sorted);
        let mut index: usize = 0;
        while index < runs.len()
            invariant
                index <= runs.len(),
                seasons@.len() == index,
                forall|k: int|
                    0 <= k < index ==> (#[trigger] seasons@[k]).number == k + 1 && seasons@[k].videos@
                        == runs@[k]@,
            decreases runs.len() - index,
        {
            let run = &runs[index];
            let mut videos_in_season: Vec<&'a CatalogueEntry> = Vec::new();
            let mut j: usize = 0;
            while j < run.len()
                invariant
                    j <= run.len(),
                    videos_in_season@ == run@.take(j as int),
                decreases run.len() - j,
            {
                videos_in_season.push(run[j]);
                assert(run@.take(j + 1) =~= run@.take(j as int).push(run@[j as int]));
                j += 1;
            }
            assert(run@.take(j as int) =~= run@);
            seasons.push(Season { number: index + 1, videos: videos_in_season });
            index += 1;
        }
        assert(season_videos(seasons@) =~= run_views(runs@));
        SeasonedStructure { channel_name: name.to_owned(), seasons }
    }
}

} // verus!
