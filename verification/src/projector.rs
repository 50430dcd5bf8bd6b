//! Laying a channel out as a tree: which directories to make and which links
//! to put into them. Nothing here touches the file system; the caller carries
//! the steps out and reports how each write went.

use vstd::prelude::*;
use vstd::string::*;
use crate::error::OrganizerError;
use crate::record::{CatalogueEntry, EntryView, SourceFileView};
use crate::seasons::{Season, SeasonedStructure};
use crate::text::{
    decimal, decimal_string, extension_of, file_extension, lemma_sanitized, replace_slashes,
    sanitized,
};

verus! {

/// A path below a root: the root, then one component after the other.
#[derive(Debug, Clone, PartialEq, Eq)]
pub struct TargetPath {
    pub root: String,
    pub segments: Vec<String>,
}

/// The mathematical value of a `TargetPath`.
pub struct TargetPathView {
    pub root: Seq<char>,
    pub segments: Seq<Seq<char>>,
}

impl TargetPathView {
    /// The path one component further down.
    pub open spec fn join(self, segment: Seq<char>) -> TargetPathView {
        TargetPathView { root: self.root, segments: self.segments.push(segment) }
    }
}

/// The characters of each of `strings`.
pub open spec fn string_views(strings: Seq<String>) -> Seq<Seq<char>> {
    strings.map_values(|s: String| s@)
}

impl View for TargetPath {
    type V = TargetPathView;

    open spec fn view(&self) -> TargetPathView {
        TargetPathView { root: self.root@, segments: string_views(self.segments@) }
    }
}

impl TargetPath {
    /// The path one component further down.
    pub fn join(&self, segment: String) -> (r: TargetPath)
        ensures
            r@ == self@.join(segment@),
    {
        let mut r = self.duplicate();
        let ghost before = string_views(r.segments@);
        r.segments.push(segment);
        assert(string_views(r.segments@) =~= before.push(segment@));
        r
    }

    /// A copy of the path.
    pub fn duplicate(&self) -> (r: TargetPath)
        ensures
            r@ == self@,
    {
        let mut segments: Vec<String> = Vec::new();
        let mut i: usize = 0;
        assert(string_views(segments@) =~= string_views(self.segments@).take(0));
        while i < self.segments.len()
            invariant
                i <= self.segments.len(),
                string_views(segments@) == string_views(self.segments@).take(i as int),
            decreases self.segments.len() - i,
        {
            let ghost before = string_views(segments@);
            let segment = self.segments[i].clone();
            segments.push(segment);
            assert(string_views(segments@) =~= before.push(segment@));
            assert(string_views(self.segments@).take(i + 1) =~= string_views(
                self.segments@,
            ).take(i as int).push(self.segments@[i as int]@));
            i += 1;
        }
        assert(string_views(self.segments@).take(i as int) =~= string_views(self.segments@));
        TargetPath { root: self.root.clone(), segments }
    }
}

/// A write to the target tree.
#[derive(Debug, Clone, PartialEq, Eq)]
pub enum Operation {
    /// Make sure that the directory exists, with all directories above it.
    CreateDirectory { path: TargetPath },
    /// Make a symbolic link at `target` that points at `source`.
    Link { source: String, target: TargetPath },
}

/// The mathematical value of an `Operation`.
pub enum OperationView {
    CreateDirectory { path: TargetPathView },
    Link { source: Seq<char>, target: TargetPathView },
}

impl View for Operation {
    type V = OperationView;

    open spec fn view(&self) -> OperationView {
        match *self {
            Operation::CreateDirectory { path } => OperationView::CreateDirectory { path: path@ },
            Operation::Link { source, target } => OperationView::Link {
                source: source@,
                target: target@,
            },
        }
    }
}

/// One step of laying out a channel: a write, whether to report it, and
/// whether to carry it out.
#[derive(Debug, Clone, PartialEq, Eq)]
pub struct Step {
    pub operation: Operation,
    pub announce: bool,
    pub perform: bool,
}

/// The mathematical value of a `Step`.
pub struct StepView {
    pub operation: OperationView,
    pub announce: bool,
    pub perform: bool,
}

impl View for Step {
    type V = StepView;

    open spec fn view(&self) -> StepView {
        StepView { operation: self.operation@, announce: self.announce, perform: self.perform }
    }
}

/// The values of `steps`, in order.
pub open spec fn step_views(steps: Seq<Step>) -> Seq<StepView> {
    steps.map_values(|s: Step| s@)
}

/// How the file system answered a write.
#[derive(Debug, Clone, Copy, PartialEq, Eq, Structural)]
pub enum WriteResult {
    /// The write went through.
    Done,
    /// It was refused because something exists at the path already.
    AlreadyExists,
    /// It was refused for any other reason.
    Failed,
}

/// What a step has come to.
#[derive(Debug, Clone, Copy, PartialEq, Eq, Structural)]
pub enum Outcome {
    /// What the step asked for was made.
    Created,
    /// What the step asked for was there before.
    AlreadyPresent,
    /// The step failed; the run ends here.
    Failed,
}

/// What the answer `result` of the file system means for a step. That
/// something exists already at the path is the expected state of a tree that
/// was laid out before, and as good as having made it; every other refusal
/// fails the step.
pub open spec fn outcome_of(result: WriteResult) -> Outcome {
    match result {
        WriteResult::Done => Outcome::Created,
        WriteResult::AlreadyExists => Outcome::AlreadyPresent,
        WriteResult::Failed => Outcome::Failed,
    }
}

impl Step {
    /// Judges the answer of the file system to this step: the outcome, or
    /// the error that ends the run.
    pub fn conclude(&self, result: WriteResult) -> (r: Result<Outcome, OrganizerError>)
        ensures
            match r {
                Ok(o) => o == outcome_of(result) && o != Outcome::Failed,
                Err(e) => outcome_of(result) == Outcome::Failed && e == OrganizerError::WriteFailed,
            },
    {
        match result {
            WriteResult::Done => Ok(Outcome::Created),
            WriteResult::AlreadyExists => Ok(Outcome::AlreadyPresent),
            WriteResult::Failed => Err(OrganizerError::WriteFailed),
        }
    }
}

/// A step that finds its directory or link in place does not fail: laying out
/// a tree that was laid out before goes through without error.
pub proof fn lemma_existing_target_is_no_error(result: WriteResult)
    requires
        result != WriteResult::Failed,
    ensures
        outcome_of(result) != Outcome::Failed,
{
}

/// The name of the directory of season `number`.
pub open spec fn season_directory_name(number: nat) -> Seq<char> {
    seq!['S', 'e', 'a', 's', 'o', 'n', ' '] + decimal(number)
}

/// The name of the link to a file of extension `extension` that belongs to
/// the video shown as `title`: the title with every `/` replaced by `_`, a
/// dot, and the extension as it is.
pub open spec fn link_name(title: Seq<char>, extension: Seq<char>) -> Seq<char> {
    sanitized(title) + seq!['.'] + extension
}

/// The extension of the file name `name`, or nothing where it has none.
pub open spec fn extension_or_empty(name: Seq<char>) -> Seq<char> {
    match file_extension(name) {
        Some(e) => e,
        None => Seq::empty(),
    }
}

/// The link for the file `file` of the video `e` in the directory `dir`.
pub open spec fn link_operation(dir: TargetPathView, e: EntryView, file: SourceFileView)
    -> OperationView {
    OperationView::Link {
        source: file.path,
        target: dir.join(link_name(e.json.display_title(), extension_or_empty(file.file_name))),
    }
}

/// The links for the video `e` in the directory `dir`: one for each of its
/// files, in their order.
pub open spec fn video_operations(dir: TargetPathView, e: EntryView) -> Seq<OperationView> {
    Seq::new(e.path.len(), |i: int| link_operation(dir, e, e.path[i]))
}

/// The directory of `season` below `base`.
pub open spec fn season_directory(base: TargetPathView, season: Season) -> TargetPathView {
    base.join(season_directory_name(season.number as nat))
}

/// The writes for `season` below `base`: its directory, then the links of
/// its videos in their order.
pub open spec fn season_operations(base: TargetPathView, season: Season) -> Seq<OperationView> {
    seq![OperationView::CreateDirectory { path: season_directory(base, season) }] + Seq::new(
        season.videos@.len(),
        |j: int| video_operations(season_directory(base, season), season.videos@[j]@),
    ).flatten()
}

/// The writes for a channel with the directory `base`: that directory, then
/// the writes of its seasons in their order.
pub open spec fn channel_operations(base: TargetPathView, seasons: Seq<Season>) -> Seq<
    OperationView,
> {
    seq![OperationView::CreateDirectory { path: base }] + Seq::new(
        seasons.len(),
        |k: int| season_operations(base, seasons[k]),
    ).flatten()
}

/// The operations `ops` as steps of a run: each is reported in a preview or
/// a verbose run, and carried out unless the run is a preview.
pub open spec fn steps_of(ops: Seq<OperationView>, dry_run: bool, verbose: bool) -> Seq<StepView> {
    Seq::new(
        ops.len(),
        |i: int| StepView { operation: ops[i], announce: dry_run || verbose, perform: !dry_run },
    )
}

/// A preview and a run that writes lay out the same writes in the same order;
/// the preview reports each and performs none, the run performs each.
pub proof fn lemma_preview_plans_the_same_writes(
    ops: Seq<OperationView>,
    preview_verbose: bool,
    run_verbose: bool,
)
    ensures
        steps_of(ops, true, preview_verbose).len() == steps_of(ops, false, run_verbose).len(),
        forall|i: int|
            0 <= i < ops.len() ==> (#[trigger] steps_of(ops, true, preview_verbose)[i]).operation
                == steps_of(ops, false, run_verbose)[i].operation,
        forall|i: int|
            0 <= i < ops.len() ==> !(#[trigger] steps_of(ops, true, preview_verbose)[i]).perform
                && steps_of(ops, true, preview_verbose)[i].announce,
        forall|i: int|
            0 <= i < ops.len() ==> (#[trigger] steps_of(ops, false, run_verbose)[i]).perform,
{
}

/// The name of a link is one path component: it holds no `/` unless the
/// extension does.
pub proof fn lemma_link_name_is_one_component(title: Seq<char>, extension: Seq<char>)
    requires
        !extension.contains('/'),
    ensures
        !link_name(title, extension).contains('/'),
{
    lemma_sanitized(title);
    let name = link_name(title, extension);
    if name.contains('/') {
        let i = choose|i: int| 0 <= i < name.len() && name[i] == '/';
        if i < title.len() {
            assert(sanitized(title)[i] == name[i]);
            assert(sanitized(title).contains('/'));
        } else if i > title.len() {
            assert(extension[i - title.len() - 1] == name[i]);
            assert(extension.contains('/'));
        }
    }
}

/// Whether each file of the video `e` has an extension, so that its link can
/// be named.
pub open spec fn video_linkable(e: EntryView) -> bool {
    forall|i: int| 0 <= i < e.path.len() ==> file_extension((#[trigger] e.path[i]).file_name) is Some
}

/// Whether file `i` is the first file of the video `e` that has no extension.
pub open spec fn is_first_unlinkable(e: EntryView, i: int) -> bool {
    &&& 0 <= i < e.path.len()
    &&& file_extension(e.path[i].file_name) is None
    &&& forall|h: int| 0 <= h < i ==> file_extension((#[trigger] e.path[h]).file_name) is Some
}

/// Whether each video of `season` is linkable.
pub open spec fn season_linkable(season: Season) -> bool {
    forall|j: int| 0 <= j < season.videos@.len() ==> video_linkable((#[trigger] season.videos@[j])@)
}

/// Whether `e` is the error of the first file of `season` that has no
/// extension: it holds the path of that file.
pub open spec fn is_season_error(season: Season, e: OrganizerError) -> bool {
    exists|j: int|
        0 <= j < season.videos@.len() && has_video_error((#[trigger] season.videos@[j])@, e)
            && forall|h: int| 0 <= h < j ==> video_linkable((#[trigger] season.videos@[h])@)
}

/// Whether `e` is the error of the first file of the video `v` that has no
/// extension.
pub open spec fn has_video_error(v: EntryView, e: OrganizerError) -> bool {
    exists|i: int| #[trigger] is_video_error(v, i, e)
}

/// Whether file `i` is the first of the video `v` without extension and `e`
/// is the error that holds its path.
pub open spec fn is_video_error(v: EntryView, i: int, e: OrganizerError) -> bool {
    &&& is_first_unlinkable(v, i)
    &&& e matches OrganizerError::WrongPathBuf(p)
    &&& p@ == v.path[i].path
}

/// Whether each season of `seasons` is linkable.
pub open spec fn channel_linkable(seasons: Seq<Season>) -> bool {
    forall|k: int| 0 <= k < seasons.len() ==> season_linkable(#[trigger] seasons[k])
}

/// Whether `e` is the error of the first file of `seasons` that has no
/// extension.
pub open spec fn is_channel_error(seasons: Seq<Season>, e: OrganizerError) -> bool {
    exists|k: int|
        0 <= k < seasons.len() && is_season_error(#[trigger] seasons[k], e) && forall|h: int|
            0 <= h < k ==> season_linkable(#[trigger] seasons[h])
}

/// Lays one channel out below a base directory.
pub struct DirectoryBuilder<'a> {
    channel: SeasonedStructure<'a>,
    base: TargetPath,
    dry_run: bool,
    verbose: bool,
}

impl<'a> DirectoryBuilder<'a> {
    /// The seasons that the builder lays out.
    pub closed spec fn seasons(&self) -> Seq<Season<'a>> {
        self.channel.seasons@
    }

    /// The directory of the channel.
    pub closed spec fn base(&self) -> TargetPathView {
        self.base@
    }

    /// Whether the run is a preview, in which nothing is written.
    pub closed spec fn is_dry_run(&self) -> bool {
        self.dry_run
    }

    /// Whether writes are reported also when they are carried out.
    pub closed spec fn is_verbose(&self) -> bool {
        self.verbose
    }

    /// The steps of the run, where every file can be linked.
    pub open spec fn plan(&self) -> Seq<StepView> {
        steps_of(channel_operations(self.base(), self.seasons()), self.is_dry_run(), self.is_verbose())
    }

    /// A preview of a channel lays out what a run that writes would write,
    /// step by step, and performs none of it.
    pub proof fn lemma_preview_matches_run(&self, run: &DirectoryBuilder<'a>)
        requires
            self.is_dry_run(),
            !run.is_dry_run(),
            self.base() == run.base(),
            self.seasons() == run.seasons(),
        ensures
            self.plan().len() == run.plan().len(),
            forall|i: int|
                0 <= i < self.plan().len() ==> (#[trigger] self.plan()[i]).operation
                    == run.plan()[i].operation,
            forall|i: int|
                0 <= i < self.plan().len() ==> !(#[trigger] self.plan()[i]).perform
                    && self.plan()[i].announce,
            forall|i: int| 0 <= i < run.plan().len() ==> (#[trigger] run.plan()[i]).perform,
    {
        lemma_preview_plans_the_same_writes(
            channel_operations(self.base(), self.seasons()),
            self.is_verbose(),
            run.is_verbose(),
        );
    }

    /// A builder that lays `channel` out in the directory of its name below
    /// `base_path`. The run is verbose.
    pub fn new(base_path: &str, channel: SeasonedStructure<'a>, dry_run: bool) -> (r: Self)
        ensures
            r.seasons() == channel.seasons@,
            r.base() == (TargetPathView {
                root: base_path@,
                segments: seq![channel.channel_name@],
            }),
            r.is_dry_run() == dry_run,
            r.is_verbose(),
    {
        let mut segments: Vec<String> = Vec::new();
        segments.push(channel.channel_name.clone());
        assert(string_views(segments@) =~= seq![channel.channel_name@]);
        let base = TargetPath { root: base_path.to_owned(), segments };
        Self { channel, base, dry_run, verbose: true }
    }

    /// The step for `operation` in this run.
    fn step(&self, operation: Operation) -> (r: Step)
        ensures
            r@ == (StepView {
                operation: operation@,
                announce: self.is_dry_run() || self.is_verbose(),
                perform: !self.is_dry_run(),
            }),
    {
        Step { operation, announce: self.dry_run || self.verbose, perform: !self.dry_run }
    }

    /// The step that links `target` to `source`.
    pub fn create_symlink(&self, source: &str, target: TargetPath) -> (r: Step)
        ensures
            r@ == steps_of(
                seq![OperationView::Link { source: source@, target: target@ }],
                self.is_dry_run(),
                self.is_verbose(),
            )[0],
    {
        self.step(Operation::Link { source: source.to_owned(), target })
    }

    /// The step that makes the directory of `season`, and that directory.
    pub fn create_season_directory(&self, season: &Season<'a>) -> (r: (TargetPath, Step))
        ensures
            r.0@ == season_directory(self.base(), *season),
            r.1@ == steps_of(
                seq![OperationView::CreateDirectory { path: r.0@ }],
                self.is_dry_run(),
                self.is_verbose(),
            )[0],
    {
        let mut name = String::new();
        proof {
            reveal_strlit("Season ");
            assert("Season "@ =~= seq!['S', 'e', 'a', 's', 'o', 'n', ' ']);
        }
        name.append("Season ");
        name.append(decimal_string(season.number).as_str());
        assert(name@ =~= season_directory_name(season.number as nat));
        let season_dir = self.base.join(name);
        let path = season_dir.duplicate();
        (season_dir, self.step(Operation::CreateDirectory { path }))
    }

    /// The step that makes the directory of the channel.
    pub fn create_channel_directory(&self) -> (r: Step)
        ensures
            r@ == steps_of(
                seq![OperationView::CreateDirectory { path: self.base() }],
                self.is_dry_run(),
                self.is_verbose(),
            )[0],
    {
        self.step(Operation::CreateDirectory { path: self.base.duplicate() })
    }

    /// The steps that link the files of the video `entry` into `season_dir`.
    /// A file without extension cannot be linked: the first such file ends
    /// the run with an error that holds its path.
    pub fn link_video_data(&self, season_dir: &TargetPath, entry: &'a CatalogueEntry) -> (r: Result<
        Vec<Step>,
        OrganizerError,
    >)
        ensures
            match r {
                Ok(steps) => video_linkable(entry@) && step_views(steps@) == steps_of(
                    video_operations(season_dir@, entry@),
                    self.is_dry_run(),
                    self.is_verbose(),
                ),
                Err(e) => has_video_error(entry@, e),
            },
    {
        let title = entry.get_title();
        let base_file_name = replace_slashes(title.as_str());
        let mut steps: Vec<Step> = Vec::new();
        let ghost ops = video_operations(season_dir@, entry@);
        let mut i: usize = 0;
        while i < entry.path.len()
            invariant
                i <= entry.path.len(),
                base_file_name@ == sanitized(entry@.json.display_title()),
                ops == video_operations(season_dir@, entry@),
                step_views(steps@) == steps_of(ops.take(i as int), self.is_dry_run(), self.is_verbose()),
                forall|h: int|
                    0 <= h < i ==> file_extension((#[trigger] entry@.path[h]).file_name) is Some,
            decreases entry.path.len() - i,
        {
            let file = &entry.path[i];
            assert(entry@.path[i as int] == file@);
            let ext = match extension_of(file.file_name.as_str()) {
                Some(ext) => ext,
                None => {
                    let e = OrganizerError::WrongPathBuf(file.path.clone());
                    assert(is_video_error(entry@, i as int, e));
                    return Err(e);
                },
            };
            let mut name = base_file_name.clone();
            proof {
                reveal_strlit(".");
                assert("."@ =~= seq!['.']);
            }
            name.append(".");
            name.append(ext.as_str());
            let target = season_dir.join(name);
            let ghost before = step_views(steps@);
            let step = self.create_symlink(file.path.as_str(), target);
            assert(step@.operation == ops[i as int]);
            steps.push(step);
            assert(step_views(steps@) =~= before.push(step@));
            assert(step_views(steps@) =~= steps_of(
                ops.take(i + 1),
                self.is_dry_run(),
                self.is_verbose(),
            ));
            i += 1;
        }
        assert(ops.take(i as int) =~= ops);
        Ok(steps)
    }

    /// The steps for `season`: its directory, then the links of its videos.
    pub fn season_steps(&self, season: &Season<'a>) -> (r: Result<Vec<Step>, OrganizerError>)
        ensures
            match r {
                Ok(steps) => season_linkable(*season) && step_views(steps@) == steps_of(
                    season_operations(self.base(), *season),
                    self.is_dry_run(),
                    self.is_verbose(),
                ),
                Err(e) => is_season_error(*season, e),
            },
    {
        let (season_dir, first) = self.create_season_directory(season);
        let mut steps: Vec<Step> = Vec::new();
        steps.push(first);
        let ghost dir = season_dir@;
        let ghost head = seq![OperationView::CreateDirectory { path: dir }];
        let ghost per_video = Seq::new(
            season.videos@.len(),
            |j: int| video_operations(dir, season.videos@[j]@),
        );
        assert(step_views(steps@) =~= steps_of(
            head + per_video.take(0).flatten(),
            self.is_dry_run(),
            self.is_verbose(),
        ));
        let mut j: usize = 0;
        while j < season.videos.len()
            invariant
                j <= season.videos.len(),
                dir == season_dir@,
                dir == season_directory(self.base(), *season),
                head == seq![OperationView::CreateDirectory { path: dir }],
                per_video == Seq::new(
                    season.videos@.len(),
                    |j: int| video_operations(dir, season.videos@[j]@),
                ),
                step_views(steps@) == steps_of(
                    head + per_video.take(j as int).flatten(),
                    self.is_dry_run(),
                    self.is_verbose(),
                ),
                forall|h: int| 0 <= h < j ==> video_linkable((#[trigger] season.videos@[h])@),
            decreases season.videos.len() - j,
        {
            let vid: &'a CatalogueEntry = season.videos[j];
            let ghost before = step_views(steps@);
            match self.link_video_data(&season_dir, vid) {
                Ok(mut links) => {
                    let ghost added = step_views(links@);
                    steps.append(&mut links);
                    proof {
                        assert(step_views(steps@) =~= before + added);
                        assert(per_video.take(j + 1) =~= per_video.take(j as int).push(
                            per_video[j as int],
                        ));
                        per_video.take(j as int).lemma_flatten_push(per_video[j as int]);
                        assert(step_views(steps@) =~= steps_of(
                            head + per_video.take(j + 1).flatten(),
                            self.is_dry_run(),
                            self.is_verbose(),
                        ));
                    }
                },
                Err(e) => {
                    assert(is_season_error(*season, e)) by {
                        assert(has_video_error(season.videos@[j as int]@, e));
                    }
                    return Err(e);
                },
            }
            j += 1;
        }
        assert(per_video.take(j as int) =~= per_video);
        Ok(steps)
    }

    /// The steps that lay the channel out: the directory of the channel, then
    /// for each season its directory and the links of its videos, one for
    /// each file of each video. The steps are the same in a preview and in a
    /// run that writes; only their flags differ.
    pub fn build(&self) -> (r: Result<Vec<Step>, OrganizerError>)
        ensures
            match r {
                Ok(steps) => channel_linkable(self.seasons()) && step_views(steps@) == self.plan(),
                Err(e) => is_channel_error(self.seasons(), e),
            },
    {
        let mut steps: Vec<Step> = Vec::new();
        steps.push(self.create_channel_directory());
        let ghost head = seq![OperationView::CreateDirectory { path: self.base() }];
        let ghost per_season = Seq::new(
            self.seasons().len(),
            |k: int| season_operations(self.base(), self.seasons()[k]),
        );
        assert(step_views(steps@) =~= steps_of(
            head + per_season.take(0).flatten(),
            self.is_dry_run(),
            self.is_verbose(),
        ));
        let mut k: usize = 0;
        while k < self.channel.seasons.len()
            invariant
                k <= self.channel.seasons.len(),
                head == seq![OperationView::CreateDirectory { path: self.base() }],
                per_season == Seq::new(
                    self.seasons().len(),
                    |k: int| season_operations(self.base(), self.seasons()[k]),
                ),
                step_views(steps@) == steps_of(
                    head + per_season.take(k as int).flatten(),
                    self.is_dry_run(),
                    self.is_verbose(),
                ),
                forall|h: int| 0 <= h < k ==> season_linkable(#[trigger] self.seasons()[h]),
            decreases self.channel.seasons.len() - k,
        {
            let season = &self.channel.seasons[k];
            let ghost before = step_views(steps@);
            match self.season_steps(season) {
                Ok(mut more) => {
                    let ghost added = step_views(more@);
                    steps.append(&mut more);
                    proof {
                        assert(step_views(steps@) =~= before + added);
                        assert(per_season.take(k + 1) =~= per_season.take(k as int).push(
                            per_season[k as int],
                        ));
                        per_season.take(k as int).lemma_flatten_push(per_season[k as int]);
                        assert(step_views(steps@) =~= steps_of(
                            head + per_season.take(k + 1).flatten(),
                            self.is_dry_run(),
                            self.is_verbose(),
                        ));
                    }
                },
                Err(e) => {
                    assert(is_season_error(self.seasons()[k as int], e));
                    return Err(e);
                },
            }
            k += 1;
        }
        assert(per_season.take(k as int) =~= per_season);
        Ok(steps)
    }
}

} // verus!
