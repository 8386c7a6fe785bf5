//! The orchestrator: one pass over the files that a walk has found.
//!
//! The organizer takes the files one after the other. For each it decides
//! what is to be done next (read the file's size and day of last change,
//! list the destination directory, move the file) and, once it has been told how
//! that went, what became of the file. The caller does what is asked and
//! hands back what it found; the organizer itself touches nothing.

use crate::clock::{has_calendar_day, local_day_of, local_today};
use crate::collision::{resolve_collision_on, resolved};
use crate::config::{owner, CategoryModel, Config};
use crate::duplicates::{DuplicateTracker, Fingerprint, FingerprintModel};
use crate::junk::{is_hidden_or_junk, is_junk};
use crate::mover::{has_arrived, MoveOutcome};
use crate::paths::{
    extension,
    extension_of,
    file_name,
    file_name_of,
    has_extension,
    join,
    join_path,
    parent,
    parent_of,
    relative_path,
    relative_to,
};
use crate::text::{lowercase, texts};
use vstd::prelude::*;

verus! {

/// What a run is asked to do.
#[derive(Debug)]
pub struct OrganizeOpts {
    /// The directory to organize.
    pub path: String,
    /// Whether the run only says what it would do.
    pub dry_run: bool,
    /// Whether files that repeat an earlier one are left where they are.
    pub find_duplicates: bool,
    /// Whether a file keeps its place below the root inside its category.
    pub keep_structure: bool,
}

/// The options as the contracts see them.
pub ghost struct Settings {
    pub root: Seq<char>,
    pub dry_run: bool,
    pub find_duplicates: bool,
    pub keep_structure: bool,
}

impl View for OrganizeOpts {
    type V = Settings;

    open spec fn view(&self) -> Settings {
        Settings {
            root: self.path@,
            dry_run: self.dry_run,
            find_duplicates: self.find_duplicates,
            keep_structure: self.keep_structure,
        }
    }
}

/// What became of the files of a run.
#[derive(Clone, Copy, Debug, PartialEq, Eq, Structural)]
pub struct Stats {
    /// Files moved, or in a dry run files that would be.
    pub moved: usize,
    /// Files left in place because they repeat an earlier one.
    pub duplicates: usize,
    /// Files left in place because they have no extension or no category.
    pub skipped: usize,
    /// Files that could not be moved.
    pub errors: usize,
}

impl Stats {
    /// The number of files counted.
    pub open spec fn total(self) -> int {
        self.moved + self.duplicates + self.skipped + self.errors
    }

    /// Whether no counter is lower than in `earlier`.
    pub open spec fn extends(self, earlier: Stats) -> bool {
        &&& earlier.moved <= self.moved
        &&& earlier.duplicates <= self.duplicates
        &&& earlier.skipped <= self.skipped
        &&& earlier.errors <= self.errors
    }
}

/// Why a file was left where it is without being counted as a duplicate.
#[derive(Clone, Copy, Debug, PartialEq, Eq, Structural)]
pub enum SkipReason {
    /// The file is junk. It is not counted.
    Junk,
    /// The file's name has no extension.
    NoExtension,
    /// No category owns the file's extension.
    NoCategory,
}

/// The directory that a file of the given category goes to: the category's
/// folder below the root, and below that, where the structure is kept, the
/// directory in which the file lies as seen from the root.
pub open spec fn destination_dir(settings: Settings, category: Seq<char>, path: Seq<char>) -> Seq<
    char,
> {
    let folder = join(settings.root, category);
    let sub = parent(relative_to(path, settings.root));
    if settings.keep_structure && sub.len() > 0 {
        join(folder, sub)
    } else {
        folder
    }
}

/// Computes `destination_dir`.
pub fn destination_dir_of(opts: &OrganizeOpts, category: &str, path: &str) -> (dir: String)
    ensures
        dir@ == destination_dir(opts@, category@, path@),
{
    let folder = join_path(opts.path.as_str(), category);
    if opts.keep_structure {
        let sub = parent_of(relative_path(path, opts.path.as_str()));
        if sub.unicode_len() > 0 {
            return join_path(folder.as_str(), sub);
        }
    }
    folder
}

/// What the organizer waits for.
pub ghost enum PhaseModel {
    /// Nothing: the next file can be taken up.
    Ready,
    /// The size and the day of last change of the file in hand.
    AwaitMetadata { ext: Seq<char> },
    /// The names that the destination directory holds.
    AwaitListing { ext: Seq<char>, dir: Seq<char> },
    /// The outcome of the move.
    AwaitMove { destination: Seq<char> },
}

/// What the caller reports.
pub ghost enum EventModel {
    Proceed,
    Metadata { size: u64, modified_day: Seq<char> },
    Listing { names: Seq<Seq<char>>, today: Seq<char> },
    Moved { arrived: bool, reason: Seq<char> },
}

/// What the organizer answers.
pub ghost enum ActionModel {
    ReadMetadata { path: Seq<char> },
    ListDirectory { dir: Seq<char> },
    Move { from: Seq<char>, to: Seq<char>, dir: Seq<char> },
    Skipped { source: Seq<char>, why: SkipReason },
    Duplicate { name: Seq<char>, first_seen: Seq<char> },
    Previewed { source: Seq<char>, destination: Seq<char> },
    Moved { source: Seq<char>, destination: Seq<char> },
    Failed { source: Seq<char>, reason: Seq<char> },
    Finished { stats: Stats },
    Unexpected,
}

/// The state of a run as the contracts see it.
pub ghost struct OrganizerModel {
    pub settings: Settings,
    pub categories: Seq<CategoryModel>,
    /// The files to organize, in the order in which they are taken up.
    pub files: Seq<Seq<char>>,
    /// How many of the files are done with.
    pub cursor: nat,
    /// The fingerprints seen, each with the file that first had it.
    pub seen: Map<FingerprintModel, Seq<char>>,
    pub stats: Stats,
    pub phase: PhaseModel,
}

impl OrganizerModel {
    /// Whether the state is one that a run can be in: the files can be
    /// counted, no more of them are done with than there are, no more are
    /// counted than are done with, and the organizer waits only while a file
    /// is in hand.
    pub open spec fn wf(self) -> bool {
        &&& self.cursor <= self.files.len() <= usize::MAX
        &&& self.stats.total() <= self.cursor
        &&& !(self.phase is Ready) ==> self.cursor < self.files.len()
    }

    /// The file in hand.
    pub open spec fn current(self) -> Seq<char> {
        self.files[self.cursor as int]
    }

    /// The file in hand as seen from the root.
    pub open spec fn source(self) -> Seq<char> {
        relative_to(self.current(), self.settings.root)
    }

    /// The state once the file in hand is done with and the counters are
    /// `stats`.
    pub open spec fn done_with(self, stats: Stats) -> OrganizerModel {
        OrganizerModel { cursor: self.cursor + 1, stats, phase: PhaseModel::Ready, ..self }
    }

    /// Taking up the next file. Junk is passed over uncounted; a name
    /// without extension is skipped; for any other file the size and the day
    /// of last change are asked for, and the extension is kept in lowercase.
    pub open spec fn begin(self) -> (OrganizerModel, ActionModel) {
        if self.cursor >= self.files.len() {
            (self, ActionModel::Finished { stats: self.stats })
        } else if is_junk(self.current()) {
            (
                self.done_with(self.stats),
                ActionModel::Skipped { source: self.source(), why: SkipReason::Junk },
            )
        } else if !has_extension(file_name(self.current())) {
            (
                self.done_with(
                    Stats { skipped: (self.stats.skipped + 1) as usize, ..self.stats },
                ),
                ActionModel::Skipped { source: self.source(), why: SkipReason::NoExtension },
            )
        } else {
            (
                OrganizerModel {
                    phase: PhaseModel::AwaitMetadata {
                        ext: lowercase(extension(file_name(self.current()))),
                    },
                    ..self
                },
                ActionModel::ReadMetadata { path: self.current() },
            )
        }
    }

    /// Placing the file in hand, once its size and day of last change are
    /// known. Where duplicates are looked for, a file whose fingerprint was
    /// seen is counted as a duplicate, and any other is remembered. A file
    /// whose extension has no owner is skipped; for any other the names in
    /// its destination directory are asked for.
    pub open spec fn place(self, ext: Seq<char>, size: u64, modified_day: Seq<char>) -> (
        OrganizerModel,
        ActionModel,
    ) {
        let name = file_name(self.current());
        let print = FingerprintModel { name, modified_day, size };
        if self.settings.find_duplicates && self.seen.contains_key(print) {
            (
                self.done_with(
                    Stats { duplicates: (self.stats.duplicates + 1) as usize, ..self.stats },
                ),
                ActionModel::Duplicate { name, first_seen: self.seen[print] },
            )
        } else {
            let seen = if self.settings.find_duplicates {
                self.seen.insert(print, self.current())
            } else {
                self.seen
            };
            match owner(self.categories, ext) {
                None => (
                    OrganizerModel { seen, ..self }.done_with(
                        Stats { skipped: (self.stats.skipped + 1) as usize, ..self.stats },
                    ),
                    ActionModel::Skipped { source: self.source(), why: SkipReason::NoCategory },
                ),
                Some(category) => {
                    let dir = destination_dir(self.settings, category, self.current());
                    (
                        OrganizerModel {
                            seen,
                            phase: PhaseModel::AwaitListing { ext, dir },
                            ..self
                        },
                        ActionModel::ListDirectory { dir },
                    )
                },
            }
        }
    }

    /// Naming the destination, once the names in the destination directory
    /// are known. In a dry run the file counts as moved and nothing further
    /// is asked; otherwise the move is asked for.
    pub open spec fn name_destination(
        self,
        ext: Seq<char>,
        dir: Seq<char>,
        names: Seq<Seq<char>>,
        today: Seq<char>,
    ) -> (OrganizerModel, ActionModel) {
        let destination = resolved(dir, file_name(self.current()), ext, today, names);
        if self.settings.dry_run {
            (
                self.done_with(Stats { moved: (self.stats.moved + 1) as usize, ..self.stats }),
                ActionModel::Previewed {
                    source: self.source(),
                    destination: relative_to(destination, self.settings.root),
                },
            )
        } else {
            (
                OrganizerModel { phase: PhaseModel::AwaitMove { destination }, ..self },
                ActionModel::Move { from: self.current(), to: destination, dir },
            )
        }
    }

    /// Counting the file in hand, once the outcome of its move is known.
    pub open spec fn settle(self, destination: Seq<char>, arrived: bool, reason: Seq<char>) -> (
        OrganizerModel,
        ActionModel,
    ) {
        if arrived {
            (
                self.done_with(Stats { moved: (self.stats.moved + 1) as usize, ..self.stats }),
                ActionModel::Moved {
                    source: self.source(),
                    destination: relative_to(destination, self.settings.root),
                },
            )
        } else {
            (
                self.done_with(Stats { errors: (self.stats.errors + 1) as usize, ..self.stats }),
                ActionModel::Failed { source: self.source(), reason },
            )
        }
    }

    /// The state after an event, and the answer to it. An event that is not
    /// the one waited for changes nothing.
    pub open spec fn step(self, event: EventModel) -> (OrganizerModel, ActionModel) {
        match (self.phase, event) {
            (PhaseModel::Ready, EventModel::Proceed) => self.begin(),
            (PhaseModel::AwaitMetadata { ext }, EventModel::Metadata { size, modified_day }) => {
                self.place(ext, size, modified_day)
            },
            (PhaseModel::AwaitListing { ext, dir }, EventModel::Listing { names, today }) => {
                self.name_destination(ext, dir, names, today)
            },
            (PhaseModel::AwaitMove { destination }, EventModel::Moved { arrived, reason }) => {
                self.settle(destination, arrived, reason)
            },
            _ => (self, ActionModel::Unexpected),
        }
    }
}

/// Whether an answer says that a file was passed over as junk.
pub open spec fn passes_junk(action: ActionModel) -> bool {
    action matches ActionModel::Skipped { why: SkipReason::Junk, .. }
}

/// A step leads from a state that a run can be in to another one. It
/// leaves the options, the categories and the files as they are, lowers no
/// counter, and raises the counters by one in all where it is done with a
/// file that it does not pass over as junk, and not at all otherwise.
pub proof fn lemma_step_keeps_count(state: OrganizerModel, event: EventModel)
    requires
        state.wf(),
    ensures
        state.step(event).0.wf(),
        state.step(event).0.settings == state.settings,
        state.step(event).0.categories == state.categories,
        state.step(event).0.files == state.files,
        state.step(event).0.stats.extends(state.stats),
        state.cursor <= state.step(event).0.cursor <= state.cursor + 1,
        state.step(event).0.stats.total() - state.stats.total() == if state.step(event).0.cursor
            > state.cursor && !passes_junk(state.step(event).1) {
            1int
        } else {
            0int
        },
        state.step(event).0.cursor > state.cursor ==> state.step(event).0.phase is Ready,
{
}

/// A dry run never asks for a move.
pub proof fn lemma_dry_run_moves_nothing(state: OrganizerModel, event: EventModel)
    requires
        state.settings.dry_run,
    ensures
        !(state.step(event).1 is Move),
{
}

/// A file whose fingerprint was seen before in the run is left where it is:
/// it is counted as a duplicate of the file that first had the fingerprint,
/// and no move is asked for.
pub proof fn lemma_repeat_is_duplicate(
    state: OrganizerModel,
    ext: Seq<char>,
    size: u64,
    modified_day: Seq<char>,
)
    requires
        state.wf(),
        state.settings.find_duplicates,
        state.phase == (PhaseModel::AwaitMetadata { ext }),
        state.seen.contains_key(
            FingerprintModel { name: file_name(state.current()), modified_day, size },
        ),
    ensures
        state.step(EventModel::Metadata { size, modified_day }).1 == (ActionModel::Duplicate {
            name: file_name(state.current()),
            first_seen: state.seen[FingerprintModel {
                name: file_name(state.current()),
                modified_day,
                size,
            }],
        }),
        state.step(EventModel::Metadata { size, modified_day }).0.phase is Ready,
        state.step(EventModel::Metadata { size, modified_day }).0.stats.duplicates
            == state.stats.duplicates + 1,
        state.step(EventModel::Metadata { size, modified_day }).0.stats.moved == state.stats.moved,
{
}

/// What the organizer waits for, with the texts it has kept for later.
enum Phase {
    Ready,
    AwaitMetadata { ext: String },
    AwaitListing { ext: String, dir: String },
    AwaitMove { destination: String },
}

impl View for Phase {
    type V = PhaseModel;

    closed spec fn view(&self) -> PhaseModel {
        match self {
            Phase::Ready => PhaseModel::Ready,
            Phase::AwaitMetadata { ext } => PhaseModel::AwaitMetadata { ext: ext@ },
            Phase::AwaitListing { ext, dir } => PhaseModel::AwaitListing { ext: ext@, dir: dir@ },
            Phase::AwaitMove { destination } => PhaseModel::AwaitMove {
                destination: destination@,
            },
        }
    }
}

/// What the caller reports to the organizer.
#[derive(Debug)]
pub enum Event {
    /// Nothing: the organizer is to go on. It opens a run and follows every
    /// answer that asks for nothing.
    Proceed,
    /// The size in bytes and the local calendar day of the last change of
    /// the file that `Action::ReadMetadata` named.
    Metadata { size: u64, modified_day: String },
    /// The names that the directory of `Action::ListDirectory` holds, none
    /// where it does not exist, and today's date.
    Listing { names: Vec<String>, today: String },
    /// How the move of `Action::Move` ended.
    Moved(MoveOutcome),
}

/// The reason that an outcome carries, empty where it carries none.
pub open spec fn reason_of(outcome: MoveOutcome) -> Seq<char> {
    match outcome {
        MoveOutcome::Failed(reason) => reason@,
        MoveOutcome::SourceRetained(reason) => reason@,
        _ => Seq::empty(),
    }
}

impl View for Event {
    type V = EventModel;

    open spec fn view(&self) -> EventModel {
        match self {
            Event::Proceed => EventModel::Proceed,
            Event::Metadata { size, modified_day } => EventModel::Metadata {
                size: *size,
                modified_day: modified_day@,
            },
            Event::Listing { names, today } => EventModel::Listing {
                names: texts(names@),
                today: today@,
            },
            Event::Moved(outcome) => EventModel::Moved {
                arrived: has_arrived(*outcome),
                reason: reason_of(*outcome),
            },
        }
    }
}

impl Event {
    /// The report on a file of the given size that was last changed the
    /// given number of seconds after the start of 1970 (UTC). There is a
    /// report exactly where that second has a calendar day. The day in it is
    /// the local calendar day of that moment, so it depends on the time zone
    /// of the machine.
    pub fn metadata(size: u64, modified_seconds: i64) -> (event: Option<Event>)
        ensures
            event is Some <==> has_calendar_day(modified_seconds),
            event matches Some(e) ==> e@ is Metadata && e@->size == size,
    {
        match local_day_of(modified_seconds) {
            Some(modified_day) => Some(Event::Metadata { size, modified_day }),
            None => None,
        }
    }

    /// The report on the names that a directory holds, made today.
    pub fn listing(names: Vec<String>) -> (event: Event)
        ensures
            event@ is Listing,
            event@->names == texts(names@),
    {
        Event::Listing { names, today: local_today() }
    }
}

/// What the organizer answers: something to do, or what became of a file.
/// After an answer that asks for something, the organizer waits for the
/// matching event; after any other it waits for `Event::Proceed`.
#[derive(Debug)]
pub enum Action {
    /// Read the size and the time of the last change of the file at `path`.
    ReadMetadata { path: String },
    /// List the names that the directory `dir` holds.
    ListDirectory { dir: String },
    /// Make sure that the directory `dir` exists and move the file.
    Move { from: String, to: String, dir: String },
    /// The file stays where it is.
    Skipped { source: String, why: SkipReason },
    /// The file stays where it is: it repeats the file at `first_seen`.
    Duplicate { name: String, first_seen: String },
    /// In a dry run: the file would be moved. Both paths are seen from the
    /// root.
    Previewed { source: String, destination: String },
    /// The file was moved. Both paths are seen from the root.
    Moved { source: String, destination: String },
    /// The file could not be moved and stays where it is.
    Failed { source: String, reason: String },
    /// Every file is done with.
    Finished { stats: Stats },
    /// The event was not the one that the organizer waits for.
    Unexpected,
}

impl View for Action {
    type V = ActionModel;

    open spec fn view(&self) -> ActionModel {
        match self {
            Action::ReadMetadata { path } => ActionModel::ReadMetadata { path: path@ },
            Action::ListDirectory { dir } => ActionModel::ListDirectory { dir: dir@ },
            Action::Move { from, to, dir } => ActionModel::Move {
                from: from@,
                to: to@,
                dir: dir@,
            },
            Action::Skipped { source, why } => ActionModel::Skipped { source: source@, why: *why },
            Action::Duplicate { name, first_seen } => ActionModel::Duplicate {
                name: name@,
                first_seen: first_seen@,
            },
            Action::Previewed { source, destination } => ActionModel::Previewed {
                source: source@,
                destination: destination@,
            },
            Action::Moved { source, destination } => ActionModel::Moved {
                source: source@,
                destination: destination@,
            },
            Action::Failed { source, reason } => ActionModel::Failed {
                source: source@,
                reason: reason@,
            },
            Action::Finished { stats } => ActionModel::Finished { stats: *stats },
            Action::Unexpected => ActionModel::Unexpected,
        }
    }
}

/// One run over the files of a directory tree.
pub struct Organizer {
    opts: OrganizeOpts,
    config: Config,
    files: Vec<String>,
    cursor: usize,
    tracker: DuplicateTracker,
    stats: Stats,
    phase: Phase,
}

impl View for Organizer {
    type V = OrganizerModel;

    closed spec fn view(&self) -> OrganizerModel {
        OrganizerModel {
            settings: self.opts@,
            categories: self.config@,
            files: texts(self.files@),
            cursor: self.cursor as nat,
            seen: self.tracker@,
            stats: self.stats,
            phase: self.phase@,
        }
    }
}

impl Organizer {
    #[verifier::type_invariant]
    spec fn well_formed(self) -> bool {
        self@.wf()
    }

    /// A run over `files` that is about to begin.
    pub fn new(opts: OrganizeOpts, config: Config, files: Vec<String>) -> (organizer: Organizer)
        ensures
            organizer@ == (OrganizerModel {
                settings: opts@,
                categories: config@,
                files: texts(files@),
                cursor: 0,
                seen: Map::empty(),
                stats: Stats { moved: 0, duplicates: 0, skipped: 0, errors: 0 },
                phase: PhaseModel::Ready,
            }),
            organizer@.wf(),
    {
        assert(texts(files@).len() == files.len());
        Organizer {
            opts,
            config,
            files,
            cursor: 0,
            tracker: DuplicateTracker::new(),
            stats: Stats { moved: 0, duplicates: 0, skipped: 0, errors: 0 },
            phase: Phase::Ready,
        }
    }

    /// The counters as they stand.
    pub fn stats(&self) -> (stats: Stats)
        ensures
            stats == self@.stats,
            self@.wf(),
    {
        proof {
            use_type_invariant(self);
        }
        self.stats
    }

    /// Whether every file is done with.
    pub fn is_finished(&self) -> (finished: bool)
        ensures
            finished == (self@.cursor == self@.files.len()),
    {
        proof {
            use_type_invariant(self);
        }
        self.cursor >= self.files.len()
    }

    /// The file in hand and the file as seen from the root.
    fn in_hand(&self) -> (paths: (String, String))
        requires
            self@.cursor < self@.files.len(),
        ensures
            paths.0@ == self@.current(),
            paths.1@ == self@.source(),
    {
        let path = self.files[self.cursor].clone();
        let source = String::from_str(relative_path(path.as_str(), self.opts.path.as_str()));
        (path, source)
    }

    fn begin(&mut self) -> (action: Action)
        requires
            old(self)@.phase is Ready,
        ensures
            final(self)@ == old(self)@.begin().0,
            action@ == old(self)@.begin().1,
    {
        proof {
            use_type_invariant(&*self);
        }
        if self.cursor >= self.files.len() {
            return Action::Finished { stats: self.stats };
        }
        let (path, source) = self.in_hand();
        if is_hidden_or_junk(path.as_str()) {
            self.cursor += 1;
            return Action::Skipped { source, why: SkipReason::Junk };
        }
        match extension_of(file_name_of(path.as_str())) {
            None => {
                self.cursor += 1;
                self.stats.skipped += 1;
                Action::Skipped { source, why: SkipReason::NoExtension }
            },
            Some(ext) => {
                self.phase = Phase::AwaitMetadata { ext: ext.to_lowercase() };
                Action::ReadMetadata { path }
            },
        }
    }

    fn place(&mut self, ext: String, size: u64, modified_day: String) -> (action: Action)
        requires
            old(self)@.phase is Ready,
            old(self)@.cursor < old(self)@.files.len(),
        ensures
            final(self)@ == old(self)@.place(ext@, size, modified_day@).0,
            action@ == old(self)@.place(ext@, size, modified_day@).1,
    {
        proof {
            use_type_invariant(&*self);
        }
        let (path, source) = self.in_hand();
        let name = file_name_of(path.as_str());
        if self.opts.find_duplicates {
            let print = Fingerprint::new(name, modified_day.as_str(), size);
            let mut tracker = DuplicateTracker::new();
            core::mem::swap(&mut tracker, &mut self.tracker);
            let earlier = tracker.check_and_record(print, path.as_str());
            self.tracker = tracker;
            match earlier {
                Some(first_seen) => {
                    self.cursor += 1;
                    self.stats.duplicates += 1;
                    return Action::Duplicate { name: String::from_str(name), first_seen };
                },
                None => {},
            }
        }
        let dir = match self.config.categorize(ext.as_str()) {
            Some(category) => Some(destination_dir_of(&self.opts, category, path.as_str())),
            None => None,
        };
        match dir {
            None => {
                self.cursor += 1;
                self.stats.skipped += 1;
                Action::Skipped { source, why: SkipReason::NoCategory }
            },
            Some(dir) => {
                self.phase = Phase::AwaitListing { ext, dir: dir.clone() };
                Action::ListDirectory { dir }
            },
        }
    }

    fn name_destination(
        &mut self,
        ext: String,
        dir: String,
        names: Vec<String>,
        today: String,
    ) -> (action: Action)
        requires
            old(self)@.phase is Ready,
            old(self)@.cursor < old(self)@.files.len(),
        ensures
            final(self)@ == old(self)@.name_destination(ext@, dir@, texts(names@), today@).0,
            action@ == old(self)@.name_destination(ext@, dir@, texts(names@), today@).1,
    {
        proof {
            use_type_invariant(&*self);
        }
        let (path, source) = self.in_hand();
        let destination = resolve_collision_on(
            dir.as_str(),
            file_name_of(path.as_str()),
            ext.as_str(),
            today.as_str(),
            &names,
        );
        if self.opts.dry_run {
            let shown = String::from_str(
                relative_path(destination.as_str(), self.opts.path.as_str()),
            );
            self.cursor += 1;
            self.stats.moved += 1;
            Action::Previewed { source, destination: shown }
        } else {
            self.phase = Phase::AwaitMove { destination: destination.clone() };
            Action::Move { from: path, to: destination, dir }
        }
    }

    fn settle(&mut self, destination: String, outcome: MoveOutcome) -> (action: Action)
        requires
            old(self)@.phase is Ready,
            old(self)@.cursor < old(self)@.files.len(),
        ensures
            final(self)@ == old(self)@.settle(
                destination@,
                has_arrived(outcome),
                reason_of(outcome),
            ).0,
            action@ == old(self)@.settle(
                destination@,
                has_arrived(outcome),
                reason_of(outcome),
            ).1,
    {
        proof {
            use_type_invariant(&*self);
        }
        let (_, source) = self.in_hand();
        match outcome {
            MoveOutcome::Failed(reason) => {
                self.cursor += 1;
                self.stats.errors += 1;
                Action::Failed { source, reason }
            },
            _ => {
                let shown = String::from_str(
                    relative_path(destination.as_str(), self.opts.path.as_str()),
                );
                self.cursor += 1;
                self.stats.moved += 1;
                Action::Moved { source, destination: shown }
            },
        }
    }

    /// Takes an event and answers it: the state after the call and the
    /// answer are those that `OrganizerModel::step` gives for the state
    /// before the call and the event.
    pub fn step(&mut self, event: Event) -> (action: Action)
        ensures
            final(self)@ == old(self)@.step(event@).0,
            action@ == old(self)@.step(event@).1,
            final(self)@.wf(),
    {
        proof {
            use_type_invariant(&*self);
            lemma_step_keeps_count(self@, event@);
        }
        let mut phase = Phase::Ready;
        core::mem::swap(&mut phase, &mut self.phase);
        match (phase, event) {
            (Phase::Ready, Event::Proceed) => self.begin(),
            (Phase::AwaitMetadata { ext }, Event::Metadata { size, modified_day }) => {
                self.place(ext, size, modified_day)
            },
            (Phase::AwaitListing { ext, dir }, Event::Listing { names, today }) => {
                self.name_destination(ext, dir, names, today)
            },
            (Phase::AwaitMove { destination }, Event::Moved(outcome)) => {
                self.settle(destination, outcome)
            },
            (phase, _) => {
                self.phase = phase;
                Action::Unexpected
            },
        }
    }
}

} // verus!
