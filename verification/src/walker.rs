//! The tree walker: which entries of a directory tree are files to sort.
//!
//! The walker keeps a list of the directories that are still to be read. It
//! names the next one, is told what that directory holds, keeps the files
//! among the entries and puts the directories among them on its list. An
//! entry whose name is hidden is dropped, and so is a directory whose name is
//! one of the excluded names; what lies below a dropped directory is never
//! asked for.

use crate::junk::{is_hidden, is_hidden_name};
use crate::paths::{join, join_path};
use crate::text::{contains_text, texts};
use vstd::prelude::*;

verus! {

/// One entry of a directory: its name and whether it is a directory itself.
#[derive(Debug)]
pub struct Entry {
    pub name: String,
    pub is_dir: bool,
}

/// An entry as the contracts see it.
pub ghost struct EntryModel {
    pub name: Seq<char>,
    pub is_dir: bool,
}

impl View for Entry {
    type V = EntryModel;

    open spec fn view(&self) -> EntryModel {
        EntryModel { name: self.name@, is_dir: self.is_dir }
    }
}

/// The entries that a list holds, as the contracts see them.
pub open spec fn entry_models(entries: Seq<Entry>) -> Seq<EntryModel> {
    Seq::new(entries.len(), |i: int| entries[i]@)
}

/// Whether an entry is a file that the walk keeps: not a directory, and not
/// hidden.
pub open spec fn keeps_file(entry: EntryModel) -> bool {
    !entry.is_dir && !is_hidden(entry.name)
}

/// Whether an entry is a directory that the walk goes into: not hidden, and
/// not named like any of `skip`.
pub open spec fn enters_dir(entry: EntryModel, skip: Seq<Seq<char>>) -> bool {
    entry.is_dir && !is_hidden(entry.name) && !skip.contains(entry.name)
}

/// The paths of the files that the walk keeps of the entries of `dir`, in
/// the order of the entries.
pub open spec fn kept_files(dir: Seq<char>, entries: Seq<EntryModel>) -> Seq<Seq<char>>
    decreases entries.len(),
{
    if entries.len() == 0 {
        Seq::empty()
    } else if keeps_file(entries.last()) {
        kept_files(dir, entries.drop_last()).push(join(dir, entries.last().name))
    } else {
        kept_files(dir, entries.drop_last())
    }
}

/// The paths of the directories that the walk goes into among the entries
/// of `dir`, in the order of the entries.
pub open spec fn entered_dirs(
    dir: Seq<char>,
    entries: Seq<EntryModel>,
    skip: Seq<Seq<char>>,
) -> Seq<Seq<char>>
    decreases entries.len(),
{
    if entries.len() == 0 {
        Seq::empty()
    } else if enters_dir(entries.last(), skip) {
        entered_dirs(dir, entries.drop_last(), skip).push(join(dir, entries.last().name))
    } else {
        entered_dirs(dir, entries.drop_last(), skip)
    }
}

/// Whether `path` is the path of an entry of `dir` that is a file and not
/// hidden.
pub open spec fn is_visible_file_of(dir: Seq<char>, entries: Seq<EntryModel>, path: Seq<char>) -> bool {
    exists|k: int|
        0 <= k < entries.len() && keeps_file(#[trigger] entries[k]) && path == join(
            dir,
            entries[k].name,
        )
}

/// Whether `path` is the path of an entry of `dir` that is a directory,
/// not hidden and not excluded.
pub open spec fn is_visible_dir_of(
    dir: Seq<char>,
    entries: Seq<EntryModel>,
    skip: Seq<Seq<char>>,
    path: Seq<char>,
) -> bool {
    exists|k: int|
        0 <= k < entries.len() && enters_dir(#[trigger] entries[k], skip) && path == join(
            dir,
            entries[k].name,
        )
}

/// The walk keeps no hidden entry and no directory: every kept file is the
/// path of an entry that is a file and not hidden.
pub proof fn lemma_kept_files_are_visible(dir: Seq<char>, entries: Seq<EntryModel>)
    ensures
        forall|i: int|
            0 <= i < kept_files(dir, entries).len() ==> is_visible_file_of(
                dir,
                entries,
                #[trigger] kept_files(dir, entries)[i],
            ),
    decreases entries.len(),
{
    if entries.len() > 0 {
        let front = entries.drop_last();
        lemma_kept_files_are_visible(dir, front);
        let kept = kept_files(dir, entries);
        assert forall|i: int| 0 <= i < kept.len() implies is_visible_file_of(
            dir,
            entries,
            #[trigger] kept[i],
        ) by {
            if i < kept_files(dir, front).len() {
                assert(kept[i] == kept_files(dir, front)[i]);
                assert(is_visible_file_of(dir, front, kept[i]));
                let k = choose|k: int|
                    0 <= k < front.len() && keeps_file(#[trigger] front[k]) && kept[i] == join(
                        dir,
                        front[k].name,
                    );
                assert(entries[k] == front[k]);
            } else {
                assert(keeps_file(entries[entries.len() - 1]));
            }
        }
    }
}

/// The walk goes into no hidden and no excluded directory: every directory
/// that it goes into is the path of an entry that is a directory, not hidden
/// and not named like any of `skip`.
pub proof fn lemma_entered_dirs_are_visible(
    dir: Seq<char>,
    entries: Seq<EntryModel>,
    skip: Seq<Seq<char>>,
)
    ensures
        forall|i: int|
            0 <= i < entered_dirs(dir, entries, skip).len() ==> is_visible_dir_of(
                dir,
                entries,
                skip,
                #[trigger] entered_dirs(dir, entries, skip)[i],
            ),
    decreases entries.len(),
{
    if entries.len() > 0 {
        let front = entries.drop_last();
        lemma_entered_dirs_are_visible(dir, front, skip);
        let entered = entered_dirs(dir, entries, skip);
        assert forall|i: int| 0 <= i < entered.len() implies is_visible_dir_of(
            dir,
            entries,
            skip,
            #[trigger] entered[i],
        ) by {
            if i < entered_dirs(dir, front, skip).len() {
                assert(entered[i] == entered_dirs(dir, front, skip)[i]);
                assert(is_visible_dir_of(dir, front, skip, entered[i]));
                let k = choose|k: int|
                    0 <= k < front.len() && enters_dir(#[trigger] front[k], skip) && entered[i]
                        == join(dir, front[k].name);
                assert(entries[k] == front[k]);
            } else {
                assert(enters_dir(entries[entries.len() - 1], skip));
            }
        }
    }
}

/// What one directory gives to the walk.
pub struct Sifted {
    /// The paths of the files to sort.
    pub files: Vec<String>,
    /// The paths of the directories to read next.
    pub dirs: Vec<String>,
}

/// Parts the entries of `dir` into the files that the walk keeps and the
/// directories that it goes into, and drops the rest.
pub fn sift(dir: &str, entries: &Vec<Entry>, skip: &Vec<String>) -> (sifted: Sifted)
    ensures
        texts(sifted.files@) == kept_files(dir@, entry_models(entries@)),
        texts(sifted.dirs@) == entered_dirs(dir@, entry_models(entries@), texts(skip@)),
{
    let ghost models = entry_models(entries@);
    let mut files: Vec<String> = Vec::new();
    let mut dirs: Vec<String> = Vec::new();
    let mut i: usize = 0;
    assert(models.subrange(0, 0) =~= Seq::<EntryModel>::empty());
    assert(texts(files@) =~= kept_files(dir@, models.subrange(0, 0)));
    assert(texts(dirs@) =~= entered_dirs(dir@, models.subrange(0, 0), texts(skip@)));
    while i < entries.len()
        invariant
            i <= entries@.len(),
            models == entry_models(entries@),
            texts(files@) == kept_files(dir@, models.subrange(0, i as int)),
            texts(dirs@) == entered_dirs(dir@, models.subrange(0, i as int), texts(skip@)),
        decreases entries@.len() - i,
    {
        let entry = &entries[i];
        proof {
            let longer = models.subrange(0, i + 1);
            assert(longer.drop_last() =~= models.subrange(0, i as int));
            assert(longer.last() == entry@);
        }
        if !is_hidden_name(entry.name.as_str()) {
            if !entry.is_dir {
                let ghost before = texts(files@);
                files.push(join_path(dir, entry.name.as_str()));
                assert(texts(files@) =~= before.push(join(dir@, entry@.name)));
            } else if !contains_text(skip, entry.name.as_str()) {
                let ghost before = texts(dirs@);
                dirs.push(join_path(dir, entry.name.as_str()));
                assert(texts(dirs@) =~= before.push(join(dir@, entry@.name)));
            }
        }
        i += 1;
    }
    assert(models.subrange(0, i as int) =~= models);
    Sifted { files, dirs }
}

/// `root` with the given names joined to it one after the other.
pub open spec fn descends(root: Seq<char>, names: Seq<Seq<char>>) -> Seq<char>
    decreases names.len(),
{
    if names.len() == 0 {
        root
    } else {
        join(descends(root, names.drop_last()), names.last())
    }
}

/// Whether none of the names is hidden and none is one of `skip`.
pub open spec fn all_entered(names: Seq<Seq<char>>, skip: Seq<Seq<char>>) -> bool {
    forall|i: int|
        0 <= i < names.len() ==> !is_hidden(#[trigger] names[i]) && !skip.contains(names[i])
}

/// Whether `path` is `root` or lies below it through directories of which
/// none is hidden and none is excluded.
pub open spec fn is_walked_dir(root: Seq<char>, skip: Seq<Seq<char>>, path: Seq<char>) -> bool {
    exists|names: Seq<Seq<char>>| #[trigger] descends(root, names) == path && all_entered(names, skip)
}

/// Whether `path` is a name that is not hidden, joined to a directory that
/// the walk reaches.
pub open spec fn is_walked_file(root: Seq<char>, skip: Seq<Seq<char>>, path: Seq<char>) -> bool {
    exists|dir: Seq<char>, name: Seq<char>|
        #[trigger] join(dir, name) == path && is_walked_dir(root, skip, dir) && !is_hidden(name)
}

proof fn lemma_kept_files_walked(
    root: Seq<char>,
    skip: Seq<Seq<char>>,
    dir: Seq<char>,
    entries: Seq<EntryModel>,
)
    requires
        is_walked_dir(root, skip, dir),
    ensures
        forall|i: int|
            0 <= i < kept_files(dir, entries).len() ==> is_walked_file(
                root,
                skip,
                #[trigger] kept_files(dir, entries)[i],
            ),
{
    lemma_kept_files_are_visible(dir, entries);
    let kept = kept_files(dir, entries);
    assert forall|i: int| 0 <= i < kept.len() implies is_walked_file(
        root,
        skip,
        #[trigger] kept[i],
    ) by {
        assert(is_visible_file_of(dir, entries, kept[i]));
        let k = choose|k: int|
            0 <= k < entries.len() && keeps_file(#[trigger] entries[k]) && kept[i] == join(
                dir,
                entries[k].name,
            );
        assert(join(dir, entries[k].name) == kept[i]);
    }
}

proof fn lemma_entered_dirs_walked(
    root: Seq<char>,
    skip: Seq<Seq<char>>,
    dir: Seq<char>,
    entries: Seq<EntryModel>,
)
    requires
        is_walked_dir(root, skip, dir),
    ensures
        forall|i: int|
            0 <= i < entered_dirs(dir, entries, skip).len() ==> is_walked_dir(
                root,
                skip,
                #[trigger] entered_dirs(dir, entries, skip)[i],
            ),
{
    lemma_entered_dirs_are_visible(dir, entries, skip);
    let entered = entered_dirs(dir, entries, skip);
    let names = choose|names: Seq<Seq<char>>|
        #[trigger] descends(root, names) == dir && all_entered(names, skip);
    assert forall|i: int| 0 <= i < entered.len() implies is_walked_dir(
        root,
        skip,
        #[trigger] entered[i],
    ) by {
        assert(is_visible_dir_of(dir, entries, skip, entered[i]));
        let k = choose|k: int|
            0 <= k < entries.len() && enters_dir(#[trigger] entries[k], skip) && entered[i]
                == join(dir, entries[k].name);
        let longer = names.push(entries[k].name);
        assert(longer.drop_last() =~= names);
        assert(descends(root, longer) == entered[i]);
        assert(all_entered(longer, skip));
    }
}

/// The state of a walk as the contracts see it.
pub ghost struct WalkerModel {
    /// The directory at which the walk began.
    pub root: Seq<char>,
    /// The names of the directories that the walk does not go into.
    pub skip: Seq<Seq<char>>,
    /// The directories that are still to be read; the last one comes next.
    pub pending: Seq<Seq<char>>,
    /// The directory whose entries the walk has asked for.
    pub current: Option<Seq<char>>,
    /// The files found so far.
    pub files: Seq<Seq<char>>,
}

impl WalkerModel {
    /// The walk after it was asked for the next directory: where none is
    /// outstanding and one is pending, the last pending one becomes the
    /// outstanding one.
    pub open spec fn asked(self) -> WalkerModel {
        if self.current is None && self.pending.len() > 0 {
            WalkerModel {
                pending: self.pending.drop_last(),
                current: Some(self.pending.last()),
                ..self
            }
        } else {
            self
        }
    }

    /// The walk after it was told the entries of the outstanding directory:
    /// the files among them are found, the directories among them pending.
    /// Where no directory is outstanding, nothing changes.
    pub open spec fn told(self, entries: Seq<EntryModel>) -> WalkerModel {
        match self.current {
            Some(dir) => WalkerModel {
                pending: self.pending + entered_dirs(dir, entries, self.skip),
                current: None,
                files: self.files + kept_files(dir, entries),
                ..self
            },
            None => self,
        }
    }

    /// Whether nothing is outstanding and nothing pending.
    pub open spec fn is_finished(self) -> bool {
        self.current is None && self.pending.len() == 0
    }
}

/// A walk over a directory tree, from its root down.
pub struct Walker {
    root: Ghost<Seq<char>>,
    skip: Vec<String>,
    pending: Vec<String>,
    current: Option<String>,
    files: Vec<String>,
}

impl View for Walker {
    type V = WalkerModel;

    closed spec fn view(&self) -> WalkerModel {
        WalkerModel {
            root: self.root@,
            skip: texts(self.skip@),
            pending: texts(self.pending@),
            current: match self.current {
                Some(dir) => Some(dir@),
                None => None,
            },
            files: texts(self.files@),
        }
    }
}

impl Walker {
    #[verifier::type_invariant]
    spec fn reaches_only_visible(self) -> bool {
        &&& forall|i: int|
            0 <= i < self.pending@.len() ==> is_walked_dir(
                self.root@,
                texts(self.skip@),
                #[trigger] texts(self.pending@)[i],
            )
        &&& forall|i: int|
            0 <= i < self.files@.len() ==> is_walked_file(
                self.root@,
                texts(self.skip@),
                #[trigger] texts(self.files@)[i],
            )
        &&& self.current matches Some(dir) ==> is_walked_dir(self.root@, texts(self.skip@), dir@)
    }

    /// A walk that is about to begin at `root` and goes into no directory
    /// named like one of `skip`.
    pub fn new(root: &str, skip: Vec<String>) -> (walker: Walker)
        ensures
            walker@ == (WalkerModel {
                root: root@,
                skip: texts(skip@),
                pending: seq![root@],
                current: None,
                files: Seq::empty(),
            }),
    {
        let mut pending: Vec<String> = Vec::new();
        pending.push(String::from_str(root));
        let files: Vec<String> = Vec::new();
        proof {
            assert(descends(root@, Seq::<Seq<char>>::empty()) == root@);
            assert(all_entered(Seq::<Seq<char>>::empty(), texts(skip@)));
            assert(is_walked_dir(root@, texts(skip@), root@));
            assert(texts(pending@) =~= seq![root@]);
            assert(texts(files@) =~= Seq::<Seq<char>>::empty());
        }
        Walker { root: Ghost(root@), skip, pending, current: None, files }
    }

    /// The directory whose entries the walk needs next, or `None` where the
    /// walk is finished. Until `visit` is told the entries, the answer stays
    /// the same.
    pub fn next_directory(&mut self) -> (dir: Option<String>)
        ensures
            final(self)@ == old(self)@.asked(),
            match dir {
                Some(path) => final(self)@.current == Some(path@),
                None => final(self)@.current is None,
            },
            dir is None <==> old(self)@.is_finished(),
    {
        proof {
            use_type_invariant(&*self);
        }
        if self.current.is_none() && self.pending.len() > 0 {
            let ghost before = texts(self.pending@);
            let mut pending: Vec<String> = Vec::new();
            core::mem::swap(&mut pending, &mut self.pending);
            let last = pending.pop();
            assert(texts(pending@) =~= before.drop_last());
            assert(is_walked_dir(self.root@, texts(self.skip@), before[before.len() - 1]));
            assert forall|i: int| 0 <= i < pending@.len() implies is_walked_dir(
                self.root@,
                texts(self.skip@),
                #[trigger] texts(pending@)[i],
            ) by {
                assert(texts(pending@)[i] == before[i]);
            }
            self.pending = pending;
            self.current = last;
        }
        match &self.current {
            Some(path) => Some(path.clone()),
            None => None,
        }
    }

    /// Tells the walk what the outstanding directory holds. Where none is
    /// outstanding, the entries are ignored.
    pub fn visit(&mut self, entries: &Vec<Entry>)
        ensures
            final(self)@ == old(self)@.told(entry_models(entries@)),
    {
        proof {
            use_type_invariant(&*self);
        }
        let ghost model = self@;
        let mut current: Option<String> = None;
        core::mem::swap(&mut current, &mut self.current);
        let dir = match current {
            Some(dir) => dir,
            None => {
                return ;
            },
        };
        let mut sifted = sift(dir.as_str(), entries, &self.skip);
        proof {
            lemma_kept_files_walked(model.root, model.skip, dir@, entry_models(entries@));
            lemma_entered_dirs_walked(model.root, model.skip, dir@, entry_models(entries@));
        }
        let mut files: Vec<String> = Vec::new();
        core::mem::swap(&mut files, &mut self.files);
        let ghost found = texts(files@);
        files.append(&mut sifted.files);
        assert(texts(files@) =~= found + kept_files(dir@, entry_models(entries@)));
        assert forall|i: int| 0 <= i < files@.len() implies is_walked_file(
            model.root,
            model.skip,
            #[trigger] texts(files@)[i],
        ) by {
            if i < found.len() {
                assert(texts(files@)[i] == model.files[i]);
            } else {
                assert(texts(files@)[i] == kept_files(dir@, entry_models(entries@))[i - found.len()]);
            }
        }
        self.files = files;
        let mut pending: Vec<String> = Vec::new();
        core::mem::swap(&mut pending, &mut self.pending);
        let ghost listed = texts(pending@);
        pending.append(&mut sifted.dirs);
        assert(texts(pending@) =~= listed + entered_dirs(
            dir@,
            entry_models(entries@),
            model.skip,
        ));
        assert forall|i: int| 0 <= i < pending@.len() implies is_walked_dir(
            model.root,
            model.skip,
            #[trigger] texts(pending@)[i],
        ) by {
            if i < listed.len() {
                assert(texts(pending@)[i] == model.pending[i]);
            } else {
                assert(texts(pending@)[i] == entered_dirs(
                    dir@,
                    entry_models(entries@),
                    model.skip,
                )[i - listed.len()]);
            }
        }
        self.pending = pending;
    }

    /// Whether the walk has read every directory that it goes into.
    pub fn is_finished(&self) -> (finished: bool)
        ensures
            finished == self@.is_finished(),
    {
        self.current.is_none() && self.pending.len() == 0
    }

    /// The files found so far, in the order in which they were found. Each
    /// of them lies below the root through directories of which none is
    /// hidden and none is excluded, and has a name that is not hidden.
    pub fn files(&self) -> (files: &Vec<String>)
        ensures
            texts(files@) == self@.files,
            forall|i: int|
                0 <= i < files@.len() ==> is_walked_file(
                    self@.root,
                    self@.skip,
                    #[trigger] texts(files@)[i],
                ),
    {
        proof {
            use_type_invariant(self);
        }
        &self.files
    }

    /// Ends the walk and hands out the files found.
    pub fn into_files(self) -> (files: Vec<String>)
        ensures
            texts(files@) == self@.files,
            forall|i: int|
                0 <= i < files@.len() ==> is_walked_file(
                    self@.root,
                    self@.skip,
                    #[trigger] texts(files@)[i],
                ),
    {
        proof {
            use_type_invariant(&self);
        }
        self.files
    }
}

} // verus!
