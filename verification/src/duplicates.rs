//! The duplicate tracker: which files of a run repeat an earlier one.
//!
//! Two files count as the same where their names, the days on which they were
//! last changed and their sizes agree. What they hold is not looked at.

use crate::text::same_text;
use vstd::prelude::*;

verus! {

/// What stands for a file when it is compared with the files seen before.
#[derive(Debug)]
pub struct Fingerprint {
    /// The file's name, without its directory.
    pub name: String,
    /// The local calendar day of the last change.
    pub modified_day: String,
    /// The size in bytes.
    pub size: u64,
}

/// A fingerprint as the contracts see it.
pub ghost struct FingerprintModel {
    pub name: Seq<char>,
    pub modified_day: Seq<char>,
    pub size: u64,
}

impl View for Fingerprint {
    type V = FingerprintModel;

    open spec fn view(&self) -> FingerprintModel {
        FingerprintModel { name: self.name@, modified_day: self.modified_day@, size: self.size }
    }
}

/// A fingerprint and the path of the file that first had it.
struct Sighting {
    print: Fingerprint,
    first_seen: String,
}

/// The fingerprints of a run, each with the path of the first file that had
/// it. Its view is that map.
pub struct DuplicateTracker {
    seen: Vec<Sighting>,
}

/// The map that a list of sightings stands for: each fingerprint with the
/// path of its earliest sighting.
spec fn first_sightings(list: Seq<Sighting>) -> Map<FingerprintModel, Seq<char>>
    decreases list.len(),
{
    if list.len() == 0 {
        Map::empty()
    } else {
        let earlier = first_sightings(list.drop_last());
        if earlier.contains_key(list.last().print@) {
            earlier
        } else {
            earlier.insert(list.last().print@, list.last().first_seen@)
        }
    }
}

proof fn lemma_never_sighted(list: Seq<Sighting>, print: FingerprintModel)
    requires
        forall|k: int| 0 <= k < list.len() ==> (#[trigger] list[k]).print@ != print,
    ensures
        !first_sightings(list).contains_key(print),
    decreases list.len(),
{
    if list.len() > 0 {
        let front = list.drop_last();
        assert forall|k: int| 0 <= k < front.len() implies (#[trigger] front[k]).print@
            != print by {
            assert(front[k] == list[k]);
        }
        lemma_never_sighted(front, print);
        assert(list.last() == list[list.len() - 1]);
    }
}

proof fn lemma_first_sighted(list: Seq<Sighting>, print: FingerprintModel, at: int)
    requires
        0 <= at < list.len(),
        list[at].print@ == print,
        forall|k: int| 0 <= k < at ==> (#[trigger] list[k]).print@ != print,
    ensures
        first_sightings(list).contains_key(print),
        first_sightings(list)[print] == list[at].first_seen@,
    decreases list.len(),
{
    let front = list.drop_last();
    if at == list.len() - 1 {
        assert forall|k: int| 0 <= k < front.len() implies (#[trigger] front[k]).print@
            != print by {
            assert(front[k] == list[k]);
        }
        lemma_never_sighted(front, print);
    } else {
        assert(front[at] == list[at]);
        assert forall|k: int| 0 <= k < at implies (#[trigger] front[k]).print@ != print by {
            assert(front[k] == list[k]);
        }
        lemma_first_sighted(front, print, at);
    }
}

impl Fingerprint {
    /// The fingerprint of a file of the given name, day of last change and
    /// size.
    pub fn new(name: &str, modified_day: &str, size: u64) -> (print: Fingerprint)
        ensures
            print@ == (FingerprintModel { name: name@, modified_day: modified_day@, size }),
    {
        Fingerprint {
            name: String::from_str(name),
            modified_day: String::from_str(modified_day),
            size,
        }
    }

    /// Whether two fingerprints agree in name, day and size.
    pub fn matches(&self, other: &Fingerprint) -> (same: bool)
        ensures
            same == (self@ == other@),
    {
        self.size == other.size && same_text(self.name.as_str(), other.name.as_str())
            && same_text(self.modified_day.as_str(), other.modified_day.as_str())
    }
}

impl View for DuplicateTracker {
    type V = Map<FingerprintModel, Seq<char>>;

    closed spec fn view(&self) -> Map<FingerprintModel, Seq<char>> {
        first_sightings(self.seen@)
    }
}

impl DuplicateTracker {
    /// A tracker that has seen nothing.
    pub fn new() -> (tracker: DuplicateTracker)
        ensures
            tracker@ == Map::<FingerprintModel, Seq<char>>::empty(),
    {
        DuplicateTracker { seen: Vec::new() }
    }

    /// The path of the first file that had this fingerprint, if any had.
    pub fn first_seen(&self, print: &Fingerprint) -> (path: Option<&str>)
        ensures
            match path {
                Some(first) => self@.contains_key(print@) && first@ == self@[print@],
                None => !self@.contains_key(print@),
            },
    {
        let mut i: usize = 0;
        while i < self.seen.len()
            invariant
                i <= self.seen@.len(),
                forall|k: int| 0 <= k < i ==> (#[trigger] self.seen@[k]).print@ != print@,
            decreases self.seen@.len() - i,
        {
            if self.seen[i].print.matches(print) {
                proof {
                    lemma_first_sighted(self.seen@, print@, i as int);
                }
                return Some(self.seen[i].first_seen.as_str());
            }
            i += 1;
        }
        proof {
            lemma_never_sighted(self.seen@, print@);
        }
        None
    }

    /// Looks a file up and, where it is new, remembers it. A fingerprint that
    /// was seen before gives the path of the first file that had it, and the
    /// tracker stays as it was; a new one is recorded with `path` and gives
    /// nothing.
    pub fn check_and_record(&mut self, print: Fingerprint, path: &str) -> (earlier: Option<
        String,
    >)
        ensures
            match earlier {
                Some(first) => {
                    &&& old(self)@.contains_key(print@)
                    &&& first@ == old(self)@[print@]
                    &&& final(self)@ == old(self)@
                },
                None => {
                    &&& !old(self)@.contains_key(print@)
                    &&& final(self)@ == old(self)@.insert(print@, path@)
                },
            },
    {
        match self.first_seen(&print) {
            Some(first) => {
                return Some(String::from_str(first));
            },
            None => {},
        }
        let ghost before = self.seen@;
        let sighting = Sighting { print, first_seen: String::from_str(path) };
        self.seen.push(sighting);
        assert(self.seen@.drop_last() =~= before);
        None
    }
}

} // verus!
