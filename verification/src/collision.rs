//! The collision resolver: a name for a file whose destination is occupied.
//!
//! The candidates for a file come in a fixed order: its own name; its stem
//! with the date behind it; then the dated stem with a version behind it,
//! counted from 2. The first candidate that the destination does not hold
//! is taken.

use crate::clock::local_today;
use crate::paths::{file_stem, file_stem_of, join, join_path};
use crate::text::{
    contains_text,
    decimal,
    decimal_text,
    lemma_decimal_injective,
    texts,
};
use vstd::prelude::*;

verus! {

/// The stem of `name` with the date behind it, before any version.
pub open spec fn dated_stem(name: Seq<char>, today: Seq<char>) -> Seq<char> {
    file_stem(name) + seq!['_'] + today
}

/// `stem_date.ext`: the second candidate.
pub open spec fn dated_name(name: Seq<char>, ext: Seq<char>, today: Seq<char>) -> Seq<char> {
    dated_stem(name, today) + seq!['.'] + ext
}

/// `stem_date_vN.ext`: the candidate of version `N`.
pub open spec fn versioned_name(
    name: Seq<char>,
    ext: Seq<char>,
    today: Seq<char>,
    version: nat,
) -> Seq<char> {
    dated_stem(name, today) + seq!['_', 'v'] + decimal(version) + seq!['.'] + ext
}

/// The candidates in their order: the name itself at 0, the dated name at 1,
/// and version `n` at every `n` from 2 on.
pub open spec fn candidate(name: Seq<char>, ext: Seq<char>, today: Seq<char>, attempt: nat) -> Seq<
    char,
> {
    if attempt == 0 {
        name
    } else if attempt == 1 {
        dated_name(name, ext, today)
    } else {
        versioned_name(name, ext, today, attempt)
    }
}

/// Whether `attempt` is the first candidate that `taken` does not hold.
pub open spec fn is_first_free(
    taken: Seq<Seq<char>>,
    name: Seq<char>,
    ext: Seq<char>,
    today: Seq<char>,
    attempt: nat,
) -> bool {
    &&& !taken.contains(candidate(name, ext, today, attempt))
    &&& forall|earlier: nat|
        earlier < attempt ==> taken.contains(#[trigger] candidate(name, ext, today, earlier))
}

/// The number of the first candidate that `taken` does not hold.
pub open spec fn first_free(
    taken: Seq<Seq<char>>,
    name: Seq<char>,
    ext: Seq<char>,
    today: Seq<char>,
) -> nat {
    choose|attempt: nat| is_first_free(taken, name, ext, today, attempt)
}

/// The path that a file of the given name gets in `dir`, where `taken` are
/// the names that `dir` holds: `dir` joined with the first free candidate.
pub open spec fn resolved(
    dir: Seq<char>,
    name: Seq<char>,
    ext: Seq<char>,
    today: Seq<char>,
    taken: Seq<Seq<char>>,
) -> Seq<char> {
    join(dir, candidate(name, ext, today, first_free(taken, name, ext, today)))
}

/// Two versions of one file have different names.
pub proof fn lemma_versions_differ(
    name: Seq<char>,
    ext: Seq<char>,
    today: Seq<char>,
    a: nat,
    b: nat,
)
    requires
        versioned_name(name, ext, today, a) == versioned_name(name, ext, today, b),
    ensures
        a == b,
{
    let front = dated_stem(name, today) + seq!['_', 'v'];
    let left = versioned_name(name, ext, today, a);
    let right = versioned_name(name, ext, today, b);
    assert(left.len() == front.len() + decimal(a).len() + 1 + ext.len());
    assert(right.len() == front.len() + decimal(b).len() + 1 + ext.len());
    assert(decimal(a) =~= left.subrange(front.len() as int, (front.len() + decimal(a).len()) as int));
    assert(decimal(b) =~= right.subrange(front.len() as int, (front.len() + decimal(b).len()) as int));
    lemma_decimal_injective(a, b);
}

/// The names of the versions from 2 up to, and without, `bound`.
pub open spec fn versions_below(
    name: Seq<char>,
    ext: Seq<char>,
    today: Seq<char>,
    bound: nat,
) -> Set<Seq<char>>
    decreases bound,
{
    if bound <= 2 {
        Set::empty()
    } else {
        versions_below(name, ext, today, (bound - 1) as nat).insert(
            versioned_name(name, ext, today, (bound - 1) as nat),
        )
    }
}

proof fn lemma_versions_below(name: Seq<char>, ext: Seq<char>, today: Seq<char>, bound: nat)
    requires
        bound >= 2,
    ensures
        versions_below(name, ext, today, bound).finite(),
        versions_below(name, ext, today, bound).len() == bound - 2,
        forall|text: Seq<char>| #[trigger]
            versions_below(name, ext, today, bound).contains(text) ==> exists|version: nat|
                2 <= version < bound && text == versioned_name(name, ext, today, version),
        forall|version: nat|
            2 <= version < bound ==> versions_below(name, ext, today, bound).contains(
                #[trigger] versioned_name(name, ext, today, version),
            ),
    decreases bound,
{
    if bound > 2 {
        let before = (bound - 1) as nat;
        let newest = versioned_name(name, ext, today, before);
        lemma_versions_below(name, ext, today, before);
        let smaller = versions_below(name, ext, today, before);
        if smaller.contains(newest) {
            let version = choose|version: nat|
                2 <= version < before && newest == versioned_name(name, ext, today, version);
            lemma_versions_differ(name, ext, today, before, version);
        }
        assert(smaller.insert(newest).len() == smaller.len() + 1);
    }
}

/// Where every version below `bound` is taken, `taken` holds at least that
/// many names: the search for a free version ends.
pub proof fn lemma_free_version_exists(
    taken: Seq<Seq<char>>,
    name: Seq<char>,
    ext: Seq<char>,
    today: Seq<char>,
    bound: nat,
)
    requires
        bound >= 2,
        forall|version: nat|
            2 <= version < bound ==> taken.contains(
                #[trigger] versioned_name(name, ext, today, version),
            ),
    ensures
        bound - 2 <= taken.len(),
{
    lemma_versions_below(name, ext, today, bound);
    let versions = versions_below(name, ext, today, bound);
    assert forall|text: Seq<char>| versions.contains(text) implies taken.to_set().contains(
        text,
    ) by {
        let version = choose|version: nat|
            2 <= version < bound && text == versioned_name(name, ext, today, version);
        assert(taken.contains(versioned_name(name, ext, today, version)));
    }
    assert(versions.subset_of(taken.to_set()));
    vstd::set_lib::lemma_len_subset(versions, taken.to_set());
    taken.lemma_cardinality_of_set();
}

/// At most one candidate is the first free one.
pub proof fn lemma_first_free_unique(
    taken: Seq<Seq<char>>,
    name: Seq<char>,
    ext: Seq<char>,
    today: Seq<char>,
    a: nat,
    b: nat,
)
    requires
        is_first_free(taken, name, ext, today, a),
        is_first_free(taken, name, ext, today, b),
    ensures
        a == b,
{
    if a < b {
        assert(taken.contains(candidate(name, ext, today, a)));
    }
    if b < a {
        assert(taken.contains(candidate(name, ext, today, b)));
    }
}

proof fn lemma_least_free(
    taken: Seq<Seq<char>>,
    name: Seq<char>,
    ext: Seq<char>,
    today: Seq<char>,
    free: nat,
)
    requires
        !taken.contains(candidate(name, ext, today, free)),
    ensures
        exists|attempt: nat| attempt <= free && is_first_free(taken, name, ext, today, attempt),
    decreases free,
{
    if exists|earlier: nat|
        earlier < free && !taken.contains(#[trigger] candidate(name, ext, today, earlier)) {
        let earlier = choose|earlier: nat|
            earlier < free && !taken.contains(#[trigger] candidate(name, ext, today, earlier));
        lemma_least_free(taken, name, ext, today, earlier);
    } else {
        assert(is_first_free(taken, name, ext, today, free));
    }
}

/// Whatever a directory holds, some candidate is free: the first free one
/// is not among the names taken, every candidate before it is, and it comes
/// no later than two past the number of names taken.
pub proof fn lemma_first_free_exists(
    taken: Seq<Seq<char>>,
    name: Seq<char>,
    ext: Seq<char>,
    today: Seq<char>,
)
    ensures
        is_first_free(taken, name, ext, today, first_free(taken, name, ext, today)),
        first_free(taken, name, ext, today) <= taken.len() + 2,
{
    let bound = taken.len() + 3;
    if forall|version: nat|
        2 <= version < bound ==> taken.contains(
            #[trigger] versioned_name(name, ext, today, version),
        ) {
        lemma_free_version_exists(taken, name, ext, today, bound);
    }
    let free = choose|version: nat|
        2 <= version < bound && !taken.contains(
            #[trigger] versioned_name(name, ext, today, version),
        );
    assert(candidate(name, ext, today, free) == versioned_name(name, ext, today, free));
    lemma_least_free(taken, name, ext, today, free);
    let least = choose|attempt: nat|
        attempt <= free && is_first_free(taken, name, ext, today, attempt);
    lemma_first_free_unique(taken, name, ext, today, least, first_free(taken, name, ext, today));
}

/// Once the path that was chosen is taken too, the next choice falls on a
/// later candidate: the names that a file gets in one directory on one day
/// go up the order of the candidates, and onto the very next one where that
/// one is free.
pub proof fn lemma_next_choice_is_later(
    taken: Seq<Seq<char>>,
    name: Seq<char>,
    ext: Seq<char>,
    today: Seq<char>,
)
    ensures
        first_free(taken, name, ext, today) < first_free(
            taken.push(candidate(name, ext, today, first_free(taken, name, ext, today))),
            name,
            ext,
            today,
        ),
        !taken.contains(candidate(name, ext, today, first_free(taken, name, ext, today) + 1))
            && candidate(name, ext, today, first_free(taken, name, ext, today) + 1) != candidate(
            name,
            ext,
            today,
            first_free(taken, name, ext, today),
        ) ==> first_free(
            taken.push(candidate(name, ext, today, first_free(taken, name, ext, today))),
            name,
            ext,
            today,
        ) == first_free(taken, name, ext, today) + 1,
{
    let chosen = first_free(taken, name, ext, today);
    let more = taken.push(candidate(name, ext, today, chosen));
    let next = first_free(more, name, ext, today);
    lemma_first_free_exists(taken, name, ext, today);
    lemma_first_free_exists(more, name, ext, today);
    assert forall|earlier: nat| earlier <= chosen implies more.contains(
        #[trigger] candidate(name, ext, today, earlier),
    ) by {
        if earlier < chosen {
            let at = choose|at: int|
                0 <= at < taken.len() && taken[at] == candidate(name, ext, today, earlier);
            assert(more[at] == candidate(name, ext, today, earlier));
        } else {
            assert(more[taken.len() as int] == candidate(name, ext, today, chosen));
        }
    }
    if next <= chosen {
        assert(more.contains(candidate(name, ext, today, next)));
    }
    let after = chosen + 1;
    if !taken.contains(candidate(name, ext, today, after)) && candidate(name, ext, today, after)
        != candidate(name, ext, today, chosen) {
        if more.contains(candidate(name, ext, today, after)) {
            let at = choose|at: int|
                0 <= at < more.len() && more[at] == candidate(name, ext, today, after);
            if at < taken.len() {
                assert(taken[at] == more[at]);
            }
        }
        assert(is_first_free(more, name, ext, today, after));
        lemma_first_free_unique(more, name, ext, today, after, next);
    }
}

/// The candidate of the given number for a file.
pub fn collision_candidate(name: &str, ext: &str, today: &str, attempt: u128) -> (text: String)
    ensures
        text@ == candidate(name@, ext@, today@, attempt as nat),
{
    if attempt == 0 {
        return String::from_str(name);
    }
    let mut text = String::from_str(file_stem_of(name));
    text.push('_');
    text.append(today);
    if attempt >= 2 {
        text.push('_');
        text.push('v');
        let numeral = decimal_text(attempt);
        text.append(numeral.as_str());
    }
    text.push('.');
    text.append(ext);
    assert(text@ =~= candidate(name@, ext@, today@, attempt as nat));
    text
}

/// The number of the first candidate that `taken` does not hold.
pub fn first_free_attempt(name: &str, ext: &str, today: &str, taken: &Vec<String>) -> (attempt:
    u128)
    ensures
        is_first_free(texts(taken@), name@, ext@, today@, attempt as nat),
        attempt as nat == first_free(texts(taken@), name@, ext@, today@),
        attempt <= taken@.len() + 2,
{
    let ghost held = texts(taken@);
    let mut attempt: u128 = 0;
    loop
        invariant
            held == texts(taken@),
            held.len() == taken.len(),
            attempt <= held.len() + 2,
            forall|earlier: nat|
                earlier < attempt ==> held.contains(
                    #[trigger] candidate(name@, ext@, today@, earlier),
                ),
        decreases held.len() + 2 - attempt,
    {
        let text = collision_candidate(name, ext, today, attempt);
        if !contains_text(taken, text.as_str()) {
            proof {
                let found = first_free(held, name@, ext@, today@);
                assert(is_first_free(held, name@, ext@, today@, attempt as nat));
                lemma_first_free_unique(held, name@, ext@, today@, attempt as nat, found);
            }
            return attempt;
        }
        proof {
            if attempt >= 2 {
                let bound = (attempt + 1) as nat;
                assert forall|version: nat| 2 <= version < bound implies held.contains(
                    #[trigger] versioned_name(name@, ext@, today@, version),
                ) by {
                    assert(held.contains(candidate(name@, ext@, today@, version)));
                }
                lemma_free_version_exists(held, name@, ext@, today@, bound);
            }
        }
        attempt += 1;
    }
}

/// The path for a file of the given name in `dir` on the given day, where
/// `taken` are the names that `dir` holds.
pub fn resolve_collision_on(
    dir: &str,
    name: &str,
    ext: &str,
    today: &str,
    taken: &Vec<String>,
) -> (path: String)
    ensures
        path@ == resolved(dir@, name@, ext@, today@, texts(taken@)),
        exists|attempt: nat|
            is_first_free(texts(taken@), name@, ext@, today@, attempt) && path@ == join(
                dir@,
                candidate(name@, ext@, today@, attempt),
            ),
{
    let attempt = first_free_attempt(name, ext, today, taken);
    let chosen = collision_candidate(name, ext, today, attempt);
    join_path(dir, chosen.as_str())
}

/// The path for a file of the given name in `dir` today, where `taken` are
/// the names that `dir` holds. The date is asked of the clock only where the
/// name itself is taken.
pub fn resolve_collision(dir: &str, name: &str, ext: &str, taken: &Vec<String>) -> (path: String)
    ensures
        !texts(taken@).contains(name@) ==> path@ == join(dir@, name@),
        exists|today: Seq<char>| path@ == resolved(dir@, name@, ext@, today, texts(taken@)),
        exists|today: Seq<char>, attempt: nat|
            is_first_free(texts(taken@), name@, ext@, today, attempt) && path@ == join(
                dir@,
                #[trigger] candidate(name@, ext@, today, attempt),
            ),
{
    if !contains_text(taken, name) {
        proof {
            let today = Seq::<char>::empty();
            let held = texts(taken@);
            assert(is_first_free(held, name@, ext@, today, 0));
            lemma_first_free_unique(held, name@, ext@, today, 0, first_free(held, name@, ext@, today));
            assert(join(dir@, name@) == resolved(dir@, name@, ext@, today, held));
            assert(join(dir@, name@) == join(dir@, candidate(name@, ext@, today, 0)));
        }
        join_path(dir, name)
    } else {
        let today = local_today();
        let path = resolve_collision_on(dir, name, ext, today.as_str(), taken);
        proof {
            let attempt = choose|attempt: nat|
                is_first_free(texts(taken@), name@, ext@, today@, attempt) && path@ == join(
                    dir@,
                    candidate(name@, ext@, today@, attempt),
                );
            assert(path@ == join(dir@, candidate(name@, ext@, today@, attempt)));
        }
        path
    }
}

} // verus!
