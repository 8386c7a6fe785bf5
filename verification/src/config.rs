//! The category index: which category owns which file extension.

use crate::text::{eq_ignore_ascii_case, fold};
use vstd::prelude::*;

verus! {

/// A named bucket and the extensions that are sorted into it.
#[derive(Debug)]
pub struct Category {
    pub name: String,
    pub extensions: Vec<String>,
}

/// The categories in the order in which they are asked for an extension:
/// where two of them list the same extension, the earlier one owns it.
#[derive(Debug)]
pub struct Config {
    pub categories: Vec<Category>,
}

/// What a category is to the contracts: its name and its extensions as text.
pub ghost struct CategoryModel {
    pub name: Seq<char>,
    pub extensions: Seq<Seq<char>>,
}

impl View for Category {
    type V = CategoryModel;

    open spec fn view(&self) -> CategoryModel {
        CategoryModel {
            name: self.name@,
            extensions: Seq::new(self.extensions@.len(), |j: int| self.extensions@[j]@),
        }
    }
}

impl View for Config {
    type V = Seq<CategoryModel>;

    open spec fn view(&self) -> Seq<CategoryModel> {
        Seq::new(self.categories@.len(), |i: int| self.categories@[i]@)
    }
}

/// Whether a list of extensions holds `ext`, ASCII case set aside.
pub open spec fn claims(extensions: Seq<Seq<char>>, ext: Seq<char>) -> bool {
    exists|j: int| 0 <= j < extensions.len() && fold(#[trigger] extensions[j]) == fold(ext)
}

/// The name of the first category at or behind `start` that claims `ext`.
pub open spec fn owner_from(categories: Seq<CategoryModel>, ext: Seq<char>, start: int) -> Option<
    Seq<char>,
>
    decreases categories.len() - start,
{
    if start < 0 || start >= categories.len() {
        None
    } else if claims(categories[start].extensions, ext) {
        Some(categories[start].name)
    } else {
        owner_from(categories, ext, start + 1)
    }
}

/// The name of the category that owns `ext`: the first one that claims it.
pub open spec fn owner(categories: Seq<CategoryModel>, ext: Seq<char>) -> Option<Seq<char>> {
    owner_from(categories, ext, 0)
}

/// The names of the categories, in their order.
pub open spec fn names(categories: Seq<CategoryModel>) -> Seq<Seq<char>> {
    Seq::new(categories.len(), |i: int| categories[i].name)
}

/// From `start` on, an extension has no owner exactly when no category
/// claims it, and its owner is otherwise the first category that does.
pub proof fn lemma_owner_from(categories: Seq<CategoryModel>, ext: Seq<char>, start: int)
    requires
        0 <= start <= categories.len(),
    ensures
        owner_from(categories, ext, start) is None <==> forall|i: int|
            start <= i < categories.len() ==> !claims(#[trigger] categories[i].extensions, ext),
        owner_from(categories, ext, start) is Some ==> exists|i: int|
            {
                &&& start <= i < categories.len()
                &&& claims(#[trigger] categories[i].extensions, ext)
                &&& owner_from(categories, ext, start) == Some(categories[i].name)
                &&& forall|k: int| start <= k < i ==> !claims(#[trigger] categories[k].extensions, ext)
            },
    decreases categories.len() - start,
{
    if start < categories.len() {
        if claims(categories[start].extensions, ext) {
            assert(claims(categories[start].extensions, ext) && owner_from(categories, ext, start)
                == Some(categories[start].name));
        } else {
            lemma_owner_from(categories, ext, start + 1);
            if owner_from(categories, ext, start) is Some {
                let i = choose|i: int|
                    {
                        &&& start + 1 <= i < categories.len()
                        &&& claims(#[trigger] categories[i].extensions, ext)
                        &&& owner_from(categories, ext, start + 1) == Some(categories[i].name)
                        &&& forall|k: int|
                            start + 1 <= k < i ==> !claims(#[trigger] categories[k].extensions, ext)
                    };
                assert forall|k: int| start <= k < i implies !claims(
                    #[trigger] categories[k].extensions,
                    ext,
                ) by {}
            }
        }
    }
}

/// An extension that no category lists, in any mix of capitals and small
/// letters, has no owner; one that some category lists has one.
pub proof fn lemma_owner_none(categories: Seq<CategoryModel>, ext: Seq<char>)
    ensures
        owner(categories, ext) is None <==> forall|i: int|
            0 <= i < categories.len() ==> !claims(#[trigger] categories[i].extensions, ext),
{
    lemma_owner_from(categories, ext, 0);
}

/// Two extensions that differ only in ASCII case have the same owner.
pub proof fn lemma_owner_ignores_case(categories: Seq<CategoryModel>, a: Seq<char>, b: Seq<char>)
    requires
        fold(a) == fold(b),
    ensures
        owner(categories, a) == owner(categories, b),
{
    lemma_owner_from_ignores_case(categories, a, b, 0);
}

proof fn lemma_owner_from_ignores_case(
    categories: Seq<CategoryModel>,
    a: Seq<char>,
    b: Seq<char>,
    start: int,
)
    requires
        fold(a) == fold(b),
    ensures
        owner_from(categories, a, start) == owner_from(categories, b, start),
    decreases categories.len() - start,
{
    if 0 <= start < categories.len() {
        assert(claims(categories[start].extensions, a) == claims(categories[start].extensions, b));
        lemma_owner_from_ignores_case(categories, a, b, start + 1);
    }
}

/// The built-in configuration: five categories with the extensions that
/// are commonly known for them.
pub open spec fn default_categories() -> Seq<CategoryModel> {
    seq![
        CategoryModel {
            name: "Images"@,
            extensions: seq!["jpg"@, "jpeg"@, "png"@, "gif"@, "bmp"@, "webp"@, "svg"@],
        },
        CategoryModel {
            name: "Documents"@,
            extensions: seq![
                "pdf"@,
                "doc"@,
                "docx"@,
                "txt"@,
                "rtf"@,
                "odt"@,
                "xlsx"@,
                "csv"@,
            ],
        },
        CategoryModel {
            name: "Videos"@,
            extensions: seq!["mp4"@, "mkv"@, "mov"@, "avi"@, "webm"@],
        },
        CategoryModel {
            name: "Music"@,
            extensions: seq!["mp3"@, "wav"@, "flac"@, "aac"@, "ogg"@],
        },
        CategoryModel {
            name: "Archives"@,
            extensions: seq!["zip"@, "rar"@, "7z"@, "tar"@, "gz"@],
        },
    ]
}

/// The empty extension has no owner in the built-in configuration.
pub proof fn lemma_default_leaves_empty_unowned()
    ensures
        owner(default_categories(), Seq::<char>::empty()) is None,
{
    reveal_strlit("jpg");
    reveal_strlit("jpeg");
    reveal_strlit("png");
    reveal_strlit("gif");
    reveal_strlit("bmp");
    reveal_strlit("webp");
    reveal_strlit("svg");
    reveal_strlit("pdf");
    reveal_strlit("doc");
    reveal_strlit("docx");
    reveal_strlit("txt");
    reveal_strlit("rtf");
    reveal_strlit("odt");
    reveal_strlit("xlsx");
    reveal_strlit("csv");
    reveal_strlit("mp4");
    reveal_strlit("mkv");
    reveal_strlit("mov");
    reveal_strlit("avi");
    reveal_strlit("webm");
    reveal_strlit("mp3");
    reveal_strlit("wav");
    reveal_strlit("flac");
    reveal_strlit("aac");
    reveal_strlit("ogg");
    reveal_strlit("zip");
    reveal_strlit("rar");
    reveal_strlit("7z");
    reveal_strlit("tar");
    reveal_strlit("gz");
    let categories = default_categories();
    let none = Seq::<char>::empty();
    assert forall|i: int| 0 <= i < categories.len() implies !claims(
        #[trigger] categories[i].extensions,
        none,
    ) by {
        let listed = categories[i].extensions;
        assert forall|j: int| 0 <= j < listed.len() implies fold(#[trigger] listed[j]) != fold(
            none,
        ) by {
            assert(listed[j].len() > 0);
            assert(fold(listed[j]).len() != fold(none).len());
        }
    }
    lemma_owner_none(categories, none);
}

/// Whether `extensions` holds `ext`, ASCII case set aside.
fn lists(extensions: &Vec<String>, ext: &str) -> (found: bool)
    ensures
        found == claims(Seq::new(extensions@.len(), |j: int| extensions@[j]@), ext@),
{
    let ghost model = Seq::new(extensions@.len(), |j: int| extensions@[j]@);
    let mut j: usize = 0;
    while j < extensions.len()
        invariant
            j <= extensions@.len(),
            model == Seq::new(extensions@.len(), |j: int| extensions@[j]@),
            forall|k: int| 0 <= k < j ==> fold(#[trigger] model[k]) != fold(ext@),
        decreases extensions@.len() - j,
    {
        if eq_ignore_ascii_case(extensions[j].as_str(), ext) {
            assert(fold(model[j as int]) == fold(ext@));
            return true;
        }
        j += 1;
    }
    false
}

impl Category {
    /// A category of the given name and extensions.
    pub fn new(name: &str, extensions: &[&str]) -> (category: Category)
        ensures
            category@.name == name@,
            category@.extensions == Seq::new(extensions@.len(), |j: int| extensions@[j]@),
    {
        let mut list: Vec<String> = Vec::new();
        let mut j: usize = 0;
        while j < extensions.len()
            invariant
                j <= extensions@.len(),
                list@.len() == j,
                forall|k: int| 0 <= k < j ==> (#[trigger] list@[k])@ == extensions@[k]@,
            decreases extensions@.len() - j,
        {
            list.push(String::from_str(extensions[j]));
            j += 1;
        }
        let category = Category { name: String::from_str(name), extensions: list };
        assert(category@.extensions =~= Seq::new(extensions@.len(), |j: int| extensions@[j]@));
        category
    }
}

impl Config {
    /// The configuration made of the given categories, in their order.
    pub fn new(categories: Vec<Category>) -> (config: Config)
        ensures
            config.categories == categories,
    {
        Config { categories }
    }

    /// The category that owns `extension`: the first one, in the
    /// configuration's order, that lists it in any mix of ASCII capitals and
    /// small letters. `None` where no category lists it.
    pub fn categorize(&self, extension: &str) -> (category: Option<&str>)
        ensures
            match category {
                Some(name) => owner(self@, extension@) == Some(name@),
                None => owner(self@, extension@) is None,
            },
            category is None <==> forall|i: int|
                0 <= i < self@.len() ==> !claims(#[trigger] self@[i].extensions, extension@),
    {
        proof {
            lemma_owner_none(self@, extension@);
        }
        let mut i: usize = 0;
        while i < self.categories.len()
            invariant
                i <= self.categories@.len(),
                owner(self@, extension@) == owner_from(self@, extension@, i as int),
            decreases self.categories@.len() - i,
        {
            if lists(&self.categories[i].extensions, extension) {
                return Some(self.categories[i].name.as_str());
            }
            i += 1;
        }
        None
    }

    /// The names of the categories, in the configuration's order.
    pub fn category_names(&self) -> (list: Vec<String>)
        ensures
            list@.len() == self@.len(),
            forall|i: int| 0 <= i < list@.len() ==> (#[trigger] list@[i])@ == self@[i].name,
    {
        let mut list: Vec<String> = Vec::new();
        let mut i: usize = 0;
        while i < self.categories.len()
            invariant
                i <= self.categories@.len(),
                list@.len() == i,
                forall|k: int| 0 <= k < i ==> (#[trigger] list@[k])@ == self@[k].name,
            decreases self.categories@.len() - i,
        {
            list.push(self.categories[i].name.clone());
            i += 1;
        }
        list
    }
}

impl Default for Config {
    /// The built-in configuration.
    fn default() -> (config: Config)
        ensures
            config@ == default_categories(),
    {
        let mut categories: Vec<Category> = Vec::new();
        categories.push(
            Category::new("Images", &["jpg", "jpeg", "png", "gif", "bmp", "webp", "svg"]),
        );
        categories.push(
            Category::new(
                "Documents",
                &["pdf", "doc", "docx", "txt", "rtf", "odt", "xlsx", "csv"],
            ),
        );
        categories.push(Category::new("Videos", &["mp4", "mkv", "mov", "avi", "webm"]));
        categories.push(Category::new("Music", &["mp3", "wav", "flac", "aac", "ogg"]));
        categories.push(Category::new("Archives", &["zip", "rar", "7z", "tar", "gz"]));
        let config = Config { categories };
        proof {
            let model = default_categories();
            assert(config@.len() == model.len());
            assert forall|i: int| 0 <= i < model.len() implies config@[i] == model[i] by {
                assert(config@[i].extensions =~= model[i].extensions);
            }
            assert(config@ =~= model);
        }
        config
    }
}

} // verus!
