//! What the caller asks for: which file systems to show, and how.

use crate::text::{str_eq, string_views};
use vstd::prelude::*;

verus! {

/// The mathematical value of [`Options`]. The two lists of file system
/// types are sets: only membership counts.
pub struct OptionsView {
    pub show_local_fs: bool,
    pub show_all_fs: bool,
    pub listed_fs: Set<Seq<char>>,
    pub excluded_fs: Set<Seq<char>>,
    pub human_readable: bool,
    pub print_grand_total: bool,
    pub field_list: Seq<Seq<char>>,
    pub human_readable_1024: bool,
    pub inodes: bool,
    pub show_fs_type: bool,
    pub output_all_fields: bool,
}

/// The options of one run.
#[derive(Debug, Clone)]
pub struct Options {
    /// Leave out network file systems.
    pub show_local_fs: bool,
    /// Show pseudo and inaccessible file systems too.
    pub show_all_fs: bool,
    /// If not empty, show only these file system types.
    pub listed_fs: Vec<String>,
    /// Never show these file system types.
    pub excluded_fs: Vec<String>,
    pub human_readable: bool,
    pub print_grand_total: bool,
    pub field_list: Vec<String>,
    /// Sizes in powers of 1024 rather than of 1000.
    pub human_readable_1024: bool,
    pub inodes: bool,
    pub show_fs_type: bool,
    pub output_all_fields: bool,
}

/// The set of the names in a list.
pub open spec fn name_set(names: Seq<String>) -> Set<Seq<char>> {
    string_views(names).to_set()
}

impl View for Options {
    type V = OptionsView;

    open spec fn view(&self) -> OptionsView {
        OptionsView {
            show_local_fs: self.show_local_fs,
            show_all_fs: self.show_all_fs,
            listed_fs: name_set(self.listed_fs@),
            excluded_fs: name_set(self.excluded_fs@),
            human_readable: self.human_readable,
            print_grand_total: self.print_grand_total,
            field_list: string_views(self.field_list@),
            human_readable_1024: self.human_readable_1024,
            inodes: self.inodes,
            show_fs_type: self.show_fs_type,
            output_all_fields: self.output_all_fields,
        }
    }
}

impl OptionsView {
    /// Every flag off, every list empty.
    pub open spec fn unset() -> OptionsView {
        OptionsView {
            show_local_fs: false,
            show_all_fs: false,
            listed_fs: Set::empty(),
            excluded_fs: Set::empty(),
            human_readable: false,
            print_grand_total: false,
            field_list: Seq::empty(),
            human_readable_1024: false,
            inodes: false,
            show_fs_type: false,
            output_all_fields: false,
        }
    }

    /// What a run starts from: local file systems only, no pseudo file
    /// systems, sizes in readable units, and nothing else set.
    pub open spec fn initial() -> OptionsView {
        OptionsView { show_local_fs: true, human_readable: true, ..OptionsView::unset() }
    }
}

/// A list is empty exactly when its set of names is.
pub proof fn lemma_name_set_empty(names: Seq<String>)
    ensures
        (names.len() == 0) <==> name_set(names) == Set::<Seq<char>>::empty(),
{
    if names.len() == 0 {
        assert(name_set(names) =~= Set::<Seq<char>>::empty());
    } else {
        assert(string_views(names)[0] == names[0]@);
        assert(name_set(names).contains(names[0]@));
    }
}

/// Whether `name` is in the list `names`.
pub fn contains_name(names: &Vec<String>, name: &str) -> (found: bool)
    ensures
        found == name_set(names@).contains(name@),
{
    let mut i: usize = 0;
    while i < names.len()
        invariant
            i <= names.len(),
            forall|j: int| 0 <= j < i ==> string_views(names@)[j] != name@,
        decreases names.len() - i,
    {
        if str_eq(names[i].as_str(), name) {
            assert(string_views(names@)[i as int] == name@);
            return true;
        }
        i = i + 1;
    }
    false
}

impl Options {
    /// The options that a run starts from.
    pub fn new() -> (options: Options)
        ensures
            options@ == OptionsView::initial(),
    {
        let options = Options {
            show_local_fs: true,
            show_all_fs: false,
            listed_fs: Vec::new(),
            excluded_fs: Vec::new(),
            human_readable: true,
            print_grand_total: false,
            field_list: Vec::new(),
            human_readable_1024: false,
            inodes: false,
            show_fs_type: false,
            output_all_fields: false,
        };
        proof {
            lemma_name_set_empty(options.listed_fs@);
            lemma_name_set_empty(options.excluded_fs@);
            assert(options@.field_list =~= Seq::<Seq<char>>::empty());
        }
        options
    }
}

impl Default for Options {
    /// Every flag off, every list empty.
    fn default() -> (options: Options)
        ensures
            options@ == OptionsView::unset(),
    {
        let options = Options {
            show_local_fs: false,
            show_all_fs: false,
            listed_fs: Vec::new(),
            excluded_fs: Vec::new(),
            human_readable: false,
            print_grand_total: false,
            field_list: Vec::new(),
            human_readable_1024: false,
            inodes: false,
            show_fs_type: false,
            output_all_fields: false,
        };
        proof {
            lemma_name_set_empty(options.listed_fs@);
            lemma_name_set_empty(options.excluded_fs@);
            assert(options@.field_list =~= Seq::<Seq<char>>::empty());
        }
        options
    }
}

} // verus!
