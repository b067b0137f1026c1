//! Installed themes: the theme record and the name lookup that the theme
//! management performs over the installed set.  Reading and writing theme
//! files is the caller's business.

use vstd::prelude::*;

use crate::strutil::str_eq;

verus! {

/// One installed theme.
pub struct Theme {
    pub content: String,
    pub created_at: String,
    pub created_by_alias: String,
    pub description: Option<String>,
    pub icon: Option<String>,
    pub name: String,
    pub updated_at: String,
    pub version: String,
}

/// First index of a theme bearing this name, or `-1` when none does.
pub open spec fn spec_theme_idx(names: Seq<Seq<char>>, name: Seq<char>) -> int
    decreases names.len(),
{
    if names.len() == 0 {
        -1
    } else if names[0] == name {
        0
    } else if spec_theme_idx(names.drop_first(), name) < 0 {
        -1
    } else {
        spec_theme_idx(names.drop_first(), name) + 1
    }
}

proof fn lemma_theme_idx_first(names: Seq<Seq<char>>, name: Seq<char>, i: int)
    requires
        0 <= i < names.len(),
        names[i] == name,
        forall|j: int| 0 <= j < i ==> names[j] != name,
    ensures
        spec_theme_idx(names, name) == i,
    decreases names.len(),
{
    if i > 0 {
        assert(forall|j: int| 0 <= j < i - 1 ==> names.drop_first()[j] != name);
        lemma_theme_idx_first(names.drop_first(), name, i - 1);
    }
}

proof fn lemma_theme_idx_absent(names: Seq<Seq<char>>, name: Seq<char>)
    requires
        forall|j: int| 0 <= j < names.len() ==> names[j] != name,
    ensures
        spec_theme_idx(names, name) == -1,
    decreases names.len(),
{
    if names.len() > 0 {
        lemma_theme_idx_absent(names.drop_first(), name);
    }
}

/// The sequence of theme names, in installation order.
pub open spec fn theme_names(themes: Seq<Theme>) -> Seq<Seq<char>> {
    Seq::new(themes.len(), |i: int| themes[i].name@)
}

/// Finds the first installed theme bearing this name.
pub fn find_theme(themes: &Vec<Theme>, name: &str) -> (r: Option<usize>)
    ensures
        match r {
            Some(i) => i == spec_theme_idx(theme_names(themes@), name@) && i < themes@.len()
                && themes@[i as int].name@ == name@,
            None => spec_theme_idx(theme_names(themes@), name@) == -1,
        },
{
    let n = themes.len();
    for i in 0..n
        invariant
            n == themes@.len(),
            forall|j: int| 0 <= j < i ==> (#[trigger] themes@[j]).name@ != name@,
    {
        if str_eq(themes[i].name.as_str(), name) {
            proof {
                lemma_theme_idx_first(theme_names(themes@), name@, i as int);
            }
            return Some(i);
        }
    }
    proof {
        lemma_theme_idx_absent(theme_names(themes@), name@);
    }
    None
}

} // verus!
