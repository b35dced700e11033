//! The icons of the bar.

use vstd::prelude::*;

use crate::text::same_text;

verus! {

/// The icons.
pub struct Assets;

/// Number of icons.
pub const ICON_COUNT: usize = 12;

/// File names of the icons, in order.
pub open spec fn icon_name(index: int) -> Seq<char> {
    if index == 0 {
        "alert.svg"@
    } else if index == 1 {
        "camera.svg"@
    } else if index == 2 {
        "check.svg"@
    } else if index == 3 {
        "crop.svg"@
    } else if index == 4 {
        "folder.svg"@
    } else if index == 5 {
        "lock-closed.svg"@
    } else if index == 6 {
        "lock-open.svg"@
    } else if index == 7 {
        "menu.svg"@
    } else if index == 8 {
        "more.svg"@
    } else if index == 9 {
        "power.svg"@
    } else if index == 10 {
        "refresh.svg"@
    } else {
        "window.svg"@
    }
}

fn icon_text(index: usize) -> (result: &'static str)
    requires
        index < ICON_COUNT,
    ensures
        result@ == icon_name(index as int),
{
    match index {
        0 => "alert.svg",
        1 => "camera.svg",
        2 => "check.svg",
        3 => "crop.svg",
        4 => "folder.svg",
        5 => "lock-closed.svg",
        6 => "lock-open.svg",
        7 => "menu.svg",
        8 => "more.svg",
        9 => "power.svg",
        10 => "refresh.svg",
        _ => "window.svg",
    }
}

impl Assets {
    /// The path is that of the icon at `index`.
    pub open spec fn is_path_of(path: Seq<char>, index: int) -> bool {
        path == "icons/"@ + icon_name(index)
    }

    /// The first icon with this path, from `index` on.
    pub open spec fn found_from(path: Seq<char>, index: int) -> Option<usize>
        decreases ICON_COUNT - index,
    {
        if index >= ICON_COUNT {
            None
        } else if Self::is_path_of(path, index) {
            Some(index as usize)
        } else {
            Self::found_from(path, index + 1)
        }
    }

    /// The icon with this path.
    pub fn find(&self, path: &str) -> (result: Option<usize>)
        ensures
            result == Self::found_from(path@, 0),
            result is Some ==> result->0 < ICON_COUNT && Self::is_path_of(path@, result->0 as int),
    {
        let mut index: usize = 0;
        while index < ICON_COUNT
            invariant
                index <= ICON_COUNT,
                Self::found_from(path@, 0) == Self::found_from(path@, index as int),
            decreases ICON_COUNT - index,
        {
            let full = crate::text::joined("icons/", icon_text(index));
            if same_text(path, full.as_str()) {
                return Some(index);
            }
            index += 1;
        }
        None
    }

    /// The file names in a folder: all icons in "icons", nothing elsewhere.
    pub fn list(&self, path: &str) -> (result: Vec<String>)
        ensures
            path@ == "icons"@ ==> result@.len() == ICON_COUNT && forall|i: int|
                0 <= i < ICON_COUNT ==> (#[trigger] result@[i])@ == icon_name(i),
            path@ != "icons"@ ==> result@.len() == 0,
    {
        let mut names: Vec<String> = Vec::new();
        if !same_text(path, "icons") {
            return names;
        }
        let mut index: usize = 0;
        while index < ICON_COUNT
            invariant
                index <= ICON_COUNT,
                names@.len() == index,
                forall|i: int| 0 <= i < index ==> (#[trigger] names@[i])@ == icon_name(i),
            decreases ICON_COUNT - index,
        {
            names.push(icon_text(index).to_owned());
            index += 1;
        }
        names
    }
}

/// Every icon is found by its path, and by that of no other; a path elsewhere finds none.
pub proof fn law_icons_are_found_by_their_paths(index: int, path: Seq<char>)
    requires
        0 <= index < ICON_COUNT,
    ensures
        Assets::found_from("icons/"@ + icon_name(index), 0) == Some(index as usize),
        Assets::found_from(path, 0) is Some ==> path.len() > 10 && path.subrange(0, 6)
            == "icons/"@ && path[path.len() - 4] == '.' && path[path.len() - 1] == 'g',
{
    assert forall|other: int| 0 <= other < index implies !Assets::is_path_of(
        "icons/"@ + icon_name(index),
        other,
    ) by {
        lemma_icons_differ(index, other);
        if Assets::is_path_of("icons/"@ + icon_name(index), other) {
            let one = "icons/"@ + icon_name(index);
            let two = "icons/"@ + icon_name(other);
            let k = "icons/"@.len() as int;
            assert(one.subrange(k, one.len() as int) =~= icon_name(index));
            assert(two.subrange(k, two.len() as int) =~= icon_name(other));
        }
    }
    lemma_found_at("icons/"@ + icon_name(index), 0, index);
    lemma_found_is_a_path(path, 0);
}

proof fn lemma_found_at(path: Seq<char>, from: int, index: int)
    requires
        0 <= from <= index < ICON_COUNT,
        Assets::is_path_of(path, index),
        forall|other: int| from <= other < index ==> !Assets::is_path_of(path, other),
    ensures
        Assets::found_from(path, from) == Some(index as usize),
    decreases index - from,
{
    if from < index {
        lemma_found_at(path, from + 1, index);
    }
}

proof fn lemma_found_is_a_path(path: Seq<char>, from: int)
    requires
        0 <= from,
    ensures
        Assets::found_from(path, from) is Some ==> path.len() > 10 && path.subrange(0, 6)
            == "icons/"@ && path[path.len() - 4] == '.' && path[path.len() - 1] == 'g',
    decreases ICON_COUNT - from,
{
    if from < ICON_COUNT {
        if Assets::is_path_of(path, from) {
            reveal_strlit("icons/");
            lemma_icon_end(from);
            assert(path.subrange(0, 6) =~= "icons/"@);
        } else {
            lemma_found_is_a_path(path, from + 1);
        }
    }
}

proof fn lemma_icon_end(index: int)
    requires
        0 <= index < ICON_COUNT,
    ensures
        icon_name(index).len() > 4,
        icon_name(index)[icon_name(index).len() - 4] == '.',
        icon_name(index)[icon_name(index).len() - 1] == 'g',
{
    lemma_icons_are_known();
    reveal_strlit("alert.svg");
    reveal_strlit("camera.svg");
    reveal_strlit("check.svg");
    reveal_strlit("crop.svg");
    reveal_strlit("folder.svg");
    reveal_strlit("lock-closed.svg");
    reveal_strlit("lock-open.svg");
    reveal_strlit("menu.svg");
    reveal_strlit("more.svg");
    reveal_strlit("power.svg");
    reveal_strlit("refresh.svg");
    reveal_strlit("window.svg");
}

proof fn lemma_icons_are_known()
    ensures
        icon_name(0).len() == 9 && icon_name(0)[0] == 'a',
        icon_name(1).len() == 10 && icon_name(1)[0] == 'c',
        icon_name(2).len() == 9 && icon_name(2)[0] == 'c',
        icon_name(3).len() == 8 && icon_name(3)[0] == 'c',
        icon_name(4).len() == 10 && icon_name(4)[0] == 'f',
        icon_name(5).len() == 15,
        icon_name(6).len() == 13,
        icon_name(7).len() == 8 && icon_name(7)[0] == 'm' && icon_name(7)[1] == 'e',
        icon_name(8).len() == 8 && icon_name(8)[0] == 'm' && icon_name(8)[1] == 'o',
        icon_name(9).len() == 9 && icon_name(9)[0] == 'p',
        icon_name(10).len() == 11 && icon_name(10)[0] == 'r',
        icon_name(11).len() == 10 && icon_name(11)[0] == 'w',
{
    reveal_strlit("alert.svg");
    reveal_strlit("camera.svg");
    reveal_strlit("check.svg");
    reveal_strlit("crop.svg");
    reveal_strlit("folder.svg");
    reveal_strlit("lock-closed.svg");
    reveal_strlit("lock-open.svg");
    reveal_strlit("menu.svg");
    reveal_strlit("more.svg");
    reveal_strlit("power.svg");
    reveal_strlit("refresh.svg");
    reveal_strlit("window.svg");
}

proof fn lemma_icons_differ(index: int, other: int)
    requires
        0 <= other < index < ICON_COUNT,
    ensures
        icon_name(index) != icon_name(other),
{
    lemma_icons_are_known();
    assert(index == 1 || index == 2 || index == 3 || index == 4 || index == 5 || index == 6 || index
        == 7 || index == 8 || index == 9 || index == 10 || index == 11);
    assert(other == 0 || other == 1 || other == 2 || other == 3 || other == 4 || other == 5 || other
        == 6 || other == 7 || other == 8 || other == 9 || other == 10);
}

} // verus!
