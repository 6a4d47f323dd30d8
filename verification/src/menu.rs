//! The commands that a user interface offers.

use vstd::prelude::*;

verus! {

/// A command of the menu.
#[derive(Default, PartialEq, Eq, Clone, Copy, Debug)]
pub enum UiMenu {
    /// No command is chosen yet.
    #[default]
    NoCommand,
    /// Write a new report.
    NewReport,
    /// Merge several exports.
    MergeCsv,
}

impl UiMenu {
    /// The text that the menu shows for the command.
    pub open spec fn label(self) -> Seq<char> {
        match self {
            UiMenu::NoCommand => "Izberi ukaz"@,
            UiMenu::NewReport => "Novo mnenje"@,
            UiMenu::MergeCsv => "Združi CSV podatke"@,
        }
    }

    /// The text that the menu shows for the command.
    pub fn as_str(&self) -> (r: &'static str)
        ensures
            r@ == self.label(),
    {
        match self {
            UiMenu::NoCommand => "Izberi ukaz",
            UiMenu::NewReport => "Novo mnenje",
            UiMenu::MergeCsv => "Združi CSV podatke",
        }
    }
}

/// The greatest number of files in the list of a merge: the selection has
/// one bit for each.
pub const MAX_MERGE_FILES: usize = 32;

/// Whether the file at `i` is selected.
pub open spec fn marked(selected: u32, i: int) -> bool {
    0 <= i < 32 && selected & (1u32 << (i as u32)) != 0
}

/// How many of the first `n` files are selected.
pub open spec fn marked_count(selected: u32, n: int) -> int
    decreases n,
{
    if n <= 0 {
        0
    } else {
        marked_count(selected, n - 1) + if marked(selected, n - 1) {
            1int
        } else {
            0int
        }
    }
}

/// The positions below `n` that are not selected, in rising order.
pub open spec fn unmarked(selected: u32, n: int) -> Seq<usize>
    decreases n,
{
    if n <= 0 {
        Seq::empty()
    } else if marked(selected, n - 1) {
        unmarked(selected, n - 1)
    } else {
        unmarked(selected, n - 1).push((n - 1) as usize)
    }
}

/// The selection after the selected ones of `count` files were removed.
/// Nothing is selected after several files were removed. After one was
/// removed the selection stays where it was, on the file that took its
/// place, unless the removed file was the last.
pub open spec fn selection_after(selected: u32, count: int) -> u32 {
    if marked_count(selected, count) > 1 {
        0
    } else if marked_count(selected, count) == 1 {
        selected & !(1u32 << ((count - 1) as u32))
    } else {
        selected
    }
}

/// Tells whether more files can be added to a list of `current` files.
pub fn can_add(current: usize, more: usize) -> (r: bool)
    ensures
        r == (current + more <= MAX_MERGE_FILES),
{
    current <= MAX_MERGE_FILES && more <= MAX_MERGE_FILES - current
}

/// Tells whether the file at `i` is selected.
pub fn is_marked(selected: u32, i: usize) -> (r: bool)
    ensures
        r == marked(selected, i as int),
{
    i < 32 && selected & (1u32 << (i as u32)) != 0
}

/// Selects the file at `i` if it is not selected, and the other way round.
/// The other files stay as they are.
pub fn toggle(selected: u32, i: usize) -> (r: u32)
    ensures
        forall|j: int| 0 <= j < 32 ==> #[trigger] marked(r, j) == (marked(selected, j) != (j == i)),
{
    if i >= 32 {
        return selected;
    }
    let bit: u32 = 1u32 << (i as u32);
    let r = selected ^ bit;
    assert forall|j: int| 0 <= j < 32 implies #[trigger] marked(r, j) == (marked(selected, j) != (j
        == i)) by {
        let a: u32 = i as u32;
        let b: u32 = j as u32;
        assert(((selected ^ (1u32 << a)) & (1u32 << b) != 0) == ((selected & (1u32 << b) != 0) != (b
            == a))) by (bit_vector)
            requires
                a < 32,
                b < 32,
        ;
    }
    r
}

/// Removes the selected files from a list of `count` files: gives the
/// positions of the files that stay, and the selection afterwards.
pub fn after_removal(selected: u32, count: usize) -> (r: (Vec<usize>, u32))
    requires
        count <= MAX_MERGE_FILES,
    ensures
        r.0@ == unmarked(selected, count as int),
        r.1 == selection_after(selected, count as int),
{
    let mut kept: Vec<usize> = Vec::new();
    let mut removed: usize = 0;
    let mut i: usize = 0;
    while i < count
        invariant
            i <= count <= 32,
            removed == marked_count(selected, i as int),
            removed <= i,
            kept@ == unmarked(selected, i as int),
        decreases count - i,
    {
        if is_marked(selected, i) {
            removed += 1;
        } else {
            kept.push(i);
        }
        i += 1;
    }
    let mask = if removed > 1 {
        0
    } else if removed == 1 {
        selected & !(1u32 << ((count - 1) as u32))
    } else {
        selected
    };
    (kept, mask)
}

} // verus!
