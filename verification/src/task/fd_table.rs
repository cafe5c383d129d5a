//! Descriptor tables: the files that the numbers 0, 1, 2, ... of a process stand for.

use crate::fs::File;
use vstd::prelude::*;

verus! {

/// The smallest free descriptor from `fd` on.
pub open spec fn free_from(table: Seq<Option<File>>, fd: int) -> int
    decreases table.len() - fd,
{
    if 0 <= fd < table.len() && table[fd] is Some {
        free_from(table, fd + 1)
    } else {
        fd
    }
}

/// The smallest free descriptor; one past the table if all are taken.
pub open spec fn lowest_free(table: Seq<Option<File>>) -> int {
    free_from(table, 0)
}

/// The file that a descriptor stands for.
pub open spec fn lookup(table: Seq<Option<File>>, fd: int) -> Option<File> {
    if 0 <= fd < table.len() {
        table[fd]
    } else {
        None
    }
}

/// The table with room for the smallest free descriptor.
pub open spec fn with_room(table: Seq<Option<File>>) -> Seq<Option<File>> {
    if lowest_free(table) < table.len() {
        table
    } else {
        table.push(None)
    }
}

/// The smallest free descriptor stands for the file.
pub open spec fn install(table: Seq<Option<File>>, file: File) -> Seq<Option<File>> {
    with_room(table).update(lowest_free(table), Some(file))
}

/// The descriptor stands for nothing any more.
pub open spec fn close(table: Seq<Option<File>>, fd: int) -> Seq<Option<File>> {
    table.update(fd, None)
}

/// The smallest free descriptor from `fd` on is free, and all from `fd` to it are taken.
pub proof fn lemma_free_from(table: Seq<Option<File>>, fd: int)
    requires
        0 <= fd <= table.len(),
    ensures
        fd <= free_from(table, fd) <= table.len(),
        lookup(table, free_from(table, fd)) is None,
        forall|i: int| fd <= i < free_from(table, fd) ==> lookup(table, i) is Some,
    decreases table.len() - fd,
{
    if fd < table.len() && table[fd] is Some {
        lemma_free_from(table, fd + 1);
    }
}

/// A descriptor that is free, and below which all are taken, is the smallest free one.
pub proof fn lemma_lowest_free_unique(table: Seq<Option<File>>, fd: int)
    requires
        0 <= fd <= table.len(),
        lookup(table, fd) is None,
        forall|i: int| 0 <= i < fd ==> (#[trigger] table[i]) is Some,
    ensures
        lowest_free(table) == fd,
{
    lemma_free_from(table, 0);
    let low = lowest_free(table);
    if fd < low {
        assert(lookup(table, fd) is Some);
    }
    if low < fd {
        assert(table[low] is Some);
    }
}

/// A new file gets the smallest free descriptor, and every other descriptor stands for what it
/// stood for before.
pub proof fn law_install_takes_lowest_free(table: Seq<Option<File>>, file: File)
    ensures
        ({
            let fd = lowest_free(table);
            &&& 0 <= fd <= table.len()
            &&& lookup(table, fd) is None
            &&& forall|i: int| 0 <= i < fd ==> lookup(table, i) is Some
            &&& lookup(install(table, file), fd) == Some(file)
            &&& forall|i: int|
                i != fd ==> #[trigger] lookup(install(table, file), i) == lookup(table, i)
        }),
{
    lemma_free_from(table, 0);
}

/// Closing a descriptor that was just given out leaves every descriptor as before.
pub proof fn law_close_undoes_install(table: Seq<Option<File>>, file: File)
    ensures
        forall|i: int|
            lookup(close(install(table, file), lowest_free(table)), i) == lookup(table, i),
{
    lemma_free_from(table, 0);
}

/// A closed descriptor is free again, and is given out next if all below it are taken.
pub proof fn law_closed_descriptor_is_reused(table: Seq<Option<File>>, fd: int)
    requires
        lookup(table, fd) is Some,
    ensures
        lookup(close(table, fd), fd) is None,
        forall|i: int| i != fd ==> #[trigger] lookup(close(table, fd), i) == lookup(table, i),
        lowest_free(close(table, fd)) <= fd,
        (forall|i: int| 0 <= i < fd ==> (#[trigger] table[i]) is Some) ==> lowest_free(
            close(table, fd),
        ) == fd,
{
    let closed = close(table, fd);
    lemma_free_from(closed, 0);
    if lowest_free(closed) > fd {
        assert(lookup(closed, fd) is Some);
    }
    if forall|i: int| 0 <= i < fd ==> (#[trigger] table[i]) is Some {
        assert forall|i: int| 0 <= i < fd implies (#[trigger] closed[i]) is Some by {
            assert(table[i] is Some);
        }
        lemma_lowest_free_unique(closed, fd);
    }
}

/// Of two files that are installed in turn, the second gets the larger descriptor.
pub proof fn law_installs_ascend(table: Seq<Option<File>>, first: File, second: File)
    ensures
        lowest_free(table) < lowest_free(install(table, first)),
        lookup(install(install(table, first), second), lowest_free(table)) == Some(first),
        lookup(install(install(table, first), second), lowest_free(install(table, first))) == Some(
            second,
        ),
{
    law_install_takes_lowest_free(table, first);
    law_install_takes_lowest_free(install(table, first), second);
    let fd = lowest_free(table);
    let next = lowest_free(install(table, first));
    if next < fd {
        assert(lookup(install(table, first), next) == lookup(table, next));
    }
}

/// What a table says of a descriptor is what stands in its slot.
pub proof fn law_lookup_reads_the_slot(table: Seq<Option<File>>, fd: int)
    ensures
        0 <= fd < table.len() ==> lookup(table, fd) == table[fd],
        !(0 <= fd < table.len()) ==> lookup(table, fd) is None,
{
}

/// A new file fills the first empty slot, or a new one at the end if there is none, and every other
/// slot is as before.
pub proof fn law_install_fills_the_first_gap(table: Seq<Option<File>>, file: File)
    ensures
        ({
            let fd = lowest_free(table);
            let after = install(table, file);
            &&& 0 <= fd <= table.len()
            &&& fd < table.len() ==> table[fd] is None && after.len() == table.len()
            &&& fd == table.len() ==> after.len() == table.len() + 1
            &&& forall|i: int| 0 <= i < fd ==> (#[trigger] table[i]) is Some
            &&& after[fd] == Some(file)
            &&& forall|i: int| 0 <= i < table.len() && i != fd ==> #[trigger] after[i] == table[i]
            &&& with_room(table).len() == after.len()
            &&& with_room(table)[fd] is None
            &&& forall|i: int| 0 <= i < table.len() ==> #[trigger] with_room(table)[i] == table[i]
        }),
{
    lemma_free_from(table, 0);
    assert forall|i: int| 0 <= i < lowest_free(table) implies (#[trigger] table[i]) is Some by {
        assert(lookup(table, i) is Some);
    }
}

/// Closing a descriptor empties its slot and no other.
pub proof fn law_close_empties_one_slot(table: Seq<Option<File>>, fd: int)
    requires
        0 <= fd < table.len(),
    ensures
        close(table, fd).len() == table.len(),
        close(table, fd)[fd] is None,
        forall|i: int| 0 <= i < table.len() && i != fd ==> #[trigger] close(table, fd)[i] == table[i],
{
}

} // verus!
