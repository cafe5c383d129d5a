//! What `linkat` and `unlinkat` do to a directory.
//!
//! The directory is a map from names to inodes. It finds the names it has, removes the names it
//! has, and accepts new names only.

use super::fs::{LinkStep, UnlinkStep};
use vstd::prelude::*;

verus! {

/// Names and the inodes that they stand for.
pub type Directory = Map<Seq<char>, u32>;

/// What a call leaves behind.
pub struct Outcome {
    /// The result of the call.
    pub code: isize,
    /// The directory after the call.
    pub dir: Directory,
    /// The inode whose contents were freed.
    pub cleared: Option<u32>,
}

/// The inode that a name stands for.
pub open spec fn find(dir: Directory, name: Seq<char>) -> Option<u32> {
    if dir.contains_key(name) {
        Some(dir[name])
    } else {
        None
    }
}

/// The names that stand for an inode.
pub open spec fn names_of(dir: Directory, inode_id: u32) -> Set<Seq<char>> {
    dir.dom().filter(|name: Seq<char>| dir[name] == inode_id)
}

/// The steps of a `linkat` call, carried out on a directory. `text` gives the name that stands
/// in an address space, given by its token, at an address.
pub open spec fn after_link(
    dir: Directory,
    text: spec_fn(usize, usize) -> Seq<char>,
    step: LinkStep,
) -> Outcome
    decreases (match step {
        LinkStep::Return(_) => 0nat,
        LinkStep::AddEntry { .. } => 1nat,
        LinkStep::Find { .. } => 2nat,
    }),
{
    match step {
        LinkStep::Return(code) => Outcome { code, dir, cleared: None },
        LinkStep::Find { token, name, new_name } => after_link(
            dir,
            text,
            super::fs::linkat_found(token, new_name, find(dir, text(token, name))),
        ),
        LinkStep::AddEntry { token, name, inode_id } => if dir.contains_key(text(token, name)) {
            after_link(dir, text, super::fs::linkat_added(false))
        } else {
            after_link(
                dir.insert(text(token, name), inode_id),
                text,
                super::fs::linkat_added(true),
            )
        },
    }
}

/// The steps of an `unlinkat` call, carried out on a directory.
pub open spec fn after_unlink(
    dir: Directory,
    text: spec_fn(usize, usize) -> Seq<char>,
    step: UnlinkStep,
) -> Outcome
    decreases (match step {
        UnlinkStep::Return(_) => 0nat,
        UnlinkStep::Clear { .. } => 1nat,
        UnlinkStep::CountLinks { .. } => 2nat,
        UnlinkStep::RemoveEntry { .. } => 3nat,
        UnlinkStep::Find { .. } => 4nat,
    }),
{
    match step {
        UnlinkStep::Return(code) => Outcome { code, dir, cleared: None },
        UnlinkStep::Find { token, name } => after_unlink(
            dir,
            text,
            super::fs::unlinkat_found(token, name, find(dir, text(token, name))),
        ),
        UnlinkStep::RemoveEntry { token, name, inode_id } => after_unlink(
            dir.remove(text(token, name)),
            text,
            super::fs::unlinkat_removed(inode_id, dir.contains_key(text(token, name))),
        ),
        UnlinkStep::CountLinks { inode_id } => after_unlink(
            dir,
            text,
            super::fs::unlinkat_counted(inode_id, names_of(dir, inode_id).len() as u32),
        ),
        UnlinkStep::Clear { inode_id } => Outcome {
            cleared: Some(inode_id),
            ..after_unlink(dir, text, super::fs::unlinkat_cleared())
        },
    }
}

/// `linkat` gives a file a second name. It fails, and leaves the directory alone, if a name is
/// missing, the old name stands for nothing, or the new one is taken.
pub proof fn law_linkat_adds_a_name(
    dir: Directory,
    text: spec_fn(usize, usize) -> Seq<char>,
    token: usize,
    old_name: usize,
    new_name: usize,
)
    ensures
        ({
            let out = after_link(dir, text, super::fs::linkat_start(token, old_name, new_name));
            let works = old_name != 0 && new_name != 0 && dir.contains_key(text(token, old_name))
                && !dir.contains_key(text(token, new_name));
            &&& works ==> out.code == 0 && out.dir == dir.insert(
                text(token, new_name),
                dir[text(token, old_name)],
            )
            &&& !works ==> out.code == crate::config::FAILURE && out.dir == dir
            &&& out.cleared is None
        }),
{
    reveal_with_fuel(after_link, 4);
}

/// `unlinkat` takes a name away, and frees the file exactly when that was its last name. It
/// fails, and changes nothing, if the name is missing or stands for nothing.
pub proof fn law_unlinkat_removes_a_name(
    dir: Directory,
    text: spec_fn(usize, usize) -> Seq<char>,
    token: usize,
    name: usize,
)
    requires
        dir.dom().finite(),
        dir.dom().len() <= u32::MAX,
    ensures
        ({
            let out = after_unlink(dir, text, super::fs::unlinkat_start(token, name));
            let works = name != 0 && dir.contains_key(text(token, name));
            let last = forall|other: Seq<char>| #[trigger]
                dir.contains_key(other) && dir[other] == dir[text(token, name)] ==> other == text(
                    token,
                    name,
                );
            &&& works ==> out.code == 0 && out.dir == dir.remove(text(token, name))
            &&& works && last ==> out.cleared == Some(dir[text(token, name)])
            &&& works && !last ==> out.cleared is None
            &&& !works ==> out.code == crate::config::FAILURE && out.dir == dir && out.cleared is None
        }),
{
    reveal_with_fuel(after_unlink, 6);
    if name != 0 && dir.contains_key(text(token, name)) {
        let inode_id = dir[text(token, name)];
        let rest = dir.remove(text(token, name));
        let names = names_of(rest, inode_id);
        vstd::set_lib::lemma_len_subset(names, rest.dom());
        vstd::set_lib::lemma_len_subset(rest.dom(), dir.dom());
        if forall|other: Seq<char>| #[trigger]
            dir.contains_key(other) && dir[other] == inode_id ==> other == text(token, name) {
            assert forall|other: Seq<char>| !names.contains(other) by {
                if names.contains(other) {
                    assert(dir.contains_key(other));
                }
            }
            assert(names =~= Set::<Seq<char>>::empty());
        } else {
            let other = choose|other: Seq<char>| #[trigger]
                dir.contains_key(other) && dir[other] == inode_id && other != text(token, name);
            assert(names.contains(other));
            assert(names.len() > 0);
        }
    }
}

/// Taking away a name that was just added leaves the directory as before and frees nothing.
pub proof fn law_unlinkat_undoes_linkat(
    dir: Directory,
    text: spec_fn(usize, usize) -> Seq<char>,
    token: usize,
    old_name: usize,
    new_name: usize,
)
    requires
        dir.dom().finite(),
        dir.dom().len() < u32::MAX,
        old_name != 0,
        new_name != 0,
        dir.contains_key(text(token, old_name)),
        !dir.contains_key(text(token, new_name)),
    ensures
        ({
            let linked = after_link(dir, text, super::fs::linkat_start(token, old_name, new_name));
            let out = after_unlink(linked.dir, text, super::fs::unlinkat_start(token, new_name));
            linked.code == 0 && out.code == 0 && out.dir == dir && out.cleared is None
        }),
{
    law_linkat_adds_a_name(dir, text, token, old_name, new_name);
    let linked = dir.insert(text(token, new_name), dir[text(token, old_name)]);
    law_unlinkat_removes_a_name(linked, text, token, new_name);
    assert(linked.contains_key(text(token, old_name)));
    assert(linked.remove(text(token, new_name)) =~= dir);
}

} // verus!
