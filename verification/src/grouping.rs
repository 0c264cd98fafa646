//! Grouping the entries of a snapshot by the directory of their path.

use crate::groups::{ascending, entries_under, position_of, put, GroupModel, Groups};
use crate::groups::{position_is_unique, put_effect, put_keeps_ascending};
use crate::status::StatusEntry;
use crate::text::{directory_of, directory_of_bare_name, directory_of_joined, is_separator};
use crate::text::parent_directory;
use vstd::prelude::*;

verus! {

/// The key under which an entry is grouped: the directory of its first
/// column. An entry without columns, or whose path has no directory, has
/// none.
pub open spec fn group_key(entry: StatusEntry) -> Option<Seq<char>> {
    match entry.cols {
        Some(cols) => if cols@.len() > 0 {
            directory_of(cols@[0]@)
        } else {
            None
        },
        None => None,
    }
}

/// The rows whose key is `key`, in their order.
pub open spec fn rows_under(rows: Seq<StatusEntry>, key: Seq<char>) -> Seq<StatusEntry>
    decreases rows.len(),
{
    if rows.len() == 0 {
        Seq::empty()
    } else if group_key(rows.last()) == Some(key) {
        rows_under(rows.drop_last(), key).push(rows.last())
    } else {
        rows_under(rows.drop_last(), key)
    }
}

/// The grouping of the rows: each row with a key is put, in its turn, behind
/// the entries that stand under its key.
pub open spec fn grouping_of(rows: Seq<StatusEntry>) -> Seq<GroupModel>
    decreases rows.len(),
{
    if rows.len() == 0 {
        Seq::empty()
    } else {
        let earlier = grouping_of(rows.drop_last());
        match group_key(rows.last()) {
            Some(key) => put(earlier, key, entries_under(earlier, key).push(rows.last())),
            None => earlier,
        }
    }
}

/// `groups` groups the `rows` by directory: the keys ascend, each group holds
/// exactly the rows of its key, in their order, no group is empty, and every
/// row that has a key has its group.
pub open spec fn grouped(rows: Seq<StatusEntry>, groups: Seq<GroupModel>) -> bool {
    &&& ascending(groups)
    &&& forall|i: int|
        0 <= i < groups.len() ==> (#[trigger] groups[i]).entries == rows_under(rows, groups[i].key)
            && groups[i].entries.len() > 0
    &&& forall|k: int|
        0 <= k < rows.len() && group_key(#[trigger] rows[k]) is Some ==> position_of(
            groups,
            group_key(rows[k])->0,
        ) is Some
}

/// The key of an entry, where it has one.
pub fn directory_key(entry: &StatusEntry) -> (key: Option<String>)
    ensures
        match key {
            Some(k) => group_key(*entry) == Some(k@),
            None => group_key(*entry) is None,
        },
{
    match &entry.cols {
        Some(cols) => {
            if cols.len() > 0 {
                parent_directory(cols[0].as_str())
            } else {
                None
            }
        },
        None => None,
    }
}

/// The rows under a key are rows of that key, and a row of that key is
/// among them.
pub proof fn rows_under_members(rows: Seq<StatusEntry>, key: Seq<char>)
    ensures
        forall|j: int|
            0 <= j < rows_under(rows, key).len() ==> group_key(#[trigger] rows_under(rows, key)[j])
                == Some(key) && rows.contains(rows_under(rows, key)[j]),
        forall|k: int|
            0 <= k < rows.len() && group_key(#[trigger] rows[k]) == Some(key) ==> rows_under(
                rows,
                key,
            ).contains(rows[k]),
    decreases rows.len(),
{
    if rows.len() > 0 {
        let rest = rows.drop_last();
        let under = rows_under(rows, key);
        let inner = rows_under(rest, key);
        rows_under_members(rest, key);
        assert forall|j: int| 0 <= j < under.len() implies group_key(#[trigger] under[j]) == Some(
            key,
        ) && rows.contains(under[j]) by {
            if j < inner.len() {
                assert(under[j] == inner[j]);
                let k = choose|k: int| 0 <= k < rest.len() && rest[k] == inner[j];
                assert(rows[k] == under[j]);
            } else {
                assert(rows[rows.len() - 1] == under[j]);
            }
        }
        assert forall|k: int| 0 <= k < rows.len() && group_key(#[trigger] rows[k]) == Some(
            key,
        ) implies under.contains(rows[k]) by {
            if k < rest.len() {
                assert(rest[k] == rows[k]);
                let j = choose|j: int| 0 <= j < inner.len() && inner[j] == rest[k];
                assert(under[j] == rows[k]);
            } else {
                assert(under[under.len() - 1] == rows[k]);
            }
        }
    }
}

/// Adding a row with a key to grouped rows: the grouping of the longer list
/// has the row put behind the entries of its key.
proof fn grouped_after_push(
    rows: Seq<StatusEntry>,
    groups: Seq<GroupModel>,
    entry: StatusEntry,
    key: Seq<char>,
)
    requires
        grouped(rows, groups),
        group_key(entry) == Some(key),
    ensures
        grouped(rows.push(entry), put(groups, key, entries_under(groups, key).push(entry))),
{
    let longer = rows.push(entry);
    let entries = entries_under(groups, key).push(entry);
    let after = put(groups, key, entries);
    assert(longer.drop_last() =~= rows);
    put_keeps_ascending(groups, key, entries);
    put_effect(groups, key, entries);
    let p = choose|p: int| 0 <= p < after.len() && #[trigger] after[p] == (GroupModel {
        key,
        entries,
    });
    position_is_unique(after, key, p);
    rows_under_members(rows, key);
    // what stood under the key before is what the rows had under it
    assert(entries_under(groups, key) == rows_under(rows, key)) by {
        if position_of(groups, key) is None {
            if rows_under(rows, key).len() > 0 {
                let first = rows_under(rows, key)[0];
                let k = choose|k: int| 0 <= k < rows.len() && rows[k] == first;
                assert(group_key(rows[k]) == Some(key));
                assert(position_of(groups, key) is Some);
            }
            assert(rows_under(rows, key) =~= Seq::<StatusEntry>::empty());
        }
    }
    assert forall|i: int| 0 <= i < after.len() implies (#[trigger] after[i]).entries == rows_under(
        longer,
        after[i].key,
    ) && after[i].entries.len() > 0 by {
        if after[i].key == key {
            position_is_unique(after, key, i);
        } else {
            let k = choose|k: int| 0 <= k < groups.len() && #[trigger] groups[k] == after[i];
            assert(groups[k].entries == rows_under(rows, groups[k].key));
        }
    }
    assert forall|k: int| 0 <= k < longer.len() && group_key(#[trigger] longer[k]) is Some implies
        position_of(after, group_key(longer[k])->0) is Some by {
        let wanted = group_key(longer[k])->0;
        if wanted == key {
            assert(after[p].key == wanted);
        } else {
            assert(longer[k] == rows[k]);
            let j = position_of(groups, wanted)->0;
            assert(groups[j].key == wanted);
            let i = choose|i: int| 0 <= i < after.len() && #[trigger] after[i] == groups[j];
            assert(after[i].key == wanted);
        }
    }
}

/// Adding a row without a key to grouped rows leaves the grouping as it is.
proof fn grouped_after_skip(rows: Seq<StatusEntry>, groups: Seq<GroupModel>, entry: StatusEntry)
    requires
        grouped(rows, groups),
        group_key(entry) is None,
    ensures
        grouped(rows.push(entry), groups),
{
    let longer = rows.push(entry);
    assert(longer.drop_last() =~= rows);
    assert forall|k: int| 0 <= k < longer.len() && group_key(#[trigger] longer[k]) is Some implies
        position_of(groups, group_key(longer[k])->0) is Some by {
        assert(longer[k] == rows[k]);
    }
}

/// Groups the rows by the directory of their first column. The groups stand
/// in the ascending order of their keys, and the rows of a group in the order
/// in which they came. A row without columns, or whose first column has no
/// directory, is left out.
pub fn organize_by_dir(rows: Vec<StatusEntry>) -> (groups: Groups)
    ensures
        groups@ == grouping_of(rows@),
        grouped(rows@, groups@),
{
    let mut groups = Groups::new();
    let ghost all = rows@;
    let ghost mut done: Seq<StatusEntry> = Seq::empty();
    for entry in it: rows.into_iter()
        invariant
            it.seq() == all,
            done == all.take(it.index() as int),
            groups@ == grouping_of(done),
            grouped(done, groups@),
    {
        proof {
            assert(all.take(it.index() + 1) =~= done.push(entry));
            assert(done.push(entry).drop_last() =~= done);
        }
        match directory_key(&entry) {
            Some(key) => {
                proof {
                    grouped_after_push(done, groups@, entry, key@);
                }
                groups = groups.push_entry(key, entry);
            },
            None => {
                proof {
                    grouped_after_skip(done, groups@, entry);
                }
            },
        }
        proof {
            done = done.push(entry);
        }
    }
    proof {
        assert(all.take(all.len() as int) =~= all);
    }
    groups
}

/// The grouping of rows groups them by directory.
pub proof fn grouping_is_grouped(rows: Seq<StatusEntry>)
    ensures
        grouped(rows, grouping_of(rows)),
    decreases rows.len(),
{
    if rows.len() > 0 {
        let rest = rows.drop_last();
        grouping_is_grouped(rest);
        assert(rest.push(rows.last()) =~= rows);
        match group_key(rows.last()) {
            Some(key) => {
                grouped_after_push(rest, grouping_of(rest), rows.last(), key);
            },
            None => {
                grouped_after_skip(rest, grouping_of(rest), rows.last());
            },
        }
    }
}

/// An entry whose path is a directory, a separator and a file name has the
/// directory as its key, and an entry whose path holds no separator has no
/// key: it is in no group.
pub proof fn key_of_two_segments(entry: StatusEntry, dir: Seq<char>, file: Seq<char>)
    requires
        entry.cols is Some,
        entry.cols->0@.len() > 0,
        forall|j: int| 0 <= j < file.len() ==> !is_separator(#[trigger] file[j]),
    ensures
        entry.cols->0@[0]@ == dir + seq!['/'] + file ==> group_key(entry) == Some(dir),
        entry.cols->0@[0]@ == file ==> group_key(entry) is None,
{
    directory_of_joined(dir, file);
    directory_of_bare_name(file);
}

/// In the grouping of rows, a row with a key stands in the group of that key,
/// and every member of a group is a row of that group's key. So a row without
/// a key is in no group.
pub proof fn grouping_is_correct(rows: Seq<StatusEntry>, groups: Seq<GroupModel>)
    requires
        grouped(rows, groups),
    ensures
        forall|k: int|
            0 <= k < rows.len() && group_key(#[trigger] rows[k]) is Some ==> entries_under(
                groups,
                group_key(rows[k])->0,
            ).contains(rows[k]),
        forall|i: int, j: int|
            0 <= i < groups.len() && 0 <= j < groups[i].entries.len() ==> group_key(
                #[trigger] groups[i].entries[j],
            ) == Some(groups[i].key) && rows.contains(groups[i].entries[j]),
{
    assert forall|k: int| 0 <= k < rows.len() && group_key(#[trigger] rows[k]) is Some implies
        entries_under(groups, group_key(rows[k])->0).contains(rows[k]) by {
        let key = group_key(rows[k])->0;
        let i = position_of(groups, key)->0;
        assert(groups[i].entries == rows_under(rows, key));
        rows_under_members(rows, key);
    }
    assert forall|i: int, j: int|
        0 <= i < groups.len() && 0 <= j < groups[i].entries.len() implies group_key(
        #[trigger] groups[i].entries[j],
    ) == Some(groups[i].key) && rows.contains(groups[i].entries[j]) by {
        rows_under_members(rows, groups[i].key);
    }
}

} // verus!
