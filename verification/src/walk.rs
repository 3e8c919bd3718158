//! Going through the entries of a directory: which image files are collected.

use vstd::prelude::*;

use crate::lowercase;
use crate::photos;
use crate::photos::{EntryAction, ImageFileView};

verus! {

/// What stands in a directory: a directory with its own entries, a file, or something else. A
/// directory that cannot be read has no entries.
pub enum Entry {
    Dir(Seq<Entry>),
    File(ImageFileView),
    Other,
}

/// The extension of a file; other entries are not asked for theirs.
pub open spec fn extension_of(entry: Entry) -> Option<Seq<char>> {
    match entry {
        Entry::File(file) => file.extension,
        _ => None,
    }
}

/// What is done with an entry.
pub open spec fn handled(entry: Entry, recursive: bool) -> EntryAction {
    photos::entry_action(entry is Dir, entry is File, extension_of(entry), recursive)
}

/// The image files that are collected from the first `n` entries, in the order of the entries.
pub open spec fn walk_first(entries: Seq<Entry>, n: nat, recursive: bool) -> Seq<ImageFileView>
    decreases entries, n,
{
    if n == 0 || n > entries.len() {
        seq![]
    } else {
        let entry = entries[n - 1];
        walk_first(entries, (n - 1) as nat, recursive) + collected_from(entry, recursive)
    }
}

/// The image files that are collected from one entry: those in a directory that is gone through, or
/// the file that is taken.
pub open spec fn collected_from(entry: Entry, recursive: bool) -> Seq<ImageFileView>
    decreases entry, 0nat,
{
    match (handled(entry, recursive), entry) {
        (EntryAction::Descend, Entry::Dir(inner)) => walk_first(inner, inner.len(), true),
        (EntryAction::Take, Entry::File(file)) => seq![file],
        _ => seq![],
    }
}

/// The image files that are collected from a directory with these entries.
pub open spec fn walk(entries: Seq<Entry>, recursive: bool) -> Seq<ImageFileView> {
    walk_first(entries, entries.len(), recursive)
}

/// The file at a position: the numbers of the entries that lead to it, from the top down.
pub open spec fn file_at(entries: Seq<Entry>, position: Seq<int>) -> Option<ImageFileView>
    decreases position.len(),
{
    if position.len() == 0 || !(0 <= position[0] < entries.len()) {
        None
    } else {
        match entries[position[0]] {
            Entry::File(file) => if position.len() == 1 {
                Some(file)
            } else {
                None
            },
            Entry::Dir(inner) => file_at(inner, position.drop_first()),
            Entry::Other => None,
        }
    }
}

/// At `position` stands an image file that is to be collected: directly in the directory, or, where
/// `recursive` is set, at any depth.
pub open spec fn wanted_at(entries: Seq<Entry>, recursive: bool, position: Seq<int>) -> bool {
    &&& file_at(entries, position) is Some
    &&& photos::image_extension(
        lowercase::lower_extension(file_at(entries, position)->0.extension),
    )
    &&& recursive || position.len() == 1
}

/// `files` are the files at `positions`, which are all those that are wanted, each once.
pub open spec fn stand_at(
    entries: Seq<Entry>,
    recursive: bool,
    files: Seq<ImageFileView>,
    positions: Seq<Seq<int>>,
) -> bool {
    &&& positions.len() == files.len()
    &&& positions.no_duplicates()
    &&& forall|k: int|
        0 <= k < files.len() ==> file_at(entries, #[trigger] positions[k]) == Some(files[k])
    &&& forall|position: Seq<int>|
        positions.contains(position) <==> #[trigger] wanted_at(entries, recursive, position)
}

spec fn behind(n: int, positions: Seq<Seq<int>>) -> Seq<Seq<int>> {
    positions.map_values(|p: Seq<int>| seq![n] + p)
}

spec fn positions_first(entries: Seq<Entry>, n: nat, recursive: bool) -> Seq<Seq<int>>
    decreases entries, n,
{
    if n == 0 || n > entries.len() {
        seq![]
    } else {
        let entry = entries[n - 1];
        positions_first(entries, (n - 1) as nat, recursive) + positions_in(entry, n - 1, recursive)
    }
}

spec fn positions_in(entry: Entry, at: int, recursive: bool) -> Seq<Seq<int>>
    decreases entry, 0nat,
{
    match (handled(entry, recursive), entry) {
        (EntryAction::Descend, Entry::Dir(inner)) => behind(
            at,
            positions_first(inner, inner.len(), true),
        ),
        (EntryAction::Take, Entry::File(file)) => seq![seq![at]],
        _ => seq![],
    }
}

spec fn placed(
    entries: Seq<Entry>,
    recursive: bool,
    files: Seq<ImageFileView>,
    positions: Seq<Seq<int>>,
    low: int,
    high: int,
) -> bool {
    &&& positions.len() == files.len()
    &&& positions.no_duplicates()
    &&& forall|k: int|
        0 <= k < files.len() ==> {
            &&& file_at(entries, #[trigger] positions[k]) == Some(files[k])
            &&& wanted_at(entries, recursive, positions[k])
            &&& low <= positions[k][0] < high
        }
    &&& forall|position: Seq<int>| #[trigger]
        wanted_at(entries, recursive, position) && low <= position[0] < high
            ==> positions.contains(position)
}

proof fn lemma_entry(entries: Seq<Entry>, at: int, recursive: bool)
    requires
        0 <= at < entries.len(),
    ensures
        placed(
            entries,
            recursive,
            collected_from(entries[at], recursive),
            positions_in(entries[at], at, recursive),
            at,
            at + 1,
        ),
    decreases entries, at,
{
    let entry = entries[at];
    let files = collected_from(entry, recursive);
    let own = positions_in(entry, at, recursive);
    match entry {
        Entry::Dir(inner) => {
            if recursive {
                lemma_positions(inner, inner.len(), true);
                let deep = positions_first(inner, inner.len(), true);
                assert(own == behind(at, deep));
                assert forall|k: int| 0 <= k < files.len() implies {
                    &&& file_at(entries, #[trigger] own[k]) == Some(files[k])
                    &&& wanted_at(entries, recursive, own[k])
                    &&& at <= own[k][0] < at + 1
                } by {
                    assert(own[k] == seq![at] + deep[k]);
                    assert(own[k].drop_first() == deep[k]);
                    assert(wanted_at(inner, true, deep[k]));
                }
                assert(own.no_duplicates()) by {
                    assert forall|i: int, j: int|
                        0 <= i < own.len() && 0 <= j < own.len() && i != j implies own[i]
                        != own[j] by {
                        assert(own[i].drop_first() == deep[i]);
                        assert(own[j].drop_first() == deep[j]);
                    }
                }
                assert forall|position: Seq<int>| #[trigger]
                    wanted_at(entries, recursive, position) && at <= position[0] < at
                        + 1 implies own.contains(position) by {
                    let tail = position.drop_first();
                    assert(wanted_at(inner, true, tail));
                    assert(tail.len() > 0 && 0 <= tail[0] < inner.len());
                    assert(deep.contains(tail));
                    let k = choose|k: int| 0 <= k < deep.len() && deep[k] == tail;
                    assert(own[k] == seq![at] + tail);
                    assert(position == seq![at] + tail);
                }
            } else {
                assert forall|position: Seq<int>| #[trigger]
                    wanted_at(entries, recursive, position) && at <= position[0] < at
                        + 1 implies own.contains(position) by {
                    assert(file_at(inner, position.drop_first()) is None);
                }
            }
        },
        Entry::File(file) => {
            let here = seq![at];
            assert(file_at(entries, here) == Some(file));
            assert forall|position: Seq<int>| #[trigger]
                wanted_at(entries, recursive, position) && at <= position[0] < at
                    + 1 implies own.contains(position) by {
                assert(position == here);
                assert(own[0] == here);
            }
        },
        Entry::Other => {},
    }
}

proof fn lemma_positions(entries: Seq<Entry>, n: nat, recursive: bool)
    requires
        n <= entries.len(),
    ensures
        placed(
            entries,
            recursive,
            walk_first(entries, n, recursive),
            positions_first(entries, n, recursive),
            0,
            n as int,
        ),
    decreases entries, n,
{
    if n > 0 {
        let m = (n - 1) as nat;
        lemma_positions(entries, m, recursive);
        lemma_entry(entries, n - 1, recursive);
        let before = positions_first(entries, m, recursive);
        let own = positions_in(entries[n - 1], n - 1, recursive);
        let all = positions_first(entries, n, recursive);
        assert(all == before + own);
        assert forall|k: int| 0 <= k < all.len() implies {
            &&& file_at(entries, #[trigger] all[k]) == Some(walk_first(entries, n, recursive)[k])
            &&& wanted_at(entries, recursive, all[k])
            &&& 0 <= all[k][0] < n
        } by {
            if k < before.len() {
                assert(all[k] == before[k]);
            } else {
                assert(all[k] == own[k - before.len()]);
            }
        }
        assert(all.no_duplicates()) by {
            assert forall|i: int, j: int|
                0 <= i < all.len() && 0 <= j < all.len() && i != j implies all[i] != all[j] by {
                assert(all[i] == if i < before.len() {
                    before[i]
                } else {
                    own[i - before.len()]
                });
                assert(all[j] == if j < before.len() {
                    before[j]
                } else {
                    own[j - before.len()]
                });
            }
        }
        assert forall|position: Seq<int>| #[trigger]
            wanted_at(entries, recursive, position) && 0 <= position[0]
                < n implies all.contains(position) by {
            if position[0] < n - 1 {
                assert(before.contains(position));
                let k = choose|k: int| 0 <= k < before.len() && before[k] == position;
                assert(all[k] == position);
            } else {
                assert(own.contains(position));
                let k = choose|k: int| 0 <= k < own.len() && own[k] == position;
                assert(all[before.len() + k] == position);
            }
        }
    }
}

/// Every image file directly in a directory is collected, and where the directories in it are gone
/// through every one at any depth, each once, and nothing else.
pub proof fn law_every_image_is_collected(entries: Seq<Entry>, recursive: bool)
    ensures
        exists|positions: Seq<Seq<int>>|
            stand_at(entries, recursive, walk(entries, recursive), positions),
{
    lemma_positions(entries, entries.len(), recursive);
    let positions = positions_first(entries, entries.len(), recursive);
    assert forall|position: Seq<int>|
        positions.contains(position) <==> #[trigger] wanted_at(entries, recursive, position) by {
        if wanted_at(entries, recursive, position) {
            assert(position.len() > 0 && 0 <= position[0] < entries.len());
        }
    }
    assert(stand_at(entries, recursive, walk(entries, recursive), positions));
}

/// An image file that stands directly in a directory is collected, whatever else stands there, and
/// without going through directories nothing else is. Image files are those whose extension, in
/// small letters, is one of the five.
pub proof fn law_flat_walk(entries: Seq<Entry>, recursive: bool, file: ImageFileView)
    ensures
        ({
            let small = lowercase::unicode_lowercase(file.extension->0);
            let image = file.extension is Some && (small == "jpg"@ || small == "jpeg"@ || small
                == "heic"@ || small == "heif"@ || small == "png"@);
            &&& image && entries.contains(Entry::File(file)) ==> walk(entries, recursive).contains(
                file,
            )
            &&& walk(entries, false).contains(file) ==> image && entries.contains(Entry::File(file))
            &&& walk(entries, true).contains(file) ==> image
        }),
{
    reveal_strlit("jpg");
    reveal_strlit("jpeg");
    reveal_strlit("heic");
    reveal_strlit("heif");
    reveal_strlit("png");
    assert("jpg"@.len() > 0 && "jpeg"@.len() > 0 && "heic"@.len() > 0 && "heif"@.len() > 0
        && "png"@.len() > 0);
    assert(lowercase::lower_extension(None).len() == 0);
    assert(photos::image_extension(lowercase::lower_extension(file.extension)) <==> (
    file.extension is Some && ({
        let small = lowercase::unicode_lowercase(file.extension->0);
        small == "jpg"@ || small == "jpeg"@ || small == "heic"@ || small == "heif"@ || small
            == "png"@
    })));
    lemma_collected(entries, recursive, file);
    lemma_collected(entries, false, file);
    lemma_collected(entries, true, file);
    if photos::image_extension(lowercase::lower_extension(file.extension)) && entries.contains(
        Entry::File(file),
    ) {
        let i = choose|i: int| 0 <= i < entries.len() && entries[i] == Entry::File(file);
        assert(file_at(entries, seq![i]) == Some(file));
        assert(wanted_at(entries, recursive, seq![i]));
    }
    if walk(entries, false).contains(file) {
        let position = choose|position: Seq<int>| #[trigger]
            wanted_at(entries, false, position) && file_at(entries, position) == Some(file);
        assert(position.len() == 1);
        match entries[position[0]] {
            Entry::Dir(inner) => {
                assert(file_at(inner, position.drop_first()) is None);
            },
            _ => {},
        }
        assert(entries[position[0]] == Entry::File(file));
    }
}

proof fn lemma_collected(entries: Seq<Entry>, recursive: bool, file: ImageFileView)
    ensures
        walk(entries, recursive).contains(file) <==> exists|position: Seq<int>| #[trigger]
            wanted_at(entries, recursive, position) && file_at(entries, position) == Some(file),
{
    law_every_image_is_collected(entries, recursive);
    let files = walk(entries, recursive);
    let positions = choose|positions: Seq<Seq<int>>|
        stand_at(entries, recursive, files, positions);
    if files.contains(file) {
        let k = choose|k: int| 0 <= k < files.len() && files[k] == file;
        assert(positions.contains(positions[k]));
        assert(wanted_at(entries, recursive, positions[k]));
    }
    if exists|position: Seq<int>| #[trigger]
        wanted_at(entries, recursive, position) && file_at(entries, position) == Some(file) {
        let position = choose|position: Seq<int>| #[trigger]
            wanted_at(entries, recursive, position) && file_at(entries, position) == Some(file);
        assert(positions.contains(position));
        let k = choose|k: int| 0 <= k < positions.len() && positions[k] == position;
        assert(file_at(entries, positions[k]) == Some(files[k]));
        assert(files[k] == file);
    }
}

/// Where directories are gone through, the image files of a directory are collected with those of
/// the directory that it stands in, and they are the same as when they are collected alone.
pub proof fn law_deep_walk(entries: Seq<Entry>, inner: Seq<Entry>, file: ImageFileView)
    requires
        entries.contains(Entry::Dir(inner)),
        walk(inner, true).contains(file),
    ensures
        walk(entries, true).contains(file),
{
    lemma_collected(inner, true, file);
    lemma_collected(entries, true, file);
    let i = choose|i: int| 0 <= i < entries.len() && entries[i] == Entry::Dir(inner);
    let tail = choose|position: Seq<int>| #[trigger]
        wanted_at(inner, true, position) && file_at(inner, position) == Some(file);
    let position = seq![i] + tail;
    assert(position.drop_first() =~= tail);
    assert(file_at(entries, position) == Some(file));
    assert(wanted_at(entries, true, position));
}

} // verus!
