//! What listings and searches show of the bucket.

use crate::codec;
use crate::files;
use crate::keys::{self, DIRECTORY_MARKER};
use crate::listing::{self, MAX_LIST_RESULTS, MAX_SEARCH_SCAN};
use crate::machine::{
    ActionView, EventView, ListPlanView, ReadPlanView, ScanPlanView, ServiceView, StepView,
    TaskView,
};
use crate::model::{ListingView, ObjectInfoView, PathItemView, PathType};
use crate::pages;
use crate::service;
use crate::text::{self, Text};
use crate::transfer_laws;
use crate::world::{self, Scene, World};
use vstd::prelude::*;
use vstd::seq_lib::*;

verus! {

// ---------------------------------------------------------------------------
// Directories
// ---------------------------------------------------------------------------

/// What stands behind the prefix.
pub open spec fn rest_of(key: Text, prefix: Text) -> Text {
    key.skip(prefix.len() as int)
}

proof fn lemma_file_entries(prefix: Text, objects: Seq<ObjectInfoView>, n: int)
    requires
        0 <= n <= objects.len(),
    ensures
        forall|i: int|
            0 <= i < n && listing::relative_name((#[trigger] objects[i]).key, prefix).len() > 0
                && listing::relative_name(objects[i].key, prefix) != DIRECTORY_MARKER@
                ==> listing::file_entries(prefix, objects.take(n)).contains(
                listing::object_entry(
                    listing::relative_name(objects[i].key, prefix),
                    objects[i],
                ),
            ),
        forall|item: PathItemView| #[trigger]
            listing::file_entries(prefix, objects.take(n)).contains(item) ==> item.name
                != DIRECTORY_MARKER@ && item.name.len() > 0 && exists|i: int|
                0 <= i < n && item == listing::object_entry(
                    listing::relative_name((#[trigger] objects[i]).key, prefix),
                    objects[i],
                ),
    decreases n,
{
    if n > 0 {
        lemma_file_entries(prefix, objects, n - 1);
        let all = objects.take(n);
        assert(all.drop_last() =~= objects.take(n - 1));
        let before = listing::file_entries(prefix, objects.take(n - 1));
        let now = listing::file_entries(prefix, all);
        let name = listing::relative_name(objects[n - 1].key, prefix);
        let shown = name.len() > 0 && name != DIRECTORY_MARKER@;
        let last = listing::object_entry(name, objects[n - 1]);
        if shown {
            assert(now == before.push(last));
            assert(now[before.len() as int] == last);
            assert forall|item: PathItemView| before.contains(item) implies #[trigger] now.contains(
                item,
            ) by {
                let j = choose|j: int| 0 <= j < before.len() && before[j] == item;
                assert(now[j] == item);
            }
            assert forall|item: PathItemView| #[trigger] now.contains(item) implies item == last
                || before.contains(item) by {
                let j = choose|j: int| 0 <= j < now.len() && now[j] == item;
                if j < before.len() {
                    assert(before[j] == item);
                }
            }
        }
    }
}

/// The name under which a deeper prefix is shown.
spec fn shown_dir(prefix: Text, whole: Text) -> Text {
    text::trim_end_of(text::without_prefix(whole, prefix).unwrap_or(whole), '/')
}

proof fn lemma_dir_entries(prefix: Text, prefixes: Seq<Text>, n: int)
    requires
        0 <= n <= prefixes.len(),
    ensures
        forall|i: int|
            0 <= i < n && shown_dir(prefix, #[trigger] prefixes[i]).len() > 0
                ==> listing::dir_entries(prefix, prefixes.take(n)).contains(
                pages::dir_entry(shown_dir(prefix, prefixes[i])),
            ),
        forall|item: PathItemView| #[trigger]
            listing::dir_entries(prefix, prefixes.take(n)).contains(item) ==> item.name.len() > 0
                && exists|i: int|
                0 <= i < n && item == pages::dir_entry(shown_dir(prefix, #[trigger] prefixes[i])),
    decreases n,
{
    if n > 0 {
        lemma_dir_entries(prefix, prefixes, n - 1);
        let all = prefixes.take(n);
        assert(all.drop_last() =~= prefixes.take(n - 1));
        let before = listing::dir_entries(prefix, prefixes.take(n - 1));
        let now = listing::dir_entries(prefix, all);
        let name = shown_dir(prefix, prefixes[n - 1]);
        if name.len() > 0 {
            let last = pages::dir_entry(name);
            assert(now == before.push(last));
            assert(now[before.len() as int] == last);
            assert forall|item: PathItemView| before.contains(item) implies #[trigger] now.contains(
                item,
            ) by {
                let j = choose|j: int| 0 <= j < before.len() && before[j] == item;
                assert(now[j] == item);
            }
            assert forall|item: PathItemView| #[trigger] now.contains(item) implies item == last
                || before.contains(item) by {
                let j = choose|j: int| 0 <= j < now.len() && now[j] == item;
                if j < before.len() {
                    assert(before[j] == item);
                }
            }
        }
    }
}

proof fn lemma_entries_contain(prefix: Text, page: ListingView, item: PathItemView)
    ensures
        listing::entries(prefix, page).contains(item) <==> listing::dir_entries(
            prefix,
            page.prefixes,
        ).contains(item) || listing::file_entries(prefix, page.objects).contains(item),
{
    let (a, b) = (
        listing::dir_entries(prefix, page.prefixes),
        listing::file_entries(prefix, page.objects),
    );
    let both = a + b;
    if a.contains(item) {
        let j = choose|j: int| 0 <= j < a.len() && a[j] == item;
        assert(both[j] == item);
    }
    if b.contains(item) {
        let j = choose|j: int| 0 <= j < b.len() && b[j] == item;
        assert(both[a.len() + j] == item);
    }
    if both.contains(item) {
        let j = choose|j: int| 0 <= j < both.len() && both[j] == item;
        if j < a.len() {
            assert(a[j] == item);
        } else {
            assert(b[j - a.len()] == item);
        }
    }
}

/// The marker of a directory is never shown, nor anything without a name.
pub proof fn law_listings_hide_markers(prefix: Text, page: ListingView, item: PathItemView)
    requires
        listing::entries(prefix, page).contains(item),
    ensures
        item.name.len() > 0,
        item.path_type == PathType::File ==> item.name != DIRECTORY_MARKER@,
{
    lemma_entries_contain(prefix, page, item);
    lemma_dir_entries(prefix, page.prefixes, page.prefixes.len() as int);
    lemma_file_entries(prefix, page.objects, page.objects.len() as int);
    assert(page.prefixes.take(page.prefixes.len() as int) =~= page.prefixes);
    assert(page.objects.take(page.objects.len() as int) =~= page.objects);
}

proof fn lemma_shown_dir(prefix: Text, name: Text)
    requires
        !name.contains('/'),
    ensures
        shown_dir(prefix, prefix + name.push('/')) == name,
{
    let whole = prefix + name.push('/');
    assert(whole.subrange(0, prefix.len() as int) =~= prefix);
    assert(whole.skip(prefix.len() as int) =~= name.push('/'));
    assert(name.push('/').drop_last() =~= name);
    reveal_with_fuel(text::trim_end_of, 2);
    if name.len() > 0 {
        assert(name.contains(name.last()));
    }
}

proof fn lemma_first_part(rest: Text)
    ensures
        !world::first_part(rest).contains('/'),
{
    text::lemma_first_index(rest, '/');
    let name = world::first_part(rest);
    assert forall|i: int| 0 <= i < name.len() implies name[i] != '/' by {
        assert(rest[i] == name[i]);
    }
}

/// A listing shows what is there: every entry stands for an object in the directory, with its size
/// and its time, or for a directory below it that holds something.
pub proof fn law_listings_show_what_is_there(
    world: World,
    prefix: Text,
    page: ListingView,
    item: PathItemView,
)
    requires
        world::is_directory_page(world, prefix, page),
        listing::entries(prefix, page).contains(item),
    ensures
        match item.path_type {
            PathType::File => world.contains_key(prefix + item.name) && item
                == listing::object_entry(
                item.name,
                world::info_of(prefix + item.name, world[prefix + item.name]),
            ),
            PathType::Dir => world::has_below(world, prefix + item.name.push('/')),
        },
{
    lemma_entries_contain(prefix, page, item);
    lemma_dir_entries(prefix, page.prefixes, page.prefixes.len() as int);
    lemma_file_entries(prefix, page.objects, page.objects.len() as int);
    assert(page.prefixes.take(page.prefixes.len() as int) =~= page.prefixes);
    assert(page.objects.take(page.objects.len() as int) =~= page.objects);
    if listing::file_entries(prefix, page.objects).contains(item) {
        let i = choose|i: int|
            0 <= i < page.objects.len() && item == listing::object_entry(
                listing::relative_name((#[trigger] page.objects[i]).key, prefix),
                page.objects[i],
            );
        let key = page.objects[i].key;
        assert(key.subrange(0, prefix.len() as int) =~= prefix);
        assert(prefix + item.name =~= key);
    } else {
        let i = choose|i: int|
            0 <= i < page.prefixes.len() && item == pages::dir_entry(
                shown_dir(prefix, #[trigger] page.prefixes[i]),
            );
        let deeper = page.prefixes[i];
        let name = world::first_part(deeper.skip(prefix.len() as int));
        lemma_first_part(deeper.skip(prefix.len() as int));
        lemma_shown_dir(prefix, name);
    }
}

/// No file entry comes twice.
proof fn lemma_files_once(world: World, prefix: Text, page: ListingView, n: int)
    requires
        world::is_directory_page(world, prefix, page),
        0 <= n <= page.objects.len(),
    ensures
        listing::file_entries(prefix, page.objects.take(n)).no_duplicates(),
    decreases n,
{
    if n > 0 {
        let objects = page.objects;
        lemma_files_once(world, prefix, page, n - 1);
        lemma_file_entries(prefix, objects, n - 1);
        assert(objects.take(n).drop_last() =~= objects.take(n - 1));
        let before = listing::file_entries(prefix, objects.take(n - 1));
        let key = objects[n - 1].key;
        let item = listing::object_entry(listing::relative_name(key, prefix), objects[n - 1]);
        if before.contains(item) {
            let i = choose|i: int|
                0 <= i < n - 1 && item == listing::object_entry(
                    listing::relative_name((#[trigger] objects[i]).key, prefix),
                    objects[i],
                );
            let other = objects[i].key;
            let all = listing::object_keys(objects);
            assert(key =~= prefix + rest_of(key, prefix)) by {
                assert(key.subrange(0, prefix.len() as int) =~= prefix);
            }
            assert(other =~= prefix + rest_of(other, prefix)) by {
                assert(other.subrange(0, prefix.len() as int) =~= prefix);
            }
            assert(all[i] == all[n - 1]);
        }
        lemma_one_more(before, item);
    }
}

/// No directory entry comes twice.
proof fn lemma_dirs_once(world: World, prefix: Text, page: ListingView, n: int)
    requires
        world::is_directory_page(world, prefix, page),
        0 <= n <= page.prefixes.len(),
    ensures
        listing::dir_entries(prefix, page.prefixes.take(n)).no_duplicates(),
    decreases n,
{
    if n > 0 {
        let prefixes = page.prefixes;
        lemma_dirs_once(world, prefix, page, n - 1);
        lemma_dir_entries(prefix, prefixes, n - 1);
        assert(prefixes.take(n).drop_last() =~= prefixes.take(n - 1));
        let before = listing::dir_entries(prefix, prefixes.take(n - 1));
        let item = pages::dir_entry(shown_dir(prefix, prefixes[n - 1]));
        if before.contains(item) {
            let i = choose|i: int|
                0 <= i < n - 1 && item == pages::dir_entry(
                    shown_dir(prefix, #[trigger] prefixes[i]),
                );
            lemma_deeper(world, prefix, page, i);
            lemma_deeper(world, prefix, page, n - 1);
            assert(prefixes[i] == prefixes[n - 1]);
        }
        lemma_one_more(before, item);
    }
}

/// A deeper prefix is told by the name under which it is shown.
proof fn lemma_deeper(world: World, prefix: Text, page: ListingView, i: int)
    requires
        world::is_directory_page(world, prefix, page),
        0 <= i < page.prefixes.len(),
    ensures
        page.prefixes[i] == prefix + shown_dir(prefix, page.prefixes[i]).push('/'),
{
    let deeper = page.prefixes[i];
    let name = world::first_part(deeper.skip(prefix.len() as int));
    lemma_first_part(deeper.skip(prefix.len() as int));
    lemma_shown_dir(prefix, name);
}

proof fn lemma_one_more(before: Seq<PathItemView>, item: PathItemView)
    requires
        before.no_duplicates(),
    ensures
        !before.contains(item) ==> before.push(item).no_duplicates(),
{
    if !before.contains(item) {
        assert forall|i: int, j: int|
            0 <= i < before.len() + 1 && 0 <= j < before.len() + 1 && i != j implies before.push(
            item,
        )[i] != before.push(item)[j] by {
            if i < before.len() {
                assert(before.contains(before[i]));
            }
            if j < before.len() {
                assert(before.contains(before[j]));
            }
        }
    }
}

/// A listing shows everything only once.
pub proof fn law_listings_show_nothing_twice(world: World, prefix: Text, page: ListingView)
    requires
        world::is_directory_page(world, prefix, page),
    ensures
        listing::entries(prefix, page).no_duplicates(),
{
    let (dirs, files) = (
        listing::dir_entries(prefix, page.prefixes),
        listing::file_entries(prefix, page.objects),
    );
    lemma_dirs_once(world, prefix, page, page.prefixes.len() as int);
    lemma_files_once(world, prefix, page, page.objects.len() as int);
    lemma_dir_entries(prefix, page.prefixes, page.prefixes.len() as int);
    lemma_file_entries(prefix, page.objects, page.objects.len() as int);
    assert(page.prefixes.take(page.prefixes.len() as int) =~= page.prefixes);
    assert(page.objects.take(page.objects.len() as int) =~= page.objects);
    assert forall|i: int| 0 <= i < dirs.len() implies (#[trigger] dirs[i]).path_type
        == PathType::Dir by {
        assert(dirs.contains(dirs[i]));
    }
    assert forall|i: int| 0 <= i < files.len() implies (#[trigger] files[i]).path_type
        == PathType::File by {
        assert(files.contains(files[i]));
    }
    let both = dirs + files;
    assert forall|i: int, j: int|
        0 <= i < both.len() && 0 <= j < both.len() && i != j implies both[i] != both[j] by {
        let n = dirs.len() as int;
        if i < n && j < n {
            assert(dirs[i] != dirs[j]);
        } else if i >= n && j >= n {
            assert(files[i - n] != files[j - n]);
        } else if i < n {
            assert(dirs[i].path_type != files[j - n].path_type);
        } else {
            assert(files[i - n].path_type != dirs[j].path_type);
        }
    }
}

/// A listing that was not cut short shows everything: each object in the directory, and for each
/// that lies deeper the directory it lies in.
pub proof fn law_listings_are_complete(
    world: World,
    prefix: Text,
    page: ListingView,
    key: Text,
)
    requires
        world::is_directory_page(world, prefix, page),
        !page.truncated,
        world.contains_key(key),
        prefix.is_prefix_of(key),
    ensures
        ({
            let rest = rest_of(key, prefix);
            if !rest.contains('/') {
                rest.len() > 0 && rest != DIRECTORY_MARKER@ ==> listing::entries(
                    prefix,
                    page,
                ).contains(listing::object_entry(rest, world::info_of(key, world[key])))
            } else {
                world::first_part(rest).len() > 0 ==> listing::entries(prefix, page).contains(
                    pages::dir_entry(world::first_part(rest)),
                )
            }
        }),
{
    let rest = rest_of(key, prefix);
    lemma_dir_entries(prefix, page.prefixes, page.prefixes.len() as int);
    lemma_file_entries(prefix, page.objects, page.objects.len() as int);
    assert(page.prefixes.take(page.prefixes.len() as int) =~= page.prefixes);
    assert(page.objects.take(page.objects.len() as int) =~= page.objects);
    if rest.contains('/') {
        let name = world::first_part(rest);
        let deeper = prefix + name.push('/');
        lemma_first_part(rest);
        lemma_shown_dir(prefix, name);
        let i = choose|i: int| 0 <= i < page.prefixes.len() && page.prefixes[i] == deeper;
        lemma_entries_contain(prefix, page, pages::dir_entry(name));
    } else {
        let object = world::info_of(key, world[key]);
        let i = choose|i: int| 0 <= i < page.objects.len() && page.objects[i] == object;
        lemma_entries_contain(prefix, page, listing::object_entry(rest, object));
    }
}

/// The entries are those of the directory with this prefix. A file stands for an object of that
/// name, with its size and its time; a directory, which has neither, for something that lies below
/// it. No entry comes twice, the marker of the directory has none, and a `whole` listing has one for
/// every object in the directory and for every directory in it.
pub open spec fn shows_directory(
    world: World,
    prefix: Text,
    items: Seq<PathItemView>,
    whole: bool,
) -> bool {
    &&& items.no_duplicates()
    &&& forall|i: int|
        0 <= i < items.len() ==> {
            let item = #[trigger] items[i];
            &&& item.name.len() > 0
            &&& !item.name.contains('/')
            &&& match item.path_type {
                PathType::File => {
                    &&& item.name != ".dufs-directory"@
                    &&& world.contains_key(prefix + item.name)
                    &&& item.size == world[prefix + item.name].bytes.len() as u64
                    &&& item.mtime == world[prefix + item.name].uploaded
                },
                PathType::Dir => {
                    &&& world::has_below(world, prefix + item.name + "/"@)
                    &&& item.size == 0
                    &&& item.mtime == 0
                },
            }
        }
    &&& whole ==> forall|name: Text|
        #![trigger world.contains_key(prefix + name)]
        world.contains_key(prefix + name) && name.len() > 0 && name != ".dufs-directory"@
            && !name.contains('/') ==> items.contains(
            PathItemView {
                path_type: PathType::File,
                name,
                mtime: world[prefix + name].uploaded,
                size: world[prefix + name].bytes.len() as u64,
            },
        )
    &&& whole ==> forall|name: Text, rest: Text|
        #![trigger world.contains_key(prefix + name + "/"@ + rest)]
        world.contains_key(prefix + name + "/"@ + rest) && name.len() > 0 && !name.contains('/')
            ==> items.contains(PathItemView { path_type: PathType::Dir, name, mtime: 0, size: 0 })
}

/// What is shown of a directory is what the bucket has in it: everything, unless the bucket cut its
/// answer short.
pub proof fn law_listings_show_the_directory(world: World, prefix: Text, page: ListingView)
    requires
        world::is_directory_page(world, prefix, page),
    ensures
        shows_directory(world, prefix, listing::entries(prefix, page), !page.truncated),
{
    let items = listing::entries(prefix, page);
    reveal_strlit("/");
    law_listings_show_nothing_twice(world, prefix, page);
    assert forall|i: int| 0 <= i < items.len() implies {
        let item = #[trigger] items[i];
        &&& item.name.len() > 0
        &&& !item.name.contains('/')
        &&& match item.path_type {
            PathType::File => {
                &&& item.name != ".dufs-directory"@
                &&& world.contains_key(prefix + item.name)
                &&& item.size == world[prefix + item.name].bytes.len() as u64
                &&& item.mtime == world[prefix + item.name].uploaded
            },
            PathType::Dir => {
                &&& world::has_below(world, prefix + item.name + "/"@)
                &&& item.size == 0
                &&& item.mtime == 0
            },
        }
    } by {
        let item = items[i];
        assert(items.contains(item));
        law_listings_hide_markers(prefix, page, item);
        law_listings_show_what_is_there(world, prefix, page, item);
        assert(prefix + item.name.push('/') =~= prefix + item.name + "/"@);
        lemma_item_names(world, prefix, page, item);
    }
    if !page.truncated {
        assert forall|name: Text|
            #![trigger world.contains_key(prefix + name)]
            world.contains_key(prefix + name) && name.len() > 0 && name != ".dufs-directory"@
                && !name.contains('/') implies items.contains(
            PathItemView {
                path_type: PathType::File,
                name,
                mtime: world[prefix + name].uploaded,
                size: world[prefix + name].bytes.len() as u64,
            },
        ) by {
            let key = prefix + name;
            assert(key.subrange(0, prefix.len() as int) =~= prefix);
            assert(rest_of(key, prefix) =~= name);
            law_listings_are_complete(world, prefix, page, key);
        }
        assert forall|name: Text, rest: Text|
            #![trigger world.contains_key(prefix + name + "/"@ + rest)]
            world.contains_key(prefix + name + "/"@ + rest) && name.len() > 0 && !name.contains(
                '/',
            ) implies items.contains(
            PathItemView { path_type: PathType::Dir, name, mtime: 0, size: 0 },
        ) by {
            let key = prefix + name + "/"@ + rest;
            let behind = rest_of(key, prefix);
            assert(key.subrange(0, prefix.len() as int) =~= prefix);
            assert(behind =~= name + "/"@ + rest);
            assert(behind[name.len() as int] == '/');
            assert forall|j: int| 0 <= j < name.len() implies behind[j] != '/' by {
                assert(name.contains(name[j]));
            }
            text::lemma_first_index_is(behind, '/', name.len() as int);
            assert(world::first_part(behind) =~= name);
            law_listings_are_complete(world, prefix, page, key);
        }
    }
}

/// The names in a listing hold no slash, and directories have neither a size nor a time.
proof fn lemma_item_names(world: World, prefix: Text, page: ListingView, item: PathItemView)
    requires
        world::is_directory_page(world, prefix, page),
        listing::entries(prefix, page).contains(item),
    ensures
        !item.name.contains('/'),
        item.path_type == PathType::Dir ==> item.size == 0 && item.mtime == 0,
{
    lemma_entries_contain(prefix, page, item);
    lemma_dir_entries(prefix, page.prefixes, page.prefixes.len() as int);
    lemma_file_entries(prefix, page.objects, page.objects.len() as int);
    assert(page.prefixes.take(page.prefixes.len() as int) =~= page.prefixes);
    assert(page.objects.take(page.objects.len() as int) =~= page.objects);
    if listing::file_entries(prefix, page.objects).contains(item) {
        let i = choose|i: int|
            0 <= i < page.objects.len() && item == listing::object_entry(
                listing::relative_name((#[trigger] page.objects[i]).key, prefix),
                page.objects[i],
            );
        assert(!page.objects[i].key.skip(prefix.len() as int).contains('/'));
    } else {
        let i = choose|i: int|
            0 <= i < page.prefixes.len() && item == pages::dir_entry(
                shown_dir(prefix, #[trigger] page.prefixes[i]),
            );
        let deeper = page.prefixes[i];
        let name = world::first_part(deeper.skip(prefix.len() as int));
        lemma_first_part(deeper.skip(prefix.len() as int));
        lemma_shown_dir(prefix, name);
    }
}

// ---------------------------------------------------------------------------
// Searches
// ---------------------------------------------------------------------------

/// The entries of the first `n` keys.
pub open spec fn results(world: World, prefix: Text, matching: Seq<Text>, n: int) -> Seq<
    PathItemView,
> {
    Seq::new(
        n as nat,
        |i: int|
            listing::object_entry(
                listing::relative_name(matching[i], prefix),
                world::info_of(matching[i], world[matching[i]]),
            ),
    )
}

/// How many of the keys are shown.
pub open spec fn shown(matching: Seq<Text>) -> int {
    if matching.len() < MAX_LIST_RESULTS {
        matching.len() as int
    } else {
        MAX_LIST_RESULTS as int
    }
}

/// Of what lies below the prefix, or of the first objects of it, that part is shown which the
/// search finds.
pub open spec fn is_search_result(
    world: World,
    key: Text,
    sought: Text,
    items: Seq<PathItemView>,
) -> bool {
    let prefix = keys::prefix_of_directory(key);
    exists|all: Seq<Text>| #[trigger]
        transfer_laws::is_collection(world, prefix, Some(MAX_SEARCH_SCAN), all) && {
            let matching = all.filter(
                listing::found_by(prefix, codec::unicode_lowercase(sought)),
            );
            items == results(world, prefix, matching, shown(matching))
        }
}

/// The search is still going on.
pub open spec fn is_searching(step: StepView) -> bool {
    step matches StepView::Ask(_, task) && (task is Scan || task is Search)
}

spec fn looking(
    scene: Scene,
    w: World,
    key: Text,
    needle: Text,
    read: ReadPlanView,
    all: Seq<Text>,
) -> bool {
    let prefix = keys::prefix_of_directory(key);
    let matching = all.filter(listing::found_by(prefix, needle));
    &&& scene.world == w
    &&& transfer_laws::is_collection(w, prefix, Some(MAX_SEARCH_SCAN), all)
    &&& scene.step matches StepView::Ask(action, task)
    &&& task matches TaskView::Search { at, found, .. }
    &&& task == TaskView::Search { key, prefix, keys: matching, at, found, read }
    &&& at < matching.len()
    &&& at < MAX_LIST_RESULTS
    &&& action == ActionView::Head { key: matching[at as int] }
    &&& found == results(w, prefix, matching, at as int)
}

/// What a filter keeps was there before.
proof fn lemma_filtered(all: Seq<Text>, pred: spec_fn(Text) -> bool, i: int)
    requires
        0 <= i < all.filter(pred).len(),
    ensures
        all.contains(all.filter(pred)[i]),
    decreases all.len(),
{
    reveal(Seq::filter);
    let first = all.drop_last();
    if i < first.filter(pred).len() {
        lemma_filtered(first, pred, i);
        let j = choose|j: int| 0 <= j < first.len() && first[j] == first.filter(pred)[i];
        assert(all[j] == all.filter(pred)[i]);
    } else {
        assert(all.last() == all.filter(pred)[i]);
    }
}

proof fn lemma_matching(w: World, prefix: Text, needle: Text, all: Seq<Text>)
    requires
        transfer_laws::is_collection(w, prefix, Some(MAX_SEARCH_SCAN), all),
    ensures
        all.filter(listing::found_by(prefix, needle)).len() <= MAX_SEARCH_SCAN,
        forall|i: int|
            0 <= i < all.filter(listing::found_by(prefix, needle)).len() ==> w.contains_key(
                #[trigger] all.filter(listing::found_by(prefix, needle))[i],
            ),
{
    let pred = listing::found_by(prefix, needle);
    all.lemma_filter_len(pred);
    assert forall|i: int| 0 <= i < all.filter(pred).len() implies w.contains_key(
        #[trigger] all.filter(pred)[i],
    ) by {
        lemma_filtered(all, pred, i);
    }
}

proof fn lemma_search_step(
    scene: Scene,
    w: World,
    key: Text,
    sought: Text,
    read: ReadPlanView,
    all: Seq<Text>,
    at: usize,
)
    requires
        scene.world == w,
        transfer_laws::is_collection(
            w,
            keys::prefix_of_directory(key),
            Some(MAX_SEARCH_SCAN),
            all,
        ),
        ({
            let prefix = keys::prefix_of_directory(key);
            let matching = all.filter(listing::found_by(prefix, codec::unicode_lowercase(sought)));
            &&& at <= shown(matching)
            &&& scene.step == listing::search_step(
                key,
                prefix,
                matching,
                at,
                results(w, prefix, matching, at as int),
                read,
            )
        }),
    ensures
        looking(scene, w, key, codec::unicode_lowercase(sought), read, all) || exists|
            items: Seq<PathItemView>,
        | #[trigger]
            is_search_result(w, key, sought, items) && scene.step == files::index_step(
                key,
                items,
                read,
            ),
{
    let prefix = keys::prefix_of_directory(key);
    let matching = all.filter(listing::found_by(prefix, codec::unicode_lowercase(sought)));
    lemma_matching(w, prefix, codec::unicode_lowercase(sought), all);
    if at >= shown(matching) {
        let items = results(w, prefix, matching, at as int);
        assert(is_search_result(w, key, sought, items));
    }
}

spec fn search_so_far(
    scene: Scene,
    w: World,
    key: Text,
    sought: Text,
    read: ReadPlanView,
) -> bool {
    let needle = codec::unicode_lowercase(sought);
    ||| transfer_laws::scanning(
        scene,
        w,
        keys::prefix_of_directory(key),
        Some(MAX_SEARCH_SCAN),
        ScanPlanView::Search { key, needle, read },
    )
    ||| exists|all: Seq<Text>| #[trigger] looking(scene, w, key, needle, read, all)
}

proof fn lemma_search(
    service: ServiceView,
    body: Seq<u8>,
    before: Scene,
    answer: (EventView, nat),
    after: Scene,
    w: World,
    key: Text,
    sought: Text,
    read: ReadPlanView,
)
    requires
        search_so_far(before, w, key, sought, read),
        world::follows(service, body, before, answer, after),
    ensures
        answer.0 is Failed && after.step is Fail || search_so_far(after, w, key, sought, read) || exists|
            items: Seq<PathItemView>,
        | #[trigger]
            is_search_result(w, key, sought, items) && after.step == files::index_step(
                key,
                items,
                read,
            ),
{
    let needle = codec::unicode_lowercase(sought);
    let prefix = keys::prefix_of_directory(key);
    let goal = ScanPlanView::Search { key, needle, read };
    let limit = Some(MAX_SEARCH_SCAN);
    if transfer_laws::scanning(before, w, prefix, limit, goal) {
        let all = transfer_laws::lemma_scan(
            service,
            body,
            before,
            answer,
            after,
            w,
            prefix,
            limit,
            goal,
        );
        if !(after.step is Fail) && !transfer_laws::scanning(after, w, prefix, limit, goal) {
            let matching = all.filter(listing::found_by(prefix, needle));
            assert(results(w, prefix, matching, 0) =~= Seq::empty());
            lemma_search_step(after, w, key, sought, read, all, 0);
        }
    } else {
        let all = choose|all: Seq<Text>| #[trigger] looking(before, w, key, needle, read, all);
        let matching = all.filter(listing::found_by(prefix, needle));
        lemma_matching(w, prefix, needle, all);
        match before.step {
            StepView::Ask(_, TaskView::Search { at, .. }) => {
                if !(answer.0 is Failed) {
                    assert(w.contains_key(matching[at as int]));
                    assert(results(w, prefix, matching, at + 1) =~= results(
                        w,
                        prefix,
                        matching,
                        at as int,
                    ).push(results(w, prefix, matching, at + 1)[at as int]));
                    lemma_search_step(after, w, key, sought, read, all, (at + 1) as usize);
                }
            },
            _ => {},
        }
    }
}

proof fn lemma_search_all(
    service: ServiceView,
    body: Seq<u8>,
    scenes: Seq<Scene>,
    answers: Seq<(EventView, nat)>,
    key: Text,
    sought: Text,
    read: ReadPlanView,
    n: nat,
)
    requires
        sought.len() > 0,
        world::is_play(service, body, scenes, answers),
        scenes[0].step == listing::search_dir_step(key, sought, read),
        n <= answers.len(),
        forall|i: int| 0 <= i <= n ==> is_searching((#[trigger] scenes[i]).step),
    ensures
        search_so_far(scenes[n as int], scenes[0].world, key, sought, read),
    decreases n,
{
    if n > 0 {
        lemma_search_all(service, body, scenes, answers, key, sought, read, (n - 1) as nat);
        assert(world::follows(service, body, scenes[n - 1], answers[n - 1], scenes[n as int]));
        lemma_search(
            service,
            body,
            scenes[n - 1],
            answers[n - 1],
            scenes[n as int],
            scenes[0].world,
            key,
            sought,
            read,
        );
        assert(is_searching(scenes[n as int].step));
    }
}

/// A search, however the conversation goes, shows what it finds of everything below the directory
/// as long as that is less than the search looks at; of more it shows what it finds in part of it.
/// The most that is shown is a page. It fails only if something outside does.
pub proof fn law_searches_find(
    service: ServiceView,
    body: Seq<u8>,
    scenes: Seq<Scene>,
    answers: Seq<(EventView, nat)>,
    key: Text,
    sought: Text,
    read: ReadPlanView,
)
    requires
        sought.len() > 0,
        world::is_play(service, body, scenes, answers),
        answers.len() > 0,
        scenes[0].step == listing::search_dir_step(key, sought, read),
        forall|i: int| 0 <= i < answers.len() ==> is_searching((#[trigger] scenes[i]).step),
        !is_searching(scenes.last().step),
    ensures
        scenes.last().step is Fail ==> !world::nothing_failed(answers),
        !(scenes.last().step is Fail) ==> exists|items: Seq<PathItemView>| #[trigger]
            is_search_result(scenes[0].world, key, sought, items) && scenes.last().step
                == files::index_step(key, items, read),
{
    let n = (answers.len() - 1) as nat;
    lemma_search_all(service, body, scenes, answers, key, sought, read, n);
    assert(world::follows(service, body, scenes[n as int], answers[n as int], scenes[n as int + 1]));
    lemma_search(
        service,
        body,
        scenes[n as int],
        answers[n as int],
        scenes[n as int + 1],
        scenes[0].world,
        key,
        sought,
        read,
    );
}

/// No search shows a marker, however deep it lies, nor anything without what was sought in its
/// name.
pub proof fn law_searches_hide_markers(
    world: World,
    key: Text,
    sought: Text,
    items: Seq<PathItemView>,
    i: int,
)
    requires
        is_search_result(world, key, sought, items),
        0 <= i < items.len(),
    ensures
        !listing::is_marker_name(items[i].name),
        text::occurs_in(
            codec::unicode_lowercase(items[i].name),
            codec::unicode_lowercase(sought),
        ),
        items.len() <= 1000,
{
    let prefix = keys::prefix_of_directory(key);
    let pred = listing::found_by(prefix, codec::unicode_lowercase(sought));
    let all = choose|all: Seq<Text>| #[trigger]
        transfer_laws::is_collection(world, prefix, Some(MAX_SEARCH_SCAN), all) && items == results(
            world,
            prefix,
            all.filter(pred),
            shown(all.filter(pred)),
        );
    broadcast use vstd::seq_lib::group_filter_ensures;

    assert(pred(all.filter(pred)[i]));
}

/// What was sought stands somewhere in the name, without regard to case: letters ahead of it and
/// behind it make up the whole name below the directory. The last part of the name is not that of a
/// marker.
pub open spec fn is_hit(name: Text, sought: Text) -> bool {
    &&& exists|before: Text, behind: Text|
        codec::unicode_lowercase(name) == #[trigger] (before + codec::unicode_lowercase(sought)
            + behind)
    &&& name != ".dufs-directory"@
    &&& forall|directory: Text| name != #[trigger] (directory + "/.dufs-directory"@)
}

/// The objects below the prefix.
pub open spec fn below(world: World, prefix: Text) -> Set<Text> {
    Set::new(|key: Text| world.contains_key(key) && prefix.is_prefix_of(key))
}

/// The objects below the prefix whose names hold what was sought.
pub open spec fn hits(world: World, prefix: Text, sought: Text) -> Set<Text> {
    Set::new(
        |key: Text|
            world.contains_key(key) && prefix.is_prefix_of(key) && is_hit(
                key.skip(prefix.len() as int),
                sought,
            ),
    )
}

proof fn lemma_occurs(s: Text, needle: Text)
    ensures
        text::occurs_in(s, needle) <==> exists|before: Text, behind: Text|
            s == #[trigger] (before + needle + behind),
{
    if text::occurs_in(s, needle) {
        let at = choose|at: int| text::occurs_at(s, needle, at);
        let (before, behind) = (s.take(at), s.skip(at + needle.len()));
        assert(s =~= before + s.subrange(at, at + needle.len()) + behind);
        assert(s == before + needle + behind);
    }
    if exists|before: Text, behind: Text| s == #[trigger] (before + needle + behind) {
        let (before, behind) = choose|before: Text, behind: Text|
            s == #[trigger] (before + needle + behind);
        let at = before.len() as int;
        assert(s.subrange(at, at + needle.len()) =~= needle);
        assert(text::occurs_at(s, needle, at));
    }
}

proof fn lemma_marker_name(name: Text)
    ensures
        listing::is_marker_name(name) <==> name == ".dufs-directory"@ || exists|directory: Text|
            name == #[trigger] (directory + "/.dufs-directory"@),
{
    reveal_strlit(".dufs-directory");
    reveal_strlit("/.dufs-directory");
    let marker = ".dufs-directory"@;
    let tail = "/.dufs-directory"@;
    assert(tail =~= seq!['/'] + marker);
    text::lemma_last_index(name, '/');
    let i = text::last_index(name, '/');
    if listing::is_marker_name(name) {
        if i >= 0 {
            let directory = name.take(i);
            assert(name =~= directory + (seq!['/'] + name.skip(i + 1)));
            assert(name == directory + tail);
        } else {
            assert(name.skip(0) =~= name);
        }
    }
    if name == marker {
        assert(i == -1);
        assert(name.skip(0) =~= name);
    }
    if exists|directory: Text| name == #[trigger] (directory + tail) {
        let directory = choose|directory: Text| name == #[trigger] (directory + tail);
        assert(name[directory.len() as int] == '/');
        assert forall|j: int| directory.len() < j < name.len() implies name[j] != '/' by {
            assert(name[j] == marker[j - directory.len() - 1]);
        }
        assert(i == directory.len());
        assert(name.skip(i + 1) =~= marker);
    }
}

/// A search finds exactly the hits.
proof fn lemma_found(prefix: Text, sought: Text, key: Text)
    requires
        prefix.is_prefix_of(key),
    ensures
        (listing::found_by(prefix, codec::unicode_lowercase(sought)))(key) <==> is_hit(
            key.skip(prefix.len() as int),
            sought,
        ),
        listing::relative_name(key, prefix) == key.skip(prefix.len() as int),
{
    let name = key.skip(prefix.len() as int);
    lemma_occurs(codec::unicode_lowercase(name), codec::unicode_lowercase(sought));
    lemma_marker_name(name);
}

/// A sequence without duplicates is no longer than a set that holds all of it.
proof fn lemma_no_longer(s: Seq<Text>, set: Set<Text>)
    requires
        s.no_duplicates(),
        set.finite(),
        forall|i: int| 0 <= i < s.len() ==> set.contains(#[trigger] s[i]),
    ensures
        s.len() <= set.len(),
{
    s.unique_seq_to_set();
    assert forall|key: Text| s.to_set().contains(key) implies set.contains(key) by {
        let i = choose|i: int| 0 <= i < s.len() && s[i] == key;
        assert(set.contains(s[i]));
    }
    vstd::set_lib::lemma_len_subset(s.to_set(), set);
}

proof fn lemma_filter_once(all: Seq<Text>, pred: spec_fn(Text) -> bool)
    requires
        all.no_duplicates(),
    ensures
        all.filter(pred).no_duplicates(),
    decreases all.len(),
{
    reveal(Seq::filter);
    if all.len() > 0 {
        let first = all.drop_last();
        lemma_filter_once(first, pred);
        let kept = first.filter(pred);
        if kept.contains(all.last()) {
            let i = choose|i: int| 0 <= i < kept.len() && kept[i] == all.last();
            lemma_filtered(first, pred, i);
            let j = choose|j: int| 0 <= j < first.len() && first[j] == all.last();
            assert(all[j] == all[all.len() - 1]);
        }
        let more = kept.push(all.last());
        if !kept.contains(all.last()) {
            assert forall|i: int, j: int| 0 <= i < more.len() && 0 <= j < more.len() && i != j implies more[i]
                != more[j] by {
                if i < kept.len() {
                    assert(kept.contains(kept[i]));
                }
                if j < kept.len() {
                    assert(kept.contains(kept[j]));
                }
            }
        }
    }
}

/// Searches find everything: below a directory with fewer than five thousand objects, of which
/// fewer than a thousand are hits, what is shown in the end is the hits and nothing else. Each is
/// shown once, as a file under its whole name below the directory, with its size and its time.
pub proof fn law_searches_show_every_hit(
    service: ServiceView,
    body: Seq<u8>,
    scenes: Seq<Scene>,
    answers: Seq<(EventView, nat)>,
    key: Text,
    sought: Text,
    read: ReadPlanView,
)
    requires
        sought.len() > 0,
        ({
            let prefix = keys::prefix_of_directory(key);
            &&& below(scenes[0].world, prefix).finite()
            &&& below(scenes[0].world, prefix).len() < 5000
            &&& hits(scenes[0].world, prefix, sought).len() < 1000
        }),
        world::is_play(service, body, scenes, answers),
        answers.len() > 0,
        scenes[0].step == listing::search_dir_step(key, sought, read),
        forall|i: int| 0 <= i < answers.len() ==> is_searching((#[trigger] scenes[i]).step),
        !is_searching(scenes.last().step),
        world::nothing_failed(answers),
    ensures
        exists|items: Seq<PathItemView>| #[trigger]
            shows_the_hits(scenes[0].world, keys::prefix_of_directory(key), sought, items)
                && scenes.last().step == files::index_step(key, items, read),
{
    law_searches_find(service, body, scenes, answers, key, sought, read);
    let w = scenes[0].world;
    let prefix = keys::prefix_of_directory(key);
    let items = choose|items: Seq<PathItemView>| #[trigger]
        is_search_result(w, key, sought, items) && scenes.last().step == files::index_step(
            key,
            items,
            read,
        );
    lemma_hits_are_shown(w, key, sought, items);
}

/// The entries are the hits: each hit once, as a file under its name, and nothing else.
pub open spec fn shows_the_hits(
    world: World,
    prefix: Text,
    sought: Text,
    items: Seq<PathItemView>,
) -> bool {
    &&& items.no_duplicates()
    &&& forall|name: Text|
        #![trigger world.contains_key(prefix + name)]
        world.contains_key(prefix + name) && is_hit(name, sought) ==> items.contains(
            PathItemView {
                path_type: PathType::File,
                name,
                mtime: world[prefix + name].uploaded,
                size: world[prefix + name].bytes.len() as u64,
            },
        )
    &&& forall|i: int|
        0 <= i < items.len() ==> {
            let item = #[trigger] items[i];
            &&& item.path_type == PathType::File
            &&& world.contains_key(prefix + item.name)
            &&& is_hit(item.name, sought)
            &&& item.size == world[prefix + item.name].bytes.len() as u64
            &&& item.mtime == world[prefix + item.name].uploaded
        }
}

/// Of the objects that were looked at, the entries are hits, each once as a file under its name. As
/// long as there are fewer than a thousand entries, every hit among those objects has one.
pub open spec fn shows_hits_among(
    world: World,
    prefix: Text,
    sought: Text,
    all: Seq<Text>,
    items: Seq<PathItemView>,
) -> bool {
    &&& items.no_duplicates()
    &&& items.len() <= 1000
    &&& forall|i: int|
        0 <= i < items.len() ==> {
            let item = #[trigger] items[i];
            &&& item.path_type == PathType::File
            &&& all.contains(prefix + item.name)
            &&& is_hit(item.name, sought)
            &&& item.size == world[prefix + item.name].bytes.len() as u64
            &&& item.mtime == world[prefix + item.name].uploaded
        }
    &&& items.len() < 1000 ==> forall|name: Text|
        #![trigger all.contains(prefix + name)]
        all.contains(prefix + name) && is_hit(name, sought) ==> items.contains(
            PathItemView {
                path_type: PathType::File,
                name,
                mtime: world[prefix + name].uploaded,
                size: world[prefix + name].bytes.len() as u64,
            },
        )
}

/// Whatever a search shows in the end, it has looked at everything below the directory, or at five
/// thousand objects of it, and shows the hits among those, up to a thousand.
pub proof fn law_searches_show_the_hits_they_come_upon(
    world: World,
    key: Text,
    sought: Text,
    items: Seq<PathItemView>,
)
    requires
        is_search_result(world, key, sought, items),
    ensures
        exists|all: Seq<Text>| #[trigger]
            transfer_laws::is_collection(world, keys::prefix_of_directory(key), Some(5000), all)
                && shows_hits_among(world, keys::prefix_of_directory(key), sought, all, items),
{
    let prefix = keys::prefix_of_directory(key);
    let pred = listing::found_by(prefix, codec::unicode_lowercase(sought));
    let all = choose|all: Seq<Text>| #[trigger]
        transfer_laws::is_collection(world, prefix, Some(MAX_SEARCH_SCAN), all) && items == results(
            world,
            prefix,
            all.filter(pred),
            shown(all.filter(pred)),
        );
    let matching = all.filter(pred);
    assert forall|i: int| 0 <= i < all.len() implies prefix.is_prefix_of(#[trigger] all[i])
        && world.contains_key(all[i]) by {
        assert(all.contains(all[i]));
    }
    lemma_filter_once(all, pred);
    assert forall|i: int| 0 <= i < matching.len() implies all.contains(#[trigger] matching[i])
        && pred(matching[i]) && prefix.is_prefix_of(matching[i]) by {
        lemma_filtered(all, pred, i);
        broadcast use vstd::seq_lib::group_filter_ensures;

        assert(pred(matching[i]));
        let j = choose|j: int| 0 <= j < all.len() && all[j] == matching[i];
        assert(prefix.is_prefix_of(all[j]));
    }
    assert forall|i: int| 0 <= i < items.len() implies {
        let item = #[trigger] items[i];
        &&& prefix + item.name == matching[i]
        &&& item.path_type == PathType::File
        &&& is_hit(item.name, sought)
        &&& item.size == world[matching[i]].bytes.len() as u64
        &&& item.mtime == world[matching[i]].uploaded
    } by {
        assert(pred(matching[i]));
        lemma_found(prefix, sought, matching[i]);
        assert(matching[i] =~= prefix + matching[i].skip(prefix.len() as int)) by {
            assert(matching[i].subrange(0, prefix.len() as int) =~= prefix);
        }
    }
    assert forall|i: int, j: int| 0 <= i < items.len() && 0 <= j < items.len() && i != j implies items[i]
        != items[j] by {
        if items[i] == items[j] {
            assert(matching[i] == matching[j]);
        }
    }
    if items.len() < 1000 {
        assert forall|name: Text|
            #![trigger all.contains(prefix + name)]
            all.contains(prefix + name) && is_hit(name, sought) implies items.contains(
            PathItemView {
                path_type: PathType::File,
                name,
                mtime: world[prefix + name].uploaded,
                size: world[prefix + name].bytes.len() as u64,
            },
        ) by {
            let object = prefix + name;
            assert(object.subrange(0, prefix.len() as int) =~= prefix);
            assert(object.skip(prefix.len() as int) =~= name);
            lemma_found(prefix, sought, object);
            let j = choose|j: int| 0 <= j < all.len() && all[j] == object;
            lemma_filter_keeps(all, pred, j);
            let i = choose|i: int| 0 <= i < matching.len() && matching[i] == object;
            assert(items[i] == PathItemView {
                path_type: PathType::File,
                name,
                mtime: world[object].uploaded,
                size: world[object].bytes.len() as u64,
            });
        }
    }
    assert(shows_hits_among(world, prefix, sought, all, items));
}

proof fn lemma_hits_are_shown(w: World, key: Text, sought: Text, items: Seq<PathItemView>)
    requires
        is_search_result(w, key, sought, items),
        below(w, keys::prefix_of_directory(key)).finite(),
        below(w, keys::prefix_of_directory(key)).len() < 5000,
        hits(w, keys::prefix_of_directory(key), sought).len() < 1000,
    ensures
        shows_the_hits(w, keys::prefix_of_directory(key), sought, items),
{
    let prefix = keys::prefix_of_directory(key);
    law_searches_show_the_hits_they_come_upon(w, key, sought, items);
    let all = choose|all: Seq<Text>| #[trigger]
        transfer_laws::is_collection(w, prefix, Some(5000), all) && shows_hits_among(
            w,
            prefix,
            sought,
            all,
            items,
        );
    let (everything, found) = (below(w, prefix), hits(w, prefix, sought));
    assert(found.subset_of(everything));
    vstd::set_lib::lemma_len_subset(found, everything);
    assert forall|i: int| 0 <= i < all.len() implies everything.contains(#[trigger] all[i]) by {
        assert(all.contains(all[i]));
    }
    lemma_no_longer(all, everything);
    assert(transfer_laws::lists_below(w, prefix, all));
    let places = Seq::new(items.len(), |i: int| prefix + items[i].name);
    assert forall|i: int| 0 <= i < places.len() implies found.contains(#[trigger] places[i]) by {
        let item = items[i];
        assert(all.contains(prefix + item.name));
        assert(places[i].subrange(0, prefix.len() as int) =~= prefix);
        assert(places[i].skip(prefix.len() as int) =~= item.name);
    }
    assert(places.no_duplicates()) by {
        assert forall|i: int, j: int|
            0 <= i < places.len() && 0 <= j < places.len() && i != j implies places[i]
            != places[j] by {
            if places[i] == places[j] {
                assert(places[i].skip(prefix.len() as int) =~= items[i].name);
                assert(places[j].skip(prefix.len() as int) =~= items[j].name);
                assert(items[i] == items[j]);
            }
        }
    }
    lemma_no_longer(places, found);
    assert forall|name: Text|
        #![trigger w.contains_key(prefix + name)]
        w.contains_key(prefix + name) && is_hit(name, sought) implies items.contains(
        PathItemView {
            path_type: PathType::File,
            name,
            mtime: w[prefix + name].uploaded,
            size: w[prefix + name].bytes.len() as u64,
        },
    ) by {
        assert((prefix + name).subrange(0, prefix.len() as int) =~= prefix);
        assert(all.contains(prefix + name));
    }
    assert forall|i: int| 0 <= i < items.len() implies w.contains_key(
        prefix + (#[trigger] items[i]).name,
    ) by {
        assert(all.contains(prefix + items[i].name));
    }
}

/// What passes a filter is kept.
proof fn lemma_filter_keeps(all: Seq<Text>, pred: spec_fn(Text) -> bool, j: int)
    requires
        0 <= j < all.len(),
        pred(all[j]),
    ensures
        all.filter(pred).contains(all[j]),
    decreases all.len(),
{
    reveal(Seq::filter);
    let first = all.drop_last();
    let kept = all.filter(pred);
    if j < first.len() {
        assert(first[j] == all[j]);
        lemma_filter_keeps(first, pred, j);
        let i = choose|i: int| 0 <= i < first.filter(pred).len() && first.filter(pred)[i] == all[j];
        assert(kept[i] == all[j]);
    } else {
        assert(kept[kept.len() - 1] == all[j]);
    }
}

/// A search looks at no more than five thousand objects below the directory, whatever their depth,
/// for the lower case of what is sought.
pub proof fn law_searches_look_at_everything_below(key: Text, sought: Text, read: ReadPlanView)
    requires
        sought.len() > 0,
    ensures
        listing::search_dir_step(key, sought, read) == StepView::Ask(
            ActionView::List {
                prefix: keys::prefix_of_directory(key),
                delimited: false,
                limit: 1000,
                cursor: None,
            },
            TaskView::Scan {
                prefix: keys::prefix_of_directory(key),
                limit: Some(5000),
                keys: Seq::empty(),
                goal: ScanPlanView::Search {
                    key,
                    needle: codec::unicode_lowercase(sought),
                    read,
                },
            },
        ),
{
}

/// A search for nothing in particular shows the directory.
pub proof fn law_searches_for_nothing_list(key: Text, read: ReadPlanView)
    ensures
        listing::search_dir_step(key, Seq::empty(), read) == StepView::Ask(
            ActionView::List {
                prefix: keys::prefix_of_directory(key),
                delimited: true,
                limit: 1000,
                cursor: None,
            },
            TaskView::List { key, show: ListPlanView::Index(read) },
        ),
{
}

} // verus!
