//! The data paths of several catalogs, and which of them a sweep for orphaned files
//! takes together.
//!
//! A listing of a data path lists everything below it. So data paths that name one
//! place, or places below one another, are swept as one, with the references of all
//! of them.

use vstd::multiset::Multiset;
use vstd::prelude::*;

use crate::error::{invalid_config, DuckLakeError};
use crate::inlined::contains_name;
use crate::maintenance::{key_of, object_key};
use crate::order::{lemma_text_order, lemma_text_order_transitive, order_text, text_order};
use crate::scan::text_starts_with;
use crate::text::{chars_of, same_text, views};

verus! {

/// A data path, with the store that it names and its path there.
#[derive(Debug, Clone, PartialEq, Eq)]
pub struct DataPath {
    pub data_path: String,
    /// The store.
    pub authority: String,
    /// The path in the store.
    pub base_key: String,
}

/// Data paths that name one place, or places of which one lies below the other.
#[derive(Debug, Clone, PartialEq, Eq)]
pub struct DataPathGroup {
    pub authority: String,
    /// The key of the place that the others lie at or below.
    pub object_path: String,
    pub data_paths: Vec<String>,
}

/// The place that a data path names.
pub open spec fn place_of(path: DataPath) -> (Seq<char>, Seq<char>) {
    (path.authority@, key_of(path.base_key@))
}

/// The place of a group.
pub open spec fn place(group: DataPathGroup) -> (Seq<char>, Seq<char>) {
    (group.authority@, group.object_path@)
}

/// How one place stands to another: by store, then by key.
pub open spec fn place_order(a: (Seq<char>, Seq<char>), b: (Seq<char>, Seq<char>)) -> int {
    if text_order(a.0, b.0) != 0 {
        text_order(a.0, b.0)
    } else {
        text_order(a.1, b.1)
    }
}

/// The data paths that name a place, in their order.
pub open spec fn paths_at(paths: Seq<DataPath>, at: (Seq<char>, Seq<char>)) -> Seq<Seq<char>>
    decreases paths.len(),
{
    if paths.len() == 0 {
        Seq::empty()
    } else if place_of(paths.last()) == at {
        paths_at(paths.drop_last(), at).push(paths.last().data_path@)
    } else {
        paths_at(paths.drop_last(), at)
    }
}

/// Whether each group stands in front of the next ones.
pub open spec fn places_ascend(groups: Seq<DataPathGroup>) -> bool {
    forall|i: int, j: int|
        0 <= i < j < groups.len() ==> place_order(
            place(#[trigger] groups[i]),
            place(#[trigger] groups[j]),
        ) < 0
}

/// Whether `groups` are the data paths by the place they name, in the order of the
/// places.
pub open spec fn is_grouping(paths: Seq<DataPath>, groups: Seq<DataPathGroup>) -> bool {
    &&& places_ascend(groups)
    &&& forall|i: int|
        0 <= i < groups.len() ==> is_group_of(paths, #[trigger] groups[i])
    &&& forall|k: int|
        0 <= k < paths.len() ==> has_place(groups, place_of(#[trigger] paths[k]))
}

/// Whether a group holds the data paths that name its place, of which there are
/// some.
pub open spec fn is_group_of(paths: Seq<DataPath>, group: DataPathGroup) -> bool {
    &&& views(group.data_paths@) == paths_at(paths, place(group))
    &&& group.data_paths@.len() > 0
}

/// Whether there is a group for a place.
pub open spec fn has_place(groups: Seq<DataPathGroup>, at: (Seq<char>, Seq<char>)) -> bool {
    exists|i: int| 0 <= i < groups.len() && place(#[trigger] groups[i]) == at
}

proof fn lemma_place_order(
    a: (Seq<char>, Seq<char>),
    b: (Seq<char>, Seq<char>),
    c: (Seq<char>, Seq<char>),
)
    ensures
        place_order(a, b) == -place_order(b, a),
        place_order(a, b) == 0 <==> a == b,
        place_order(a, b) < 0 && place_order(b, c) < 0 ==> place_order(a, c) < 0,
{
    lemma_text_order(a.0, b.0);
    lemma_text_order(a.1, b.1);
    lemma_text_order(b.0, c.0);
    lemma_text_order(b.1, c.1);
    lemma_text_order(a.0, c.0);
    lemma_text_order(a.1, c.1);
    if text_order(a.0, b.0) <= 0 && text_order(b.0, c.0) <= 0 {
        lemma_text_order_transitive(a.0, b.0, c.0);
    }
    if text_order(a.1, b.1) <= 0 && text_order(b.1, c.1) <= 0 {
        lemma_text_order_transitive(a.1, b.1, c.1);
    }
}

fn order_places(a: &DataPathGroup, authority: &str, key: &str) -> (order: i32)
    ensures
        order == place_order(place(*a), (authority@, key@)),
{
    let by_authority: i32 = order_text(a.authority.as_str(), authority);
    if by_authority != 0 {
        by_authority
    } else {
        order_text(a.object_path.as_str(), key)
    }
}

/// Puts one more data path into its group.
fn add_data_path(groups: &mut Vec<DataPathGroup>, path: DataPath, Ghost(seen): Ghost<Seq<DataPath>>)
    requires
        is_grouping(seen, old(groups)@),
    ensures
        is_grouping(seen.push(path), final(groups)@),
{
    let key = object_key(path.base_key.as_str());
    let ghost at = place_of(path);
    let ghost before = groups@;
    let ghost all = seen.push(path);
    assert(all.drop_last() =~= seen);
    let mut i: usize = 0;
    while i < groups.len() && order_places(&groups[i], path.authority.as_str(), key.as_str()) < 0
        invariant
            groups@ == before,
            at == (path.authority@, key@),
            i <= groups@.len(),
            forall|j: int|
                0 <= j < i ==> place_order(place(#[trigger] before[j]), at) < 0,
        decreases groups@.len() - i,
    {
        i = i + 1;
    }
    if i < groups.len() && order_places(&groups[i], path.authority.as_str(), key.as_str()) == 0 {
        let group = groups.remove(i);
        let ghost old_group = group;
        let DataPathGroup { authority, object_path, mut data_paths } = group;
        data_paths.push(path.data_path);
        let grown = DataPathGroup { authority, object_path, data_paths };
        proof {
            lemma_place_order(place(old_group), at, at);
            assert(views(grown.data_paths@) =~= views(old_group.data_paths@).push(path.data_path@));
            assert(is_group_of(seen, before[i as int]));
            assert(is_group_of(all, grown));
        }
        groups.insert(i, grown);
        proof {
            assert(groups@ =~= before.update(i as int, grown));
            lemma_regrouped(seen, path, before, groups@, i as int);
        }
    } else {
        let mut data_paths: Vec<String> = Vec::new();
        let ghost name = path.data_path@;
        let group_authority = path.authority.clone();
        data_paths.push(path.data_path);
        let group = DataPathGroup { authority: group_authority, object_path: key, data_paths };
        groups.insert(i, group);
        proof {
            assert(views(group.data_paths@) =~= seq![name]);
            lemma_new_group(seen, path, before, groups@, group, i as int);
        }
    }
}

/// A group that took one more data path keeps the grouping.
proof fn lemma_regrouped(
    seen: Seq<DataPath>,
    path: DataPath,
    before: Seq<DataPathGroup>,
    after: Seq<DataPathGroup>,
    i: int,
)
    requires
        is_grouping(seen, before),
        0 <= i < before.len(),
        after == before.update(i, after[i]),
        place(after[i]) == place(before[i]),
        place(after[i]) == place_of(path),
        is_group_of(seen.push(path), after[i]),
    ensures
        is_grouping(seen.push(path), after),
{
    let all = seen.push(path);
    assert(all.drop_last() =~= seen);
    assert forall|a: int, b: int| 0 <= a < b < after.len() implies place_order(
        place(#[trigger] after[a]),
        place(#[trigger] after[b]),
    ) < 0 by {
        assert(place(after[a]) == place(before[a]));
        assert(place(after[b]) == place(before[b]));
    }
    assert forall|a: int| 0 <= a < after.len() implies is_group_of(all, #[trigger] after[a]) by {
        if a != i {
            assert(is_group_of(seen, before[a]));
            if a < i {
                lemma_place_order(place(before[a]), place(before[i]), place(before[i]));
                assert(place_order(place(before[a]), place(before[i])) < 0);
            } else {
                lemma_place_order(place(before[i]), place(before[a]), place(before[a]));
                assert(place_order(place(before[i]), place(before[a])) < 0);
            }
        }
    }
    assert forall|k: int| 0 <= k < all.len() implies has_place(
        after,
        place_of(#[trigger] all[k]),
    ) by {
        if k < seen.len() {
            assert(has_place(before, place_of(seen[k])));
            let g = choose|g: int|
                0 <= g < before.len() && place(#[trigger] before[g]) == place_of(seen[k]);
            assert(place(after[g]) == place_of(all[k]));
        } else {
            assert(place(after[i]) == place_of(all[k]));
        }
    }
}

/// A group of its own for a place that had none keeps the grouping.
proof fn lemma_new_group(
    seen: Seq<DataPath>,
    path: DataPath,
    before: Seq<DataPathGroup>,
    after: Seq<DataPathGroup>,
    group: DataPathGroup,
    i: int,
)
    requires
        is_grouping(seen, before),
        0 <= i <= before.len(),
        after == before.insert(i, group),
        place(group) == place_of(path),
        views(group.data_paths@) == seq![path.data_path@],
        forall|j: int| 0 <= j < i ==> place_order(place(#[trigger] before[j]), place_of(path)) < 0,
        i < before.len() ==> place_order(place(before[i]), place_of(path)) > 0,
    ensures
        is_grouping(seen.push(path), after),
{
    let all = seen.push(path);
    let at = place_of(path);
    assert(all.drop_last() =~= seen);
    assert forall|j: int| i <= j < before.len() implies place_order(
        at,
        place(#[trigger] before[j]),
    ) < 0 by {
        lemma_place_order(place(before[i]), at, at);
        if j > i {
            assert(place_order(place(before[i]), place(before[j])) < 0);
            lemma_place_order(at, place(before[i]), place(before[j]));
        }
    }
    assert forall|j: int| 0 <= j < before.len() implies place(#[trigger] before[j]) != at by {
        lemma_place_order(place(before[j]), at, at);
    }
    assert forall|a: int, b: int| 0 <= a < b < after.len() implies place_order(
        place(#[trigger] after[a]),
        place(#[trigger] after[b]),
    ) < 0 by {
        let x = if a < i { a } else { a - 1 };
        let y = if b < i { b } else { b - 1 };
        if a == i {
            assert(after[b] == before[y]);
        } else if b == i {
            assert(after[a] == before[x]);
        } else {
            assert(after[a] == before[x] && after[b] == before[y]);
        }
    }
    lemma_no_paths_at(seen, before, at);
    assert(paths_at(all, at) =~= seq![path.data_path@]);
    assert forall|a: int| 0 <= a < after.len() implies is_group_of(all, #[trigger] after[a]) by {
        if a != i {
            let x = if a < i { a } else { a - 1 };
            assert(after[a] == before[x]);
            assert(is_group_of(seen, before[x]));
        } else {
            assert(views(group.data_paths@).len() == group.data_paths@.len());
        }
    }
    assert forall|k: int| 0 <= k < all.len() implies has_place(
        after,
        place_of(#[trigger] all[k]),
    ) by {
        if k < seen.len() {
            assert(has_place(before, place_of(seen[k])));
            let g = choose|g: int|
                0 <= g < before.len() && place(#[trigger] before[g]) == place_of(seen[k]);
            if g < i {
                assert(after[g] == before[g]);
            } else {
                assert(after[g + 1] == before[g]);
            }
        } else {
            assert(after[i] == group);
        }
    }
}

/// No data path names a place without a group.
proof fn lemma_no_paths_at(
    seen: Seq<DataPath>,
    groups: Seq<DataPathGroup>,
    at: (Seq<char>, Seq<char>),
)
    requires
        forall|k: int| 0 <= k < seen.len() ==> has_place(groups, place_of(#[trigger] seen[k])),
        forall|j: int| 0 <= j < groups.len() ==> place(#[trigger] groups[j]) != at,
    ensures
        paths_at(seen, at) == Seq::<Seq<char>>::empty(),
    decreases seen.len(),
{
    if seen.len() > 0 {
        let rest = seen.drop_last();
        assert forall|k: int| 0 <= k < rest.len() implies has_place(
            groups,
            place_of(#[trigger] rest[k]),
        ) by {
            assert(rest[k] == seen[k]);
        }
        lemma_no_paths_at(rest, groups, at);
        assert(has_place(groups, place_of(seen[seen.len() - 1])));
    }
}

/// Groups data paths by the place they name.
pub fn group_data_paths(paths: Vec<DataPath>) -> (groups: Vec<DataPathGroup>)
    ensures
        is_grouping(paths@, groups@),
{
    let ghost all = paths@;
    let mut groups: Vec<DataPathGroup> = Vec::new();
    assert(all.take(0) =~= Seq::empty());
    for path in it: paths
        invariant
            it.seq() == all,
            is_grouping(all.take(it.index() as int), groups@),
    {
        assert(all.take(it.index() as int + 1) =~= all.take(it.index() as int).push(path));
        add_data_path(&mut groups, path, Ghost(all.take(it.index() as int)));
    }
    assert(all.take(all.len() as int) =~= all);
    groups
}

// ---------------------------------------------------------------------------
// Places that lie below others
// ---------------------------------------------------------------------------

/// Whether the object `key` lies at or below `prefix`: a prefix ends where a part of
/// the key ends.
pub open spec fn is_below(key: Seq<char>, prefix: Seq<char>) -> bool {
    &&& prefix.is_prefix_of(key)
    &&& key.len() == prefix.len() || prefix.len() == 0 || key[prefix.len() as int] == '/'
}

/// Whether the object `key` lies at or below `prefix`.
pub fn prefix_matches(key: &str, prefix: &str) -> (below: bool)
    ensures
        below == is_below(key@, prefix@),
{
    if !text_starts_with(key, prefix) {
        return false;
    }
    let key_chars = chars_of(key);
    let prefix_chars = chars_of(prefix);
    key_chars.len() == prefix_chars.len() || prefix_chars.len() == 0
        || key_chars[prefix_chars.len()] == '/'
}

/// A group of data paths by its place.
pub struct PlaceGroup {
    pub authority: Seq<char>,
    pub key: Seq<char>,
    pub data_paths: Seq<Seq<char>>,
}

/// A group by its place.
pub open spec fn group_view(group: DataPathGroup) -> PlaceGroup {
    PlaceGroup {
        authority: group.authority@,
        key: group.object_path@,
        data_paths: views(group.data_paths@),
    }
}

/// Groups by their places.
pub open spec fn group_views(groups: Seq<DataPathGroup>) -> Seq<PlaceGroup> {
    groups.map_values(|group: DataPathGroup| group_view(group))
}

/// Whether a group names a place at or below that of `root`, so that a listing of the
/// latter lists it too.
pub open spec fn lies_under(group: PlaceGroup, root: PlaceGroup) -> bool {
    group.authority == root.authority && is_below(group.key, root.key)
}

/// `root` with the data paths of `group` behind its own.
pub open spec fn absorb(root: PlaceGroup, group: PlaceGroup) -> PlaceGroup {
    PlaceGroup { data_paths: root.data_paths + group.data_paths, ..root }
}

/// Whether `roots[i]` is the first that `group` lies under.
pub open spec fn is_root_for(roots: Seq<PlaceGroup>, group: PlaceGroup, i: int) -> bool {
    &&& 0 <= i < roots.len()
    &&& lies_under(group, roots[i])
    &&& forall|j: int| 0 <= j < i ==> !lies_under(group, #[trigger] roots[j])
}

/// The roots once one more group is taken in: by the first root that it lies under,
/// or as a root of its own.
pub open spec fn with_group(roots: Seq<PlaceGroup>, group: PlaceGroup) -> Seq<PlaceGroup> {
    if exists|i: int| is_root_for(roots, group, i) {
        let i = choose|i: int| is_root_for(roots, group, i);
        roots.update(i, absorb(roots[i], group))
    } else {
        roots.push(group)
    }
}

/// The roots of groups that are taken in one by one.
pub open spec fn merged(groups: Seq<PlaceGroup>) -> Seq<PlaceGroup>
    decreases groups.len(),
{
    if groups.len() == 0 {
        Seq::empty()
    } else {
        with_group(merged(groups.drop_last()), groups.last())
    }
}

proof fn lemma_root_is_unique(roots: Seq<PlaceGroup>, group: PlaceGroup, i: int, j: int)
    requires
        is_root_for(roots, group, i),
        is_root_for(roots, group, j),
    ensures
        i == j,
{
}

fn is_under(group: &DataPathGroup, root: &DataPathGroup) -> (under: bool)
    ensures
        under == lies_under(group_view(*group), group_view(*root)),
{
    same_text(group.authority.as_str(), root.authority.as_str()) && prefix_matches(
        group.object_path.as_str(),
        root.object_path.as_str(),
    )
}

/// Appends the data paths of `more`.
fn extend_paths(paths: Vec<String>, more: Vec<String>) -> (out: Vec<String>)
    ensures
        views(out@) == views(paths@) + views(more@),
{
    let ghost all = more@;
    let ghost start = paths@;
    let mut out = paths;
    assert(views(out@) =~= views(start) + views(all.take(0)));
    for path in it: more
        invariant
            it.seq() == all,
            views(out@) == views(start) + views(all.take(it.index() as int)),
    {
        let ghost before = out@;
        out.push(path);
        proof {
            let n = it.index() as int;
            assert(views(out@) =~= views(before).push(path@));
            assert(views(all.take(n + 1)) =~= views(all.take(n)).push(path@));
            assert(views(start) + views(all.take(n + 1)) =~= (views(start) + views(
                all.take(n),
            )).push(path@));
        }
    }
    assert(all.take(all.len() as int) =~= all);
    out
}

fn absorb_group(root: DataPathGroup, group: DataPathGroup) -> (out: DataPathGroup)
    ensures
        group_view(out) == absorb(group_view(root), group_view(group)),
{
    let DataPathGroup { authority, object_path, data_paths } = root;
    DataPathGroup { authority, object_path, data_paths: extend_paths(data_paths, group.data_paths) }
}

/// Merges groups into those that no other lies above.
pub fn merge_data_path_groups(groups: Vec<DataPathGroup>) -> (roots: Vec<DataPathGroup>)
    ensures
        group_views(roots@) == merged(group_views(groups@)),
{
    let ghost all = groups@;
    let mut roots: Vec<DataPathGroup> = Vec::new();
    assert(group_views(roots@) =~= merged(group_views(all.take(0))));
    for group in it: groups
        invariant
            it.seq() == all,
            group_views(roots@) == merged(group_views(all.take(it.index() as int))),
    {
        let ghost n = it.index() as int;
        let ghost before = roots@;
        let ghost old_roots = group_views(before);
        let ghost added = group_view(group);
        proof {
            assert(group_views(all.take(n + 1)).drop_last() =~= group_views(all.take(n)));
            assert(group_views(all.take(n + 1)).last() == added);
        }
        let mut i: usize = 0;
        while i < roots.len() && !is_under(&group, &roots[i])
            invariant
                roots@ == before,
                old_roots == group_views(before),
                added == group_view(group),
                i <= roots@.len(),
                forall|j: int| 0 <= j < i ==> !lies_under(added, #[trigger] old_roots[j]),
            decreases roots@.len() - i,
        {
            assert(old_roots[i as int] == group_view(before[i as int]));
            i = i + 1;
        }
        if i < roots.len() {
            let root = roots.remove(i);
            let ghost old_root = root;
            let grown = absorb_group(root, group);
            roots.insert(i, grown);
            proof {
                assert(old_roots[i as int] == group_view(old_root));
                assert(is_root_for(old_roots, added, i as int));
                let chosen = choose|k: int| is_root_for(old_roots, added, k);
                lemma_root_is_unique(old_roots, added, i as int, chosen);
                assert(roots@ =~= before.update(i as int, grown));
                assert(group_views(roots@) =~= old_roots.update(i as int, group_view(grown)));
            }
        } else {
            roots.push(group);
            proof {
                assert(group_views(roots@) =~= old_roots.push(added));
            }
        }
    }
    assert(all.take(all.len() as int) =~= all);
    roots
}

/// All data paths of groups, each as often as it occurs.
pub open spec fn all_paths(groups: Seq<PlaceGroup>) -> Multiset<Seq<char>>
    decreases groups.len(),
{
    if groups.len() == 0 {
        Multiset::empty()
    } else {
        all_paths(groups.drop_last()).add(groups.last().data_paths.to_multiset())
    }
}

proof fn lemma_all_paths_push(groups: Seq<PlaceGroup>, group: PlaceGroup)
    ensures
        all_paths(groups.push(group)) == all_paths(groups).add(group.data_paths.to_multiset()),
{
    assert(groups.push(group).drop_last() =~= groups);
}

proof fn lemma_all_paths_absorb(groups: Seq<PlaceGroup>, i: int, group: PlaceGroup)
    requires
        0 <= i < groups.len(),
    ensures
        all_paths(groups.update(i, absorb(groups[i], group))) == all_paths(groups).add(
            group.data_paths.to_multiset(),
        ),
    decreases groups.len(),
{
    let rest = groups.drop_last();
    let grown = groups.update(i, absorb(groups[i], group));
    vstd::seq_lib::lemma_multiset_commutative(groups[i].data_paths, group.data_paths);
    if i == groups.len() - 1 {
        assert(grown.drop_last() =~= rest);
        assert(all_paths(grown) =~= all_paths(groups).add(group.data_paths.to_multiset()));
    } else {
        lemma_all_paths_absorb(rest, i, group);
        assert(grown.drop_last() =~= rest.update(i, absorb(rest[i], group)));
        assert(all_paths(grown) =~= all_paths(groups).add(group.data_paths.to_multiset()));
    }
}

/// Merging loses no data path and adds none.
pub proof fn lemma_merge_keeps_paths(groups: Seq<PlaceGroup>)
    ensures
        all_paths(merged(groups)) == all_paths(groups),
    decreases groups.len(),
{
    if groups.len() > 0 {
        let rest = groups.drop_last();
        let group = groups.last();
        lemma_merge_keeps_paths(rest);
        let roots = merged(rest);
        if exists|i: int| is_root_for(roots, group, i) {
            let i = choose|i: int| is_root_for(roots, group, i);
            lemma_all_paths_absorb(roots, i, group);
        } else {
            lemma_all_paths_push(roots, group);
        }
    }
}

/// The place of a group.
pub open spec fn place_view(group: PlaceGroup) -> (Seq<char>, Seq<char>) {
    (group.authority, group.key)
}

/// Whether each group stands in front of the next ones.
pub open spec fn is_ascending(groups: Seq<PlaceGroup>) -> bool {
    forall|i: int, j: int|
        0 <= i < j < groups.len() ==> place_order(
            place_view(#[trigger] groups[i]),
            place_view(#[trigger] groups[j]),
        ) < 0
}

/// Whether every root has the place of a group that stands in front of `place`.
spec fn roots_precede(roots: Seq<PlaceGroup>, at: (Seq<char>, Seq<char>)) -> bool {
    forall|i: int| 0 <= i < roots.len() ==> place_order(place_view(#[trigger] roots[i]), at) < 0
}

/// A text stands in front of every longer one that starts with it.
proof fn lemma_prefix_order(prefix: Seq<char>, text: Seq<char>)
    requires
        prefix.is_prefix_of(text),
    ensures
        text_order(prefix, text) <= 0,
    decreases prefix.len(),
{
    if prefix.len() > 0 {
        assert(prefix[0] == text[0]) by {
            assert(text.subrange(0, prefix.len() as int)[0] == text[0]);
        }
        assert(prefix.skip(1) =~= text.skip(1).subrange(0, prefix.len() - 1));
        lemma_prefix_order(prefix.skip(1), text.skip(1));
    }
}

/// The roots of the first `n` groups stand in front of the groups behind them.
proof fn lemma_roots_precede(groups: Seq<PlaceGroup>, n: int, at: (Seq<char>, Seq<char>))
    requires
        0 <= n <= groups.len(),
        forall|i: int|
            0 <= i < n ==> place_order(place_view(#[trigger] groups[i]), at) < 0,
    ensures
        roots_precede(merged(groups.take(n)), at),
    decreases n,
{
    if n > 0 {
        lemma_roots_precede(groups, n - 1, at);
        assert(groups.take(n).drop_last() =~= groups.take(n - 1));
        let roots = merged(groups.take(n - 1));
        let group = groups[n - 1];
        if exists|i: int| is_root_for(roots, group, i) {
            let k = choose|i: int| is_root_for(roots, group, i);
            assert forall|i: int| 0 <= i < roots.len() implies place_order(
                place_view(#[trigger] merged(groups.take(n))[i]),
                at,
            ) < 0 by {
                assert(place_order(place_view(roots[i]), at) < 0);
            }
        }
    }
}

/// No root lies under another, so that a sweep of all of them visits no object twice
/// and knows of every catalog whose files it lists.
pub proof fn lemma_roots_are_apart(groups: Seq<PlaceGroup>, i: int, j: int)
    requires
        is_ascending(groups),
        0 <= i < merged(groups).len(),
        0 <= j < merged(groups).len(),
        i != j,
    ensures
        !lies_under(merged(groups)[i], merged(groups)[j]),
    decreases groups.len(),
{
    if groups.len() > 0 {
        let n = groups.len() - 1;
        let rest = groups.drop_last();
        let group = groups.last();
        let roots = merged(rest);
        assert(is_ascending(rest));
        assert(rest =~= groups.take(n));
        assert forall|k: int| 0 <= k < n implies place_order(
            place_view(#[trigger] groups[k]),
            place_view(group),
        ) < 0 by {
            assert(groups[n] == group);
        }
        lemma_roots_precede(groups, n, place_view(group));
        if exists|k: int| is_root_for(roots, group, k) {
            let k = choose|k: int| is_root_for(roots, group, k);
            lemma_roots_are_apart(rest, i, j);
            assert(place_view(merged(groups)[i]) == place_view(roots[i]));
            assert(place_view(merged(groups)[j]) == place_view(roots[j]));
        } else if i < roots.len() && j < roots.len() {
            lemma_roots_are_apart(rest, i, j);
        } else if i < roots.len() {
            if lies_under(roots[i], group) {
                lemma_prefix_order(group.key, roots[i].key);
                assert(place_order(place_view(roots[i]), place_view(group)) < 0);
                lemma_text_order(group.authority, roots[i].authority);
                lemma_text_order(group.key, roots[i].key);
            }
        } else {
            if lies_under(group, roots[j]) {
                lemma_first_root(roots, group, j);
            }
        }
    }
}

/// Where a group lies under a root there is a first such root.
proof fn lemma_first_root(roots: Seq<PlaceGroup>, group: PlaceGroup, j: int)
    requires
        0 <= j < roots.len(),
        lies_under(group, roots[j]),
    ensures
        exists|i: int| is_root_for(roots, group, i),
    decreases j,
{
    if exists|k: int| 0 <= k < j && lies_under(group, #[trigger] roots[k]) {
        let k = choose|k: int| 0 <= k < j && lies_under(group, #[trigger] roots[k]);
        lemma_first_root(roots, group, k);
    } else {
        assert(is_root_for(roots, group, j));
    }
}

/// Whether a root covers a group: the group lies under it, and it has its data paths.
pub open spec fn covers(root: PlaceGroup, group: PlaceGroup) -> bool {
    &&& lies_under(group, root)
    &&& forall|path: Seq<char>| #[trigger]
        group.data_paths.contains(path) ==> root.data_paths.contains(path)
}

/// Every group is covered by a root: what is listed below the root is compared with
/// the references of all data paths that name a place there.
pub proof fn lemma_groups_are_covered(groups: Seq<PlaceGroup>, k: int)
    requires
        0 <= k < groups.len(),
    ensures
        exists|i: int| 0 <= i < merged(groups).len() && covers(#[trigger] merged(groups)[i], groups[k]),
    decreases groups.len(),
{
    let n = groups.len() - 1;
    let rest = groups.drop_last();
    let group = groups.last();
    let roots = merged(rest);
    let after = merged(groups);
    if exists|i: int| is_root_for(roots, group, i) {
        let r = choose|i: int| is_root_for(roots, group, i);
        let grown = absorb(roots[r], group);
        assert forall|path: Seq<char>|
            roots[r].data_paths.contains(path) || group.data_paths.contains(
                path,
            ) implies grown.data_paths.contains(path) by {
            let (a, b) = (roots[r].data_paths, group.data_paths);
            if a.contains(path) {
                let m = choose|m: int| 0 <= m < a.len() && a[m] == path;
                assert(grown.data_paths[m] == path);
            } else {
                let m = choose|m: int| 0 <= m < b.len() && b[m] == path;
                assert(grown.data_paths[a.len() + m] == path);
            }
        }
        if k == n {
            assert(covers(after[r], groups[k]));
        } else {
            lemma_groups_are_covered(rest, k);
            let i = choose|i: int| 0 <= i < roots.len() && covers(#[trigger] roots[i], rest[k]);
            assert(covers(after[i], groups[k]));
        }
    } else {
        if k == n {
            assert(is_below(group.key, group.key)) by {
                assert(group.key.subrange(0, group.key.len() as int) =~= group.key);
            }
            assert(covers(after[roots.len() as int], groups[k]));
        } else {
            lemma_groups_are_covered(rest, k);
            let i = choose|i: int| 0 <= i < roots.len() && covers(#[trigger] roots[i], rest[k]);
            assert(covers(after[i], groups[k]));
        }
    }
}

// ---------------------------------------------------------------------------
// What a sweep covers
// ---------------------------------------------------------------------------

/// How text is written with quotes around it and the special characters in it
/// escaped.
pub uninterp spec fn escaped_text(text: Seq<char>) -> Seq<char>;

/// The standard library's `Debug` for `str` puts quotes around the text and escapes
/// the special characters in it. What comes out depends on the text alone.
#[verifier::external_body]
fn escape_text(text: &str) -> (escaped: String)
    ensures
        escaped@ == escaped_text(text@),
{
    format!("{:?}", text)
}

/// The error on a data path that no catalog has.
pub open spec fn unregistered_text(escaped: Seq<char>) -> Seq<char> {
    "Data path "@ + escaped + " is not registered for multicatalog cleanup"@
}

/// Whether the `i`th group is the first that has a data path.
pub open spec fn is_home_of(groups: Seq<PlaceGroup>, data_path: Seq<char>, i: int) -> bool {
    &&& 0 <= i < groups.len()
    &&& groups[i].data_paths.contains(data_path)
    &&& forall|j: int| 0 <= j < i ==> !(#[trigger] groups[j]).data_paths.contains(data_path)
}

/// The data paths of the groups other than the `home`th that lie under it, in their
/// order.
pub open spec fn paths_under(groups: Seq<PlaceGroup>, home: int, n: nat) -> Seq<Seq<char>>
    decreases n,
{
    if n == 0 {
        Seq::empty()
    } else if n - 1 != home && lies_under(groups[n - 1], groups[home]) {
        paths_under(groups, home, (n - 1) as nat) + groups[n - 1].data_paths
    } else {
        paths_under(groups, home, (n - 1) as nat)
    }
}

fn clone_paths(paths: &Vec<String>) -> (out: Vec<String>)
    ensures
        views(out@) == views(paths@),
{
    let mut out: Vec<String> = Vec::new();
    let mut i: usize = 0;
    while i < paths.len()
        invariant
            i <= paths@.len(),
            out@.len() == i,
            forall|k: int| 0 <= k < i ==> (#[trigger] out@[k])@ == paths@[k]@,
        decreases paths@.len() - i,
    {
        out.push(paths[i].clone());
        i = i + 1;
    }
    assert(views(out@) =~= views(paths@));
    out
}

/// Finds the group of a registered data path, with the data paths of all groups that
/// lie under it: a listing lists their files too.
pub fn registered_data_path_group(groups: &Vec<DataPathGroup>, data_path: &str) -> (result: Result<
    DataPathGroup,
    DuckLakeError,
>)
    ensures
        match result {
            Ok(root) => exists|i: int| #[trigger]
                is_home_of(group_views(groups@), data_path@, i) && group_view(root) == (
                PlaceGroup {
                    data_paths: group_views(groups@)[i].data_paths + paths_under(
                        group_views(groups@),
                        i,
                        groups@.len(),
                    ),
                    ..group_views(groups@)[i]
                }),
            Err(_) => {
                &&& invalid_config(result, unregistered_text(escaped_text(data_path@)))
                &&& forall|i: int|
                    0 <= i < groups@.len() ==> !(#[trigger] group_views(
                        groups@,
                    )[i]).data_paths.contains(data_path@)
            },
        },
{
    let ghost places = group_views(groups@);
    let mut home: usize = 0;
    while home < groups.len() && !contains_name(&groups[home].data_paths, data_path)
        invariant
            places == group_views(groups@),
            home <= groups@.len(),
            forall|j: int|
                0 <= j < home ==> !(#[trigger] places[j]).data_paths.contains(data_path@),
        decreases groups@.len() - home,
    {
        assert(places[home as int] == group_view(groups@[home as int]));
        home = home + 1;
    }
    if home == groups.len() {
        let escaped = escape_text(data_path);
        let mut message = "Data path ".to_string();
        message.append(escaped.as_str());
        message.append(" is not registered for multicatalog cleanup");
        return Err(DuckLakeError::InvalidConfig(message));
    }
    proof {
        assert(places[home as int] == group_view(groups@[home as int]));
        assert(is_home_of(places, data_path@, home as int));
    }
    let mut data_paths = clone_paths(&groups[home].data_paths);
    assert(views(data_paths@) =~= places[home as int].data_paths + paths_under(
        places,
        home as int,
        0,
    ));
    let mut i: usize = 0;
    while i < groups.len()
        invariant
            places == group_views(groups@),
            home < groups@.len(),
            i <= groups@.len(),
            views(data_paths@) == places[home as int].data_paths + paths_under(
                places,
                home as int,
                i as nat,
            ),
        decreases groups@.len() - i,
    {
        assert(places[i as int] == group_view(groups@[i as int]));
        assert(places[home as int] == group_view(groups@[home as int]));
        if i != home && is_under(&groups[i], &groups[home]) {
            let more = clone_paths(&groups[i].data_paths);
            let ghost before = views(data_paths@);
            data_paths = extend_paths(data_paths, more);
            proof {
                let own = places[home as int].data_paths;
                assert(own + (paths_under(places, home as int, i as nat)
                    + places[i as int].data_paths) =~= before + places[i as int].data_paths);
            }
        }
        i = i + 1;
    }
    Ok(
        DataPathGroup {
            authority: groups[home].authority.clone(),
            object_path: groups[home].object_path.clone(),
            data_paths,
        },
    )
}

/// The error where no catalog has a data path.
pub const NO_DATA_PATH: &'static str =
    "Missing required catalog metadata: 'data_path' not configured.";

/// The error where data paths are in several stores.
pub const SEVERAL_AUTHORITIES: &'static str =
    "Multicatalog data paths span multiple object-store authorities; clean each path with delete_orphaned_files_in_data_path";

/// Whether all data paths are in one store.
pub open spec fn in_one_store(paths: Seq<DataPath>) -> bool {
    forall|i: int, j: int|
        0 <= i < paths.len() && 0 <= j < paths.len() ==> (#[trigger] paths[i]).authority@ == (
        #[trigger] paths[j]).authority@
}

/// The roots that a sweep of all data paths visits. There must be some, and they must
/// be in one store, since one store is swept.
pub fn sweep_roots(paths: Vec<DataPath>) -> (result: Result<Vec<DataPathGroup>, DuckLakeError>)
    ensures
        if paths@.len() == 0 {
            invalid_config(result, NO_DATA_PATH@)
        } else if !in_one_store(paths@) {
            invalid_config(result, SEVERAL_AUTHORITIES@)
        } else {
            &&& result matches Ok(roots)
            &&& exists|groups: Seq<DataPathGroup>| #[trigger]
                is_grouping(paths@, groups) && group_views(roots@) == merged(group_views(groups))
        },
{
    let ghost all = paths@;
    let groups = group_data_paths(paths);
    let ghost grouped = groups@;
    let roots = merge_data_path_groups(groups);
    let ghost root_places = group_views(roots@);
    proof {
        lemma_sweep(all, grouped);
        assert(root_places.len() == roots@.len());
    }
    if roots.len() == 0 {
        return Err(DuckLakeError::InvalidConfig(NO_DATA_PATH.to_string()));
    }
    let mut i: usize = 1;
    while i < roots.len()
        invariant
            all == paths@,
            1 <= i <= roots@.len(),
            root_places == group_views(roots@),
            root_places == merged(group_views(grouped)),
            forall|k: int|
                0 <= k < i ==> (#[trigger] root_places[k]).authority == root_places[0].authority,
            is_store_of(all, root_places),
            all.len() > 0,
        decreases roots@.len() - i,
    {
        assert(root_places[i as int] == group_view(roots@[i as int]));
        assert(root_places[i - 1] == group_view(roots@[i - 1]));
        if !same_text(roots[i - 1].authority.as_str(), roots[i].authority.as_str()) {
            proof {
                assert(root_places[i - 1].authority != root_places[i as int].authority);
                assert(is_named(all, root_places[i - 1].authority));
                assert(is_named(all, root_places[i as int].authority));
                assert(!in_one_store(all));
            }
            return Err(DuckLakeError::InvalidConfig(SEVERAL_AUTHORITIES.to_string()));
        }
        i = i + 1;
    }
    proof {
        assert forall|a: int, b: int| 0 <= a < all.len() && 0 <= b < all.len() implies (
        #[trigger] all[a]).authority@ == (#[trigger] all[b]).authority@ by {
            assert(is_rooted(root_places, all[a].authority@));
            assert(is_rooted(root_places, all[b].authority@));
        }
    }
    Ok(roots)
}

/// Whether a data path names a store.
spec fn is_named(paths: Seq<DataPath>, authority: Seq<char>) -> bool {
    exists|k: int| 0 <= k < paths.len() && (#[trigger] paths[k]).authority@ == authority
}

/// Whether a root is in a store.
spec fn is_rooted(roots: Seq<PlaceGroup>, authority: Seq<char>) -> bool {
    exists|i: int| 0 <= i < roots.len() && (#[trigger] roots[i]).authority == authority
}

/// Whether the roots are in the stores that the data paths name.
spec fn is_store_of(paths: Seq<DataPath>, roots: Seq<PlaceGroup>) -> bool {
    &&& forall|k: int| 0 <= k < paths.len() ==> is_rooted(roots, (#[trigger] paths[k]).authority@)
    &&& forall|i: int| 0 <= i < roots.len() ==> is_named(paths, (#[trigger] roots[i]).authority)
}

/// The roots of a grouping are in the stores that the data paths name, and there are
/// some where there are data paths.
proof fn lemma_sweep(paths: Seq<DataPath>, groups: Seq<DataPathGroup>)
    requires
        is_grouping(paths, groups),
    ensures
        is_store_of(paths, merged(group_views(groups))),
        merged(group_views(groups)).len() == 0 <==> paths.len() == 0,
{
    let places = group_views(groups);
    let roots = merged(places);
    assert forall|k: int| 0 <= k < paths.len() implies is_rooted(
        roots,
        (#[trigger] paths[k]).authority@,
    ) by {
        assert(has_place(groups, place_of(paths[k])));
        let g = choose|g: int|
            0 <= g < groups.len() && place(#[trigger] groups[g]) == place_of(paths[k]);
        assert(places[g] == group_view(groups[g]));
        lemma_groups_are_covered(places, g);
        let i = choose|i: int| 0 <= i < roots.len() && covers(#[trigger] roots[i], places[g]);
        assert(roots[i].authority == paths[k].authority@);
    }
    assert forall|i: int| 0 <= i < roots.len() implies is_named(
        paths,
        (#[trigger] roots[i]).authority,
    ) by {
        lemma_roots_are_groups(places, i);
        let g = choose|g: int|
            0 <= g < places.len() && place_view(#[trigger] places[g]) == place_view(roots[i]);
        assert(places[g] == group_view(groups[g]));
        assert(is_group_of(paths, groups[g]));
        assert(views(groups[g].data_paths@).len() == groups[g].data_paths@.len());
        lemma_place_is_named(paths, place(groups[g]));
    }
    if paths.len() > 0 {
        assert(is_rooted(roots, paths[0].authority@));
    }
    if roots.len() > 0 {
        assert(is_named(paths, roots[0].authority));
    }
}

/// A place that has data paths is named by one.
proof fn lemma_place_is_named(paths: Seq<DataPath>, at: (Seq<char>, Seq<char>))
    requires
        paths_at(paths, at).len() > 0,
    ensures
        is_named(paths, at.0),
    decreases paths.len(),
{
    if paths.len() > 0 {
        if place_of(paths.last()) == at {
            assert(paths[paths.len() - 1].authority@ == at.0);
        } else {
            lemma_place_is_named(paths.drop_last(), at);
            let k = choose|k: int|
                0 <= k < paths.drop_last().len() && (#[trigger] paths.drop_last()[k]).authority@
                    == at.0;
            assert(paths[k].authority@ == at.0);
        }
    }
}

/// A root has the place of one of the groups.
proof fn lemma_roots_are_groups(groups: Seq<PlaceGroup>, i: int)
    requires
        0 <= i < merged(groups).len(),
    ensures
        exists|g: int|
            0 <= g < groups.len() && place_view(#[trigger] groups[g]) == place_view(
                merged(groups)[i],
            ),
    decreases groups.len(),
{
    if groups.len() > 0 {
        let rest = groups.drop_last();
        let roots = merged(rest);
        if i < roots.len() {
            lemma_roots_are_groups(rest, i);
            let g = choose|g: int|
                0 <= g < rest.len() && place_view(#[trigger] rest[g]) == place_view(roots[i]);
            assert(place_view(groups[g]) == place_view(merged(groups)[i]));
        } else {
            assert(place_view(groups[groups.len() - 1]) == place_view(merged(groups)[i]));
        }
    }
}

/// A key lies at or below a prefix if, and only if, it is the prefix, goes on behind it
/// with a `/`, or the prefix is the whole store. The `a` of `ab/c` is no prefix of it.
pub proof fn lemma_below(key: Seq<char>, prefix: Seq<char>)
    ensures
        is_below(key, prefix) <==> key == prefix || prefix.len() == 0 || exists|rest: Seq<char>|
            #[trigger] (prefix + seq!['/'] + rest) == key,
{
    if is_below(key, prefix) && key.len() > prefix.len() && prefix.len() > 0 {
        let rest = key.skip(prefix.len() as int + 1);
        assert(prefix + seq!['/'] + rest =~= key) by {
            assert(prefix =~= key.subrange(0, prefix.len() as int));
            assert forall|i: int| 0 <= i < prefix.len() implies prefix[i] == key[i] by {
                assert(key.subrange(0, prefix.len() as int)[i] == key[i]);
            }
        }
    }
    if is_below(key, prefix) && key.len() == prefix.len() {
        assert(key.subrange(0, prefix.len() as int) =~= key);
    }
    if key == prefix {
        assert(key.subrange(0, prefix.len() as int) =~= key);
    }
    if prefix.len() == 0 {
        assert(key.subrange(0, 0) =~= prefix);
    }
    if exists|rest: Seq<char>| #[trigger] (prefix + seq!['/'] + rest) == key {
        let rest = choose|rest: Seq<char>| #[trigger] (prefix + seq!['/'] + rest) == key;
        assert(key.subrange(0, prefix.len() as int) =~= prefix);
        assert(key[prefix.len() as int] == '/');
    }
}

proof fn lemma_paths_at(paths: Seq<DataPath>, at: (Seq<char>, Seq<char>))
    ensures
        paths_at(paths, at) == paths.filter(
            |path: DataPath| path.authority@ == at.0 && key_of(path.base_key@) == at.1,
        ).map_values(|path: DataPath| path.data_path@),
    decreases paths.len(),
{
    reveal(Seq::filter);
    let wanted = |path: DataPath| path.authority@ == at.0 && key_of(path.base_key@) == at.1;
    let name = |path: DataPath| path.data_path@;
    if paths.len() > 0 {
        let rest = paths.drop_last();
        lemma_paths_at(rest, at);
        if wanted(paths.last()) {
            assert(rest.filter(wanted).push(paths.last()).map_values(name) =~= rest.filter(
                wanted,
            ).map_values(name).push(paths.last().data_path@));
        }
    } else {
        assert(paths.filter(wanted).map_values(name) =~= Seq::empty());
    }
}

/// Data paths are grouped by the store and the key that they name: each is in the group
/// of its own, a group holds no other, and no two groups name one place.
pub proof fn lemma_groups_by_place(
    paths: Seq<DataPath>,
    groups: Seq<DataPathGroup>,
    k: int,
    g: int,
    h: int,
)
    requires
        is_grouping(paths, groups),
    ensures
        0 <= k < paths.len() ==> exists|i: int|
            0 <= i < groups.len() && (#[trigger] groups[i]).authority@ == paths[k].authority@
                && groups[i].object_path@ == key_of(paths[k].base_key@) && exists|m: int|
                0 <= m < groups[i].data_paths@.len() && (#[trigger] groups[i].data_paths@[m])@
                    == paths[k].data_path@,
        0 <= g < groups.len() ==> groups[g].data_paths@.len() > 0 && forall|m: int|
            0 <= m < groups[g].data_paths@.len() ==> exists|p: int|
                0 <= p < paths.len() && (#[trigger] paths[p]).data_path@ == (
                #[trigger] groups[g].data_paths@[m])@ && paths[p].authority@
                    == groups[g].authority@ && key_of(paths[p].base_key@)
                    == groups[g].object_path@,
        0 <= g < h < groups.len() ==> groups[g].authority@ != groups[h].authority@
            || groups[g].object_path@ != groups[h].object_path@,
        0 <= g < h < groups.len() ==> (text_order(groups[g].authority@, groups[h].authority@) < 0
            || (groups[g].authority@ == groups[h].authority@ && text_order(
            groups[g].object_path@,
            groups[h].object_path@,
        ) < 0)),
{
    if 0 <= k < paths.len() {
        assert(has_place(groups, place_of(paths[k])));
        let i = choose|i: int|
            0 <= i < groups.len() && place(#[trigger] groups[i]) == place_of(paths[k]);
        let at = place(groups[i]);
        assert(is_group_of(paths, groups[i]));
        let wanted = |path: DataPath| path.authority@ == at.0 && key_of(path.base_key@) == at.1;
        lemma_paths_at(paths, at);
        let chosen = crate::order::lemma_filter_selects(paths, wanted);
        assert(views(groups[i].data_paths@).len() == groups[i].data_paths@.len());
        assert(paths_at(paths, at).len() == chosen.len());
        assert(wanted(paths[k]));
        let m = choose|m: int| 0 <= m < chosen.len() && chosen[m] == k;
        assert(paths_at(paths, at)[m] == paths[k].data_path@);
        assert(views(groups[i].data_paths@)[m] == groups[i].data_paths@[m]@);
        assert(groups[i].authority@ == paths[k].authority@);
    }
    if 0 <= g < groups.len() {
        let at = place(groups[g]);
        assert(is_group_of(paths, groups[g]));
        let wanted = |path: DataPath| path.authority@ == at.0 && key_of(path.base_key@) == at.1;
        lemma_paths_at(paths, at);
        let chosen = crate::order::lemma_filter_selects(paths, wanted);
        assert(views(groups[g].data_paths@).len() == groups[g].data_paths@.len());
        assert(paths_at(paths, at).len() == chosen.len());
        assert forall|m: int| 0 <= m < groups[g].data_paths@.len() implies exists|p: int|
            0 <= p < paths.len() && (#[trigger] paths[p]).data_path@ == (
            #[trigger] groups[g].data_paths@[m])@ && paths[p].authority@ == groups[g].authority@
                && key_of(paths[p].base_key@) == groups[g].object_path@ by {
            assert(views(groups[g].data_paths@)[m] == groups[g].data_paths@[m]@);
            let p = chosen[m];
            assert(wanted(paths[p]));
            assert(paths[p].data_path@ == groups[g].data_paths@[m]@);
        }
    }
    if 0 <= g < h < groups.len() {
        lemma_text_order(groups[g].authority@, groups[h].authority@);
        lemma_text_order(groups[g].object_path@, groups[h].object_path@);
        assert(place_order(place(groups[g]), place(groups[h])) < 0);
    }
}

/// Every root is the place of one of the groups that were merged.
pub proof fn lemma_roots_are_places(groups: Seq<PlaceGroup>, i: int)
    requires
        0 <= i < merged(groups).len(),
    ensures
        exists|g: int|
            0 <= g < groups.len() && (#[trigger] groups[g]).authority == merged(groups)[i].authority
                && groups[g].key == merged(groups)[i].key,
{
    lemma_roots_are_groups(groups, i);
    let g = choose|g: int|
        0 <= g < groups.len() && place_view(#[trigger] groups[g]) == place_view(merged(groups)[i]);
    assert(groups[g].key == merged(groups)[i].key);
}

/// A sweep of one data path goes by the references of every data path that lies under
/// its place, and of no other.
pub proof fn lemma_paths_under(groups: Seq<PlaceGroup>, home: int, path: Seq<char>, n: nat)
    requires
        0 <= home < groups.len(),
        n <= groups.len(),
    ensures
        paths_under(groups, home, n).contains(path) <==> exists|g: int|
            0 <= g < n && g != home && lies_under(#[trigger] groups[g], groups[home])
                && groups[g].data_paths.contains(path),
    decreases n,
{
    if n > 0 {
        let m = (n - 1) as nat;
        lemma_paths_under(groups, home, path, m);
        let before = paths_under(groups, home, m);
        let last = groups[n - 1];
        if n - 1 != home && lies_under(last, groups[home]) {
            let all = before + last.data_paths;
            if before.contains(path) {
                let i = choose|i: int| 0 <= i < before.len() && before[i] == path;
                assert(all[i] == path);
            }
            if last.data_paths.contains(path) {
                let i = choose|i: int| 0 <= i < last.data_paths.len() && last.data_paths[i] == path;
                assert(all[before.len() + i] == path);
            }
            if all.contains(path) {
                let i = choose|i: int| 0 <= i < all.len() && all[i] == path;
                if i < before.len() {
                    assert(before[i] == path);
                } else {
                    assert(last.data_paths[i - before.len()] == path);
                    assert(groups[n - 1].data_paths.contains(path));
                }
            }
        }
    }
}

/// Data paths are in one store if they all are in that of the first.
pub proof fn lemma_one_store(paths: Seq<DataPath>)
    requires
        paths.len() > 0,
    ensures
        in_one_store(paths) <==> forall|k: int|
            0 <= k < paths.len() ==> (#[trigger] paths[k]).authority@ == paths[0].authority@,
{
    if in_one_store(paths) {
        assert forall|k: int| 0 <= k < paths.len() implies (#[trigger] paths[k]).authority@
            == paths[0].authority@ by {
        }
    }
}

/// A data path belongs to the first group that has it, and to one alone.
pub proof fn lemma_home_of_path(groups: Seq<PlaceGroup>, data_path: Seq<char>, i: int, j: int)
    requires
        is_home_of(groups, data_path, i),
    ensures
        0 <= i < groups.len(),
        exists|k: int|
            0 <= k < groups[i].data_paths.len() && #[trigger] groups[i].data_paths[k] == data_path,
        0 <= j < i ==> forall|k: int|
            0 <= k < groups[j].data_paths.len() ==> #[trigger] groups[j].data_paths[k] != data_path,
        is_home_of(groups, data_path, j) ==> i == j,
{
    let paths = groups[i].data_paths;
    let k = choose|k: int| 0 <= k < paths.len() && paths[k] == data_path;
    assert(groups[i].data_paths[k] == data_path);
    if 0 <= j < i {
        assert(!groups[j].data_paths.contains(data_path));
    }
}

} // verus!
