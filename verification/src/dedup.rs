//! Choosing one entry for each device.
//!
//! Bind mounts, overlapping mounts and re-mounts make the mount table name
//! one device several times. The entries are taken in table order. An entry
//! that the options exclude is dropped. An entry on a device not met before
//! is appended. An entry on a device already met competes with the entry
//! kept for that device, and the winner takes that entry's place.

use crate::mountinfo::{records_view, MountInfo, MountRecord};
use crate::options::{contains_name, lemma_name_set_empty, Options, OptionsView};
use crate::text::{byte_len, contains_char, spec_byte_len};
use std::collections::HashMap;
use vstd::prelude::*;

verus! {

/// Whether the options exclude an entry before any comparison: it is
/// remote and only local file systems are wanted; or it is a pseudo file
/// system, not all file systems are wanted and its type is not listed; or
/// types are listed and its type is not among them; or its type is
/// excluded.
pub open spec fn spec_is_excluded(record: MountRecord, options: OptionsView) -> bool {
    ||| record.is_remote() && options.show_local_fs
    ||| record.is_dummy() && !options.show_all_fs && !options.listed_fs.contains(record.fs_type)
    ||| options.listed_fs != Set::<Seq<char>>::empty() && !options.listed_fs.contains(
        record.fs_type,
    )
    ||| options.excluded_fs.contains(record.fs_type)
}

/// Two remote entries with one source, while no grand total is asked for.
pub open spec fn same_remote_source(
    seen: MountRecord,
    me: MountRecord,
    options: OptionsView,
) -> bool {
    &&& !options.print_grand_total
    &&& me.is_remote()
    &&& seen.is_remote()
    &&& seen.mount_source == me.mount_source
}

/// Whether the root of `seen` is a shorter text than that of `me`, both
/// being given.
pub open spec fn source_below_root(seen: MountRecord, me: MountRecord) -> bool {
    &&& seen.root.len() > 0
    &&& me.root.len() > 0
    &&& spec_byte_len(seen.root) < spec_byte_len(me.root)
}

/// Whether the entry kept so far is preferred to a later one on the same
/// device: the later one has a `/` in its source and the kept one has not;
/// or the kept one is mounted at a shorter path and its root is not the
/// shorter of the two; or both are mounted at one point from different
/// sources. Lengths are counted in bytes.
pub open spec fn prefers_seen(seen: MountRecord, me: MountRecord) -> bool {
    ||| me.mount_source.contains('/') && !seen.mount_source.contains('/')
    ||| spec_byte_len(seen.mount_point) < spec_byte_len(me.mount_point) && !source_below_root(
        seen,
        me,
    )
    ||| seen.mount_source != me.mount_source && seen.mount_point == me.mount_point
}

/// Whether `seen` stays when `me` arrives on the same device.
pub open spec fn spec_keeps_seen(seen: MountRecord, me: MountRecord, options: OptionsView) -> bool {
    same_remote_source(seen, me, options) || prefers_seen(seen, me)
}

/// Of an entry kept so far and a later one on the same device, the one that
/// stands for the device.
pub open spec fn canonical(seen: MountRecord, me: MountRecord, options: OptionsView) -> MountRecord {
    if spec_keeps_seen(seen, me, options) {
        seen
    } else {
        me
    }
}

/// The first place in `kept` that holds an entry on device `dev`.
pub open spec fn slot_of(kept: Seq<MountRecord>, dev: u64) -> Option<int>
    decreases kept.len(),
{
    if kept.len() == 0 {
        None
    } else {
        match slot_of(kept.drop_last(), dev) {
            Some(slot) => Some(slot),
            None => if kept.last().dev() == dev {
                Some(kept.len() - 1)
            } else {
                None
            },
        }
    }
}

/// What is kept after the entry `me` has been looked at.
pub open spec fn dedup_step(kept: Seq<MountRecord>, me: MountRecord, options: OptionsView) -> Seq<
    MountRecord,
> {
    if spec_is_excluded(me, options) {
        kept
    } else {
        match slot_of(kept, me.dev()) {
            None => kept.push(me),
            Some(slot) => kept.update(slot, canonical(kept[slot], me, options)),
        }
    }
}

/// The entries that stand for the devices of a mount table, in the order
/// in which the devices first occur.
pub open spec fn spec_filter_mountinfo_list(
    records: Seq<MountRecord>,
    options: OptionsView,
) -> Seq<MountRecord>
    decreases records.len(),
{
    if records.len() == 0 {
        Seq::empty()
    } else {
        dedup_step(
            spec_filter_mountinfo_list(records.drop_last(), options),
            records.last(),
            options,
        )
    }
}

/// No two entries lie on one device.
pub open spec fn one_per_device(kept: Seq<MountRecord>) -> bool {
    forall|i: int, j: int|
        0 <= i < j < kept.len() ==> (#[trigger] kept[i]).dev() != (#[trigger] kept[j]).dev()
}

/// Every entry of `kept` is an entry of `records` that the options do not
/// exclude.
pub open spec fn drawn_from(
    kept: Seq<MountRecord>,
    records: Seq<MountRecord>,
    options: OptionsView,
) -> bool {
    forall|i: int|
        0 <= i < kept.len() ==> records.contains(#[trigger] kept[i]) && !spec_is_excluded(
            kept[i],
            options,
        )
}

/// Every entry of `records` that the options do not exclude has its device
/// in `kept`.
pub open spec fn covers(
    kept: Seq<MountRecord>,
    records: Seq<MountRecord>,
    options: OptionsView,
) -> bool {
    forall|j: int|
        0 <= j < records.len() && !spec_is_excluded(#[trigger] records[j], options) ==> slot_of(
            kept,
            records[j].dev(),
        ) is Some
}

/// The devices of the entries, place by place.
pub open spec fn devices(kept: Seq<MountRecord>) -> Seq<u64> {
    Seq::new(kept.len(), |i: int| kept[i].dev())
}

/// What a slot is: the first place with the device, if any place has it.
pub proof fn lemma_slot_of(kept: Seq<MountRecord>, dev: u64)
    ensures
        match slot_of(kept, dev) {
            Some(slot) => {
                &&& 0 <= slot < kept.len()
                &&& kept[slot].dev() == dev
                &&& forall|j: int| 0 <= j < slot ==> (#[trigger] kept[j]).dev() != dev
            },
            None => forall|j: int| 0 <= j < kept.len() ==> (#[trigger] kept[j]).dev() != dev,
        },
    decreases kept.len(),
{
    if kept.len() > 0 {
        let front = kept.drop_last();
        lemma_slot_of(front, dev);
        assert forall|j: int| 0 <= j < front.len() implies front[j] == kept[j] by {}
        match slot_of(front, dev) {
            Some(slot) => {
                assert(kept[slot] == front[slot]);
                assert forall|j: int| 0 <= j < slot implies (#[trigger] kept[j]).dev() != dev by {
                    assert(kept[j] == front[j]);
                }
            },
            None => {
                assert forall|j: int| 0 <= j < front.len() implies (#[trigger] kept[j]).dev()
                    != dev by {
                    assert(kept[j] == front[j]);
                }
            },
        }
    }
}

/// The slots depend on the devices alone.
pub proof fn lemma_slot_of_devices(a: Seq<MountRecord>, b: Seq<MountRecord>, dev: u64)
    requires
        devices(a) == devices(b),
    ensures
        slot_of(a, dev) == slot_of(b, dev),
    decreases a.len(),
{
    assert(a.len() == devices(a).len());
    assert(b.len() == devices(b).len());
    if a.len() > 0 {
        assert(devices(a.drop_last()) =~= devices(a).drop_last());
        assert(devices(b.drop_last()) =~= devices(b).drop_last());
        lemma_slot_of_devices(a.drop_last(), b.drop_last(), dev);
        assert(a.last().dev() == devices(a)[a.len() - 1]);
        assert(b.last().dev() == devices(b)[b.len() - 1]);
    }
}

/// One step keeps the devices met so far in their places and appends at
/// most one.
pub proof fn lemma_step_devices(kept: Seq<MountRecord>, me: MountRecord, options: OptionsView)
    ensures
        devices(dedup_step(kept, me, options)) == devices(kept) || devices(
            dedup_step(kept, me, options),
        ) == devices(kept).push(me.dev()),
        devices(dedup_step(kept, me, options)) != devices(kept) ==> !spec_is_excluded(me, options)
            && slot_of(kept, me.dev()) is None && dedup_step(kept, me, options) == kept.push(me),
{
    lemma_slot_of(kept, me.dev());
    let after = dedup_step(kept, me, options);
    if spec_is_excluded(me, options) {
    } else {
        match slot_of(kept, me.dev()) {
            None => {
                assert(devices(after) =~= devices(kept).push(me.dev()));
            },
            Some(slot) => {
                assert(devices(after) =~= devices(kept));
            },
        }
    }
}

/// One step keeps what the three properties of the result say.
proof fn lemma_step_properties(
    kept: Seq<MountRecord>,
    records: Seq<MountRecord>,
    me: MountRecord,
    options: OptionsView,
)
    requires
        one_per_device(kept),
        drawn_from(kept, records, options),
        covers(kept, records, options),
    ensures
        one_per_device(dedup_step(kept, me, options)),
        drawn_from(dedup_step(kept, me, options), records.push(me), options),
        covers(dedup_step(kept, me, options), records.push(me), options),
{
    let after = dedup_step(kept, me, options);
    let all = records.push(me);
    lemma_slot_of(kept, me.dev());
    lemma_step_devices(kept, me, options);
    assert forall|i: int| 0 <= i < kept.len() implies all.contains(#[trigger] kept[i]) by {
        let j = choose|j: int| 0 <= j < records.len() && records[j] == kept[i];
        assert(all[j] == kept[i]);
    }
    assert(all.contains(me)) by {
        assert(all[records.len() as int] == me);
    }
    assert(one_per_device(after)) by {
        assert forall|i: int, j: int| 0 <= i < j < after.len() implies (#[trigger] after[i]).dev()
            != (#[trigger] after[j]).dev() by {
            assert(after[i].dev() == devices(after)[i]);
            assert(after[j].dev() == devices(after)[j]);
            if j < kept.len() {
                assert(kept[i].dev() == devices(kept)[i]);
                assert(kept[j].dev() == devices(kept)[j]);
            } else {
                assert(kept[i].dev() == devices(kept)[i]);
            }
        }
    }
    assert(drawn_from(after, all, options)) by {
        assert forall|i: int| 0 <= i < after.len() implies all.contains(#[trigger] after[i])
            && !spec_is_excluded(after[i], options) by {
            if spec_is_excluded(me, options) {
            } else {
                match slot_of(kept, me.dev()) {
                    None => {
                        if i < kept.len() {
                            assert(after[i] == kept[i]);
                        }
                    },
                    Some(slot) => {
                        if i != slot {
                            assert(after[i] == kept[i]);
                        } else {
                            assert(after[i] == kept[i] || after[i] == me);
                        }
                    },
                }
            }
        }
    }
    assert(covers(after, all, options)) by {
        assert forall|j: int|
            0 <= j < all.len() && !spec_is_excluded(#[trigger] all[j], options) implies slot_of(
            after,
            all[j].dev(),
        ) is Some by {
            let dev = all[j].dev();
            lemma_slot_of(after, dev);
            if j < records.len() {
                assert(all[j] == records[j]);
                lemma_slot_of(kept, dev);
                let slot = slot_of(kept, dev)->Some_0;
                assert(devices(kept)[slot] == dev);
                assert(devices(after)[slot] == dev);
                assert(after[slot].dev() == dev);
            } else {
                match slot_of(kept, dev) {
                    None => {
                        assert(after[kept.len() as int].dev() == dev);
                    },
                    Some(slot) => {
                        assert(devices(kept)[slot] == dev);
                        assert(devices(after)[slot] == dev);
                        assert(after[slot].dev() == dev);
                    },
                }
            }
        }
    }
}

/// The result holds at most one entry for each device; each of its entries
/// is an entry of the table that the options do not exclude; and every
/// device of such an entry is present in it.
pub proof fn lemma_filter_properties(records: Seq<MountRecord>, options: OptionsView)
    ensures
        one_per_device(spec_filter_mountinfo_list(records, options)),
        drawn_from(spec_filter_mountinfo_list(records, options), records, options),
        covers(spec_filter_mountinfo_list(records, options), records, options),
        spec_filter_mountinfo_list(records, options).len() <= records.len(),
    decreases records.len(),
{
    if records.len() > 0 {
        let front = records.drop_last();
        lemma_filter_properties(front, options);
        lemma_step_properties(
            spec_filter_mountinfo_list(front, options),
            front,
            records.last(),
            options,
        );
        assert(front.push(records.last()) =~= records);
        lemma_step_devices(spec_filter_mountinfo_list(front, options), records.last(), options);
        assert(devices(spec_filter_mountinfo_list(records, options)).len()
            == spec_filter_mountinfo_list(records, options).len());
        assert(devices(spec_filter_mountinfo_list(front, options)).len()
            == spec_filter_mountinfo_list(front, options).len());
    }
}

/// A device keeps the place that it got when it first occurred: the devices
/// kept for a beginning of the table are the first devices kept for the
/// whole table, in the same places.
pub proof fn lemma_filter_places(records: Seq<MountRecord>, options: OptionsView, k: int)
    requires
        0 <= k <= records.len(),
    ensures
        devices(spec_filter_mountinfo_list(records.take(k), options)).is_prefix_of(
            devices(spec_filter_mountinfo_list(records, options)),
        ),
    decreases records.len(),
{
    if k == records.len() {
        assert(records.take(k) =~= records);
    } else {
        let front = records.drop_last();
        assert(front.take(k) =~= records.take(k));
        lemma_filter_places(front, options, k);
        lemma_step_devices(spec_filter_mountinfo_list(front, options), records.last(), options);
    }
}

/// Of two entries on one device that the options do not exclude, one is
/// kept, in the first place of the result: the one that is canonical.
pub proof fn lemma_filter_pair(a: MountRecord, b: MountRecord, options: OptionsView)
    requires
        a.dev() == b.dev(),
        !spec_is_excluded(a, options),
        !spec_is_excluded(b, options),
    ensures
        spec_filter_mountinfo_list(seq![a, b], options) == seq![canonical(a, b, options)],
{
    let both = seq![a, b];
    let first = seq![a];
    assert(both.drop_last() =~= first);
    assert(first.drop_last() =~= Seq::<MountRecord>::empty());
    assert(spec_filter_mountinfo_list(first.drop_last(), options) =~= Seq::<MountRecord>::empty());
    assert(slot_of(Seq::<MountRecord>::empty(), a.dev()) is None);
    assert(spec_filter_mountinfo_list(first, options) =~= first);
    assert(slot_of(first, b.dev()) == Some(0int));
    assert(first.update(0, canonical(a, b, options)) =~= seq![canonical(a, b, options)]);
}

/// Two remote entries on one device and with one source, neither excluded
/// by the options, while no grand total is asked for: the first is kept
/// and the second is not, wherever the two are mounted.
pub proof fn lemma_same_remote_source_keeps_first(
    a: MountRecord,
    b: MountRecord,
    options: OptionsView,
)
    requires
        a.dev() == b.dev(),
        a.is_remote(),
        b.is_remote(),
        a.mount_source == b.mount_source,
        !options.print_grand_total,
        !spec_is_excluded(a, options),
        !spec_is_excluded(b, options),
    ensures
        spec_filter_mountinfo_list(seq![a, b], options) == seq![a],
{
    lemma_filter_pair(a, b, options);
}

/// Two entries on one device, neither excluded by the options, of which
/// the second has a `/` in its source and the first has not: the first is
/// kept and the second is not.
pub proof fn lemma_path_source_yields(a: MountRecord, b: MountRecord, options: OptionsView)
    requires
        a.dev() == b.dev(),
        b.mount_source.contains('/'),
        !a.mount_source.contains('/'),
        !spec_is_excluded(a, options),
        !spec_is_excluded(b, options),
    ensures
        spec_filter_mountinfo_list(seq![a, b], options) == seq![a],
{
    lemma_filter_pair(a, b, options);
}

/// Two entries on one device, of which the second has a `/` in its source
/// and the first has not, and of which the options exclude the first and
/// not the second: the second is kept, in the first place of the result.
pub proof fn lemma_path_source_alone(a: MountRecord, b: MountRecord, options: OptionsView)
    requires
        a.dev() == b.dev(),
        b.mount_source.contains('/'),
        !a.mount_source.contains('/'),
        spec_is_excluded(a, options),
        !spec_is_excluded(b, options),
    ensures
        spec_filter_mountinfo_list(seq![a, b], options) == seq![b],
{
    let both = seq![a, b];
    let first = seq![a];
    assert(both.drop_last() =~= first);
    assert(first.drop_last() =~= Seq::<MountRecord>::empty());
    assert(spec_filter_mountinfo_list(first.drop_last(), options) =~= Seq::<MountRecord>::empty());
    assert(spec_filter_mountinfo_list(first, options) =~= Seq::<MountRecord>::empty());
    assert(slot_of(Seq::<MountRecord>::empty(), b.dev()) is None);
    assert(Seq::<MountRecord>::empty().push(b) =~= seq![b]);
}

/// Whether the map `seen` gives, for each device, the slot of that device
/// in `kept`.
spec fn tracks(seen: Map<u64, usize>, kept: Seq<MountRecord>) -> bool {
    forall|dev: u64|
        #![trigger slot_of(kept, dev)]
        #![trigger seen.contains_key(dev)]
        slot_of(kept, dev) == if seen.contains_key(dev) {
            Some(seen[dev] as int)
        } else {
            None
        }
}

/// Whether the options exclude the entry before any comparison.
pub fn is_excluded(me: &MountInfo, options: &Options) -> (out: bool)
    ensures
        out == spec_is_excluded(me@, options@),
{
    proof {
        lemma_name_set_empty(options.listed_fs@);
    }
    let listed = contains_name(&options.listed_fs, me.fs_type.as_str());
    (me.is_remote() && options.show_local_fs) || (me.is_dummy() && !options.show_all_fs && !listed)
        || (options.listed_fs.len() != 0 && !listed) || contains_name(
        &options.excluded_fs,
        me.fs_type.as_str(),
    )
}

/// Whether `seen`, kept so far, stays when `me` arrives on the same device.
pub fn keeps_seen(seen: &MountInfo, me: &MountInfo, options: &Options) -> (stays: bool)
    ensures
        stays == spec_keeps_seen(seen@, me@, options@),
{
    let same_source = seen.mount_source == me.mount_source;
    if !options.print_grand_total && me.is_remote() && seen.is_remote() && same_source {
        return true;
    }
    let seen_nearer_root = byte_len(seen.mount_point.as_str()) < byte_len(
        me.mount_point.as_str(),
    );
    let below_root = !seen.root.as_str().is_empty() && !me.root.as_str().is_empty() && byte_len(
        seen.root.as_str(),
    ) < byte_len(me.root.as_str());
    (contains_char(me.mount_source.as_str(), '/') && !contains_char(
        seen.mount_source.as_str(),
        '/',
    )) || (seen_nearer_root && !below_root) || (!same_source && seen.mount_point
        == me.mount_point)
}

/// Drops the entries that the options exclude and keeps one entry for each
/// device, in the order in which the devices first occur in `list`.
///
/// The result holds at most one entry for each device. Each of its entries
/// is an entry of `list` that the options do not exclude, and every device
/// of such an entry of `list` has its entry in the result.
pub fn filter_mountinfo_list(list: Vec<MountInfo>, options: &Options) -> (filtered: Vec<MountInfo>)
    ensures
        records_view(filtered@) == spec_filter_mountinfo_list(records_view(list@), options@),
        one_per_device(records_view(filtered@)),
        drawn_from(records_view(filtered@), records_view(list@), options@),
        covers(records_view(filtered@), records_view(list@), options@),
        filtered@.len() <= list@.len(),
{
    let ghost records = records_view(list@);
    let mut filtered: Vec<MountInfo> = Vec::new();
    let mut seen: HashMap<u64, usize> = HashMap::new();
    proof {
        assert(records.take(0) =~= Seq::<MountRecord>::empty());
        assert(records_view(filtered@) =~= Seq::<MountRecord>::empty());
    }
    for me in it: list
        invariant
            records == records_view(it.seq()),
            records_view(filtered@) == spec_filter_mountinfo_list(
                records.take(it.index() as int),
                options@,
            ),
            tracks(seen@, records_view(filtered@)),
    {
        let ghost kept = records_view(filtered@);
        let ghost index = it.index() as int;
        proof {
            assert(records.take(index + 1) =~= records.take(index).push(me@));
            assert(records.take(index + 1).drop_last() =~= records.take(index));
            lemma_slot_of(kept, me@.dev());
        }
        if !is_excluded(&me, options) {
            let dev = me.dev();
            let slot: Option<usize> = match seen.get(&dev) {
                Some(at) => Some(*at),
                None => None,
            };
            match slot {
                None => {
                    let at = filtered.len();
                    filtered.push(me);
                    seen.insert(dev, at);
                    proof {
                        assert(records_view(filtered@) =~= kept.push(me@));
                        assert(records_view(filtered@).drop_last() =~= kept);
                        assert(tracks(seen@, records_view(filtered@)));
                    }
                },
                Some(at) => {
                    if !keeps_seen(&filtered[at], &me, options) {
                        let ghost replacement = me@;
                        filtered.set(at, me);
                        proof {
                            assert(records_view(filtered@) =~= kept.update(
                                at as int,
                                replacement,
                            ));
                            assert(devices(records_view(filtered@)) =~= devices(kept));
                            assert forall|d: u64|
                                slot_of(records_view(filtered@), d) == slot_of(kept, d) by {
                                lemma_slot_of_devices(records_view(filtered@), kept, d);
                            }
                        }
                    } else {
                        assert(kept.update(at as int, kept[at as int]) =~= kept);
                    }
                },
            }
        }
    }
    proof {
        assert(records.take(records.len() as int) =~= records);
        lemma_filter_properties(records, options@);
    }
    filtered
}

} // verus!
