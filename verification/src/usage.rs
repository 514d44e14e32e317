//! The figures reported for a mount: what is shown at all, and the bytes,
//! inodes and percentages computed from the statistics of its file system.
//!
//! The statistics themselves come from the operating system. The caller
//! asks for them, mount by mount, and hands in what came back.

use crate::dedup::{is_excluded, spec_is_excluded};
use crate::mountinfo::{records_view, MountInfo, MountRecord};
use crate::options::{lemma_name_set_empty, Options, OptionsView};
use vstd::prelude::*;

verus! {

/// The statistics of one file system.
#[derive(Debug, Clone, Copy, PartialEq, Eq, Structural)]
pub struct FsStats {
    /// The size of the file system in blocks.
    pub total_blocks: u64,
    /// The blocks free for use.
    pub free_blocks: u64,
    /// The size of a block in bytes.
    pub block_size: u64,
    /// The number of inodes.
    pub total_inodes: u64,
    /// The inodes free for use.
    pub free_inodes: u64,
}

impl FsStats {
    /// Whether usage can be computed from the statistics: no more is free
    /// than there is, and the size in bytes fits in 64 bits.
    pub open spec fn spec_is_consistent(self) -> bool {
        &&& self.free_blocks <= self.total_blocks
        &&& self.free_inodes <= self.total_inodes
        &&& self.total_blocks * self.block_size <= u64::MAX
    }

    /// Whether usage can be computed from the statistics.
    pub fn is_consistent(&self) -> (ok: bool)
        ensures
            ok == self.spec_is_consistent(),
    {
        let blocks = self.total_blocks as u128;
        let size = self.block_size as u128;
        assert(blocks * size <= 0xffff_ffff_ffff_ffff * 0xffff_ffff_ffff_ffff) by (nonlinear_arith)
            requires
                blocks <= 0xffff_ffff_ffff_ffff,
                size <= 0xffff_ffff_ffff_ffff,
        ;
        self.free_blocks <= self.total_blocks && self.free_inodes <= self.total_inodes && blocks
            * size <= u64::MAX as u128
    }
}

/// A percentage as an exact fraction: `numerator / denominator` percent.
/// The denominator is never zero.
#[derive(Debug, Clone, Copy, PartialEq, Eq, Structural)]
pub struct Percent {
    pub numerator: u128,
    pub denominator: u64,
}

/// The share of `used` in `total` in percent: nought of nothing is nought
/// percent, and otherwise it is `100 * used / total`.
pub open spec fn spec_percent(used: u64, total: u64) -> Percent {
    if total == 0 {
        Percent { numerator: 0, denominator: 1 }
    } else {
        Percent { numerator: (100 * used) as u128, denominator: total }
    }
}

/// The share of `used` in `total` in percent.
pub fn percent(used: u64, total: u64) -> (p: Percent)
    ensures
        p == spec_percent(used, total),
        p.denominator > 0,
{
    if total == 0 {
        Percent { numerator: 0, denominator: 1 }
    } else {
        Percent { numerator: 100 * (used as u128), denominator: total }
    }
}

/// The mathematical value of a [`UsageRow`].
pub struct UsageRowView {
    pub filesystem: Seq<char>,
    pub fs_type: Seq<char>,
    pub mount_point: Seq<char>,
    pub total_inodes: u64,
    pub used_inodes: u64,
    pub free_inodes: u64,
    pub inode_percent: Percent,
    pub total_bytes: u64,
    pub used_bytes: u64,
    pub available_bytes: u64,
    pub byte_percent: Percent,
}

/// One row of the report.
#[derive(Debug, Clone, PartialEq, Eq)]
pub struct UsageRow {
    /// The source that the file system is mounted from.
    pub filesystem: String,
    pub fs_type: String,
    pub mount_point: String,
    pub total_inodes: u64,
    pub used_inodes: u64,
    pub free_inodes: u64,
    pub inode_percent: Percent,
    pub total_bytes: u64,
    pub used_bytes: u64,
    pub available_bytes: u64,
    pub byte_percent: Percent,
}

impl View for UsageRow {
    type V = UsageRowView;

    open spec fn view(&self) -> UsageRowView {
        UsageRowView {
            filesystem: self.filesystem@,
            fs_type: self.fs_type@,
            mount_point: self.mount_point@,
            total_inodes: self.total_inodes,
            used_inodes: self.used_inodes,
            free_inodes: self.free_inodes,
            inode_percent: self.inode_percent,
            total_bytes: self.total_bytes,
            used_bytes: self.used_bytes,
            available_bytes: self.available_bytes,
            byte_percent: self.byte_percent,
        }
    }
}

/// The views of a sequence of rows.
pub open spec fn rows_view(rows: Seq<UsageRow>) -> Seq<UsageRowView> {
    Seq::new(rows.len(), |i: int| rows[i]@)
}

/// The row of an entry whose file system has the statistics `stats`.
///
/// What is used is what is not free: `used_inodes = total_inodes -
/// free_inodes` and `used_bytes = total_blocks * block_size - free_blocks *
/// block_size`.
pub open spec fn spec_usage_row(record: MountRecord, stats: FsStats) -> UsageRowView
    recommends
        stats.spec_is_consistent(),
{
    let total_bytes = stats.total_blocks * stats.block_size;
    let available_bytes = stats.free_blocks * stats.block_size;
    let used_bytes = total_bytes - available_bytes;
    let used_inodes = stats.total_inodes - stats.free_inodes;
    UsageRowView {
        filesystem: record.mount_source,
        fs_type: record.fs_type,
        mount_point: record.mount_point,
        total_inodes: stats.total_inodes,
        used_inodes: used_inodes as u64,
        free_inodes: stats.free_inodes,
        inode_percent: spec_percent(used_inodes as u64, stats.total_inodes),
        total_bytes: total_bytes as u64,
        used_bytes: used_bytes as u64,
        available_bytes: available_bytes as u64,
        byte_percent: spec_percent(used_bytes as u64, total_bytes as u64),
    }
}

/// Whether an entry is left out of the report whatever its statistics
/// are: it is remote and only local file systems are wanted; or it is a
/// pseudo file system while not all file systems are wanted and no types
/// are listed; or types are listed and its type is not among them; or its
/// type is excluded.
pub open spec fn spec_is_hidden(record: MountRecord, options: OptionsView) -> bool {
    ||| record.is_remote() && options.show_local_fs
    ||| record.is_dummy() && !options.show_all_fs && options.listed_fs == Set::<
        Seq<char>,
    >::empty()
    ||| options.listed_fs != Set::<Seq<char>>::empty() && !options.listed_fs.contains(
        record.fs_type,
    )
    ||| options.excluded_fs.contains(record.fs_type)
}

/// Whether statistics describe a file system without capacity that the
/// options do not ask for.
pub open spec fn is_placeholder(stats: FsStats, options: OptionsView) -> bool {
    &&& stats.total_blocks == 0
    &&& !options.show_all_fs
    &&& options.listed_fs == Set::<Seq<char>>::empty()
}

/// The statistics that an entry is reported with, if it is reported:
/// `queried` is what the query for its mount point gave, `None` if it
/// failed. Nothing is reported for a hidden entry, after a failed query,
/// for inconsistent statistics, or for a placeholder.
pub open spec fn spec_get_dev(
    record: MountRecord,
    options: OptionsView,
    queried: Option<FsStats>,
) -> Option<FsStats> {
    match queried {
        Some(stats) => if spec_is_hidden(record, options) || !stats.spec_is_consistent() || is_placeholder(
            stats,
            options,
        ) {
            None
        } else {
            Some(stats)
        },
        None => None,
    }
}

/// The outcome of the query for the entry at `i`: a query that was not made
/// counts as failed.
pub open spec fn stats_at(stats: Seq<Option<FsStats>>, i: int) -> Option<FsStats> {
    if 0 <= i < stats.len() {
        stats[i]
    } else {
        None
    }
}

/// The row of the entry at `i` as a sequence: empty if the entry is not
/// reported.
pub open spec fn spec_entry(
    records: Seq<MountRecord>,
    options: OptionsView,
    stats: Seq<Option<FsStats>>,
    i: int,
) -> Seq<UsageRowView> {
    match spec_get_dev(records[i], options, stats_at(stats, i)) {
        Some(found) => seq![spec_usage_row(records[i], found)],
        None => Seq::empty(),
    }
}

/// The rows of the entries from `from` up to, not including, `to`, in
/// order.
pub open spec fn spec_entries_between(
    records: Seq<MountRecord>,
    options: OptionsView,
    stats: Seq<Option<FsStats>>,
    from: int,
    to: int,
) -> Seq<UsageRowView>
    decreases to - from,
{
    if from >= to {
        Seq::empty()
    } else {
        spec_entries_between(records, options, stats, from, to - 1) + spec_entry(
            records,
            options,
            stats,
            to - 1,
        )
    }
}

/// The report: the rows of all entries that are reported, in the order of
/// the entries.
pub open spec fn spec_get_all_entries(
    records: Seq<MountRecord>,
    options: OptionsView,
    stats: Seq<Option<FsStats>>,
) -> Seq<UsageRowView> {
    spec_entries_between(records, options, stats, 0, records.len() as int)
}

/// What is hidden from the report is what deduplication excludes: the two
/// rules, worded differently, decide alike.
pub proof fn lemma_hidden_is_excluded(record: MountRecord, options: OptionsView)
    ensures
        spec_is_hidden(record, options) == spec_is_excluded(record, options),
{
    if options.listed_fs == Set::<Seq<char>>::empty() {
        assert(!options.listed_fs.contains(record.fs_type));
    }
}

/// The rows of a range are those of its two parts, one after the other.
pub proof fn lemma_entries_split(
    records: Seq<MountRecord>,
    options: OptionsView,
    stats: Seq<Option<FsStats>>,
    from: int,
    mid: int,
    to: int,
)
    requires
        from <= mid <= to,
    ensures
        spec_entries_between(records, options, stats, from, to) == spec_entries_between(
            records,
            options,
            stats,
            from,
            mid,
        ) + spec_entries_between(records, options, stats, mid, to),
    decreases to - mid,
{
    let left = spec_entries_between(records, options, stats, from, mid);
    if mid == to {
        assert(left + Seq::<UsageRowView>::empty() =~= left);
    } else {
        lemma_entries_split(records, options, stats, from, mid, to - 1);
        let last = spec_entry(records, options, stats, to - 1);
        assert((left + spec_entries_between(records, options, stats, mid, to - 1)) + last =~= left
            + (spec_entries_between(records, options, stats, mid, to - 1) + last));
    }
}

/// The rows of a range depend only on the outcomes of the queries for the
/// entries of that range.
pub proof fn lemma_entries_local(
    records: Seq<MountRecord>,
    options: OptionsView,
    a: Seq<Option<FsStats>>,
    b: Seq<Option<FsStats>>,
    from: int,
    to: int,
)
    requires
        forall|i: int| from <= i < to ==> stats_at(a, i) == stats_at(b, i),
    ensures
        spec_entries_between(records, options, a, from, to) == spec_entries_between(
            records,
            options,
            b,
            from,
            to,
        ),
    decreases to - from,
{
    if from < to {
        lemma_entries_local(records, options, a, b, from, to - 1);
    }
}

/// A query that fails takes the row of its entry out of the report and
/// changes nothing else: with the outcome for the entry at `i` replaced by
/// a failure, the report is what it was without the row of that entry, the
/// other rows as they were and in their order.
pub proof fn lemma_query_failure(
    records: Seq<MountRecord>,
    options: OptionsView,
    stats: Seq<Option<FsStats>>,
    i: int,
)
    requires
        0 <= i < records.len(),
        i < stats.len(),
    ensures
        spec_get_all_entries(records, options, stats) == spec_entries_between(
            records,
            options,
            stats,
            0,
            i,
        ) + spec_entry(records, options, stats, i) + spec_entries_between(
            records,
            options,
            stats,
            i + 1,
            records.len() as int,
        ),
        spec_get_all_entries(records, options, stats.update(i, None)) == spec_entries_between(
            records,
            options,
            stats,
            0,
            i,
        ) + spec_entries_between(records, options, stats, i + 1, records.len() as int),
{
    let n = records.len() as int;
    let failed = stats.update(i, None);
    lemma_entries_split(records, options, stats, 0, i, n);
    lemma_entries_split(records, options, stats, i, i + 1, n);
    lemma_entries_split(records, options, failed, 0, i, n);
    lemma_entries_split(records, options, failed, i, i + 1, n);
    lemma_entries_local(records, options, stats, failed, 0, i);
    lemma_entries_local(records, options, stats, failed, i + 1, n);
    let before = spec_entries_between(records, options, stats, 0, i);
    let after = spec_entries_between(records, options, stats, i + 1, n);
    let row = spec_entry(records, options, stats, i);
    assert(spec_entries_between(records, options, stats, i, i) =~= Seq::<UsageRowView>::empty());
    assert(spec_entries_between(records, options, stats, i, i + 1) =~= row);
    assert(spec_entries_between(records, options, failed, i, i) =~= Seq::<UsageRowView>::empty());
    assert(spec_entries_between(records, options, failed, i, i + 1) =~= Seq::<
        UsageRowView,
    >::empty());
    assert(before + (row + after) =~= before + row + after);
    assert(before + (Seq::<UsageRowView>::empty() + after) =~= before + after);
}

/// Whether an entry is left out of the report whatever its statistics are.
/// The caller need not query the statistics of such an entry.
pub fn is_hidden(mount: &MountInfo, options: &Options) -> (out: bool)
    ensures
        out == spec_is_hidden(mount@, options@),
{
    proof {
        lemma_hidden_is_excluded(mount@, options@);
    }
    is_excluded(mount, options)
}

/// The row of a mount whose file system has the statistics `stats`, if the
/// statistics are consistent; nothing if they are not.
pub fn usage_row(mount: &MountInfo, stats: &FsStats) -> (row: Option<UsageRow>)
    ensures
        row is Some <==> stats.spec_is_consistent(),
        row matches Some(r) ==> {
            &&& r@ == spec_usage_row(mount@, *stats)
            &&& r.used_inodes + r.free_inodes == r.total_inodes
            &&& r.used_bytes + r.available_bytes == r.total_bytes
        },
{
    if stats.is_consistent() {
        Some(row_of(mount, stats))
    } else {
        None
    }
}

/// The row of a mount whose file system has the consistent statistics
/// `stats`.
fn row_of(mount: &MountInfo, stats: &FsStats) -> (row: UsageRow)
    requires
        stats.spec_is_consistent(),
    ensures
        row@ == spec_usage_row(mount@, *stats),
        row.used_inodes + row.free_inodes == row.total_inodes,
        row.used_bytes + row.available_bytes == row.total_bytes,
{
    proof {
        assert(stats.free_blocks * stats.block_size <= stats.total_blocks * stats.block_size)
            by (nonlinear_arith)
            requires
                stats.free_blocks <= stats.total_blocks,
        ;
    }
    let total_bytes = stats.total_blocks * stats.block_size;
    let available_bytes = stats.free_blocks * stats.block_size;
    let used_bytes = total_bytes - available_bytes;
    let used_inodes = stats.total_inodes - stats.free_inodes;
    UsageRow {
        filesystem: mount.mount_source.clone(),
        fs_type: mount.fs_type.clone(),
        mount_point: mount.mount_point.clone(),
        total_inodes: stats.total_inodes,
        used_inodes,
        free_inodes: stats.free_inodes,
        inode_percent: percent(used_inodes, stats.total_inodes),
        total_bytes,
        used_bytes,
        available_bytes,
        byte_percent: percent(used_bytes, total_bytes),
    }
}

/// Decides whether a mount is reported, and with which statistics.
///
/// `queried` is the outcome of the query for the statistics of the mount
/// point, `None` if the query failed. The mount is reported exactly if it
/// is not hidden, the query succeeded, its statistics are consistent, and
/// they are not those of a placeholder that the options do not ask for.
pub fn get_dev(mount: &MountInfo, options: &Options, queried: Option<FsStats>) -> (found: Option<
    FsStats,
>)
    ensures
        found == spec_get_dev(mount@, options@, queried),
        found matches Some(stats) ==> queried == Some(stats) && stats.spec_is_consistent(),
{
    proof {
        lemma_name_set_empty(options.listed_fs@);
    }
    if is_hidden(mount, options) {
        return None;
    }
    match queried {
        None => None,
        Some(stats) => {
            if !stats.is_consistent() {
                return None;
            }
            if stats.total_blocks == 0 && !options.show_all_fs && options.listed_fs.len() == 0 {
                return None;
            }
            Some(stats)
        },
    }
}

/// The report for the mounts `mounts`: one row for each mount that is
/// reported, in the order of the mounts.
///
/// `stats[i]` is the outcome of the query for the mount at `i`, `None` if
/// the query failed or was not made.
pub fn get_all_entries(
    mounts: &Vec<MountInfo>,
    options: &Options,
    stats: &Vec<Option<FsStats>>,
) -> (rows: Vec<UsageRow>)
    ensures
        rows_view(rows@) == spec_get_all_entries(records_view(mounts@), options@, stats@),
        rows@.len() <= mounts@.len(),
{
    let ghost records = records_view(mounts@);
    let mut rows: Vec<UsageRow> = Vec::new();
    let mut i: usize = 0;
    while i < mounts.len()
        invariant
            i <= mounts.len(),
            records == records_view(mounts@),
            rows@.len() <= i,
            rows_view(rows@) =~= spec_entries_between(records, options@, stats@, 0, i as int),
        decreases mounts.len() - i,
    {
        let queried = if i < stats.len() {
            stats[i]
        } else {
            None
        };
        let ghost before = rows_view(rows@);
        match get_dev(&mounts[i], options, queried) {
            Some(found) => {
                rows.push(row_of(&mounts[i], &found));
                proof {
                    assert(rows_view(rows@) =~= before + seq![
                        spec_usage_row(records[i as int], found),
                    ]);
                }
            },
            None => {
                proof {
                    assert(before + Seq::<UsageRowView>::empty() =~= before);
                }
            },
        }
        i = i + 1;
    }
    rows
}

/// What one cell of the report holds, and of what kind it is.
#[derive(Debug, Clone, PartialEq, Eq)]
pub enum Cell {
    /// A text.
    Text(String),
    /// The path of a file.
    Path(String),
    /// A number of things.
    Count(u64),
    /// A size in bytes.
    Size(u64),
    /// A percentage.
    Share(Percent),
}

/// The mathematical value of a [`Cell`].
pub enum CellView {
    Text(Seq<char>),
    Path(Seq<char>),
    Count(u64),
    Size(u64),
    Share(Percent),
}

impl View for Cell {
    type V = CellView;

    open spec fn view(&self) -> CellView {
        match self {
            Cell::Text(text) => CellView::Text(text@),
            Cell::Path(path) => CellView::Path(path@),
            Cell::Count(count) => CellView::Count(*count),
            Cell::Size(size) => CellView::Size(*size),
            Cell::Share(share) => CellView::Share(*share),
        }
    }
}

/// The views of a sequence of named cells.
pub open spec fn columns_view(columns: Seq<(&'static str, Cell)>) -> Seq<(Seq<char>, CellView)> {
    Seq::new(columns.len(), |i: int| (columns[i].0@, columns[i].1@))
}

/// The columns of the report, in the order in which they are shown, with
/// what a row holds in each.
pub open spec fn spec_columns(row: UsageRowView) -> Seq<(Seq<char>, CellView)> {
    seq![
        ("Filesystem"@, CellView::Text(row.filesystem)),
        ("Type"@, CellView::Text(row.fs_type)),
        ("Inodes"@, CellView::Count(row.total_inodes)),
        ("IUsed"@, CellView::Count(row.used_inodes)),
        ("IFree"@, CellView::Count(row.free_inodes)),
        ("IUse%"@, CellView::Share(row.inode_percent)),
        ("Total"@, CellView::Size(row.total_bytes)),
        ("Used"@, CellView::Size(row.used_bytes)),
        ("Avail"@, CellView::Size(row.available_bytes)),
        ("Use%"@, CellView::Share(row.byte_percent)),
        ("mount-point"@, CellView::Path(row.mount_point)),
    ]
}

/// The cells of a row under the names of their columns, in the order in
/// which the columns are shown.
pub fn columns(row: &UsageRow) -> (cells: Vec<(&'static str, Cell)>)
    ensures
        columns_view(cells@) == spec_columns(row@),
{
    let mut cells: Vec<(&'static str, Cell)> = Vec::new();
    cells.push(("Filesystem", Cell::Text(row.filesystem.clone())));
    cells.push(("Type", Cell::Text(row.fs_type.clone())));
    cells.push(("Inodes", Cell::Count(row.total_inodes)));
    cells.push(("IUsed", Cell::Count(row.used_inodes)));
    cells.push(("IFree", Cell::Count(row.free_inodes)));
    cells.push(("IUse%", Cell::Share(row.inode_percent)));
    cells.push(("Total", Cell::Size(row.total_bytes)));
    cells.push(("Used", Cell::Size(row.used_bytes)));
    cells.push(("Avail", Cell::Size(row.available_bytes)));
    cells.push(("Use%", Cell::Share(row.byte_percent)));
    cells.push(("mount-point", Cell::Path(row.mount_point.clone())));
    assert(columns_view(cells@) =~= spec_columns(row@));
    cells
}

} // verus!
