//! One entry of the kernel's mount table: its model, its classification as
//! remote or pseudo file system, and the grammar of the line that it is
//! written as.
//!
//! A line has the shape
//!
//! ```text
//! ID PARENT_ID MAJOR:MINOR ROOT MOUNT_POINT OPTIONS [OPT_FIELD...] - FS_TYPE SOURCE SUPER_OPTIONS
//! ```
//!
//! with single spaces between the fields.

use crate::number::{parse_u32, spec_parse_u32};
use crate::text::{
    contains_char, is_blank, lemma_join_split, lemma_split_within, pieces_free_of, spec_is_blank,
    spec_join, spec_split, split, starts_with, str_eq, str_views, string_views,
};
use vstd::prelude::*;

verus! {

/// The mathematical value of a [`MountInfo`].
pub struct MountRecord {
    pub mount_id: u32,
    pub parent_mount_id: u32,
    pub major_dev: u32,
    pub minor_dev: u32,
    pub root: Seq<char>,
    pub mount_point: Seq<char>,
    pub mount_options: Seq<Seq<char>>,
    pub optional_fields: Option<Seq<Seq<char>>>,
    pub fs_type: Seq<char>,
    pub mount_source: Seq<char>,
    pub super_options: Seq<Seq<char>>,
}

/// One entry of the mount table.
#[derive(Debug, Clone, PartialEq, Eq)]
pub struct MountInfo {
    pub mount_id: u32,
    pub parent_mount_id: u32,
    pub major_dev: u32,
    pub minor_dev: u32,
    pub root: String,
    pub mount_point: String,
    pub mount_options: Vec<String>,
    pub optional_fields: Option<Vec<String>>,
    pub fs_type: String,
    pub mount_source: String,
    pub super_options: Vec<String>,
}

impl View for MountInfo {
    type V = MountRecord;

    open spec fn view(&self) -> MountRecord {
        MountRecord {
            mount_id: self.mount_id,
            parent_mount_id: self.parent_mount_id,
            major_dev: self.major_dev,
            minor_dev: self.minor_dev,
            root: self.root@,
            mount_point: self.mount_point@,
            mount_options: string_views(self.mount_options@),
            optional_fields: match self.optional_fields {
                Some(fields) => Some(string_views(fields@)),
                None => None,
            },
            fs_type: self.fs_type@,
            mount_source: self.mount_source@,
            super_options: string_views(self.super_options@),
        }
    }
}

/// The file system types that are served over SMB.
pub open spec fn smb_fs_types() -> Seq<Seq<char>> {
    seq!["smbfs"@, "smb3"@, "cifs"@]
}

/// The file system types that are remote whatever their source is.
pub open spec fn network_fs_types() -> Seq<Seq<char>> {
    seq!["afs"@, "auristorfs"@]
}

/// The file system types that have no storage behind them.
pub open spec fn dummy_fs_types() -> Seq<Seq<char>> {
    seq![
        "autofs"@,
        "proc"@,
        "subfs"@,
        "debugfs"@,
        "devpts"@,
        "fusectl"@,
        "mqueue"@,
        "rpc_pipefs"@,
        "sysfs"@,
        "devfs"@,
        "kernfs"@,
        "ignore"@,
        "none"@,
    ]
}

/// The key by which two entries are taken to lie on one device: the major
/// number shifted left by eight bits, or-ed with the minor number.
pub open spec fn spec_dev(major: u32, minor: u32) -> u64 {
    ((major as u64) << 8) | (minor as u64)
}

/// Whether a field ends the optional fields of a line: it is a lone `-`.
pub open spec fn is_separator(field: Seq<char>) -> bool {
    field == "-"@
}

/// Text that can stand as one field of a line: it holds no space.
pub open spec fn is_field(text: Seq<char>) -> bool {
    !text.contains(' ')
}

/// An option list as a line can hold it: at least one option, and no
/// option with a space or a comma in it.
pub open spec fn is_option_list(options: Seq<Seq<char>>) -> bool {
    &&& options.len() >= 1
    &&& pieces_free_of(options, ' ')
    &&& pieces_free_of(options, ',')
}

/// Optional fields as a line can hold them: at least one, none with a
/// space in it, and none a lone `-`.
pub open spec fn are_optional_fields(fields: Seq<Seq<char>>) -> bool {
    &&& fields.len() >= 1
    &&& pieces_free_of(fields, ' ')
    &&& forall|i: int| 0 <= i < fields.len() ==> !is_separator(#[trigger] fields[i])
}

impl MountRecord {
    /// Whether a line of the mount table can denote this entry. The
    /// entries that parsing yields are exactly these.
    pub open spec fn well_formed(self) -> bool {
        &&& is_field(self.root)
        &&& is_field(self.mount_point)
        &&& is_field(self.fs_type)
        &&& is_field(self.mount_source)
        &&& is_option_list(self.mount_options)
        &&& is_option_list(self.super_options)
        &&& self.optional_fields matches Some(fields) ==> are_optional_fields(fields)
    }

    /// The device key of this entry.
    pub open spec fn dev(self) -> u64 {
        spec_dev(self.major_dev, self.minor_dev)
    }

    /// Whether the entry is a network file system: its source names a host
    /// (it holds a `:`), or it is an SMB share (the source begins with `//`
    /// and the type is an SMB type), or its type is always remote, or its
    /// source is the automounter's `-hosts` map.
    pub open spec fn is_remote(self) -> bool {
        ||| self.mount_source.contains(':')
        ||| ("//"@.is_prefix_of(self.mount_source) && smb_fs_types().contains(self.fs_type))
        ||| network_fs_types().contains(self.fs_type)
        ||| self.mount_source == "-hosts"@
    }

    /// Whether the entry is a pseudo file system.
    pub open spec fn is_dummy(self) -> bool {
        dummy_fs_types().contains(self.fs_type)
    }
}

/// Whether `name` is one of `names`.
pub fn is_one_of(name: &str, names: &[&str]) -> (found: bool)
    ensures
        found == str_views(names@).contains(name@),
{
    let mut i: usize = 0;
    while i < names.len()
        invariant
            i <= names.len(),
            forall|j: int| 0 <= j < i ==> str_views(names@)[j] != name@,
        decreases names.len() - i,
    {
        if str_eq(names[i], name) {
            assert(str_views(names@)[i as int] == name@);
            return true;
        }
        i = i + 1;
    }
    false
}

impl MountInfo {
    /// The device key of this entry.
    pub fn dev(&self) -> (d: u64)
        ensures
            d == self@.dev(),
            self.minor_dev < 256 ==> d == self.major_dev * 256 + self.minor_dev,
    {
        let major = self.major_dev as u64;
        let minor = self.minor_dev as u64;
        assert(minor < 256 && major < 0x1_0000_0000 ==> (major << 8) | minor == major * 256
            + minor) by (bit_vector);
        (major << 8) | minor
    }

    /// Whether the entry is a network file system.
    pub fn is_remote(&self) -> (remote: bool)
        ensures
            remote == self@.is_remote(),
    {
        let smb = ["smbfs", "smb3", "cifs"];
        let network = ["afs", "auristorfs"];
        assert(str_views(smb@) =~= smb_fs_types());
        assert(str_views(network@) =~= network_fs_types());
        contains_char(self.mount_source.as_str(), ':') || (starts_with(
            self.mount_source.as_str(),
            "//",
        ) && is_one_of(self.fs_type.as_str(), smb.as_slice())) || is_one_of(
            self.fs_type.as_str(),
            network.as_slice(),
        ) || str_eq(self.mount_source.as_str(), "-hosts")
    }

    /// Whether the entry is a pseudo file system.
    pub fn is_dummy(&self) -> (dummy: bool)
        ensures
            dummy == self@.is_dummy(),
    {
        let names = [
            "autofs",
            "proc",
            "subfs",
            "debugfs",
            "devpts",
            "fusectl",
            "mqueue",
            "rpc_pipefs",
            "sysfs",
            "devfs",
            "kernfs",
            "ignore",
            "none",
        ];
        assert(str_views(names@) =~= dummy_fs_types());
        is_one_of(self.fs_type.as_str(), names.as_slice())
    }
}

/// Why a line of the mount table was refused. Each variant names the field
/// at which reading stopped; the fields are read from left to right, and the
/// first one that fails decides.
#[derive(Debug, Clone, Copy, PartialEq, Eq, Structural)]
pub enum ParseError {
    /// The first field is not a number.
    InvalidMountId,
    /// The line ends after the mount id.
    MissingParentMountId,
    /// The second field is not a number.
    InvalidParentMountId,
    /// The line ends before the device field.
    MissingDevice,
    /// What stands before the first `:` of the device field is not a number.
    InvalidMajorDev,
    /// The device field holds no `:`.
    MissingMinorDev,
    /// What follows the first `:` of the device field is not a number.
    InvalidMinorDev,
    /// The line ends before the root field.
    MissingRoot,
    /// The line ends before the mount point.
    MissingMountPoint,
    /// The line ends before the mount options.
    MissingMountOptions,
    /// No lone `-` follows the mount options.
    MissingSeparator,
    /// The line ends with the separator.
    MissingFsType,
    /// The line ends after the file system type.
    MissingMountSource,
    /// The line ends after the mount source.
    MissingSuperOptions,
}

/// The number of fields that every line begins with, up to and including
/// the mount options. The optional fields follow them.
pub const LEADING_FIELDS: usize = 6;

/// The position of the first separator at or after `from`, or the number of
/// fields if there is none.
pub open spec fn first_separator(fields: Seq<Seq<char>>, from: int) -> int
    decreases fields.len() - from,
{
    if from >= fields.len() {
        fields.len() as int
    } else if is_separator(fields[from]) {
        from
    } else {
        first_separator(fields, from + 1)
    }
}

/// The two numbers of a device field `MAJOR:MINOR`. Whatever follows a
/// second `:` is not read.
pub open spec fn spec_parse_device(field: Seq<char>) -> Result<(u32, u32), ParseError> {
    let parts = spec_split(field, ':');
    match spec_parse_u32(parts[0]) {
        None => Err(ParseError::InvalidMajorDev),
        Some(major) => if parts.len() < 2 {
            Err(ParseError::MissingMinorDev)
        } else {
            match spec_parse_u32(parts[1]) {
                None => Err(ParseError::InvalidMinorDev),
                Some(minor) => Ok((major, minor)),
            }
        },
    }
}

/// The list of options that a comma-separated field holds.
pub open spec fn spec_parse_options(field: Seq<char>) -> Seq<Seq<char>> {
    spec_split(field, ',')
}

/// The optional fields, which stand between the leading fields and the
/// separator at `sep`: nothing if there are none, else all of them in order.
pub open spec fn optional_fields_of(fields: Seq<Seq<char>>, sep: int) -> Option<Seq<Seq<char>>> {
    if sep == LEADING_FIELDS {
        None
    } else {
        Some(fields.subrange(LEADING_FIELDS as int, sep))
    }
}

/// The entry that the fields of a line denote, or the first reason why they
/// denote none. Fields after the super options are not read.
pub open spec fn spec_parse_fields(fields: Seq<Seq<char>>) -> Result<MountRecord, ParseError> {
    let sep = first_separator(fields, LEADING_FIELDS as int);
    if spec_parse_u32(fields[0]) is None {
        Err(ParseError::InvalidMountId)
    } else if fields.len() < 2 {
        Err(ParseError::MissingParentMountId)
    } else if spec_parse_u32(fields[1]) is None {
        Err(ParseError::InvalidParentMountId)
    } else if fields.len() < 3 {
        Err(ParseError::MissingDevice)
    } else if spec_parse_device(fields[2]) is Err {
        Err(spec_parse_device(fields[2])->Err_0)
    } else if fields.len() < 4 {
        Err(ParseError::MissingRoot)
    } else if fields.len() < 5 {
        Err(ParseError::MissingMountPoint)
    } else if fields.len() < LEADING_FIELDS {
        Err(ParseError::MissingMountOptions)
    } else if sep >= fields.len() {
        Err(ParseError::MissingSeparator)
    } else if sep + 1 >= fields.len() {
        Err(ParseError::MissingFsType)
    } else if sep + 2 >= fields.len() {
        Err(ParseError::MissingMountSource)
    } else if sep + 3 >= fields.len() {
        Err(ParseError::MissingSuperOptions)
    } else {
        Ok(
            MountRecord {
                mount_id: spec_parse_u32(fields[0])->Some_0,
                parent_mount_id: spec_parse_u32(fields[1])->Some_0,
                major_dev: spec_parse_device(fields[2])->Ok_0.0,
                minor_dev: spec_parse_device(fields[2])->Ok_0.1,
                root: fields[3],
                mount_point: fields[4],
                mount_options: spec_parse_options(fields[5]),
                optional_fields: optional_fields_of(fields, sep),
                fs_type: fields[sep + 1],
                mount_source: fields[sep + 2],
                super_options: spec_parse_options(fields[sep + 3]),
            },
        )
    }
}

/// The entry that a line of the mount table denotes.
pub open spec fn spec_parse_mountinfo(line: Seq<char>) -> Result<MountRecord, ParseError> {
    spec_parse_fields(spec_split(line, ' '))
}

/// The outcome of parsing with the entry replaced by its view.
pub open spec fn parsed_view(r: Result<MountInfo, ParseError>) -> Result<MountRecord, ParseError> {
    match r {
        Ok(m) => Ok(m@),
        Err(e) => Err(e),
    }
}

/// Where the first separator lies: no field before it is a separator, and
/// the field at it is one unless the fields end first.
pub proof fn lemma_first_separator(fields: Seq<Seq<char>>, from: int)
    requires
        0 <= from <= fields.len(),
    ensures
        from <= first_separator(fields, from) <= fields.len(),
        forall|j: int|
            from <= j < first_separator(fields, from) ==> !is_separator(#[trigger] fields[j]),
        first_separator(fields, from) < fields.len() ==> is_separator(
            fields[first_separator(fields, from)],
        ),
    decreases fields.len() - from,
{
    if from < fields.len() && !is_separator(fields[from]) {
        lemma_first_separator(fields, from + 1);
    }
}

/// The options of a field without a space are an option list.
pub proof fn lemma_parsed_options(field: Seq<char>)
    requires
        is_field(field),
    ensures
        is_option_list(spec_parse_options(field)),
{
    lemma_join_split(field, ',');
    lemma_split_within(field, ',', ' ');
}

/// Every entry that a line denotes is well formed.
pub proof fn lemma_parsed_well_formed(line: Seq<char>)
    ensures
        spec_parse_mountinfo(line) matches Ok(record) ==> record.well_formed(),
{
    let fields = spec_split(line, ' ');
    lemma_join_split(line, ' ');
    if let Ok(record) = spec_parse_mountinfo(line) {
        let sep = first_separator(fields, LEADING_FIELDS as int);
        lemma_first_separator(fields, LEADING_FIELDS as int);
        lemma_parsed_options(fields[5]);
        lemma_parsed_options(fields[sep + 3]);
        if let Some(optional) = record.optional_fields {
            assert(optional == fields.subrange(LEADING_FIELDS as int, sep));
            assert forall|i: int| 0 <= i < optional.len() implies !(#[trigger] optional[i]).contains(
                ' ',
            ) && !is_separator(optional[i]) by {
                assert(optional[i] == fields[LEADING_FIELDS + i]);
            }
        }
    }
}

/// Copies string slices into owned strings.
fn to_strings(parts: &Vec<&str>, from: usize, to: usize) -> (owned: Vec<String>)
    requires
        from <= to <= parts@.len(),
    ensures
        string_views(owned@) == str_views(parts@).subrange(from as int, to as int),
{
    let mut owned: Vec<String> = Vec::new();
    let mut i: usize = from;
    while i < to
        invariant
            from <= i <= to <= parts@.len(),
            string_views(owned@) =~= str_views(parts@).subrange(from as int, i as int),
        decreases to - i,
    {
        let ghost copied = string_views(owned@);
        owned.push(parts[i].to_owned());
        proof {
            assert(string_views(owned@) =~= copied.push(parts@[i as int]@));
            assert(str_views(parts@).subrange(from as int, i + 1) =~= str_views(parts@).subrange(
                from as int,
                i as int,
            ).push(parts@[i as int]@));
        }
        i = i + 1;
    }
    owned
}

/// Parses an option string: the options are separated by commas, their
/// order is kept, and an option may occur more than once.
pub fn parse_options(options: &str) -> (list: Vec<String>)
    ensures
        string_views(list@) == spec_parse_options(options@),
        list@.len() >= 1,
        pieces_free_of(string_views(list@), ','),
        spec_join(string_views(list@), ',') == options@,
{
    let parts = split(options, ',');
    let list = to_strings(&parts, 0, parts.len());
    assert(str_views(parts@).subrange(0, parts@.len() as int) =~= str_views(parts@));
    list
}

/// Parses the device field of a line.
fn parse_device(field: &str) -> (r: Result<(u32, u32), ParseError>)
    ensures
        r == spec_parse_device(field@),
{
    let parts = split(field, ':');
    assert(str_views(parts@)[0] == parts@[0]@);
    let major = match parse_u32(parts[0]) {
        Some(n) => n,
        None => {
            return Err(ParseError::InvalidMajorDev);
        },
    };
    if parts.len() < 2 {
        return Err(ParseError::MissingMinorDev);
    }
    assert(str_views(parts@)[1] == parts@[1]@);
    match parse_u32(parts[1]) {
        Some(minor) => Ok((major, minor)),
        None => Err(ParseError::InvalidMinorDev),
    }
}

/// Parses one line of the mount table.
///
/// The optional fields of the entry are `None` exactly when the separator
/// follows the mount options at once; otherwise they are all the fields
/// between the two, in order.
pub fn parse_mountinfo(line: &str) -> (r: Result<MountInfo, ParseError>)
    ensures
        parsed_view(r) == spec_parse_mountinfo(line@),
        r matches Ok(m) ==> m@.well_formed(),
        r matches Ok(m) ==> {
            let fields = spec_split(line@, ' ');
            let sep = first_separator(fields, LEADING_FIELDS as int);
            &&& LEADING_FIELDS <= sep < fields.len()
            &&& m@.optional_fields is None <==> sep == LEADING_FIELDS
            &&& sep > LEADING_FIELDS ==> m@.optional_fields == Some(
                fields.subrange(LEADING_FIELDS as int, sep),
            )
        },
{
    proof {
        lemma_parsed_well_formed(line@);
    }
    let v = split(line, ' ');
    let ghost fields = str_views(v@);
    assert(forall|i: int| 0 <= i < v@.len() ==> #[trigger] fields[i] == v@[i]@);
    let mount_id = match parse_u32(v[0]) {
        Some(n) => n,
        None => {
            return Err(ParseError::InvalidMountId);
        },
    };
    if v.len() < 2 {
        return Err(ParseError::MissingParentMountId);
    }
    let parent_mount_id = match parse_u32(v[1]) {
        Some(n) => n,
        None => {
            return Err(ParseError::InvalidParentMountId);
        },
    };
    if v.len() < 3 {
        return Err(ParseError::MissingDevice);
    }
    let (major_dev, minor_dev) = match parse_device(v[2]) {
        Ok(pair) => pair,
        Err(e) => {
            return Err(e);
        },
    };
    if v.len() < 4 {
        return Err(ParseError::MissingRoot);
    }
    if v.len() < 5 {
        return Err(ParseError::MissingMountPoint);
    }
    if v.len() < LEADING_FIELDS {
        return Err(ParseError::MissingMountOptions);
    }
    let mut sep: usize = LEADING_FIELDS;
    while sep < v.len() && !str_eq(v[sep], "-")
        invariant
            LEADING_FIELDS <= sep <= v@.len(),
            fields == str_views(v@),
            first_separator(fields, LEADING_FIELDS as int) == first_separator(fields, sep as int),
        decreases v@.len() - sep,
    {
        assert(fields[sep as int] == v@[sep as int]@);
        sep = sep + 1;
    }
    proof {
        if sep < v@.len() {
            assert(fields[sep as int] == v@[sep as int]@);
        }
        assert(first_separator(fields, LEADING_FIELDS as int) == sep);
    }
    if sep >= v.len() {
        return Err(ParseError::MissingSeparator);
    }
    if v.len() - sep < 2 {
        return Err(ParseError::MissingFsType);
    }
    if v.len() - sep < 3 {
        return Err(ParseError::MissingMountSource);
    }
    if v.len() - sep < 4 {
        return Err(ParseError::MissingSuperOptions);
    }
    let optional_fields = if sep == LEADING_FIELDS {
        None
    } else {
        Some(to_strings(&v, LEADING_FIELDS, sep))
    };
    let m = MountInfo {
        mount_id,
        parent_mount_id,
        major_dev,
        minor_dev,
        root: v[3].to_owned(),
        mount_point: v[4].to_owned(),
        mount_options: parse_options(v[5]),
        optional_fields,
        fs_type: v[sep + 1].to_owned(),
        mount_source: v[sep + 2].to_owned(),
        super_options: parse_options(v[sep + 3]),
    };
    assert(m@ == spec_parse_mountinfo(line@)->Ok_0);
    Ok(m)
}

/// A line of the mount table that was refused.
#[derive(Debug, Clone, Copy, PartialEq, Eq, Structural)]
pub struct LineError {
    /// The number of the line, counted from zero.
    pub line: usize,
    pub error: ParseError,
}

/// What a mount table holds: the entries of the lines that could be read,
/// in table order, and the lines that could not.
#[derive(Debug, Clone, PartialEq, Eq)]
pub struct MountTable {
    pub mounts: Vec<MountInfo>,
    pub errors: Vec<LineError>,
}

/// The views of a sequence of entries.
pub open spec fn records_view(list: Seq<MountInfo>) -> Seq<MountRecord> {
    Seq::new(list.len(), |i: int| list[i]@)
}

/// The entries of the lines that denote one, in the order of the lines.
/// Blank lines denote none.
pub open spec fn spec_table_mounts(lines: Seq<Seq<char>>) -> Seq<MountRecord>
    decreases lines.len(),
{
    if lines.len() == 0 {
        Seq::empty()
    } else {
        let before = spec_table_mounts(lines.drop_last());
        if spec_is_blank(lines.last()) {
            before
        } else {
            match spec_parse_mountinfo(lines.last()) {
                Ok(record) => before.push(record),
                Err(_) => before,
            }
        }
    }
}

/// The lines that are not blank and denote no entry, each with its number
/// and the reason, in the order of the lines.
pub open spec fn spec_table_errors(lines: Seq<Seq<char>>) -> Seq<LineError>
    decreases lines.len(),
{
    if lines.len() == 0 {
        Seq::empty()
    } else {
        let before = spec_table_errors(lines.drop_last());
        if spec_is_blank(lines.last()) {
            before
        } else {
            match spec_parse_mountinfo(lines.last()) {
                Ok(_) => before,
                Err(error) => before.push(LineError { line: (lines.len() - 1) as usize, error }),
            }
        }
    }
}

/// Reads a mount table: the text is cut into lines at every line feed,
/// blank lines are passed over, and every other line is parsed. A line that
/// cannot be parsed does not stop the reading; it is reported with its
/// number, the reports in the order of the lines. Every entry read is well
/// formed.
pub fn get_mountinfo_list(content: &str) -> (table: MountTable)
    ensures
        records_view(table.mounts@) == spec_table_mounts(spec_split(content@, '\n')),
        table.errors@ == spec_table_errors(spec_split(content@, '\n')),
        forall|i: int| 0 <= i < table.mounts@.len() ==> (#[trigger] table.mounts@[i])@.well_formed(),
        table.mounts@.len() + table.errors@.len() <= spec_split(content@, '\n').len(),
        forall|i: int|
            0 <= i < table.errors@.len() ==> (#[trigger] table.errors@[i]).line < spec_split(
                content@,
                '\n',
            ).len(),
        forall|i: int, j: int|
            0 <= i < j < table.errors@.len() ==> (#[trigger] table.errors@[i]).line
                < (#[trigger] table.errors@[j]).line,
{
    let lines = split(content, '\n');
    let ghost texts = str_views(lines@);
    let mut mounts: Vec<MountInfo> = Vec::new();
    let mut errors: Vec<LineError> = Vec::new();
    let mut i: usize = 0;
    proof {
        assert(texts.take(0) =~= Seq::<Seq<char>>::empty());
    }
    while i < lines.len()
        invariant
            i <= lines.len(),
            texts == str_views(lines@),
            records_view(mounts@) =~= spec_table_mounts(texts.take(i as int)),
            errors@ =~= spec_table_errors(texts.take(i as int)),
            forall|j: int| 0 <= j < mounts@.len() ==> (#[trigger] mounts@[j])@.well_formed(),
            mounts@.len() + errors@.len() <= i,
            forall|j: int| 0 <= j < errors@.len() ==> (#[trigger] errors@[j]).line < i,
            forall|j: int, k: int|
                0 <= j < k < errors@.len() ==> (#[trigger] errors@[j]).line
                    < (#[trigger] errors@[k]).line,
        decreases lines.len() - i,
    {
        proof {
            assert(texts.take(i + 1).drop_last() =~= texts.take(i as int));
            assert(texts.take(i + 1).last() == lines@[i as int]@);
        }
        let ghost read = records_view(mounts@);
        if !is_blank(lines[i]) {
            match parse_mountinfo(lines[i]) {
                Ok(mount) => {
                    mounts.push(mount);
                    assert(records_view(mounts@) =~= read.push(mount@));
                },
                Err(error) => {
                    errors.push(LineError { line: i, error });
                },
            }
        }
        i = i + 1;
    }
    proof {
        assert(texts.take(i as int) =~= texts);
    }
    MountTable { mounts, errors }
}

} // verus!
