//! Writing an entry as a line of the mount table, and the proof that
//! parsing reads back what was written.

use crate::mountinfo::{
    first_separator, is_separator, optional_fields_of, spec_parse_device, spec_parse_fields,
    spec_parse_mountinfo, spec_parse_options, MountInfo, MountRecord, ParseError, LEADING_FIELDS,
};
use crate::number::{decimal, is_digit, lemma_decimal_value, lemma_parse_decimal, to_decimal};
use crate::text::{
    join, lemma_join_push, lemma_join_within, lemma_split_join, pieces_free_of, spec_join,
    spec_split, string_views,
};
use vstd::prelude::*;
use vstd::string::StringExecFns;

verus! {

/// The device field of a line: the two numbers with a `:` between them.
pub open spec fn spec_device_field(major: u32, minor: u32) -> Seq<char> {
    spec_join(seq![decimal(major as nat), decimal(minor as nat)], ':')
}

/// The fields of a line up to and including the mount options.
pub open spec fn leading_fields(record: MountRecord) -> Seq<Seq<char>> {
    seq![
        decimal(record.mount_id as nat),
        decimal(record.parent_mount_id as nat),
        spec_device_field(record.major_dev, record.minor_dev),
        record.root,
        record.mount_point,
        spec_join(record.mount_options, ','),
    ]
}

/// The optional fields of an entry as a sequence, empty if it has none.
pub open spec fn optional_fields_seq(record: MountRecord) -> Seq<Seq<char>> {
    match record.optional_fields {
        Some(fields) => fields,
        None => Seq::empty(),
    }
}

/// The fields of a line from the separator on.
pub open spec fn trailing_fields(record: MountRecord) -> Seq<Seq<char>> {
    seq!["-"@, record.fs_type, record.mount_source, spec_join(record.super_options, ',')]
}

/// All the fields of the line that an entry is written as.
pub open spec fn spec_fields(record: MountRecord) -> Seq<Seq<char>> {
    leading_fields(record) + optional_fields_seq(record) + trailing_fields(record)
}

/// The line that an entry is written as: its fields with single spaces
/// between them, the numbers in their shortest decimal form.
pub open spec fn spec_format_mountinfo(record: MountRecord) -> Seq<char> {
    spec_join(spec_fields(record), ' ')
}

/// A decimal text holds no character that is not a digit.
proof fn lemma_decimal_free_of(n: nat, c: char)
    requires
        !is_digit(c),
    ensures
        !decimal(n).contains(c),
{
    lemma_decimal_value(n);
}

/// The device field holds no space, and its two numbers are read back
/// from it.
proof fn lemma_device_field(major: u32, minor: u32)
    ensures
        !spec_device_field(major, minor).contains(' '),
        spec_parse_device(spec_device_field(major, minor)) == Ok::<(u32, u32), ParseError>(
            (major, minor),
        ),
{
    let parts = seq![decimal(major as nat), decimal(minor as nat)];
    lemma_decimal_free_of(major as nat, ' ');
    lemma_decimal_free_of(minor as nat, ' ');
    lemma_decimal_free_of(major as nat, ':');
    lemma_decimal_free_of(minor as nat, ':');
    lemma_join_within(parts, ':', ' ');
    lemma_split_join(parts, ':');
    lemma_parse_decimal(major);
    lemma_parse_decimal(minor);
}

/// A joined option list holds no space, and its options are read back from
/// it.
proof fn lemma_options_field(options: Seq<Seq<char>>)
    requires
        options.len() >= 1,
        pieces_free_of(options, ' '),
        pieces_free_of(options, ','),
    ensures
        !spec_join(options, ',').contains(' '),
        spec_parse_options(spec_join(options, ',')) == options,
{
    lemma_join_within(options, ',', ' ');
    lemma_split_join(options, ',');
}

/// Parsing is the inverse of formatting: the line that a well-formed entry
/// is written as denotes that entry again.
pub proof fn lemma_parse_format(record: MountRecord)
    requires
        record.well_formed(),
    ensures
        spec_parse_mountinfo(spec_format_mountinfo(record)) == Ok::<MountRecord, ParseError>(
            record,
        ),
{
    let fields = spec_fields(record);
    let optional = optional_fields_seq(record);
    let sep = LEADING_FIELDS + optional.len();
    reveal_strlit("-");
    lemma_decimal_free_of(record.mount_id as nat, ' ');
    lemma_decimal_free_of(record.parent_mount_id as nat, ' ');
    lemma_device_field(record.major_dev, record.minor_dev);
    lemma_options_field(record.mount_options);
    lemma_options_field(record.super_options);
    lemma_parse_decimal(record.mount_id);
    lemma_parse_decimal(record.parent_mount_id);
    assert(!"-"@.contains(' '));
    assert(fields.len() == sep + 4);
    assert forall|i: int| 0 <= i < fields.len() implies !(#[trigger] fields[i]).contains(' ') by {
        if LEADING_FIELDS <= i < sep {
            assert(fields[i] == optional[i - LEADING_FIELDS]);
        }
    }
    lemma_split_join(fields, ' ');
    assert(spec_split(spec_format_mountinfo(record), ' ') == fields);
    assert(first_separator(fields, LEADING_FIELDS as int) == sep) by {
        lemma_separator_after(fields, LEADING_FIELDS as int, sep as int);
    }
    assert(optional_fields_of(fields, sep as int) == record.optional_fields) by {
        if sep > LEADING_FIELDS {
            assert(fields.subrange(LEADING_FIELDS as int, sep as int) =~= optional);
        }
    }
    let parsed = spec_parse_fields(fields)->Ok_0;
    assert(parsed.mount_options == record.mount_options);
    assert(parsed.super_options == record.super_options);
}

/// If no field from `from` up to `sep` is a separator and the one at `sep`
/// is, the first separator from `from` on lies at `sep`.
proof fn lemma_separator_after(fields: Seq<Seq<char>>, from: int, sep: int)
    requires
        0 <= from <= sep < fields.len(),
        forall|j: int| from <= j < sep ==> !is_separator(#[trigger] fields[j]),
        is_separator(fields[sep]),
    ensures
        first_separator(fields, from) == sep,
    decreases sep - from,
{
    if from < sep {
        lemma_separator_after(fields, from + 1, sep);
    }
}

/// Appends a space and `field` to a line that already holds the fields
/// `done`.
fn push_field(line: &mut String, field: &str, Ghost(done): Ghost<Seq<Seq<char>>>)
    requires
        done.len() >= 1,
        old(line)@ == spec_join(done, ' '),
    ensures
        final(line)@ == spec_join(done.push(field@), ' '),
{
    proof {
        reveal_strlit(" ");
        lemma_join_push(done, field@, ' ');
    }
    line.append(" ");
    line.append(field);
    assert(line@ =~= spec_join(done, ' ').push(' ') + field@);
}

/// Writes an entry as a line of the mount table. If the entry is well
/// formed, parsing the line gives the entry back.
pub fn format_mountinfo(m: &MountInfo) -> (line: String)
    ensures
        line@ == spec_format_mountinfo(m@),
        m@.well_formed() ==> spec_parse_mountinfo(line@) == Ok::<MountRecord, ParseError>(m@),
{
    proof {
        reveal_strlit(":");
        reveal_strlit(",");
        if m@.well_formed() {
            lemma_parse_format(m@);
        }
    }
    let mut line = to_decimal(m.mount_id);
    let ghost mut done = seq![decimal(m.mount_id as nat)];

    let parent = to_decimal(m.parent_mount_id);
    push_field(&mut line, parent.as_str(), Ghost(done));
    proof {
        done = done.push(parent@);
    }

    let mut device = to_decimal(m.major_dev);
    device.append(":");
    let minor = to_decimal(m.minor_dev);
    device.append(minor.as_str());
    proof {
        let major = seq![decimal(m.major_dev as nat)];
        lemma_join_push(major, minor@, ':');
        assert(major.push(minor@) =~= seq![decimal(m.major_dev as nat), minor@]);
        assert(device@ =~= spec_join(major, ':').push(':') + minor@);
    }
    push_field(&mut line, device.as_str(), Ghost(done));
    proof {
        done = done.push(device@);
    }

    push_field(&mut line, m.root.as_str(), Ghost(done));
    proof {
        done = done.push(m.root@);
    }
    push_field(&mut line, m.mount_point.as_str(), Ghost(done));
    proof {
        done = done.push(m.mount_point@);
    }
    let mount_options = join(&m.mount_options, ",");
    push_field(&mut line, mount_options.as_str(), Ghost(done));
    proof {
        done = done.push(mount_options@);
        assert(done =~= leading_fields(m@));
    }

    match &m.optional_fields {
        Some(fields) => {
            let mut i: usize = 0;
            while i < fields.len()
                invariant
                    i <= fields.len(),
                    done.len() >= 1,
                    line@ == spec_join(done, ' '),
                    done == leading_fields(m@) + string_views(fields@).take(i as int),
                decreases fields.len() - i,
            {
                push_field(&mut line, fields[i].as_str(), Ghost(done));
                proof {
                    done = done.push(fields@[i as int]@);
                    assert(string_views(fields@).take(i + 1) =~= string_views(fields@).take(
                        i as int,
                    ).push(fields@[i as int]@));
                    assert(done =~= leading_fields(m@) + string_views(fields@).take(i + 1));
                }
                i = i + 1;
            }
            proof {
                assert(string_views(fields@).take(i as int) =~= string_views(fields@));
            }
        },
        None => {
            proof {
                assert(done =~= leading_fields(m@) + Seq::<Seq<char>>::empty());
            }
        },
    }
    assert(done == leading_fields(m@) + optional_fields_seq(m@));

    push_field(&mut line, "-", Ghost(done));
    proof {
        done = done.push("-"@);
    }
    push_field(&mut line, m.fs_type.as_str(), Ghost(done));
    proof {
        done = done.push(m.fs_type@);
    }
    push_field(&mut line, m.mount_source.as_str(), Ghost(done));
    proof {
        done = done.push(m.mount_source@);
    }
    let super_options = join(&m.super_options, ",");
    push_field(&mut line, super_options.as_str(), Ghost(done));
    proof {
        done = done.push(super_options@);
        assert(done =~= spec_fields(m@));
    }
    line
}

} // verus!
