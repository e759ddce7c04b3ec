//! The mount table: `/proc/self/mountinfo` as the rest of the library reads it.
//!
//! A line holds, separated by single spaces: the mount's identity, that of the
//! mount it is attached to, the device as `major:minor`, the root within the
//! filesystem, the mount point, its options, any number of optional fields, a
//! hyphen, the filesystem type, the source and the superblock's options. Space,
//! tab, newline and backslash in a pathname are written as a backslash and
//! three octal digits. Lines that do not read so are skipped.

use vstd::prelude::*;

use crate::text::lossy_text;
use crate::text;

verus! {

/// One mount of the table, in mount order.
#[derive(Debug, Clone, PartialEq, Eq)]
pub struct MountEntry {
    /// Identity of the mount.
    pub mount_id: u32,
    /// Identity of the mount it is attached to.
    pub parent_id: u32,
    /// Major device number of the superblock.
    pub major: u32,
    /// Minor device number of the superblock.
    pub minor: u32,
    /// Where it is attached: the pathname's bytes, unescaped.
    pub mount_point: Vec<u8>,
    /// Filesystem type.
    pub fs_type: String,
    /// What is mounted.
    pub source: String,
}

impl MountEntry {
    /// `(major, minor)` of the superblock.
    pub open spec fn spec_dev(&self) -> (u32, u32) {
        (self.major, self.minor)
    }

    /// `(major, minor)` of the superblock.
    pub fn dev(&self) -> (dev: (u32, u32))
        ensures
            dev == self.spec_dev(),
    {
        (self.major, self.minor)
    }
}

/// A mount as a mathematical value.
#[verifier::ext_equal]
pub ghost struct EntryView {
    pub mount_id: u32,
    pub parent_id: u32,
    pub dev: (u32, u32),
    pub mount_point: Seq<u8>,
    pub fs_type: Seq<char>,
    pub source: Seq<char>,
}

impl View for MountEntry {
    type V = EntryView;

    open spec fn view(&self) -> EntryView {
        EntryView {
            mount_id: self.mount_id,
            parent_id: self.parent_id,
            dev: (self.major, self.minor),
            mount_point: self.mount_point@,
            fs_type: self.fs_type@,
            source: self.source@,
        }
    }
}

/// Mounts, each taken by its view.
pub open spec fn entries_view(entries: Seq<MountEntry>) -> Seq<EntryView> {
    Seq::new(entries.len(), |i: int| entries[i]@)
}

// ---------------------------------------------------------------------------
// Fields
// ---------------------------------------------------------------------------

/// Bytes cut at every separator.
pub open spec fn split(bytes: Seq<u8>, separator: u8) -> Seq<Seq<u8>>
    decreases bytes.len(),
{
    if bytes.len() == 0 {
        seq![Seq::empty()]
    } else {
        let before = split(bytes.drop_last(), separator);
        if bytes.last() == separator {
            before.push(Seq::empty())
        } else {
            before.update(before.len() - 1, before.last().push(bytes.last()))
        }
    }
}

/// Pieces, each taken by its view.
pub open spec fn pieces_view(pieces: Seq<Vec<u8>>) -> Seq<Seq<u8>> {
    Seq::new(pieces.len(), |i: int| pieces[i]@)
}

fn split_at_every(bytes: &[u8], separator: u8) -> (pieces: Vec<Vec<u8>>)
    ensures
        pieces_view(pieces@) == split(bytes@, separator),
        pieces@.len() > 0,
{
    let mut pieces: Vec<Vec<u8>> = Vec::new();
    let mut piece: Vec<u8> = Vec::new();
    proof {
        assert(pieces_view(pieces@).push(piece@) =~= split(bytes@.take(0), separator));
    }
    for i in 0..bytes.len()
        invariant
            pieces_view(pieces@).push(piece@) == split(bytes@.take(i as int), separator),
    {
        let ghost done = pieces_view(pieces@);
        let ghost now = piece@;
        proof {
            assert(bytes@.take(i + 1).drop_last() =~= bytes@.take(i as int));
            assert(done.push(now).last() == now);
        }
        if bytes[i] == separator {
            pieces.push(piece);
            piece = Vec::new();
            proof {
                assert(pieces_view(pieces@) =~= done.push(now));
                assert(pieces_view(pieces@).push(piece@) =~= split(bytes@.take(i + 1), separator));
            }
        } else {
            piece.push(bytes[i]);
            proof {
                assert(pieces_view(pieces@).push(piece@) =~= split(bytes@.take(i + 1), separator));
            }
        }
    }
    let ghost done = pieces_view(pieces@);
    let ghost now = piece@;
    pieces.push(piece);
    proof {
        assert(bytes@.take(bytes@.len() as int) =~= bytes@);
        assert(pieces_view(pieces@) =~= done.push(now));
    }
    pieces
}

/// A decimal numeral's value; nothing for anything else.
pub open spec fn numeral(bytes: Seq<u8>) -> Option<nat>
    decreases bytes.len(),
{
    if bytes.len() == 0 || !(0x30 <= bytes.last() <= 0x39) {
        None
    } else {
        let digit = (bytes.last() - 0x30) as nat;
        if bytes.len() == 1 {
            Some(digit)
        } else {
            match numeral(bytes.drop_last()) {
                Some(front) => Some(10 * front + digit),
                None => None,
            }
        }
    }
}

/// A number of 32 bits.
pub open spec fn number(bytes: Seq<u8>) -> Option<u32> {
    match numeral(bytes) {
        Some(n) => if n <= u32::MAX {
            Some(n as u32)
        } else {
            None
        },
        None => None,
    }
}

proof fn lemma_numeral_digits(bytes: Seq<u8>, n: int)
    requires
        0 < n <= bytes.len(),
        numeral(bytes.take(n)) is None || numeral(bytes.take(n))->0 > u32::MAX,
    ensures
        number(bytes) is None,
    decreases bytes.len() - n,
{
    if n == bytes.len() {
        assert(bytes.take(n) =~= bytes);
    } else {
        assert(bytes.take(n + 1).drop_last() =~= bytes.take(n));
        lemma_numeral_digits(bytes, n + 1);
    }
}

fn parse_number(bytes: &[u8]) -> (found: Option<u32>)
    ensures
        found == number(bytes@),
{
    if bytes.len() == 0 {
        return None;
    }
    let mut total: u64 = 0;
    for i in 0..bytes.len()
        invariant
            total <= u32::MAX,
            i > 0 ==> numeral(bytes@.take(i as int)) == Some(total as nat),
            i == 0 ==> total == 0,
    {
        proof {
            assert(bytes@.take(i + 1).drop_last() =~= bytes@.take(i as int));
            assert(bytes@.take(i + 1).last() == bytes@[i as int]);
        }
        if bytes[i] < 0x30 || bytes[i] > 0x39 {
            proof {
                lemma_numeral_digits(bytes@, i + 1);
            }
            return None;
        }
        total = total * 10 + (bytes[i] - 0x30) as u64;
        if total > u32::MAX as u64 {
            proof {
                lemma_numeral_digits(bytes@, i + 1);
            }
            return None;
        }
    }
    proof {
        assert(bytes@.take(bytes@.len() as int) =~= bytes@);
    }
    Some(total as u32)
}

/// A device, `major:minor`.
pub open spec fn device(bytes: Seq<u8>) -> Option<(u32, u32)> {
    let parts = split(bytes, 0x3A);
    if parts.len() == 2 && number(parts[0]) is Some && number(parts[1]) is Some {
        Some((number(parts[0])->0, number(parts[1])->0))
    } else {
        None
    }
}

fn parse_device(bytes: &[u8]) -> (found: Option<(u32, u32)>)
    ensures
        found == device(bytes@),
{
    let parts = split_at_every(bytes, 0x3A);
    if parts.len() != 2 {
        return None;
    }
    proof {
        assert(split(bytes@, 0x3A)[0] == parts@[0]@);
        assert(split(bytes@, 0x3A)[1] == parts@[1]@);
    }
    match (parse_number(&parts[0]), parse_number(&parts[1])) {
        (Some(major), Some(minor)) => Some((major, minor)),
        _ => None,
    }
}

/// An octal digit.
pub open spec fn octal(b: u8) -> bool {
    0x30 <= b <= 0x37
}

/// A byte written as a backslash and three octal digits stands at the start.
pub open spec fn escape_at_start(bytes: Seq<u8>) -> bool {
    &&& bytes.len() >= 4
    &&& bytes[0] == 0x5C
    &&& 0x30 <= bytes[1] <= 0x33
    &&& octal(bytes[2])
    &&& octal(bytes[3])
}

/// A pathname without its escapes.
pub open spec fn unescaped(bytes: Seq<u8>) -> Seq<u8>
    decreases bytes.len(),
{
    if bytes.len() == 0 {
        Seq::empty()
    } else if escape_at_start(bytes) {
        seq![
            ((bytes[1] - 0x30) * 64 + (bytes[2] - 0x30) * 8 + (bytes[3] - 0x30)) as u8,
        ] + unescaped(bytes.skip(4))
    } else {
        seq![bytes[0]] + unescaped(bytes.skip(1))
    }
}

/// A pathname without its escapes. A backslash that begins no escape stands for
/// itself.
pub fn unescape(bytes: &[u8]) -> (path: Vec<u8>)
    ensures
        path@ == unescaped(bytes@),
{
    let mut path: Vec<u8> = Vec::new();
    let mut i: usize = 0;
    proof {
        assert(bytes@.skip(0) =~= bytes@);
        assert(path@ + unescaped(bytes@.skip(0)) =~= unescaped(bytes@));
    }
    while i < bytes.len()
        invariant
            i <= bytes@.len(),
            path@ + unescaped(bytes@.skip(i as int)) == unescaped(bytes@),
        decreases bytes.len() - i,
    {
        let ghost before = path@;
        let ghost rest = bytes@.skip(i as int);
        let left: usize = bytes.len() - i;
        if left >= 4 && bytes[i] == 0x5C && 0x30 <= bytes[i + 1] && bytes[i + 1] <= 0x33 && 0x30
            <= bytes[i + 2] && bytes[i + 2] <= 0x37 && 0x30 <= bytes[i + 3] && bytes[i + 3]
            <= 0x37 {
            path.push(
                (bytes[i + 1] - 0x30) * 64 + (bytes[i + 2] - 0x30) * 8 + (bytes[i + 3] - 0x30),
            );
            i = i + 4;
            proof {
                assert(rest.skip(4) =~= bytes@.skip(i as int));
                assert(path@ + unescaped(bytes@.skip(i as int)) =~= before + unescaped(rest));
            }
        } else {
            path.push(bytes[i]);
            i = i + 1;
            proof {
                assert(rest.skip(1) =~= bytes@.skip(i as int));
                assert(path@ + unescaped(bytes@.skip(i as int)) =~= before + unescaped(rest));
            }
        }
    }
    proof {
        assert(unescaped(bytes@.skip(i as int)) =~= Seq::empty());
        assert(path@ =~= path@ + unescaped(bytes@.skip(i as int)));
    }
    path
}

// ---------------------------------------------------------------------------
// Lines
// ---------------------------------------------------------------------------

/// The place of the hyphen after the optional fields, or the number of fields.
pub open spec fn hyphen(fields: Seq<Seq<u8>>, from: int) -> int
    decreases fields.len() - from,
{
    if from >= fields.len() || fields[from] == seq![0x2Du8] {
        from
    } else {
        hyphen(fields, from + 1)
    }
}

/// The mount that a line describes, if it reads as one.
pub open spec fn entry(line: Seq<u8>) -> Option<EntryView> {
    let fields = split(line, 0x20);
    let at = hyphen(fields, 6);
    if fields.len() < 6 || at + 2 >= fields.len() || number(fields[0]) is None || number(fields[1])
        is None || device(fields[2]) is None {
        None
    } else {
        Some(
            EntryView {
                mount_id: number(fields[0])->0,
                parent_id: number(fields[1])->0,
                dev: device(fields[2])->0,
                mount_point: unescaped(fields[4]),
                fs_type: text::lossy(fields[at + 1]),
                source: text::lossy(unescaped(fields[at + 2])),
            },
        )
    }
}

fn parse_line(line: &[u8]) -> (found: Option<MountEntry>)
    ensures
        match found {
            Some(mount) => entry(line@) == Some(mount@),
            None => entry(line@) is None,
        },
{
    let fields = split_at_every(line, 0x20);
    let ghost all = split(line@, 0x20);
    proof {
        assert(forall|i: int| 0 <= i < all.len() ==> #[trigger] all[i] == fields@[i]@);
    }
    if fields.len() < 6 {
        return None;
    }
    let mut at: usize = 6;
    while at < fields.len() && !(fields[at].len() == 1 && fields[at][0] == 0x2D)
        invariant
            6 <= at <= fields@.len(),
            all == pieces_view(fields@),
            hyphen(all, 6) == hyphen(all, at as int),
        decreases fields.len() - at,
    {
        proof {
            assert(all[at as int] == fields@[at as int]@);
        }
        at = at + 1;
    }
    proof {
        if at < fields@.len() {
            assert(all[at as int] =~= seq![0x2Du8]);
        }
    }
    if fields.len() - at < 3 {
        return None;
    }
    let (mount_id, parent_id) = match (parse_number(&fields[0]), parse_number(&fields[1])) {
        (Some(a), Some(b)) => (a, b),
        _ => {
            return None;
        },
    };
    let (major, minor) = match parse_device(&fields[2]) {
        Some((major, minor)) => (major, minor),
        None => {
            return None;
        },
    };
    Some(
        MountEntry {
            mount_id,
            parent_id,
            major,
            minor,
            mount_point: unescape(&fields[4]),
            fs_type: lossy_text(&fields[at + 1]),
            source: lossy_text(&unescape(&fields[at + 2])),
        },
    )
}

/// The mounts that some lines describe, in order.
pub open spec fn entries(lines: Seq<Seq<u8>>) -> Seq<EntryView>
    decreases lines.len(),
{
    if lines.len() == 0 {
        Seq::empty()
    } else {
        let before = entries(lines.drop_last());
        match entry(lines.last()) {
            Some(mount) => before.push(mount),
            None => before,
        }
    }
}

/// Reads the mount table, in mount order.
pub fn parse_mountinfo(table: &[u8]) -> (mounts: Vec<MountEntry>)
    ensures
        entries_view(mounts@) == entries(split(table@, 0x0A)),
{
    let lines = split_at_every(table, 0x0A);
    let ghost all = split(table@, 0x0A);
    let mut mounts: Vec<MountEntry> = Vec::new();
    proof {
        assert(entries_view(mounts@) =~= entries(all.take(0)));
    }
    for i in 0..lines.len()
        invariant
            all == pieces_view(lines@),
            entries_view(mounts@) == entries(all.take(i as int)),
    {
        let ghost before = entries_view(mounts@);
        proof {
            assert(all.take(i + 1).drop_last() =~= all.take(i as int));
            assert(all.take(i + 1).last() == lines@[i as int]@);
        }
        if let Some(mount) = parse_line(&lines[i]) {
            mounts.push(mount);
            proof {
                assert(entries_view(mounts@) =~= before.push(mount@));
            }
        }
    }
    proof {
        assert(all.take(lines@.len() as int) =~= all);
    }
    mounts
}

/// How many newlines there are.
pub open spec fn newlines(table: Seq<u8>) -> nat
    decreases table.len(),
{
    if table.len() == 0 {
        0
    } else {
        newlines(table.drop_last()) + (if table.last() == 0x0A {
            1nat
        } else {
            0
        })
    }
}

/// How many lines a table has: a newline at its end begins none.
pub open spec fn line_count(table: Seq<u8>) -> nat {
    newlines(table) + (if table.len() == 0 || table.last() == 0x0A {
        0nat
    } else {
        1
    })
}

proof fn lemma_entries_at_most(lines: Seq<Seq<u8>>)
    ensures
        entries(lines).len() <= lines.len(),
    decreases lines.len(),
{
    if lines.len() > 0 {
        lemma_entries_at_most(lines.drop_last());
    }
}

proof fn lemma_pieces_by_newlines(table: Seq<u8>)
    ensures
        split(table, 0x0A).len() == newlines(table) + 1,
    decreases table.len(),
{
    if table.len() > 0 {
        lemma_pieces_by_newlines(table.drop_last());
    }
}

/// A line of the table gives at most one mount.
pub proof fn law_at_most_one_mount_per_line(table: Seq<u8>)
    ensures
        entries(split(table, 0x0A)).len() <= line_count(table),
{
    let pieces = split(table, 0x0A);
    lemma_pieces_by_newlines(table);
    lemma_entries_at_most(pieces);
    if table.len() == 0 || table.last() == 0x0A {
        assert(pieces.last() == Seq::<u8>::empty());
        assert(split(pieces.last(), 0x20).len() == 1);
        assert(entry(pieces.last()) is None);
        lemma_entries_at_most(pieces.drop_last());
    }
}

/// Fields in a row with the separator between them.
pub open spec fn in_a_row(fields: Seq<Seq<u8>>, separator: u8) -> Seq<u8>
    decreases fields.len(),
{
    if fields.len() == 0 {
        Seq::empty()
    } else if fields.len() == 1 {
        fields[0]
    } else {
        in_a_row(fields.drop_last(), separator).push(separator) + fields.last()
    }
}

/// A number in decimal digits, as bytes.
pub open spec fn digits(n: nat) -> Seq<u8> {
    Seq::new(text::decimal(n).len(), |i: int| text::decimal(n)[i] as u8)
}

/// Fields in a row are cut into the same fields again, as long as none holds
/// the separator; and whatever is cut, the pieces in a row are what was cut.
pub proof fn law_cutting_undoes_joining(fields: Seq<Seq<u8>>, bytes: Seq<u8>, separator: u8)
    ensures
        fields.len() > 0 && (forall|i: int|
            0 <= i < fields.len() ==> !(#[trigger] fields[i]).contains(separator)) ==> split(
            in_a_row(fields, separator),
            separator,
        ) == fields,
        in_a_row(split(bytes, separator), separator) == bytes,
        forall|i: int|
            0 <= i < split(bytes, separator).len() ==> !(#[trigger] split(
                bytes,
                separator,
            )[i]).contains(separator),
{
    if fields.len() > 0 && (forall|i: int|
        0 <= i < fields.len() ==> !(#[trigger] fields[i]).contains(separator)) {
        lemma_cut_joined(fields, separator);
    }
    lemma_joined_cut(bytes, separator);
}

proof fn lemma_joined_cut(bytes: Seq<u8>, separator: u8)
    ensures
        split(bytes, separator).len() > 0,
        in_a_row(split(bytes, separator), separator) == bytes,
        forall|i: int|
            0 <= i < split(bytes, separator).len() ==> !(#[trigger] split(
                bytes,
                separator,
            )[i]).contains(separator),
    decreases bytes.len(),
{
    let pieces = split(bytes, separator);
    if bytes.len() > 0 {
        let front = bytes.drop_last();
        let before = split(front, separator);
        lemma_joined_cut(front, separator);
        if bytes.last() == separator {
            assert(pieces.drop_last() =~= before);
            assert(in_a_row(pieces, separator) =~= front.push(separator));
            assert(bytes =~= front.push(separator));
        } else {
            let grown = before.last().push(bytes.last());
            assert(pieces.drop_last() =~= before.drop_last());
            assert(in_a_row(pieces, separator) =~= front.push(bytes.last()));
            assert(bytes =~= front.push(bytes.last()));
            assert(!grown.contains(separator)) by {
                if grown.contains(separator) {
                    let k = choose|k: int| 0 <= k < grown.len() && grown[k] == separator;
                    assert(before.last()[k] == separator);
                    assert(before[before.len() - 1].contains(separator));
                }
            }
        }
        assert forall|i: int| 0 <= i < pieces.len() implies !(#[trigger] pieces[i]).contains(
            separator,
        ) by {
            if i < before.len() {
                assert(!before[i].contains(separator));
            }
        }
    } else {
        assert(in_a_row(pieces, separator) =~= bytes);
    }
}

/// What follows a separator is cut by itself.
proof fn lemma_cut_concat(a: Seq<u8>, b: Seq<u8>, separator: u8)
    ensures
        split(a.push(separator) + b, separator) == split(a, separator) + split(b, separator),
        split(b, separator).len() > 0,
    decreases b.len(),
{
    let all = a.push(separator) + b;
    if b.len() == 0 {
        assert(all =~= a.push(separator));
        assert(all.drop_last() =~= a);
        assert(split(all, separator) =~= split(a, separator) + split(b, separator));
    } else {
        lemma_cut_concat(a, b.drop_last(), separator);
        assert(all.drop_last() =~= a.push(separator) + b.drop_last());
        assert(split(all, separator) =~= split(a, separator) + split(b, separator));
    }
}

/// What holds no separator is one piece.
proof fn lemma_one_piece(a: Seq<u8>, separator: u8)
    requires
        !a.contains(separator),
    ensures
        split(a, separator) == seq![a],
    decreases a.len(),
{
    if a.len() > 0 {
        let front = a.drop_last();
        assert(!front.contains(separator)) by {
            if front.contains(separator) {
                let k = choose|k: int| 0 <= k < front.len() && front[k] == separator;
                assert(a[k] == separator);
            }
        }
        lemma_one_piece(front, separator);
        assert(a[a.len() - 1] == a.last());
        assert(front.push(a.last()) =~= a);
        assert(split(a, separator) =~= seq![a]);
    } else {
        assert(a =~= Seq::<u8>::empty());
    }
}

proof fn lemma_cut_joined(fields: Seq<Seq<u8>>, separator: u8)
    requires
        fields.len() > 0,
        forall|i: int| 0 <= i < fields.len() ==> !(#[trigger] fields[i]).contains(separator),
    ensures
        split(in_a_row(fields, separator), separator) == fields,
    decreases fields.len(),
{
    if fields.len() == 1 {
        lemma_one_piece(fields[0], separator);
        assert(seq![fields[0]] =~= fields);
    } else {
        let front = fields.drop_last();
        assert forall|i: int| 0 <= i < front.len() implies !(#[trigger] front[i]).contains(
            separator,
        ) by {
            assert(!fields[i].contains(separator));
        }
        lemma_cut_joined(front, separator);
        assert(!fields[fields.len() - 1].contains(separator));
        lemma_one_piece(fields.last(), separator);
        lemma_cut_concat(in_a_row(front, separator), fields.last(), separator);
        assert(front + seq![fields.last()] =~= fields);
    }
}

proof fn lemma_digits(n: nat)
    ensures
        numeral(digits(n)) == Some(n),
        forall|i: int| 0 <= i < digits(n).len() ==> 0x30 <= #[trigger] digits(n)[i] <= 0x39,
        digits(n).len() > 0,
    decreases n,
{
    text::law_decimal_reads_back(n);
    let all = digits(n);
    assert forall|i: int| 0 <= i < all.len() implies 0x30 <= #[trigger] all[i] <= 0x39 by {
        assert('0' <= text::decimal(n)[i] <= '9');
    }
    if n >= 10 {
        lemma_digits(n / 10);
        assert(all.drop_last() =~= digits(n / 10));
        assert(all.len() == digits(n / 10).len() + 1);
    }
}

/// Every number of 32 bits reads back from its decimal digits, and so does
/// every device from its two numbers with a colon between; nothing but digits
/// reads as a number.
pub proof fn law_devices_read_back(major: u32, minor: u32, bytes: Seq<u8>)
    ensures
        number(digits(major as nat)) == Some(major),
        device(digits(major as nat).push(0x3A) + digits(minor as nat)) == Some((major, minor)),
        number(bytes) is Some ==> bytes.len() > 0 && forall|i: int|
            0 <= i < bytes.len() ==> 0x30 <= #[trigger] bytes[i] <= 0x39,
{
    let a = digits(major as nat);
    let b = digits(minor as nat);
    lemma_digits(major as nat);
    lemma_digits(minor as nat);
    assert(!a.contains(0x3A)) by {
        if a.contains(0x3A) {
            let k = choose|k: int| 0 <= k < a.len() && a[k] == 0x3A;
            assert(0x30 <= a[k] <= 0x39);
        }
    }
    assert(!b.contains(0x3A)) by {
        if b.contains(0x3A) {
            let k = choose|k: int| 0 <= k < b.len() && b[k] == 0x3A;
            assert(0x30 <= b[k] <= 0x39);
        }
    }
    lemma_one_piece(a, 0x3A);
    lemma_one_piece(b, 0x3A);
    lemma_cut_concat(a, b, 0x3A);
    let parts = split(a.push(0x3A) + b, 0x3A);
    assert(parts == seq![a] + seq![b]);
    assert(parts[0] == a && parts[1] == b);
    if number(bytes) is Some {
        lemma_numerals_are_digits(bytes);
    }
}

proof fn lemma_numerals_are_digits(bytes: Seq<u8>)
    requires
        numeral(bytes) is Some,
    ensures
        bytes.len() > 0,
        forall|i: int| 0 <= i < bytes.len() ==> 0x30 <= #[trigger] bytes[i] <= 0x39,
    decreases bytes.len(),
{
    if bytes.len() > 1 {
        let front = bytes.drop_last();
        lemma_numerals_are_digits(front);
        assert forall|i: int| 0 <= i < bytes.len() implies 0x30 <= #[trigger] bytes[i] <= 0x39 by {
            if i < front.len() {
                assert(0x30 <= front[i] <= 0x39);
            }
        }
    }
}

/// A well-formed line is one mount, whatever its numbers and names: at least
/// six fields, a hyphen behind them and two more fields behind that.
pub proof fn law_a_well_formed_line_is_a_mount(
    fields: Seq<Seq<u8>>,
    at: int,
    mount_id: u32,
    parent_id: u32,
    major: u32,
    minor: u32,
)
    requires
        forall|i: int| 0 <= i < fields.len() ==> !(#[trigger] fields[i]).contains(0x20),
        6 <= at,
        at + 2 < fields.len(),
        fields[0] == digits(mount_id as nat),
        fields[1] == digits(parent_id as nat),
        fields[2] == digits(major as nat).push(0x3A) + digits(minor as nat),
        fields[at] == seq![0x2Du8],
        forall|i: int| 6 <= i < at ==> (#[trigger] fields[i]) != seq![0x2Du8],
    ensures
        entry(in_a_row(fields, 0x20)) == Some(
            EntryView {
                mount_id,
                parent_id,
                dev: (major, minor),
                mount_point: unescaped(fields[4]),
                fs_type: text::lossy(fields[at + 1]),
                source: text::lossy(unescaped(fields[at + 2])),
            },
        ),
{
    lemma_cut_joined(fields, 0x20);
    law_devices_read_back(mount_id, minor, Seq::empty());
    law_devices_read_back(parent_id, minor, Seq::empty());
    law_devices_read_back(major, minor, Seq::empty());
    lemma_hyphen_at(fields, 6, at);
}

proof fn lemma_hyphen_at(fields: Seq<Seq<u8>>, from: int, at: int)
    requires
        from <= at < fields.len(),
        fields[at] == seq![0x2Du8],
        forall|i: int| from <= i < at ==> (#[trigger] fields[i]) != seq![0x2Du8],
    ensures
        hyphen(fields, from) == at,
    decreases at - from,
{
    if from < at {
        assert(fields[from] != seq![0x2Du8]);
        lemma_hyphen_at(fields, from + 1, at);
    }
}

/// A table is read line by line: every line by itself, in order, and each line
/// that reads as a mount gives that mount and no other.
pub proof fn law_tables_are_read_line_by_line(a: Seq<u8>, b: Seq<u8>, line: Seq<u8>)
    ensures
        entries(split(a.push(0x0A) + b, 0x0A)) == entries(split(a, 0x0A)) + entries(
            split(b, 0x0A),
        ),
        !line.contains(0x0A) ==> entries(split(line, 0x0A)) == match entry(line) {
            Some(mount) => seq![mount],
            None => Seq::empty(),
        },
        entries(split(Seq::empty(), 0x0A)) == Seq::<EntryView>::empty(),
{
    lemma_cut_concat(a, b, 0x0A);
    lemma_entries_concat(split(a, 0x0A), split(b, 0x0A));
    if !line.contains(0x0A) {
        lemma_one_piece(line, 0x0A);
        lemma_one_line(line);
    }
    let nothing = Seq::<u8>::empty();
    assert(split(nothing, 0x0A) =~= seq![nothing]);
    lemma_one_line(nothing);
    assert(split(nothing, 0x20).len() == 1);
}

proof fn lemma_one_line(line: Seq<u8>)
    ensures
        entries(seq![line]) == match entry(line) {
            Some(mount) => seq![mount],
            None => Seq::empty(),
        },
{
    let lines = seq![line];
    assert(lines.drop_last() =~= Seq::<Seq<u8>>::empty());
    reveal_with_fuel(entries, 2);
    assert(entries(lines) =~= match entry(line) {
        Some(mount) => seq![mount],
        None => Seq::empty(),
    });
}

proof fn lemma_entries_concat(a: Seq<Seq<u8>>, b: Seq<Seq<u8>>)
    ensures
        entries(a + b) == entries(a) + entries(b),
    decreases b.len(),
{
    if b.len() == 0 {
        assert(a + b =~= a);
        assert(entries(a) + entries(b) =~= entries(a));
    } else {
        lemma_entries_concat(a, b.drop_last());
        assert((a + b).drop_last() =~= a + b.drop_last());
        assert(entries(a + b) =~= entries(a) + entries(b));
    }
}

/// A pathname as the kernel writes it: some bytes, the backslash among them, as
/// a backslash and three octal digits.
pub open spec fn as_written(path: Seq<u8>, escapes: spec_fn(u8) -> bool) -> Seq<u8>
    decreases path.len(),
{
    if path.len() == 0 {
        Seq::empty()
    } else if escapes(path[0]) {
        seq![
            0x5Cu8,
            (0x30 + path[0] / 64) as u8,
            (0x30 + path[0] / 8 % 8) as u8,
            (0x30 + path[0] % 8) as u8,
        ] + as_written(path.skip(1), escapes)
    } else {
        seq![path[0]] + as_written(path.skip(1), escapes)
    }
}

/// Every pathname reads back as it was, whichever bytes are escaped besides the
/// backslash; one without a backslash stands for itself.
pub proof fn law_pathnames_read_back(path: Seq<u8>, escapes: spec_fn(u8) -> bool)
    requires
        escapes(0x5C),
    ensures
        unescaped(as_written(path, escapes)) == path,
        !path.contains(0x5C) ==> unescaped(path) == path,
    decreases path.len(),
{
    if path.len() > 0 {
        let b = path[0];
        let rest = path.skip(1);
        let written = as_written(path, escapes);
        let tail = as_written(rest, escapes);
        law_pathnames_read_back(rest, escapes);
        assert(seq![b] + rest =~= path);
        if escapes(b) {
            assert(written.skip(4) =~= tail);
            assert(written[0] == 0x5C && written[1] == 0x30 + b / 64 && written[2] == 0x30 + b / 8
                % 8 && written[3] == 0x30 + b % 8);
            assert(escape_at_start(written));
            assert((b / 64) * 64 + (b / 8 % 8) * 8 + b % 8 == b);
        } else {
            assert(written.skip(1) =~= tail);
            assert(written[0] == b);
        }
        if !path.contains(0x5C) {
            assert(path[0] != 0x5C);
            assert(!rest.contains(0x5C)) by {
                if rest.contains(0x5C) {
                    let k = choose|k: int| 0 <= k < rest.len() && rest[k] == 0x5C;
                    assert(path[k + 1] == 0x5C);
                }
            }
        }
    } else {
        assert(path =~= Seq::<u8>::empty());
    }
}

/// Only a well-formed line is a mount: what is read of one stands in it, field
/// by field.
pub proof fn law_only_well_formed_lines_are_mounts(line: Seq<u8>)
    requires
        entry(line) is Some,
    ensures
        exists|fields: Seq<Seq<u8>>, at: int|
            {
                let mount = entry(line)->0;
                &&& #[trigger] in_a_row(fields, 0x20) == line
                &&& 6 <= at
                &&& at + 2 < fields.len()
                &&& #[trigger] fields[at] == seq![0x2Du8]
                &&& forall|i: int| 6 <= i < at ==> (#[trigger] fields[i]) != seq![0x2Du8]
                &&& forall|i: int| 0 <= i < fields.len() ==> !(#[trigger] fields[i]).contains(0x20)
                &&& number(fields[0]) == Some(mount.mount_id)
                &&& number(fields[1]) == Some(mount.parent_id)
                &&& device(fields[2]) == Some(mount.dev)
                &&& mount.mount_point == unescaped(fields[4])
                &&& mount.fs_type == text::lossy(fields[at + 1])
                &&& mount.source == text::lossy(unescaped(fields[at + 2]))
            },
{
    let fields = split(line, 0x20);
    let at = hyphen(fields, 6);
    lemma_joined_cut(line, 0x20);
    lemma_hyphen_found(fields, 6);
    assert(in_a_row(fields, 0x20) == line && fields[at] == seq![0x2Du8]);
}

proof fn lemma_hyphen_found(fields: Seq<Seq<u8>>, from: int)
    ensures
        from <= hyphen(fields, from),
        hyphen(fields, from) < fields.len() ==> fields[hyphen(fields, from)] == seq![0x2Du8],
        forall|i: int| from <= i < hyphen(fields, from) ==> (#[trigger] fields[i]) != seq![0x2Du8],
    decreases fields.len() - from,
{
    if from < fields.len() && fields[from] != seq![0x2Du8] {
        lemma_hyphen_found(fields, from + 1);
    }
}

/// Bytes as the characters of the same numbers.
pub open spec fn as_characters(bytes: Seq<u8>) -> Seq<char> {
    Seq::new(bytes.len(), |i: int| bytes[i] as char)
}

/// What reads as a number is decimal digits, as many as there are, and it reads
/// as what they are worth, as long as that has no more than 32 bits; what reads
/// as a device is two such numbers and one colon between them.
pub proof fn law_what_reads_as_a_number(bytes: Seq<u8>, n: u32, dev: (u32, u32))
    ensures
        number(bytes) == Some(n) <==> bytes.len() > 0 && (forall|i: int|
            0 <= i < bytes.len() ==> 0x30 <= #[trigger] bytes[i] <= 0x39) && text::worth(
            as_characters(bytes),
        ) == n,
        device(bytes) == Some(dev) ==> exists|k: int|
            {
                &&& 0 <= k < bytes.len()
                &&& #[trigger] bytes[k] == 0x3A
                &&& number(bytes.take(k)) == Some(dev.0)
                &&& number(bytes.skip(k + 1)) == Some(dev.1)
            },
{
    lemma_numeral_worth(bytes);
    if device(bytes) == Some(dev) {
        let parts = split(bytes, 0x3A);
        lemma_joined_cut(bytes, 0x3A);
        let k = parts[0].len() as int;
        reveal_with_fuel(in_a_row, 2);
        assert(parts.drop_last() =~= seq![parts[0]]);
        assert(bytes =~= parts[0].push(0x3A) + parts[1]);
        assert(bytes[k] == 0x3A);
        assert(bytes.take(k) =~= parts[0]);
        assert(bytes.skip(k + 1) =~= parts[1]);
    }
}

proof fn lemma_numeral_worth(bytes: Seq<u8>)
    ensures
        numeral(bytes) is Some <==> bytes.len() > 0 && (forall|i: int|
            0 <= i < bytes.len() ==> 0x30 <= #[trigger] bytes[i] <= 0x39),
        numeral(bytes) is Some ==> numeral(bytes)->0 == text::worth(as_characters(bytes)),
    decreases bytes.len(),
{
    if bytes.len() > 0 {
        let front = bytes.drop_last();
        lemma_numeral_worth(front);
        assert(as_characters(bytes).drop_last() =~= as_characters(front));
        assert(as_characters(bytes).last() == bytes.last() as char);
        if numeral(bytes) is Some {
            lemma_numerals_are_digits(bytes);
        }
        if forall|i: int| 0 <= i < bytes.len() ==> 0x30 <= #[trigger] bytes[i] <= 0x39 {
            assert forall|i: int| 0 <= i < front.len() implies 0x30 <= #[trigger] front[i]
                <= 0x39 by {
                assert(front[i] == bytes[i]);
            }
            assert(bytes[bytes.len() - 1] == bytes.last());
        }
        if bytes.len() == 1 {
            assert(front =~= Seq::<u8>::empty());
            assert(as_characters(front) =~= Seq::<char>::empty());
            reveal_with_fuel(text::worth, 2);
        }
    }
}

/// A table of one well-formed line, with or without a line feed at its end,
/// gives exactly one mount, and the mount has the numbers, the pathname, the
/// type and the source of the line.
pub proof fn law_a_well_formed_table_gives_its_mount(
    table: &[u8],
    mounts: Vec<MountEntry>,
    fields: Seq<Seq<u8>>,
    at: int,
    mount_id: u32,
    parent_id: u32,
    major: u32,
    minor: u32,
)
    requires
        call_ensures(parse_mountinfo, (table,), mounts),
        table@ == in_a_row(fields, 0x20) || table@ == in_a_row(fields, 0x20).push(0x0A),
        !in_a_row(fields, 0x20).contains(0x0A),
        forall|i: int| 0 <= i < fields.len() ==> !(#[trigger] fields[i]).contains(0x20),
        6 <= at,
        at + 2 < fields.len(),
        fields[0] == digits(mount_id as nat),
        fields[1] == digits(parent_id as nat),
        fields[2] == digits(major as nat).push(0x3A) + digits(minor as nat),
        fields[at] == seq![0x2Du8],
        forall|i: int| 6 <= i < at ==> (#[trigger] fields[i]) != seq![0x2Du8],
    ensures
        mounts@.len() == 1,
        mounts@[0].mount_id == mount_id,
        mounts@[0].parent_id == parent_id,
        mounts@[0].major == major,
        mounts@[0].minor == minor,
        mounts@[0].mount_point@ == unescaped(fields[4]),
        mounts@[0].fs_type@ == text::lossy(fields[at + 1]),
        mounts@[0].source@ == text::lossy(unescaped(fields[at + 2])),
{
    let line = in_a_row(fields, 0x20);
    let nothing = Seq::<u8>::empty();
    law_a_well_formed_line_is_a_mount(fields, at, mount_id, parent_id, major, minor);
    law_tables_are_read_line_by_line(line, nothing, line);
    if table@ == line.push(0x0A) {
        assert(line.push(0x0A) + nothing =~= line.push(0x0A));
        assert(entries(split(table@, 0x0A)) =~= seq![entry(line)->0]);
    }
    assert(entries_view(mounts@).len() == mounts@.len());
    assert(entries_view(mounts@)[0] == mounts@[0]@);
}

} // verus!
