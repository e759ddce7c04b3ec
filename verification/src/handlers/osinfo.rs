//! `guest-get-osinfo`.
//!
//! Returns the kernel release, kernel version and machine architecture plus the
//! allowlisted `os-release(5)` fields (`ID`, `NAME`, `PRETTY_NAME`, `VERSION`,
//! `VERSION_ID`, `VARIANT`, `VARIANT_ID`). `MACHINE_ID` and every other key are
//! dropped; absent fields are omitted.

use vstd::prelude::*;
use vstd::string::*;

use crate::json::{member, object, string, Json, Member};
use crate::json;
use crate::text::{chars_of, decoded_text, find_first, same_text, split_at_every, text_of, trim};
use crate::text;

verus! {

/// The three `uname(2)` fields reported.
#[derive(Debug, Clone, PartialEq, Eq)]
pub struct Uname {
    /// The release, e.g. `6.8.0-45-generic`.
    pub release: String,
    /// The version, e.g. `#45-Ubuntu SMP ...`.
    pub version: String,
    /// The machine, e.g. `x86_64`.
    pub machine: String,
}

/// Primary and fallback locations of `os-release(5)`.
pub const OS_RELEASE_PATHS: [&'static str; 2] = ["/etc/os-release", "/usr/lib/os-release"];

/// Explicit bound on an os-release file: the file is normally a few hundred
/// bytes; anything larger is treated as unreadable rather than parsed.
pub const OS_RELEASE_MAX_BYTES: usize = 65_536;

// ---------------------------------------------------------------------------
// Reading
// ---------------------------------------------------------------------------

/// What reading a file gave: at most one byte more than the bound is read.
#[derive(Debug, PartialEq, Eq)]
pub enum FileRead {
    /// The file does not exist.
    Missing,
    /// It could not be read; says why.
    Failed(String),
    /// Its bytes.
    Bytes(Vec<u8>),
}

/// Why a file is not used.
#[derive(Debug, Clone, Copy, PartialEq, Eq, Structural)]
pub enum Unusable {
    /// It is larger than the bound.
    TooLarge,
    /// It is not UTF-8.
    NotText,
}

/// The text of a file under [`OS_RELEASE_MAX_BYTES`]; a file over the bound or
/// not valid UTF-8 is an error.
pub fn read_os_release(bytes: Vec<u8>) -> (text: Result<String, Unusable>)
    ensures
        match text {
            Ok(text) => bytes@.len() <= OS_RELEASE_MAX_BYTES && vstd::utf8::valid_utf8(bytes@)
                && text@ == vstd::utf8::decode_utf8(bytes@),
            Err(Unusable::TooLarge) => bytes@.len() > OS_RELEASE_MAX_BYTES,
            Err(Unusable::NotText) => bytes@.len() <= OS_RELEASE_MAX_BYTES
                && !vstd::utf8::valid_utf8(bytes@),
        },
{
    if bytes.len() > OS_RELEASE_MAX_BYTES {
        return Err(Unusable::TooLarge);
    }
    match decoded_text(bytes) {
        Some(text) => Ok(text),
        None => Err(Unusable::NotText),
    }
}

/// The text that one read gives, if it gives any.
pub open spec fn usable(read: FileRead) -> Option<Seq<char>> {
    match read {
        FileRead::Bytes(bytes) => if bytes@.len() <= OS_RELEASE_MAX_BYTES
            && vstd::utf8::valid_utf8(bytes@) {
            Some(vstd::utf8::decode_utf8(bytes@))
        } else {
            None
        },
        _ => None,
    }
}

/// The text that the first file that is not missing gives.
pub open spec fn first_present(reads: Seq<FileRead>) -> Option<Seq<char>>
    decreases reads.len(),
{
    if reads.len() == 0 {
        None
    } else if reads[0] is Missing {
        first_present(reads.skip(1))
    } else {
        usable(reads[0])
    }
}

/// The text of the first file that exists: a later file counts only when the
/// earlier ones are missing. Any other failure (permissions, size, encoding)
/// yields `None`, so the reply carries the kernel fields only rather than a
/// stale vendor file.
pub fn os_release_from(reads: Vec<FileRead>) -> (text: Option<String>)
    ensures
        match text {
            Some(text) => first_present(reads@) == Some(text@),
            None => first_present(reads@) is None,
        },
{
    let mut i: usize = 0;
    proof {
        assert(reads@.skip(0) =~= reads@);
    }
    while i < reads.len()
        invariant
            i <= reads@.len(),
            first_present(reads@) == first_present(reads@.skip(i as int)),
        decreases reads.len() - i,
    {
        proof {
            assert(reads@.skip(i as int).skip(1) =~= reads@.skip(i + 1));
        }
        match &reads[i] {
            FileRead::Missing => {
                i = i + 1;
            },
            FileRead::Failed(_) => {
                return None;
            },
            FileRead::Bytes(bytes) => {
                let bytes = vstd::slice::slice_to_vec(bytes.as_slice());
                return match read_os_release(bytes) {
                    Ok(text) => Some(text),
                    Err(_) => None,
                };
            },
        }
    }
    None
}

// ---------------------------------------------------------------------------
// Parsing
// ---------------------------------------------------------------------------

/// The rest of a double-quoted value: a backslash escapes exactly `$`, a
/// backtick, `"` and itself, and is literal before anything else.
pub open spec fn double_quoted(chars: Seq<char>) -> Seq<char>
    decreases chars.len(),
{
    if chars.len() == 0 || chars[0] == '"' {
        Seq::empty()
    } else if chars[0] == '\\' {
        if chars.len() == 1 {
            seq!['\\']
        } else if chars[1] == '$' || chars[1] == '`' || chars[1] == '"' || chars[1] == '\\' {
            seq![chars[1]] + double_quoted(chars.skip(2))
        } else {
            seq!['\\', chars[1]] + double_quoted(chars.skip(2))
        }
    } else {
        seq![chars[0]] + double_quoted(chars.skip(1))
    }
}

/// An unquoted value: a backslash stands for the character after it.
pub open spec fn unescaped(chars: Seq<char>) -> Seq<char>
    decreases chars.len(),
{
    if chars.len() == 0 {
        Seq::empty()
    } else if chars[0] == '\\' {
        if chars.len() == 1 {
            Seq::empty()
        } else {
            seq![chars[1]] + unescaped(chars.skip(2))
        }
    } else {
        seq![chars[0]] + unescaped(chars.skip(1))
    }
}

/// A value by the quoting rules. What follows a closing quote is ignored.
pub open spec fn unquoted(raw: Seq<char>) -> Seq<char> {
    if raw.len() > 0 && raw[0] == '\'' {
        let rest = raw.skip(1);
        rest.take(text::first_of(rest, '\''))
    } else if raw.len() > 0 && raw[0] == '"' {
        double_quoted(raw.skip(1))
    } else {
        unescaped(raw)
    }
}

/// A character of a key.
pub open spec fn key_char(c: char) -> bool {
    ('0' <= c && c <= '9') || ('A' <= c && c <= 'Z') || ('a' <= c && c <= 'z') || c == '_'
}

/// A key.
pub open spec fn is_key(chars: Seq<char>) -> bool {
    chars.len() > 0 && forall|i: int| 0 <= i < chars.len() ==> key_char(#[trigger] chars[i])
}

/// The assignment that a line makes, if it makes one: blank lines, comments
/// and malformed lines make none.
pub open spec fn assignment(line: Seq<char>) -> Option<(Seq<char>, Seq<char>)> {
    let inner = text::trimmed(line);
    let at = text::first_of(inner, '=');
    if inner.len() == 0 || inner[0] == '#' || at >= inner.len() {
        None
    } else {
        let key = text::trimmed(inner.take(at));
        if is_key(key) {
            Some((key, unquoted(text::trimmed(inner.skip(at + 1)))))
        } else {
            None
        }
    }
}

/// The assignments of some lines: a later one overrides an earlier one.
pub open spec fn assignments(lines: Seq<Seq<char>>) -> Map<Seq<char>, Seq<char>>
    decreases lines.len(),
{
    if lines.len() == 0 {
        Map::empty()
    } else {
        let before = assignments(lines.drop_last());
        match assignment(lines.last()) {
            Some((key, value)) => before.insert(key, value),
            None => before,
        }
    }
}

/// The fields of an os-release text.
pub open spec fn fields_of(text: Seq<char>) -> Map<Seq<char>, Seq<char>> {
    assignments(text::split(text, '\n'))
}

/// One field.
#[derive(Debug, Clone, PartialEq, Eq)]
pub struct Field {
    pub key: String,
    pub value: String,
}

/// The fields of an os-release file, each key once.
#[derive(Debug, Clone, PartialEq, Eq)]
pub struct OsRelease {
    fields: Vec<Field>,
}

/// The fields as a map.
spec fn map_of(fields: Seq<Field>) -> Map<Seq<char>, Seq<char>>
    decreases fields.len(),
{
    if fields.len() == 0 {
        Map::empty()
    } else {
        map_of(fields.drop_last()).insert(fields.last().key@, fields.last().value@)
    }
}

/// Each key occurs once.
spec fn distinct(fields: Seq<Field>) -> bool {
    forall|i: int, j: int|
        0 <= i < j < fields.len() ==> (#[trigger] fields[i]).key@ != (#[trigger] fields[j]).key@
}

impl View for OsRelease {
    type V = Map<Seq<char>, Seq<char>>;

    closed spec fn view(&self) -> Map<Seq<char>, Seq<char>> {
        map_of(self.fields@)
    }
}

proof fn lemma_map_of(fields: Seq<Field>)
    requires
        distinct(fields),
    ensures
        forall|i: int|
            0 <= i < fields.len() ==> map_of(fields).contains_pair(
                (#[trigger] fields[i]).key@,
                fields[i].value@,
            ),
        forall|key: Seq<char>| #[trigger]
            map_of(fields).contains_key(key) ==> exists|i: int|
                0 <= i < fields.len() && (#[trigger] fields[i]).key@ == key,
    decreases fields.len(),
{
    if fields.len() > 0 {
        let front = fields.drop_last();
        assert(distinct(front)) by {
            assert forall|i: int, j: int| 0 <= i < j < front.len() implies (
            #[trigger] front[i]).key@ != (#[trigger] front[j]).key@ by {
                assert(fields[i].key@ != fields[j].key@);
            }
        }
        lemma_map_of(front);
        assert forall|i: int| 0 <= i < fields.len() implies map_of(fields).contains_pair(
            (#[trigger] fields[i]).key@,
            fields[i].value@,
        ) by {
            if i < front.len() {
                assert(front[i] == fields[i]);
                assert(fields[i].key@ != fields[fields.len() - 1].key@);
            }
        }
        assert forall|key: Seq<char>| #[trigger]
            map_of(fields).contains_key(key) implies exists|i: int|
            0 <= i < fields.len() && (#[trigger] fields[i]).key@ == key by {
            if key == fields.last().key@ {
                assert(fields[fields.len() - 1].key@ == key);
            } else {
                assert(map_of(front).contains_key(key));
                let i = choose|i: int|
                    0 <= i < front.len() && (#[trigger] front[i]).key@ == key;
                assert(fields[i].key@ == key);
            }
        }
    }
}

proof fn lemma_map_of_update(fields: Seq<Field>, i: int, field: Field)
    requires
        distinct(fields),
        0 <= i < fields.len(),
        field.key@ == fields[i].key@,
    ensures
        map_of(fields.update(i, field)) == map_of(fields).insert(field.key@, field.value@),
        distinct(fields.update(i, field)),
    decreases fields.len(),
{
    let front = fields.drop_last();
    let after = fields.update(i, field);
    assert forall|a: int, b: int| 0 <= a < b < after.len() implies (#[trigger] after[a]).key@ != (
    #[trigger] after[b]).key@ by {
        assert(fields[a].key@ != fields[b].key@);
    }
    if i == fields.len() - 1 {
        assert(after.drop_last() =~= front);
        assert(map_of(after) =~= map_of(fields).insert(field.key@, field.value@));
    } else {
        assert(distinct(front)) by {
            assert forall|a: int, b: int| 0 <= a < b < front.len() implies (
            #[trigger] front[a]).key@ != (#[trigger] front[b]).key@ by {
                assert(fields[a].key@ != fields[b].key@);
            }
        }
        lemma_map_of_update(front, i, field);
        assert(after.drop_last() =~= front.update(i, field));
        assert(fields[i].key@ != fields[fields.len() - 1].key@);
        assert(map_of(after) =~= map_of(fields).insert(field.key@, field.value@));
    }
}

impl OsRelease {
    /// Each key occurs once.
    pub closed spec fn wf(&self) -> bool {
        distinct(self.fields@)
    }

    /// No fields.
    pub fn empty() -> (fields: OsRelease)
        ensures
            fields.wf(),
            fields@ == Map::<Seq<char>, Seq<char>>::empty(),
    {
        OsRelease { fields: Vec::new() }
    }

    /// The number of fields.
    pub fn len(&self) -> (len: usize)
        requires
            self.wf(),
        ensures
            len == self@.dom().len(),
            self@.dom().finite(),
    {
        proof {
            lemma_map_len(self.fields@);
        }
        self.fields.len()
    }

    fn find(&self, key: &str) -> (at: Option<usize>)
        requires
            self.wf(),
        ensures
            match at {
                Some(i) => i < self.fields@.len() && self.fields@[i as int].key@ == key@
                    && self@.contains_pair(key@, self.fields@[i as int].value@),
                None => !self@.contains_key(key@),
            },
    {
        proof {
            lemma_map_of(self.fields@);
        }
        for i in 0..self.fields.len()
            invariant
                self@ == map_of(self.fields@),
                forall|j: int|
                    0 <= j < self.fields@.len() ==> self@.contains_pair(
                        (#[trigger] self.fields@[j]).key@,
                        self.fields@[j].value@,
                    ),
                forall|j: int| 0 <= j < i ==> (#[trigger] self.fields@[j]).key@ != key@,
        {
            if same_text(self.fields[i].key.as_str(), key) {
                return Some(i);
            }
        }
        None
    }

    /// The value of a key.
    pub fn get(&self, key: &str) -> (value: Option<String>)
        requires
            self.wf(),
        ensures
            match value {
                Some(value) => self@.contains_pair(key@, value@),
                None => !self@.contains_key(key@),
            },
    {
        match self.find(key) {
            Some(i) => Some(self.fields[i].value.clone()),
            None => None,
        }
    }

    fn set(&mut self, key: String, value: String)
        requires
            old(self).wf(),
        ensures
            final(self)@ == old(self)@.insert(key@, value@),
            final(self).wf(),
    {
        let ghost before = self.fields@;
        proof {
            lemma_map_of(before);
        }
        match self.find(key.as_str()) {
            Some(i) => {
                let field = Field { key, value };
                proof {
                    lemma_map_of_update(before, i as int, field);
                }
                self.fields.set(i, field);
            },
            None => {
                self.fields.push(Field { key, value });
                proof {
                    assert(self.fields@.drop_last() =~= before);
                    assert forall|a: int, b: int| 0 <= a < b < self.fields@.len() implies (
                    #[trigger] self.fields@[a]).key@ != (#[trigger] self.fields@[b]).key@ by {
                        assert(before[a].key@ != key@);
                        if b < before.len() {
                            assert(before[a].key@ != before[b].key@);
                        }
                    }
                }
            },
        }
    }
}

proof fn lemma_map_len(fields: Seq<Field>)
    requires
        distinct(fields),
    ensures
        map_of(fields).dom().len() == fields.len(),
        map_of(fields).dom().finite(),
    decreases fields.len(),
{
    if fields.len() > 0 {
        let front = fields.drop_last();
        assert(distinct(front)) by {
            assert forall|a: int, b: int| 0 <= a < b < front.len() implies (
            #[trigger] front[a]).key@ != (#[trigger] front[b]).key@ by {
                assert(fields[a].key@ != fields[b].key@);
            }
        }
        lemma_map_len(front);
        lemma_map_of(front);
        let key = fields.last().key@;
        if map_of(front).contains_key(key) {
            let i = choose|i: int| 0 <= i < front.len() && (#[trigger] front[i]).key@ == key;
            assert(fields[i].key@ != fields[fields.len() - 1].key@);
        }
        assert(map_of(fields).dom() =~= map_of(front).dom().insert(key));
    }
}

fn is_key_char(c: char) -> (yes: bool)
    ensures
        yes == key_char(c),
{
    ('0' <= c && c <= '9') || ('A' <= c && c <= 'Z') || ('a' <= c && c <= 'z') || c == '_'
}

fn is_key_text(chars: &[char]) -> (yes: bool)
    ensures
        yes == is_key(chars@),
{
    if chars.len() == 0 {
        return false;
    }
    for i in 0..chars.len()
        invariant
            forall|j: int| 0 <= j < i ==> key_char(#[trigger] chars@[j]),
    {
        if !is_key_char(chars[i]) {
            return false;
        }
    }
    true
}

/// Decodes one value by the quoting rules.
fn unquote(raw: &[char]) -> (value: String)
    ensures
        value@ == unquoted(raw@),
{
    if raw.len() > 0 && raw[0] == '\'' {
        let rest = vstd::slice::slice_subrange(raw, 1, raw.len());
        let at = find_first(rest, '\'');
        proof {
            assert(rest@ =~= raw@.skip(1));
            assert(rest@.subrange(0, at as int) =~= rest@.take(at as int));
        }
        return text_of(vstd::slice::slice_subrange(rest, 0, at));
    }
    let mut out = String::new();
    if raw.len() > 0 && raw[0] == '"' {
        let mut i: usize = 1;
        proof {
            assert(out@ + double_quoted(raw@.skip(1)) =~= double_quoted(raw@.skip(1)));
        }
        while i < raw.len() && raw[i] != '"'
            invariant
                1 <= i <= raw@.len(),
                out@ + double_quoted(raw@.skip(i as int)) == double_quoted(raw@.skip(1)),
            decreases raw.len() - i,
        {
            let ghost before = out@;
            let ghost rest = raw@.skip(i as int);
            if raw[i] == '\\' {
                if i + 1 == raw.len() {
                    out.push('\\');
                    i = i + 1;
                    proof {
                        assert(out@ + double_quoted(raw@.skip(i as int)) =~= before
                            + double_quoted(rest));
                    }
                } else {
                    let c = raw[i + 1];
                    if !(c == '$' || c == '`' || c == '"' || c == '\\') {
                        out.push('\\');
                    }
                    out.push(c);
                    i = i + 2;
                    proof {
                        assert(rest.skip(2) =~= raw@.skip(i as int));
                        assert(out@ + double_quoted(raw@.skip(i as int)) =~= before
                            + double_quoted(rest));
                    }
                }
            } else {
                out.push(raw[i]);
                i = i + 1;
                proof {
                    assert(rest.skip(1) =~= raw@.skip(i as int));
                    assert(out@ + double_quoted(raw@.skip(i as int)) =~= before + double_quoted(
                        rest,
                    ));
                }
            }
        }
        proof {
            assert(double_quoted(raw@.skip(i as int)) =~= Seq::empty());
            assert(out@ =~= out@ + double_quoted(raw@.skip(i as int)));
        }
        return out;
    }
    let mut i: usize = 0;
    proof {
        assert(raw@.skip(0) =~= raw@);
        assert(out@ + unescaped(raw@.skip(0)) =~= unescaped(raw@));
    }
    while i < raw.len()
        invariant
            i <= raw@.len(),
            out@ + unescaped(raw@.skip(i as int)) == unescaped(raw@),
        decreases raw.len() - i,
    {
        let ghost before = out@;
        let ghost rest = raw@.skip(i as int);
        if raw[i] == '\\' {
            if i + 1 == raw.len() {
                i = i + 1;
                proof {
                    assert(out@ + unescaped(raw@.skip(i as int)) =~= before + unescaped(rest));
                }
            } else {
                out.push(raw[i + 1]);
                i = i + 2;
                proof {
                    assert(rest.skip(2) =~= raw@.skip(i as int));
                    assert(out@ + unescaped(raw@.skip(i as int)) =~= before + unescaped(rest));
                }
            }
        } else {
            out.push(raw[i]);
            i = i + 1;
            proof {
                assert(rest.skip(1) =~= raw@.skip(i as int));
                assert(out@ + unescaped(raw@.skip(i as int)) =~= before + unescaped(rest));
            }
        }
    }
    proof {
        assert(unescaped(raw@.skip(i as int)) =~= Seq::empty());
        assert(out@ =~= out@ + unescaped(raw@.skip(i as int)));
    }
    out
}

fn parse_line(line: &[char]) -> (found: Option<(String, String)>)
    ensures
        match found {
            Some((key, value)) => assignment(line@) == Some((key@, value@)),
            None => assignment(line@) is None,
        },
{
    let inner = trim(line);
    if inner.len() == 0 || inner[0] == '#' {
        return None;
    }
    let at = find_first(inner.as_slice(), '=');
    if at >= inner.len() {
        return None;
    }
    let before = vstd::slice::slice_subrange(inner.as_slice(), 0, at);
    let after = vstd::slice::slice_subrange(inner.as_slice(), at + 1, inner.len());
    proof {
        assert(before@ =~= inner@.take(at as int));
        assert(after@ =~= inner@.skip(at + 1));
    }
    let key = trim(before);
    if !is_key_text(key.as_slice()) {
        return None;
    }
    let raw = trim(after);
    Some((text_of(key.as_slice()), unquote(raw.as_slice())))
}

/// Parses `os-release(5)` text.
///
/// Comment and blank lines are skipped; keys are letters, digits and
/// underscores; values may be unquoted, single-quoted (literal) or
/// double-quoted; anything after a closing quote is ignored; a later assignment
/// overrides an earlier one.
pub fn parse_os_release(text: &str) -> (fields: OsRelease)
    ensures
        fields@ == fields_of(text@),
        fields.wf(),
{
    let chars = chars_of(text);
    let lines = split_at_every(chars.as_slice(), '\n');
    let ghost all = text::split(text@, '\n');
    let mut fields = OsRelease::empty();
    for i in 0..lines.len()
        invariant
            all == text::pieces_view(lines@),
            fields@ == assignments(all.take(i as int)),
            fields.wf(),
    {
        proof {
            assert(all.take(i + 1).drop_last() =~= all.take(i as int));
            assert(all.take(i + 1).last() == lines@[i as int]@);
        }
        if let Some((key, value)) = parse_line(lines[i].as_slice()) {
            fields.set(key, value);
        }
    }
    proof {
        assert(all.take(lines@.len() as int) =~= all);
    }
    fields
}

/// Every key is a key: letters, digits and underscores.
pub proof fn law_every_key_is_an_identifier(text: Seq<char>, key: Seq<char>)
    requires
        fields_of(text).contains_key(key),
    ensures
        is_key(key),
{
    lemma_keys(text::split(text, '\n'), key);
}

proof fn lemma_keys(lines: Seq<Seq<char>>, key: Seq<char>)
    requires
        assignments(lines).contains_key(key),
    ensures
        is_key(key),
    decreases lines.len(),
{
    if lines.len() > 0 && assignments(lines.drop_last()).contains_key(key) {
        lemma_keys(lines.drop_last(), key);
    }
}

// ---------------------------------------------------------------------------
// The reply
// ---------------------------------------------------------------------------

/// The `GuestOSInfo` reply. Absent fields are omitted.
#[derive(Debug, Clone, PartialEq, Eq)]
pub struct OsInfo {
    /// `uname` release.
    pub kernel_release: Option<String>,
    /// `uname` version.
    pub kernel_version: Option<String>,
    /// `uname` machine.
    pub machine: Option<String>,
    /// `ID`.
    pub id: Option<String>,
    /// `NAME`.
    pub name: Option<String>,
    /// `PRETTY_NAME`.
    pub pretty_name: Option<String>,
    /// `VERSION`.
    pub version: Option<String>,
    /// `VERSION_ID`.
    pub version_id: Option<String>,
    /// `VARIANT`.
    pub variant: Option<String>,
    /// `VARIANT_ID`.
    pub variant_id: Option<String>,
}

/// An optional text, taken by its view.
pub open spec fn text_view(text: Option<String>) -> Option<Seq<char>> {
    match text {
        Some(text) => Some(text@),
        None => None,
    }
}

/// The value of a key, if there is one.
pub open spec fn lookup(fields: Map<Seq<char>, Seq<char>>, key: Seq<char>) -> Option<Seq<char>> {
    if fields.contains_key(key) {
        Some(fields[key])
    } else {
        None
    }
}

/// The fields that the os-release text gives, if there is one.
pub open spec fn optional_fields(os_release: Option<String>) -> Map<Seq<char>, Seq<char>> {
    match os_release {
        Some(text) => fields_of(text@),
        None => Map::empty(),
    }
}

/// Assembles the reply; only the allowlisted keys are copied.
pub fn os_info(uname: Uname, os_release: &Option<String>) -> (info: OsInfo)
    ensures
        info.kernel_release == Some(uname.release),
        info.kernel_version == Some(uname.version),
        info.machine == Some(uname.machine),
        ({
            let fields = optional_fields(*os_release);
            &&& text_view(info.id) == lookup(fields, "ID"@)
            &&& text_view(info.name) == lookup(fields, "NAME"@)
            &&& text_view(info.pretty_name) == lookup(fields, "PRETTY_NAME"@)
            &&& text_view(info.version) == lookup(fields, "VERSION"@)
            &&& text_view(info.version_id) == lookup(fields, "VERSION_ID"@)
            &&& text_view(info.variant) == lookup(fields, "VARIANT"@)
            &&& text_view(info.variant_id) == lookup(fields, "VARIANT_ID"@)
        }),
{
    let fields = match os_release {
        Some(text) => parse_os_release(text.as_str()),
        None => OsRelease::empty(),
    };
    OsInfo {
        kernel_release: Some(uname.release),
        kernel_version: Some(uname.version),
        machine: Some(uname.machine),
        id: fields.get("ID"),
        name: fields.get("NAME"),
        pretty_name: fields.get("PRETTY_NAME"),
        version: fields.get("VERSION"),
        version_id: fields.get("VERSION_ID"),
        variant: fields.get("VARIANT"),
        variant_id: fields.get("VARIANT_ID"),
    }
}

/// A member for a field that is present.
pub open spec fn optional_member(name: Seq<char>, value: Option<String>) -> Seq<json::MemberView> {
    match value {
        Some(text) => seq![json::MemberView { name, value: json::JsonView::Text(text@) }],
        None => Seq::empty(),
    }
}

fn push_optional(members: &mut Vec<Member>, name: &str, value: &Option<String>)
    ensures
        json::members_view(final(members)@) == json::members_view(old(members)@) + optional_member(
            name@,
            *value,
        ),
{
    let ghost before = json::members_view(members@);
    if let Some(text) = value {
        members.push(member(name, string(text.as_str())));
    }
    proof {
        assert(json::members_view(members@) =~= before + optional_member(name@, *value));
    }
}

impl OsInfo {
    /// The reply's members, ordered by name.
    pub open spec fn members(&self) -> Seq<json::MemberView> {
        optional_member("id"@, self.id) + optional_member("kernel-release"@, self.kernel_release)
            + optional_member("kernel-version"@, self.kernel_version) + optional_member(
            "machine"@,
            self.machine,
        ) + optional_member("name"@, self.name) + optional_member(
            "pretty-name"@,
            self.pretty_name,
        ) + optional_member("variant"@, self.variant) + optional_member(
            "variant-id"@,
            self.variant_id,
        ) + optional_member("version"@, self.version) + optional_member(
            "version-id"@,
            self.version_id,
        )
    }

    /// The reply.
    pub fn to_json(&self) -> (reply: Json)
        ensures
            reply@ == json::JsonView::Object(self.members()),
    {
        let mut members: Vec<Member> = Vec::new();
        push_optional(&mut members, "id", &self.id);
        push_optional(&mut members, "kernel-release", &self.kernel_release);
        push_optional(&mut members, "kernel-version", &self.kernel_version);
        push_optional(&mut members, "machine", &self.machine);
        push_optional(&mut members, "name", &self.name);
        push_optional(&mut members, "pretty-name", &self.pretty_name);
        push_optional(&mut members, "variant", &self.variant);
        push_optional(&mut members, "variant-id", &self.variant_id);
        push_optional(&mut members, "version", &self.version);
        push_optional(&mut members, "version-id", &self.version_id);
        proof {
            assert(json::members_view(members@) =~= self.members());
        }
        object(members)
    }
}

// ---------------------------------------------------------------------------
// Laws
// ---------------------------------------------------------------------------

/// An unquoted value without a backslash is taken as it is.
pub proof fn law_unquoted_values_are_literal(raw: Seq<char>)
    requires
        !raw.contains('\\'),
        raw.len() > 0 ==> raw[0] != '\'' && raw[0] != '"',
    ensures
        unquoted(raw) == raw,
{
    lemma_unescaped_plain(raw);
}

proof fn lemma_unescaped_plain(raw: Seq<char>)
    requires
        !raw.contains('\\'),
    ensures
        unescaped(raw) == raw,
    decreases raw.len(),
{
    if raw.len() > 0 {
        let rest = raw.skip(1);
        assert(raw[0] != '\\');
        assert(!rest.contains('\\')) by {
            if rest.contains('\\') {
                let k = choose|k: int| 0 <= k < rest.len() && rest[k] == '\\';
                assert(raw[k + 1] == '\\');
            }
        }
        lemma_unescaped_plain(rest);
        assert(unescaped(raw) =~= raw);
    } else {
        assert(raw =~= Seq::<char>::empty());
    }
}

/// A single-quoted value is the text up to the next single quote, as it is;
/// what follows does not count.
pub proof fn law_single_quoted_values_are_literal(value: Seq<char>, rest: Seq<char>)
    requires
        !value.contains('\''),
    ensures
        unquoted(seq!['\''] + value + seq!['\''] + rest) == value,
        unquoted(seq!['\''] + value) == value,
{
    let closed = seq!['\''] + value + seq!['\''] + rest;
    let inner = closed.skip(1);
    assert(inner =~= value + seq!['\''] + rest);
    text::law_first_of_is_the_first(inner, '\'');
    let at = text::first_of(inner, '\'');
    assert(inner[value.len() as int] == '\'');
    assert(at == value.len()) by {
        if at > value.len() {
            assert(inner[value.len() as int] != '\'');
        }
        if at < value.len() {
            assert(value[at] == inner[at]);
        }
    }
    assert(inner.take(at) =~= value);
    let open = seq!['\''] + value;
    assert(open.skip(1) =~= value);
    text::law_first_of_is_the_first(value, '\'');
    assert(value.take(value.len() as int) =~= value);
}

/// A value as it is written between double quotes: a backslash before each of
/// the four characters that need one.
pub open spec fn in_double_quotes(value: Seq<char>) -> Seq<char>
    decreases value.len(),
{
    if value.len() == 0 {
        Seq::empty()
    } else if value[0] == '$' || value[0] == '`' || value[0] == '"' || value[0] == '\\' {
        seq!['\\', value[0]] + in_double_quotes(value.skip(1))
    } else {
        seq![value[0]] + in_double_quotes(value.skip(1))
    }
}

/// Every value reads back from its double-quoted form, whatever follows the
/// closing quote.
pub proof fn law_double_quoted_values_read_back(value: Seq<char>, rest: Seq<char>)
    ensures
        unquoted(seq!['"'] + in_double_quotes(value) + seq!['"'] + rest) == value,
{
    let raw = seq!['"'] + in_double_quotes(value) + seq!['"'] + rest;
    assert(raw.skip(1) =~= in_double_quotes(value) + seq!['"'] + rest);
    lemma_double_quoted(value, rest);
}

proof fn lemma_double_quoted(value: Seq<char>, rest: Seq<char>)
    ensures
        double_quoted(in_double_quotes(value) + seq!['"'] + rest) == value,
    decreases value.len(),
{
    let all = in_double_quotes(value) + seq!['"'] + rest;
    if value.len() == 0 {
        assert(all[0] == '"');
        assert(value =~= Seq::<char>::empty());
    } else {
        let c = value[0];
        let tail = in_double_quotes(value.skip(1)) + seq!['"'] + rest;
        lemma_double_quoted(value.skip(1), rest);
        assert(seq![c] + value.skip(1) =~= value);
        if c == '$' || c == '`' || c == '"' || c == '\\' {
            assert(all.skip(2) =~= tail);
            assert(all[0] == '\\' && all[1] == c);
        } else {
            assert(all.skip(1) =~= tail);
            assert(all[0] == c);
        }
    }
}

/// A double-quoted value is the text between the quotes as it is, if it holds
/// no double quote and no backslash but before a character that needs none.
pub proof fn law_double_quoted_values_are_literal(value: Seq<char>, rest: Seq<char>)
    requires
        !value.contains('"'),
        forall|i: int|
            0 <= i < value.len() && #[trigger] value[i] == '\\' ==> i + 1 < value.len() && value[i
                + 1] != '$' && value[i + 1] != '`' && value[i + 1] != '\\',
    ensures
        unquoted(seq!['"'] + value + seq!['"'] + rest) == value,
{
    let raw = seq!['"'] + value + seq!['"'] + rest;
    assert(raw.skip(1) =~= value + seq!['"'] + rest);
    lemma_double_literal(value, rest);
}

proof fn lemma_double_literal(value: Seq<char>, rest: Seq<char>)
    requires
        !value.contains('"'),
        forall|i: int|
            0 <= i < value.len() && #[trigger] value[i] == '\\' ==> i + 1 < value.len() && value[i
                + 1] != '$' && value[i + 1] != '`' && value[i + 1] != '\\',
    ensures
        double_quoted(value + seq!['"'] + rest) == value,
    decreases value.len(),
{
    let all = value + seq!['"'] + rest;
    if value.len() == 0 {
        assert(all[0] == '"');
        assert(value =~= Seq::<char>::empty());
    } else {
        let step: int = if value[0] == '\\' {
            2
        } else {
            1
        };
        let left = value.skip(step);
        assert(!left.contains('"')) by {
            if left.contains('"') {
                let k = choose|k: int| 0 <= k < left.len() && left[k] == '"';
                assert(value[k + step] == '"');
            }
        }
        assert forall|i: int| 0 <= i < left.len() && #[trigger] left[i] == '\\' implies i + 1
            < left.len() && left[i + 1] != '$' && left[i + 1] != '`' && left[i + 1] != '\\' by {
            assert(value[i + step] == '\\');
        }
        lemma_double_literal(left, rest);
        assert(all.skip(step) =~= left + seq!['"'] + rest);
        assert(value[0] != '"');
        assert(all[0] == value[0]);
        if step == 2 {
            assert(value[0] == '\\');
            assert(value[1] != '"');
            assert(all[1] == value[1]);
            assert(seq!['\\', value[1]] + left =~= value);
        } else {
            assert(seq![value[0]] + left =~= value);
        }
    }
}

/// A value with a backslash before each character.
pub open spec fn backslashed(value: Seq<char>) -> Seq<char>
    decreases value.len(),
{
    if value.len() == 0 {
        Seq::empty()
    } else {
        seq!['\\', value[0]] + backslashed(value.skip(1))
    }
}

/// Outside quotes a backslash stands for the character after it: every value
/// reads back from its backslashed form.
pub proof fn law_backslashed_values_read_back(value: Seq<char>)
    ensures
        unquoted(backslashed(value)) == value,
{
    lemma_backslashed(value);
    if value.len() > 0 {
        assert(backslashed(value)[0] == '\\');
    }
}

proof fn lemma_backslashed(value: Seq<char>)
    ensures
        unescaped(backslashed(value)) == value,
    decreases value.len(),
{
    if value.len() > 0 {
        let all = backslashed(value);
        lemma_backslashed(value.skip(1));
        assert(all.skip(2) =~= backslashed(value.skip(1)));
        assert(seq![value[0]] + value.skip(1) =~= value);
    } else {
        assert(value =~= Seq::<char>::empty());
    }
}

/// A key of letters, digits and underscores.
pub open spec fn plain_key(key: Seq<char>) -> bool {
    key.len() > 0 && forall|i: int|
        0 <= i < key.len() ==> ('A' <= #[trigger] key[i] <= 'Z' || 'a' <= key[i] <= 'z' || '0' <= key[i]
            <= '9' || key[i] == '_')
}

/// A line that assigns a value to a key does so, whatever white space stands
/// around the two.
pub proof fn law_an_assignment_is_read(
    a: Seq<char>,
    key: Seq<char>,
    b: Seq<char>,
    c: Seq<char>,
    raw: Seq<char>,
    d: Seq<char>,
)
    requires
        text::all_white(a),
        text::all_white(b),
        text::all_white(c),
        text::all_white(d),
        plain_key(key),
        raw.len() > 0 ==> !text::white_space(raw[0]) && !text::white_space(raw.last()),
    ensures
        assignment(a + key + b + seq!['='] + c + raw + d) == Some((key, unquoted(raw))),
{
    let line = a + key + b + seq!['='] + c + raw + d;
    let none = Seq::<char>::empty();
    lemma_key_edges(key);
    // What is left of the line.
    let tail = if raw.len() > 0 {
        c + raw
    } else {
        none
    };
    let after = if raw.len() > 0 {
        d
    } else {
        c + d
    };
    let core = key + b + seq!['='] + tail;
    assert(text::all_white(after)) by {
        if raw.len() == 0 {
            assert forall|i: int| 0 <= i < after.len() implies text::white_space(
                #[trigger] after[i],
            ) by {
                if i < c.len() {
                    assert(after[i] == c[i]);
                } else {
                    assert(after[i] == d[i - c.len()]);
                }
            }
        }
    }
    if raw.len() > 0 {
        assert(core.last() == raw.last());
    } else {
        assert(core.last() == '=');
    }
    assert(core[0] == key[0]);
    text::law_trimming_leaves_the_text(a, core, after);
    assert(a + core + after =~= line) by {
        if raw.len() == 0 {
            assert(raw =~= none);
        }
    }
    // Its key.
    let at = text::first_of(core, '=');
    text::law_first_of_is_the_first(core, '=');
    let k = (key.len() + b.len()) as int;
    assert(core[k] == '=');
    assert(at == k) by {
        if at > k {
            assert(core[k] != '=');
        }
        if at < k {
            if at < key.len() {
                assert(core[at] == key[at]);
            } else {
                assert(core[at] == b[at - key.len()]);
                assert(text::white_space(b[at - key.len()]));
            }
        }
    }
    assert(core.take(at) =~= none + key + b);
    text::law_trimming_leaves_the_text(none, key, b);
    assert(is_key(key)) by {
        assert forall|i: int| 0 <= i < key.len() implies key_char(#[trigger] key[i]) by {}
    }
    // Its value.
    assert(core.skip(at + 1) =~= tail);
    if raw.len() > 0 {
        text::law_trimming_leaves_the_text(c, raw, none);
        assert(c + raw + none =~= tail);
    } else {
        text::law_trimming_leaves_the_text(none, none, none);
        assert(none + none + none =~= tail);
        assert(raw =~= none);
    }
    assert(key[0] != '#');
}

proof fn lemma_key_edges(key: Seq<char>)
    requires
        plain_key(key),
    ensures
        !text::white_space(key[0]),
        !text::white_space(key.last()),
        key[0] != '#',
{
    assert(key[0] != '#');
    assert(key[key.len() - 1] == key.last());
}

/// A line that assigns nothing is skipped: a comment, one without an equals
/// sign, and one whose key holds anything but letters, digits and underscores.
pub proof fn law_other_lines_are_skipped(line: Seq<char>, a: Seq<char>, rest: Seq<char>)
    ensures
        text::all_white(a) ==> assignment(a + seq!['#'] + rest) is None,
        !line.contains('=') ==> assignment(line) is None,
        assignment(line) matches Some((key, _)) ==> plain_key(key),
{
    if text::all_white(a) {
        let comment = a + seq!['#'] + rest;
        let inner = text::trimmed(comment);
        text::law_trimming_takes_the_white_space_around(comment);
        let (from, to) = choose|from: int, to: int|
            {
                &&& 0 <= from <= to <= comment.len()
                &&& text::trimmed(comment) == #[trigger] comment.subrange(from, to)
                &&& forall|i: int| 0 <= i < from ==> text::white_space(#[trigger] comment[i])
                &&& forall|i: int|
                    to <= i < comment.len() ==> text::white_space(#[trigger] comment[i])
                &&& from < to ==> !text::white_space(comment[from]) && !text::white_space(
                    comment[to - 1],
                )
            };
        let mark = a.len() as int;
        assert(comment[mark] == '#');
        assert(from <= mark) by {
            if from > mark {
                assert(text::white_space(comment[mark]));
            }
        }
        assert(to > mark) by {
            if to <= mark {
                assert(text::white_space(comment[mark]));
            }
        }
        if from < mark {
            assert(comment[from] == a[from]);
        }
        assert(inner[0] == '#');
    }
    if !line.contains('=') {
        let inner = text::trimmed(line);
        text::law_trimming_takes_the_white_space_around(line);
        let (from, to) = choose|from: int, to: int|
            {
                &&& 0 <= from <= to <= line.len()
                &&& text::trimmed(line) == #[trigger] line.subrange(from, to)
                &&& forall|i: int| 0 <= i < from ==> text::white_space(#[trigger] line[i])
                &&& forall|i: int| to <= i < line.len() ==> text::white_space(#[trigger] line[i])
                &&& from < to ==> !text::white_space(line[from]) && !text::white_space(line[to - 1])
            };
        text::law_first_of_is_the_first(inner, '=');
        let at = text::first_of(inner, '=');
        if at < inner.len() {
            assert(inner[at] == line[from + at]);
        }
    }
    if let Some((key, _)) = assignment(line) {
        assert forall|i: int| 0 <= i < key.len() implies ('A' <= #[trigger] key[i] <= 'Z' || 'a'
            <= key[i] <= 'z' || '0' <= key[i] <= '9' || key[i] == '_') by {
            assert(key_char(key[i]));
        }
    }
}

/// A file is read line by line: what a later line assigns stays, what it does
/// not stays as it was.
pub proof fn law_fields_are_read_line_by_line(a: Seq<char>, b: Seq<char>, line: Seq<char>)
    ensures
        fields_of(a.push('\n') + b) == fields_of(a).union_prefer_right(fields_of(b)),
        !line.contains('\n') ==> fields_of(line) == match assignment(line) {
            Some((key, value)) => Map::empty().insert(key, value),
            None => Map::empty(),
        },
{
    text::law_split_goes_separator_by_separator(a, b, '\n');
    lemma_assignments_concat(text::split(a, '\n'), text::split(b, '\n'));
    if !line.contains('\n') {
        text::law_split_goes_separator_by_separator(line, b, '\n');
        let lines = seq![line];
        assert(lines.drop_last() =~= Seq::<Seq<char>>::empty());
        reveal_with_fuel(assignments, 2);
    }
}

proof fn lemma_assignments_concat(a: Seq<Seq<char>>, b: Seq<Seq<char>>)
    ensures
        assignments(a + b) == assignments(a).union_prefer_right(assignments(b)),
    decreases b.len(),
{
    if b.len() == 0 {
        assert(a + b =~= a);
        assert(assignments(a).union_prefer_right(assignments(b)) =~= assignments(a));
    } else {
        lemma_assignments_concat(a, b.drop_last());
        assert((a + b).drop_last() =~= a + b.drop_last());
        assert(assignments(a + b) =~= assignments(a).union_prefer_right(assignments(b)));
    }
}

/// The first file that is there decides, and only a readable one of up to 64 KiB
/// of UTF-8 gives a text: its own.
pub proof fn law_the_first_file_that_exists_decides(reads: Seq<FileRead>, n: int)
    requires
        0 <= n <= reads.len(),
        forall|i: int| 0 <= i < n ==> (#[trigger] reads[i]) is Missing,
        n < reads.len() ==> !(reads[n] is Missing),
    ensures
        first_present(reads) is Some <==> {
            &&& n < reads.len()
            &&& reads[n] is Bytes
            &&& reads[n]->Bytes_0@.len() <= 65_536
            &&& vstd::utf8::valid_utf8(reads[n]->Bytes_0@)
        },
        first_present(reads) matches Some(text) ==> text == vstd::utf8::decode_utf8(
            reads[n]->Bytes_0@,
        ),
    decreases reads.len(),
{
    if n > 0 {
        let rest = reads.skip(1);
        assert(reads[0] is Missing);
        assert forall|i: int| 0 <= i < n - 1 implies (#[trigger] rest[i]) is Missing by {
            assert(reads[i + 1] is Missing);
        }
        if n < reads.len() {
            assert(rest[n - 1] == reads[n]);
        }
        law_the_first_file_that_exists_decides(rest, n - 1);
    }
}

/// The reply says each field under its name, as it is, and nothing else.
pub proof fn law_the_reply_says_the_fields(info: OsInfo, name: Seq<char>, value: json::JsonView)
    ensures
        json::says(info.members(), name, value) <==> {
            ||| name == "kernel-release"@ && info.kernel_release is Some && value
                == json::JsonView::Text(info.kernel_release->0@)
            ||| name == "kernel-version"@ && info.kernel_version is Some && value
                == json::JsonView::Text(info.kernel_version->0@)
            ||| name == "machine"@ && info.machine is Some && value == json::JsonView::Text(
                info.machine->0@,
            )
            ||| name == "id"@ && info.id is Some && value == json::JsonView::Text(info.id->0@)
            ||| name == "name"@ && info.name is Some && value == json::JsonView::Text(
                info.name->0@,
            )
            ||| name == "pretty-name"@ && info.pretty_name is Some && value == json::JsonView::Text(
                info.pretty_name->0@,
            )
            ||| name == "version"@ && info.version is Some && value == json::JsonView::Text(
                info.version->0@,
            )
            ||| name == "version-id"@ && info.version_id is Some && value == json::JsonView::Text(
                info.version_id->0@,
            )
            ||| name == "variant"@ && info.variant is Some && value == json::JsonView::Text(
                info.variant->0@,
            )
            ||| name == "variant-id"@ && info.variant_id is Some && value == json::JsonView::Text(
                info.variant_id->0@,
            )
        },
{
    let m1 = optional_member("id"@, info.id);
    let m2 = optional_member("kernel-release"@, info.kernel_release);
    let m3 = optional_member("kernel-version"@, info.kernel_version);
    let m4 = optional_member("machine"@, info.machine);
    let m5 = optional_member("name"@, info.name);
    let m6 = optional_member("pretty-name"@, info.pretty_name);
    let m7 = optional_member("variant"@, info.variant);
    let m8 = optional_member("variant-id"@, info.variant_id);
    let m9 = optional_member("version"@, info.version);
    let m10 = optional_member("version-id"@, info.version_id);
    json::lemma_says_concat(m1, m2, name, value);
    json::lemma_says_concat(m1 + m2, m3, name, value);
    json::lemma_says_concat(m1 + m2 + m3, m4, name, value);
    json::lemma_says_concat(m1 + m2 + m3 + m4, m5, name, value);
    json::lemma_says_concat(m1 + m2 + m3 + m4 + m5, m6, name, value);
    json::lemma_says_concat(m1 + m2 + m3 + m4 + m5 + m6, m7, name, value);
    json::lemma_says_concat(m1 + m2 + m3 + m4 + m5 + m6 + m7, m8, name, value);
    json::lemma_says_concat(m1 + m2 + m3 + m4 + m5 + m6 + m7 + m8, m9, name, value);
    json::lemma_says_concat(m1 + m2 + m3 + m4 + m5 + m6 + m7 + m8 + m9, m10, name, value);
    lemma_optional_says("id"@, info.id, name, value);
    lemma_optional_says("kernel-release"@, info.kernel_release, name, value);
    lemma_optional_says("kernel-version"@, info.kernel_version, name, value);
    lemma_optional_says("machine"@, info.machine, name, value);
    lemma_optional_says("name"@, info.name, name, value);
    lemma_optional_says("pretty-name"@, info.pretty_name, name, value);
    lemma_optional_says("variant"@, info.variant, name, value);
    lemma_optional_says("variant-id"@, info.variant_id, name, value);
    lemma_optional_says("version"@, info.version, name, value);
    lemma_optional_says("version-id"@, info.version_id, name, value);
}

proof fn lemma_optional_says(
    own: Seq<char>,
    text: Option<String>,
    name: Seq<char>,
    value: json::JsonView,
)
    ensures
        json::says(optional_member(own, text), name, value) <==> name == own && text is Some && value
            == json::JsonView::Text(text->0@),
{
    let members = optional_member(own, text);
    if let Some(text) = text {
        assert(members[0].name == own);
    }
}

/// A field is the value that the file assigns to its key, whatever the value;
/// without a file there is none.
pub proof fn law_a_field_is_what_the_file_assigns(
    text: String,
    key: Seq<char>,
    value: Seq<char>,
)
    ensures
        lookup(optional_fields(Some(text)), key) == Some(value) <==> fields_of(
            text@,
        ).contains_pair(key, value),
        lookup(optional_fields(None), key) is None,
{
}

/// The kernel's fields are the kernel's own, and the others are what the file
/// assigns to their keys, where there is a file and it assigns them.
pub proof fn law_where_the_fields_come_from(
    uname: Uname,
    text: String,
    info: OsInfo,
    bare: OsInfo,
)
    requires
        call_ensures(os_info, (uname, &Some(text)), info),
        call_ensures(os_info, (uname, &None), bare),
    ensures
        info.kernel_release == Some(uname.release),
        info.kernel_version == Some(uname.version),
        info.machine == Some(uname.machine),
        ({
            let fields = fields_of(text@);
            &&& info.id is Some <==> fields.contains_key("ID"@)
            &&& info.id is Some ==> info.id->0@ == fields["ID"@]
            &&& info.name is Some <==> fields.contains_key("NAME"@)
            &&& info.name is Some ==> info.name->0@ == fields["NAME"@]
            &&& info.pretty_name is Some <==> fields.contains_key("PRETTY_NAME"@)
            &&& info.pretty_name is Some ==> info.pretty_name->0@ == fields["PRETTY_NAME"@]
            &&& info.version is Some <==> fields.contains_key("VERSION"@)
            &&& info.version is Some ==> info.version->0@ == fields["VERSION"@]
            &&& info.version_id is Some <==> fields.contains_key("VERSION_ID"@)
            &&& info.version_id is Some ==> info.version_id->0@ == fields["VERSION_ID"@]
            &&& info.variant is Some <==> fields.contains_key("VARIANT"@)
            &&& info.variant is Some ==> info.variant->0@ == fields["VARIANT"@]
            &&& info.variant_id is Some <==> fields.contains_key("VARIANT_ID"@)
            &&& info.variant_id is Some ==> info.variant_id->0@ == fields["VARIANT_ID"@]
        }),
        bare.kernel_release == Some(uname.release),
        bare.id is None && bare.name is None && bare.pretty_name is None && bare.version is None,
        bare.version_id is None && bare.variant is None && bare.variant_id is None,
{
}

/// A value with a backslash before the characters that are to have one.
pub open spec fn with_backslashes(value: Seq<char>, marked: spec_fn(char) -> bool) -> Seq<char>
    decreases value.len(),
{
    if value.len() == 0 {
        Seq::empty()
    } else if marked(value[0]) {
        seq!['\\', value[0]] + with_backslashes(value.skip(1), marked)
    } else {
        seq![value[0]] + with_backslashes(value.skip(1), marked)
    }
}

/// Outside quotes a value reads back with a backslash before any of its
/// characters, as long as the backslash and the quotation marks have one. A
/// backslash with nothing behind it counts for nothing.
pub proof fn law_values_read_back_with_backslashes(
    value: Seq<char>,
    marked: spec_fn(char) -> bool,
)
    requires
        marked('\\'),
        marked('\''),
        marked('"'),
    ensures
        unquoted(with_backslashes(value, marked)) == value,
        unquoted(with_backslashes(value, marked).push('\\')) == value,
{
    lemma_with_backslashes(value, marked);
    let all = with_backslashes(value, marked);
    if value.len() > 0 {
        assert(all[0] != '\'' && all[0] != '"');
        assert(all.push('\\')[0] == all[0]);
    }
}

proof fn lemma_with_backslashes(value: Seq<char>, marked: spec_fn(char) -> bool)
    requires
        marked('\\'),
    ensures
        unescaped(with_backslashes(value, marked)) == value,
        unescaped(with_backslashes(value, marked).push('\\')) == value,
    decreases value.len(),
{
    let all = with_backslashes(value, marked);
    if value.len() > 0 {
        let tail = with_backslashes(value.skip(1), marked);
        lemma_with_backslashes(value.skip(1), marked);
        assert(seq![value[0]] + value.skip(1) =~= value);
        if marked(value[0]) {
            assert(all.skip(2) =~= tail);
            assert(all.push('\\').skip(2) =~= tail.push('\\'));
        } else {
            assert(value[0] != '\\');
            assert(all.skip(1) =~= tail);
            assert(all.push('\\').skip(1) =~= tail.push('\\'));
        }
    } else {
        assert(value =~= Seq::<char>::empty());
        assert(all.push('\\')[0] == '\\');
    }
}

/// A double-quoted value whose closing quote is missing goes to the end.
pub proof fn law_an_open_double_quote_goes_to_the_end(value: Seq<char>)
    ensures
        unquoted(seq!['"'] + in_double_quotes(value)) == value,
{
    assert((seq!['"'] + in_double_quotes(value)).skip(1) =~= in_double_quotes(value));
    lemma_open_double_quote(value);
}

proof fn lemma_open_double_quote(value: Seq<char>)
    ensures
        double_quoted(in_double_quotes(value)) == value,
    decreases value.len(),
{
    let all = in_double_quotes(value);
    if value.len() > 0 {
        let c = value[0];
        lemma_open_double_quote(value.skip(1));
        assert(seq![c] + value.skip(1) =~= value);
        if c == '$' || c == '`' || c == '"' || c == '\\' {
            assert(all.skip(2) =~= in_double_quotes(value.skip(1)));
        } else {
            assert(all.skip(1) =~= in_double_quotes(value.skip(1)));
        }
    } else {
        assert(value =~= Seq::<char>::empty());
    }
}

/// A file that assigns an unquoted value to a key in its last line gives that
/// value, character for character, whatever its other lines are.
pub proof fn law_a_last_assignment_is_the_field(
    text: String,
    before: Seq<char>,
    key: Seq<char>,
    raw: Seq<char>,
)
    requires
        text@ == before.push('\n') + (key + seq!['='] + raw),
        plain_key(key),
        raw.len() > 0,
        raw[0] != '\'' && raw[0] != '"',
        !raw.contains('\\'),
        !raw.contains('\n'),
        !text::white_space(raw[0]) && !text::white_space(raw.last()),
    ensures
        lookup(optional_fields(Some(text)), key) == Some(raw),
{
    let none = Seq::<char>::empty();
    let line = key + seq!['='] + raw;
    assert(none + key + none + seq!['='] + none + raw + none =~= line);
    law_an_assignment_is_read(none, key, none, none, raw, none);
    law_unquoted_values_are_literal(raw);
    assert(!line.contains('\n')) by {
        if line.contains('\n') {
            let k = choose|k: int| 0 <= k < line.len() && line[k] == '\n';
            if k < key.len() {
                assert(key[k] == '\n');
            } else if k > key.len() {
                assert(raw[k - key.len() - 1] == '\n');
            }
        }
    }
    law_fields_are_read_line_by_line(before, line, line);
    law_a_field_is_what_the_file_assigns(text, key, raw);
    assert(fields_of(line) == Map::<Seq<char>, Seq<char>>::empty().insert(key, raw));
    assert(fields_of(text@).contains_pair(key, raw));
}

} // verus!
