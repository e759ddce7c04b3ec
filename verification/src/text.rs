//! Characters, bytes and decimal numerals: the few text operations that the
//! messages and the parsers of this library are built from.

use vstd::prelude::*;
use vstd::string::*;
use vstd::utf8::*;

verus! {

/// `String::push` of std: appends one character.
pub assume_specification[ String::push ](s: &mut String, c: char)
    ensures
        final(s)@ == old(s)@.push(c),
;

/// What `String::from_utf8_lossy` makes of some bytes.
pub uninterp spec fn lossy(bytes: Seq<u8>) -> Seq<char>;

/// `String::from_utf8_lossy` of std: the text that the bytes encode, with a
/// replacement character wherever they encode none.
#[verifier::external_body]
pub(crate) fn lossy_text(bytes: &[u8]) -> (text: String)
    ensures
        text@ == lossy(bytes@),
        valid_utf8(bytes@) ==> text@ == decode_utf8(bytes@),
{
    String::from_utf8_lossy(bytes).into_owned()
}

/// `String::from_utf8` of std: the text that the bytes encode, if they encode
/// one.
#[verifier::external_body]
pub(crate) fn decoded_text(bytes: Vec<u8>) -> (text: Option<String>)
    ensures
        match text {
            Some(text) => valid_utf8(bytes@) && text@ == decode_utf8(bytes@),
            None => !valid_utf8(bytes@),
        },
{
    String::from_utf8(bytes).ok()
}

/// The characters of a text.
pub fn chars_of(text: &str) -> (chars: Vec<char>)
    ensures
        chars@ == text@,
{
    let mut chars: Vec<char> = Vec::new();
    for c in it: text.chars()
        invariant
            chars@ == text@.take(it.index() as int),
            it.seq() == text@,
    {
        proof {
            assert(text@.take(it.index() + 1) =~= text@.take(it.index() as int).push(c));
        }
        chars.push(c);
    }
    proof {
        assert(text@.take(text@.len() as int) =~= text@);
    }
    chars
}

/// The text that some characters make.
pub fn text_of(chars: &[char]) -> (text: String)
    ensures
        text@ == chars@,
{
    let mut text = String::new();
    for i in 0..chars.len()
        invariant
            text@ == chars@.take(i as int),
    {
        text.push(chars[i]);
        proof {
            assert(chars@.take(i + 1) =~= chars@.take(i as int).push(chars@[i as int]));
        }
    }
    proof {
        assert(chars@.take(chars@.len() as int) =~= chars@);
    }
    text
}

/// Whether two byte strings are the same.
pub fn same_bytes(a: &[u8], b: &[u8]) -> (same: bool)
    ensures
        same == (a@ == b@),
{
    if a.len() != b.len() {
        return false;
    }
    for i in 0..a.len()
        invariant
            a@.len() == b@.len(),
            forall|j: int| 0 <= j < i ==> a@[j] == b@[j],
    {
        if a[i] != b[i] {
            return false;
        }
    }
    proof {
        assert(a@ =~= b@);
    }
    true
}

/// Whether two texts are the same.
pub fn same_text(a: &str, b: &str) -> (same: bool)
    ensures
        same == (a@ == b@),
{
    proof {
        encode_utf8_decode_utf8(a@);
        encode_utf8_decode_utf8(b@);
    }
    same_bytes(a.as_bytes(), b.as_bytes())
}

/// Whether `text` begins with `prefix`.
pub fn has_prefix(text: &str, prefix: &str) -> (has: bool)
    ensures
        has == prefix@.is_prefix_of(text@),
{
    let want = chars_of(prefix);
    let have = chars_of(text);
    if have.len() < want.len() {
        return false;
    }
    for i in 0..want.len()
        invariant
            want@ == prefix@,
            have@ == text@,
            want@.len() <= have@.len(),
            forall|j: int| 0 <= j < i ==> want@[j] == have@[j],
    {
        if have[i] != want[i] {
            return false;
        }
    }
    proof {
        assert(prefix@ =~= text@.subrange(0, prefix@.len() as int));
    }
    true
}

/// The characters with the Unicode property `White_Space`.
pub open spec fn white_space(c: char) -> bool {
    let n = c as u32;
    ||| 0x09 <= n <= 0x0D
    ||| n == 0x20
    ||| n == 0x85
    ||| n == 0xA0
    ||| n == 0x1680
    ||| 0x2000 <= n <= 0x200A
    ||| n == 0x2028
    ||| n == 0x2029
    ||| n == 0x202F
    ||| n == 0x205F
    ||| n == 0x3000
}

/// Whether a character has the Unicode property `White_Space`.
pub fn is_white_space(c: char) -> (yes: bool)
    ensures
        yes == white_space(c),
{
    let n: u32 = c as u32;
    (0x09 <= n && n <= 0x0D) || n == 0x20 || n == 0x85 || n == 0xA0 || n == 0x1680 || (0x2000 <= n
        && n <= 0x200A) || n == 0x2028 || n == 0x2029 || n == 0x202F || n == 0x205F || n == 0x3000
}

/// Characters without the white space before them.
pub open spec fn trimmed_front(chars: Seq<char>) -> Seq<char>
    decreases chars.len(),
{
    if chars.len() > 0 && white_space(chars[0]) {
        trimmed_front(chars.skip(1))
    } else {
        chars
    }
}

/// Characters without the white space after them.
pub open spec fn trimmed_back(chars: Seq<char>) -> Seq<char>
    decreases chars.len(),
{
    if chars.len() > 0 && white_space(chars.last()) {
        trimmed_back(chars.drop_last())
    } else {
        chars
    }
}

/// Characters without the white space around them.
pub open spec fn trimmed(chars: Seq<char>) -> Seq<char> {
    trimmed_back(trimmed_front(chars))
}

/// Characters without the white space around them.
pub fn trim(chars: &[char]) -> (inner: Vec<char>)
    ensures
        inner@ == trimmed(chars@),
{
    let mut from: usize = 0;
    proof {
        assert(chars@.skip(0) =~= chars@);
    }
    while from < chars.len() && is_white_space(chars[from])
        invariant
            from <= chars@.len(),
            trimmed_front(chars@.skip(from as int)) == trimmed_front(chars@),
        decreases chars.len() - from,
    {
        proof {
            assert(chars@.skip(from as int).skip(1) =~= chars@.skip(from + 1));
        }
        from = from + 1;
    }
    let mut to: usize = chars.len();
    proof {
        assert(chars@.subrange(from as int, to as int) =~= chars@.skip(from as int));
        assert(trimmed_front(chars@) == chars@.skip(from as int));
    }
    while from < to && is_white_space(chars[to - 1])
        invariant
            from <= to <= chars@.len(),
            trimmed_back(chars@.subrange(from as int, to as int)) == trimmed(chars@),
        decreases to - from,
    {
        proof {
            assert(chars@.subrange(from as int, to as int).drop_last() =~= chars@.subrange(
                from as int,
                to - 1,
            ));
        }
        to = to - 1;
    }
    proof {
        assert(trimmed(chars@) == chars@.subrange(from as int, to as int));
    }
    vstd::slice::slice_to_vec(vstd::slice::slice_subrange(chars, from, to))
}

/// Characters cut at every separator.
pub open spec fn split(chars: Seq<char>, separator: char) -> Seq<Seq<char>>
    decreases chars.len(),
{
    if chars.len() == 0 {
        seq![Seq::empty()]
    } else {
        let before = split(chars.drop_last(), separator);
        if chars.last() == separator {
            before.push(Seq::empty())
        } else {
            before.update(before.len() - 1, before.last().push(chars.last()))
        }
    }
}

/// Pieces, each taken by its view.
pub open spec fn pieces_view(pieces: Seq<Vec<char>>) -> Seq<Seq<char>> {
    Seq::new(pieces.len(), |i: int| pieces[i]@)
}

/// Characters cut at every separator.
pub fn split_at_every(chars: &[char], separator: char) -> (pieces: Vec<Vec<char>>)
    ensures
        pieces_view(pieces@) == split(chars@, separator),
{
    let mut pieces: Vec<Vec<char>> = Vec::new();
    let mut piece: Vec<char> = Vec::new();
    proof {
        assert(pieces_view(pieces@).push(piece@) =~= split(chars@.take(0), separator));
    }
    for i in 0..chars.len()
        invariant
            pieces_view(pieces@).push(piece@) == split(chars@.take(i as int), separator),
    {
        let ghost done = pieces_view(pieces@);
        let ghost now = piece@;
        proof {
            assert(chars@.take(i + 1).drop_last() =~= chars@.take(i as int));
            assert(done.push(now).last() == now);
        }
        if chars[i] == separator {
            pieces.push(piece);
            piece = Vec::new();
            proof {
                assert(pieces_view(pieces@) =~= done.push(now));
                assert(pieces_view(pieces@).push(piece@) =~= split(chars@.take(i + 1), separator));
            }
        } else {
            piece.push(chars[i]);
            proof {
                assert(pieces_view(pieces@).push(piece@) =~= split(chars@.take(i + 1), separator));
            }
        }
    }
    let ghost done = pieces_view(pieces@);
    let ghost now = piece@;
    pieces.push(piece);
    proof {
        assert(chars@.take(chars@.len() as int) =~= chars@);
        assert(pieces_view(pieces@) =~= done.push(now));
    }
    pieces
}

/// The place of the first `wanted`, or the length.
pub open spec fn first_of(chars: Seq<char>, wanted: char) -> int
    decreases chars.len(),
{
    if chars.len() == 0 {
        0
    } else if chars[0] == wanted {
        0
    } else {
        1 + first_of(chars.skip(1), wanted)
    }
}

/// The place of the first `wanted`, or the length.
pub fn find_first(chars: &[char], wanted: char) -> (at: usize)
    ensures
        at == first_of(chars@, wanted),
        at <= chars@.len(),
        at < chars@.len() ==> chars@[at as int] == wanted,
{
    let mut at: usize = 0;
    proof {
        assert(chars@.skip(0) =~= chars@);
    }
    while at < chars.len() && chars[at] != wanted
        invariant
            at <= chars@.len(),
            first_of(chars@, wanted) == at + first_of(chars@.skip(at as int), wanted),
        decreases chars.len() - at,
    {
        proof {
            assert(chars@.skip(at as int).skip(1) =~= chars@.skip(at + 1));
        }
        at = at + 1;
    }
    at
}

/// Texts, each taken by its view.
pub open spec fn texts_view(texts: Seq<String>) -> Seq<Seq<char>> {
    Seq::new(texts.len(), |i: int| texts[i]@)
}

/// Texts with a separator between them.
pub open spec fn joined(parts: Seq<Seq<char>>, separator: Seq<char>) -> Seq<char>
    decreases parts.len(),
{
    if parts.len() == 0 {
        Seq::empty()
    } else if parts.len() == 1 {
        parts[0]
    } else {
        joined(parts.drop_last(), separator) + separator + parts.last()
    }
}

/// Texts with a separator between them.
pub fn join(parts: &Vec<String>, separator: &str) -> (text: String)
    ensures
        text@ == joined(texts_view(parts@), separator@),
{
    let mut text = String::new();
    let ghost all = texts_view(parts@);
    for i in 0..parts.len()
        invariant
            all == texts_view(parts@),
            text@ == joined(all.take(i as int), separator@),
    {
        if i > 0 {
            text.append(separator);
        }
        text.append(parts[i].as_str());
        proof {
            assert(all.take(i + 1).drop_last() =~= all.take(i as int));
            assert(all.take(i + 1).last() == parts@[i as int]@);
            if i == 0 {
                assert(text@ =~= parts@[0]@);
            }
        }
    }
    proof {
        assert(all.take(parts@.len() as int) =~= all);
    }
    text
}

/// The decimal digit `d` as a character.
pub open spec fn digit(d: nat) -> char {
    (48 + d) as char
}

/// `n` in decimal, without leading zeros.
pub open spec fn decimal(n: nat) -> Seq<char>
    decreases n,
{
    if n < 10 {
        seq![digit(n)]
    } else {
        decimal(n / 10).push(digit(n % 10))
    }
}

/// The character of one decimal digit.
pub fn digit_char(d: u8) -> (c: char)
    requires
        d < 10,
    ensures
        c == digit(d as nat),
{
    (48u8 + d) as char
}

/// A number in decimal.
pub fn decimal_text(n: u64) -> (text: String)
    ensures
        text@ == decimal(n as nat),
    decreases n,
{
    if n < 10 {
        let mut text = String::new();
        text.push(digit_char(n as u8));
        proof {
            assert(text@ =~= seq![digit(n as nat)]);
        }
        text
    } else {
        let mut text = decimal_text(n / 10);
        text.push(digit_char((n % 10) as u8));
        text
    }
}

// ---------------------------------------------------------------------------
// Laws
// ---------------------------------------------------------------------------

/// What a numeral of decimal digits is worth.
pub open spec fn worth(numeral: Seq<char>) -> nat
    decreases numeral.len(),
{
    if numeral.len() == 0 {
        0
    } else {
        (10 * worth(numeral.drop_last()) + (numeral.last() as int - '0' as int)) as nat
    }
}

/// A number is written in decimal digits that read back as the number, without
/// a zero before them.
pub proof fn law_decimal_reads_back(n: nat)
    ensures
        decimal(n).len() > 0,
        forall|i: int| 0 <= i < decimal(n).len() ==> '0' <= #[trigger] decimal(n)[i] <= '9',
        n > 0 ==> decimal(n)[0] != '0',
        n == 0 ==> decimal(n) == seq!['0'],
        worth(decimal(n)) == n,
    decreases n,
{
    let text = decimal(n);
    if n >= 10 {
        law_decimal_reads_back(n / 10);
        let front = decimal(n / 10);
        assert(text.drop_last() =~= front);
        assert forall|i: int| 0 <= i < text.len() implies '0' <= #[trigger] text[i] <= '9' by {
            if i < front.len() {
                assert('0' <= front[i] <= '9');
            }
        }
    } else {
        assert(text.drop_last() =~= Seq::<char>::empty());
        reveal_with_fuel(worth, 2);
    }
}

/// The pieces of a text, put together again with the separator between them,
/// are the text; there are as many as separators and one more, and none holds
/// the separator.
pub proof fn law_split_cuts_at_the_separators(chars: Seq<char>, separator: char)
    ensures
        joined(split(chars, separator), seq![separator]) == chars,
        split(chars, separator).len() > 0,
        forall|i: int|
            0 <= i < split(chars, separator).len() ==> !(#[trigger] split(
                chars,
                separator,
            )[i]).contains(separator),
    decreases chars.len(),
{
    let pieces = split(chars, separator);
    let between = seq![separator];
    if chars.len() > 0 {
        let front = chars.drop_last();
        let before = split(front, separator);
        law_split_cuts_at_the_separators(front, separator);
        if chars.last() == separator {
            assert(pieces.drop_last() =~= before);
            assert(joined(pieces, between) =~= front + between);
            assert(chars =~= front + between);
        } else {
            let grown = before.last().push(chars.last());
            assert(pieces.drop_last() =~= before.drop_last());
            assert(joined(pieces, between) =~= front.push(chars.last()));
            assert(chars =~= front.push(chars.last()));
            assert(!grown.contains(separator)) by {
                if grown.contains(separator) {
                    let k = choose|k: int| 0 <= k < grown.len() && grown[k] == separator;
                    assert(before.last()[k] == separator);
                    assert(before[before.len() - 1].contains(separator));
                }
            }
        }
        assert forall|i: int| 0 <= i < pieces.len() implies !(#[trigger] pieces[i]).contains(
            separator,
        ) by {
            if i < before.len() {
                assert(!before[i].contains(separator));
            }
        }
    } else {
        assert(joined(pieces, between) =~= chars);
    }
}

/// What is left of a text without its white space: a part of it between two
/// stretches of white space, which neither begins nor ends with any.
pub proof fn law_trimming_takes_the_white_space_around(chars: Seq<char>)
    ensures
        exists|from: int, to: int|
            {
                &&& 0 <= from <= to <= chars.len()
                &&& trimmed(chars) == #[trigger] chars.subrange(from, to)
                &&& forall|i: int| 0 <= i < from ==> white_space(#[trigger] chars[i])
                &&& forall|i: int| to <= i < chars.len() ==> white_space(#[trigger] chars[i])
                &&& from < to ==> !white_space(chars[from]) && !white_space(chars[to - 1])
            },
{
    let from = lemma_trimmed_front(chars);
    let rest = chars.skip(from);
    let kept = lemma_trimmed_back(rest);
    let to = from + kept;
    assert(rest.take(kept) =~= chars.subrange(from, to));
    assert forall|i: int| to <= i < chars.len() implies white_space(#[trigger] chars[i]) by {
        assert(rest[i - from] == chars[i]);
    }
    if from < to {
        assert(rest[0] == chars[from]);
        assert(rest[kept - 1] == chars[to - 1]);
    }
}

proof fn lemma_trimmed_front(chars: Seq<char>) -> (from: int)
    ensures
        0 <= from <= chars.len(),
        trimmed_front(chars) == chars.skip(from),
        forall|i: int| 0 <= i < from ==> white_space(#[trigger] chars[i]),
        from < chars.len() ==> !white_space(chars[from]),
    decreases chars.len(),
{
    if chars.len() > 0 && white_space(chars[0]) {
        let rest = chars.skip(1);
        let more = lemma_trimmed_front(rest);
        assert(rest.skip(more) =~= chars.skip(more + 1));
        assert forall|i: int| 0 <= i < more + 1 implies white_space(#[trigger] chars[i]) by {
            if i > 0 {
                assert(rest[i - 1] == chars[i]);
            }
        }
        if more + 1 < chars.len() {
            assert(rest[more] == chars[more + 1]);
        }
        more + 1
    } else {
        assert(chars.skip(0) =~= chars);
        0
    }
}

proof fn lemma_trimmed_back(chars: Seq<char>) -> (to: int)
    ensures
        0 <= to <= chars.len(),
        trimmed_back(chars) == chars.take(to),
        forall|i: int| to <= i < chars.len() ==> white_space(#[trigger] chars[i]),
        to > 0 ==> !white_space(chars[to - 1]),
    decreases chars.len(),
{
    if chars.len() > 0 && white_space(chars.last()) {
        let front = chars.drop_last();
        let to = lemma_trimmed_back(front);
        assert(front.take(to) =~= chars.take(to));
        assert forall|i: int| to <= i < chars.len() implies white_space(#[trigger] chars[i]) by {
            if i < front.len() {
                assert(front[i] == chars[i]);
            }
        }
        if to > 0 {
            assert(front[to - 1] == chars[to - 1]);
        }
        to
    } else {
        assert(chars.take(chars.len() as int) =~= chars);
        chars.len() as int
    }
}

/// White space is the twenty-five characters that Unicode counts as such: no
/// letter, digit or sign of ASCII is among them.
pub proof fn law_white_space_is_what_unicode_says(c: char)
    ensures
        white_space(c) <==> (c == '\t' || c == '\n' || c == '\u{B}' || c == '\u{C}' || c == '\r' || c
            == ' ' || c == '\u{85}' || c == '\u{A0}' || c == '\u{1680}' || c == '\u{2000}' || c
            == '\u{2001}' || c == '\u{2002}' || c == '\u{2003}' || c == '\u{2004}' || c
            == '\u{2005}' || c == '\u{2006}' || c == '\u{2007}' || c == '\u{2008}' || c
            == '\u{2009}' || c == '\u{200A}' || c == '\u{2028}' || c == '\u{2029}' || c
            == '\u{202F}' || c == '\u{205F}' || c == '\u{3000}'),
        '!' <= c <= '~' ==> !white_space(c),
{
}

/// The place found is that of the first such character: none stands before it.
pub proof fn law_first_of_is_the_first(chars: Seq<char>, wanted: char)
    ensures
        0 <= first_of(chars, wanted) <= chars.len(),
        first_of(chars, wanted) < chars.len() <==> chars.contains(wanted),
        first_of(chars, wanted) < chars.len() ==> chars[first_of(chars, wanted)] == wanted,
        forall|i: int| 0 <= i < first_of(chars, wanted) ==> #[trigger] chars[i] != wanted,
    decreases chars.len(),
{
    if chars.len() > 0 {
        let rest = chars.skip(1);
        if chars[0] != wanted {
            law_first_of_is_the_first(rest, wanted);
            assert forall|i: int| 0 <= i < first_of(chars, wanted) implies #[trigger] chars[i]
                != wanted by {
                if i > 0 {
                    assert(rest[i - 1] == chars[i]);
                }
            }
            if first_of(chars, wanted) < chars.len() {
                assert(chars[first_of(chars, wanted)] == rest[first_of(rest, wanted)]);
            }
            if chars.contains(wanted) {
                let k = choose|k: int| 0 <= k < chars.len() && chars[k] == wanted;
                assert(rest[k - 1] == wanted);
            }
        }
    }
}

/// Joining two lists is joining each, with one separator between: nothing is
/// left out, added or moved.
pub proof fn law_joining_keeps_every_part(
    a: Seq<Seq<char>>,
    b: Seq<Seq<char>>,
    separator: Seq<char>,
)
    ensures
        joined(Seq::empty(), separator) == Seq::<char>::empty(),
        a.len() == 1 ==> joined(a, separator) == a[0],
        a.len() > 0 && b.len() > 0 ==> joined(a + b, separator) == joined(a, separator) + separator
            + joined(b, separator),
    decreases b.len(),
{
    if a.len() > 0 && b.len() > 0 {
        assert((a + b).drop_last() =~= a + b.drop_last());
        assert((a + b).last() == b.last());
        if b.len() == 1 {
            assert(a + b.drop_last() =~= a);
        } else {
            law_joining_keeps_every_part(a, b.drop_last(), separator);
        }
        assert(joined(a + b, separator) =~= joined(a, separator) + separator + joined(
            b,
            separator,
        ));
    }
}

/// Cutting goes separator by separator: what follows one is cut by itself, and
/// what holds none is one piece.
pub proof fn law_split_goes_separator_by_separator(
    a: Seq<char>,
    b: Seq<char>,
    separator: char,
)
    ensures
        split(a.push(separator) + b, separator) == split(a, separator) + split(b, separator),
        !a.contains(separator) ==> split(a, separator) == seq![a],
{
    lemma_split_concat(a, b, separator);
    if !a.contains(separator) {
        lemma_split_one(a, separator);
    }
}

proof fn lemma_split_concat(a: Seq<char>, b: Seq<char>, separator: char)
    ensures
        split(a.push(separator) + b, separator) == split(a, separator) + split(b, separator),
        split(b, separator).len() > 0,
    decreases b.len(),
{
    let all = a.push(separator) + b;
    if b.len() == 0 {
        assert(all =~= a.push(separator));
        assert(all.drop_last() =~= a);
    } else {
        lemma_split_concat(a, b.drop_last(), separator);
        assert(all.drop_last() =~= a.push(separator) + b.drop_last());
    }
    assert(split(all, separator) =~= split(a, separator) + split(b, separator));
}

proof fn lemma_split_one(a: Seq<char>, separator: char)
    requires
        !a.contains(separator),
    ensures
        split(a, separator) == seq![a],
    decreases a.len(),
{
    if a.len() > 0 {
        let front = a.drop_last();
        assert(!front.contains(separator)) by {
            if front.contains(separator) {
                let k = choose|k: int| 0 <= k < front.len() && front[k] == separator;
                assert(a[k] == separator);
            }
        }
        lemma_split_one(front, separator);
        assert(a[a.len() - 1] == a.last());
        assert(front.push(a.last()) =~= a);
        assert(split(a, separator) =~= seq![a]);
    } else {
        assert(a =~= Seq::<char>::empty());
    }
}

/// All characters are white space.
pub open spec fn all_white(chars: Seq<char>) -> bool {
    forall|i: int| 0 <= i < chars.len() ==> white_space(#[trigger] chars[i])
}

/// White space around a text goes away and the text stays, if it neither begins
/// nor ends with any.
pub proof fn law_trimming_leaves_the_text(before: Seq<char>, text: Seq<char>, after: Seq<char>)
    requires
        all_white(before),
        all_white(after),
        text.len() > 0 ==> !white_space(text[0]) && !white_space(text.last()),
    ensures
        trimmed(before + text + after) == text,
{
    let all = before + text + after;
    let from = lemma_trimmed_front(all);
    let rest = all.skip(from);
    let kept = lemma_trimmed_back(rest);
    if text.len() > 0 {
        assert(all[before.len() as int] == text[0]);
        if from < before.len() {
            assert(all[from] == before[from]);
        }
        assert(from == before.len()) by {
            if from > before.len() {
                assert(white_space(all[before.len() as int]));
            }
        }
        let end = text.len() as int;
        assert(rest[end - 1] == text.last());
        assert(kept == end) by {
            if kept < end {
                assert(white_space(rest[end - 1]));
            }
            if kept > end {
                assert(rest[kept - 1] == after[kept - 1 - end]);
            }
        }
        assert(rest.take(kept) =~= text);
    } else {
        assert forall|i: int| 0 <= i < all.len() implies white_space(#[trigger] all[i]) by {
            if i < before.len() {
                assert(all[i] == before[i]);
            } else {
                assert(all[i] == after[i - before.len()]);
            }
        }
        assert(from == all.len());
        assert(rest.take(kept) =~= text);
    }
}

} // verus!
