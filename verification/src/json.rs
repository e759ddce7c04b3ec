//! JSON values and their compact text.

use vstd::prelude::*;
use vstd::string::*;

use crate::text;
use crate::text::decimal_text;

verus! {

/// A JSON value.
#[derive(Debug, PartialEq, Eq)]
pub enum Json {
    Null,
    Bool(bool),
    Int(i64),
    Uint(u64),
    Text(String),
    List(Vec<Json>),
    Object(Vec<Member>),
}

/// A member of an object.
#[derive(Debug, PartialEq, Eq)]
pub struct Member {
    pub name: String,
    pub value: Json,
}

/// A JSON value as a mathematical value. An object is the sequence of its
/// members.
#[verifier::ext_equal]
pub ghost enum JsonView {
    Null,
    Bool(bool),
    Int(int),
    Text(Seq<char>),
    List(Seq<JsonView>),
    Object(Seq<MemberView>),
}

/// A member of an object as a mathematical value.
#[verifier::ext_equal]
pub ghost struct MemberView {
    pub name: Seq<char>,
    pub value: JsonView,
}

impl View for Json {
    type V = JsonView;

    open spec fn view(&self) -> JsonView
        decreases self,
    {
        match self {
            Json::Null => JsonView::Null,
            Json::Bool(b) => JsonView::Bool(*b),
            Json::Int(n) => JsonView::Int(*n as int),
            Json::Uint(n) => JsonView::Int(*n as int),
            Json::Text(string) => JsonView::Text(string@),
            Json::List(items) => JsonView::List(
                Seq::new(
                    items@.len(),
                    |i: int|
                        if 0 <= i < items@.len() {
                            items@[i].view()
                        } else {
                            JsonView::Null
                        },
                ),
            ),
            Json::Object(members) => JsonView::Object(
                Seq::new(
                    members@.len(),
                    |i: int|
                        if 0 <= i < members@.len() {
                            members@[i].view()
                        } else {
                            MemberView { name: Seq::empty(), value: JsonView::Null }
                        },
                ),
            ),
        }
    }
}

impl View for Member {
    type V = MemberView;

    open spec fn view(&self) -> MemberView
        decreases self,
    {
        MemberView { name: self.name@, value: self.value.view() }
    }
}

/// Items, each taken by its view.
pub open spec fn items_view(items: Seq<Json>) -> Seq<JsonView> {
    Seq::new(items.len(), |i: int| items[i]@)
}

/// Members, each taken by its view.
pub open spec fn members_view(members: Seq<Member>) -> Seq<MemberView> {
    Seq::new(members.len(), |i: int| members[i]@)
}

impl Clone for Json {
    fn clone(&self) -> (copy: Self)
        ensures
            copy@ == self@,
        decreases self,
    {
        match self {
            Json::Null => Json::Null,
            Json::Bool(b) => Json::Bool(*b),
            Json::Int(n) => Json::Int(*n),
            Json::Uint(n) => Json::Uint(*n),
            Json::Text(string) => Json::Text(string.as_str().to_owned()),
            Json::List(items) => {
                let mut copies: Vec<Json> = Vec::new();
                for i in 0..items.len()
                    invariant
                        self matches Json::List(v) && *v == *items,
                        copies@.len() == i,
                        forall|j: int| 0 <= j < i ==> (#[trigger] copies@[j])@ == items@[j]@,
                {
                    copies.push(items[i].clone());
                }
                let copy = Json::List(copies);
                proof {
                    assert(copy@->List_0 =~= self@->List_0);
                }
                copy
            },
            Json::Object(members) => {
                let mut copies: Vec<Member> = Vec::new();
                for i in 0..members.len()
                    invariant
                        self matches Json::Object(v) && *v == *members,
                        copies@.len() == i,
                        forall|j: int| 0 <= j < i ==> (#[trigger] copies@[j])@ == members@[j]@,
                {
                    copies.push(
                        Member {
                            name: members[i].name.as_str().to_owned(),
                            value: members[i].value.clone(),
                        },
                    );
                }
                let copy = Json::Object(copies);
                proof {
                    assert(copy@->Object_0 =~= self@->Object_0);
                }
                copy
            },
        }
    }
}

/// A text as a JSON value.
pub fn string(text: &str) -> (json: Json)
    ensures
        json@ == JsonView::Text(text@),
{
    Json::Text(text.to_owned())
}

/// A list as a JSON value.
pub fn list(items: Vec<Json>) -> (json: Json)
    ensures
        json@ == JsonView::List(items_view(items@)),
{
    let json = Json::List(items);
    proof {
        assert(json@->List_0 =~= items_view(items@));
    }
    json
}

/// A member of an object.
pub fn member(name: &str, value: Json) -> (member: Member)
    ensures
        member@ == (MemberView { name: name@, value: value@ }),
{
    Member { name: name.to_owned(), value }
}

/// An object as a JSON value.
pub fn object(members: Vec<Member>) -> (json: Json)
    ensures
        json@ == JsonView::Object(members_view(members@)),
{
    let json = Json::Object(members);
    proof {
        assert(json@->Object_0 =~= members_view(members@));
    }
    json
}

/// A hexadecimal digit in lower case.
pub open spec fn hex_digit(d: nat) -> char {
    if d < 10 {
        (48 + d) as char
    } else {
        (87 + d) as char
    }
}

/// A character inside a JSON string.
pub open spec fn escaped_char(c: char) -> Seq<char> {
    if c == '"' {
        seq!['\\', '"']
    } else if c == '\\' {
        seq!['\\', '\\']
    } else if c as u32 == 0x08 {
        seq!['\\', 'b']
    } else if c as u32 == 0x09 {
        seq!['\\', 't']
    } else if c as u32 == 0x0A {
        seq!['\\', 'n']
    } else if c as u32 == 0x0C {
        seq!['\\', 'f']
    } else if c as u32 == 0x0D {
        seq!['\\', 'r']
    } else if (c as u32) < 0x20 {
        seq![
            '\\',
            'u',
            '0',
            '0',
            hex_digit((c as u32 / 16) as nat),
            hex_digit((c as u32 % 16) as nat),
        ]
    } else {
        seq![c]
    }
}

/// A text inside a JSON string.
pub open spec fn escaped(string: Seq<char>) -> Seq<char>
    decreases string.len(),
{
    if string.len() == 0 {
        Seq::empty()
    } else {
        escaped(string.drop_last()) + escaped_char(string.last())
    }
}

/// A text as a JSON string.
pub open spec fn quoted(string: Seq<char>) -> Seq<char> {
    seq!['"'] + escaped(string) + seq!['"']
}

/// A number in decimal, with a sign if it is negative.
pub open spec fn int_text(n: int) -> Seq<char> {
    if n < 0 {
        seq!['-'] + text::decimal((-n) as nat)
    } else {
        text::decimal(n as nat)
    }
}

/// A JSON value in compact form.
pub open spec fn json_text(json: JsonView) -> Seq<char>
    decreases json,
{
    match json {
        JsonView::Null => "null"@,
        JsonView::Bool(b) => if b {
            "true"@
        } else {
            "false"@
        },
        JsonView::Int(n) => int_text(n),
        JsonView::Text(string) => quoted(string),
        JsonView::List(items) => "["@ + items_text(items) + "]"@,
        JsonView::Object(members) => "{"@ + members_text(members) + "}"@,
    }
}

/// The items of a list, separated by commas.
pub open spec fn items_text(items: Seq<JsonView>) -> Seq<char>
    decreases items,
{
    if items.len() == 0 {
        Seq::empty()
    } else {
        (if items.len() == 1 {
            Seq::empty()
        } else {
            items_text(items.drop_last()) + ","@
        }) + json_text(items.last())
    }
}

/// The members of an object, separated by commas.
pub open spec fn members_text(members: Seq<MemberView>) -> Seq<char>
    decreases members,
{
    if members.len() == 0 {
        Seq::empty()
    } else {
        (if members.len() == 1 {
            Seq::empty()
        } else {
            members_text(members.drop_last()) + ","@
        }) + quoted(members.last().name) + ":"@ + json_text(members.last().value)
    }
}

/// A text as a JSON string: `to_string` of a `serde_json::Value` that holds
/// the text. The quotation mark, the reverse solidus and the control
/// characters are escaped, the other characters stand for themselves.
#[verifier::external_body]
fn quote(string: &str) -> (quoted_string: String)
    ensures
        quoted_string@ == quoted(string@),
{
    serde_json::Value::from(string).to_string()
}

/// Appends a JSON value in compact form.
pub fn write_json(out: &mut String, json: &Json)
    ensures
        final(out)@ == old(out)@ + json_text(json@),
    decreases json,
{
    match json {
        Json::Null => {
            out.append("null");
        },
        Json::Bool(b) => {
            if *b {
                out.append("true");
            } else {
                out.append("false");
            }
        },
        Json::Int(n) => {
            if *n < 0 {
                out.push('-');
                let size: u64 = if *n == i64::MIN {
                    9_223_372_036_854_775_808
                } else {
                    (-*n) as u64
                };
                out.append(decimal_text(size).as_str());
            } else {
                out.append(decimal_text(*n as u64).as_str());
            }
            proof {
                assert(out@ =~= old(out)@ + int_text(*n as int));
            }
        },
        Json::Uint(n) => {
            out.append(decimal_text(*n).as_str());
        },
        Json::Text(string) => {
            out.append(quote(string.as_str()).as_str());
        },
        Json::List(items) => {
            out.append("[");
            let ghost all = json@->List_0;
            proof {
                assert(all.take(0) =~= Seq::<JsonView>::empty());
                assert(out@ =~= old(out)@ + "["@ + items_text(all.take(0)));
            }
            for i in 0..items.len()
                invariant
                    json matches Json::List(v) && *v == *items,
                    all == json@->List_0,
                    all.len() == items@.len(),
                    out@ == old(out)@ + "["@ + items_text(all.take(i as int)),
            {
                proof {
                    assert(all.take(i + 1).drop_last() =~= all.take(i as int));
                    assert(all.take(i + 1).last() == items@[i as int]@);
                }
                if i > 0 {
                    out.append(",");
                }
                write_json(out, &items[i]);
                proof {
                    assert(out@ =~= old(out)@ + "["@ + items_text(all.take(i + 1)));
                }
            }
            out.append("]");
            proof {
                assert(all.take(all.len() as int) =~= all);
                assert(out@ =~= old(out)@ + ("["@ + items_text(all) + "]"@));
            }
        },
        Json::Object(members) => {
            out.append("{");
            let ghost all = json@->Object_0;
            proof {
                assert(json@ is Object);
                assert(all.take(0) =~= Seq::<MemberView>::empty());
                assert(out@ =~= old(out)@ + "{"@ + members_text(all.take(0)));
            }
            for i in 0..members.len()
                invariant
                    json matches Json::Object(v) && *v == *members,
                    all == json@->Object_0,
                    all.len() == members@.len(),
                    out@ == old(out)@ + "{"@ + members_text(all.take(i as int)),
            {
                proof {
                    assert(all.take(i + 1).drop_last() =~= all.take(i as int));
                    assert(all.take(i + 1).last() == members@[i as int]@);
                }
                if i > 0 {
                    out.append(",");
                }
                out.append(quote(members[i].name.as_str()).as_str());
                out.append(":");
                write_json(out, &members[i].value);
                proof {
                    assert(out@ =~= old(out)@ + "{"@ + members_text(all.take(i + 1)));
                }
            }
            out.append("}");
            proof {
                assert(all.take(all.len() as int) =~= all);
                assert(out@ =~= old(out)@ + ("{"@ + members_text(all) + "}"@));
            }
        },
    }
}

/// A JSON value in compact form.
pub fn to_text(json: &Json) -> (out: String)
    ensures
        out@ == json_text(json@),
{
    let mut out = String::new();
    write_json(&mut out, json);
    proof {
        assert(out@ =~= json_text(json@));
    }
    out
}

// ---------------------------------------------------------------------------
// Laws
// ---------------------------------------------------------------------------

/// Among the members is one of this name with this value.
pub open spec fn says(members: Seq<MemberView>, name: Seq<char>, value: JsonView) -> bool {
    exists|k: int|
        0 <= k < members.len() && (#[trigger] members[k]).name == name && members[k].value == value
}

/// What is said by one group of members after another is what either says.
pub proof fn lemma_says_concat(
    a: Seq<MemberView>,
    b: Seq<MemberView>,
    name: Seq<char>,
    value: JsonView,
)
    ensures
        says(a + b, name, value) <==> says(a, name, value) || says(b, name, value),
{
    let all = a + b;
    if says(a, name, value) {
        let k = choose|k: int|
            0 <= k < a.len() && (#[trigger] a[k]).name == name && a[k].value == value;
        assert(all[k] == a[k]);
    }
    if says(b, name, value) {
        let k = choose|k: int|
            0 <= k < b.len() && (#[trigger] b[k]).name == name && b[k].value == value;
        assert(all[a.len() + k] == b[k]);
    }
    if says(all, name, value) {
        let k = choose|k: int|
            0 <= k < all.len() && (#[trigger] all[k]).name == name && all[k].value == value;
        if k < a.len() {
            assert(a[k] == all[k]);
        } else {
            assert(b[k - a.len()] == all[k]);
        }
    }
}

/// A list is written item by item, in order, with commas between, in brackets.
pub proof fn law_lists_are_written_item_by_item(items: Seq<JsonView>)
    ensures
        json_text(JsonView::List(items)) == seq!['['] + text::joined(
            items.map_values(|item: JsonView| json_text(item)),
            seq![','],
        ) + seq![']'],
{
    reveal_strlit("[");
    reveal_strlit("]");
    lemma_items_joined(items);
    assert("["@ =~= seq!['[']);
    assert("]"@ =~= seq![']']);
}

proof fn lemma_items_joined(items: Seq<JsonView>)
    ensures
        items_text(items) == text::joined(
            items.map_values(|item: JsonView| json_text(item)),
            seq![','],
        ),
    decreases items.len(),
{
    let f = |item: JsonView| json_text(item);
    let texts = items.map_values(f);
    if items.len() > 0 {
        lemma_items_joined(items.drop_last());
        assert(items.drop_last().map_values(f) =~= texts.drop_last());
        reveal_strlit(",");
        assert(","@ =~= seq![',']);
        assert(items_text(items) =~= text::joined(texts, seq![',']));
    } else {
        assert(texts =~= Seq::<Seq<char>>::empty());
    }
}

/// An object is written member by member, in order, with commas between, in
/// braces: each as its name, a colon and its value.
pub proof fn law_objects_are_written_member_by_member(members: Seq<MemberView>)
    ensures
        json_text(JsonView::Object(members)) == seq!['{'] + text::joined(
            members.map_values(
                |m: MemberView| quoted(m.name) + seq![':'] + json_text(m.value),
            ),
            seq![','],
        ) + seq!['}'],
{
    reveal_strlit("{");
    reveal_strlit("}");
    lemma_members_joined(members);
    assert("{"@ =~= seq!['{']);
    assert("}"@ =~= seq!['}']);
}

proof fn lemma_members_joined(members: Seq<MemberView>)
    ensures
        members_text(members) == text::joined(
            members.map_values(
                |m: MemberView| quoted(m.name) + seq![':'] + json_text(m.value),
            ),
            seq![','],
        ),
    decreases members.len(),
{
    let f = |m: MemberView| quoted(m.name) + seq![':'] + json_text(m.value);
    let texts = members.map_values(f);
    if members.len() > 0 {
        lemma_members_joined(members.drop_last());
        assert(members.drop_last().map_values(f) =~= texts.drop_last());
        reveal_strlit(",");
        reveal_strlit(":");
        assert(","@ =~= seq![',']);
        assert(":"@ =~= seq![':']);
        assert(members_text(members) =~= text::joined(texts, seq![',']));
    } else {
        assert(texts =~= Seq::<Seq<char>>::empty());
    }
}

/// Every number is written so that it reads back: decimal digits, with a minus
/// sign before them if it is negative.
pub proof fn law_numbers_read_back(n: int)
    ensures
        n >= 0 ==> text::worth(json_text(JsonView::Int(n))) == n && forall|i: int|
            0 <= i < json_text(JsonView::Int(n)).len() ==> '0' <= #[trigger] json_text(
                JsonView::Int(n),
            )[i] <= '9',
        n < 0 ==> json_text(JsonView::Int(n)).len() > 1 && json_text(JsonView::Int(n))[0] == '-'
            && json_text(JsonView::Int(n)).skip(1) == json_text(JsonView::Int(-n)),
        json_text(JsonView::Bool(true)) == "true"@,
        json_text(JsonView::Bool(false)) == "false"@,
        json_text(JsonView::Null) == "null"@,
{
    if n >= 0 {
        text::law_decimal_reads_back(n as nat);
    } else {
        text::law_decimal_reads_back((-n) as nat);
        assert(json_text(JsonView::Int(n)).skip(1) =~= json_text(JsonView::Int(-n)));
    }
}

/// A text is written in quotation marks, character by character: as it is, but
/// for the quotation mark, the reverse solidus and the control characters,
/// which are written with a reverse solidus.
pub proof fn law_texts_are_written_character_by_character(a: Seq<char>, b: Seq<char>, c: char)
    ensures
        json_text(JsonView::Text(a)) == seq!['"'] + escaped(a) + seq!['"'],
        escaped(a + b) == escaped(a) + escaped(b),
        c >= ' ' && c != '"' && c != '\\' ==> escaped(seq![c]) == seq![c],
        c < ' ' || c == '"' || c == '\\' ==> escaped(seq![c]).len() >= 2 && escaped(seq![c])[0]
            == '\\',
{
    lemma_escaped_concat(a, b);
    let one = seq![c];
    assert(one.drop_last() =~= Seq::<char>::empty());
    reveal_with_fuel(escaped, 2);
    assert(escaped(one) =~= escaped_char(c));
}

proof fn lemma_escaped_concat(a: Seq<char>, b: Seq<char>)
    ensures
        escaped(a + b) == escaped(a) + escaped(b),
    decreases b.len(),
{
    if b.len() == 0 {
        assert(a + b =~= a);
        assert(escaped(a) + escaped(b) =~= escaped(a));
    } else {
        lemma_escaped_concat(a, b.drop_last());
        assert((a + b).drop_last() =~= a + b.drop_last());
        assert(escaped(a + b) =~= escaped(a) + escaped(b));
    }
}

/// How the characters that cannot stand in a string are written: with the short
/// escape where there is one, and otherwise with `u` and the four hexadecimal
/// digits of the character.
pub proof fn law_escapes_read_back(c: char)
    ensures
        escaped(seq!['"']) == seq!['\\', '"'],
        escaped(seq!['\\']) == seq!['\\', '\\'],
        c as u32 == 0x08 ==> escaped(seq![c]) == seq!['\\', 'b'],
        c as u32 == 0x09 ==> escaped(seq![c]) == seq!['\\', 't'],
        c as u32 == 0x0A ==> escaped(seq![c]) == seq!['\\', 'n'],
        c as u32 == 0x0C ==> escaped(seq![c]) == seq!['\\', 'f'],
        c as u32 == 0x0D ==> escaped(seq![c]) == seq!['\\', 'r'],
        (c as u32) < 0x20 && c as u32 != 0x08 && c as u32 != 0x09 && c as u32 != 0x0A && c as u32
            != 0x0C && c as u32 != 0x0D ==> {
            let text = escaped(seq![c]);
            let digits = "0123456789abcdef"@;
            &&& text.len() == 6
            &&& text.take(4) == seq!['\\', 'u', '0', '0']
            &&& text[4] == digits[c as int / 16]
            &&& text[5] == digits[c as int % 16]
        },
{
    let one = seq![c];
    assert(one.drop_last() =~= Seq::<char>::empty());
    assert(seq!['"'].drop_last() =~= Seq::<char>::empty());
    assert(seq!['\\'].drop_last() =~= Seq::<char>::empty());
    reveal_with_fuel(escaped, 2);
    assert(escaped(one) =~= escaped_char(c));
    assert(escaped(seq!['"']) =~= escaped_char('"'));
    assert(escaped(seq!['\\']) =~= escaped_char('\\'));
    reveal_strlit("0123456789abcdef");
    if (c as u32) < 0x20 {
        assert(escaped_char(c).len() == 6 ==> escaped_char(c).take(4) =~= seq!['\\', 'u', '0', '0']);
    }
}

} // verus!
