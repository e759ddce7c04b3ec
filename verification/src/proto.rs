//! Requests, replies and errors as they stand on the wire.

use vstd::prelude::*;
use vstd::string::*;
use vstd::utf8::*;

use crate::dispatch::ratelimit::{CommandClass, RateLimited};
use crate::framing;
use crate::json::{member, object, string, to_text, Json, Member};
use crate::json;
use crate::text;

verus! {

/// The longest envelope of a reply: `{"return":`, `,"id":`, the longest
/// identifier, `}` and the newline.
pub const MAX_RESPONSE_ENVELOPE_BYTES: usize = 38;

/// A request: the method and the identifier that its reply repeats.
#[derive(Debug, PartialEq, Eq)]
pub struct Request {
    /// The command.
    pub method: String,
    /// What the reply repeats, if anything.
    pub id: Option<i64>,
}

/// The class of an error on the wire.
#[derive(Debug, Clone, Copy, PartialEq, Eq, Structural)]
pub enum ErrorClass {
    CommandNotFound,
    GenericError,
}

impl ErrorClass {
    /// The class's name on the wire.
    pub open spec fn text(self) -> Seq<char> {
        match self {
            ErrorClass::CommandNotFound => "CommandNotFound"@,
            ErrorClass::GenericError => "GenericError"@,
        }
    }

    /// The class's name on the wire.
    pub fn as_str(self) -> (name: &'static str)
        ensures
            name@ == self.text(),
    {
        match self {
            ErrorClass::CommandNotFound => "CommandNotFound",
            ErrorClass::GenericError => "GenericError",
        }
    }
}

/// Why a request is not carried out.
#[derive(Debug, PartialEq, Eq)]
pub enum Error {
    /// The frame is not a request; says why.
    InvalidRequest(String),
    /// The method is not allowlisted.
    CommandNotFound(String),
    /// The method is allowlisted but disabled.
    Disabled(String),
    /// The arguments are not those of the method; says why.
    InvalidArguments(String),
    /// The class's quota is exhausted.
    RateLimited {
        class: CommandClass,
    },
    /// The method is not accepted while filesystems are frozen.
    Frozen,
    /// The command failed; says why.
    Internal(String),
}

/// An error as a mathematical value.
#[verifier::ext_equal]
pub ghost enum ErrorView {
    InvalidRequest(Seq<char>),
    CommandNotFound(Seq<char>),
    Disabled(Seq<char>),
    InvalidArguments(Seq<char>),
    RateLimited { class: CommandClass },
    Frozen,
    Internal(Seq<char>),
}

impl View for Error {
    type V = ErrorView;

    open spec fn view(&self) -> ErrorView {
        match self {
            Error::InvalidRequest(why) => ErrorView::InvalidRequest(why@),
            Error::CommandNotFound(method) => ErrorView::CommandNotFound(method@),
            Error::Disabled(method) => ErrorView::Disabled(method@),
            Error::InvalidArguments(why) => ErrorView::InvalidArguments(why@),
            Error::RateLimited { class } => ErrorView::RateLimited { class: *class },
            Error::Frozen => ErrorView::Frozen,
            Error::Internal(why) => ErrorView::Internal(why@),
        }
    }
}

impl ErrorView {
    /// The description on the wire.
    pub open spec fn text(self) -> Seq<char> {
        match self {
            ErrorView::InvalidRequest(why) => why,
            ErrorView::CommandNotFound(method) => "The command "@ + method
                + " has not been found"@,
            ErrorView::Disabled(method) => "command "@ + method + " has been disabled"@,
            ErrorView::InvalidArguments(why) => "invalid arguments: "@ + why,
            ErrorView::RateLimited { class } => "rate limit exceeded for "@ + class.text(),
            ErrorView::Frozen => "filesystems are frozen; retry after thaw"@,
            ErrorView::Internal(why) => why,
        }
    }

    /// The class on the wire.
    pub open spec fn class(self) -> ErrorClass {
        match self {
            ErrorView::CommandNotFound(_) => ErrorClass::CommandNotFound,
            ErrorView::Disabled(_) => ErrorClass::CommandNotFound,
            _ => ErrorClass::GenericError,
        }
    }
}

impl Error {
    /// The description on the wire.
    pub fn message(&self) -> (message: String)
        ensures
            message@ == self@.text(),
    {
        match self {
            Error::InvalidRequest(why) => why.clone(),
            Error::CommandNotFound(method) => "The command ".to_owned().concat(
                method.as_str(),
            ).concat(" has not been found"),
            Error::Disabled(method) => "command ".to_owned().concat(method.as_str()).concat(
                " has been disabled",
            ),
            Error::InvalidArguments(why) => "invalid arguments: ".to_owned().concat(why.as_str()),
            Error::RateLimited { class } => "rate limit exceeded for ".to_owned().concat(
                class.name(),
            ),
            Error::Frozen => "filesystems are frozen; retry after thaw".to_owned(),
            Error::Internal(why) => why.clone(),
        }
    }

    /// The class on the wire.
    pub fn class(&self) -> (class: ErrorClass)
        ensures
            class == self@.class(),
    {
        match self {
            Error::CommandNotFound(_) => ErrorClass::CommandNotFound,
            Error::Disabled(_) => ErrorClass::CommandNotFound,
            _ => ErrorClass::GenericError,
        }
    }

    /// The error of an exhausted quota.
    pub fn rate_limited(denied: RateLimited) -> (err: Error)
        ensures
            err@ == (ErrorView::RateLimited { class: denied.class }),
    {
        Error::RateLimited { class: denied.class }
    }
}

/// The result of a command, as a mathematical value.
pub open spec fn result_view(result: Result<Json, Error>) -> Result<json::JsonView, ErrorView> {
    match result {
        Ok(value) => Ok(value@),
        Err(err) => Err(err@),
    }
}

/// A reply.
#[derive(Debug, PartialEq, Eq)]
pub enum Response {
    /// The command's value.
    Success {
        ret: Json,
        id: Option<i64>,
    },
    /// Why there is none.
    Failure {
        class: ErrorClass,
        desc: String,
        id: Option<i64>,
    },
}

/// The identifier as the last member, if there is one.
pub open spec fn id_members(id: Option<i64>) -> Seq<json::MemberView> {
    match id {
        Some(n) => seq![json::MemberView { name: "id"@, value: json::JsonView::Int(n as int) }],
        None => Seq::empty(),
    }
}

/// A reply with a value.
pub open spec fn success(ret: json::JsonView, id: Option<i64>) -> json::JsonView {
    json::JsonView::Object(
        seq![json::MemberView { name: "return"@, value: ret }] + id_members(id),
    )
}

/// A reply with an error.
pub open spec fn failure(class: ErrorClass, desc: Seq<char>, id: Option<i64>) -> json::JsonView {
    json::JsonView::Object(
        seq![
            json::MemberView {
                name: "error"@,
                value: json::JsonView::Object(
                    seq![
                        json::MemberView {
                            name: "class"@,
                            value: json::JsonView::Text(class.text()),
                        },
                        json::MemberView { name: "desc"@, value: json::JsonView::Text(desc) },
                    ],
                ),
            },
        ] + id_members(id),
    )
}

/// The reply to a command's result.
pub open spec fn reply(
    id: Option<i64>,
    result: Result<json::JsonView, ErrorView>,
) -> json::JsonView {
    match result {
        Ok(value) => success(value, id),
        Err(err) => failure(err.class(), err.text(), id),
    }
}

impl View for Response {
    type V = json::JsonView;

    open spec fn view(&self) -> json::JsonView {
        match self {
            Response::Success { ret, id } => success(ret@, *id),
            Response::Failure { class, desc, id } => failure(*class, desc@, *id),
        }
    }
}

impl Response {
    /// The reply to an error.
    pub fn error(id: Option<i64>, err: &Error) -> (response: Response)
        ensures
            response@ == reply(id, Err(err@)),
    {
        Response::Failure { class: err.class(), desc: err.message(), id }
    }

    /// The reply to a command's result.
    pub fn from_result(id: Option<i64>, result: Result<Json, Error>) -> (response: Response)
        ensures
            response@ == reply(id, result_view(result)),
    {
        match result {
            Ok(ret) => Response::Success { ret, id },
            Err(err) => Response::error(id, &err),
        }
    }

    /// The reply as a JSON value.
    pub fn into_json(self) -> (json: Json)
        ensures
            json@ == self@,
    {
        let mut members: Vec<Member> = Vec::new();
        let id = match self {
            Response::Success { ret, id } => {
                members.push(member("return", ret));
                id
            },
            Response::Failure { class, desc, id } => {
                let mut inner: Vec<Member> = Vec::new();
                inner.push(member("class", string(class.as_str())));
                inner.push(member("desc", string(desc.as_str())));
                proof {
                    assert(json::members_view(inner@) =~= seq![
                        json::MemberView {
                            name: "class"@,
                            value: json::JsonView::Text(class.text()),
                        },
                        json::MemberView { name: "desc"@, value: json::JsonView::Text(desc@) },
                    ]);
                }
                members.push(member("error", object(inner)));
                id
            },
        };
        if let Some(n) = id {
            members.push(member("id", Json::Int(n)));
        }
        proof {
            assert(json::members_view(members@) =~= self@->Object_0);
        }
        object(members)
    }

    /// The bytes of the reply, without the newline.
    pub fn to_json(self) -> (bytes: Vec<u8>)
        ensures
            bytes@ == encode_utf8(json::json_text(self@)),
    {
        let json = self.into_json();
        vstd::slice::slice_to_vec(to_text(&json).as_str().as_bytes())
    }
}

// ---------------------------------------------------------------------------
// Laws
// ---------------------------------------------------------------------------

/// Every character is printable: none is a control character.
pub open spec fn printable(chars: Seq<char>) -> bool {
    forall|i: int| 0 <= i < chars.len() ==> 0x20 <= #[trigger] chars[i] as u32
}

/// A reply is one frame: whatever its value holds, its bytes contain neither
/// delimiter, so a decoder reads the line back as that one reply, as long as it
/// is within the decoder's bound.
pub proof fn law_a_reply_is_one_frame(value: json::JsonView, sentinel: bool)
    requires
        encode_utf8(json::json_text(value)).len() <= framing::MAX_FRAME_LEN,
        value is Object,
    ensures
        ({
            let bytes = encode_utf8(json::json_text(value));
            let line = framing::encoded(bytes, sentinel);
            framing::feed(framing::Decoding::start(), line).1 == seq![
                framing::Event::Frame { bytes, sentinel },
            ]
        }),
{
    let chars = json::json_text(value);
    let bytes = encode_utf8(chars);
    lemma_json_printable(value);
    lemma_printable_bytes(chars);
    reveal_strlit("{");
    assert(chars[0] == '{');
    lemma_first_byte(chars);
    assert(!framing::is_blank(bytes));
    framing::law_round_trip(bytes, sentinel);
}

/// The envelope of a reply with a value, newline included, is at most
/// [`MAX_RESPONSE_ENVELOPE_BYTES`] bytes.
pub proof fn law_the_envelope_is_bounded(ret: json::JsonView, id: Option<i64>)
    ensures
        framing::encoded(encode_utf8(json::json_text(success(ret, id))), false).len()
            <= encode_utf8(json::json_text(ret)).len() + MAX_RESPONSE_ENVELOPE_BYTES,
{
    let value = json::json_text(ret);
    let head = json::MemberView { name: "return"@, value: ret };
    let members = success(ret, id)->Object_0;
    lemma_quoted_return();
    reveal_strlit("{");
    reveal_strlit("}");
    reveal_strlit(":");
    reveal_strlit(",");
    match id {
        None => {
            assert(members =~= seq![head]);
            assert(json::members_text(members) =~= json::quoted("return"@) + ":"@ + value);
            let before = "{"@ + (json::quoted("return"@) + ":"@);
            assert(json::json_text(success(ret, id)) =~= before + value + "}"@);
            lemma_encode_concat(before + value, "}"@);
            lemma_encode_concat(before, value);
            lemma_ascii_len(before);
            lemma_ascii_len("}"@);
        },
        Some(n) => {
            let tail = json::MemberView { name: "id"@, value: json::JsonView::Int(n as int) };
            assert(members =~= seq![head, tail]);
            assert(members.drop_last() =~= seq![head]);
            assert(json::members_text(members.drop_last()) =~= json::quoted("return"@) + ":"@
                + value);
            let before = "{"@ + (json::quoted("return"@) + ":"@);
            let number = json::int_text(n as int);
            let after = ","@ + json::quoted("id"@) + ":"@ + number + "}"@;
            assert(json::json_text(json::JsonView::Int(n as int)) == number);
            assert(json::members_text(members) =~= json::quoted("return"@) + ":"@ + value + ","@
                + json::quoted("id"@) + ":"@ + number);
            assert(json::json_text(success(ret, id)) =~= before + value + after);
            lemma_int_text(n as int);
            lemma_encode_concat(before + value, after);
            lemma_encode_concat(before, value);
            lemma_ascii_len(before);
            lemma_ascii_len(after);
        },
    }
}

proof fn lemma_quoted_return()
    ensures
        json::quoted("return"@).len() == 8,
        is_ascii_chars(json::quoted("return"@)),
        json::quoted("id"@).len() == 4,
        is_ascii_chars(json::quoted("id"@)),
{
    reveal_strlit("return");
    reveal_strlit("id");
    let word = seq!['r', 'e', 't', 'u', 'r', 'n'];
    assert("return"@ =~= word);
    assert("id"@ =~= seq!['i', 'd']);
    reveal_with_fuel(json::escaped, 7);
    lemma_escaped_plain("return"@);
    lemma_escaped_plain("id"@);
}

/// A text that needs no escapes stands for itself.
proof fn lemma_escaped_plain(string: Seq<char>)
    requires
        forall|i: int|
            0 <= i < string.len() ==> 0x20 <= #[trigger] string[i] as u32 && string[i] != '"'
                && string[i] != '\\',
    ensures
        json::escaped(string) == string,
    decreases string.len(),
{
    if string.len() > 0 {
        lemma_escaped_plain(string.drop_last());
        assert(json::escaped(string) =~= string);
    } else {
        assert(json::escaped(string) =~= string);
    }
}

proof fn lemma_ascii_len(chars: Seq<char>)
    requires
        is_ascii_chars(chars),
    ensures
        encode_utf8(chars).len() == chars.len(),
{
    is_ascii_chars_encode_utf8(chars);
}

/// A number of 64 bits has at most twenty characters, sign included.
proof fn lemma_int_text(n: int)
    requires
        i64::MIN <= n <= i64::MAX,
    ensures
        json::int_text(n).len() <= 20,
        is_ascii_chars(json::int_text(n)),
{
    let size = if n < 0 {
        (-n) as nat
    } else {
        n as nat
    };
    assert(pow10(18) == 1_000_000_000_000_000_000) by {
        reveal_with_fuel(pow10, 19);
    }
    lemma_decimal_len(size, 18);
}

spec fn pow10(k: nat) -> nat
    decreases k,
{
    if k == 0 {
        1
    } else {
        10 * pow10((k - 1) as nat)
    }
}

proof fn lemma_decimal_len(n: nat, k: nat)
    requires
        n < 10 * pow10(k),
    ensures
        text::decimal(n).len() <= k + 1,
        is_ascii_chars(text::decimal(n)),
    decreases k,
{
    if n >= 10 {
        if k == 0 {
            assert(false);
        }
        assert(pow10(k) == 10 * pow10((k - 1) as nat));
        lemma_decimal_len(n / 10, (k - 1) as nat);
    }
}

/// The encoding of two texts in a row is their encodings in a row.
pub proof fn lemma_encode_concat(a: Seq<char>, b: Seq<char>)
    ensures
        encode_utf8(a + b) == encode_utf8(a) + encode_utf8(b),
    decreases a.len(),
{
    if a.len() == 0 {
        assert(a + b =~= b);
        assert(encode_utf8(a) =~= Seq::<u8>::empty());
        assert(encode_utf8(a) + encode_utf8(b) =~= encode_utf8(b));
    } else {
        assert((a + b).drop_first() =~= a.drop_first() + b);
        lemma_encode_concat(a.drop_first(), b);
        assert(encode_utf8(a + b) =~= encode_utf8(a) + encode_utf8(b));
    }
}

proof fn lemma_first_byte(chars: Seq<char>)
    requires
        chars.len() > 0,
        chars[0] == '{',
    ensures
        encode_utf8(chars).len() > 0,
        encode_utf8(chars)[0] == 0x7B,
{
    let c: u32 = 0x7B;
    assert(chars[0] as u32 == c);
    assert(leading_byte_width_1(c) == 0x7B) by {
        assert((0x7Bu32 & 0x7F) as u8 == 0x7B) by (bit_vector);
    }
    assert(encode_scalar(c) == seq![leading_byte_width_1(c)]);
}

/// The bytes of printable characters hold no delimiter.
proof fn lemma_printable_bytes(chars: Seq<char>)
    requires
        printable(chars),
    ensures
        forall|i: int|
            0 <= i < encode_utf8(chars).len() ==> !framing::is_delimiter(
                #[trigger] encode_utf8(chars)[i],
            ),
    decreases chars.len(),
{
    if chars.len() > 0 {
        let rest = chars.drop_first();
        assert forall|i: int| 0 <= i < rest.len() implies 0x20 <= #[trigger] rest[i] as u32 by {
            assert(rest[i] == chars[i + 1]);
        }
        lemma_printable_bytes(rest);
        char_is_scalar(chars[0]);
        lemma_scalar_bytes(chars[0] as u32);
        let first = encode_scalar(chars[0] as u32);
        assert(encode_utf8(chars) == first + encode_utf8(rest));
        assert forall|i: int| 0 <= i < encode_utf8(chars).len() implies !framing::is_delimiter(
            #[trigger] encode_utf8(chars)[i],
        ) by {
            if i < first.len() {
                assert(encode_utf8(chars)[i] == first[i]);
            } else {
                assert(encode_utf8(chars)[i] == encode_utf8(rest)[i - first.len()]);
            }
        }
    }
}

proof fn lemma_scalar_bytes(c: u32)
    requires
        is_scalar(c),
        c >= 0x20,
    ensures
        forall|i: int|
            0 <= i < encode_scalar(c).len() ==> !framing::is_delimiter(
                #[trigger] encode_scalar(c)[i],
            ),
{
    if has_width_1_encoding(c) {
        assert((c & 0x7F) as u8 == c as u8 && c as u8 != 0x0A && c as u8 != 0xFF) by (bit_vector)
            requires
                0x20 <= c <= 0x7F,
        ;
    } else {
        assert(0xC0 | ((c >> 6) & 0x1F) as u8 != 0x0A && 0xC0 | ((c >> 6) & 0x1F) as u8 != 0xFF)
            by (bit_vector);
        assert(0xE0 | ((c >> 12) & 0x0F) as u8 != 0x0A && 0xE0 | ((c >> 12) & 0x0F) as u8 != 0xFF)
            by (bit_vector);
        assert(0xF0 | ((c >> 18) & 0x7) as u8 != 0x0A && 0xF0 | ((c >> 18) & 0x7) as u8 != 0xFF)
            by (bit_vector);
        assert(0x80 | (c & 0x3F) as u8 != 0x0A && 0x80 | (c & 0x3F) as u8 != 0xFF) by (bit_vector);
        assert(0x80 | ((c >> 6) & 0x3F) as u8 != 0x0A && 0x80 | ((c >> 6) & 0x3F) as u8 != 0xFF)
            by (bit_vector);
        assert(0x80 | ((c >> 12) & 0x3F) as u8 != 0x0A && 0x80 | ((c >> 12) & 0x3F) as u8 != 0xFF)
            by (bit_vector);
    }
}

/// JSON text in compact form holds no control character.
pub proof fn lemma_json_printable(value: json::JsonView)
    ensures
        printable(json::json_text(value)),
    decreases value,
{
    match value {
        json::JsonView::Null => {
            reveal_strlit("null");
        },
        json::JsonView::Bool(_) => {
            reveal_strlit("true");
            reveal_strlit("false");
        },
        json::JsonView::Int(n) => {
            let size = if n < 0 {
                (-n) as nat
            } else {
                n as nat
            };
            lemma_decimal_printable(size);
        },
        json::JsonView::Text(string) => {
            lemma_quoted_printable(string);
        },
        json::JsonView::List(items) => {
            reveal_strlit("[");
            reveal_strlit("]");
            lemma_items_printable(items);
        },
        json::JsonView::Object(members) => {
            reveal_strlit("{");
            reveal_strlit("}");
            lemma_members_printable(members);
        },
    }
}

proof fn lemma_items_printable(items: Seq<json::JsonView>)
    ensures
        printable(json::items_text(items)),
    decreases items,
{
    if items.len() > 0 {
        reveal_strlit(",");
        lemma_items_printable(items.drop_last());
        lemma_json_printable(items.last());
    }
}

proof fn lemma_members_printable(members: Seq<json::MemberView>)
    ensures
        printable(json::members_text(members)),
    decreases members,
{
    if members.len() > 0 {
        reveal_strlit(",");
        reveal_strlit(":");
        lemma_members_printable(members.drop_last());
        lemma_quoted_printable(members.last().name);
        lemma_json_printable(members.last().value);
    }
}

proof fn lemma_quoted_printable(string: Seq<char>)
    ensures
        printable(json::quoted(string)),
{
    lemma_escaped_printable(string);
}

proof fn lemma_escaped_printable(string: Seq<char>)
    ensures
        printable(json::escaped(string)),
    decreases string.len(),
{
    if string.len() > 0 {
        lemma_escaped_printable(string.drop_last());
    }
}

proof fn lemma_decimal_printable(n: nat)
    ensures
        printable(text::decimal(n)),
    decreases n,
{
    if n >= 10 {
        lemma_decimal_printable(n / 10);
    }
}

/// A reply with a value says the value under `return` and the request's
/// identifier, if it had one, under `id`; nothing else.
pub proof fn law_a_success_says_the_value(
    id: Option<i64>,
    ret: json::JsonView,
    name: Seq<char>,
    value: json::JsonView,
)
    ensures
        reply(id, Ok(ret)) is Object,
        json::says(reply(id, Ok(ret))->Object_0, name, value) <==> {
            ||| name == "return"@ && value == ret
            ||| name == "id"@ && id is Some && value == json::JsonView::Int(id->0 as int)
        },
{
    let head = seq![json::MemberView { name: "return"@, value: ret }];
    json::lemma_says_concat(head, id_members(id), name, value);
    assert(head[0].name == "return"@);
    if id is Some {
        assert(id_members(id)[0].name == "id"@);
    }
}

/// A reply with an error says the error's class and its words under `error`,
/// and the request's identifier, if it had one, under `id`; nothing else.
pub proof fn law_a_failure_says_the_error(
    id: Option<i64>,
    err: ErrorView,
    name: Seq<char>,
    value: json::JsonView,
)
    ensures
        reply(id, Err(err)) is Object,
        json::says(reply(id, Err(err))->Object_0, name, value) <==> {
            ||| name == "error"@ && value == json::JsonView::Object(
                seq![
                    json::MemberView {
                        name: "class"@,
                        value: json::JsonView::Text(
                            if err is CommandNotFound || err is Disabled {
                                "CommandNotFound"@
                            } else {
                                "GenericError"@
                            },
                        ),
                    },
                    json::MemberView { name: "desc"@, value: json::JsonView::Text(err.text()) },
                ],
            )
            ||| name == "id"@ && id is Some && value == json::JsonView::Int(id->0 as int)
        },
{
    let head = reply(id, Err(err))->Object_0.take(1);
    let inner = json::JsonView::Object(
        seq![
            json::MemberView {
                name: "class"@,
                value: json::JsonView::Text(err.class().text()),
            },
            json::MemberView { name: "desc"@, value: json::JsonView::Text(err.text()) },
        ],
    );
    assert(head =~= seq![json::MemberView { name: "error"@, value: inner }]);
    assert(reply(id, Err(err))->Object_0 =~= head + id_members(id));
    json::lemma_says_concat(head, id_members(id), name, value);
    assert(head[0].name == "error"@);
    if id is Some {
        assert(id_members(id)[0].name == "id"@);
    }
}

/// The words of each error, with what it is about in them, whole.
pub proof fn law_the_words_of_an_error(said: Seq<char>, class: CommandClass)
    ensures
        ErrorView::InvalidRequest(said).text() == said,
        ErrorView::Internal(said).text() == said,
        ErrorView::CommandNotFound(said).text() == "The command "@ + said
            + " has not been found"@,
        ErrorView::Disabled(said).text() == "command "@ + said + " has been disabled"@,
        ErrorView::InvalidArguments(said).text() == "invalid arguments: "@ + said,
        (ErrorView::RateLimited { class }).text() == "rate limit exceeded for "@ + match class {
            CommandClass::PingSync => "ping_sync"@,
            CommandClass::Get => "get_commands"@,
            CommandClass::FsfreezeFreeze => "fsfreeze_freeze"@,
            CommandClass::Unlimited => "unlimited"@,
            CommandClass::Fstrim => "fstrim"@,
            CommandClass::Shutdown => "shutdown"@,
        },
        ErrorView::Frozen.text() == "filesystems are frozen; retry after thaw"@,
{
}

} // verus!
