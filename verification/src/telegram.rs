//! Messages to a person through a Telegram bot.
use vstd::prelude::*;
use vstd::string::*;
use vstd::utf8::*;
use crate::form::{
    add_field, encode_form, encoded_form, field_of_encoded_form, field_text, looked_up, plain,
    plain_byte, FormRequest,
};
use crate::text::{
    all_space, is_space, only_white_space_trims_to_nothing, trim, trimmed,
    trimming_takes_white_space,
};

verus! {

/// A setting that is there and more than white space.
pub open spec fn is_set(value: Option<Seq<char>>) -> bool {
    match value {
        Some(v) => trimmed(v).len() > 0,
        None => false,
    }
}

/// The address at which a bot takes messages.
pub open spec fn bot_url(token: Seq<char>) -> Seq<char> {
    "https://api.telegram.org/bot"@ + trimmed(token) + "/sendMessage"@
}

/// The fields of a message.
pub open spec fn message_fields(chat_id: Seq<char>, text: Seq<char>) -> Seq<
    (Seq<char>, Seq<char>),
> {
    seq![("chat_id"@, trimmed(chat_id)), ("text"@, text)]
}

fn setting(value: &Option<String>) -> (r: Option<String>)
    ensures
        match r {
            Some(v) => is_set(value.deep_view()) && v@ == trimmed(value.deep_view().unwrap()),
            None => !is_set(value.deep_view()),
        },
{
    match value {
        Some(v) => {
            let t: &str = trim(v.as_str());
            if t.is_empty() {
                None
            } else {
                Some(t.to_string())
            }
        },
        None => None,
    }
}

/// What becomes of a message.
#[derive(Debug)]
pub enum Notification {
    /// It is not sent, and this is said.
    Skip(String),
    /// This request sends it.
    Send(FormRequest),
}

/// What becomes of a message, for the token of a bot and the chat that it
/// writes to: without both of them nothing is sent.
pub fn telegram_message(token: &Option<String>, chat_id: &Option<String>, text: &str) -> (r:
    Notification)
    ensures
        if !is_set(token.deep_view()) {
            &&& r matches Notification::Skip(notice)
            &&& notice@ == "Telegram notification skipped: TELEGRAM_BOT_TOKEN is not set."@
        } else if !is_set(chat_id.deep_view()) {
            &&& r matches Notification::Skip(notice)
            &&& notice@ == "Telegram notification skipped: TELEGRAM_CHAT_ID is not set."@
        } else {
            &&& r matches Notification::Send(request)
            &&& request.url@ == bot_url(token.deep_view().unwrap())
            &&& request.body@ == encoded_form(message_fields(chat_id.deep_view().unwrap(), text@))
        },
        r is Send <==> is_set(token.deep_view()) && is_set(chat_id.deep_view()),
{
    let token: String = match setting(token) {
        Some(token) => token,
        None => return Notification::Skip(
            "Telegram notification skipped: TELEGRAM_BOT_TOKEN is not set.".to_string(),
        ),
    };
    let chat: String = match setting(chat_id) {
        Some(chat) => chat,
        None => return Notification::Skip(
            "Telegram notification skipped: TELEGRAM_CHAT_ID is not set.".to_string(),
        ),
    };
    let mut url: String = "https://api.telegram.org/bot".to_string();
    url.append(token.as_str());
    url.append("/sendMessage");
    let mut f: Vec<(String, String)> = Vec::new();
    assert(f.deep_view() =~= seq![]);
    add_field(&mut f, "chat_id", chat.as_str());
    add_field(&mut f, "text", text);
    assert(f.deep_view() =~= message_fields(chat_id.deep_view().unwrap(), text@));
    Notification::Send(FormRequest { url, body: encode_form(&f) })
}

/// How the sending of a message went.
#[derive(Debug)]
pub enum Delivery {
    /// There was an answer with a status of success.
    Accepted,
    /// There was an answer with another status.
    Refused { status: String },
    /// There was no answer.
    Failed { error: String },
}

/// What is said of how the sending went.
pub open spec fn delivery_text(delivery: Delivery) -> Seq<char> {
    match delivery {
        Delivery::Accepted => "Telegram notification sent."@,
        Delivery::Refused { status } => "Telegram notification failed: HTTP "@ + status@,
        Delivery::Failed { error } => "Telegram notification failed: "@ + error@,
    }
}

/// What is said of how the sending went.
pub fn delivery_notice(delivery: &Delivery) -> (r: String)
    ensures
        r@ == delivery_text(*delivery),
{
    match delivery {
        Delivery::Accepted => "Telegram notification sent.".to_string(),
        Delivery::Refused { status } => {
            let mut s: String = "Telegram notification failed: HTTP ".to_string();
            s.append(status.as_str());
            s
        },
        Delivery::Failed { error } => {
            let mut s: String = "Telegram notification failed: ".to_string();
            s.append(error.as_str());
            s
        },
    }
}

/// The text of a message arrives as it was written: who decodes the request
/// reads it back, and the chat that it goes to.
pub proof fn message_arrives_whole(chat: Seq<char>, text: Seq<char>)
    ensures
        ({
            let body = encoded_form(seq![("chat_id"@, chat), ("text"@, text)]);
            &&& field_text(body, "text"@) == text
            &&& field_text(body, "chat_id"@) == chat
        }),
{
    let pairs = seq![("chat_id"@, chat), ("text"@, text)];
    reveal_strlit("chat_id");
    reveal_strlit("text");
    assert(plain("text"@)) by {
        assert forall|i: int| 0 <= i < "text"@.len() implies '\0' <= #[trigger] "text"@[i]
            <= '\u{7f}' && plain_byte("text"@[i] as u8) by {
            assert("text"@[i] == 't' || "text"@[i] == 'e' || "text"@[i] == 'x');
        }
    }
    assert(plain("chat_id"@)) by {
        assert forall|i: int| 0 <= i < "chat_id"@.len() implies '\0' <= #[trigger] "chat_id"@[i]
            <= '\u{7f}' && plain_byte("chat_id"@[i] as u8) by {
            let c = "chat_id"@[i];
            assert(c == 'c' || c == 'h' || c == 'a' || c == 't' || c == '_' || c == 'i' || c
                == 'd');
        }
    }
    assert("chat_id"@.len() != "text"@.len());
    field_of_encoded_form(pairs, "text"@);
    field_of_encoded_form(pairs, "chat_id"@);
    assert(pairs.drop_first() =~= seq![("text"@, text)]);
    assert(looked_up(pairs.drop_first(), "text"@) == text);
}

/// A setting counts exactly where it has a character that is not white space.
pub proof fn setting_is_more_than_white_space(value: Seq<char>)
    ensures
        !is_set(None),
        is_set(Some(value)) <==> exists|i: int| 0 <= i < value.len() && !is_space(
            #[trigger] value[i],
        ),
{
    only_white_space_trims_to_nothing(value);
}

/// The token stands in the address as it was given, but for white space around
/// it, and the rest of the address is the same for every token.
pub proof fn token_is_in_the_address(
    before: Seq<char>,
    token: Seq<char>,
    after: Seq<char>,
    other: Seq<char>,
)
    requires
        all_space(before),
        all_space(after),
        token.len() > 0,
        !is_space(token[0]),
        !is_space(token.last()),
    ensures
        ({
            let url = bot_url(before + token + after);
            let k = "https://api.telegram.org/bot"@.len() as int;
            &&& "https://api.telegram.org/bot"@.is_prefix_of(url)
            &&& url.subrange(k, k + token.len()) == token
            &&& url.skip(k + token.len()) == bot_url(other).skip(k + trimmed(other).len())
        }),
{
    trimming_takes_white_space(before, token, after);
    let url = bot_url(before + token + after);
    let front = "https://api.telegram.org/bot"@;
    let k = front.len() as int;
    assert(url.subrange(0, k) =~= front);
    assert(url.subrange(k, k + token.len()) =~= token);
    assert(url.skip(k + token.len()) =~= "/sendMessage"@);
    assert(bot_url(other).skip(k + trimmed(other).len()) =~= "/sendMessage"@);
}

/// What failed is told in full: the status of the answer, or the error.
pub proof fn failures_are_told(delivery: Delivery)
    ensures
        match delivery {
            Delivery::Accepted => true,
            Delivery::Refused { status } => delivery_text(delivery).skip(
                "Telegram notification failed: HTTP "@.len() as int,
            ) == status@,
            Delivery::Failed { error } => delivery_text(delivery).skip(
                "Telegram notification failed: "@.len() as int,
            ) == error@,
        },
{
    match delivery {
        Delivery::Refused { status } => {
            assert(delivery_text(delivery).skip(
                "Telegram notification failed: HTTP "@.len() as int,
            ) =~= status@);
        },
        Delivery::Failed { error } => {
            assert(delivery_text(delivery).skip("Telegram notification failed: "@.len() as int)
                =~= error@);
        },
        _ => {},
    }
}

/// Who decodes the body of a message reads the text as it was written, and the
/// chat as it was given but for white space around it.
pub proof fn sent_message_is_read_back(chat: Seq<char>, text: Seq<char>)
    ensures
        field_text(encoded_form(message_fields(chat, text)), "text"@) == text,
        field_text(encoded_form(message_fields(chat, text)), "chat_id"@) == trimmed(chat),
{
    message_arrives_whole(trimmed(chat), text);
}

} // verus!
