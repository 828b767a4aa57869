//! The service's endpoints: URL and body construction, and the reading of
//! each endpoint's response document into the data model.

use vstd::prelude::*;
use vstd::string::*;

use crate::doc::{
    doc_get, docs_view, json_i64, lemma_docs_view, spec_get, spec_json_array, spec_json_bool_or,
    spec_json_i64, DocValue, DocView,
};
use crate::model::{
    spec_friend_of, spec_member_of, spec_message_of, spec_room_of, ChatMember, ChatMessage,
    ChatRoom, Friend, MyProfile,
};
use crate::text::{i64_to_dec, spec_i64_dec};

verus! {

// ---------------------------------------------------------------------------
// Hosts, paths and bodies
// ---------------------------------------------------------------------------

pub open spec fn spec_base_url() -> Seq<char> {
    "https://katalk.kakao.com"@
}

pub open spec fn spec_pilsner_url() -> Seq<char> {
    "https://talk-pilsner.kakao.com"@
}

/// Settings endpoint, also the token-verification probe.
pub fn settings_url() -> (r: String)
    ensures
        r@ == spec_base_url() + "/mac/account/more_settings.json"@,
{
    let mut s = String::from_str("https://katalk.kakao.com");
    s.append("/mac/account/more_settings.json");
    s
}

/// Body of the settings request.
pub fn settings_body() -> (r: String)
    ensures
        r@ == "since=0&locale_country=KR"@,
{
    String::from_str("since=0&locale_country=KR")
}

/// Own-profile endpoint.
pub fn profile_url() -> (r: String)
    ensures
        r@ == spec_base_url() + "/mac/profile3/me.json"@,
{
    let mut s = String::from_str("https://katalk.kakao.com");
    s.append("/mac/profile3/me.json");
    s
}

/// Body of the own-profile request.
pub fn profile_body() -> (r: String)
    ensures
        r@ == "since=0"@,
{
    String::from_str("since=0")
}

/// Friend-list endpoint.
pub fn friends_url() -> (r: String)
    ensures
        r@ == spec_base_url() + "/mac/friends/update.json"@,
{
    let mut s = String::from_str("https://katalk.kakao.com");
    s.append("/mac/friends/update.json");
    s
}

/// Body of the friend-list request.
pub fn friends_body() -> (r: String)
    ensures
        r@ == "since=0"@,
{
    String::from_str("since=0")
}

/// The chat-list URL, with the continuation cursor when one is in hand.
pub open spec fn spec_chats_url(cursor: Option<i64>) -> Seq<char> {
    match cursor {
        Some(c) => spec_pilsner_url() + "/messaging/chats?cursor="@ + spec_i64_dec(c as int),
        None => spec_pilsner_url() + "/messaging/chats"@,
    }
}

/// Build the chat-list URL.
pub fn chats_url(cursor: Option<i64>) -> (r: String)
    ensures
        r@ == spec_chats_url(cursor),
{
    let mut s = String::from_str("https://talk-pilsner.kakao.com");
    match cursor {
        Some(c) => {
            s.append("/messaging/chats?cursor=");
            s.append(i64_to_dec(c).as_str());
        },
        None => {
            s.append("/messaging/chats");
        },
    }
    s
}

/// The member-list URL of a chat.
pub open spec fn spec_members_url(chat_id: int) -> Seq<char> {
    spec_pilsner_url() + "/messaging/chats/"@ + spec_i64_dec(chat_id) + "/members"@
}

/// Build the member-list URL of a chat.
pub fn members_url(chat_id: i64) -> (r: String)
    ensures
        r@ == spec_members_url(chat_id as int),
{
    let mut s = String::from_str("https://talk-pilsner.kakao.com");
    s.append("/messaging/chats/");
    s.append(i64_to_dec(chat_id).as_str());
    s.append("/members");
    s
}

/// The message-history URL of a chat, with the continuation cursor when
/// one is in hand.
pub open spec fn spec_messages_url(chat_id: int, cursor: Option<i64>) -> Seq<char> {
    let base = spec_pilsner_url() + "/messaging/chats/"@ + spec_i64_dec(chat_id)
        + "/messages"@;
    match cursor {
        Some(c) => base + "?cursor="@ + spec_i64_dec(c as int),
        None => base,
    }
}

/// Build the message-history URL of a chat.
pub fn messages_url(chat_id: i64, cursor: Option<i64>) -> (r: String)
    ensures
        r@ == spec_messages_url(chat_id as int, cursor),
{
    let mut s = String::from_str("https://talk-pilsner.kakao.com");
    s.append("/messaging/chats/");
    s.append(i64_to_dec(chat_id).as_str());
    s.append("/messages");
    if let Some(c) = cursor {
        s.append("?cursor=");
        s.append(i64_to_dec(c).as_str());
    }
    s
}

/// Link-preview endpoint.
pub fn scrap_url() -> (r: String)
    ensures
        r@ == spec_base_url() + "/mac/scrap/preview.json"@,
{
    let mut s = String::from_str("https://katalk.kakao.com");
    s.append("/mac/scrap/preview.json");
    s
}

// ---------------------------------------------------------------------------
// Percent-encoding for the link-preview body
// ---------------------------------------------------------------------------

/// A byte that percent-encoding passes through: an ASCII alphanumeric or
/// one of '-', '.', '_', '~'.
pub open spec fn spec_url_unreserved(b: u8) -> bool {
    (48 <= b <= 57) || (65 <= b <= 90) || (97 <= b <= 122) || b == 45 || b == 46 || b == 95
        || b == 126
}

/// The uppercase hex digit of a value below 16.
pub open spec fn spec_hex_upper(d: u8) -> char {
    if d < 10 {
        ((48 + d) as u8) as char
    } else {
        ((55 + d) as u8) as char
    }
}

/// The characters one byte encodes to.
pub open spec fn spec_encoded_byte(b: u8) -> Seq<char> {
    if spec_url_unreserved(b) {
        seq![b as char]
    } else {
        seq!['%', spec_hex_upper(b / 16), spec_hex_upper(b % 16)]
    }
}

/// Percent-encoding of a byte string: unreserved bytes pass through, every
/// other byte becomes '%' and two uppercase hex digits.
pub open spec fn spec_percent_encode(bytes: Seq<u8>) -> Seq<char>
    decreases bytes.len(),
{
    if bytes.len() == 0 {
        Seq::empty()
    } else {
        spec_percent_encode(bytes.drop_last()) + spec_encoded_byte(bytes.last())
    }
}

/// Relies on urlencoding::encode: percent-encodes every byte of the
/// string's UTF-8 form except ASCII alphanumerics and '-', '.', '_', '~',
/// using uppercase hex digits; the result depends on the bytes alone.
#[verifier::external_body]
fn percent_encode(s: &str) -> (r: String)
    ensures
        r@ == spec_percent_encode(s.spec_bytes()),
{
    urlencoding::encode(s).into_owned()
}

/// Body of the link-preview request: the target URL, percent-encoded.
pub fn scrap_body(url: &str) -> (r: String)
    ensures
        r@ == "url="@ + spec_percent_encode(url.spec_bytes()),
{
    let mut s = String::from_str("url=");
    s.append(percent_encode(url).as_str());
    s
}

// ---------------------------------------------------------------------------
// Response reading
// ---------------------------------------------------------------------------

/// The friend elements a friend-list response carries: the array under
/// `friends`, else the one under `added`, else nothing.
pub open spec fn spec_friend_items(doc: DocView) -> Seq<DocView> {
    match spec_get(doc, "friends"@) {
        Some(DocView::Arr(items)) => items,
        _ => match spec_get(doc, "added"@) {
            Some(DocView::Arr(items)) => items,
            _ => Seq::empty(),
        },
    }
}

/// Read the friend list out of a response document.
#[verifier::loop_isolation(false)]
pub fn friends_from(doc: &DocValue) -> (r: Vec<Friend>)
    ensures
        r@.map_values(|f: Friend| f@) == spec_friend_items(doc@).map_values(
            |v: DocView| spec_friend_of(v),
        ),
{
    let empty: Vec<DocValue> = Vec::new();
    let items: &Vec<DocValue> = match doc_get(doc, "friends") {
        Some(DocValue::Arr(a)) => a,
        _ => match doc_get(doc, "added") {
            Some(DocValue::Arr(a)) => a,
            _ => &empty,
        },
    };
    proof {
        lemma_docs_view(items@);
        assert(docs_view(items@) =~= spec_friend_items(doc@));
    }
    let mut out: Vec<Friend> = Vec::new();
    let mut i: usize = 0;
    while i < items.len()
        invariant
            i <= items@.len(),
            out@.len() == i,
            forall|k: int|
                0 <= k < i ==> (#[trigger] out@[k])@ == spec_friend_of(docs_view(items@)[k]),
        decreases items@.len() - i,
    {
        out.push(Friend::from_json(&items[i]));
        i += 1;
    }
    proof {
        assert(out@.map_values(|f: Friend| f@) =~= docs_view(items@).map_values(
            |v: DocView| spec_friend_of(v),
        ));
    }
    out
}

/// Read the member list out of a response document: the array under
/// `members`.
#[verifier::loop_isolation(false)]
pub fn members_from(doc: &DocValue) -> (r: Vec<ChatMember>)
    ensures
        r@.map_values(|m: ChatMember| m@) == spec_json_array(doc@, "members"@).map_values(
            |v: DocView| spec_member_of(v),
        ),
{
    let empty: Vec<DocValue> = Vec::new();
    let items: &Vec<DocValue> = match doc_get(doc, "members") {
        Some(DocValue::Arr(a)) => a,
        _ => &empty,
    };
    proof {
        lemma_docs_view(items@);
        assert(docs_view(items@) =~= spec_json_array(doc@, "members"@));
    }
    let mut out: Vec<ChatMember> = Vec::new();
    let mut i: usize = 0;
    while i < items.len()
        invariant
            i <= items@.len(),
            out@.len() == i,
            forall|k: int|
                0 <= k < i ==> (#[trigger] out@[k])@ == spec_member_of(docs_view(items@)[k]),
        decreases items@.len() - i,
    {
        out.push(ChatMember::from_json(&items[i]));
        i += 1;
    }
    proof {
        assert(out@.map_values(|m: ChatMember| m@) =~= docs_view(items@).map_values(
            |v: DocView| spec_member_of(v),
        ));
    }
    out
}

/// The profile object inside an own-profile response, or null.
pub open spec fn spec_profile_part(doc: DocView) -> DocView {
    match spec_get(doc, "profile"@) {
        Some(p) => p,
        None => DocView::Null,
    }
}

/// Merge the own-profile and settings responses into a profile, taking the
/// caller's recovered user id when the response carries none.
pub fn my_profile_from(
    profile_doc: &DocValue,
    settings_doc: &DocValue,
    fallback_user_id: i64,
) -> (r: MyProfile)
    ensures
        r.nickname@ == crate::doc::spec_json_string(spec_profile_part(profile_doc@), "nickname"@),
        r.status_message@ == crate::doc::spec_json_string(
            spec_profile_part(profile_doc@),
            "statusMessage"@,
        ),
        r.account_id as int == spec_json_i64(settings_doc@, "accountId"@),
        r.email@ == crate::doc::spec_json_string(settings_doc@, "emailAddress"@),
        r.user_id as int == {
            let id = spec_json_i64(spec_profile_part(profile_doc@), "userId"@);
            if id == 0 {
                fallback_user_id as int
            } else {
                id
            }
        },
        r.profile_image_url@ == crate::doc::spec_json_string(
            spec_profile_part(profile_doc@),
            "fullProfileImageUrl"@,
        ),
{
    let null = DocValue::Null;
    let p: &DocValue = match doc_get(profile_doc, "profile") {
        Some(v) => v,
        None => &null,
    };
    let id = json_i64(p, "userId");
    MyProfile {
        nickname: crate::doc::json_string(p, "nickname"),
        status_message: crate::doc::json_string(p, "statusMessage"),
        account_id: json_i64(settings_doc, "accountId"),
        email: crate::doc::json_string(settings_doc, "emailAddress"),
        user_id: if id == 0 {
            fallback_user_id
        } else {
            id
        },
        profile_image_url: crate::doc::json_string(p, "fullProfileImageUrl"),
    }
}

/// The continuation the chat-list response hands back: nothing when the
/// `last` flag is set or the next cursor is absent or zero, else the
/// cursor.
pub open spec fn spec_chats_next_cursor(doc: DocView) -> Option<i64> {
    if spec_json_bool_or(doc, "last"@, false) {
        None
    } else {
        let n = spec_json_i64(doc, "nextCursor"@);
        if n == 0 {
            None
        } else {
            Some(n as i64)
        }
    }
}

/// Read one chat-list page: its rooms, and the cursor to continue with.
#[verifier::loop_isolation(false)]
pub fn chats_page_from(doc: &DocValue) -> (r: (Vec<ChatRoom>, Option<i64>))
    ensures
        r.0@.map_values(|c: ChatRoom| c@) == spec_json_array(doc@, "chats"@).map_values(
            |v: DocView| spec_room_of(v),
        ),
        r.1 == spec_chats_next_cursor(doc@),
{
    let empty: Vec<DocValue> = Vec::new();
    let items: &Vec<DocValue> = match doc_get(doc, "chats") {
        Some(DocValue::Arr(a)) => a,
        _ => &empty,
    };
    proof {
        lemma_docs_view(items@);
        assert(docs_view(items@) =~= spec_json_array(doc@, "chats"@));
    }
    let mut rooms: Vec<ChatRoom> = Vec::new();
    let mut i: usize = 0;
    while i < items.len()
        invariant
            i <= items@.len(),
            rooms@.len() == i,
            forall|k: int|
                0 <= k < i ==> (#[trigger] rooms@[k])@ == spec_room_of(docs_view(items@)[k]),
        decreases items@.len() - i,
    {
        rooms.push(ChatRoom::from_json(&items[i]));
        i += 1;
    }
    proof {
        assert(rooms@.map_values(|c: ChatRoom| c@) =~= docs_view(items@).map_values(
            |v: DocView| spec_room_of(v),
        ));
    }
    let next_cursor = if crate::doc::json_bool_or(doc, "last", false) {
        None
    } else {
        let n = json_i64(doc, "nextCursor");
        if n == 0 {
            None
        } else {
            Some(n)
        }
    };
    (rooms, next_cursor)
}

/// The raw next cursor of a message-history page: the integer under
/// `nextCursor`, else 0; 0 means no further pages.
pub open spec fn spec_messages_next_cursor(doc: DocView) -> i64 {
    match spec_get(doc, "nextCursor"@) {
        Some(DocView::Int(n)) => n,
        _ => 0,
    }
}

/// Read one message-history page: its messages, and the raw next cursor.
#[verifier::loop_isolation(false)]
pub fn messages_page_from(doc: &DocValue) -> (r: (Vec<ChatMessage>, i64))
    ensures
        r.0@.map_values(|m: ChatMessage| m@) == spec_json_array(doc@, "chatLogs"@).map_values(
            |v: DocView| spec_message_of(v),
        ),
        r.1 == spec_messages_next_cursor(doc@),
{
    let empty: Vec<DocValue> = Vec::new();
    let items: &Vec<DocValue> = match doc_get(doc, "chatLogs") {
        Some(DocValue::Arr(a)) => a,
        _ => &empty,
    };
    proof {
        lemma_docs_view(items@);
        assert(docs_view(items@) =~= spec_json_array(doc@, "chatLogs"@));
    }
    let mut out: Vec<ChatMessage> = Vec::new();
    let mut i: usize = 0;
    while i < items.len()
        invariant
            i <= items@.len(),
            out@.len() == i,
            forall|k: int|
                0 <= k < i ==> (#[trigger] out@[k])@ == spec_message_of(docs_view(items@)[k]),
        decreases items@.len() - i,
    {
        out.push(ChatMessage::from_json(&items[i]));
        i += 1;
    }
    proof {
        assert(out@.map_values(|m: ChatMessage| m@) =~= docs_view(items@).map_values(
            |v: DocView| spec_message_of(v),
        ));
    }
    let next = match doc_get(doc, "nextCursor") {
        Some(DocValue::Int(n)) => *n,
        _ => 0,
    };
    (out, next)
}

} // verus!
