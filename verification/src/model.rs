//! The data model: credentials recovered from the cache store, and the
//! entities the service's JSON endpoints return.

use vstd::prelude::*;

use crate::doc::{
    docs_view, json_bool_or, json_i64, json_string, spec_json_array, spec_json_bool_or,
    spec_json_i64, spec_json_string, DocValue, DocView,
};

verus! {

/// The fixed device label this tool reports to the service.
pub open spec fn spec_device_name() -> Seq<char> {
    "openkakao-rs"@
}

/// An authenticated session: the bearer token with the identifiers the
/// request layer derives headers from.
pub struct KakaoCredentials {
    pub oauth_token: String,
    pub user_id: i64,
    pub device_uuid: String,
    pub device_name: String,
    pub app_version: String,
    pub user_agent: String,
    pub a_header: String,
}

impl KakaoCredentials {
    /// Assemble credentials, stamping in the fixed device label.
    pub fn new(
        oauth_token: String,
        user_id: i64,
        device_uuid: String,
        app_version: String,
        user_agent: String,
        a_header: String,
    ) -> (c: Self)
        ensures
            c.oauth_token == oauth_token,
            c.user_id == user_id,
            c.device_uuid == device_uuid,
            c.device_name@ == spec_device_name(),
            c.app_version == app_version,
            c.user_agent == user_agent,
            c.a_header == a_header,
    {
        KakaoCredentials {
            oauth_token,
            user_id,
            device_uuid,
            device_name: "openkakao-rs".to_owned(),
            app_version,
            user_agent,
            a_header,
        }
    }
}

impl Clone for KakaoCredentials {
    /// Field-for-field copy.
    fn clone(&self) -> (c: Self)
        ensures
            c == *self,
    {
        KakaoCredentials {
            oauth_token: self.oauth_token.clone(),
            user_id: self.user_id,
            device_uuid: self.device_uuid.clone(),
            device_name: self.device_name.clone(),
            app_version: self.app_version.clone(),
            user_agent: self.user_agent.clone(),
            a_header: self.a_header.clone(),
        }
    }
}

/// Preferred display name: the caller-set nickname when present, else the
/// friend's own nickname.
pub open spec fn spec_display_name(friend_nickname: Seq<char>, nickname: Seq<char>) -> Seq<
    char,
> {
    if friend_nickname.len() == 0 {
        nickname
    } else {
        friend_nickname
    }
}

/// One entry of the friend list.
pub struct Friend {
    pub user_id: i64,
    pub nickname: String,
    pub friend_nickname: String,
    pub phone_number: String,
    pub status_message: String,
    pub favorite: bool,
    pub hidden: bool,
}

/// Mathematical shape of a friend entry.
pub struct FriendView {
    pub user_id: int,
    pub nickname: Seq<char>,
    pub friend_nickname: Seq<char>,
    pub phone_number: Seq<char>,
    pub status_message: Seq<char>,
    pub favorite: bool,
    pub hidden: bool,
}

impl View for Friend {
    type V = FriendView;

    open spec fn view(&self) -> FriendView {
        FriendView {
            user_id: self.user_id as int,
            nickname: self.nickname@,
            friend_nickname: self.friend_nickname@,
            phone_number: self.phone_number@,
            status_message: self.status_message@,
            favorite: self.favorite,
            hidden: self.hidden,
        }
    }
}

/// The friend a response document element describes.
pub open spec fn spec_friend_of(v: DocView) -> FriendView {
    FriendView {
        user_id: spec_json_i64(v, "userId"@),
        nickname: spec_json_string(v, "nickName"@),
        friend_nickname: spec_json_string(v, "friendNickName"@),
        phone_number: spec_json_string(v, "phoneNumber"@),
        status_message: spec_json_string(v, "statusMessage"@),
        favorite: spec_json_bool_or(v, "favorite"@, false),
        hidden: spec_json_bool_or(v, "hidden"@, false),
    }
}

impl Friend {
    /// The name to show for this friend.
    pub fn display_name(&self) -> (r: String)
        ensures
            r@ == spec_display_name(self.friend_nickname@, self.nickname@),
    {
        if self.friend_nickname.as_str().is_empty() {
            self.nickname.clone()
        } else {
            self.friend_nickname.clone()
        }
    }

    /// Read one friend out of a response document element.
    pub fn from_json(v: &DocValue) -> (r: Self)
        ensures
            r@ == spec_friend_of(v@),
    {
        Friend {
            user_id: json_i64(v, "userId"),
            nickname: json_string(v, "nickName"),
            friend_nickname: json_string(v, "friendNickName"),
            phone_number: json_string(v, "phoneNumber"),
            status_message: json_string(v, "statusMessage"),
            favorite: json_bool_or(v, "favorite", false),
            hidden: json_bool_or(v, "hidden", false),
        }
    }
}

/// The caller's own account profile, merged from the profile and settings
/// endpoints.
pub struct MyProfile {
    pub nickname: String,
    pub status_message: String,
    pub account_id: i64,
    pub email: String,
    pub user_id: i64,
    pub profile_image_url: String,
}

/// One chat room of the chat list.
pub struct ChatRoom {
    pub chat_id: i64,
    pub kind: String,
    pub title: String,
    pub unread_count: i64,
    pub display_members: Vec<DocValue>,
}

/// Mathematical shape of a chat room.
pub struct RoomView {
    pub chat_id: int,
    pub kind: Seq<char>,
    pub title: Seq<char>,
    pub unread_count: int,
    pub display_members: Seq<DocView>,
}

impl View for ChatRoom {
    type V = RoomView;

    open spec fn view(&self) -> RoomView {
        RoomView {
            chat_id: self.chat_id as int,
            kind: self.kind@,
            title: self.title@,
            unread_count: self.unread_count as int,
            display_members: docs_view(self.display_members@),
        }
    }
}

/// The chat room a chat-list document element describes.
pub open spec fn spec_room_of(v: DocView) -> RoomView {
    RoomView {
        chat_id: spec_json_i64(v, "chatId"@),
        kind: spec_json_string(v, "type"@),
        title: spec_json_string(v, "title"@),
        unread_count: spec_json_i64(v, "unreadCount"@),
        display_members: spec_json_array(v, "displayMembers"@),
    }
}

/// The name one member element contributes to a room title: the
/// caller-set nickname when present, else the member's own nickname;
/// empty when neither is.
pub open spec fn spec_member_title_name(m: DocView) -> Seq<char> {
    let f = spec_json_string(m, "friendNickName"@);
    if f.len() > 0 {
        f
    } else {
        spec_json_string(m, "nickName"@)
    }
}

/// The non-empty member names, in member order.
pub open spec fn spec_title_names(ms: Seq<DocView>) -> Seq<Seq<char>>
    decreases ms.len(),
{
    if ms.len() == 0 {
        Seq::empty()
    } else {
        let rest = spec_title_names(ms.drop_last());
        let name = spec_member_title_name(ms.last());
        if name.len() > 0 {
            rest.push(name)
        } else {
            rest
        }
    }
}

/// Names joined with a comma and a space.
pub open spec fn spec_join_comma(names: Seq<Seq<char>>) -> Seq<char>
    decreases names.len(),
{
    if names.len() == 0 {
        Seq::empty()
    } else if names.len() == 1 {
        names[0]
    } else {
        spec_join_comma(names.drop_last()) + ", "@ + names.last()
    }
}

/// The title to show for a room: its own title when set, else the member
/// names joined, else a placeholder.
pub open spec fn spec_display_title(
    title: Seq<char>,
    display_members: Seq<DocView>,
) -> Seq<char> {
    if title.len() > 0 {
        title
    } else {
        let names = spec_title_names(display_members);
        if names.len() == 0 {
            "(empty)"@
        } else {
            spec_join_comma(names)
        }
    }
}

impl ChatRoom {
    /// The title to show for this room.
    #[verifier::loop_isolation(false)]
    pub fn display_title(&self) -> (r: String)
        ensures
            r@ == spec_display_title(self.title@, docs_view(self.display_members@)),
    {
        if !self.title.as_str().is_empty() {
            return self.title.clone();
        }
        let ghost ms = docs_view(self.display_members@);
        proof {
            crate::doc::lemma_docs_view(self.display_members@);
        }
        let mut names: Vec<String> = Vec::new();
        let mut i: usize = 0;
        while i < self.display_members.len()
            invariant
                i <= self.display_members@.len(),
                spec_title_names(ms.take(i as int)) =~= names@.map_values(|s: String| s@),
            decreases self.display_members@.len() - i,
        {
            let member = &self.display_members[i];
            proof {
                assert(ms.take(i + 1).drop_last() =~= ms.take(i as int));
                assert(ms.take(i + 1).last() == member@);
            }
            let f = json_string(member, "friendNickName");
            if !f.as_str().is_empty() {
                names.push(f);
            } else {
                let n = json_string(member, "nickName");
                if !n.as_str().is_empty() {
                    names.push(n);
                }
            }
            proof {
                assert(spec_title_names(ms.take(i + 1)) =~= names@.map_values(
                    |s: String| s@,
                ));
            }
            i += 1;
        }
        proof {
            assert(ms.take(i as int) =~= ms);
        }
        if names.len() == 0 {
            proof {
                reveal_strlit("(empty)");
            }
            return "(empty)".to_owned();
        }
        let mut out: String = names[0].clone();
        let mut j: usize = 1;
        while j < names.len()
            invariant
                1 <= j <= names@.len(),
                names@.len() >= 1,
                out@ == spec_join_comma(names@.map_values(|s: String| s@).take(j as int)),
            decreases names@.len() - j,
        {
            out.append(", ");
            out.append(names[j].as_str());
            proof {
                let ghost nv = names@.map_values(|s: String| s@);
                assert(nv.take(j + 1).drop_last() =~= nv.take(j as int));
                assert(nv.take(j + 1).last() == names@[j as int]@);
                reveal_strlit(", ");
                assert(out@ =~= spec_join_comma(nv.take(j + 1)));
            }
            j += 1;
        }
        proof {
            let ghost nv = names@.map_values(|s: String| s@);
            assert(nv.take(j as int) =~= nv);
        }
        out
    }

    /// Read one chat room out of a chat-list document element.
    #[verifier::loop_isolation(false)]
    pub fn from_json(v: &DocValue) -> (r: Self)
        ensures
            r@ == spec_room_of(v@),
    {
        let mut display_members: Vec<DocValue> = Vec::new();
        let ghost target = spec_json_array(v@, "displayMembers"@);
        match crate::doc::doc_get(v, "displayMembers") {
            Some(arr) => {
                match arr {
                    DocValue::Arr(items) => {
                        proof {
                            crate::doc::lemma_docs_view(items@);
                        }
                        let mut i: usize = 0;
                        while i < items.len()
                            invariant
                                i <= items@.len(),
                                display_members@.len() == i,
                                forall|k: int|
                                    0 <= k < i ==> (#[trigger] display_members@[k])@
                                        == items@[k]@,
                            decreases items@.len() - i,
                        {
                            display_members.push(items[i].clone());
                            i += 1;
                        }
                        proof {
                            crate::doc::lemma_docs_view(display_members@);
                            assert forall|k: int|
                                0 <= k < items@.len() implies docs_view(display_members@)[k]
                                == docs_view(items@)[k] by {
                                assert((display_members@[k])@ == items@[k]@);
                            }
                            assert(docs_view(display_members@) =~= docs_view(items@));
                        }
                    },
                    _ => {
                        proof {
                            crate::doc::lemma_docs_view(display_members@);
                            assert(docs_view(display_members@) =~= target);
                        }
                    },
                }
            },
            None => {
                proof {
                    crate::doc::lemma_docs_view(display_members@);
                    assert(docs_view(display_members@) =~= target);
                }
            },
        }
        ChatRoom {
            chat_id: json_i64(v, "chatId"),
            kind: json_string(v, "type"),
            title: json_string(v, "title"),
            unread_count: json_i64(v, "unreadCount"),
            display_members,
        }
    }
}

/// One message of a chat's history.
pub struct ChatMessage {
    pub log_id: i64,
    pub author_id: i64,
    pub message_type: i64,
    pub message: String,
    pub send_at: i64,
}

/// Mathematical shape of a chat message.
pub struct MessageView {
    pub log_id: i64,
    pub author_id: int,
    pub message_type: int,
    pub message: Seq<char>,
    pub send_at: int,
}

impl View for ChatMessage {
    type V = MessageView;

    open spec fn view(&self) -> MessageView {
        MessageView {
            log_id: self.log_id,
            author_id: self.author_id as int,
            message_type: self.message_type as int,
            message: self.message@,
            send_at: self.send_at as int,
        }
    }
}

/// The message a history page element describes. The identifier keeps its
/// machine width, since pagination sorts and deduplicates by it.
pub open spec fn spec_message_of(v: DocView) -> MessageView {
    MessageView {
        log_id: spec_json_i64_as_i64(v, "logId"@),
        author_id: spec_json_i64(v, "authorId"@),
        message_type: spec_json_i64(v, "type"@),
        message: spec_json_string(v, "message"@),
        send_at: spec_json_i64(v, "sendAt"@),
    }
}

/// Same field reading as `spec_json_i64`, at machine width. The parse
/// default and the integer branch are both representable, so the value
/// always fits.
pub open spec fn spec_json_i64_as_i64(v: DocView, key: Seq<char>) -> i64 {
    spec_json_i64(v, key) as i64
}

impl ChatMessage {
    /// Read one message out of a history page element.
    pub fn from_json(v: &DocValue) -> (r: Self)
        ensures
            r@ == spec_message_of(v@),
    {
        ChatMessage {
            log_id: json_i64(v, "logId"),
            author_id: json_i64(v, "authorId"),
            message_type: json_i64(v, "type"),
            message: json_string(v, "message"),
            send_at: json_i64(v, "sendAt"),
        }
    }
}

impl Clone for ChatMessage {
    /// Field-for-field copy.
    fn clone(&self) -> (c: Self)
        ensures
            c == *self,
    {
        ChatMessage {
            log_id: self.log_id,
            author_id: self.author_id,
            message_type: self.message_type,
            message: self.message.clone(),
            send_at: self.send_at,
        }
    }
}

/// One member of a chat room.
pub struct ChatMember {
    pub user_id: i64,
    pub nickname: String,
    pub friend_nickname: String,
    pub country_iso: String,
}

/// Mathematical shape of a room member.
pub struct MemberView {
    pub user_id: i64,
    pub nickname: Seq<char>,
    pub friend_nickname: Seq<char>,
    pub country_iso: Seq<char>,
}

impl View for ChatMember {
    type V = MemberView;

    open spec fn view(&self) -> MemberView {
        MemberView {
            user_id: self.user_id,
            nickname: self.nickname@,
            friend_nickname: self.friend_nickname@,
            country_iso: self.country_iso@,
        }
    }
}

/// The member a member-list document element describes. The identifier
/// keeps its machine width, since the name map is keyed by it.
pub open spec fn spec_member_of(v: DocView) -> MemberView {
    MemberView {
        user_id: spec_json_i64_as_i64(v, "userId"@),
        nickname: spec_json_string(v, "nickName"@),
        friend_nickname: spec_json_string(v, "friendNickName"@),
        country_iso: spec_json_string(v, "countryIso"@),
    }
}

impl ChatMember {
    /// The name to show for this member.
    pub fn display_name(&self) -> (r: String)
        ensures
            r@ == spec_display_name(self.friend_nickname@, self.nickname@),
    {
        if self.friend_nickname.as_str().is_empty() {
            self.nickname.clone()
        } else {
            self.friend_nickname.clone()
        }
    }

    /// Read one member out of a member-list document element.
    pub fn from_json(v: &DocValue) -> (r: Self)
        ensures
            r@ == spec_member_of(v@),
    {
        ChatMember {
            user_id: json_i64(v, "userId"),
            nickname: json_string(v, "nickName"),
            friend_nickname: json_string(v, "friendNickName"),
            country_iso: json_string(v, "countryIso"),
        }
    }
}

} // verus!
