//! Tests of the presentation helpers and the response-to-model readers.

use openkakao::display::{
    filter_friends, filter_unread_chats, format_timestamp, member_name_map, message_body,
    recent_messages, truncate, type_label, DateTimeParts,
};
use openkakao::doc::DocValue;
use openkakao::endpoints::{chats_page_from, friends_from, members_from, my_profile_from};
use openkakao::model::{ChatMessage, ChatRoom, Friend};
use openkakao::session::parse_response;

fn friend_doc(user_id: i64, nick: &str, friend_nick: &str, fav: bool, hidden: bool) -> DocValue {
    DocValue::Dict(vec![
        ("userId".to_string(), DocValue::Int(user_id)),
        ("nickName".to_string(), DocValue::Str(nick.to_string())),
        ("friendNickName".to_string(), DocValue::Str(friend_nick.to_string())),
        ("phoneNumber".to_string(), DocValue::Str("010-1234".to_string())),
        ("statusMessage".to_string(), DocValue::Str("hi".to_string())),
        ("favorite".to_string(), DocValue::Bool(fav)),
        ("hidden".to_string(), DocValue::Bool(hidden)),
    ])
}

#[test]
fn type_labels() {
    assert_eq!(type_label("DirectChat"), "DM");
    assert_eq!(type_label("MultiChat"), "Group");
    assert_eq!(type_label("MemoChat"), "Memo");
    assert_eq!(type_label("OpenDirectChat"), "OpenDM");
    assert_eq!(type_label("OpenMultiChat"), "OpenGroup");
    assert_eq!(type_label("whatever"), "Unknown");
}

#[test]
fn truncation_appends_ellipsis() {
    assert_eq!(truncate("short", 30), "short");
    assert_eq!(truncate("abcdefgh", 5), "abcde...");
    assert_eq!(truncate("", 0), "");
}

#[test]
fn message_bodies() {
    assert_eq!(message_body(1, "hello"), "hello");
    assert_eq!(message_body(2, "ignored"), "(photo)");
    assert_eq!(message_body(71, ""), "(emoticon)");
    assert_eq!(message_body(99, ""), "(type=99)");
    assert_eq!(message_body(99, "text anyway"), "text anyway");
}

#[test]
fn recent_messages_keep_newest_in_reading_order() {
    let msgs: Vec<ChatMessage> = [5, 4, 3, 2, 1]
        .iter()
        .map(|i| ChatMessage {
            log_id: *i,
            author_id: 0,
            message_type: 1,
            message: String::new(),
            send_at: 0,
        })
        .collect();
    let shown = recent_messages(msgs, 3);
    let ids: Vec<i64> = shown.iter().map(|m| m.log_id).collect();
    assert_eq!(ids, vec![3, 4, 5]);
}

fn sample_friends() -> Vec<Friend> {
    vec![
        Friend::from_json(&friend_doc(1, "Alice", "", true, false)),
        Friend::from_json(&friend_doc(2, "Bob", "Bobby", false, false)),
        Friend::from_json(&friend_doc(3, "Carol", "", false, true)),
    ]
}

#[test]
fn friend_filtering() {
    let favs = filter_friends(sample_friends(), true, false, None);
    assert_eq!(favs.len(), 1);
    assert_eq!(favs[0].user_id, 1);
    let visible = filter_friends(sample_friends(), false, false, None);
    assert_eq!(visible.len(), 2);
    let with_hidden = filter_friends(sample_friends(), false, true, None);
    assert_eq!(with_hidden.len(), 3);
    let searched = filter_friends(sample_friends(), false, true, Some("BOBBY"));
    assert_eq!(searched.len(), 1);
    assert_eq!(searched[0].user_id, 2);
}

#[test]
fn unread_filter() {
    let doc = parse_response(
        200,
        "{\"chats\":[{\"chatId\":1,\"unreadCount\":0},{\"chatId\":2,\"unreadCount\":3}]}",
    )
    .unwrap();
    let (rooms, _) = chats_page_from(&doc);
    let unread = filter_unread_chats(rooms);
    assert_eq!(unread.len(), 1);
    assert_eq!(unread[0].chat_id, 2);
}

#[test]
fn member_names_with_me_label() {
    let doc = parse_response(
        200,
        "{\"members\":[{\"userId\":10,\"nickName\":\"N\",\"friendNickName\":\"FN\"},{\"userId\":11,\"nickName\":\"Only\"}]}",
    )
    .unwrap();
    let members = members_from(&doc);
    let map = member_name_map(&members, 99);
    assert_eq!(map.get(&10).map(String::as_str), Some("FN"));
    assert_eq!(map.get(&11).map(String::as_str), Some("Only"));
    assert_eq!(map.get(&99).map(String::as_str), Some("Me"));
}

#[test]
fn timestamps_format_by_proximity() {
    let now = DateTimeParts { year: 2024, month: 3, day: 7, hour: 20, minute: 0 };
    let today = DateTimeParts { year: 2024, month: 3, day: 7, hour: 8, minute: 5 };
    assert_eq!(format_timestamp(&today, &now), "08:05");
    let this_year = DateTimeParts { year: 2024, month: 1, day: 31, hour: 23, minute: 59 };
    assert_eq!(format_timestamp(&this_year, &now), "01/31 23:59");
    let old = DateTimeParts { year: 2023, month: 12, day: 1, hour: 0, minute: 0 };
    assert_eq!(format_timestamp(&old, &now), "2023/12/01");
    let ancient = DateTimeParts { year: 99, month: 2, day: 3, hour: 0, minute: 0 };
    assert_eq!(format_timestamp(&ancient, &now), "0099/02/03");
}

#[test]
fn table_layout_pads_and_joins() {
    let headers = vec!["Name".to_string(), "ID".to_string()];
    let rows = vec![
        vec!["alice".to_string(), "1".to_string()],
        vec!["bo".to_string(), "12345".to_string()],
    ];
    let lines = openkakao::display::render_table(&headers, &rows);
    assert_eq!(
        lines,
        vec![
            "Name   ID   ".to_string(),
            "-----  -----".to_string(),
            "alice  1    ".to_string(),
            "bo     12345".to_string(),
        ]
    );
}

#[test]
fn friends_response_reads_both_keys() {
    let doc = parse_response(200, "{\"friends\":[{\"userId\":1,\"nickName\":\"A\"}]}").unwrap();
    assert_eq!(friends_from(&doc).len(), 1);
    let fallback = parse_response(200, "{\"added\":[{\"userId\":2,\"nickName\":\"B\"}]}").unwrap();
    let fs = friends_from(&fallback);
    assert_eq!(fs.len(), 1);
    assert_eq!(fs[0].user_id, 2);
    assert_eq!(fs[0].display_name(), "B");
    let neither = parse_response(200, "{\"status\":0}").unwrap();
    assert!(friends_from(&neither).is_empty());
}

#[test]
fn profile_merges_and_falls_back() {
    let profile = parse_response(
        200,
        "{\"profile\":{\"nickname\":\"Me\",\"statusMessage\":\"s\",\"userId\":0,\"fullProfileImageUrl\":\"http://img\"}}",
    )
    .unwrap();
    let settings = parse_response(200, "{\"accountId\":5,\"emailAddress\":\"a@b\"}").unwrap();
    let p = my_profile_from(&profile, &settings, 42);
    assert_eq!(p.nickname, "Me");
    assert_eq!(p.status_message, "s");
    assert_eq!(p.account_id, 5);
    assert_eq!(p.email, "a@b");
    assert_eq!(p.user_id, 42);
    assert_eq!(p.profile_image_url, "http://img");
    let profile2 = parse_response(200, "{\"profile\":{\"userId\":7}}").unwrap();
    assert_eq!(my_profile_from(&profile2, &settings, 42).user_id, 7);
}

#[test]
fn room_titles() {
    let titled = ChatRoom {
        chat_id: 1,
        kind: "DirectChat".to_string(),
        title: "Named".to_string(),
        unread_count: 0,
        display_members: Vec::new(),
    };
    assert_eq!(titled.display_title(), "Named");
    let doc = parse_response(
        200,
        "{\"chats\":[{\"chatId\":2,\"displayMembers\":[{\"friendNickName\":\"F\"},{\"nickName\":\"N\"},{\"friendNickName\":\"\",\"nickName\":\"\"}]}]}",
    )
    .unwrap();
    let (rooms, _) = chats_page_from(&doc);
    assert_eq!(rooms[0].display_title(), "F, N");
    let empty = ChatRoom {
        chat_id: 3,
        kind: String::new(),
        title: String::new(),
        unread_count: 0,
        display_members: Vec::new(),
    };
    assert_eq!(empty.display_title(), "(empty)");
}
