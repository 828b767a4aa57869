//! Cursor pagination drivers. A pager holds the loop state: the caller
//! (outside the library) fetches each page's JSON and feeds the parsed
//! document back in; the pager accumulates items and decides, from the
//! page alone, whether another page is owed and under which URL.

use vstd::prelude::*;

use crate::doc::{spec_json_array, DocValue, DocView};
use crate::endpoints::{
    chats_page_from, chats_url, messages_page_from, messages_url, spec_chats_next_cursor,
    spec_chats_url, spec_messages_next_cursor, spec_messages_url,
};
use crate::model::{spec_message_of, spec_room_of, ChatMessage, ChatRoom, MessageView};

verus! {

// ---------------------------------------------------------------------------
// Ordering and deduplication of message history
// ---------------------------------------------------------------------------

pub open spec fn msgs_view(msgs: Seq<ChatMessage>) -> Seq<MessageView> {
    msgs.map_values(|m: ChatMessage| m@)
}

/// `a` must come strictly before `b`: ascending by message identifier.
pub open spec fn spec_msg_before(a: MessageView, b: MessageView) -> bool {
    a.log_id < b.log_id
}

/// Insert `x` behind every element it need not precede; among equal
/// identifiers the newcomer goes last, which keeps the order stable.
pub open spec fn spec_insert_msg(x: MessageView, s: Seq<MessageView>) -> Seq<MessageView>
    decreases s.len(),
{
    if s.len() == 0 {
        seq![x]
    } else if spec_msg_before(x, s[0]) {
        seq![x] + s
    } else {
        seq![s[0]] + spec_insert_msg(x, s.drop_first())
    }
}

/// Stable sort of messages, ascending by identifier.
pub open spec fn spec_msg_sort(s: Seq<MessageView>) -> Seq<MessageView>
    decreases s.len(),
{
    if s.len() == 0 {
        Seq::empty()
    } else {
        spec_insert_msg(s.last(), spec_msg_sort(s.drop_last()))
    }
}

/// Drop each message whose identifier equals its predecessor's, keeping
/// the first of every consecutive run.
pub open spec fn spec_dedup_consecutive(s: Seq<MessageView>) -> Seq<MessageView>
    decreases s.len(),
{
    if s.len() == 0 {
        Seq::empty()
    } else {
        let rest = spec_dedup_consecutive(s.drop_last());
        if rest.len() > 0 && rest.last().log_id == s.last().log_id {
            rest
        } else {
            rest.push(s.last())
        }
    }
}

/// `a` must come strictly before `b` in message order.
fn msg_before(a: &ChatMessage, b: &ChatMessage) -> (r: bool)
    ensures
        r == spec_msg_before(a@, b@),
{
    a.log_id < b.log_id
}

proof fn lemma_insert_msg_at(x: MessageView, s: Seq<MessageView>, j: int)
    requires
        0 <= j <= s.len(),
        forall|k: int| 0 <= k < j ==> !spec_msg_before(x, #[trigger] s[k]),
        j < s.len() ==> spec_msg_before(x, s[j]),
    ensures
        spec_insert_msg(x, s) == s.take(j) + seq![x] + s.skip(j),
    decreases j,
{
    if s.len() == 0 {
        assert(s.take(0) + seq![x] + s.skip(0) =~= seq![x]);
    } else if j == 0 {
        assert(s.take(0) + seq![x] + s.skip(0) =~= seq![x] + s);
    } else {
        assert(!spec_msg_before(x, s[0]));
        lemma_insert_msg_at(x, s.drop_first(), j - 1);
        assert(s.drop_first().take(j - 1) =~= s.take(j).drop_first());
        assert(s.drop_first().skip(j - 1) =~= s.skip(j));
        assert(seq![s[0]] + (s.drop_first().take(j - 1) + seq![x] + s.drop_first().skip(j - 1))
            =~= s.take(j) + seq![x] + s.skip(j));
    }
}

/// Stable insertion sort of messages, ascending by identifier.
#[verifier::loop_isolation(false)]
pub fn sort_messages(msgs: Vec<ChatMessage>) -> (out: Vec<ChatMessage>)
    ensures
        msgs_view(out@) == spec_msg_sort(msgs_view(msgs@)),
{
    let mut out: Vec<ChatMessage> = Vec::new();
    let mut i: usize = 0;
    proof {
        assert(msgs_view(msgs@).take(0) =~= Seq::<MessageView>::empty());
    }
    while i < msgs.len()
        invariant
            i <= msgs@.len(),
            msgs_view(out@) == spec_msg_sort(msgs_view(msgs@).take(i as int)),
        decreases msgs@.len() - i,
    {
        let m = msgs[i].clone();
        let mut j: usize = 0;
        while j < out.len()
            invariant
                j <= out@.len(),
                forall|k: int|
                    0 <= k < j ==> !spec_msg_before(m@, (#[trigger] msgs_view(out@)[k])),
            decreases out@.len() - j,
        {
            if msg_before(&m, &out[j]) {
                break;
            }
            proof {
                assert(msgs_view(out@)[j as int] == out@[j as int]@);
            }
            j += 1;
        }
        proof {
            let ghost ov = msgs_view(out@);
            if j < out@.len() {
                assert(ov[j as int] == out@[j as int]@);
            }
            lemma_insert_msg_at(m@, ov, j as int);
        }
        out.insert(j, m);
        proof {
            let ghost mv = msgs_view(msgs@);
            assert(mv.take(i + 1).drop_last() =~= mv.take(i as int));
            assert(mv.take(i + 1).last() == mv[i as int]);
            assert(mv[i as int] == msgs@[i as int]@);
            assert(msgs_view(out@) =~= spec_msg_sort(mv.take(i + 1)));
        }
        i += 1;
    }
    proof {
        assert(msgs_view(msgs@).take(i as int) =~= msgs_view(msgs@));
    }
    out
}

/// Drop consecutive duplicate identifiers, keeping the first of each run.
#[verifier::loop_isolation(false)]
pub fn dedup_consecutive(msgs: Vec<ChatMessage>) -> (out: Vec<ChatMessage>)
    ensures
        msgs_view(out@) == spec_dedup_consecutive(msgs_view(msgs@)),
{
    let mut out: Vec<ChatMessage> = Vec::new();
    let mut i: usize = 0;
    proof {
        assert(msgs_view(msgs@).take(0) =~= Seq::<MessageView>::empty());
    }
    while i < msgs.len()
        invariant
            i <= msgs@.len(),
            msgs_view(out@) == spec_dedup_consecutive(msgs_view(msgs@).take(i as int)),
        decreases msgs@.len() - i,
    {
        let ghost mv = msgs_view(msgs@);
        proof {
            assert(mv.take(i + 1).drop_last() =~= mv.take(i as int));
            assert(mv.take(i + 1).last() == mv[i as int]);
            assert(mv[i as int] == msgs@[i as int]@);
        }
        let keep = if out.len() == 0 {
            true
        } else {
            out[out.len() - 1].log_id != msgs[i].log_id
        };
        proof {
            if out@.len() > 0 {
                assert(msgs_view(out@).last() == out@[out@.len() - 1]@);
            }
        }
        if keep {
            out.push(msgs[i].clone());
            proof {
                assert(msgs_view(out@) =~= spec_dedup_consecutive(mv.take(i + 1)));
            }
        }
        i += 1;
    }
    proof {
        assert(msgs_view(msgs@).take(i as int) =~= msgs_view(msgs@));
    }
    out
}

// ---------------------------------------------------------------------------
// Chat-list pagination
// ---------------------------------------------------------------------------

/// Loop state of chat-list pagination. Unbounded: it trusts the server's
/// termination signal.
pub struct ChatPager {
    pub rooms: Vec<ChatRoom>,
    pub cursor: Option<i64>,
    pub done: bool,
}

impl ChatPager {
    /// Start before the first page.
    pub fn new() -> (s: Self)
        ensures
            s.rooms@.len() == 0,
            s.cursor is None,
            !s.done,
    {
        ChatPager { rooms: Vec::new(), cursor: None, done: false }
    }

    /// The URL of the page owed next, or nothing when pagination is over.
    pub fn next_url(&self) -> (r: Option<String>)
        ensures
            match r {
                Some(u) => !self.done && u@ == spec_chats_url(self.cursor),
                None => self.done,
            },
    {
        if self.done {
            None
        } else {
            Some(chats_url(self.cursor))
        }
    }

    /// Take in one fetched page: accumulate its rooms in receipt order and
    /// adopt its continuation signal.
    pub fn feed(&mut self, doc: &DocValue)
        requires
            !old(self).done,
        ensures
            final(self).rooms@.map_values(|c: ChatRoom| c@) == old(self).rooms@.map_values(
                |c: ChatRoom| c@,
            ) + spec_json_array(doc@, "chats"@).map_values(|v: DocView| spec_room_of(v)),
            final(self).cursor == spec_chats_next_cursor(doc@),
            final(self).done == (spec_chats_next_cursor(doc@) is None),
    {
        let (mut rooms, next_cursor) = chats_page_from(doc);
        let ghost before = self.rooms@;
        self.rooms.append(&mut rooms);
        proof {
            assert(self.rooms@.map_values(|c: ChatRoom| c@) =~= before.map_values(
                |c: ChatRoom| c@,
            ) + spec_json_array(doc@, "chats"@).map_values(|v: DocView| spec_room_of(v)));
        }
        self.cursor = next_cursor;
        self.done = next_cursor.is_none();
    }

    /// Hand out everything accumulated.
    pub fn into_rooms(self) -> (r: Vec<ChatRoom>)
        ensures
            r == self.rooms,
    {
        self.rooms
    }
}

// ---------------------------------------------------------------------------
// Message-history pagination
// ---------------------------------------------------------------------------

/// Loop state of message-history pagination, bounded by a page budget.
/// Pagination ends on an empty page, a zero next-cursor, or an exhausted
/// budget; what was accumulated is then sorted by identifier and cleansed
/// of duplicate identifiers, which overlapping pages may produce.
pub struct MessagePager {
    pub chat_id: i64,
    pub msgs: Vec<ChatMessage>,
    pub cursor: Option<i64>,
    pub pages_left: usize,
    pub done: bool,
}

impl MessagePager {
    /// A pager never owes a page once done, and owes at most `pages_left`
    /// more fetches.
    pub open spec fn wf(&self) -> bool {
        !self.done ==> self.pages_left >= 1
    }

    /// Start before the first page, with a fetch budget.
    pub fn new(chat_id: i64, max_pages: usize) -> (s: Self)
        ensures
            s.wf(),
            s.chat_id == chat_id,
            s.msgs@.len() == 0,
            s.cursor is None,
            s.pages_left == max_pages,
            s.done == (max_pages == 0),
    {
        MessagePager {
            chat_id,
            msgs: Vec::new(),
            cursor: None,
            pages_left: max_pages,
            done: max_pages == 0,
        }
    }

    /// The URL of the page owed next, or nothing when pagination is over.
    pub fn next_url(&self) -> (r: Option<String>)
        ensures
            match r {
                Some(u) => !self.done && u@ == spec_messages_url(
                    self.chat_id as int,
                    self.cursor,
                ),
                None => self.done,
            },
    {
        if self.done {
            None
        } else {
            Some(messages_url(self.chat_id, self.cursor))
        }
    }

    /// Take in one fetched page: an empty page ends pagination on the
    /// spot; otherwise its messages accumulate in receipt order, one page
    /// of budget is spent, and a zero next-cursor or spent budget ends
    /// pagination.
    pub fn feed(&mut self, doc: &DocValue)
        requires
            old(self).wf(),
            !old(self).done,
        ensures
            final(self).wf(),
            final(self).chat_id == old(self).chat_id,
            ({
                let page = spec_json_array(doc@, "chatLogs"@).map_values(
                    |v: DocView| spec_message_of(v),
                );
                let next = spec_messages_next_cursor(doc@);
                if page.len() == 0 {
                    final(self).msgs == old(self).msgs && final(self).done
                } else {
                    &&& msgs_view(final(self).msgs@) == msgs_view(old(self).msgs@) + page
                    &&& final(self).pages_left == old(self).pages_left - 1
                    &&& final(self).done == (next == 0 || old(self).pages_left == 1)
                    &&& !final(self).done ==> final(self).cursor == Some(next)
                }
            }),
    {
        let (mut page, next) = messages_page_from(doc);
        if page.len() == 0 {
            self.done = true;
            return ;
        }
        let ghost before = self.msgs@;
        self.msgs.append(&mut page);
        proof {
            assert(msgs_view(self.msgs@) =~= msgs_view(before) + spec_json_array(
                doc@,
                "chatLogs"@,
            ).map_values(|v: DocView| spec_message_of(v)));
        }
        self.pages_left = self.pages_left - 1;
        if next == 0 || self.pages_left == 0 {
            self.done = true;
        } else {
            self.cursor = Some(next);
        }
    }

    /// Hand out what was accumulated, sorted ascending by identifier with
    /// consecutive duplicate identifiers dropped.
    pub fn finish(self) -> (r: Vec<ChatMessage>)
        ensures
            msgs_view(r@) == spec_dedup_consecutive(spec_msg_sort(msgs_view(self.msgs@))),
    {
        dedup_consecutive(sort_messages(self.msgs))
    }
}

} // verus!
