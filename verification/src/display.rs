//! Presentation-side computation: labels, truncation, message rendering,
//! friend and chat filtering, the member name map, and timestamp
//! formatting. Everything here turns fetched data into plain values;
//! printing itself stays outside the library.

use std::collections::HashMap;

use vstd::prelude::*;
use vstd::string::*;

use crate::model::{
    spec_display_name, ChatMessage, ChatMember, ChatRoom, Friend, FriendView, MemberView,
    MessageView, RoomView,
};
use crate::text::{i64_to_dec, spec_contains, spec_i64_dec, spec_u64_dec, str_contains, u64_to_dec};

verus! {

broadcast use vstd::std_specs::hash::group_hash_axioms;

// ---------------------------------------------------------------------------
// Labels and truncation
// ---------------------------------------------------------------------------

/// The label shown for a chat room's type tag.
pub open spec fn spec_type_label(kind: Seq<char>) -> Seq<char> {
    if kind == "DirectChat"@ {
        "DM"@
    } else if kind == "MultiChat"@ {
        "Group"@
    } else if kind == "MemoChat"@ {
        "Memo"@
    } else if kind == "OpenDirectChat"@ {
        "OpenDM"@
    } else if kind == "OpenMultiChat"@ {
        "OpenGroup"@
    } else {
        "Unknown"@
    }
}

/// Label a chat room's type tag.
pub fn type_label(kind: &str) -> (r: &'static str)
    ensures
        r@ == spec_type_label(kind@),
{
    if crate::text::str_eq(kind, "DirectChat") {
        "DM"
    } else if crate::text::str_eq(kind, "MultiChat") {
        "Group"
    } else if crate::text::str_eq(kind, "MemoChat") {
        "Memo"
    } else if crate::text::str_eq(kind, "OpenDirectChat") {
        "OpenDM"
    } else if crate::text::str_eq(kind, "OpenMultiChat") {
        "OpenGroup"
    } else {
        "Unknown"
    }
}

/// A string cut to at most `max_chars` characters, with an ellipsis
/// appended when anything was cut.
pub open spec fn spec_truncate(s: Seq<char>, max_chars: int) -> Seq<char> {
    if s.len() <= max_chars {
        s
    } else {
        s.take(max_chars) + "..."@
    }
}

/// Cut a string for display.
pub fn truncate(s: &str, max_chars: usize) -> (r: String)
    ensures
        r@ == spec_truncate(s@, max_chars as int),
{
    let len = s.unicode_len();
    if len <= max_chars {
        s.to_owned()
    } else {
        let mut out = s.substring_char(0, max_chars).to_owned();
        out.append("...");
        out
    }
}

// ---------------------------------------------------------------------------
// Message rendering
// ---------------------------------------------------------------------------

/// The body shown for a message: plain text verbatim, placeholders for
/// photos and emoticons, and a type tag for anything else that carries no
/// text.
pub open spec fn spec_message_body(message_type: int, message: Seq<char>) -> Seq<char> {
    if message_type == 1 {
        message
    } else if message_type == 2 {
        "(photo)"@
    } else if message_type == 71 {
        "(emoticon)"@
    } else if message.len() == 0 {
        "(type="@ + spec_i64_dec(message_type) + ")"@
    } else {
        message
    }
}

/// Render a message's body for display.
pub fn message_body(message_type: i64, message: &str) -> (r: String)
    ensures
        r@ == spec_message_body(message_type as int, message@),
{
    if message_type == 1 {
        message.to_owned()
    } else if message_type == 2 {
        String::from_str("(photo)")
    } else if message_type == 71 {
        String::from_str("(emoticon)")
    } else if message.is_empty() {
        let mut s = String::from_str("(type=");
        s.append(i64_to_dec(message_type).as_str());
        s.append(")");
        s
    } else {
        message.to_owned()
    }
}

/// The messages a reader is shown: the first `count` of the
/// newest-first list, oldest first.
pub open spec fn spec_recent_messages(msgs: Seq<MessageView>, count: int) -> Seq<MessageView> {
    let kept = if msgs.len() <= count {
        msgs
    } else {
        msgs.take(count)
    };
    kept.reverse()
}

/// Keep the newest `count` messages and put them in reading order.
#[verifier::loop_isolation(false)]
pub fn recent_messages(msgs: Vec<ChatMessage>, count: usize) -> (r: Vec<ChatMessage>)
    ensures
        r@.map_values(|m: ChatMessage| m@) == spec_recent_messages(
            msgs@.map_values(|m: ChatMessage| m@),
            count as int,
        ),
{
    let mut kept = msgs;
    if kept.len() > count {
        kept.truncate(count);
    }
    let ghost kv = kept@.map_values(|m: ChatMessage| m@);
    let mut out: Vec<ChatMessage> = Vec::new();
    while kept.len() > 0
        invariant
            out@.len() + kept@.len() == kv.len(),
            kept@.map_values(|m: ChatMessage| m@) == kv.take(kept@.len() as int),
            forall|j: int|
                0 <= j < out@.len() ==> (#[trigger] out@[j])@ == kv[kv.len() - 1 - j],
        decreases kept@.len(),
    {
        proof {
            assert(kept@.map_values(|m: ChatMessage| m@).last() == kept@.last()@);
            assert(kv.take(kept@.len() as int).last() == kv[kept@.len() - 1]);
            assert(kv.take(kept@.len() - 1) =~= kv.take(kept@.len() as int).drop_last());
        }
        let m = kept.pop().unwrap();
        out.push(m);
    }
    proof {
        let ghost mv = msgs@.map_values(|m: ChatMessage| m@);
        assert(kv =~= (if mv.len() <= count as int {
            mv
        } else {
            mv.take(count as int)
        }));
        assert(out@.map_values(|m: ChatMessage| m@) =~= kv.reverse());
    }
    out
}

// ---------------------------------------------------------------------------
// Filtering
// ---------------------------------------------------------------------------

/// What a string looks like case-folded. The folding itself is the
/// standard library's; the result depends on the characters alone.
pub uninterp spec fn lower_of(s: Seq<char>) -> Seq<char>;

/// Relies on str::to_lowercase: lowercases a string; the result depends on
/// the characters alone.
#[verifier::external_body]
fn lowercase(s: &str) -> (r: String)
    ensures
        r@ == lower_of(s@),
{
    s.to_lowercase()
}

/// A friend matches a case-folded query when it occurs in the folded
/// display name or the folded phone number.
pub open spec fn spec_friend_matches(f: FriendView, q: Seq<char>) -> bool {
    spec_contains(lower_of(spec_display_name(f.friend_nickname, f.nickname)), q)
        || spec_contains(lower_of(f.phone_number), q)
}

/// Whether a friend stays in the filtered list.
pub open spec fn spec_friend_kept(
    f: FriendView,
    favorites: bool,
    hidden: bool,
    search: Option<Seq<char>>,
) -> bool {
    &&& (favorites ==> f.favorite)
    &&& (hidden || !f.hidden)
    &&& (match search {
        Some(q) => spec_friend_matches(f, lower_of(q)),
        None => true,
    })
}

/// The friends kept, in order.
pub open spec fn spec_filter_friends(
    fs: Seq<FriendView>,
    favorites: bool,
    hidden: bool,
    search: Option<Seq<char>>,
) -> Seq<FriendView>
    decreases fs.len(),
{
    if fs.len() == 0 {
        Seq::empty()
    } else {
        let rest = spec_filter_friends(fs.drop_last(), favorites, hidden, search);
        if spec_friend_kept(fs.last(), favorites, hidden, search) {
            rest.push(fs.last())
        } else {
            rest
        }
    }
}

/// Filter the friend list: favorites only when asked, hidden entries
/// dropped unless asked for, and a case-folded search over display name
/// and phone number.
#[verifier::loop_isolation(false)]
pub fn filter_friends(
    friends: Vec<Friend>,
    favorites: bool,
    hidden: bool,
    search: Option<&str>,
) -> (r: Vec<Friend>)
    ensures
        r@.map_values(|f: Friend| f@) == spec_filter_friends(
            friends@.map_values(|f: Friend| f@),
            favorites,
            hidden,
            match search {
                Some(q) => Some(q@),
                None => None,
            },
        ),
{
    let q_lower: Option<String> = match search {
        Some(q) => Some(lowercase(q)),
        None => None,
    };
    let ghost sv = match search {
        Some(q) => Some(q@),
        None => None,
    };
    let ghost fv = friends@.map_values(|f: Friend| f@);
    let mut out: Vec<Friend> = Vec::new();
    let mut i: usize = 0;
    proof {
        assert(fv.take(0) =~= Seq::<FriendView>::empty());
    }
    while i < friends.len()
        invariant
            i <= friends@.len(),
            out@.map_values(|f: Friend| f@) == spec_filter_friends(
                fv.take(i as int),
                favorites,
                hidden,
                sv,
            ),
            match (q_lower, sv) {
                (Some(ql), Some(q)) => ql@ == lower_of(q),
                (None, None) => true,
                _ => false,
            },
        decreases friends@.len() - i,
    {
        let f = &friends[i];
        proof {
            assert(fv.take(i + 1).drop_last() =~= fv.take(i as int));
            assert(fv.take(i + 1).last() == fv[i as int]);
            assert(fv[i as int] == friends@[i as int]@);
        }
        let mut keep = true;
        if favorites && !f.favorite {
            keep = false;
        }
        if !hidden && f.hidden {
            keep = false;
        }
        if keep {
            if let Some(ql) = &q_lower {
                let name_l = lowercase(f.display_name().as_str());
                let phone_l = lowercase(f.phone_number.as_str());
                if !(str_contains(name_l.as_str(), ql.as_str()) || str_contains(
                    phone_l.as_str(),
                    ql.as_str(),
                )) {
                    keep = false;
                }
            }
        }
        if keep {
            let copy = Friend {
                user_id: f.user_id,
                nickname: f.nickname.clone(),
                friend_nickname: f.friend_nickname.clone(),
                phone_number: f.phone_number.clone(),
                status_message: f.status_message.clone(),
                favorite: f.favorite,
                hidden: f.hidden,
            };
            proof {
                assert(copy@ == fv[i as int]);
            }
            out.push(copy);
        }
        proof {
            assert(out@.map_values(|f2: Friend| f2@) =~= spec_filter_friends(
                fv.take(i + 1),
                favorites,
                hidden,
                sv,
            ));
        }
        i += 1;
    }
    proof {
        assert(fv.take(i as int) =~= fv);
    }
    out
}

/// The rooms kept when only unread ones are wanted.
pub open spec fn spec_filter_unread(rooms: Seq<RoomView>) -> Seq<RoomView>
    decreases rooms.len(),
{
    if rooms.len() == 0 {
        Seq::empty()
    } else {
        let rest = spec_filter_unread(rooms.drop_last());
        if rooms.last().unread_count > 0 {
            rest.push(rooms.last())
        } else {
            rest
        }
    }
}

/// Keep the rooms with unread messages, in order.
#[verifier::loop_isolation(false)]
pub fn filter_unread_chats(rooms: Vec<ChatRoom>) -> (r: Vec<ChatRoom>)
    ensures
        r@.map_values(|c: ChatRoom| c@) == spec_filter_unread(
            rooms@.map_values(|c: ChatRoom| c@),
        ),
{
    let ghost rv = rooms@.map_values(|c: ChatRoom| c@);
    let mut out: Vec<ChatRoom> = Vec::new();
    let mut i: usize = 0;
    proof {
        assert(rv.take(0) =~= Seq::<RoomView>::empty());
    }
    while i < rooms.len()
        invariant
            i <= rooms@.len(),
            out@.map_values(|c: ChatRoom| c@) == spec_filter_unread(rv.take(i as int)),
        decreases rooms@.len() - i,
    {
        proof {
            assert(rv.take(i + 1).drop_last() =~= rv.take(i as int));
            assert(rv.take(i + 1).last() == rv[i as int]);
            assert(rv[i as int] == rooms@[i as int]@);
        }
        if rooms[i].unread_count > 0 {
            let room = ChatRoom {
                chat_id: rooms[i].chat_id,
                kind: rooms[i].kind.clone(),
                title: rooms[i].title.clone(),
                unread_count: rooms[i].unread_count,
                display_members: crate::doc::clone_docs(&rooms[i].display_members),
            };
            proof {
                assert(room@ == rv[i as int]);
            }
            out.push(room);
        }
        proof {
            assert(out@.map_values(|c: ChatRoom| c@) =~= spec_filter_unread(rv.take(i + 1)));
        }
        i += 1;
    }
    proof {
        assert(rv.take(i as int) =~= rv);
    }
    out
}

// ---------------------------------------------------------------------------
// Member name map
// ---------------------------------------------------------------------------

/// The display names of the members, keyed by user id, later entries
/// overriding earlier ones.
pub open spec fn spec_member_names(ms: Seq<MemberView>) -> Map<i64, Seq<char>>
    decreases ms.len(),
{
    if ms.len() == 0 {
        Map::empty()
    } else {
        spec_member_names(ms.drop_last()).insert(
            ms.last().user_id,
            spec_display_name(ms.last().friend_nickname, ms.last().nickname),
        )
    }
}

/// The name shown for each author id: the members' display names, with the
/// caller's own id always labelled "Me".
pub open spec fn spec_member_name_map(ms: Seq<MemberView>, my_user_id: i64) -> Map<
    i64,
    Seq<char>,
> {
    spec_member_names(ms).insert(my_user_id, "Me"@)
}

/// Build the author-id-to-name map for rendering a chat.
#[verifier::loop_isolation(false)]
pub fn member_name_map(members: &Vec<ChatMember>, my_user_id: i64) -> (r: HashMap<
    i64,
    String,
>)
    ensures
        r@.dom() == spec_member_name_map(
            members@.map_values(|m: ChatMember| m@),
            my_user_id,
        ).dom(),
        forall|k: i64|
            #[trigger] r@.dom().contains(k) ==> r@[k]@ == spec_member_name_map(
                members@.map_values(|m: ChatMember| m@),
                my_user_id,
            )[k],
{
    let ghost mv = members@.map_values(|m: ChatMember| m@);
    let mut out: HashMap<i64, String> = HashMap::new();
    let mut i: usize = 0;
    proof {
        assert(mv.take(0) =~= Seq::<MemberView>::empty());
        assert(out@.dom() =~= spec_member_names(mv.take(0)).dom());
    }
    while i < members.len()
        invariant
            i <= members@.len(),
            out@.dom() == spec_member_names(mv.take(i as int)).dom(),
            forall|k: i64|
                #[trigger] out@.dom().contains(k) ==> out@[k]@ == spec_member_names(
                    mv.take(i as int),
                )[k],
        decreases members@.len() - i,
    {
        proof {
            assert(mv.take(i + 1).drop_last() =~= mv.take(i as int));
            assert(mv.take(i + 1).last() == mv[i as int]);
            assert(mv[i as int] == members@[i as int]@);
        }
        let name = members[i].display_name();
        out.insert(members[i].user_id, name);
        proof {
            assert(out@.dom() =~= spec_member_names(mv.take(i + 1)).dom());
        }
        i += 1;
    }
    proof {
        assert(mv.take(i as int) =~= mv);
    }
    out.insert(my_user_id, "Me".to_owned());
    proof {
        assert(out@.dom() =~= spec_member_name_map(mv, my_user_id).dom());
    }
    out
}

// ---------------------------------------------------------------------------
// Table rendering
// ---------------------------------------------------------------------------

/// Column widths after taking one cell at its index into account: an
/// existing column widens to the cell when the cell is longer; a cell past
/// the last column opens a new one.
pub open spec fn spec_add_cell(ws: Seq<int>, idx: int, cell: Seq<char>) -> Seq<int> {
    if 0 <= idx < ws.len() {
        ws.update(
            idx,
            if ws[idx] >= cell.len() {
                ws[idx]
            } else {
                cell.len() as int
            },
        )
    } else {
        ws.push(cell.len() as int)
    }
}

/// Column widths after taking one row into account, cell by cell.
pub open spec fn spec_row_widths(ws: Seq<int>, row: Seq<Seq<char>>) -> Seq<int>
    decreases row.len(),
{
    if row.len() == 0 {
        ws
    } else {
        spec_add_cell(spec_row_widths(ws, row.drop_last()), row.len() - 1, row.last())
    }
}

/// Column widths of a table: header lengths, widened row by row.
pub open spec fn spec_table_widths(init: Seq<int>, rows: Seq<Seq<Seq<char>>>) -> Seq<int>
    decreases rows.len(),
{
    if rows.len() == 0 {
        init
    } else {
        spec_row_widths(spec_table_widths(init, rows.drop_last()), rows.last())
    }
}

/// A cell padded on the right with spaces to its column width.
pub open spec fn spec_padded(s: Seq<char>, w: int) -> Seq<char> {
    s + Seq::new(
        if s.len() >= w {
            0
        } else {
            (w - s.len()) as nat
        },
        |i: int| ' ',
    )
}

/// One rendered line: the cells padded to their column widths, joined by
/// two spaces.
pub open spec fn spec_table_line(cells: Seq<Seq<char>>, ws: Seq<int>) -> Seq<char>
    decreases cells.len(),
{
    if cells.len() == 0 {
        Seq::empty()
    } else if cells.len() == 1 {
        spec_padded(cells[0], ws[0])
    } else {
        spec_table_line(cells.drop_last(), ws) + "  "@ + spec_padded(
            cells.last(),
            ws[cells.len() - 1],
        )
    }
}

/// A run of dashes as wide as a column.
pub open spec fn spec_dashes(w: int) -> Seq<char> {
    Seq::new(
        if w >= 0 {
            w as nat
        } else {
            0
        },
        |i: int| '-',
    )
}

/// The separator line: each column's dashes, joined by two spaces.
pub open spec fn spec_separator(ws: Seq<int>) -> Seq<char>
    decreases ws.len(),
{
    if ws.len() == 0 {
        Seq::empty()
    } else if ws.len() == 1 {
        spec_dashes(ws[0])
    } else {
        spec_separator(ws.drop_last()) + "  "@ + spec_dashes(ws.last())
    }
}

pub open spec fn widths_view(ws: Seq<usize>) -> Seq<int> {
    ws.map_values(|w: usize| w as int)
}

pub open spec fn cells_view(row: Seq<String>) -> Seq<Seq<char>> {
    row.map_values(|c: String| c@)
}

pub open spec fn table_view(rows: Seq<Vec<String>>) -> Seq<Seq<Seq<char>>> {
    rows.map_values(|r: Vec<String>| cells_view(r@))
}

/// Pad a cell to its column width.
#[verifier::loop_isolation(false)]
fn padded(cell: &str, w: usize) -> (r: String)
    ensures
        r@ == spec_padded(cell@, w as int),
{
    let mut out = cell.to_owned();
    let mut n = cell.unicode_len();
    proof {
        reveal_strlit(" ");
        assert(out@ =~= cell@ + Seq::new((n - cell@.len()) as nat, |i: int| ' '));
    }
    while n < w
        invariant
            cell@.len() <= n,
            n <= w || n == cell@.len(),
            out@ == cell@ + Seq::new((n - cell@.len()) as nat, |i: int| ' '),
        decreases w - n,
    {
        out.append(" ");
        n += 1;
        proof {
            assert(out@ =~= cell@ + Seq::new((n - cell@.len()) as nat, |i: int| ' '));
        }
    }
    proof {
        assert(out@ =~= spec_padded(cell@, w as int));
    }
    out
}

/// A run of dashes as wide as a column.
#[verifier::loop_isolation(false)]
fn dashes(w: usize) -> (r: String)
    ensures
        r@ == spec_dashes(w as int),
{
    let mut out = String::new();
    let mut n: usize = 0;
    proof {
        reveal_strlit("-");
        assert(out@ =~= Seq::new(0, |i: int| '-'));
    }
    while n < w
        invariant
            n <= w,
            out@ == Seq::new(n as nat, |i: int| '-'),
        decreases w - n,
    {
        out.append("-");
        n += 1;
        proof {
            assert(out@ =~= Seq::new(n as nat, |i: int| '-'));
        }
    }
    out
}

/// Render one line of cells against the column widths.
#[verifier::loop_isolation(false)]
fn table_line(cells: &Vec<String>, widths: &Vec<usize>) -> (r: String)
    requires
        cells@.len() <= widths@.len(),
    ensures
        r@ == spec_table_line(cells_view(cells@), widths_view(widths@)),
{
    let ghost cv = cells_view(cells@);
    let ghost wv = widths_view(widths@);
    let mut out = String::new();
    let mut i: usize = 0;
    proof {
        assert(cv.take(0) =~= Seq::<Seq<char>>::empty());
    }
    while i < cells.len()
        invariant
            i <= cells@.len(),
            out@ == spec_table_line(cv.take(i as int), wv),
        decreases cells@.len() - i,
    {
        proof {
            assert(cv.take(i + 1).drop_last() =~= cv.take(i as int));
            assert(cv.take(i + 1).last() == cv[i as int]);
            assert(cv[i as int] == cells@[i as int]@);
            reveal_strlit("  ");
        }
        let cell = padded(cells[i].as_str(), widths[i]);
        if i == 0 {
            out = cell;
            proof {
                assert(out@ =~= spec_table_line(cv.take(1), wv));
            }
        } else {
            out.append("  ");
            out.append(cell.as_str());
            proof {
                assert(out@ =~= spec_table_line(cv.take(i + 1), wv));
            }
        }
        i += 1;
    }
    proof {
        assert(cv.take(i as int) =~= cv);
    }
    out
}

/// Render a table: a padded header line, a dashed separator, and one
/// padded line per row. Every column is as wide as its widest entry,
/// headers included; a row longer than the header list opens columns of
/// its own.
#[verifier::loop_isolation(false)]
#[verifier::rlimit(50)]
pub fn render_table(headers: &Vec<String>, rows: &Vec<Vec<String>>) -> (out: Vec<String>)
    ensures
        ({
            let ws = spec_table_widths(
                headers@.map_values(|h: String| h@.len() as int),
                table_view(rows@),
            );
            &&& out@.len() == 2 + rows@.len()
            &&& out@[0]@ == spec_table_line(cells_view(headers@), ws)
            &&& out@[1]@ == spec_separator(ws)
            &&& forall|k: int|
                0 <= k < rows@.len() ==> (#[trigger] out@[k + 2])@ == spec_table_line(
                    table_view(rows@)[k],
                    ws,
                )
        }),
{
    let ghost hs0 = headers@.map_values(|h: String| h@.len() as int);
    let ghost tv = table_view(rows@);
    let mut widths: Vec<usize> = Vec::new();
    let mut h: usize = 0;
    while h < headers.len()
        invariant
            h <= headers@.len(),
            widths@.len() == h,
            widths_view(widths@) =~= hs0.take(h as int),
        decreases headers@.len() - h,
    {
        widths.push(headers[h].as_str().unicode_len());
        proof {
            assert(widths_view(widths@) =~= hs0.take(h + 1));
        }
        h += 1;
    }
    proof {
        assert(widths_view(widths@) =~= hs0);
        assert(tv.take(0) =~= Seq::<Seq<Seq<char>>>::empty());
    }
    let mut i: usize = 0;
    while i < rows.len()
        invariant
            i <= rows@.len(),
            widths_view(widths@) == spec_table_widths(hs0, tv.take(i as int)),
            widths@.len() >= headers@.len(),
            forall|m: int| 0 <= m < i ==> widths@.len() >= (#[trigger] rows@[m])@.len(),
        decreases rows@.len() - i,
    {
        let ghost before = spec_table_widths(hs0, tv.take(i as int));
        proof {
            assert(tv.take(i + 1).drop_last() =~= tv.take(i as int));
            assert(tv.take(i + 1).last() == tv[i as int]);
            assert(tv[i as int] == cells_view(rows@[i as int]@));
        }
        let ghost len_before = widths@.len();
        let row = &rows[i];
        let ghost rv = cells_view(row@);
        let mut j: usize = 0;
        proof {
            assert(rv.take(0) =~= Seq::<Seq<char>>::empty());
        }
        while j < row.len()
            invariant
                j <= row@.len(),
                widths_view(widths@) == spec_row_widths(before, rv.take(j as int)),
                widths@.len() >= len_before,
                widths@.len() >= j,
            decreases row@.len() - j,
        {
            proof {
                assert(rv.take(j + 1).drop_last() =~= rv.take(j as int));
                assert(rv.take(j + 1).last() == rv[j as int]);
                assert(rv[j as int] == row@[j as int]@);
            }
            let len = row[j].as_str().unicode_len();
            if j < widths.len() {
                if len > widths[j] {
                    widths[j] = len;
                }
                proof {
                    assert(widths_view(widths@) =~= spec_row_widths(before, rv.take(j + 1)));
                }
            } else {
                widths.push(len);
                proof {
                    assert(widths_view(widths@) =~= spec_row_widths(before, rv.take(j + 1)));
                }
            }
            j += 1;
        }
        proof {
            assert(rv.take(j as int) =~= rv);
        }
        i += 1;
    }
    proof {
        assert(tv.take(i as int) =~= tv);
    }
    let ghost ws = spec_table_widths(hs0, tv);
    let mut out: Vec<String> = Vec::new();
    out.push(table_line(headers, &widths));
    let mut sep = String::new();
    let mut c: usize = 0;
    proof {
        assert(widths_view(widths@).take(0) =~= Seq::<int>::empty());
    }
    while c < widths.len()
        invariant
            c <= widths@.len(),
            sep@ == spec_separator(widths_view(widths@).take(c as int)),
        decreases widths@.len() - c,
    {
        let ghost wv = widths_view(widths@);
        proof {
            assert(wv.take(c + 1).drop_last() =~= wv.take(c as int));
            assert(wv.take(c + 1).last() == wv[c as int]);
            reveal_strlit("  ");
        }
        let run = dashes(widths[c]);
        if c == 0 {
            sep = run;
            proof {
                assert(sep@ =~= spec_separator(wv.take(1)));
            }
        } else {
            sep.append("  ");
            sep.append(run.as_str());
            proof {
                assert(sep@ =~= spec_separator(wv.take(c + 1)));
            }
        }
        c += 1;
    }
    proof {
        assert(widths_view(widths@).take(c as int) =~= widths_view(widths@));
    }
    out.push(sep);
    let mut k: usize = 0;
    while k < rows.len()
        invariant
            k <= rows@.len(),
            out@.len() == 2 + k,
            out@[0]@ == spec_table_line(cells_view(headers@), ws),
            out@[1]@ == spec_separator(ws),
            forall|m: int|
                0 <= m < k ==> (#[trigger] out@[m + 2])@ == spec_table_line(tv[m], ws),
        decreases rows@.len() - k,
    {
        proof {
            assert(tv[k as int] == cells_view(rows@[k as int]@));
        }
        out.push(table_line(&rows[k], &widths));
        k += 1;
    }
    out
}

// ---------------------------------------------------------------------------
// Timestamp formatting
// ---------------------------------------------------------------------------

/// A local calendar time, already resolved by the caller's clock and time
/// zone.
pub struct DateTimeParts {
    pub year: i64,
    pub month: u8,
    pub day: u8,
    pub hour: u8,
    pub minute: u8,
}

/// A number padded with zeros to at least two digits.
pub open spec fn spec_pad2(n: nat) -> Seq<char> {
    if n < 10 {
        seq!['0'] + spec_u64_dec(n)
    } else {
        spec_u64_dec(n)
    }
}

/// A year padded with zeros to at least four digits.
pub open spec fn spec_pad4(n: nat) -> Seq<char> {
    if n < 10 {
        seq!['0', '0', '0'] + spec_u64_dec(n)
    } else if n < 100 {
        seq!['0', '0'] + spec_u64_dec(n)
    } else if n < 1000 {
        seq!['0'] + spec_u64_dec(n)
    } else {
        spec_u64_dec(n)
    }
}

/// The label shown for a message time: clock time for today, month and day
/// with clock time for this year, the full date otherwise.
pub open spec fn spec_time_label(t: DateTimeParts, now: DateTimeParts) -> Seq<char> {
    if t.year == now.year && t.month == now.month && t.day == now.day {
        spec_pad2(t.hour as nat) + ":"@ + spec_pad2(t.minute as nat)
    } else if t.year == now.year {
        spec_pad2(t.month as nat) + "/"@ + spec_pad2(t.day as nat) + " "@ + spec_pad2(
            t.hour as nat,
        ) + ":"@ + spec_pad2(t.minute as nat)
    } else {
        spec_pad4(t.year as nat) + "/"@ + spec_pad2(t.month as nat) + "/"@ + spec_pad2(
            t.day as nat,
        )
    }
}

/// A number padded with zeros to at least two digits.
fn pad2(n: u8) -> (r: String)
    ensures
        r@ == spec_pad2(n as nat),
{
    if n < 10 {
        let mut s = String::from_str("0");
        s.append(u64_to_dec(n as u64).as_str());
        proof {
            reveal_strlit("0");
            assert(s@ =~= spec_pad2(n as nat));
        }
        s
    } else {
        u64_to_dec(n as u64)
    }
}

/// Format a message time against the current local time.
pub fn format_timestamp(t: &DateTimeParts, now: &DateTimeParts) -> (r: String)
    requires
        t.year >= 0,
    ensures
        r@ == spec_time_label(*t, *now),
{
    if t.year == now.year && t.month == now.month && t.day == now.day {
        let mut s = pad2(t.hour);
        s.append(":");
        s.append(pad2(t.minute).as_str());
        proof {
            assert(s@ =~= spec_time_label(*t, *now));
        }
        s
    } else if t.year == now.year {
        let mut s = pad2(t.month);
        s.append("/");
        s.append(pad2(t.day).as_str());
        s.append(" ");
        s.append(pad2(t.hour).as_str());
        s.append(":");
        s.append(pad2(t.minute).as_str());
        proof {
            assert(s@ =~= spec_time_label(*t, *now));
        }
        s
    } else {
        let y = t.year as u64;
        let mut s = if y < 10 {
            let mut p = String::from_str("000");
            p.append(u64_to_dec(y).as_str());
            proof {
                reveal_strlit("000");
            }
            p
        } else if y < 100 {
            let mut p = String::from_str("00");
            p.append(u64_to_dec(y).as_str());
            proof {
                reveal_strlit("00");
            }
            p
        } else if y < 1000 {
            let mut p = String::from_str("0");
            p.append(u64_to_dec(y).as_str());
            proof {
                reveal_strlit("0");
            }
            p
        } else {
            u64_to_dec(y)
        };
        proof {
            assert(s@ =~= spec_pad4(t.year as nat));
        }
        s.append("/");
        s.append(pad2(t.month).as_str());
        s.append("/");
        s.append(pad2(t.day).as_str());
        proof {
            assert(s@ =~= spec_time_label(*t, *now));
        }
        s
    }
}

} // verus!
