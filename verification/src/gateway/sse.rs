//! The one message that the gateway sends of its own accord, and the frame it
//! travels in.

use vstd::prelude::*;

use super::session::SseRecord;
use crate::json::{json_written, write_json, Doc, Json};

verus! {

/// The body of `notifications/tools/list_changed`: a notification without an id.
pub open spec fn list_changed_doc() -> Doc {
    Doc::empty().with("jsonrpc"@, Doc::Text("2.0"@)).with(
        "method"@,
        Doc::Text("notifications/tools/list_changed"@),
    )
}

/// The body of `notifications/tools/list_changed`.
pub fn list_changed_notification() -> (r: Json)
    ensures
        r@ == list_changed_doc(),
{
    Json::empty_object().with("jsonrpc", Json::from_text("2.0")).with(
        "method",
        Json::from_text("notifications/tools/list_changed"),
    )
}

/// The fields of one server-sent event.
#[derive(Debug, PartialEq, Eq)]
pub struct SseFrame {
    pub event: String,
    pub data: String,
    pub id: String,
}

/// The frame of a record: `event: message`, its body as one line of JSON, and
/// its event id.
pub fn event_from_record(record: &SseRecord) -> (r: SseFrame)
    ensures
        r.event@ == "message"@,
        r.data@ == json_written(record@.json),
        r.id@ == record@.event_id,
        forall|i: int| 0 <= i < r.data@.len() ==> #[trigger] r.data@[i] != '\n',
{
    SseFrame { event: "message".to_owned(), data: write_json(&record.json), id: record.event_id.clone() }
}

/// The notice that the tool list changed is a notification of that name.
pub proof fn notice_names_its_method()
    ensures
        list_changed_doc().member("jsonrpc"@) == Some(Doc::Text("2.0"@)),
        list_changed_doc().member("method"@) == Some(Doc::Text("notifications/tools/list_changed"@)),
        list_changed_doc().member("id"@) is None,
{
    reveal_strlit("jsonrpc");
    reveal_strlit("method");
    reveal_strlit("id");
    assert("jsonrpc"@.len() == 7 && "method"@.len() == 6 && "id"@.len() == 2);
    let d0 = Doc::empty();
    let d1 = d0.with("jsonrpc"@, Doc::Text("2.0"@));
    let notice = Doc::Text("notifications/tools/list_changed"@);
    assert forall|k: Seq<char>| d1.with("method"@, notice).member(k) == (if k == "jsonrpc"@ {
        Some(Doc::Text("2.0"@))
    } else if k == "method"@ {
        Some(notice)
    } else {
        None::<Doc>
    }) by {
        crate::json::added_member_is_found(d0, "jsonrpc"@, Doc::Text("2.0"@), k);
        crate::json::added_member_is_found(d1, "method"@, notice, k);
    }
    assert(list_changed_doc() == d1.with("method"@, notice));
}

} // verus!
