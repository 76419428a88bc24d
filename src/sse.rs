//! Lifecycle events for the browser push channel: what each event carries on
//! the wire, and which events a repository answer causes.

use crate::broker::MailReply;
use crate::ident::{encode_id, ulid_text};
use crate::json::summary_json;
use crate::mail::Mail;
use vstd::prelude::*;

verus! {

/// An event for the subscribers of the push channel.
#[derive(Debug, Clone)]
pub enum SseEvt {
    /// A mail has arrived
    NewMail(Mail),
    /// The mail of an identifier was removed
    DelMail(u128),
    /// A heartbeat
    Ping,
}

/// An event as it is sent: its name and its data.
#[derive(Debug)]
pub struct SseData {
    pub name: String,
    pub data: String,
}

/// The heartbeat's data: a beating heart.
pub const PING_DATA: &'static str = "\u{1f493}";

impl SseData {
    /// The name and data of an event: `newMail` with the mail's summary,
    /// `delMail` with the identifier's text, `ping` with a heart.
    pub fn from_evt(evt: &SseEvt) -> (r: SseData)
        ensures
            match evt {
                SseEvt::NewMail(m) => r.name@ == "newMail"@ && r.data@ == summary_json(m@),
                SseEvt::DelMail(id) => r.name@ == "delMail"@ && r.data@ == ulid_text(*id),
                SseEvt::Ping => r.name@ == "ping"@ && r.data@ == PING_DATA@,
            },
    {
        match evt {
            SseEvt::NewMail(m) => SseData { name: "newMail".to_owned(), data: m.summary() },
            SseEvt::DelMail(id) => SseData { name: "delMail".to_owned(), data: encode_id(*id) },
            SseEvt::Ping => SseData { name: "ping".to_owned(), data: PING_DATA.to_owned() },
        }
    }
}

/// The number of `newMail` events in `evts`.
pub open spec fn count_new(evts: Seq<SseEvt>) -> nat
    decreases evts.len(),
{
    if evts.len() == 0 {
        0
    } else {
        count_new(evts.drop_last()) + if evts.last() is NewMail {
            1nat
        } else {
            0nat
        }
    }
}

/// The identifiers of the `delMail` events in `evts`, in order.
pub open spec fn deleted_ids(evts: Seq<SseEvt>) -> Seq<u128>
    decreases evts.len(),
{
    if evts.len() == 0 {
        Seq::empty()
    } else {
        let d = deleted_ids(evts.drop_last());
        match evts.last() {
            SseEvt::DelMail(id) => d.push(id),
            _ => d,
        }
    }
}

/// The identifiers that an answer reports as removed.
pub open spec fn removed_ids(reply: MailReply) -> Seq<u128> {
    match reply {
        MailReply::Removed(Some(id)) => seq![id],
        MailReply::RemovedAll(ids) => ids@,
        _ => Seq::empty(),
    }
}

/// The events that a repository answer causes: one `newMail` for a stored
/// mail, one `delMail` for each removed identifier, and nothing else.
pub fn notifications(reply: &MailReply) -> (r: Vec<SseEvt>)
    ensures
        count_new(r@) == (if reply is Stored { 1nat } else { 0nat }),
        reply matches MailReply::Stored(m) ==> r@.len() == 1 && (r@[0] matches SseEvt::NewMail(n)
            && n@ == m@),
        deleted_ids(r@) == removed_ids(*reply),
        forall|i: int| 0 <= i < r@.len() ==> !(#[trigger] r@[i] is Ping),
{
    let mut r: Vec<SseEvt> = Vec::new();
    match reply {
        MailReply::Stored(m) => {
            r.push(SseEvt::NewMail(m.duplicate()));
            proof {
                assert(r@.drop_last() == Seq::<SseEvt>::empty());
                assert(count_new(Seq::<SseEvt>::empty()) == 0);
                assert(deleted_ids(Seq::<SseEvt>::empty()) == Seq::<u128>::empty());
                assert(count_new(r@) == 1);
                assert(deleted_ids(r@) == Seq::<u128>::empty());
            }
        },
        MailReply::Removed(Some(id)) => {
            r.push(SseEvt::DelMail(*id));
            proof {
                assert(r@.drop_last() == Seq::<SseEvt>::empty());
                assert(count_new(Seq::<SseEvt>::empty()) == 0);
                assert(deleted_ids(Seq::<SseEvt>::empty()) == Seq::<u128>::empty());
                assert(count_new(r@) == 0);
                assert(deleted_ids(r@) == seq![*id]);
            }
        },
        MailReply::RemovedAll(ids) => {
            let mut i: usize = 0;
            proof {
                assert(count_new(r@) == 0);
                assert(deleted_ids(r@) == ids@.take(0));
            }
            while i < ids.len()
                invariant
                    i <= ids@.len(),
                    r@.len() == i,
                    count_new(r@) == 0,
                    deleted_ids(r@) == ids@.take(i as int),
                    forall|j: int| 0 <= j < r@.len() ==> !(#[trigger] r@[j] is Ping),
                decreases ids@.len() - i,
            {
                let ghost old_r = r@;
                r.push(SseEvt::DelMail(ids[i]));
                proof {
                    assert(r@.drop_last() == old_r);
                    assert(ids@.take(i as int + 1) == ids@.take(i as int).push(ids@[i as int]));
                }
                i += 1;
            }
            proof {
                assert(ids@.take(ids@.len() as int) == ids@);
            }
        },
        _ => {
            proof {
                assert(count_new(r@) == 0);
                assert(deleted_ids(r@) == Seq::<u128>::empty());
            }
        },
    }
    r
}

} // verus!
