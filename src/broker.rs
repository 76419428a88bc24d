//! The mail repository: the single owner of the captured mails, which serves
//! one command at a time.

use crate::mail::{Mail, MailView};
use std::collections::HashMap;
use vstd::prelude::*;
use vstd::std_specs::hash::{group_hash_axioms, spec_keys_iter};
use vstd::std_specs::iter::IteratorSpec;

verus! {

broadcast use group_hash_axioms;

/// A command to the repository.
pub enum MailEvt {
    /// Store a new mail
    NewMail(Mail),
    /// Look up the mail of an identifier
    GetMail(u128),
    /// List every mail
    GetAll,
    /// Remove the mail of an identifier
    Remove(u128),
    /// Remove every mail
    RemoveAll,
}

/// The answer to a command.
pub enum MailReply {
    /// The mail was stored; a copy of it, for the notification bus
    Stored(Mail),
    /// The mail of the identifier, if there is one
    Found(Option<Mail>),
    /// Every mail, in no particular order
    All(Vec<Mail>),
    /// The identifier of the removed mail, if there was one
    Removed(Option<u128>),
    /// The identifiers of the removed mails, in no particular order
    RemovedAll(Vec<u128>),
}

/// The identifiers of a sequence of mails.
pub open spec fn ids_of(ms: Seq<Mail>) -> Seq<u128> {
    ms.map_values(|m: Mail| m@.id)
}

/// `ms` holds each mail of `store` once, in some order.
pub open spec fn lists(ms: Seq<Mail>, store: Map<u128, MailView>) -> bool {
    &&& ids_of(ms).no_duplicates()
    &&& ids_of(ms).to_set() == store.dom()
    &&& forall|i: int| 0 <= i < ms.len() ==> (#[trigger] ms[i])@ == store[ms[i]@.id]
}

/// `ids` holds each identifier of `store` once, in some order.
pub open spec fn lists_ids(ids: Seq<u128>, store: Map<u128, MailView>) -> bool {
    ids.no_duplicates() && ids.to_set() == store.dom()
}

/// The store after a command.
pub open spec fn after(store: Map<u128, MailView>, evt: MailEvt) -> Map<u128, MailView> {
    match evt {
        MailEvt::NewMail(m) => store.insert(m@.id, m@),
        MailEvt::GetMail(_) | MailEvt::GetAll => store,
        MailEvt::Remove(id) => store.remove(id),
        MailEvt::RemoveAll => Map::empty(),
    }
}

/// The store after a sequence of commands, served in order.
pub open spec fn after_all(store: Map<u128, MailView>, evts: Seq<MailEvt>) -> Map<u128, MailView>
    decreases evts.len(),
{
    if evts.len() == 0 {
        store
    } else {
        after(after_all(store, evts.drop_last()), evts.last())
    }
}

/// A command leaves the mail of `id` alone: it neither removes it nor stores
/// another mail under that identifier.
pub open spec fn keeps(evt: MailEvt, id: u128) -> bool {
    match evt {
        MailEvt::NewMail(m) => m@.id != id,
        MailEvt::Remove(r) => r != id,
        MailEvt::RemoveAll => false,
        MailEvt::GetMail(_) | MailEvt::GetAll => true,
    }
}

/// The mail store.
pub struct MailTank {
    mails: HashMap<u128, Mail>,
}

impl View for MailTank {
    type V = Map<u128, MailView>;

    closed spec fn view(&self) -> Map<u128, MailView> {
        self.mails@.map_values(|m: Mail| m@)
    }
}

impl MailTank {
    /// Each mail is stored under its own identifier.
    pub closed spec fn wf(&self) -> bool {
        forall|k: u128| #[trigger] self.mails@.contains_key(k) ==> self.mails@[k]@.id == k
    }

    /// An empty store.
    pub fn new() -> (r: MailTank)
        ensures
            r.wf(),
            r@ == Map::<u128, MailView>::empty(),
    {
        let r = MailTank { mails: HashMap::new() };
        proof {
            assert(r@ == Map::<u128, MailView>::empty());
        }
        r
    }

    /// Stores a mail under its identifier.
    pub fn add(&mut self, mail: Mail)
        requires
            old(self).wf(),
        ensures
            final(self).wf(),
            final(self)@ == old(self)@.insert(mail@.id, mail@),
    {
        let id = mail.get_id();
        let ghost mv = mail@;
        let _ = self.mails.insert(id, mail);
        proof {
            assert(self@ == old(self)@.insert(id, mv));
        }
    }

    /// The mail of an identifier.
    pub fn get(&self, id: u128) -> (r: Option<Mail>)
        ensures
            r is Some <==> self@.contains_key(id),
            r matches Some(m) ==> m@ == self@[id],
    {
        match self.mails.get(&id) {
            Some(m) => Some(m.duplicate()),
            None => None,
        }
    }

    /// Every mail, each once, in no particular order.
    pub fn get_all(&self) -> (r: Vec<Mail>)
        requires
            self.wf(),
        ensures
            lists(r@, self@),
    {
        let mut r: Vec<Mail> = Vec::new();
        let ghost all = spec_keys_iter(&self.mails).remaining().unref();
        let ghost n = all.len();
        for k in it: self.mails.keys()
            invariant
                self.wf(),
                it.seq().unref() == all,
                all.to_set() == self.mails@.dom(),
                all.no_duplicates(),
                all.len() == n,
                r@.len() == it.index(),
                it.index() <= n,
                ids_of(r@) == all.take(it.index() as int),
                forall|i: int| 0 <= i < r@.len() ==> (#[trigger] r@[i])@ == self@[r@[i]@.id],
        {
            proof {
                assert(all[it.index() as int] == *k);
                assert(all.to_set().contains(*k));
            }
            let m = self.mails.get(k).unwrap().duplicate();
            let ghost old_r = r@;
            r.push(m);
            proof {
                assert(ids_of(r@) == ids_of(old_r).push(*k));
                assert(all.take(it.index() as int + 1) == all.take(it.index() as int).push(*k));
            }
        }
        proof {
            assert(all.take(n as int) == all);
            assert(self@.dom() == self.mails@.dom());
        }
        r
    }

    /// The identifiers of the stored mails, each once, in no particular order.
    pub fn ids(&self) -> (r: Vec<u128>)
        ensures
            lists_ids(r@, self@),
    {
        let mut r: Vec<u128> = Vec::new();
        let ghost all = spec_keys_iter(&self.mails).remaining().unref();
        let ghost n = all.len();
        for k in it: self.mails.keys()
            invariant
                it.seq().unref() == all,
                all.to_set() == self.mails@.dom(),
                all.no_duplicates(),
                all.len() == n,
                it.index() <= n,
                r@ == all.take(it.index() as int),
        {
            proof {
                assert(all[it.index() as int] == *k);
                assert(all.take(it.index() as int + 1) == all.take(it.index() as int).push(*k));
            }
            r.push(*k);
        }
        proof {
            assert(all.take(n as int) == all);
            assert(self@.dom() == self.mails@.dom());
        }
        r
    }

    /// Removes the mail of an identifier; gives the identifier back if there
    /// was one.
    pub fn remove(&mut self, id: u128) -> (r: Option<u128>)
        requires
            old(self).wf(),
        ensures
            final(self).wf(),
            final(self)@ == old(self)@.remove(id),
            r == (if old(self)@.contains_key(id) { Some(id) } else { None }),
    {
        let removed = self.mails.remove(&id);
        proof {
            assert(self@ == old(self)@.remove(id));
        }
        match removed {
            Some(m) => Some(m.get_id()),
            None => None,
        }
    }

    /// Removes every mail; gives their identifiers, each once.
    pub fn remove_all(&mut self) -> (r: Vec<u128>)
        requires
            old(self).wf(),
        ensures
            final(self).wf(),
            final(self)@ == Map::<u128, MailView>::empty(),
            lists_ids(r@, old(self)@),
    {
        let ids = self.ids();
        self.mails.clear();
        proof {
            assert(self@ == Map::<u128, MailView>::empty());
        }
        ids
    }

    /// Serves one command.
    pub fn process(&mut self, evt: MailEvt) -> (r: MailReply)
        requires
            old(self).wf(),
        ensures
            final(self).wf(),
            final(self)@ == after(old(self)@, evt),
            match evt {
                MailEvt::NewMail(m) => {
                    &&& final(self)@ == old(self)@.insert(m@.id, m@)
                    &&& r matches MailReply::Stored(s) && s@ == m@
                },
                MailEvt::GetMail(id) => {
                    &&& final(self)@ == old(self)@
                    &&& r matches MailReply::Found(o)
                    &&& (o is Some <==> old(self)@.contains_key(id))
                    &&& (o matches Some(m) ==> m@ == old(self)@[id])
                },
                MailEvt::GetAll => {
                    &&& final(self)@ == old(self)@
                    &&& r matches MailReply::All(ms) && lists(ms@, old(self)@)
                },
                MailEvt::Remove(id) => {
                    &&& final(self)@ == old(self)@.remove(id)
                    &&& r matches MailReply::Removed(o)
                    &&& o == (if old(self)@.contains_key(id) { Some(id) } else { None })
                },
                MailEvt::RemoveAll => {
                    &&& final(self)@ == Map::<u128, MailView>::empty()
                    &&& r matches MailReply::RemovedAll(ids) && lists_ids(ids@, old(self)@)
                },
            },
    {
        match evt {
            MailEvt::NewMail(mail) => {
                let copy = mail.duplicate();
                self.add(mail);
                MailReply::Stored(copy)
            },
            MailEvt::GetMail(id) => MailReply::Found(self.get(id)),
            MailEvt::GetAll => MailReply::All(self.get_all()),
            MailEvt::Remove(id) => MailReply::Removed(self.remove(id)),
            MailEvt::RemoveAll => MailReply::RemovedAll(self.remove_all()),
        }
    }
}

proof fn lemma_kept(store: Map<u128, MailView>, m: MailView, later: Seq<MailEvt>)
    requires
        forall|i: int| 0 <= i < later.len() ==> keeps(#[trigger] later[i], m.id),
    ensures
        after_all(store.insert(m.id, m), later).contains_key(m.id),
        after_all(store.insert(m.id, m), later)[m.id] == m,
    decreases later.len(),
{
    if later.len() > 0 {
        lemma_kept(store, m, later.drop_last());
        assert(keeps(later[later.len() - 1], m.id));
    }
}

/// A stored mail stays observable until a command removes it or stores
/// another mail under its identifier: after any other commands it is found
/// under its identifier, and every listing holds exactly one mail with that
/// identifier, equal to it.
pub proof fn stored_mail_is_observable(
    store: Map<u128, MailView>,
    m: MailView,
    later: Seq<MailEvt>,
    ms: Seq<Mail>,
)
    requires
        forall|i: int| 0 <= i < later.len() ==> keeps(#[trigger] later[i], m.id),
        lists(ms, after_all(store.insert(m.id, m), later)),
    ensures
        after_all(store.insert(m.id, m), later).contains_key(m.id),
        after_all(store.insert(m.id, m), later)[m.id] == m,
        exists|i: int| 0 <= i < ms.len() && (#[trigger] ms[i])@ == m,
        forall|i: int, j: int|
            0 <= i < ms.len() && 0 <= j < ms.len() && (#[trigger] ms[i])@.id == m.id && (#[trigger] ms[j])@.id
                == m.id ==> i == j,
{
    lemma_kept(store, m, later);
    let now = after_all(store.insert(m.id, m), later);
    assert(ids_of(ms).to_set().contains(m.id));
    let i = choose|i: int| 0 <= i < ids_of(ms).len() && ids_of(ms)[i] == m.id;
    assert(ms[i]@ == now[ms[i]@.id]);
    assert forall|i: int, j: int|
        0 <= i < ms.len() && 0 <= j < ms.len() && (#[trigger] ms[i])@.id == m.id && (#[trigger] ms[j])@.id
            == m.id implies i == j by {
        assert(ids_of(ms)[i] == ids_of(ms)[j]);
    }
}

/// A removed mail is gone: looking it up finds nothing, removing it again
/// removes nothing, and no listing of the store holds it.
pub proof fn removed_mail_is_gone(store: Map<u128, MailView>, id: u128, ms: Seq<Mail>)
    requires
        lists(ms, store.remove(id)),
    ensures
        !store.remove(id).contains_key(id),
        forall|i: int| 0 <= i < ms.len() ==> (#[trigger] ms[i])@.id != id,
{
    assert forall|i: int| 0 <= i < ms.len() implies (#[trigger] ms[i])@.id != id by {
        assert(ids_of(ms)[i] == ms[i]@.id);
        assert(ids_of(ms).to_set().contains(ids_of(ms)[i]));
    }
}

} // verus!
