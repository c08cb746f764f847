//! The server's registry of connected names and its broadcast rule.
//!
//! A registry is modelled by its entries: pairs of a name and the handle
//! registered under it, oldest first. No name occurs twice. A handle is a
//! number by which the surrounding program finds the connection's socket.

use vstd::prelude::*;
use crate::wire::{bytes_equal, copy_range, delivery_line, format_delivery};

verus! {

/// Some entry of `e` carries `name`.
pub open spec fn has_name(e: Seq<(Seq<u8>, u64)>, name: Seq<u8>) -> bool {
    exists|i: int| 0 <= i < e.len() && (#[trigger] e[i]).0 == name
}

/// Some entry of `e` carries `name` with `handle`.
pub open spec fn has_entry(e: Seq<(Seq<u8>, u64)>, name: Seq<u8>, handle: u64) -> bool {
    exists|i: int| 0 <= i < e.len() && #[trigger] e[i] == (name, handle)
}

/// No two entries of `e` carry the same name.
pub open spec fn unique_names(e: Seq<(Seq<u8>, u64)>) -> bool {
    forall|i: int, j: int| 0 <= i < j < e.len() ==> (#[trigger] e[i]).0 != (#[trigger] e[j]).0
}

/// The entries after a registration attempt: unchanged where the name is in
/// use, else with the new entry at the end.
pub open spec fn registered(e: Seq<(Seq<u8>, u64)>, name: Seq<u8>, handle: u64) -> Seq<
    (Seq<u8>, u64),
> {
    if has_name(e, name) {
        e
    } else {
        e.push((name, handle))
    }
}

/// The entries of `e` that do not carry `name`, in their order.
pub open spec fn without(e: Seq<(Seq<u8>, u64)>, name: Seq<u8>) -> Seq<(Seq<u8>, u64)>
    decreases e.len(),
{
    if e.len() == 0 {
        e
    } else if e.last().0 == name {
        without(e.drop_last(), name)
    } else {
        without(e.drop_last(), name).push(e.last())
    }
}

/// One relayed line on its way to one recipient, as a value of the model.
pub struct DeliveryView {
    pub recipient: Seq<u8>,
    pub handle: u64,
    pub line: Seq<u8>,
}

/// What a broadcast of `message` from `sender` hands out: one delivery for
/// each entry that does not carry the sender's name, in the entries' order.
pub open spec fn deliveries(e: Seq<(Seq<u8>, u64)>, sender: Seq<u8>, message: Seq<u8>) -> Seq<
    DeliveryView,
>
    decreases e.len(),
{
    if e.len() == 0 {
        Seq::empty()
    } else if e.last().0 == sender {
        deliveries(e.drop_last(), sender, message)
    } else {
        deliveries(e.drop_last(), sender, message).push(
            DeliveryView {
                recipient: e.last().0,
                handle: e.last().1,
                line: delivery_line(sender, message),
            },
        )
    }
}

/// The lines that the deliveries `d` bring to `name`, in their order.
pub open spec fn received_by(d: Seq<DeliveryView>, name: Seq<u8>) -> Seq<Seq<u8>>
    decreases d.len(),
{
    if d.len() == 0 {
        Seq::empty()
    } else if d.last().recipient == name {
        received_by(d.drop_last(), name).push(d.last().line)
    } else {
        received_by(d.drop_last(), name)
    }
}

/// One relayed line on its way to one recipient.
#[derive(Debug, PartialEq, Eq)]
pub struct Delivery {
    /// The name of the connection that gets the line.
    pub recipient: Vec<u8>,
    /// The handle registered under that name.
    pub handle: u64,
    /// The bytes to write, newline included.
    pub line: Vec<u8>,
}

impl View for Delivery {
    type V = DeliveryView;

    open spec fn view(&self) -> DeliveryView {
        DeliveryView { recipient: self.recipient@, handle: self.handle, line: self.line@ }
    }
}

/// The model of a list of deliveries.
pub open spec fn delivery_views(d: Seq<Delivery>) -> Seq<DeliveryView> {
    d.map_values(|x: Delivery| x@)
}

/// Why a registration was refused.
#[derive(Debug, Clone, Copy, PartialEq, Eq, Structural)]
pub enum RegistryError {
    /// The name is held by a live connection.
    NameTaken,
}

/// A name and the handle registered under it.
struct Entry {
    name: Vec<u8>,
    handle: u64,
}

/// The names of the live connections, each with its handle.
pub struct Registry {
    entries: Vec<Entry>,
}

impl View for Registry {
    type V = Seq<(Seq<u8>, u64)>;

    closed spec fn view(&self) -> Seq<(Seq<u8>, u64)> {
        Seq::new(self.entries@.len(), |i: int| (self.entries@[i].name@, self.entries@[i].handle))
    }
}

impl Registry {
    /// The registry's invariant: no name occurs twice.
    pub open spec fn wf(&self) -> bool {
        unique_names(self@)
    }

    /// A registry without entries.
    pub fn new() -> (r: Registry)
        ensures
            r@ == Seq::<(Seq<u8>, u64)>::empty(),
            r.wf(),
    {
        let r = Registry { entries: Vec::new() };
        assert(r@ =~= Seq::<(Seq<u8>, u64)>::empty());
        r
    }

    /// The number of entries.
    pub fn len(&self) -> (n: usize)
        ensures
            n == self@.len(),
    {
        self.entries.len()
    }

    /// Whether the registry has no entry.
    pub fn is_empty(&self) -> (r: bool)
        ensures
            r == (self@.len() == 0),
    {
        self.entries.len() == 0
    }

    /// The index of the first entry that carries `name`.
    fn position(&self, name: &Vec<u8>) -> (r: Option<usize>)
        ensures
            match r {
                Some(i) => i < self@.len() && self@[i as int].0 == name@,
                None => !has_name(self@, name@),
            },
    {
        let mut i: usize = 0;
        while i < self.entries.len()
            invariant
                i <= self.entries@.len(),
                self@.len() == self.entries@.len(),
                forall|k: int| 0 <= k < i ==> (#[trigger] self@[k]).0 != name@,
            decreases self.entries@.len() - i,
        {
            if bytes_equal(&self.entries[i].name, name) {
                return Some(i);
            }
            i += 1;
        }
        None
    }

    /// Whether `name` is registered.
    pub fn contains(&self, name: &Vec<u8>) -> (r: bool)
        ensures
            r == has_name(self@, name@),
    {
        self.position(name).is_some()
    }

    /// The handle registered under `name`, if the name is registered.
    pub fn handle_of(&self, name: &Vec<u8>) -> (r: Option<u64>)
        ensures
            match r {
                Some(h) => has_entry(self@, name@, h),
                None => !has_name(self@, name@),
            },
    {
        match self.position(name) {
            Some(i) => {
                let h: u64 = self.entries[i].handle;
                assert(self@[i as int] == (name@, h));
                Some(h)
            },
            None => None,
        }
    }

    /// Registers `handle` under `name`, unless the name is in use: then
    /// nothing changes and `NameTaken` is returned. The test and the insertion
    /// are one step on the registry.
    pub fn register(&mut self, name: Vec<u8>, handle: u64) -> (r: Result<(), RegistryError>)
        requires
            old(self).wf(),
        ensures
            final(self).wf(),
            final(self)@ == registered(old(self)@, name@, handle),
            has_name(old(self)@, name@) ==> r == Err::<(), RegistryError>(
                RegistryError::NameTaken,
            ) && final(self)@ == old(self)@,
            !has_name(old(self)@, name@) ==> r == Ok::<(), RegistryError>(()) && final(self)@
                == old(self)@.push((name@, handle)),
    {
        if self.position(&name).is_some() {
            return Err(RegistryError::NameTaken);
        }
        let ghost before = self@;
        self.entries.push(Entry { name, handle });
        assert(self@ =~= before.push((name@, handle)));
        proof {
            lemma_register_keeps_unique(before, name@, handle);
        }
        Ok(())
    }

    /// Removes the entry that carries `name` and returns its handle. Where
    /// the name is not registered, nothing changes and `None` is returned.
    pub fn remove(&mut self, name: &Vec<u8>) -> (r: Option<u64>)
        requires
            old(self).wf(),
        ensures
            final(self).wf(),
            final(self)@ == without(old(self)@, name@),
            match r {
                Some(h) => has_entry(old(self)@, name@, h),
                None => !has_name(old(self)@, name@) && final(self)@ == old(self)@,
            },
    {
        let ghost before = self@;
        match self.position(name) {
            Some(i) => {
                let entry = self.entries.remove(i);
                assert(self@ =~= before.remove(i as int));
                assert(before[i as int] == (name@, entry.handle));
                proof {
                    lemma_without_at(before, name@, i as int);
                    lemma_without_keeps_unique(before, name@);
                }
                Some(entry.handle)
            },
            None => {
                proof {
                    lemma_without_absent(before, name@);
                }
                None
            },
        }
    }

    /// The deliveries for `message` from `sender`: the attributed line, once
    /// for each registered name but the sender's, in the entries' order.
    pub fn broadcast(&self, sender: &Vec<u8>, message: &Vec<u8>) -> (out: Vec<Delivery>)
        ensures
            delivery_views(out@) == deliveries(self@, sender@, message@),
    {
        let mut out: Vec<Delivery> = Vec::new();
        let mut i: usize = 0;
        assert(self@.take(0) =~= Seq::<(Seq<u8>, u64)>::empty());
        assert(delivery_views(out@) =~= Seq::<DeliveryView>::empty());
        while i < self.entries.len()
            invariant
                i <= self.entries@.len(),
                self@.len() == self.entries@.len(),
                delivery_views(out@) == deliveries(self@.take(i as int), sender@, message@),
            decreases self.entries@.len() - i,
        {
            let ghost prev = out@;
            assert(self@.take(i + 1).drop_last() =~= self@.take(i as int));
            assert(self@.take(i + 1).last() == self@[i as int]);
            if !bytes_equal(&self.entries[i].name, sender) {
                let n: usize = self.entries[i].name.len();
                let recipient = copy_range(&self.entries[i].name, 0, n);
                assert(recipient@ =~= self.entries@[i as int].name@);
                let line = format_delivery(sender, message);
                let d = Delivery { recipient, handle: self.entries[i].handle, line };
                out.push(d);
                assert(delivery_views(out@) =~= delivery_views(prev).push(d@));
            }
            i += 1;
        }
        assert(self@.take(i as int) =~= self@);
        out
    }
}

/// Registration keeps names unique.
pub proof fn lemma_register_keeps_unique(e: Seq<(Seq<u8>, u64)>, name: Seq<u8>, handle: u64)
    requires
        unique_names(e),
    ensures
        unique_names(registered(e, name, handle)),
        has_name(registered(e, name, handle), name),
{
    let r = registered(e, name, handle);
    if has_name(e, name) {
    } else {
        assert(r[e.len() as int].0 == name);
        assert forall|i: int, j: int| 0 <= i < j < r.len() implies (#[trigger] r[i]).0 != (
        #[trigger] r[j]).0 by {
            if j < e.len() {
                assert(r[i] == e[i] && r[j] == e[j]);
            } else {
                assert(r[i] == e[i]);
            }
        }
    }
}

/// A second registration under a name in use changes nothing: the first
/// holder keeps its entry, whatever handle the second attempt brings.
pub proof fn lemma_second_registration_refused(
    e: Seq<(Seq<u8>, u64)>,
    name: Seq<u8>,
    first: u64,
    second: u64,
)
    requires
        unique_names(e),
    ensures
        has_name(registered(e, name, first), name),
        registered(registered(e, name, first), name, second) == registered(e, name, first),
        !has_name(e, name) ==> has_entry(registered(registered(e, name, first), name, second), name, first),
{
    lemma_register_keeps_unique(e, name, first);
    if !has_name(e, name) {
        let r = registered(e, name, first);
        assert(r[e.len() as int] == (name, first));
    }
}

/// Removing a name that is not registered changes nothing.
pub proof fn lemma_without_absent(e: Seq<(Seq<u8>, u64)>, name: Seq<u8>)
    requires
        !has_name(e, name),
    ensures
        without(e, name) == e,
    decreases e.len(),
{
    if e.len() > 0 {
        let d = e.drop_last();
        assert forall|i: int| 0 <= i < d.len() implies (#[trigger] d[i]).0 != name by {
            assert(d[i] == e[i]);
        }
        lemma_without_absent(d, name);
        assert(e.last() == e[e.len() - 1]);
        assert(d.push(e.last()) =~= e);
    }
}

/// After a removal the name is not registered.
pub proof fn lemma_without_removes(e: Seq<(Seq<u8>, u64)>, name: Seq<u8>)
    ensures
        !has_name(without(e, name), name),
    decreases e.len(),
{
    if e.len() > 0 {
        lemma_without_removes(e.drop_last(), name);
        let rest = without(e.drop_last(), name);
        let w = without(e, name);
        assert forall|i: int| 0 <= i < w.len() implies (#[trigger] w[i]).0 != name by {
            if i < rest.len() {
                assert(w[i] == rest[i]);
            }
        }
    }
}

/// A removal leaves every entry under another name in place: its name stays
/// registered, with the same handle, and no entry appears.
pub proof fn lemma_without_keeps_others(
    e: Seq<(Seq<u8>, u64)>,
    name: Seq<u8>,
    other: Seq<u8>,
    handle: u64,
)
    requires
        other != name,
    ensures
        has_entry(without(e, name), other, handle) == has_entry(e, other, handle),
    decreases e.len(),
{
    if e.len() > 0 {
        let d = e.drop_last();
        lemma_without_keeps_others(d, name, other, handle);
        let rest = without(d, name);
        let w = without(e, name);
        if has_entry(e, other, handle) {
            let i = choose|i: int| 0 <= i < e.len() && #[trigger] e[i] == (other, handle);
            if i < d.len() {
                assert(d[i] == (other, handle));
                let k = choose|k: int| 0 <= k < rest.len() && #[trigger] rest[k] == (other, handle);
                assert(w[k] == (other, handle));
            } else {
                assert(w[rest.len() as int] == (other, handle));
            }
        }
        if has_entry(w, other, handle) {
            let k = choose|k: int| 0 <= k < w.len() && #[trigger] w[k] == (other, handle);
            if k < rest.len() {
                assert(rest[k] == (other, handle));
                let i = choose|i: int| 0 <= i < d.len() && #[trigger] d[i] == (other, handle);
                assert(e[i] == (other, handle));
            } else {
                assert(e[e.len() - 1] == (other, handle));
            }
        }
    }
}

/// Where names are unique, removing the name of entry `i` takes out that entry and no other.
pub proof fn lemma_without_at(e: Seq<(Seq<u8>, u64)>, name: Seq<u8>, i: int)
    requires
        unique_names(e),
        0 <= i < e.len(),
        e[i].0 == name,
    ensures
        without(e, name) == e.remove(i),
    decreases e.len(),
{
    let d = e.drop_last();
    if i == e.len() - 1 {
        assert forall|k: int| 0 <= k < d.len() implies (#[trigger] d[k]).0 != name by {
            assert(d[k] == e[k]);
        }
        lemma_without_absent(d, name);
        assert(d =~= e.remove(i));
    } else {
        assert(d[i] == e[i]);
        assert forall|a: int, b: int| 0 <= a < b < d.len() implies (#[trigger] d[a]).0 != (
        #[trigger] d[b]).0 by {
            assert(d[a] == e[a] && d[b] == e[b]);
        }
        lemma_without_at(d, name, i);
        assert(e.last() == e[e.len() - 1]);
        assert(d.remove(i).push(e.last()) =~= e.remove(i));
    }
}

/// Removal keeps names unique.
pub proof fn lemma_without_keeps_unique(e: Seq<(Seq<u8>, u64)>, name: Seq<u8>)
    requires
        unique_names(e),
    ensures
        unique_names(without(e, name)),
{
    if has_name(e, name) {
        let i = choose|i: int| 0 <= i < e.len() && (#[trigger] e[i]).0 == name;
        lemma_without_at(e, name, i);
        let w = e.remove(i);
        assert forall|a: int, b: int| 0 <= a < b < w.len() implies (#[trigger] w[a]).0 != (
        #[trigger] w[b]).0 by {
            let a0 = if a < i { a } else { a + 1 };
            let b0 = if b < i { b } else { b + 1 };
            assert(w[a] == e[a0] && w[b] == e[b0]);
        }
    } else {
        lemma_without_absent(e, name);
    }
}

/// Removing a name twice leaves the entries as removing it once does.
pub proof fn lemma_remove_idempotent(e: Seq<(Seq<u8>, u64)>, name: Seq<u8>)
    ensures
        without(without(e, name), name) == without(e, name),
{
    lemma_without_removes(e, name);
    lemma_without_absent(without(e, name), name);
}

/// What a list of deliveries brings to a name is what its first part brings,
/// followed by what its second part brings.
pub proof fn lemma_received_concat(x: Seq<DeliveryView>, y: Seq<DeliveryView>, name: Seq<u8>)
    ensures
        received_by(x + y, name) == received_by(x, name) + received_by(y, name),
    decreases y.len(),
{
    if y.len() == 0 {
        assert(x + y =~= x);
        assert(received_by(x, name) + received_by(y, name) =~= received_by(x, name));
    } else {
        assert((x + y).drop_last() =~= x + y.drop_last());
        assert((x + y).last() == y.last());
        lemma_received_concat(x, y.drop_last(), name);
        if y.last().recipient == name {
            assert((received_by(x, name) + received_by(y.drop_last(), name)).push(y.last().line)
                =~= received_by(x, name) + received_by(y.drop_last(), name).push(y.last().line));
        }
    }
}

/// A broadcast never delivers to its sender, and each of its deliveries
/// carries the attributed line to a registered name under that name's handle.
pub proof fn lemma_deliveries_sound(e: Seq<(Seq<u8>, u64)>, sender: Seq<u8>, message: Seq<u8>)
    ensures
        forall|k: int|
            0 <= k < deliveries(e, sender, message).len() ==> {
                let d = #[trigger] deliveries(e, sender, message)[k];
                &&& d.recipient != sender
                &&& d.line == delivery_line(sender, message)
                &&& has_entry(e, d.recipient, d.handle)
            },
        received_by(deliveries(e, sender, message), sender) == Seq::<Seq<u8>>::empty(),
    decreases e.len(),
{
    if e.len() > 0 {
        let p = e.drop_last();
        lemma_deliveries_sound(p, sender, message);
        let rest = deliveries(p, sender, message);
        let all = deliveries(e, sender, message);
        assert forall|k: int| 0 <= k < all.len() implies ({
            let d = #[trigger] all[k];
            &&& d.recipient != sender
            &&& d.line == delivery_line(sender, message)
            &&& has_entry(e, d.recipient, d.handle)
        }) by {
            let d = all[k];
            if k < rest.len() {
                assert(d == rest[k]);
                let i = choose|i: int| 0 <= i < p.len() && #[trigger] p[i] == (d.recipient, d.handle);
                assert(e[i] == (d.recipient, d.handle));
            } else {
                assert(e[e.len() - 1] == (d.recipient, d.handle));
            }
        }
        if e.last().0 != sender {
            assert(all.drop_last() =~= rest);
        }
    }
}

/// A broadcast delivers nothing to a name that is not registered.
pub proof fn lemma_absent_receives_nothing(
    e: Seq<(Seq<u8>, u64)>,
    sender: Seq<u8>,
    message: Seq<u8>,
    name: Seq<u8>,
)
    requires
        !has_name(e, name),
    ensures
        received_by(deliveries(e, sender, message), name) == Seq::<Seq<u8>>::empty(),
    decreases e.len(),
{
    if e.len() > 0 {
        let p = e.drop_last();
        assert forall|i: int| 0 <= i < p.len() implies (#[trigger] p[i]).0 != name by {
            assert(p[i] == e[i]);
        }
        lemma_absent_receives_nothing(p, sender, message, name);
        assert(e[e.len() - 1].0 != name);
        if e.last().0 != sender {
            assert(deliveries(e, sender, message).drop_last() =~= deliveries(p, sender, message));
        }
    }
}

/// A broadcast delivers the attributed line exactly once to every
/// registered name but the sender's.
pub proof fn lemma_recipient_receives_once(
    e: Seq<(Seq<u8>, u64)>,
    sender: Seq<u8>,
    message: Seq<u8>,
    name: Seq<u8>,
)
    requires
        unique_names(e),
        has_name(e, name),
        name != sender,
    ensures
        received_by(deliveries(e, sender, message), name) == seq![delivery_line(sender, message)],
    decreases e.len(),
{
    let p = e.drop_last();
    let rest = deliveries(p, sender, message);
    let all = deliveries(e, sender, message);
    assert(e.last() == e[e.len() - 1]);
    assert forall|a: int, b: int| 0 <= a < b < p.len() implies (#[trigger] p[a]).0 != (
    #[trigger] p[b]).0 by {
        assert(p[a] == e[a] && p[b] == e[b]);
    }
    if e.last().0 == name {
        assert forall|i: int| 0 <= i < p.len() implies (#[trigger] p[i]).0 != name by {
            assert(p[i] == e[i]);
        }
        lemma_absent_receives_nothing(p, sender, message, name);
        assert(all.drop_last() =~= rest);
        assert(Seq::<Seq<u8>>::empty().push(delivery_line(sender, message)) =~= seq![
            delivery_line(sender, message),
        ]);
    } else {
        let i = choose|i: int| 0 <= i < e.len() && (#[trigger] e[i]).0 == name;
        assert(p[i] == e[i]);
        lemma_recipient_receives_once(p, sender, message, name);
        if e.last().0 != sender {
            assert(all.drop_last() =~= rest);
        }
    }
}

/// Two broadcasts of one sender, handed out one after the other, reach every
/// other registered name in the order in which they were made.
pub proof fn lemma_sender_order_kept(
    e: Seq<(Seq<u8>, u64)>,
    sender: Seq<u8>,
    earlier: Seq<u8>,
    later: Seq<u8>,
    name: Seq<u8>,
)
    requires
        unique_names(e),
        has_name(e, name),
        name != sender,
    ensures
        received_by(deliveries(e, sender, earlier) + deliveries(e, sender, later), name) == seq![
            delivery_line(sender, earlier),
            delivery_line(sender, later),
        ],
{
    lemma_received_concat(deliveries(e, sender, earlier), deliveries(e, sender, later), name);
    lemma_recipient_receives_once(e, sender, earlier, name);
    lemma_recipient_receives_once(e, sender, later, name);
    assert(seq![delivery_line(sender, earlier)] + seq![delivery_line(sender, later)] =~= seq![
        delivery_line(sender, earlier),
        delivery_line(sender, later),
    ]);
}

/// After a name was removed, no broadcast delivers to it.
pub proof fn lemma_removed_receives_nothing(
    e: Seq<(Seq<u8>, u64)>,
    name: Seq<u8>,
    sender: Seq<u8>,
    message: Seq<u8>,
)
    ensures
        received_by(deliveries(without(e, name), sender, message), name) == Seq::<
            Seq<u8>,
        >::empty(),
{
    lemma_without_removes(e, name);
    lemma_absent_receives_nothing(without(e, name), sender, message, name);
}

/// The entries after a run of registration attempts, made in order.
pub open spec fn registered_all(e: Seq<(Seq<u8>, u64)>, attempts: Seq<(Seq<u8>, u64)>) -> Seq<
    (Seq<u8>, u64),
>
    decreases attempts.len(),
{
    if attempts.len() == 0 {
        e
    } else {
        registered(registered_all(e, attempts.drop_last()), attempts.last().0, attempts.last().1)
    }
}

/// Whatever registrations are attempted, in whatever order, no two entries
/// ever carry the same name, and an entry that was there keeps its handle.
pub proof fn lemma_registrations_keep_unique(
    e: Seq<(Seq<u8>, u64)>,
    attempts: Seq<(Seq<u8>, u64)>,
    name: Seq<u8>,
    handle: u64,
)
    requires
        unique_names(e),
    ensures
        unique_names(registered_all(e, attempts)),
        has_entry(e, name, handle) ==> has_entry(registered_all(e, attempts), name, handle),
    decreases attempts.len(),
{
    if attempts.len() > 0 {
        let before = registered_all(e, attempts.drop_last());
        lemma_registrations_keep_unique(e, attempts.drop_last(), name, handle);
        lemma_register_keeps_unique(before, attempts.last().0, attempts.last().1);
        if has_entry(e, name, handle) {
            let i = choose|i: int| 0 <= i < before.len() && #[trigger] before[i] == (name, handle);
            assert(registered_all(e, attempts)[i] == (name, handle));
        }
    }
}

/// What a sender's lines hand out when they are broadcast one after the
/// other, in the order in which they were read.
pub open spec fn relayed(e: Seq<(Seq<u8>, u64)>, sender: Seq<u8>, lines: Seq<Seq<u8>>) -> Seq<
    DeliveryView,
>
    decreases lines.len(),
{
    if lines.len() == 0 {
        Seq::empty()
    } else {
        relayed(e, sender, lines.drop_last()) + deliveries(e, sender, lines.last())
    }
}

/// Every other registered name receives a sender's lines completely, each
/// once, attributed, and in the order in which the sender sent them.
pub proof fn lemma_relay_keeps_order(
    e: Seq<(Seq<u8>, u64)>,
    sender: Seq<u8>,
    lines: Seq<Seq<u8>>,
    name: Seq<u8>,
)
    requires
        unique_names(e),
        has_name(e, name),
        name != sender,
    ensures
        received_by(relayed(e, sender, lines), name) == Seq::new(
            lines.len(),
            |i: int| delivery_line(sender, lines[i]),
        ),
    decreases lines.len(),
{
    if lines.len() > 0 {
        let head = lines.drop_last();
        lemma_relay_keeps_order(e, sender, head, name);
        lemma_recipient_receives_once(e, sender, lines.last(), name);
        lemma_received_concat(relayed(e, sender, head), deliveries(e, sender, lines.last()), name);
        assert(Seq::new(head.len(), |i: int| delivery_line(sender, head[i])) + seq![
            delivery_line(sender, lines.last()),
        ] =~= Seq::new(lines.len(), |i: int| delivery_line(sender, lines[i])));
    } else {
        assert(received_by(relayed(e, sender, lines), name) =~= Seq::new(
            lines.len(),
            |i: int| delivery_line(sender, lines[i]),
        ));
    }
}

} // verus!
