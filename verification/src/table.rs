//! The table of clients.
//!
//! The clients are held in a `slab::Slab`, which hands out small integers
//! as their identifiers and gives the identifier of a client that has left
//! to a later one.  This module declares the type and states, for each of
//! its methods that the server calls, what the method does to the clients
//! that the table holds.

use vstd::prelude::*;
use crate::channel::NickOf;
use crate::client::Client;
use crate::text::eq;

verus! {

/// Declares `slab::Slab`, of which nothing is known here but what the
/// functions below say.
#[verifier::external_type_specification]
#[verifier::external_body]
#[verifier::reject_recursive_types(T)]
pub struct ExSlab<T>(slab::Slab<T>);

/// The clients that a table holds, by their identifiers.
pub uninterp spec fn held(table: slab::Slab<Client>) -> Map<usize, Client>;

/// Calls `Slab::new`, which makes a table that holds nothing.
#[verifier::external_body]
pub(crate) fn table_new() -> (fresh: slab::Slab<Client>)
    ensures
        forall|id: usize| !held(fresh).dom().contains(id),
{
    slab::Slab::new()
}

/// Calls `Slab::insert`, which stores the client under a key that was
/// vacant and returns the key; the other clients stay as they are.  Which
/// vacant key it takes is not stated.  (It panics where the storage would
/// grow beyond what can be allocated, as `Vec::push` does.)
#[verifier::external_body]
pub(crate) fn table_insert(table: &mut slab::Slab<Client>, client: Client) -> (id: usize)
    ensures
        !held(*old(table)).dom().contains(id),
        held(*final(table)) == held(*old(table)).insert(id, client),
{
    table.insert(client)
}

/// Calls `Slab::remove`, which takes the client with this key out and
/// returns it; it panics where the key is vacant, which `requires` rules
/// out.
#[verifier::external_body]
pub(crate) fn table_remove(table: &mut slab::Slab<Client>, id: usize) -> (client: Client)
    requires
        held(*old(table)).dom().contains(id),
    ensures
        client == held(*old(table))[id],
        held(*final(table)) == held(*old(table)).remove(id),
{
    table.remove(id)
}

/// Calls `Slab::contains`, which says whether a client is stored under
/// the key.
#[verifier::external_body]
pub(crate) fn table_contains(table: &slab::Slab<Client>, id: usize) -> (r: bool)
    ensures
        r == held(*table).dom().contains(id),
{
    table.contains(id)
}

/// Calls `Slab::get`, which returns the client stored under the key, or
/// `None` where the key is vacant.
#[verifier::external_body]
pub(crate) fn table_get(table: &slab::Slab<Client>, id: usize) -> (r: Option<&Client>)
    ensures
        r.is_some() == held(*table).dom().contains(id),
        r.is_some() ==> *r.unwrap() == held(*table)[id],
{
    table.get(id)
}

/// Calls `Slab::index_mut`, which gives the client stored under the key
/// to be changed in place; the other clients stay as they are.  It panics
/// where the key is vacant, which `requires` rules out.
#[verifier::external_body]
pub(crate) fn table_get_mut(table: &mut slab::Slab<Client>, id: usize) -> (client: &mut Client)
    requires
        held(*old(table)).dom().contains(id),
    ensures
        *client == held(*old(table))[id],
        held(*final(table)) == held(*old(table)).insert(id, *final(client)),
{
    &mut table[id]
}

/// Calls `Slab::len`, which returns the number of clients stored.
#[verifier::external_body]
pub(crate) fn table_len(table: &slab::Slab<Client>) -> (n: usize)
    ensures
        n == held(*table).dom().len(),
{
    table.len()
}

/// Calls `Slab::iter` and collects the keys, which it yields in rising
/// order, one for each client stored.
#[verifier::external_body]
pub(crate) fn table_keys(table: &slab::Slab<Client>) -> (keys: Vec<usize>)
    ensures
        forall|i: int, j: int| 0 <= i < j < keys@.len() ==> keys@[i] < keys@[j],
        forall|id: usize| keys@.contains(id) <==> held(*table).dom().contains(id),
{
    table.iter().map(|entry| entry.0).collect()
}

impl NickOf for slab::Slab<Client> {
    open spec fn nick(&self, id: usize) -> Seq<u8> {
        if held(*self).dom().contains(id) {
            held(*self)[id].nick@
        } else {
            Seq::<u8>::empty()
        }
    }

    fn nick_is(&self, id: usize, name: &[u8]) -> (r: bool) {
        match table_get(self, id) {
            Some(client) => eq(client.nick.as_slice(), name),
            None => {
                assert(name@.len() == 0 ==> name@ =~= Seq::<u8>::empty());
                name.len() == 0
            },
        }
    }
}

} // verus!
