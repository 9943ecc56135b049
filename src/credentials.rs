//! Client identity carried through a session.

use vstd::prelude::*;
use crate::capabilities::CapabilityMap;

verus! {

pub struct BasicCredential {
    pub login: String,
    pub password: String,
}

pub struct BearerCredential {
    pub token: String,
    pub refresh_url: Option<String>,
}

pub enum Credentials {
    Basic(BasicCredential),
    Bearer(BearerCredential),
}

/// A client as the server knows it.
pub struct ClientInfo {
    pub uid: u64,
    pub ip: Option<String>,
    pub credentials: Option<Credentials>,
    pub capabilities: CapabilityMap,
}

impl ClientInfo {
    /// A client with identifier `uid`; no capabilities where none are given.
    pub fn with_uid(
        uid: u64,
        ip: Option<String>,
        credentials: Option<Credentials>,
        capabilities: Option<CapabilityMap>,
    ) -> (r: ClientInfo)
        ensures
            r.uid == uid,
            r.ip == ip,
            r.credentials == credentials,
            match capabilities {
                Some(c) => r.capabilities == c,
                None => r.capabilities@.len() == 0 && r.capabilities.wf(),
            },
    {
        ClientInfo {
            uid,
            ip,
            credentials,
            capabilities: match capabilities {
                Some(c) => c,
                None => CapabilityMap::new(),
            },
        }
    }
}

/// Hands out identifiers in strictly increasing order, from zero, until the
/// 64-bit space is spent.
pub struct IdCounter {
    next: u64,
}

impl IdCounter {
    /// The identifier the next call of `unique_id` hands out.
    pub closed spec fn next_id(&self) -> u64 {
        self.next
    }

    pub fn new() -> (r: IdCounter)
        ensures
            r.next_id() == 0,
    {
        IdCounter { next: 0 }
    }

    /// A fresh identifier, greater than every one handed out before; `None`
    /// once `u64::MAX` is reached, which is never handed out.
    pub fn unique_id(&mut self) -> (r: Option<u64>)
        ensures
            match r {
                Some(id) => id == old(self).next_id() && final(self).next_id() == id + 1,
                None => old(self).next_id() == u64::MAX && final(self).next_id() == u64::MAX,
            },
    {
        if self.next == u64::MAX {
            return None;
        }
        let id = self.next;
        self.next = self.next + 1;
        Some(id)
    }
}

/// Two identifiers taken one after the other differ, the later the greater.
pub proof fn lemma_ids_increase(c0: IdCounter, c1: IdCounter, c2: IdCounter, a: u64, b: u64)
    requires
        a == c0.next_id() && c1.next_id() == a + 1,
        b == c1.next_id() && c2.next_id() == b + 1,
    ensures
        a < b,
{
}

} // verus!
