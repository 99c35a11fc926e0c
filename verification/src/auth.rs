//! Token storage: tokens live in the OS keychain (one entry per host under a
//! service name), never in files. `TokenStore` abstracts the store, so that
//! an in-memory store can stand in for the keychain.

use vstd::prelude::*;

use crate::text::{chars_eq, chars_of, push_str};

verus! {

/// An error of the token store.
#[derive(Debug)]
pub enum AuthError {
    Keyring(String),
}

impl AuthError {
    /// The text of the error: `Keychain error: <cause>`.
    pub fn message(&self) -> (r: String)
        ensures
            match self {
                AuthError::Keyring(c) => r@ == "Keychain error: "@ + c@,
            },
    {
        match self {
            AuthError::Keyring(c) => {
                let mut m = String::from_str("Keychain error: ");
                push_str(&mut m, c.as_str());
                m
            },
        }
    }
}

/// A store of tokens by host.
pub trait TokenStore {
    /// Stores `token` for `host`, replacing any earlier one.
    fn set(&mut self, host: &str, token: &str) -> Result<(), AuthError>;

    /// The token stored for `host`, if any.
    fn get(&self, host: &str) -> Result<Option<String>, AuthError>;

    /// Removes the token of `host`; a missing one is no error.
    fn delete(&mut self, host: &str) -> Result<(), AuthError>;
}

#[verifier::external_type_specification]
#[verifier::external_body]
pub struct ExKeyringEntry(keyring::Entry);

/// `keyring::Entry::new`: the keychain entry of `user` under `service`;
/// its error as text.
#[verifier::external_body]
fn keyring_entry(service: &str, user: &str) -> (r: Result<keyring::Entry, String>) {
    match keyring::Entry::new(service, user) {
        Ok(e) => Ok(e),
        Err(e) => Err(e.to_string()),
    }
}

/// `keyring::Entry::set_password`; its error as text. What the keychain
/// holds afterwards is the operating system's.
#[verifier::external_body]
fn keyring_set(entry: &keyring::Entry, password: &str) -> (r: Result<(), String>) {
    match entry.set_password(password) {
        Ok(()) => Ok(()),
        Err(e) => Err(e.to_string()),
    }
}

/// `keyring::Entry::get_password`: the password, none for the crate's
/// `NoEntry`, any other error as text.
#[verifier::external_body]
fn keyring_get(entry: &keyring::Entry) -> (r: Result<Option<String>, String>) {
    match entry.get_password() {
        Ok(p) => Ok(Some(p)),
        Err(keyring::Error::NoEntry) => Ok(None),
        Err(e) => Err(e.to_string()),
    }
}

/// `keyring::Entry::delete_credential`: the crate's `NoEntry` is no error,
/// any other error as text.
#[verifier::external_body]
fn keyring_delete(entry: &keyring::Entry) -> (r: Result<(), String>) {
    match entry.delete_credential() {
        Ok(()) => Ok(()),
        Err(keyring::Error::NoEntry) => Ok(()),
        Err(e) => Err(e.to_string()),
    }
}

/// The store in the OS keychain: one entry per host under a service name.
pub struct KeyringStore {
    service: String,
}

impl KeyringStore {
    pub closed spec fn service(&self) -> Seq<char> {
        self.service@
    }

    /// The store under the default service name, `terra-git`.
    pub fn new() -> (s: Self)
        ensures
            s.service() == "terra-git"@,
    {
        Self::with_service("terra-git")
    }

    /// The store under another service name (lets tests keep apart).
    pub fn with_service(service: &str) -> (s: Self)
        ensures
            s.service() == service@,
    {
        KeyringStore { service: String::from_str(service) }
    }

    fn entry(&self, host: &str) -> (r: Result<keyring::Entry, AuthError>) {
        match keyring_entry(self.service.as_str(), host) {
            Ok(e) => Ok(e),
            Err(m) => Err(AuthError::Keyring(m)),
        }
    }
}

impl Default for KeyringStore {
    fn default() -> (s: Self)
        ensures
            s.service() == "terra-git"@,
    {
        KeyringStore::new()
    }
}

impl TokenStore for KeyringStore {
    fn set(&mut self, host: &str, token: &str) -> (r: Result<(), AuthError>) {
        let e = match self.entry(host) {
            Ok(e) => e,
            Err(x) => {
                return Err(x);
            },
        };
        match keyring_set(&e, token) {
            Ok(()) => Ok(()),
            Err(m) => Err(AuthError::Keyring(m)),
        }
    }

    fn get(&self, host: &str) -> (r: Result<Option<String>, AuthError>) {
        let e = match self.entry(host) {
            Ok(e) => e,
            Err(x) => {
                return Err(x);
            },
        };
        match keyring_get(&e) {
            Ok(p) => Ok(p),
            Err(m) => Err(AuthError::Keyring(m)),
        }
    }

    fn delete(&mut self, host: &str) -> (r: Result<(), AuthError>) {
        let e = match self.entry(host) {
            Ok(e) => e,
            Err(x) => {
                return Err(x);
            },
        };
        match keyring_delete(&e) {
            Ok(()) => Ok(()),
            Err(m) => Err(AuthError::Keyring(m)),
        }
    }
}

/// The tokens by host of an entry list: the entry of each host.
pub closed spec fn view_of(entries: Seq<(String, String)>) -> Map<Seq<char>, Seq<char>> {
    Map::new(
        |h: Seq<char>| exists|i: int| 0 <= i < entries.len() && entries[i].0@ == h,
        |h: Seq<char>| entries[choose|i: int| 0 <= i < entries.len() && entries[i].0@ == h].1@,
    )
}

/// A store in memory, without any access to the operating system.
pub struct MemoryStore {
    entries: Vec<(String, String)>,
}

impl MemoryStore {
    /// The tokens by host.
    pub closed spec fn view(&self) -> Map<Seq<char>, Seq<char>> {
        view_of(self.entries@)
    }

    /// Each host occurs once.
    #[verifier::type_invariant]
    closed spec fn wf(&self) -> bool {
        forall|i: int, j: int|
            0 <= i < j < self.entries@.len() ==> self.entries@[i].0@ != self.entries@[j].0@
    }

    /// An empty store.
    pub fn new() -> (s: Self)
        ensures
            s.view() == Map::<Seq<char>, Seq<char>>::empty(),
    {
        let s = MemoryStore { entries: Vec::new() };
        assert(s.view() =~= Map::<Seq<char>, Seq<char>>::empty());
        s
    }

    fn position(&self, host: &str) -> (r: Option<usize>)
        ensures
            match r {
                Some(i) => i < self.entries@.len() && self.entries@[i as int].0@ == host@,
                None => forall|i: int|
                    0 <= i < self.entries@.len() ==> self.entries@[i].0@ != host@,
            },
    {
        let h = chars_of(host);
        let mut i: usize = 0;
        while i < self.entries.len()
            invariant
                i <= self.entries@.len(),
                h@ == host@,
                forall|j: int| 0 <= j < i ==> self.entries@[j].0@ != host@,
            decreases self.entries@.len() - i,
        {
            let k = chars_of(self.entries[i].0.as_str());
            if chars_eq(k.as_slice(), h.as_slice()) {
                return Some(i);
            }
            i = i + 1;
        }
        None
    }

    /// Stores `token` for `host`, replacing any earlier one.
    pub fn put(&mut self, host: &str, token: &str)
        ensures
            final(self).view() == old(self).view().insert(host@, token@),
    {
        proof {
            use_type_invariant(&*self);
        }
        let ghost before = self.view();
        let pos = self.position(host);
        let mut entries: Vec<(String, String)> = Vec::new();
        std::mem::swap(&mut entries, &mut self.entries);
        let ghost es = entries@;
        match pos {
            Some(i) => {
                entries.set(i, (String::from_str(host), String::from_str(token)));
                proof {
                    let es2 = entries@;
                    assert forall|h: Seq<char>| #[trigger] view_of(es2).dom().contains(h) == before.insert(
                        host@,
                        token@,
                    ).dom().contains(h) by {
                        if h != host@ {
                            if before.dom().contains(h) {
                                let k = choose|k: int| 0 <= k < es.len() && es[k].0@ == h;
                                assert(es2[k] == es[k]);
                            }
                            if view_of(es2).dom().contains(h) {
                                let k = choose|k: int| 0 <= k < es2.len() && es2[k].0@ == h;
                                assert(es2[k] == es[k]);
                            }
                        } else {
                            assert(es2[i as int].0@ == h);
                        }
                    }
                    assert forall|h: Seq<char>| #[trigger] view_of(es2).dom().contains(h) implies view_of(es2)[h]
                        == before.insert(host@, token@)[h] by {
                        let k = choose|k: int| 0 <= k < es2.len() && es2[k].0@ == h;
                        if h == host@ {
                            assert(k == i);
                        } else {
                            assert(es2[k] == es[k]);
                            let k0 = choose|k0: int| 0 <= k0 < es.len() && es[k0].0@ == h;
                            assert(k0 == k);
                        }
                    }
                    assert(view_of(es2) =~= before.insert(host@, token@));
                }
            },
            None => {
                entries.push((String::from_str(host), String::from_str(token)));
                proof {
                    let es2 = entries@;
                    let n = es.len() as int;
                    assert forall|h: Seq<char>| #[trigger] view_of(es2).dom().contains(h) == before.insert(
                        host@,
                        token@,
                    ).dom().contains(h) by {
                        if h != host@ {
                            if before.dom().contains(h) {
                                let k = choose|k: int| 0 <= k < es.len() && es[k].0@ == h;
                                assert(es2[k] == es[k]);
                            }
                            if view_of(es2).dom().contains(h) {
                                let k = choose|k: int| 0 <= k < es2.len() && es2[k].0@ == h;
                                assert(k < n);
                                assert(es2[k] == es[k]);
                            }
                        } else {
                            assert(es2[n].0@ == h);
                        }
                    }
                    assert forall|h: Seq<char>| #[trigger] view_of(es2).dom().contains(h) implies view_of(es2)[h]
                        == before.insert(host@, token@)[h] by {
                        let k = choose|k: int| 0 <= k < es2.len() && es2[k].0@ == h;
                        if h == host@ {
                            assert(k == n);
                        } else {
                            assert(k < n);
                            assert(es2[k] == es[k]);
                            let k0 = choose|k0: int| 0 <= k0 < es.len() && es[k0].0@ == h;
                            assert(k0 == k);
                        }
                    }
                    assert(view_of(es2) =~= before.insert(host@, token@));
                }
            },
        }
        self.entries = entries;
    }

    /// The token stored for `host`, if any.
    pub fn lookup(&self, host: &str) -> (r: Option<String>)
        ensures
            match r {
                Some(t) => self.view().dom().contains(host@) && self.view()[host@] == t@,
                None => !self.view().dom().contains(host@),
            },
    {
        proof {
            use_type_invariant(self);
        }
        match self.position(host) {
            Some(i) => {
                proof {
                    let k = choose|k: int|
                        0 <= k < self.entries@.len() && self.entries@[k].0@ == host@;
                    assert(k == i);
                }
                Some(self.entries[i].1.clone())
            },
            None => None,
        }
    }

    /// Removes the token of `host`, if there is one.
    pub fn remove(&mut self, host: &str)
        ensures
            final(self).view() == old(self).view().remove(host@),
    {
        proof {
            use_type_invariant(&*self);
        }
        let ghost before = self.view();
        let pos = self.position(host);
        let mut entries: Vec<(String, String)> = Vec::new();
        std::mem::swap(&mut entries, &mut self.entries);
        let ghost es = entries@;
        match pos {
            Some(i) => {
                entries.remove(i);
                proof {
                    let es2 = entries@;
                    assert(es2 =~= es.remove(i as int));
                    assert forall|h: Seq<char>| #[trigger] view_of(es2).dom().contains(h) == before.remove(
                        host@,
                    ).dom().contains(h) by {
                        if h != host@ {
                            if before.dom().contains(h) {
                                let k = choose|k: int| 0 <= k < es.len() && es[k].0@ == h;
                                if k < i {
                                    assert(es2[k] == es[k]);
                                } else {
                                    assert(es2[k - 1] == es[k]);
                                }
                            }
                        } else {
                            if view_of(es2).dom().contains(h) {
                                let k = choose|k: int| 0 <= k < es2.len() && es2[k].0@ == h;
                                if k < i {
                                    assert(es2[k] == es[k]);
                                } else {
                                    assert(es2[k] == es[k + 1]);
                                }
                            }
                        }
                    }
                    assert forall|h: Seq<char>| #[trigger] view_of(es2).dom().contains(h) implies view_of(es2)[h]
                        == before.remove(host@)[h] by {
                        let k = choose|k: int| 0 <= k < es2.len() && es2[k].0@ == h;
                        let k1 = if k < i {
                            k
                        } else {
                            k + 1
                        };
                        assert(es2[k] == es[k1]);
                        let k0 = choose|k0: int| 0 <= k0 < es.len() && es[k0].0@ == h;
                        assert(k0 == k1);
                    }
                    assert(view_of(es2) =~= before.remove(host@));
                }
            },
            None => {
                assert(view_of(es) =~= before.remove(host@));
            },
        }
        self.entries = entries;
    }
}

impl Default for MemoryStore {
    fn default() -> (s: Self)
        ensures
            s.view() == Map::<Seq<char>, Seq<char>>::empty(),
    {
        MemoryStore::new()
    }
}

impl TokenStore for MemoryStore {
    fn set(&mut self, host: &str, token: &str) -> (r: Result<(), AuthError>)
        ensures
            r is Ok,
            final(self).view() == old(self).view().insert(host@, token@),
    {
        self.put(host, token);
        Ok(())
    }

    fn get(&self, host: &str) -> (r: Result<Option<String>, AuthError>)
        ensures
            match r {
                Ok(Some(t)) => self.view().dom().contains(host@) && self.view()[host@] == t@,
                Ok(None) => !self.view().dom().contains(host@),
                Err(_) => false,
            },
    {
        Ok(self.lookup(host))
    }

    fn delete(&mut self, host: &str) -> (r: Result<(), AuthError>)
        ensures
            r is Ok,
            final(self).view() == old(self).view().remove(host@),
    {
        self.remove(host);
        Ok(())
    }
}

/// The store behaves as a map from host to token: a token read right after
/// it was stored is that token; storing or removing one host's token leaves
/// every other host's as it was; after a removal the host has none, and a
/// second removal changes nothing.
pub proof fn lemma_token_store_laws(
    m: Map<Seq<char>, Seq<char>>,
    host: Seq<char>,
    other: Seq<char>,
    token: Seq<char>,
)
    requires
        host != other,
    ensures
        m.insert(host, token).dom().contains(host),
        m.insert(host, token)[host] == token,
        m.insert(host, token).dom().contains(other) == m.dom().contains(other),
        m.dom().contains(other) ==> m.insert(host, token)[other] == m[other],
        !m.remove(host).dom().contains(host),
        m.remove(host).dom().contains(other) == m.dom().contains(other),
        m.dom().contains(other) ==> m.remove(host)[other] == m[other],
        m.remove(host).remove(host) == m.remove(host),
{
    assert(m.remove(host).remove(host) =~= m.remove(host));
}

} // verus!
