//! The OAuth token store (`oauth.json`): one record per server id, with the
//! lookups and edits the login and refresh flows make, and the rule that
//! decides whether a stored access token may still be used.
use vstd::prelude::*;

use crate::config::{copy_opt_string, strs, first_match, lemma_first_match, lemma_first_match_props, opt_str};
use crate::text::{owned, str_eq};

verus! {

/// What is stored for one server after a successful login.
#[derive(Debug, Clone)]
pub struct OAuthRecord {
    pub resource: String,
    pub authorization_endpoint: String,
    pub token_endpoint: String,
    pub registration_endpoint: Option<String>,
    pub client_id: String,
    pub client_secret: Option<String>,
    pub scope: Option<String>,
    pub access_token: String,
    pub refresh_token: Option<String>,
    /// Unix seconds when the access token expires (if known).
    pub expires_at: Option<u64>,
}

/// The value of an [`OAuthRecord`].
pub struct OAuthRecordV {
    pub resource: Seq<char>,
    pub authorization_endpoint: Seq<char>,
    pub token_endpoint: Seq<char>,
    pub registration_endpoint: Option<Seq<char>>,
    pub client_id: Seq<char>,
    pub client_secret: Option<Seq<char>>,
    pub scope: Option<Seq<char>>,
    pub access_token: Seq<char>,
    pub refresh_token: Option<Seq<char>>,
    pub expires_at: Option<u64>,
}

impl View for OAuthRecord {
    type V = OAuthRecordV;

    open spec fn view(&self) -> OAuthRecordV {
        OAuthRecordV {
            resource: self.resource@,
            authorization_endpoint: self.authorization_endpoint@,
            token_endpoint: self.token_endpoint@,
            registration_endpoint: opt_str(self.registration_endpoint),
            client_id: self.client_id@,
            client_secret: opt_str(self.client_secret),
            scope: opt_str(self.scope),
            access_token: self.access_token@,
            refresh_token: opt_str(self.refresh_token),
            expires_at: self.expires_at,
        }
    }
}

impl OAuthRecord {
    /// A field-by-field copy.
    pub fn duplicate(&self) -> (r: OAuthRecord)
        ensures
            r@ == self@,
    {
        OAuthRecord {
            resource: self.resource.clone(),
            authorization_endpoint: self.authorization_endpoint.clone(),
            token_endpoint: self.token_endpoint.clone(),
            registration_endpoint: copy_opt_string(&self.registration_endpoint),
            client_id: self.client_id.clone(),
            client_secret: copy_opt_string(&self.client_secret),
            scope: copy_opt_string(&self.scope),
            access_token: self.access_token.clone(),
            refresh_token: copy_opt_string(&self.refresh_token),
            expires_at: self.expires_at,
        }
    }
}

/// The token store: records keyed by server id, each id at most once.
pub struct OAuthStore {
    pub entries: Vec<(String, OAuthRecord)>,
}

impl OAuthStore {
    /// The server ids, in storage order.
    pub open spec fn ids(&self) -> Seq<Seq<char>> {
        Seq::new(self.entries@.len(), |i: int| self.entries@[i].0@)
    }

    /// No server id occurs twice.
    pub open spec fn wf(&self) -> bool {
        forall|i: int, j: int| 0 <= i < j < self.entries@.len() ==> self.ids()[i] != self.ids()[j]
    }

    /// The record stored for a server.
    pub open spec fn lookup(&self, id: Seq<char>) -> Option<OAuthRecordV> {
        match first_match(self.ids(), id) {
            Some(i) => Some(self.entries@[i].1@),
            None => None,
        }
    }

    /// An empty store.
    pub fn new() -> (r: OAuthStore)
        ensures
            r.wf(),
            r.ids() == Seq::<Seq<char>>::empty(),
            forall|id: Seq<char>| r.lookup(id) is None,
    {
        let r = OAuthStore { entries: Vec::new() };
        assert(r.ids() =~= Seq::<Seq<char>>::empty());
        proof {
            assert forall|id: Seq<char>| r.lookup(id) is None by {
                lemma_first_match_props(r.ids(), id);
            }
        }
        r
    }

    fn position(&self, id: &str) -> (r: Option<usize>)
        ensures
            match r {
                Some(i) => first_match(self.ids(), id@) == Some(i as int) && i < self.entries@.len(),
                None => first_match(self.ids(), id@) is None,
            },
    {
        let ghost keys = self.ids();
        let mut i: usize = 0;
        while i < self.entries.len()
            invariant
                keys == self.ids(),
                i <= self.entries@.len(),
                forall|j: int| 0 <= j < i ==> keys[j] != id@,
            decreases self.entries@.len() - i,
        {
            if str_eq(self.entries[i].0.as_str(), id) {
                proof {
                    lemma_first_match(keys, id@, i as int);
                }
                return Some(i);
            }
            i = i + 1;
        }
        proof {
            lemma_first_match_props(keys, id@);
        }
        None
    }

    /// The record stored for a server, if any.
    pub fn get(&self, id: &str) -> (r: Option<&OAuthRecord>)
        ensures
            match r {
                Some(rec) => self.lookup(id@) == Some(rec@),
                None => self.lookup(id@) is None,
            },
    {
        match self.position(id) {
            Some(i) => Some(&self.entries[i].1),
            None => None,
        }
    }

    /// Store `rec` for `id`, replacing what was stored for it.
    pub fn insert(&mut self, id: String, rec: OAuthRecord)
        requires
            old(self).wf(),
        ensures
            final(self).wf(),
            final(self).lookup(id@) == Some(rec@),
            forall|other: Seq<char>| other != id@ ==> #[trigger] final(self).lookup(other) == old(self).lookup(other),
            final(self).ids().to_set() == old(self).ids().to_set().insert(id@),
    {
        let ghost old_ids = self.ids();
        let ghost kv = id@;
        let ghost rv = rec@;
        match self.position(id.as_str()) {
            Some(i) => {
                proof {
                    lemma_first_match_props(old_ids, kv);
                }
                self.entries.set(i, (id, rec));
                assert(self.ids() =~= old_ids);
                proof {
                    assert forall|other: Seq<char>| other != kv implies #[trigger] self.lookup(other) == old(self).lookup(other) by {
                        lemma_first_match_props(old_ids, other);
                    }
                    assert(old_ids.contains(kv));
                    assert(self.ids().to_set() =~= old_ids.to_set().insert(kv));
                }
            },
            None => {
                self.entries.push((id, rec));
                assert(self.ids() =~= old_ids.push(kv));
                proof {
                    lemma_first_match_props(old_ids, kv);
                    lemma_first_match(self.ids(), kv, old_ids.len() as int);
                    assert forall|other: Seq<char>| other != kv implies #[trigger] self.lookup(other) == old(self).lookup(other) by {
                        lemma_first_match_props(old_ids, other);
                        lemma_first_match_props(self.ids(), other);
                        match first_match(old_ids, other) {
                            Some(k) => {
                                lemma_first_match(self.ids(), other, k);
                            },
                            None => {},
                        }
                    }
                    assert forall|x: Seq<char>| self.ids().to_set().contains(x) == old_ids.to_set().insert(kv).contains(x) by {
                        if self.ids().contains(x) {
                            let k = choose|k: int| 0 <= k < self.ids().len() && self.ids()[k] == x;
                            if k < old_ids.len() {
                                assert(old_ids[k] == x);
                            }
                        }
                        if old_ids.contains(x) {
                            let k = choose|k: int| 0 <= k < old_ids.len() && old_ids[k] == x;
                            assert(self.ids()[k] == x);
                        }
                        assert(self.ids()[old_ids.len() as int] == kv);
                    }
                    assert(self.ids().to_set() =~= old_ids.to_set().insert(kv));
                }
            },
        }
    }

    /// Drop the record of `id`; whether there was one.
    pub fn remove(&mut self, id: &str) -> (r: bool)
        requires
            old(self).wf(),
        ensures
            r == (old(self).lookup(id@) is Some),
            final(self).wf(),
            final(self).lookup(id@) is None,
            forall|other: Seq<char>| other != id@ ==> #[trigger] final(self).lookup(other) == old(self).lookup(other),
            final(self).ids().to_set() == old(self).ids().to_set().remove(id@),
    {
        let ghost old_ids = self.ids();
        proof {
            lemma_first_match_props(old_ids, id@);
        }
        match self.position(id) {
            Some(i) => {
                let ghost before = self.entries@;
                self.entries.remove(i);
                assert(self.ids() =~= old_ids.remove(i as int));
                proof {
                    let n = self.ids();
                    assert forall|a: int, b: int| 0 <= a < b < n.len() implies n[a] != n[b] by {
                        let a2 = if a < i { a } else { a + 1 };
                        let b2 = if b < i { b } else { b + 1 };
                        assert(n[a] == old_ids[a2] && n[b] == old_ids[b2]);
                    }
                    assert(!n.contains(id@)) by {
                        if n.contains(id@) {
                            let k = choose|k: int| 0 <= k < n.len() && n[k] == id@;
                            let k2 = if k < i { k } else { k + 1 };
                            assert(old_ids[k2] == id@ && old_ids[i as int] == id@);
                        }
                    }
                    lemma_first_match_props(n, id@);
                    assert forall|other: Seq<char>| other != id@ implies #[trigger] self.lookup(other) == old(self).lookup(other) by {
                        lemma_first_match_props(old_ids, other);
                        lemma_first_match_props(n, other);
                        match first_match(old_ids, other) {
                            Some(k) => {
                                if k < i {
                                    lemma_first_match(n, other, k);
                                } else {
                                    assert(k != i as int);
                                    assert(n[k - 1] == old_ids[k]);
                                    assert forall|j: int| 0 <= j < k - 1 implies n[j] != other by {
                                        if j < i {
                                            assert(n[j] == old_ids[j]);
                                        } else {
                                            assert(n[j] == old_ids[j + 1]);
                                        }
                                    }
                                    lemma_first_match(n, other, k - 1);
                                    assert(self.entries@[k - 1] == before[k]);
                                }
                            },
                            None => {
                                if n.contains(other) {
                                    let k = choose|k: int| 0 <= k < n.len() && n[k] == other;
                                    let k2 = if k < i { k } else { k + 1 };
                                    assert(old_ids[k2] == other);
                                }
                            },
                        }
                    }
                    assert forall|x: Seq<char>| n.to_set().contains(x) == old_ids.to_set().remove(id@).contains(x) by {
                        if n.contains(x) {
                            let k = choose|k: int| 0 <= k < n.len() && n[k] == x;
                            let k2 = if k < i { k } else { k + 1 };
                            assert(old_ids[k2] == x);
                        }
                        if old_ids.contains(x) && x != id@ {
                            let k = choose|k: int| 0 <= k < old_ids.len() && old_ids[k] == x;
                            assert(k != i as int);
                            if k < i {
                                assert(n[k] == x);
                            } else {
                                assert(n[k - 1] == x);
                            }
                        }
                    }
                    assert(n.to_set() =~= old_ids.to_set().remove(id@));
                }
                true
            },
            None => {
                assert(old_ids.to_set() =~= old_ids.to_set().remove(id@));
                false
            },
        }
    }
}

/// The server ids that currently have stored tokens.
pub fn record_ids(store: &OAuthStore) -> (r: Vec<String>)
    ensures
        strs(r@) == store.ids(),
{
    let mut out: Vec<String> = Vec::new();
    let mut i: usize = 0;
    while i < store.entries.len()
        invariant
            i <= store.entries@.len(),
            out@.len() == i,
            strs(out@) == store.ids().take(i as int),
        decreases store.entries@.len() - i,
    {
        let ghost prev = out@;
        let id = owned(store.entries[i].0.as_str());
        assert(id@ == store.ids()[i as int]);
        out.push(id);
        assert forall|k: int| 0 <= k <= i implies #[trigger] strs(out@)[k] == store.ids()[k] by {
            if k < i {
                assert(out@[k] == prev[k]);
                assert(strs(prev)[k] == store.ids().take(i as int)[k]);
            }
        }
        assert(strs(out@) =~= store.ids().take(i + 1));
        i = i + 1;
    }
    assert(store.ids().take(i as int) =~= store.ids());
    out
}

/// Forget a server's tokens (on logout or when the server is deleted);
/// whether anything was removed, so that the store needs saving.
pub fn forget(store: &mut OAuthStore, server_id: &str) -> (r: bool)
    requires
        old(store).wf(),
    ensures
        r == (old(store).lookup(server_id@) is Some),
        final(store).wf(),
        final(store).lookup(server_id@) is None,
        forall|other: Seq<char>| other != server_id@ ==> #[trigger] final(store).lookup(other) == old(store).lookup(other),
        final(store).ids().to_set() == old(store).ids().to_set().remove(server_id@),
{
    store.remove(server_id)
}

/// Seconds since the Unix epoch, if the clock is after it
/// (`SystemTime::now().duration_since(UNIX_EPOCH)`, whole seconds). The value
/// depends on the clock; nothing is promised of it.
#[verifier::external_body]
fn clock_secs() -> (r: Option<u64>) {
    std::time::SystemTime::now().duration_since(std::time::UNIX_EPOCH).ok().map(|d| d.as_secs())
}

/// The seconds of a clock reading; a clock that reads before the epoch
/// counts as 0.
pub fn secs_or_zero(reading: Option<u64>) -> (r: u64)
    ensures
        r == match reading {
            Some(s) => s,
            None => 0,
        },
{
    match reading {
        Some(s) => s,
        None => 0,
    }
}

/// The current Unix time in seconds, 0 when the clock reads before the epoch.
/// The reading depends on the clock, so nothing is promised of the value;
/// what is made of each reading is `secs_or_zero`.
pub fn now_secs() -> u64 {
    secs_or_zero(clock_secs())
}

/// A stored access token is used while it has more than a minute left; one
/// without a known expiry is always used.
pub open spec fn token_still_valid(expires_at: Option<u64>, now: u64) -> bool {
    match expires_at {
        Some(exp) => exp > now + 60,
        None => true,
    }
}

pub fn still_valid(expires_at: Option<u64>, now: u64) -> (r: bool)
    ensures
        r == token_still_valid(expires_at, now),
{
    match expires_at {
        Some(exp) => exp > 60 && exp - 60 > now,
        None => true,
    }
}

} // verus!
