//! The revocation store: the set of token identifiers that were revoked
//! before their natural expiry, each with the expiry recorded so the store
//! can be purged once an entry could no longer matter.  Viewed as a map
//! from token identifier to recorded expiry.

use vstd::prelude::*;
use crate::codec::str_eq;

verus! {

/// How often the recurring sweep fires.
pub const SWEEP_INTERVAL_SECS: u64 = 12 * 60 * 60;

/// One revoked token: its identifier and its recorded expiry.
pub struct DenyEntry {
    pub token: String,
    pub expires_at: i64,
}

/// The deny-list.  Durability and locking are the embedding's concern; the
/// store itself is the verified content.
pub struct JwtDenyList {
    entries: Vec<DenyEntry>,
}

/// The map an entry sequence denotes; later entries would override
/// earlier ones, and the store keeps identifiers unique.
pub open spec fn entries_map(s: Seq<DenyEntry>) -> Map<Seq<char>, int>
    decreases s.len(),
{
    if s.len() == 0 {
        Map::empty()
    } else {
        entries_map(s.drop_last()).insert(s.last().token@, s.last().expires_at as int)
    }
}

impl View for JwtDenyList {
    type V = Map<Seq<char>, int>;

    closed spec fn view(&self) -> Map<Seq<char>, int> {
        entries_map(self.entries@)
    }
}

/// A key is in the map exactly when some entry carries it.
proof fn lemma_entries_map_contains(s: Seq<DenyEntry>, k: Seq<char>)
    ensures
        entries_map(s).contains_key(k) <==> exists|i: int|
            0 <= i < s.len() && #[trigger] s[i].token@ == k,
    decreases s.len(),
{
    if s.len() > 0 {
        lemma_entries_map_contains(s.drop_last(), k);
        if s.last().token@ == k {
            assert(s[s.len() - 1].token@ == k);
        } else if entries_map(s).contains_key(k) {
            let i = choose|i: int| 0 <= i < s.len() - 1 && #[trigger] s.drop_last()[i].token@ == k;
            assert(s[i].token@ == k);
        } else {
            if exists|i: int| 0 <= i < s.len() && #[trigger] s[i].token@ == k {
                let i = choose|i: int| 0 <= i < s.len() && #[trigger] s[i].token@ == k;
                assert(s.drop_last()[i].token@ == k);
            }
        }
    }
}

impl JwtDenyList {
    /// Entries carry pairwise distinct identifiers.
    pub closed spec fn wf(&self) -> bool {
        forall|i: int, j: int|
            0 <= i < j < self.entries@.len() ==> #[trigger] self.entries@[i].token@
                != #[trigger] self.entries@[j].token@
    }

    /// The recorded expiry of the entry at `i` is what the map assigns to
    /// its identifier.
    proof fn lemma_index(s: Seq<DenyEntry>, i: int)
        requires
            0 <= i < s.len(),
            forall|a: int, b: int|
                0 <= a < b < s.len() ==> #[trigger] s[a].token@ != #[trigger] s[b].token@,
        ensures
            entries_map(s).contains_key(s[i].token@),
            entries_map(s)[s[i].token@] == s[i].expires_at as int,
        decreases s.len(),
    {
        if i < s.len() - 1 {
            assert(forall|a: int, b: int|
                0 <= a < b < s.len() - 1 ==> #[trigger] s.drop_last()[a].token@
                    != #[trigger] s.drop_last()[b].token@);
            Self::lemma_index(s.drop_last(), i);
            assert(s[i].token@ != s.last().token@);
        }
    }

    /// A fresh, empty store.
    pub fn new() -> (r: Self)
        ensures
            r@ =~= Map::<Seq<char>, int>::empty(),
            r.wf(),
    {
        JwtDenyList { entries: Vec::new() }
    }

    /// Records `token` as revoked until `expires_at`: an upsert, so a
    /// second revocation of the same token merely refreshes the expiry.
    pub fn add(&mut self, token: &str, expires_at: i64)
        requires
            old(self).wf(),
        ensures
            final(self).wf(),
            final(self)@ == old(self)@.insert(token@, expires_at as int),
    {
        let ghost s0 = self.entries@;
        let n = self.entries.len();
        let mut i: usize = 0;
        while i < n
            invariant
                n == self.entries@.len(),
                0 <= i <= n,
                self.entries@ == s0,
                s0 == old(self).entries@,
                old(self).wf(),
                forall|k: int| 0 <= k < i ==> #[trigger] s0[k].token@ != token@,
            decreases n - i,
        {
            if str_eq(self.entries[i].token.as_str(), token) {
                let e = DenyEntry { token: self.entries[i].token.clone(), expires_at };
                assert(e.token@ == token@);
                self.entries[i] = e;
                proof {
                    self.lemma_update_at(s0, i as int, token@, expires_at as int);
                }
                return;
            }
            i = i + 1;
        }
        let e = DenyEntry { token: token.to_owned(), expires_at };
        self.entries.push(e);
        proof {
            assert(self.entries@.drop_last() =~= s0);
            assert(forall|a: int|
                0 <= a < s0.len() ==> #[trigger] self.entries@[a].token@ == s0[a].token@);
        }
    }

    /// Replacing the entry at `i` by one with the same identifier updates
    /// the map at that identifier.
    proof fn lemma_update_at(&self, s0: Seq<DenyEntry>, i: int, k: Seq<char>, v: int)
        requires
            0 <= i < s0.len(),
            s0[i].token@ == k,
            forall|a: int, b: int|
                0 <= a < b < s0.len() ==> #[trigger] s0[a].token@ != #[trigger] s0[b].token@,
            self.entries@.len() == s0.len(),
            forall|a: int|
                0 <= a < s0.len() && a != i ==> #[trigger] self.entries@[a] == s0[a],
            self.entries@[i].token@ == k,
            self.entries@[i].expires_at as int == v,
        ensures
            self.wf(),
            self@ == entries_map(s0).insert(k, v),
    {
        Self::lemma_seq_update(s0, self.entries@, i, k, v);
    }

    proof fn lemma_seq_update(s0: Seq<DenyEntry>, s1: Seq<DenyEntry>, i: int, k: Seq<char>, v: int)
        requires
            0 <= i < s0.len(),
            s0[i].token@ == k,
            forall|a: int, b: int|
                0 <= a < b < s0.len() ==> #[trigger] s0[a].token@ != #[trigger] s0[b].token@,
            s1.len() == s0.len(),
            forall|a: int| 0 <= a < s0.len() && a != i ==> #[trigger] s1[a] == s0[a],
            s1[i].token@ == k,
            s1[i].expires_at as int == v,
        ensures
            entries_map(s1) == entries_map(s0).insert(k, v),
        decreases s0.len(),
    {
        if i == s0.len() - 1 {
            assert(s1.drop_last() =~= s0.drop_last());
            assert(entries_map(s0).insert(k, v) =~= entries_map(s0.drop_last()).insert(k, v));
        } else {
            assert(forall|a: int, b: int|
                0 <= a < b < s0.len() - 1 ==> #[trigger] s0.drop_last()[a].token@
                    != #[trigger] s0.drop_last()[b].token@);
            assert(forall|a: int|
                0 <= a < s0.len() - 1 && a != i
                    ==> #[trigger] s1.drop_last()[a] == s0.drop_last()[a]);
            assert(s1.drop_last()[i] == s1[i]);
            assert(s0.drop_last()[i] == s0[i]);
            Self::lemma_seq_update(s0.drop_last(), s1.drop_last(), i, k, v);
            assert(s1.last() == s0.last());
            assert(s0.last().token@ != k);
            assert(entries_map(s0.drop_last()).insert(k, v).insert(
                s0.last().token@,
                s0.last().expires_at as int,
            ) =~= entries_map(s0.drop_last()).insert(
                s0.last().token@,
                s0.last().expires_at as int,
            ).insert(k, v));
        }
    }

    /// True exactly when `token` was revoked and its recorded expiry is
    /// still in the future: an entry that has naturally expired no longer
    /// denies anything.
    pub fn is_denied(&self, token: &str, now: i64) -> (r: bool)
        requires
            self.wf(),
        ensures
            r == (self@.contains_key(token@) && self@[token@] > now as int),
    {
        let n = self.entries.len();
        let mut i: usize = 0;
        while i < n
            invariant
                self.wf(),
                n == self.entries@.len(),
                0 <= i <= n,
                forall|k: int| 0 <= k < i ==> #[trigger] self.entries@[k].token@ != token@,
            decreases n - i,
        {
            if str_eq(self.entries[i].token.as_str(), token) {
                proof {
                    Self::lemma_index(self.entries@, i as int);
                }
                return self.entries[i].expires_at > now;
            }
            i = i + 1;
        }
        proof {
            lemma_entries_map_contains(self.entries@, token@);
        }
        false
    }

    /// Deletes exactly the entries whose recorded expiry has passed and
    /// leaves every other entry, and its recorded expiry, untouched.
    pub fn remove_expired_tokens(&mut self, now: i64)
        requires
            old(self).wf(),
        ensures
            final(self).wf(),
            forall|k: Seq<char>|
                final(self)@.contains_key(k) <==> (#[trigger] old(self)@.contains_key(k) && old(
                    self,
                )@[k] > now as int),
            forall|k: Seq<char>|
                final(self)@.contains_key(k) ==> #[trigger] final(self)@[k] == old(self)@[k],
    {
        let ghost s0 = self.entries@;
        let n = self.entries.len();
        let mut kept: Vec<DenyEntry> = Vec::new();
        let mut i: usize = 0;
        while i < n
            invariant
                n == s0.len(),
                self.entries@ == s0,
                s0 == old(self).entries@,
                old(self).wf(),
                0 <= i <= n,
                forall|a: int, b: int|
                    0 <= a < b < kept@.len() ==> #[trigger] kept@[a].token@
                        != #[trigger] kept@[b].token@,
                forall|a: int|
                    0 <= a < kept@.len() ==> exists|x: int|
                        0 <= x < i && #[trigger] kept@[a] == s0[x],
                forall|x: int|
                    0 <= x < i && #[trigger] s0[x].expires_at > now ==> exists|a: int|
                        0 <= a < kept@.len() && #[trigger] kept@[a] == s0[x],
                forall|x: int|
                    0 <= x < i && #[trigger] s0[x].expires_at <= now ==> forall|a: int|
                        0 <= a < kept@.len() ==> #[trigger] kept@[a].token@ != s0[x].token@,
            decreases n - i,
        {
            let e = &self.entries[i];
            if e.expires_at > now {
                let ghost kept0 = kept@;
                let copy = DenyEntry { token: e.token.clone(), expires_at: e.expires_at };
                assert(copy == s0[i as int]);
                kept.push(copy);
                proof {
                    assert(kept@ =~= kept0.push(s0[i as int]));
                    assert forall|a: int, b: int| 0 <= a < b < kept@.len() implies
                        #[trigger] kept@[a].token@ != #[trigger] kept@[b].token@ by {
                        if b == kept@.len() - 1 {
                            let x = choose|x: int|
                                0 <= x < i && #[trigger] kept0[a] == s0[x];
                            assert(s0[x].token@ != s0[i as int].token@);
                        }
                    }
                    assert forall|x: int|
                        0 <= x < i + 1 && #[trigger] s0[x].expires_at > now implies exists|a: int|
                        0 <= a < kept@.len() && #[trigger] kept@[a] == s0[x] by {
                        if x == i {
                            assert(kept@[kept@.len() - 1] == s0[x]);
                        } else {
                            let a = choose|a: int|
                                0 <= a < kept0.len() && #[trigger] kept0[a] == s0[x];
                            assert(kept@[a] == s0[x]);
                        }
                    }
                    assert forall|x: int|
                        0 <= x < i + 1 && #[trigger] s0[x].expires_at <= now implies forall|a: int|
                        0 <= a < kept@.len() ==> #[trigger] kept@[a].token@ != s0[x].token@ by {
                        assert forall|a: int| 0 <= a < kept@.len() implies
                            #[trigger] kept@[a].token@ != s0[x].token@ by {
                            if a == kept@.len() - 1 {
                                assert(s0[x].token@ != s0[i as int].token@);
                            }
                        }
                    }
                }
            }
            i = i + 1;
        }
        self.entries = kept;
        proof {
            let s1 = self.entries@;
            assert forall|k: Seq<char>|
                self@.contains_key(k) <==> (#[trigger] entries_map(s0).contains_key(k)
                    && entries_map(s0)[k] > now as int) by {
                lemma_entries_map_contains(s1, k);
                lemma_entries_map_contains(s0, k);
                if self@.contains_key(k) {
                    let a = choose|a: int| 0 <= a < s1.len() && #[trigger] s1[a].token@ == k;
                    let x = choose|x: int| 0 <= x < s0.len() && #[trigger] s1[a] == s0[x];
                    Self::lemma_index(s1, a);
                    Self::lemma_index(s0, x);
                    assert(s0[x].expires_at > now);
                } else {
                    if entries_map(s0).contains_key(k) {
                        let x = choose|x: int|
                            0 <= x < s0.len() && #[trigger] s0[x].token@ == k;
                        Self::lemma_index(s0, x);
                        if s0[x].expires_at > now {
                            let a = choose|a: int|
                                0 <= a < s1.len() && #[trigger] s1[a] == s0[x];
                            assert(s1[a].token@ == k);
                        }
                    }
                }
            }
            assert forall|k: Seq<char>| self@.contains_key(k) implies #[trigger] self@[k]
                == entries_map(s0)[k] by {
                lemma_entries_map_contains(s1, k);
                let a = choose|a: int| 0 <= a < s1.len() && #[trigger] s1[a].token@ == k;
                let x = choose|x: int| 0 <= x < s0.len() && #[trigger] s1[a] == s0[x];
                Self::lemma_index(s1, a);
                Self::lemma_index(s0, x);
            }
        }
    }
}

/// The recurring sweep over the deny-list.  Each firing purges exactly
/// the entries whose recorded expiry has passed; the schedule itself —
/// the interval timer and the task's lifetime — is the embedding's loop,
/// which calls `on_tick` once per firing.
pub struct JwtDenyListFairing;

impl JwtDenyListFairing {
    pub fn on_tick(&self, deny_list: &mut JwtDenyList, now: i64)
        requires
            old(deny_list).wf(),
        ensures
            final(deny_list).wf(),
            forall|k: Seq<char>|
                final(deny_list)@.contains_key(k) <==> (#[trigger] old(deny_list)@.contains_key(k)
                    && old(deny_list)@[k] > now as int),
            forall|k: Seq<char>|
                final(deny_list)@.contains_key(k) ==> #[trigger] final(deny_list)@[k] == old(
                    deny_list,
                )@[k],
    {
        deny_list.remove_expired_tokens(now);
    }
}

} // verus!
