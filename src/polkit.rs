//! The polkit document: for each identity, the set of actions granted to it.

use vstd::prelude::*;
use vstd::seq_lib::seq_to_set_distributes_over_add;
use crate::dbus::{join, join_path};
use crate::assoc::{copy_strings, find_key, keys_distinct, lemma_pairs_map_at, lemma_pairs_map_dom,
    lemma_pairs_map_push, lemma_pairs_map_remove, lemma_pairs_map_update, pairs_map, texts, contains_text};

verus! {

/// The actions granted to each identity.
#[derive(Debug)]
pub struct PolkitDocument {
    /// Identity and granted actions; identities are distinct.
    pub entries: Vec<(String, Vec<String>)>,
}

/// The document after granting `actions` to `user`: added to what it held.
pub open spec fn polkit_after_grant(
    m: Map<Seq<char>, Set<Seq<char>>>,
    user: Seq<char>,
    actions: Set<Seq<char>>,
) -> Map<Seq<char>, Set<Seq<char>>> {
    m.insert(user, if m.contains_key(user) { m[user] + actions } else { actions })
}

/// Whether `action` is granted to `user` in the document.
pub open spec fn polkit_allows(m: Map<Seq<char>, Set<Seq<char>>>, user: Seq<char>, action: Seq<char>) -> bool {
    m.contains_key(user) && m[user].contains(action)
}

impl View for PolkitDocument {
    type V = Map<Seq<char>, Set<Seq<char>>>;

    open spec fn view(&self) -> Map<Seq<char>, Set<Seq<char>>> {
        pairs_map(self.entries@).map_values(|v: Seq<String>| texts(v).to_set())
    }
}

impl PolkitDocument {
    /// Whether identities are distinct.
    pub open spec fn wf(&self) -> bool {
        keys_distinct(self.entries@)
    }

    /// A document granting nothing.
    pub fn new() -> (r: PolkitDocument)
        ensures
            r.wf(),
            r@ == Map::<Seq<char>, Set<Seq<char>>>::empty(),
    {
        let r = PolkitDocument { entries: Vec::new() };
        assert(r@ =~= Map::<Seq<char>, Set<Seq<char>>>::empty());
        r
    }

    /// Grants `actions` to `user`, in addition to what it held.
    pub fn grant(&mut self, user: &str, actions: &Vec<String>)
        requires
            old(self).wf(),
        ensures
            final(self).wf(),
            final(self)@ == polkit_after_grant(old(self)@, user@, texts(actions@).to_set()),
    {
        let ghost before = pairs_map(self.entries@);
        let mut key = String::new();
        key.append(user);
        match find_key(&self.entries, user) {
            Some(i) => {
                let mut merged = copy_strings(&self.entries[i].1);
                let mut added = copy_strings(actions);
                let ghost m0 = merged@;
                let ghost a0 = added@;
                merged.append(&mut added);
                proof {
                    lemma_pairs_map_at(self.entries@, i as int);
                    lemma_pairs_map_update(self.entries@, i as int, (key, merged));
                    assert(texts(merged@) =~= texts(m0) + texts(a0));
                    seq_to_set_distributes_over_add(texts(m0), texts(a0));
                }
                self.entries.set(i, (key, merged));
            },
            None => {
                let added = copy_strings(actions);
                proof {
                    lemma_pairs_map_dom(self.entries@, user@);
                    lemma_pairs_map_push(self.entries@, (key, added));
                }
                self.entries.push((key, added));
            },
        }
        proof {
            assert(self@ =~= polkit_after_grant(old(self)@, user@, texts(actions@).to_set()));
        }
    }

    /// Removes every grant of `user`.
    pub fn revoke(&mut self, user: &str)
        requires
            old(self).wf(),
        ensures
            final(self).wf(),
            final(self)@ == old(self)@.remove(user@),
    {
        match find_key(&self.entries, user) {
            Some(i) => {
                proof {
                    lemma_pairs_map_remove(self.entries@, i as int);
                }
                self.entries.remove(i);
                proof {
                    assert(self@ =~= old(self)@.remove(user@));
                }
            },
            None => {
                proof {
                    lemma_pairs_map_dom(self.entries@, user@);
                    assert(self@ =~= old(self)@.remove(user@));
                }
            },
        }
    }

    /// Whether `action` is granted to `user`; an identity never granted holds nothing.
    pub fn query(&self, user: &str, action: &str) -> (r: bool)
        requires
            self.wf(),
        ensures
            r == polkit_allows(self@, user@, action@),
    {
        match find_key(&self.entries, user) {
            Some(i) => {
                proof {
                    lemma_pairs_map_at(self.entries@, i as int);
                }
                contains_text(&self.entries[i].1, action)
            },
            None => {
                proof {
                    lemma_pairs_map_dom(self.entries@, user@);
                }
                false
            },
        }
    }
}

/// Locations of the polkit rules.
#[derive(Debug)]
pub struct PolkitPolicyWorker {
    /// Path of the rules folder.
    pub rules_folder: String,
}

/// Why an action is not allowed.
#[derive(Clone, Copy, Debug, PartialEq, Eq, Structural)]
pub enum PolkitError {
    PermissionDenied,
}

impl PolkitPolicyWorker {
    /// The locations under the polkit data directory `datadir`.
    pub fn new(datadir: &str) -> (r: PolkitPolicyWorker)
        ensures
            r.rules_folder@ == join_path(datadir@, "rules.d"@),
    {
        PolkitPolicyWorker { rules_folder: join(datadir, "rules.d") }
    }

    /// Path of the document of grants.
    pub fn get_policy_file_path(&self) -> (r: String)
        ensures
            r@ == join_path(self.rules_folder@, "rootasrole.json"@),
    {
        join(self.rules_folder.as_str(), "rootasrole.json")
    }

    /// Path of the authorization rule script that consults the document.
    pub fn get_rule_script_path(&self) -> (r: String)
        ensures
            r@ == join_path(self.rules_folder@, "rootasrole.js"@),
    {
        join(self.rules_folder.as_str(), "rootasrole.js")
    }

    /// Whether the document, if there is one, grants `action` to `user`.
    pub fn check_policy(&self, doc: Option<&PolkitDocument>, user: &str, action: &str) -> (r: bool)
        requires
            doc is Some ==> doc->Some_0.wf(),
        ensures
            r == (doc is Some && polkit_allows(doc->Some_0@, user@, action@)),
    {
        match doc {
            Some(d) => d.query(user, action),
            None => false,
        }
    }
}

/// Succeeds exactly when the document, if there is one, grants `action` to `user`.
pub fn check_polkit(doc: Option<&PolkitDocument>, user: &str, action: &str) -> (r: Result<(), PolkitError>)
    requires
        doc is Some ==> doc->Some_0.wf(),
    ensures
        r is Ok <==> (doc is Some && polkit_allows(doc->Some_0@, user@, action@)),
        r is Err ==> r == Err::<(), PolkitError>(PolkitError::PermissionDenied),
{
    let worker = PolkitPolicyWorker { rules_folder: String::new() };
    if worker.check_policy(doc, user, action) {
        Ok(())
    } else {
        Err(PolkitError::PermissionDenied)
    }
}

/// A grant to an identity the document does not hold, followed by its revocation,
/// restores the document.
pub proof fn lemma_polkit_round_trip(doc: PolkitDocument, user: Seq<char>, actions: Set<Seq<char>>)
    requires
        doc.wf(),
        !doc@.contains_key(user),
    ensures
        polkit_after_grant(doc@, user, actions).remove(user) == doc@,
{
    assert(polkit_after_grant(doc@, user, actions).remove(user) =~= doc@);
}

/// An action granted to an identity is allowed; once the identity is revoked it is not;
/// an identity the document does not hold is allowed nothing.
pub proof fn lemma_polkit_query(doc: PolkitDocument, user: Seq<char>, action: Seq<char>)
    requires
        doc.wf(),
    ensures
        polkit_allows(polkit_after_grant(doc@, user, set![action]), user, action),
        !polkit_allows(polkit_after_grant(doc@, user, set![action]).remove(user), user, action),
        !doc@.contains_key(user) ==> !polkit_allows(doc@, user, action),
{
    let g = polkit_after_grant(doc@, user, set![action]);
    assert(set![action].contains(action));
    if doc@.contains_key(user) {
        assert(g[user] == doc@[user] + set![action]);
    }
}

} // verus!
