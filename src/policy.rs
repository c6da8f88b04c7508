//! The policy record that discovery produces, and its merge.

use vstd::prelude::*;
use vstd::seq_lib::{lemma_multiset_commutative, seq_to_set_distributes_over_add};
use crate::access::{bits_text, Access};
use crate::caps::{names_bits, Caps};
use crate::assoc::{
    copy_string, find_key, keys_distinct, lemma_pairs_map_at, lemma_pairs_map_dom,
    lemma_pairs_map_push, lemma_pairs_map_update, pairs_map, str_eq, strings_eq, texts,
};

verus! {

/// Whether authentication is required when the resulting role runs.
#[derive(Clone, Copy, Debug, PartialEq, Eq, Structural)]
pub enum Authentication {
    Skip,
    Perform,
}

/// The privileges a task needs.
#[derive(Debug)]
pub struct Policy {
    /// User id the task runs as, when resolved.
    pub setuid: Option<u32>,
    /// Group ids the task runs as, when resolved.
    pub setgid: Option<Vec<u32>>,
    /// Names of the required Linux capabilities.
    pub capabilities: Vec<String>,
    /// Minimum access per path; keys are distinct.
    pub files: Vec<(String, Access)>,
    /// D-Bus destinations the task must reach.
    pub dbus: Vec<String>,
    /// Environment variables kept when the policy is enforced; keys are distinct.
    pub env_vars: Vec<(String, String)>,
    /// Whether authentication is required.
    pub password_prompt: Authentication,
}

/// The mathematical content of a policy.
pub struct PolicyModel {
    pub setuid: Option<u32>,
    pub setgid: Option<Seq<u32>>,
    pub capabilities: Seq<Seq<char>>,
    pub files: Map<Seq<char>, u8>,
    pub dbus: Seq<Seq<char>>,
    pub env_vars: Map<Seq<char>, Seq<char>>,
    pub password_prompt: Authentication,
}

impl View for Policy {
    type V = PolicyModel;

    open spec fn view(&self) -> PolicyModel {
        PolicyModel {
            setuid: self.setuid,
            setgid: match self.setgid {
                Some(g) => Some(g@),
                None => None,
            },
            capabilities: texts(self.capabilities@),
            files: pairs_map(self.files@),
            dbus: texts(self.dbus@),
            env_vars: pairs_map(self.env_vars@),
            password_prompt: self.password_prompt,
        }
    }
}

/// The policy that grants nothing and asks for authentication.
pub open spec fn empty_model() -> PolicyModel {
    PolicyModel {
        setuid: None,
        setgid: None,
        capabilities: Seq::empty(),
        files: Map::empty(),
        dbus: Seq::empty(),
        env_vars: Map::empty(),
        password_prompt: Authentication::Perform,
    }
}

/// Per-path join: the union of the paths, with the access bits of a path present in
/// both or-ed together.
pub open spec fn join_files(a: Map<Seq<char>, u8>, b: Map<Seq<char>, u8>) -> Map<Seq<char>, u8> {
    Map::new(
        |k: Seq<char>| a.contains_key(k) || b.contains_key(k),
        |k: Seq<char>|
            if a.contains_key(k) && b.contains_key(k) {
                a[k] | b[k]
            } else if a.contains_key(k) {
                a[k]
            } else {
                b[k]
            },
    )
}

/// The merge of two policies: capabilities and destinations concatenated, files joined
/// per path, environment of the right operand winning, identity fields and the
/// authentication requirement taken from the left operand where it has them.
pub open spec fn merge_models(a: PolicyModel, b: PolicyModel) -> PolicyModel {
    PolicyModel {
        setuid: if a.setuid is Some { a.setuid } else { b.setuid },
        setgid: if a.setgid is Some { a.setgid } else { b.setgid },
        capabilities: a.capabilities + b.capabilities,
        files: join_files(a.files, b.files),
        dbus: a.dbus + b.dbus,
        env_vars: a.env_vars.union_prefer_right(b.env_vars),
        password_prompt: a.password_prompt,
    }
}

/// The in-place merge: capabilities, files and destinations of `b` added to `a`,
/// identity fields taken from `a` where it has them, else from `b`, and the
/// environment and authentication requirement of `a` kept.
pub open spec fn merge_into_model(a: PolicyModel, b: PolicyModel) -> PolicyModel {
    PolicyModel {
        setuid: if a.setuid is Some { a.setuid } else { b.setuid },
        setgid: if a.setgid is Some { a.setgid } else { b.setgid },
        capabilities: a.capabilities + b.capabilities,
        files: join_files(a.files, b.files),
        dbus: a.dbus + b.dbus,
        ..a
    }
}

/// Whether two policies require the same: equal but for the identity they were
/// stamped with.
pub open spec fn same_requirements(a: PolicyModel, b: PolicyModel) -> bool {
    (PolicyModel { setuid: None, setgid: None, ..a }) == (PolicyModel { setuid: None, setgid: None, ..b })
}

/// Whether the fields that merge takes from one side only agree on both sides.
pub open spec fn compatible(a: PolicyModel, b: PolicyModel) -> bool {
    &&& (a.setuid is Some && b.setuid is Some ==> a.setuid == b.setuid)
    &&& (a.setgid is Some && b.setgid is Some ==> a.setgid == b.setgid)
    &&& (forall|k: Seq<char>|
        a.env_vars.contains_key(k) && b.env_vars.contains_key(k) ==> a.env_vars[k] == b.env_vars[k])
    &&& a.password_prompt == b.password_prompt
}

/// Equality up to the order of capabilities (taken as a set) and of destinations
/// (taken as a multiset).
pub open spec fn equivalent(a: PolicyModel, b: PolicyModel) -> bool {
    &&& a.setuid == b.setuid
    &&& a.setgid == b.setgid
    &&& a.capabilities.to_set() == b.capabilities.to_set()
    &&& a.files == b.files
    &&& a.dbus.to_multiset() == b.dbus.to_multiset()
    &&& a.env_vars == b.env_vars
    &&& a.password_prompt == b.password_prompt
}

proof fn lemma_mutual_submap<K, V>(a: Map<K, V>, b: Map<K, V>)
    requires
        a.submap_of(b),
        b.submap_of(a),
    ensures
        a == b,
{
    assert forall|k: K| #[trigger] a.contains_key(k) implies b.contains_key(k) && a[k] == b[k] by {
        assert(a.submap_of(b));
    }
    assert forall|k: K| #[trigger] b.contains_key(k) implies a.contains_key(k) by {
        assert(b.submap_of(a));
    }
    assert(a =~= b);
}

proof fn lemma_texts_concat(a: Seq<String>, b: Seq<String>)
    ensures
        texts(a + b) == texts(a) + texts(b),
{
    assert(texts(a + b) =~= texts(a) + texts(b));
}

proof fn lemma_pairs_map_prefix<V: View>(s: Seq<(String, V)>, j: int)
    requires
        0 <= j < s.len(),
    ensures
        pairs_map(s.subrange(0, j + 1)) == pairs_map(s.subrange(0, j)).insert(s[j].0@, s[j].1@),
{
    assert(s.subrange(0, j + 1).drop_last() =~= s.subrange(0, j));
}

proof fn lemma_distinct_prefix<V>(s: Seq<(String, V)>, j: int)
    requires
        keys_distinct(s),
        0 <= j <= s.len(),
    ensures
        keys_distinct(s.subrange(0, j)),
{
    let t = s.subrange(0, j);
    assert forall|a: int, b: int|
        0 <= a < t.len() && 0 <= b < t.len() && a != b implies (#[trigger] t[a].0)@ != (#[trigger] t[b].0)@ by {
        assert(t[a] == s[a] && t[b] == s[b]);
    }
}

proof fn lemma_next_key_new<V: View>(s: Seq<(String, V)>, j: int)
    requires
        keys_distinct(s),
        0 <= j < s.len(),
    ensures
        !pairs_map(s.subrange(0, j)).contains_key(s[j].0@),
{
    let t = s.subrange(0, j);
    lemma_pairs_map_dom(t, s[j].0@);
    if pairs_map(t).contains_key(s[j].0@) {
        let i = choose|i: int| 0 <= i < t.len() && (#[trigger] t[i].0)@ == s[j].0@;
        assert(t[i] == s[i]);
    }
}

/// Adds each file of `other` to `files`, or-ing the access of a path already present.
fn join_file_pairs(files: &mut Vec<(String, Access)>, other: &Vec<(String, Access)>)
    requires
        keys_distinct(old(files)@),
        keys_distinct(other@),
        forall|i: int| 0 <= i < old(files)@.len() ==> (#[trigger] old(files)@[i]).1.wf(),
        forall|i: int| 0 <= i < other@.len() ==> (#[trigger] other@[i]).1.wf(),
    ensures
        keys_distinct(final(files)@),
        forall|i: int| 0 <= i < final(files)@.len() ==> (#[trigger] final(files)@[i]).1.wf(),
        pairs_map(final(files)@) == join_files(pairs_map(old(files)@), pairs_map(other@)),
{
    let ghost a = pairs_map(files@);
    let mut j: usize = 0;
    proof {
        assert(pairs_map(other@.subrange(0, 0)) =~= Map::empty());
        assert(pairs_map(files@) =~= join_files(a, Map::empty()));
    }
    while j < other.len()
        invariant
            j <= other@.len(),
            keys_distinct(other@),
            forall|i: int| 0 <= i < other@.len() ==> (#[trigger] other@[i]).1.wf(),
            keys_distinct(files@),
            forall|i: int| 0 <= i < files@.len() ==> (#[trigger] files@[i]).1.wf(),
            pairs_map(files@) == join_files(a, pairs_map(other@.subrange(0, j as int))),
        decreases other@.len() - j,
    {
        let ghost b = pairs_map(other@.subrange(0, j as int));
        let key = copy_string(&other[j].0);
        let acc = other[j].1;
        proof {
            lemma_pairs_map_prefix(other@, j as int);
            lemma_next_key_new(other@, j as int);
        }
        match find_key(files, key.as_str()) {
            Some(i) => {
                let merged = files[i].1.union(acc);
                proof {
                    lemma_pairs_map_at(files@, i as int);
                    lemma_pairs_map_update(files@, i as int, (key, merged));
                }
                files.set(i, (key, merged));
                proof {
                    assert(pairs_map(files@) =~= join_files(a, b.insert(other@[j as int].0@, acc.bits)));
                }
            },
            None => {
                proof {
                    lemma_pairs_map_dom(files@, key@);
                    lemma_pairs_map_push(files@, (key, acc));
                }
                files.push((key, acc));
                proof {
                    assert(pairs_map(files@) =~= join_files(a, b.insert(other@[j as int].0@, acc.bits)));
                }
            },
        }
        j = j + 1;
    }
    proof {
        assert(other@.subrange(0, other@.len() as int) =~= other@);
    }
}

/// Sets each variable of `other` in `vars`, replacing the value of a name already present.
fn override_pairs(vars: &mut Vec<(String, String)>, other: &Vec<(String, String)>)
    requires
        keys_distinct(old(vars)@),
        keys_distinct(other@),
    ensures
        keys_distinct(final(vars)@),
        pairs_map(final(vars)@) == pairs_map(old(vars)@).union_prefer_right(pairs_map(other@)),
{
    let ghost a = pairs_map(vars@);
    let mut j: usize = 0;
    proof {
        assert(pairs_map(other@.subrange(0, 0)) =~= Map::empty());
        assert(pairs_map(vars@) =~= a.union_prefer_right(Map::empty()));
    }
    while j < other.len()
        invariant
            j <= other@.len(),
            keys_distinct(other@),
            keys_distinct(vars@),
            pairs_map(vars@) == a.union_prefer_right(pairs_map(other@.subrange(0, j as int))),
        decreases other@.len() - j,
    {
        let ghost b = pairs_map(other@.subrange(0, j as int));
        let key = copy_string(&other[j].0);
        let value = copy_string(&other[j].1);
        proof {
            lemma_pairs_map_prefix(other@, j as int);
        }
        match find_key(vars, key.as_str()) {
            Some(i) => {
                proof {
                    lemma_pairs_map_update(vars@, i as int, (key, value));
                }
                vars.set(i, (key, value));
            },
            None => {
                proof {
                    lemma_pairs_map_dom(vars@, key@);
                    lemma_pairs_map_push(vars@, (key, value));
                }
                vars.push((key, value));
            },
        }
        proof {
            assert(pairs_map(vars@) =~= a.union_prefer_right(b.insert(other@[j as int].0@, other@[j as int].1@)));
        }
        j = j + 1;
    }
    proof {
        assert(other@.subrange(0, other@.len() as int) =~= other@);
    }
}

/// Whether every file of `a` is in `b` with the same access.
fn files_within(a: &Vec<(String, Access)>, b: &Vec<(String, Access)>) -> (r: bool)
    requires
        keys_distinct(a@),
        keys_distinct(b@),
    ensures
        r == pairs_map(a@).submap_of(pairs_map(b@)),
{
    let mut i: usize = 0;
    while i < a.len()
        invariant
            i <= a@.len(),
            keys_distinct(a@),
            keys_distinct(b@),
            forall|j: int|
                0 <= j < i ==> pairs_map(b@).contains_key((#[trigger] a@[j]).0@)
                    && pairs_map(b@)[a@[j].0@] == a@[j].1.bits,
        decreases a@.len() - i,
    {
        proof {
            lemma_pairs_map_at(a@, i as int);
        }
        match find_key(b, a[i].0.as_str()) {
            Some(k) => {
                proof {
                    lemma_pairs_map_at(b@, k as int);
                }
                if b[k].1.bits != a[i].1.bits {
                    return false;
                }
            },
            None => {
                proof {
                    lemma_pairs_map_dom(b@, a@[i as int].0@);
                }
                return false;
            },
        }
        i = i + 1;
    }
    proof {
        assert forall|k: Seq<char>| #[trigger] pairs_map(a@).contains_key(k) implies pairs_map(b@).contains_key(k)
            && pairs_map(b@)[k] == pairs_map(a@)[k] by {
            lemma_pairs_map_dom(a@, k);
            let j = choose|j: int| 0 <= j < a@.len() && (#[trigger] a@[j].0)@ == k;
            lemma_pairs_map_at(a@, j);
        }
    }
    true
}

/// Whether every variable of `a` is in `b` with the same value.
fn vars_within(a: &Vec<(String, String)>, b: &Vec<(String, String)>) -> (r: bool)
    requires
        keys_distinct(a@),
        keys_distinct(b@),
    ensures
        r == pairs_map(a@).submap_of(pairs_map(b@)),
{
    let mut i: usize = 0;
    while i < a.len()
        invariant
            i <= a@.len(),
            keys_distinct(a@),
            keys_distinct(b@),
            forall|j: int|
                0 <= j < i ==> pairs_map(b@).contains_key((#[trigger] a@[j]).0@)
                    && pairs_map(b@)[a@[j].0@] == a@[j].1@,
        decreases a@.len() - i,
    {
        proof {
            lemma_pairs_map_at(a@, i as int);
        }
        match find_key(b, a[i].0.as_str()) {
            Some(k) => {
                proof {
                    lemma_pairs_map_at(b@, k as int);
                }
                if !str_eq(b[k].1.as_str(), a[i].1.as_str()) {
                    return false;
                }
            },
            None => {
                proof {
                    lemma_pairs_map_dom(b@, a@[i as int].0@);
                }
                return false;
            },
        }
        i = i + 1;
    }
    proof {
        assert forall|k: Seq<char>| #[trigger] pairs_map(a@).contains_key(k) implies pairs_map(b@).contains_key(k)
            && pairs_map(b@)[k] == pairs_map(a@)[k] by {
            lemma_pairs_map_dom(a@, k);
            let j = choose|j: int| 0 <= j < a@.len() && (#[trigger] a@[j].0)@ == k;
            lemma_pairs_map_at(a@, j);
        }
    }
    true
}

/// Whether two vectors of ids are equal.
fn ids_eq(a: &Vec<u32>, b: &Vec<u32>) -> (r: bool)
    ensures
        r == (a@ == b@),
{
    if a.len() != b.len() {
        return false;
    }
    let mut i: usize = 0;
    while i < a.len()
        invariant
            a@.len() == b@.len(),
            i <= a@.len(),
            a@.subrange(0, i as int) == b@.subrange(0, i as int),
        decreases a@.len() - i,
    {
        if a[i] != b[i] {
            return false;
        }
        assert(a@.subrange(0, i + 1) =~= a@.subrange(0, i as int).push(a@[i as int]));
        assert(b@.subrange(0, i + 1) =~= b@.subrange(0, i as int).push(b@[i as int]));
        i = i + 1;
    }
    assert(a@ =~= a@.subrange(0, a@.len() as int));
    assert(b@ =~= b@.subrange(0, b@.len() as int));
    true
}

/// A copy of a vector of ids.
fn copy_ids(a: &Vec<u32>) -> (r: Vec<u32>)
    ensures
        r@ == a@,
{
    let mut r: Vec<u32> = Vec::new();
    let mut i: usize = 0;
    while i < a.len()
        invariant
            i <= a@.len(),
            r@ == a@.subrange(0, i as int),
        decreases a@.len() - i,
    {
        r.push(a[i]);
        assert(r@ =~= a@.subrange(0, i + 1));
        i = i + 1;
    }
    assert(r@ =~= a@);
    r
}

impl Policy {
    /// Whether file paths and variable names are distinct and every access is valid.
    pub open spec fn wf(&self) -> bool {
        &&& keys_distinct(self.files@)
        &&& keys_distinct(self.env_vars@)
        &&& forall|i: int| 0 <= i < self.files@.len() ==> (#[trigger] self.files@[i]).1.wf()
    }

    /// The policy that grants nothing and asks for authentication.
    pub fn empty() -> (r: Policy)
        ensures
            r.wf(),
            r@ == empty_model(),
    {
        let r = Policy {
            setuid: None,
            setgid: None,
            capabilities: Vec::new(),
            files: Vec::new(),
            dbus: Vec::new(),
            env_vars: Vec::new(),
            password_prompt: Authentication::Perform,
        };
        proof {
            assert(r@.files =~= Map::empty());
            assert(r@.env_vars =~= Map::empty());
            assert(r@.capabilities =~= Seq::empty());
            assert(r@.dbus =~= Seq::empty());
        }
        r
    }

    /// The merge of two policies (see `merge_models`).
    pub fn merge(self, rhs: Policy) -> (r: Policy)
        requires
            self.wf(),
            rhs.wf(),
        ensures
            r.wf(),
            r@ == merge_models(self@, rhs@),
    {
        let ghost a = self@;
        let ghost b = rhs@;
        let Policy { setuid, setgid, mut capabilities, mut files, mut dbus, mut env_vars, password_prompt } = self;
        let Policy {
            setuid: r_setuid,
            setgid: r_setgid,
            capabilities: mut r_capabilities,
            files: r_files,
            dbus: mut r_dbus,
            env_vars: r_env_vars,
            password_prompt: _,
        } = rhs;
        let ghost c0 = capabilities@;
        let ghost c1 = r_capabilities@;
        capabilities.append(&mut r_capabilities);
        let ghost d0 = dbus@;
        let ghost d1 = r_dbus@;
        dbus.append(&mut r_dbus);
        join_file_pairs(&mut files, &r_files);
        override_pairs(&mut env_vars, &r_env_vars);
        let setuid = match setuid {
            Some(u) => Some(u),
            None => r_setuid,
        };
        let setgid = match setgid {
            Some(g) => Some(g),
            None => r_setgid,
        };
        proof {
            lemma_texts_concat(c0, c1);
            lemma_texts_concat(d0, d1);
        }
        Policy { setuid, setgid, capabilities, files, dbus, env_vars, password_prompt }
    }

    /// Adds the capabilities, files and destinations of `rhs` (see `merge_into_model`).
    pub fn merge_assign(&mut self, rhs: Policy)
        requires
            old(self).wf(),
            rhs.wf(),
        ensures
            final(self).wf(),
            final(self)@ == merge_into_model(old(self)@, rhs@),
    {
        let Policy {
            setuid: r_setuid,
            setgid: r_setgid,
            capabilities: mut r_capabilities,
            files: r_files,
            dbus: mut r_dbus,
            ..
        } = rhs;
        if self.setuid.is_none() {
            self.setuid = r_setuid;
        }
        if self.setgid.is_none() {
            self.setgid = r_setgid;
        }
        let ghost c0 = self.capabilities@;
        let ghost c1 = r_capabilities@;
        self.capabilities.append(&mut r_capabilities);
        let ghost d0 = self.dbus@;
        let ghost d1 = r_dbus@;
        self.dbus.append(&mut r_dbus);
        join_file_pairs(&mut self.files, &r_files);
        proof {
            lemma_texts_concat(c0, c1);
            lemma_texts_concat(d0, d1);
        }
    }

    /// Whether two policies have the same content.
    pub fn same_as(&self, other: &Policy) -> (r: bool)
        requires
            self.wf(),
            other.wf(),
        ensures
            r == (self@ == other@),
    {
        let uid_eq = match (self.setuid, other.setuid) {
            (Some(a), Some(b)) => a == b,
            (None, None) => true,
            _ => false,
        };
        let gid_eq = match (&self.setgid, &other.setgid) {
            (Some(a), Some(b)) => ids_eq(a, b),
            (None, None) => true,
            _ => false,
        };
        let r = uid_eq && gid_eq && self.same_requirements_as(other);
        proof {
            if r {
                assert(self@.setgid == other@.setgid);
            }
        }
        r
    }

    /// Whether two policies require the same, whatever identity they were stamped with.
    pub fn same_requirements_as(&self, other: &Policy) -> (r: bool)
        requires
            self.wf(),
            other.wf(),
        ensures
            r == same_requirements(self@, other@),
    {
        let files_eq = files_within(&self.files, &other.files) && files_within(&other.files, &self.files);
        let vars_eq = vars_within(&self.env_vars, &other.env_vars) && vars_within(&other.env_vars, &self.env_vars);
        let r = strings_eq(&self.capabilities, &other.capabilities) && files_eq && strings_eq(&self.dbus, &other.dbus)
            && vars_eq && self.password_prompt == other.password_prompt;
        proof {
            if files_eq {
                lemma_mutual_submap(self@.files, other@.files);
            }
            if vars_eq {
                lemma_mutual_submap(self@.env_vars, other@.env_vars);
            }
        }
        r
    }

    /// Records the caller's own user and group ids as the policy's identity.
    pub fn stamp_credentials(&mut self, uid: u32, groups: &Vec<u32>)
        requires
            old(self).wf(),
        ensures
            final(self).wf(),
            final(self)@ == (PolicyModel { setuid: Some(uid), setgid: Some(groups@), ..old(self)@ }),
    {
        self.setuid = Some(uid);
        self.setgid = Some(copy_ids(groups));
    }
}

impl Policy {
    /// The ACL grant of each file: its path and its access as ACL permission bits.
    pub fn acl_grants(&self) -> (r: Vec<(String, u32)>)
        ensures
            r@.len() == self.files@.len(),
            forall|i: int| 0 <= i < r@.len() ==> (#[trigger] r@[i]).0@ == self.files@[i].0@
                && r@[i].1 == self.files@[i].1.bits as u32,
    {
        let mut r: Vec<(String, u32)> = Vec::new();
        let mut i: usize = 0;
        while i < self.files.len()
            invariant
                i <= self.files@.len(),
                r@.len() == i,
                forall|j: int| 0 <= j < i ==> (#[trigger] r@[j]).0@ == self.files@[j].0@
                    && r@[j].1 == self.files@[j].1.bits as u32,
            decreases self.files@.len() - i,
        {
            let path = copy_string(&self.files[i].0);
            let perm = crate::acl::access_permission(self.files[i].1);
            r.push((path, perm));
            i = i + 1;
        }
        r
    }

    /// Each file with the textual form of its access.
    pub fn files_text(&self) -> (r: Vec<(String, String)>)
        ensures
            r@.len() == self.files@.len(),
            forall|i: int| 0 <= i < r@.len() ==> (#[trigger] r@[i]).0@ == self.files@[i].0@
                && r@[i].1@ == bits_text(self.files@[i].1.bits),
    {
        let mut r: Vec<(String, String)> = Vec::new();
        let mut i: usize = 0;
        while i < self.files.len()
            invariant
                i <= self.files@.len(),
                r@.len() == i,
                forall|j: int| 0 <= j < i ==> (#[trigger] r@[j]).0@ == self.files@[j].0@
                    && r@[j].1@ == bits_text(self.files@[j].1.bits),
            decreases self.files@.len() - i,
        {
            let path = copy_string(&self.files[i].0);
            let text = self.files[i].1.to_text();
            r.push((path, text));
            i = i + 1;
        }
        r
    }

    /// The set of the policy's capabilities: none when it names none or names one
    /// that is unknown.
    pub fn capability_set(&self) -> (r: Option<Caps>)
        ensures
            self.capabilities@.len() == 0 ==> r is None,
            self.capabilities@.len() > 0 ==> match names_bits(texts(self.capabilities@)) {
                Some(b) => r == Some(Caps { bits: b }),
                None => r is None,
            },
    {
        if self.capabilities.len() == 0 {
            return None;
        }
        match Caps::from_names(&self.capabilities) {
            Ok(c) => Some(c),
            Err(_) => None,
        }
    }
}

impl Default for Policy {
    fn default() -> (r: Policy)
        ensures
            r.wf(),
            r@ == empty_model(),
    {
        Policy::empty()
    }
}

/// Merging is associative.
pub proof fn lemma_merge_associative(a: Policy, b: Policy, c: Policy)
    requires
        a.wf(),
        b.wf(),
        c.wf(),
    ensures
        merge_models(merge_models(a@, b@), c@) == merge_models(a@, merge_models(b@, c@)),
{
    let l = merge_models(merge_models(a@, b@), c@);
    let r = merge_models(a@, merge_models(b@, c@));
    assert(l.capabilities =~= r.capabilities);
    assert(l.dbus =~= r.dbus);
    assert(l.env_vars =~= r.env_vars);
    assert forall|k: Seq<char>| #[trigger] l.files.contains_key(k) implies l.files[k] == r.files[k] by {
        let x = a@.files;
        let y = b@.files;
        let z = c@.files;
        if x.contains_key(k) && y.contains_key(k) && z.contains_key(k) {
            let (p, q, s) = (x[k], y[k], z[k]);
            assert((p | q) | s == p | (q | s)) by (bit_vector);
        }
    }
    assert(l.files =~= r.files);
}

/// Merging is commutative, with capabilities taken as a set and destinations as a
/// multiset, for policies whose one-sided fields agree.
pub proof fn lemma_merge_commutative(a: Policy, b: Policy)
    requires
        a.wf(),
        b.wf(),
        compatible(a@, b@),
    ensures
        equivalent(merge_models(a@, b@), merge_models(b@, a@)),
{
    let l = merge_models(a@, b@);
    let r = merge_models(b@, a@);
    seq_to_set_distributes_over_add(a@.capabilities, b@.capabilities);
    seq_to_set_distributes_over_add(b@.capabilities, a@.capabilities);
    assert(l.capabilities.to_set() =~= r.capabilities.to_set());
    lemma_multiset_commutative(a@.dbus, b@.dbus);
    lemma_multiset_commutative(b@.dbus, a@.dbus);
    assert(l.dbus.to_multiset() =~= r.dbus.to_multiset());
    assert(l.env_vars =~= r.env_vars);
    assert forall|k: Seq<char>| #[trigger] l.files.contains_key(k) implies l.files[k] == r.files[k] by {
        if a@.files.contains_key(k) && b@.files.contains_key(k) {
            let (p, q) = (a@.files[k], b@.files[k]);
            assert(p | q == q | p) by (bit_vector);
        }
    }
    assert(l.files =~= r.files);
}

} // verus!
