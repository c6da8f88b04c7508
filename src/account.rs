//! The system accounts that back identities.

use vstd::prelude::*;
use crate::assoc::texts;
use crate::identity::{has_identity_prefix, is_derived_identity};

verus! {

/// The account name of a task of a role in the role store.
pub fn account_name(role: &str, task: &str) -> (r: String)
    ensures
        r@ == role@ + seq!['-'] + task@,
{
    let mut s = String::new();
    s.append(role);
    s.append("-");
    s.append(task);
    proof {
        reveal_strlit("-");
        assert(s@ =~= role@ + seq!['-'] + task@);
    }
    s
}

/// The accounts whose grants are revoked for a task of the role store: the one named
/// after the role and the task, and the identity recorded as the task's user if it is
/// a derived one.
pub fn accounts_to_revoke(role: &str, task: &str, setuid: Option<&str>) -> (r: Vec<String>)
    ensures
        texts(r@) == seq![role@ + seq!['-'] + task@] + match setuid {
            Some(u) => if has_identity_prefix(u@) { seq![u@] } else { Seq::empty() },
            None => Seq::empty(),
        },
{
    let mut r: Vec<String> = Vec::new();
    r.push(account_name(role, task));
    match setuid {
        Some(u) => {
            if is_derived_identity(u) {
                let mut s = String::new();
                s.append(u);
                r.push(s);
            }
        },
        None => {},
    }
    assert(texts(r@) =~= seq![role@ + seq!['-'] + task@] + match setuid {
        Some(u) => if has_identity_prefix(u@) { seq![u@] } else { Seq::empty() },
        None => Seq::empty(),
    });
    r
}

/// The arguments of `useradd` that create a system account without a home
/// directory and with a non-interactive shell.
pub fn useradd_arguments(name: &str) -> (r: Vec<String>)
    ensures
        texts(r@) == seq!["-r"@, "-M"@, "-s"@, "/usr/sbin/nologin"@, name@],
{
    let mut r: Vec<String> = Vec::new();
    let mut a = String::new();
    a.append("-r");
    r.push(a);
    let mut b = String::new();
    b.append("-M");
    r.push(b);
    let mut c = String::new();
    c.append("-s");
    r.push(c);
    let mut d = String::new();
    d.append("/usr/sbin/nologin");
    r.push(d);
    let mut e = String::new();
    e.append(name);
    r.push(e);
    assert(texts(r@) =~= seq!["-r"@, "-M"@, "-s"@, "/usr/sbin/nologin"@, name@]);
    r
}

/// The arguments of `userdel` that delete an account and its files.
pub fn userdel_arguments(name: &str) -> (r: Vec<String>)
    ensures
        texts(r@) == seq!["-r"@, name@],
{
    let mut a = String::new();
    a.append("-r");
    let mut b = String::new();
    b.append(name);
    let r = vec![a, b];
    assert(texts(r@) =~= seq!["-r"@, name@]);
    r
}

} // verus!
