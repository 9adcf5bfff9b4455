//! Name-keyed association lists with unique keys: the verified stand-in
//! for the hash maps the stores persist. Lookups are by first match; the
//! well-formedness invariant keeps keys unique.

use vstd::prelude::*;
use vstd::string::*;

verus! {

/// The value bound to `key`, by first match.
pub open spec fn assoc_lookup<T: View>(s: Seq<(String, T)>, key: Seq<char>) -> Option<T::V>
    decreases s.len(),
{
    if s.len() == 0 {
        None
    } else if s[0].0@ == key {
        Some(s[0].1@)
    } else {
        assoc_lookup(s.drop_first(), key)
    }
}

/// Unique keys.
pub open spec fn assoc_wf<T>(s: Seq<(String, T)>) -> bool {
    forall|i: int, j: int| 0 <= i < j < s.len() ==> (#[trigger] s[i]).0@ != (#[trigger] s[j]).0@
}

/// Replacing the value at the first match updates exactly that key.
proof fn lemma_assoc_update<T: View>(s: Seq<(String, T)>, i: int, e: (String, T), k: Seq<char>)
    requires
        0 <= i < s.len(),
        s[i].0@ == e.0@,
        forall|j: int| 0 <= j < i ==> (#[trigger] s[j]).0@ != e.0@,
    ensures
        assoc_lookup(s.update(i, e), k) == (if k == e.0@ {
            Some(e.1@)
        } else {
            assoc_lookup(s, k)
        }),
    decreases i,
{
    let u = s.update(i, e);
    if i == 0 {
        assert(u[0] == e);
        if k != e.0@ {
            assert(u.drop_first() =~= s.drop_first());
        }
    } else {
        assert(u[0] == s[0]);
        assert(u.drop_first() =~= s.drop_first().update(i - 1, e));
        lemma_assoc_update(s.drop_first(), i - 1, e, k);
    }
}

/// Appending a fresh key binds exactly that key.
proof fn lemma_assoc_push<T: View>(s: Seq<(String, T)>, e: (String, T), k: Seq<char>)
    requires
        forall|j: int| 0 <= j < s.len() ==> (#[trigger] s[j]).0@ != e.0@,
    ensures
        assoc_lookup(s.push(e), k) == (if k == e.0@ {
            Some(e.1@)
        } else {
            assoc_lookup(s, k)
        }),
    decreases s.len(),
{
    let u = s.push(e);
    if s.len() == 0 {
        assert(u[0] == e);
        assert(u.drop_first() =~= Seq::<(String, T)>::empty());
    } else {
        assert(u[0] == s[0]);
        assert(u.drop_first() =~= s.drop_first().push(e));
        lemma_assoc_push(s.drop_first(), e, k);
    }
}

/// Removing the entry of a unique key unbinds exactly that key.
proof fn lemma_assoc_remove<T: View>(s: Seq<(String, T)>, i: int, k: Seq<char>)
    requires
        0 <= i < s.len(),
        assoc_wf(s),
    ensures
        assoc_lookup(s.remove(i), k) == (if k == s[i].0@ {
            None
        } else {
            assoc_lookup(s, k)
        }),
    decreases i,
{
    let u = s.remove(i);
    if i == 0 {
        assert(u =~= s.drop_first());
        if k == s[0].0@ {
            lemma_assoc_absent(s.drop_first(), k);
        }
    } else {
        assert(u[0] == s[0]);
        assert(u.drop_first() =~= s.drop_first().remove(i - 1));
        assert(assoc_wf(s.drop_first())) by {
            assert forall|a: int, b: int|
                0 <= a < b < s.drop_first().len() implies (#[trigger] s.drop_first()[a]).0@
                != (#[trigger] s.drop_first()[b]).0@ by {
                assert(s.drop_first()[a] == s[a + 1]);
                assert(s.drop_first()[b] == s[b + 1]);
            }
        }
        assert(s.drop_first()[i - 1] == s[i]);
        lemma_assoc_remove(s.drop_first(), i - 1, k);
    }
}

/// A key bound nowhere in the list is not found.
proof fn lemma_assoc_absent<T: View>(s: Seq<(String, T)>, k: Seq<char>)
    requires
        forall|j: int| 0 <= j < s.len() ==> (#[trigger] s[j]).0@ != k,
    ensures
        assoc_lookup(s, k) is None,
    decreases s.len(),
{
    if s.len() > 0 {
        lemma_assoc_absent(s.drop_first(), k);
    }
}

/// A found value lies at some matching entry; used to connect scans.
proof fn lemma_assoc_found<T: View>(s: Seq<(String, T)>, i: int, k: Seq<char>)
    requires
        0 <= i < s.len(),
        s[i].0@ == k,
        forall|j: int| 0 <= j < i ==> (#[trigger] s[j]).0@ != k,
    ensures
        assoc_lookup(s, k) == Some(s[i].1@),
    decreases i,
{
    if i > 0 {
        assert(s.drop_first()[i - 1] == s[i]);
        lemma_assoc_found(s.drop_first(), i - 1, k);
    }
}

/// The value bound to `key`, if any.
pub fn assoc_get<'a, T: View>(v: &'a Vec<(String, T)>, key: &str) -> (r: Option<&'a T>)
    ensures
        match r {
            Some(t) => assoc_lookup(v@, key@) == Some(t@),
            None => assoc_lookup(v@, key@) is None,
        },
{
    let n = v.len();
    let mut i: usize = 0;
    while i < n
        invariant
            n == v@.len(),
            i <= n,
            forall|j: int| 0 <= j < i ==> (#[trigger] v@[j]).0@ != key@,
        decreases n - i,
    {
        if crate::text::str_eq(v[i].0.as_str(), key) {
            proof {
                lemma_assoc_found(v@, i as int, key@);
            }
            return Some(&v[i].1);
        }
        i += 1;
    }
    proof {
        lemma_assoc_absent(v@, key@);
    }
    None
}

/// Binds `name` to `val`, replacing any existing binding; every other
/// binding is untouched.
pub fn assoc_set<T: View>(v: &mut Vec<(String, T)>, name: String, val: T)
    requires
        assoc_wf(old(v)@),
    ensures
        assoc_wf(final(v)@),
        forall|k: Seq<char>|
            #[trigger] assoc_lookup(final(v)@, k) == (if k == name@ {
                Some(val@)
            } else {
                assoc_lookup(old(v)@, k)
            }),
{
    let n = v.len();
    let mut i: usize = 0;
    while i < n
        invariant
            n == v@.len(),
            i <= n,
            v@ == old(v)@,
            assoc_wf(v@),
            forall|j: int| 0 <= j < i ==> (#[trigger] v@[j]).0@ != name@,
        decreases n - i,
    {
        if crate::text::str_eq(v[i].0.as_str(), name.as_str()) {
            let ghost pre = v@;
            v.set(i, (name, val));
            proof {
                assert forall|k: Seq<char>| #[trigger] assoc_lookup(v@, k) == (if k == pre[
                    i as int].0@ {
                    Some(val@)
                } else {
                    assoc_lookup(pre, k)
                }) by {
                    lemma_assoc_update(pre, i as int, v@[i as int], k);
                }
                assert forall|a: int, b: int| 0 <= a < b < v@.len() implies (#[trigger] v@[a]).0@
                    != (#[trigger] v@[b]).0@ by {
                    if a == i as int {
                        assert(v@[a].0@ == pre[a].0@);
                    } else {
                        assert(v@[a] == pre[a]);
                    }
                    if b == i as int {
                        assert(v@[b].0@ == pre[b].0@);
                    } else {
                        assert(v@[b] == pre[b]);
                    }
                    assert(pre[a].0@ != pre[b].0@);
                }
            }
            return ;
        }
        i += 1;
    }
    let ghost pre = v@;
    v.push((name, val));
    proof {
        assert forall|k: Seq<char>| #[trigger] assoc_lookup(v@, k) == (if k == v@[
            pre.len() as int].0@ {
            Some(val@)
        } else {
            assoc_lookup(pre, k)
        }) by {
            lemma_assoc_push(pre, v@[pre.len() as int], k);
        }
        assert forall|a: int, b: int| 0 <= a < b < v@.len() implies (#[trigger] v@[a]).0@
            != (#[trigger] v@[b]).0@ by {
            if b < pre.len() {
                assert(pre[a].0@ != pre[b].0@);
            } else {
                assert(v@[b] == v@[pre.len() as int]);
                assert(v@[a] == pre[a]);
            }
        }
    }
}

/// Unbinds `name`; every other binding is untouched.
pub fn assoc_remove<T: View>(v: &mut Vec<(String, T)>, name: &str)
    requires
        assoc_wf(old(v)@),
    ensures
        assoc_wf(final(v)@),
        forall|k: Seq<char>|
            #[trigger] assoc_lookup(final(v)@, k) == (if k == name@ {
                None
            } else {
                assoc_lookup(old(v)@, k)
            }),
{
    let n = v.len();
    let mut i: usize = 0;
    while i < n
        invariant
            n == v@.len(),
            i <= n,
            v@ == old(v)@,
            assoc_wf(v@),
            forall|j: int| 0 <= j < i ==> (#[trigger] v@[j]).0@ != name@,
        decreases n - i,
    {
        if crate::text::str_eq(v[i].0.as_str(), name) {
            let ghost pre = v@;
            v.remove(i);
            proof {
                assert forall|k: Seq<char>| #[trigger] assoc_lookup(v@, k) == (if k == pre[
                    i as int].0@ {
                    None
                } else {
                    assoc_lookup(pre, k)
                }) by {
                    lemma_assoc_remove(pre, i as int, k);
                }
                assert forall|a: int, b: int| 0 <= a < b < v@.len() implies (#[trigger] v@[a]).0@
                    != (#[trigger] v@[b]).0@ by {
                    let a0: int = if a < i { a } else { a + 1 };
                    let b0: int = if b < i { b } else { b + 1 };
                    assert(v@[a] == pre[a0]);
                    assert(v@[b] == pre[b0]);
                    assert(pre[a0].0@ != pre[b0].0@);
                }
            }
            return ;
        }
        i += 1;
    }
    proof {
        lemma_assoc_absent(v@, name@);
    }
}

} // verus!
