//! The credential store: stateless queries over a freshly read database
//! snapshot. Each lookup parses the whole snapshot and returns the first
//! matching record in file order; reading the snapshot itself is the
//! caller's concern, so that a read failure stays distinct from "no record".

use vstd::prelude::*;

use crate::record::{parse_group_file, parse_passwd_file, Group, GroupV, Passwd, PasswdV};
use crate::text::str_eq;

verus! {

/// The first element satisfying `m`, in order, if any.
pub open spec fn find_first<T>(es: Seq<T>, m: spec_fn(T) -> bool) -> Option<T>
    decreases es.len(),
{
    if es.len() == 0 {
        None
    } else if m(es[0]) {
        Some(es[0])
    } else {
        find_first(es.drop_first(), m)
    }
}

/// A lookup succeeds exactly when a match exists, and then returns the
/// match of least index: duplicates are resolved by first occurrence.
pub proof fn lemma_find_first_is_first<T>(es: Seq<T>, m: spec_fn(T) -> bool)
    ensures
        (find_first(es, m) is Some) <==> (exists|i: int|
            0 <= i < es.len() && m(#[trigger] es[i])),
        find_first(es, m) matches Some(v) ==> exists|i: int|
            0 <= i < es.len() && m(#[trigger] es[i]) && v == es[i] && (forall|j: int|
                0 <= j < i ==> !m(#[trigger] es[j])),
    decreases es.len(),
{
    if es.len() > 0 && !m(es[0]) {
        let tail = es.drop_first();
        lemma_find_first_is_first(tail, m);
        assert(forall|j: int| 0 <= j < tail.len() ==> #[trigger] tail[j] == es[j + 1]);
        if find_first(es, m) is Some {
            let tv = find_first(tail, m)->Some_0;
            let i = choose|i: int|
                0 <= i < tail.len() && m(#[trigger] tail[i]) && tv == tail[i] && (forall|j: int|
                    0 <= j < i ==> !m(#[trigger] tail[j]));
            assert(tail[i] == es[i + 1]);
            assert(m(es[i + 1]));
            assert forall|j: int| 0 <= j < i + 1 implies !m(#[trigger] es[j]) by {
                if j > 0 {
                    assert(tail[j - 1] == es[j]);
                    assert(!m(tail[j - 1]));
                }
            }
        }
        if exists|i: int| 0 <= i < es.len() && m(#[trigger] es[i]) {
            let i = choose|i: int| 0 <= i < es.len() && m(#[trigger] es[i]);
            assert(m(tail[i - 1]));
        }
    }
}

pub open spec fn find_passwd_by_uid(es: Seq<PasswdV>, uid: u32) -> Option<PasswdV> {
    find_first(es, |p: PasswdV| p.uid == uid)
}

pub open spec fn find_passwd_by_name(es: Seq<PasswdV>, name: Seq<char>) -> Option<PasswdV> {
    find_first(es, |p: PasswdV| p.user == name)
}

pub open spec fn find_group_by_gid(es: Seq<GroupV>, gid: u32) -> Option<GroupV> {
    find_first(es, |g: GroupV| g.gid == gid)
}

pub open spec fn find_group_by_name(es: Seq<GroupV>, name: Seq<char>) -> Option<GroupV> {
    find_first(es, |g: GroupV| g.group == name)
}

/// Looks up a user record by numeric id in a user database snapshot.
pub fn get_passwd_by_id(file_data: &str, uid: u32) -> (r: Option<Passwd>)
    ensures
        match r {
            Some(p) => find_passwd_by_uid(parse_passwd_file(file_data@), uid) == Some(p@),
            None => find_passwd_by_uid(parse_passwd_file(file_data@), uid) is None,
        },
{
    let entries = match Passwd::parse_file(file_data) {
        Ok(v) => v,
        Err(_) => {
            proof {
                assert(false);
            }
            return None;
        },
    };
    let ghost es = entries.deep_view();
    let ghost m = |p: PasswdV| p.uid == uid;
    proof {
        assert(es.skip(0) =~= es);
    }
    let n = entries.len();
    let mut i: usize = 0;
    while i < n
        invariant
            i <= n,
            n == entries@.len(),
            es == entries.deep_view(),
            es == parse_passwd_file(file_data@),
            m == (|p: PasswdV| p.uid == uid),
            find_first(es, m) == find_first(es.skip(i as int), m),
        decreases n - i,
    {
        proof {
            assert(es.skip(i as int)[0] == es[i as int]);
            assert(es[i as int] == entries@[i as int]@);
            assert(es.skip(i as int).drop_first() =~= es.skip(i as int + 1));
        }
        if entries[i].uid == uid {
            proof {
                assert(m(es[i as int]));
                assert(find_first(es.skip(i as int), m) == Some(es.skip(i as int)[0]));
            }
            return Some(entries[i].clone());
        }
        i += 1;
    }
    proof {
        assert(es.skip(n as int) =~= Seq::<PasswdV>::empty());
    }
    None
}

/// Looks up a user record by name in a user database snapshot.
pub fn get_passwd_by_name(file_data: &str, name: &str) -> (r: Option<Passwd>)
    ensures
        match r {
            Some(p) => find_passwd_by_name(parse_passwd_file(file_data@), name@) == Some(p@),
            None => find_passwd_by_name(parse_passwd_file(file_data@), name@) is None,
        },
{
    let entries = match Passwd::parse_file(file_data) {
        Ok(v) => v,
        Err(_) => {
            proof {
                assert(false);
            }
            return None;
        },
    };
    let ghost es = entries.deep_view();
    let ghost m = |p: PasswdV| p.user == name@;
    proof {
        assert(es.skip(0) =~= es);
    }
    let n = entries.len();
    let mut i: usize = 0;
    while i < n
        invariant
            i <= n,
            n == entries@.len(),
            es == entries.deep_view(),
            es == parse_passwd_file(file_data@),
            m == (|p: PasswdV| p.user == name@),
            find_first(es, m) == find_first(es.skip(i as int), m),
        decreases n - i,
    {
        proof {
            assert(es.skip(i as int)[0] == es[i as int]);
            assert(es[i as int] == entries@[i as int]@);
            assert(es.skip(i as int).drop_first() =~= es.skip(i as int + 1));
        }
        if str_eq(entries[i].user.as_str(), name) {
            proof {
                assert(m(es[i as int]));
                assert(find_first(es.skip(i as int), m) == Some(es.skip(i as int)[0]));
            }
            return Some(entries[i].clone());
        }
        i += 1;
    }
    proof {
        assert(es.skip(n as int) =~= Seq::<PasswdV>::empty());
    }
    None
}

/// Looks up a group record by numeric id in a group database snapshot.
pub fn get_group_by_id(file_data: &str, gid: u32) -> (r: Option<Group>)
    ensures
        match r {
            Some(g) => find_group_by_gid(parse_group_file(file_data@), gid) == Some(g@),
            None => find_group_by_gid(parse_group_file(file_data@), gid) is None,
        },
{
    let entries = match Group::parse_file(file_data) {
        Ok(v) => v,
        Err(_) => {
            proof {
                assert(false);
            }
            return None;
        },
    };
    let ghost es = entries.deep_view();
    let ghost m = |g: GroupV| g.gid == gid;
    proof {
        assert(es.skip(0) =~= es);
    }
    let n = entries.len();
    let mut i: usize = 0;
    while i < n
        invariant
            i <= n,
            n == entries@.len(),
            es == entries.deep_view(),
            es == parse_group_file(file_data@),
            m == (|g: GroupV| g.gid == gid),
            find_first(es, m) == find_first(es.skip(i as int), m),
        decreases n - i,
    {
        proof {
            assert(es.skip(i as int)[0] == es[i as int]);
            assert(es[i as int] == entries@[i as int]@);
            assert(es.skip(i as int).drop_first() =~= es.skip(i as int + 1));
        }
        if entries[i].gid == gid {
            proof {
                assert(m(es[i as int]));
                assert(find_first(es.skip(i as int), m) == Some(es.skip(i as int)[0]));
            }
            return Some(entries[i].clone());
        }
        i += 1;
    }
    proof {
        assert(es.skip(n as int) =~= Seq::<GroupV>::empty());
    }
    None
}

/// Looks up a group record by name in a group database snapshot.
pub fn get_group_by_name(file_data: &str, name: &str) -> (r: Option<Group>)
    ensures
        match r {
            Some(g) => find_group_by_name(parse_group_file(file_data@), name@) == Some(g@),
            None => find_group_by_name(parse_group_file(file_data@), name@) is None,
        },
{
    let entries = match Group::parse_file(file_data) {
        Ok(v) => v,
        Err(_) => {
            proof {
                assert(false);
            }
            return None;
        },
    };
    let ghost es = entries.deep_view();
    let ghost m = |g: GroupV| g.group == name@;
    proof {
        assert(es.skip(0) =~= es);
    }
    let n = entries.len();
    let mut i: usize = 0;
    while i < n
        invariant
            i <= n,
            n == entries@.len(),
            es == entries.deep_view(),
            es == parse_group_file(file_data@),
            m == (|g: GroupV| g.group == name@),
            find_first(es, m) == find_first(es.skip(i as int), m),
        decreases n - i,
    {
        proof {
            assert(es.skip(i as int)[0] == es[i as int]);
            assert(es[i as int] == entries@[i as int]@);
            assert(es.skip(i as int).drop_first() =~= es.skip(i as int + 1));
        }
        if str_eq(entries[i].group.as_str(), name) {
            proof {
                assert(m(es[i as int]));
                assert(find_first(es.skip(i as int), m) == Some(es.skip(i as int)[0]));
            }
            return Some(entries[i].clone());
        }
        i += 1;
    }
    proof {
        assert(es.skip(n as int) =~= Seq::<GroupV>::empty());
    }
    None
}

} // verus!
