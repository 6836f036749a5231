//! The record model: one parsed line of the user database or of the group
//! database, with its parsing and serialization contracts.

use vstd::prelude::*;

use crate::text::{
    all_digits, dec_digits, is_digit, lemma_dec_digits_val, lemma_split_concat,
    lemma_split_no_delim, lines_of, parse_u32, parse_u32_spec, split_lines, split_on, split_str,
    u32_to_string,
};

verus! {

/// A user record: one line of the user database.
pub struct Passwd {
    pub user: String,
    pub hash: String,
    pub uid: u32,
    pub gid: u32,
    pub name: String,
    pub home: String,
    pub shell: String,
}

/// Mathematical model of a user record.
#[verifier::ext_equal]
pub struct PasswdV {
    pub user: Seq<char>,
    pub hash: Seq<char>,
    pub uid: u32,
    pub gid: u32,
    pub name: Seq<char>,
    pub home: Seq<char>,
    pub shell: Seq<char>,
}

impl View for Passwd {
    type V = PasswdV;

    open spec fn view(&self) -> PasswdV {
        PasswdV {
            user: self.user@,
            hash: self.hash@,
            uid: self.uid,
            gid: self.gid,
            name: self.name@,
            home: self.home@,
            shell: self.shell@,
        }
    }
}

impl DeepView for Passwd {
    type V = PasswdV;

    open spec fn deep_view(&self) -> PasswdV {
        self.view()
    }
}

impl Clone for Passwd {
    fn clone(&self) -> (r: Self)
        ensures
            r@ == self@,
    {
        Passwd {
            user: self.user.clone(),
            hash: self.hash.clone(),
            uid: self.uid,
            gid: self.gid,
            name: self.name.clone(),
            home: self.home.clone(),
            shell: self.shell.clone(),
        }
    }
}

/// A group record: one line of the group database.
pub struct Group {
    pub group: String,
    pub gid: u32,
    pub users: String,
}

/// Mathematical model of a group record.
#[verifier::ext_equal]
pub struct GroupV {
    pub group: Seq<char>,
    pub gid: u32,
    pub users: Seq<char>,
}

impl View for Group {
    type V = GroupV;

    open spec fn view(&self) -> GroupV {
        GroupV { group: self.group@, gid: self.gid, users: self.users@ }
    }
}

impl DeepView for Group {
    type V = GroupV;

    open spec fn deep_view(&self) -> GroupV {
        self.view()
    }
}

impl Clone for Group {
    fn clone(&self) -> (r: Self)
        ensures
            r@ == self@,
    {
        Group { group: self.group.clone(), gid: self.gid, users: self.users.clone() }
    }
}

/// What a user line means: exactly seven `;`-separated fields whose third
/// and fourth parse as unsigned integers; anything else is malformed.
pub open spec fn parse_passwd_line(line: Seq<char>) -> Option<PasswdV> {
    let f = split_on(line, ';');
    if f.len() == 7 {
        match (parse_u32_spec(f[2]), parse_u32_spec(f[3])) {
            (Some(uid), Some(gid)) => Some(
                PasswdV {
                    user: f[0],
                    hash: f[1],
                    uid,
                    gid,
                    name: f[4],
                    home: f[5],
                    shell: f[6],
                },
            ),
            _ => None,
        }
    } else {
        None
    }
}

/// What a group line means: exactly three `;`-separated fields whose second
/// parses as an unsigned integer.
pub open spec fn parse_group_line(line: Seq<char>) -> Option<GroupV> {
    let f = split_on(line, ';');
    if f.len() == 3 {
        match parse_u32_spec(f[1]) {
            Some(gid) => Some(GroupV { group: f[0], gid, users: f[2] }),
            _ => None,
        }
    } else {
        None
    }
}

/// The serialized form of a user record.
pub open spec fn serialize_passwd(p: PasswdV) -> Seq<char> {
    p.user + seq![';'] + p.hash + seq![';'] + dec_digits(p.uid as int) + seq![';'] + dec_digits(
        p.gid as int,
    ) + seq![';'] + p.name + seq![';'] + p.home + seq![';'] + p.shell
}

/// The serialized form of a group record.
pub open spec fn serialize_group(g: GroupV) -> Seq<char> {
    g.group + seq![';'] + dec_digits(g.gid as int) + seq![';'] + g.users
}

/// A record is well formed when no textual field contains the delimiter.
pub open spec fn passwd_wf(p: PasswdV) -> bool {
    &&& !p.user.contains(';')
    &&& !p.hash.contains(';')
    &&& !p.name.contains(';')
    &&& !p.home.contains(';')
    &&& !p.shell.contains(';')
}

pub open spec fn group_wf(g: GroupV) -> bool {
    &&& !g.group.contains(';')
    &&& !g.users.contains(';')
}

/// The records parsed from a sequence of lines, in order, each malformed
/// line yielding nothing.
pub open spec fn parsed_entries<T>(ls: Seq<Seq<char>>, f: spec_fn(Seq<char>) -> Option<T>) -> Seq<
    T,
>
    decreases ls.len(),
{
    if ls.len() == 0 {
        Seq::empty()
    } else {
        parsed_entries(ls.drop_last(), f) + match f(ls.last()) {
            Some(v) => seq![v],
            None => Seq::<T>::empty(),
        }
    }
}

pub open spec fn parse_passwd_file(data: Seq<char>) -> Seq<PasswdV> {
    parsed_entries(lines_of(data), |l: Seq<char>| parse_passwd_line(l))
}

pub open spec fn parse_group_file(data: Seq<char>) -> Seq<GroupV> {
    parsed_entries(lines_of(data), |l: Seq<char>| parse_group_line(l))
}

/// A line that yields no record leaves the records parsed from the other
/// lines exactly as they were: one corrupt line cannot disturb its
/// neighbours.
pub proof fn lemma_malformed_line_skipped<T>(
    ls: Seq<Seq<char>>,
    f: spec_fn(Seq<char>) -> Option<T>,
    i: int,
)
    requires
        0 <= i < ls.len(),
        f(ls[i]) is None,
    ensures
        parsed_entries(ls, f) == parsed_entries(ls.remove(i), f),
    decreases ls.len(),
{
    if i == ls.len() - 1 {
        assert(ls.remove(i) =~= ls.drop_last());
        assert(parsed_entries(ls, f) =~= parsed_entries(ls.drop_last(), f));
    } else {
        lemma_malformed_line_skipped(ls.drop_last(), f, i);
        assert(ls.remove(i).drop_last() =~= ls.drop_last().remove(i));
        assert(ls.remove(i).last() == ls.last());
        assert(parsed_entries(ls.remove(i), f) =~= parsed_entries(ls, f));
    }
}

impl Passwd {
    /// Parses one line of the user database.
    pub fn parse(line: &str) -> (r: Result<Passwd, ()>)
        ensures
            match r {
                Ok(p) => parse_passwd_line(line@) == Some(p@),
                Err(_) => parse_passwd_line(line@) is None,
            },
    {
        let fields = split_str(line, ';');
        if fields.len() != 7 {
            return Err(());
        }
        let uid = match parse_u32(fields[2].as_str()) {
            Some(u) => u,
            None => {
                return Err(());
            },
        };
        let gid = match parse_u32(fields[3].as_str()) {
            Some(g) => g,
            None => {
                return Err(());
            },
        };
        let p = Passwd {
            user: fields[0].clone(),
            hash: fields[1].clone(),
            uid,
            gid,
            name: fields[4].clone(),
            home: fields[5].clone(),
            shell: fields[6].clone(),
        };
        proof {
            assert(p@ =~= parse_passwd_line(line@)->Some_0);
        }
        Ok(p)
    }

    /// Renders the record as one database line.
    pub fn serialize(&self) -> (r: String)
        ensures
            r@ == serialize_passwd(self@),
    {
        proof {
            reveal_strlit(";");
        }
        let mut r = String::new();
        r.append(self.user.as_str());
        r.append(";");
        r.append(self.hash.as_str());
        r.append(";");
        r.append(u32_to_string(self.uid).as_str());
        r.append(";");
        r.append(u32_to_string(self.gid).as_str());
        r.append(";");
        r.append(self.name.as_str());
        r.append(";");
        r.append(self.home.as_str());
        r.append(";");
        r.append(self.shell.as_str());
        proof {
            assert(";"@ =~= seq![';']);
            assert(r@ =~= serialize_passwd(self@));
        }
        r
    }

    /// Parses a whole user database snapshot, skipping malformed lines.
    pub fn parse_file(file_data: &str) -> (r: Result<Vec<Passwd>, ()>)
        ensures
            r is Ok,
            r matches Ok(v) ==> v.deep_view() == parse_passwd_file(file_data@),
    {
        let lines = split_lines(file_data);
        let ghost ls = lines.deep_view();
        let ghost f = |l: Seq<char>| parse_passwd_line(l);
        let mut entries: Vec<Passwd> = Vec::new();
        let n = lines.len();
        proof {
            assert(ls.take(0) =~= Seq::<Seq<char>>::empty());
            assert(entries.deep_view() =~= parsed_entries(ls.take(0), f));
        }
        let mut i: usize = 0;
        while i < n
            invariant
                i <= n,
                n == lines@.len(),
                ls == lines.deep_view(),
                f == (|l: Seq<char>| parse_passwd_line(l)),
                entries.deep_view() == parsed_entries(ls.take(i as int), f),
            decreases n - i,
        {
            let ghost dv0 = entries.deep_view();
            if let Ok(p) = Passwd::parse(lines[i].as_str()) {
                entries.push(p);
                proof {
                    assert(entries.deep_view() =~= dv0.push(p@));
                }
            }
            proof {
                assert(ls.take(i + 1).drop_last() =~= ls.take(i as int));
                assert(ls.take(i + 1).last() == ls[i as int]);
                assert(entries.deep_view() =~= parsed_entries(ls.take(i + 1), f));
            }
            i += 1;
        }
        proof {
            assert(ls.take(n as int) =~= ls);
        }
        Ok(entries)
    }
}

impl Group {
    /// Parses one line of the group database.
    pub fn parse(line: &str) -> (r: Result<Group, ()>)
        ensures
            match r {
                Ok(g) => parse_group_line(line@) == Some(g@),
                Err(_) => parse_group_line(line@) is None,
            },
    {
        let fields = split_str(line, ';');
        if fields.len() != 3 {
            return Err(());
        }
        let gid = match parse_u32(fields[1].as_str()) {
            Some(g) => g,
            None => {
                return Err(());
            },
        };
        let g = Group { group: fields[0].clone(), gid, users: fields[2].clone() };
        proof {
            assert(g@ =~= parse_group_line(line@)->Some_0);
        }
        Ok(g)
    }

    /// Renders the record as one database line.
    pub fn serialize(&self) -> (r: String)
        ensures
            r@ == serialize_group(self@),
    {
        proof {
            reveal_strlit(";");
        }
        let mut r = String::new();
        r.append(self.group.as_str());
        r.append(";");
        r.append(u32_to_string(self.gid).as_str());
        r.append(";");
        r.append(self.users.as_str());
        proof {
            assert(";"@ =~= seq![';']);
            assert(r@ =~= serialize_group(self@));
        }
        r
    }

    /// Parses a whole group database snapshot, skipping malformed lines.
    pub fn parse_file(file_data: &str) -> (r: Result<Vec<Group>, ()>)
        ensures
            r is Ok,
            r matches Ok(v) ==> v.deep_view() == parse_group_file(file_data@),
    {
        let lines = split_lines(file_data);
        let ghost ls = lines.deep_view();
        let ghost f = |l: Seq<char>| parse_group_line(l);
        let mut entries: Vec<Group> = Vec::new();
        let n = lines.len();
        proof {
            assert(ls.take(0) =~= Seq::<Seq<char>>::empty());
            assert(entries.deep_view() =~= parsed_entries(ls.take(0), f));
        }
        let mut i: usize = 0;
        while i < n
            invariant
                i <= n,
                n == lines@.len(),
                ls == lines.deep_view(),
                f == (|l: Seq<char>| parse_group_line(l)),
                entries.deep_view() == parsed_entries(ls.take(i as int), f),
            decreases n - i,
        {
            let ghost dv0 = entries.deep_view();
            if let Ok(g) = Group::parse(lines[i].as_str()) {
                entries.push(g);
                proof {
                    assert(entries.deep_view() =~= dv0.push(g@));
                }
            }
            proof {
                assert(ls.take(i + 1).drop_last() =~= ls.take(i as int));
                assert(ls.take(i + 1).last() == ls[i as int]);
                assert(entries.deep_view() =~= parsed_entries(ls.take(i + 1), f));
            }
            i += 1;
        }
        proof {
            assert(ls.take(n as int) =~= ls);
        }
        Ok(entries)
    }

    /// Membership in the group's comma-joined user list is exact equality
    /// with one of its comma-split tokens.
    pub fn has_member(&self, user: &str) -> (r: bool)
        ensures
            r == split_on(self.users@, ',').contains(user@),
    {
        let tokens = split_str(self.users.as_str(), ',');
        let n = tokens.len();
        let mut i: usize = 0;
        while i < n
            invariant
                i <= n,
                n == tokens@.len(),
                tokens.deep_view() == split_on(self.users@, ','),
                forall|j: int| 0 <= j < i ==> tokens.deep_view()[j] != user@,
            decreases n - i,
        {
            if crate::text::str_eq(tokens[i].as_str(), user) {
                assert(split_on(self.users@, ',')[i as int] == user@);
                return true;
            }
            i += 1;
        }
        false
    }
}

/// Digit characters are never the field delimiter.
proof fn lemma_digits_not_delim(s: Seq<char>)
    requires
        all_digits(s),
    ensures
        forall|j: int| 0 <= j < s.len() ==> s[j] != ';',
{
    assert forall|j: int| 0 <= j < s.len() implies s[j] != ';' by {
        assert(is_digit(s[j]));
        assert(';' as u32 == 59);
    }
}

/// Round trip for user records: parsing a serialized well-formed record
/// gives the record back.
pub proof fn lemma_passwd_round_trip(p: PasswdV)
    requires
        passwd_wf(p),
    ensures
        parse_passwd_line(serialize_passwd(p)) == Some(p),
{
    let du = dec_digits(p.uid as int);
    let dg = dec_digits(p.gid as int);
    lemma_dec_digits_val(p.uid as int);
    lemma_dec_digits_val(p.gid as int);
    lemma_digits_not_delim(du);
    lemma_digits_not_delim(dg);
    let r6 = p.shell;
    let r5 = p.home + seq![';'] + r6;
    let r4 = p.name + seq![';'] + r5;
    let r3 = dg + seq![';'] + r4;
    let r2 = du + seq![';'] + r3;
    let r1 = p.hash + seq![';'] + r2;
    let s = serialize_passwd(p);
    assert(s =~= p.user + seq![';'] + r1);
    assert(forall|j: int| 0 <= j < p.user.len() ==> p.user[j] != ';');
    assert(forall|j: int| 0 <= j < p.hash.len() ==> p.hash[j] != ';');
    assert(forall|j: int| 0 <= j < p.name.len() ==> p.name[j] != ';');
    assert(forall|j: int| 0 <= j < p.home.len() ==> p.home[j] != ';');
    assert(forall|j: int| 0 <= j < p.shell.len() ==> p.shell[j] != ';');
    lemma_split_concat(p.user, r1, ';');
    lemma_split_concat(p.hash, r2, ';');
    lemma_split_concat(du, r3, ';');
    lemma_split_concat(dg, r4, ';');
    lemma_split_concat(p.name, r5, ';');
    lemma_split_concat(p.home, r6, ';');
    lemma_split_no_delim(p.shell, ';');
    let fields = split_on(s, ';');
    assert(fields =~= seq![p.user, p.hash, du, dg, p.name, p.home, p.shell]);
    assert(parse_u32_spec(du) == Some(p.uid));
    assert(parse_u32_spec(dg) == Some(p.gid));
    assert(parse_passwd_line(s)->Some_0 =~= p);
}

/// Round trip for group records.
pub proof fn lemma_group_round_trip(g: GroupV)
    requires
        group_wf(g),
    ensures
        parse_group_line(serialize_group(g)) == Some(g),
{
    let dg = dec_digits(g.gid as int);
    lemma_dec_digits_val(g.gid as int);
    lemma_digits_not_delim(dg);
    let r2 = g.users;
    let r1 = dg + seq![';'] + r2;
    let s = serialize_group(g);
    assert(s =~= g.group + seq![';'] + r1);
    assert(forall|j: int| 0 <= j < g.group.len() ==> g.group[j] != ';');
    assert(forall|j: int| 0 <= j < g.users.len() ==> g.users[j] != ';');
    lemma_split_concat(g.group, r1, ';');
    lemma_split_concat(dg, r2, ';');
    lemma_split_no_delim(g.users, ';');
    let fields = split_on(s, ';');
    assert(fields =~= seq![g.group, dg, g.users]);
    assert(parse_u32_spec(dg) == Some(g.gid));
    assert(parse_group_line(s)->Some_0 =~= g);
}

} // verus!
