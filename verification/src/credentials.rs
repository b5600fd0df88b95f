//! Credentials for miners, by the name of their firmware.

use vstd::prelude::*;

verus! {

/// What a miner asks for before it obeys.
pub struct MinerAuth {
    pub username: String,
    pub password: String,
}

/// A [`MinerAuth`] with its texts as sequences of characters.
pub struct AuthModel {
    pub username: Seq<char>,
    pub password: Seq<char>,
}

impl View for MinerAuth {
    type V = AuthModel;

    open spec fn view(&self) -> AuthModel {
        AuthModel { username: self.username@, password: self.password@ }
    }
}

impl Clone for MinerAuth {
    fn clone(&self) -> (copy: Self)
        ensures
            copy@ == self@,
    {
        MinerAuth { username: self.username.clone(), password: self.password.clone() }
    }
}

struct AuthEntry {
    name: String,
    auth: MinerAuth,
}

/// Credentials by name; its view is the map from names to credentials.
pub struct AuthTable {
    entries: Vec<AuthEntry>,
}

/// No name is listed twice.
spec fn names_differ(entries: Seq<AuthEntry>) -> bool {
    forall|i: int, j: int|
        0 <= i < j < entries.len() ==> (#[trigger] entries[i]).name@ != (
        #[trigger] entries[j]).name@
}

/// The map that a list of entries stands for.
spec fn table(entries: Seq<AuthEntry>) -> Map<Seq<char>, AuthModel>
    decreases entries.len(),
{
    if entries.len() == 0 {
        Map::empty()
    } else {
        table(entries.drop_last()).insert(entries.last().name@, entries.last().auth@)
    }
}

impl View for AuthTable {
    type V = Map<Seq<char>, AuthModel>;

    closed spec fn view(&self) -> Map<Seq<char>, AuthModel> {
        table(self.entries@)
    }
}

/// The map holds the entries and nothing else.
proof fn lemma_table(entries: Seq<AuthEntry>)
    requires
        names_differ(entries),
    ensures
        table(entries).dom().finite(),
        table(entries).dom().len() == entries.len(),
        forall|i: int|
            0 <= i < entries.len() ==> table(entries).dom().contains(
                (#[trigger] entries[i]).name@,
            ) && table(entries)[entries[i].name@] == entries[i].auth@,
        forall|name: Seq<char>| #[trigger]
            table(entries).dom().contains(name) ==> exists|i: int|
                0 <= i < entries.len() && (#[trigger] entries[i]).name@ == name,
    decreases entries.len(),
{
    if entries.len() > 0 {
        let front = entries.drop_last();
        let last = entries.last();
        assert(names_differ(front)) by {
            assert forall|i: int, j: int| 0 <= i < j < front.len() implies (
            #[trigger] front[i]).name@ != (#[trigger] front[j]).name@ by {
                assert(entries[i].name@ != entries[j].name@);
            }
        }
        lemma_table(front);
        assert(!table(front).dom().contains(last.name@)) by {
            if table(front).dom().contains(last.name@) {
                let i = choose|i: int|
                    0 <= i < front.len() && (#[trigger] front[i]).name@ == last.name@;
                assert(entries[i].name@ != entries[entries.len() - 1].name@);
            }
        }
        assert forall|i: int| 0 <= i < entries.len() implies table(entries).dom().contains(
            (#[trigger] entries[i]).name@,
        ) && table(entries)[entries[i].name@] == entries[i].auth@ by {
            if i < front.len() {
                assert(front[i] == entries[i]);
                assert(entries[i].name@ != entries[entries.len() - 1].name@);
            }
        }
        assert forall|name: Seq<char>| #[trigger]
            table(entries).dom().contains(name) implies exists|i: int|
            0 <= i < entries.len() && (#[trigger] entries[i]).name@ == name by {
            if name == last.name@ {
                assert(entries[entries.len() - 1].name@ == name);
            } else {
                assert(table(front).dom().contains(name));
                let i = choose|i: int|
                    0 <= i < front.len() && (#[trigger] front[i]).name@ == name;
                assert(entries[i].name@ == name);
            }
        }
    }
}

/// Replacing an entry of the same name replaces it in the map.
proof fn lemma_table_replaced(entries: Seq<AuthEntry>, i: int, entry: AuthEntry)
    requires
        names_differ(entries),
        0 <= i < entries.len(),
        entries[i].name@ == entry.name@,
    ensures
        names_differ(entries.update(i, entry)),
        table(entries.update(i, entry)) == table(entries).insert(entry.name@, entry.auth@),
{
    let after = entries.update(i, entry);
    assert forall|j: int, k: int| 0 <= j < k < after.len() implies (#[trigger] after[j]).name@ != (
    #[trigger] after[k]).name@ by {
        assert(entries[j].name@ != entries[k].name@);
    }
    lemma_table(entries);
    lemma_table(after);
    let expected = table(entries).insert(entry.name@, entry.auth@);
    assert forall|name: Seq<char>| #[trigger]
        table(after).dom().contains(name) <==> expected.dom().contains(name) by {
        if table(after).dom().contains(name) {
            let k = choose|k: int| 0 <= k < after.len() && (#[trigger] after[k]).name@ == name;
            assert(entries[k].name@ == name);
        }
        if expected.dom().contains(name) {
            assert(table(entries).dom().contains(name)) by {
                assert(entries[i].name@ == entry.name@);
            }
            let k = choose|k: int| 0 <= k < entries.len() && (#[trigger] entries[k]).name@ == name;
            assert(after[k].name@ == name);
        }
    }
    assert forall|name: Seq<char>| #[trigger]
        table(after).dom().contains(name) implies table(after)[name] == expected[name] by {
        let k = choose|k: int| 0 <= k < after.len() && (#[trigger] after[k]).name@ == name;
        assert(after[k].name@ == name);
        if k != i {
            assert(after[k] == entries[k]);
            assert(entries[k].name@ != entries[i].name@);
        }
    }
    assert(table(after) =~= expected);
}

impl AuthTable {
    #[verifier::type_invariant]
    spec fn unambiguous(self) -> bool {
        names_differ(self.entries@)
    }

    /// A table without credentials.
    pub fn new() -> (table: AuthTable)
        ensures
            table@ == Map::<Seq<char>, AuthModel>::empty(),
    {
        AuthTable { entries: Vec::new() }
    }

    /// Where the credentials for `name` are listed.
    fn position(&self, name: &String) -> (position: Option<usize>)
        ensures
            match position {
                Some(i) => i < self.entries.len() && self.entries[i as int].name@ == name@,
                None => !self@.dom().contains(name@),
            },
    {
        let mut i: usize = 0;
        while i < self.entries.len()
            invariant
                i <= self.entries.len(),
                forall|k: int| 0 <= k < i ==> (#[trigger] self.entries[k]).name@ != name@,
            decreases self.entries.len() - i,
        {
            if self.entries[i].name.eq(name) {
                return Some(i);
            }
            i = i + 1;
        }
        proof {
            use_type_invariant(self);
            lemma_table(self.entries@);
            assert forall|k: int| 0 <= k < self.entries@.len() implies (
            #[trigger] self.entries@[k]).name@ != name@ by {
                assert(self.entries[k].name@ != name@);
            }
        }
        None
    }

    /// The credentials for `name`.
    pub fn get(&self, name: &String) -> (auth: Option<&MinerAuth>)
        ensures
            match auth {
                Some(auth) => self@.dom().contains(name@) && self@[name@] == auth@,
                None => !self@.dom().contains(name@),
            },
    {
        match self.position(name) {
            Some(i) => {
                proof {
                    use_type_invariant(self);
                    lemma_table(self.entries@);
                    assert(self.entries@[i as int].name@ == name@);
                }
                Some(&self.entries[i].auth)
            },
            None => None,
        }
    }

    /// Sets the credentials for `name` in place of those that were there.
    pub fn insert(&mut self, name: String, auth: MinerAuth)
        ensures
            final(self)@ == old(self)@.insert(name@, auth@),
    {
        proof {
            use_type_invariant(&*self);
            lemma_table(self.entries@);
        }
        let position = self.position(&name);
        let mut entries: Vec<AuthEntry> = Vec::new();
        std::mem::swap(&mut entries, &mut self.entries);
        let ghost before = entries@;
        let entry = AuthEntry { name, auth };
        match position {
            Some(i) => {
                proof {
                    lemma_table_replaced(before, i as int, entry);
                }
                entries[i] = entry;
            },
            None => {
                entries.push(entry);
                proof {
                    assert(entries@.drop_last() =~= before);
                    assert(names_differ(entries@)) by {
                        assert forall|j: int, k: int| 0 <= j < k < entries@.len() implies (
                        #[trigger] entries@[j]).name@ != (#[trigger] entries@[k]).name@ by {
                            assert(entries@[j] == before[j]);
                            if k < before.len() {
                                assert(before[j].name@ != before[k].name@);
                            } else {
                                assert(table(before).dom().contains(before[j].name@));
                            }
                        }
                    }
                }
            },
        }
        self.entries = entries;
    }

    /// The number of names that have credentials.
    pub fn len(&self) -> (len: usize)
        ensures
            self@.dom().finite(),
            len == self@.dom().len(),
    {
        proof {
            use_type_invariant(self);
            lemma_table(self.entries@);
        }
        self.entries.len()
    }
}

impl Clone for AuthTable {
    fn clone(&self) -> (copy: Self)
        ensures
            copy@ == self@,
    {
        let mut entries: Vec<AuthEntry> = Vec::new();
        let mut i: usize = 0;
        proof {
            use_type_invariant(self);
        }
        while i < self.entries.len()
            invariant
                i <= self.entries.len(),
                i == entries.len(),
                names_differ(self.entries@),
                forall|k: int|
                    0 <= k < i ==> (#[trigger] entries[k]).name@ == self.entries[k].name@,
                table(entries@) == table(self.entries@.take(i as int)),
            decreases self.entries.len() - i,
        {
            let entry = &self.entries[i];
            let ghost before = entries@;
            entries.push(AuthEntry { name: entry.name.clone(), auth: entry.auth.clone() });
            assert(entries@.drop_last() =~= before);
            assert(self.entries@.take(i + 1).drop_last() =~= self.entries@.take(i as int));
            i = i + 1;
        }
        assert(self.entries@.take(i as int) =~= self.entries@);
        assert forall|j: int, k: int| 0 <= j < k < entries@.len() implies (
        #[trigger] entries@[j]).name@ != (#[trigger] entries@[k]).name@ by {
            assert(entries[j].name@ == self.entries[j].name@);
            assert(entries[k].name@ == self.entries[k].name@);
            assert(self.entries@[j].name@ != self.entries@[k].name@);
        }
        AuthTable { entries }
    }
}

/// Credentials are told apart by their user names and passwords.
pub proof fn law_credentials_are_two_texts(a: MinerAuth, b: MinerAuth)
    ensures
        a@ == b@ <==> a.username@ == b.username@ && a.password@ == b.password@,
{
}

} // verus!
