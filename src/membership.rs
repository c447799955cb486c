use vstd::prelude::*;

verus! {

/// One registered user. `is_member` tells confirmed members from users who
/// are registered but not yet confirmed.
#[derive(Debug)]
pub struct User {
    pub id: u64,
    pub account: String,
    pub name: String,
    pub is_member: bool,
}

impl User {
    /// An independent copy of this record.
    pub fn duplicate(&self) -> (r: User)
        ensures
            r == *self,
    {
        User {
            id: self.id,
            account: self.account.clone(),
            name: self.name.clone(),
            is_member: self.is_member,
        }
    }
}

/// Each user's id is its registration position, so ids never repeat.
pub open spec fn ids_are_positions(users: Seq<User>) -> bool {
    forall|i: int| 0 <= i < users.len() ==> #[trigger] users[i].id == i
}

/// The first user with exactly this display name, if any.
pub open spec fn find_name(users: Seq<User>, name: Seq<char>) -> Option<User>
    decreases users.len(),
{
    if users.len() == 0 {
        None
    } else if users[0].name@ == name {
        Some(users[0])
    } else {
        find_name(users.drop_first(), name)
    }
}

/// The first user registered for exactly this account, if any.
pub open spec fn find_account(users: Seq<User>, account: Seq<char>) -> Option<User>
    decreases users.len(),
{
    if users.len() == 0 {
        None
    } else if users[0].account@ == account {
        Some(users[0])
    } else {
        find_account(users.drop_first(), account)
    }
}

/// The record `add_user` appends.
pub open spec fn new_user(id: u64, account: String, name: String) -> User {
    User { id, account, name, is_member: false }
}

/// The authoritative store of user records, in registration order.
pub struct Membership {
    users: Vec<User>,
}

impl View for Membership {
    type V = Seq<User>;

    closed spec fn view(&self) -> Seq<User> {
        self.users@
    }
}

impl Membership {
    /// Well-formed: ids are registration positions.
    pub open spec fn wf(&self) -> bool {
        ids_are_positions(self@)
    }

    /// An empty registry.
    pub fn new() -> (r: Membership)
        ensures
            r@ == Seq::<User>::empty(),
            r.wf(),
    {
        Membership { users: Vec::new() }
    }

    /// Registers a user, not yet a confirmed member, and returns its fresh id.
    pub fn add_user(&mut self, account: String, name: String) -> (r: u64)
        requires
            old(self).wf(),
            old(self)@.len() < u64::MAX,
        ensures
            final(self).wf(),
            r == old(self)@.len(),
            final(self)@ == old(self)@.push(new_user(r, account, name)),
    {
        let id = self.users.len() as u64;
        self.users.push(User { id, account, name, is_member: false });
        proof {
            assert(self@[id as int].id == id);
        }
        id
    }

    /// The first user with exactly this display name.
    pub fn find_by_name(&self, name: &String) -> (r: Option<User>)
        ensures
            r == find_name(self@, name@),
    {
        assert(self@.subrange(0, self@.len() as int) =~= self@);
        let mut i: usize = 0;
        while i < self.users.len()
            invariant
                i <= self@.len(),
                self.users@ == self@,
                find_name(self@, name@) == find_name(self@.subrange(i as int, self@.len() as int), name@),
            decreases self@.len() - i,
        {
            let ghost rest = self@.subrange(i as int, self@.len() as int);
            assert(rest.drop_first() =~= self@.subrange(i + 1, self@.len() as int));
            if self.users[i].name == *name {
                return Some(self.users[i].duplicate());
            }
            i = i + 1;
        }
        None
    }

    /// The first user registered for exactly this account.
    pub fn find_by_account(&self, account: &String) -> (r: Option<User>)
        ensures
            r == find_account(self@, account@),
    {
        assert(self@.subrange(0, self@.len() as int) =~= self@);
        let mut i: usize = 0;
        while i < self.users.len()
            invariant
                i <= self@.len(),
                self.users@ == self@,
                find_account(self@, account@) == find_account(
                    self@.subrange(i as int, self@.len() as int),
                    account@,
                ),
            decreases self@.len() - i,
        {
            let ghost rest = self@.subrange(i as int, self@.len() as int);
            assert(rest.drop_first() =~= self@.subrange(i + 1, self@.len() as int));
            if self.users[i].account == *account {
                return Some(self.users[i].duplicate());
            }
            i = i + 1;
        }
        None
    }

    /// A fresh snapshot of every record, in registration order.
    pub fn get_all(&self) -> (r: Vec<User>)
        ensures
            r@ == self@,
    {
        let mut out: Vec<User> = Vec::new();
        let mut i: usize = 0;
        while i < self.users.len()
            invariant
                i <= self@.len(),
                self.users@ == self@,
                out@ == self@.subrange(0, i as int),
            decreases self@.len() - i,
        {
            out.push(self.users[i].duplicate());
            i = i + 1;
            assert(out@ =~= self@.subrange(0, i as int));
        }
        assert(out@ =~= self@);
        out
    }

    /// Number of registered users.
    pub fn count(&self) -> (r: usize)
        ensures
            r == self@.len(),
    {
        self.users.len()
    }
}

} // verus!
