//! The data layer's in-memory form: users and tasks held in vectors, with
//! linear scans. Loading from and writing to disk is the caller's business;
//! it hands the stores in and takes them back as plain values.

use vstd::prelude::*;
use crate::strutil::str_eq;

verus! {

/// One account: a unique numeric id, the login name, and the stored
/// password hash.
pub struct User {
    pub id: u32,
    pub username: String,
    pub password: String,
}

/// One task: a unique numeric id, the owning user's id, and the label.
pub struct Task {
    pub id: u32,
    pub user_id: u32,
    pub name: String,
}

impl User {
    pub fn new(id: u32, username: &str, password: &str) -> (r: Self)
        ensures
            r.id == id,
            r.username@ == username@,
            r.password@ == password@,
    {
        Self { id, username: username.to_owned(), password: password.to_owned() }
    }
}

impl Task {
    pub fn new(id: u32, user_id: u32, name: &str) -> (r: Self)
        ensures
            r.id == id,
            r.user_id == user_id,
            r.name@ == name@,
    {
        Self { id, user_id, name: name.to_owned() }
    }
}

impl Clone for User {
    fn clone(&self) -> (r: Self)
        ensures
            r == *self,
    {
        User { id: self.id, username: self.username.clone(), password: self.password.clone() }
    }
}

impl Clone for Task {
    fn clone(&self) -> (r: Self)
        ensures
            r == *self,
    {
        Task { id: self.id, user_id: self.user_id, name: self.name.clone() }
    }
}

/// The first user with the given name, scanning from the front.
pub open spec fn find_user(s: Seq<User>, name: Seq<char>) -> Option<User>
    decreases s.len(),
{
    if s.len() == 0 {
        None
    } else if s.first().username@ == name {
        Some(s.first())
    } else {
        find_user(s.drop_first(), name)
    }
}

/// `s` without every task whose id is `id`, in order.
pub open spec fn remove_task(s: Seq<Task>, id: u32) -> Seq<Task>
    decreases s.len(),
{
    if s.len() == 0 {
        Seq::empty()
    } else if s.last().id == id {
        remove_task(s.drop_last(), id)
    } else {
        remove_task(s.drop_last(), id).push(s.last())
    }
}

/// The users, in insertion order.
pub struct UsersRepository {
    pub store: Vec<User>,
}

/// The tasks, in insertion order.
pub struct TasksRepository {
    pub store: Vec<Task>,
}

impl UsersRepository {
    /// An empty store; the caller fills it with what the disk holds.
    pub fn new() -> (r: Self)
        ensures
            r.store@ == Seq::<User>::empty(),
    {
        Self { store: Vec::new() }
    }

    /// Appends a user to the store.
    pub fn save(&mut self, user: User)
        ensures
            final(self).store@ == old(self).store@.push(user),
    {
        self.store.push(user);
    }

    /// The first user with this name, by linear scan.
    pub fn find_by_username(&self, username: &str) -> (r: Option<User>)
        ensures
            r == find_user(self.store@, username@),
    {
        let n = self.store.len();
        let mut i: usize = 0;
        proof {
            assert(self.store@.skip(0) =~= self.store@);
        }
        while i < n
            invariant
                i <= n,
                n == self.store@.len(),
                find_user(self.store@, username@) == find_user(
                    self.store@.skip(i as int),
                    username@,
                ),
            decreases n - i,
        {
            proof {
                assert(self.store@.skip(i as int).first() == self.store@[i as int]);
                assert(self.store@.skip(i as int).drop_first() =~= self.store@.skip(i + 1));
            }
            if str_eq(self.store[i].username.as_str(), username) {
                return Some(self.store[i].clone());
            }
            i += 1;
        }
        proof {
            assert(self.store@.skip(n as int) =~= Seq::<User>::empty());
        }
        None
    }

    /// A copy of the whole store.
    pub fn all(&self) -> (r: Vec<User>)
        ensures
            r@ == self.store@,
    {
        let n = self.store.len();
        let mut out: Vec<User> = Vec::new();
        let mut i: usize = 0;
        while i < n
            invariant
                i <= n,
                n == self.store@.len(),
                out@ == self.store@.take(i as int),
            decreases n - i,
        {
            out.push(self.store[i].clone());
            proof {
                assert(self.store@.take(i + 1) =~= self.store@.take(i as int).push(
                    self.store@[i as int],
                ));
            }
            i += 1;
        }
        proof {
            assert(self.store@.take(n as int) =~= self.store@);
        }
        out
    }
}

impl TasksRepository {
    /// An empty store; the caller fills it with what the disk holds.
    pub fn new() -> (r: Self)
        ensures
            r.store@ == Seq::<Task>::empty(),
    {
        Self { store: Vec::new() }
    }

    /// Appends a task to the store.
    pub fn save(&mut self, task: Task)
        ensures
            final(self).store@ == old(self).store@.push(task),
    {
        self.store.push(task);
    }

    /// A copy of the whole store.
    pub fn all(&self) -> (r: Vec<Task>)
        ensures
            r@ == self.store@,
    {
        let n = self.store.len();
        let mut out: Vec<Task> = Vec::new();
        let mut i: usize = 0;
        while i < n
            invariant
                i <= n,
                n == self.store@.len(),
                out@ == self.store@.take(i as int),
            decreases n - i,
        {
            out.push(self.store[i].clone());
            proof {
                assert(self.store@.take(i + 1) =~= self.store@.take(i as int).push(
                    self.store@[i as int],
                ));
            }
            i += 1;
        }
        proof {
            assert(self.store@.take(n as int) =~= self.store@);
        }
        out
    }

    /// Removes every task with this id, keeping the rest in order.
    pub fn delete(&mut self, id: u32)
        ensures
            final(self).store@ == remove_task(old(self).store@, id),
    {
        let n = self.store.len();
        let mut out: Vec<Task> = Vec::new();
        proof {
            assert(self.store@.take(0) =~= Seq::<Task>::empty());
        }
        let mut i: usize = 0;
        while i < n
            invariant
                i <= n,
                n == self.store@.len(),
                out@ == remove_task(self.store@.take(i as int), id),
            decreases n - i,
        {
            proof {
                assert(self.store@.take(i + 1).drop_last() =~= self.store@.take(i as int));
                assert(self.store@.take(i + 1).last() == self.store@[i as int]);
            }
            if self.store[i].id != id {
                out.push(self.store[i].clone());
            }
            i += 1;
        }
        proof {
            assert(self.store@.take(n as int) =~= self.store@);
        }
        self.store = out;
    }
}

} // verus!
