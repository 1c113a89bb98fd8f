//! Authentication of users and authorization of sensitive operations.

use vstd::prelude::*;

verus! {

#[derive(Clone, Copy, Debug, PartialEq, Eq, Structural)]
pub enum Role {
    Admin,
    User,
}

#[derive(Clone, Copy, Debug, PartialEq, Eq, Structural)]
pub enum Operation {
    CreateInvoice,
    CreateSnapshot,
    RestoreSnapshot,
    ChangeSettings,
    ManageUsers,
}

#[derive(Clone, Copy, Debug, PartialEq, Eq, Structural)]
pub enum AccessError {
    AuthFailure,
    Unauthorized(Operation),
    UsernameTaken,
}

/// The capability table: an administrator may do everything, a user may
/// only sell and take snapshots.
pub open spec fn allowed(role: Role, op: Operation) -> bool {
    match role {
        Role::Admin => true,
        Role::User => op == Operation::CreateInvoice || op == Operation::CreateSnapshot,
    }
}

pub fn authorize(role: Role, op: Operation) -> (r: bool)
    ensures
        r == allowed(role, op),
{
    match role {
        Role::Admin => true,
        Role::User => match op {
            Operation::CreateInvoice => true,
            Operation::CreateSnapshot => true,
            _ => false,
        },
    }
}

/// A user's account; the password is kept only as a hash.
pub struct Account {
    pub username: String,
    pub password_hash: String,
    pub role: Role,
    pub last_login: Option<u64>,
}

/// Who is signed in, and with which role. Only `Accounts::authenticate`
/// makes one.
pub struct Session {
    username: String,
    role: Role,
}

impl Session {
    pub closed spec fn spec_role(&self) -> Role {
        self.role
    }

    pub closed spec fn spec_username(&self) -> Seq<char> {
        self.username@
    }

    pub fn role(&self) -> (r: Role)
        ensures
            r == self.spec_role(),
    {
        self.role
    }

    pub fn username(&self) -> (r: &String)
        ensures
            r@ == self.spec_username(),
    {
        &self.username
    }
}

/// User accounts; they change only through the methods below.
pub struct Accounts {
    pub(crate) accounts: Vec<Account>,
}

impl Accounts {
    pub open(crate) spec fn spec_accounts(&self) -> Seq<Account> {
        self.accounts@
    }

    pub fn accounts(&self) -> (r: &Vec<Account>)
        ensures
            r@ == self.spec_accounts(),
    {
        &self.accounts
    }

    /// Usernames are unique.
    pub open spec fn wf(&self) -> bool {
        forall|i: int, j: int|
            0 <= i < j < self.spec_accounts().len() ==> (#[trigger] self.spec_accounts()[i]).username@
                != (#[trigger] self.spec_accounts()[j]).username@
    }

    pub open spec fn index_of(&self, username: Seq<char>) -> int {
        choose|i: int| 0 <= i < self.spec_accounts().len() && self.spec_accounts()[i].username@ == username
    }

    pub open spec fn has_user(&self, username: Seq<char>) -> bool {
        exists|i: int| 0 <= i < self.spec_accounts().len() && self.spec_accounts()[i].username@ == username
    }

    /// Provisions the accounts with their first administrator.
    pub fn new(admin_username: String, admin_password_hash: String) -> (r: Accounts)
        ensures
            r.wf(),
            r.spec_accounts() == seq![
                Account {
                    username: admin_username,
                    password_hash: admin_password_hash,
                    role: Role::Admin,
                    last_login: None,
                },
            ],
    {
        let mut accounts: Vec<Account> = Vec::new();
        accounts.push(
            Account {
                username: admin_username,
                password_hash: admin_password_hash,
                role: Role::Admin,
                last_login: None,
            },
        );
        assert(accounts@ =~= seq![
            Account {
                username: admin_username,
                password_hash: admin_password_hash,
                role: Role::Admin,
                last_login: None,
            },
        ]);
        Accounts { accounts }
    }

    /// Checks that no two rows share a username.
    pub fn is_consistent(&self) -> (r: bool)
        ensures
            r == self.wf(),
    {
        let n = self.accounts.len();
        let mut i: usize = 0;
        while i < n
            invariant
                n == self.spec_accounts().len(),
                i <= n,
                forall|a: int, b: int|
                    0 <= a < b < i ==> (#[trigger] self.spec_accounts()[a]).username@ != (#[trigger] self.spec_accounts()[b]).username@,
            decreases n - i,
        {
            let mut k: usize = 0;
            while k < i
                invariant
                    n == self.spec_accounts().len(),
                    k <= i < n,
                    forall|a: int| 0 <= a < k ==> (#[trigger] self.spec_accounts()[a]).username@ != self.spec_accounts()[i as int].username@,
                decreases i - k,
            {
                if self.accounts[k].username == self.accounts[i].username {
                    return false;
                }
                k = k + 1;
            }
            i = i + 1;
        }
        true
    }

    fn find(&self, username: &String) -> (r: Option<usize>)
        ensures
            r is None <==> !self.has_user(username@),
            r is Some ==> r.unwrap() < self.spec_accounts().len() && self.spec_accounts()[r.unwrap() as int].username@
                == username@,
    {
        let mut i: usize = 0;
        while i < self.accounts.len()
            invariant
                i <= self.spec_accounts().len(),
                forall|j: int| 0 <= j < i ==> (#[trigger] self.spec_accounts()[j]).username@ != username@,
            decreases self.spec_accounts().len() - i,
        {
            if self.accounts[i].username == *username {
                return Some(i);
            }
            i = i + 1;
        }
        None
    }

    /// Adds an account, for a session whose role may manage users; refused
    /// when the username is taken.
    pub fn add(&mut self, session: &Session, username: String, password_hash: String, role: Role) -> (r:
        Result<(), AccessError>)
        requires
            old(self).wf(),
        ensures
            final(self).wf(),
            !allowed(session.spec_role(), Operation::ManageUsers) ==> r == Err::<(), AccessError>(
                AccessError::Unauthorized(Operation::ManageUsers),
            ),
            allowed(session.spec_role(), Operation::ManageUsers) && old(self).has_user(username@) ==> r
                == Err::<(), AccessError>(AccessError::UsernameTaken),
            r is Ok <==> allowed(session.spec_role(), Operation::ManageUsers) && !old(self).has_user(username@),
            r is Ok ==> final(self).spec_accounts() == old(self).spec_accounts().push(
                Account { username, password_hash, role, last_login: None },
            ),
            r is Err ==> final(self).spec_accounts() == old(self).spec_accounts(),
    {
        if !authorize(session.role(), Operation::ManageUsers) {
            return Err(AccessError::Unauthorized(Operation::ManageUsers));
        }
        match self.find(&username) {
            Some(_) => Err(AccessError::UsernameTaken),
            None => {
                let ghost before = self.spec_accounts();
                self.accounts.push(Account { username, password_hash, role, last_login: None });
                proof {
                    assert forall|i: int, j: int| 0 <= i < j < self.spec_accounts().len() implies (
                    #[trigger] self.spec_accounts()[i]).username@ != (#[trigger] self.spec_accounts()[j]).username@ by {
                        if j == before.len() {
                            assert(self.spec_accounts()[i] == before[i]);
                        }
                    }
                }
                Ok(())
            },
        }
    }

    /// Signs a user in when the presented hash matches the stored one, and
    /// records the time of login.
    pub fn authenticate(&mut self, username: &String, password_hash: &String, now: u64) -> (r: Result<
        Session,
        AccessError,
    >)
        requires
            old(self).wf(),
        ensures
            final(self).wf(),
            final(self).spec_accounts().len() == old(self).spec_accounts().len(),
            ({
                let i = old(self).index_of(username@);
                let before = old(self).spec_accounts();
                let after = final(self).spec_accounts();
                let ok = old(self).has_user(username@) && before[i].password_hash@ == password_hash@;
                &&& ok ==> r is Ok && r.unwrap().spec_username() == username@ && r.unwrap().spec_role() == before[i].role
                    && after[i].last_login == Some(now) && after[i].username == before[i].username
                    && after[i].password_hash == before[i].password_hash && after[i].role == before[i].role
                    && forall|j: int| 0 <= j < before.len() && j != i ==> #[trigger] after[j] == before[j]
                &&& !ok ==> r == Err::<Session, AccessError>(AccessError::AuthFailure) && after == before
            }),
    {
        match self.find(username) {
            None => Err(AccessError::AuthFailure),
            Some(i) => {
                proof {
                    let k = self.index_of(username@);
                    if k != i {
                        if k < i {
                            assert(self.spec_accounts()[k].username@ != self.spec_accounts()[i as int].username@);
                        } else {
                            assert(self.spec_accounts()[i as int].username@ != self.spec_accounts()[k].username@);
                        }
                    }
                }
                if self.accounts[i].password_hash == *password_hash {
                    self.accounts[i].last_login = Some(now);
                    let role = self.accounts[i].role;
                    Ok(Session { username: username.clone(), role })
                } else {
                    Err(AccessError::AuthFailure)
                }
            },
        }
    }
}

} // verus!
