//! A test environment: a ledger snapshot, the users and packages known by
//! name, the user that acts and the package in use, and the holdings queries
//! run against the ledger.
use vstd::prelude::*;

use crate::holdings::{
    account_index, get_account_vaults, reachable_holdings, ContentsModel, Holding,
    ResourceIndex,
};
use crate::ledger::{
    copy_bytes, keys_view, lookup, Address, Decimal, Fault, Ledger, NonFungibleKey,
};
use crate::query::{
    amount_for, get_amount_for_rd, get_non_fungible_keys_for_rd, keys_for, QueryError,
    QueryFault,
};

verus! {

/// A user: the bytes of its public key and its account.
#[derive(Debug, Clone, PartialEq, Eq)]
pub struct User {
    pub key: Vec<u8>,
    pub account: Address,
}

/// A user as plain values.
pub struct UserModel {
    pub key: Seq<u8>,
    pub account: Seq<u8>,
}

impl View for User {
    type V = UserModel;

    open spec fn view(&self) -> UserModel {
        UserModel { key: self.key@, account: self.account@ }
    }
}

impl User {
    pub fn duplicate(&self) -> (r: User)
        ensures
            r@ == self@,
    {
        User { key: copy_bytes(&self.key), account: self.account.duplicate() }
    }
}

/// The test environment. The name tables hold the newest entry for a name
/// first, so a name registered again refers to its newest entry.
pub struct TestEnv {
    pub ledger: Ledger,
    pub users: Vec<(String, User)>,
    pub current_user: Option<User>,
    pub packages: Vec<(String, Address)>,
    pub current_package: Option<Address>,
}

pub open spec fn user_table(users: Seq<(String, User)>) -> Seq<(Seq<char>, UserModel)> {
    users.map_values(|e: (String, User)| (e.0@, e.1@))
}

pub open spec fn package_table(packages: Seq<(String, Address)>) -> Seq<(Seq<char>, Seq<u8>)> {
    packages.map_values(|e: (String, Address)| (e.0@, e.1@))
}

proof fn lemma_lookup_front<K, V>(s: Seq<(K, V)>, k: K, v: V, q: K)
    ensures
        lookup(s.insert(0, (k, v)), q) == if q == k {
            Some(v)
        } else {
            lookup(s, q)
        },
{
    let t = s.insert(0, (k, v));
    assert(t[0] == (k, v));
    assert(t.subrange(1, t.len() as int) =~= s);
}

impl TestEnv {
    /// The user registered under a name.
    pub open spec fn user_named(&self, name: Seq<char>) -> Option<UserModel> {
        lookup(user_table(self.users@), name)
    }

    /// The package registered under a name.
    pub open spec fn package_named(&self, name: Seq<char>) -> Option<Seq<u8>> {
        lookup(package_table(self.packages@), name)
    }

    /// A test environment over a ledger, with no user and no package.
    pub fn new(ledger: Ledger) -> (r: TestEnv)
        ensures
            r.ledger@ == ledger@,
            r.users@.len() == 0,
            r.packages@.len() == 0,
            r.current_user is None,
            r.current_package is None,
    {
        TestEnv {
            ledger,
            users: Vec::new(),
            current_user: None,
            packages: Vec::new(),
            current_package: None,
        }
    }

    /// Records a package published under `name`. The first package recorded
    /// becomes the package in use.
    pub fn publish_package(&mut self, name: &str, package: Address)
        ensures
            forall|n: Seq<char>| #[trigger]
                final(self).package_named(n) == if n == name@ {
                    Some(package@)
                } else {
                    old(self).package_named(n)
                },
            final(self).users == old(self).users,
            final(self).current_user == old(self).current_user,
            final(self).ledger == old(self).ledger,
            match old(self).current_package {
                Some(p) => final(self).current_package == Some(p),
                None => final(self).current_package matches Some(p) && p@ == package@,
            },
    {
        let first = self.current_package.is_none();
        if first {
            self.current_package = Some(package.duplicate());
        }
        let ghost before = self.packages@;
        self.packages.insert(0, (name.to_owned(), package));
        proof {
            assert(package_table(self.packages@) =~= package_table(before).insert(
                0,
                (name@, package@),
            ));
            assert forall|n: Seq<char>| #[trigger]
                self.package_named(n) == if n == name@ {
                    Some(package@)
                } else {
                    lookup(package_table(before), n)
                } by {
                lemma_lookup_front(package_table(before), name@, package@, n);
            }
        }
    }

    /// The package registered under `name`.
    pub fn get_package(&self, name: &str) -> (r: Address)
        requires
            self.package_named(name@) is Some,
        ensures
            Some(r@) == self.package_named(name@),
    {
        let key = name.to_owned();
        let ghost t = package_table(self.packages@);
        let mut i: usize = 0;
        assert(t.subrange(0, t.len() as int) =~= t);
        loop
            invariant
                i < self.packages.len(),
                t == package_table(self.packages@),
                key@ == name@,
                lookup(t, name@) == lookup(t.subrange(i as int, t.len() as int), name@),
                lookup(t.subrange(i as int, t.len() as int), name@) is Some,
            decreases self.packages.len() - i,
        {
            let ghost tt = t.subrange(i as int, t.len() as int);
            assert(tt.subrange(1, tt.len() as int) =~= t.subrange(i + 1, t.len() as int));
            if self.packages[i].0 == key {
                return self.packages[i].1.duplicate();
            }
            i = i + 1;
        }
    }

    /// Makes the package registered under `name` the package in use.
    pub fn using_package(&mut self, name: &str)
        requires
            old(self).package_named(name@) is Some,
        ensures
            final(self).current_package matches Some(p) && Some(p@) == old(self).package_named(
                name@,
            ),
            final(self).packages == old(self).packages,
            final(self).users == old(self).users,
            final(self).current_user == old(self).current_user,
            final(self).ledger == old(self).ledger,
    {
        let package = self.get_package(name);
        self.current_package = Some(package);
    }

    /// Records a user under `name`, with its key and account. The first user
    /// recorded becomes the acting user.
    pub fn create_user(&mut self, name: &str, key: Vec<u8>, account: Address) -> (r: User)
        ensures
            r@ == (UserModel { key: key@, account: account@ }),
            forall|n: Seq<char>| #[trigger]
                final(self).user_named(n) == if n == name@ {
                    Some(r@)
                } else {
                    old(self).user_named(n)
                },
            final(self).packages == old(self).packages,
            final(self).current_package == old(self).current_package,
            final(self).ledger == old(self).ledger,
            match old(self).current_user {
                Some(u) => final(self).current_user == Some(u),
                None => final(self).current_user matches Some(u) && u@ == r@,
            },
    {
        let user = User { key, account };
        if self.current_user.is_none() {
            self.current_user = Some(user.duplicate());
        }
        let ghost before = self.users@;
        let r = user.duplicate();
        self.users.insert(0, (name.to_owned(), user));
        proof {
            assert(user_table(self.users@) =~= user_table(before).insert(0, (name@, r@)));
            assert forall|n: Seq<char>| #[trigger]
                self.user_named(n) == if n == name@ {
                    Some(r@)
                } else {
                    lookup(user_table(before), n)
                } by {
                lemma_lookup_front(user_table(before), name@, r@, n);
            }
        }
        r
    }

    /// The user registered under `name`.
    pub fn get_user(&self, name: &str) -> (r: &User)
        requires
            self.user_named(name@) is Some,
        ensures
            Some(r@) == self.user_named(name@),
    {
        let key = name.to_owned();
        let ghost t = user_table(self.users@);
        let mut i: usize = 0;
        assert(t.subrange(0, t.len() as int) =~= t);
        loop
            invariant
                i < self.users.len(),
                t == user_table(self.users@),
                key@ == name@,
                lookup(t, name@) == lookup(t.subrange(i as int, t.len() as int), name@),
                lookup(t.subrange(i as int, t.len() as int), name@) is Some,
            decreases self.users.len() - i,
        {
            let ghost tt = t.subrange(i as int, t.len() as int);
            assert(tt.subrange(1, tt.len() as int) =~= t.subrange(i + 1, t.len() as int));
            if self.users[i].0 == key {
                return &self.users[i].1;
            }
            i = i + 1;
        }
    }

    /// Makes the user registered under `name` the acting user.
    pub fn acting_as(&mut self, name: &str)
        requires
            old(self).user_named(name@) is Some,
        ensures
            final(self).current_user matches Some(u) && Some(u@) == old(self).user_named(name@),
            final(self).packages == old(self).packages,
            final(self).users == old(self).users,
            final(self).current_package == old(self).current_package,
            final(self).ledger == old(self).ledger,
    {
        let user = self.get_user(name).duplicate();
        self.current_user = Some(user);
    }

    /// The acting user.
    pub fn get_current_user(&self) -> (r: User)
        requires
            self.current_user is Some,
        ensures
            r@ == self.current_user.unwrap()@,
    {
        self.current_user.as_ref().unwrap().duplicate()
    }

    /// The package in use.
    pub fn get_current_package(&self) -> (r: Address)
        requires
            self.current_package is Some,
        ensures
            r@ == self.current_package.unwrap()@,
    {
        self.current_package.as_ref().unwrap().duplicate()
    }

    /// What a component holds, indexed by resource.
    pub fn get_account_vaults(&self, component_address: &Address) -> (r: Result<ResourceIndex, Fault>)
        ensures
            match r {
                Ok(ix) => {
                    &&& reachable_holdings(self.ledger@, component_address@) == Ok::<
                        Seq<Holding>,
                        Fault,
                    >(crate::holdings::holdings_view(ix.holdings@))
                    &&& account_index(self.ledger@, component_address@) == Ok::<
                        Map<Seq<u8>, ContentsModel>,
                        Fault,
                    >(ix@)
                },
                Err(e) => account_index(self.ledger@, component_address@) == Err::<
                    Map<Seq<u8>, ContentsModel>,
                    Fault,
                >(e),
            },
    {
        get_account_vaults(&self.ledger, component_address)
    }

    /// The amount of a fungible resource that a component holds.
    pub fn get_amount_for_rd(&self, component_address: &Address, resource_def: &Address) -> (r:
        Result<Decimal, QueryError>)
        ensures
            match r {
                Ok(a) => amount_for(self.ledger@, component_address@, resource_def@) == Ok::<
                    Decimal,
                    QueryFault,
                >(a),
                Err(e) => {
                    &&& amount_for(self.ledger@, component_address@, resource_def@) == Err::<
                        Decimal,
                        QueryFault,
                    >(e@)
                    &&& (e matches QueryError::ResourceKindMismatch(a) ==> a@ == resource_def@)
                },
            },
    {
        get_amount_for_rd(&self.ledger, component_address, resource_def)
    }

    /// The item identifiers of a non-fungible resource that a component holds.
    pub fn get_non_fungible_keys_for_rd(
        &self,
        component_address: &Address,
        resource_def: &Address,
    ) -> (r: Result<Vec<NonFungibleKey>, QueryError>)
        ensures
            match r {
                Ok(keys) => keys_for(self.ledger@, component_address@, resource_def@) == Ok::<
                    Seq<Seq<u8>>,
                    QueryFault,
                >(keys_view(keys@)),
                Err(e) => {
                    &&& keys_for(self.ledger@, component_address@, resource_def@) == Err::<
                        Seq<Seq<u8>>,
                        QueryFault,
                    >(e@)
                    &&& (e matches QueryError::ResourceKindMismatch(a) ==> a@ == resource_def@)
                },
            },
    {
        get_non_fungible_keys_for_rd(&self.ledger, component_address, resource_def)
    }
}

} // verus!
