//! The accounts of the database and their ports.

use crate::config::PortRange;
use crate::errors::{account_not_found, AppError};
use crate::model::{
    account_views, metadata_text, Account, AccountView, Database, DatabaseView,
};
use crate::json::{or_default, or_view, JsonView};
use crate::text::text_eq;
use vstd::prelude::*;
use vstd::string::*;

verus! {

/// Whether an account is still there.
pub open spec fn is_active(account: AccountView) -> bool {
    account.status != "removed"@
}

/// Whether an account is still there.
fn active(account: &Account) -> (result: bool)
    ensures
        result == is_active(account@),
{
    !text_eq(account.status.as_str(), "removed")
}

/// The accounts that are still there, in the order of the list.
pub open spec fn active_of(accounts: Seq<AccountView>) -> Seq<AccountView>
    decreases accounts.len(),
{
    if accounts.len() == 0 {
        Seq::empty()
    } else {
        let before = active_of(accounts.drop_last());
        if is_active(accounts.last()) {
            before.push(accounts.last())
        } else {
            before
        }
    }
}

/// The position of the first account from `i` on that is still there and has this identifier.
pub open spec fn active_position(accounts: Seq<AccountView>, id: Seq<char>, i: int) -> Option<int>
    decreases accounts.len() - i,
{
    if i >= accounts.len() {
        None
    } else if accounts[i].id == id && is_active(accounts[i]) {
        Some(i)
    } else {
        active_position(accounts, id, i + 1)
    }
}

/// The position of the first account from `i` on that has this identifier.
pub open spec fn position(accounts: Seq<AccountView>, id: Seq<char>, i: int) -> Option<int>
    decreases accounts.len() - i,
{
    if i >= accounts.len() {
        None
    } else if accounts[i].id == id {
        Some(i)
    } else {
        position(accounts, id, i + 1)
    }
}

/// The account that is still there and has this identifier.
pub open spec fn active_account(accounts: Seq<AccountView>, id: Seq<char>) -> Option<AccountView> {
    match active_position(accounts, id, 0) {
        Some(at) => Some(accounts[at]),
        None => None,
    }
}

/// Whether a port belongs to an account that is still there.
pub open spec fn in_use(accounts: Seq<AccountView>, port: u16) -> bool {
    exists|i: int|
        0 <= i < accounts.len() && is_active(#[trigger] accounts[i]) && accounts[i].port == Some(port)
}

/// Whether a port is neither in use nor to be skipped.
pub open spec fn is_free(accounts: Seq<AccountView>, skip: Seq<u16>, port: u16) -> bool {
    !in_use(accounts, port) && !skip.contains(port)
}

/// The first free port from `from` to `end`.
pub open spec fn first_free(
    accounts: Seq<AccountView>,
    skip: Seq<u16>,
    from: int,
    end: int,
) -> Option<u16>
    decreases end - from + 1,
{
    if from > end {
        None
    } else if is_free(accounts, skip, from as u16) {
        Some(from as u16)
    } else {
        first_free(accounts, skip, from + 1, end)
    }
}

/// Whether a released port can be given out again.
pub open spec fn is_reusable(
    accounts: Seq<AccountView>,
    skip: Seq<u16>,
    range: PortRange,
    port: u16,
) -> bool {
    range.start <= port <= range.end && is_free(accounts, skip, port)
}

/// The first reusable one of the released ports, and those behind it.
pub open spec fn take_released(
    accounts: Seq<AccountView>,
    skip: Seq<u16>,
    range: PortRange,
    released: Seq<u16>,
) -> (Option<u16>, Seq<u16>)
    decreases released.len(),
{
    if released.len() == 0 {
        (None, Seq::empty())
    } else if is_reusable(accounts, skip, range, released[0]) {
        (Some(released[0]), released.skip(1))
    } else {
        take_released(accounts, skip, range, released.skip(1))
    }
}

/// The port that giving out ports has come to.
pub open spec fn next_candidate(db: DatabaseView, range: PortRange) -> int {
    let next = if db.next_port > range.start {
        db.next_port as int
    } else {
        range.start as int
    };
    if next > u16::MAX {
        u16::MAX as int
    } else {
        next
    }
}

/// The port to give out, and the database afterwards: the range is gone along first; when it is used
/// up, released ports are given out again, and then any that is free.
pub open spec fn allocated(db: DatabaseView, range: PortRange, skip: Seq<u16>) -> (
    Option<u16>,
    DatabaseView,
) {
    match first_free(db.accounts, skip, next_candidate(db, range), range.end as int) {
        Some(port) => (Some(port), DatabaseView { next_port: (port + 1) as u32, ..db }),
        None => {
            let (reused, rest) = take_released(db.accounts, skip, range, db.released_ports);
            let after = DatabaseView { released_ports: rest, ..db };
            match reused {
                Some(port) => (Some(port), after),
                None => (
                    first_free(db.accounts, skip, range.start as int, range.end as int),
                    after,
                ),
            }
        },
    }
}

/// The database without the account at `at`; its port is released.
pub open spec fn without_account(db: DatabaseView, at: int) -> DatabaseView {
    let released = match db.accounts[at].port {
        Some(port) => if db.released_ports.contains(port) {
            db.released_ports
        } else {
            db.released_ports.push(port)
        },
        None => db.released_ports,
    };
    DatabaseView { released_ports: released, accounts: db.accounts.remove(at), ..db }
}

/// An account that must log in again, for this reason.
pub open spec fn marked_account(
    account: AccountView,
    message: Seq<char>,
    time: Seq<char>,
) -> AccountView {
    AccountView {
        status: "needs_reauth"@,
        last_error: Some(message),
        updated_at: time,
        ..account
    }
}

/// An account that was asked something at this time, which was answered with this status.
pub open spec fn noted_account(account: AccountView, status: u16, time: Seq<char>) -> AccountView {
    AccountView { last_request_at: Some(time), last_status: Some(status), ..account }
}

/// Whether `list` holds `port`.
fn contains_port(list: &Vec<u16>, port: u16) -> (found: bool)
    ensures
        found == list@.contains(port),
{
    let mut i: usize = 0;
    while i < list.len()
        invariant
            i <= list@.len(),
            forall|j: int| 0 <= j < i ==> list@[j] != port,
        decreases list@.len() - i,
    {
        if list[i] == port {
            assert(list@[i as int] == port);
            return true;
        }
        i = i + 1;
    }
    false
}

impl Database {
    /// The accounts that are still there.
    pub fn active_accounts(&self) -> (accounts: Vec<Account>)
        ensures
            account_views(accounts@) == active_of(self@.accounts),
    {
        let mut accounts: Vec<Account> = Vec::new();
        let mut i: usize = 0;
        proof {
            assert(self@.accounts.take(0) =~= Seq::<AccountView>::empty());
            assert(account_views(accounts@) =~= Seq::<AccountView>::empty());
        }
        while i < self.accounts.len()
            invariant
                i <= self.accounts@.len(),
                account_views(accounts@) == active_of(self@.accounts.take(i as int)),
            decreases self.accounts@.len() - i,
        {
            proof {
                let next = self@.accounts.take(i + 1);
                assert(next.drop_last() =~= self@.accounts.take(i as int));
                assert(next.last() == self.accounts@[i as int]@);
            }
            if active(&self.accounts[i]) {
                let ghost before = accounts@;
                let copy = self.accounts[i].clone();
                accounts.push(copy);
                assert(account_views(accounts@) =~= account_views(before).push(copy@));
            }
            i = i + 1;
        }
        assert(self@.accounts.take(self.accounts@.len() as int) =~= self@.accounts);
        accounts
    }

    /// The position of the account that is still there and has this identifier.
    pub fn active_index(&self, id: &str) -> (at: Option<usize>)
        ensures
            active_position(self@.accounts, id@, 0) == (match at {
                Some(at) => Some(at as int),
                None => None,
            }),
            at matches Some(at) ==> {
                &&& at < self.accounts@.len()
                &&& is_active(self.accounts@[at as int]@)
                &&& self.accounts@[at as int]@.id == id@
            },
    {
        let mut i: usize = 0;
        while i < self.accounts.len()
            invariant
                i <= self.accounts@.len(),
                active_position(self@.accounts, id@, 0) == active_position(
                    self@.accounts,
                    id@,
                    i as int,
                ),
            decreases self.accounts@.len() - i,
        {
            assert(self@.accounts[i as int] == self.accounts@[i as int]@);
            if text_eq(self.accounts[i].id.as_str(), id) && active(&self.accounts[i]) {
                return Some(i);
            }
            i = i + 1;
        }
        None
    }

    /// The position of the first account with this identifier.
    pub fn index(&self, id: &str) -> (at: Option<usize>)
        ensures
            position(self@.accounts, id@, 0) == (match at {
                Some(at) => Some(at as int),
                None => None,
            }),
            at matches Some(at) ==> at < self.accounts@.len(),
    {
        let mut i: usize = 0;
        while i < self.accounts.len()
            invariant
                i <= self.accounts@.len(),
                position(self@.accounts, id@, 0) == position(self@.accounts, id@, i as int),
            decreases self.accounts@.len() - i,
        {
            assert(self@.accounts[i as int] == self.accounts@[i as int]@);
            if text_eq(self.accounts[i].id.as_str(), id) {
                return Some(i);
            }
            i = i + 1;
        }
        None
    }

    /// The account that is still there and has this identifier.
    pub fn account(&self, id: &str) -> (account: Option<Account>)
        ensures
            active_account(self@.accounts, id@) == (match account {
                Some(account) => Some(account@),
                None => None,
            }),
    {
        match self.active_index(id) {
            Some(at) => Some(self.accounts[at].clone()),
            None => None,
        }
    }

    /// Whether a port belongs to an account that is still there.
    fn uses(&self, port: u16) -> (used: bool)
        ensures
            used == in_use(self@.accounts, port),
    {
        let mut i: usize = 0;
        while i < self.accounts.len()
            invariant
                i <= self.accounts@.len(),
                forall|j: int|
                    0 <= j < i ==> !(is_active((#[trigger] self@.accounts[j]))
                        && self@.accounts[j].port == Some(port)),
            decreases self.accounts@.len() - i,
        {
            assert(self@.accounts[i as int] == self.accounts@[i as int]@);
            if active(&self.accounts[i]) {
                if let Some(own) = self.accounts[i].port {
                    if own == port {
                        return true;
                    }
                }
            }
            i = i + 1;
        }
        false
    }

    /// Whether a port is neither in use nor to be skipped.
    fn frees(&self, skip: &Vec<u16>, port: u16) -> (free: bool)
        ensures
            free == is_free(self@.accounts, skip@, port),
    {
        !self.uses(port) && !contains_port(skip, port)
    }

    /// The first free port from `from` to `end`.
    fn search(&self, skip: &Vec<u16>, from: u16, end: u16) -> (port: Option<u16>)
        ensures
            port == first_free(self@.accounts, skip@, from as int, end as int),
    {
        let mut port: u32 = from as u32;
        while port <= end as u32
            invariant
                from <= port <= 65536,
                first_free(self@.accounts, skip@, from as int, end as int) == first_free(
                    self@.accounts,
                    skip@,
                    port as int,
                    end as int,
                ),
            decreases 65536 - port,
        {
            if self.frees(skip, port as u16) {
                return Some(port as u16);
            }
            port = port + 1;
        }
        None
    }

    /// Gives out a port that no account has: the next of the range; when the range is used up, one
    /// that was released, and then any that is free. Ports to be skipped are not given out.
    pub fn allocate_port(&mut self, range: PortRange, skip: &Vec<u16>) -> (port: Option<u16>)
        ensures
            (port, final(self)@) == allocated(old(self)@, range, skip@),
            final(self).accounts@ == old(self).accounts@,
    {
        let wanted: u32 = if self.next_port > range.start as u32 {
            self.next_port
        } else {
            range.start as u32
        };
        let next: u16 = if wanted > 65535 {
            65535
        } else {
            wanted as u16
        };
        if let Some(port) = self.search(skip, next, range.end) {
            self.next_port = port as u32 + 1;
            return Some(port);
        }
        while self.released_ports.len() > 0
            invariant
                self.accounts@ == old(self).accounts@,
                self.version == old(self).version,
                self.next_port == old(self).next_port,
                first_free(
                    old(self)@.accounts,
                    skip@,
                    next_candidate(old(self)@, range),
                    range.end as int,
                ) is None,
                take_released(old(self)@.accounts, skip@, range, old(self).released_ports@)
                    == take_released(old(self)@.accounts, skip@, range, self.released_ports@),
            decreases self.released_ports@.len(),
        {
            let ghost before = self.released_ports@;
            let port = self.released_ports.remove(0);
            assert(self.released_ports@ =~= before.skip(1));
            if port >= range.start && port <= range.end && self.frees(skip, port) {
                return Some(port);
            }
        }
        self.search(skip, range.start, range.end)
    }

    /// Takes away the account that is still there and has this identifier, and releases its port.
    pub fn remove_account(&mut self, id: &str) -> (result: Result<Account, AppError>)
        ensures
            match active_position(old(self)@.accounts, id@, 0) {
                Some(at) => {
                    &&& result matches Ok(account) && account@ == old(self)@.accounts[at]
                    &&& final(self)@ == without_account(old(self)@, at)
                },
                None => {
                    &&& result matches Err(error) && error@ == account_not_found()
                    &&& final(self)@ == old(self)@
                },
            },
    {
        let at = match self.active_index(id) {
            Some(at) => at,
            None => {
                return Err(AppError::new(404, "Account not found"));
            },
        };
        let ghost before = self.accounts@;
        let account = self.accounts.remove(at);
        assert(account_views(self.accounts@) =~= account_views(before).remove(at as int));
        if let Some(port) = account.port {
            if !contains_port(&self.released_ports, port) {
                self.released_ports.push(port);
            }
        }
        Ok(account)
    }

    /// Marks the first account with this identifier as one that must log in again.
    pub fn mark_reauth(&mut self, id: &str, message: &str, time: &str)
        ensures
            final(self)@ == (match position(old(self)@.accounts, id@, 0) {
                Some(at) => DatabaseView {
                    accounts: old(self)@.accounts.update(
                        at,
                        AccountView {
                            status: "needs_reauth"@,
                            last_error: Some(message@),
                            updated_at: time@,
                            ..old(self)@.accounts[at]
                        },
                    ),
                    ..old(self)@
                },
                None => old(self)@,
            }),
            position(old(self)@.accounts, id@, 0) matches Some(at) ==> final(self)@.accounts[at]
                == marked_account(old(self)@.accounts[at], message@, time@),
    {
        if let Some(at) = self.index(id) {
            let ghost before = self.accounts@;
            self.accounts[at].status = "needs_reauth".to_owned();
            self.accounts[at].last_error = Some(message.to_owned());
            self.accounts[at].updated_at = time.to_owned();
            assert(account_views(self.accounts@) =~= account_views(before).update(
                at as int,
                self.accounts@[at as int]@,
            ));
        }
    }

    /// Notes when an account was last asked something, and how that was answered.
    pub fn note_request(&mut self, id: &str, status: u16, time: &str)
        ensures
            final(self)@ == (match position(old(self)@.accounts, id@, 0) {
                Some(at) => DatabaseView {
                    accounts: old(self)@.accounts.update(
                        at,
                        AccountView {
                            last_request_at: Some(time@),
                            last_status: Some(status),
                            ..old(self)@.accounts[at]
                        },
                    ),
                    ..old(self)@
                },
                None => old(self)@,
            }),
            position(old(self)@.accounts, id@, 0) matches Some(at) ==> final(self)@.accounts[at]
                == noted_account(old(self)@.accounts[at], status, time@),
    {
        if let Some(at) = self.index(id) {
            let ghost before = self.accounts@;
            self.accounts[at].last_request_at = Some(time.to_owned());
            self.accounts[at].last_status = Some(status);
            assert(account_views(self.accounts@) =~= account_views(before).update(
                at as int,
                self.accounts@[at as int]@,
            ));
        }
    }
}

/// What an account is called: its address, or else its identifier at the provider, or else its own.
pub open spec fn label_view(account: AccountView) -> Seq<char> {
    or_default(
        or_view(
            metadata_text(account.metadata, "email"@),
            metadata_text(account.metadata, "accountId"@),
        ),
        account.id,
    )
}

/// What an account is called.
pub fn account_label(account: &Account) -> (label: String)
    ensures
        label@ == label_view(account@),
{
    match account.metadata.string("email") {
        Some(email) => email.to_owned(),
        None => match account.metadata.string("accountId") {
            Some(id) => id.to_owned(),
            None => account.id.clone(),
        },
    }
}

proof fn lemma_first_free(accounts: Seq<AccountView>, skip: Seq<u16>, from: int, end: int)
    requires
        0 <= from,
        end <= u16::MAX,
    ensures
        match first_free(accounts, skip, from, end) {
            Some(port) => {
                &&& from <= port <= end
                &&& is_free(accounts, skip, port)
                &&& forall|other: u16|
                    from <= other < port ==> !#[trigger] is_free(accounts, skip, other)
            },
            None => forall|other: u16|
                from <= other <= end ==> !#[trigger] is_free(accounts, skip, other),
        },
    decreases end - from + 1,
{
    if from <= end && !is_free(accounts, skip, from as u16) {
        lemma_first_free(accounts, skip, from + 1, end);
    }
}

proof fn lemma_take_released(
    accounts: Seq<AccountView>,
    skip: Seq<u16>,
    range: PortRange,
    released: Seq<u16>,
)
    ensures
        take_released(accounts, skip, range, released).0 matches Some(port) ==> is_reusable(
            accounts,
            skip,
            range,
            port,
        ) && released.contains(port),
    decreases released.len(),
{
    if released.len() > 0 {
        lemma_take_released(accounts, skip, range, released.skip(1));
        if is_reusable(accounts, skip, range, released[0]) {
            assert(released.contains(released[0]));
        } else if let Some(port) = take_released(accounts, skip, range, released.skip(1)).0 {
            let i = choose|i: int| 0 <= i < released.skip(1).len() && released.skip(1)[i] == port;
            assert(released[i + 1] == port);
        }
    }
}

/// A port that is given out is in the range, belongs to no account and is none to be skipped; and
/// one is given out as long as there is such a port.
pub proof fn law_allocated_port_is_free(db: DatabaseView, range: PortRange, skip: Seq<u16>)
    ensures
        allocated(db, range, skip).0 matches Some(port) ==> range.start <= port <= range.end
            && is_free(db.accounts, skip, port),
        allocated(db, range, skip).0 is None ==> forall|port: u16|
            range.start <= port <= range.end ==> !#[trigger] is_free(db.accounts, skip, port),
{
    lemma_first_free(db.accounts, skip, next_candidate(db, range), range.end as int);
    lemma_first_free(db.accounts, skip, range.start as int, range.end as int);
    lemma_take_released(db.accounts, skip, range, db.released_ports);
}

/// New accounts go along the range: while a port from the next one on is free, the first of these is
/// given out, whatever was released, and the next one after it comes next.
pub proof fn law_range_is_gone_along(
    db: DatabaseView,
    range: PortRange,
    skip: Seq<u16>,
    free: u16,
)
    requires
        next_candidate(db, range) <= free <= range.end,
        is_free(db.accounts, skip, free),
    ensures
        ({
            let (port, after) = allocated(db, range, skip);
            &&& port matches Some(port) && next_candidate(db, range) <= port <= free
            &&& after.next_port == port->0 + 1
            &&& after.released_ports == db.released_ports
            &&& forall|other: u16|
                next_candidate(db, range) <= other < port->0 ==> !#[trigger] is_free(
                    db.accounts,
                    skip,
                    other,
                )
        }),
{
    lemma_first_free(db.accounts, skip, next_candidate(db, range), range.end as int);
}

proof fn lemma_some_released(
    accounts: Seq<AccountView>,
    skip: Seq<u16>,
    range: PortRange,
    released: Seq<u16>,
    free: u16,
)
    requires
        released.contains(free),
        is_reusable(accounts, skip, range, free),
    ensures
        take_released(accounts, skip, range, released).0 is Some,
    decreases released.len(),
{
    if !is_reusable(accounts, skip, range, released[0]) {
        let i = choose|i: int| 0 <= i < released.len() && released[i] == free;
        assert(released.skip(1)[i - 1] == free);
        lemma_some_released(accounts, skip, range, released.skip(1), free);
    }
}

/// When the range is used up, ports that were released are given out again before any other.
pub proof fn law_released_ports_are_reused(
    db: DatabaseView,
    range: PortRange,
    skip: Seq<u16>,
    free: u16,
)
    requires
        forall|port: u16|
            next_candidate(db, range) <= port <= range.end ==> !#[trigger] is_free(
                db.accounts,
                skip,
                port,
            ),
        db.released_ports.contains(free),
        is_reusable(db.accounts, skip, range, free),
    ensures
        allocated(db, range, skip).0 matches Some(port) && db.released_ports.contains(port),
        allocated(db, range, skip).1.next_port == db.next_port,
{
    lemma_first_free(db.accounts, skip, next_candidate(db, range), range.end as int);
    lemma_some_released(db.accounts, skip, range, db.released_ports, free);
    lemma_take_released(db.accounts, skip, range, db.released_ports);
}

/// Whether no two accounts that are still there have the same port.
pub open spec fn ports_are_distinct(accounts: Seq<AccountView>) -> bool {
    forall|i: int, j: int|
        0 <= i < j < accounts.len() && is_active(#[trigger] accounts[i]) && is_active(
            #[trigger] accounts[j],
        ) && accounts[i].port is Some ==> accounts[i].port != accounts[j].port
}

/// An account that is given a new port shares it with no other.
pub proof fn law_ports_stay_distinct(
    db: DatabaseView,
    range: PortRange,
    skip: Seq<u16>,
    account: AccountView,
)
    requires
        ports_are_distinct(db.accounts),
        allocated(db, range, skip).0 is Some,
        account.port == allocated(db, range, skip).0,
    ensures
        ports_are_distinct(db.accounts.push(account)),
{
    law_allocated_port_is_free(db, range, skip);
    let port = account.port->0;
    assert(!in_use(db.accounts, port));
    let all = db.accounts.push(account);
    assert forall|i: int, j: int|
        0 <= i < j < all.len() && is_active(#[trigger] all[i]) && is_active(#[trigger] all[j])
            && all[i].port is Some implies all[i].port != all[j].port by {
        if j == db.accounts.len() {
            assert(is_active(db.accounts[i]));
        }
    }
}

/// A change of an account that leaves it its port, and does not bring it back after it was taken
/// away, leaves the ports of all accounts distinct.
pub proof fn law_changes_leave_ports_distinct(
    accounts: Seq<AccountView>,
    at: int,
    changed: AccountView,
)
    requires
        ports_are_distinct(accounts),
        0 <= at < accounts.len(),
        changed.port == accounts[at].port,
        is_active(changed) ==> is_active(accounts[at]),
    ensures
        ports_are_distinct(accounts.update(at, changed)),
{
    let all = accounts.update(at, changed);
    assert forall|i: int, j: int|
        0 <= i < j < all.len() && is_active(#[trigger] all[i]) && is_active(#[trigger] all[j])
            && all[i].port is Some implies all[i].port != all[j].port by {
        assert(is_active(accounts[i]) && is_active(accounts[j]));
    }
}

/// The port of an account that is taken away is released, and belongs to no account any more.
pub proof fn law_removed_port_is_released(db: DatabaseView, at: int)
    requires
        0 <= at < db.accounts.len(),
        is_active(db.accounts[at]),
        db.accounts[at].port is Some,
        ports_are_distinct(db.accounts),
    ensures
        without_account(db, at).released_ports.contains(db.accounts[at].port->0),
        !in_use(without_account(db, at).accounts, db.accounts[at].port->0),
        ports_are_distinct(without_account(db, at).accounts),
{
    let port = db.accounts[at].port->0;
    let rest = without_account(db, at).accounts;
    let released = without_account(db, at).released_ports;
    if !db.released_ports.contains(port) {
        assert(released[db.released_ports.len() as int] == port);
    }
    assert forall|i: int| 0 <= i < rest.len() && is_active(#[trigger] rest[i]) implies rest[i].port
        != Some(port) by {
        let j = if i < at {
            i
        } else {
            i + 1
        };
        assert(rest[i] == db.accounts[j]);
        assert(is_active(db.accounts[j]) && is_active(db.accounts[at]));
    }
    assert forall|i: int, j: int|
        0 <= i < j < rest.len() && is_active(#[trigger] rest[i]) && is_active(#[trigger] rest[j])
            && rest[i].port is Some implies rest[i].port != rest[j].port by {
        let a = if i < at {
            i
        } else {
            i + 1
        };
        let b = if j < at {
            j
        } else {
            j + 1
        };
        assert(rest[i] == db.accounts[a] && rest[j] == db.accounts[b]);
    }
}

/// An account is there unless it was removed; a port is free unless an account that is there has it
/// or it is to be skipped.
pub proof fn law_removed_accounts_hold_no_port(
    accounts: Seq<AccountView>,
    skip: Seq<u16>,
    port: u16,
)
    ensures
        is_free(accounts, skip, port) <==> !skip.contains(port) && forall|i: int|
            0 <= i < accounts.len() && (#[trigger] accounts[i]).status != "removed"@
                ==> accounts[i].port != Some(port),
{
    if in_use(accounts, port) {
        let i = choose|i: int|
            0 <= i < accounts.len() && is_active(#[trigger] accounts[i]) && accounts[i].port == Some(
                port,
            );
        assert(accounts[i].status != "removed"@);
    }
    assert forall|i: int|
        !in_use(accounts, port) && 0 <= i < accounts.len() && (#[trigger] accounts[i]).status
            != "removed"@ implies accounts[i].port != Some(port) by {
        assert(is_active(accounts[i]));
    }
}

/// The accounts that are there are listed in their order, without those that were removed.
pub proof fn law_accounts_are_listed_in_order(accounts: Seq<AccountView>, account: AccountView)
    ensures
        active_of(Seq::empty()) == Seq::<AccountView>::empty(),
        account.status == "removed"@ ==> active_of(accounts.push(account)) == active_of(accounts),
        account.status != "removed"@ ==> active_of(accounts.push(account)) == active_of(
            accounts,
        ).push(account),
{
    assert(accounts.push(account).drop_last() =~= accounts);
}

proof fn lemma_active_position(accounts: Seq<AccountView>, id: Seq<char>, i: int)
    requires
        0 <= i <= accounts.len(),
    ensures
        match active_position(accounts, id, i) {
            Some(at) => {
                &&& i <= at < accounts.len()
                &&& accounts[at].id == id && accounts[at].status != "removed"@
                &&& forall|k: int|
                    i <= k < at && (#[trigger] accounts[k]).id == id ==> accounts[k].status
                        == "removed"@
            },
            None => forall|k: int|
                i <= k < accounts.len() && (#[trigger] accounts[k]).id == id ==> accounts[k].status
                    == "removed"@,
        },
    decreases accounts.len() - i,
{
    if i < accounts.len() {
        lemma_active_position(accounts, id, i + 1);
    }
}

/// An account is found by its identifier: the first that has it and was not removed, and none only
/// where there is none.
pub proof fn law_account_is_found_by_its_identifier(accounts: Seq<AccountView>, id: Seq<char>)
    ensures
        match active_account(accounts, id) {
            Some(account) => {
                &&& account.id == id && account.status != "removed"@
                &&& exists|at: int|
                    #![trigger accounts[at]]
                    {
                        &&& 0 <= at < accounts.len()
                        &&& accounts[at] == account
                        &&& active_position(accounts, id, 0) == Some(at)
                        &&& forall|k: int|
                            0 <= k < at && (#[trigger] accounts[k]).id == id ==> accounts[k].status
                                == "removed"@
                    }
            },
            None => forall|k: int|
                0 <= k < accounts.len() && (#[trigger] accounts[k]).id == id ==> accounts[k].status
                    == "removed"@,
        },
{
    lemma_active_position(accounts, id, 0);
    if let Some(at) = active_position(accounts, id, 0) {
        assert(accounts[at] == active_account(accounts, id)->0);
    }
}

/// The next port that is tried is the one after the last that was given out, but none before the
/// range.
pub proof fn law_next_port_is_tried_first(db: DatabaseView, range: PortRange)
    ensures
        db.next_port <= u16::MAX && db.next_port >= range.start ==> next_candidate(db, range)
            == db.next_port,
        db.next_port <= range.start ==> next_candidate(db, range) == range.start,
        db.next_port > u16::MAX ==> next_candidate(db, range) == u16::MAX,
{
}

proof fn lemma_released_order(
    accounts: Seq<AccountView>,
    skip: Seq<u16>,
    range: PortRange,
    released: Seq<u16>,
)
    ensures
        match take_released(accounts, skip, range, released).0 {
            Some(port) => exists|k: int|
                #![trigger released[k]]
                {
                    &&& 0 <= k < released.len()
                    &&& released[k] == port
                    &&& range.start <= port <= range.end
                    &&& is_free(accounts, skip, port)
                    &&& take_released(accounts, skip, range, released).1 == released.skip(k + 1)
                    &&& forall|j: int|
                        0 <= j < k && range.start <= (#[trigger] released[j]) <= range.end
                            ==> !is_free(accounts, skip, released[j])
                },
            None => {
                &&& take_released(accounts, skip, range, released).1.len() == 0
                &&& forall|j: int|
                    0 <= j < released.len() && range.start <= (#[trigger] released[j]) <= range.end
                        ==> !is_free(accounts, skip, released[j])
            },
        },
    decreases released.len(),
{
    if released.len() > 0 {
        let rest = released.skip(1);
        if is_reusable(accounts, skip, range, released[0]) {
            assert(released[0] == released[0]);
        } else {
            lemma_released_order(accounts, skip, range, rest);
            match take_released(accounts, skip, range, rest).0 {
                Some(port) => {
                    let k = choose|k: int|
                        #![trigger rest[k]]
                        {
                            &&& 0 <= k < rest.len()
                            &&& rest[k] == port
                            &&& range.start <= port <= range.end
                            &&& is_free(accounts, skip, port)
                            &&& take_released(accounts, skip, range, rest).1 == rest.skip(k + 1)
                            &&& forall|j: int|
                                0 <= j < k && range.start <= (#[trigger] rest[j]) <= range.end
                                    ==> !is_free(accounts, skip, rest[j])
                        };
                    assert(released[k + 1] == port);
                    assert(rest.skip(k + 1) =~= released.skip(k + 2));
                    assert forall|j: int|
                        0 <= j < k + 1 && range.start <= (#[trigger] released[j])
                            <= range.end implies !is_free(accounts, skip, released[j]) by {
                        if j > 0 {
                            assert(rest[j - 1] == released[j]);
                        }
                    }
                },
                None => {
                    assert forall|j: int|
                        0 <= j < released.len() && range.start <= (#[trigger] released[j])
                            <= range.end implies !is_free(accounts, skip, released[j]) by {
                        if j > 0 {
                            assert(rest[j - 1] == released[j]);
                        }
                    }
                },
            }
        }
    }
}

/// Of the released ports the first that is free and in the range is given out again; it and those
/// before it are released no more, and those behind it stay.
pub proof fn law_released_ports_go_in_order(
    accounts: Seq<AccountView>,
    skip: Seq<u16>,
    range: PortRange,
    released: Seq<u16>,
    k: int,
)
    requires
        0 <= k < released.len(),
        range.start <= released[k] <= range.end,
        is_free(accounts, skip, released[k]),
        forall|j: int|
            0 <= j < k && range.start <= (#[trigger] released[j]) <= range.end ==> !is_free(
                accounts,
                skip,
                released[j],
            ),
    ensures
        take_released(accounts, skip, range, released) == (Some(released[k]), released.skip(k + 1)),
{
    lemma_released_order(accounts, skip, range, released);
    let port = take_released(accounts, skip, range, released).0->0;
    let at = choose|at: int|
        #![trigger released[at]]
        {
            &&& 0 <= at < released.len()
            &&& released[at] == port
            &&& range.start <= port <= range.end
            &&& is_free(accounts, skip, port)
            &&& take_released(accounts, skip, range, released).1 == released.skip(at + 1)
            &&& forall|j: int|
                0 <= j < at && range.start <= (#[trigger] released[j]) <= range.end ==> !is_free(
                    accounts,
                    skip,
                    released[j],
                )
        };
    if k < at {
        assert(!is_free(accounts, skip, released[k]));
    }
    if at < k {
        assert(!is_free(accounts, skip, released[at]));
    }
}

/// Taking an account away leaves every other account as it is, in its order; its port is released
/// behind those that were released before, and no port twice.
pub proof fn law_removal_leaves_the_others(db: DatabaseView, at: int, i: int)
    requires
        0 <= at < db.accounts.len(),
    ensures
        ({
            let after = without_account(db, at);
            &&& after.accounts.len() == db.accounts.len() - 1
            &&& 0 <= i < at ==> after.accounts[i] == db.accounts[i]
            &&& at < i < db.accounts.len() ==> after.accounts[i - 1] == db.accounts[i]
            &&& after.next_port == db.next_port
            &&& db.accounts[at].port is None ==> after.released_ports == db.released_ports
            &&& db.accounts[at].port is Some && db.released_ports.contains(db.accounts[at].port->0)
                ==> after.released_ports == db.released_ports
            &&& db.accounts[at].port is Some && !db.released_ports.contains(
                db.accounts[at].port->0,
            ) ==> after.released_ports == db.released_ports.push(db.accounts[at].port->0)
        }),
{
}

/// An account is called by its email, or else by its identifier at the provider, or else by its own.
pub proof fn law_account_is_called_by_its_email(account: AccountView)
    ensures
        ({
            let known = JsonView::Object(account.metadata);
            &&& known.str_at("email"@) is Some ==> label_view(account) == known.str_at("email"@)->0
            &&& known.str_at("email"@) is None && known.str_at("accountId"@) is Some ==> label_view(
                account,
            ) == known.str_at("accountId"@)->0
            &&& known.str_at("email"@) is None && known.str_at("accountId"@) is None ==> label_view(
                account,
            ) == account.id
        }),
{
}

/// An account that must log in again says why and since when, and nothing else of it changes: it
/// stays at its port, with its tokens and what is known of its usage.
pub proof fn law_marked_account_keeps_its_place(
    account: AccountView,
    message: Seq<char>,
    time: Seq<char>,
)
    ensures
        ({
            let after = marked_account(account, message, time);
            &&& after.status == "needs_reauth"@
            &&& after.status != "removed"@
            &&& after.last_error == Some(message)
            &&& after.updated_at == time
            &&& after.id == account.id && after.port == account.port && after.provider
                == account.provider
            &&& after.tokens == account.tokens && after.metadata == account.metadata
            &&& after.usage_snapshot == account.usage_snapshot
            &&& after.last_request_at == account.last_request_at && after.last_status
                == account.last_status
        }),
{
    reveal_strlit("needs_reauth");
    reveal_strlit("removed");
    assert("needs_reauth"@.len() == 12 && "removed"@.len() == 7);
}

/// Of an answered request the time and the status are noted, and nothing else of the account changes.
pub proof fn law_answered_request_is_noted(account: AccountView, status: u16, time: Seq<char>)
    ensures
        ({
            let after = noted_account(account, status, time);
            &&& after.last_request_at == Some(time)
            &&& after.last_status == Some(status)
            &&& after.id == account.id && after.port == account.port && after.status
                == account.status
            &&& after.updated_at == account.updated_at && after.last_error == account.last_error
            &&& after.tokens == account.tokens && after.usage_snapshot == account.usage_snapshot
        }),
{
}

/// Giving out a port changes nothing but the bookkeeping of ports: the accounts stay. When neither
/// the rest of the range nor a released port is free, the first free port of the whole range is given
/// out, the next one stays where it was, and no port is released any more.
pub proof fn law_last_resort_is_the_whole_range(
    db: DatabaseView,
    range: PortRange,
    skip: Seq<u16>,
    free: u16,
)
    ensures
        allocated(db, range, skip).1.accounts == db.accounts,
        allocated(db, range, skip).1.version == db.version,
        (forall|port: u16|
            next_candidate(db, range) <= port <= range.end ==> !#[trigger] is_free(
                db.accounts,
                skip,
                port,
            )) && (forall|k: int|
            0 <= k < db.released_ports.len() && range.start <= (#[trigger] db.released_ports[k])
                <= range.end ==> !is_free(db.accounts, skip, db.released_ports[k])) && range.start
            <= free <= range.end && is_free(db.accounts, skip, free) && (forall|other: u16|
            range.start <= other < free ==> !#[trigger] is_free(db.accounts, skip, other))
            ==> allocated(db, range, skip).0 == Some(free) && allocated(db, range, skip).1.next_port
            == db.next_port && allocated(db, range, skip).1.released_ports.len() == 0,
{
    lemma_first_free(db.accounts, skip, next_candidate(db, range), range.end as int);
    lemma_first_free(db.accounts, skip, range.start as int, range.end as int);
    lemma_released_order(db.accounts, skip, range, db.released_ports);
    if let Some(port) = first_free(db.accounts, skip, next_candidate(db, range), range.end as int) {
        assert(is_free(db.accounts, skip, port));
    }
    if let Some(port) = take_released(db.accounts, skip, range, db.released_ports).0 {
        let released = db.released_ports;
        let k = choose|k: int|
            #![trigger released[k]]
            {
                &&& 0 <= k < released.len()
                &&& released[k] == port
                &&& range.start <= port <= range.end
                &&& is_free(db.accounts, skip, port)
                &&& take_released(db.accounts, skip, range, released).1 == released.skip(k + 1)
                &&& forall|j: int|
                    0 <= j < k && range.start <= (#[trigger] released[j]) <= range.end ==> !is_free(
                        db.accounts,
                        skip,
                        released[j],
                    )
            };
        assert(range.start <= released[k] <= range.end);
    }
}

}
