//! What the proxy remembers: its database of accounts, and logins that are under way.

use crate::json::{
    field, items_view, no_fields, opt_string, opt_text, Json, JsonMap, JsonView,
};
use crate::outside::{is_account_id, new_id, now, rfc3339_text, Timestamp};
use vstd::prelude::*;
use vstd::string::*;

verus! {

/// The tokens of an account.
#[derive(Debug)]
pub struct Tokens {
    pub access_token: String,
    pub refresh_token: String,
    pub id_token: String,
    pub token_type: String,
    pub expires_at: String,
}

/// What tokens hold.
#[verifier::ext_equal]
pub struct TokensView {
    pub access_token: Seq<char>,
    pub refresh_token: Seq<char>,
    pub id_token: Seq<char>,
    pub token_type: Seq<char>,
    pub expires_at: Seq<char>,
}

impl View for Tokens {
    type V = TokensView;

    open spec fn view(&self) -> TokensView {
        TokensView {
            access_token: self.access_token@,
            refresh_token: self.refresh_token@,
            id_token: self.id_token@,
            token_type: self.token_type@,
            expires_at: self.expires_at@,
        }
    }
}

impl Default for Tokens {
    fn default() -> (tokens: Self)
        ensures
            tokens@ == no_tokens(),
    {
        Tokens {
            access_token: String::new(),
            refresh_token: String::new(),
            id_token: String::new(),
            token_type: String::new(),
            expires_at: String::new(),
        }
    }
}

/// Tokens that were never given.
pub open spec fn no_tokens() -> TokensView {
    TokensView {
        access_token: Seq::empty(),
        refresh_token: Seq::empty(),
        id_token: Seq::empty(),
        token_type: Seq::empty(),
        expires_at: Seq::empty(),
    }
}

impl Clone for Tokens {
    fn clone(&self) -> (copy: Self)
        ensures
            copy@ == self@,
    {
        Tokens {
            access_token: self.access_token.clone(),
            refresh_token: self.refresh_token.clone(),
            id_token: self.id_token.clone(),
            token_type: self.token_type.clone(),
            expires_at: self.expires_at.clone(),
        }
    }
}

/// What is known of who an account belongs to.
#[derive(Debug)]
pub struct AccountMetadata {
    pub values: JsonMap,
}

impl View for AccountMetadata {
    type V = Map<Seq<char>, JsonView>;

    open spec fn view(&self) -> Map<Seq<char>, JsonView> {
        self.values@
    }
}

impl Default for AccountMetadata {
    fn default() -> (metadata: Self)
        ensures
            metadata@ == no_fields(),
    {
        AccountMetadata { values: JsonMap::new() }
    }
}

impl Clone for AccountMetadata {
    fn clone(&self) -> (copy: Self)
        ensures
            copy@ == self@,
    {
        AccountMetadata { values: self.values.clone() }
    }
}

/// The text of a field of metadata.
pub open spec fn metadata_text(metadata: Map<Seq<char>, JsonView>, key: Seq<char>) -> Option<
    Seq<char>,
> {
    match field(metadata, key) {
        Some(JsonView::String(text)) => Some(text),
        _ => None,
    }
}

impl AccountMetadata {
    /// The text of a field, if it is a text.
    pub fn string(&self, key: &str) -> (text: Option<&str>)
        ensures
            opt_text(text) == metadata_text(self@, key@),
    {
        match self.values.get(key) {
            Some(value) => value.as_str(),
            None => None,
        }
    }

    /// Takes over every field of `other`.
    pub fn merge(&mut self, other: AccountMetadata)
        ensures
            final(self)@ == old(self)@.union_prefer_right(other@),
    {
        self.values.extend(other.values);
    }
}

/// What an account has used, as it was last asked for.
#[derive(Debug)]
pub struct UsageSnapshot {
    pub plan_type: Option<String>,
    pub windows: Vec<Json>,
    pub fetched_at: Option<String>,
    pub refresh_attempted_at: Option<String>,
    pub error: Option<String>,
}

/// What a snapshot says.
#[verifier::ext_equal]
pub struct SnapshotView {
    pub plan_type: Option<Seq<char>>,
    pub windows: Seq<JsonView>,
    pub fetched_at: Option<Seq<char>>,
    pub refresh_attempted_at: Option<Seq<char>>,
    pub error: Option<Seq<char>>,
}

impl View for UsageSnapshot {
    type V = SnapshotView;

    open spec fn view(&self) -> SnapshotView {
        SnapshotView {
            plan_type: opt_string(self.plan_type),
            windows: items_view(self.windows@),
            fetched_at: opt_string(self.fetched_at),
            refresh_attempted_at: opt_string(self.refresh_attempted_at),
            error: opt_string(self.error),
        }
    }
}

/// A snapshot of nothing.
pub open spec fn empty_snapshot() -> SnapshotView {
    SnapshotView {
        plan_type: None,
        windows: Seq::empty(),
        fetched_at: None,
        refresh_attempted_at: None,
        error: None,
    }
}

impl Default for UsageSnapshot {
    fn default() -> (snapshot: Self)
        ensures
            snapshot@ == empty_snapshot(),
    {
        let windows: Vec<Json> = Vec::new();
        assert(items_view(windows@) =~= Seq::<JsonView>::empty());
        UsageSnapshot {
            plan_type: None,
            windows,
            fetched_at: None,
            refresh_attempted_at: None,
            error: None,
        }
    }
}

/// A copy of an optional text.
pub fn copy_text(text: &Option<String>) -> (copy: Option<String>)
    ensures
        opt_string(copy) == opt_string(*text),
{
    match text {
        Some(text) => Some(text.clone()),
        None => None,
    }
}

impl Clone for UsageSnapshot {
    fn clone(&self) -> (copy: Self)
        ensures
            copy@ == self@,
    {
        UsageSnapshot {
            plan_type: copy_text(&self.plan_type),
            windows: crate::json::copy_items(&self.windows),
            fetched_at: copy_text(&self.fetched_at),
            refresh_attempted_at: copy_text(&self.refresh_attempted_at),
            error: copy_text(&self.error),
        }
    }
}

/// An account.
#[derive(Debug)]
pub struct Account {
    pub id: String,
    pub provider: String,
    pub port: Option<u16>,
    pub status: String,
    pub metadata: AccountMetadata,
    pub tokens: Tokens,
    pub created_at: String,
    pub updated_at: String,
    pub last_error: Option<String>,
    pub last_request_at: Option<String>,
    pub last_status: Option<u16>,
    pub usage_snapshot: Option<UsageSnapshot>,
}

/// What an account holds.
#[verifier::ext_equal]
pub struct AccountView {
    pub id: Seq<char>,
    pub provider: Seq<char>,
    pub port: Option<u16>,
    pub status: Seq<char>,
    pub metadata: Map<Seq<char>, JsonView>,
    pub tokens: TokensView,
    pub created_at: Seq<char>,
    pub updated_at: Seq<char>,
    pub last_error: Option<Seq<char>>,
    pub last_request_at: Option<Seq<char>>,
    pub last_status: Option<u16>,
    pub usage_snapshot: Option<SnapshotView>,
}

/// What an optional snapshot says.
pub open spec fn opt_snapshot(snapshot: Option<UsageSnapshot>) -> Option<SnapshotView> {
    match snapshot {
        Some(snapshot) => Some(snapshot@),
        None => None,
    }
}

impl View for Account {
    type V = AccountView;

    open spec fn view(&self) -> AccountView {
        AccountView {
            id: self.id@,
            provider: self.provider@,
            port: self.port,
            status: self.status@,
            metadata: self.metadata@,
            tokens: self.tokens@,
            created_at: self.created_at@,
            updated_at: self.updated_at@,
            last_error: opt_string(self.last_error),
            last_request_at: opt_string(self.last_request_at),
            last_status: self.last_status,
            usage_snapshot: opt_snapshot(self.usage_snapshot),
        }
    }
}

impl Default for Account {
    fn default() -> (account: Self)
        ensures
            account@ == (AccountView {
                id: Seq::empty(),
                provider: Seq::empty(),
                port: None,
                status: Seq::empty(),
                metadata: no_fields(),
                tokens: no_tokens(),
                created_at: Seq::empty(),
                updated_at: Seq::empty(),
                last_error: None,
                last_request_at: None,
                last_status: None,
                usage_snapshot: None,
            }),
    {
        Account {
            id: String::new(),
            provider: String::new(),
            port: None,
            status: String::new(),
            metadata: AccountMetadata::default(),
            tokens: Tokens::default(),
            created_at: String::new(),
            updated_at: String::new(),
            last_error: None,
            last_request_at: None,
            last_status: None,
            usage_snapshot: None,
        }
    }
}

impl Clone for Account {
    fn clone(&self) -> (copy: Self)
        ensures
            copy@ == self@,
    {
        Account {
            id: self.id.clone(),
            provider: self.provider.clone(),
            port: self.port,
            status: self.status.clone(),
            metadata: self.metadata.clone(),
            tokens: self.tokens.clone(),
            created_at: self.created_at.clone(),
            updated_at: self.updated_at.clone(),
            last_error: copy_text(&self.last_error),
            last_request_at: copy_text(&self.last_request_at),
            last_status: self.last_status,
            usage_snapshot: match &self.usage_snapshot {
                Some(snapshot) => Some(snapshot.clone()),
                None => None,
            },
        }
    }
}

/// The accounts and the ports they have had.
#[derive(Debug, Clone)]
pub struct Database {
    pub version: u32,
    pub next_port: u32,
    pub released_ports: Vec<u16>,
    pub accounts: Vec<Account>,
}

/// What the database holds.
#[verifier::ext_equal]
pub struct DatabaseView {
    pub version: u32,
    pub next_port: u32,
    pub released_ports: Seq<u16>,
    pub accounts: Seq<AccountView>,
}

/// What a list of accounts holds.
pub open spec fn account_views(accounts: Seq<Account>) -> Seq<AccountView> {
    accounts.map_values(|account: Account| account@)
}

impl View for Database {
    type V = DatabaseView;

    open spec fn view(&self) -> DatabaseView {
        DatabaseView {
            version: self.version,
            next_port: self.next_port,
            released_ports: self.released_ports@,
            accounts: account_views(self.accounts@),
        }
    }
}

/// The version of the database.
pub fn db_version() -> (version: u32)
    ensures
        version == 1,
{
    1
}

/// Whether a text is a time, as the proxy writes it down.
pub open spec fn is_time_text(text: Seq<char>) -> bool {
    text.len() > 0 && exists|time: Timestamp|
        time.in_range() && text == #[trigger] rfc3339_text(time.secs, time.nanos)
}

/// `text`, or `default` if it is empty.
pub open spec fn filled(text: Seq<char>, default: Seq<char>) -> Seq<char> {
    if text.len() == 0 {
        default
    } else {
        text
    }
}

/// An account with its gaps filled: `id` and `time` stand for an identifier and a time of creation
/// that are missing.
pub open spec fn filled_account(
    account: AccountView,
    default_provider: Seq<char>,
    id: Seq<char>,
    time: Seq<char>,
) -> AccountView {
    let created_at = filled(account.created_at, time);
    AccountView {
        id: filled(account.id, id),
        provider: filled(account.provider, default_provider),
        status: filled(account.status, "active"@),
        created_at,
        updated_at: filled(account.updated_at, created_at),
        ..account
    }
}

/// Whether `after` is the account `before` with its gaps filled by a new identifier and a time.
pub open spec fn is_filled(
    after: AccountView,
    before: AccountView,
    default_provider: Seq<char>,
) -> bool {
    exists|id: Seq<char>, time: Seq<char>|
        {
            &&& is_account_id(id)
            &&& is_time_text(time)
            &&& after == #[trigger] filled_account(before, default_provider, id, time)
        }
}

/// Whether `after` is the database `before` with its gaps filled: a missing version is 1, ports are
/// given out from `first_port` on, and the accounts are made complete.
pub open spec fn is_normalized(
    after: DatabaseView,
    before: DatabaseView,
    first_port: u16,
    default_provider: Seq<char>,
) -> bool {
    &&& after.version == if before.version == 0 {
        1
    } else {
        before.version
    }
    &&& after.next_port == if before.next_port == 0 {
        first_port as u32
    } else {
        before.next_port
    }
    &&& after.released_ports == before.released_ports
    &&& after.accounts.len() == before.accounts.len()
    &&& forall|i: int|
        0 <= i < before.accounts.len() ==> is_filled(
            #[trigger] after.accounts[i],
            before.accounts[i],
            default_provider,
        )
}

/// Puts `default` in place of an empty text.
fn fill(text: &mut String, default: &str)
    ensures
        final(text)@ == filled(old(text)@, default@),
{
    if text.as_str().is_empty() {
        *text = default.to_owned();
    }
}

impl Account {
    /// Fills the gaps of the account: `id` and `time` stand for an identifier and a time of creation
    /// that are missing.
    pub fn fill_gaps(&mut self, default_provider: &str, id: &str, time: &str)
        ensures
            final(self)@ == filled_account(old(self)@, default_provider@, id@, time@),
    {
        fill(&mut self.id, id);
        fill(&mut self.provider, default_provider);
        fill(&mut self.status, "active");
        fill(&mut self.created_at, time);
        let created_at = self.created_at.clone();
        fill(&mut self.updated_at, created_at.as_str());
    }
}

impl Database {
    /// A database without accounts.
    pub fn empty(first_port: u16) -> (database: Self)
        ensures
            database@ == (DatabaseView {
                version: 1,
                next_port: first_port as u32,
                released_ports: Seq::empty(),
                accounts: Seq::empty(),
            }),
    {
        let accounts: Vec<Account> = Vec::new();
        assert(account_views(accounts@) =~= Seq::<AccountView>::empty());
        Database {
            version: db_version(),
            next_port: first_port as u32,
            released_ports: Vec::new(),
            accounts,
        }
    }

    /// Fills the gaps of a database that was read: a missing version is 1, ports are given out from
    /// `first_port` on, and the accounts are made complete.
    pub fn normalize(&mut self, first_port: u16, default_provider: &str)
        ensures
            is_normalized(final(self)@, old(self)@, first_port, default_provider@),
    {
        if self.version == 0 {
            self.version = 1;
        }
        if self.next_port == 0 {
            self.next_port = first_port as u32;
        }
        let mut i: usize = 0;
        while i < self.accounts.len()
            invariant
                i <= self.accounts@.len(),
                self.accounts@.len() == old(self).accounts@.len(),
                self.version == if old(self).version == 0 {
                    1
                } else {
                    old(self).version
                },
                self.next_port == if old(self).next_port == 0 {
                    first_port as u32
                } else {
                    old(self).next_port
                },
                self.released_ports@ == old(self).released_ports@,
                forall|j: int|
                    i <= j < self.accounts@.len() ==> self.accounts@[j] == old(self).accounts@[j],
                forall|j: int|
                    0 <= j < i ==> is_filled(
                        (#[trigger] self.accounts@[j])@,
                        old(self).accounts@[j]@,
                        default_provider@,
                    ),
            decreases self.accounts@.len() - i,
        {
            let id = new_id();
            let time = now();
            let ghost before = self.accounts@;
            self.accounts[i].fill_gaps(default_provider, id.as_str(), time.as_str());
            proof {
                assert(is_account_id(id@) && is_time_text(time@));
                assert(self.accounts@[i as int]@ == filled_account(
                    old(self).accounts@[i as int]@,
                    default_provider@,
                    id@,
                    time@,
                ));
                assert forall|j: int| 0 <= j < i implies is_filled(
                    (#[trigger] self.accounts@[j])@,
                    old(self).accounts@[j]@,
                    default_provider@,
                ) by {
                    assert(self.accounts@[j] == before[j]);
                }
            }
            i = i + 1;
        }
        assert forall|j: int| 0 <= j < old(self)@.accounts.len() implies is_filled(
            #[trigger] self@.accounts[j],
            old(self)@.accounts[j],
            default_provider@,
        ) by {
            assert(self@.accounts[j] == self.accounts@[j]@);
        }
    }
}

/// Whether nothing that an account needs is missing.
pub open spec fn is_complete(account: AccountView) -> bool {
    account.id.len() > 0 && account.provider.len() > 0 && account.status.len() > 0
        && account.created_at.len() > 0 && account.updated_at.len() > 0
}

/// An account whose gaps were filled misses nothing, and filling the gaps of an account that misses
/// nothing changes nothing.
pub proof fn law_filling_gaps(
    account: AccountView,
    default_provider: Seq<char>,
    id: Seq<char>,
    time: Seq<char>,
)
    requires
        default_provider.len() > 0,
        id.len() > 0,
        time.len() > 0,
    ensures
        is_complete(filled_account(account, default_provider, id, time)),
        is_complete(account) ==> filled_account(account, default_provider, id, time) == account,
{
    reveal_strlit("active");
}

/// Whether an account has all that another one has, and differs only in what that one misses.
pub open spec fn keeps_all(after: AccountView, before: AccountView) -> bool {
    &&& before.id.len() > 0 ==> after.id == before.id
    &&& before.provider.len() > 0 ==> after.provider == before.provider
    &&& before.status.len() > 0 ==> after.status == before.status
    &&& before.created_at.len() > 0 ==> after.created_at == before.created_at
    &&& before.updated_at.len() > 0 ==> after.updated_at == before.updated_at
    &&& after == (AccountView {
        id: after.id,
        provider: after.provider,
        status: after.status,
        created_at: after.created_at,
        updated_at: after.updated_at,
        ..before
    })
}

/// A database whose gaps were filled misses nothing, and keeps all that it had: the accounts with
/// their number and order, their ports and tokens, and the ports that were released.
pub proof fn law_normalized_database_is_complete(
    before: DatabaseView,
    after: DatabaseView,
    first_port: u16,
    default_provider: Seq<char>,
)
    requires
        first_port > 0,
        default_provider.len() > 0,
        is_normalized(after, before, first_port, default_provider),
    ensures
        after.version > 0,
        after.next_port > 0,
        before.version > 0 ==> after.version == before.version,
        before.next_port > 0 ==> after.next_port == before.next_port,
        after.released_ports == before.released_ports,
        after.accounts.len() == before.accounts.len(),
        forall|i: int|
            0 <= i < after.accounts.len() ==> is_complete(#[trigger] after.accounts[i])
                && keeps_all(after.accounts[i], before.accounts[i]),
{
    assert forall|i: int| 0 <= i < after.accounts.len() implies is_complete(
        #[trigger] after.accounts[i],
    ) && keeps_all(after.accounts[i], before.accounts[i]) by {
        assert(is_filled(after.accounts[i], before.accounts[i], default_provider));
        let (id, time) = choose|id: Seq<char>, time: Seq<char>|
            {
                &&& is_account_id(id)
                &&& is_time_text(time)
                &&& after.accounts[i] == #[trigger] filled_account(
                    before.accounts[i],
                    default_provider,
                    id,
                    time,
                )
            };
        law_filling_gaps(before.accounts[i], default_provider, id, time);
    }
}

/// Filling the gaps of a database twice is filling them once.
pub proof fn law_normalizing_twice_is_once(
    before: DatabaseView,
    once: DatabaseView,
    twice: DatabaseView,
    first_port: u16,
    default_provider: Seq<char>,
)
    requires
        first_port > 0,
        default_provider.len() > 0,
        is_normalized(once, before, first_port, default_provider),
        is_normalized(twice, once, first_port, default_provider),
    ensures
        twice == once,
{
    law_normalized_database_is_complete(before, once, first_port, default_provider);
    law_normalized_database_is_complete(once, twice, first_port, default_provider);
    assert forall|i: int| 0 <= i < once.accounts.len() implies twice.accounts[i]
        == once.accounts[i] by {
        assert(is_complete(once.accounts[i]));
        assert(is_complete(twice.accounts[i]));
    }
    assert(twice.accounts =~= once.accounts);
}

/// A login that is under way.
#[derive(Debug)]
pub struct PendingOauth {
    pub provider_id: String,
    pub verifier: String,
    pub redirect_uri: String,
    pub reauth_account_id: Option<String>,
    pub created_at: std::time::Instant,
}

/// What is missing is filled in with what it would have been: the identifier and the time that are
/// given, the default provider, an active status, and for the last change the time of creation.
pub proof fn law_gaps_are_filled_by_kind(
    account: AccountView,
    default_provider: Seq<char>,
    id: Seq<char>,
    time: Seq<char>,
)
    ensures
        ({
            let after = filled_account(account, default_provider, id, time);
            &&& account.id.len() == 0 ==> after.id == id
            &&& account.provider.len() == 0 ==> after.provider == default_provider
            &&& account.status.len() == 0 ==> after.status == "active"@
            &&& account.created_at.len() == 0 ==> after.created_at == time
            &&& account.updated_at.len() == 0 ==> after.updated_at == after.created_at
            &&& keeps_all(after, account)
        }),
{
}

/// A database without a version has the first one, and one without a next port gives ports out from
/// the first of the range on.
pub proof fn law_new_database_starts_at_the_first_port(
    before: DatabaseView,
    after: DatabaseView,
    first_port: u16,
    default_provider: Seq<char>,
)
    requires
        is_normalized(after, before, first_port, default_provider),
    ensures
        before.version == 0 ==> after.version == 1,
        before.next_port == 0 ==> after.next_port == first_port,
{
}

}
