//! What accounts have used: reading it, remembering it, showing it.

use crate::accounts::{account_label, active_account, active_of, label_view, position};
use crate::config::Config;
use crate::errors::{error_view, is_success, success, AppError, ErrorView};
use crate::json::{
    copy_items, items_view, json_opt_str, json_str, json_u64, lemma_items_push, lemma_items_take,
    lemma_items_whole, no_fields, opt_string, opt_text, or_default, or_view, parse_json, parsed,
    Json, JsonMap, JsonView,
};
use crate::model::{
    account_views, empty_snapshot, Account, AccountView, Database, DatabaseView, SnapshotView,
    UsageSnapshot,
};
use crate::text::{decimal, number_text, text_eq};
use crate::tokens::document_view;
use crate::urls::{provider, provider_missing};
use vstd::prelude::*;
use vstd::string::*;

verus! {

/// A window of usage as a provider reports it: what it is called, and the values that its numbers
/// are read from. A number is given as such or as text.
#[derive(Debug)]
pub struct WindowDraft {
    pub position: String,
    pub limit_id: String,
    pub limit_name: Option<String>,
    pub used: Option<Json>,
    pub remaining: Option<Json>,
    pub seconds: Option<Json>,
    pub minutes: Option<Json>,
    pub reset_at: Option<Json>,
    pub reset_after: Option<Json>,
}

/// What a draft says.
pub struct DraftView {
    pub position: Seq<char>,
    pub limit_id: Seq<char>,
    pub limit_name: Option<Seq<char>>,
    pub used: Option<JsonView>,
    pub remaining: Option<JsonView>,
    pub seconds: Option<JsonView>,
    pub minutes: Option<JsonView>,
    pub reset_at: Option<JsonView>,
    pub reset_after: Option<JsonView>,
}

/// The contents of an optional document.
pub open spec fn opt_json(option: Option<Json>) -> Option<JsonView> {
    match option {
        Some(json) => Some(json@),
        None => None,
    }
}

impl View for WindowDraft {
    type V = DraftView;

    open spec fn view(&self) -> DraftView {
        DraftView {
            position: self.position@,
            limit_id: self.limit_id@,
            limit_name: opt_string(self.limit_name),
            used: opt_json(self.used),
            remaining: opt_json(self.remaining),
            seconds: opt_json(self.seconds),
            minutes: opt_json(self.minutes),
            reset_at: opt_json(self.reset_at),
            reset_after: opt_json(self.reset_after),
        }
    }
}

/// What drafts say.
pub open spec fn draft_views(drafts: Seq<WindowDraft>) -> Seq<DraftView> {
    drafts.map_values(|draft: WindowDraft| draft@)
}

/// The limit that a window belongs to: its identifier and its name.
pub struct LimitView {
    pub id: Seq<char>,
    pub name: Option<Seq<char>>,
}

/// The draft for a window, which must be an object.
pub open spec fn draft_of(window: JsonView, position: Seq<char>, limit: LimitView) -> DraftView {
    DraftView {
        position,
        limit_id: limit.id,
        limit_name: limit.name,
        used: or_view(window.get("used_percent"@), window.get("usedPercent"@)),
        remaining: or_view(window.get("remaining_percent"@), window.get("remainingPercent"@)),
        seconds: or_view(
            window.get("limit_window_seconds"@),
            or_view(window.get("window_seconds"@), window.get("windowSeconds"@)),
        ),
        minutes: or_view(window.get("window_minutes"@), window.get("windowMinutes"@)),
        reset_at: or_view(
            window.get("reset_at"@),
            or_view(window.get("resets_at"@), window.get("resetsAt"@)),
        ),
        reset_after: or_view(
            window.get("reset_after_seconds"@),
            window.get("resetAfterSeconds"@),
        ),
    }
}

/// `drafts` with the draft for a window at the end, if it is an object.
pub open spec fn with_window(
    drafts: Seq<DraftView>,
    window: JsonView,
    position: Seq<char>,
    limit: LimitView,
) -> Seq<DraftView> {
    if window is Object {
        drafts.push(draft_of(window, position, limit))
    } else {
        drafts
    }
}

/// `drafts` with the drafts for listed windows at the end; they are numbered from 1.
pub open spec fn with_windows(
    drafts: Seq<DraftView>,
    windows: Seq<JsonView>,
    limit: LimitView,
) -> Seq<DraftView>
    decreases windows.len(),
{
    if windows.len() == 0 {
        drafts
    } else {
        with_window(
            with_windows(drafts, windows.drop_last(), limit),
            windows.last(),
            "window-"@ + decimal(windows.len()),
            limit,
        )
    }
}

/// `drafts` with the drafts for the windows of a limit at the end: those that it lists, or else its
/// primary and its secondary one.
pub open spec fn with_limit(
    drafts: Seq<DraftView>,
    value: JsonView,
    limit: LimitView,
) -> Seq<DraftView> {
    match value.get("windows"@) {
        Some(JsonView::Array(windows)) => with_windows(drafts, windows, limit),
        _ => {
            let primary = or_default(
                or_view(value.get("primary_window"@), value.get("primary"@)),
                JsonView::Null,
            );
            let secondary = or_default(
                or_view(value.get("secondary_window"@), value.get("secondary"@)),
                JsonView::Null,
            );
            with_window(
                with_window(drafts, primary, "primary"@, limit),
                secondary,
                "secondary"@,
                limit,
            )
        },
    }
}

/// The limit that the entry at `number` of a list is about.
pub open spec fn entry_limit(entry: JsonView, number: nat) -> LimitView {
    let id = match or_view(entry.get("metered_feature"@), entry.get("limit_id"@)) {
        Some(JsonView::String(id)) => id,
        _ => "limit-"@ + decimal(number),
    };
    LimitView { id, name: entry.str_at("limit_name"@) }
}

/// `drafts` with the drafts for the entries of a list of limits at the end; they are numbered from 1.
pub open spec fn with_limits(drafts: Seq<DraftView>, entries: Seq<JsonView>) -> Seq<DraftView>
    decreases entries.len(),
{
    if entries.len() == 0 {
        drafts
    } else {
        let entry = entries.last();
        with_limit(
            with_limits(drafts, entries.drop_last()),
            or_default(entry.get("rate_limit"@), entry),
            entry_limit(entry, entries.len()),
        )
    }
}

/// The limit that usage is measured by unless another is named.
pub open spec fn codex_limit() -> LimitView {
    LimitView { id: "codex"@, name: None }
}

/// The drafts for all windows of a report.
pub open spec fn drafts_of(payload: JsonView) -> Seq<DraftView> {
    let main = with_limit(
        Seq::empty(),
        or_default(payload.get("rate_limit"@), payload),
        codex_limit(),
    );
    with_limits(
        with_limits(main, payload.items_at("rate_limits"@)),
        payload.items_at("additional_rate_limits"@),
    )
}

/// A copy of the first of some fields that is there.
fn first_field(window: &Json, first: &str, second: &str, third: Option<&str>) -> (value: Option<Json>)
    ensures
        opt_json(value) == or_view(
            window@.get(first@),
            or_view(
                window@.get(second@),
                match third {
                    Some(third) => window@.get(third@),
                    None => None,
                },
            ),
        ),
{
    if let Some(value) = window.get(first) {
        return Some(value.clone());
    }
    if let Some(value) = window.get(second) {
        return Some(value.clone());
    }
    match third {
        Some(third) => match window.get(third) {
            Some(value) => Some(value.clone()),
            None => None,
        },
        None => None,
    }
}

/// The contents of a limit.
spec fn limit_view(id: &str, name: Option<&str>) -> LimitView {
    LimitView { id: id@, name: opt_text(name) }
}

/// Adds the draft for a window, if it is an object.
fn add_window(
    drafts: &mut Vec<WindowDraft>,
    window: &Json,
    position: &str,
    id: &str,
    name: Option<&str>,
)
    ensures
        draft_views(final(drafts)@) == with_window(
            draft_views(old(drafts)@),
            window@,
            position@,
            limit_view(id, name),
        ),
{
    if window.as_object().is_none() {
        return ;
    }
    let draft = WindowDraft {
        position: position.to_owned(),
        limit_id: id.to_owned(),
        limit_name: match name {
            Some(name) => Some(name.to_owned()),
            None => None,
        },
        used: first_field(window, "used_percent", "usedPercent", None),
        remaining: first_field(window, "remaining_percent", "remainingPercent", None),
        seconds: first_field(
            window,
            "limit_window_seconds",
            "window_seconds",
            Some("windowSeconds"),
        ),
        minutes: first_field(window, "window_minutes", "windowMinutes", None),
        reset_at: first_field(window, "reset_at", "resets_at", Some("resetsAt")),
        reset_after: first_field(window, "reset_after_seconds", "resetAfterSeconds", None),
    };
    let ghost before = drafts@;
    drafts.push(draft);
    assert(draft_views(drafts@) =~= draft_views(before).push(draft@));
}

/// Adds the drafts for the windows of a limit.
fn add_limit(drafts: &mut Vec<WindowDraft>, value: &Json, id: &str, name: Option<&str>)
    ensures
        draft_views(final(drafts)@) == with_limit(
            draft_views(old(drafts)@),
            value@,
            limit_view(id, name),
        ),
{
    if let Some(windows) = value.array_at("windows") {
        let ghost start = draft_views(drafts@);
        let mut i: usize = 0;
        proof {
            lemma_items_whole(windows@);
        }
        while i < windows.len()
            invariant
                i <= windows@.len(),
                draft_views(drafts@) == with_windows(
                    start,
                    items_view(windows@).take(i as int),
                    limit_view(id, name),
                ),
            decreases windows@.len() - i,
        {
            proof {
                lemma_items_take(windows@, i as int);
            }
            let mut position = "window-".to_owned();
            position.append(number_text(i as u64 + 1).as_str());
            add_window(drafts, &windows[i], position.as_str(), id, name);
            i = i + 1;
        }
        return ;
    }
    let none = Json::Null;
    let primary = match value.get("primary_window") {
        Some(window) => window,
        None => match value.get("primary") {
            Some(window) => window,
            None => &none,
        },
    };
    add_window(drafts, primary, "primary", id, name);
    let secondary = match value.get("secondary_window") {
        Some(window) => window,
        None => match value.get("secondary") {
            Some(window) => window,
            None => &none,
        },
    };
    add_window(drafts, secondary, "secondary", id, name);
}

/// Adds the drafts for the entries of a list of limits.
fn add_limits(drafts: &mut Vec<WindowDraft>, payload: &Json, key: &str)
    ensures
        draft_views(final(drafts)@) == with_limits(
            draft_views(old(drafts)@),
            payload@.items_at(key@),
        ),
{
    let entries = match payload.array_at(key) {
        Some(entries) => entries,
        None => {
            return ;
        },
    };
    let ghost start = draft_views(drafts@);
    let mut i: usize = 0;
    proof {
        lemma_items_whole(entries@);
    }
    while i < entries.len()
        invariant
            i <= entries@.len(),
            draft_views(drafts@) == with_limits(start, items_view(entries@).take(i as int)),
        decreases entries@.len() - i,
    {
        proof {
            lemma_items_take(entries@, i as int);
        }
        let entry = &entries[i];
        let named = match entry.get("metered_feature") {
            Some(id) => Some(id),
            None => entry.get("limit_id"),
        };
        let id = match named {
            Some(Json::String(id)) => id.clone(),
            _ => {
                let mut id = "limit-".to_owned();
                id.append(number_text(i as u64 + 1).as_str());
                id
            },
        };
        let value = match entry.get("rate_limit") {
            Some(value) => value,
            None => entry,
        };
        add_limit(drafts, value, id.as_str(), entry.str_at("limit_name"));
        i = i + 1;
    }
}

/// The drafts for all windows of a report, in the order in which they are shown.
pub fn read_windows(payload: &Json) -> (drafts: Vec<WindowDraft>)
    ensures
        draft_views(drafts@) == drafts_of(payload@),
{
    let mut drafts: Vec<WindowDraft> = Vec::new();
    assert(draft_views(drafts@) =~= Seq::<DraftView>::empty());
    let value = match payload.get("rate_limit") {
        Some(value) => value,
        None => payload,
    };
    add_limit(&mut drafts, value, "codex", None);
    add_limits(&mut drafts, payload, "rate_limits");
    add_limits(&mut drafts, payload, "additional_rate_limits");
    drafts
}

/// Which values of a draft can be read as numbers.
#[derive(Debug, Clone, Copy)]
pub struct Readable {
    pub used: bool,
    pub remaining: bool,
    pub seconds: bool,
    pub minutes: bool,
    pub reset_at: bool,
    pub reset_after: bool,
}

/// Where the percentage that remains of a window comes from: it is given, or it is what the used one
/// leaves of 100.
#[derive(Debug, Clone, Copy, PartialEq, Eq, Structural)]
pub enum ShareSource {
    Remaining,
    Used,
}

/// Where the length of a window comes from: it is given in seconds or in minutes.
#[derive(Debug, Clone, Copy, PartialEq, Eq, Structural)]
pub enum LengthSource {
    Seconds,
    Minutes,
}

/// Where the time at which a window starts anew comes from: it is given, or how long it takes until
/// then is.
#[derive(Debug, Clone, Copy, PartialEq, Eq, Structural)]
pub enum ResetSource {
    At,
    After,
}

/// Where the numbers of a window come from.
#[derive(Debug, Clone, Copy)]
pub struct WindowSources {
    pub share: ShareSource,
    pub length: Option<LengthSource>,
    pub reset: Option<ResetSource>,
}

/// Where the numbers of a window come from; nothing if it says neither what remains nor what is used,
/// and is not shown.
pub open spec fn sources_of(readable: Readable) -> Option<WindowSources> {
    if !readable.used && !readable.remaining {
        None
    } else {
        Some(
            WindowSources {
                share: if readable.remaining {
                    ShareSource::Remaining
                } else {
                    ShareSource::Used
                },
                length: if readable.seconds {
                    Some(LengthSource::Seconds)
                } else if readable.minutes {
                    Some(LengthSource::Minutes)
                } else {
                    None
                },
                reset: if readable.reset_at {
                    Some(ResetSource::At)
                } else if readable.reset_after {
                    Some(ResetSource::After)
                } else {
                    None
                },
            },
        )
    }
}

/// Where the numbers of a window come from; nothing if it is not shown. What is given comes before
/// what must be computed.
pub fn window_sources(readable: Readable) -> (sources: Option<WindowSources>)
    ensures
        sources == sources_of(readable),
{
    if !readable.used && !readable.remaining {
        return None;
    }
    let share = if readable.remaining {
        ShareSource::Remaining
    } else {
        ShareSource::Used
    };
    let length = if readable.seconds {
        Some(LengthSource::Seconds)
    } else if readable.minutes {
        Some(LengthSource::Minutes)
    } else {
        None
    };
    let reset = if readable.reset_at {
        Some(ResetSource::At)
    } else if readable.reset_after {
        Some(ResetSource::After)
    } else {
        None
    };
    Some(WindowSources { share, length, reset })
}

/// What a window is called: by its length in seconds, or else by its position.
pub open spec fn label_of(seconds: Option<u64>, fallback: Seq<char>) -> Seq<char> {
    match seconds {
        None => if fallback == "primary"@ {
            "Primary window"@
        } else if fallback == "secondary"@ {
            "Secondary window"@
        } else {
            "Usage window"@
        },
        Some(s) => if s == 604800 {
            "Weekly window"@
        } else if s % 604800 == 0 {
            decimal((s / 604800) as nat) + "-week window"@
        } else if s % 86400 == 0 {
            decimal((s / 86400) as nat) + "-day window"@
        } else if s % 3600 == 0 {
            decimal((s / 3600) as nat) + "-hour window"@
        } else if s % 60 == 0 {
            decimal((s / 60) as nat) + "-minute window"@
        } else {
            decimal(s as nat) + "-second window"@
        },
    }
}

/// A number followed by a text.
fn counted(n: u64, unit: &str) -> (text: String)
    ensures
        text@ == decimal(n as nat) + unit@,
{
    let mut text = number_text(n);
    text.append(unit);
    text
}

/// What a window is called: by its length in whole seconds, where it is known to be more than
/// nothing, or else by its position.
pub fn usage_label(seconds: Option<u64>, fallback: &str) -> (label: String)
    ensures
        label@ == label_of(seconds, fallback@),
{
    match seconds {
        None => if text_eq(fallback, "primary") {
            "Primary window".to_owned()
        } else if text_eq(fallback, "secondary") {
            "Secondary window".to_owned()
        } else {
            "Usage window".to_owned()
        },
        Some(s) => if s == 604800 {
            "Weekly window".to_owned()
        } else if s % 604800 == 0 {
            counted(s / 604800, "-week window")
        } else if s % 86400 == 0 {
            counted(s / 86400, "-day window")
        } else if s % 3600 == 0 {
            counted(s / 3600, "-hour window")
        } else if s % 60 == 0 {
            counted(s / 60, "-minute window")
        } else {
            counted(s, "-second window")
        },
    }
}

/// The numbers of a window: its length in whole seconds, where it is known to be more than nothing,
/// the percentage that remains, and when it starts anew.
#[derive(Debug)]
pub struct WindowNumbers {
    pub seconds: Option<u64>,
    pub remaining: Json,
    pub resets_at: Json,
}

/// What the numbers of a window are.
pub struct NumbersView {
    pub seconds: Option<u64>,
    pub remaining: JsonView,
    pub resets_at: JsonView,
}

/// What the numbers of windows are; a window without them is not shown.
pub open spec fn number_views(numbers: Seq<Option<WindowNumbers>>) -> Seq<Option<NumbersView>> {
    numbers.map_values(
        |entry: Option<WindowNumbers>|
            match entry {
                Some(numbers) => Some(
                    NumbersView {
                        seconds: numbers.seconds,
                        remaining: numbers.remaining@,
                        resets_at: numbers.resets_at@,
                    },
                ),
                None => None,
            },
    )
}

/// A window as it is shown, at this place in the list.
pub open spec fn window_view(draft: DraftView, numbers: NumbersView, place: nat) -> JsonView {
    JsonView::Object(
        no_fields().insert(
            "id"@,
            json_str(draft.limit_id + ":"@ + draft.position + ":"@ + decimal(place)),
        ).insert("limitId"@, json_str(draft.limit_id)).insert(
            "limitName"@,
            json_opt_str(draft.limit_name),
        ).insert("label"@, json_str(label_of(numbers.seconds, draft.position))).insert(
            "remainingPercent"@,
            numbers.remaining,
        ).insert("resetsAt"@, numbers.resets_at),
    )
}

/// The windows that are shown: those with numbers, in order.
pub open spec fn windows_of(
    drafts: Seq<DraftView>,
    numbers: Seq<Option<NumbersView>>,
) -> Seq<JsonView>
    decreases drafts.len(),
{
    if drafts.len() == 0 {
        Seq::empty()
    } else {
        let before = windows_of(drafts.drop_last(), numbers.drop_last());
        match numbers.last() {
            Some(own) => before.push(window_view(drafts.last(), own, before.len())),
            None => before,
        }
    }
}

/// The windows that are shown: those with numbers, in order.
pub fn assemble_windows(drafts: &Vec<WindowDraft>, numbers: &Vec<Option<WindowNumbers>>) -> (windows:
    Vec<Json>)
    requires
        drafts@.len() == numbers@.len(),
    ensures
        items_view(windows@) == windows_of(draft_views(drafts@), number_views(numbers@)),
{
    let ghost all = draft_views(drafts@);
    let ghost values = number_views(numbers@);
    let mut windows: Vec<Json> = Vec::new();
    let mut i: usize = 0;
    proof {
        assert(all.take(0) =~= Seq::<DraftView>::empty());
        assert(items_view(windows@) =~= Seq::<JsonView>::empty());
    }
    while i < drafts.len()
        invariant
            i <= drafts@.len(),
            drafts@.len() == numbers@.len(),
            all == draft_views(drafts@),
            values == number_views(numbers@),
            items_view(windows@) == windows_of(all.take(i as int), values.take(i as int)),
        decreases drafts@.len() - i,
    {
        proof {
            assert(all.take(i + 1).drop_last() =~= all.take(i as int));
            assert(values.take(i + 1).drop_last() =~= values.take(i as int));
            assert(all.take(i + 1).last() == drafts@[i as int]@);
            assert(values.take(i + 1).last() == values[i as int]);
        }
        let draft = &drafts[i];
        if let Some(own) = &numbers[i] {
            let mut id = draft.limit_id.clone();
            id.append(":");
            id.append(draft.position.as_str());
            id.append(":");
            id.append(number_text(windows.len() as u64).as_str());
            let mut map = JsonMap::new();
            map.insert("id", Json::String(id));
            map.insert("limitId", Json::text(draft.limit_id.as_str()));
            map.insert(
                "limitName",
                match &draft.limit_name {
                    Some(name) => Json::text(name.as_str()),
                    None => Json::Null,
                },
            );
            map.insert("label", Json::String(usage_label(own.seconds, draft.position.as_str())));
            map.insert("remainingPercent", own.remaining.clone());
            map.insert("resetsAt", own.resets_at.clone());
            let ghost before = windows@;
            windows.push(Json::Object(map));
            proof {
                lemma_items_push(before, Json::Object(map));
            }
        }
        i = i + 1;
    }
    proof {
        assert(all.take(drafts@.len() as int) =~= all);
        assert(values.take(drafts@.len() as int) =~= values);
    }
    windows
}

/// What is shown of the usage of an account.
pub open spec fn snapshot_view(account: AccountView) -> JsonView {
    let base = no_fields().insert("accountId"@, json_str(account.id)).insert(
        "label"@,
        json_str(label_view(account)),
    ).insert("status"@, json_str(account.status));
    match account.usage_snapshot {
        None => JsonView::Object(
            base.insert("windows"@, JsonView::Array(Seq::empty())).insert(
                "error"@,
                json_str("Usage has not been captured yet"@),
            ),
        ),
        Some(snapshot) => {
            let shown = base.insert("windows"@, JsonView::Array(snapshot.windows));
            let planned = match snapshot.plan_type {
                Some(plan) => shown.insert("planType"@, json_str(plan)),
                None => shown,
            };
            let dated = match snapshot.fetched_at {
                Some(time) => planned.insert("fetchedAt"@, json_str(time)),
                None => planned,
            };
            JsonView::Object(
                match snapshot.error {
                    Some(error) => dated.insert(
                        if snapshot.fetched_at is Some {
                            "refreshError"@
                        } else {
                            "error"@
                        },
                        json_str(error),
                    ),
                    None => dated,
                },
            )
        },
    }
}

/// What is shown of the usage of an account. A failure to refresh is told apart from never having
/// been read.
pub fn usage_snapshot_for_account(account: &Account) -> (shown: Json)
    ensures
        shown@ == snapshot_view(account@),
{
    let mut map = JsonMap::new();
    map.insert("accountId", Json::text(account.id.as_str()));
    map.insert("label", Json::String(account_label(account)));
    map.insert("status", Json::text(account.status.as_str()));
    match &account.usage_snapshot {
        None => {
            let none: Vec<Json> = Vec::new();
            assert(items_view(none@) =~= Seq::<JsonView>::empty());
            map.insert("windows", Json::Array(none));
            map.insert("error", Json::text("Usage has not been captured yet"));
        },
        Some(snapshot) => {
            map.insert("windows", Json::Array(copy_items(&snapshot.windows)));
            if let Some(plan) = &snapshot.plan_type {
                map.insert("planType", Json::text(plan.as_str()));
            }
            if let Some(time) = &snapshot.fetched_at {
                map.insert("fetchedAt", Json::text(time.as_str()));
            }
            if let Some(error) = &snapshot.error {
                let key = if snapshot.fetched_at.is_some() {
                    "refreshError"
                } else {
                    "error"
                };
                map.insert(key, Json::text(error.as_str()));
            }
        },
    }
    Json::Object(map)
}

/// What is shown of the usage of an account that is not there any more.
pub open spec fn removed_snapshot(id: Seq<char>) -> JsonView {
    JsonView::Object(
        no_fields().insert("accountId"@, json_str(id)).insert("status"@, json_str("removed"@)).insert(
            "windows"@,
            JsonView::Array(Seq::empty()),
        ).insert("error"@, json_str("Account was removed"@)),
    )
}

/// What is shown of the usage of accounts.
pub open spec fn snapshots_of(accounts: Seq<AccountView>) -> Seq<JsonView> {
    accounts.map_values(|account: AccountView| snapshot_view(account))
}

/// What is shown of the usage of all accounts at once.
pub open spec fn all_snapshots(accounts: Seq<AccountView>, time: Seq<char>) -> JsonView {
    JsonView::Object(
        no_fields().insert("fetchedAt"@, json_str(time)).insert(
            "accounts"@,
            JsonView::Array(snapshots_of(accounts)),
        ),
    )
}

/// Whether what is shown of the usage of an account tells of a failure.
pub open spec fn has_failed(shown: JsonView) -> bool {
    shown.get("error"@) is Some || shown.get("refreshError"@) is Some
}

/// How many of some snapshots tell of a failure.
pub open spec fn failures(shown: Seq<JsonView>) -> nat
    decreases shown.len(),
{
    if shown.len() == 0 {
        0
    } else if has_failed(shown.last()) {
        failures(shown.drop_last()) + 1
    } else {
        failures(shown.drop_last())
    }
}

/// The answer to the wish to refresh all accounts.
pub open spec fn refreshed_view(shown: Seq<JsonView>, time: Seq<char>) -> JsonView {
    JsonView::Object(
        no_fields().insert("refreshedAt"@, json_str(time)).insert(
            "failed"@,
            json_u64(failures(shown) as u64),
        ).insert("accounts"@, JsonView::Array(shown)),
    )
}

proof fn lemma_failures(shown: Seq<JsonView>)
    ensures
        failures(shown) <= shown.len(),
    decreases shown.len(),
{
    if shown.len() > 0 {
        lemma_failures(shown.drop_last());
    }
}

/// The answer to the wish to refresh all accounts, given what is shown of each afterwards.
pub fn refreshed(shown: Vec<Json>, time: &str) -> (answer: Json)
    ensures
        answer@ == refreshed_view(items_view(shown@), time@),
{
    let n = shown.len();
    let mut failed: u64 = 0;
    let mut i: usize = 0;
    proof {
        lemma_items_whole(shown@);
    }
    while i < n
        invariant
            i <= n,
            n == shown@.len(),
            failed <= i,
            failed == failures(items_view(shown@).take(i as int)),
        decreases n - i,
    {
        proof {
            lemma_items_take(shown@, i as int);
        }
        if shown[i].get("error").is_some() || shown[i].get("refreshError").is_some() {
            failed = failed + 1;
        }
        i = i + 1;
    }
    let mut map = JsonMap::new();
    map.insert("refreshedAt", Json::text(time));
    map.insert("failed", Json::count(failed));
    map.insert("accounts", Json::Array(shown));
    Json::Object(map)
}

/// What is asked of a provider to learn the usage of an account.
pub open spec fn usage_request_of(config: Config, account: AccountView) -> Result<
    Seq<char>,
    ErrorView,
> {
    match config.provider(account.provider) {
        None => Err(provider_missing(account.provider)),
        Some(provider) => if provider.api.usage_url@.len() == 0 {
            Err(error_view(400, "Usage is not configured for "@ + provider.label@))
        } else {
            Ok(provider.api.usage_url@)
        },
    }
}

/// Where to ask for the usage of an account, or an error.
pub fn usage_request(config: &Config, account: &Account) -> (result: Result<String, AppError>)
    ensures
        usage_request_of(*config, account@) == (match result {
            Ok(url) => Ok::<Seq<char>, ErrorView>(url@),
            Err(error) => Err::<Seq<char>, ErrorView>(error@),
        }),
{
    let provider = match provider(config, account.provider.as_str()) {
        Ok(provider) => provider,
        Err(error) => {
            return Err(error);
        },
    };
    if provider.api.usage_url.as_str().is_empty() {
        let mut message = "Usage is not configured for ".to_owned();
        message.append(provider.label.as_str());
        return Err(AppError::new(400, message.as_str()));
    }
    Ok(provider.api.usage_url.clone())
}

/// The report that an answer holds, or an error, with what reading it as JSON gives.
pub open spec fn usage_reply_of(status: u16, document: Result<JsonView, Seq<char>>) -> Result<
    JsonView,
    ErrorView,
> {
    if !is_success(status) {
        Err(error_view(status, "Usage API returned HTTP "@ + decimal(status as nat)))
    } else {
        match document {
            Ok(report) => Ok(report),
            Err(_) => Err(error_view(502, "Usage API returned invalid JSON"@)),
        }
    }
}

/// The report that an answer holds, or an error, with what reading it as JSON gives.
pub fn usage_reply_with(status: u16, document: Result<Json, String>) -> (result: Result<
    Json,
    AppError,
>)
    ensures
        usage_reply_of(status, document_view(document)) == (match result {
            Ok(report) => Ok::<JsonView, ErrorView>(report@),
            Err(error) => Err::<JsonView, ErrorView>(error@),
        }),
{
    if !success(status) {
        let mut message = "Usage API returned HTTP ".to_owned();
        message.append(number_text(status as u64).as_str());
        return Err(AppError::new(status, message.as_str()));
    }
    match document {
        Ok(report) => Ok(report),
        Err(_) => Err(AppError::new(502, "Usage API returned invalid JSON")),
    }
}

/// The report that an answer holds, or an error.
pub fn usage_reply(status: u16, text: &str) -> (result: Result<Json, AppError>)
    ensures
        usage_reply_of(status, parsed(text@)) == (match result {
            Ok(report) => Ok::<JsonView, ErrorView>(report@),
            Err(error) => Err::<JsonView, ErrorView>(error@),
        }),
{
    usage_reply_with(status, parse_json(text))
}

/// The plan that a report names.
pub fn plan_type(report: &Json) -> (plan: Option<String>)
    ensures
        opt_string(plan) == report@.str_at("plan_type"@),
{
    match report.str_at("plan_type") {
        Some(plan) => Some(plan.to_owned()),
        None => None,
    }
}

/// What an attempt to learn the usage of an account gave: the plan and the windows, or a message.
pub type UsageResult = Result<(Option<String>, Vec<Json>), String>;

/// What an attempt gave, as contracts speak of it.
pub open spec fn usage_result_view(result: UsageResult) -> Result<
    (Option<Seq<char>>, Seq<JsonView>),
    Seq<char>,
> {
    match result {
        Ok((plan, windows)) => Ok((opt_string(plan), items_view(windows@))),
        Err(message) => Err(message@),
    }
}

/// A snapshot after an attempt that began at `attempted`: a success replaces it, a failure leaves
/// what was known and notes the message.
pub open spec fn snapshot_after(
    snapshot: Option<SnapshotView>,
    result: Result<(Option<Seq<char>>, Seq<JsonView>), Seq<char>>,
    attempted: Seq<char>,
    time: Seq<char>,
) -> SnapshotView {
    match result {
        Ok((plan_type, windows)) => SnapshotView {
            plan_type,
            windows,
            fetched_at: Some(time),
            refresh_attempted_at: Some(attempted),
            error: None,
        },
        Err(message) => SnapshotView {
            refresh_attempted_at: Some(attempted),
            error: Some(message),
            ..or_default(snapshot, empty_snapshot())
        },
    }
}

impl Database {
    /// What is shown of the usage of the account with this identifier.
    pub fn usage_snapshot_for_id(&self, id: &str) -> (shown: Json)
        ensures
            shown@ == (match active_account(self@.accounts, id@) {
                Some(account) => snapshot_view(account),
                None => removed_snapshot(id@),
            }),
    {
        match self.account(id) {
            Some(account) => usage_snapshot_for_account(&account),
            None => {
                let none: Vec<Json> = Vec::new();
                assert(items_view(none@) =~= Seq::<JsonView>::empty());
                let mut map = JsonMap::new();
                map.insert("accountId", Json::text(id));
                map.insert("status", Json::text("removed"));
                map.insert("windows", Json::Array(none));
                map.insert("error", Json::text("Account was removed"));
                Json::Object(map)
            },
        }
    }

    /// What is shown of the usage of all accounts at once.
    pub fn current_usage_snapshots(&self, time: &str) -> (shown: Json)
        ensures
            shown@ == all_snapshots(active_of(self@.accounts), time@),
    {
        let accounts = self.active_accounts();
        let ghost all = active_of(self@.accounts);
        let mut list: Vec<Json> = Vec::new();
        let mut i: usize = 0;
        while i < accounts.len()
            invariant
                i <= accounts@.len(),
                all == account_views(accounts@),
                list@.len() == i,
                forall|j: int| 0 <= j < i ==> (#[trigger] list@[j])@ == snapshot_view(all[j]),
            decreases accounts@.len() - i,
        {
            list.push(usage_snapshot_for_account(&accounts[i]));
            i = i + 1;
        }
        assert(items_view(list@) =~= snapshots_of(all));
        let mut map = JsonMap::new();
        map.insert("fetchedAt", Json::text(time));
        map.insert("accounts", Json::Array(list));
        Json::Object(map)
    }

    /// Notes what an attempt to learn the usage of an account gave. Says whether the account is there.
    pub fn record_usage(&mut self, id: &str, result: UsageResult, attempted: &str, time: &str) -> (found:
        bool)
        ensures
            found == (position(old(self)@.accounts, id@, 0) is Some),
            final(self)@ == (match position(old(self)@.accounts, id@, 0) {
                Some(at) => DatabaseView {
                    accounts: old(self)@.accounts.update(
                        at,
                        AccountView {
                            usage_snapshot: Some(
                                snapshot_after(
                                    old(self)@.accounts[at].usage_snapshot,
                                    usage_result_view(result),
                                    attempted@,
                                    time@,
                                ),
                            ),
                            ..old(self)@.accounts[at]
                        },
                    ),
                    ..old(self)@
                },
                None => old(self)@,
            }),
    {
        let at = match self.index(id) {
            Some(at) => at,
            None => {
                return false;
            },
        };
        let ghost before = self.accounts@;
        let snapshot = match result {
            Ok((plan_type, windows)) => UsageSnapshot {
                plan_type,
                windows,
                fetched_at: Some(time.to_owned()),
                refresh_attempted_at: Some(attempted.to_owned()),
                error: None,
            },
            Err(message) => {
                let mut snapshot = match &self.accounts[at].usage_snapshot {
                    Some(snapshot) => snapshot.clone(),
                    None => UsageSnapshot::default(),
                };
                snapshot.refresh_attempted_at = Some(attempted.to_owned());
                snapshot.error = Some(message);
                snapshot
            },
        };
        self.accounts[at].usage_snapshot = Some(snapshot);
        assert(account_views(self.accounts@) =~= account_views(before).update(
            at as int,
            self.accounts@[at as int]@,
        ));
        true
    }
}

/// Whether the usage of an account has never been read.
pub fn never_read(account: &Account) -> (result: bool)
    ensures
        result == (match account@.usage_snapshot {
            Some(snapshot) => snapshot.fetched_at is None,
            None => true,
        }),
{
    match &account.usage_snapshot {
        Some(snapshot) => snapshot.fetched_at.is_none(),
        None => true,
    }
}

/// How far the refreshing of one account has come: whether it is going on, and whether another round
/// was asked for.
#[derive(Debug, Clone, Copy)]
pub struct UsageRefreshState {
    pub running: bool,
    pub pending: bool,
}

impl Default for UsageRefreshState {
    fn default() -> (state: Self)
        ensures
            !state.running && !state.pending,
    {
        UsageRefreshState { running: false, pending: false }
    }
}

/// What a wish to refresh does: a round is asked for, and a worker is started if there is none.
pub open spec fn scheduled(state: UsageRefreshState) -> (UsageRefreshState, bool) {
    (UsageRefreshState { running: true, pending: true }, !state.running)
}

/// What a worker does between rounds: it goes on with another round if one was asked for, or stops.
pub open spec fn next_round(state: UsageRefreshState) -> (UsageRefreshState, bool) {
    if state.pending {
        (UsageRefreshState { pending: false, ..state }, true)
    } else {
        (UsageRefreshState { running: false, ..state }, false)
    }
}

impl UsageRefreshState {
    /// Asks for a round. Says whether a worker must be started.
    pub fn schedule(&mut self) -> (spawn: bool)
        ensures
            (*final(self), spawn) == scheduled(*old(self)),
    {
        self.pending = true;
        if self.running {
            false
        } else {
            self.running = true;
            true
        }
    }

    /// Says whether the worker goes on with another round.
    pub fn next(&mut self) -> (refresh: bool)
        ensures
            (*final(self), refresh) == next_round(*old(self)),
    {
        if self.pending {
            self.pending = false;
            true
        } else {
            self.running = false;
            false
        }
    }
}

/// What happens to the refreshing of one account.
pub enum RefreshEvent {
    /// A refresh is asked for.
    Asked,
    /// The worker looks whether to go on.
    Looked,
}

/// How far refreshing has come after some events, how many workers there are, and how many rounds
/// have begun.
pub struct RefreshRun {
    pub state: UsageRefreshState,
    pub workers: int,
    pub rounds: int,
}

/// Refreshing after some events. The worker looks only if there is one.
pub open spec fn refresh_run(events: Seq<RefreshEvent>) -> RefreshRun
    decreases events.len(),
{
    if events.len() == 0 {
        RefreshRun {
            state: UsageRefreshState { running: false, pending: false },
            workers: 0,
            rounds: 0,
        }
    } else {
        let before = refresh_run(events.drop_last());
        match events.last() {
            RefreshEvent::Asked => {
                let (state, spawn) = scheduled(before.state);
                RefreshRun {
                    state,
                    workers: before.workers + if spawn {
                        1int
                    } else {
                        0
                    },
                    rounds: before.rounds,
                }
            },
            RefreshEvent::Looked => if before.workers == 0 {
                before
            } else {
                let (state, refresh) = next_round(before.state);
                RefreshRun {
                    state,
                    workers: before.workers - if refresh {
                        0int
                    } else {
                        1
                    },
                    rounds: before.rounds + if refresh {
                        1int
                    } else {
                        0
                    },
                }
            },
        }
    }
}

/// Refreshes of one account follow one another: there is never more than one worker, there is one
/// exactly while the account is marked as being refreshed, and a worker never stops while a round is
/// asked for.
pub proof fn law_refreshes_are_serialized(events: Seq<RefreshEvent>)
    ensures
        0 <= refresh_run(events).workers <= 1,
        refresh_run(events).workers == 1 <==> refresh_run(events).state.running,
        refresh_run(events).state.pending ==> refresh_run(events).state.running,
    decreases events.len(),
{
    if events.len() > 0 {
        law_refreshes_are_serialized(events.drop_last());
    }
}

/// Wishes that come while a round is under way are met together: after any number of them one round
/// is begun, and then the worker stops.
pub proof fn law_wishes_are_coalesced(events: Seq<RefreshEvent>, wishes: nat)
    requires
        wishes > 0,
    ensures
        ({
            let asked = events + Seq::new(wishes, |i: int| RefreshEvent::Asked);
            let once = asked.push(RefreshEvent::Looked);
            let twice = once.push(RefreshEvent::Looked);
            &&& refresh_run(once).rounds == refresh_run(events).rounds + 1
            &&& refresh_run(twice).rounds == refresh_run(events).rounds + 1
            &&& refresh_run(twice).workers == 0
        }),
{
    let asked = events + Seq::new(wishes, |i: int| RefreshEvent::Asked);
    lemma_asked(events, wishes);
    law_refreshes_are_serialized(asked);
    let once = asked.push(RefreshEvent::Looked);
    let twice = once.push(RefreshEvent::Looked);
    assert(once.drop_last() =~= asked);
    assert(once.last() is Looked);
    assert(refresh_run(once).workers == 1 && !refresh_run(once).state.pending);
    assert(twice.drop_last() =~= once);
    assert(twice.last() is Looked);
}

proof fn lemma_asked(events: Seq<RefreshEvent>, wishes: nat)
    requires
        wishes > 0,
    ensures
        ({
            let asked = events + Seq::new(wishes, |i: int| RefreshEvent::Asked);
            &&& refresh_run(asked).rounds == refresh_run(events).rounds
            &&& refresh_run(asked).state.pending
            &&& refresh_run(asked).state.running
        }),
    decreases wishes,
{
    let asked = events + Seq::new(wishes, |i: int| RefreshEvent::Asked);
    let short = events + Seq::new((wishes - 1) as nat, |i: int| RefreshEvent::Asked);
    assert(asked.drop_last() =~= short);
    if wishes > 1 {
        lemma_asked(events, (wishes - 1) as nat);
    } else {
        assert(short =~= events);
    }
}

/// A failed refresh loses nothing that was known: the windows, the plan and the time of the last
/// success stay, and the message is shown beside them.
pub proof fn law_failed_refresh_keeps_what_was_known(
    account: AccountView,
    message: Seq<char>,
    attempted: Seq<char>,
    time: Seq<char>,
)
    requires
        account.usage_snapshot is Some,
        account.usage_snapshot->0.fetched_at is Some,
    ensures
        ({
            let old_snapshot = account.usage_snapshot->0;
            let after = snapshot_after(
                account.usage_snapshot,
                Err::<(Option<Seq<char>>, Seq<JsonView>), Seq<char>>(message),
                attempted,
                time,
            );
            let shown = snapshot_view(AccountView { usage_snapshot: Some(after), ..account });
            &&& after.windows == old_snapshot.windows
            &&& after.plan_type == old_snapshot.plan_type
            &&& after.fetched_at == old_snapshot.fetched_at
            &&& shown.get("refreshError"@) == Some(json_str(message))
            &&& shown.get("error"@) is None
            &&& shown.get("windows"@) == Some(JsonView::Array(old_snapshot.windows))
        }),
{
    reveal_strlit("refreshError");
    reveal_strlit("error");
    reveal_strlit("windows");
    reveal_strlit("fetchedAt");
    reveal_strlit("planType");
    reveal_strlit("status");
    reveal_strlit("label");
    reveal_strlit("accountId");
    assert("refreshError"@.len() == 12 && "error"@.len() == 5 && "windows"@.len() == 7);
    assert("fetchedAt"@.len() == 9 && "planType"@.len() == 8 && "status"@.len() == 6);
    assert("label"@[0] != "error"@[0]);
    assert("accountId"@.len() == 9 && "label"@.len() == 5);
}

/// Whether a draft says of a window what its fields say: each value stands under one of several
/// names, of which the first that is there counts.
pub open spec fn tells_window(
    draft: DraftView,
    window: JsonView,
    position: Seq<char>,
    id: Seq<char>,
    name: Option<Seq<char>>,
) -> bool {
    &&& draft.position == position
    &&& draft.limit_id == id
    &&& draft.limit_name == name
    &&& draft.used == if window.get("used_percent"@) is Some {
        window.get("used_percent"@)
    } else {
        window.get("usedPercent"@)
    }
    &&& draft.remaining == if window.get("remaining_percent"@) is Some {
        window.get("remaining_percent"@)
    } else {
        window.get("remainingPercent"@)
    }
    &&& draft.seconds == if window.get("limit_window_seconds"@) is Some {
        window.get("limit_window_seconds"@)
    } else if window.get("window_seconds"@) is Some {
        window.get("window_seconds"@)
    } else {
        window.get("windowSeconds"@)
    }
    &&& draft.minutes == if window.get("window_minutes"@) is Some {
        window.get("window_minutes"@)
    } else {
        window.get("windowMinutes"@)
    }
    &&& draft.reset_at == if window.get("reset_at"@) is Some {
        window.get("reset_at"@)
    } else if window.get("resets_at"@) is Some {
        window.get("resets_at"@)
    } else {
        window.get("resetsAt"@)
    }
    &&& draft.reset_after == if window.get("reset_after_seconds"@) is Some {
        window.get("reset_after_seconds"@)
    } else {
        window.get("resetAfterSeconds"@)
    }
}

/// Whether one of the drafts says of a window what its fields say.
pub open spec fn reads_window(
    drafts: Seq<DraftView>,
    window: JsonView,
    position: Seq<char>,
    id: Seq<char>,
    name: Option<Seq<char>>,
) -> bool {
    exists|k: int|
        0 <= k < drafts.len() && tells_window(#[trigger] drafts[k], window, position, id, name)
}

/// Whether the drafts tell of every window of a limit: of those that it lists, each under its number,
/// or, where it lists none, of the primary and the secondary one. A window is an object.
pub open spec fn reads_limit(
    drafts: Seq<DraftView>,
    value: JsonView,
    id: Seq<char>,
    name: Option<Seq<char>>,
) -> bool {
    let primary = if value.get("primary_window"@) is Some {
        value.get("primary_window"@)
    } else {
        value.get("primary"@)
    };
    let secondary = if value.get("secondary_window"@) is Some {
        value.get("secondary_window"@)
    } else {
        value.get("secondary"@)
    };
    if value.get("windows"@) is Some && value.get("windows"@)->0 is Array {
        forall|i: int|
            0 <= i < value.items_at("windows"@).len() && (#[trigger] value.items_at(
                "windows"@,
            )[i]) is Object ==> reads_window(
                drafts,
                value.items_at("windows"@)[i],
                "window-"@ + decimal((i + 1) as nat),
                id,
                name,
            )
    } else {
        &&& primary is Some && primary->0 is Object ==> reads_window(
            drafts,
            primary->0,
            "primary"@,
            id,
            name,
        )
        &&& secondary is Some && secondary->0 is Object ==> reads_window(
            drafts,
            secondary->0,
            "secondary"@,
            id,
            name,
        )
    }
}

proof fn lemma_reads_more(
    drafts: Seq<DraftView>,
    more: Seq<DraftView>,
    window: JsonView,
    position: Seq<char>,
    id: Seq<char>,
    name: Option<Seq<char>>,
)
    requires
        drafts.len() <= more.len(),
        more.take(drafts.len() as int) == drafts,
        reads_window(drafts, window, position, id, name),
    ensures
        reads_window(more, window, position, id, name),
{
    let k = choose|k: int|
        0 <= k < drafts.len() && tells_window(#[trigger] drafts[k], window, position, id, name);
    assert(more.take(drafts.len() as int)[k] == more[k]);
    assert(tells_window(more[k], window, position, id, name));
}

proof fn lemma_limit_reads_more(
    drafts: Seq<DraftView>,
    more: Seq<DraftView>,
    value: JsonView,
    id: Seq<char>,
    name: Option<Seq<char>>,
)
    requires
        drafts.len() <= more.len(),
        more.take(drafts.len() as int) == drafts,
        reads_limit(drafts, value, id, name),
    ensures
        reads_limit(more, value, id, name),
{
    assert forall|window: JsonView, position: Seq<char>|
        reads_window(drafts, window, position, id, name) implies #[trigger] reads_window(
        more,
        window,
        position,
        id,
        name,
    ) by {
        lemma_reads_more(drafts, more, window, position, id, name);
    }
}

proof fn lemma_window_read(
    drafts: Seq<DraftView>,
    window: JsonView,
    position: Seq<char>,
    limit: LimitView,
)
    ensures
        ({
            let after = with_window(drafts, window, position, limit);
            &&& drafts.len() <= after.len()
            &&& after.take(drafts.len() as int) == drafts
            &&& window is Object ==> reads_window(after, window, position, limit.id, limit.name)
        }),
{
    let after = with_window(drafts, window, position, limit);
    assert(after.take(drafts.len() as int) =~= drafts);
    if window is Object {
        assert(tells_window(
            after[drafts.len() as int],
            window,
            position,
            limit.id,
            limit.name,
        ));
    }
}

proof fn lemma_windows_read(drafts: Seq<DraftView>, windows: Seq<JsonView>, limit: LimitView)
    ensures
        ({
            let after = with_windows(drafts, windows, limit);
            &&& drafts.len() <= after.len()
            &&& after.take(drafts.len() as int) == drafts
            &&& forall|i: int|
                0 <= i < windows.len() && (#[trigger] windows[i]) is Object ==> reads_window(
                    after,
                    windows[i],
                    "window-"@ + decimal((i + 1) as nat),
                    limit.id,
                    limit.name,
                )
        }),
    decreases windows.len(),
{
    let after = with_windows(drafts, windows, limit);
    if windows.len() == 0 {
        assert(after.take(drafts.len() as int) =~= drafts);
    } else {
        let short = windows.drop_last();
        let before = with_windows(drafts, short, limit);
        lemma_windows_read(drafts, short, limit);
        lemma_window_read(before, windows.last(), "window-"@ + decimal(windows.len()), limit);
        assert(after.take(drafts.len() as int) =~= before.take(drafts.len() as int));
        assert forall|i: int| 0 <= i < windows.len() && (#[trigger] windows[i]) is Object implies
            reads_window(
            after,
            windows[i],
            "window-"@ + decimal((i + 1) as nat),
            limit.id,
            limit.name,
        ) by {
            if i < short.len() {
                assert(short[i] == windows[i]);
                lemma_reads_more(
                    before,
                    after,
                    windows[i],
                    "window-"@ + decimal((i + 1) as nat),
                    limit.id,
                    limit.name,
                );
            }
        }
    }
}

proof fn lemma_limit_read(drafts: Seq<DraftView>, value: JsonView, limit: LimitView)
    ensures
        ({
            let after = with_limit(drafts, value, limit);
            &&& drafts.len() <= after.len()
            &&& after.take(drafts.len() as int) == drafts
            &&& reads_limit(after, value, limit.id, limit.name)
        }),
{
    let after = with_limit(drafts, value, limit);
    match value.get("windows"@) {
        Some(JsonView::Array(windows)) => {
            lemma_windows_read(drafts, windows, limit);
        },
        _ => {
            let primary = or_default(
                or_view(value.get("primary_window"@), value.get("primary"@)),
                JsonView::Null,
            );
            let secondary = or_default(
                or_view(value.get("secondary_window"@), value.get("secondary"@)),
                JsonView::Null,
            );
            let first = with_window(drafts, primary, "primary"@, limit);
            lemma_window_read(drafts, primary, "primary"@, limit);
            lemma_window_read(first, secondary, "secondary"@, limit);
            assert(after.take(drafts.len() as int) =~= first.take(drafts.len() as int));
            if primary is Object {
                lemma_reads_more(first, after, primary, "primary"@, limit.id, limit.name);
            }
        },
    }
}

/// The identifier that an entry of a list of limits gives, or the one that its number stands for.
pub open spec fn told_limit_id(entry: JsonView, number: nat) -> Seq<char> {
    if entry.str_at("metered_feature"@) is Some {
        entry.str_at("metered_feature"@)->0
    } else if entry.get("metered_feature"@) is None && entry.str_at("limit_id"@) is Some {
        entry.str_at("limit_id"@)->0
    } else {
        "limit-"@ + decimal(number)
    }
}

/// What an entry of a list of limits says of its windows.
pub open spec fn told_limit(entry: JsonView) -> JsonView {
    if entry.get("rate_limit"@) is Some {
        entry.get("rate_limit"@)->0
    } else {
        entry
    }
}

proof fn lemma_limits_read(drafts: Seq<DraftView>, entries: Seq<JsonView>)
    ensures
        ({
            let after = with_limits(drafts, entries);
            &&& drafts.len() <= after.len()
            &&& after.take(drafts.len() as int) == drafts
            &&& forall|i: int|
                0 <= i < entries.len() ==> reads_limit(
                    after,
                    told_limit(#[trigger] entries[i]),
                    told_limit_id(entries[i], (i + 1) as nat),
                    entries[i].str_at("limit_name"@),
                )
        }),
    decreases entries.len(),
{
    let after = with_limits(drafts, entries);
    if entries.len() == 0 {
        assert(after.take(drafts.len() as int) =~= drafts);
    } else {
        let short = entries.drop_last();
        let entry = entries.last();
        let before = with_limits(drafts, short);
        lemma_limits_read(drafts, short);
        lemma_limit_read(before, told_limit(entry), entry_limit(entry, entries.len()));
        assert(after.take(drafts.len() as int) =~= before.take(drafts.len() as int));
        assert forall|i: int| 0 <= i < entries.len() implies reads_limit(
            after,
            told_limit(#[trigger] entries[i]),
            told_limit_id(entries[i], (i + 1) as nat),
            entries[i].str_at("limit_name"@),
        ) by {
            if i < short.len() {
                assert(short[i] == entries[i]);
                lemma_limit_reads_more(
                    before,
                    after,
                    told_limit(entries[i]),
                    told_limit_id(entries[i], (i + 1) as nat),
                    entries[i].str_at("limit_name"@),
                );
            }
        }
    }
}

/// Every window of a report is read: those of its own limit, which is called `codex`, and those of
/// every entry of its two lists of limits, each with the values that its fields give.
pub proof fn law_every_window_is_read(payload: JsonView)
    ensures
        reads_limit(drafts_of(payload), told_limit(payload), "codex"@, None),
        forall|i: int|
            0 <= i < payload.items_at("rate_limits"@).len() ==> reads_limit(
                drafts_of(payload),
                told_limit(#[trigger] payload.items_at("rate_limits"@)[i]),
                told_limit_id(payload.items_at("rate_limits"@)[i], (i + 1) as nat),
                payload.items_at("rate_limits"@)[i].str_at("limit_name"@),
            ),
        forall|i: int|
            0 <= i < payload.items_at("additional_rate_limits"@).len() ==> reads_limit(
                drafts_of(payload),
                told_limit(#[trigger] payload.items_at("additional_rate_limits"@)[i]),
                told_limit_id(payload.items_at("additional_rate_limits"@)[i], (i + 1) as nat),
                payload.items_at("additional_rate_limits"@)[i].str_at("limit_name"@),
            ),
{
    let main = with_limit(Seq::empty(), told_limit(payload), codex_limit());
    let entries = payload.items_at("rate_limits"@);
    let second = with_limits(main, entries);
    let all = drafts_of(payload);
    lemma_limit_read(Seq::empty(), told_limit(payload), codex_limit());
    lemma_limits_read(main, entries);
    lemma_limits_read(second, payload.items_at("additional_rate_limits"@));
    lemma_limit_reads_more(main, second, told_limit(payload), "codex"@, None);
    lemma_limit_reads_more(second, all, told_limit(payload), "codex"@, None);
    assert forall|i: int| 0 <= i < entries.len() implies reads_limit(
        all,
        told_limit(#[trigger] entries[i]),
        told_limit_id(entries[i], (i + 1) as nat),
        entries[i].str_at("limit_name"@),
    ) by {
        lemma_limit_reads_more(
            second,
            all,
            told_limit(entries[i]),
            told_limit_id(entries[i], (i + 1) as nat),
            entries[i].str_at("limit_name"@),
        );
    }
}

/// How many windows a limit has: those that it lists, or else its primary and its secondary one; only
/// objects count.
pub open spec fn window_count(value: JsonView) -> nat {
    let primary = if value.get("primary_window"@) is Some {
        value.get("primary_window"@)
    } else {
        value.get("primary"@)
    };
    let secondary = if value.get("secondary_window"@) is Some {
        value.get("secondary_window"@)
    } else {
        value.get("secondary"@)
    };
    let first: nat = if primary is Some && primary->0 is Object {
        1
    } else {
        0
    };
    let second: nat = if secondary is Some && secondary->0 is Object {
        1
    } else {
        0
    };
    if value.get("windows"@) is Some && value.get("windows"@)->0 is Array {
        objects_in(value.items_at("windows"@))
    } else {
        first + second
    }
}

/// How many of some documents are objects.
pub open spec fn objects_in(items: Seq<JsonView>) -> nat
    decreases items.len(),
{
    if items.len() == 0 {
        0
    } else if items.last() is Object {
        objects_in(items.drop_last()) + 1
    } else {
        objects_in(items.drop_last())
    }
}

/// How many windows a list of limits has.
pub open spec fn windows_in(entries: Seq<JsonView>) -> nat
    decreases entries.len(),
{
    if entries.len() == 0 {
        0
    } else {
        windows_in(entries.drop_last()) + window_count(told_limit(entries.last()))
    }
}

proof fn lemma_windows_count(drafts: Seq<DraftView>, windows: Seq<JsonView>, limit: LimitView)
    ensures
        with_windows(drafts, windows, limit).len() == drafts.len() + objects_in(windows),
    decreases windows.len(),
{
    if windows.len() > 0 {
        lemma_windows_count(drafts, windows.drop_last(), limit);
    }
}

proof fn lemma_limit_count(drafts: Seq<DraftView>, value: JsonView, limit: LimitView)
    ensures
        with_limit(drafts, value, limit).len() == drafts.len() + window_count(value),
{
    if let Some(JsonView::Array(windows)) = value.get("windows"@) {
        lemma_windows_count(drafts, windows, limit);
    }
}

proof fn lemma_limits_count(drafts: Seq<DraftView>, entries: Seq<JsonView>)
    ensures
        with_limits(drafts, entries).len() == drafts.len() + windows_in(entries),
    decreases entries.len(),
{
    if entries.len() > 0 {
        let short = entries.drop_last();
        lemma_limits_count(drafts, short);
        lemma_limit_count(
            with_limits(drafts, short),
            told_limit(entries.last()),
            entry_limit(entries.last(), entries.len()),
        );
    }
}

/// Nothing but the windows of a report is read: there are as many drafts as windows.
pub proof fn law_nothing_else_is_read(payload: JsonView)
    ensures
        drafts_of(payload).len() == window_count(told_limit(payload)) + windows_in(
            payload.items_at("rate_limits"@),
        ) + windows_in(payload.items_at("additional_rate_limits"@)),
{
    let main = with_limit(Seq::empty(), told_limit(payload), codex_limit());
    lemma_limit_count(Seq::empty(), told_limit(payload), codex_limit());
    lemma_limits_count(main, payload.items_at("rate_limits"@));
    lemma_limits_count(
        with_limits(main, payload.items_at("rate_limits"@)),
        payload.items_at("additional_rate_limits"@),
    );
}

/// A window is shown exactly if what is used or what remains of it can be read, and what is given
/// comes before what must be computed.
pub proof fn law_given_numbers_come_first(readable: Readable)
    ensures
        sources_of(readable) is None <==> !readable.used && !readable.remaining,
        sources_of(readable) is Some ==> ({
            let sources = sources_of(readable)->0;
            &&& sources.share is Remaining <==> readable.remaining
            &&& sources.length is None <==> !readable.seconds && !readable.minutes
            &&& sources.length == Some(LengthSource::Seconds) <==> readable.seconds
            &&& sources.reset is None <==> !readable.reset_at && !readable.reset_after
            &&& sources.reset == Some(ResetSource::At) <==> readable.reset_at
        }),
{
}

proof fn lemma_weeks(n: u64, position: Seq<char>)
    requires
        n != 1,
        n * 604800 <= u64::MAX,
    ensures
        label_of(Some((n * 604800) as u64), position) == decimal(n as nat) + "-week window"@,
{
    let s = (n * 604800) as u64;
    assert(s % 604800 == 0 && s / 604800 == n);
}

proof fn lemma_days(n: u64, position: Seq<char>)
    requires
        n % 7 != 0,
        n * 86400 <= u64::MAX,
    ensures
        label_of(Some((n * 86400) as u64), position) == decimal(n as nat) + "-day window"@,
{
    let s = (n * 86400) as u64;
    assert(s % 86400 == 0 && s / 86400 == n);
    assert(s % 604800 != 0);
}

proof fn lemma_hours(n: u64, position: Seq<char>)
    requires
        n % 24 != 0,
        n * 3600 <= u64::MAX,
    ensures
        label_of(Some((n * 3600) as u64), position) == decimal(n as nat) + "-hour window"@,
{
    let s = (n * 3600) as u64;
    assert(s % 3600 == 0 && s / 3600 == n);
    assert(s % 86400 != 0);
    assert(s % 604800 != 0) by {
        assert(s % 604800 == 0 ==> s % 86400 == 0);
    }
}

proof fn lemma_minutes(n: u64, position: Seq<char>)
    requires
        n % 60 != 0,
        n * 60 <= u64::MAX,
    ensures
        label_of(Some((n * 60) as u64), position) == decimal(n as nat) + "-minute window"@,
{
    let s = (n * 60) as u64;
    assert(s % 60 == 0 && s / 60 == n);
    assert(s % 3600 != 0);
    assert(s % 86400 == 0 ==> s % 3600 == 0);
    assert(s % 604800 == 0 ==> s % 3600 == 0);
}

proof fn lemma_seconds(n: u64, position: Seq<char>)
    requires
        n % 60 != 0,
    ensures
        label_of(Some(n), position) == decimal(n as nat) + "-second window"@,
{
    assert(n % 3600 == 0 ==> n % 60 == 0);
    assert(n % 86400 == 0 ==> n % 60 == 0);
    assert(n % 604800 == 0 ==> n % 60 == 0);
}

/// A window is called by its length in the longest unit that it is a whole number of, a week by its
/// own name; one of unknown length is called by its position.
#[verifier::spinoff_prover]
pub proof fn law_windows_are_called_by_their_length(n: u64, position: Seq<char>)
    ensures
        label_of(Some(604800), position) == "Weekly window"@,
        n != 1 && n * 604800 <= u64::MAX ==> label_of(Some((n * 604800) as u64), position) == decimal(
            n as nat,
        ) + "-week window"@,
        n % 7 != 0 && n * 86400 <= u64::MAX ==> label_of(Some((n * 86400) as u64), position)
            == decimal(n as nat) + "-day window"@,
        n % 24 != 0 && n * 3600 <= u64::MAX ==> label_of(Some((n * 3600) as u64), position)
            == decimal(n as nat) + "-hour window"@,
        n % 60 != 0 && n * 60 <= u64::MAX ==> label_of(Some((n * 60) as u64), position) == decimal(
            n as nat,
        ) + "-minute window"@,
        n % 60 != 0 ==> label_of(Some(n), position) == decimal(n as nat) + "-second window"@,
        label_of(None, "primary"@) == "Primary window"@,
        label_of(None, "secondary"@) == "Secondary window"@,
        position != "primary"@ && position != "secondary"@ ==> label_of(None, position)
            == "Usage window"@,
{
    reveal_strlit("primary");
    reveal_strlit("secondary");
    assert("primary"@.len() == 7 && "secondary"@.len() == 9);
    if n != 1 && n * 604800 <= u64::MAX {
        lemma_weeks(n, position);
    }
    if n % 7 != 0 && n * 86400 <= u64::MAX {
        lemma_days(n, position);
    }
    if n % 24 != 0 && n * 3600 <= u64::MAX {
        lemma_hours(n, position);
    }
    if n % 60 != 0 && n * 60 <= u64::MAX {
        lemma_minutes(n, position);
    }
    if n % 60 != 0 {
        lemma_seconds(n, position);
    }
}

/// A window is shown with the numbers that were found for it, under an identifier made of its limit,
/// its position and its place in the list.
pub proof fn law_window_is_shown_whole(draft: DraftView, numbers: NumbersView, place: nat)
    ensures
        ({
            let shown = window_view(draft, numbers, place);
            &&& shown.str_at("id"@) == Some(
                draft.limit_id + ":"@ + draft.position + ":"@ + decimal(place),
            )
            &&& shown.str_at("limitId"@) == Some(draft.limit_id)
            &&& shown.str_at("limitName"@) == draft.limit_name
            &&& shown.get("limitName"@) is Some
            &&& shown.str_at("label"@) == Some(label_of(numbers.seconds, draft.position))
            &&& shown.get("remainingPercent"@) == Some(numbers.remaining)
            &&& shown.get("resetsAt"@) == Some(numbers.resets_at)
        }),
{
    reveal_strlit("id");
    reveal_strlit("limitId");
    reveal_strlit("limitName");
    reveal_strlit("label");
    reveal_strlit("remainingPercent");
    reveal_strlit("resetsAt");
    assert("id"@.len() == 2 && "limitId"@.len() == 7 && "limitName"@.len() == 9);
    assert("label"@.len() == 5 && "remainingPercent"@.len() == 16 && "resetsAt"@.len() == 8);
}

/// The windows of a report are shown in their order, numbered by their place in what is shown; one
/// without numbers is left out.
pub proof fn law_windows_are_shown_in_order(
    drafts: Seq<DraftView>,
    numbers: Seq<Option<NumbersView>>,
    draft: DraftView,
    own: Option<NumbersView>,
)
    requires
        drafts.len() == numbers.len(),
    ensures
        windows_of(Seq::empty(), Seq::empty()).len() == 0,
        own is None ==> windows_of(drafts.push(draft), numbers.push(own)) == windows_of(
            drafts,
            numbers,
        ),
        own is Some ==> windows_of(drafts.push(draft), numbers.push(own)) == windows_of(
            drafts,
            numbers,
        ).push(window_view(draft, own->0, windows_of(drafts, numbers).len())),
{
    assert(drafts.push(draft).drop_last() =~= drafts);
    assert(numbers.push(own).drop_last() =~= numbers);
}

proof fn lemma_shown_keys()
    ensures
        "accountId"@ != "label"@,
        "accountId"@ != "status"@,
        "accountId"@ != "windows"@,
        "accountId"@ != "planType"@,
        "accountId"@ != "fetchedAt"@,
        "accountId"@ != "refreshError"@,
        "accountId"@ != "error"@,
        "label"@ != "status"@,
        "label"@ != "windows"@,
        "label"@ != "planType"@,
        "label"@ != "fetchedAt"@,
        "label"@ != "refreshError"@,
        "label"@ != "error"@,
        "status"@ != "windows"@,
        "status"@ != "planType"@,
        "status"@ != "fetchedAt"@,
        "status"@ != "refreshError"@,
        "status"@ != "error"@,
        "windows"@ != "planType"@,
        "windows"@ != "fetchedAt"@,
        "windows"@ != "refreshError"@,
        "windows"@ != "error"@,
        "planType"@ != "fetchedAt"@,
        "planType"@ != "refreshError"@,
        "planType"@ != "error"@,
        "fetchedAt"@ != "refreshError"@,
        "fetchedAt"@ != "error"@,
        "refreshError"@ != "error"@,
{
    reveal_strlit("accountId");
    reveal_strlit("label");
    reveal_strlit("status");
    reveal_strlit("windows");
    reveal_strlit("planType");
    reveal_strlit("fetchedAt");
    reveal_strlit("refreshError");
    reveal_strlit("error");
    assert("accountId"@.len() == 9 && "label"@.len() == 5 && "status"@.len() == 6);
    assert("windows"@.len() == 7 && "planType"@.len() == 8 && "fetchedAt"@.len() == 9);
    assert("refreshError"@.len() == 12 && "error"@.len() == 5);
    assert("label"@[0] != "error"@[0]);
    assert("accountId"@[0] != "fetchedAt"@[0]);
}

/// What is shown of the usage of an account is what was remembered of it: the windows, the plan and
/// the time of the last success, and the message of a failure, as a failed refresh where there was a
/// success before. An account whose usage was never captured is shown without windows and says so.
pub proof fn law_remembered_usage_is_shown(account: AccountView)
    ensures
        ({
            let shown = snapshot_view(account);
            &&& shown.str_at("accountId"@) == Some(account.id)
            &&& shown.str_at("status"@) == Some(account.status)
            &&& shown.str_at("label"@) == Some(label_view(account))
            &&& account.usage_snapshot is None ==> {
                &&& shown.get("windows"@) == Some(JsonView::Array(Seq::empty()))
                &&& shown.str_at("error"@) == Some("Usage has not been captured yet"@)
                &&& shown.get("planType"@) is None && shown.get("fetchedAt"@) is None && shown.get(
                    "refreshError"@,
                ) is None
            }
            &&& account.usage_snapshot is Some ==> {
                let snapshot = account.usage_snapshot->0;
                &&& shown.get("windows"@) == Some(JsonView::Array(snapshot.windows))
                &&& shown.get("planType"@) is Some <==> snapshot.plan_type is Some
                &&& shown.str_at("planType"@) == snapshot.plan_type
                &&& shown.get("fetchedAt"@) is Some <==> snapshot.fetched_at is Some
                &&& shown.str_at("fetchedAt"@) == snapshot.fetched_at
                &&& snapshot.error is None ==> shown.get("error"@) is None && shown.get(
                    "refreshError"@,
                ) is None
                &&& snapshot.error is Some && snapshot.fetched_at is Some ==> shown.str_at(
                    "refreshError"@,
                ) == snapshot.error && shown.get("error"@) is None
                &&& snapshot.error is Some && snapshot.fetched_at is None ==> shown.str_at("error"@)
                    == snapshot.error && shown.get("refreshError"@) is None
            }
        }),
{
    lemma_shown_keys();
}

/// An account that is not there is shown as removed.
pub proof fn law_removed_account_is_shown_as_such(id: Seq<char>)
    ensures
        removed_snapshot(id).str_at("accountId"@) == Some(id),
        removed_snapshot(id).str_at("status"@) == Some("removed"@),
        removed_snapshot(id).get("windows"@) == Some(JsonView::Array(Seq::empty())),
        removed_snapshot(id).str_at("error"@) == Some("Account was removed"@),
{
    lemma_shown_keys();
}

/// A successful refresh replaces all that was known.
pub proof fn law_successful_refresh_replaces_all(
    snapshot: Option<SnapshotView>,
    plan: Option<Seq<char>>,
    windows: Seq<JsonView>,
    attempted: Seq<char>,
    time: Seq<char>,
)
    ensures
        ({
            let after = snapshot_after(
                snapshot,
                Ok::<(Option<Seq<char>>, Seq<JsonView>), Seq<char>>((plan, windows)),
                attempted,
                time,
            );
            &&& after.plan_type == plan
            &&& after.windows == windows
            &&& after.fetched_at == Some(time)
            &&& after.refresh_attempted_at == Some(attempted)
            &&& after.error is None
        }),
{
}

/// A failed refresh notes when it was tried and why it failed; a first one leaves nothing else known.
pub proof fn law_failed_refresh_is_noted(
    snapshot: Option<SnapshotView>,
    message: Seq<char>,
    attempted: Seq<char>,
    time: Seq<char>,
)
    ensures
        ({
            let after = snapshot_after(
                snapshot,
                Err::<(Option<Seq<char>>, Seq<JsonView>), Seq<char>>(message),
                attempted,
                time,
            );
            &&& after.error == Some(message)
            &&& after.refresh_attempted_at == Some(attempted)
            &&& snapshot is None ==> after.windows.len() == 0 && after.plan_type is None
                && after.fetched_at is None
            &&& snapshot is Some ==> after.windows == snapshot->0.windows && after.plan_type
                == snapshot->0.plan_type && after.fetched_at == snapshot->0.fetched_at
        }),
{
}

/// What is shown of all accounts holds each of them at its place.
pub proof fn law_all_accounts_are_shown(accounts: Seq<AccountView>, time: Seq<char>, i: int)
    ensures
        ({
            let shown = all_snapshots(accounts, time);
            &&& shown.str_at("fetchedAt"@) == Some(time)
            &&& shown.items_at("accounts"@).len() == accounts.len()
            &&& 0 <= i < accounts.len() ==> shown.items_at("accounts"@)[i].str_at("accountId"@)
                == Some(accounts[i].id)
            &&& 0 <= i < accounts.len() ==> shown.items_at("accounts"@)[i] == snapshot_view(
                accounts[i],
            )
        }),
{
    reveal_strlit("fetchedAt");
    reveal_strlit("accounts");
    assert("fetchedAt"@.len() == 9 && "accounts"@.len() == 8);
    if 0 <= i < accounts.len() {
        law_remembered_usage_is_shown(accounts[i]);
    }
}

/// The answer to the wish to refresh all accounts counts those that tell of a failure, and no others.
pub proof fn law_failures_are_counted(shown: Seq<JsonView>, next: JsonView, time: Seq<char>)
    requires
        shown.len() < u64::MAX,
    ensures
        refreshed_view(Seq::empty(), time).u64_at("failed"@) == Some(0u64),
        refreshed_view(shown, time).str_at("refreshedAt"@) == Some(time),
        refreshed_view(shown, time).get("accounts"@) == Some(JsonView::Array(shown)),
        refreshed_view(shown, time).u64_at("failed"@) is Some,
        refreshed_view(shown.push(next), time).u64_at("failed"@) == Some(
            (refreshed_view(shown, time).u64_at("failed"@)->0 + if next.get("error"@) is Some
                || next.get("refreshError"@) is Some {
                1int
            } else {
                0
            }) as u64,
        ),
{
    reveal_strlit("refreshedAt");
    reveal_strlit("failed");
    reveal_strlit("accounts");
    assert("refreshedAt"@.len() == 11 && "failed"@.len() == 6 && "accounts"@.len() == 8);
    lemma_failures(shown);
    assert(shown.push(next).drop_last() =~= shown);
}

/// A report is asked for where the account's provider says, and only a successful answer in JSON is
/// one; any other is an error with the status of the answer.
pub proof fn law_only_successful_reports_count(status: u16, document: Result<JsonView, Seq<char>>)
    ensures
        usage_reply_of(status, document) is Ok <==> 200 <= status < 300 && document is Ok,
        usage_reply_of(status, document) is Ok ==> usage_reply_of(status, document)->Ok_0
            == document->Ok_0,
        !(200 <= status < 300) ==> usage_reply_of(status, document)->Err_0.status == status,
        200 <= status < 300 && document is Err ==> usage_reply_of(status, document)->Err_0.status
            == 502,
{
}

/// The usage of an account is asked for at the address that its provider has for it; without a
/// provider or an address there is an error.
pub proof fn law_usage_is_asked_at_the_provider(config: Config, account: AccountView)
    ensures
        ({
            let provider = config.provider(account.provider);
            &&& usage_request_of(config, account) is Ok <==> provider is Some
                && provider->0.api.usage_url@.len() > 0
            &&& usage_request_of(config, account) is Ok ==> usage_request_of(config, account)->Ok_0
                == provider->0.api.usage_url@
        }),
{
}

/// The windows of a report come in their order: the primary one of its own limit before the secondary
/// one, and listed ones as they are listed.
pub proof fn law_windows_are_read_in_order(payload: JsonView, i: int)
    ensures
        ({
            let value = told_limit(payload);
            let drafts = drafts_of(payload);
            let windows = value.items_at("windows"@);
            let listed = value.get("windows"@) is Some && value.get("windows"@)->0 is Array;
            let primary = if value.get("primary_window"@) is Some {
                value.get("primary_window"@)
            } else {
                value.get("primary"@)
            };
            let secondary = if value.get("secondary_window"@) is Some {
                value.get("secondary_window"@)
            } else {
                value.get("secondary"@)
            };
            let first = primary is Some && primary->0 is Object;
            let second = secondary is Some && secondary->0 is Object;
            &&& !listed && first ==> drafts.len() > 0 && tells_window(
                drafts[0],
                primary->0,
                "primary"@,
                "codex"@,
                None,
            )
            &&& !listed && first && second ==> drafts.len() > 1 && tells_window(
                drafts[1],
                secondary->0,
                "secondary"@,
                "codex"@,
                None,
            )
            &&& !listed && !first && second ==> drafts.len() > 0 && tells_window(
                drafts[0],
                secondary->0,
                "secondary"@,
                "codex"@,
                None,
            )
            &&& listed && 0 <= i < windows.len() && (forall|k: int|
                0 <= k < windows.len() ==> (#[trigger] windows[k]) is Object) ==> drafts.len() > i
                && tells_window(
                drafts[i],
                windows[i],
                "window-"@ + decimal((i + 1) as nat),
                "codex"@,
                None,
            )
        }),
{
    let value = told_limit(payload);
    let main = with_limit(Seq::empty(), value, codex_limit());
    let second = with_limits(main, payload.items_at("rate_limits"@));
    let drafts = drafts_of(payload);
    lemma_limits_read(main, payload.items_at("rate_limits"@));
    lemma_limits_read(second, payload.items_at("additional_rate_limits"@));
    assert forall|k: int| 0 <= k < main.len() implies k < drafts.len() && #[trigger] main[k]
        == drafts[k] by {
        assert(second.take(main.len() as int)[k] == second[k]);
        assert(drafts.take(second.len() as int)[k] == drafts[k]);
    }
    if let Some(JsonView::Array(windows)) = value.get("windows"@) {
        if 0 <= i < windows.len() && (forall|k: int|
            0 <= k < windows.len() ==> (#[trigger] windows[k]) is Object) {
            lemma_listed(windows, codex_limit(), i);
            assert(main[i] == drafts[i]);
        }
    } else {
        if main.len() > 0 {
            assert(main[0] == drafts[0]);
        }
        if main.len() > 1 {
            assert(main[1] == drafts[1]);
        }
    }
}

proof fn lemma_listed(windows: Seq<JsonView>, limit: LimitView, i: int)
    requires
        0 <= i < windows.len(),
        forall|k: int| 0 <= k < windows.len() ==> (#[trigger] windows[k]) is Object,
    ensures
        with_windows(Seq::empty(), windows, limit).len() == windows.len(),
        tells_window(
            with_windows(Seq::empty(), windows, limit)[i],
            windows[i],
            "window-"@ + decimal((i + 1) as nat),
            limit.id,
            limit.name,
        ),
    decreases windows.len(),
{
    let short = windows.drop_last();
    assert forall|k: int| 0 <= k < short.len() implies (#[trigger] short[k]) is Object by {
        assert(windows[k] is Object);
    }
    assert(windows[windows.len() - 1] is Object);
    if short.len() > 0 {
        lemma_listed(short, limit, if i < short.len() {
            i
        } else {
            0
        });
        if i < short.len() {
            assert(short[i] == windows[i]);
        }
    } else {
        assert(with_windows(Seq::empty(), short, limit) == Seq::<DraftView>::empty());
    }
}

/// The limits of a report come in the order of its lists, one list behind the other: a limit more at
/// the end of a list adds its windows behind those of the limits before it.
pub proof fn law_limits_are_read_in_order(short: JsonView, long: JsonView, entry: JsonView)
    requires
        told_limit(long) == told_limit(short),
        ({
            ||| (long.items_at("rate_limits"@) == short.items_at("rate_limits"@).push(entry)
                && long.items_at("additional_rate_limits"@).len() == 0 && short.items_at(
                "additional_rate_limits"@,
            ).len() == 0)
            ||| (long.items_at("rate_limits"@) == short.items_at("rate_limits"@) && long.items_at(
                "additional_rate_limits"@,
            ) == short.items_at("additional_rate_limits"@).push(entry))
        }),
    ensures
        drafts_of(short).len() <= drafts_of(long).len(),
        drafts_of(long).take(drafts_of(short).len() as int) == drafts_of(short),
{
    let main = with_limit(Seq::empty(), told_limit(short), codex_limit());
    let some = short.items_at("rate_limits"@);
    if long.items_at("rate_limits"@) == some {
        let base = with_limits(main, some);
        let more = short.items_at("additional_rate_limits"@);
        assert(more.push(entry).drop_last() =~= more);
        lemma_limit_read(
            with_limits(base, more),
            told_limit(entry),
            entry_limit(entry, more.push(entry).len()),
        );
    } else {
        assert(some.push(entry).drop_last() =~= some);
        lemma_limit_read(
            with_limits(main, some),
            told_limit(entry),
            entry_limit(entry, some.push(entry).len()),
        );
        assert(long.items_at("additional_rate_limits"@) =~= short.items_at(
            "additional_rate_limits"@,
        ));
        let none = short.items_at("additional_rate_limits"@);
        assert(with_limits(with_limits(main, some), none) == with_limits(main, some));
    }
}

}
