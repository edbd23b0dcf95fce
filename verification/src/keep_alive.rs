//! Keeping the quota windows of accounts active.

use crate::chat_stream::{read_stream_payloads, stream_payloads};
use crate::config::Config;
use crate::convert::{message, message_view, str_at_is};
use crate::errors::{error_view, is_success, success, AppError, ErrorView};
use crate::json::{
    items_view, json_str, json_u64, lemma_items_take, lemma_items_whole, no_fields, opt_view,
    or_default, Json, JsonMap, JsonView,
};
use crate::model::{account_views, Account, AccountView, Database};
use crate::order::{law_sorting, positions, sorted_positions, stable_order};
use crate::responses::payload_views;
use crate::sse::{event_views, SseEvent};
use crate::text::{decimal, number_text, precedes, text_eq, texts};
use crate::tokens::opt_account;
use crate::urls::{path_or, provider, provider_missing};
use crate::usage::opt_json;
use vstd::prelude::*;
use vstd::string::*;

verus! {

/// The model that keeps windows active.
pub const MODEL: &'static str = "gpt-5.6-luna";

/// What it is asked.
pub const PROMPT: &'static str = "Reply with OK.";

/// The state of a quota window: when it starts anew, in seconds, and the percentage that remains.
/// The percentage is given by its rank in the order of percentages, and `allowance` is the rank of
/// what is one hundredth above it.
#[derive(Debug)]
pub struct WindowState {
    pub id: String,
    pub reset_at: Option<i64>,
    pub remaining: i64,
    pub allowance: i64,
}

/// What the state of a window is.
pub struct WindowView {
    pub id: Seq<char>,
    pub reset_at: Option<i64>,
    pub remaining: i64,
    pub allowance: i64,
}

impl View for WindowState {
    type V = WindowView;

    open spec fn view(&self) -> WindowView {
        WindowView {
            id: self.id@,
            reset_at: self.reset_at,
            remaining: self.remaining,
            allowance: self.allowance,
        }
    }
}

/// What the states of windows are.
pub open spec fn window_views(windows: Seq<WindowState>) -> Seq<WindowView> {
    windows.map_values(|window: WindowState| window@)
}

/// What the states of windows are, if they are known.
pub open spec fn opt_windows(windows: Option<Vec<WindowState>>) -> Option<Seq<WindowView>> {
    match windows {
        Some(windows) => Some(window_views(windows@)),
        None => None,
    }
}

/// A window of usage that quota is counted by: what it is called, and the values that its numbers
/// are read from.
#[derive(Debug)]
pub struct StateDraft {
    pub id: String,
    pub resets_at: Option<Json>,
    pub remaining: Option<Json>,
}

/// What such a window says.
pub struct StateView {
    pub id: Seq<char>,
    pub resets_at: Option<JsonView>,
    pub remaining: Option<JsonView>,
}

impl View for StateDraft {
    type V = StateView;

    open spec fn view(&self) -> StateView {
        StateView {
            id: self.id@,
            resets_at: opt_json(self.resets_at),
            remaining: opt_json(self.remaining),
        }
    }
}

/// What such windows say.
pub open spec fn state_views(drafts: Seq<StateDraft>) -> Seq<StateView> {
    drafts.map_values(|draft: StateDraft| draft@)
}

/// What a window is known by from one check to the next: its limit and label, or else its own
/// identifier.
pub open spec fn state_id(window: JsonView) -> Option<Seq<char>> {
    match (window.str_at("limitId"@), window.str_at("label"@)) {
        (Some(limit), Some(label)) => Some(limit + ":"@ + label),
        _ => window.str_at("id"@),
    }
}

/// The windows that quota is counted by, in the order of the list.
pub open spec fn codex_states(windows: Seq<JsonView>) -> Seq<StateView>
    decreases windows.len(),
{
    if windows.len() == 0 {
        Seq::empty()
    } else {
        let before = codex_states(windows.drop_last());
        let window = windows.last();
        if window.str_at("limitId"@) == Some("codex"@) && state_id(window) is Some {
            before.push(
                StateView {
                    id: state_id(window)->0,
                    resets_at: window.get("resetsAt"@),
                    remaining: window.get("remainingPercent"@),
                },
            )
        } else {
            before
        }
    }
}

/// The identifiers of windows.
pub open spec fn state_ids(states: Seq<StateView>) -> Seq<Seq<char>> {
    states.map_values(|state: StateView| state.id)
}

/// The windows that quota is counted by, in the order of their identifiers.
pub open spec fn sorted_states(windows: Seq<JsonView>) -> Seq<StateView> {
    let states = codex_states(windows);
    stable_order(state_ids(states), states.len() as int).map_values(|at: int| states[at])
}

/// A copy of an optional document.
fn copy_json(json: Option<&Json>) -> (copy: Option<Json>)
    ensures
        opt_json(copy) == opt_view(json),
{
    match json {
        Some(json) => Some(json.clone()),
        None => None,
    }
}

/// What a window is known by from one check to the next.
fn window_id(window: &Json) -> (id: Option<String>)
    ensures
        state_id(window@) == (match id {
            Some(id) => Some(id@),
            None => None,
        }),
{
    if let Some(limit) = window.str_at("limitId") {
        if let Some(label) = window.str_at("label") {
            let mut id = limit.to_owned();
            id.append(":");
            id.append(label);
            return Some(id);
        }
    }
    match window.str_at("id") {
        Some(id) => Some(id.to_owned()),
        None => None,
    }
}

/// The windows that quota is counted by, in the order of the list.
fn select_states(windows: &Vec<Json>) -> (states: Vec<StateDraft>)
    ensures
        state_views(states@) == codex_states(items_view(windows@)),
{
    let mut states: Vec<StateDraft> = Vec::new();
    let mut i: usize = 0;
    proof {
        lemma_items_whole(windows@);
        assert(state_views(states@) =~= Seq::<StateView>::empty());
    }
    while i < windows.len()
        invariant
            i <= windows@.len(),
            state_views(states@) == codex_states(items_view(windows@).take(i as int)),
        decreases windows@.len() - i,
    {
        proof {
            lemma_items_take(windows@, i as int);
        }
        let window = &windows[i];
        if str_at_is(window, "limitId", "codex") {
            if let Some(id) = window_id(window) {
                let state = StateDraft {
                    id,
                    resets_at: copy_json(window.get("resetsAt")),
                    remaining: copy_json(window.get("remainingPercent")),
                };
                let ghost before = states@;
                states.push(state);
                assert(state_views(states@) =~= state_views(before).push(state@));
            }
        }
        i = i + 1;
    }
    states
}

/// The windows that quota is counted by, in the order of their identifiers.
pub fn window_states(windows: &Vec<Json>) -> (states: Vec<StateDraft>)
    ensures
        state_views(states@) == sorted_states(items_view(windows@)),
{
    let found = select_states(windows);
    let ghost all = state_views(found@);
    let mut ids: Vec<String> = Vec::new();
    let mut i: usize = 0;
    while i < found.len()
        invariant
            i <= found@.len(),
            all == state_views(found@),
            texts(ids@) == state_ids(all).take(i as int),
        decreases found@.len() - i,
    {
        let ghost before = ids@;
        let id = found[i].id.clone();
        ids.push(id);
        proof {
            assert(texts(ids@) =~= texts(before).push(id@));
            assert(all[i as int].id == id@);
            assert(state_ids(all).take(i + 1) =~= state_ids(all).take(i as int).push(id@));
        }
        i = i + 1;
    }
    assert(texts(ids@) =~= state_ids(all));
    let order = sorted_positions(&ids);
    let mut states: Vec<StateDraft> = Vec::new();
    let mut i: usize = 0;
    while i < order.len()
        invariant
            i <= order@.len(),
            all == state_views(found@),
            order@.len() == found@.len(),
            forall|j: int| 0 <= j < order@.len() ==> #[trigger] order@[j] < found@.len(),
            states@.len() == i,
            forall|j: int| 0 <= j < i ==> (#[trigger] states@[j])@ == all[order@[j] as int],
        decreases order@.len() - i,
    {
        let state = &found[order[i]];
        let copy = StateDraft {
            id: state.id.clone(),
            resets_at: match &state.resets_at {
                Some(value) => Some(value.clone()),
                None => None,
            },
            remaining: match &state.remaining {
                Some(value) => Some(value.clone()),
                None => None,
            },
        };
        states.push(copy);
        i = i + 1;
    }
    proof {
        let sorted = sorted_states(items_view(windows@));
        assert forall|j: int| 0 <= j < states@.len() implies state_views(states@)[j]
            == sorted[j] by {
            assert(positions(order@)[j] == order@[j] as int);
            assert(states@[j]@ == all[order@[j] as int]);
        }
        assert(state_views(states@) =~= sorted);
    }
    states
}

/// The window with this identifier; the last of the list, if there are more.
pub open spec fn window_with(windows: Seq<WindowView>, id: Seq<char>) -> Option<WindowView>
    decreases windows.len(),
{
    if windows.len() == 0 {
        None
    } else if windows.last().id == id {
        Some(windows.last())
    } else {
        window_with(windows.drop_last(), id)
    }
}

/// Whether the time at which a window starts anew has moved by more than one minute, or has become
/// known or unknown.
pub open spec fn has_moved(before: Option<i64>, after: Option<i64>) -> bool {
    match (before, after) {
        (Some(before), Some(after)) => after - before > 60 || before - after > 60,
        (None, None) => false,
        _ => true,
    }
}

/// Whether a window looks as if it had started anew: it was not there before, its time has moved or
/// has passed, or more remains of it.
pub open spec fn looks_reset(previous: Seq<WindowView>, window: WindowView, now: i64) -> bool {
    match window_with(previous, window.id) {
        None => true,
        Some(old_window) => {
            ||| has_moved(old_window.reset_at, window.reset_at)
            ||| (window.reset_at matches Some(time) && time <= now)
            ||| window.remaining > old_window.allowance
        },
    }
}

/// Whether a window looks as if it had started anew.
pub open spec fn any_reset(
    previous: Seq<WindowView>,
    current: Seq<WindowView>,
    now: i64,
) -> bool {
    exists|i: int| 0 <= i < current.len() && looks_reset(previous, #[trigger] current[i], now)
}

/// The window with this identifier; the last of the list, if there are more.
fn find_window<'a>(windows: &'a Vec<WindowState>, id: &str) -> (window: Option<&'a WindowState>)
    ensures
        window_with(window_views(windows@), id@) == (match window {
            Some(window) => Some(window@),
            None => None,
        }),
{
    let ghost all = window_views(windows@);
    let n = windows.len();
    let mut i = n;
    assert(all.take(n as int) =~= all);
    while i > 0
        invariant
            i <= n,
            n == windows@.len(),
            all == window_views(windows@),
            window_with(all, id@) == window_with(all.take(i as int), id@),
        decreases i,
    {
        assert(all.take(i as int).drop_last() =~= all.take(i - 1));
        assert(all.take(i as int).last() == windows@[i - 1]@);
        if text_eq(windows[i - 1].id.as_str(), id) {
            return Some(&windows[i - 1]);
        }
        i = i - 1;
    }
    None
}

/// Whether the time at which a window starts anew has moved by more than one minute.
fn moved(before: Option<i64>, after: Option<i64>) -> (result: bool)
    ensures
        result == has_moved(before, after),
{
    match (before, after) {
        (Some(before), Some(after)) => {
            let difference = after as i128 - before as i128;
            difference > 60 || difference < -60
        },
        (None, None) => false,
        _ => true,
    }
}

/// Whether a window looks as if it had started anew since it was last looked at.
pub fn reset_detected(previous: &Vec<WindowState>, current: &Vec<WindowState>, now: i64) -> (reset:
    bool)
    ensures
        reset == any_reset(window_views(previous@), window_views(current@), now),
{
    let ghost all = window_views(current@);
    let mut i: usize = 0;
    while i < current.len()
        invariant
            i <= current@.len(),
            all == window_views(current@),
            forall|j: int|
                0 <= j < i ==> !looks_reset(window_views(previous@), #[trigger] all[j], now),
        decreases current@.len() - i,
    {
        let window = &current[i];
        assert(all[i as int] == window@);
        let reset = match find_window(previous, window.id.as_str()) {
            None => true,
            Some(old_window) => {
                let passed = match window.reset_at {
                    Some(time) => time <= now,
                    None => false,
                };
                passed || moved(old_window.reset_at, window.reset_at) || window.remaining
                    > old_window.allowance
            },
        };
        if reset {
            assert(looks_reset(window_views(previous@), all[i as int], now));
            return true;
        }
        i = i + 1;
    }
    false
}

/// What a check of an account came to: the windows to compare with next time, and whether the request
/// is to be tried again then.
#[derive(Debug)]
pub struct CheckResult {
    pub windows: Vec<WindowState>,
    pub retry: bool,
}

/// A check that waits for a request to be answered.
#[derive(Debug)]
pub enum Sending {
    /// The first check of an account, or one after a failure.
    First { previous: Vec<WindowState> },
    /// A check that found a window that started anew.
    Reset { current: Vec<WindowState> },
}

/// A check that waits for the usage to be refreshed.
#[derive(Debug)]
pub enum Reading {
    /// The request at the first check, or after a failure, was answered or failed.
    AfterFirst { previous: Vec<WindowState>, succeeded: bool },
    /// Any other check.
    Regular { previous: Vec<WindowState> },
    /// The request for a window that started anew was answered.
    Updated { current: Vec<WindowState> },
}

/// What a check does next.
#[derive(Debug)]
pub enum CheckStep {
    /// A request is sent, for this reason.
    Send(Sending, &'static str),
    /// The usage is refreshed and read.
    Read(Reading),
    /// The check is done.
    Done(CheckResult),
}

/// What a check does next, as contracts speak of it.
pub enum StepView {
    SendFirst(Seq<WindowView>, Seq<char>),
    SendReset(Seq<WindowView>, Seq<char>),
    ReadAfterFirst(Seq<WindowView>, bool),
    ReadRegular(Seq<WindowView>),
    ReadUpdated(Seq<WindowView>),
    Done(Seq<WindowView>, bool),
}

impl View for CheckStep {
    type V = StepView;

    open spec fn view(&self) -> StepView {
        match self {
            CheckStep::Send(Sending::First { previous }, reason) => StepView::SendFirst(
                window_views(previous@),
                reason@,
            ),
            CheckStep::Send(Sending::Reset { current }, reason) => StepView::SendReset(
                window_views(current@),
                reason@,
            ),
            CheckStep::Read(Reading::AfterFirst { previous, succeeded }) => {
                StepView::ReadAfterFirst(window_views(previous@), *succeeded)
            },
            CheckStep::Read(Reading::Regular { previous }) => StepView::ReadRegular(
                window_views(previous@),
            ),
            CheckStep::Read(Reading::Updated { current }) => StepView::ReadUpdated(
                window_views(current@),
            ),
            CheckStep::Done(result) => StepView::Done(window_views(result.windows@), result.retry),
        }
    }
}

/// How a check begins: an account that was never checked, or whose request failed, gets a request at
/// once; of any other the usage is read.
pub open spec fn check_begin(previous: Option<Seq<WindowView>>, retry: bool) -> StepView {
    match previous {
        None => StepView::SendFirst(
            Seq::empty(),
            if retry {
                "retry"@
            } else {
                "startup"@
            },
        ),
        Some(previous) => if retry {
            StepView::SendFirst(previous, "retry"@)
        } else {
            StepView::ReadRegular(previous)
        },
    }
}

/// How a check begins.
pub fn begin_check(previous: Option<Vec<WindowState>>, retry: bool) -> (step: CheckStep)
    ensures
        step@ == check_begin(opt_windows(previous), retry),
{
    match previous {
        None => {
            let none: Vec<WindowState> = Vec::new();
            assert(window_views(none@) =~= Seq::<WindowView>::empty());
            let reason = if retry {
                "retry"
            } else {
                "startup"
            };
            CheckStep::Send(Sending::First { previous: none }, reason)
        },
        Some(previous) => if retry {
            CheckStep::Send(Sending::First { previous }, "retry")
        } else {
            CheckStep::Read(Reading::Regular { previous })
        },
    }
}

/// How a check that waits for a request goes on after it was answered or failed.
pub open spec fn after_request(step: StepView, succeeded: bool) -> StepView {
    match step {
        StepView::SendFirst(previous, _) => StepView::ReadAfterFirst(previous, succeeded),
        StepView::SendReset(current, _) => if succeeded {
            StepView::ReadUpdated(current)
        } else {
            StepView::Done(current, true)
        },
        other => other,
    }
}

/// How a check that waits for the usage goes on after it was read at `now`.
pub open spec fn after_reading(step: StepView, usage: Option<Seq<WindowView>>, now: i64) -> StepView {
    match step {
        StepView::ReadAfterFirst(previous, succeeded) => StepView::Done(
            or_default(usage, previous),
            !succeeded,
        ),
        StepView::ReadRegular(previous) => match usage {
            None => StepView::Done(previous, false),
            Some(current) => if any_reset(previous, current, now) {
                StepView::SendReset(current, "usage_reset"@)
            } else {
                StepView::Done(current, false)
            },
        },
        StepView::ReadUpdated(current) => StepView::Done(or_default(usage, current), false),
        other => other,
    }
}

impl Sending {
    /// How the check goes on after the request was answered or failed.
    pub fn sent(self, succeeded: bool) -> (step: CheckStep)
        ensures
            forall|reason: &'static str|
                step@ == after_request(#[trigger] CheckStep::Send(self, reason).view(), succeeded),
    {
        match self {
            Sending::First { previous } => CheckStep::Read(
                Reading::AfterFirst { previous, succeeded },
            ),
            Sending::Reset { current } => if succeeded {
                CheckStep::Read(Reading::Updated { current })
            } else {
                CheckStep::Done(CheckResult { windows: current, retry: true })
            },
        }
    }
}

impl Reading {
    /// How the check goes on after the usage was read at `now`; `usage` is nothing if that failed.
    pub fn read(self, usage: Option<Vec<WindowState>>, now: i64) -> (step: CheckStep)
        ensures
            step@ == after_reading(CheckStep::Read(self)@, opt_windows(usage), now),
    {
        match self {
            Reading::AfterFirst { previous, succeeded } => CheckStep::Done(
                CheckResult {
                    windows: match usage {
                        Some(windows) => windows,
                        None => previous,
                    },
                    retry: !succeeded,
                },
            ),
            Reading::Regular { previous } => match usage {
                None => CheckStep::Done(CheckResult { windows: previous, retry: false }),
                Some(current) => if reset_detected(&previous, &current, now) {
                    CheckStep::Send(Sending::Reset { current }, "usage_reset")
                } else {
                    CheckStep::Done(CheckResult { windows: current, retry: false })
                },
            },
            Reading::Updated { current } => CheckStep::Done(
                CheckResult {
                    windows: match usage {
                        Some(windows) => windows,
                        None => current,
                    },
                    retry: false,
                },
            ),
        }
    }
}

/// What the outside makes of a step of a check: whether a request was answered, and what reading the
/// usage gave, and when.
pub struct AnswerView {
    pub succeeded: bool,
    pub usage: Option<Seq<WindowView>>,
    pub now: i64,
}

/// Whether a step sends a request.
pub open spec fn sends(step: StepView) -> bool {
    step is SendFirst || step is SendReset
}

/// The step of a check after `answers`, and how many requests were sent on the way.
pub open spec fn check_run(step: StepView, answers: Seq<AnswerView>) -> (StepView, nat)
    decreases answers.len(),
{
    if answers.len() == 0 {
        (step, 0)
    } else {
        let (reached, sent) = check_run(step, answers.drop_last());
        let answer = answers.last();
        if sends(reached) {
            (after_request(reached, answer.succeeded), sent + 1)
        } else {
            (after_reading(reached, answer.usage, answer.now), sent)
        }
    }
}

proof fn lemma_check_run(
    previous: Option<Seq<WindowView>>,
    retry: bool,
    answers: Seq<AnswerView>,
)
    ensures
        ({
            let (reached, sent) = check_run(check_begin(previous, retry), answers);
            let first = previous is None || retry;
            let reset = previous is Some && answers.len() > 0 && answers[0].usage is Some
                && any_reset(previous->0, answers[0].usage->0, answers[0].now);
            &&& answers.len() == 0 ==> reached == check_begin(previous, retry) && sent == 0
            &&& answers.len() == 1 && first ==> reached is ReadAfterFirst && sent == 1
            &&& answers.len() >= 2 && first ==> reached is Done && sent == 1
            &&& answers.len() >= 1 && !first && !reset ==> reached is Done && sent == 0
            &&& answers.len() == 1 && !first && reset ==> reached is SendReset && sent == 0
            &&& answers.len() == 2 && !first && reset ==> (reached is ReadUpdated || reached is Done)
                && sent == 1
            &&& answers.len() >= 3 && !first && reset ==> reached is Done && sent == 1
        }),
    decreases answers.len(),
{
    if answers.len() > 0 {
        let short = answers.drop_last();
        lemma_check_run(previous, retry, short);
        if short.len() > 0 {
            assert(short[0] == answers[0]);
        }
    }
}

/// A check ends after three steps at most, and sends one request at most: one where the account was
/// never checked or its last request failed, and one where a window looks as if it had started anew.
pub proof fn law_a_check_sends_at_most_one_request(
    previous: Option<Seq<WindowView>>,
    retry: bool,
    answers: Seq<AnswerView>,
)
    requires
        answers.len() >= 3,
    ensures
        check_run(check_begin(previous, retry), answers).0 is Done,
        check_run(check_begin(previous, retry), answers).1 <= 1,
        check_run(check_begin(previous, retry), answers).1 == 1 <==> {
            ||| previous is None
            ||| retry
            ||| answers[0].usage matches Some(current) && any_reset(
                previous->0,
                current,
                answers[0].now,
            )
        },
{
    lemma_check_run(previous, retry, answers);
}

/// What checks have come to, by the identifiers of the accounts: the windows to compare with, and
/// whether a request is to be tried again.
pub open spec fn memory_of(entries: Seq<(String, CheckResult)>) -> Map<
    Seq<char>,
    (Seq<WindowView>, bool),
>
    decreases entries.len(),
{
    if entries.len() == 0 {
        Map::empty()
    } else {
        let (id, result) = entries.last();
        memory_of(entries.drop_last()).insert(id@, (window_views(result.windows@), result.retry))
    }
}

/// What the checks of accounts have come to.
pub struct CheckMemory {
    entries: Vec<(String, CheckResult)>,
}

/// Whether `list` holds `text`.
fn holds_text(list: &Vec<String>, text: &str) -> (found: bool)
    ensures
        found == texts(list@).contains(text@),
{
    let mut i: usize = 0;
    while i < list.len()
        invariant
            i <= list@.len(),
            forall|j: int| 0 <= j < i ==> texts(list@)[j] != text@,
        decreases list@.len() - i,
    {
        if text_eq(list[i].as_str(), text) {
            assert(texts(list@)[i as int] == text@);
            return true;
        }
        i = i + 1;
    }
    false
}

/// A copy of the states of windows.
fn copy_windows(windows: &Vec<WindowState>) -> (copy: Vec<WindowState>)
    ensures
        window_views(copy@) == window_views(windows@),
{
    let mut copy: Vec<WindowState> = Vec::new();
    let mut i: usize = 0;
    while i < windows.len()
        invariant
            i <= windows@.len(),
            copy@.len() == i,
            forall|j: int| 0 <= j < i ==> (#[trigger] copy@[j])@ == windows@[j]@,
        decreases windows@.len() - i,
    {
        let window = &windows[i];
        copy.push(
            WindowState {
                id: window.id.clone(),
                reset_at: window.reset_at,
                remaining: window.remaining,
                allowance: window.allowance,
            },
        );
        i = i + 1;
    }
    assert(window_views(copy@) =~= window_views(windows@));
    copy
}

impl CheckMemory {
    /// What the checks have come to, by the identifiers of the accounts.
    pub closed spec fn view(&self) -> Map<Seq<char>, (Seq<WindowView>, bool)> {
        memory_of(self.entries@)
    }

    /// No checks yet.
    pub fn new() -> (memory: CheckMemory)
        ensures
            memory@ == Map::<Seq<char>, (Seq<WindowView>, bool)>::empty(),
    {
        CheckMemory { entries: Vec::new() }
    }

    /// Forgets all accounts but these.
    pub fn retain(&mut self, ids: &Vec<String>)
        ensures
            final(self)@ == old(self)@.restrict(texts(ids@).to_set()),
    {
        let mut all: Vec<(String, CheckResult)> = Vec::new();
        std::mem::swap(&mut all, &mut self.entries);
        let ghost whole = all@;
        let ghost wanted = texts(ids@).to_set();
        let mut kept: Vec<(String, CheckResult)> = Vec::new();
        assert(memory_of(whole.take(0)).restrict(wanted) =~= memory_of(kept@));
        for entry in it: all
            invariant
                it.seq() == whole,
                wanted == texts(ids@).to_set(),
                memory_of(kept@) == memory_of(whole.take(it.index() as int)).restrict(wanted),
        {
            let ghost i = it.index() as int;
            assert(whole.take(i + 1).drop_last() =~= whole.take(i));
            let ghost before = kept@;
            if holds_text(ids, entry.0.as_str()) {
                kept.push(entry);
                assert(kept@.drop_last() =~= before);
            }
            assert(memory_of(kept@) =~= memory_of(whole.take(i + 1)).restrict(wanted));
        }
        assert(whole.take(whole.len() as int) =~= whole);
        self.entries = kept;
    }

    /// The position of the last entry for an account; the number of entries if there is none.
    fn position(&self, id: &str) -> (at: usize)
        ensures
            at <= self.entries@.len(),
            at < self.entries@.len() ==> {
                &&& self@.contains_key(id@)
                &&& self@[id@] == (
                    window_views(self.entries@[at as int].1.windows@),
                    self.entries@[at as int].1.retry,
                )
            },
            at == self.entries@.len() ==> !self@.contains_key(id@),
    {
        let n = self.entries.len();
        let mut i = n;
        assert(self.entries@.take(n as int) =~= self.entries@);
        while i > 0
            invariant
                i <= n,
                n == self.entries@.len(),
                memory_of(self.entries@.take(i as int)).contains_key(id@) == self@.contains_key(id@),
                self@.contains_key(id@) ==> memory_of(self.entries@.take(i as int))[id@] == self@[id@],
            decreases i,
        {
            assert(self.entries@.take(i as int).drop_last() =~= self.entries@.take(i - 1));
            if text_eq(self.entries[i - 1].0.as_str(), id) {
                return i - 1;
            }
            i = i - 1;
        }
        n
    }

    /// How the next check of an account begins.
    pub fn begin(&self, id: &str) -> (step: CheckStep)
        ensures
            step@ == (if self@.contains_key(id@) {
                check_begin(Some(self@[id@].0), self@[id@].1)
            } else {
                check_begin(None, false)
            }),
    {
        let at = self.position(id);
        if at < self.entries.len() {
            let result = &self.entries[at].1;
            begin_check(Some(copy_windows(&result.windows)), result.retry)
        } else {
            begin_check(None, false)
        }
    }

    /// Notes what a check of an account came to.
    pub fn note(&mut self, id: String, result: CheckResult)
        ensures
            final(self)@ == old(self)@.insert(id@, (window_views(result.windows@), result.retry)),
    {
        let mut all: Vec<(String, CheckResult)> = Vec::new();
        std::mem::swap(&mut all, &mut self.entries);
        let ghost whole = all@;
        let mut kept: Vec<(String, CheckResult)> = Vec::new();
        assert(memory_of(whole.take(0)).remove(id@) =~= memory_of(kept@));
        for entry in it: all
            invariant
                it.seq() == whole,
                memory_of(kept@) == memory_of(whole.take(it.index() as int)).remove(id@),
        {
            let ghost i = it.index() as int;
            assert(whole.take(i + 1).drop_last() =~= whole.take(i));
            let ghost before = kept@;
            if !text_eq(entry.0.as_str(), id.as_str()) {
                kept.push(entry);
                assert(kept@.drop_last() =~= before);
            }
            assert(memory_of(kept@) =~= memory_of(whole.take(i + 1)).remove(id@));
        }
        let ghost before = kept@;
        let ghost outcome = (window_views(result.windows@), result.retry);
        kept.push((id, result));
        proof {
            assert(whole.take(whole.len() as int) =~= whole);
            assert(kept@.drop_last() =~= before);
            assert(memory_of(whole).remove(id@).insert(id@, outcome) =~= memory_of(whole).insert(
                id@,
                outcome,
            ));
        }
        self.entries = kept;
    }
}

/// A request that failed is tried again at the next check, and one that succeeded is not; the first
/// check of an account sends one.
pub proof fn law_failed_requests_are_retried(
    memory: Map<Seq<char>, (Seq<WindowView>, bool)>,
    id: Seq<char>,
    windows: Seq<WindowView>,
)
    ensures
        ({
            let after = memory.insert(id, (windows, true))[id];
            check_begin(Some(after.0), after.1) == StepView::SendFirst(windows, "retry"@)
        }),
        ({
            let after = memory.insert(id, (windows, false))[id];
            check_begin(Some(after.0), after.1) == StepView::ReadRegular(windows)
        }),
        check_begin(None, false) == StepView::SendFirst(Seq::empty(), "startup"@),
{
}

/// A window that goes on as before does not look as if it had started anew: it is still there, its
/// time is within a minute of what it was and yet to come, and not more of it remains.
pub proof fn law_normal_use_is_no_reset(
    previous: Seq<WindowView>,
    current: Seq<WindowView>,
    now: i64,
)
    requires
        forall|i: int|
            0 <= i < current.len() ==> {
                let window = #[trigger] current[i];
                &&& window_with(previous, window.id) is Some
                &&& !has_moved(window_with(previous, window.id)->0.reset_at, window.reset_at)
                &&& window.reset_at matches Some(time) ==> time > now
                &&& window.remaining <= window_with(previous, window.id)->0.allowance
            },
    ensures
        !any_reset(previous, current, now),
{
}

/// The windows of an account's usage, if it was read without an error.
pub open spec fn known_windows(account: Option<AccountView>) -> Option<Seq<JsonView>> {
    match account {
        Some(account) => match account.usage_snapshot {
            Some(snapshot) => if snapshot.error is Some {
                None
            } else {
                Some(snapshot.windows)
            },
            None => None,
        },
        None => None,
    }
}

/// The accounts whose windows are kept active, in the order of the list: those that can be used.
pub open spec fn checked_of(accounts: Seq<AccountView>) -> Seq<AccountView>
    decreases accounts.len(),
{
    if accounts.len() == 0 {
        Seq::empty()
    } else {
        let before = checked_of(accounts.drop_last());
        if accounts.last().status == "active"@ {
            before.push(accounts.last())
        } else {
            before
        }
    }
}

/// The accounts whose windows are kept active: those that can be used.
pub fn checked_accounts(db: &Database) -> (accounts: Vec<Account>)
    ensures
        account_views(accounts@) == checked_of(db@.accounts),
{
    let mut accounts: Vec<Account> = Vec::new();
    let mut i: usize = 0;
    proof {
        assert(db@.accounts.take(0) =~= Seq::<AccountView>::empty());
        assert(account_views(accounts@) =~= Seq::<AccountView>::empty());
    }
    while i < db.accounts.len()
        invariant
            i <= db.accounts@.len(),
            account_views(accounts@) == checked_of(db@.accounts.take(i as int)),
        decreases db.accounts@.len() - i,
    {
        proof {
            let next = db@.accounts.take(i + 1);
            assert(next.drop_last() =~= db@.accounts.take(i as int));
            assert(next.last() == db.accounts@[i as int]@);
        }
        if text_eq(db.accounts[i].status.as_str(), "active") {
            let ghost before = accounts@;
            let copy = db.accounts[i].clone();
            accounts.push(copy);
            assert(account_views(accounts@) =~= account_views(before).push(copy@));
        }
        i = i + 1;
    }
    assert(db@.accounts.take(db.accounts@.len() as int) =~= db@.accounts);
    accounts
}

/// The quota windows of an account, if its usage was read without an error.
pub fn current_windows(account: Option<&Account>) -> (states: Option<Vec<StateDraft>>)
    ensures
        match known_windows(opt_account(account)) {
            Some(windows) => states matches Some(list) && state_views(list@) == sorted_states(
                windows,
            ),
            None => states is None,
        },
{
    match account {
        Some(account) => match &account.usage_snapshot {
            Some(snapshot) => if snapshot.error.is_some() {
                None
            } else {
                Some(window_states(&snapshot.windows))
            },
            None => None,
        },
        None => None,
    }
}

/// The request that keeps windows active.
pub open spec fn keep_alive_body() -> JsonView {
    JsonView::Object(
        no_fields().insert("model"@, json_str(MODEL@)).insert(
            "input"@,
            JsonView::Array(seq![message_view("user"@, PROMPT@)]),
        ).insert(
            "reasoning"@,
            JsonView::Object(no_fields().insert("effort"@, json_str("none"@))),
        ).insert("store"@, JsonView::Bool(false)).insert("stream"@, JsonView::Bool(true)),
    )
}

/// Where the request that keeps windows active goes to, or an error.
pub open spec fn keep_alive_path(config: Config, provider_id: Seq<char>) -> Result<
    Seq<char>,
    ErrorView,
> {
    match config.provider(provider_id) {
        None => Err(provider_missing(provider_id)),
        Some(provider) => if provider.mode@ != "responses-adapter"@ {
            Err(
                error_view(
                    400,
                    "Codex window keep alive requires a Responses adapter provider"@,
                ),
            )
        } else {
            Ok(path_or(provider.api.responses_path@, "/responses"@))
        },
    }
}

/// The request that keeps the windows of an account active: where it goes to and what it says, or an
/// error.
pub fn keep_alive_request(config: &Config, account: &Account) -> (result: Result<
    (String, Json),
    AppError,
>)
    ensures
        match keep_alive_path(*config, account@.provider) {
            Ok(path) => result matches Ok((own, body)) && own@ == path && body@
                == keep_alive_body(),
            Err(error) => result matches Err(own) && own@ == error,
        },
{
    let provider = match provider(config, account.provider.as_str()) {
        Ok(provider) => provider,
        Err(error) => {
            return Err(error);
        },
    };
    if !text_eq(provider.mode.as_str(), "responses-adapter") {
        return Err(
            AppError::new(400, "Codex window keep alive requires a Responses adapter provider"),
        );
    }
    let path = if provider.api.responses_path.as_str().is_empty() {
        "/responses".to_owned()
    } else {
        provider.api.responses_path.clone()
    };
    let mut input: Vec<Json> = Vec::new();
    let prompt = message("user", PROMPT);
    input.push(prompt);
    assert(items_view(input@) =~= seq![message_view("user"@, PROMPT@)]);
    let mut reasoning = JsonMap::new();
    reasoning.insert("effort", Json::text("none"));
    let mut body = JsonMap::new();
    body.insert("model", Json::text(MODEL));
    body.insert("input", Json::Array(input));
    body.insert("reasoning", Json::Object(reasoning));
    body.insert("store", Json::Bool(false));
    body.insert("stream", Json::Bool(true));
    Ok((path, Json::Object(body)))
}

/// The error of a request that was answered with this status.
pub fn keep_alive_status(status: u16) -> (result: Result<(), AppError>)
    ensures
        result is Ok == is_success(status),
        result matches Err(error) ==> error@ == error_view(
            status,
            "Keepalive request returned HTTP "@ + decimal(status as nat),
        ),
{
    if success(status) {
        return Ok(());
    }
    let mut message = "Keepalive request returned HTTP ".to_owned();
    message.append(number_text(status as u64).as_str());
    Err(AppError::new(status, message.as_str()))
}

/// Whether an event of this kind ends an answer that failed.
pub open spec fn is_failure(kind: Seq<char>) -> bool {
    kind == "response.failed"@ || kind == "response.incomplete"@
}

/// What the events of an answer, given by their kinds and payloads, say: whether it was completed, or
/// the message of the first failure.
pub open spec fn completion_of(payloads: Seq<(Seq<char>, JsonView)>) -> Result<bool, Seq<char>>
    decreases payloads.len(),
{
    if payloads.len() == 0 {
        Ok(false)
    } else {
        let (kind, payload) = payloads.last();
        match completion_of(payloads.drop_last()) {
            Err(message) => Err(message),
            Ok(completed) => if is_failure(kind) {
                Err(
                    or_default(
                        payload.str_at2("error"@, "message"@),
                        "Keepalive response failed"@,
                    ),
                )
            } else {
                Ok(completed || kind == "response.completed"@)
            },
        }
    }
}

/// What the answer to a request that keeps windows active comes to.
pub open spec fn keep_alive_error(payloads: Seq<(Seq<char>, JsonView)>) -> Option<ErrorView> {
    match completion_of(payloads) {
        Err(message) => Some(error_view(502, message)),
        Ok(false) => Some(error_view(502, "Keepalive response ended before completion"@)),
        Ok(true) => None,
    }
}

proof fn lemma_completion_prefix(payloads: Seq<(Seq<char>, JsonView)>, i: int)
    requires
        0 <= i <= payloads.len(),
    ensures
        completion_of(payloads.take(i)) matches Err(message) ==> completion_of(payloads) == Err::<
            bool,
            Seq<char>,
        >(message),
    decreases payloads.len(),
{
    if i < payloads.len() {
        lemma_completion_prefix(payloads.drop_last(), i);
        assert(payloads.drop_last().take(i) =~= payloads.take(i));
    } else {
        assert(payloads.take(i) =~= payloads);
    }
}

/// What the answer to a request that keeps windows active comes to, given the kinds and payloads of
/// its events.
pub fn keep_alive_outcome_of(payloads: &Vec<(String, Json)>) -> (result: Result<(), AppError>)
    ensures
        match keep_alive_error(payload_views(payloads@)) {
            Some(error) => result matches Err(own) && own@ == error,
            None => result is Ok,
        },
{
    let ghost all = payload_views(payloads@);
    let mut completed = false;
    let mut i: usize = 0;
    assert(all.take(0) =~= Seq::<(Seq<char>, JsonView)>::empty());
    while i < payloads.len()
        invariant
            i <= payloads@.len(),
            all == payload_views(payloads@),
            completion_of(all.take(i as int)) == Ok::<bool, Seq<char>>(completed),
        decreases payloads@.len() - i,
    {
        let kind = payloads[i].0.as_str();
        let payload = &payloads[i].1;
        proof {
            let next = all.take(i + 1);
            assert(next.drop_last() =~= all.take(i as int));
            assert(next.last() == (kind@, payload@));
            lemma_completion_prefix(all, i + 1);
        }
        if text_eq(kind, "response.failed") || text_eq(kind, "response.incomplete") {
            let message = match payload.str_at2("error", "message") {
                Some(message) => message,
                None => "Keepalive response failed",
            };
            return Err(AppError::new(502, message));
        }
        if text_eq(kind, "response.completed") {
            completed = true;
        }
        i = i + 1;
    }
    assert(all.take(payloads@.len() as int) =~= all);
    if !completed {
        return Err(AppError::new(502, "Keepalive response ended before completion"));
    }
    Ok(())
}

/// What the answer to a request that keeps windows active comes to: it must be completed and not
/// fail.
pub fn keep_alive_outcome(events: &Vec<SseEvent>) -> (result: Result<(), AppError>)
    ensures
        match keep_alive_error(stream_payloads(event_views(events@))) {
            Some(error) => result matches Err(own) && own@ == error,
            None => result is Ok,
        },
{
    let payloads = read_stream_payloads(events);
    keep_alive_outcome_of(&payloads)
}

/// The record that is logged of a request that keeps windows active.
pub open spec fn keep_alive_record_view(
    event: Seq<char>,
    account: AccountView,
    reason: Seq<char>,
    error: Option<ErrorView>,
) -> JsonView {
    let base = no_fields().insert("event"@, json_str(event)).insert(
        "accountId"@,
        json_str(account.id),
    ).insert("provider"@, json_str(account.provider)).insert("model"@, json_str(MODEL@)).insert(
        "reason"@,
        json_str(reason),
    );
    JsonView::Object(
        match error {
            Some(error) => base.insert("status"@, json_u64(error.status as u64)).insert(
                "message"@,
                json_str(error.message),
            ),
            None => base,
        },
    )
}

/// The record that is logged of a request that keeps windows active.
pub fn keep_alive_record(event: &str, account: &Account, reason: &str, error: Option<&AppError>) -> (record:
    Json)
    ensures
        record@ == keep_alive_record_view(
            event@,
            account@,
            reason@,
            match error {
                Some(error) => Some(error@),
                None => None,
            },
        ),
{
    let mut map = JsonMap::new();
    map.insert("event", Json::text(event));
    map.insert("accountId", Json::text(account.id.as_str()));
    map.insert("provider", Json::text(account.provider.as_str()));
    map.insert("model", Json::text(MODEL));
    map.insert("reason", Json::text(reason));
    if let Some(error) = error {
        map.insert("status", Json::count(error.status as u64));
        map.insert("message", Json::text(error.message.as_str()));
    }
    Json::Object(map)
}

/// Whether a window has started anew since `old_window`: the time at which it does has moved by more
/// than a minute or has become known or unknown, it has passed, or more remains than a hundredth
/// above what did.
pub open spec fn starts_anew(old_window: WindowView, window: WindowView, now: i64) -> bool {
    ||| old_window.reset_at is Some != window.reset_at is Some
    ||| (window.reset_at is Some && old_window.reset_at is Some && (window.reset_at->0
        > old_window.reset_at->0 + 60 || window.reset_at->0 < old_window.reset_at->0 - 60))
    ||| (window.reset_at is Some && window.reset_at->0 <= now)
    ||| window.remaining > old_window.allowance
}

proof fn lemma_window_with(windows: Seq<WindowView>, id: Seq<char>)
    ensures
        match window_with(windows, id) {
            Some(window) => exists|k: int|
                #![trigger windows[k]]
                {
                    &&& 0 <= k < windows.len()
                    &&& windows[k] == window
                    &&& window.id == id
                    &&& forall|j: int| k < j < windows.len() ==> (#[trigger] windows[j]).id != id
                },
            None => forall|j: int| 0 <= j < windows.len() ==> (#[trigger] windows[j]).id != id,
        },
    decreases windows.len(),
{
    if windows.len() > 0 {
        let short = windows.drop_last();
        if windows.last().id == id {
            assert(windows[windows.len() - 1] == window_with(windows, id)->0);
        } else {
            lemma_window_with(short, id);
            match window_with(short, id) {
                Some(window) => {
                    let k = choose|k: int|
                        #![trigger short[k]]
                        {
                            &&& 0 <= k < short.len()
                            &&& short[k] == window
                            &&& window.id == id
                            &&& forall|j: int| k < j < short.len() ==> (#[trigger] short[j]).id != id
                        };
                    assert(windows[k] == window);
                    assert forall|j: int| k < j < windows.len() implies (#[trigger] windows[j]).id
                        != id by {
                        if j < short.len() {
                            assert(short[j].id != id);
                        }
                    }
                },
                None => {
                    assert forall|j: int| 0 <= j < windows.len() implies (#[trigger] windows[j]).id
                        != id by {
                        if j < short.len() {
                            assert(short[j].id != id);
                        }
                    }
                },
            }
        }
    }
}

/// A request is sent for a window that started anew: where one was not there before, or has started
/// anew since, it is noticed, and where each was there before and none has, nothing is.
pub proof fn law_resets_are_noticed(
    previous: Seq<WindowView>,
    current: Seq<WindowView>,
    now: i64,
    i: int,
    k: int,
)
    requires
        forall|a: int, b: int|
            0 <= a < b < previous.len() ==> (#[trigger] previous[a]).id != (
            #[trigger] previous[b]).id,
    ensures
        0 <= i < current.len() && (forall|j: int|
            0 <= j < previous.len() ==> (#[trigger] previous[j]).id != current[i].id) ==> any_reset(
            previous,
            current,
            now,
        ),
        0 <= i < current.len() && 0 <= k < previous.len() && previous[k].id == current[i].id
            && starts_anew(previous[k], current[i], now) ==> any_reset(previous, current, now),
        any_reset(previous, current, now) ==> exists|j: int|
            #![trigger current[j]]
            0 <= j < current.len() && ((forall|p: int|
                0 <= p < previous.len() ==> (#[trigger] previous[p]).id != current[j].id) || exists|
                p: int,
            |
                0 <= p < previous.len() && (#[trigger] previous[p]).id == current[j].id
                    && starts_anew(previous[p], current[j], now)),
{
    if 0 <= i < current.len() {
        lemma_window_with(previous, current[i].id);
        if let Some(window) = window_with(previous, current[i].id) {
            let p = choose|p: int|
                #![trigger previous[p]]
                {
                    &&& 0 <= p < previous.len()
                    &&& previous[p] == window
                    &&& window.id == current[i].id
                    &&& forall|j: int|
                        p < j < previous.len() ==> (#[trigger] previous[j]).id != current[i].id
                };
            if 0 <= k < previous.len() && previous[k].id == current[i].id {
                assert(k == p) by {
                    if k < p {
                        assert(previous[k].id != previous[p].id);
                    }
                    if p < k {
                        assert(previous[p].id != previous[k].id);
                    }
                }
                if starts_anew(previous[k], current[i], now) {
                    assert(looks_reset(previous, current[i], now));
                }
            }
        } else {
            assert(looks_reset(previous, current[i], now));
            if 0 <= k < previous.len() {
                assert(previous[k].id != current[i].id);
            }
        }
    }
    if any_reset(previous, current, now) {
        let j = choose|j: int|
            0 <= j < current.len() && looks_reset(previous, #[trigger] current[j], now);
        lemma_window_with(previous, current[j].id);
        if let Some(window) = window_with(previous, current[j].id) {
            let p = choose|p: int|
                #![trigger previous[p]]
                {
                    &&& 0 <= p < previous.len()
                    &&& previous[p] == window
                    &&& window.id == current[j].id
                    &&& forall|q: int|
                        p < q < previous.len() ==> (#[trigger] previous[q]).id != current[j].id
                };
            assert(starts_anew(previous[p], current[j], now));
            assert(previous[p].id == current[j].id && starts_anew(previous[p], current[j], now));
        }
        assert(0 <= j < current.len());
    }
}

/// Quota is counted by the windows of the limit `codex`, each known by its limit and label, or else
/// by its identifier; windows of other limits, and those without either, do not count.
pub proof fn law_codex_windows_count(windows: Seq<JsonView>, window: JsonView)
    ensures
        codex_states(Seq::empty()).len() == 0,
        ({
            let label = window.str_at("label"@);
            let named = window.str_at("id"@);
            let counts = window.str_at("limitId"@) == Some("codex"@) && (label is Some
                || named is Some);
            let before = codex_states(windows);
            let after = codex_states(windows.push(window));
            &&& !counts ==> after == before
            &&& counts ==> {
                &&& after.len() == before.len() + 1
                &&& after.drop_last() == before
                &&& after.last().resets_at == window.get("resetsAt"@)
                &&& after.last().remaining == window.get("remainingPercent"@)
                &&& label is Some ==> after.last().id == "codex"@ + ":"@ + label->0
                &&& label is None ==> Some(after.last().id) == named
            }
        }),
{
    assert(windows.push(window).drop_last() =~= windows);
    let before = codex_states(windows);
    let after = codex_states(windows.push(window));
    if after.len() > before.len() {
        assert(after.drop_last() =~= before);
    }
}

/// The windows that count are sorted by what they are known by, and none is lost or doubled.
pub proof fn law_windows_are_sorted(windows: Seq<JsonView>)
    ensures
        ({
            let states = codex_states(windows);
            let sorted = sorted_states(windows);
            &&& sorted.len() == states.len()
            &&& forall|i: int, j: int|
                0 <= i < j < sorted.len() ==> precedes(
                    (#[trigger] sorted[i]).id,
                    (#[trigger] sorted[j]).id,
                ) || sorted[i].id == sorted[j].id
            &&& forall|k: int|
                0 <= k < states.len() ==> exists|i: int|
                    0 <= i < sorted.len() && #[trigger] sorted[i] == (#[trigger] states[k])
        }),
{
    let states = codex_states(windows);
    let sorted = sorted_states(windows);
    let ids = state_ids(states);
    let order = stable_order(ids, ids.len() as int);
    law_sorting(ids);
    assert forall|i: int, j: int| 0 <= i < j < sorted.len() implies precedes(
        (#[trigger] sorted[i]).id,
        (#[trigger] sorted[j]).id,
    ) || sorted[i].id == sorted[j].id by {
        assert(sorted[i] == states[order[i]]);
        assert(sorted[j] == states[order[j]]);
        assert(ids[order[i]] == sorted[i].id);
        assert(ids[order[j]] == sorted[j].id);
    }
    assert forall|k: int| 0 <= k < states.len() implies exists|i: int|
        0 <= i < sorted.len() && #[trigger] sorted[i] == (#[trigger] states[k]) by {
        assert(order.contains(k));
        let i = choose|i: int| 0 <= i < order.len() && order[i] == k;
        assert(sorted[i] == states[k]);
    }
}

/// A check remembers the newest usage that it read, and asks for another try exactly if its request
/// failed.
pub proof fn law_checks_remember_the_newest_usage(
    previous: Seq<WindowView>,
    current: Seq<WindowView>,
    succeeded: bool,
    now: i64,
    reason: Seq<char>,
)
    ensures
        after_request(StepView::SendFirst(previous, reason), succeeded) == StepView::ReadAfterFirst(
            previous,
            succeeded,
        ),
        after_reading(StepView::ReadAfterFirst(previous, succeeded), Some(current), now)
            == StepView::Done(current, !succeeded),
        after_reading(StepView::ReadAfterFirst(previous, succeeded), None, now) == StepView::Done(
            previous,
            !succeeded,
        ),
        any_reset(previous, current, now) ==> after_reading(
            StepView::ReadRegular(previous),
            Some(current),
            now,
        ) == StepView::SendReset(current, "usage_reset"@),
        !any_reset(previous, current, now) ==> after_reading(
            StepView::ReadRegular(previous),
            Some(current),
            now,
        ) == StepView::Done(current, false),
        after_reading(StepView::ReadRegular(previous), None, now) == StepView::Done(previous, false),
        after_request(StepView::SendReset(current, reason), false) == StepView::Done(current, true),
        after_request(StepView::SendReset(current, reason), true) == StepView::ReadUpdated(current),
        after_reading(StepView::ReadUpdated(previous), Some(current), now) == StepView::Done(
            current,
            false,
        ),
        after_reading(StepView::ReadUpdated(previous), None, now) == StepView::Done(previous, false),
{
}

/// Accounts that can be used are checked, in the order of the list, and no others.
pub proof fn law_active_accounts_are_checked(accounts: Seq<AccountView>, account: AccountView)
    ensures
        checked_of(Seq::empty()).len() == 0,
        account.status == "active"@ ==> checked_of(accounts.push(account)) == checked_of(
            accounts,
        ).push(account),
        account.status != "active"@ ==> checked_of(accounts.push(account)) == checked_of(accounts),
{
    assert(accounts.push(account).drop_last() =~= accounts);
}

/// The windows of an account are known if its usage was read and the last try did not fail.
pub proof fn law_windows_are_known_without_an_error(account: AccountView)
    ensures
        known_windows(None) is None,
        known_windows(Some(account)) is Some <==> account.usage_snapshot is Some
            && account.usage_snapshot->0.error is None,
        known_windows(Some(account)) is Some ==> known_windows(Some(account))->0
            == account.usage_snapshot->0.windows,
{
}

/// The request that keeps windows active asks one short question without reasoning, and its answer is
/// streamed and not stored; it goes to the answers of a provider with an adapter.
pub proof fn law_keep_alive_request(config: Config, id: Seq<char>)
    ensures
        ({
            let body = keep_alive_body();
            let input = body.items_at("input"@);
            &&& body.str_at("model"@) == Some("gpt-5.6-luna"@)
            &&& input.len() == 1
            &&& input[0].str_at("role"@) == Some("user"@)
            &&& input[0].str_at("content"@) == Some("Reply with OK."@)
            &&& body.str_at2("reasoning"@, "effort"@) == Some("none"@)
            &&& body.get("store"@) == Some(JsonView::Bool(false))
            &&& body.get("stream"@) == Some(JsonView::Bool(true))
        }),
        ({
            let provider = config.provider(id);
            let path = keep_alive_path(config, id);
            &&& path is Ok <==> provider is Some && provider->0.mode@ == "responses-adapter"@
            &&& path is Ok && provider->0.api.responses_path@.len() > 0 ==> path->Ok_0
                == provider->0.api.responses_path@
            &&& path is Ok && provider->0.api.responses_path@.len() == 0 ==> path->Ok_0
                == "/responses"@
            &&& provider is Some && path is Err ==> path->Err_0.status == 400
        }),
{
    reveal_strlit("model");
    reveal_strlit("input");
    reveal_strlit("reasoning");
    reveal_strlit("store");
    reveal_strlit("stream");
    reveal_strlit("effort");
    reveal_strlit("role");
    reveal_strlit("content");
    assert("model"@.len() == 5 && "input"@.len() == 5 && "reasoning"@.len() == 9);
    assert("store"@.len() == 5 && "stream"@.len() == 6 && "effort"@.len() == 6);
    assert("role"@.len() == 4 && "content"@.len() == 7);
    assert("model"@[0] != "input"@[0]);
    assert("model"@[0] != "store"@[0]);
    assert("input"@[0] != "store"@[0]);
    assert("stream"@[0] != "effort"@[0]);
}

/// Whether an event says that an answer failed.
pub open spec fn says_failed(entry: (Seq<char>, JsonView)) -> bool {
    entry.0 == "response.failed"@ || entry.0 == "response.incomplete"@
}

proof fn lemma_completion(payloads: Seq<(Seq<char>, JsonView)>)
    ensures
        completion_of(payloads) is Ok <==> forall|k: int|
            0 <= k < payloads.len() ==> !says_failed(#[trigger] payloads[k]),
        completion_of(payloads) == Ok::<bool, Seq<char>>(true) ==> exists|k: int|
            0 <= k < payloads.len() && (#[trigger] payloads[k]).0 == "response.completed"@,
        completion_of(payloads) == Ok::<bool, Seq<char>>(false) ==> forall|k: int|
            0 <= k < payloads.len() ==> (#[trigger] payloads[k]).0 != "response.completed"@,
    decreases payloads.len(),
{
    if payloads.len() > 0 {
        let short = payloads.drop_last();
        lemma_completion(short);
        let last = payloads[payloads.len() - 1];
        assert(forall|k: int| 0 <= k < short.len() ==> short[k] == payloads[k]);
        if completion_of(payloads) is Ok {
            assert forall|k: int| 0 <= k < payloads.len() implies !says_failed(
                #[trigger] payloads[k],
            ) by {
                if k < short.len() {
                    assert(!says_failed(short[k]));
                }
            }
            if completion_of(payloads)->Ok_0 {
                if last.0 == "response.completed"@ {
                    assert(payloads[payloads.len() - 1].0 == "response.completed"@);
                } else {
                    let k = choose|k: int|
                        0 <= k < short.len() && (#[trigger] short[k]).0 == "response.completed"@;
                    assert(payloads[k].0 == "response.completed"@);
                }
            } else {
                assert forall|k: int| 0 <= k < payloads.len() implies (#[trigger] payloads[k]).0
                    != "response.completed"@ by {
                    if k < short.len() {
                        assert(short[k].0 != "response.completed"@);
                    }
                }
            }
        } else {
            if completion_of(short) is Ok {
                assert(says_failed(payloads[payloads.len() - 1]));
            } else {
                let k = choose|k: int| 0 <= k < short.len() && says_failed(#[trigger] short[k]);
                assert(says_failed(payloads[k]));
            }
        }
    }
}

/// A request that keeps windows active has succeeded exactly if its answer was completed and nothing
/// in it failed; otherwise the first failure, or the early end, is the reason.
pub proof fn law_keep_alive_needs_a_completed_answer(payloads: Seq<(Seq<char>, JsonView)>, i: int)
    ensures
        keep_alive_error(payloads) is None <==> (forall|k: int|
            0 <= k < payloads.len() ==> !says_failed(#[trigger] payloads[k])) && exists|k: int|
            0 <= k < payloads.len() && (#[trigger] payloads[k]).0 == "response.completed"@,
        keep_alive_error(payloads) is Some ==> keep_alive_error(payloads)->0.status == 502,
        0 <= i < payloads.len() && says_failed(payloads[i]) && (forall|k: int|
            0 <= k < i ==> !says_failed(#[trigger] payloads[k])) ==> keep_alive_error(
            payloads,
        )->0.message == (match payloads[i].1.str_at2("error"@, "message"@) {
            Some(message) => message,
            None => "Keepalive response failed"@,
        }),
{
    lemma_completion(payloads);
    if 0 <= i < payloads.len() && says_failed(payloads[i]) && (forall|k: int|
        0 <= k < i ==> !says_failed(#[trigger] payloads[k])) {
        let before = payloads.take(i);
        lemma_completion(before);
        assert forall|k: int| 0 <= k < before.len() implies !says_failed(#[trigger] before[k]) by {
            assert(!says_failed(payloads[k]));
        }
        let upto = payloads.take(i + 1);
        assert(upto.drop_last() =~= before);
        assert(upto.last() == payloads[i]);
        assert(completion_of(upto) is Err);
        lemma_completion_prefix(payloads, i + 1);
    }
}

/// What is logged of a request that keeps windows active names the account, the model and the reason,
/// and, where it failed, the status and the message.
pub proof fn law_keep_alive_is_logged(
    event: Seq<char>,
    account: AccountView,
    reason: Seq<char>,
    error: Option<ErrorView>,
)
    ensures
        ({
            let record = keep_alive_record_view(event, account, reason, error);
            &&& record.str_at("event"@) == Some(event)
            &&& record.str_at("accountId"@) == Some(account.id)
            &&& record.str_at("provider"@) == Some(account.provider)
            &&& record.str_at("model"@) == Some("gpt-5.6-luna"@)
            &&& record.str_at("reason"@) == Some(reason)
            &&& error is Some ==> record.u64_at("status"@) == Some(error->0.status as u64)
                && record.str_at("message"@) == Some(error->0.message)
            &&& error is None ==> record.get("status"@) is None && record.get("message"@) is None
        }),
{
    reveal_strlit("event");
    reveal_strlit("accountId");
    reveal_strlit("provider");
    reveal_strlit("model");
    reveal_strlit("reason");
    reveal_strlit("status");
    reveal_strlit("message");
    assert("event"@.len() == 5 && "accountId"@.len() == 9 && "provider"@.len() == 8);
    assert("model"@.len() == 5 && "reason"@.len() == 6 && "status"@.len() == 6);
    assert("message"@.len() == 7);
    assert("event"@[0] != "model"@[0]);
    assert("reason"@[0] != "status"@[0]);
}

/// An answer that ends early, and a provider without an adapter, are told apart by their messages.
pub proof fn law_keep_alive_failures_say_why(
    payloads: Seq<(Seq<char>, JsonView)>,
    config: Config,
    id: Seq<char>,
)
    ensures
        (forall|k: int|
            0 <= k < payloads.len() ==> !says_failed(#[trigger] payloads[k])) && (forall|k: int|
            0 <= k < payloads.len() ==> (#[trigger] payloads[k]).0 != "response.completed"@)
            ==> keep_alive_error(payloads) is Some && keep_alive_error(payloads)->0.message
            == "Keepalive response ended before completion"@,
        config.provider(id) is Some && config.provider(id)->0.mode@ != "responses-adapter"@
            ==> keep_alive_path(config, id) is Err && keep_alive_path(config, id)->Err_0.message
            == "Codex window keep alive requires a Responses adapter provider"@,
{
    lemma_completion(payloads);
    if completion_of(payloads) == Ok::<bool, Seq<char>>(true) {
        let k = choose|k: int|
            0 <= k < payloads.len() && (#[trigger] payloads[k]).0 == "response.completed"@;
        assert(payloads[k].0 == "response.completed"@);
    }
}

}
