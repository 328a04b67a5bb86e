//! The reducer's input events and its declarative output intents.

use crate::models::{PrModel, PullRequest, RateLimit, RateLimitModel, Repo, RepoModel};
use vstd::prelude::*;

verus! {

/// A payload delivered by a completed background fetch.
#[derive(Debug)]
pub enum DataPayload {
    OrgRepos { org: String, repos: Vec<Repo>, rate_limit: RateLimit },
    InboxPrs { prs: Vec<PullRequest>, rate_limit: RateLimit },
    AllOpenPrs { prs: Vec<PullRequest>, rate_limit: RateLimit },
}

/// Mathematical image of a [`DataPayload`].
#[verifier::ext_equal]
pub enum PayloadModel {
    OrgRepos { org: Seq<char>, repos: Seq<RepoModel>, rate_limit: RateLimitModel },
    InboxPrs { prs: Seq<PrModel>, rate_limit: RateLimitModel },
    AllOpenPrs { prs: Seq<PrModel>, rate_limit: RateLimitModel },
}

impl View for DataPayload {
    type V = PayloadModel;

    open spec fn view(&self) -> PayloadModel {
        match self {
            DataPayload::OrgRepos { org, repos, rate_limit } => PayloadModel::OrgRepos {
                org: org@,
                repos: repos@.map_values(|r: Repo| r@),
                rate_limit: rate_limit@,
            },
            DataPayload::InboxPrs { prs, rate_limit } => PayloadModel::InboxPrs {
                prs: prs@.map_values(|p: PullRequest| p@),
                rate_limit: rate_limit@,
            },
            DataPayload::AllOpenPrs { prs, rate_limit } => PayloadModel::AllOpenPrs {
                prs: prs@.map_values(|p: PullRequest| p@),
                rate_limit: rate_limit@,
            },
        }
    }
}

/// One unit of input to the reducer: a user action or a background-task
/// outcome.
#[derive(Debug)]
pub enum Action {
    MoveUp,
    MoveDown,
    Select,
    Back,
    SwitchPane,
    Refresh,
    OpenInBrowser,
    ToggleSearch,
    SearchInput(char),
    SearchBackspace,
    SearchClear,
    DataLoaded(DataPayload),
    LoadError(String),
    DismissError,
    Quit,
    Tick,
}

/// Mathematical image of an [`Action`].
#[verifier::ext_equal]
pub enum ActionModel {
    MoveUp,
    MoveDown,
    Select,
    Back,
    SwitchPane,
    Refresh,
    OpenInBrowser,
    ToggleSearch,
    SearchInput(char),
    SearchBackspace,
    SearchClear,
    DataLoaded(PayloadModel),
    LoadError(Seq<char>),
    DismissError,
    Quit,
    Tick,
}

impl View for Action {
    type V = ActionModel;

    open spec fn view(&self) -> ActionModel {
        match self {
            Action::MoveUp => ActionModel::MoveUp,
            Action::MoveDown => ActionModel::MoveDown,
            Action::Select => ActionModel::Select,
            Action::Back => ActionModel::Back,
            Action::SwitchPane => ActionModel::SwitchPane,
            Action::Refresh => ActionModel::Refresh,
            Action::OpenInBrowser => ActionModel::OpenInBrowser,
            Action::ToggleSearch => ActionModel::ToggleSearch,
            Action::SearchInput(c) => ActionModel::SearchInput(*c),
            Action::SearchBackspace => ActionModel::SearchBackspace,
            Action::SearchClear => ActionModel::SearchClear,
            Action::DataLoaded(p) => ActionModel::DataLoaded(p@),
            Action::LoadError(m) => ActionModel::LoadError(m@),
            Action::DismissError => ActionModel::DismissError,
            Action::Quit => ActionModel::Quit,
            Action::Tick => ActionModel::Tick,
        }
    }
}

/// A declarative request for an externally visible effect, emitted by the
/// reducer and executed by the scheduler.
#[derive(Debug)]
pub enum SideEffect {
    RefreshAll,
    FetchOrgRepos(String),
    FetchUserRepos(String),
    FetchInbox,
    FetchAllOpenPrs,
    OpenUrl(String),
}

/// Mathematical image of a [`SideEffect`].
#[verifier::ext_equal]
pub enum IntentModel {
    RefreshAll,
    FetchOrgRepos(Seq<char>),
    FetchUserRepos(Seq<char>),
    FetchInbox,
    FetchAllOpenPrs,
    OpenUrl(Seq<char>),
}

impl View for SideEffect {
    type V = IntentModel;

    open spec fn view(&self) -> IntentModel {
        match self {
            SideEffect::RefreshAll => IntentModel::RefreshAll,
            SideEffect::FetchOrgRepos(org) => IntentModel::FetchOrgRepos(org@),
            SideEffect::FetchUserRepos(user) => IntentModel::FetchUserRepos(user@),
            SideEffect::FetchInbox => IntentModel::FetchInbox,
            SideEffect::FetchAllOpenPrs => IntentModel::FetchAllOpenPrs,
            SideEffect::OpenUrl(url) => IntentModel::OpenUrl(url@),
        }
    }
}

} // verus!
